use basalt::error::AtlasError;
use basalt::identity::IdentityCache;
use basalt::ids::SubImageID;
use basalt::keys::SubImageCacheID;
use basalt::sampler::{Filter, SamplerCache, SamplerDesc};

#[test]
fn identity_cache_replaces_on_insert() {
    let mut c = IdentityCache::new();
    let k = SubImageCacheID::Path("a".to_string());
    assert!(!c.contains(&k));
    c.insert(k.clone(), SubImageID(1));
    c.insert(SubImageCacheID::Url("a".to_string()), SubImageID(2));
    assert_eq!(c.get(&k), Some(SubImageID(1)));
    c.insert(k.clone(), SubImageID(5));
    assert_eq!(c.get(&k), Some(SubImageID(5)));
    assert_eq!(c.get(&SubImageCacheID::Url("a".to_string())), Some(SubImageID(2)));
    assert_eq!(c.get(&SubImageCacheID::Path("b".to_string())), None);
}

#[test]
fn cache_keys_compare_by_variant_and_value() {
    assert_eq!(SubImageCacheID::Path("x".to_string()), SubImageCacheID::Path("x".to_string()));
    assert_ne!(SubImageCacheID::Path("x".to_string()), SubImageCacheID::Url("x".to_string()));
    assert_eq!(SubImageCacheID::Unkeyed, SubImageCacheID::Unkeyed);
    assert!(SubImageCacheID::Unkeyed.is_unkeyed());
    assert!(!SubImageCacheID::Glyph(0, 0).is_unkeyed());
    assert_eq!(SubImageCacheID::Glyph(3, 4).duplicate(), SubImageCacheID::Glyph(3, 4));
}

#[test]
fn sampler_cache_creates_once_per_description() {
    let mut c = SamplerCache::new();
    let d = SamplerDesc::default();
    assert_eq!(c.get_or_insert(d), (0, true));
    assert_eq!(c.get_or_insert(d), (0, false));
    let e = SamplerDesc { mag_filter: Filter::Cubic, min_filter: Filter::Linear };
    assert_eq!(c.get_or_insert(e), (1, true));
    assert_eq!(c.slot_of(&e), Some(1));
    assert_eq!(c.len(), 2);
    assert_eq!(c.desc_at(0), d);
}

#[test]
fn error_messages_lead_with_their_cause() {
    assert_eq!(AtlasError::Open("not found".to_string()).message(), "Failed to open file: not found");
    assert_eq!(AtlasError::Read("eof".to_string()).message(), "Failed to read file: eof");
    assert_eq!(AtlasError::Fetch("404".to_string()).message(), "Failed to retreive url data: 404");
    assert_eq!(
        AtlasError::UnknownFormat("x".to_string()).message(),
        "Failed to guess image type for data: x"
    );
    assert_eq!(AtlasError::Decode("y".to_string()).message(), "Failed to read image: y");
    assert_eq!(AtlasError::NoSpace.message(), "No space for image.");
    assert_eq!(AtlasError::IdsExhausted.message(), "No ids left for image.");
}

// The file open itself happens outside the library; this checks the text
// that a failed open is reported with.
#[test]
fn open_failure_message_names_the_file_open() {
    let message = AtlasError::Open("No such file or directory (os error 2)".to_string()).message();
    assert!(message.starts_with("Failed to open file"));
}
