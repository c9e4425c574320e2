use basalt::atlas::{AtlasState, UploadRequest};
use basalt::error::AtlasError;
use basalt::ids::{AtlasImageID, Limits, SubImageID};
use basalt::keys::SubImageCacheID;
use basalt::page::{Data, DataType};
use basalt::sampler::{Filter, SamplerDesc};

fn limits(max: u32) -> Limits {
    Limits { max_image_dimension_2d: max, max_image_dimension_3d: max }
}

fn rgba(key: SubImageCacheID, w: u32, h: u32) -> UploadRequest {
    UploadRequest {
        cache_id: key,
        data_type: DataType::LRGBA,
        sampler_desc: SamplerDesc::default(),
        width: w,
        height: h,
        data: Data::D8(vec![0u8; (w * h * 4) as usize]),
    }
}

#[test]
fn raw_load_renders_at_its_size() {
    let mut state = AtlasState::new(&limits(16384));
    let id = state.place(rgba(SubImageCacheID::Unkeyed, 40, 40)).unwrap();
    assert_eq!(id, SubImageID(0));
    // placed but no backing generation yet
    assert!(state.image_render_data(id).is_none());
    let uploaded = state.commit_uploads();
    assert_eq!(uploaded, vec![id]);
    let (coords, slot) = state.image_render_data(id).unwrap();
    assert_eq!(coords.w, 40);
    assert_eq!(coords.h, 40);
    assert_eq!(coords.x, 1);
    assert_eq!(coords.y, 1);
    assert_eq!(coords.image, AtlasImageID(0));
    assert_eq!(coords.sub_image, id);
    assert_eq!(state.sampler_desc(slot), SamplerDesc::default());
}

#[test]
fn racing_loads_of_one_key_keep_the_last() {
    let mut state = AtlasState::new(&limits(16384));
    let key = || SubImageCacheID::Path("icons/a.png".to_string());
    let results = state.drain(vec![rgba(key(), 16, 16), rgba(key(), 16, 16)]);
    assert_eq!(results.len(), 2);
    let first = *results[0].as_ref().unwrap();
    let second = *results[1].as_ref().unwrap();
    assert_ne!(first, second);
    assert_eq!(state.cached_image_id(&key()), Some(second));
}

#[test]
fn keyed_load_is_answered_from_the_cache() {
    let mut state = AtlasState::new(&limits(16384));
    let key = SubImageCacheID::Url("http://example.org/a.png".to_string());
    assert!(!state.is_cached(&key));
    let id = state.place(rgba(key.clone(), 8, 8)).unwrap();
    assert!(state.is_cached(&key));
    assert_eq!(state.cached_image_id(&key), Some(id));
    assert_eq!(state.cached_image_id(&SubImageCacheID::Url("http://example.org/b.png".to_string())), None);
}

#[test]
fn unkeyed_loads_are_never_cached() {
    let mut state = AtlasState::new(&limits(16384));
    state.place(rgba(SubImageCacheID::Unkeyed, 8, 8)).unwrap();
    assert!(!state.is_cached(&SubImageCacheID::Unkeyed));
    assert_eq!(state.cached_image_id(&SubImageCacheID::Unkeyed), None);
}

#[test]
fn glyph_keys_compare_by_both_fields() {
    let mut state = AtlasState::new(&limits(16384));
    let id = state.place(rgba(SubImageCacheID::Glyph(7, 1), 8, 8)).unwrap();
    assert_eq!(state.cached_image_id(&SubImageCacheID::Glyph(7, 1)), Some(id));
    assert_eq!(state.cached_image_id(&SubImageCacheID::Glyph(7, 2)), None);
}

#[test]
fn ids_increase_and_never_repeat() {
    let mut state = AtlasState::new(&limits(16384));
    let results = state.drain(vec![
        rgba(SubImageCacheID::Unkeyed, 10, 10),
        rgba(SubImageCacheID::Unkeyed, 100000, 10),
        rgba(SubImageCacheID::Unkeyed, 10, 10),
        rgba(SubImageCacheID::Unkeyed, 10, 10),
    ]);
    assert_eq!(results[0].as_ref().unwrap(), &SubImageID(0));
    assert!(matches!(results[1], Err(AtlasError::NoSpace)));
    assert_eq!(results[2].as_ref().unwrap(), &SubImageID(1));
    assert_eq!(results[3].as_ref().unwrap(), &SubImageID(2));
}

#[test]
fn first_fit_scans_along_a_row_first() {
    let mut state = AtlasState::new(&limits(16384));
    let a = state.place(rgba(SubImageCacheID::Unkeyed, 40, 40)).unwrap();
    let b = state.place(rgba(SubImageCacheID::Unkeyed, 40, 40)).unwrap();
    let c = state.place(rgba(SubImageCacheID::Unkeyed, 32, 32)).unwrap();
    state.commit_uploads();
    let (ca, _) = state.image_render_data(a).unwrap();
    let (cb, _) = state.image_render_data(b).unwrap();
    let (cc, _) = state.image_render_data(c).unwrap();
    assert_eq!((ca.x, ca.y), (1, 1));
    assert_eq!((cb.x, cb.y), (69, 1));
    assert_eq!((cc.x, cc.y), (137, 1));
}

#[test]
fn full_page_opens_a_new_one() {
    // a side of 68 pixels gives two units per side
    let mut state = AtlasState::new(&limits(68));
    let a = state.place(rgba(SubImageCacheID::Unkeyed, 64, 64)).unwrap();
    let b = state.place(rgba(SubImageCacheID::Unkeyed, 32, 32)).unwrap();
    let c = state.place(rgba(SubImageCacheID::Unkeyed, 32, 32)).unwrap();
    state.commit_uploads();
    assert_eq!(state.image_render_data(a).unwrap().0.image, AtlasImageID(0));
    let cb = state.image_render_data(b).unwrap().0;
    let cc = state.image_render_data(c).unwrap().0;
    assert_eq!(cb.image, AtlasImageID(1));
    assert_eq!((cb.x, cb.y), (1, 1));
    assert_eq!(cc.image, AtlasImageID(1));
    assert_eq!((cc.x, cc.y), (35, 1));
}

#[test]
fn image_wider_than_a_page_has_no_space() {
    // 16384 / 34 = 481 units, 481 * 32 = 15392 pixels
    let mut state = AtlasState::new(&limits(16384));
    let too_wide = state.place(rgba(SubImageCacheID::Glyph(1, 1), 15393, 1));
    assert!(matches!(too_wide, Err(AtlasError::NoSpace)));
    assert!(!state.is_cached(&SubImageCacheID::Glyph(1, 1)));
    let too_tall = state.place(rgba(SubImageCacheID::Unkeyed, 1, 15393));
    assert!(matches!(too_tall, Err(AtlasError::NoSpace)));
    // nothing was consumed by the failures
    let fits = state.place(rgba(SubImageCacheID::Unkeyed, 15392, 15392)).unwrap();
    assert_eq!(fits, SubImageID(0));
    state.commit_uploads();
    assert_eq!(state.image_render_data(fits).unwrap().0.image, AtlasImageID(0));
}

#[test]
fn page_without_units_takes_nothing() {
    let mut state = AtlasState::new(&limits(33));
    assert!(matches!(state.place(rgba(SubImageCacheID::Unkeyed, 0, 0)), Err(AtlasError::NoSpace)));
    assert!(matches!(state.place(rgba(SubImageCacheID::Unkeyed, 1, 1)), Err(AtlasError::NoSpace)));
}

#[test]
fn equal_sampler_descriptions_share_a_slot() {
    let mut state = AtlasState::new(&limits(16384));
    assert_eq!(state.sampler_count(), 0);
    state.place(rgba(SubImageCacheID::Unkeyed, 8, 8)).unwrap();
    state.place(rgba(SubImageCacheID::Unkeyed, 8, 8)).unwrap();
    assert_eq!(state.sampler_count(), 1);
    let mut other = rgba(SubImageCacheID::Unkeyed, 8, 8);
    other.sampler_desc = SamplerDesc { mag_filter: Filter::Nearest, min_filter: Filter::Nearest };
    let id = state.place(other).unwrap();
    assert_eq!(state.sampler_count(), 2);
    state.commit_uploads();
    let (_, slot) = state.image_render_data(id).unwrap();
    assert_eq!(slot, 1);
    assert_eq!(state.sampler_desc(1).mag_filter, Filter::Nearest);
}

#[test]
fn failed_placement_still_records_its_sampler() {
    let mut state = AtlasState::new(&limits(68));
    assert!(state.place(rgba(SubImageCacheID::Unkeyed, 1000, 1000)).is_err());
    assert_eq!(state.sampler_count(), 1);
}

#[test]
fn render_data_of_unknown_id_is_none() {
    let mut state = AtlasState::new(&limits(16384));
    state.place(rgba(SubImageCacheID::Unkeyed, 8, 8)).unwrap();
    state.commit_uploads();
    assert!(state.image_render_data(SubImageID(99)).is_none());
}

#[test]
fn commit_takes_only_pending_uploads() {
    let mut state = AtlasState::new(&limits(68));
    let a = state.place(rgba(SubImageCacheID::Unkeyed, 64, 64)).unwrap();
    assert_eq!(state.commit_uploads(), vec![a]);
    assert_eq!(state.commit_uploads(), Vec::<SubImageID>::new());
    let b = state.place(rgba(SubImageCacheID::Unkeyed, 8, 8)).unwrap();
    assert!(state.image_render_data(b).is_none());
    assert!(state.image_render_data(a).is_some());
    assert_eq!(state.commit_uploads(), vec![b]);
    assert!(state.image_render_data(b).is_some());
}

#[test]
fn default_sampler_is_linear_magnification_nearest_minification() {
    let d = SamplerDesc::default();
    assert_eq!(d.mag_filter, Filter::Linear);
    assert_eq!(d.min_filter, Filter::Nearest);
}

#[test]
fn placed_images_never_overlap() {
    let mut state = AtlasState::new(&limits(340));
    let sizes = [(40u32, 40u32), (100, 20), (32, 32), (64, 96), (10, 70), (33, 33), (128, 10), (1, 1)];
    let mut ids = Vec::new();
    for &(w, h) in sizes.iter() {
        ids.push(state.place(rgba(SubImageCacheID::Unkeyed, w, h)).unwrap());
    }
    state.commit_uploads();
    let rects: Vec<_> = ids.iter().map(|&id| state.image_render_data(id).unwrap().0).collect();
    for (i, a) in rects.iter().enumerate() {
        for b in rects.iter().skip(i + 1) {
            if a.image != b.image {
                continue;
            }
            let apart = a.x + a.w <= b.x || b.x + b.w <= a.x || a.y + a.h <= b.y || b.y + b.h <= a.y;
            assert!(apart, "{:?} overlaps {:?}", a, b);
        }
    }
}

#[test]
fn images_with_equal_descriptions_render_with_one_slot() {
    let mut state = AtlasState::new(&limits(16384));
    let a = state.place(rgba(SubImageCacheID::Unkeyed, 8, 8)).unwrap();
    let mut other = rgba(SubImageCacheID::Unkeyed, 8, 8);
    other.sampler_desc = SamplerDesc { mag_filter: Filter::Cubic, min_filter: Filter::Linear };
    state.place(other).unwrap();
    let b = state.place(rgba(SubImageCacheID::Unkeyed, 8, 8)).unwrap();
    state.commit_uploads();
    let (_, sa) = state.image_render_data(a).unwrap();
    let (_, sb) = state.image_render_data(b).unwrap();
    assert_eq!(sa, sb);
    assert_eq!(state.image_render_data(a).unwrap().1, sa);
}

#[test]
fn empty_image_sits_at_the_page_origin() {
    let mut state = AtlasState::new(&limits(16384));
    state.place(rgba(SubImageCacheID::Unkeyed, 40, 40)).unwrap();
    let empty = state.place(rgba(SubImageCacheID::Unkeyed, 0, 10)).unwrap();
    state.commit_uploads();
    let c = state.image_render_data(empty).unwrap().0;
    assert_eq!((c.x, c.y, c.w, c.h), (1, 1, 0, 10));
}
