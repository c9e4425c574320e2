use vstd::prelude::*;

verus! {

/// Logical identity of a load request. Requests with the same key other than
/// `Unkeyed` are placed once and then answered from the identity cache; `Unkeyed`
/// never deduplicates.
#[derive(Debug, Hash)]
pub enum SubImageCacheID {
    Path(String),
    Url(String),
    Glyph(u32, u64),
    Unkeyed,
}

/// Mathematical value of a cache key.
pub enum CacheKey {
    Path(Seq<char>),
    Url(Seq<char>),
    Glyph(u32, u64),
    Unkeyed,
}

impl View for SubImageCacheID {
    type V = CacheKey;

    open spec fn view(&self) -> CacheKey {
        match self {
            SubImageCacheID::Path(p) => CacheKey::Path(p@),
            SubImageCacheID::Url(u) => CacheKey::Url(u@),
            SubImageCacheID::Glyph(g, v) => CacheKey::Glyph(*g, *v),
            SubImageCacheID::Unkeyed => CacheKey::Unkeyed,
        }
    }
}

impl SubImageCacheID {
    /// Whether this is the key that never deduplicates.
    pub fn is_unkeyed(&self) -> (r: bool)
        ensures
            r == (self@ == CacheKey::Unkeyed),
    {
        match self {
            SubImageCacheID::Unkeyed => true,
            _ => false,
        }
    }

    /// A second key with the same value.
    pub fn duplicate(&self) -> (r: SubImageCacheID)
        ensures
            r@ == self@,
    {
        match self {
            SubImageCacheID::Path(p) => SubImageCacheID::Path(p.clone()),
            SubImageCacheID::Url(u) => SubImageCacheID::Url(u.clone()),
            SubImageCacheID::Glyph(g, v) => SubImageCacheID::Glyph(*g, *v),
            SubImageCacheID::Unkeyed => SubImageCacheID::Unkeyed,
        }
    }
}

impl Clone for SubImageCacheID {
    fn clone(&self) -> Self {
        self.duplicate()
    }
}

impl PartialEq for SubImageCacheID {
    fn eq(&self, other: &SubImageCacheID) -> bool {
        match (self, other) {
            (SubImageCacheID::Path(a), SubImageCacheID::Path(b)) => *a == *b,
            (SubImageCacheID::Url(a), SubImageCacheID::Url(b)) => *a == *b,
            (SubImageCacheID::Glyph(a, b), SubImageCacheID::Glyph(c, d)) => *a == *c && *b == *d,
            (SubImageCacheID::Unkeyed, SubImageCacheID::Unkeyed) => true,
            _ => false,
        }
    }
}

impl vstd::std_specs::cmp::PartialEqSpecImpl for SubImageCacheID {
    open spec fn obeys_eq_spec() -> bool {
        true
    }

    open spec fn eq_spec(&self, other: &SubImageCacheID) -> bool {
        self@ == other@
    }
}

impl Eq for SubImageCacheID {
}

} // verus!
