use vstd::prelude::*;

verus! {

/// Identifier of one packed image. Issued in increasing order, never reused.
#[derive(Clone, Copy, PartialEq, Eq, Structural, PartialOrd, Ord, Debug, Hash)]
pub struct SubImageID(pub u64);

/// Identifier of one atlas page. Issued in increasing order, never reused.
#[derive(Clone, Copy, PartialEq, Eq, Structural, PartialOrd, Ord, Debug, Hash)]
pub struct AtlasImageID(pub u64);

/// Device limits that bound the size of a page.
#[derive(Clone, Copy, PartialEq, Eq, Structural, Debug)]
pub struct Limits {
    pub max_image_dimension_2d: u32,
    pub max_image_dimension_3d: u32,
}

} // verus!
