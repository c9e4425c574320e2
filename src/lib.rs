//! Texture-atlas core: packs decoded images into fixed-size pages on a grid
//! of occupancy cells, deduplicates repeated loads by a cache key, shares
//! sampler descriptions, and answers render-data queries.

pub mod ids;
pub mod grid;
pub mod keys;
pub mod sampler;
pub mod identity;
pub mod page;
pub mod error;
pub mod atlas;
pub mod decode;
