use vstd::prelude::*;

use crate::error::AtlasError;
use crate::grid::{units_for, units_per_side};
use crate::identity::IdentityCache;
use crate::ids::{AtlasImageID, Limits, SubImageID};
use crate::keys::{CacheKey, SubImageCacheID};
use crate::page::{coords_at, same_layout, Coords, Data, DataType, Page, SubImage};
use crate::sampler::{with_sampler, SamplerCache, SamplerDesc};

verus! {

/// One queued load: decoded pixels and how to sample them, under a cache key.
pub struct UploadRequest {
    pub cache_id: SubImageCacheID,
    pub data_type: DataType,
    pub sampler_desc: SamplerDesc,
    pub width: u32,
    pub height: u32,
    pub data: Data,
}

/// Page `k` is the first, in page order, with room for a `uw` by `uh`
/// footprint.
pub open spec fn first_with_space(pages: Seq<Page>, k: int, uw: int, uh: int) -> bool {
    &&& 0 <= k < pages.len()
    &&& pages[k].grid().has_space(uw, uh)
    &&& forall|a: int| 0 <= a < k ==> !(#[trigger] pages[a].grid().has_space(uw, uh))
}

/// Some page has room for a `uw` by `uh` footprint.
pub open spec fn any_with_space(pages: Seq<Page>, uw: int, uh: int) -> bool {
    exists|k: int| 0 <= k < pages.len() && (#[trigger] pages[k].grid().has_space(uw, uh))
}

/// A fresh page of `units` by `units` has room for a `uw` by `uh` footprint.
pub open spec fn fresh_page_fits(units: int, uw: int, uh: int) -> bool {
    0 < units && uw <= units && uh <= units
}

/// Everything that placements decide is the same in `a` and `b`.
pub open spec fn same_placements(a: AtlasState, b: AtlasState) -> bool {
    &&& a.pages() == b.pages()
    &&& a.cache() == b.cache()
    &&& a.next_sub_id() == b.next_sub_id()
    &&& a.next_page_id() == b.next_page_id()
    &&& forall|id: SubImageID| #[trigger] a.coords_of(id) == b.coords_of(id)
    &&& forall|id: SubImageID| #[trigger] a.renderable(id) == b.renderable(id)
    &&& forall|id: SubImageID| #[trigger] a.is_placed(id) ==> a.record_of(id) == b.record_of(id)
}

/// What one placement step does, from state `pre` to state `post`, for a
/// `w` by `h` image under cache key `key` sampled with `desc`.
///
/// The sampler description is recorded first. The image goes to the first
/// page, in page order, that has room, at the first fit of that page's grid;
/// when no page has room, to a fresh page with the next page id, at its
/// origin. It fails with `NoSpace` when not even a fresh page has room, and
/// with `IdsExhausted` when an id it needs is used up; a failed step places
/// nothing and consumes no id. A placed image takes the next sub-image id and
/// is recorded under its key unless the key is `Unkeyed`.
#[verifier::opaque]
pub open spec fn place_outcome(
    pre: AtlasState,
    post: AtlasState,
    key: CacheKey,
    desc: SamplerDesc,
    w: u32,
    h: u32,
    r: Result<SubImageID, AtlasError>,
) -> bool {
    let uw = units_for(w as int);
    let uh = units_for(h as int);
    let in_old = any_with_space(pre.pages(), uw, uh);
    let in_fresh = fresh_page_fits(pre.units(), uw, uh);
    &&& post.samplers() == with_sampler(pre.samplers(), desc)
    &&& post.units() == pre.units()
    &&& r is Ok <==> ((in_old || in_fresh) && pre.next_sub_id() < u64::MAX && (in_old
        || pre.next_page_id() < u64::MAX))
    &&& (!in_old && !in_fresh) ==> r == Err::<SubImageID, AtlasError>(AtlasError::NoSpace)
    &&& ((in_old || in_fresh) && r is Err) ==> r == Err::<SubImageID, AtlasError>(
        AtlasError::IdsExhausted,
    )
    &&& r is Err ==> same_placements(pre, post)
    &&& r matches Ok(id) ==> {
        &&& id == SubImageID(pre.next_sub_id())
        &&& !pre.is_placed(id)
        &&& post.is_placed(id)
        &&& !post.renderable(id)
        &&& post.record_of(id).sampler_desc == desc
        &&& post.record_of(id).cache_id@ == key
        &&& post.next_sub_id() == pre.next_sub_id() + 1
        &&& forall|o: SubImageID|
            o != id ==> #[trigger] post.coords_of(o) == pre.coords_of(o) && post.renderable(o)
                == pre.renderable(o) && (pre.is_placed(o) ==> post.record_of(o) == pre.record_of(o))
        &&& post.cache() == if key == CacheKey::Unkeyed {
            pre.cache()
        } else {
            pre.cache().insert(key, id)
        }
        &&& if in_old {
            &&& post.next_page_id() == pre.next_page_id()
            &&& post.pages().len() == pre.pages().len()
            &&& exists|k: int, ux: int, uy: int|
                {
                    &&& first_with_space(pre.pages(), k, uw, uh)
                    &&& pre.pages()[k].grid().is_first_fit(ux, uy, uw, uh)
                    &&& post.coords_of(id) == Some(
                        coords_at(pre.pages()[k].id(), id, ux, uy, w, h),
                    )
                }
        } else {
            &&& post.next_page_id() == pre.next_page_id() + 1
            &&& post.pages().len() == pre.pages().len() + 1
            &&& post.pages().last().id() == AtlasImageID(pre.next_page_id())
            &&& post.coords_of(id) == Some(
                coords_at(AtlasImageID(pre.next_page_id()), id, 0, 0, w, h),
            )
        }
    }
}

/// The state that the upload worker owns: the pages, the identity cache, the
/// sampler cache and the two id counters. Placement is append-only: records,
/// grid cells and cache entries are never removed.
pub struct AtlasState {
    max_dim: u32,
    pages: Vec<Page>,
    identity: IdentityCache,
    samplers: SamplerCache,
    next_sub: u64,
    next_page: u64,
    located: Ghost<Map<SubImageID, (int, int)>>,
}

impl AtlasState {
    /// Units along each side of every page.
    pub closed spec fn units(&self) -> int {
        units_per_side(self.max_dim as int)
    }

    /// Pages in the order of their ids.
    pub closed spec fn pages(&self) -> Seq<Page> {
        self.pages@
    }

    /// Identity cache: key to sub-image.
    pub closed spec fn cache(&self) -> Map<CacheKey, SubImageID> {
        self.identity@
    }

    /// Sampler descriptions, by slot.
    pub closed spec fn samplers(&self) -> Seq<SamplerDesc> {
        self.samplers@
    }

    /// The id that the next placed sub-image takes.
    pub closed spec fn next_sub_id(&self) -> u64 {
        self.next_sub
    }

    /// The id that the next page takes.
    pub closed spec fn next_page_id(&self) -> u64 {
        self.next_page
    }

    /// `id` has been placed.
    pub closed spec fn is_placed(&self, id: SubImageID) -> bool {
        self.located@.contains_key(id)
    }

    /// Placement record of a placed `id`.
    pub closed spec fn record_of(&self, id: SubImageID) -> SubImage {
        self.pages@[self.located@[id].0].records()[self.located@[id].1]
    }

    /// Index, in `pages()`, of the page that holds a placed `id`.
    pub closed spec fn page_index_of(&self, id: SubImageID) -> int {
        self.located@[id].0
    }

    /// Index, in its page's records, of the record of a placed `id`.
    pub closed spec fn record_index_of(&self, id: SubImageID) -> int {
        self.located@[id].1
    }

    /// `id` is placed and held by the backing generation in use of its page.
    pub closed spec fn renderable(&self, id: SubImageID) -> bool {
        self.is_placed(id) && self.pages@[self.located@[id].0].resident(id)
    }

    /// Coordinates of `id`, if placed.
    pub open spec fn coords_of(&self, id: SubImageID) -> Option<Coords> {
        if self.is_placed(id) {
            Some(self.record_of(id).coords)
        } else {
            None
        }
    }

    pub closed spec fn wf(&self) -> bool {
        &&& forall|k: int|
            0 <= k < self.pages@.len() ==> {
                &&& (#[trigger] self.pages@[k]).wf()
                &&& self.pages@[k].grid().units() == self.units()
                &&& self.pages@[k].id().0 < self.next_page
            }
        &&& forall|a: int, b: int|
            0 <= a < b < self.pages@.len() ==> (#[trigger] self.pages@[a]).id().0 < (
            #[trigger] self.pages@[b]).id().0
        &&& self.identity.wf()
        &&& self.samplers.wf()
        &&& forall|id: SubImageID| #[trigger]
            self.located@.contains_key(id) ==> {
                &&& 0 <= self.located@[id].0 < self.pages@.len()
                &&& self.pages@[self.located@[id].0].holds(id, self.located@[id].1)
                &&& id.0 < self.next_sub
            }
        &&& forall|k: int, j: int|
            0 <= k < self.pages@.len() && 0 <= j < self.pages@[k].records().len() ==> {
                let rec = #[trigger] self.pages@[k].records()[j];
                &&& self.located@.contains_key(rec.coords.sub_image)
                &&& self.located@[rec.coords.sub_image] == (k, j)
                &&& self.samplers@.contains(rec.sampler_desc)
            }
        &&& forall|key: CacheKey| #[trigger]
            self.identity@.contains_key(key) ==> key != CacheKey::Unkeyed
                && self.located@.contains_key(self.identity@[key]) && self.record_of(
                self.identity@[key],
            ).cache_id@ == key
    }

    /// An empty atlas whose pages are as large as `limits` allow.
    pub fn new(limits: &Limits) -> (r: AtlasState)
        ensures
            r.wf(),
            r.units() == units_per_side(limits.max_image_dimension_2d as int),
            r.pages() == Seq::<Page>::empty(),
            r.cache() == Map::<CacheKey, SubImageID>::empty(),
            r.samplers() == Seq::<SamplerDesc>::empty(),
            r.next_sub_id() == 0,
            r.next_page_id() == 0,
            forall|id: SubImageID| !r.is_placed(id),
    {
        AtlasState {
            max_dim: limits.max_image_dimension_2d,
            pages: Vec::new(),
            identity: IdentityCache::new(),
            samplers: SamplerCache::new(),
            next_sub: 0,
            next_page: 0,
            located: Ghost(Map::empty()),
        }
    }

    /// Whether `key` has a placed sub-image.
    pub fn is_cached(&self, key: &SubImageCacheID) -> (r: bool)
        requires
            self.wf(),
        ensures
            r == self.cache().contains_key(key@),
            key@ == CacheKey::Unkeyed ==> !r,
    {
        self.identity.contains(key)
    }

    /// The sub-image placed for `key`, if any. A returned id is always placed.
    pub fn cached_image_id(&self, key: &SubImageCacheID) -> (r: Option<SubImageID>)
        requires
            self.wf(),
        ensures
            r == (if self.cache().contains_key(key@) {
                Some(self.cache()[key@])
            } else {
                None
            }),
            r matches Some(id) ==> self.is_placed(id),
            key@ == CacheKey::Unkeyed ==> r is None,
    {
        self.identity.get(key)
    }

    /// Number of sampler slots.
    pub fn sampler_count(&self) -> (r: usize)
        ensures
            r == self.samplers().len(),
    {
        self.samplers.len()
    }

    /// Sampler description of `slot`.
    pub fn sampler_desc(&self, slot: usize) -> (r: SamplerDesc)
        requires
            slot < self.samplers().len(),
        ensures
            r == self.samplers()[slot as int],
    {
        self.samplers.desc_at(slot)
    }

    /// Index of the first page with room for a `w` by `h` image, and the
    /// first fit in it.
    fn first_page_with_space(&self, w: u32, h: u32) -> (r: Option<(usize, usize, usize)>)
        requires
            self.wf(),
        ensures
            r is None <==> !any_with_space(self.pages(), units_for(w as int), units_for(h as int)),
            r matches Some((k, ux, uy)) ==> first_with_space(
                self.pages(),
                k as int,
                units_for(w as int),
                units_for(h as int),
            ) && self.pages()[k as int].grid().is_first_fit(
                ux as int,
                uy as int,
                units_for(w as int),
                units_for(h as int),
            ),
    {
        let mut k: usize = 0;
        while k < self.pages.len()
            invariant
                self.wf(),
                k <= self.pages@.len(),
                forall|a: int|
                    0 <= a < k ==> !(#[trigger] self.pages@[a]).grid().has_space(
                        units_for(w as int),
                        units_for(h as int),
                    ),
            decreases self.pages@.len() - k,
        {
            assert(self.pages@[k as int].wf());
            match self.pages[k].space_for(w, h) {
                Some((ux, uy)) => {
                    return Some((k, ux, uy));
                },
                None => {},
            }
            k = k + 1;
        }
        None
    }

    /// One placement step of the upload worker; see `place_outcome`.
    #[verifier::rlimit(60)]
    pub fn place(&mut self, req: UploadRequest) -> (r: Result<SubImageID, AtlasError>)
        requires
            old(self).wf(),
        ensures
            final(self).wf(),
            place_outcome(
                *old(self),
                *final(self),
                req.cache_id@,
                req.sampler_desc,
                req.width,
                req.height,
                r,
            ),
    {
        proof {
            reveal(place_outcome);
        }
        let UploadRequest { cache_id, data_type, sampler_desc, width, height, data } = req;
        let ghost uw = units_for(width as int);
        let ghost uh = units_for(height as int);
        let _ = self.samplers.get_or_insert(sampler_desc);
        proof {
            assert forall|k: int, j: int|
                0 <= k < self.pages@.len() && 0 <= j < self.pages@[k].records().len() implies {
                let rec = #[trigger] self.pages@[k].records()[j];
                &&& self.located@.contains_key(rec.coords.sub_image)
                &&& self.located@[rec.coords.sub_image] == (k, j)
                &&& self.samplers@.contains(rec.sampler_desc)
            } by {
                let rec = self.pages@[k].records()[j];
                let i = choose|i: int|
                    0 <= i < old(self).samplers@.len() && old(self).samplers@[i] == rec.sampler_desc;
                if !old(self).samplers@.contains(sampler_desc) {
                    assert(self.samplers@[i] == rec.sampler_desc);
                }
            }
            assert(self.samplers@.contains(sampler_desc)) by {
                if old(self).samplers@.contains(sampler_desc) {
                } else {
                    assert(self.samplers@[self.samplers@.len() - 1] == sampler_desc);
                }
            }
        }
        let ghost mid = *self;
        let found = self.first_page_with_space(width, height);
        let (k, ux, uy) = match found {
            Some(f) => {
                if self.next_sub == u64::MAX {
                    return Err(AtlasError::IdsExhausted);
                }
                f
            },
            None => {
                let page = Page::new(AtlasImageID(self.next_page), self.max_dim);
                proof {
                    page.grid().lemma_empty_grid_space(uw, uh);
                }
                match page.space_for(width, height) {
                    None => {
                        return Err(AtlasError::NoSpace);
                    },
                    Some((ux, uy)) => {
                        if self.next_sub == u64::MAX || self.next_page == u64::MAX {
                            return Err(AtlasError::IdsExhausted);
                        }
                        assert(ux == 0 && uy == 0) by {
                            if ux != 0 || uy != 0 {
                                assert(page.grid().region_free(0, 0, uw, uh));
                                assert(page.grid().in_bounds(0, 0));
                            }
                        }
                        self.pages.push(page);
                        self.next_page = self.next_page + 1;
                        proof {
                            assert(self.pages@[self.pages@.len() - 1] == page);
                            assert forall|a: int, j: int|
                                0 <= a < self.pages@.len() && 0 <= j
                                    < self.pages@[a].records().len() implies {
                                let rec = #[trigger] self.pages@[a].records()[j];
                                &&& self.located@.contains_key(rec.coords.sub_image)
                                &&& self.located@[rec.coords.sub_image] == (a, j)
                                &&& self.samplers@.contains(rec.sampler_desc)
                            } by {
                                assert(a < mid.pages@.len());
                                assert(self.pages@[a] == mid.pages@[a]);
                            }
                        }
                        (self.pages.len() - 1, ux, uy)
                    },
                }
            },
        };
        let ghost pre = *self;
        let ghost n: int = self.pages@[k as int].records().len() as int;
        let id = SubImageID(self.next_sub);
        let key = cache_id.duplicate();
        proof {
            assert(pre.pages@[k as int].wf());
            assert forall|j: int|
                0 <= j < pre.pages@[k as int].records().len() implies (
            #[trigger] pre.pages@[k as int].records()[j]).coords.sub_image.0 < id.0 by {
                let rec = pre.pages@[k as int].records()[j];
                assert(pre.located@.contains_key(rec.coords.sub_image));
            }
            assert(!pre.located@.contains_key(id));
            if pre.pages@[k as int].resident(id) {
                let j = choose|j: int| pre.pages@[k as int].holds(id, j);
                assert(pre.pages@[k as int].records()[j].coords.sub_image.0 < id.0);
            }
        }
        proof {
            if (width == 0 || height == 0) && found is Some {
                pre.pages@[k as int].grid().lemma_empty_footprint_at_origin(
                    ux as int,
                    uy as int,
                    uw,
                    uh,
                );
            }
        }
        let page = &mut self.pages[k];
        page.insert_sub_image(id, cache_id, data_type, data, sampler_desc, width, height, ux, uy);
        self.next_sub = self.next_sub + 1;
        self.located = Ghost(self.located@.insert(id, (k as int, n)));
        proof {
            let post = *self;
            assert forall|a: int| 0 <= a < post.pages@.len() && a != k implies post.pages@[a]
                == pre.pages@[a] by {}
            assert forall|o: SubImageID| #[trigger]
                post.located@.contains_key(o) implies {
                &&& 0 <= post.located@[o].0 < post.pages@.len()
                &&& post.pages@[post.located@[o].0].holds(o, post.located@[o].1)
                &&& o.0 < post.next_sub
            } by {
                if o != id {
                    let (a, j) = pre.located@[o];
                    assert(pre.pages@[a].holds(o, j));
                    if a == k {
                        assert(post.pages@[a].records()[j] == pre.pages@[a].records()[j]);
                    }
                }
            }
            assert forall|a: int, j: int|
                0 <= a < post.pages@.len() && 0 <= j < post.pages@[a].records().len() implies {
                let rec = #[trigger] post.pages@[a].records()[j];
                &&& post.located@.contains_key(rec.coords.sub_image)
                &&& post.located@[rec.coords.sub_image] == (a, j)
                &&& post.samplers@.contains(rec.sampler_desc)
            } by {
                if a == k && j == n {
                } else {
                    if a == k {
                        assert(post.pages@[a].records()[j] == pre.pages@[a].records()[j]);
                    }
                    let rec = pre.pages@[a].records()[j];
                    assert(pre.located@.contains_key(rec.coords.sub_image));
                    assert(rec.coords.sub_image != id);
                }
            }
            assert forall|a: int, b: int|
                0 <= a < b < post.pages@.len() implies (#[trigger] post.pages@[a]).id().0 < (
            #[trigger] post.pages@[b]).id().0 by {
                assert(pre.pages@[a].id() == post.pages@[a].id());
                assert(pre.pages@[b].id() == post.pages@[b].id());
            }
            assert forall|a: int| 0 <= a < post.pages@.len() implies {
                &&& (#[trigger] post.pages@[a]).wf()
                &&& post.pages@[a].grid().units() == post.units()
                &&& post.pages@[a].id().0 < post.next_page
            } by {
                assert(pre.pages@[a].wf());
            }
            assert forall|o: SubImageID| o != id implies #[trigger] post.coords_of(o)
                == pre.coords_of(o) && post.renderable(o) == pre.renderable(o) && (
            pre.is_placed(o) ==> post.record_of(o) == pre.record_of(o)) by {
                if pre.located@.contains_key(o) {
                    let (a, j) = pre.located@[o];
                    if a == k {
                        assert(post.pages@[a].records()[j] == pre.pages@[a].records()[j]);
                        assert(post.pages@[a].resident(o) == pre.pages@[a].resident(o));
                    }
                }
            }
            assert(post.pages@[k as int].holds(id, n as int));
            assert(post.record_of(id) == post.pages@[k as int].records()[n]);
        }
        if !key.is_unkeyed() {
            self.identity.insert(key, id);
        }
        proof {
            let post = *self;
            assert forall|c: CacheKey| #[trigger]
                post.identity@.contains_key(c) implies c != CacheKey::Unkeyed
                && post.located@.contains_key(post.identity@[c]) by {
                if c != key@ || key@ == CacheKey::Unkeyed {
                    assert(pre.identity@.contains_key(c));
                }
            }
            // no page had space: the footprint went to the fresh page at its origin
            if found is None {
                assert(!any_with_space(old(self).pages(), uw, uh));
                assert(post.pages@.last() == post.pages@[k as int]);
                assert(post.pages@.last().id() == AtlasImageID(old(self).next_page));
            } else {
                let (fk, fx, fy) = found->Some_0;
                assert(first_with_space(old(self).pages(), fk as int, uw, uh));
                assert(old(self).pages()[fk as int].grid().is_first_fit(fx as int, fy as int, uw, uh));
                assert(post.coords_of(id) == Some(
                    coords_at(old(self).pages()[fk as int].id(), id, fx as int, fy as int, width, height),
                ));
            }
        }
        Ok(id)
    }

    /// Coordinates of `id` and the sampler slot of its description, when `id`
    /// is held by the backing generation in use of its page.
    pub fn image_render_data(&self, id: SubImageID) -> (r: Option<(Coords, usize)>)
        requires
            self.wf(),
        ensures
            r is Some <==> self.renderable(id),
            r matches Some((c, slot)) ==> {
                &&& self.coords_of(id) == Some(c)
                &&& slot < self.samplers().len()
                &&& self.samplers()[slot as int] == self.record_of(id).sampler_desc
            },
    {
        let mut k: usize = 0;
        while k < self.pages.len()
            invariant
                self.wf(),
                k <= self.pages@.len(),
                self.located@.contains_key(id) && self.located@[id].0 < k ==> !self.renderable(id),
            decreases self.pages@.len() - k,
        {
            assert(self.pages@[k as int].wf());
            match self.pages[k].image_render_data(id) {
                Some((d, c)) => {
                    let ghost j = choose|j: int|
                        #![trigger self.pages@[k as int].records()[j]]
                        self.pages@[k as int].holds(id, j) && self.pages@[k as int].records()[j].sampler_desc == d
                            && self.pages@[k as int].records()[j].coords == c;
                    assert(self.located@[self.pages@[k as int].records()[j].coords.sub_image] == (
                    k as int, j));
                    match self.samplers.slot_of(&d) {
                        Some(slot) => {
                            return Some((c, slot));
                        },
                        None => {
                            assert(false);
                            return None;
                        },
                    }
                },
                None => {
                    proof {
                        if self.located@.contains_key(id) && self.located@[id].0 == k {
                            assert(self.pages@[k as int].holds(id, self.located@[id].1));
                        }
                    }
                },
            }
            k = k + 1;
        }
        None
    }

    /// Gives every page with records waiting for upload a new backing
    /// generation that holds all its records. Afterwards every placed
    /// sub-image is renderable. Returns the ids whose pixels were taken.
    pub fn commit_uploads(&mut self) -> (r: Vec<SubImageID>)
        requires
            old(self).wf(),
        ensures
            final(self).wf(),
            final(self).units() == old(self).units(),
            final(self).cache() == old(self).cache(),
            final(self).samplers() == old(self).samplers(),
            final(self).next_sub_id() == old(self).next_sub_id(),
            final(self).next_page_id() == old(self).next_page_id(),
            final(self).pages().len() == old(self).pages().len(),
            forall|id: SubImageID| #[trigger] final(self).is_placed(id) == old(self).is_placed(id),
            forall|id: SubImageID| #[trigger] final(self).coords_of(id) == old(self).coords_of(id),
            forall|id: SubImageID| #[trigger] final(self).is_placed(id) ==> {
                let (a, b) = (final(self).record_of(id), old(self).record_of(id));
                a.sampler_desc == b.sampler_desc && a.cache_id == b.cache_id
            },
            forall|id: SubImageID| #[trigger] final(self).renderable(id) == final(self).is_placed(id),
            forall|id: SubImageID| #[trigger]
                r@.contains(id) <==> old(self).is_placed(id) && !old(self).renderable(id),
    {
        let mut out: Vec<SubImageID> = Vec::new();
        let mut k: usize = 0;
        let ghost start = *self;
        while k < self.pages.len()
            invariant
                self.wf(),
                k <= self.pages@.len(),
                self.pages@.len() == start.pages@.len(),
                self.max_dim == start.max_dim,
                self.identity == start.identity,
                self.samplers == start.samplers,
                self.next_sub == start.next_sub,
                self.next_page == start.next_page,
                self.located == start.located,
                forall|a: int| 0 <= a < self.pages@.len() ==> same_layout(start.pages@[a], #[trigger] self.pages@[a]),
                forall|a: int, j: int|
                    0 <= a < k && 0 <= j < self.pages@[a].records().len() ==> self.pages@[a].resident(
                        (#[trigger] self.pages@[a].records()[j]).coords.sub_image,
                    ),
                forall|a: int| k <= a < self.pages@.len() ==> #[trigger] self.pages@[a] == start.pages@[a],
                forall|id: SubImageID| #[trigger]
                    out@.contains(id) <==> (start.located@.contains_key(id) && start.located@[id].0 < k
                        && !start.renderable(id)),
            decreases self.pages@.len() - k,
        {
            assert(self.pages@[k as int].wf());
            if self.pages[k].has_pending() {
                let ghost before = *self;
                let page = &mut self.pages[k];
                let mut taken = page.commit_generation();
                proof {
                    let p = self.pages@[k as int];
                    assert forall|a: int| 0 <= a < self.pages@.len() && a != k implies self.pages@[a]
                        == before.pages@[a] by {}
                    assert(before.pages@[k as int] == start.pages@[k as int]);
                    assert(start.pages@[k as int].wf());
                    assert forall|id: SubImageID| #[trigger] taken@.contains(id) <==> (
                    start.located@.contains_key(id) && start.located@[id].0 == k && !start.renderable(id)) by {
                        let sp = start.pages@[k as int];
                        if taken@.contains(id) {
                            let j = choose|j: int|
                                #![trigger sp.records()[j]]
                                sp.holds(id, j) && sp.records()[j].upload;
                            assert(start.located@.contains_key(sp.records()[j].coords.sub_image));
                        }
                        if start.located@.contains_key(id) && start.located@[id].0 == k && !start.renderable(id) {
                            let j = start.located@[id].1;
                            assert(sp.holds(id, j));
                            assert(sp.records()[j].upload);
                        }
                    }
                    assert forall|a: int, j: int|
                        0 <= a < self.pages@.len() && 0 <= j < self.pages@[a].records().len() implies {
                        let rec = #[trigger] self.pages@[a].records()[j];
                        &&& self.located@.contains_key(rec.coords.sub_image)
                        &&& self.located@[rec.coords.sub_image] == (a, j)
                        &&& self.samplers@.contains(rec.sampler_desc)
                    } by {
                        assert(before.pages@[a].records()[j].coords == self.pages@[a].records()[j].coords);
                        assert(before.pages@[a].records()[j].sampler_desc == self.pages@[a].records()[j].sampler_desc);
                    }
                    assert forall|o: SubImageID| #[trigger]
                        self.located@.contains_key(o) implies {
                        &&& 0 <= self.located@[o].0 < self.pages@.len()
                        &&& self.pages@[self.located@[o].0].holds(o, self.located@[o].1)
                        &&& o.0 < self.next_sub
                    } by {
                        let (a, j) = self.located@[o];
                        assert(before.pages@[a].holds(o, j));
                        assert(before.pages@[a].records()[j].coords == self.pages@[a].records()[j].coords);
                    }
                    assert forall|a: int, j: int|
                        0 <= a < k + 1 && 0 <= j < self.pages@[a].records().len() implies self.pages@[a].resident(
                            (#[trigger] self.pages@[a].records()[j]).coords.sub_image,
                        ) by {
                        if a == k {
                            assert(self.pages@[a].holds(self.pages@[a].records()[j].coords.sub_image, j));
                        }
                    }
                    assert forall|a: int| 0 <= a < self.pages@.len() implies same_layout(start.pages@[a], #[trigger] self.pages@[a]) by {
                        if a == k {
                            assert(same_layout(before.pages@[a], self.pages@[a]));
                            assert forall|j: int| 0 <= j < self.pages@[a].records().len() implies {
                                let x = #[trigger] self.pages@[a].records()[j];
                                let y = start.pages@[a].records()[j];
                                &&& x.coords == y.coords
                                &&& x.cache_id == y.cache_id
                                &&& x.data_type == y.data_type
                                &&& x.sampler_desc == y.sampler_desc
                                &&& x.unit_x == y.unit_x && x.unit_y == y.unit_y
                                &&& x.unit_w == y.unit_w && x.unit_h == y.unit_h
                            } by {
                                assert(before.pages@[a] == start.pages@[a]);
                            }
                        }
                    }
                    assert forall|a: int| 0 <= a < self.pages@.len() implies {
                        &&& (#[trigger] self.pages@[a]).wf()
                        &&& self.pages@[a].grid().units() == self.units()
                        &&& self.pages@[a].id().0 < self.next_page
                    } by {
                        assert(before.pages@[a].wf());
                    }
                    assert forall|a: int, b: int|
                        0 <= a < b < self.pages@.len() implies (#[trigger] self.pages@[a]).id().0 < (
                        #[trigger] self.pages@[b]).id().0 by {
                        assert(before.pages@[a].id() == self.pages@[a].id());
                        assert(before.pages@[b].id() == self.pages@[b].id());
                    }
                }
                let ghost prev = out@;
                let ghost moved = taken@;
                out.append(&mut taken);
                proof {
                    assert(out@ == prev + moved);
                    assert forall|id: SubImageID| #[trigger] out@.contains(id) <==> (
                    start.located@.contains_key(id) && start.located@[id].0 < k + 1 && !start.renderable(id)) by {
                        if out@.contains(id) {
                            let i = choose|i: int| 0 <= i < out@.len() && out@[i] == id;
                            if i < prev.len() {
                                assert(prev[i] == id);
                                assert(prev.contains(id));
                            } else {
                                assert(moved[i - prev.len()] == id);
                                assert(moved.contains(id));
                            }
                        }
                        if start.located@.contains_key(id) && start.located@[id].0 < k + 1 && !start.renderable(id) {
                            if start.located@[id].0 < k {
                                assert(prev.contains(id));
                                let i = choose|i: int| 0 <= i < prev.len() && prev[i] == id;
                                assert(out@[i] == id);
                            } else {
                                assert(moved.contains(id));
                                let i = choose|i: int| 0 <= i < moved.len() && moved[i] == id;
                                assert(out@[prev.len() + i] == id);
                            }
                        }
                    }
                }
            } else {
                proof {
                    assert forall|j: int| 0 <= j < self.pages@[k as int].records().len() implies self.pages@[k as int].resident(
                        (#[trigger] self.pages@[k as int].records()[j]).coords.sub_image,
                    ) by {
                        assert(!self.pages@[k as int].records()[j].upload);
                    }
                }
            }
            k = k + 1;
        }
        proof {
            assert forall|id: SubImageID| #[trigger] self.coords_of(id) == start.coords_of(id) by {
                if self.located@.contains_key(id) {
                    let (a, j) = self.located@[id];
                    assert(same_layout(start.pages@[a], self.pages@[a]));
                    assert(self.pages@[a].records()[j].coords == start.pages@[a].records()[j].coords);
                }
            }
            assert forall|id: SubImageID| #[trigger] self.is_placed(id) implies {
                let (a, b) = (self.record_of(id), start.record_of(id));
                a.sampler_desc == b.sampler_desc && a.cache_id == b.cache_id
            } by {
                let (a, j) = self.located@[id];
                assert(same_layout(start.pages@[a], self.pages@[a]));
                assert(self.pages@[a].records()[j].sampler_desc == start.pages@[a].records()[j].sampler_desc);
            }
            assert forall|id: SubImageID| #[trigger] self.renderable(id) == self.is_placed(id) by {
                if self.located@.contains_key(id) {
                    let (a, j) = self.located@[id];
                    assert(self.pages@[a].holds(id, j));
                    assert(self.pages@[a].resident(self.pages@[a].records()[j].coords.sub_image));
                }
            }
        }
        out
    }

    /// Places a batch of requests in arrival order. Result `i` is that of
    /// request `i`, each step being one `place`: there is a sequence of states
    /// from the old state to the new one, step `i` going from `states[i]` to
    /// `states[i + 1]`.
    pub fn drain(&mut self, requests: Vec<UploadRequest>) -> (r: Vec<Result<SubImageID, AtlasError>>)
        requires
            old(self).wf(),
        ensures
            final(self).wf(),
            r@.len() == requests@.len(),
            exists|states: Seq<AtlasState>|
                {
                    &&& states.len() == requests@.len() + 1
                    &&& states[0] == *old(self)
                    &&& states.last() == *final(self)
                    &&& forall|i: int|
                        0 <= i < requests@.len() ==> place_outcome(
                            #[trigger] states[i],
                            states[i + 1],
                            requests@[i].cache_id@,
                            requests@[i].sampler_desc,
                            requests@[i].width,
                            requests@[i].height,
                            r@[i],
                        )
                },
    {
        let ghost reqs = requests@;
        let total = requests.len();
        let mut requests = requests;
        let mut results: Vec<Result<SubImageID, AtlasError>> = Vec::new();
        let ghost mut states: Seq<AtlasState> = seq![*self];
        let mut i: usize = 0;
        while requests.len() > 0
            invariant
                self.wf(),
                i + requests@.len() == reqs.len(),
                reqs.len() == total,
                requests@ == reqs.subrange(i as int, reqs.len() as int),
                results@.len() == i,
                states.len() == i + 1,
                states[0] == *old(self),
                states.last() == *self,
                forall|a: int|
                    0 <= a < i ==> place_outcome(
                        #[trigger] states[a],
                        states[a + 1],
                        reqs[a].cache_id@,
                        reqs[a].sampler_desc,
                        reqs[a].width,
                        reqs[a].height,
                        results@[a],
                    ),
            decreases requests@.len(),
        {
            let req = requests.remove(0);
            assert(req == reqs[i as int]);
            let ghost pre = *self;
            let res = self.place(req);
            results.push(res);
            proof {
                let prev = states;
                states = states.push(*self);
                assert forall|a: int|
                    0 <= a < i + 1 implies place_outcome(
                    #[trigger] states[a],
                    states[a + 1],
                    reqs[a].cache_id@,
                    reqs[a].sampler_desc,
                    reqs[a].width,
                    reqs[a].height,
                    results@[a],
                ) by {
                    if a < i {
                        assert(states[a] == prev[a] && states[a + 1] == prev[a + 1]);
                    }
                }
                assert(requests@ =~= reqs.subrange(i + 1, reqs.len() as int));
            }
            i = i + 1;
        }
        results
    }
}

/// Once a keyed image has been placed, its key answers with the placed id,
/// and that id has a placement: a second load of the same key finds it in the
/// identity cache and needs no decode.
pub proof fn lemma_dedup(
    pre: AtlasState,
    post: AtlasState,
    key: CacheKey,
    desc: SamplerDesc,
    w: u32,
    h: u32,
    r: Result<SubImageID, AtlasError>,
)
    requires
        place_outcome(pre, post, key, desc, w, h, r),
        r is Ok,
        key != CacheKey::Unkeyed,
    ensures
        post.cache().contains_key(key),
        post.cache()[key] == r->Ok_0,
        post.is_placed(r->Ok_0),
{
    reveal(place_outcome);
}

/// Ids issued by successive placements strictly increase and are never
/// issued twice; the next ids never go back.
pub proof fn lemma_ids_increase(
    s0: AtlasState,
    s1: AtlasState,
    s2: AtlasState,
    k1: CacheKey,
    k2: CacheKey,
    d1: SamplerDesc,
    d2: SamplerDesc,
    w1: u32,
    h1: u32,
    w2: u32,
    h2: u32,
    r1: Result<SubImageID, AtlasError>,
    r2: Result<SubImageID, AtlasError>,
)
    requires
        place_outcome(s0, s1, k1, d1, w1, h1, r1),
        place_outcome(s1, s2, k2, d2, w2, h2, r2),
    ensures
        s0.next_sub_id() <= s1.next_sub_id() <= s2.next_sub_id(),
        s0.next_page_id() <= s1.next_page_id() <= s2.next_page_id(),
        (r1 is Ok && r2 is Ok) ==> r1->Ok_0.0 < r2->Ok_0.0,
        r2 is Ok ==> !s1.is_placed(r2->Ok_0),
        (r1 is Ok && r2 is Ok) ==> r1->Ok_0 != r2->Ok_0,
{
    reveal(place_outcome);
}

/// Pages are kept in increasing id order, every id below the next page id.
pub proof fn lemma_page_ids_increase(s: AtlasState)
    requires
        s.wf(),
    ensures
        forall|a: int, b: int|
            0 <= a < b < s.pages().len() ==> (#[trigger] s.pages()[a]).id().0 < (
            #[trigger] s.pages()[b]).id().0,
        forall|a: int| 0 <= a < s.pages().len() ==> (#[trigger] s.pages()[a]).id().0 < s.next_page_id(),
{
    assert forall|a: int| 0 <= a < s.pages().len() implies (#[trigger] s.pages()[a]).id().0 < s.next_page_id() by {
        assert(s.pages@[a].wf());
    }
}

/// An image whose units exceed a page side on either axis is refused with
/// `NoSpace`, and nothing is placed.
pub proof fn lemma_capacity_boundary(
    pre: AtlasState,
    post: AtlasState,
    key: CacheKey,
    desc: SamplerDesc,
    w: u32,
    h: u32,
    r: Result<SubImageID, AtlasError>,
)
    requires
        pre.wf(),
        place_outcome(pre, post, key, desc, w, h, r),
        units_for(w as int) > pre.units() || units_for(h as int) > pre.units(),
    ensures
        r == Err::<SubImageID, AtlasError>(AtlasError::NoSpace),
        same_placements(pre, post),
{
    reveal(place_outcome);
    let uw = units_for(w as int);
    let uh = units_for(h as int);
    if any_with_space(pre.pages(), uw, uh) {
        let k = choose|k: int| 0 <= k < pre.pages().len() && (#[trigger] pre.pages()[k].grid().has_space(uw, uh));
        assert(pre.pages@[k].wf());
        let g = pre.pages()[k].grid();
        let (x, y) = choose|x: int, y: int| g.in_bounds(x, y) && #[trigger] g.region_free(x, y, uw, uh);
    }
}

/// Two placements with the same sampler description create at most one
/// sampler slot: the second finds the first's.
pub proof fn lemma_sampler_shared(
    s0: AtlasState,
    s1: AtlasState,
    s2: AtlasState,
    k1: CacheKey,
    k2: CacheKey,
    desc: SamplerDesc,
    w1: u32,
    h1: u32,
    w2: u32,
    h2: u32,
    r1: Result<SubImageID, AtlasError>,
    r2: Result<SubImageID, AtlasError>,
)
    requires
        place_outcome(s0, s1, k1, desc, w1, h1, r1),
        place_outcome(s1, s2, k2, desc, w2, h2, r2),
    ensures
        s1.samplers().contains(desc),
        s2.samplers() == s1.samplers(),
{
    reveal(place_outcome);
    crate::sampler::lemma_sampler_reuse(s0.samplers(), desc);
    if !s0.samplers().contains(desc) {
        assert(s1.samplers()[s0.samplers().len() as int] == desc);
    }
}

/// What every well-formed atlas state satisfies: each sampler description
/// has one slot; the key `Unkeyed` is never cached and every cached id is
/// placed; every page is well formed, of the atlas's size, with an id below
/// the next page id; and every placed id lies in one page's records, with
/// coordinates on that page and a sampler description that has a slot.
pub proof fn lemma_state_facts(s: AtlasState)
    requires
        s.wf(),
    ensures
        s.samplers().no_duplicates(),
        !s.cache().contains_key(CacheKey::Unkeyed),
        forall|key: CacheKey| #[trigger]
            s.cache().contains_key(key) ==> s.is_placed(s.cache()[key]) && s.record_of(s.cache()[key]).cache_id@ == key,
        forall|k: int|
            0 <= k < s.pages().len() ==> {
                &&& (#[trigger] s.pages()[k]).wf()
                &&& s.pages()[k].grid().units() == s.units()
                &&& s.pages()[k].id().0 < s.next_page_id()
            },
        forall|id: SubImageID| #[trigger]
            s.is_placed(id) ==> {
                let k = s.page_index_of(id);
                let j = s.record_index_of(id);
                &&& 0 <= k < s.pages().len()
                &&& s.pages()[k].holds(id, j)
                &&& s.record_of(id) == s.pages()[k].records()[j]
                &&& s.record_of(id).coords.image == s.pages()[k].id()
                &&& s.samplers().contains(s.record_of(id).sampler_desc)
                &&& id.0 < s.next_sub_id()
            },
{
    assert forall|id: SubImageID| #[trigger] s.is_placed(id) implies {
        let k = s.page_index_of(id);
        let j = s.record_index_of(id);
        &&& 0 <= k < s.pages().len()
        &&& s.pages()[k].holds(id, j)
        &&& s.record_of(id) == s.pages()[k].records()[j]
        &&& s.record_of(id).coords.image == s.pages()[k].id()
        &&& s.samplers().contains(s.record_of(id).sampler_desc)
        &&& id.0 < s.next_sub_id()
    } by {
        let (k, j) = s.located@[id];
        assert(s.pages@[k].wf());
        assert(s.pages@[k].record_in_place(j));
        let rec = s.pages@[k].records()[j];
        assert(s.located@[rec.coords.sub_image] == (k, j));
    }
}

/// Two distinct placed sub-images on the same page never share a grid cell,
/// and their pixel rectangles do not intersect.
pub proof fn lemma_placed_disjoint(s: AtlasState, a: SubImageID, b: SubImageID)
    requires
        s.wf(),
        s.is_placed(a),
        s.is_placed(b),
        a != b,
        s.record_of(a).coords.image == s.record_of(b).coords.image,
    ensures
        !s.record_of(a).overlaps(&s.record_of(b)),
        ({
            let (ca, cb) = (s.record_of(a).coords, s.record_of(b).coords);
            ca.x + ca.w <= cb.x || cb.x + cb.w <= ca.x || ca.y + ca.h <= cb.y || cb.y + cb.h <= ca.y
        }),
{
    lemma_state_facts(s);
    let (ka, ja) = s.located@[a];
    let (kb, jb) = s.located@[b];
    if ka != kb {
        if ka < kb {
            assert(s.pages@[ka].id().0 < s.pages@[kb].id().0);
        } else {
            assert(s.pages@[kb].id().0 < s.pages@[ka].id().0);
        }
    }
    let page = s.pages@[ka];
    crate::page::lemma_footprints_disjoint(&page, ja, jb);
    assert(page.record_in_place(ja));
    assert(page.record_in_place(jb));
}

/// An image that opens a new page lies on a page whose id is above that of
/// every image placed before it.
pub proof fn lemma_new_page_after_all(
    pre: AtlasState,
    post: AtlasState,
    key: CacheKey,
    desc: SamplerDesc,
    w: u32,
    h: u32,
    r: Result<SubImageID, AtlasError>,
)
    requires
        pre.wf(),
        place_outcome(pre, post, key, desc, w, h, r),
        r is Ok,
        !any_with_space(pre.pages(), units_for(w as int), units_for(h as int)),
    ensures
        forall|o: SubImageID| #[trigger]
            pre.is_placed(o) ==> {
                let fresh = post.record_of(r->Ok_0).coords.image;
                pre.record_of(o).coords.image.0 < fresh.0
            },
{
    reveal(place_outcome);
    lemma_state_facts(pre);
}

} // verus!
