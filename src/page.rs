use vstd::prelude::*;

use crate::grid::{
    rects_intersect, required_units, unit_origin, units_for, units_per_side, PageGrid,
    UNIT_STRIDE,
};
use crate::ids::{AtlasImageID, SubImageID};
use crate::keys::SubImageCacheID;
use crate::sampler::SamplerDesc;

verus! {

/// Where a sub-image lies: its page, its id, and its pixel rectangle inside
/// the page.
#[derive(Clone, Copy, PartialEq, Eq, Structural, Debug)]
pub struct Coords {
    pub image: AtlasImageID,
    pub sub_image: SubImageID,
    pub x: u32,
    pub y: u32,
    pub w: u32,
    pub h: u32,
}

/// Colour encoding of pixel data.
#[derive(Clone, Copy, PartialEq, Eq, Structural, Debug, Hash)]
pub enum DataType {
    LRGBA,
    LRGB,
    LMono,
    SRGBA,
    SRGB,
    YUV,
}

/// Pixel data, by channel depth.
pub enum Data {
    D8(Vec<u8>),
    D10(Vec<u16>),
    D12(Vec<u16>),
    D16(Vec<u16>),
}

/// Placement record of one sub-image. `upload` is set at placement and
/// cleared once the page's backing has taken the pixels.
pub struct SubImage {
    pub cache_id: SubImageCacheID,
    pub coords: Coords,
    pub data_type: DataType,
    pub data: Data,
    pub sampler_desc: SamplerDesc,
    pub upload: bool,
    pub unit_x: usize,
    pub unit_y: usize,
    pub unit_w: usize,
    pub unit_h: usize,
}

impl SubImage {
    /// The record's unit footprint at `(unit_x, unit_y)` shares a cell with
    /// that of `other`.
    pub open spec fn overlaps(&self, other: &SubImage) -> bool {
        rects_intersect(
            self.unit_x as int,
            self.unit_y as int,
            self.unit_w as int,
            self.unit_h as int,
            other.unit_x as int,
            other.unit_y as int,
            other.unit_w as int,
            other.unit_h as int,
        )
    }
}

/// The coordinates of a `w` by `h` pixel image whose footprint starts at unit
/// `(ux, uy)` of page `page`.
pub open spec fn coords_at(
    page: AtlasImageID,
    id: SubImageID,
    ux: int,
    uy: int,
    w: u32,
    h: u32,
) -> Coords {
    Coords {
        image: page,
        sub_image: id,
        x: unit_origin(ux) as u32,
        y: unit_origin(uy) as u32,
        w,
        h,
    }
}

/// `q` is `p` with, at most, other upload marks and backing generations.
pub open spec fn same_layout(p: Page, q: Page) -> bool {
    &&& q.id() == p.id()
    &&& q.grid() == p.grid()
    &&& q.records().len() == p.records().len()
    &&& forall|k: int|
        0 <= k < q.records().len() ==> {
            let a = #[trigger] q.records()[k];
            let b = p.records()[k];
            &&& a.coords == b.coords
            &&& a.cache_id == b.cache_id
            &&& a.data_type == b.data_type
            &&& a.sampler_desc == b.sampler_desc
            &&& a.unit_x == b.unit_x && a.unit_y == b.unit_y
            &&& a.unit_w == b.unit_w && a.unit_h == b.unit_h
        }
}

/// One atlas page: an occupancy grid, the records placed in it in the order
/// of placement, and the generations of its backing image. Each generation
/// lists the sub-images that its backing holds; `current` picks the one in
/// use, if any.
pub struct Page {
    id: AtlasImageID,
    grid: PageGrid,
    sub_images: Vec<SubImage>,
    generations: Vec<Vec<SubImageID>>,
    current: Option<usize>,
}

impl Page {
    pub closed spec fn id(&self) -> AtlasImageID {
        self.id
    }

    pub closed spec fn grid(&self) -> PageGrid {
        self.grid
    }

    /// Placement records, oldest first.
    pub closed spec fn records(&self) -> Seq<SubImage> {
        self.sub_images@
    }

    /// `id` is listed in the backing generation in use.
    pub closed spec fn resident(&self, id: SubImageID) -> bool {
        match self.current {
            Some(g) => self.generations@[g as int]@.contains(id),
            None => false,
        }
    }

    /// Record `k` lies where its fields say, and its grid cells hold its id.
    pub open spec fn record_in_place(&self, k: int) -> bool {
        let r = self.records()[k];
        &&& r.coords.image == self.id()
        &&& r.unit_x < self.grid().units()
        &&& r.unit_y < self.grid().units()
        &&& (r.unit_w == 0 || r.unit_h == 0) ==> r.unit_x == 0 && r.unit_y == 0
        &&& r.unit_x + r.unit_w <= self.grid().units()
        &&& r.unit_y + r.unit_h <= self.grid().units()
        &&& r.unit_w == units_for(r.coords.w as int)
        &&& r.unit_h == units_for(r.coords.h as int)
        &&& r.coords.x == unit_origin(r.unit_x as int)
        &&& r.coords.y == unit_origin(r.unit_y as int)
        &&& forall|i: int, j: int|
            r.unit_x <= i < r.unit_x + r.unit_w && r.unit_y <= j < r.unit_y + r.unit_h
                ==> #[trigger] self.grid().cell(i, j) == Some(r.coords.sub_image)
    }

    /// Index of the record of `id`.
    pub open spec fn holds(&self, id: SubImageID, k: int) -> bool {
        0 <= k < self.records().len() && self.records()[k].coords.sub_image == id
    }

    pub open spec fn wf(&self) -> bool {
        &&& self.grid().wf()
        &&& forall|k: int| 0 <= k < self.records().len() ==> #[trigger] self.record_in_place(k)
        &&& forall|a: int, b: int|
            0 <= a < b < self.records().len() ==> (#[trigger] self.records()[a]).coords.sub_image.0
                < (#[trigger] self.records()[b]).coords.sub_image.0
        &&& self.generations_wf()
        &&& forall|k: int|
            0 <= k < self.records().len() && !(#[trigger] self.records()[k]).upload ==> self.resident(
                self.records()[k].coords.sub_image,
            )
        &&& forall|s: SubImageID| #[trigger] self.resident(s) ==> exists|k: int| self.holds(s, k)
        &&& forall|k: int|
            0 <= k < self.records().len() && (#[trigger] self.records()[k]).upload ==> !self.resident(
                self.records()[k].coords.sub_image,
            )
    }

    pub closed spec fn generations_wf(&self) -> bool {
        match self.current {
            Some(g) => g < self.generations@.len(),
            None => true,
        }
    }

    /// An empty page `id` whose side is `max_dim` pixels, with no backing yet.
    pub fn new(id: AtlasImageID, max_dim: u32) -> (r: Page)
        ensures
            r.wf(),
            r.id() == id,
            r.grid().units() == units_per_side(max_dim as int),
            r.grid().is_empty(),
            r.records() == Seq::<SubImage>::empty(),
            forall|s: SubImageID| !r.resident(s),
    {
        Page {
            id,
            grid: PageGrid::new(max_dim),
            sub_images: Vec::new(),
            generations: Vec::new(),
            current: None,
        }
    }

    pub fn page_id(&self) -> (r: AtlasImageID)
        ensures
            r == self.id(),
    {
        self.id
    }

    /// The first origin, in the grid's scan order, that can take a `w` by `h`
    /// pixel image.
    pub fn space_for(&self, w: u32, h: u32) -> (r: Option<(usize, usize)>)
        requires
            self.wf(),
        ensures
            r matches Some((x, y)) ==> self.grid().is_first_fit(
                x as int,
                y as int,
                units_for(w as int),
                units_for(h as int),
            ),
            r is None <==> !self.grid().has_space(units_for(w as int), units_for(h as int)),
    {
        let (uw, uh) = required_units(w, h);
        self.grid.find_space(uw, uh)
    }

    /// Places a `w` by `h` image as sub-image `id` with its footprint at unit
    /// `(ux, uy)`, marked for upload.
    pub fn insert_sub_image(
        &mut self,
        id: SubImageID,
        cache_id: SubImageCacheID,
        data_type: DataType,
        data: Data,
        sampler_desc: SamplerDesc,
        w: u32,
        h: u32,
        ux: usize,
        uy: usize,
    )
        requires
            old(self).wf(),
            old(self).grid().in_bounds(ux as int, uy as int),
            old(self).grid().region_free(
                ux as int,
                uy as int,
                units_for(w as int),
                units_for(h as int),
            ),
            forall|k: int|
                0 <= k < old(self).records().len() ==> (#[trigger] old(self).records()[k]).coords.sub_image.0
                    < id.0,
            (w == 0 || h == 0) ==> ux == 0 && uy == 0,
        ensures
            final(self).wf(),
            final(self).id() == old(self).id(),
            final(self).grid().units() == old(self).grid().units(),
            final(self).records().len() == old(self).records().len() + 1,
            forall|k: int|
                0 <= k < old(self).records().len() ==> #[trigger] final(self).records()[k]
                    == old(self).records()[k],
            ({
                let r = final(self).records()[old(self).records().len() as int];
                &&& r.coords == coords_at(old(self).id(), id, ux as int, uy as int, w, h)
                &&& r.cache_id@ == cache_id@
                &&& r.data_type == data_type
                &&& r.sampler_desc == sampler_desc
                &&& r.upload
                &&& r.data == data
            }),
            forall|s: SubImageID| #[trigger] final(self).resident(s) == old(self).resident(s),
            forall|i: int, j: int|
                final(self).grid().in_bounds(i, j) ==> #[trigger] final(self).grid().cell(i, j)
                    == if ux <= i < ux + units_for(w as int) && uy <= j < uy + units_for(h as int) {
                    Some(id)
                } else {
                    old(self).grid().cell(i, j)
                },
    {
        let (uw, uh) = required_units(w, h);
        proof {
            self.grid.lemma_units_fit();
            assert(ux * 34 + 1 <= u32::MAX && uy * 34 + 1 <= u32::MAX) by (nonlinear_arith)
                requires
                    ux < self.grid.units(),
                    uy < self.grid.units(),
                    self.grid.units() * 34 <= u32::MAX,
            {}
        }
        let coords = Coords {
            image: self.id,
            sub_image: id,
            x: (ux as u32) * UNIT_STRIDE + 1,
            y: (uy as u32) * UNIT_STRIDE + 1,
            w,
            h,
        };
        let ghost old_grid = self.grid;
        self.grid.place(id, ux, uy, uw, uh);
        let record = SubImage {
            cache_id,
            coords,
            data_type,
            data,
            sampler_desc,
            upload: true,
            unit_x: ux,
            unit_y: uy,
            unit_w: uw,
            unit_h: uh,
        };
        self.sub_images.push(record);
        assert(!old(self).resident(id)) by {
            if old(self).resident(id) {
                let k = choose|k: int| old(self).holds(id, k);
                assert(old(self).records()[k].coords.sub_image.0 < id.0);
            }
        }
        assert forall|s: SubImageID| #[trigger] self.resident(s) implies exists|k: int|
            self.holds(s, k) by {
            assert(old(self).resident(s));
            let k = choose|k: int| old(self).holds(s, k);
            assert(self.records()[k] == old(self).records()[k]);
            assert(self.holds(s, k));
        }
        assert forall|k: int| 0 <= k < self.records().len() implies #[trigger] self.record_in_place(
            k,
        ) by {
            if k < old(self).records().len() {
                assert(old(self).record_in_place(k));
                let r = self.records()[k];
                assert forall|i: int, j: int|
                    r.unit_x <= i < r.unit_x + r.unit_w && r.unit_y <= j < r.unit_y
                        + r.unit_h implies #[trigger] self.grid().cell(i, j) == Some(
                    r.coords.sub_image,
                ) by {
                    assert(old_grid.cell(i, j) == Some(r.coords.sub_image));
                    assert(self.grid.in_bounds(i, j));
                }
            }
        }
    }

    /// Sampler description and coordinates of `id`, when its record is held
    /// by the backing generation in use.
    pub fn image_render_data(&self, id: SubImageID) -> (r: Option<(SamplerDesc, Coords)>)
        requires
            self.wf(),
        ensures
            r is None <==> !(self.resident(id) && exists|k: int| self.holds(id, k)),
            r matches Some((d, c)) ==> exists|k: int|
                #![trigger self.records()[k]]
                self.holds(id, k) && self.records()[k].sampler_desc == d
                    && self.records()[k].coords == c,
    {
        let g = match self.current {
            Some(g) => g,
            None => {
                return None;
            },
        };
        if !vec_contains(&self.generations[g], id) {
            return None;
        }
        assert(self.resident(id));
        let mut k: usize = 0;
        while k < self.sub_images.len()
            invariant
                self.wf(),
                self.resident(id),
                k <= self.sub_images@.len(),
                forall|a: int| 0 <= a < k ==> !self.holds(id, a),
            decreases self.sub_images@.len() - k,
        {
            if self.sub_images[k].coords.sub_image == id {
                assert(self.holds(id, k as int));
                return Some((self.sub_images[k].sampler_desc, self.sub_images[k].coords));
            }
            k = k + 1;
        }
        None
    }

    /// Takes a new backing generation that holds every record placed so far,
    /// makes it the one in use, and clears the records' upload marks. Returns
    /// the ids whose pixels this generation took, oldest first.
    pub fn commit_generation(&mut self) -> (r: Vec<SubImageID>)
        requires
            old(self).wf(),
        ensures
            final(self).wf(),
            final(self).id() == old(self).id(),
            same_layout(*old(self), *final(self)),
            forall|k: int| 0 <= k < final(self).records().len() ==> !(#[trigger] final(self).records()[k]).upload,
            forall|s: SubImageID| #[trigger]
                final(self).resident(s) <==> exists|k: int| final(self).holds(s, k),
            forall|s: SubImageID|
                #[trigger] r@.contains(s) <==> exists|k: int|
                    #![trigger old(self).records()[k]]
                    old(self).holds(s, k) && old(self).records()[k].upload,
    {
        let mut resident: Vec<SubImageID> = Vec::new();
        let mut uploaded: Vec<SubImageID> = Vec::new();
        let mut k: usize = 0;
        let ghost start = *self;
        while k < self.sub_images.len()
            invariant
                k <= self.sub_images@.len(),
                self.sub_images@.len() == start.sub_images@.len(),
                self.id == start.id,
                self.grid == start.grid,
                self.generations == start.generations,
                self.current == start.current,
                resident@.len() == k,
                forall|a: int| 0 <= a < k ==> resident@[a] == self.sub_images@[a].coords.sub_image,
                forall|a: int|
                    0 <= a < self.sub_images@.len() ==> {
                        let x = #[trigger] self.sub_images@[a];
                        let y = start.sub_images@[a];
                        &&& x.coords == y.coords
                        &&& x.cache_id == y.cache_id
                        &&& x.data_type == y.data_type
                        &&& x.sampler_desc == y.sampler_desc
                        &&& x.unit_x == y.unit_x && x.unit_y == y.unit_y
                        &&& x.unit_w == y.unit_w && x.unit_h == y.unit_h
                        &&& (a < k ==> !x.upload)
                        &&& (a >= k ==> x.upload == y.upload)
                    },
                forall|s: SubImageID|
                    #[trigger] uploaded@.contains(s) <==> exists|a: int|
                        #![trigger start.sub_images@[a]]
                        0 <= a < k && start.sub_images@[a].coords.sub_image == s
                            && start.sub_images@[a].upload,
            decreases self.sub_images@.len() - k,
        {
            let ghost before = uploaded@;
            let id = self.sub_images[k].coords.sub_image;
            resident.push(id);
            let pending = self.sub_images[k].upload;
            if pending {
                uploaded.push(id);
            }
            let record = &mut self.sub_images[k];
            record.upload = false;
            assert forall|s: SubImageID| #[trigger] uploaded@.contains(s) <==> exists|a: int|
                #![trigger start.sub_images@[a]]
                0 <= a < k + 1 && start.sub_images@[a].coords.sub_image == s
                    && start.sub_images@[a].upload by {
                if pending {
                    assert(uploaded@ == before.push(id));
                    if s == id {
                        assert(uploaded@[uploaded@.len() - 1] == s);
                        assert(start.sub_images@[k as int].coords.sub_image == s);
                    } else {
                        if before.contains(s) {
                            let i = choose|i: int| 0 <= i < before.len() && before[i] == s;
                            assert(uploaded@[i] == s);
                        }
                        if uploaded@.contains(s) {
                            let i = choose|i: int| 0 <= i < uploaded@.len() && uploaded@[i] == s;
                            assert(before[i] == s);
                        }
                    }
                } else {
                    assert(uploaded@ == before);
                    assert(!start.sub_images@[k as int].upload);
                }
            }
            k = k + 1;
        }
        self.generations.push(resident);
        self.current = Some(self.generations.len() - 1);
        assert forall|s: SubImageID| #[trigger] self.resident(s) implies exists|k: int|
            self.holds(s, k) by {
            let g = self.generations@.len() - 1;
            assert(self.generations@[g] == resident);
            let a = choose|a: int| 0 <= a < resident@.len() && resident@[a] == s;
            assert(self.holds(s, a));
        }
        assert forall|s: SubImageID| (exists|k: int| self.holds(s, k)) implies #[trigger] self.resident(
            s,
        ) by {
            let a = choose|a: int| self.holds(s, a);
            let g = self.generations@.len() - 1;
            assert(self.generations@[g] == resident);
            assert(resident@[a] == s);
        }
        assert forall|a: int| 0 <= a < self.records().len() implies #[trigger] self.record_in_place(a) by {
            assert(start.record_in_place(a));
        }
        assert forall|a: int| 0 <= a < self.records().len() implies self.resident(
            (#[trigger] self.records()[a]).coords.sub_image,
        ) by {
            assert(self.holds(self.records()[a].coords.sub_image, a));
        }
        uploaded
    }

    /// Whether some record still waits for its pixels to be uploaded.
    pub fn has_pending(&self) -> (r: bool)
        ensures
            r == exists|k: int| 0 <= k < self.records().len() && (#[trigger] self.records()[k]).upload,
    {
        let mut k: usize = 0;
        while k < self.sub_images.len()
            invariant
                k <= self.sub_images@.len(),
                forall|a: int| 0 <= a < k ==> !(#[trigger] self.sub_images@[a]).upload,
            decreases self.sub_images@.len() - k,
        {
            if self.sub_images[k].upload {
                assert(self.records()[k as int].upload);
                return true;
            }
            k = k + 1;
        }
        false
    }

    /// The largest occupied unit indices of the page, in pixels.
    pub fn minimum_size(&self) -> (r: (u32, u32))
        requires
            self.wf(),
        ensures
            r.0 as int % 34 == 0 && self.grid().is_max_column(r.0 as int / 34),
            r.1 as int % 34 == 0 && self.grid().is_max_row(r.1 as int / 34),
    {
        self.grid.minimum_size()
    }
}

/// Whether `v` holds `id`.
fn vec_contains(v: &Vec<SubImageID>, id: SubImageID) -> (r: bool)
    ensures
        r == v@.contains(id),
{
    let mut i: usize = 0;
    while i < v.len()
        invariant
            i <= v@.len(),
            forall|a: int| 0 <= a < i ==> v@[a] != id,
        decreases v@.len() - i,
    {
        if v[i] == id {
            return true;
        }
        i = i + 1;
    }
    false
}

/// Two distinct records of a well-formed page never share a grid cell.
pub proof fn lemma_footprints_disjoint(page: &Page, a: int, b: int)
    requires
        page.wf(),
        0 <= a < page.records().len(),
        0 <= b < page.records().len(),
        a != b,
    ensures
        !page.records()[a].overlaps(&page.records()[b]),
{
    let ra = page.records()[a];
    let rb = page.records()[b];
    if ra.overlaps(&rb) {
        assert(page.record_in_place(a));
        assert(page.record_in_place(b));
        let i = if ra.unit_x >= rb.unit_x { ra.unit_x as int } else { rb.unit_x as int };
        let j = if ra.unit_y >= rb.unit_y { ra.unit_y as int } else { rb.unit_y as int };
        assert(page.grid().cell(i, j) == Some(ra.coords.sub_image));
        assert(page.grid().cell(i, j) == Some(rb.coords.sub_image));
        if a < b {
            assert(ra.coords.sub_image.0 < rb.coords.sub_image.0);
        } else {
            assert(rb.coords.sub_image.0 < ra.coords.sub_image.0);
        }
    }
}

} // verus!
