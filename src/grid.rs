use vstd::prelude::*;

use crate::ids::SubImageID;

verus! {

/// Side of one grid unit, in pixels.
pub const UNIT_SIZE: u32 = 32;

/// Padding kept on each side of a unit, in pixels.
pub const UNIT_PADDING: u32 = 1;

/// Distance between the origins of two neighbouring units, in pixels.
pub const UNIT_STRIDE: u32 = UNIT_SIZE + 2 * UNIT_PADDING;

/// Number of units needed to cover `px` pixels: `ceil(px / UNIT_SIZE)`.
pub open spec fn units_for(px: int) -> int {
    if px % 32 == 0 {
        px / 32
    } else {
        px / 32 + 1
    }
}

/// Number of units along each side of a page whose side is `max_dim` pixels.
pub open spec fn units_per_side(max_dim: int) -> int {
    max_dim / 34
}

/// Pixel offset of the unit with index `u`, padding included.
pub open spec fn unit_origin(u: int) -> int {
    u * 34 + 1
}

/// The units that an image of `w` by `h` pixels occupies.
pub fn required_units(w: u32, h: u32) -> (r: (usize, usize))
    ensures
        r.0 as int == units_for(w as int),
        r.1 as int == units_for(h as int),
{
    let uw: u32 = if w % UNIT_SIZE == 0 { w / UNIT_SIZE } else { w / UNIT_SIZE + 1 };
    let uh: u32 = if h % UNIT_SIZE == 0 { h / UNIT_SIZE } else { h / UNIT_SIZE + 1 };
    (uw as usize, uh as usize)
}

/// Whether the unit rectangle at `(ax, ay)` of size `aw` by `ah` shares a cell
/// with the one at `(bx, by)` of size `bw` by `bh`.
pub open spec fn rects_intersect(
    ax: int,
    ay: int,
    aw: int,
    ah: int,
    bx: int,
    by: int,
    bw: int,
    bh: int,
) -> bool {
    &&& 0 < aw && 0 < ah && 0 < bw && 0 < bh
    &&& ax < bx + bw && bx < ax + aw
    &&& ay < by + bh && by < ay + ah
}

/// Scan order of candidate origins: rows of increasing `y`, and within a row
/// increasing `x`.
pub open spec fn scans_before(ax: int, ay: int, bx: int, by: int) -> bool {
    ay < by || (ay == by && ax < bx)
}

/// Square occupancy grid of one page. Each cell is free or holds the id of
/// the sub-image placed over it. Cells are only ever filled, never cleared.
pub struct PageGrid {
    units: usize,
    cells: Vec<Vec<Option<SubImageID>>>,
}

impl PageGrid {
    /// Number of units along each side.
    pub closed spec fn units(&self) -> int {
        self.units as int
    }

    /// Content of the cell in column `x`, row `y`.
    pub closed spec fn cell(&self, x: int, y: int) -> Option<SubImageID> {
        self.cells@[x]@[y]
    }

    pub closed spec fn wf(&self) -> bool {
        &&& self.cells@.len() == self.units
        &&& forall|i: int| 0 <= i < self.units ==> #[trigger] self.cells@[i]@.len() == self.units
        &&& self.units * 34 <= u32::MAX
    }

    pub open spec fn in_bounds(&self, x: int, y: int) -> bool {
        0 <= x < self.units() && 0 <= y < self.units()
    }

    pub open spec fn occupied(&self, x: int, y: int) -> bool {
        self.in_bounds(x, y) && self.cell(x, y) is Some
    }

    /// The `w` by `h` footprint at `(x, y)` lies inside the grid and every cell
    /// of it is free.
    pub open spec fn region_free(&self, x: int, y: int, w: int, h: int) -> bool {
        &&& 0 <= x && 0 <= y && 0 <= w && 0 <= h
        &&& x + w <= self.units()
        &&& y + h <= self.units()
        &&& forall|i: int, j: int|
            x <= i < x + w && y <= j < y + h ==> (#[trigger] self.cell(i, j)) is None
    }

    /// Some origin of the grid can take a `w` by `h` footprint.
    pub open spec fn has_space(&self, w: int, h: int) -> bool {
        exists|x: int, y: int| self.in_bounds(x, y) && #[trigger] self.region_free(x, y, w, h)
    }

    /// `(x, y)` is the first origin in scan order that can take a `w` by `h`
    /// footprint.
    pub open spec fn is_first_fit(&self, x: int, y: int, w: int, h: int) -> bool {
        &&& self.in_bounds(x, y)
        &&& self.region_free(x, y, w, h)
        &&& forall|a: int, b: int|
            self.in_bounds(a, b) && scans_before(a, b, x, y) ==> !#[trigger] self.region_free(
                a,
                b,
                w,
                h,
            )
    }

    /// `mx` is the largest column index holding an occupied cell, or `0` when
    /// no cell is occupied.
    pub open spec fn is_max_column(&self, mx: int) -> bool {
        &&& forall|i: int, j: int| #[trigger] self.occupied(i, j) ==> i <= mx
        &&& mx == 0 || exists|j: int| #[trigger] self.occupied(mx, j)
    }

    /// `my` is the largest row index holding an occupied cell, or `0` when no
    /// cell is occupied.
    pub open spec fn is_max_row(&self, my: int) -> bool {
        &&& forall|i: int, j: int| #[trigger] self.occupied(i, j) ==> j <= my
        &&& my == 0 || exists|i: int| #[trigger] self.occupied(i, my)
    }

    /// Every cell of the grid is free.
    pub open spec fn is_empty(&self) -> bool {
        forall|x: int, y: int| self.in_bounds(x, y) ==> (#[trigger] self.cell(x, y)) is None
    }

    /// The pixel origin of every unit fits in a `u32`.
    pub proof fn lemma_units_fit(&self)
        requires
            self.wf(),
        ensures
            self.units() * 34 <= u32::MAX,
    {
    }

    /// An empty grid has room for a footprint exactly when the footprint fits
    /// inside it, and then the first fit is the origin.
    pub proof fn lemma_empty_grid_space(&self, w: int, h: int)
        requires
            self.wf(),
            self.is_empty(),
            0 <= w,
            0 <= h,
        ensures
            self.has_space(w, h) <==> (0 < self.units() && w <= self.units() && h <= self.units()),
            self.has_space(w, h) ==> self.is_first_fit(0, 0, w, h),
    {
        if 0 < self.units() && w <= self.units() && h <= self.units() {
            assert forall|i: int, j: int| 0 <= i < w && 0 <= j < h implies (#[trigger] self.cell(
                i,
                j,
            )) is None by {
                assert(self.in_bounds(i, j));
            }
            assert(self.in_bounds(0, 0) && self.region_free(0, 0, w, h));
        }
    }

    /// An empty footprint fits first at the origin.
    pub proof fn lemma_empty_footprint_at_origin(&self, x: int, y: int, w: int, h: int)
        requires
            self.is_first_fit(x, y, w, h),
            w == 0 || h == 0,
        ensures
            x == 0 && y == 0,
    {
        if x != 0 || y != 0 {
            assert(self.in_bounds(0, 0));
            assert(self.region_free(0, 0, w, h));
            assert(scans_before(0, 0, x, y));
        }
    }

    /// Number of units along each side.
    pub fn side_units(&self) -> (r: usize)
        ensures
            r as int == self.units(),
    {
        self.units
    }

    /// An empty grid for a page whose side is `max_dim` pixels.
    pub fn new(max_dim: u32) -> (r: PageGrid)
        ensures
            r.wf(),
            r.units() == units_per_side(max_dim as int),
            r.is_empty(),
    {
        let units: usize = (max_dim / UNIT_STRIDE) as usize;
        let mut cells: Vec<Vec<Option<SubImageID>>> = Vec::new();
        let mut i: usize = 0;
        while i < units
            invariant
                i <= units,
                units == max_dim / 34,
                cells@.len() == i,
                forall|k: int| 0 <= k < i ==> #[trigger] cells@[k]@.len() == units,
                forall|k: int, l: int|
                    0 <= k < i && 0 <= l < units ==> (#[trigger] cells@[k]@[l]) is None,
            decreases units - i,
        {
            let mut column: Vec<Option<SubImageID>> = Vec::new();
            let mut j: usize = 0;
            while j < units
                invariant
                    j <= units,
                    column@.len() == j,
                    forall|l: int| 0 <= l < j ==> (#[trigger] column@[l]) is None,
                decreases units - j,
            {
                column.push(None);
                j = j + 1;
            }
            cells.push(column);
            i = i + 1;
        }
        PageGrid { units, cells }
    }

    /// Content of the cell in column `x`, row `y`.
    pub fn get(&self, x: usize, y: usize) -> (r: Option<SubImageID>)
        requires
            self.wf(),
            self.in_bounds(x as int, y as int),
        ensures
            r == self.cell(x as int, y as int),
    {
        self.cells[x][y]
    }

    /// Whether every cell of the `w` by `h` footprint at `(x, y)` lies inside
    /// the grid and is free.
    pub fn is_region_free(&self, x: usize, y: usize, w: usize, h: usize) -> (r: bool)
        requires
            self.wf(),
        ensures
            r == self.region_free(x as int, y as int, w as int, h as int),
    {
        if x > self.units || w > self.units - x || y > self.units || h > self.units - y {
            return false;
        }
        let mut i: usize = x;
        while i < x + w
            invariant
                self.wf(),
                x <= i <= x + w,
                x + w <= self.units,
                y + h <= self.units,
                forall|a: int, b: int|
                    x <= a < i && y <= b < y + h ==> (#[trigger] self.cell(a, b)) is None,
            decreases x + w - i,
        {
            let mut j: usize = y;
            while j < y + h
                invariant
                    self.wf(),
                    x <= i < x + w,
                    y <= j <= y + h,
                    x + w <= self.units,
                    y + h <= self.units,
                    forall|a: int, b: int|
                        x <= a < i && y <= b < y + h ==> (#[trigger] self.cell(a, b)) is None,
                    forall|b: int| y <= b < j ==> (#[trigger] self.cell(i as int, b)) is None,
                decreases y + h - j,
            {
                if self.cells[i][j].is_some() {
                    assert(self.cell(i as int, j as int) is Some);
                    return false;
                }
                j = j + 1;
            }
            i = i + 1;
        }
        true
    }

    /// The first origin, in scan order, whose `w` by `h` footprint lies inside
    /// the grid and is entirely free; `None` when there is none.
    pub fn find_space(&self, w: usize, h: usize) -> (r: Option<(usize, usize)>)
        requires
            self.wf(),
        ensures
            r matches Some((x, y)) ==> self.is_first_fit(x as int, y as int, w as int, h as int),
            r is None <==> !self.has_space(w as int, h as int),
    {
        let mut y: usize = 0;
        while y < self.units
            invariant
                self.wf(),
                y <= self.units,
                forall|a: int, b: int|
                    self.in_bounds(a, b) && b < y ==> !#[trigger] self.region_free(
                        a,
                        b,
                        w as int,
                        h as int,
                    ),
            decreases self.units - y,
        {
            let mut x: usize = 0;
            while x < self.units
                invariant
                    self.wf(),
                    y < self.units,
                    x <= self.units,
                    forall|a: int, b: int|
                        self.in_bounds(a, b) && (b < y || (b == y && a < x))
                            ==> !#[trigger] self.region_free(a, b, w as int, h as int),
                decreases self.units - x,
            {
                if self.is_region_free(x, y, w, h) {
                    return Some((x, y));
                }
                x = x + 1;
            }
            y = y + 1;
        }
        None
    }

    /// Marks every cell of the `w` by `h` footprint at `(x, y)` with `id`.
    pub fn place(&mut self, id: SubImageID, x: usize, y: usize, w: usize, h: usize)
        requires
            old(self).wf(),
            old(self).region_free(x as int, y as int, w as int, h as int),
        ensures
            final(self).wf(),
            final(self).units() == old(self).units(),
            forall|i: int, j: int|
                final(self).in_bounds(i, j) ==> #[trigger] final(self).cell(i, j) == if x <= i < x
                    + w && y <= j < y + h {
                    Some(id)
                } else {
                    old(self).cell(i, j)
                },
    {
        let ghost start = *self;
        let mut i: usize = x;
        while i < x + w
            invariant
                self.wf(),
                self.units == start.units,
                x <= i <= x + w,
                x + w <= self.units,
                y + h <= self.units,
                forall|a: int, b: int|
                    self.in_bounds(a, b) ==> #[trigger] self.cell(a, b) == if x <= a < i && y <= b
                        < y + h {
                        Some(id)
                    } else {
                        start.cell(a, b)
                    },
            decreases x + w - i,
        {
            let mut j: usize = y;
            while j < y + h
                invariant
                    self.wf(),
                    self.units == start.units,
                    x <= i < x + w,
                    y <= j <= y + h,
                    x + w <= self.units,
                    y + h <= self.units,
                    forall|a: int, b: int|
                        self.in_bounds(a, b) ==> #[trigger] self.cell(a, b) == if (x <= a < i && y
                            <= b < y + h) || (a == i && y <= b < j) {
                            Some(id)
                        } else {
                            start.cell(a, b)
                        },
                decreases y + h - j,
            {
                let ghost before = *self;
                let column = &mut self.cells[i];
                column.set(j, Some(id));
                assert forall|a: int, b: int| self.in_bounds(a, b) implies #[trigger] self.cell(a, b)
                    == if a == i && b == j {
                    Some(id)
                } else {
                    before.cell(a, b)
                } by {
                    if a != i {
                        assert(self.cells@[a] == before.cells@[a]);
                    }
                }
                j = j + 1;
            }
            i = i + 1;
        }
    }

    /// The largest occupied column and row indices, converted to pixels:
    /// `(max_x * UNIT_STRIDE, max_y * UNIT_STRIDE)`, with `0` for an axis
    /// when no cell is occupied.
    pub fn minimum_size(&self) -> (r: (u32, u32))
        requires
            self.wf(),
        ensures
            r.0 as int % 34 == 0 && self.is_max_column(r.0 as int / 34),
            r.1 as int % 34 == 0 && self.is_max_row(r.1 as int / 34),
    {
        let mut max_x: usize = 0;
        let mut max_y: usize = 0;
        let mut i: usize = 0;
        while i < self.units
            invariant
                self.wf(),
                i <= self.units,
                max_x == 0 || (max_x < self.units && exists|j: int| self.occupied(max_x as int, j)),
                max_y == 0 || (max_y < self.units && exists|a: int| self.occupied(a, max_y as int)),
                forall|a: int, b: int|
                    #[trigger] self.occupied(a, b) && a < i ==> a <= max_x && b <= max_y,
            decreases self.units - i,
        {
            let mut j: usize = 0;
            while j < self.units
                invariant
                    self.wf(),
                    i < self.units,
                    j <= self.units,
                    max_x == 0 || (max_x < self.units && exists|b: int|
                        self.occupied(max_x as int, b)),
                    max_y == 0 || (max_y < self.units && exists|a: int|
                        self.occupied(a, max_y as int)),
                    forall|a: int, b: int|
                        #[trigger] self.occupied(a, b) && (a < i || (a == i && b < j)) ==> a
                            <= max_x && b <= max_y,
                decreases self.units - j,
            {
                if self.cells[i][j].is_some() {
                    assert(self.occupied(i as int, j as int));
                    if i > max_x {
                        max_x = i;
                    }
                    if j > max_y {
                        max_y = j;
                    }
                }
                j = j + 1;
            }
            i = i + 1;
        }
        assert(max_x * 34 <= u32::MAX && max_y * 34 <= u32::MAX) by (nonlinear_arith)
            requires
                max_x < self.units || max_x == 0,
                max_y < self.units || max_y == 0,
                self.units * 34 <= u32::MAX,
        ;
        ((max_x as u32) * UNIT_STRIDE, (max_y as u32) * UNIT_STRIDE)
    }
}

} // verus!
