//! The rectangle of cells that is shown, and the conversions between cell
//! keys and canvas (image) coordinates.
use vstd::prelude::*;

use crate::{CellKey, GRID_SIZE};

verus! {

/// Inclusive bounds of the shown cells.
///
/// Canvas coordinates run left to right from `min_x` and top to bottom from
/// `max_y`: the cell `(min_x, max_y)` is at canvas `(0, 0)`.
#[derive(Debug, Clone, Copy, PartialEq, Eq, Default)]
pub struct Dimensions {
    pub min_x: i32,
    pub min_y: i32,
    pub max_x: i32,
    pub max_y: i32,
}

/// Number of cells in `lo..=hi`, zero when the range is empty.
pub open spec fn span(lo: int, hi: int) -> int {
    if hi - lo + 1 > 0 {
        hi - lo + 1
    } else {
        0
    }
}

impl Dimensions {
    /// The arithmetic of `width` and `height` stays within `i32`.
    pub open spec fn fits(self) -> bool {
        &&& self.max_x < i32::MAX
        &&& self.max_y < i32::MAX
        &&& i32::MIN <= 1 + self.max_x - self.min_x <= i32::MAX
        &&& i32::MIN <= 1 + self.max_y - self.min_y <= i32::MAX
    }

    pub open spec fn spec_width(self) -> int {
        span(self.min_x as int, self.max_x as int)
    }

    pub open spec fn spec_height(self) -> int {
        span(self.min_y as int, self.max_y as int)
    }

    /// The cell lies within the bounds.
    pub open spec fn has_cell(self, key: CellKey) -> bool {
        self.min_x <= key.0 <= self.max_x && self.min_y <= key.1 <= self.max_y
    }

    /// Canvas position of a cell inside the bounds.
    pub open spec fn spec_cell_to_canvas(self, key: CellKey) -> (int, int) {
        (key.0 - self.min_x, self.max_y - key.1)
    }

    /// Cell at a canvas position.
    pub open spec fn spec_canvas_to_cell(self, x: int, y: int) -> (int, int) {
        (x + self.min_x, self.max_y - y)
    }

    /// `max_texture_side / (GRID_SIZE * larger side in cells)`, at most 256.
    pub open spec fn spec_max_texture_resolution(self, max_texture_side: int) -> int {
        let side = if self.spec_width() >= self.spec_height() {
            self.spec_width()
        } else {
            self.spec_height()
        };
        let q = max_texture_side / (GRID_SIZE * side);
        if q <= 256 {
            q
        } else {
            256
        }
    }

    /// Number of cell columns.
    pub fn width(&self) -> (w: usize)
        requires
            self.fits(),
        ensures
            w == self.spec_width(),
    {
        let w = 1 + self.max_x - self.min_x;
        if w > 0 {
            w as usize
        } else {
            0
        }
    }

    /// Number of cell rows.
    pub fn height(&self) -> (h: usize)
        requires
            self.fits(),
        ensures
            h == self.spec_height(),
    {
        let h = 1 + self.max_y - self.min_y;
        if h > 0 {
            h as usize
        } else {
            0
        }
    }

    /// Number of cells.
    pub fn size(&self) -> (s: usize)
        requires
            self.fits(),
            self.spec_width() * self.spec_height() <= usize::MAX,
        ensures
            s == self.spec_width() * self.spec_height(),
    {
        self.width() * self.height()
    }

    /// Width in pixels when each cell is `pixel_per_cell` pixels wide.
    pub fn pixel_width(&self, pixel_per_cell: usize) -> (w: usize)
        requires
            self.fits(),
            self.spec_width() * pixel_per_cell <= usize::MAX,
        ensures
            w == self.spec_width() * pixel_per_cell,
    {
        self.width() * pixel_per_cell
    }

    /// Height in pixels when each cell is `pixel_per_cell` pixels high.
    pub fn pixel_height(&self, pixel_per_cell: usize) -> (h: usize)
        requires
            self.fits(),
            self.spec_height() * pixel_per_cell <= usize::MAX,
        ensures
            h == self.spec_height() * pixel_per_cell,
    {
        self.height() * pixel_per_cell
    }

    /// Number of pixels when each cell is `pixel_per_cell` pixels square.
    pub fn pixel_size(&self, pixel_per_cell: usize) -> (s: usize)
        requires
            self.fits(),
            self.spec_width() * self.spec_height() <= usize::MAX,
            self.spec_width() * self.spec_height() * pixel_per_cell * pixel_per_cell <= usize::MAX,
        ensures
            s == self.spec_width() * self.spec_height() * pixel_per_cell * pixel_per_cell,
    {
        let w = self.width();
        let h = self.height();
        proof {
            lemma_prefix_products_fit(w as int, h as int, pixel_per_cell as int);
        }
        w * h * pixel_per_cell * pixel_per_cell
    }

    /// `[pixel width, pixel height]`.
    pub fn pixel_size_tuple(&self, pixel_per_cell: usize) -> (s: [usize; 2])
        requires
            self.fits(),
            self.spec_width() * pixel_per_cell <= usize::MAX,
            self.spec_height() * pixel_per_cell <= usize::MAX,
        ensures
            s@ == seq![
                (self.spec_width() * pixel_per_cell) as usize,
                (self.spec_height() * pixel_per_cell) as usize,
            ],
    {
        [self.width() * pixel_per_cell, self.height() * pixel_per_cell]
    }

    /// Number of pixels in one image row.
    pub fn stride(&self, pixel_per_cell: usize) -> (s: usize)
        requires
            self.fits(),
            self.spec_width() * pixel_per_cell <= usize::MAX,
        ensures
            s == self.spec_width() * pixel_per_cell,
    {
        self.width() * pixel_per_cell
    }

    /// The largest texture resolution (pixels per texture tile, at most 256)
    /// for which the whole map fits in a texture of side `max_texture_side`.
    pub fn get_max_texture_resolution(&self, max_texture_side: usize) -> (r: usize)
        requires
            self.fits(),
            self.spec_width() > 0 || self.spec_height() > 0,
            GRID_SIZE * self.spec_width() <= usize::MAX,
            GRID_SIZE * self.spec_height() <= usize::MAX,
        ensures
            r == self.spec_max_texture_resolution(max_texture_side as int),
            r <= 256,
            16 * r * self.spec_width() <= max_texture_side,
            16 * r * self.spec_height() <= max_texture_side,
            r < 256 ==> 16 * (r + 1) * self.spec_width() > max_texture_side
                || 16 * (r + 1) * self.spec_height() > max_texture_side,
    {
        proof {
            lemma_max_texture_resolution(*self, max_texture_side as int);
        }
        let w = self.width();
        let h = self.height();
        let side = if w >= h {
            w
        } else {
            h
        };
        let q = max_texture_side / (GRID_SIZE * side);
        if q <= 256 {
            q
        } else {
            256
        }
    }

    /// Cell at the (integral) canvas position `(x, y)`.
    pub fn canvas_to_cell(&self, x: i32, y: i32) -> (key: CellKey)
        requires
            i32::MIN <= x + self.min_x <= i32::MAX,
            i32::MIN <= self.max_y - y <= i32::MAX,
        ensures
            key.0 == self.spec_canvas_to_cell(x as int, y as int).0,
            key.1 == self.spec_canvas_to_cell(x as int, y as int).1,
    {
        (x + self.min_x, self.max_y - y)
    }

    /// Canvas column of cell column `x`, clamped at zero.
    pub fn cell_to_canvas_x(&self, x: i32) -> (cx: usize)
        requires
            i32::MIN <= x - self.min_x <= i32::MAX,
        ensures
            cx == if x - self.min_x > 0 { x - self.min_x } else { 0 },
    {
        let d = x - self.min_x;
        if d > 0 {
            d as usize
        } else {
            0
        }
    }

    /// Canvas row of cell row `y`, clamped at zero.
    pub fn cell_to_canvas_y(&self, y: i32) -> (cy: usize)
        requires
            i32::MIN <= self.max_y - y <= i32::MAX,
        ensures
            cy == if self.max_y - y > 0 { self.max_y - y } else { 0 },
    {
        let d = self.max_y - y;
        if d > 0 {
            d as usize
        } else {
            0
        }
    }

    /// Canvas position (column, row) of a cell, each clamped at zero.
    pub fn cell_to_canvas(&self, cell_key: CellKey) -> (p: (usize, usize))
        requires
            i32::MIN <= cell_key.0 - self.min_x <= i32::MAX,
            i32::MIN <= self.max_y - cell_key.1 <= i32::MAX,
        ensures
            p.0 == if cell_key.0 - self.min_x > 0 { cell_key.0 - self.min_x } else { 0 },
            p.1 == if self.max_y - cell_key.1 > 0 { self.max_y - cell_key.1 } else { 0 },
    {
        (self.cell_to_canvas_x(cell_key.0), self.cell_to_canvas_y(cell_key.1))
    }

    /// Whether the cell lies within the bounds.
    pub fn contains_cell(&self, key: CellKey) -> (b: bool)
        ensures
            b == self.has_cell(key),
    {
        self.min_x <= key.0 && key.0 <= self.max_x && self.min_y <= key.1 && key.1 <= self.max_y
    }
}

/// Law: inside the bounds, canvas positions and cells correspond one to one:
/// the canvas position of a shown cell lies in the canvas and leads back to
/// the cell, and every canvas position leads to a shown cell whose canvas
/// position it is.
pub proof fn lemma_canvas_round_trip(d: Dimensions, key: CellKey, x: int, y: int)
    ensures
        d.has_cell(key) ==> {
            let p = d.spec_cell_to_canvas(key);
            &&& 0 <= p.0 < d.spec_width()
            &&& 0 <= p.1 < d.spec_height()
            &&& d.spec_canvas_to_cell(p.0, p.1) == (key.0 as int, key.1 as int)
        },
        (0 <= x < d.spec_width() && 0 <= y < d.spec_height()) ==> {
            let c = d.spec_canvas_to_cell(x, y);
            &&& d.min_x <= c.0 <= d.max_x
            &&& d.min_y <= c.1 <= d.max_y
            &&& d.spec_cell_to_canvas((c.0 as i32, c.1 as i32)) == (x, y)
        },
{
}

/// The smallest bounds holding all the given cells; `None` when there are none.
pub fn calculate_dimensions(keys: &Vec<CellKey>) -> (r: Option<Dimensions>)
    ensures
        r is None <==> keys@.len() == 0,
        r matches Some(d) ==> {
            &&& forall|i: int| 0 <= i < keys@.len() ==> d.has_cell(#[trigger] keys@[i])
            &&& exists|i: int| 0 <= i < keys@.len() && (#[trigger] keys@[i]).0 == d.min_x
            &&& exists|i: int| 0 <= i < keys@.len() && (#[trigger] keys@[i]).0 == d.max_x
            &&& exists|i: int| 0 <= i < keys@.len() && (#[trigger] keys@[i]).1 == d.min_y
            &&& exists|i: int| 0 <= i < keys@.len() && (#[trigger] keys@[i]).1 == d.max_y
        },
{
    if keys.len() == 0 {
        return None;
    }
    let mut d = Dimensions { min_x: keys[0].0, min_y: keys[0].1, max_x: keys[0].0, max_y: keys[0].1 };
    let ghost mut ix: (int, int, int, int) = (0, 0, 0, 0);
    let mut i: usize = 1;
    while i < keys.len()
        invariant
            1 <= i <= keys.len(),
            forall|j: int| 0 <= j < i ==> d.has_cell(#[trigger] keys@[j]),
            0 <= ix.0 < i && keys@[ix.0].0 == d.min_x,
            0 <= ix.1 < i && keys@[ix.1].0 == d.max_x,
            0 <= ix.2 < i && keys@[ix.2].1 == d.min_y,
            0 <= ix.3 < i && keys@[ix.3].1 == d.max_y,
        decreases keys.len() - i,
    {
        let k = keys[i];
        if k.0 < d.min_x {
            d.min_x = k.0;
            proof { ix.0 = i as int; }
        }
        if k.0 > d.max_x {
            d.max_x = k.0;
            proof { ix.1 = i as int; }
        }
        if k.1 < d.min_y {
            d.min_y = k.1;
            proof { ix.2 = i as int; }
        }
        if k.1 > d.max_y {
            d.max_y = k.1;
            proof { ix.3 = i as int; }
        }
        i = i + 1;
    }
    assert(keys@[ix.0].0 == d.min_x);
    assert(keys@[ix.1].0 == d.max_x);
    assert(keys@[ix.2].1 == d.min_y);
    assert(keys@[ix.3].1 == d.max_y);
    Some(d)
}

/// Law: the largest texture resolution is at most 256; at that resolution
/// the map (16 tiles per cell side) fits a texture of side `side` in both
/// directions, and below 256 one more pixel per tile would not fit.
pub proof fn lemma_max_texture_resolution(d: Dimensions, side: int)
    requires
        side >= 0,
        d.spec_width() > 0 || d.spec_height() > 0,
    ensures
        ({
            let r = d.spec_max_texture_resolution(side);
            &&& 0 <= r <= 256
            &&& 16 * r * d.spec_width() <= side
            &&& 16 * r * d.spec_height() <= side
            &&& r < 256 ==> 16 * (r + 1) * d.spec_width() > side || 16 * (r + 1) * d.spec_height() > side
        }),
{
    let w = d.spec_width();
    let h = d.spec_height();
    let m = if w >= h { w } else { h };
    let q = side / (16 * m);
    let r = d.spec_max_texture_resolution(side);
    assert(m > 0 && w >= 0 && h >= 0 && w <= m && h <= m);
    assert(16 * m * q <= side < 16 * m * (q + 1) && q >= 0) by (nonlinear_arith)
        requires
            m > 0,
            side >= 0,
            q == side / (16 * m),
    ;
    assert(0 <= r <= q);
    assert(16 * r * w <= 16 * m * q && 16 * r * h <= 16 * m * q) by (nonlinear_arith)
        requires
            0 <= r <= q,
            0 <= w <= m,
            0 <= h <= m,
    ;
    if r < 256 {
        assert(r == q);
        assert(16 * (r + 1) * m > side) by (nonlinear_arith)
            requires
                r == q,
                side < 16 * m * (q + 1),
        ;
    }
}

/// Law: an image of the bounds with `p` pixels per cell side has as many
/// pixels as its pixel width times its pixel height, and its rows are one
/// pixel width long.
pub proof fn lemma_pixel_size_is_product(d: Dimensions, p: int)
    requires
        p >= 0,
    ensures
        d.spec_width() * d.spec_height() * p * p == (d.spec_width() * p) * (d.spec_height() * p),
{
    assert(d.spec_width() * d.spec_height() * p * p == (d.spec_width() * p) * (d.spec_height() * p))
        by (nonlinear_arith);
}

proof fn lemma_prefix_products_fit(w: int, h: int, p: int)
    requires
        0 <= w,
        0 <= h,
        0 <= p,
        w * h <= usize::MAX,
        w * h * p * p <= usize::MAX,
    ensures
        w * h * p <= usize::MAX,
{
    if p > 0 {
        assert(w * h * p <= w * h * p * p) by (nonlinear_arith)
            requires
                0 <= w,
                0 <= h,
                0 < p,
        ;
    } else {
        assert(w * h * p == 0) by (nonlinear_arith)
            requires
                p == 0,
        ;
    }
}

} // verus!
