//! Rasterisation of per-cell vertex grids (heights, vertex colours) into one
//! image covering the shown cells, and reading heights back from it.
use vstd::prelude::*;
use vstd::arithmetic::div_mod::{
    lemma_fundamental_div_mod, lemma_fundamental_div_mod_converse, lemma_div_pos_is_pos,
    lemma_mod_bound,
};
use vstd::arithmetic::mul::{lemma_mul_inequality, lemma_mul_strict_inequality};

use crate::color::{default_color, Rgba};
use crate::dimensions::Dimensions;
use crate::{CellKey, VERTEX_CNT};

verus! {

/// Number of vertices of one cell grid.
pub open spec fn grid_len() -> int {
    (VERTEX_CNT * VERTEX_CNT) as int
}

/// The cell whose slot (row-major over the canvas cells) is `c`.
pub open spec fn slot_key(d: Dimensions, c: int) -> (int, int) {
    (d.min_x + c % d.spec_width(), d.max_y - c / d.spec_width())
}

/// The slot of a cell inside the bounds.
pub open spec fn key_slot(d: Dimensions, k: CellKey) -> int {
    (d.max_y - k.1) * d.spec_width() + (k.0 - d.min_x)
}

pub open spec fn same_cell(k: CellKey, p: (int, int)) -> bool {
    k.0 as int == p.0 && k.1 as int == p.1
}

/// Number of cells, and the raster with `ppc` pixels per cell side, fit in memory.
pub open spec fn raster_fits(d: Dimensions, ppc: int) -> bool {
    &&& d.fits()
    &&& d.spec_width() * d.spec_height() <= usize::MAX
    &&& d.spec_width() * ppc <= usize::MAX
    &&& d.spec_height() * ppc <= usize::MAX
    &&& d.spec_width() * ppc * (d.spec_height() * ppc) <= usize::MAX
}

/// A table from cell slots to the index of the entry of `keys` that holds
/// that cell (`None` where no entry does).
pub open spec fn slot_table_ok(d: Dimensions, keys: Seq<CellKey>, table: Seq<Option<usize>>) -> bool {
    &&& table.len() == d.spec_width() * d.spec_height()
    &&& forall|c: int|
        0 <= c < table.len() ==> match #[trigger] table[c] {
            Some(j) => j < keys.len() && same_cell(keys[j as int], slot_key(d, c)),
            None => forall|j: int| 0 <= j < keys.len() ==> !same_cell(keys[j], slot_key(d, c)),
        }
}

/// No two entries name the same cell.
pub open spec fn distinct_keys<V>(entries: Seq<(CellKey, V)>) -> bool {
    forall|a: int, b: int|
        0 <= a < entries.len() && 0 <= b < entries.len() && a != b ==> entries[a].0 != entries[b].0
}

/// The index of the entry holding cell `p`, if any.
pub open spec fn entry_at<V>(entries: Seq<(CellKey, V)>, p: (int, int)) -> Option<int> {
    if exists|j: int| 0 <= j < entries.len() && same_cell(#[trigger] entries[j].0, p) {
        Some(choose|j: int| 0 <= j < entries.len() && same_cell(#[trigger] entries[j].0, p))
    } else {
        None
    }
}

/// Value of pixel `i` of the vertex raster: the pixel lies in the canvas cell
/// `(tx / 65, ty / 65)` at vertex column `tx % 65`; its row within the cell
/// counts from the top, so it shows source row `64 - ty % 65`.  Cells that no
/// grid covers show `fill`.
pub open spec fn vertex_pixel<T>(d: Dimensions, grids: Seq<(CellKey, Vec<T>)>, fill: T, i: int) -> T {
    let n = VERTEX_CNT as int;
    let stride = d.spec_width() * n;
    let tx = i % stride;
    let ty = i / stride;
    let cell = slot_key(d, (ty / n) * d.spec_width() + tx / n);
    match entry_at(grids, cell) {
        Some(j) => grids[j].1@[(n - 1 - ty % n) * n + tx % n],
        None => fill,
    }
}

proof fn lemma_slot_key(d: Dimensions, c: int)
    requires
        d.spec_width() > 0,
        0 <= c < d.spec_width() * d.spec_height(),
    ensures
        d.min_x <= slot_key(d, c).0 <= d.max_x,
        d.min_y <= slot_key(d, c).1 <= d.max_y,
        (d.max_y - slot_key(d, c).1) * d.spec_width() + (slot_key(d, c).0 - d.min_x) == c,
{
    let w = d.spec_width();
    let h = d.spec_height();
    lemma_fundamental_div_mod(c, w);
    lemma_mod_bound(c, w);
    lemma_div_pos_is_pos(c, w);
    if c / w >= h {
        lemma_mul_inequality(h, c / w, w);
        assert(h * w == w * h) by (nonlinear_arith);
        assert(false);
    }
    assert((c / w) * w == w * (c / w)) by (nonlinear_arith);
}

proof fn lemma_key_slot(d: Dimensions, k: CellKey)
    requires
        d.has_cell(k),
    ensures
        d.spec_width() > 0,
        0 <= key_slot(d, k) < d.spec_width() * d.spec_height(),
        same_cell(k, slot_key(d, key_slot(d, k))),
{
    let w = d.spec_width();
    let h = d.spec_height();
    let a = d.max_y - k.1;
    let b = k.0 - d.min_x;
    assert(0 <= a * w) by (nonlinear_arith)
        requires
            0 <= a,
            0 < w,
    ;
    lemma_fundamental_div_mod_converse(a * w + b, w, a, b);
    lemma_mul_inequality(a + 1, h, w);
    assert((a + 1) * w == a * w + w) by (nonlinear_arith);
    assert(h * w == w * h) by (nonlinear_arith);
}

/// For every canvas cell slot, the index of the entry of `keys` that holds
/// the cell there; the last one where several do.
pub fn cell_slot_table(d: &Dimensions, keys: &Vec<CellKey>) -> (table: Vec<Option<usize>>)
    requires
        d.fits(),
        d.spec_width() * d.spec_height() <= usize::MAX,
    ensures
        slot_table_ok(*d, keys@, table@),
{
    let w = d.width();
    let h = d.height();
    let n = w * h;
    let mut table: Vec<Option<usize>> = Vec::new();
    let mut c: usize = 0;
    while c < n
        invariant
            c <= n,
            n == d.spec_width() * d.spec_height(),
            table@.len() == c,
            forall|i: int| 0 <= i < c ==> table@[i] is None,
        decreases n - c,
    {
        table.push(None);
        c = c + 1;
    }
    let mut j: usize = 0;
    while j < keys.len()
        invariant
            d.fits(),
            w == d.spec_width(),
            h == d.spec_height(),
            n == w * h,
            j <= keys.len(),
            table@.len() == n,
            forall|c: int|
                0 <= c < n ==> match #[trigger] table@[c] {
                    Some(i) => i < j && same_cell(keys@[i as int], slot_key(*d, c)),
                    None => forall|i: int| 0 <= i < j ==> !same_cell(keys@[i], slot_key(*d, c)),
                },
        decreases keys.len() - j,
    {
        let k = keys[j];
        if d.contains_cell(k) {
            proof {
                lemma_key_slot(*d, k);
            }
            let slot = ((d.max_y - k.1) as usize) * w + ((k.0 - d.min_x) as usize);
            assert(slot == key_slot(*d, k));
            let ghost old_table = table@;
            table.set(slot, Some(j));
            assert forall|c: int| 0 <= c < n implies match #[trigger] table@[c] {
                Some(i) => i < j + 1 && same_cell(keys@[i as int], slot_key(*d, c)),
                None => forall|i: int| 0 <= i < j + 1 ==> !same_cell(keys@[i], slot_key(*d, c)),
            } by {
                if c != slot {
                    assert(table@[c] == old_table[c]);
                    lemma_slot_key(*d, c);
                    assert(!same_cell(k, slot_key(*d, c)));
                }
            }
        } else {
            assert forall|c: int| 0 <= c < n implies match #[trigger] table@[c] {
                Some(i) => i < j + 1 && same_cell(keys@[i as int], slot_key(*d, c)),
                None => forall|i: int| 0 <= i < j + 1 ==> !same_cell(keys@[i], slot_key(*d, c)),
            } by {
                if w > 0 {
                    lemma_slot_key(*d, c);
                } else {
                    assert(w * h == 0);
                }
            }
        }
        j = j + 1;
    }
    table
}

/// The entry the slot table names for a cell is the one `entry_at` names.
pub(crate) proof fn lemma_table_entry<V>(
    d: Dimensions,
    grids: Seq<(CellKey, V)>,
    keys: Seq<CellKey>,
    table: Seq<Option<usize>>,
    c: int,
)
    requires
        slot_table_ok(d, keys, table),
        keys.len() == grids.len(),
        forall|j: int| 0 <= j < keys.len() ==> keys[j] == #[trigger] grids[j].0,
        distinct_keys(grids),
        0 <= c < table.len(),
    ensures
        match table[c] {
            Some(j) => entry_at(grids, slot_key(d, c)) == Some(j as int),
            None => entry_at(grids, slot_key(d, c)) is None,
        },
{
    let p = slot_key(d, c);
    match table[c] {
        Some(j) => {
            assert(keys[j as int] == grids[j as int].0);
            assert(same_cell(grids[j as int].0, p));
            let k = choose|k: int| 0 <= k < grids.len() && same_cell(#[trigger] grids[k].0, p);
            assert(grids[k].0 == grids[j as int].0);
        },
        None => {
            assert forall|j: int| 0 <= j < grids.len() implies !same_cell(#[trigger] grids[j].0, p) by {
                assert(keys[j] == grids[j].0);
            }
        },
    }
}

/// Arithmetic facts about one pixel index of a raster `stride` wide and
/// `rows` high, made of cells `n` pixels square.
pub(crate) proof fn lemma_pixel_cell(i: int, stride: int, rows: int, w: int, h: int, n: int)
    requires
        n > 0,
        w >= 0,
        h >= 0,
        stride == w * n,
        rows == h * n,
        0 <= i < stride * rows,
    ensures
        w > 0,
        h > 0,
        stride > 0,
        0 <= i % stride < stride,
        0 <= i / stride < rows,
        0 <= (i / stride / n) * w + (i % stride) / n < w * h,
        0 <= (n - 1 - (i / stride) % n) * n + (i % stride) % n < n * n,
{
    assert(stride > 0) by (nonlinear_arith)
        requires
            0 <= i < stride * rows,
            stride == w * n,
            rows == h * n,
            n > 0,
            w >= 0,
            h >= 0,
    ;
    assert(w > 0) by (nonlinear_arith)
        requires
            stride == w * n,
            stride > 0,
            n > 0,
    ;
    assert(rows > 0) by (nonlinear_arith)
        requires
            0 <= i < stride * rows,
            stride > 0,
    ;
    assert(h > 0) by (nonlinear_arith)
        requires
            rows == h * n,
            rows > 0,
            n > 0,
    ;
    let tx = i % stride;
    let ty = i / stride;
    lemma_fundamental_div_mod(i, stride);
    lemma_mod_bound(i, stride);
    lemma_div_pos_is_pos(i, stride);
    if ty >= rows {
        lemma_mul_inequality(rows, ty, stride);
        assert(rows * stride == stride * rows) by (nonlinear_arith);
        assert(false);
    }
    let cy = ty / n;
    let cx = tx / n;
    lemma_fundamental_div_mod(ty, n);
    lemma_fundamental_div_mod(tx, n);
    lemma_mod_bound(ty, n);
    lemma_mod_bound(tx, n);
    lemma_div_pos_is_pos(ty, n);
    lemma_div_pos_is_pos(tx, n);
    if cy >= h {
        lemma_mul_inequality(h, cy, n);
        assert(h * n == n * h) by (nonlinear_arith);
        assert(false);
    }
    if cx >= w {
        lemma_mul_inequality(w, cx, n);
        assert(w * n == n * w) by (nonlinear_arith);
        assert(false);
    }
    assert(0 <= cy * w + cx < w * h) by (nonlinear_arith)
        requires
            0 <= cy < h,
            0 <= cx < w,
    ;
    assert(0 <= (n - 1 - ty % n) * n + tx % n < n * n) by (nonlinear_arith)
        requires
            0 <= ty % n < n,
            0 <= tx % n < n,
    ;
}

/// Lays the vertex grids of the cells out as one raster covering the shown
/// cells (`65` pixels per cell side, rows top to bottom, so each grid is
/// flipped vertically); cells that no grid covers are filled with `fill`.
///
/// Each grid holds `65 * 65` values, row by row (`values[y * 65 + x]`).
pub fn height_map_to_pixel_heights<T: Copy>(
    dimensions: &Dimensions,
    heights_map: &Vec<(CellKey, Vec<T>)>,
    fill: T,
) -> (pixels: Vec<T>)
    requires
        raster_fits(*dimensions, VERTEX_CNT as int),
        distinct_keys(heights_map@),
        forall|j: int| 0 <= j < heights_map@.len() ==> (#[trigger] heights_map@[j]).1@.len() == grid_len(),
    ensures
        pixels@.len() == dimensions.spec_width() * dimensions.spec_height() * grid_len(),
        forall|i: int|
            0 <= i < pixels@.len() ==> pixels@[i] == vertex_pixel(*dimensions, heights_map@, fill, i),
{
    let d = dimensions;
    let ghost grids = heights_map@;
    let mut keys: Vec<CellKey> = Vec::new();
    let mut j: usize = 0;
    while j < heights_map.len()
        invariant
            j <= heights_map.len(),
            keys@.len() == j,
            forall|k: int| 0 <= k < j ==> keys@[k] == #[trigger] heights_map@[k].0,
        decreases heights_map.len() - j,
    {
        keys.push(heights_map[j].0);
        j = j + 1;
    }
    let table = cell_slot_table(d, &keys);
    let w = d.width();
    let h = d.height();
    let stride = w * VERTEX_CNT;
    let rows = h * VERTEX_CNT;
    let total = stride * rows;
    proof {
        assert(w * h * grid_len() == stride * rows) by (nonlinear_arith)
            requires
                stride == w * 65,
                rows == h * 65,
                grid_len() == 65 * 65,
        ;
    }
    let mut pixels: Vec<T> = Vec::new();
    let mut i: usize = 0;
    while i < total
        invariant
            slot_table_ok(*d, keys@, table@),
            keys@.len() == grids.len(),
            forall|k: int| 0 <= k < keys@.len() ==> keys@[k] == #[trigger] grids[k].0,
            grids == heights_map@,
            distinct_keys(grids),
            forall|k: int| 0 <= k < grids.len() ==> (#[trigger] grids[k]).1@.len() == grid_len(),
            w == d.spec_width(),
            h == d.spec_height(),
            w * h <= usize::MAX,
            stride == w * 65,
            rows == h * 65,
            total == stride * rows,
            i <= total,
            pixels@.len() == i,
            forall|k: int| 0 <= k < i ==> pixels@[k] == vertex_pixel(*d, grids, fill, k),
        decreases total - i,
    {
        proof {
            lemma_pixel_cell(i as int, stride as int, rows as int, w as int, h as int, 65);
        }
        let tx = i % stride;
        let ty = i / stride;
        let c = (ty / VERTEX_CNT) * w + tx / VERTEX_CNT;
        proof {
            lemma_table_entry(*d, grids, keys@, table@, c as int);
        }
        let v = match table[c] {
            Some(k) => {
                let vi = (VERTEX_CNT - 1 - ty % VERTEX_CNT) * VERTEX_CNT + tx % VERTEX_CNT;
                heights_map[k].1[vi]
            },
            None => fill,
        };
        pixels.push(v);
        i = i + 1;
    }
    pixels
}

/// Index of screen position `(x, y)` in a vertex raster of the bounds.
pub open spec fn screen_index(d: Dimensions, x: int, y: int) -> int {
    y * (d.spec_width() * VERTEX_CNT) + x
}

/// The value at vertex raster position `(x, y)`, if the raster has one there.
pub fn height_from_screen_space<T: Copy>(
    heights: &Vec<T>,
    dimensions: &Dimensions,
    x: usize,
    y: usize,
) -> (h: Option<T>)
    requires
        dimensions.fits(),
        dimensions.spec_width() * VERTEX_CNT <= usize::MAX,
        screen_index(*dimensions, x as int, y as int) <= usize::MAX,
    ensures
        ({
            let i = screen_index(*dimensions, x as int, y as int);
            h == if i < heights@.len() { Some(heights@[i]) } else { None::<T> }
        }),
{
    let stride = dimensions.stride(VERTEX_CNT);
    proof {
        assert(0 <= y * stride) by (nonlinear_arith);
    }
    let i = (y * stride) + x;
    if i < heights.len() {
        Some(heights[i])
    } else {
        None
    }
}

/// Law: reading the raster that `height_map_to_pixel_heights` lays out at the
/// screen position of vertex `(vx, vy)` of a grid whose cell is shown gives
/// back that vertex's value.
pub proof fn lemma_raster_read_back<T>(
    d: Dimensions,
    grids: Seq<(CellKey, Vec<T>)>,
    fill: T,
    pixels: Seq<T>,
    j: int,
    vx: int,
    vy: int,
)
    requires
        raster_fits(d, VERTEX_CNT as int),
        distinct_keys(grids),
        forall|k: int| 0 <= k < grids.len() ==> (#[trigger] grids[k]).1@.len() == grid_len(),
        pixels.len() == d.spec_width() * d.spec_height() * grid_len(),
        forall|i: int| 0 <= i < pixels.len() ==> pixels[i] == vertex_pixel(d, grids, fill, i),
        0 <= j < grids.len(),
        d.has_cell(grids[j].0),
        0 <= vx < VERTEX_CNT,
        0 <= vy < VERTEX_CNT,
    ensures
        ({
            let (cx, cy) = d.spec_cell_to_canvas(grids[j].0);
            let i = screen_index(d, 65 * cx + vx, 65 * cy + (64 - vy));
            0 <= i < pixels.len() && pixels[i] == grids[j].1@[vy * 65 + vx]
        }),
{
    let w = d.spec_width();
    let h = d.spec_height();
    let (cx, cy) = d.spec_cell_to_canvas(grids[j].0);
    let n: int = 65;
    let stride = w * n;
    let tx = n * cx + vx;
    let ty = n * cy + (n - 1 - vy);
    let i = screen_index(d, tx, ty);
    lemma_key_slot(d, grids[j].0);
    assert(0 <= cx < w && 0 <= cy < h);
    assert(0 <= tx < stride) by (nonlinear_arith)
        requires
            0 <= cx < w,
            0 <= vx < n,
            tx == n * cx + vx,
            stride == w * n,
    ;
    assert(0 <= ty < h * n) by (nonlinear_arith)
        requires
            0 <= cy < h,
            0 <= vy < n,
            ty == n * cy + (n - 1 - vy),
    ;
    assert(0 <= ty * stride) by (nonlinear_arith)
        requires
            0 <= ty,
            0 <= stride,
    ;
    assert(i < stride * (h * n)) by (nonlinear_arith)
        requires
            0 <= tx < stride,
            0 <= ty < h * n,
            i == ty * stride + tx,
    ;
    assert(stride * (h * n) == w * h * grid_len()) by (nonlinear_arith)
        requires
            stride == w * n,
            n == 65,
            grid_len() == 65 * 65,
    ;
    lemma_fundamental_div_mod_converse(i, stride, ty, tx);
    lemma_fundamental_div_mod_converse(tx, n, cx, vx);
    lemma_fundamental_div_mod_converse(ty, n, cy, n - 1 - vy);
    assert(tx == cx * n + vx && ty == cy * n + (n - 1 - vy)) by (nonlinear_arith)
        requires
            tx == n * cx + vx,
            ty == n * cy + (n - 1 - vy),
    ;
    let c = cy * w + cx;
    assert(c == key_slot(d, grids[j].0));
    let p = slot_key(d, c);
    assert(same_cell(grids[j].0, p));
    let k = choose|k: int| 0 <= k < grids.len() && same_cell(#[trigger] grids[k].0, p);
    assert(grids[k].0 == grids[j].0);
    assert(entry_at(grids, p) == Some(j));
}

/// Lays per-cell vertex colour grids out as one image; cells without a grid
/// get the default colour.
pub fn color_map_to_pixels(dimensions: &Dimensions, color_map: &Vec<(CellKey, Vec<Rgba>)>) -> (pixels: Vec<Rgba>)
    requires
        raster_fits(*dimensions, VERTEX_CNT as int),
        distinct_keys(color_map@),
        forall|j: int| 0 <= j < color_map@.len() ==> (#[trigger] color_map@[j]).1@.len() == grid_len(),
    ensures
        pixels@.len() == dimensions.spec_width() * dimensions.spec_height() * grid_len(),
        forall|i: int|
            0 <= i < pixels@.len() ==> pixels@[i] == vertex_pixel(
                *dimensions,
                color_map@,
                Rgba { r: 0, g: 0, b: 0, a: 0 },
                i,
            ),
{
    height_map_to_pixel_heights(dimensions, color_map, default_color())
}

} // verus!
