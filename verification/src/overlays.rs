//! Which cells the map overlays mark: the cell grid, cells that several
//! plugins change, and cells coloured by their region.
use vstd::prelude::*;
use vstd::arithmetic::div_mod::{
    lemma_div_pos_is_pos, lemma_fundamental_div_mod_converse, lemma_mod_bound, lemma_multiply_divide_lt,
};

use crate::color::Rgba;
use crate::dimensions::Dimensions;
use crate::lookup::{distinct_names, find_name, find_named};
use crate::raster::{distinct_keys, entry_at};
use crate::lookup::find_cell;
use crate::CellKey;

verus! {

/// What the map reads of a cell record.
#[derive(Debug, Clone, PartialEq, Eq)]
pub struct CellInfo {
    /// The cell's name; empty for most exterior cells.
    pub name: String,
    /// The region the cell belongs to.
    pub region: Option<String>,
}

/// The cells of the bounds, row by row from `min_y`, each row from `min_x`.
pub open spec fn grid_seq(d: Dimensions) -> Seq<CellKey> {
    let w = d.spec_width();
    Seq::new(
        (w * d.spec_height()) as nat,
        |k: int| ((d.min_x + k % w) as i32, (d.min_y + k / w) as i32),
    )
}

/// Every cell of the bounds is in the grid, at position
/// `(y - min_y) * width + (x - min_x)`.
pub(crate) proof fn lemma_grid_has(d: Dimensions, key: CellKey)
    requires
        d.has_cell(key),
    ensures
        grid_seq(d).contains(key),
        0 <= (key.1 - d.min_y) * d.spec_width() + (key.0 - d.min_x) < grid_seq(d).len(),
        grid_seq(d)[(key.1 - d.min_y) * d.spec_width() + (key.0 - d.min_x)] == key,
{
    let w = d.spec_width();
    let h = d.spec_height();
    let k = (key.1 - d.min_y) * w + (key.0 - d.min_x);
    lemma_fundamental_div_mod_converse(k, w, key.1 - d.min_y, key.0 - d.min_x);
    assert(0 <= k < w * h) by (nonlinear_arith)
        requires
            k == (key.1 - d.min_y) * w + (key.0 - d.min_x),
            0 <= key.0 - d.min_x < w,
            0 <= key.1 - d.min_y < h,
    ;
    assert(grid_seq(d)[k] == key);
}

/// Every cell of the grid is a cell of the bounds.
pub(crate) proof fn lemma_grid_in_bounds(d: Dimensions, k: int)
    requires
        0 <= k < grid_seq(d).len(),
    ensures
        d.has_cell(grid_seq(d)[k]),
{
    let w = d.spec_width();
    let h = d.spec_height();
    assert(w > 0 && h > 0) by (nonlinear_arith)
        requires
            0 <= k < w * h,
            w >= 0,
            h >= 0,
    ;
    lemma_mod_bound(k, w);
    lemma_div_pos_is_pos(k, w);
    lemma_multiply_divide_lt(k, w, h);
}

/// Whatever `f` maps an element of `s` to is in `s.filter_map(f)`.
pub(crate) proof fn lemma_filter_map_has<A, B>(s: Seq<A>, f: spec_fn(A) -> Option<B>, t: A, b: B)
    requires
        s.contains(t),
        f(t) == Some(b),
    ensures
        s.filter_map(f).contains(b),
    decreases s.len(),
{
    if s.last() == t {
        assert(s.filter_map(f) == s.drop_last().filter_map(f) + seq![b]);
        assert((s.drop_last().filter_map(f) + seq![b])[s.drop_last().filter_map(f).len() as int] == b);
    } else {
        let i = choose|i: int| 0 <= i < s.len() && s[i] == t;
        assert(i != s.len() - 1);
        assert(s.drop_last()[i] == t);
        lemma_filter_map_has(s.drop_last(), f, t, b);
        let r = s.drop_last().filter_map(f);
        let m = choose|m: int| 0 <= m < r.len() && r[m] == b;
        match f(s.last()) {
            Some(x) => {
                assert(s.filter_map(f) == r + seq![x]);
                assert((r + seq![x])[m] == b);
            },
            None => {},
        }
    }
}

/// The cells the grid overlay outlines: every cell of the bounds, row by row
/// from `min_y`, each row from `min_x`.
pub fn get_grid_cells(dimensions: &Dimensions) -> (cells: Vec<CellKey>)
    requires
        dimensions.fits(),
        dimensions.spec_width() * dimensions.spec_height() <= usize::MAX,
    ensures
        cells@ == grid_seq(*dimensions),
{
    let d = dimensions;
    let ghost w = d.spec_width();
    let ghost h = d.spec_height();
    let ghost all = grid_seq(*d);
    let mut cells: Vec<CellKey> = Vec::new();
    if d.max_x < d.min_x || d.max_y < d.min_y {
        proof {
            assert(w * h == 0) by (nonlinear_arith)
                requires
                    w == 0 || h == 0,
            ;
        }
        assert(cells@ =~= all);
        return cells;
    }
    let mut cy: i64 = d.min_y as i64;
    while cy <= d.max_y as i64
        invariant
            d.fits(),
            d.min_x <= d.max_x,
            d.min_y <= d.max_y,
            w == d.max_x - d.min_x + 1,
            h == d.max_y - d.min_y + 1,
            w * h <= usize::MAX,
            all == grid_seq(*d),
            d.min_y <= cy <= d.max_y + 1,
            cells@.len() == (cy - d.min_y) * w,
            forall|k: int| 0 <= k < cells@.len() ==> cells@[k] == all[k],
        decreases d.max_y + 1 - cy,
    {
        let mut cx: i64 = d.min_x as i64;
        while cx <= d.max_x as i64
            invariant
                d.fits(),
                d.min_x <= d.max_x,
                d.min_y <= d.max_y,
                w == d.max_x - d.min_x + 1,
                h == d.max_y - d.min_y + 1,
                w * h <= usize::MAX,
                all == grid_seq(*d),
                d.min_y <= cy <= d.max_y,
                d.min_x <= cx <= d.max_x + 1,
                cells@.len() == (cy - d.min_y) * w + (cx - d.min_x),
                forall|k: int| 0 <= k < cells@.len() ==> cells@[k] == all[k],
            decreases d.max_x + 1 - cx,
        {
            let ghost k = (cy - d.min_y) * w + (cx - d.min_x);
            proof {
                lemma_fundamental_div_mod_converse(k, w, cy - d.min_y, cx - d.min_x);
                assert(k < w * h) by (nonlinear_arith)
                    requires
                        k == (cy - d.min_y) * w + (cx - d.min_x),
                        0 <= cx - d.min_x < w,
                        0 <= cy - d.min_y < h,
                ;
            }
            cells.push((cx as i32, cy as i32));
            cx = cx + 1;
        }
        proof {
            assert((cy + 1 - d.min_y) * w == (cy - d.min_y) * w + w) by (nonlinear_arith);
        }
        cy = cy + 1;
    }
    assert((cy - d.min_y) * w == w * h) by (nonlinear_arith)
        requires
            cy - d.min_y == h,
    ;
    assert(cells@ =~= all);
    cells
}

/// Keeps the cells inside the bounds.
pub open spec fn in_bounds(d: Dimensions) -> spec_fn(CellKey) -> bool {
    |k: CellKey| d.has_cell(k)
}

/// The cells with conflicts that the conflict overlay marks: those inside
/// the bounds, in the given order.
pub fn get_conflict_cells(dimensions: &Dimensions, conflict_keys: &Vec<CellKey>) -> (cells: Vec<CellKey>)
    ensures
        cells@ == conflict_keys@.filter(in_bounds(*dimensions)),
{
    let ghost pred = in_bounds(*dimensions);
    let mut cells: Vec<CellKey> = Vec::new();
    let mut i: usize = 0;
    while i < conflict_keys.len()
        invariant
            i <= conflict_keys.len(),
            pred == in_bounds(*dimensions),
            cells@ == conflict_keys@.take(i as int).filter(pred),
        decreases conflict_keys.len() - i,
    {
        proof {
            assert(conflict_keys@.take(i + 1) == conflict_keys@.take(i as int).push(conflict_keys@[i as int]));
            conflict_keys@.take(i as int).lemma_filter_push(conflict_keys@[i as int], pred);
        }
        let key = conflict_keys[i];
        if dimensions.contains_cell(key) {
            cells.push(key);
        }
        i = i + 1;
    }
    assert(conflict_keys@.take(conflict_keys@.len() as int) == conflict_keys@);
    cells
}

/// The region colour of a cell: the colour of the region that the cell's
/// record names, when both are known.
pub open spec fn region_of(
    cells: Seq<(CellKey, CellInfo)>,
    regions: Seq<(String, Rgba)>,
) -> spec_fn(CellKey) -> Option<(CellKey, Rgba)> {
    |k: CellKey|
        match entry_at(cells, (k.0 as int, k.1 as int)) {
            Some(j) => match cells[j].1.region {
                Some(name) => match find_name(regions, name@) {
                    Some(r) => Some((k, regions[r].1)),
                    None => None,
                },
                None => None,
            },
            None => None,
        }
}

/// The cells of the bounds that the region overlay colours, with their
/// region colours, in the order of `grid_seq`.
pub fn get_region_cells(
    dimensions: &Dimensions,
    regn_records: &Vec<(String, Rgba)>,
    cell_records: &Vec<(CellKey, CellInfo)>,
) -> (shaded: Vec<(CellKey, Rgba)>)
    requires
        dimensions.fits(),
        dimensions.spec_width() * dimensions.spec_height() <= usize::MAX,
        distinct_keys(cell_records@),
        distinct_names(regn_records@),
    ensures
        shaded@ == grid_seq(*dimensions).filter_map(region_of(cell_records@, regn_records@)),
        forall|j: int, r: int|
            #![trigger cell_records@[j], regn_records@[r]]
            0 <= j < cell_records@.len() && 0 <= r < regn_records@.len() && dimensions.has_cell(
                cell_records@[j].0,
            ) && cell_records@[j].1.region is Some && regn_records@[r].0@
                == cell_records@[j].1.region->0@ ==> shaded@.contains((cell_records@[j].0, regn_records@[r].1)),
        forall|e: (CellKey, Rgba)|
            #![trigger shaded@.contains(e)]
            shaded@.contains(e) ==> dimensions.has_cell(e.0) && exists|j: int, r: int|
                #![trigger cell_records@[j], regn_records@[r]]
                0 <= j < cell_records@.len() && 0 <= r < regn_records@.len() && cell_records@[j].0 == e.0
                    && cell_records@[j].1.region is Some && regn_records@[r].0@
                    == cell_records@[j].1.region->0@ && e.1 == regn_records@[r].1,
{
    let grid = get_grid_cells(dimensions);
    let ghost f = region_of(cell_records@, regn_records@);
    let mut shaded: Vec<(CellKey, Rgba)> = Vec::new();
    let mut i: usize = 0;
    while i < grid.len()
        invariant
            distinct_keys(cell_records@),
            distinct_names(regn_records@),
            f == region_of(cell_records@, regn_records@),
            i <= grid.len(),
            shaded@ == grid@.take(i as int).filter_map(f),
        decreases grid.len() - i,
    {
        proof {
            grid@.lemma_filter_map_take_succ(f, i as int);
        }
        let key = grid[i];
        if let Some(j) = find_cell(cell_records, key) {
            if let Some(name) = &cell_records[j].1.region {
                if let Some(r) = find_named(regn_records, name) {
                    shaded.push((key, regn_records[r].1));
                }
            }
        }
        assert(shaded@ =~= grid@.take(i + 1).filter_map(f));
        i = i + 1;
    }
    assert(grid@.take(grid@.len() as int) == grid@);
    proof {
        let d = *dimensions;
        let cells = cell_records@;
        let regions = regn_records@;
        assert forall|j: int, r: int|
            #![trigger cells[j], regions[r]]
            0 <= j < cells.len() && 0 <= r < regions.len() && d.has_cell(cells[j].0) && cells[j].1.region is Some
                && regions[r].0@ == cells[j].1.region->0@ implies shaded@.contains((cells[j].0, regions[r].1)) by {
            let key = cells[j].0;
            lemma_grid_has(d, key);
            let p = (key.0 as int, key.1 as int);
            assert(crate::raster::same_cell(cells[j].0, p));
            let jj = choose|jj: int| 0 <= jj < cells.len() && crate::raster::same_cell(#[trigger] cells[jj].0, p);
            assert(cells[jj].0 == key);
            assert(jj == j);
            let name = cells[j].1.region->0;
            assert(regions[r].0@ == name@);
            let rr = choose|rr: int| 0 <= rr < regions.len() && #[trigger] regions[rr].0@ == name@;
            assert(rr == r);
            assert(f(key) == Some((key, regions[r].1)));
            lemma_filter_map_has(grid_seq(d), f, key, (key, regions[r].1));
        }
        assert forall|e: (CellKey, Rgba)| #![trigger shaded@.contains(e)] shaded@.contains(e) implies d.has_cell(e.0) && exists|j: int, r: int|
            #![trigger cells[j], regions[r]]
            0 <= j < cells.len() && 0 <= r < regions.len() && cells[j].0 == e.0 && cells[j].1.region is Some
                && regions[r].0@ == cells[j].1.region->0@ && e.1 == regions[r].1 by {
            grid_seq(d).lemma_filter_map_contains(f, e);
            let t = choose|t: CellKey| #[trigger] grid_seq(d).contains(t) && f(t) == Some(e);
            let k = choose|k: int| 0 <= k < grid_seq(d).len() && grid_seq(d)[k] == t;
            lemma_grid_in_bounds(d, k);
            let j = entry_at(cells, (t.0 as int, t.1 as int))->0;
            let name = cells[j].1.region->0;
            let r = find_name(regions, name@)->0;
            assert(cells[j].0 == t);
            assert(cells[j].0 == e.0 && regions[r].0@ == name@ && e.1 == regions[r].1);
        }
    }
    shaded
}

} // verus!
