//! Selecting cells on the map by clicking: a plain click selects one cell (or
//! clears the selection when that cell is selected), a ctrl-click toggles a
//! cell, and a shift-click selects the rectangle from the pivot cell.
use vstd::prelude::*;
use vstd::arithmetic::div_mod::{lemma_fundamental_div_mod_converse};

use crate::dimensions::Dimensions;
use crate::CellKey;

verus! {

/// State of the map view that is not saved between sessions.
#[derive(Debug)]
pub struct RuntimeData {
    pub plugin_filter: String,
    pub cell_filter: String,
    /// The selected cells.
    pub selected_ids: Vec<CellKey>,
    /// The cell a shift-click selects from.
    pub pivot_id: Option<CellKey>,
    /// The cell under the pointer.
    pub hover_pos: CellKey,
}

pub open spec fn min_i32(a: i32, b: i32) -> i32 {
    if a <= b {
        a
    } else {
        b
    }
}

pub open spec fn max_i32(a: i32, b: i32) -> i32 {
    if a >= b {
        a
    } else {
        b
    }
}

/// Number of rows of the rectangle spanned by two cells.
pub open spec fn rect_rows(a: CellKey, b: CellKey) -> int {
    max_i32(a.1, b.1) - min_i32(a.1, b.1) + 1
}

/// Number of columns of the rectangle spanned by two cells.
pub open spec fn rect_cols(a: CellKey, b: CellKey) -> int {
    max_i32(a.0, b.0) - min_i32(a.0, b.0) + 1
}

/// The cells of the rectangle spanned by `a` and `b`, column by column from
/// the left, each column from the bottom.
pub open spec fn rect_cells(a: CellKey, b: CellKey) -> Seq<CellKey> {
    let ny = rect_rows(a, b);
    Seq::new(
        (rect_cols(a, b) * ny) as nat,
        |k: int| ((min_i32(a.0, b.0) + k / ny) as i32, (min_i32(a.1, b.1) + k % ny) as i32),
    )
}

/// The selection after a click on `key` (with `ctrl` or `shift` held).
pub open spec fn spec_select(
    selected: Seq<CellKey>,
    pivot: Option<CellKey>,
    d: Dimensions,
    key: CellKey,
    ctrl: bool,
    shift: bool,
) -> (Seq<CellKey>, Option<CellKey>) {
    if !d.has_cell(key) {
        (selected, pivot)
    } else if ctrl {
        if selected.contains(key) {
            (selected.filter(other_than(key)), None)
        } else {
            (selected.push(key), None)
        }
    } else if shift {
        if selected.len() > 0 {
            let start = if selected.len() == 1 {
                selected[0]
            } else {
                match pivot {
                    Some(p) => p,
                    None => selected.last(),
                }
            };
            (rect_cells(start, key), Some(start))
        } else {
            (seq![key], Some(key))
        }
    } else if selected.contains(key) {
        (Seq::empty(), None)
    } else {
        (seq![key], Some(key))
    }
}

/// Keeps every cell but `key`.
pub open spec fn other_than(key: CellKey) -> spec_fn(CellKey) -> bool {
    |k: CellKey| k != key
}

/// The cell that a shift-click on `key` would select from.
pub open spec fn shift_start(selected: Seq<CellKey>, pivot: Option<CellKey>) -> CellKey {
    if selected.len() == 1 {
        selected[0]
    } else {
        match pivot {
            Some(p) => p,
            None => selected.last(),
        }
    }
}

/// The rectangle that a shift-click on `key` selects fits in memory.
pub open spec fn select_fits(selected: Seq<CellKey>, pivot: Option<CellKey>, key: CellKey) -> bool {
    selected.len() > 0 ==> rect_cols(shift_start(selected, pivot), key) * rect_rows(
        shift_start(selected, pivot),
        key,
    ) <= usize::MAX
}

fn same_key(a: CellKey, b: CellKey) -> (r: bool)
    ensures
        r == (a == b),
{
    a.0 == b.0 && a.1 == b.1
}

/// Whether `key` is in `keys`.
pub fn contains_key(keys: &Vec<CellKey>, key: CellKey) -> (r: bool)
    ensures
        r == keys@.contains(key),
{
    let mut i: usize = 0;
    while i < keys.len()
        invariant
            i <= keys.len(),
            forall|j: int| 0 <= j < i ==> keys@[j] != key,
        decreases keys.len() - i,
    {
        if same_key(keys[i], key) {
            assert(keys@[i as int] == key);
            return true;
        }
        i = i + 1;
    }
    false
}

/// `keys` without `key`.
fn without_key(keys: &Vec<CellKey>, key: CellKey) -> (r: Vec<CellKey>)
    ensures
        r@ == keys@.filter(other_than(key)),
{
    let ghost pred = other_than(key);
    let mut r: Vec<CellKey> = Vec::new();
    let mut i: usize = 0;
    while i < keys.len()
        invariant
            i <= keys.len(),
            pred == other_than(key),
            r@ == keys@.take(i as int).filter(pred),
        decreases keys.len() - i,
    {
        proof {
            assert(keys@.take(i + 1) == keys@.take(i as int).push(keys@[i as int]));
            keys@.take(i as int).lemma_filter_push(keys@[i as int], pred);
        }
        if !same_key(keys[i], key) {
            r.push(keys[i]);
        }
        i = i + 1;
    }
    assert(keys@.take(keys@.len() as int) == keys@);
    r
}

/// The cells of the rectangle spanned by `a` and `b` (see `rect_cells`).
pub fn rect_keys(a: CellKey, b: CellKey) -> (r: Vec<CellKey>)
    requires
        rect_cols(a, b) * rect_rows(a, b) <= usize::MAX,
    ensures
        r@ == rect_cells(a, b),
{
    let x0: i64 = if a.0 <= b.0 {
        a.0 as i64
    } else {
        b.0 as i64
    };
    let x1: i64 = if a.0 >= b.0 {
        a.0 as i64
    } else {
        b.0 as i64
    };
    let y0: i64 = if a.1 <= b.1 {
        a.1 as i64
    } else {
        b.1 as i64
    };
    let y1: i64 = if a.1 >= b.1 {
        a.1 as i64
    } else {
        b.1 as i64
    };
    let ghost ny = rect_rows(a, b);
    let ghost nx = rect_cols(a, b);
    let ghost cells = rect_cells(a, b);
    let mut keys: Vec<CellKey> = Vec::new();
    let mut x: i64 = x0;
    while x <= x1
        invariant
            x0 == min_i32(a.0, b.0),
            x1 == max_i32(a.0, b.0),
            y0 == min_i32(a.1, b.1),
            y1 == max_i32(a.1, b.1),
            ny == y1 - y0 + 1,
            nx == x1 - x0 + 1,
            nx * ny <= usize::MAX,
            cells == rect_cells(a, b),
            x0 <= x <= x1 + 1,
            keys@.len() == (x - x0) * ny,
            forall|k: int| 0 <= k < keys@.len() ==> keys@[k] == cells[k],
        decreases x1 + 1 - x,
    {
        let mut y: i64 = y0;
        while y <= y1
            invariant
                x0 == min_i32(a.0, b.0),
                x1 == max_i32(a.0, b.0),
                y0 == min_i32(a.1, b.1),
                y1 == max_i32(a.1, b.1),
                ny == y1 - y0 + 1,
                nx == x1 - x0 + 1,
                nx * ny <= usize::MAX,
                cells == rect_cells(a, b),
                x0 <= x <= x1,
                y0 <= y <= y1 + 1,
                keys@.len() == (x - x0) * ny + (y - y0),
                forall|k: int| 0 <= k < keys@.len() ==> keys@[k] == cells[k],
            decreases y1 + 1 - y,
        {
            let ghost k = (x - x0) * ny + (y - y0);
            proof {
                lemma_fundamental_div_mod_converse(k, ny, x - x0, y - y0);
                assert(k < nx * ny) by (nonlinear_arith)
                    requires
                        k == (x - x0) * ny + (y - y0),
                        0 <= x - x0 < nx,
                        0 <= y - y0 < ny,
                ;
            }
            keys.push((x as i32, y as i32));
            y = y + 1;
        }
        proof {
            assert((x + 1 - x0) * ny == (x - x0) * ny + ny) by (nonlinear_arith);
        }
        x = x + 1;
    }
    proof {
        assert(keys@.len() == nx * ny);
        assert(keys@ =~= cells);
    }
    keys
}

impl Default for RuntimeData {
    fn default() -> (r: Self)
        ensures
            r.plugin_filter@ == Seq::<char>::empty(),
            r.cell_filter@ == Seq::<char>::empty(),
            r.selected_ids@ == Seq::<CellKey>::empty(),
            r.pivot_id is None,
            r.hover_pos == (0i32, 0i32),
    {
        RuntimeData {
            plugin_filter: String::new(),
            cell_filter: String::new(),
            selected_ids: Vec::new(),
            pivot_id: None,
            hover_pos: (0, 0),
        }
    }
}

impl RuntimeData {
    /// Updates the selection for a click on the cell `key`; clicks on cells
    /// outside the bounds change nothing.
    pub fn select_cell(&mut self, dimensions: &Dimensions, key: CellKey, ctrl: bool, shift: bool)
        requires
            shift && !ctrl && dimensions.has_cell(key) ==> select_fits(
                old(self).selected_ids@,
                old(self).pivot_id,
                key,
            ),
        ensures
            (final(self).selected_ids@, final(self).pivot_id) == spec_select(
                old(self).selected_ids@,
                old(self).pivot_id,
                *dimensions,
                key,
                ctrl,
                shift,
            ),
            final(self).plugin_filter == old(self).plugin_filter,
            final(self).cell_filter == old(self).cell_filter,
            final(self).hover_pos == old(self).hover_pos,
    {
        if !dimensions.contains_cell(key) {
            return;
        }
        if ctrl {
            self.pivot_id = None;
            if contains_key(&self.selected_ids, key) {
                self.selected_ids = without_key(&self.selected_ids, key);
            } else {
                self.selected_ids.push(key);
            }
        } else if shift {
            if self.selected_ids.len() > 0 {
                let n = self.selected_ids.len();
                let start = if n == 1 {
                    self.selected_ids[0]
                } else {
                    match self.pivot_id {
                        Some(p) => p,
                        None => self.selected_ids[n - 1],
                    }
                };
                self.pivot_id = Some(start);
                self.selected_ids = rect_keys(start, key);
            } else {
                self.selected_ids = vec![key];
                self.pivot_id = Some(key);
                assert(self.selected_ids@ =~= seq![key]);
            }
        } else if contains_key(&self.selected_ids, key) {
            self.selected_ids = Vec::new();
            self.pivot_id = None;
        } else {
            self.selected_ids = vec![key];
            self.pivot_id = Some(key);
            assert(self.selected_ids@ =~= seq![key]);
        }
    }
}

proof fn lemma_filter_keeps_all(s: Seq<CellKey>, key: CellKey)
    requires
        !s.contains(key),
    ensures
        s.filter(other_than(key)) == s,
    decreases s.len(),
{
    reveal(Seq::filter);
    if s.len() > 0 {
        assert(!s.drop_last().contains(key)) by {
            if s.drop_last().contains(key) {
                let i = choose|i: int| 0 <= i < s.drop_last().len() && s.drop_last()[i] == key;
                assert(s[i] == key);
            }
        }
        lemma_filter_keeps_all(s.drop_last(), key);
        assert(s.last() != key) by {
            assert(s[s.len() - 1] == s.last());
        }
        assert(s.drop_last().push(s.last()) =~= s);
    }
}

/// Law: ctrl-clicking a shown cell that is not selected, and then ctrl-clicking
/// it again, gives back the selection there was (with no pivot).
pub proof fn lemma_ctrl_click_twice(
    selected: Seq<CellKey>,
    pivot: Option<CellKey>,
    d: Dimensions,
    key: CellKey,
    shift: bool,
)
    requires
        d.has_cell(key),
        !selected.contains(key),
    ensures
        ({
            let (s1, p1) = spec_select(selected, pivot, d, key, true, shift);
            let (s2, p2) = spec_select(s1, p1, d, key, true, shift);
            s1 == selected.push(key) && s2 == selected && p2 is None
        }),
{
    let s1 = selected.push(key);
    assert(s1[s1.len() - 1] == key);
    assert(s1.contains(key));
    selected.lemma_filter_push(key, other_than(key));
    lemma_filter_keeps_all(selected, key);
}

/// Law: a plain click on a shown cell that is not selected selects exactly
/// that cell and makes it the pivot; a second plain click on it clears the
/// selection.
pub proof fn lemma_plain_click_twice(
    selected: Seq<CellKey>,
    pivot: Option<CellKey>,
    d: Dimensions,
    key: CellKey,
)
    requires
        d.has_cell(key),
        !selected.contains(key),
    ensures
        ({
            let (s1, p1) = spec_select(selected, pivot, d, key, false, false);
            let (s2, p2) = spec_select(s1, p1, d, key, false, false);
            s1 == seq![key] && p1 == Some(key) && s2 == Seq::<CellKey>::empty() && p2 is None
        }),
{
    assert(seq![key][0] == key);
    assert(seq![key].contains(key));
}

/// Law: the rectangle a shift-click selects holds both of its corner cells,
/// has one entry per cell of the rectangle, and holds only cells inside it.
pub proof fn lemma_rect_cells(a: CellKey, b: CellKey)
    ensures
        rect_cells(a, b).len() == rect_cols(a, b) * rect_rows(a, b),
        rect_cells(a, b).contains(a),
        rect_cells(a, b).contains(b),
        forall|k: int|
            0 <= k < rect_cells(a, b).len() ==> {
                let c = #[trigger] rect_cells(a, b)[k];
                &&& min_i32(a.0, b.0) <= c.0 <= max_i32(a.0, b.0)
                &&& min_i32(a.1, b.1) <= c.1 <= max_i32(a.1, b.1)
            },
{
    let ny = rect_rows(a, b);
    let nx = rect_cols(a, b);
    let cells = rect_cells(a, b);
    assert(0 <= nx * ny) by (nonlinear_arith)
        requires
            nx >= 1,
            ny >= 1,
    ;
    assert forall|k: int| 0 <= k < cells.len() implies {
        let c = #[trigger] cells[k];
        &&& min_i32(a.0, b.0) <= c.0 <= max_i32(a.0, b.0)
        &&& min_i32(a.1, b.1) <= c.1 <= max_i32(a.1, b.1)
    } by {
        vstd::arithmetic::div_mod::lemma_fundamental_div_mod(k, ny);
        vstd::arithmetic::div_mod::lemma_mod_bound(k, ny);
        vstd::arithmetic::div_mod::lemma_div_pos_is_pos(k, ny);
        vstd::arithmetic::div_mod::lemma_multiply_divide_lt(k, ny, nx);
        assert(k < ny * nx) by (nonlinear_arith)
            requires
                k < nx * ny,
        ;
    }
    let ka = (a.0 - min_i32(a.0, b.0)) * ny + (a.1 - min_i32(a.1, b.1));
    let kb = (b.0 - min_i32(a.0, b.0)) * ny + (b.1 - min_i32(a.1, b.1));
    lemma_fundamental_div_mod_converse(ka, ny, a.0 - min_i32(a.0, b.0), a.1 - min_i32(a.1, b.1));
    lemma_fundamental_div_mod_converse(kb, ny, b.0 - min_i32(a.0, b.0), b.1 - min_i32(a.1, b.1));
    assert(0 <= ka < nx * ny) by (nonlinear_arith)
        requires
            ka == (a.0 - min_i32(a.0, b.0)) * ny + (a.1 - min_i32(a.1, b.1)),
            0 <= a.0 - min_i32(a.0, b.0) < nx,
            0 <= a.1 - min_i32(a.1, b.1) < ny,
    ;
    assert(0 <= kb < nx * ny) by (nonlinear_arith)
        requires
            kb == (b.0 - min_i32(a.0, b.0)) * ny + (b.1 - min_i32(a.1, b.1)),
            0 <= b.0 - min_i32(a.0, b.0) < nx,
            0 <= b.1 - min_i32(a.1, b.1) < ny,
    ;
    assert(cells[ka] == a);
    assert(cells[kb] == b);
}

} // verus!
