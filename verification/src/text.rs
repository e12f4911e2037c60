//! Labels shown to the user: the name of a cell and the id of a record.
use vstd::prelude::*;

use crate::images::{str_contains, str_to_lowercase, unicode_lowercase};
use crate::lookup::find_cell;
use crate::plugins::is_infix;
use crate::overlays::CellInfo;
use crate::raster::{distinct_keys, entry_at};
use crate::CellKey;

verus! {

/// The character of decimal digit `d`.
pub open spec fn digit_char(d: int) -> char {
    (48 + d) as char
}

/// Decimal digits of `n`, most significant first, without leading zeros.
pub open spec fn digits(n: nat) -> Seq<char>
    decreases n,
{
    if n < 10 {
        seq![digit_char(n as int)]
    } else {
        digits(n / 10).push(digit_char((n % 10) as int))
    }
}

/// Decimal form of `i`, with a leading `-` when negative.
pub open spec fn decimal(i: int) -> Seq<char> {
    if i < 0 {
        seq!['-'] + digits((-i) as nat)
    } else {
        digits(i as nat)
    }
}

/// The one-character string of decimal digit `d`.
fn digit_str(d: u32) -> (s: &'static str)
    requires
        d < 10,
    ensures
        s@ == seq![digit_char(d as int)],
{
    match d {
        0 => {
            proof {
                reveal_strlit("0");
            }
            "0"
        },
        1 => {
            proof {
                reveal_strlit("1");
            }
            "1"
        },
        2 => {
            proof {
                reveal_strlit("2");
            }
            "2"
        },
        3 => {
            proof {
                reveal_strlit("3");
            }
            "3"
        },
        4 => {
            proof {
                reveal_strlit("4");
            }
            "4"
        },
        5 => {
            proof {
                reveal_strlit("5");
            }
            "5"
        },
        6 => {
            proof {
                reveal_strlit("6");
            }
            "6"
        },
        7 => {
            proof {
                reveal_strlit("7");
            }
            "7"
        },
        8 => {
            proof {
                reveal_strlit("8");
            }
            "8"
        },
        _ => {
            proof {
                reveal_strlit("9");
            }
            "9"
        },
    }
}

/// Appends the decimal digits of `n` to `s`.
fn push_digits(s: &mut String, n: u32)
    ensures
        final(s)@ == old(s)@ + digits(n as nat),
    decreases n,
{
    if n >= 10 {
        push_digits(s, n / 10);
    }
    let ghost before = s@;
    s.append(digit_str(n % 10));
    proof {
        if n >= 10 {
            assert(digits(n as nat) == digits((n / 10) as nat).push(digit_char((n % 10) as int)));
            assert(s@ =~= old(s)@ + digits(n as nat));
        } else {
            assert(s@ =~= old(s)@ + digits(n as nat));
        }
    }
}

/// The decimal form of `i`, as `i32`'s `to_string` writes it.
fn i32_to_string(i: i32) -> (s: String)
    ensures
        s@ == decimal(i as int),
{
    let mut s = String::new();
    if i < 0 {
        s.append("-");
        proof {
            reveal_strlit("-");
        }
        let m: u32 = (0i64 - (i as i64)) as u32;
        push_digits(&mut s, m);
    } else {
        push_digits(&mut s, i as u32);
    }
    s
}

/// The name shown for a cell: its own name, or the name of its region when
/// it has none; empty for unknown cells.
pub open spec fn cell_display_name(cells: Seq<(CellKey, CellInfo)>, pos: CellKey) -> Seq<char> {
    match entry_at(cells, (pos.0 as int, pos.1 as int)) {
        Some(j) => if cells[j].1.name@.len() == 0 {
            match cells[j].1.region {
                Some(r) => r@,
                None => cells[j].1.name@,
            }
        } else {
            cells[j].1.name@
        },
        None => Seq::empty(),
    }
}

/// Label of a cell: its name followed by its grid coordinates, as in
/// `"Balmora (-3,-2)"`.
pub fn get_cell_name(cells: &Vec<(CellKey, CellInfo)>, pos: CellKey) -> (label: String)
    requires
        distinct_keys(cells@),
    ensures
        label@ == cell_display_name(cells@, pos) + " ("@ + decimal(pos.0 as int) + ","@ + decimal(
            pos.1 as int,
        ) + ")"@,
{
    let mut name = String::new();
    if let Some(j) = find_cell(cells, pos) {
        let cell = &cells[j].1;
        name = cell.name.clone();
        if name.as_str().is_empty() {
            if let Some(region) = &cell.region {
                name = region.clone();
            }
        }
    }
    name.append(" (");
    name.append(i32_to_string(pos.0).as_str());
    name.append(",");
    name.append(i32_to_string(pos.1).as_str());
    name.append(")");
    name
}

/// A unique id of a record: its type tag, a comma, and its editor id.
pub fn get_unique_id(tag: &str, editor_id: &str) -> (id: String)
    ensures
        id@ == tag@ + ","@ + editor_id@,
{
    let mut id = String::from_str(tag);
    id.append(",");
    id.append(editor_id);
    id
}

/// The label of a cell in the cell list: its key as `(x, y)`, then ` - `
/// and its name.
pub open spec fn cell_list_label(key: CellKey, name: Seq<char>) -> Seq<char> {
    "("@ + decimal(key.0 as int) + ", "@ + decimal(key.1 as int) + ") - "@ + name
}

/// A label passes the filter: the filter is empty, or occurs in the label,
/// both in lower case.
pub open spec fn label_matches(label: Seq<char>, filter: Seq<char>) -> bool {
    filter.len() == 0 || is_infix(unicode_lowercase(filter), unicode_lowercase(label))
}

/// Key `a` comes before key `b`: by column, then by row.
pub open spec fn key_before(a: CellKey, b: CellKey) -> bool {
    a.0 < b.0 || (a.0 == b.0 && a.1 < b.1)
}

/// Entry `e` of the list is the label of one of the first `n` cells, and
/// passes the filter.
pub open spec fn listed_from(cells: Seq<(CellKey, String)>, n: int, filter: Seq<char>, e: (CellKey, String)) -> bool {
    exists|j: int|
        0 <= j < n && #[trigger] cells[j].0 == e.0 && e.1@ == cell_list_label(cells[j].0, cells[j].1@)
            && label_matches(e.1@, filter)
}

/// Some entry of the list is for the cell `key`.
pub open spec fn lists_key(list: Seq<(CellKey, String)>, key: CellKey) -> bool {
    exists|k: int| 0 <= k < list.len() && #[trigger] list[k].0 == key
}

fn cell_label(key: CellKey, name: &String) -> (label: String)
    ensures
        label@ == cell_list_label(key, name@),
{
    let mut label = String::from_str("(");
    label.append(i32_to_string(key.0).as_str());
    label.append(", ");
    label.append(i32_to_string(key.1).as_str());
    label.append(") - ");
    label.append(name.as_str());
    proof {
        reveal_strlit("(");
        reveal_strlit(", ");
        reveal_strlit(") - ");
    }
    label
}

/// The cell list: for each cell (with its name) whose label passes the
/// filter, its key and label, in the order of the keys.
pub fn cell_list(cells: &Vec<(CellKey, String)>, filter: &str) -> (list: Vec<(CellKey, String)>)
    requires
        distinct_keys(cells@),
    ensures
        forall|a: int, b: int| 0 <= a < b < list@.len() ==> key_before(list@[a].0, list@[b].0),
        forall|k: int| 0 <= k < list@.len() ==> listed_from(cells@, cells@.len() as int, filter@, #[trigger] list@[k]),
        forall|j: int|
            0 <= j < cells@.len() && label_matches(cell_list_label(cells@[j].0, cells@[j].1@), filter@)
                ==> lists_key(list@, #[trigger] cells@[j].0),
{
    let lower_filter = str_to_lowercase(filter);
    let filter_empty = filter.unicode_len() == 0;
    let mut list: Vec<(CellKey, String)> = Vec::new();
    let mut i: usize = 0;
    while i < cells.len()
        invariant
            distinct_keys(cells@),
            lower_filter@ == unicode_lowercase(filter@),
            filter_empty == (filter@.len() == 0),
            i <= cells@.len(),
            forall|a: int, b: int| 0 <= a < b < list@.len() ==> key_before(list@[a].0, list@[b].0),
            forall|k: int| 0 <= k < list@.len() ==> listed_from(cells@, i as int, filter@, #[trigger] list@[k]),
            forall|j: int|
                0 <= j < i && label_matches(cell_list_label(cells@[j].0, cells@[j].1@), filter@)
                    ==> lists_key(list@, #[trigger] cells@[j].0),
        decreases cells@.len() - i,
    {
        let key = cells[i].0;
        let label = cell_label(key, &cells[i].1);
        let passes = filter_empty || str_contains(str_to_lowercase(label.as_str()).as_str(), lower_filter.as_str());
        if passes {
            let mut p: usize = 0;
            while p < list.len() && (list[p].0.0 < key.0 || (list[p].0.0 == key.0 && list[p].0.1 < key.1))
                invariant
                    p <= list@.len(),
                    forall|q: int| 0 <= q < p ==> key_before(#[trigger] list@[q].0, key),
                decreases list@.len() - p,
            {
                p = p + 1;
            }
            let ghost old_list = list@;
            let entry = (key, label);
            proof {
                old_list.insert_ensures(p as int, entry);
                // the entries from p on are for other cells, after `key`
                assert forall|q: int| p <= q < old_list.len() implies key_before(key, #[trigger] old_list[q].0) by {
                    assert(listed_from(cells@, i as int, filter@, old_list[q]));
                    let j = choose|j: int|
                        0 <= j < i && #[trigger] cells@[j].0 == old_list[q].0 && old_list[q].1@ == cell_list_label(
                            cells@[j].0,
                            cells@[j].1@,
                        ) && label_matches(old_list[q].1@, filter@);
                    assert(cells@[j].0 != cells@[i as int].0);
                    if p < old_list.len() {
                        assert(!key_before(old_list[p as int].0, key));
                        if q > p {
                            assert(key_before(old_list[p as int].0, old_list[q].0));
                        }
                    }
                }
            }
            list.insert(p, entry);
            assert forall|a: int, b: int| 0 <= a < b < list@.len() implies key_before(list@[a].0, list@[b].0) by {
                if b < p {
                } else if b == p {
                } else if a < p {
                    assert(list@[b] == old_list[b - 1]);
                    assert(key_before(key, old_list[b - 1].0));
                } else if a == p {
                    assert(list@[b] == old_list[b - 1]);
                } else {
                    assert(list@[a] == old_list[a - 1]);
                    assert(list@[b] == old_list[b - 1]);
                }
            }
            assert forall|k: int| 0 <= k < list@.len() implies listed_from(cells@, i + 1, filter@, #[trigger] list@[k]) by {
                if k < p {
                    assert(listed_from(cells@, i as int, filter@, old_list[k]));
                } else if k == p {
                    assert(cells@[i as int].0 == list@[k].0);
                } else {
                    assert(list@[k] == old_list[k - 1]);
                    assert(listed_from(cells@, i as int, filter@, old_list[k - 1]));
                }
            }
            assert forall|j: int|
                0 <= j < i + 1 && label_matches(cell_list_label(cells@[j].0, cells@[j].1@), filter@)
                    implies lists_key(list@, #[trigger] cells@[j].0) by {
                if j == i {
                    assert(list@[p as int].0 == cells@[j].0);
                } else {
                    assert(lists_key(old_list, cells@[j].0));
                    let k = choose|k: int| 0 <= k < old_list.len() && #[trigger] old_list[k].0 == cells@[j].0;
                    if k < p {
                        assert(list@[k].0 == cells@[j].0);
                    } else {
                        assert(list@[k + 1].0 == cells@[j].0);
                    }
                }
            }
        } else {
            assert(!label_matches(cell_list_label(cells@[i as int].0, cells@[i as int].1@), filter@));
            assert forall|k: int| 0 <= k < list@.len() implies listed_from(cells@, i + 1, filter@, #[trigger] list@[k]) by {
                assert(listed_from(cells@, i as int, filter@, list@[k]));
            }
        }
        i = i + 1;
    }
    list
}

} // verus!
