//! Lookups in lists of keyed entries, the form the library gives to maps.
use vstd::prelude::*;

use crate::raster::{distinct_keys, entry_at, same_cell};
use crate::CellKey;

verus! {

/// The entry whose key is `k`, if any.
pub open spec fn find_key<K, V>(entries: Seq<(K, V)>, k: K) -> Option<int> {
    if exists|j: int| 0 <= j < entries.len() && #[trigger] entries[j].0 == k {
        Some(choose|j: int| 0 <= j < entries.len() && #[trigger] entries[j].0 == k)
    } else {
        None
    }
}

/// The entry whose name is `name`, if any.
pub open spec fn find_name<V>(entries: Seq<(String, V)>, name: Seq<char>) -> Option<int> {
    if exists|j: int| 0 <= j < entries.len() && #[trigger] entries[j].0@ == name {
        Some(choose|j: int| 0 <= j < entries.len() && #[trigger] entries[j].0@ == name)
    } else {
        None
    }
}

pub open spec fn distinct_indices<V>(entries: Seq<(u32, V)>) -> bool {
    forall|a: int, b: int|
        0 <= a < entries.len() && 0 <= b < entries.len() && a != b ==> entries[a].0 != entries[b].0
}

pub open spec fn distinct_names<V>(entries: Seq<(String, V)>) -> bool {
    forall|a: int, b: int|
        0 <= a < entries.len() && 0 <= b < entries.len() && a != b ==> entries[a].0@ != entries[b].0@
}

/// The position of the entry with index `key`.
pub fn find_index<V>(ltex_records: &Vec<(u32, V)>, key: u32) -> (e: Option<usize>)
    requires
        distinct_indices(ltex_records@),
    ensures
        match e {
            Some(j) => find_key(ltex_records@, key) == Some(j as int),
            None => find_key(ltex_records@, key) is None,
        },
{
    let mut j: usize = 0;
    while j < ltex_records.len()
        invariant
            distinct_indices(ltex_records@),
            j <= ltex_records.len(),
            forall|k: int| 0 <= k < j ==> (#[trigger] ltex_records@[k]).0 != key,
        decreases ltex_records.len() - j,
    {
        if ltex_records[j].0 == key {
            let ghost c = choose|k: int|
                0 <= k < ltex_records@.len() && #[trigger] ltex_records@[k].0 == key;
            assert(ltex_records@[j as int].0 == key);
            assert(ltex_records@[c].0 == ltex_records@[j as int].0);
            assert(c == j);
            return Some(j);
        }
        j = j + 1;
    }
    None
}

/// The position of the entry named `name`.
pub fn find_named<V>(textures: &Vec<(String, V)>, name: &String) -> (e: Option<usize>)
    requires
        distinct_names(textures@),
    ensures
        match e {
            Some(j) => find_name(textures@, name@) == Some(j as int),
            None => find_name(textures@, name@) is None,
        },
{
    let mut j: usize = 0;
    while j < textures.len()
        invariant
            distinct_names(textures@),
            j <= textures.len(),
            forall|k: int| 0 <= k < j ==> (#[trigger] textures@[k]).0@ != name@,
        decreases textures.len() - j,
    {
        if textures[j].0 == *name {
            let ghost c = choose|k: int|
                0 <= k < textures@.len() && #[trigger] textures@[k].0@ == name@;
            assert(textures@[j as int].0@ == name@);
            assert(textures@[c].0@ == textures@[j as int].0@);
            assert(c == j);
            return Some(j);
        }
        j = j + 1;
    }
    None
}

/// The position of the entry for cell `key`.
pub fn find_cell<V>(entries: &Vec<(CellKey, V)>, key: CellKey) -> (e: Option<usize>)
    requires
        distinct_keys(entries@),
    ensures
        match e {
            Some(j) => entry_at(entries@, (key.0 as int, key.1 as int)) == Some(j as int),
            None => entry_at(entries@, (key.0 as int, key.1 as int)) is None,
        },
{
    let ghost p = (key.0 as int, key.1 as int);
    let mut j: usize = 0;
    while j < entries.len()
        invariant
            distinct_keys(entries@),
            p == (key.0 as int, key.1 as int),
            j <= entries.len(),
            forall|k: int| 0 <= k < j ==> !same_cell(#[trigger] entries@[k].0, p),
        decreases entries.len() - j,
    {
        let k = entries[j].0;
        if k.0 == key.0 && k.1 == key.1 {
            assert(same_cell(entries@[j as int].0, p));
            let ghost c = choose|c: int| 0 <= c < entries@.len() && same_cell(#[trigger] entries@[c].0, p);
            assert(entries@[c].0 == entries@[j as int].0);
            assert(c == j);
            return Some(j);
        }
        j = j + 1;
    }
    None
}

} // verus!
