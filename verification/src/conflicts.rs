//! Cells changed by more than one of the loaded plugins.
use vstd::prelude::*;

use crate::raster::distinct_keys;
use crate::CellKey;

verus! {

/// The (cell, plugin hash) pairs of the exterior cells that the plugins
/// change, plugin by plugin in load order.
pub open spec fn plugin_events(plugins: Seq<(u64, Vec<CellKey>)>) -> Seq<(CellKey, u64)>
    decreases plugins.len(),
{
    if plugins.len() == 0 {
        Seq::empty()
    } else {
        plugin_events(plugins.drop_last()) + plugins.last().1@.map_values(
            |k: CellKey| (k, plugins.last().0),
        )
    }
}

/// The hashes of the plugins that change cell `k`, in load order (a plugin
/// that lists the cell twice appears twice).
pub open spec fn hashes_of(events: Seq<(CellKey, u64)>, k: CellKey) -> Seq<u64>
    decreases events.len(),
{
    if events.len() == 0 {
        Seq::empty()
    } else {
        let rest = hashes_of(events.drop_last(), k);
        if events.last().0 == k {
            rest.push(events.last().1)
        } else {
            rest
        }
    }
}

proof fn lemma_hashes_push(events: Seq<(CellKey, u64)>, e: (CellKey, u64), k: CellKey)
    ensures
        hashes_of(events.push(e), k) == if e.0 == k {
            hashes_of(events, k).push(e.1)
        } else {
            hashes_of(events, k)
        },
{
    assert(events.push(e).drop_last() =~= events);
}

fn find_key_in(keys: &Vec<CellKey>, key: CellKey) -> (r: Option<usize>)
    ensures
        match r {
            Some(j) => j < keys@.len() && keys@[j as int] == key,
            None => !keys@.contains(key),
        },
{
    let mut j: usize = 0;
    while j < keys.len()
        invariant
            j <= keys.len(),
            forall|i: int| 0 <= i < j ==> keys@[i] != key,
        decreases keys.len() - j,
    {
        if keys[j].0 == key.0 && keys[j].1 == key.1 {
            return Some(j);
        }
        j = j + 1;
    }
    None
}

/// The cells that more than one plugin changes, each with the hashes of the
/// plugins that change it in load order.  `plugin_cells` holds, for each
/// loaded plugin in load order, its hash and the exterior cells it changes.
pub fn compute_cell_conflicts(plugin_cells: &Vec<(u64, Vec<CellKey>)>) -> (conflicts: Vec<(CellKey, Vec<u64>)>)
    ensures
        distinct_keys(conflicts@),
        forall|j: int|
            0 <= j < conflicts@.len() ==> {
                &&& (#[trigger] conflicts@[j]).1@ == hashes_of(plugin_events(plugin_cells@), conflicts@[j].0)
                &&& conflicts@[j].1@.len() > 1
            },
        forall|k: CellKey|
            #![trigger hashes_of(plugin_events(plugin_cells@), k)]
            hashes_of(plugin_events(plugin_cells@), k).len() > 1 ==> exists|j: int|
                0 <= j < conflicts@.len() && (#[trigger] conflicts@[j]).0 == k,
{
    let ghost plugins = plugin_cells@;
    let mut keys: Vec<CellKey> = Vec::new();
    let mut hashes: Vec<Vec<u64>> = Vec::new();
    let ghost mut events: Seq<(CellKey, u64)> = Seq::empty();
    let mut p: usize = 0;
    while p < plugin_cells.len()
        invariant
            plugins == plugin_cells@,
            p <= plugins.len(),
            events == plugin_events(plugins.take(p as int)),
            keys@.len() == hashes@.len(),
            forall|a: int, b: int| 0 <= a < b < keys@.len() ==> keys@[a] != keys@[b],
            forall|j: int| 0 <= j < keys@.len() ==> (#[trigger] hashes@[j])@ == hashes_of(events, keys@[j]),
            forall|k: CellKey| #[trigger] hashes_of(events, k).len() > 0 ==> keys@.contains(k),
        decreases plugins.len() - p,
    {
        let hash = plugin_cells[p].0;
        let cells = &plugin_cells[p].1;
        let ghost start = events;
        let mut c: usize = 0;
        while c < cells.len()
            invariant
                plugins == plugin_cells@,
                p < plugins.len(),
                *cells == plugins[p as int].1,
                hash == plugins[p as int].0,
                start == plugin_events(plugins.take(p as int)),
                c <= cells@.len(),
                events == start + cells@.take(c as int).map_values(|k: CellKey| (k, hash)),
                keys@.len() == hashes@.len(),
                forall|a: int, b: int| 0 <= a < b < keys@.len() ==> keys@[a] != keys@[b],
                forall|j: int| 0 <= j < keys@.len() ==> (#[trigger] hashes@[j])@ == hashes_of(events, keys@[j]),
                forall|k: CellKey| #[trigger] hashes_of(events, k).len() > 0 ==> keys@.contains(k),
            decreases cells@.len() - c,
        {
            let key = cells[c];
            let ghost old_events = events;
            proof {
                events = events.push((key, hash));
                assert(cells@.take(c + 1).map_values(|k: CellKey| (k, hash)) =~= cells@.take(
                    c as int,
                ).map_values(|k: CellKey| (k, hash)).push((key, hash)));
                assert(events == start + cells@.take(c + 1).map_values(|k: CellKey| (k, hash)));
            }
            match find_key_in(&keys, key) {
                Some(j) => {
                    let ghost old_hashes = hashes@;
                    hashes[j].push(hash);
                    assert forall|i: int| 0 <= i < keys@.len() implies (#[trigger] hashes@[i])@ == hashes_of(events, keys@[i]) by {
                        lemma_hashes_push(old_events, (key, hash), keys@[i]);
                        if i != j {
                            assert(hashes@[i] == old_hashes[i]);
                        }
                    }
                    assert forall|k: CellKey| #[trigger] hashes_of(events, k).len() > 0 implies keys@.contains(k) by {
                        lemma_hashes_push(old_events, (key, hash), k);
                    }
                },
                None => {
                    let ghost old_keys = keys@;
                    let ghost old_hashes = hashes@;
                    keys.push(key);
                    hashes.push(vec![hash]);
                    assert forall|i: int| 0 <= i < keys@.len() implies (#[trigger] hashes@[i])@ == hashes_of(events, keys@[i]) by {
                        lemma_hashes_push(old_events, (key, hash), keys@[i]);
                        if i < old_keys.len() {
                            assert(hashes@[i] == old_hashes[i]);
                            assert(keys@[i] != key) by {
                                assert(old_keys[i] == keys@[i]);
                            }
                        } else {
                            assert(keys@[i] == key);
                            assert(!old_keys.contains(key));
                            assert(hashes_of(old_events, key).len() == 0);
                            assert(hashes@[i]@ =~= seq![hash]);
                            assert(hashes_of(old_events, key) =~= Seq::<u64>::empty());
                        }
                    }
                    assert forall|k: CellKey| #[trigger] hashes_of(events, k).len() > 0 implies keys@.contains(k) by {
                        lemma_hashes_push(old_events, (key, hash), k);
                        if k == key {
                            assert(keys@[keys@.len() - 1] == key);
                        } else {
                            assert(old_keys.contains(k));
                            let i = choose|i: int| 0 <= i < old_keys.len() && old_keys[i] == k;
                            assert(keys@[i] == k);
                        }
                    }
                },
            }
            c = c + 1;
        }
        proof {
            assert(cells@.take(cells@.len() as int) =~= cells@);
            assert(plugins.take(p + 1).drop_last() =~= plugins.take(p as int));
            assert(plugins.take(p + 1).last() == plugins[p as int]);
        }
        p = p + 1;
    }
    proof {
        assert(plugins.take(plugins.len() as int) =~= plugins);
    }
    let mut conflicts: Vec<(CellKey, Vec<u64>)> = Vec::new();
    let mut j: usize = 0;
    while j < keys.len()
        invariant
            events == plugin_events(plugins),
            plugins == plugin_cells@,
            keys@.len() == hashes@.len(),
            forall|a: int, b: int| 0 <= a < b < keys@.len() ==> keys@[a] != keys@[b],
            forall|i: int| 0 <= i < keys@.len() ==> (#[trigger] hashes@[i])@ == hashes_of(events, keys@[i]),
            forall|k: CellKey| #[trigger] hashes_of(events, k).len() > 0 ==> keys@.contains(k),
            j <= keys@.len(),
            forall|i: int|
                0 <= i < conflicts@.len() ==> exists|m: int| 0 <= m < j && (#[trigger] conflicts@[i]).0 == keys@[m],
            forall|a: int, b: int|
                0 <= a < conflicts@.len() && 0 <= b < conflicts@.len() && a != b ==> conflicts@[a].0
                    != conflicts@[b].0,
            forall|i: int|
                0 <= i < conflicts@.len() ==> {
                    &&& (#[trigger] conflicts@[i]).1@ == hashes_of(events, conflicts@[i].0)
                    &&& conflicts@[i].1@.len() > 1
                },
            forall|m: int|
                0 <= m < j && hashes_of(events, #[trigger] keys@[m]).len() > 1 ==> exists|i: int|
                    0 <= i < conflicts@.len() && (#[trigger] conflicts@[i]).0 == keys@[m],
        decreases keys@.len() - j,
    {
        if hashes[j].len() > 1 {
            let ghost old_conflicts = conflicts@;
            conflicts.push((keys[j], hashes[j].clone()));
            assert(conflicts@[conflicts@.len() - 1].1@ == hashes@[j as int]@);
            assert forall|a: int, b: int|
                0 <= a < conflicts@.len() && 0 <= b < conflicts@.len() && a != b implies conflicts@[a].0
                    != conflicts@[b].0 by {
                if a == conflicts@.len() - 1 {
                    assert(conflicts@[b] == old_conflicts[b]);
                    let m = choose|m: int| 0 <= m < j && (#[trigger] old_conflicts[b]).0 == keys@[m];
                } else if b == conflicts@.len() - 1 {
                    assert(conflicts@[a] == old_conflicts[a]);
                    let m = choose|m: int| 0 <= m < j && (#[trigger] old_conflicts[a]).0 == keys@[m];
                } else {
                    assert(conflicts@[a] == old_conflicts[a]);
                    assert(conflicts@[b] == old_conflicts[b]);
                }
            }
            assert forall|i: int|
                0 <= i < conflicts@.len() implies exists|m: int| 0 <= m < j + 1 && (#[trigger] conflicts@[i]).0 == keys@[m] by {
                if i < old_conflicts.len() {
                    assert(conflicts@[i] == old_conflicts[i]);
                    let m = choose|m: int| 0 <= m < j && (#[trigger] old_conflicts[i]).0 == keys@[m];
                } else {
                    assert(conflicts@[i].0 == keys@[j as int]);
                }
            }
            assert forall|m: int|
                0 <= m < j + 1 && hashes_of(events, #[trigger] keys@[m]).len() > 1 implies exists|i: int|
                    0 <= i < conflicts@.len() && (#[trigger] conflicts@[i]).0 == keys@[m] by {
                if m < j {
                    let i = choose|i: int| 0 <= i < old_conflicts.len() && (#[trigger] old_conflicts[i]).0 == keys@[m];
                    assert(conflicts@[i] == old_conflicts[i]);
                } else {
                    assert(conflicts@[conflicts@.len() - 1].0 == keys@[m]);
                }
            }
        }
        j = j + 1;
    }
    assert forall|k: CellKey| #![trigger hashes_of(plugin_events(plugin_cells@), k)]
        hashes_of(plugin_events(plugin_cells@), k).len() > 1 implies exists|j: int|
            0 <= j < conflicts@.len() && (#[trigger] conflicts@[j]).0 == k by {
        assert(keys@.contains(k));
        let m = choose|m: int| 0 <= m < keys@.len() && keys@[m] == k;
        assert(hashes_of(events, keys@[m]).len() > 1);
    }
    conflicts
}

} // verus!
