//! The travel overlay: lines between the cell of a travel service NPC and
//! the cells it carries travellers to, grouped by service class.
use vstd::prelude::*;

use crate::landscape::{contains_string, string_views};
use crate::lookup::{distinct_names, find_name, find_named};
use crate::CellKey;

verus! {

/// A travel line: the service class and the (start, destination) cells.
pub type EdgeView = (Seq<char>, (CellKey, CellKey));

/// The travel lines as values.
pub open spec fn edge_views(edges: Seq<(String, (CellKey, CellKey))>) -> Seq<EdgeView> {
    edges.map_values(|e: (String, (CellKey, CellKey))| (e.0@, e.1))
}

/// Adds the lines from `start` to each destination in turn, skipping a
/// destination whose line in the opposite direction is already there.
pub open spec fn add_npc_edges(
    edges: Seq<EdgeView>,
    class: Seq<char>,
    start: CellKey,
    dests: Seq<CellKey>,
) -> Seq<EdgeView>
    decreases dests.len(),
{
    if dests.len() == 0 {
        edges
    } else {
        let e = add_npc_edges(edges, class, start, dests.drop_last());
        let d = dests.last();
        if e.contains((class, (d, start))) {
            e
        } else {
            e.push((class, (start, d)))
        }
    }
}

/// The travel lines of the NPCs in `npcs` (NPC id, cell it stands in), in
/// order; NPCs without travel data add none.  `travels` holds, per NPC id,
/// the destination cells and the service class.
pub open spec fn travel_edge_list(
    npcs: Seq<(String, CellKey)>,
    travels: Seq<(String, (Vec<CellKey>, String))>,
) -> Seq<EdgeView>
    decreases npcs.len(),
{
    if npcs.len() == 0 {
        Seq::empty()
    } else {
        let e = travel_edge_list(npcs.drop_last(), travels);
        let (id, start) = npcs.last();
        match find_name(travels, id@) {
            Some(t) => add_npc_edges(e, travels[t].1.1@, start, travels[t].1.0@),
            None => e,
        }
    }
}

/// `s` without elements equal to the one before them.
pub open spec fn dedup_adjacent(s: Seq<EdgeView>) -> Seq<EdgeView>
    decreases s.len(),
{
    if s.len() == 0 {
        Seq::empty()
    } else {
        let r = dedup_adjacent(s.drop_last());
        if s.len() >= 2 && s[s.len() - 2] == s.last() {
            r
        } else {
            r.push(s.last())
        }
    }
}

/// The (start, destination) pairs of the lines of class `c`, in order.
pub open spec fn class_pairs(edges: Seq<EdgeView>, c: Seq<char>) -> Seq<(CellKey, CellKey)>
    decreases edges.len(),
{
    if edges.len() == 0 {
        Seq::empty()
    } else {
        let r = class_pairs(edges.drop_last(), c);
        if edges.last().0 == c {
            r.push(edges.last().1)
        } else {
            r
        }
    }
}

fn same_key(a: CellKey, b: CellKey) -> (r: bool)
    ensures
        r == (a == b),
{
    a.0 == b.0 && a.1 == b.1
}

fn same_edge(a: &(String, (CellKey, CellKey)), class: &String, pair: (CellKey, CellKey)) -> (r: bool)
    ensures
        r == ((a.0@, a.1) == (class@, pair)),
{
    a.0 == *class && same_key(a.1.0, pair.0) && same_key(a.1.1, pair.1)
}

fn contains_edge(edges: &Vec<(String, (CellKey, CellKey))>, class: &String, pair: (CellKey, CellKey)) -> (r: bool)
    ensures
        r == edge_views(edges@).contains((class@, pair)),
{
    let mut j: usize = 0;
    while j < edges.len()
        invariant
            j <= edges.len(),
            forall|k: int| 0 <= k < j ==> #[trigger] edge_views(edges@)[k] != (class@, pair),
        decreases edges.len() - j,
    {
        assert(edge_views(edges@)[j as int] == (edges@[j as int].0@, edges@[j as int].1));
        if same_edge(&edges[j], class, pair) {
            return true;
        }
        j = j + 1;
    }
    false
}

proof fn lemma_class_pairs_push(edges: Seq<EdgeView>, e: EdgeView, c: Seq<char>)
    ensures
        class_pairs(edges.push(e), c) == if e.0 == c {
            class_pairs(edges, c).push(e.1)
        } else {
            class_pairs(edges, c)
        },
{
    assert(edges.push(e).drop_last() =~= edges);
}

/// An id that occurs in `refs`.
pub open spec fn referenced_in(refs: Seq<String>) -> spec_fn(Seq<char>) -> bool {
    |id: Seq<char>| string_views(refs).contains(id)
}

/// The travel service NPCs that a cell references: the ids of `travel_ids`
/// that occur among the cell's reference ids, in the order of `travel_ids`.
pub fn referenced_travel_npcs(travel_ids: &Vec<String>, reference_ids: &Vec<String>) -> (r: Vec<String>)
    ensures
        string_views(r@) == string_views(travel_ids@).filter(referenced_in(reference_ids@)),
{
    let ghost ids = string_views(travel_ids@);
    let ghost pred = referenced_in(reference_ids@);
    let mut r: Vec<String> = Vec::new();
    let mut i: usize = 0;
    while i < travel_ids.len()
        invariant
            i <= travel_ids.len(),
            ids == string_views(travel_ids@),
            pred == referenced_in(reference_ids@),
            string_views(r@) == ids.take(i as int).filter(pred),
        decreases travel_ids.len() - i,
    {
        proof {
            assert(ids.take(i + 1) == ids.take(i as int).push(ids[i as int]));
            ids.take(i as int).lemma_filter_push(ids[i as int], pred);
            assert(ids[i as int] == travel_ids@[i as int]@);
        }
        if contains_string(reference_ids, &travel_ids[i]) {
            let ghost before = r@;
            r.push(travel_ids[i].clone());
            assert(string_views(r@) =~= string_views(before).push(travel_ids@[i as int]@));
        }
        i = i + 1;
    }
    assert(ids.take(ids.len() as int) == ids);
    r
}

/// The travel lines of the NPCs in `npcs`, grouped by class: for each class
/// that has lines, the (start, destination) pairs of its lines in order.
/// The lines are those of `travel_edge_list`, with a line that repeats the
/// one before it dropped.
pub fn build_travel_edges(
    npcs: &Vec<(String, CellKey)>,
    travels: &Vec<(String, (Vec<CellKey>, String))>,
) -> (groups: Vec<(String, Vec<(CellKey, CellKey)>)>)
    requires
        distinct_names(travels@),
    ensures
        distinct_names(groups@),
        forall|j: int|
            0 <= j < groups@.len() ==> {
                &&& (#[trigger] groups@[j]).1@ == class_pairs(
                    dedup_adjacent(travel_edge_list(npcs@, travels@)),
                    groups@[j].0@,
                )
                &&& groups@[j].1@.len() > 0
            },
        forall|c: Seq<char>|
            #![trigger class_pairs(dedup_adjacent(travel_edge_list(npcs@, travels@)), c)]
            class_pairs(dedup_adjacent(travel_edge_list(npcs@, travels@)), c).len() > 0 ==> exists|j: int|
                0 <= j < groups@.len() && (#[trigger] groups@[j]).0@ == c,
        forall|n: int, t: int, d: CellKey|
            #![trigger npcs@[n], travels@[t].1.0@.contains(d)]
            0 <= n < npcs@.len() && 0 <= t < travels@.len() && npcs@[n].0@ == travels@[t].0@
                && travels@[t].1.0@.contains(d) ==> exists|g: int|
                0 <= g < groups@.len() && (#[trigger] groups@[g]).0@ == travels@[t].1.1@ && (
                groups@[g].1@.contains((npcs@[n].1, d)) || groups@[g].1@.contains((d, npcs@[n].1))),
{
    // the lines, NPC by NPC
    let mut edges: Vec<(String, (CellKey, CellKey))> = Vec::new();
    let mut n: usize = 0;
    while n < npcs.len()
        invariant
            distinct_names(travels@),
            n <= npcs@.len(),
            edge_views(edges@) == travel_edge_list(npcs@.take(n as int), travels@),
        decreases npcs@.len() - n,
    {
        let ghost before = edge_views(edges@);
        proof {
            assert(npcs@.take(n + 1).drop_last() =~= npcs@.take(n as int));
            assert(npcs@.take(n + 1).last() == npcs@[n as int]);
        }
        let start = npcs[n].1;
        if let Some(t) = find_named(travels, &npcs[n].0) {
            let dests = &travels[t].1.0;
            let class = &travels[t].1.1;
            let mut k: usize = 0;
            while k < dests.len()
                invariant
                    k <= dests@.len(),
                    edge_views(edges@) == add_npc_edges(before, class@, start, dests@.take(k as int)),
                decreases dests@.len() - k,
            {
                proof {
                    assert(dests@.take(k + 1).drop_last() =~= dests@.take(k as int));
                    assert(dests@.take(k + 1).last() == dests@[k as int]);
                }
                let d = dests[k];
                if !contains_edge(&edges, class, (d, start)) {
                    let ghost prev = edges@;
                    edges.push((class.clone(), (start, d)));
                    assert(edge_views(edges@) =~= edge_views(prev).push((class@, (start, d))));
                }
                k = k + 1;
            }
            assert(dests@.take(dests@.len() as int) =~= dests@);
        }
        n = n + 1;
    }
    assert(npcs@.take(npcs@.len() as int) =~= npcs@);
    let ghost all = edge_views(edges@);
    // drop lines that repeat the one before
    let mut deduped: Vec<(String, (CellKey, CellKey))> = Vec::new();
    let mut i: usize = 0;
    while i < edges.len()
        invariant
            all == edge_views(edges@),
            i <= edges@.len(),
            edge_views(deduped@) == dedup_adjacent(all.take(i as int)),
        decreases edges@.len() - i,
    {
        proof {
            assert(all.take(i + 1).drop_last() =~= all.take(i as int));
            assert(all.take(i + 1).last() == all[i as int]);
        }
        let repeat = i > 0 && same_edge(&edges[i - 1], &edges[i].0, edges[i].1);
        proof {
            if i > 0 {
                assert(all.take(i + 1)[i - 1] == all[i - 1]);
                assert(all[i - 1] == (edges@[i - 1].0@, edges@[i - 1].1));
                assert(all[i as int] == (edges@[i as int].0@, edges@[i as int].1));
            }
        }
        if !repeat {
            let ghost prev = deduped@;
            deduped.push((edges[i].0.clone(), edges[i].1));
            assert(edge_views(deduped@) =~= edge_views(prev).push(all[i as int]));
        }
        i = i + 1;
    }
    assert(all.take(all.len() as int) =~= all);
    let ghost dd = edge_views(deduped@);
    // group by class
    let mut groups: Vec<(String, Vec<(CellKey, CellKey)>)> = Vec::new();
    let mut j: usize = 0;
    while j < deduped.len()
        invariant
            dd == edge_views(deduped@),
            j <= deduped@.len(),
            distinct_names(groups@),
            forall|g: int|
                0 <= g < groups@.len() ==> {
                    &&& (#[trigger] groups@[g]).1@ == class_pairs(dd.take(j as int), groups@[g].0@)
                    &&& groups@[g].1@.len() > 0
                },
            forall|c: Seq<char>|
                #[trigger] class_pairs(dd.take(j as int), c).len() > 0 ==> exists|g: int|
                    0 <= g < groups@.len() && (#[trigger] groups@[g]).0@ == c,
        decreases deduped@.len() - j,
    {
        let ghost prefix = dd.take(j as int);
        let ghost e = dd[j as int];
        proof {
            assert(dd.take(j + 1) =~= prefix.push(e));
            assert(e == (deduped@[j as int].0@, deduped@[j as int].1));
        }
        let class = &deduped[j].0;
        let pair = deduped[j].1;
        let ghost old_groups = groups@;
        match find_named(&groups, class) {
            Some(at) => {
                assert(groups@[at as int].0@ == class@);
                groups[at].1.push(pair);
                assert forall|h: int| 0 <= h < groups@.len() implies {
                    &&& (#[trigger] groups@[h]).1@ == class_pairs(dd.take(j + 1), groups@[h].0@)
                    &&& groups@[h].1@.len() > 0
                } by {
                    lemma_class_pairs_push(prefix, e, groups@[h].0@);
                    if h != at {
                        assert(groups@[h] == old_groups[h]);
                    }
                }
                assert forall|a: int, b: int|
                    0 <= a < groups@.len() && 0 <= b < groups@.len() && a != b implies groups@[a].0@
                        != groups@[b].0@ by {
                    assert(groups@[a].0 == old_groups[a].0);
                    assert(groups@[b].0 == old_groups[b].0);
                }
                assert forall|c: Seq<char>| #[trigger] class_pairs(dd.take(j + 1), c).len() > 0 implies exists|h: int|
                    0 <= h < groups@.len() && (#[trigger] groups@[h]).0@ == c by {
                    lemma_class_pairs_push(prefix, e, c);
                    if c == class@ {
                        assert(groups@[at as int].0@ == c);
                    } else {
                        let w = choose|w: int| 0 <= w < old_groups.len() && (#[trigger] old_groups[w]).0@ == c;
                        assert(groups@[w].0 == old_groups[w].0);
                    }
                }
            },
            None => {
                groups.push((class.clone(), vec![pair]));
                assert forall|a: int, b: int|
                    0 <= a < groups@.len() && 0 <= b < groups@.len() && a != b implies groups@[a].0@
                        != groups@[b].0@ by {
                    if a == groups@.len() - 1 {
                        assert(groups@[b] == old_groups[b]);
                    } else if b == groups@.len() - 1 {
                        assert(groups@[a] == old_groups[a]);
                    } else {
                        assert(groups@[a] == old_groups[a]);
                        assert(groups@[b] == old_groups[b]);
                    }
                }
                assert forall|h: int| 0 <= h < groups@.len() implies {
                    &&& (#[trigger] groups@[h]).1@ == class_pairs(dd.take(j + 1), groups@[h].0@)
                    &&& groups@[h].1@.len() > 0
                } by {
                    lemma_class_pairs_push(prefix, e, groups@[h].0@);
                    if h < old_groups.len() {
                        assert(groups@[h] == old_groups[h]);
                    } else {
                        assert(groups@[h].0@ == class@);
                        if class_pairs(prefix, class@).len() > 0 {
                            let w = choose|w: int| 0 <= w < old_groups.len() && (#[trigger] old_groups[w]).0@ == class@;
                            assert(false);
                        }
                        assert(class_pairs(prefix, class@) =~= Seq::<(CellKey, CellKey)>::empty());
                        assert(groups@[h].1@ =~= seq![pair]);
                    }
                }
                assert forall|c: Seq<char>| #[trigger] class_pairs(dd.take(j + 1), c).len() > 0 implies exists|h: int|
                    0 <= h < groups@.len() && (#[trigger] groups@[h]).0@ == c by {
                    lemma_class_pairs_push(prefix, e, c);
                    if c == class@ {
                        assert(groups@[groups@.len() - 1].0@ == c);
                    } else {
                        let w = choose|w: int| 0 <= w < old_groups.len() && (#[trigger] old_groups[w]).0@ == c;
                        assert(groups@[w] == old_groups[w]);
                    }
                }
            },
        }
        j = j + 1;
    }
    assert(dd.take(dd.len() as int) =~= dd);
    proof {
        lemma_groups_cover(npcs@, travels@, groups@);
    }
    groups
}

/// Groups that hold the pairs of each class of the travel lines hold, for
/// every travel NPC and destination, the line of its class between them.
proof fn lemma_groups_cover(
    npcs: Seq<(String, CellKey)>,
    travels: Seq<(String, (Vec<CellKey>, String))>,
    groups: Seq<(String, Vec<(CellKey, CellKey)>)>,
)
    requires
        distinct_names(travels),
        forall|j: int|
            0 <= j < groups.len() ==> (#[trigger] groups[j]).1@ == class_pairs(
                dedup_adjacent(travel_edge_list(npcs, travels)),
                groups[j].0@,
            ),
        forall|c: Seq<char>|
            #![trigger class_pairs(dedup_adjacent(travel_edge_list(npcs, travels)), c)]
            class_pairs(dedup_adjacent(travel_edge_list(npcs, travels)), c).len() > 0 ==> exists|j: int|
                0 <= j < groups.len() && (#[trigger] groups[j]).0@ == c,
    ensures
        forall|n: int, t: int, d: CellKey|
            #![trigger npcs[n], travels[t].1.0@.contains(d)]
            0 <= n < npcs.len() && 0 <= t < travels.len() && npcs[n].0@ == travels[t].0@
                && travels[t].1.0@.contains(d) ==> exists|g: int|
                0 <= g < groups.len() && (#[trigger] groups[g]).0@ == travels[t].1.1@ && (
                groups[g].1@.contains((npcs[n].1, d)) || groups[g].1@.contains((d, npcs[n].1))),
{
    let lines = travel_edge_list(npcs, travels);
    lemma_travel_edge_list_cover(npcs, travels);
    lemma_dedup_keeps(lines);
    assert forall|n: int, t: int, d: CellKey|
        #![trigger npcs[n], travels[t].1.0@.contains(d)]
        0 <= n < npcs.len() && 0 <= t < travels.len() && npcs[n].0@ == travels[t].0@
            && travels[t].1.0@.contains(d) implies exists|g: int|
            0 <= g < groups.len() && (#[trigger] groups[g]).0@ == travels[t].1.1@ && (
            groups[g].1@.contains((npcs[n].1, d)) || groups[g].1@.contains((d, npcs[n].1))) by {
        let c = travels[t].1.1@;
        let st = npcs[n].1;
        let k = choose|k: int| 0 <= k < travels[t].1.0@.len() && travels[t].1.0@[k] == d;
        assert(lines.contains((c, (st, travels[t].1.0@[k]))) || lines.contains((c, (travels[t].1.0@[k], st))));
        let pair = if dedup_adjacent(lines).contains((c, (st, d))) {
            (st, d)
        } else {
            (d, st)
        };
        assert(dedup_adjacent(lines).contains((c, pair)));
        lemma_class_pairs_has(dedup_adjacent(lines), c, pair);
        assert(class_pairs(dedup_adjacent(lines), c).len() > 0);
        let g = choose|g: int| 0 <= g < groups.len() && (#[trigger] groups[g]).0@ == c;
        assert(groups[g].1@.contains(pair));
    }
}

/// A sequence with one more element at its end still holds what it held.
proof fn lemma_push_keeps<A>(s: Seq<A>, x: A, y: A)
    requires
        s.contains(x),
    ensures
        s.push(y).contains(x),
{
    let i = choose|i: int| 0 <= i < s.len() && s[i] == x;
    assert(s.push(y)[i] == x);
}

/// Adding an NPC's lines keeps the lines there were, and afterwards each of
/// its destinations is joined to its cell by a line of its class, in one
/// direction or the other.
proof fn lemma_add_npc_edges_cover(edges: Seq<EdgeView>, class: Seq<char>, start: CellKey, dests: Seq<CellKey>)
    ensures
        forall|x: EdgeView| edges.contains(x) ==> #[trigger] add_npc_edges(edges, class, start, dests).contains(x),
        forall|k: int|
            0 <= k < dests.len() ==> add_npc_edges(edges, class, start, dests).contains((class, (start, #[trigger] dests[k])))
                || add_npc_edges(edges, class, start, dests).contains((class, (dests[k], start))),
    decreases dests.len(),
{
    if dests.len() > 0 {
        let rest = dests.drop_last();
        lemma_add_npc_edges_cover(edges, class, start, rest);
        let e = add_npc_edges(edges, class, start, rest);
        let d = dests.last();
        let r = add_npc_edges(edges, class, start, dests);
        assert forall|x: EdgeView| edges.contains(x) implies #[trigger] r.contains(x) by {
            assert(e.contains(x));
            if !e.contains((class, (d, start))) {
                lemma_push_keeps(e, x, (class, (start, d)));
            }
        }
        assert forall|k: int| 0 <= k < dests.len() implies r.contains((class, (start, #[trigger] dests[k]))) || r.contains(
            (class, (dests[k], start)),
        ) by {
            if k < dests.len() - 1 {
                assert(dests[k] == rest[k]);
                if !e.contains((class, (d, start))) {
                    if e.contains((class, (start, dests[k]))) {
                        lemma_push_keeps(e, (class, (start, dests[k])), (class, (start, d)));
                    } else {
                        lemma_push_keeps(e, (class, (dests[k], start)), (class, (start, d)));
                    }
                }
            } else {
                assert(dests[k] == d);
                if !e.contains((class, (d, start))) {
                    assert(e.push((class, (start, d)))[e.len() as int] == (class, (start, d)));
                }
            }
        }
    }
}

/// Every travel NPC's destinations are joined to its cell by lines of its
/// class, in one direction or the other.
proof fn lemma_travel_edge_list_cover(npcs: Seq<(String, CellKey)>, travels: Seq<(String, (Vec<CellKey>, String))>)
    requires
        distinct_names(travels),
    ensures
        forall|n: int, t: int, k: int|
            #![trigger npcs[n], travels[t].1.0@[k]]
            0 <= n < npcs.len() && 0 <= t < travels.len() && npcs[n].0@ == travels[t].0@ && 0 <= k
                < travels[t].1.0@.len() ==> travel_edge_list(npcs, travels).contains(
                (travels[t].1.1@, (npcs[n].1, travels[t].1.0@[k])),
            ) || travel_edge_list(npcs, travels).contains((travels[t].1.1@, (travels[t].1.0@[k], npcs[n].1))),
    decreases npcs.len(),
{
    if npcs.len() > 0 {
        let prev = npcs.drop_last();
        lemma_travel_edge_list_cover(prev, travels);
        let e = travel_edge_list(prev, travels);
        let l = travel_edge_list(npcs, travels);
        let (id, start) = npcs.last();
        match find_name(travels, id@) {
            Some(tt) => lemma_add_npc_edges_cover(e, travels[tt].1.1@, start, travels[tt].1.0@),
            None => {},
        }
        assert forall|n: int, t: int, k: int|
            #![trigger npcs[n], travels[t].1.0@[k]]
            0 <= n < npcs.len() && 0 <= t < travels.len() && npcs[n].0@ == travels[t].0@ && 0 <= k
                < travels[t].1.0@.len() implies l.contains((travels[t].1.1@, (npcs[n].1, travels[t].1.0@[k])))
            || l.contains((travels[t].1.1@, (travels[t].1.0@[k], npcs[n].1))) by {
            let c = travels[t].1.1@;
            let d = travels[t].1.0@[k];
            if n < npcs.len() - 1 {
                assert(prev[n] == npcs[n]);
                if e.contains((c, (npcs[n].1, d))) {
                    assert(l.contains((c, (npcs[n].1, d))));
                } else {
                    assert(e.contains((c, (d, npcs[n].1))));
                    assert(l.contains((c, (d, npcs[n].1))));
                }
            } else {
                assert(npcs[n] == (id, start));
                assert(travels[t].0@ == id@);
                let tt = choose|tt: int| 0 <= tt < travels.len() && #[trigger] travels[tt].0@ == id@;
                assert(tt == t);
            }
        }
    }
}

/// Dropping repeats of the line before keeps every line.
proof fn lemma_dedup_keeps(s: Seq<EdgeView>)
    ensures
        forall|x: EdgeView| s.contains(x) ==> #[trigger] dedup_adjacent(s).contains(x),
    decreases s.len(),
{
    if s.len() > 0 {
        let rest = s.drop_last();
        lemma_dedup_keeps(rest);
        let r = dedup_adjacent(rest);
        assert forall|x: EdgeView| s.contains(x) implies #[trigger] dedup_adjacent(s).contains(x) by {
            let i = choose|i: int| 0 <= i < s.len() && s[i] == x;
            if i < s.len() - 1 {
                assert(rest[i] == x);
                assert(r.contains(x));
                if !(s.len() >= 2 && s[s.len() - 2] == s.last()) {
                    lemma_push_keeps(r, x, s.last());
                }
            } else if s.len() >= 2 && s[s.len() - 2] == s.last() {
                assert(rest[s.len() - 2] == x);
                assert(r.contains(x));
            } else {
                assert(r.push(s.last())[r.len() as int] == x);
            }
        }
    }
}

/// A line of class `c` gives its pair to the pairs of class `c`.
proof fn lemma_class_pairs_has(edges: Seq<EdgeView>, c: Seq<char>, p: (CellKey, CellKey))
    requires
        edges.contains((c, p)),
    ensures
        class_pairs(edges, c).contains(p),
    decreases edges.len(),
{
    let rest = edges.drop_last();
    if edges.last() == (c, p) {
        assert(class_pairs(edges, c) == class_pairs(rest, c).push(p));
        assert(class_pairs(rest, c).push(p)[class_pairs(rest, c).len() as int] == p);
    } else {
        let i = choose|i: int| 0 <= i < edges.len() && edges[i] == (c, p);
        assert(rest[i] == (c, p));
        lemma_class_pairs_has(rest, c, p);
        if edges.last().0 == c {
            lemma_push_keeps(class_pairs(rest, c), p, edges.last().1);
        }
    }
}

/// No line of class `c` runs between two different cells in both directions.
pub open spec fn one_way(edges: Seq<EdgeView>) -> bool {
    forall|i: int|
        0 <= i < edges.len() && (#[trigger] edges[i]).1.0 != edges[i].1.1 ==> !edges.contains(
            (edges[i].0, (edges[i].1.1, edges[i].1.0)),
        )
}

proof fn lemma_add_npc_edges_one_way(edges: Seq<EdgeView>, class: Seq<char>, start: CellKey, dests: Seq<CellKey>)
    requires
        one_way(edges),
    ensures
        one_way(add_npc_edges(edges, class, start, dests)),
    decreases dests.len(),
{
    if dests.len() > 0 {
        let e = add_npc_edges(edges, class, start, dests.drop_last());
        lemma_add_npc_edges_one_way(edges, class, start, dests.drop_last());
        let d = dests.last();
        if !e.contains((class, (d, start))) {
            let n = e.push((class, (start, d)));
            assert forall|i: int|
                0 <= i < n.len() && (#[trigger] n[i]).1.0 != n[i].1.1 implies !n.contains(
                    (n[i].0, (n[i].1.1, n[i].1.0)),
                ) by {
                if n.contains((n[i].0, (n[i].1.1, n[i].1.0))) {
                    let k = choose|k: int| 0 <= k < n.len() && n[k] == (n[i].0, (n[i].1.1, n[i].1.0));
                    if i < e.len() && k < e.len() {
                        assert(e[i] == n[i]);
                        assert(e[k] == n[k]);
                        assert(e.contains((e[i].0, (e[i].1.1, e[i].1.0))));
                    } else if i < e.len() {
                        // the new line reverses line i
                        assert(n[k] == (class, (start, d)));
                        assert(e[i] == (class, (d, start)));
                        assert(e.contains((class, (d, start))));
                    } else if k < e.len() {
                        assert(n[i] == (class, (start, d)));
                        assert(e[k] == (class, (d, start)));
                        assert(e.contains((class, (d, start))));
                    } else {
                        assert(n[i] == (class, (start, d)));
                        assert(n[k] == (class, (d, start)));
                    }
                }
            }
        }
    }
}

/// Law: the travel overlay never holds a line of a class together with the
/// line of the same class in the opposite direction (between different
/// cells): a connection is drawn once, from whichever end it is met first.
pub proof fn lemma_travel_lines_one_way(
    npcs: Seq<(String, CellKey)>,
    travels: Seq<(String, (Vec<CellKey>, String))>,
)
    ensures
        one_way(travel_edge_list(npcs, travels)),
        one_way(dedup_adjacent(travel_edge_list(npcs, travels))),
    decreases npcs.len(),
{
    if npcs.len() > 0 {
        lemma_travel_lines_one_way(npcs.drop_last(), travels);
        let e = travel_edge_list(npcs.drop_last(), travels);
        let (id, start) = npcs.last();
        match find_name(travels, id@) {
            Some(t) => lemma_add_npc_edges_one_way(e, travels[t].1.1@, start, travels[t].1.0@),
            None => {},
        }
    }
    lemma_dedup_subset(travel_edge_list(npcs, travels));
    let s = travel_edge_list(npcs, travels);
    let dd = dedup_adjacent(s);
    assert forall|i: int|
        0 <= i < dd.len() && (#[trigger] dd[i]).1.0 != dd[i].1.1 implies !dd.contains(
            (dd[i].0, (dd[i].1.1, dd[i].1.0)),
        ) by {
        assert(dd.contains(dd[i]));
        assert(s.contains(dd[i]));
        let k = choose|k: int| 0 <= k < s.len() && s[k] == dd[i];
        assert(s[k] == dd[i]);
        if dd.contains((dd[i].0, (dd[i].1.1, dd[i].1.0))) {
            assert(s.contains((dd[i].0, (dd[i].1.1, dd[i].1.0))));
        }
    }
}

/// Every line of `dedup_adjacent(s)` is a line of `s`.
proof fn lemma_dedup_subset(s: Seq<EdgeView>)
    ensures
        forall|x: EdgeView| dedup_adjacent(s).contains(x) ==> s.contains(x),
    decreases s.len(),
{
    if s.len() > 0 {
        lemma_dedup_subset(s.drop_last());
        assert forall|x: EdgeView| dedup_adjacent(s).contains(x) implies s.contains(x) by {
            let r = dedup_adjacent(s.drop_last());
            if r.contains(x) {
                assert(s.drop_last().contains(x));
                let k = choose|k: int| 0 <= k < s.drop_last().len() && s.drop_last()[k] == x;
                assert(s[k] == x);
            } else {
                assert(x == s.last());
                assert(s[s.len() - 1] == x);
            }
        }
    }
}

} // verus!
