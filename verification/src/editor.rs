//! Travel routes of the route editor: a route is a list of named segments
//! between a start and a destination, for one travel service.
use vstd::prelude::*;

use crate::images::matches_at;

verus! {

/// What the editor knows of a route after validation.
#[derive(Debug, Clone, Copy, Default, PartialEq, Eq)]
pub struct RouteMetadata {
    /// Every segment the route names exists.
    pub valid: bool,
}

/// Names a route.
#[derive(Debug, Clone, Default, PartialEq, Eq, Hash)]
pub struct RouteId {
    pub start: String,
    pub destination: String,
    pub service: String,
}

/// A route: its id and the ids of its segments, in order.
#[derive(Debug, Clone, Default)]
pub struct Route {
    pub id: RouteId,
    pub segments: Vec<String>,
}

impl RouteId {
    /// The id as shown to the user: `(start, destination, service)`.
    pub fn to_display_string(&self) -> (s: String)
        ensures
            s@ == "("@ + self.start@ + ", "@ + self.destination@ + ", "@ + self.service@ + ")"@,
    {
        let mut s = String::from_str("(");
        s.append(self.start.as_str());
        s.append(", ");
        s.append(self.destination.as_str());
        s.append(", ");
        s.append(self.service.as_str());
        s.append(")");
        s
    }

    /// Name of the file the route is saved in: `start_destination.toml`.
    pub fn file_name(&self) -> (s: String)
        ensures
            s@ == self.start@ + "_"@ + self.destination@ + ".toml"@,
    {
        let mut s = self.start.clone();
        s.append("_");
        s.append(self.destination.as_str());
        s.append(".toml");
        s
    }
}

/// Some entry of `names` is `name`.
pub open spec fn has_name(names: Seq<String>, name: Seq<char>) -> bool {
    exists|j: int| 0 <= j < names.len() && #[trigger] names[j]@ == name
}

fn contains_name(names: &Vec<String>, name: &String) -> (r: bool)
    ensures
        r == has_name(names@, name@),
{
    let mut j: usize = 0;
    while j < names.len()
        invariant
            j <= names.len(),
            forall|k: int| 0 <= k < j ==> (#[trigger] names@[k])@ != name@,
        decreases names.len() - j,
    {
        if names[j] == *name {
            assert(names@[j as int]@ == name@);
            return true;
        }
        j = j + 1;
    }
    false
}

/// Validates a route against the ids of the loaded segments: it is valid when
/// every segment it names is loaded.
pub fn validate_route(route: &Route, segment_ids: &Vec<String>) -> (m: RouteMetadata)
    ensures
        m.valid == forall|i: int|
            0 <= i < route.segments@.len() ==> has_name(segment_ids@, (#[trigger] route.segments@[i])@),
{
    let mut i: usize = 0;
    while i < route.segments.len()
        invariant
            i <= route.segments@.len(),
            forall|k: int| 0 <= k < i ==> has_name(segment_ids@, (#[trigger] route.segments@[k])@),
        decreases route.segments@.len() - i,
    {
        if !contains_name(segment_ids, &route.segments[i]) {
            return RouteMetadata { valid: false };
        }
        i = i + 1;
    }
    RouteMetadata { valid: true }
}

/// Some loaded segment with id `name` is selected.
pub open spec fn selected_segment(segments: Seq<(String, bool)>, name: Seq<char>) -> bool {
    exists|j: int| 0 <= j < segments.len() && #[trigger] segments[j].0@ == name && segments[j].1
}

/// The route is shown exactly: all its segments are selected and no other
/// segment is.
pub open spec fn spec_route_checked(route: Route, segments: Seq<(String, bool)>) -> bool {
    &&& forall|i: int|
        0 <= i < route.segments@.len() ==> selected_segment(segments, (#[trigger] route.segments@[i])@)
    &&& forall|j: int|
        0 <= j < segments.len() && (#[trigger] segments[j]).1 ==> has_name(route.segments@, segments[j].0@)
}

fn is_selected(segments: &Vec<(String, bool)>, name: &String) -> (r: bool)
    ensures
        r == selected_segment(segments@, name@),
{
    let mut j: usize = 0;
    while j < segments.len()
        invariant
            j <= segments.len(),
            forall|k: int| 0 <= k < j ==> !((#[trigger] segments@[k]).0@ == name@ && segments@[k].1),
        decreases segments.len() - j,
    {
        if segments[j].1 && segments[j].0 == *name {
            assert(segments@[j as int].0@ == name@);
            return true;
        }
        j = j + 1;
    }
    false
}

/// Whether the route is shown exactly (its box in the route list is ticked).
/// `segments` holds the id of each loaded segment and whether it is selected.
pub fn route_checked(route: &Route, segments: &Vec<(String, bool)>) -> (r: bool)
    ensures
        r == spec_route_checked(*route, segments@),
{
    let mut i: usize = 0;
    while i < route.segments.len()
        invariant
            i <= route.segments@.len(),
            forall|k: int| 0 <= k < i ==> selected_segment(segments@, (#[trigger] route.segments@[k])@),
        decreases route.segments@.len() - i,
    {
        if !is_selected(segments, &route.segments[i]) {
            return false;
        }
        i = i + 1;
    }
    let mut j: usize = 0;
    while j < segments.len()
        invariant
            j <= segments@.len(),
            forall|k: int|
                0 <= k < route.segments@.len() ==> selected_segment(segments@, (#[trigger] route.segments@[k])@),
            forall|k: int|
                0 <= k < j && (#[trigger] segments@[k]).1 ==> has_name(route.segments@, segments@[k].0@),
        decreases segments@.len() - j,
    {
        if segments[j].1 && !contains_name(&route.segments, &segments[j].0) {
            return false;
        }
        j = j + 1;
    }
    true
}

/// Ticks or clears the route's box: when `checked`, exactly the route's
/// segments become selected; otherwise no segment stays selected.
pub fn select_route(segments: &mut Vec<(String, bool)>, route: &Route, checked: bool)
    ensures
        final(segments)@.len() == old(segments)@.len(),
        forall|j: int|
            0 <= j < final(segments)@.len() ==> {
                &&& (#[trigger] final(segments)@[j]).0 == old(segments)@[j].0
                &&& final(segments)@[j].1 == (checked && has_name(route.segments@, old(segments)@[j].0@))
            },
{
    let ghost old_segments = segments@;
    let mut j: usize = 0;
    while j < segments.len()
        invariant
            segments@.len() == old_segments.len(),
            j <= segments@.len(),
            forall|k: int|
                0 <= k < segments@.len() ==> (#[trigger] segments@[k]).0 == old_segments[k].0,
            forall|k: int|
                0 <= k < j ==> (#[trigger] segments@[k]).1 == (checked && has_name(
                    route.segments@,
                    old_segments[k].0@,
                )),
        decreases segments@.len() - j,
    {
        let on = checked && contains_name(&route.segments, &segments[j].0);
        segments[j].1 = on;
        j = j + 1;
    }
}

/// Adds a point to a segment's path given the point of the path nearest to
/// it: the new point takes the nearest one's place, before it, or goes at the
/// end when the nearest one is the last.
pub fn insert_route_point<T>(route: &mut Vec<T>, nearest: usize, point: T)
    requires
        nearest < old(route)@.len(),
    ensures
        final(route)@ == if nearest + 1 == old(route)@.len() {
            old(route)@.push(point)
        } else {
            old(route)@.insert(nearest as int, point)
        },
{
    if nearest == route.len() - 1 {
        route.push(point);
    } else {
        route.insert(nearest, point);
    }
}

/// `s` with every occurrence of `pat` taken out, occurrences found from the
/// left without overlapping (as std's `str::replace` with an empty string).
pub open spec fn without_all(s: Seq<char>, pat: Seq<char>) -> Seq<char>
    decreases s.len(),
{
    if s.len() == 0 {
        s
    } else if 0 < pat.len() <= s.len() && s.subrange(0, pat.len() as int) == pat {
        without_all(s.subrange(pat.len() as int, s.len() as int), pat)
    } else {
        seq![s[0]] + without_all(s.subrange(1, s.len() as int), pat)
    }
}

/// The name of a port stored in the file `file_name`: the file name with
/// every `.toml` taken out.
pub fn port_name(file_name: &str) -> (name: String)
    ensures
        name@ == without_all(file_name@, ".toml"@),
{
    let pat = ".toml";
    proof {
        reveal_strlit(".toml");
    }
    let n = file_name.unicode_len();
    let ghost s = file_name@;
    let mut name = String::new();
    assert(s.subrange(0, n as int) =~= s);
    assert(name@ + without_all(s, pat@) =~= without_all(s, pat@));
    let mut i: usize = 0;
    while i < n
        invariant
            n == s.len(),
            s == file_name@,
            pat@ == ".toml"@,
            pat@.len() == 5,
            i <= n,
            name@ + without_all(s.subrange(i as int, n as int), pat@) == without_all(s, pat@),
        decreases n - i,
    {
        let ghost rest = s.subrange(i as int, n as int);
        if n - i >= 5 && matches_at(file_name, pat, i) {
            assert(rest.subrange(0, 5) =~= s.subrange(i as int, i + 5));
            assert(rest.subrange(5, rest.len() as int) =~= s.subrange(i + 5, n as int));
            i = i + 5;
        } else {
            assert(rest.len() < 5 ==> !(0 < pat@.len() <= rest.len()));
            assert(i + 5 <= n ==> rest.subrange(0, 5) =~= s.subrange(i as int, i + 5));
            assert(rest.subrange(1, rest.len() as int) =~= s.subrange(i + 1, n as int));
            let ghost before = name@;
            name.append(file_name.substring_char(i, i + 1));
            assert(name@ =~= before + seq![rest[0]]);
            assert(before + seq![rest[0]] + without_all(s.subrange(i + 1, n as int), pat@) =~= before + (
            seq![rest[0]] + without_all(s.subrange(i + 1, n as int), pat@)));
            i = i + 1;
        }
    }
    assert(s.subrange(n as int, n as int) =~= Seq::<char>::empty());
    assert(name@ + Seq::<char>::empty() =~= name@);
    name
}

/// The current segment after a click on the segment `id`: it becomes the
/// current one when there is none, and otherwise there is none.
pub fn clicked_segment(current: &Option<String>, id: &String) -> (r: Option<String>)
    ensures
        current is None ==> (r matches Some(c) && c@ == id@),
        current is Some ==> r is None,
{
    if current.is_none() {
        Some(id.clone())
    } else {
        None
    }
}

} // verus!
