//! Plugins found in the data files folder: which files are plugins, in what
//! order they load, and how they are named and told apart.
use vstd::prelude::*;
use vstd::utf8::encode_utf8;

verus! {

/// A name for seahash's `hash`: the 64-bit SeaHash of a byte string with the
/// crate's fixed seeds.
pub uninterp spec fn seahash_of(bytes: Seq<u8>) -> u64;

/// `seahash::hash`: hashes the bytes with SeaHash and the crate's fixed seeds.
/// The crate states that the hash is portable, so the result is a function
/// of the bytes alone; that function is named `seahash_of`.
#[verifier::external_body]
fn seahash_hash(buf: &[u8]) -> (h: u64)
    ensures
        h == seahash_of(buf@),
{
    seahash::hash(buf)
}

/// `s` occurs in `path` as a run of consecutive characters.
pub open spec fn is_infix(s: Seq<char>, path: Seq<char>) -> bool {
    exists|i: int| 0 <= i && i + s.len() <= path.len() && #[trigger] path.subrange(i, i + s.len()) == s
}

/// The characters after the last `/` of `path` (all of it when it has none).
pub open spec fn last_segment(path: Seq<char>) -> Seq<char>
    decreases path.len(),
{
    if path.len() == 0 {
        path
    } else if path.last() == '/' {
        Seq::empty()
    } else {
        last_segment(path.drop_last()).push(path.last())
    }
}

/// `path` reads the same as a path on every platform: it holds no `\` and
/// no `:` (so no Windows prefix such as a drive letter), does not begin with
/// two separators (a network share), and ends in a normal component, one
/// that is neither `.` nor `..`.
pub open spec fn plain_path(path: Seq<char>) -> bool {
    &&& forall|i: int| 0 <= i < path.len() ==> path[i] != '\\' && path[i] != ':'
    &&& !(path.len() >= 2 && path[0] == '/' && path[1] == '/')
    &&& last_segment(path).len() > 0
    &&& last_segment(path) != "."@
    &&& last_segment(path) != ".."@
}

/// `Path::file_name` of std, read back as a string: the final component of
/// the path when it is a normal one, `None` when there is none (a path
/// ending in `..`, a root).  Stated here: a component is a non-empty run of
/// the path's characters; and a path that reads the same on every platform
/// (`plain_path`: only `/` separates, no prefix) has its last `/`-separated
/// part as its file name, which `to_string_lossy` keeps as it is, the path
/// being valid Unicode.  Which run of a path with `\`, `:` or a leading
/// `//` is the file name depends on the platform, and is not stated.
#[verifier::external_body]
fn path_file_name(path: &String) -> (name: Option<String>)
    ensures
        name matches Some(n) ==> n@.len() > 0 && is_infix(n@, path@),
        name is None ==> !plain_path(path@),
        name matches Some(n) ==> (plain_path(path@) ==> n@ == last_segment(path@)),
{
    match std::path::Path::new(path.as_str()).file_name() {
        Some(n) => Some(n.to_string_lossy().to_string()),
        None => None,
    }
}

/// A plugin file in the list of plugins.
#[derive(Debug, Clone, PartialEq, Eq)]
pub struct PluginViewModel {
    /// Identifies the plugin; see `from_path`.
    pub hash: u64,
    pub path: String,
    /// The plugin is to be loaded.
    pub enabled: bool,
}

impl Default for PluginViewModel {
    fn default() -> (vm: Self)
        ensures
            vm.hash == 0,
            vm.path@ == Seq::<char>::empty(),
            !vm.enabled,
    {
        PluginViewModel { hash: 0, path: String::new(), enabled: false }
    }
}

impl PluginViewModel {
    /// The file name of the plugin; `None` when the path has no final
    /// component.  For a path that reads the same on every platform it is
    /// the part after the last `/`.
    pub fn get_name(&self) -> (name: Option<String>)
        ensures
            name matches Some(n) ==> n@.len() > 0 && is_infix(n@, self.path@),
            name is None ==> !plain_path(self.path@),
            name matches Some(n) ==> (plain_path(self.path@) ==> n@ == last_segment(self.path@)),
    {
        path_file_name(&self.path)
    }

    /// A disabled plugin at `path`, identified by the SeaHash of the path's
    /// UTF-8 bytes.
    pub fn from_path(path: String) -> (vm: Self)
        ensures
            vm.hash == seahash_of(encode_utf8(path@)),
            vm.path == path,
            !vm.enabled,
    {
        let hash = seahash_hash(path.as_str().as_bytes());
        PluginViewModel { hash, path, enabled: false }
    }
}

/// ASCII lower case of a character; other characters are kept.
pub open spec fn ascii_lower(c: char) -> char {
    if 'A' <= c <= 'Z' {
        ((c as int) + 32) as char
    } else {
        c
    }
}

/// `s` in ASCII lower case equals `lower`.
fn eq_ascii_lowercase(s: &str, lower: &str) -> (r: bool)
    ensures
        r == (s@.map_values(|c: char| ascii_lower(c)) == lower@),
{
    let n = s.unicode_len();
    let m = lower.unicode_len();
    if n != m {
        assert(s@.map_values(|c: char| ascii_lower(c)).len() != lower@.len());
        return false;
    }
    let mut i: usize = 0;
    while i < n
        invariant
            n == s@.len(),
            m == lower@.len(),
            n == m,
            i <= n,
            forall|j: int| 0 <= j < i ==> ascii_lower(s@[j]) == lower@[j],
        decreases n - i,
    {
        let c = s.get_char(i);
        let l = if 'A' <= c && c <= 'Z' {
            ((c as u32) + 32) as u8 as char
        } else {
            c
        };
        assert(l == ascii_lower(c)) by {
            if 'A' <= c <= 'Z' {
                assert((c as u32) + 32 < 128);
            }
        }
        if l != lower.get_char(i) {
            assert(s@.map_values(|c: char| ascii_lower(c))[i as int] != lower@[i as int]);
            return false;
        }
        i = i + 1;
    }
    assert(s@.map_values(|c: char| ascii_lower(c)) =~= lower@);
    true
}

/// Whether a file with extension `ext` is a plugin: `esm` and `esp` files
/// are, in any letter case, and with `use_omw_plugins` also `omwaddon` and
/// `omwscripts` files.
pub fn is_plugin_extension(ext: &str, use_omw_plugins: bool) -> (r: bool)
    ensures
        ({
            let lower = ext@.map_values(|c: char| ascii_lower(c));
            r == (lower == "esm"@ || lower == "esp"@ || (use_omw_plugins && (lower == "omwaddon"@
                || lower == "omwscripts"@)))
        }),
{
    eq_ascii_lowercase(ext, "esm") || eq_ascii_lowercase(ext, "esp") || (use_omw_plugins
        && eq_ascii_lowercase(ext, "omwaddon")) || (use_omw_plugins && eq_ascii_lowercase(
        ext,
        "omwscripts",
    ))
}

/// Plugin `a` loads before plugin `b`: it was modified earlier, or at the
/// same time and comes first in the folder listing.
pub open spec fn loads_before(times: Seq<i128>, a: int, b: int) -> bool {
    times[a] < times[b] || (times[a] == times[b] && a < b)
}

/// The load order of plugins with the given modification times: a
/// permutation of their positions, ordered by time, plugins modified at the
/// same time keeping the order they were listed in.
pub fn plugin_load_order(times: &Vec<i128>) -> (order: Vec<usize>)
    ensures
        order@.len() == times@.len(),
        forall|k: int| 0 <= k < order@.len() ==> order@[k] < times@.len(),
        forall|i: usize| i < times@.len() ==> order@.contains(i),
        forall|a: int, b: int|
            0 <= a < b < order@.len() ==> loads_before(times@, order@[a] as int, order@[b] as int),
{
    let mut order: Vec<usize> = Vec::new();
    let mut i: usize = 0;
    while i < times.len()
        invariant
            i <= times.len(),
            order@.len() == i,
            forall|k: int| 0 <= k < order@.len() ==> order@[k] < i,
            forall|j: usize| j < i ==> order@.contains(j),
            forall|a: int, b: int|
                0 <= a < b < order@.len() ==> loads_before(times@, order@[a] as int, order@[b] as int),
        decreases times.len() - i,
    {
        let t = times[i];
        let mut p: usize = 0;
        while p < order.len() && times[order[p]] <= t
            invariant
                p <= order@.len(),
                forall|k: int| 0 <= k < order@.len() ==> order@[k] < i,
                i < times@.len(),
                t == times@[i as int],
                forall|q: int| 0 <= q < p ==> times@[order@[q] as int] <= t,
            decreases order@.len() - p,
        {
            p = p + 1;
        }
        let ghost old_order = order@;
        proof {
            old_order.insert_ensures(p as int, i);
        }
        order.insert(p, i);
        assert forall|a: int, b: int|
            0 <= a < b < order@.len() implies loads_before(times@, order@[a] as int, order@[b] as int) by {
            if b < p {
            } else if b == p {
                assert(times@[old_order[a] as int] <= t);
            } else if a < p {
                assert(order@[b] == old_order[b - 1]);
                if p < old_order.len() {
                    assert(times@[old_order[p as int] as int] > t);
                    if p < b - 1 {
                        assert(loads_before(times@, old_order[p as int] as int, old_order[b - 1] as int));
                    }
                }
                assert(loads_before(times@, old_order[a] as int, old_order[b - 1] as int));
            } else if a == p {
                assert(order@[b] == old_order[b - 1]);
                assert(times@[old_order[p as int] as int] > t);
                if p < b - 1 {
                    assert(loads_before(times@, old_order[p as int] as int, old_order[b - 1] as int));
                }
            } else {
                assert(order@[a] == old_order[a - 1]);
                assert(order@[b] == old_order[b - 1]);
            }
        }
        assert forall|j: usize| j < i + 1 implies order@.contains(j) by {
            if j < i {
                assert(old_order.contains(j));
                let q = choose|q: int| 0 <= q < old_order.len() && old_order[q] == j;
                if q < p {
                    assert(order@[q] == j);
                } else {
                    assert(order@[q + 1] == j);
                }
            } else {
                assert(order@[p as int] == j);
            }
        }
        i = i + 1;
    }
    order
}

} // verus!
