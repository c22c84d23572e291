//! How many direct children each folder has.

use crate::file_path::FilePath;
use crate::path_laws::{parent_parts, same_key_same_path};
use crate::paths::{parent, parts, path_key, under};
use crate::types::FileEntry;
use vstd::hash_map::StringHashMap;
use vstd::prelude::*;

verus! {

/// Whether `e` is a direct child of the folder with the key `k`, and lies
/// below `within` where that is given.
pub open spec fn is_child(e: FileEntry, within: Option<Seq<char>>, k: Seq<char>) -> bool {
    &&& parent(e.path@) matches Some(p) && path_key(p) == k
    &&& within matches Some(d) ==> under(e.path@, d)
}

/// How many of the entries are direct children of the folder with the key
/// `k`.
pub open spec fn children(entries: Seq<FileEntry>, within: Option<Seq<char>>, k: Seq<char>) -> nat
    decreases entries.len(),
{
    if entries.len() == 0 {
        0
    } else {
        let n = children(entries.drop_last(), within, k);
        if is_child(entries.last(), within, k) {
            n + 1
        } else {
            n
        }
    }
}

/// There are at most as many children as entries.
pub proof fn children_bound(entries: Seq<FileEntry>, within: Option<Seq<char>>, k: Seq<char>)
    ensures
        children(entries, within, k) <= entries.len(),
    decreases entries.len(),
{
    if entries.len() > 0 {
        children_bound(entries.drop_last(), within, k);
    }
}

/// Whether the map gives each folder with children their number, and knows no
/// other folder.
pub open spec fn tallies(
    m: Map<Seq<char>, usize>,
    entries: Seq<FileEntry>,
    within: Option<Seq<char>>,
) -> bool {
    forall|k: Seq<char>|
        {
            &&& #[trigger] m.contains_key(k) <==> children(entries, within, k) > 0
            &&& m.contains_key(k) ==> m[k] == children(entries, within, k)
        }
}

/// The children of a folder below `dir` all lie below `dir` themselves, so
/// counting below `dir` gives the folder the number that counting everything
/// gives it.
pub proof fn scoped_counts_agree(entries: Seq<FileEntry>, dir: Seq<char>, d: Seq<char>)
    requires
        under(d, dir),
    ensures
        children(entries, Some(dir), path_key(d)) == children(entries, None, path_key(d)),
    decreases entries.len(),
{
    if entries.len() > 0 {
        scoped_counts_agree(entries.drop_last(), dir, d);
        let e = entries.last();
        if is_child(e, None, path_key(d)) {
            let p = parent(e.path@).unwrap();
            same_key_same_path(p, d);
            parent_parts(e.path@);
            assert(parts(dir) =~= parts(e.path@).subrange(0, parts(dir).len() as int)) by {
                assert(parts(dir) =~= parts(d).subrange(0, parts(dir).len() as int));
            }
        }
    }
}

/// Direct-children counts by folder.
pub struct ChildCounts {
    map: StringHashMap<usize>,
}

impl View for ChildCounts {
    type V = Map<Seq<char>, usize>;

    closed spec fn view(&self) -> Map<Seq<char>, usize> {
        self.map@
    }
}

/// The number that a map of counts gives a folder: none means zero.
pub open spec fn count_in(m: Map<Seq<char>, usize>, k: Seq<char>) -> usize {
    if m.contains_key(k) {
        m[k]
    } else {
        0
    }
}

impl ChildCounts {
    /// The number of direct children of `dir`.
    pub fn get(&self, dir: &FilePath) -> (r: usize)
        ensures
            r == count_in(self@, path_key(dir@)),
    {
        let k = dir.key();
        match self.map.get(k.as_str()) {
            Some(n) => *n,
            None => 0,
        }
    }

    /// Counts the direct children of every folder among `entries`, or of
    /// those below `within`.
    pub fn of(entries: &Vec<FileEntry>, within: Option<&FilePath>) -> (r: ChildCounts)
        ensures
            tallies(
                r@,
                entries@,
                match within {
                    Some(d) => Some(d@),
                    None => None,
                },
            ),
    {
        let ghost scope = match within {
            Some(d) => Some(d@),
            None => None,
        };
        let mut map: StringHashMap<usize> = StringHashMap::new();
        for i in 0..entries.len()
            invariant
                scope == (match within {
                    Some(d) => Some(d@),
                    None => None,
                }),
                tallies(map@, entries@.take(i as int), scope),
        {
            let e = &entries[i];
            let ghost before = map@;
            let ghost done = entries@.take(i as int);
            proof {
                assert(entries@.take(i + 1).drop_last() =~= done);
            }
            let inside = match within {
                Some(d) => e.path.starts_with(d),
                None => true,
            };
            if inside {
                match e.path.parent() {
                    Some(p) => {
                        let k = p.key();
                        let ghost kv = k@;
                        let old: usize = match map.get(k.as_str()) {
                            Some(n) => *n,
                            None => 0,
                        };
                        proof {
                            children_bound(done, scope, kv);
                            assert(old == children(done, scope, kv)) by {
                                assert(before.contains_key(kv) <==> children(done, scope, kv) > 0);
                            }
                        }
                        map.insert(k, old + 1);
                    },
                    None => {},
                }
            }
            assert(tallies(map@, entries@.take(i + 1), scope)) by {
                assert forall|q: Seq<char>|
                    {
                        &&& #[trigger] map@.contains_key(q) <==> children(
                            entries@.take(i + 1),
                            scope,
                            q,
                        ) > 0
                        &&& map@.contains_key(q) ==> map@[q] == children(
                            entries@.take(i + 1),
                            scope,
                            q,
                        )
                    } by {
                    assert(entries@.take(i + 1).last() == *e);
                }
            }
        }
        assert(entries@.take(entries@.len() as int) =~= entries@);
        ChildCounts { map }
    }
}

/// The number that exact counts give a folder.
pub proof fn count_in_tally(
    m: Map<Seq<char>, usize>,
    entries: Seq<FileEntry>,
    within: Option<Seq<char>>,
    k: Seq<char>,
)
    requires
        tallies(m, entries, within),
    ensures
        count_in(m, k) == children(entries, within, k),
{
    assert(m.contains_key(k) <==> children(entries, within, k) > 0);
}

} // verus!
