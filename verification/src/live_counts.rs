//! Per-folder counts that tick while a walk is still under way.

use crate::counts::{children, children_bound};
use crate::file_path::FilePath;
use crate::paths::{parent, path_key};
use crate::types::FileEntry;
use vstd::hash_map::StringHashMap;
use vstd::prelude::*;

verus! {

/// A folder and how many direct children of it were walked so far.
struct LiveDir {
    path: FilePath,
    count: u64,
    /// Whether the count has grown since it was last handed out.
    changed: bool,
}

/// Live per-folder counts, counted straight from the walk (cumulative, so
/// always a correct-so-far lower bound converging on the final counts).
pub struct LiveDirCounts {
    map: StringHashMap<usize>,
    dirs: Vec<LiveDir>,
    walked: Ghost<Seq<FileEntry>>,
    handed_out: Ghost<Seq<FileEntry>>,
}

impl LiveDirCounts {
    /// The entries walked so far.
    pub closed spec fn walked(&self) -> Seq<FileEntry> {
        self.walked@
    }

    /// The entries that had been walked when counts were last handed out.
    pub closed spec fn handed_out(&self) -> Seq<FileEntry> {
        self.handed_out@
    }

    /// Every folder with walked children has one count, which is exact, and
    /// is marked if it has grown.
    pub closed spec fn wf(&self) -> bool {
        &&& forall|k: Seq<char>| #[trigger]
            self.map@.contains_key(k) <==> children(self.walked@, None, k) > 0
        &&& forall|k: Seq<char>| #[trigger]
            self.map@.contains_key(k) ==> self.counts_right(k, self.map@[k] as int)
        &&& forall|j: int| 0 <= j < self.dirs@.len() ==> #[trigger] self.is_mapped(j)
        &&& forall|k: Seq<char>|
            #![trigger children(self.handed_out@, None, k)]
            children(self.handed_out@, None, k) <= children(self.walked@, None, k)
    }

    spec fn counts_right(&self, k: Seq<char>, j: int) -> bool {
        &&& 0 <= j < self.dirs@.len()
        &&& path_key(self.dirs@[j].path@) == k
        &&& self.dirs@[j].count == children(self.walked@, None, k)
        &&& self.dirs@[j].changed == (children(self.walked@, None, k) > children(
            self.handed_out@,
            None,
            k,
        ))
    }

    spec fn is_mapped(&self, j: int) -> bool {
        let k = path_key(self.dirs@[j].path@);
        self.map@.contains_key(k) && self.map@[k] == j
    }

    /// Before the walk.
    pub fn new() -> (r: LiveDirCounts)
        ensures
            r.wf(),
            r.walked() == Seq::<FileEntry>::empty(),
            r.handed_out() == Seq::<FileEntry>::empty(),
    {
        LiveDirCounts {
            map: StringHashMap::new(),
            dirs: Vec::new(),
            walked: Ghost(Seq::empty()),
            handed_out: Ghost(Seq::empty()),
        }
    }

    fn add_entry(&mut self, e: &FileEntry)
        requires
            old(self).wf(),
            old(self).walked().len() < u64::MAX,
        ensures
            final(self).wf(),
            final(self).walked() == old(self).walked().push(*e),
            final(self).handed_out() == old(self).handed_out(),
    {
        let ghost was = self.walked@;
        let ghost next = was.push(*e);
        proof {
            assert(next.drop_last() =~= was);
        }
        match e.path.parent() {
            Some(p) => {
                let k = p.key();
                let ghost kv = k@;
                proof {
                    children_bound(was, None, kv);
                    assert forall|q: Seq<char>| children(next, None, q) == #[trigger] children(
                        was,
                        None,
                        q,
                    ) + if q == kv {
                        1int
                    } else {
                        0
                    } by {}
                }
                let at: Option<usize> = match self.map.get(k.as_str()) {
                    Some(j) => Some(*j),
                    None => None,
                };
                match at {
                    Some(j) => {
                        let path = self.dirs[j].path.clone();
                        let count: u64 = self.dirs[j].count + 1;
                        self.dirs.set(j, LiveDir { path, count, changed: true });
                        self.walked = Ghost(next);
                        proof {
                            let old_self = *old(self);
                            assert forall|q: Seq<char>| #[trigger]
                                self.map@.contains_key(q) implies self.counts_right(
                                q,
                                self.map@[q] as int,
                            ) by {
                                assert(children(was, None, q) >= children(
                                    self.handed_out@,
                                    None,
                                    q,
                                ));
                            }
                            assert forall|i: int| 0 <= i < self.dirs@.len() implies #[trigger]
                            self.is_mapped(i) by {
                                assert(old_self.is_mapped(i));
                            }
                        }
                    },
                    None => {
                        let j: usize = self.dirs.len();
                        self.dirs.push(LiveDir { path: p, count: 1, changed: true });
                        self.map.insert(k, j);
                        self.walked = Ghost(next);
                        proof {
                            let old_self = *old(self);
                            assert(children(was, None, kv) == 0) by {
                                assert(!old_self.map@.contains_key(kv));
                            }
                            assert(children(self.handed_out@, None, kv) <= children(
                                was,
                                None,
                                kv,
                            ));
                            assert forall|q: Seq<char>| #[trigger]
                                self.map@.contains_key(q) <==> children(next, None, q) > 0 by {
                                assert(old_self.map@.contains_key(q) <==> children(
                                    was,
                                    None,
                                    q,
                                ) > 0);
                            }
                            assert forall|q: Seq<char>| #[trigger]
                                self.map@.contains_key(q) implies self.counts_right(
                                q,
                                self.map@[q] as int,
                            ) by {
                                if q != kv {
                                    assert(old_self.counts_right(q, old_self.map@[q] as int));
                                }
                            }
                            assert forall|i: int| 0 <= i < self.dirs@.len() implies #[trigger]
                            self.is_mapped(i) by {
                                if i < j {
                                    assert(old_self.is_mapped(i));
                                }
                            }
                        }
                    },
                }
            },
            None => {
                self.walked = Ghost(next);
                proof {
                    let old_self = *old(self);
                    assert forall|q: Seq<char>| children(next, None, q) == #[trigger] children(
                        was,
                        None,
                        q,
                    ) by {}
                    assert forall|q: Seq<char>| #[trigger]
                        self.map@.contains_key(q) implies self.counts_right(
                        q,
                        self.map@[q] as int,
                    ) by {
                        assert(old_self.counts_right(q, self.map@[q] as int));
                    }
                    assert forall|i: int| 0 <= i < self.dirs@.len() implies #[trigger]
                    self.is_mapped(i) by {
                        assert(old_self.is_mapped(i));
                    }
                }
            },
        }
    }

    /// Counts a batch of newly walked entries.
    pub fn add_batch(&mut self, batch: &[FileEntry])
        requires
            old(self).wf(),
            old(self).walked().len() + batch@.len() <= u64::MAX,
        ensures
            final(self).wf(),
            final(self).walked() == old(self).walked() + batch@,
            final(self).handed_out() == old(self).handed_out(),
    {
        let ghost was = self.walked@;
        for i in 0..batch.len()
            invariant
                was.len() + batch@.len() <= u64::MAX,
                self.wf(),
                self.walked() =~= was + batch@.take(i as int),
                self.handed_out() == old(self).handed_out(),
        {
            self.add_entry(&batch[i]);
        }
    }

    /// The folders whose counts have grown since this was last called, each
    /// once, with their counts so far (cumulative, so a skipped tick loses
    /// nothing).
    pub fn drain_changed(&mut self) -> (r: Vec<(FilePath, u64)>)
        requires
            old(self).wf(),
        ensures
            final(self).wf(),
            final(self).walked() == old(self).walked(),
            final(self).handed_out() == old(self).walked(),
            forall|i: int|
                0 <= i < r@.len() ==> {
                    let k = path_key((#[trigger] r@[i]).0@);
                    &&& r@[i].1 == children(old(self).walked(), None, k)
                    &&& children(old(self).walked(), None, k) > children(
                        old(self).handed_out(),
                        None,
                        k,
                    )
                },
            forall|i: int, j: int|
                0 <= i < j < r@.len() ==> path_key((#[trigger] r@[i]).0@) != path_key(
                    (#[trigger] r@[j]).0@,
                ),
            forall|k: Seq<char>|
                children(old(self).walked(), None, k) > #[trigger] children(
                    old(self).handed_out(),
                    None,
                    k,
                ) ==> drains(r@, k),
    {
        let mut out: Vec<(FilePath, u64)> = Vec::new();
        let ghost origin: Seq<int> = Seq::empty();
        let n: usize = self.dirs.len();
        let ghost first = *old(self);
        for i in 0..n
            invariant
                first == *old(self),
                first.wf(),
                n == self.dirs@.len(),
                n == first.dirs@.len(),
                self.map == first.map,
                self.walked == first.walked,
                self.handed_out == first.handed_out,
                forall|j: int|
                    0 <= j < n ==> (#[trigger] self.dirs@[j]).path@ == first.dirs@[j].path@
                        && self.dirs@[j].count == first.dirs@[j].count && self.dirs@[j].changed
                        == (first.dirs@[j].changed && j >= i),
                origin.len() == out@.len(),
                forall|a: int|
                    0 <= a < out@.len() ==> {
                        &&& 0 <= #[trigger] origin[a] < i
                        &&& first.dirs@[origin[a]].changed
                        &&& out@[a].0@ == first.dirs@[origin[a]].path@
                        &&& out@[a].1 == first.dirs@[origin[a]].count
                    },
                forall|a: int, b: int|
                    0 <= a < b < out@.len() ==> #[trigger] origin[a] < #[trigger] origin[b],
                forall|j: int|
                    0 <= j < i && (#[trigger] first.dirs@[j]).changed ==> drains(
                        out@,
                        path_key(first.dirs@[j].path@),
                    ),
        {
            if self.dirs[i].changed {
                let path = self.dirs[i].path.clone();
                let count: u64 = self.dirs[i].count;
                let ghost was = out@;
                out.push((path.clone(), count));
                self.dirs.set(i, LiveDir { path, count, changed: false });
                proof {
                    origin = origin.push(i as int);
                    assert forall|j: int|
                        0 <= j < i + 1 && (#[trigger] first.dirs@[j]).changed implies drains(
                        out@,
                        path_key(first.dirs@[j].path@),
                    ) by {
                        if j < i {
                            let k = path_key(first.dirs@[j].path@);
                            let a = choose|a: int|
                                0 <= a < was.len() && path_key((#[trigger] was[a]).0@) == k;
                            assert(out@[a] == was[a]);
                        } else {
                            assert(path_key(out@[out@.len() - 1].0@) == path_key(
                                first.dirs@[j].path@,
                            ));
                        }
                    }
                }
            }
        }
        self.handed_out = Ghost(self.walked@);
        proof {
            assert forall|a: int| 0 <= a < out@.len() implies {
                let k = path_key((#[trigger] out@[a]).0@);
                &&& out@[a].1 == children(first.walked(), None, k)
                &&& children(first.walked(), None, k) > children(first.handed_out(), None, k)
            } by {
                let j = origin[a];
                assert(first.is_mapped(j));
            }
            assert forall|a: int, b: int| 0 <= a < b < out@.len() implies path_key(
                (#[trigger] out@[a]).0@,
            ) != path_key((#[trigger] out@[b]).0@) by {
                assert(first.is_mapped(origin[a]));
                assert(first.is_mapped(origin[b]));
            }
            assert forall|k: Seq<char>|
                children(first.walked(), None, k) > #[trigger] children(
                    first.handed_out(),
                    None,
                    k,
                ) implies drains(out@, k) by {
                assert(first.map@.contains_key(k));
                let j = first.map@[k] as int;
            }
            assert forall|k: Seq<char>| #[trigger]
                self.map@.contains_key(k) implies self.counts_right(k, self.map@[k] as int) by {
                let j = first.map@[k] as int;
            }
            assert forall|j: int| 0 <= j < self.dirs@.len() implies #[trigger]
            self.is_mapped(j) by {
                assert(first.is_mapped(j));
            }
        }
        out
    }
}

/// Whether the folder with the key `k` is among the counts handed out.
pub open spec fn drains(r: Seq<(FilePath, u64)>, k: Seq<char>) -> bool {
    exists|i: int| 0 <= i < r.len() && path_key((#[trigger] r[i]).0@) == k
}

/// A count never goes back: what has been walked so far is a lower bound of
/// what will have been walked.
pub proof fn counts_only_grow(a: Seq<FileEntry>, b: Seq<FileEntry>, k: Seq<char>)
    ensures
        children(a, None, k) <= children(a + b, None, k),
    decreases b.len(),
{
    if b.len() == 0 {
        assert(a + b =~= a);
    } else {
        counts_only_grow(a, b.drop_last(), k);
        assert((a + b).drop_last() =~= a + b.drop_last());
    }
}

} // verus!
