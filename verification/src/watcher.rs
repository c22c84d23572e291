//! External changes: what the file watcher reports, and how bursts of it are
//! collapsed into batches.

use crate::file_path::FilePath;
use crate::path_laws::same_key_same_path;
use crate::paths::{path_key, same_path};
use vstd::hash_map::StringHashMap;
use vstd::prelude::*;

verus! {

/// What the watcher reports.
#[derive(Debug)]
pub struct FsEvent {
    pub paths: Vec<FilePath>,
    pub kind: String,
}

/// Debounce window for external-change bursts: one file copy fires
/// create + N modifies, which collapse into a single index patch + UI tick.
pub const WATCH_DEBOUNCE_MS: u64 = 400;

/// Poll tick for watch commands and raw watcher events.
pub const WATCH_POLL_MS: u64 = 50;

/// Commands for the watcher. Only the currently scanned root is ever watched.
#[derive(Debug)]
pub enum WatchCmd {
    /// (Re)watch a scanned root, replacing any previous watch.
    Watch(FilePath),
    /// Stop watching (the path field was cleared).
    Unwatch,
}

/// What is watched and what has changed there.
pub ghost struct WatchState {
    pub root: Option<Seq<char>>,
    /// The changed paths, in the order in which they were first reported.
    pub pending: Seq<Seq<char>>,
    /// When the last change was reported.
    pub last: Option<int>,
}

/// Whether one of the paths is this one.
pub open spec fn has_path(paths: Seq<Seq<char>>, p: Seq<char>) -> bool {
    exists|i: int| 0 <= i < paths.len() && same_path(#[trigger] paths[i], p)
}

/// With a path, if it is not among them yet.
pub open spec fn noted(paths: Seq<Seq<char>>, p: Seq<char>) -> Seq<Seq<char>> {
    if has_path(paths, p) {
        paths
    } else {
        paths.push(p)
    }
}

/// With each of the reported paths.
pub open spec fn all_noted(paths: Seq<Seq<char>>, new: Seq<FilePath>) -> Seq<Seq<char>>
    decreases new.len(),
{
    if new.len() == 0 {
        paths
    } else {
        noted(all_noted(paths, new.drop_last()), new.last()@)
    }
}

/// Whether a command to watch `p` starts a new watch: the root that is
/// watched already stays watched.
pub open spec fn is_new_root(s: WatchState, p: Seq<char>) -> bool {
    !(s.root matches Some(r) && same_path(r, p))
}

/// Watching `p`; nothing, if the watch could not be started. What was pending
/// is forgotten.
pub open spec fn after_watch(s: WatchState, p: Seq<char>, started: bool) -> WatchState {
    WatchState {
        root: if is_new_root(s, p) {
            if started {
                Some(p)
            } else {
                None
            }
        } else {
            s.root
        },
        pending: Seq::empty(),
        last: None,
    }
}

/// After a report at time `now`. Without a watch, and without paths, it is
/// nothing.
pub open spec fn after_report(s: WatchState, paths: Seq<FilePath>, now: int) -> WatchState {
    if s.root is None || paths.len() == 0 {
        s
    } else {
        WatchState { pending: all_noted(s.pending, paths), last: Some(now), ..s }
    }
}

/// Whether the burst is over: something is pending, and for a while nothing
/// more was reported.
pub open spec fn is_quiet(s: WatchState, now: int) -> bool {
    s.root is Some && s.pending.len() > 0 && (s.last matches Some(t) && now - t
        >= WATCH_DEBOUNCE_MS)
}

/// Collects changes below the watched root until a burst is over.
pub struct WatchQueue {
    root: Option<FilePath>,
    pending: Vec<FilePath>,
    keys: StringHashMap<bool>,
    last: Option<u64>,
}

/// The texts of paths.
pub open spec fn path_texts(v: Seq<FilePath>) -> Seq<Seq<char>> {
    Seq::new(v.len(), |i: int| v[i]@)
}

impl View for WatchQueue {
    type V = WatchState;

    closed spec fn view(&self) -> WatchState {
        WatchState {
            root: match self.root {
                Some(r) => Some(r@),
                None => None,
            },
            pending: path_texts(self.pending@),
            last: match self.last {
                Some(t) => Some(t as int),
                None => None,
            },
        }
    }
}

impl WatchQueue {
    /// The keys are those of what is pending.
    pub closed spec fn wf(&self) -> bool {
        forall|k: Seq<char>| #[trigger]
            self.keys@.contains_key(k) <==> exists|i: int|
                0 <= i < self.pending@.len() && path_key((#[trigger] self.pending@[i])@) == k
    }

    /// Nothing is watched.
    pub fn new() -> (r: WatchQueue)
        ensures
            r.wf(),
            r@ == (WatchState { root: None, pending: Seq::empty(), last: None }),
    {
        let r = WatchQueue {
            root: None,
            pending: Vec::new(),
            keys: StringHashMap::new(),
            last: None,
        };
        assert(r@.pending =~= Seq::empty());
        r
    }

    /// Whether a command to watch `p` means that a new watch is to be
    /// started.
    pub fn needs_watch(&self, p: &FilePath) -> (r: bool)
        ensures
            r == is_new_root(self@, p@),
    {
        match &self.root {
            Some(root) => !root.same(p),
            None => true,
        }
    }

    /// Watch `p`. Where a new watch was needed, `started` says whether it
    /// could be started.
    pub fn watch(&mut self, p: FilePath, started: bool)
        requires
            old(self).wf(),
        ensures
            final(self).wf(),
            final(self)@ == after_watch(old(self)@, p@, started),
    {
        if self.needs_watch(&p) {
            self.root = if started {
                Some(p)
            } else {
                None
            };
        }
        self.pending.clear();
        self.keys.clear();
        self.last = None;
        assert(self@.pending =~= Seq::empty());
    }

    /// Watch nothing.
    pub fn unwatch(&mut self)
        requires
            old(self).wf(),
        ensures
            final(self).wf(),
            final(self)@ == (WatchState { root: None, pending: Seq::empty(), last: None }),
    {
        self.root = None;
        self.pending.clear();
        self.keys.clear();
        self.last = None;
        assert(self@.pending =~= Seq::empty());
    }

    fn note(&mut self, p: &FilePath)
        requires
            old(self).wf(),
        ensures
            final(self).wf(),
            final(self)@ == (WatchState {
                pending: noted(old(self)@.pending, p@),
                ..old(self)@
            }),
    {
        let k = p.key();
        let known = self.keys.contains_key(k.as_str());
        let ghost was = self.pending@;
        let ghost texts = path_texts(was);
        proof {
            assert(known == has_path(texts, p@)) by {
                if known {
                    let i = choose|i: int|
                        0 <= i < was.len() && path_key((#[trigger] was[i])@) == k@;
                    same_key_same_path(was[i]@, p@);
                    assert(same_path(texts[i], p@));
                }
                if has_path(texts, p@) {
                    let i = choose|i: int|
                        0 <= i < texts.len() && same_path(#[trigger] texts[i], p@);
                    same_key_same_path(was[i]@, p@);
                }
            }
        }
        if !known {
            let ghost kv = k@;
            let ghost had = self.keys@;
            self.keys.insert(k, true);
            self.pending.push(p.clone());
            proof {
                let now = self.pending@;
                assert(path_texts(now) =~= texts.push(p@));
                assert forall|q: Seq<char>| #[trigger] self.keys@.contains_key(q) <==> exists|
                    i: int,
                |
                    0 <= i < now.len() && path_key((#[trigger] now[i])@) == q by {
                    assert(had.contains_key(q) <==> exists|i: int|
                        0 <= i < was.len() && path_key((#[trigger] was[i])@) == q);
                    if had.contains_key(q) {
                        let i = choose|i: int|
                            0 <= i < was.len() && path_key((#[trigger] was[i])@) == q;
                        assert(path_key(now[i]@) == q);
                    }
                    if q == kv {
                        assert(path_key(now[was.len() as int]@) == q);
                    }
                    if exists|i: int| 0 <= i < now.len() && path_key((#[trigger] now[i])@) == q {
                        let i = choose|i: int|
                            0 <= i < now.len() && path_key((#[trigger] now[i])@) == q;
                        if i < was.len() {
                            assert(path_key(was[i]@) == q);
                        }
                    }
                }
            }
        }
    }

    /// Takes in what the watcher reports at time `now`.
    pub fn report(&mut self, paths: &Vec<FilePath>, now: u64)
        requires
            old(self).wf(),
        ensures
            final(self).wf(),
            final(self)@ == after_report(old(self)@, paths@, now as int),
    {
        if self.root.is_none() || paths.len() == 0 {
            return;
        }
        let ghost s = self@;
        for i in 0..paths.len()
            invariant
                self.wf(),
                self@ == (WatchState {
                    pending: all_noted(s.pending, paths@.take(i as int)),
                    ..s
                }),
        {
            assert(paths@.take(i + 1).drop_last() =~= paths@.take(i as int));
            self.note(&paths[i]);
        }
        assert(paths@.take(paths@.len() as int) =~= paths@);
        self.last = Some(now);
    }

    /// The root and the batch of changed paths, once a burst is over.
    pub fn poll(&mut self, now: u64) -> (r: Option<(FilePath, Vec<FilePath>)>)
        requires
            old(self).wf(),
        ensures
            final(self).wf(),
            r is Some <==> is_quiet(old(self)@, now as int),
            r matches Some((root, batch)) ==> {
                &&& old(self)@.root == Some(root@)
                &&& path_texts(batch@) == old(self)@.pending
                &&& final(self)@ == (WatchState {
                    pending: Seq::empty(),
                    last: None,
                    ..old(self)@
                })
            },
            r is None ==> *final(self) == *old(self),
    {
        let root = match &self.root {
            Some(root) => root.clone(),
            None => {
                return None;
            },
        };
        let quiet = match self.last {
            Some(t) => now >= t && now - t >= WATCH_DEBOUNCE_MS,
            None => false,
        };
        if self.pending.len() == 0 || !quiet {
            return None;
        }
        let mut batch: Vec<FilePath> = Vec::new();
        for i in 0..self.pending.len()
            invariant
                *self == *old(self),
                batch@ =~= self.pending@.take(i as int),
        {
            batch.push(self.pending[i].clone());
        }
        self.pending.clear();
        self.keys.clear();
        self.last = None;
        assert(self@.pending =~= Seq::empty());
        Some((root, batch))
    }
}

// ---------------------------------------------------------------------
// Laws

/// Whether no path is there twice.
pub open spec fn no_path_twice(paths: Seq<Seq<char>>) -> bool {
    forall|i: int, j: int|
        0 <= i < j < paths.len() ==> !same_path(#[trigger] paths[i], #[trigger] paths[j])
}

/// However often a burst reports a path, it is pending once, and every
/// reported path is pending.
pub proof fn burst_collapses(paths: Seq<Seq<char>>, new: Seq<FilePath>)
    requires
        no_path_twice(paths),
    ensures
        no_path_twice(all_noted(paths, new)),
        forall|p: Seq<char>|
            #![trigger has_path(all_noted(paths, new), p)]
            has_path(paths, p) ==> has_path(all_noted(paths, new), p),
        forall|i: int| 0 <= i < new.len() ==> has_path(all_noted(paths, new), (#[trigger] new[i])@),
    decreases new.len(),
{
    if new.len() > 0 {
        let front = new.drop_last();
        burst_collapses(paths, front);
        let a = all_noted(paths, front);
        let p = new.last()@;
        let b = noted(a, p);
        assert forall|q: Seq<char>| has_path(a, q) implies #[trigger] has_path(b, q) by {
            let i = choose|i: int| 0 <= i < a.len() && same_path(#[trigger] a[i], q);
            assert(same_path(b[i], q));
        }
        assert(has_path(b, p)) by {
            if !has_path(a, p) {
                assert(same_path(b[a.len() as int], p));
            }
        }
        assert forall|i: int, j: int| 0 <= i < j < b.len() implies !same_path(
            #[trigger] b[i],
            #[trigger] b[j],
        ) by {
            if j < a.len() {
                assert(!same_path(a[i], a[j]));
            } else {
                assert(!same_path(a[i], p));
            }
        }
        assert forall|i: int| 0 <= i < new.len() implies has_path(b, (#[trigger] new[i])@) by {
            if i < front.len() {
                assert(front[i] == new[i]);
            }
        }
    }
}

/// A burst whose reports follow one another faster than the window is not
/// handed on before it is over.
pub proof fn burst_is_not_split(s: WatchState, paths: Seq<FilePath>, t: int, now: int)
    requires
        paths.len() > 0,
        s.root is Some,
        t <= now < t + WATCH_DEBOUNCE_MS,
    ensures
        !is_quiet(after_report(s, paths, t), now),
{
}

} // verus!
