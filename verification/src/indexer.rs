//! The in-memory index.

use crate::counts::{tallies, ChildCounts};
use crate::file_path::FilePath;
use crate::index_model::{
    after_events, after_stat, after_watch_batch, batch_touches, has_key, holds_below, insert_law,
    position_map, position_map_sound, remove_law, stale_keys, stat_touches, unique_paths,
    without_law, without_shrinks, Found, IndexState, Observed,
};
use crate::paths::{path_key, under};
use crate::scanner::is_pruned_path;
use crate::text::{begins_with, chars_of, same_text, text_begins_with};
use crate::types::{from_row, is_entry_of, FileEntry, FileRow};
use std::collections::VecDeque;
use vstd::hash_map::StringHashMap;
use vstd::prelude::*;

verus! {

/// Max previous searches kept for prefix-narrowing ("pho" reuses "ph"'s
/// candidates).
pub const QUERY_CACHE_MAX_ENTRIES: usize = 8;

/// Only candidate sets at most this large are cached.
pub const QUERY_CACHE_MAX_CANDIDATES: usize = 20_000;

/// Queries shorter than this are never cached.
pub const QUERY_CACHE_MIN_LEN: usize = 2;

/// A previous search's full untruncated candidate set. Untruncated on
/// purpose: narrowing must see every candidate, not just the top-`limit`
/// that was displayed.
#[derive(Debug)]
pub struct CachedQuery {
    pub query: String,
    pub fuzzy: bool,
    pub candidates: Vec<(u32, FilePath)>,
}

impl Clone for CachedQuery {
    fn clone(&self) -> (r: CachedQuery)
        ensures
            r.query == self.query,
            r.fuzzy == self.fuzzy,
            r.candidates@ == self.candidates@,
    {
        let mut candidates: Vec<(u32, FilePath)> = Vec::new();
        for i in 0..self.candidates.len()
            invariant
                candidates@ =~= self.candidates@.take(i as int),
        {
            let score: u32 = self.candidates[i].0;
            candidates.push((score, self.candidates[i].1.clone()));
        }
        CachedQuery { query: self.query.clone(), fuzzy: self.fuzzy, candidates }
    }
}

/// Whether remembered searches follow the rules on their number and size, and
/// none is remembered twice.
pub open spec fn within_policy(q: Seq<CachedQuery>) -> bool {
    &&& q.len() <= QUERY_CACHE_MAX_ENTRIES
    &&& forall|i: int|
        0 <= i < q.len() ==> (#[trigger] q[i]).query@.len() >= QUERY_CACHE_MIN_LEN
            && q[i].candidates@.len() <= QUERY_CACHE_MAX_CANDIDATES
    &&& forall|i: int, j: int|
        0 <= i < j < q.len() ==> !same_query(
            #[trigger] q[i],
            (#[trigger] q[j]).query@,
            q[j].fuzzy,
        )
}

/// Whether `c` is the search for `query` with or without fuzzy matching.
pub open spec fn same_query(c: CachedQuery, query: Seq<char>, fuzzy: bool) -> bool {
    c.query@ == query && c.fuzzy == fuzzy
}

/// Positions as numbers without a bound.
spec fn positions(m: Map<Seq<char>, usize>) -> Map<Seq<char>, nat> {
    m.map_values(|i: usize| i as nat)
}

/// In-memory index: a flat list with precomputed lowercase names, and the
/// position of each path for incremental changes.
///
/// The counts and the remembered searches are caches. Every change drops
/// them, so one that is there is always current.
pub struct Index {
    pub entries: Vec<FileEntry>,
    pos: StringHashMap<usize>,
    counts: Option<ChildCounts>,
    queries: VecDeque<CachedQuery>,
}

impl View for Index {
    type V = IndexState;

    closed spec fn view(&self) -> IndexState {
        IndexState { entries: self.entries@, pos: positions(self.pos@) }
    }
}

impl Index {
    /// The positions are sound and the caches current.
    pub closed spec fn wf(&self) -> bool {
        &&& self@.sound()
        &&& self.counts matches Some(c) ==> tallies(c@, self.entries@, None)
        &&& within_policy(self.queries@)
    }

    /// Whether nothing is cached.
    pub closed spec fn uncached(&self) -> bool {
        self.counts is None && self.queries@.len() == 0
    }

    /// The remembered searches, newest first.
    pub closed spec fn searches(&self) -> Seq<CachedQuery> {
        self.queries@
    }

    /// The remembered child counts, if there are any.
    pub closed spec fn counted(&self) -> Option<Map<Seq<char>, usize>> {
        match self.counts {
            Some(c) => Some(c@),
            None => None,
        }
    }

    /// A well-formed index is sound and its remembered searches follow the
    /// rules.
    pub proof fn wf_facts(&self)
        requires
            self.wf(),
        ensures
            self@.sound(),
            within_policy(self.searches()),
            self.uncached() ==> self.searches().len() == 0,
    {
    }

    /// An empty index.
    pub fn new() -> (r: Index)
        ensures
            r.wf(),
            r@ == (IndexState { entries: Seq::empty(), pos: Map::empty() }),
            r@.complete(),
            r.uncached(),
    {
        let r = Index {
            entries: Vec::new(),
            pos: StringHashMap::new(),
            counts: None,
            queries: VecDeque::new(),
        };
        assert(positions(r.pos@) =~= Map::empty());
        r
    }

    /// An index of the given entries. Of entries that share a path, the last
    /// is the one that the path is mapped to.
    pub fn from_entries(entries: Vec<FileEntry>) -> (r: Index)
        ensures
            r.wf(),
            r@ == (IndexState { entries: entries@, pos: position_map(entries@) }),
            unique_paths(entries@) ==> r@.complete(),
            r.uncached(),
    {
        let mut r = Index {
            entries,
            pos: StringHashMap::new(),
            counts: None,
            queries: VecDeque::new(),
        };
        r.rebuild_pos();
        proof {
            assert(entries@.len() == entries.len());
            position_map_sound(entries@);
        }
        r
    }

    fn rebuild_pos(&mut self)
        ensures
            final(self).entries == old(self).entries,
            positions(final(self).pos@) == position_map(old(self).entries@),
            final(self).counts == old(self).counts,
            final(self).queries == old(self).queries,
    {
        self.pos.clear();
        self.pos.reserve(self.entries.len());
        assert(positions(self.pos@) =~= Map::empty());
        let n: usize = self.entries.len();
        for i in 0..n
            invariant
                n == self.entries@.len(),
                self.entries == old(self).entries,
                self.counts == old(self).counts,
                self.queries == old(self).queries,
                positions(self.pos@) == position_map(self.entries@.take(i as int)),
        {
            let k = self.entries[i].path.key();
            let ghost was = self.pos@;
            self.pos.insert(k, i);
            proof {
                let t = self.entries@.take(i + 1);
                assert(t.drop_last() =~= self.entries@.take(i as int));
                assert(positions(self.pos@) =~= positions(was).insert(k@, i as nat));
            }
        }
        assert(self.entries@.take(self.entries@.len() as int) =~= self.entries@);
    }

    /// The entries, in their order.
    pub fn entries(&self) -> (r: &Vec<FileEntry>)
        ensures
            r@ == self@.entries,
    {
        &self.entries
    }

    /// The number of entries.
    pub fn len(&self) -> (r: usize)
        ensures
            r == self@.entries.len(),
    {
        self.entries.len()
    }

    /// Whether there are no entries.
    pub fn is_empty(&self) -> (r: bool)
        ensures
            r == (self@.entries.len() == 0),
    {
        self.entries.len() == 0
    }

    /// Insert or update.
    pub fn push(&mut self, e: FileEntry)
        requires
            old(self).wf(),
        ensures
            final(self).wf(),
            final(self)@ == old(self)@.inserted(e),
            old(self)@.complete() ==> final(self)@.complete(),
            final(self).uncached(),
    {
        self.upsert(e);
    }

    /// Pre-allocate for `additional` entries (both the list and the path map).
    /// Entries, positions and caches stay as they are.
    pub fn reserve(&mut self, additional: usize)
        requires
            old(self).wf(),
        ensures
            final(self).wf(),
            final(self)@ == old(self)@,
            final(self).searches() == old(self).searches(),
            final(self).counted() == old(self).counted(),
            final(self).uncached() == old(self).uncached(),
    {
        self.entries.reserve(additional);
        self.pos.reserve(additional);
    }

    /// Take everything out.
    pub fn clear(&mut self)
        ensures
            final(self).wf(),
            final(self)@ == (IndexState { entries: Seq::empty(), pos: Map::empty() }),
            final(self)@.complete(),
            final(self).uncached(),
    {
        self.entries.clear();
        self.pos.clear();
        assert(positions(self.pos@) =~= Map::empty());
        self.invalidate_caches();
    }

    /// Insert or update. Drops the caches.
    pub fn upsert(&mut self, e: FileEntry)
        requires
            old(self).wf(),
        ensures
            final(self).wf(),
            final(self)@ == old(self)@.inserted(e),
            old(self)@.complete() ==> final(self)@.complete(),
            final(self).uncached(),
    {
        self.invalidate_caches();
        self.insert_entry(e);
    }

    fn insert_entry(&mut self, e: FileEntry)
        requires
            old(self).wf(),
            old(self).uncached(),
        ensures
            final(self).wf(),
            final(self).uncached(),
            final(self)@ == old(self)@.inserted(e),
            old(self)@.complete() ==> final(self)@.complete(),
    {
        let k = e.path.key();
        let at: Option<usize> = match self.pos.get(k.as_str()) {
            Some(i) => Some(*i),
            None => None,
        };
        match at {
            Some(i) => {
                assert(self@.pos.contains_key(k@));
                self.entries.set(i, e);
                proof {
                    insert_law(old(self)@, e);
                }
            },
            None => {
                let i: usize = self.entries.len();
                self.pos.insert(k, i);
                self.entries.push(e);
                proof {
                    assert(self@.pos =~= old(self)@.pos.insert(e.key(), i as nat));
                    insert_law(old(self)@, e);
                }
            },
        }
    }

    /// Remove single path. Returns true if present. Drops the caches if so.
    pub fn remove(&mut self, path: &FilePath) -> (r: bool)
        requires
            old(self).wf(),
        ensures
            final(self).wf(),
            r == old(self)@.pos.contains_key(path_key(path@)),
            final(self)@ == old(self)@.removed(path_key(path@)),
            old(self)@.complete() ==> final(self)@.complete(),
            r ==> final(self).uncached(),
            !r ==> *final(self) == *old(self),
    {
        let k = path.key();
        let at: Option<usize> = match self.pos.get(k.as_str()) {
            Some(i) => Some(*i),
            None => None,
        };
        proof {
            remove_law(self@, k@);
        }
        match at {
            Some(i) => {
                let last: usize = self.entries.len() - 1;
                self.entries.swap_remove(i);
                self.pos.remove(k.as_str());
                if i != last {
                    let moved = self.entries[i].path.key();
                    self.pos.insert(moved, i);
                }
                assert(self@.pos =~= old(self)@.removed(k@).pos);
                self.invalidate_caches();
                true
            },
            None => false,
        }
    }

    /// Remove everything under `dir` (prefix). Returns count removed.
    /// Used when a directory is deleted/renamed. Drops the caches if anything
    /// was removed.
    pub fn remove_prefix(&mut self, dir: &FilePath) -> (r: usize)
        requires
            old(self).wf(),
        ensures
            final(self).wf(),
            final(self)@ == old(self)@.without(dir@),
            r == old(self)@.entries.len() - final(self)@.entries.len(),
            old(self)@.complete() ==> final(self)@.complete(),
            r > 0 <==> holds_below(old(self)@, dir@),
            r > 0 ==> final(self).uncached(),
            r == 0 ==> *final(self) == *old(self),
    {
        let ghost outside = |e: FileEntry| !under(e.path@, dir@);
        let ghost all = self.entries@;
        let before: usize = self.entries.len();
        proof {
            without_law(self@, dir@);
            without_shrinks(self@, dir@);
            all.lemma_filter_len(outside);
        }
        let mut keep: Vec<FileEntry> = Vec::new();
        for i in 0..self.entries.len()
            invariant
                *self == *old(self),
                self.entries@ == all,
                outside == (|e: FileEntry| !under(e.path@, dir@)),
                keep@ == all.take(i as int).filter(outside),
                keep@.len() <= i,
        {
            let e = &self.entries[i];
            if !e.path.starts_with(dir) {
                keep.push(e.clone());
            }
            proof {
                reveal(Seq::filter);
                assert(all.take(i + 1).drop_last() =~= all.take(i as int));
            }
        }
        assert(all.take(all.len() as int) =~= all);
        let removed: usize = before - keep.len();
        if removed > 0 {
            self.entries = keep;
            self.rebuild_pos();
            self.invalidate_caches();
        }
        removed
    }

    /// Insert or update each of the entries. Drops the caches.
    pub fn merge_entries(&mut self, entries: Vec<FileEntry>)
        requires
            old(self).wf(),
        ensures
            final(self).wf(),
            final(self)@ == old(self)@.merged(entries@),
            old(self)@.complete() ==> final(self)@.complete(),
            final(self).uncached(),
    {
        self.merge_all(&entries);
    }

    fn merge_all(&mut self, entries: &Vec<FileEntry>)
        requires
            old(self).wf(),
        ensures
            final(self).wf(),
            final(self)@ == old(self)@.merged(entries@),
            old(self)@.complete() ==> final(self)@.complete(),
            final(self).uncached(),
    {
        self.reserve(entries.len());
        self.invalidate_caches();
        for i in 0..entries.len()
            invariant
                self.wf(),
                self.uncached(),
                self@ == old(self)@.merged(entries@.take(i as int)),
                old(self)@.complete() ==> self@.complete(),
        {
            self.insert_entry(entries[i].clone());
            assert(entries@.take(i + 1).drop_last() =~= entries@.take(i as int));
        }
        assert(entries@.take(entries@.len() as int) =~= entries@);
    }

    fn invalidate_caches(&mut self)
        ensures
            final(self).entries == old(self).entries,
            final(self).pos == old(self).pos,
            final(self).uncached(),
            within_policy(final(self).queries@),
    {
        self.counts = None;
        self.queries.clear();
    }

    /// Direct-children count for every parent in the index, kept until the
    /// next change.
    pub fn child_counts(&mut self) -> (r: &ChildCounts)
        requires
            old(self).wf(),
        ensures
            tallies(r@, old(self)@.entries, None),
            final(self).wf(),
            final(self)@ == old(self)@,
            final(self).searches() == old(self).searches(),
    {
        if self.counts.is_none() {
            self.counts = Some(ChildCounts::of(&self.entries, None));
        }
        self.counts.as_ref().unwrap()
    }

    /// The entry that a path is mapped to.
    pub fn resolve(&self, path: &FilePath) -> (r: Option<&FileEntry>)
        requires
            self.wf(),
        ensures
            match r {
                Some(e) => self@.lookup(path_key(path@)) == Some(*e),
                None => self@.lookup(path_key(path@)) is None,
            },
    {
        let k = path.key();
        match self.pos.get(k.as_str()) {
            Some(i) => Some(&self.entries[*i]),
            None => None,
        }
    }

    /// The index that saved rows stand for.
    pub fn from_rows(rows: &Vec<FileRow>) -> (r: Index)
        ensures
            r.wf(),
            r.uncached(),
            r@.entries.len() == rows@.len(),
            forall|i: int|
                0 <= i < rows@.len() ==> is_entry_of(#[trigger] r@.entries[i], rows@[i]),
            r@.pos == position_map(r@.entries),
            unique_paths(r@.entries) ==> r@.complete(),
    {
        let mut out: Vec<FileEntry> = Vec::new();
        for i in 0..rows.len()
            invariant
                out@.len() == i,
                forall|j: int| 0 <= j < i ==> is_entry_of(#[trigger] out@[j], rows@[j]),
        {
            out.push(from_row(&rows[i]));
        }
        Index::from_entries(out)
    }

    /// Longest previous query that is a prefix of `q` (exact matches
    /// included) with the same fuzzy flag.
    pub fn lookup_query_cache(&self, q: &str, fuzzy: bool) -> (r: Option<CachedQuery>)
        requires
            self.wf(),
        ensures
            match r {
                Some(c) => exists|i: int|
                    is_longest(self.searches(), q@, fuzzy, i) && c.query
                        == self.searches()[i].query && c.fuzzy == fuzzy && c.candidates@
                        == self.searches()[i].candidates@,
                None => forall|i: int|
                    0 <= i < self.searches().len() ==> !narrows(
                        #[trigger] self.searches()[i],
                        q@,
                        fuzzy,
                    ),
            },
    {
        let mut best: Option<usize> = None;
        let mut best_len: usize = 0;
        let n: usize = self.queries.len();
        for i in 0..n
            invariant
                n == self.queries@.len(),
                match best {
                    Some(b) => b < i && narrows(self.queries@[b as int], q@, fuzzy) && best_len
                        == self.queries@[b as int].query@.len() && forall|j: int|
                        0 <= j < i && narrows(#[trigger] self.queries@[j], q@, fuzzy)
                            ==> self.queries@[j].query@.len() <= best_len,
                    None => forall|j: int|
                        0 <= j < i ==> !narrows(#[trigger] self.queries@[j], q@, fuzzy),
                },
        {
            let c = &self.queries[i];
            let query = chars_of(c.query.as_str());
            if c.fuzzy == fuzzy && text_begins_with(q, c.query.as_str()) {
                let better = match best {
                    Some(_) => query.len() >= best_len,
                    None => true,
                };
                if better {
                    best = Some(i);
                    best_len = query.len();
                }
            }
        }
        match best {
            Some(b) => {
                assert(is_longest(self.searches(), q@, fuzzy, b as int));
                let c = &self.queries[b];
                Some(c.clone())
            },
            None => None,
        }
    }

    /// Remember a search's candidate set for later narrowing. Short queries
    /// and large sets are not remembered; of more than a few the oldest is
    /// forgotten.
    pub fn store_query_cache(
        &mut self,
        query: String,
        fuzzy: bool,
        candidates: Vec<(u32, FilePath)>,
    )
        requires
            old(self).wf(),
        ensures
            final(self).wf(),
            final(self)@ == old(self)@,
            final(self).searches() == remembered(
                old(self).searches(),
                CachedQuery { query, fuzzy, candidates },
            ),
    {
        if chars_of(query.as_str()).len() < QUERY_CACHE_MIN_LEN || candidates.len()
            > QUERY_CACHE_MAX_CANDIDATES {
            return;
        }
        let ghost was = self.queries@;
        let n: usize = self.queries.len();
        let mut i: usize = 0;
        while i < n && !(self.queries[i].fuzzy == fuzzy && same_text(
            self.queries[i].query.as_str(),
            query.as_str(),
        ))
            invariant
                n == was.len(),
                self.queries@ == was,
                *self == *old(self),
                i <= n,
                forall|j: int| 0 <= j < i ==> !same_query(#[trigger] was[j], query@, fuzzy),
            decreases n - i,
        {
            i += 1;
        }
        proof {
            forgotten_at(was, query@, fuzzy, i as int);
        }
        if i < n {
            self.queries.remove(i);
        }
        let c = CachedQuery { query, fuzzy, candidates };
        self.queries.push_front(c);
        if self.queries.len() > QUERY_CACHE_MAX_ENTRIES {
            self.queries.pop_back();
        }
        proof {
            remembered_policy(was, c);
        }
    }

    /// Another look at one path: what is there is put in, or the path is
    /// taken out if nothing is. Returns whether something was there.
    pub fn stat_and_upsert(&mut self, path: &FilePath, found: Option<&Found>) -> (r: bool)
        requires
            old(self).wf(),
        ensures
            final(self).wf(),
            final(self)@ == after_stat(old(self)@, path@, found_value(found)),
            old(self)@.complete() ==> final(self)@.complete(),
            r == found is Some,
            if stat_touches(old(self)@, path@, found_value(found)) {
                final(self).uncached()
            } else {
                *final(self) == *old(self)
            },
    {
        match found {
            Some(f) => {
                self.upsert(f.entry.clone());
                // If a dir was (re)created, merge its current children so
                // new files inside are indexed without a full rescan.
                if f.entry.is_dir {
                    let mut live: StringHashMap<bool> = StringHashMap::new();
                    for i in 0..f.children.len()
                        invariant
                            forall|k: Seq<char>| #[trigger]
                                live@.contains_key(k) <==> has_key(f.children@.take(i as int), k),
                    {
                        let ghost was = live@;
                        let k = f.children[i].path.key();
                        live.insert(k, true);
                        proof {
                            assert forall|q: Seq<char>| #[trigger] live@.contains_key(q) <==>
                                has_key(f.children@.take(i + 1), q) by {
                                assert(was.contains_key(q) <==> has_key(
                                    f.children@.take(i as int),
                                    q,
                                ));
                                has_key_push(f.children@, i as int, q);
                            }
                        }
                    }
                    assert(f.children@.take(f.children@.len() as int) =~= f.children@);
                    // Drop stale children first (handles deletes inside dir).
                    let stale = self.stale_paths(path, &live, Ghost(f.children@));
                    let ghost st = self@;
                    let ghost ks = stale_keys(st.entries, path@, f.children@);
                    for i in 0..stale.len()
                        invariant
                            self.wf(),
                            old(self)@.complete() ==> self@.complete(),
                            keys_of(stale@) == ks,
                            self@ == st.removed_all(ks.take(i as int)),
                    {
                        self.remove(&stale[i]);
                        proof {
                            assert(ks.take(i + 1).drop_last() =~= ks.take(i as int));
                        }
                    }
                    assert(ks.take(stale@.len() as int) =~= ks);
                    self.merge_all(&f.children);
                }
                true
            },
            None => {
                // Deleted: remove self + any children if it was a dir.
                if self.remove(path) {
                    self.remove_prefix(path);
                }
                false
            },
        }
    }

    fn stale_paths(
        &self,
        path: &FilePath,
        live: &StringHashMap<bool>,
        Ghost(children): Ghost<Seq<FileEntry>>,
    ) -> (r: Vec<FilePath>)
        requires
            forall|k: Seq<char>| #[trigger] live@.contains_key(k) <==> has_key(children, k),
        ensures
            keys_of(r@) == stale_keys(self@.entries, path@, children),
    {
        let mut out: Vec<FilePath> = Vec::new();
        for i in 0..self.entries.len()
            invariant
                forall|k: Seq<char>| #[trigger] live@.contains_key(k) <==> has_key(children, k),
                keys_of(out@) =~= stale_keys(self.entries@.take(i as int), path@, children),
        {
            let e = &self.entries[i];
            let k = e.path.key();
            proof {
                assert(self.entries@.take(i + 1).drop_last() =~= self.entries@.take(i as int));
            }
            if !e.path.same(path) && e.path.starts_with(path) && !live.contains_key(k.as_str()) {
                out.push(e.path.clone());
            }
        }
        assert(self.entries@.take(self.entries@.len() as int) =~= self.entries@);
        out
    }

    /// Apply a batch of changed paths, with what is there now. Returns
    /// (upserted, removed).
    pub fn apply_event_paths(&mut self, seen: &Vec<Observed>) -> (r: (usize, usize))
        requires
            old(self).wf(),
        ensures
            final(self).wf(),
            old(self)@.complete() ==> final(self)@.complete(),
            final(self)@ == after_events(old(self)@, seen@).state,
            r.0 == after_events(old(self)@, seen@).upserted,
            r.1 == after_events(old(self)@, seen@).removed,
            if r.0 == 0 && r.1 == 0 {
                *final(self) == *old(self)
            } else {
                final(self).uncached()
            },
    {
        let mut up: usize = 0;
        let mut del: usize = 0;
        for i in 0..seen.len()
            invariant
                self.wf(),
                old(self)@.complete() ==> self@.complete(),
                if up == 0 && del == 0 {
                    *self == *old(self)
                } else {
                    self.uncached()
                },
                ({
                    let a = after_events(old(self)@, seen@.take(i as int));
                    &&& self@ == a.state
                    &&& up == a.upserted
                    &&& del == a.removed
                }),
                up <= i,
                del <= i,
        {
            let o = &seen[i];
            let k = o.path.key();
            let before = self.pos.contains_key(k.as_str());
            assert(seen@.take(i + 1).drop_last() =~= seen@.take(i as int));
            let found = match &o.found {
                Some(f) => Some(f),
                None => None,
            };
            if self.stat_and_upsert(&o.path, found) {
                up += 1;
            } else if before {
                del += 1;
            }
        }
        assert(seen@.take(seen@.len() as int) =~= seen@);
        (up, del)
    }

    /// Apply a batch of file-watcher paths (external changes by other
    /// processes): existing paths are looked at again (new files upserted,
    /// modified ones refreshed), vanished ones removed with their subtrees.
    /// Paths outside `root` or inside scan-pruned subtrees (`node_modules`,
    /// `$Recycle.Bin`, …) are ignored so the watcher can never index what
    /// the scan deliberately excludes. Returns (upserted, removed).
    pub fn apply_watch_batch(&mut self, root: &FilePath, seen: &Vec<Observed>) -> (r: (
        usize,
        usize,
    ))
        requires
            old(self).wf(),
        ensures
            final(self).wf(),
            old(self)@.complete() ==> final(self)@.complete(),
            final(self)@ == after_watch_batch(old(self)@, root@, seen@).state,
            r.0 == after_watch_batch(old(self)@, root@, seen@).upserted,
            r.1 == after_watch_batch(old(self)@, root@, seen@).removed,
            if batch_touches(old(self)@, root@, seen@) {
                final(self).uncached()
            } else {
                *final(self) == *old(self)
            },
    {
        let mut up: usize = 0;
        let mut del: usize = 0;
        for i in 0..seen.len()
            invariant
                self.wf(),
                old(self)@.complete() ==> self@.complete(),
                if batch_touches(old(self)@, root@, seen@.take(i as int)) {
                    self.uncached()
                } else {
                    *self == *old(self)
                },
                ({
                    let a = after_watch_batch(old(self)@, root@, seen@.take(i as int));
                    &&& self@ == a.state
                    &&& up == a.upserted
                    &&& del == a.removed
                }),
                up <= i,
                del <= i,
        {
            let o = &seen[i];
            assert(seen@.take(i + 1).drop_last() =~= seen@.take(i as int));
            if is_pruned_path(root, &o.path) {
                // Not covered by the index.
            } else if o.exists {
                let found = match &o.found {
                    Some(f) => Some(f),
                    None => None,
                };
                if self.stat_and_upsert(&o.path, found) {
                    up += 1;
                }
            } else if self.remove(&o.path) {
                self.remove_prefix(&o.path);
                del += 1;
            }
        }
        assert(seen@.take(seen@.len() as int) =~= seen@);
        (up, del)
    }
}

impl Default for Index {
    fn default() -> (r: Index)
        ensures
            r.wf(),
            r@ == (IndexState { entries: Seq::empty(), pos: Map::empty() }),
            r@.complete(),
            r.uncached(),
    {
        Index::new()
    }
}

/// The value behind an optional reference.
pub open spec fn found_value(found: Option<&Found>) -> Option<Found> {
    match found {
        Some(f) => Some(*f),
        None => None,
    }
}

/// The keys of paths.
pub open spec fn keys_of(paths: Seq<FilePath>) -> Seq<Seq<char>> {
    Seq::new(paths.len(), |i: int| path_key(paths[i]@))
}

proof fn has_key_push(entries: Seq<FileEntry>, i: int, k: Seq<char>)
    requires
        0 <= i < entries.len(),
    ensures
        has_key(entries.take(i + 1), k) <==> has_key(entries.take(i), k) || entries[i].key() == k,
{
    let a = entries.take(i);
    let b = entries.take(i + 1);
    if has_key(b, k) {
        let j = choose|j: int| 0 <= j < b.len() && (#[trigger] b[j]).key() == k;
        if j < i {
            assert(a[j].key() == k);
        }
    }
    if has_key(a, k) {
        let j = choose|j: int| 0 <= j < a.len() && (#[trigger] a[j]).key() == k;
    }
    if entries[i].key() == k {
        assert(b[i].key() == k);
    }
}

// ---------------------------------------------------------------------
// Remembered searches

/// Whether a remembered search can be narrowed to the search for `q`.
pub open spec fn narrows(c: CachedQuery, q: Seq<char>, fuzzy: bool) -> bool {
    c.fuzzy == fuzzy && begins_with(q, c.query@)
}

/// Whether the `i`-th search is the longest that can be narrowed.
pub open spec fn is_longest(s: Seq<CachedQuery>, q: Seq<char>, fuzzy: bool, i: int) -> bool {
    &&& 0 <= i < s.len()
    &&& narrows(s[i], q, fuzzy)
    &&& forall|j: int|
        0 <= j < s.len() && narrows(#[trigger] s[j], q, fuzzy) ==> s[j].query@.len()
            <= s[i].query@.len()
}

/// Without the first search for `query`.
pub open spec fn forgotten(s: Seq<CachedQuery>, query: Seq<char>, fuzzy: bool) -> Seq<CachedQuery>
    decreases s.len(),
{
    if s.len() == 0 {
        s
    } else if same_query(s[0], query, fuzzy) {
        s.drop_first()
    } else {
        seq![s[0]] + forgotten(s.drop_first(), query, fuzzy)
    }
}

/// With `c` as the newest search. Short queries and large sets change
/// nothing; an older search for the same is replaced; of more than a few the
/// oldest is forgotten.
pub open spec fn remembered(s: Seq<CachedQuery>, c: CachedQuery) -> Seq<CachedQuery> {
    if c.query@.len() < QUERY_CACHE_MIN_LEN || c.candidates@.len() > QUERY_CACHE_MAX_CANDIDATES {
        s
    } else {
        let all = seq![c] + forgotten(s, c.query@, c.fuzzy);
        if all.len() > QUERY_CACHE_MAX_ENTRIES {
            all.take(QUERY_CACHE_MAX_ENTRIES as int)
        } else {
            all
        }
    }
}

pub proof fn forgotten_at(s: Seq<CachedQuery>, query: Seq<char>, fuzzy: bool, i: int)
    requires
        0 <= i <= s.len(),
        forall|j: int| 0 <= j < i ==> !same_query(#[trigger] s[j], query, fuzzy),
        i < s.len() ==> same_query(s[i], query, fuzzy),
    ensures
        forgotten(s, query, fuzzy) == if i < s.len() {
            s.remove(i)
        } else {
            s
        },
    decreases s.len(),
{
    if s.len() > 0 {
        if i == 0 {
            assert(s.remove(0) =~= s.drop_first());
        } else {
            let rest = s.drop_first();
            assert forall|j: int| 0 <= j < i - 1 implies !same_query(
                #[trigger] rest[j],
                query,
                fuzzy,
            ) by {
                assert(rest[j] == s[j + 1]);
            }
            forgotten_at(rest, query, fuzzy, i - 1);
            if i < s.len() {
                assert(s.remove(i) =~= seq![s[0]] + rest.remove(i - 1));
            } else {
                assert(s =~= seq![s[0]] + rest);
            }
        }
    }
}

/// What forgetting leaves was there before, in the same order, and holds no
/// search for `query` if there was at most one.
proof fn forgotten_policy(s: Seq<CachedQuery>, query: Seq<char>, fuzzy: bool)
    requires
        within_policy(s),
    ensures
        within_policy(forgotten(s, query, fuzzy)),
        forgotten(s, query, fuzzy).len() <= s.len(),
        forall|j: int|
            0 <= j < forgotten(s, query, fuzzy).len() ==> !same_query(
                #[trigger] forgotten(s, query, fuzzy)[j],
                query,
                fuzzy,
            ),
{
    if exists|i: int| 0 <= i < s.len() && same_query(#[trigger] s[i], query, fuzzy) {
        let i = choose|i: int| 0 <= i < s.len() && same_query(#[trigger] s[i], query, fuzzy);
        assert forall|j: int| 0 <= j < i implies !same_query(#[trigger] s[j], query, fuzzy) by {
            assert(!same_query(s[j], s[i].query@, s[i].fuzzy));
        }
        forgotten_at(s, query, fuzzy, i);
        let r = s.remove(i);
        assert forall|j: int| 0 <= j < r.len() implies !same_query(
            #[trigger] r[j],
            query,
            fuzzy,
        ) by {
            if j >= i {
                assert(!same_query(s[i], s[j + 1].query@, s[j + 1].fuzzy));
            }
        }
        assert forall|a: int, b: int| 0 <= a < b < r.len() implies !same_query(
            #[trigger] r[a],
            (#[trigger] r[b]).query@,
            r[b].fuzzy,
        ) by {
        }
    } else {
        forgotten_at(s, query, fuzzy, s.len() as int);
    }
}

/// Remembering a search keeps to the rules.
pub proof fn remembered_policy(s: Seq<CachedQuery>, c: CachedQuery)
    requires
        within_policy(s),
    ensures
        within_policy(remembered(s, c)),
{
    forgotten_policy(s, c.query@, c.fuzzy);
    let f = forgotten(s, c.query@, c.fuzzy);
    let r = remembered(s, c);
    if !(c.query@.len() < QUERY_CACHE_MIN_LEN || c.candidates@.len()
        > QUERY_CACHE_MAX_CANDIDATES) {
        assert forall|a: int, b: int| 0 <= a < b < r.len() implies !same_query(
            #[trigger] r[a],
            (#[trigger] r[b]).query@,
            r[b].fuzzy,
        ) by {
            if a > 0 {
                assert(r[a] == f[a - 1]);
            }
        }
        assert forall|i: int| 0 <= i < r.len() implies (#[trigger] r[i]).query@.len()
            >= QUERY_CACHE_MIN_LEN && r[i].candidates@.len() <= QUERY_CACHE_MAX_CANDIDATES by {
            if i > 0 {
                assert(r[i] == f[i - 1]);
            }
        }
    }
}

/// A search that was just remembered is the one found for the same query: no
/// other search that can be narrowed is as long.
pub proof fn remembered_is_found(s: Seq<CachedQuery>, c: CachedQuery)
    requires
        within_policy(s),
        c.query@.len() >= QUERY_CACHE_MIN_LEN,
        c.candidates@.len() <= QUERY_CACHE_MAX_CANDIDATES,
    ensures
        is_longest(remembered(s, c), c.query@, c.fuzzy, 0),
        remembered(s, c)[0] == c,
        forall|i: int| #[trigger]
            is_longest(remembered(s, c), c.query@, c.fuzzy, i) ==> i == 0,
{
    remembered_policy(s, c);
    let r = remembered(s, c);
    assert(c.query@.subrange(0, c.query@.len() as int) =~= c.query@);
    assert forall|i: int| #[trigger] is_longest(r, c.query@, c.fuzzy, i) implies i == 0 by {
        if i > 0 {
            assert(narrows(r[0], c.query@, c.fuzzy));
        }
    }
}

} // verus!
