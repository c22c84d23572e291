//! What the desktop app and the command line do with the library: rows to
//! show, patches to the live index, the undo journal, the pace of a scan.

use crate::cancel::Cancel;
use crate::counts::{children, count_in_tally, tallies, ChildCounts};
use crate::file_path::FilePath;
use crate::index_model::{after_stat, holds_below, stat_touches, Found, IndexState};
use crate::indexer::{found_value, Index};
use crate::live_counts::{drains, LiveDirCounts};
use crate::path_laws::same_key_same_path;
use crate::paths::{levels_below, parts, path_key, same_path, under};
use crate::query::{
    clamped, filtered_rows, is_listed, known_score, list_dir, listed_rows, listing_len, score_of_key,
    search_hits, search_tree_inner, shown_count, tree_looks, Hit, ListOptions, QueryOptions,
    MAX_ROWS,
};
use crate::text::{chars_of, concat2, concat3, trim, trimmed};
use crate::tree::{has_place, height, walk, walk_tree};
use crate::types::FileEntry;
use crate::walk::ScanStats;
use vstd::prelude::*;

verus! {

// ---------------------------------------------------------------------
// Undo

/// Max delete-undo steps kept. Older entries fall off the journal (the files
/// stay in the Recycle Bin — only the shortcut forgets them).
pub const MAX_UNDO: usize = 100;

/// Undo journal for deletes: original paths moved to the Recycle Bin, newest
/// last.
pub struct UndoJournal {
    paths: Vec<FilePath>,
}

impl View for UndoJournal {
    type V = Seq<FilePath>;

    closed spec fn view(&self) -> Seq<FilePath> {
        self.paths@
    }
}

/// The journal with one more path; the oldest falls off a full one.
pub open spec fn journaled(s: Seq<FilePath>, p: FilePath) -> Seq<FilePath> {
    let t = s.push(p);
    if t.len() > MAX_UNDO {
        t.skip(t.len() - MAX_UNDO)
    } else {
        t
    }
}

impl UndoJournal {
    /// An empty journal.
    pub fn new() -> (r: UndoJournal)
        ensures
            r@ == Seq::<FilePath>::empty(),
    {
        UndoJournal { paths: Vec::new() }
    }

    /// Remembers a delete.
    pub fn push(&mut self, p: FilePath)
        ensures
            final(self)@ == journaled(old(self)@, p),
            final(self)@.len() <= MAX_UNDO,
    {
        self.paths.push(p);
        let n: usize = self.paths.len();
        if n > MAX_UNDO {
            let kept = self.paths.split_off(n - MAX_UNDO);
            self.paths = kept;
        }
    }

    /// Takes back the latest delete.
    pub fn pop(&mut self) -> (r: Option<FilePath>)
        ensures
            match r {
                Some(p) => old(self)@.len() > 0 && p == old(self)@.last() && final(self)@
                    == old(self)@.drop_last(),
                None => old(self)@.len() == 0 && final(self)@ == old(self)@,
            },
    {
        self.paths.pop()
    }
}

/// The last path remembered is the first to come back, and the journal never
/// holds more than a hundred.
pub proof fn undo_takes_back_the_latest(s: Seq<FilePath>, p: FilePath)
    ensures
        journaled(s, p).len() > 0,
        journaled(s, p).last() == p,
        journaled(s, p).len() <= 100,
        s.len() < 100 ==> journaled(s, p).drop_last() == s,
{
    if s.len() < 100 {
        assert(journaled(s, p).drop_last() =~= s);
    }
}

// ---------------------------------------------------------------------
// Patching the live index

/// The live index after a rename from `old` to `new`: the old entry and its
/// stale children leave, then what is at the new path is put in.
pub fn patch_renamed(index: &mut Index, old_path: &FilePath, new: &FilePath, found: Option<&Found>)
    requires
        old(index).wf(),
    ensures
        final(index).wf(),
        final(index)@ == after_stat(old(index)@.without(old_path@), new@, found_value(found)),
        old(index)@.complete() ==> final(index)@.complete(),
        if holds_below(old(index)@, old_path@) || stat_touches(
            old(index)@.without(old_path@),
            new@,
            found_value(found),
        ) {
            final(index).uncached()
        } else {
            *final(index) == *old(index)
        },
{
    index.remove_prefix(old_path);
    index.stat_and_upsert(new, found);
}

/// The live index without a path and everything below it.
pub open spec fn deleted(st: IndexState, path: Seq<char>) -> IndexState {
    st.removed(path_key(path)).without(path)
}

/// The live index after a delete.
pub fn patch_deleted(index: &mut Index, path: &FilePath)
    requires
        old(index).wf(),
    ensures
        final(index).wf(),
        final(index)@ == deleted(old(index)@, path@),
        old(index)@.complete() ==> final(index)@.complete(),
        if holds_below(old(index)@, path@) {
            final(index).uncached()
        } else {
            *final(index) == *old(index)
        },
{
    proof {
        known_is_below(index, path@);
    }
    index.remove(path);
    index.remove_prefix(path);
}

/// What is known lies at its own path.
proof fn known_is_below(index: &Index, path: Seq<char>)
    requires
        index.wf(),
    ensures
        index@.pos.contains_key(path_key(path)) ==> holds_below(index@, path),
{
    index.wf_facts();
    if index@.pos.contains_key(path_key(path)) {
        let i = index@.pos[path_key(path)] as int;
        same_key_same_path(index@.entries[i].path@, path);
        assert(parts(path) =~= parts(path).subrange(0, parts(path).len() as int));
    }
}

/// The live index before the path that a move leads to is looked at.
pub open spec fn moved_away(st: IndexState, old_path: Seq<char>, new: Seq<char>) -> IndexState {
    if same_path(new, old_path) {
        st
    } else {
        deleted(st, old_path)
    }
}

/// The live index after a move from `old` to `new`.
pub fn patch_moved(index: &mut Index, old_path: &FilePath, new: &FilePath, found: Option<&Found>)
    requires
        old(index).wf(),
    ensures
        final(index).wf(),
        final(index)@ == after_stat(
            moved_away(old(index)@, old_path@, new@),
            new@,
            found_value(found),
        ),
        old(index)@.complete() ==> final(index)@.complete(),
        if (!same_path(new@, old_path@) && holds_below(old(index)@, old_path@)) || stat_touches(
            moved_away(old(index)@, old_path@, new@),
            new@,
            found_value(found),
        ) {
            final(index).uncached()
        } else {
            *final(index) == *old(index)
        },
{
    proof {
        known_is_below(index, old_path@);
    }
    if !new.same(old_path) {
        index.remove(old_path);
        index.remove_prefix(old_path);
    }
    index.stat_and_upsert(new, found);
}

/// After a delete nothing at or below the path is left in a complete index,
/// and everything else is.
pub proof fn deleted_is_gone(st: IndexState, path: Seq<char>)
    requires
        st.complete(),
    ensures
        forall|e: FileEntry| #[trigger]
            deleted(st, path).entries.contains(e) <==> st.entries.contains(e) && !under(
                e.path@,
                path,
            ),
{
    let k = path_key(path);
    crate::index_model::vanished_law(st, path);
    if !st.pos.contains_key(k) {
        crate::index_model::without_law(st, path);
    }
}

// ---------------------------------------------------------------------
// Rows

/// A row of the list that the app shows.
#[derive(Debug)]
pub struct SearchHit {
    pub path: String,
    pub name: String,
    pub score: u32,
    pub is_dir: bool,
    pub size: u64,
    /// Direct children (dirs only). 0 otherwise.
    pub child_count: usize,
    /// Search mode only: true for real hits, false for ancestor context rows.
    pub matched: bool,
}

/// Whether the row shows this entry.
pub open spec fn shows(h: SearchHit, e: FileEntry, score: u32, matched: bool, count: nat) -> bool {
    &&& h.path@ == e.path@
    &&& h.name@ == e.name@
    &&& h.score == score
    &&& h.is_dir == e.is_dir
    &&& h.size == e.size
    &&& h.child_count == count
    &&& h.matched == matched
}

fn show(e: &FileEntry, score: u32, matched: bool, child_count: usize) -> (r: SearchHit)
    ensures
        shows(r, *e, score, matched, child_count as nat),
{
    SearchHit {
        path: e.path.text.clone(),
        name: e.name.clone(),
        score,
        is_dir: e.is_dir,
        size: e.size,
        child_count,
        matched,
    }
}

/// Whether the rows are a listing of `dir`.
pub open spec fn shows_listing(
    r: Seq<SearchHit>,
    entries: Seq<FileEntry>,
    dir: Seq<char>,
    opts: ListOptions,
) -> bool {
    let rows = listed_rows(entries, dir, opts);
    &&& r.len() == listing_len(entries, dir, opts)
    &&& forall|i: int| 0 <= i < r.len() ==> shows_listed(#[trigger] r[i], entries, rows[i])
}

/// Whether the row of a listing shows the entry at `at`.
pub open spec fn shows_listed(h: SearchHit, entries: Seq<FileEntry>, at: usize) -> bool {
    let e = entries[at as int];
    at < entries.len() && shows(h, e, 0, false, shown_count(entries, e))
}

/// Whether the row of a filtered tree shows the entry at `at`.
pub open spec fn shows_found(
    h: SearchHit,
    entries: Seq<FileEntry>,
    hits: Seq<Hit>,
    at: usize,
) -> bool {
    let e = entries[at as int];
    let s = score_of_key(entries, hits, e.key());
    at < entries.len() && shows(h, e, known_score(s), s is Some, shown_count(entries, e))
}

/// Whether the rows are a filtered tree below `dir`.
pub open spec fn shows_search(
    r: Seq<SearchHit>,
    entries: Seq<FileEntry>,
    query: Seq<char>,
    opts: QueryOptions,
    dir: Seq<char>,
) -> bool {
    let hits = search_hits(entries, query, opts);
    let rows = filtered_rows(entries, hits, dir);
    &&& r.len() == rows.len()
    &&& forall|i: int|
        0 <= i < r.len() ==> shows_found(#[trigger] r[i], entries, hits, rows[i])
}

fn show_listing(index: &Index, dir: &FilePath, opts: &ListOptions) -> (r: Vec<SearchHit>)
    ensures
        shows_listing(r@, index@.entries, dir@, *opts),
{
    let kids = list_dir(index, dir, opts);
    let mut out: Vec<SearchHit> = Vec::new();
    let ghost entries = index@.entries;
    let ghost rows = listed_rows(entries, dir@, *opts);
    for i in 0..kids.len()
        invariant
            entries == index@.entries,
            rows == listed_rows(entries, dir@, *opts),
            forall|i: int|
                0 <= i < kids@.len() ==> is_listed(#[trigger] kids@[i], entries, rows[i]),
            out@.len() == i,
            forall|j: int|
                0 <= j < i ==> shows_listed(#[trigger] out@[j], entries, rows[j]),
    {
        let l = kids[i];
        out.push(show(l.entry, 0, false, l.child_count));
    }
    out
}

/// How the app lists a folder for an empty query.
pub open spec fn browse_options(limit: Option<usize>, depth: Option<usize>) -> ListOptions {
    ListOptions {
        limit: row_limit(limit, 200),
        dirs_first: true,
        max_depth: Some(
            clamped(
                match depth {
                    Some(d) => d as int,
                    None => 1,
                },
                1,
                32,
            ) as usize,
        ),
    }
}

/// The number of rows that the app asks for.
pub open spec fn row_limit(limit: Option<usize>, default: usize) -> usize {
    clamped(
        match limit {
            Some(n) => n as int,
            None => default as int,
        },
        1,
        5000,
    ) as usize
}

fn pick(n: Option<usize>, default: usize, high: usize) -> (r: usize)
    requires
        1 <= high,
    ensures
        r == clamped(
            match n {
                Some(n) => n as int,
                None => default as int,
            },
            1,
            high as int,
        ),
{
    let n: usize = match n {
        Some(n) => n,
        None => default,
    };
    if n < 1 {
        1
    } else if n > high {
        high
    } else {
        n
    }
}

/// How the app searches.
pub open spec fn tree_options(limit: Option<usize>, fuzzy: Option<bool>) -> QueryOptions {
    QueryOptions {
        limit: row_limit(limit, 200),
        fuzzy: match fuzzy {
            Some(f) => f,
            None => true,
        },
    }
}

/// The rows for a query below the scanned root; nothing if told to give up.
/// An empty query lists the root (browse mode); any other is a filtered-tree
/// search. Before a root is scanned there are no rows.
pub fn search_index(
    index: &Index,
    root: Option<&FilePath>,
    query: &str,
    limit: Option<usize>,
    fuzzy: Option<bool>,
    depth: Option<usize>,
    cancel: &Cancel,
) -> (r: Option<Vec<SearchHit>>)
    ensures
        match root {
            None => r matches Some(v) && v@.len() == 0,
            Some(dir) => if trimmed(query@).len() == 0 {
                r matches Some(v) && shows_listing(
                    v@,
                    index@.entries,
                    dir@,
                    browse_options(limit, depth),
                )
            } else {
                let opts = tree_options(limit, fuzzy);
                match r {
                    Some(v) => shows_search(v@, index@.entries, query@, opts, dir@)
                        && cancel.clear_until(tree_looks(index@.entries, query@, opts)),
                    None => cancel.may_stop(tree_looks(index@.entries, query@, opts)),
                }
            },
        },
{
    let dir = match root {
        Some(d) => d,
        None => {
            return Some(Vec::new());
        },
    };
    let rows: usize = pick(limit, 200, 5000);
    let text = trim(query);
    if chars_of(text.as_str()).len() == 0 {
        let opts = ListOptions {
            limit: rows,
            dirs_first: true,
            max_depth: Some(pick(depth, 1, 32)),
        };
        return Some(show_listing(index, dir, &opts));
    }
    let opts = QueryOptions {
        limit: rows,
        fuzzy: match fuzzy {
            Some(f) => f,
            None => true,
        },
    };
    let found = match search_tree_inner(index, dir, query, &opts, cancel) {
        Some(v) => v,
        None => {
            return None;
        },
    };
    let ghost entries = index@.entries;
    let ghost hits = search_hits(entries, query@, opts);
    let ghost order = filtered_rows(entries, hits, dir@);
    let mut out: Vec<SearchHit> = Vec::new();
    for i in 0..found.len()
        invariant
            crate::query::shows_tree(found@, entries, hits, dir@),
            order == filtered_rows(entries, hits, dir@),
            out@.len() == i,
            forall|j: int|
                0 <= j < i ==> shows_found(#[trigger] out@[j], entries, hits, order[j]),
    {
        let t = found[i];
        out.push(show(t.entry, t.score, t.matched, t.child_count));
    }
    Some(out)
}

/// Lists direct children of any indexed directory (tree expand).
/// `path` need not be the scanned root — used to splice one layer below an
/// expanded row without re-scanning or changing the current root.
pub fn list_children(index: &Index, dir: &FilePath, limit: Option<usize>) -> (r: Vec<SearchHit>)
    ensures
        shows_listing(
            r@,
            index@.entries,
            dir@,
            ListOptions {
                limit: row_limit(limit, 2000),
                dirs_first: true,
                max_depth: Some(1usize),
            },
        ),
{
    let opts = ListOptions {
        limit: pick(limit, 2000, 5000),
        dirs_first: true,
        max_depth: Some(1),
    };
    show_listing(index, dir, &opts)
}

// ---------------------------------------------------------------------
// The pace of a scan

/// How often progress goes to the UI at most.
pub const PROGRESS_EVERY_MS: u64 = 150;

/// How often staged entries are merged into the live index at most. Merging
/// contends with search, so it is done rarely and in bulk.
pub const MERGE_EVERY_MS: u64 = 600;

/// How far a scan has come, as the app shows it.
pub ghost struct PaceState {
    pub files: u64,
    pub dirs: u64,
    pub last_merge: u64,
    pub last_progress: Option<u64>,
    /// Entries that are not in the live index yet.
    pub staged: Seq<FileEntry>,
    /// All entries that were taken in.
    pub walked: Seq<FileEntry>,
    /// The entries that had been taken in when counts were last shown.
    pub shown: Seq<FileEntry>,
}

/// Whether so many milliseconds have passed.
pub open spec fn passed(since: u64, now: u64, ms: u64) -> bool {
    now - since >= ms
}

/// Whether progress is shown now: the first time, and after a while.
pub open spec fn progress_due(s: PaceState, now: u64) -> bool {
    s.last_progress matches Some(t) ==> passed(t, now, PROGRESS_EVERY_MS)
}

/// After progress was reported.
pub open spec fn after_progress(s: PaceState, files: u64, dirs: u64, now: u64) -> PaceState {
    if progress_due(s, now) {
        PaceState { files, dirs, last_progress: Some(now), shown: s.walked, ..s }
    } else {
        PaceState { files, dirs, ..s }
    }
}

/// Whether a batch is taken in: an empty one is nothing, and one of a scan
/// that a newer one has overtaken is ignored.
pub open spec fn batch_counts(batch: Seq<FileEntry>, current: bool) -> bool {
    batch.len() > 0 && current
}

/// After a batch was handed on.
pub open spec fn after_batch(
    s: PaceState,
    batch: Seq<FileEntry>,
    now: u64,
    current: bool,
) -> PaceState {
    if !batch_counts(batch, current) {
        s
    } else if passed(s.last_merge, now, MERGE_EVERY_MS) {
        PaceState {
            staged: Seq::empty(),
            walked: s.walked + batch,
            last_merge: now,
            ..s
        }
    } else {
        PaceState { staged: s.staged + batch, walked: s.walked + batch, ..s }
    }
}

/// Paces what a scan sends to the live index and to the UI.
pub struct ScanPace {
    files: u64,
    dirs: u64,
    last_merge: u64,
    last_progress: Option<u64>,
    staged: Vec<FileEntry>,
    live: LiveDirCounts,
}

impl View for ScanPace {
    type V = PaceState;

    closed spec fn view(&self) -> PaceState {
        PaceState {
            files: self.files,
            dirs: self.dirs,
            last_merge: self.last_merge,
            last_progress: self.last_progress,
            staged: self.staged@,
            walked: self.live.walked(),
            shown: self.live.handed_out(),
        }
    }
}

impl ScanPace {
    /// The live counts are right.
    pub closed spec fn wf(&self) -> bool {
        self.live.wf()
    }

    /// At the start of a walk.
    pub fn begin(now: u64) -> (r: ScanPace)
        ensures
            r.wf(),
            r@ == (PaceState {
                files: 0,
                dirs: 0,
                last_merge: now,
                last_progress: None,
                staged: Seq::empty(),
                walked: Seq::empty(),
                shown: Seq::empty(),
            }),
    {
        ScanPace {
            files: 0,
            dirs: 0,
            last_merge: now,
            last_progress: None,
            staged: Vec::new(),
            live: LiveDirCounts::new(),
        }
    }

    /// Takes in progress. Gives the counts of the folders that changed since
    /// the last time, when it is time to show them: only dirs that changed;
    /// cumulative values, so a skipped tick loses nothing.
    pub fn progress(&mut self, files: u64, dirs: u64, now: u64) -> (r: Option<Vec<(FilePath, u64)>>)
        requires
            old(self).wf(),
        ensures
            final(self).wf(),
            final(self)@ == after_progress(old(self)@, files, dirs, now),
            r is Some <==> progress_due(old(self)@, now),
            r matches Some(v) ==> {
                &&& forall|i: int|
                    0 <= i < v@.len() ==> {
                        let k = path_key((#[trigger] v@[i]).0@);
                        &&& v@[i].1 == children(old(self)@.walked, None, k)
                        &&& children(old(self)@.walked, None, k) > children(
                            old(self)@.shown,
                            None,
                            k,
                        )
                    }
                &&& forall|i: int, j: int|
                    0 <= i < j < v@.len() ==> path_key((#[trigger] v@[i]).0@) != path_key(
                        (#[trigger] v@[j]).0@,
                    )
                &&& forall|k: Seq<char>|
                    children(old(self)@.walked, None, k) > #[trigger] children(
                        old(self)@.shown,
                        None,
                        k,
                    ) ==> drains(v@, k)
            },
    {
        self.files = files;
        self.dirs = dirs;
        let due = match self.last_progress {
            Some(t) => now >= t && now - t >= PROGRESS_EVERY_MS,
            None => true,
        };
        if due {
            self.last_progress = Some(now);
            Some(self.live.drain_changed())
        } else {
            None
        }
    }

    /// Takes in a batch. Gives the staged entries, when it is time to merge
    /// them into the live index. `current` says that no newer scan has
    /// overtaken this one and that it was not cancelled.
    pub fn batch(&mut self, batch: &[FileEntry], now: u64, current: bool) -> (r: Option<
        Vec<FileEntry>,
    >)
        requires
            old(self).wf(),
            old(self)@.walked.len() + batch@.len() <= u64::MAX,
        ensures
            final(self).wf(),
            final(self)@ == after_batch(old(self)@, batch@, now, current),
            r is Some <==> batch_counts(batch@, current) && passed(
                old(self)@.last_merge,
                now,
                MERGE_EVERY_MS,
            ),
            r matches Some(v) ==> v@ == old(self)@.staged + batch@,
    {
        if batch.len() == 0 || !current {
            return None;
        }
        let ghost was = self.staged@;
        for i in 0..batch.len()
            invariant
                self.live == old(self).live,
                self.files == old(self).files,
                self.dirs == old(self).dirs,
                self.last_merge == old(self).last_merge,
                self.last_progress == old(self).last_progress,
                was == old(self).staged@,
                self.staged@ =~= was + batch@.take(i as int),
        {
            self.staged.push(batch[i].clone());
        }
        assert(batch@.take(batch@.len() as int) =~= batch@);
        self.live.add_batch(batch);
        if now >= self.last_merge && now - self.last_merge >= MERGE_EVERY_MS {
            self.last_merge = now;
            let mut out: Vec<FileEntry> = Vec::new();
            out.append(&mut self.staged);
            Some(out)
        } else {
            None
        }
    }

    /// The files and folders counted so far.
    pub fn totals(&self) -> (r: (u64, u64))
        ensures
            r.0 == self@.files,
            r.1 == self@.dirs,
    {
        (self.files, self.dirs)
    }
}

/// What a finished scan comes to.
#[derive(Debug, Clone, Copy)]
pub struct ScanDone {
    pub len: usize,
    pub files: u64,
    pub dirs: u64,
    pub cancelled: bool,
}

/// How a scan ends. Only the latest requested scan that was not cancelled is
/// published — a newer path (or an explicit cancel) must never be overwritten
/// by stale data.
pub fn scan_done(len: usize, stats: &ScanStats, latest: bool) -> (r: ScanDone)
    ensures
        r.cancelled == (stats.cancelled || !latest),
        r.cancelled ==> r.len == 0 && r.files == 0 && r.dirs == 0,
        !r.cancelled ==> r.len == len && r.files == stats.files && r.dirs == stats.dirs,
{
    if stats.cancelled || !latest {
        ScanDone { len: 0, files: 0, dirs: 0, cancelled: true }
    } else {
        ScanDone { len, files: stats.files, dirs: stats.dirs, cancelled: false }
    }
}

/// A batch that is taken in is neither lost nor handed on twice: it is part
/// of what is merged now or of what stays staged.
pub proof fn batches_reach_the_index(
    s: PaceState,
    batch: Seq<FileEntry>,
    now: u64,
    merged: Seq<FileEntry>,
)
    requires
        s.walked == merged + s.staged,
        batch.len() > 0,
    ensures
        ({
            let t = after_batch(s, batch, now, true);
            let m = if passed(s.last_merge, now, MERGE_EVERY_MS) {
                merged + (s.staged + batch)
            } else {
                merged
            };
            t.walked == m + t.staged
        }),
{
    let t = after_batch(s, batch, now, true);
    if passed(s.last_merge, now, MERGE_EVERY_MS) {
        assert(t.walked =~= merged + (s.staged + batch) + t.staged);
    } else {
        assert(t.walked =~= merged + t.staged);
    }
}

// ---------------------------------------------------------------------
// Opening, pasting, system information

/// Why a path is not scanned, opened, copied or pasted into.
#[derive(Debug, Clone, Copy, PartialEq, Eq, Structural)]
pub enum Refusal {
    /// It does not exist.
    Missing,
    /// It no longer exists.
    Gone,
    /// It is a folder, which is navigated to.
    IsFolder,
    /// It is no folder.
    NotAFolder,
    /// Nothing was copied.
    NothingCopied,
}

/// Whether a path is scanned.
pub fn scan_dir(exists: bool) -> (r: Result<(), Refusal>)
    ensures
        r == (if exists {
            Ok(())
        } else {
            Err(Refusal::Missing)
        }),
{
    if exists {
        Ok(())
    } else {
        Err(Refusal::Missing)
    }
}

/// Whether a path is put on the clipboard.
pub fn copy_entry(exists: bool) -> (r: Result<(), Refusal>)
    ensures
        r == (if exists {
            Ok(())
        } else {
            Err(Refusal::Gone)
        }),
{
    if exists {
        Ok(())
    } else {
        Err(Refusal::Gone)
    }
}

/// Whether a file is opened with its default application.
pub fn open_path(exists: bool, is_dir: bool) -> (r: Result<(), Refusal>)
    ensures
        r == (if !exists {
            Err(Refusal::Gone)
        } else if is_dir {
            Err(Refusal::IsFolder)
        } else {
            Ok(())
        }),
{
    if !exists {
        Err(Refusal::Gone)
    } else if is_dir {
        Err(Refusal::IsFolder)
    } else {
        Ok(())
    }
}

/// Whether the copied paths can be pasted into a folder.
pub fn paste_entry(dir_is_dir: bool, copied: usize) -> (r: Result<(), Refusal>)
    ensures
        r == (if !dir_is_dir {
            Err(Refusal::NotAFolder)
        } else if copied == 0 {
            Err(Refusal::NothingCopied)
        } else {
            Ok(())
        }),
{
    if !dir_is_dir {
        Err(Refusal::NotAFolder)
    } else if copied == 0 {
        Err(Refusal::NothingCopied)
    } else {
        Ok(())
    }
}

/// What the UI shows for a refusal.
pub open spec fn refusal_message(e: Refusal, path: Seq<char>) -> Seq<char> {
    match e {
        Refusal::Missing => "path does not exist: "@ + path,
        Refusal::Gone => "no longer exists: "@ + path,
        Refusal::IsFolder => "use navigation for directories"@,
        Refusal::NotAFolder => "not a folder: "@ + path,
        Refusal::NothingCopied => "clipboard is empty"@,
    }
}

impl Refusal {
    /// What the UI shows for the refusal.
    pub fn message(&self, path: &FilePath) -> (r: String)
        ensures
            r@ == refusal_message(*self, path@),
    {
        match self {
            Refusal::Missing => concat2("path does not exist: ", path.as_str()),
            Refusal::Gone => concat2("no longer exists: ", path.as_str()),
            Refusal::IsFolder => String::from_str("use navigation for directories"),
            Refusal::NotAFolder => concat2("not a folder: ", path.as_str()),
            Refusal::NothingCopied => String::from_str("clipboard is empty"),
        }
    }
}

/// The known folders, a line each.
pub open spec fn folder_lines(folders: Seq<(String, FilePath)>) -> Seq<char>
    decreases folders.len(),
{
    if folders.len() == 0 {
        Seq::empty()
    } else {
        let (name, path) = folders.last();
        folder_lines(folders.drop_last()) + (name@ + ": "@ + path@ + "\n"@)
    }
}

/// What is shown of the system: the known folders, the volume, the journal.
pub fn sysinfo(folders: &Vec<(String, FilePath)>, volume: &str, journal: &str) -> (r: String)
    ensures
        r@ == folder_lines(folders@) + volume@ + "\n"@ + journal@,
{
    let mut out = String::new();
    for i in 0..folders.len()
        invariant
            out@ =~= folder_lines(folders@.take(i as int)),
    {
        proof {
            assert(folders@.take(i + 1).drop_last() =~= folders@.take(i as int));
        }
        let head = concat3(folders[i].0.as_str(), ": ", folders[i].1.as_str());
        let line = concat2(head.as_str(), "\n");
        out.append(line.as_str());
    }
    assert(folders@.take(folders@.len() as int) =~= folders@);
    out.append(volume);
    out.append("\n");
    out.append(journal);
    out
}

// ---------------------------------------------------------------------
// Browsing from the command line

/// A row of a listing on the command line.
#[derive(Debug, Clone, Copy)]
pub struct BrowseRow {
    /// The position of the entry.
    pub at: usize,
    /// How many levels below the listed folder it is.
    pub level: usize,
    /// Its direct children (0 for files); nothing for folders at the depth
    /// boundary, whose children were not scanned and are counted on the disk.
    pub count: Option<usize>,
}

/// All entries but the listed folder itself.
pub open spec fn browsed_set(entries: Seq<FileEntry>, dir: Seq<char>) -> Set<usize> {
    Set::new(|i: usize| i < entries.len() && !same_path(entries[i as int].path@, dir))
}

/// The positions of the rows, in the order of a tree, folders first.
pub open spec fn browsed(entries: Seq<FileEntry>, dir: Seq<char>) -> Seq<usize> {
    walk(entries, browsed_set(entries, dir), true, path_key(dir), height(entries))
}

/// The entries at these positions.
pub open spec fn entries_at(entries: Seq<FileEntry>, at: Seq<usize>) -> Seq<FileEntry> {
    Seq::new(at.len(), |i: int| entries[at[i] as int])
}

/// How many levels below `dir` a row is shown: at least one.
pub open spec fn shown_level(path: Seq<char>, dir: Seq<char>) -> int {
    if under(path, dir) && levels_below(path, dir) > 1 {
        levels_below(path, dir)
    } else {
        1
    }
}

/// Whether the row shows the entry at `at` among the listed ones.
pub open spec fn is_browse_row(
    row: BrowseRow,
    entries: Seq<FileEntry>,
    dir: Seq<char>,
    max: usize,
    at: usize,
) -> bool {
    let e = entries[at as int];
    &&& row.at == at
    &&& at < entries.len()
    &&& row.level == shown_level(e.path@, dir)
    &&& match row.count {
        Some(n) => n == if e.is_dir {
            children(entries_at(entries, browsed(entries, dir)), None, e.key())
        } else {
            0
        } && !(e.is_dir && row.level == max),
        None => e.is_dir && row.level == max,
    }
}

/// Browse mode: the scanned entries below `dir` as a tree. `max` is the depth
/// to which was scanned.
pub fn browse_rows(entries: &Vec<FileEntry>, dir: &FilePath, max: usize) -> (r: Vec<BrowseRow>)
    ensures
        r@.len() == browsed(entries@, dir@).len(),
        forall|i: int|
            0 <= i < r@.len() ==> is_browse_row(
                #[trigger] r@[i],
                entries@,
                dir@,
                max,
                browsed(entries@, dir@)[i],
            ),
{
    let ghost set = browsed_set(entries@, dir@);
    let mut items: Vec<usize> = Vec::new();
    for i in 0..entries.len()
        invariant
            set == browsed_set(entries@, dir@),
            items@.no_duplicates(),
            forall|x: usize| #[trigger] items@.contains(x) <==> x < i && set.contains(x),
            forall|j: int| 0 <= j < items@.len() ==> #[trigger] items@[j] < i,
    {
        let ghost was = items@;
        let other = !entries[i].path.same(dir);
        if other {
            items.push(i);
        }
        assert forall|x: usize| #[trigger] items@.contains(x) <==> x < i + 1 && set.contains(
            x,
        ) by {
            vstd::seq_lib::lemma_seq_contains_after_push(was, i, x);
        }
    }
    assert(items@.to_set() =~= set) by {
        assert forall|x: usize| items@.to_set().contains(x) <==> set.contains(x) by {
            assert(items@.contains(x) <==> x < entries@.len() && set.contains(x));
        }
    }
    let order = walk_tree(entries, &items, dir, true);
    let ghost rows = browsed(entries@, dir@);
    let mut listed: Vec<FileEntry> = Vec::new();
    for i in 0..order.len()
        invariant
            rows == order@,
            forall|i: int| 0 <= i < order@.len() ==> has_place(entries@, set, #[trigger] order@[i]),
            listed@ =~= entries_at(entries@, rows).take(i as int),
    {
        listed.push(entries[order[i]].clone());
    }
    let counts = ChildCounts::of(&listed, None);
    let mut out: Vec<BrowseRow> = Vec::new();
    for i in 0..order.len()
        invariant
            rows == order@,
            rows == browsed(entries@, dir@),
            listed@ == entries_at(entries@, rows),
            tallies(counts@, listed@, None),
            forall|i: int| 0 <= i < order@.len() ==> has_place(entries@, set, #[trigger] order@[i]),
            out@.len() == i,
            forall|j: int|
                0 <= j < i ==> is_browse_row(#[trigger] out@[j], entries@, dir@, max, rows[j]),
    {
        let at: usize = order[i];
        let e = &entries[at];
        let level: usize = match e.path.levels_below(dir) {
            Some(n) => if n > 1 {
                n
            } else {
                1
            },
            None => 1,
        };
        let count: Option<usize> = if e.is_dir {
            if level == max {
                None
            } else {
                proof {
                    count_in_tally(counts@, listed@, None, e.key());
                }
                Some(counts.get(&e.path))
            }
        } else {
            Some(0)
        };
        out.push(BrowseRow { at, level, count });
    }
    out
}

} // verus!
