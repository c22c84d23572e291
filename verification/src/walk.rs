//! One walk over a tree: what it finds, what it reports on the way, and when
//! it stops.

use crate::bytes::as_signed;
use crate::file_path::FilePath;
use crate::types::{entry_at, Entry, FileEntry};
use vstd::prelude::*;

verus! {

/// What a scan counted.
#[derive(Debug, Clone, Copy)]
pub struct ScanStats {
    pub files: u64,
    pub dirs: u64,
    pub errors: u64,
    pub skipped: u64,
    pub duration_ms: u128,
    pub files_per_sec: u64,
    /// True when a cancellation flag stopped the walk early.
    pub cancelled: bool,
}

impl Default for ScanStats {
    fn default() -> (r: ScanStats)
        ensures
            r == no_stats(),
    {
        ScanStats {
            files: 0,
            dirs: 0,
            errors: 0,
            skipped: 0,
            duration_ms: 0,
            files_per_sec: 0,
            cancelled: false,
        }
    }
}

/// Nothing counted.
pub open spec fn no_stats() -> ScanStats {
    ScanStats {
        files: 0,
        dirs: 0,
        errors: 0,
        skipped: 0,
        duration_ms: 0,
        files_per_sec: 0,
        cancelled: false,
    }
}

/// What the file system says of one file or folder, links not followed.
#[derive(Debug, Clone, Copy)]
pub struct Meta {
    pub is_dir: bool,
    pub len: u64,
    /// Milliseconds since 1970, nothing if unknown or before.
    pub modified_ms: Option<u128>,
}

/// The size that an entry shows: folders have none.
pub open spec fn shown_size(m: Meta) -> u64 {
    if m.is_dir {
        0
    } else {
        m.len
    }
}

/// The time that an entry shows: the low 64 bits, 0 if unknown.
pub open spec fn shown_mtime(m: Meta) -> i64 {
    match m.modified_ms {
        Some(n) => as_signed(n as int % 0x1_0000_0000_0000_0000) as i64,
        None => 0,
    }
}

fn size_of_meta(m: &Meta) -> (r: u64)
    ensures
        r == shown_size(*m),
{
    if m.is_dir {
        0
    } else {
        m.len
    }
}

fn mtime_of_meta(m: &Meta) -> (r: i64)
    ensures
        r == shown_mtime(*m),
{
    match m.modified_ms {
        Some(n) => {
            let bits: u64 = (n % 0x1_0000_0000_0000_0000) as u64;
            if bits >= 0x8000_0000_0000_0000 {
                -((0xffff_ffff_ffff_ffff - bits) as i64) - 1
            } else {
                bits as i64
            }
        },
        None => 0,
    }
}

/// The attributes that the system reports, 0 where it reports none.
pub fn known_attributes(raw: u32) -> (r: u32)
    ensures
        r == if raw == u32::MAX {
            0u32
        } else {
            raw
        },
{
    if raw == u32::MAX {
        0
    } else {
        raw
    }
}

/// The entry of a single path, from what the file system says of it. Returns
/// None if deleted/inaccessible.
pub fn stat_one(path: &FilePath, meta: Option<Meta>, attributes: u32) -> (r: Option<FileEntry>)
    ensures
        match r {
            Some(e) => meta matches Some(m) && e@ == entry_at(
                path@,
                m.is_dir,
                shown_size(m),
                shown_mtime(m),
                attributes,
            ),
            None => meta is None,
        },
{
    match meta {
        Some(m) => Some(
            FileEntry::from_path(
                path.clone(),
                m.is_dir,
                size_of_meta(&m),
                mtime_of_meta(&m),
                attributes,
            ),
        ),
        None => None,
    }
}

// ---------------------------------------------------------------------
// The walk

/// What the walk comes across.
#[derive(Debug)]
pub enum WalkItem {
    /// A file or folder, with what is known of it.
    Found { path: FilePath, is_dir: bool, meta: Option<Meta> },
    /// Something that could not be read.
    Failed,
}

/// The entry that the walk makes of what it comes across. The attributes are
/// not looked up in bulk.
pub open spec fn item_entry(item: WalkItem) -> Option<Entry> {
    match item {
        WalkItem::Found { path, is_dir, meta: Some(m) } => Some(
            entry_at(path@, is_dir, shown_size(m), shown_mtime(m), 0),
        ),
        _ => None,
    }
}

/// Items between two looks at the cancel flag.
pub const CHECK_EVERY: u32 = 512;

/// Entries per streaming batch. Large enough that batches are infrequent — a
/// 500k-entry tree produces ~60, not hundreds.
pub const STREAM_BATCH: usize = 8192;

/// How far a walk has come.
pub ghost struct ScanState {
    pub out: Seq<Entry>,
    pub files: int,
    pub dirs: int,
    pub errors: int,
    /// Items since the last look at the cancel flag.
    pub since: int,
    pub cancelled: bool,
}

/// A walk that has not begun, or was cancelled before it began.
pub open spec fn started(cancelled: bool) -> ScanState {
    ScanState { out: Seq::empty(), files: 0, dirs: 0, errors: 0, since: 0, cancelled }
}

/// Whether the next item is preceded by a look at the cancel flag.
pub open spec fn check_due(s: ScanState) -> bool {
    s.since + 1 >= CHECK_EVERY
}

/// The walk after one more item; it stops there if the look before the item
/// says so.
pub open spec fn stepped(s: ScanState, item: WalkItem, cancelled: bool) -> ScanState {
    let since = if check_due(s) {
        0
    } else {
        s.since + 1
    };
    if check_due(s) && cancelled {
        ScanState { since, cancelled: true, ..s }
    } else {
        match item_entry(item) {
            Some(e) => ScanState {
                out: s.out.push(e),
                files: if e.is_dir {
                    s.files
                } else {
                    s.files + 1
                },
                dirs: if e.is_dir {
                    s.dirs + 1
                } else {
                    s.dirs
                },
                since,
                ..s
            },
            None => ScanState { errors: s.errors + 1, since, ..s },
        }
    }
}

/// A call that the walk makes on the way.
#[derive(Debug, Clone, Copy, PartialEq, Eq, Structural)]
pub enum ScanCall {
    /// Files and folders so far.
    Progress(u64, u64),
    /// New entries: from the first position up to the second.
    Batch(usize, usize),
}

/// The progress that is reported before an item.
pub open spec fn progress_call(s: ScanState, cancelled: bool, progress: bool) -> Seq<ScanCall> {
    if progress && check_due(s) && !cancelled {
        seq![ScanCall::Progress(s.files as u64, s.dirs as u64)]
    } else {
        Seq::empty()
    }
}

/// The batch that is handed on after an item: the entries since the last one,
/// whenever their number is a multiple of the batch size.
pub open spec fn batch_call(
    s: ScanState,
    item: WalkItem,
    cancelled: bool,
    batch: Option<usize>,
) -> Seq<ScanCall> {
    let t = stepped(s, item, cancelled);
    match batch {
        Some(b) => if t.out.len() > s.out.len() && t.out.len() % (b as nat) == 0 {
            seq![ScanCall::Batch((t.out.len() - b) as usize, t.out.len() as usize)]
        } else {
            Seq::empty()
        },
        None => Seq::empty(),
    }
}

/// The batch that is handed on at the end: what the others left over, or
/// nothing at all if there was nothing.
pub open spec fn flush_call(len: int, batch: Option<usize>) -> Seq<ScanCall> {
    match batch {
        Some(b) => {
            let done = (len / (b as int)) * b;
            if done < len {
                seq![ScanCall::Batch(done as usize, len as usize)]
            } else if len == 0 {
                seq![ScanCall::Batch(0, 0)]
            } else {
                Seq::empty()
            }
        },
        None => Seq::empty(),
    }
}

/// What the walk has to do after one more item.
#[derive(Debug, Clone, Copy)]
pub struct Step {
    /// Whether the walk stops here.
    pub stop: bool,
    /// Files and folders to report before the item.
    pub progress: Option<(u64, u64)>,
    /// Positions of the entries to hand on after the item.
    pub batch: Option<(usize, usize)>,
}

/// A walk under way.
pub struct Scan {
    pub out: Vec<FileEntry>,
    pub stats: ScanStats,
    since_check: u32,
    progress: bool,
    batch: Option<usize>,
}

/// The values that entries hold.
pub open spec fn entry_views(v: Seq<FileEntry>) -> Seq<Entry> {
    Seq::new(v.len(), |i: int| v[i]@)
}

impl View for Scan {
    type V = ScanState;

    closed spec fn view(&self) -> ScanState {
        ScanState {
            out: entry_views(self.out@),
            files: self.stats.files as int,
            dirs: self.stats.dirs as int,
            errors: self.stats.errors as int,
            since: self.since_check as int,
            cancelled: self.stats.cancelled,
        }
    }
}

impl Scan {
    /// Every entry is counted, the batch size is not zero, and the rest of
    /// the counts is still open.
    pub closed spec fn wf(&self) -> bool {
        &&& self.stats.files + self.stats.dirs == self.out@.len()
        &&& self.since_check < CHECK_EVERY
        &&& self.batch matches Some(b) ==> b > 0
        &&& self.stats.skipped == 0
        &&& self.stats.duration_ms == 0
        &&& self.stats.files_per_sec == 0
    }

    /// Whether progress is reported.
    pub closed spec fn reports(&self) -> bool {
        self.progress
    }

    /// The batch size, if batches are handed on.
    pub closed spec fn batch_size(&self) -> Option<usize> {
        self.batch
    }

    /// The entries found, as values.
    pub closed spec fn found(&self) -> Seq<FileEntry> {
        self.out@
    }

    /// Begins a walk, unless the flag is up already.
    pub fn begin(cancelled: bool, progress: bool, batch: Option<usize>) -> (r: (Scan, Step))
        requires
            batch matches Some(b) ==> b > 0,
        ensures
            r.0.wf(),
            r.0@ == started(cancelled),
            r.0.reports() == progress,
            r.0.batch_size() == batch,
            r.1.stop == cancelled,
            r.1.progress == if progress && !cancelled {
                Some((0u64, 0u64))
            } else {
                None
            },
            r.1.batch is None,
    {
        let mut stats = ScanStats::default();
        stats.cancelled = cancelled;
        let s = Scan { out: Vec::new(), stats, since_check: 0, progress, batch };
        assert(s@.out =~= Seq::empty());
        let first = Step {
            stop: cancelled,
            progress: if progress && !cancelled {
                Some((0, 0))
            } else {
                None
            },
            batch: None,
        };
        (s, first)
    }

    /// Takes in one more item. `cancelled` is what the flag says; it matters
    /// only when a look is due.
    pub fn step(&mut self, item: &WalkItem, cancelled: bool) -> (r: Step)
        requires
            old(self).wf(),
            !old(self)@.cancelled,
            old(self)@.errors < u64::MAX,
        ensures
            final(self).wf(),
            final(self)@ == stepped(old(self)@, *item, cancelled),
            final(self).reports() == old(self).reports(),
            final(self).batch_size() == old(self).batch_size(),
            r.stop == final(self)@.cancelled,
            (match r.progress {
                Some((f, d)) => seq![ScanCall::Progress(f, d)],
                None => Seq::empty(),
            }) == progress_call(old(self)@, cancelled, old(self).reports()),
            (match r.batch {
                Some((a, b)) => seq![ScanCall::Batch(a, b)],
                None => Seq::empty(),
            }) == batch_call(old(self)@, *item, cancelled, old(self).batch_size()),
            r.batch matches Some((a, b)) ==> a <= b && b == final(self)@.out.len(),
    {
        self.since_check = self.since_check + 1;
        let mut progress: Option<(u64, u64)> = None;
        if self.since_check >= CHECK_EVERY {
            self.since_check = 0;
            if cancelled {
                self.stats.cancelled = true;
                let r = Step { stop: true, progress: None, batch: None };
                return r;
            }
            if self.progress {
                progress = Some((self.stats.files, self.stats.dirs));
            }
        }
        let mut batch: Option<(usize, usize)> = None;
        match item {
            WalkItem::Found { path, is_dir, meta: Some(m) } => {
                let e = FileEntry::from_path(
                    path.clone(),
                    *is_dir,
                    size_of_meta(m),
                    mtime_of_meta(m),
                    0,
                );
                let ghost was = self.out@;
                self.out.push(e);
                assert(entry_views(self.out@) =~= entry_views(was).push(e@));
                assert(self.out.len() == was.len() + 1);
                if *is_dir {
                    self.stats.dirs = self.stats.dirs + 1;
                } else {
                    self.stats.files = self.stats.files + 1;
                }
                if let Some(b) = self.batch {
                    if self.out.len() % b == 0 {
                        proof {
                            assert(self.out.len() >= b) by (nonlinear_arith)
                                requires
                                    self.out.len() % b == 0,
                                    self.out.len() > 0,
                                    b > 0,
                            ;
                        }
                        batch = Some((self.out.len() - b, self.out.len()));
                    }
                }
            },
            _ => {
                self.stats.errors = self.stats.errors + 1;
            },
        }
        Step { stop: false, progress, batch }
    }

    /// The positions of the entries that are still to be handed on.
    pub fn flush(&self) -> (r: Option<(usize, usize)>)
        requires
            self.wf(),
        ensures
            (match r {
                Some((a, b)) => seq![ScanCall::Batch(a, b)],
                None => Seq::empty(),
            }) == flush_call(self@.out.len() as int, self.batch_size()),
    {
        if let Some(b) = self.batch {
            let n: usize = self.out.len();
            proof {
                assert(0 <= (n / b) * b <= n) by (nonlinear_arith)
                    requires
                        b > 0,
                        n >= 0,
                ;
            }
            let done: usize = (n / b) * b;
            if done < n {
                return Some((done, n));
            } else if n == 0 {
                return Some((0, 0));
            }
        }
        None
    }
}

// ---------------------------------------------------------------------
// Whole walks

/// What the `i`-th look at the cancel flag sees; nothing beyond the last that
/// is given.
pub open spec fn seen_at(seen: Seq<bool>, i: int) -> bool {
    0 <= i < seen.len() && seen[i]
}

/// How far a walk over these items comes. The first look at the flag is made
/// before the walk, the others before every 512th item.
pub open spec fn run_state(items: Seq<WalkItem>, seen: Seq<bool>) -> ScanState
    decreases items.len(),
{
    if items.len() == 0 {
        started(seen_at(seen, 0))
    } else {
        let s = run_state(items.drop_last(), seen);
        if s.cancelled {
            s
        } else {
            stepped(s, items.last(), seen_at(seen, items.len() as int / (CHECK_EVERY as int)))
        }
    }
}

/// The calls that the walk makes up to its last item.
pub open spec fn run_calls(
    items: Seq<WalkItem>,
    seen: Seq<bool>,
    progress: bool,
    batch: Option<usize>,
) -> Seq<ScanCall>
    decreases items.len(),
{
    if items.len() == 0 {
        if progress && !seen_at(seen, 0) {
            seq![ScanCall::Progress(0, 0)]
        } else {
            Seq::empty()
        }
    } else {
        let front = items.drop_last();
        let s = run_state(front, seen);
        let calls = run_calls(front, seen, progress, batch);
        if s.cancelled {
            calls
        } else {
            let c = seen_at(seen, items.len() as int / (CHECK_EVERY as int));
            calls + progress_call(s, c, progress) + batch_call(s, items.last(), c, batch)
        }
    }
}

/// All calls of a walk: those on the way and, unless it was cancelled before
/// it began, the last batch.
pub open spec fn all_calls(
    items: Seq<WalkItem>,
    seen: Seq<bool>,
    progress: bool,
    batch: Option<usize>,
) -> Seq<ScanCall> {
    run_calls(items, seen, progress, batch) + if seen_at(seen, 0) {
        Seq::empty()
    } else {
        flush_call(run_state(items, seen).out.len() as int, batch)
    }
}

/// Everything that a walk came across, and how many folders it left out.
#[derive(Debug)]
pub struct Walk {
    pub items: Vec<WalkItem>,
    pub skipped: u64,
}

/// What a walk found, counted and called on the way.
pub struct ScanReport {
    pub entries: Vec<FileEntry>,
    pub stats: ScanStats,
    pub calls: Vec<ScanCall>,
}

/// Whether the counts are those of the walk. A walk that was cancelled before
/// it began has left out nothing. The time it took is filled in by whoever
/// measured it.
pub open spec fn counts_run(stats: ScanStats, walk: Walk, seen: Seq<bool>) -> bool {
    let s = run_state(walk.items@, seen);
    &&& stats.files == s.files
    &&& stats.dirs == s.dirs
    &&& stats.errors == s.errors
    &&& stats.cancelled == s.cancelled
    &&& stats.skipped == if seen_at(seen, 0) {
        0
    } else {
        walk.skipped
    }
    &&& stats.duration_ms == 0
    &&& stats.files_per_sec == 0
}

/// A walk counts every entry, and no more errors than items.
pub proof fn run_counts(items: Seq<WalkItem>, seen: Seq<bool>)
    ensures
        ({
            let s = run_state(items, seen);
            &&& s.files >= 0 && s.dirs >= 0 && s.errors >= 0
            &&& s.files + s.dirs == s.out.len()
            &&& s.out.len() + s.errors <= items.len()
            &&& !s.cancelled ==> s.out.len() + s.errors == items.len() && s.since
                == items.len() as int % (CHECK_EVERY as int)
            &&& 0 <= s.since < CHECK_EVERY
        }),
    decreases items.len(),
{
    if items.len() > 0 {
        run_counts(items.drop_last(), seen);
    }
}

/// A walk with all its callbacks. `seen` is what each look at the cancel flag
/// sees.
pub fn scan_streaming_inner(
    walk: &Walk,
    seen: &Vec<bool>,
    progress: bool,
    batch: Option<usize>,
) -> (r: ScanReport)
    requires
        batch matches Some(b) ==> b > 0,
    ensures
        entry_views(r.entries@) == run_state(walk.items@, seen@).out,
        counts_run(r.stats, *walk, seen@),
        r.calls@ == all_calls(walk.items@, seen@, progress, batch),
{
    let before = seen.len() > 0 && seen[0];
    let (mut scan, first) = Scan::begin(before, progress, batch);
    let mut calls: Vec<ScanCall> = Vec::new();
    if let Some((f, d)) = first.progress {
        calls.push(ScanCall::Progress(f, d));
    }
    let mut stopped = first.stop;
    let n: usize = walk.items.len();
    let mut i: usize = 0;
    while i < n && !stopped
        invariant
            n == walk.items.len(),
            i <= n,
            scan.wf(),
            scan.reports() == progress,
            scan.batch_size() == batch,
            scan@ == run_state(walk.items@.take(i as int), seen@),
            stopped == scan@.cancelled,
            calls@ == run_calls(walk.items@.take(i as int), seen@, progress, batch),
        decreases n - i,
    {
        let look: usize = (i + 1) / (CHECK_EVERY as usize);
        let cancelled = look < seen.len() && seen[look];
        proof {
            run_counts(walk.items@.take(i as int), seen@);
            let t = walk.items@.take(i + 1);
            assert(t.drop_last() =~= walk.items@.take(i as int));
        }
        let ghost was = calls@;
        let ghost s = scan@;
        let step = scan.step(&walk.items[i], cancelled);
        if let Some((f, d)) = step.progress {
            calls.push(ScanCall::Progress(f, d));
        }
        if let Some((a, b)) = step.batch {
            calls.push(ScanCall::Batch(a, b));
        }
        assert(calls@ =~= was + progress_call(s, cancelled, progress) + batch_call(
            s,
            walk.items@[i as int],
            cancelled,
            batch,
        ));
        stopped = step.stop;
        i += 1;
    }
    proof {
        run_stays(walk.items@, seen@, progress, batch, i as int);
    }
    if !before {
        if let Some((a, b)) = scan.flush() {
            calls.push(ScanCall::Batch(a, b));
        }
    }
    let (out, mut stats) = scan.into_parts();
    if !before {
        stats.skipped = walk.skipped;
    }
    ScanReport { entries: out, stats, calls }
}

/// A walk that was stopped does not go on.
proof fn run_stays(
    items: Seq<WalkItem>,
    seen: Seq<bool>,
    progress: bool,
    batch: Option<usize>,
    i: int,
)
    requires
        0 <= i <= items.len(),
        i < items.len() ==> run_state(items.take(i), seen).cancelled,
    ensures
        run_state(items, seen) == run_state(items.take(i), seen),
        run_calls(items, seen, progress, batch) == run_calls(items.take(i), seen, progress, batch),
    decreases items.len(),
{
    if i < items.len() {
        let front = items.drop_last();
        assert(front.take(i) =~= items.take(i));
        run_stays(front, seen, progress, batch, i);
    } else {
        assert(items.take(i) =~= items);
    }
}

impl Scan {
    /// What was found and counted.
    pub fn into_parts(self) -> (r: (Vec<FileEntry>, ScanStats))
        requires
            self.wf(),
        ensures
            entry_views(r.0@) == self@.out,
            r.1.files == self@.files,
            r.1.dirs == self@.dirs,
            r.1.errors == self@.errors,
            r.1.cancelled == self@.cancelled,
            r.1.skipped == 0,
            r.1.duration_ms == 0,
            r.1.files_per_sec == 0,
    {
        (self.out, self.stats)
    }
}

/// What a walk adds up to. Never follows symlinks/reparse points (avoids
/// loops). Never gives up on Access Denied — counts as error and continues.
pub fn scan(walk: &Walk) -> (r: (Vec<FileEntry>, ScanStats))
    ensures
        entry_views(r.0@) == run_state(walk.items@, Seq::empty()).out,
        counts_run(r.1, *walk, Seq::empty()),
{
    let none: Vec<bool> = Vec::new();
    scan_with(walk, &none)
}

/// Same as `scan` but aborts early when a look at the cancel flag says so
/// (made before the walk and every 512 entries). Returns partial results with
/// `stats.cancelled = true`.
pub fn scan_with(walk: &Walk, seen: &Vec<bool>) -> (r: (Vec<FileEntry>, ScanStats))
    ensures
        entry_views(r.0@) == run_state(walk.items@, seen@).out,
        counts_run(r.1, *walk, seen@),
{
    let r = scan_with_full(walk, seen, false);
    (r.entries, r.stats)
}

/// Full variant that reports progress, (files, dirs) counts: once at start
/// (0, 0) and then every 512 walked entries.
pub fn scan_with_full(walk: &Walk, seen: &Vec<bool>, progress: bool) -> (r: ScanReport)
    ensures
        entry_views(r.entries@) == run_state(walk.items@, seen@).out,
        counts_run(r.stats, *walk, seen@),
        r.calls@ == all_calls(walk.items@, seen@, progress, None),
{
    scan_with_full_streaming(walk, seen, progress, false)
}

/// Streaming variant of [`scan_with_full`]: newly walked entries are handed
/// on in batches (every [`STREAM_BATCH`] entries and once at the end) so that
/// they can be merged into a live index while the walk continues. Progress is
/// reported as before. Without `on_batch` this behaves exactly like
/// `scan_with_full`.
pub fn scan_with_full_streaming(
    walk: &Walk,
    seen: &Vec<bool>,
    progress: bool,
    on_batch: bool,
) -> (r: ScanReport)
    ensures
        entry_views(r.entries@) == run_state(walk.items@, seen@).out,
        counts_run(r.stats, *walk, seen@),
        r.calls@ == all_calls(
            walk.items@,
            seen@,
            progress,
            if on_batch {
                Some(STREAM_BATCH)
            } else {
                None
            },
        ),
{
    let batch: Option<usize> = if on_batch {
        Some(STREAM_BATCH)
    } else {
        None
    };
    scan_streaming_inner(walk, seen, progress, batch)
}

// ---------------------------------------------------------------------
// Laws

/// The batches among the calls, in order.
pub open spec fn batches(calls: Seq<ScanCall>) -> Seq<(usize, usize)>
    decreases calls.len(),
{
    if calls.len() == 0 {
        Seq::empty()
    } else {
        let b = batches(calls.drop_last());
        match calls.last() {
            ScanCall::Batch(from, to) => b.push((from, to)),
            _ => b,
        }
    }
}

/// Whether the batches follow one another without gap or overlap, from the
/// first position up to `n`.
pub open spec fn tile(b: Seq<(usize, usize)>, n: int) -> bool
    decreases b.len(),
{
    if b.len() == 0 {
        n == 0
    } else {
        b.last().1 == n && b.last().0 <= b.last().1 && tile(b.drop_last(), b.last().0 as int)
    }
}

pub proof fn batches_add(a: Seq<ScanCall>, b: Seq<ScanCall>)
    ensures
        batches(a + b) == batches(a) + batches(b),
    decreases b.len(),
{
    if b.len() == 0 {
        assert(batches(a) + batches(b) =~= batches(a));
    } else {
        batches_add(a, b.drop_last());
        assert((a + b).drop_last() =~= a + b.drop_last());
    }
}

pub proof fn batches_single(c: ScanCall)
    ensures
        batches(seq![c]) == (match c {
            ScanCall::Batch(from, to) => seq![(from, to)],
            _ => Seq::empty(),
        }),
        batches(Seq::<ScanCall>::empty()) == Seq::<(usize, usize)>::empty(),
{
    assert(batches(seq![c].drop_last()) =~= Seq::empty());
    match c {
        ScanCall::Batch(from, to) => {
            assert(batches(seq![c]) =~= seq![(from, to)]);
        },
        _ => {},
    }
}

pub proof fn aligned_down(n: int, b: int)
    requires
        b > 0,
        n >= 0,
    ensures
        0 <= (n / b) * b <= n,
        (n + 1) % b == 0 ==> ((n + 1) / b) * b == n + 1 && (n / b) * b == n + 1 - b,
        (n + 1) % b != 0 ==> ((n + 1) / b) * b == (n / b) * b,
{
    let q = n / b;
    let r = n % b;
    assert(n == b * q + r) by {
        vstd::arithmetic::div_mod::lemma_fundamental_div_mod(n, b);
    }
    assert(0 <= r < b) by {
        vstd::arithmetic::div_mod::lemma_mod_bound(n, b);
    }
    if r == b - 1 {
        assert(n + 1 == b * (q + 1)) by (nonlinear_arith)
            requires
                n == b * q + r,
                r == b - 1,
        ;
        vstd::arithmetic::div_mod::lemma_fundamental_div_mod_converse(n + 1, b, q + 1, 0);
        assert((q + 1) * b == q * b + b) by (nonlinear_arith);
    } else {
        vstd::arithmetic::div_mod::lemma_fundamental_div_mod_converse(n + 1, b, q, r + 1);
    }
    assert(q >= 0) by (nonlinear_arith)
        requires
            n == b * q + r,
            0 <= r < b,
            n >= 0,
            b > 0,
    ;
    assert(q * b >= 0) by (nonlinear_arith)
        requires
            q >= 0,
            b > 0,
    ;
}

proof fn run_batches_tile(
    items: Seq<WalkItem>,
    seen: Seq<bool>,
    progress: bool,
    b: usize,
)
    requires
        b > 0,
        items.len() <= usize::MAX,
    ensures
        tile(
            batches(run_calls(items, seen, progress, Some(b))),
            (run_state(items, seen).out.len() as int / (b as int)) * b,
        ),
    decreases items.len(),
{
    let calls = run_calls(items, seen, progress, Some(b));
    if items.len() == 0 {
        batches_single(ScanCall::Progress(0, 0));
        aligned_down(0, b as int);
    } else {
        let front = items.drop_last();
        run_batches_tile(front, seen, progress, b);
        let s = run_state(front, seen);
        let before = run_calls(front, seen, progress, Some(b));
        if !s.cancelled {
            run_counts(front, seen);
            run_counts(items, seen);
            let c = seen_at(seen, items.len() as int / (CHECK_EVERY as int));
            let p = progress_call(s, c, progress);
            let t = stepped(s, items.last(), c);
            let d = batch_call(s, items.last(), c, Some(b));
            batches_add(before + p, d);
            batches_add(before, p);
            batches_single(ScanCall::Progress(s.files as u64, s.dirs as u64));
            let n = s.out.len() as int;
            aligned_down(n, b as int);
            if d.len() > 0 {
                let from = (t.out.len() - b) as usize;
                let to = t.out.len() as usize;
                batches_single(ScanCall::Batch(from, to));
                assert(batches(calls).drop_last() =~= batches(before));
            } else {
                batches_single(ScanCall::Progress(0, 0));
                if t.out.len() > n {
                    assert(tile(batches(calls), ((n + 1) / (b as int)) * b));
                } else {
                    assert(tile(batches(calls), (n / (b as int)) * b));
                }
            }
        }
    }
}

/// The batches of a walk cover every entry exactly once: they follow one
/// another from the first entry to the last. A walk that finds nothing hands
/// on one empty batch; one that was cancelled before it began hands on none.
pub proof fn batches_cover_scan(
    items: Seq<WalkItem>,
    seen: Seq<bool>,
    progress: bool,
    b: usize,
)
    requires
        b > 0,
        items.len() <= usize::MAX,
    ensures
        tile(
            batches(all_calls(items, seen, progress, Some(b))),
            run_state(items, seen).out.len() as int,
        ),
        !seen_at(seen, 0) ==> batches(all_calls(items, seen, progress, Some(b))).len() > 0,
{
    run_batches_tile(items, seen, progress, b);
    run_counts(items, seen);
    let s = run_state(items, seen);
    let n = s.out.len() as int;
    let before = run_calls(items, seen, progress, Some(b));
    aligned_down(n, b as int);
    if seen_at(seen, 0) {
        precancelled(items, seen, progress, Some(b));
    } else {
        let f = flush_call(n, Some(b));
        batches_add(before, f);
        let done = (n / (b as int)) * b;
        if done < n {
            batches_single(ScanCall::Batch(done as usize, n as usize));
            let all = batches(before + f);
            assert(all.drop_last() =~= batches(before));
        } else if n == 0 {
            batches_single(ScanCall::Batch(0, 0));
            let all = batches(before + f);
            assert(all.drop_last() =~= batches(before));
        } else {
            batches_single(ScanCall::Progress(0, 0));
            if batches(before).len() == 0 {
                assert(done == 0);
            }
        }
    }
}

/// A walk that was cancelled before it began finds nothing, counts nothing
/// and calls nothing.
pub proof fn precancelled(
    items: Seq<WalkItem>,
    seen: Seq<bool>,
    progress: bool,
    batch: Option<usize>,
)
    requires
        seen_at(seen, 0),
    ensures
        run_state(items, seen) == started(true),
        run_calls(items, seen, progress, batch) == Seq::<ScanCall>::empty(),
        all_calls(items, seen, progress, batch) == Seq::<ScanCall>::empty(),
    decreases items.len(),
{
    if items.len() > 0 {
        precancelled(items.drop_last(), seen, progress, batch);
    }
}

/// A cancelled walk found what an undisturbed walk over its first items
/// finds.
pub proof fn cancelled_is_partial(items: Seq<WalkItem>, seen: Seq<bool>) -> (k: int)
    ensures
        0 <= k <= items.len(),
        run_state(items, seen).out == run_state(items.take(k), Seq::empty()).out,
        !run_state(items, seen).cancelled ==> k == items.len(),
    decreases items.len(),
{
    if items.len() == 0 {
        0
    } else {
        let front = items.drop_last();
        let s = run_state(front, seen);
        let k = cancelled_is_partial(front, seen);
        assert(front.take(k) =~= items.take(k));
        if s.cancelled {
            k
        } else {
            let c = seen_at(seen, items.len() as int / (CHECK_EVERY as int));
            run_counts(front, seen);
            run_counts(front, Seq::empty());
            undisturbed(front);
            if check_due(s) && c {
                k
            } else {
                assert(items.take(items.len() as int) =~= items);
                items.len() as int
            }
        }
    }
}

/// A walk whose flag is never up is not cancelled.
pub proof fn undisturbed(items: Seq<WalkItem>)
    ensures
        !run_state(items, Seq::empty()).cancelled,
    decreases items.len(),
{
    if items.len() > 0 {
        undisturbed(items.drop_last());
    }
}

} // verus!
