//! What a walk makes of each item, when it looks at its flag and what it
//! reports on the way.

use crate::paths::file_name;
use crate::text::lowercase;
use crate::types::Entry;
use crate::walk::{
    aligned_down, all_calls, batch_call, batches, batches_add, batches_single, counts_run,
    flush_call, item_entry, progress_call, run_calls, run_counts, run_state, seen_at, stepped,
    undisturbed, Meta, ScanCall, ScanStats, Walk, WalkItem, STREAM_BATCH,
};
use vstd::prelude::*;

verus! {

// ---------------------------------------------------------------------
// Items

/// Whether `e` is what a walk makes of a path: its name is the path's file
/// name, a folder has no size, the time is in milliseconds, and attributes are
/// not looked up.
pub open spec fn is_made_of(e: Entry, path: Seq<char>, is_dir: bool, m: Meta) -> bool {
    &&& e.path == path
    &&& e.name == match file_name(path) {
        Some(n) => n,
        None => Seq::empty(),
    }
    &&& e.name_lower == lowercase(e.name)
    &&& e.is_dir == is_dir
    &&& e.size == if m.is_dir {
        0
    } else {
        m.len
    }
    &&& m.modified_ms is None ==> e.mtime_ms == 0
    &&& m.modified_ms matches Some(n) ==> n < 0x8000_0000_0000_0000 ==> e.mtime_ms == n
    &&& e.attributes == 0
}

/// A walk goes item by item: what can be read becomes one entry at the end,
/// counted as a file or a folder, hidden or not; what cannot be read is one
/// error. Nothing that was found before changes.
pub proof fn every_item_counts(items: Seq<WalkItem>, item: WalkItem)
    ensures
        ({
            let s = run_state(items, Seq::empty());
            let t = run_state(items.push(item), Seq::empty());
            match item {
                WalkItem::Found { path, is_dir, meta: Some(m) } => {
                    &&& t.out.len() == s.out.len() + 1
                    &&& t.out.drop_last() == s.out
                    &&& is_made_of(t.out.last(), path@, is_dir, m)
                    &&& t.files == s.files + if is_dir {
                        0int
                    } else {
                        1
                    }
                    &&& t.dirs == s.dirs + if is_dir {
                        1int
                    } else {
                        0
                    }
                    &&& t.errors == s.errors
                },
                _ => {
                    &&& t.out == s.out
                    &&& t.files == s.files
                    &&& t.dirs == s.dirs
                    &&& t.errors == s.errors + 1
                },
            }
        }),
        ({
            let s = run_state(Seq::empty(), Seq::empty());
            s.out.len() == 0 && s.files == 0 && s.dirs == 0 && s.errors == 0 && !s.cancelled
        }),
{
    let all = items.push(item);
    assert(all.drop_last() =~= items);
    undisturbed(items);
    undisturbed(all);
    let s = run_state(items, Seq::empty());
    let t = run_state(all, Seq::empty());
    assert(t == stepped(s, item, false));
    if item_entry(item) is Some {
        assert(t.out.drop_last() =~= s.out);
    }
}

/// The folders that a walk left out are reported as they were counted, unless
/// it was cancelled before it began.
pub proof fn left_out_are_reported(stats: ScanStats, walk: Walk, seen: Seq<bool>)
    requires
        counts_run(stats, walk, seen),
    ensures
        !seen_at(seen, 0) ==> stats.skipped == walk.skipped,
        seen_at(seen, 0) ==> stats.skipped == 0 && stats.files == 0 && stats.dirs == 0
            && stats.errors == 0 && stats.cancelled,
{
    if seen_at(seen, 0) {
        crate::walk::precancelled(walk.items@, seen, false, None);
    }
}

// ---------------------------------------------------------------------
// Looks at the flag

/// Whether none of the looks that a walk over `n` items makes sees the flag
/// up: one before the walk, one before every 512th item.
pub open spec fn all_clear(seen: Seq<bool>, n: int) -> bool {
    forall|k: int| 0 <= k < seen.len() && 512 * k <= n ==> !#[trigger] seen[k]
}

/// Only those looks matter: where none of them sees the flag up, the walk runs
/// as if there were no flag.
pub proof fn clear_walks_run_through(items: Seq<WalkItem>, seen: Seq<bool>)
    requires
        all_clear(seen, items.len() as int),
    ensures
        run_state(items, seen) == run_state(items, Seq::empty()),
        !run_state(items, seen).cancelled,
    decreases items.len(),
{
    undisturbed(items);
    if items.len() > 0 {
        let front = items.drop_last();
        assert forall|k: int| 0 <= k < seen.len() && 512 * k <= front.len() implies !#[trigger]
            seen[k] by {}
        clear_walks_run_through(front, seen);
        let k = items.len() as int / 512;
        assert(512 * k <= items.len());
        if 0 <= k < seen.len() {
            assert(!seen[k]);
        }
    }
}

/// A walk stops at the first look that sees the flag up: just before the
/// 512th item for the first look on the way, the 1024th for the second, and so
/// on. What it found until then stays.
pub proof fn walks_stop_at_the_look(items: Seq<WalkItem>, seen: Seq<bool>, k: int)
    requires
        1 <= k < seen.len(),
        seen[k],
        forall|j: int| 0 <= j < k ==> !#[trigger] seen[j],
        512 * k <= items.len(),
    ensures
        run_state(items, seen).cancelled,
        run_state(items, seen).out == run_state(items.take(512 * k - 1), Seq::empty()).out,
    decreases items.len(),
{
    let front = items.drop_last();
    if 512 * k < items.len() {
        walks_stop_at_the_look(front, seen, k);
        assert(front.take(512 * k - 1) =~= items.take(512 * k - 1));
    } else {
        assert(front =~= items.take(512 * k - 1));
        assert forall|j: int| 0 <= j < seen.len() && 512 * j <= front.len() implies !#[trigger]
            seen[j] by {
            assert(j < k);
        }
        clear_walks_run_through(front, seen);
        run_counts(front, Seq::empty());
        assert(items.len() as int / 512 == k);
        assert(front.len() as int % 512 == 511);
    }
}

// ---------------------------------------------------------------------
// Reports

/// What is reported before the 512th item, the 1024th and so on: the files and
/// folders until then.
pub open spec fn report_at(items: Seq<WalkItem>, m: int) -> ScanCall {
    let s = run_state(items.take(512 * m - 1), Seq::empty());
    ScanCall::Progress(s.files as u64, s.dirs as u64)
}

/// Progress is reported once at the start, with nothing, and then before every
/// 512th item, with what was found until then; and not otherwise.
pub proof fn progress_is_reported(items: Seq<WalkItem>)
    ensures
        run_calls(items, Seq::empty(), true, None) == seq![ScanCall::Progress(0, 0)] + Seq::new(
            (items.len() / 512) as nat,
            |m: int| report_at(items, m + 1),
        ),
        run_calls(items, Seq::empty(), false, None) == Seq::<ScanCall>::empty(),
    decreases items.len(),
{
    let n = (items.len() / 512) as nat;
    let want = Seq::new(n, |m: int| report_at(items, m + 1));
    let calls = run_calls(items, Seq::empty(), true, None);
    if items.len() == 0 {
        assert(calls =~= seq![ScanCall::Progress(0, 0)] + want);
    } else {
        let front = items.drop_last();
        let s = run_state(front, Seq::empty());
        progress_is_reported(front);
        undisturbed(front);
        run_counts(front, Seq::empty());
        let f = (front.len() / 512) as nat;
        let was = Seq::new(f, |m: int| report_at(front, m + 1));
        assert forall|m: int| 0 <= m < f implies #[trigger] report_at(front, m + 1) == report_at(
            items,
            m + 1,
        ) by {
            assert(512 * (m + 1) <= front.len());
            assert(front.take(512 * (m + 1) - 1) =~= items.take(512 * (m + 1) - 1));
        }
        if items.len() % 512 == 0 {
            assert(front.len() as int % 512 == 511);
            assert(n == f + 1);
            assert(front =~= items.take(512 * n as int - 1));
            assert(want =~= was.push(report_at(items, n as int)));
        } else {
            assert(n == f);
            assert(want =~= was);
        }
        assert(calls =~= seq![ScanCall::Progress(0, 0)] + want);
        assert(run_calls(items, Seq::empty(), false, None) =~= Seq::empty());
    }
}

/// The batches on the way are all full: the first `b` entries, the next `b`,
/// and so on.
proof fn full_batches(items: Seq<WalkItem>, b: usize)
    requires
        b > 0,
        items.len() <= usize::MAX,
    ensures
        ({
            let got = batches(run_calls(items, Seq::empty(), false, Some(b)));
            let n = run_state(items, Seq::empty()).out.len() as int;
            &&& got.len() == n / (b as int)
            &&& forall|i: int|
                0 <= i < got.len() ==> (#[trigger] got[i]).0 == i * b && got[i].1 == (i + 1) * b
        }),
    decreases items.len(),
{
    let calls = run_calls(items, Seq::empty(), false, Some(b));
    undisturbed(items);
    if items.len() == 0 {
        assert(calls =~= Seq::empty());
        assert(0int / (b as int) == 0) by (nonlinear_arith)
            requires
                b > 0,
        ;
    } else {
        let front = items.drop_last();
        full_batches(front, b);
        undisturbed(front);
        let s = run_state(front, Seq::empty());
        let t = run_state(items, Seq::empty());
        let before = run_calls(front, Seq::empty(), false, Some(b));
        run_counts(front, Seq::empty());
        run_counts(items, Seq::empty());
        let p = progress_call(s, false, false);
        let d = batch_call(s, items.last(), false, Some(b));
        assert(before + p =~= before);
        batches_add(before, d);
        let n = s.out.len() as int;
        aligned_down(n, b as int);
        let q = n / (b as int);
        if d.len() > 0 {
            let from = (t.out.len() - b) as usize;
            let to = t.out.len() as usize;
            batches_single(ScanCall::Batch(from, to));
            assert(t.out.len() == n + 1);
            assert(q * b == n + 1 - b);
            assert((n + 1) / (b as int) == q + 1) by (nonlinear_arith)
                requires
                    ((n + 1) / (b as int)) * b == n + 1,
                    q * b == n + 1 - b,
                    b > 0,
            ;
            assert((q + 1) * b == q * b + b) by (nonlinear_arith);
        } else {
            assert(d =~= Seq::empty());
            assert(batches(calls) =~= batches(before));
            if t.out.len() > n {
                assert((n + 1) / (b as int) == q) by (nonlinear_arith)
                    requires
                        ((n + 1) / (b as int)) * b == q * b,
                        b > 0,
                ;
            }
        }
    }
}

/// Batches are handed on as soon as they are full: the `i`-th holds the
/// entries from `i * b` to `(i + 1) * b`, the last what is left over.
pub proof fn batches_are_full(items: Seq<WalkItem>, b: usize)
    requires
        b > 0,
        items.len() <= usize::MAX,
    ensures
        ({
            let got = batches(all_calls(items, Seq::empty(), false, Some(b)));
            let n = run_state(items, Seq::empty()).out.len() as int;
            let q = n / (b as int);
            &&& forall|i: int|
                0 <= i < q ==> (#[trigger] got[i]).0 == i * b && got[i].1 == (i + 1) * b
            &&& q * b < n ==> got.len() == q + 1 && got[q].0 == q * b && got[q].1 == n
            &&& q * b == n && n > 0 ==> got.len() == q
            &&& n == 0 ==> got.len() == 1
        }),
{
    full_batches(items, b);
    run_counts(items, Seq::empty());
    let n = run_state(items, Seq::empty()).out.len() as int;
    let before = run_calls(items, Seq::empty(), false, Some(b));
    let f = flush_call(n, Some(b));
    let q = n / (b as int);
    aligned_down(n, b as int);
    batches_add(before, f);
    let got = batches(before + f);
    if q * b < n {
        batches_single(ScanCall::Batch((q * b) as usize, n as usize));
    } else if n == 0 {
        batches_single(ScanCall::Batch(0, 0));
        assert(q == 0) by (nonlinear_arith)
            requires
                q * b <= 0,
                q * b >= 0,
                b > 0,
        ;
    } else {
        assert(f =~= Seq::empty());
        assert(before + f =~= before);
    }
}

/// Streaming hands on 8192 entries at a time.
pub proof fn streams_hold_8192(items: Seq<WalkItem>, i: int)
    requires
        items.len() <= usize::MAX,
        0 <= i,
        8192 * (i + 1) <= run_state(items, Seq::empty()).out.len(),
    ensures
        ({
            let got = batches(all_calls(items, Seq::empty(), false, Some(STREAM_BATCH)));
            i < got.len() && got[i].0 == 8192 * i && got[i].1 == 8192 * (i + 1)
        }),
{
    batches_are_full(items, STREAM_BATCH);
    let n = run_state(items, Seq::empty()).out.len() as int;
    assert(i < n / 8192);
}

/// The counts of a walk are those of what it found.
pub proof fn counts_are_reported(stats: ScanStats, walk: Walk, seen: Seq<bool>)
    requires
        counts_run(stats, walk, seen),
    ensures
        stats.files == run_state(walk.items@, seen).files,
        stats.dirs == run_state(walk.items@, seen).dirs,
        stats.errors == run_state(walk.items@, seen).errors,
        stats.cancelled == run_state(walk.items@, seen).cancelled,
        stats.files + stats.dirs == run_state(walk.items@, seen).out.len(),
{
    run_counts(walk.items@, seen);
}

} // verus!
