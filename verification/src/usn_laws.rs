//! What holds of reading changes from where an earlier reading stopped.

use crate::bytes::{as_signed, le64};
use crate::usn::{
    delta_limit, deltas_begun, deltas_read, page_records, page_taken, wants_page, DeltaState,
    PageRead, UsnErrorView, UsnFields, UsnJournalInfo,
};
use vstd::prelude::*;

verus! {

/// Whether the changes stand in the order of their positions.
pub open spec fn in_sequence(records: Seq<UsnFields>) -> bool {
    forall|i: int, j: int|
        0 <= i < j < records.len() ==> (#[trigger] records[i]).usn < (#[trigger] records[j]).usn
}

/// Whether the first `k` changes stand before the position `at`, and all
/// others at it or after it.
pub open spec fn splits(records: Seq<UsnFields>, at: int, k: int) -> bool {
    &&& 0 <= k <= records.len()
    &&& forall|i: int| 0 <= i < k ==> (#[trigger] records[i]).usn < at
    &&& forall|i: int| k <= i < records.len() ==> at <= (#[trigger] records[i]).usn
}

/// Whether a page is an answer of a journal with these changes, of which the
/// first `k` stand before the position asked for: it holds the changes that
/// follow, as many as fit, and the position of what comes after them.
pub open spec fn answers(records: Seq<UsnFields>, k: int, b: Seq<u8>) -> bool {
    let all = page_records(b, 8);
    b.len() > 8 ==> {
        &&& k + all.len() <= records.len()
        &&& all == records.subrange(k, k + all.len())
        &&& splits(records, as_signed(le64(b, 0)), k + all.len())
    }
}

/// Whether all pages that are read are answers of a journal with these
/// changes.
pub open spec fn all_answer(
    records: Seq<UsnFields>,
    k: int,
    s: DeltaState,
    pages: Seq<PageRead>,
    j: UsnJournalInfo,
    limit: int,
) -> bool
    decreases pages.len(),
{
    if pages.len() == 0 || !wants_page(s, limit) {
        true
    } else {
        match pages[0] {
            PageRead::Page(b) => {
                let t = page_taken(s, b@, j, limit);
                answers(records, k, b@) && all_answer(
                    records,
                    k + t.entries.len() - s.entries.len(),
                    t,
                    pages.skip(1),
                    j,
                    limit,
                )
            },
            PageRead::Failed(_) => true,
        }
    }
}

/// Reading gives the changes that stand at its beginning, one after the
/// other, and the position that it ends with is that of the first change it
/// did not give.
pub proof fn reading_gives_a_run(
    records: Seq<UsnFields>,
    k: int,
    s: DeltaState,
    pages: Seq<PageRead>,
    root: Seq<char>,
    j: UsnJournalInfo,
    limit: int,
)
    requires
        in_sequence(records),
        splits(records, s.cursor, k),
        s.entries.len() <= limit,
        all_answer(records, k, s, pages, j, limit),
    ensures
        deltas_read(s, pages, root, j, limit) matches Ok(t) ==> {
            let n = t.entries.len() - s.entries.len();
            &&& 0 <= n <= records.len() - k
            &&& t.entries == s.entries + records.subrange(k, k + n)
            &&& splits(records, t.cursor, k + n)
        },
    decreases pages.len(),
{
    if pages.len() == 0 || !wants_page(s, limit) {
        assert(records.subrange(k, k) =~= Seq::empty());
        assert(s.entries + records.subrange(k, k) =~= s.entries);
    } else if let PageRead::Page(b) = pages[0] {
        let t = page_taken(s, b@, j, limit);
        let n = t.entries.len() - s.entries.len();
        let all = page_records(b@, 8);
        if b@.len() <= 8 {
            assert(records.subrange(k, k) =~= Seq::empty());
        } else if s.entries.len() + all.len() > limit {
            let room = limit - s.entries.len();
            assert((s.entries + all)[limit] == all[room]);
            assert(all[room] == records[k + room]);
        }
        assert(t.entries =~= s.entries + records.subrange(k, k + n));
        reading_gives_a_run(records, k + n, t, pages.skip(1), root, j, limit);
        if let Ok(u) = deltas_read(t, pages.skip(1), root, j, limit) {
            let m = u.entries.len() - t.entries.len();
            assert(u.entries =~= s.entries + records.subrange(k, k + n + m));
        }
    }
}

/// Reading on from where a reading stopped neither leaves out a change nor
/// repeats one: what the two give, one after the other, is a run of the
/// journal's changes, from the first on where the first reading began there.
pub proof fn readings_continue(
    records: Seq<UsnFields>,
    k: int,
    start: Option<i64>,
    next: i64,
    first: (UsnJournalInfo, Seq<PageRead>, usize),
    second: (UsnJournalInfo, Seq<PageRead>, usize),
    root: Seq<char>,
    a: DeltaState,
    b: DeltaState,
)
    requires
        in_sequence(records),
        splits(records, deltas_begun(first.0, start).cursor, k),
        all_answer(
            records,
            k,
            deltas_begun(first.0, start),
            first.1,
            first.0,
            delta_limit(first.2),
        ),
        deltas_read(deltas_begun(first.0, start), first.1, root, first.0, delta_limit(first.2))
            == Ok::<DeltaState, UsnErrorView>(a),
        next == a.cursor,
        second.0.first_usn <= next <= second.0.next_usn,
        all_answer(
            records,
            k + a.entries.len(),
            deltas_begun(second.0, Some(next)),
            second.1,
            second.0,
            delta_limit(second.2),
        ),
        deltas_read(
            deltas_begun(second.0, Some(next)),
            second.1,
            root,
            second.0,
            delta_limit(second.2),
        ) == Ok::<DeltaState, UsnErrorView>(b),
    ensures
        a.entries + b.entries == records.subrange(k, k + a.entries.len() + b.entries.len()),
        splits(records, b.cursor, k + a.entries.len() + b.entries.len()),
        k == 0 ==> (a.entries + b.entries).is_prefix_of(records),
{
    let s = deltas_begun(first.0, start);
    let t = deltas_begun(second.0, Some(next));
    reading_gives_a_run(records, k, s, first.1, root, first.0, delta_limit(first.2));
    let m = k + a.entries.len();
    reading_gives_a_run(records, m, t, second.1, root, second.0, delta_limit(second.2));
    assert(a.entries + b.entries =~= records.subrange(
        k,
        k + a.entries.len() + b.entries.len(),
    ));
}

} // verus!
