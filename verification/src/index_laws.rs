//! What holds of looking at the disk again: doing so twice changes nothing
//! more, and paths that are not covered do not matter.

use crate::index_model::{
    after_events, after_stat, after_watch_batch, after_watched, batch_touches, complete_lookup,
    has_key, insert_law, is_stale, merge_law, remove_all_law, stale_keys, stale_keys_contain,
    stat_keeps, vanished_law, Applied, IndexState, Observed,
};
use crate::path_laws::same_key_same_path;
use crate::paths::{parts, path_key, same_path, under};
use crate::scanner::pruned_path;
use crate::types::FileEntry;
use vstd::prelude::*;

verus! {

/// Whether the path `x` is in the index.
pub open spec fn indexed(st: IndexState, x: Seq<char>) -> bool {
    st.pos.contains_key(path_key(x))
}

/// Whether what was seen at a path is what a disk holds there: what was found
/// is on the disk, and below a path where nothing was found there is nothing.
pub open spec fn seen_on(disk: spec_fn(Seq<char>) -> bool, o: Observed) -> bool {
    match o.found {
        Some(f) => {
            &&& disk(o.path@)
            &&& f.entry.key() == path_key(o.path@)
            &&& forall|i: int| 0 <= i < f.children@.len() ==> disk(#[trigger] f.children@[i].path@)
        },
        None => forall|x: Seq<char>| under(x, o.path@) ==> !#[trigger] disk(x),
    }
}

/// Whether everything was seen on one disk, which knows paths by what they
/// mean.
pub open spec fn all_seen_on(disk: spec_fn(Seq<char>) -> bool, seen: Seq<Observed>) -> bool {
    &&& forall|x: Seq<char>, y: Seq<char>|
        same_path(x, y) ==> #[trigger] disk(x) == #[trigger] disk(y)
    &&& forall|i: int| 0 <= i < seen.len() ==> seen_on(disk, #[trigger] seen[i])
}

/// Whether `x` is in the index after another look at a path. `was` says
/// whether it was before, `known` whether the path looked at was.
spec fn shows_after(o: Observed, was: bool, known: bool, x: Seq<char>) -> bool {
    match o.found {
        None => was && !(known && under(x, o.path@)),
        Some(f) => same_path(x, o.path@) || if f.entry.is_dir {
            has_key(f.children@, path_key(x)) || (was && !under(x, o.path@))
        } else {
            was
        },
    }
}

/// Whether another look at a path decides if `x` is in the index.
spec fn settles(o: Observed, x: Seq<char>) -> bool {
    o.found matches Some(f) && (same_path(x, o.path@) || (f.entry.is_dir && (under(x, o.path@)
        || has_key(f.children@, path_key(x)))))
}

spec fn settled(seen: Seq<Observed>, x: Seq<char>) -> bool
    decreases seen.len(),
{
    seen.len() > 0 && (settles(seen.last(), x) || settled(seen.drop_last(), x))
}

proof fn same_under(x: Seq<char>, y: Seq<char>, d: Seq<char>)
    requires
        path_key(x) == path_key(y),
    ensures
        under(x, d) == under(y, d),
        same_path(x, d) == same_path(y, d),
{
    same_key_same_path(x, y);
}

proof fn under_itself(x: Seq<char>)
    ensures
        under(x, x),
{
    assert(parts(x) =~= parts(x).subrange(0, parts(x).len() as int));
}

/// What another look at a path does to one path of the index.
proof fn stat_shows(st: IndexState, o: Observed, x: Seq<char>)
    requires
        st.complete(),
        o.found matches Some(f) ==> f.entry.key() == path_key(o.path@),
    ensures
        indexed(after_stat(st, o.path@, o.found), x) == shows_after(
            o,
            indexed(st, x),
            indexed(st, o.path@),
            x,
        ),
{
    let p = o.path@;
    let kx = path_key(x);
    let t = after_stat(st, p, o.found);
    same_key_same_path(x, p);
    stat_keeps(st, p, o.found);
    match o.found {
        None => {
            vanished_law(st, p);
            complete_lookup(st);
            complete_lookup(t);
            if indexed(t, x) {
                let e = t.entries[t.pos[kx] as int];
                assert(t.entries.contains(e));
                assert(st.entries.contains(e));
                assert(st.lookup(kx) == Some(e));
                same_under(e.path@, x, p);
            }
            if indexed(st, x) && !(indexed(st, p) && under(x, p)) {
                let e = st.entries[st.pos[kx] as int];
                assert(st.entries.contains(e));
                same_under(e.path@, x, p);
                assert(t.entries.contains(e));
                assert(t.lookup(kx) == Some(e));
            }
        },
        Some(f) => {
            insert_law(st, f.entry);
            let a = st.inserted(f.entry);
            assert(a.lookup(kx) is Some <==> st.lookup(kx) is Some || kx == path_key(p));
            if f.entry.is_dir {
                let ks = stale_keys(a.entries, p, f.children@);
                let b = a.removed_all(ks);
                remove_all_law(a, ks);
                merge_law(b, f.children@);
                stale_keys_contain(a.entries, p, f.children@);
                assert(t.lookup(kx) is Some <==> indexed(t, x));
                if has_key(f.children@, kx) {
                    let i = choose|i: int|
                        0 <= i < f.children@.len() && (#[trigger] f.children@[i]).key() == kx;
                    assert(t.lookup(f.children@[i].key()) is Some);
                } else {
                    assert(t.lookup(kx) == b.lookup(kx));
                    if ks.contains(kx) {
                        let i = choose|i: int|
                            0 <= i < a.entries.len() && is_stale(
                                #[trigger] a.entries[i],
                                p,
                                f.children@,
                            ) && a.entries[i].key() == kx;
                        same_under(a.entries[i].path@, x, p);
                    } else if a.pos.contains_key(kx) {
                        let e = a.entries[a.pos[kx] as int];
                        same_under(e.path@, x, p);
                        assert(!is_stale(e, p, f.children@));
                    }
                }
            }
        },
    }
}

/// Looking at paths keeps the index complete.
proof fn events_keep(st: IndexState, seen: Seq<Observed>)
    requires
        st.complete(),
    ensures
        after_events(st, seen).state.complete(),
    decreases seen.len(),
{
    if seen.len() > 0 {
        events_keep(st, seen.drop_last());
        let a = after_events(st, seen.drop_last());
        stat_keeps(a.state, seen.last().path@, seen.last().found);
    }
}

/// A path that is on no disk is not brought in.
proof fn stays_away(
    st: IndexState,
    seen: Seq<Observed>,
    disk: spec_fn(Seq<char>) -> bool,
    x: Seq<char>,
)
    requires
        st.complete(),
        all_seen_on(disk, seen),
        !disk(x),
        !indexed(st, x),
    ensures
        !indexed(after_events(st, seen).state, x),
    decreases seen.len(),
{
    if seen.len() > 0 {
        let front = seen.drop_last();
        front_seen_on(seen, disk);
        stays_away(st, front, disk, x);
        events_keep(st, front);
        step_away(after_events(st, front).state, seen.last(), disk, x);
    }
}

proof fn front_seen_on(seen: Seq<Observed>, disk: spec_fn(Seq<char>) -> bool)
    requires
        all_seen_on(disk, seen),
        seen.len() > 0,
    ensures
        all_seen_on(disk, seen.drop_last()),
        seen_on(disk, seen.last()),
{
    assert(seen_on(disk, seen[seen.len() - 1]));
    assert forall|i: int| 0 <= i < seen.drop_last().len() implies seen_on(
        disk,
        #[trigger] seen.drop_last()[i],
    ) by {
        assert(seen_on(disk, seen[i]));
    }
}

proof fn step_away(st: IndexState, o: Observed, disk: spec_fn(Seq<char>) -> bool, x: Seq<char>)
    requires
        st.complete(),
        all_seen_on(disk, seq![o]),
        !disk(x),
        !indexed(st, x),
    ensures
        !indexed(after_stat(st, o.path@, o.found), x),
{
    assert(seen_on(disk, seq![o][0]));
    stat_shows(st, o, x);
    if shows_after(o, false, false, x) {
        on_disk(o, disk, x);
    }
}

/// What a look decides to be in the index is on the disk.
proof fn on_disk(o: Observed, disk: spec_fn(Seq<char>) -> bool, x: Seq<char>)
    requires
        all_seen_on(disk, seq![o]),
        settles(o, x),
        shows_after(o, false, false, x),
    ensures
        disk(x),
{
    assert(seen_on(disk, seq![o][0]));
    let f = o.found.unwrap();
    if same_path(x, o.path@) {
        assert(disk(x) == disk(o.path@));
    } else {
        let i = choose|i: int|
            0 <= i < f.children@.len() && (#[trigger] f.children@[i]).key() == path_key(x);
        same_key_same_path(x, f.children@[i].path@);
        assert(disk(x) == disk(f.children@[i].path@));
    }
}

/// A path at which nothing was found is not in the index afterwards.
proof fn gone(st: IndexState, seen: Seq<Observed>, disk: spec_fn(Seq<char>) -> bool, j: int)
    requires
        st.complete(),
        all_seen_on(disk, seen),
        0 <= j < seen.len(),
        seen[j].found is None,
    ensures
        !indexed(after_events(st, seen).state, seen[j].path@),
        !disk(seen[j].path@),
    decreases seen.len(),
{
    let front = seen.drop_last();
    let x = seen[j].path@;
    under_itself(x);
    assert(seen_on(disk, seen[j]));
    front_seen_on(seen, disk);
    events_keep(st, front);
    let a = after_events(st, front).state;
    if j == seen.len() - 1 {
        stat_shows(a, seen.last(), x);
    } else {
        gone(st, front, disk, j);
        step_away(a, seen.last(), disk, x);
    }
}

/// Going through the same paths again: what the first `i` of them decided
/// stands as it stood after them the first time, and everything else as it
/// stood at the end.
proof fn second_time(
    st: IndexState,
    seen: Seq<Observed>,
    disk: spec_fn(Seq<char>) -> bool,
    i: int,
    x: Seq<char>,
)
    requires
        st.complete(),
        all_seen_on(disk, seen),
        0 <= i <= seen.len(),
    ensures
        ({
            let end = after_events(st, seen).state;
            let a = after_events(st, seen.take(i)).state;
            let b = after_events(end, seen.take(i)).state;
            if settled(seen.take(i), x) {
                indexed(a, x) == indexed(b, x) && (indexed(a, x) ==> disk(x))
            } else {
                indexed(b, x) == indexed(end, x)
            }
        }),
    decreases i,
{
    if i > 0 {
        second_time(st, seen, disk, i - 1, x);
        let end = after_events(st, seen).state;
        let part = seen.take(i - 1);
        let o = seen[i - 1];
        let a = after_events(st, part).state;
        let b = after_events(end, part).state;
        assert(seen.take(i).drop_last() =~= part);
        assert(seen.take(i).last() == o);
        assert(seen_on(disk, o));
        events_keep(st, seen);
        events_keep(st, part);
        events_keep(end, part);
        stat_shows(a, o, x);
        stat_shows(b, o, x);
        if o.found is None {
            gone(st, seen, disk, i - 1);
            assert(all_seen_on(disk, part)) by {
                assert forall|n: int| 0 <= n < part.len() implies seen_on(
                    disk,
                    #[trigger] part[n],
                ) by {
                    assert(seen_on(disk, seen[n]));
                }
            }
            stays_away(end, part, disk, o.path@);
        } else if settles(o, x) && indexed(after_stat(a, o.path@, o.found), x) {
            assert(all_seen_on(disk, seq![o]));
            on_disk(o, disk, x);
        }
    }
}

/// Going through the same paths again takes nothing out.
proof fn nothing_more_removed(
    st: IndexState,
    seen: Seq<Observed>,
    disk: spec_fn(Seq<char>) -> bool,
    i: int,
)
    requires
        st.complete(),
        all_seen_on(disk, seen),
        0 <= i <= seen.len(),
    ensures
        after_events(after_events(st, seen).state, seen.take(i)).removed == 0,
        after_events(after_events(st, seen).state, seen.take(i)).upserted == after_events(
            st,
            seen.take(i),
        ).upserted,
    decreases i,
{
    if i > 0 {
        nothing_more_removed(st, seen, disk, i - 1);
        let end = after_events(st, seen).state;
        let part = seen.take(i - 1);
        let o = seen[i - 1];
        assert(seen.take(i).drop_last() =~= part);
        assert(seen.take(i).last() == o);
        events_keep(st, seen);
        if o.found is None {
            gone(st, seen, disk, i - 1);
            assert(all_seen_on(disk, part)) by {
                assert forall|n: int| 0 <= n < part.len() implies seen_on(
                    disk,
                    #[trigger] part[n],
                ) by {
                    assert(seen_on(disk, seen[n]));
                }
            }
            stays_away(end, part, disk, o.path@);
        }
    }
}

/// Applying the same events again while the disk does not change puts the
/// same number in, takes nothing out and leaves the same paths indexed; and
/// no path at which nothing was found is indexed.
pub proof fn events_apply_once(
    st: IndexState,
    seen: Seq<Observed>,
    disk: spec_fn(Seq<char>) -> bool,
)
    requires
        st.complete(),
        all_seen_on(disk, seen),
    ensures
        ({
            let first = after_events(st, seen);
            let again = after_events(first.state, seen);
            &&& again.upserted == first.upserted
            &&& again.removed == 0
            &&& again.state.pos.dom() == first.state.pos.dom()
            &&& forall|i: int|
                0 <= i < seen.len() && (#[trigger] seen[i]).found is None ==> !indexed(
                    first.state,
                    seen[i].path@,
                )
        }),
{
    let n = seen.len() as int;
    let first = after_events(st, seen);
    let again = after_events(first.state, seen);
    assert(seen.take(n) =~= seen);
    nothing_more_removed(st, seen, disk, n);
    events_keep(st, seen);
    events_keep(first.state, seen);
    assert forall|k: Seq<char>| again.state.pos.dom().contains(k) <==> first.state.pos.dom().contains(
        k,
    ) by {
        if again.state.pos.contains_key(k) {
            let e = again.state.entries[again.state.pos[k] as int];
            second_time(st, seen, disk, n, e.path@);
        }
        if first.state.pos.contains_key(k) {
            let e = first.state.entries[first.state.pos[k] as int];
            second_time(st, seen, disk, n, e.path@);
        }
    }
    assert(again.state.pos.dom() =~= first.state.pos.dom());
    assert forall|i: int| 0 <= i < seen.len() && (#[trigger] seen[i]).found is None implies !indexed(
        first.state,
        seen[i].path@,
    ) by {
        gone(st, seen, disk, i);
    }
}

/// The changes that the index of `root` covers.
pub open spec fn covered(root: Seq<char>, seen: Seq<Observed>) -> Seq<Observed> {
    seen.filter(|o: Observed| !pruned_path(root, o.path@))
}

/// Paths outside `root` or in folders that scans leave out do not matter: a
/// watched batch does what its other paths do, to the entries as to what is
/// cached, and nothing where there are none.
pub proof fn uncovered_paths_do_not_matter(st: IndexState, root: Seq<char>, seen: Seq<Observed>)
    ensures
        after_watch_batch(st, root, seen) == after_watch_batch(st, root, covered(root, seen)),
        batch_touches(st, root, seen) == batch_touches(st, root, covered(root, seen)),
        covered(root, seen).len() == 0 ==> !batch_touches(st, root, seen),
        covered(root, seen).len() == 0 ==> after_watch_batch(st, root, seen).state == st
            && after_watch_batch(st, root, seen).upserted == 0 && after_watch_batch(
            st,
            root,
            seen,
        ).removed == 0,
    decreases seen.len(),
{
    reveal(Seq::filter);
    if seen.len() > 0 {
        let front = seen.drop_last();
        uncovered_paths_do_not_matter(st, root, front);
        if !pruned_path(root, seen.last().path@) {
            assert(covered(root, seen) == covered(root, front).push(seen.last()));
            assert(covered(root, seen).drop_last() =~= covered(root, front));
        }
    }
}

/// An indexed path that is covered and no longer exists leaves the index with
/// everything below it, counts once as removed, and nothing else changes.
pub proof fn watched_path_vanishes(a: Applied, root: Seq<char>, o: Observed)
    requires
        a.state.complete(),
        !pruned_path(root, o.path@),
        !o.exists,
        indexed(a.state, o.path@),
    ensures
        after_watched(a, root, o).state.complete(),
        forall|e: FileEntry| #[trigger]
            after_watched(a, root, o).state.entries.contains(e) <==> a.state.entries.contains(e)
                && !under(e.path@, o.path@),
        after_watched(a, root, o).removed == a.removed + 1,
        after_watched(a, root, o).upserted == a.upserted,
{
    vanished_law(a.state, o.path@);
}

} // verus!
