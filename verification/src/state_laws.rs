//! What the watch queue, the undo journal, the pace of a scan, the remembered
//! searches and the index keep.

use crate::cache_laws::{latest_are_remembered, newest_first, storable, stored_all};
use crate::file_path::FilePath;
use crate::index_model::{
    after_events, after_stat, after_watch_batch, after_watched, has_key, insert_law, is_stale,
    merge_law, position_map, remove_all_law, stale_keys, stale_keys_contain, Applied, Found,
    IndexState, Observed,
};
use crate::indexer::{narrows, remembered, CachedQuery};
use crate::path_laws::same_key_same_path;
use crate::paths::{path_key, same_path, under};
use crate::scanner::pruned_path;
use crate::session::{
    after_batch, after_progress, browse_options, journaled, progress_due, row_limit, tree_options,
    PaceState,
};
use crate::types::FileEntry;
use crate::watcher::{after_report, after_watch, all_noted, has_path, is_quiet, WatchState};
use vstd::prelude::*;

verus! {

// ---------------------------------------------------------------------
// Watching

/// Only paths that were pending or were reported are pending, and none that
/// was is lost.
pub proof fn only_reported_paths_are_pending(
    paths: Seq<Seq<char>>,
    new: Seq<FilePath>,
    p: Seq<char>,
)
    ensures
        has_path(all_noted(paths, new), p) <==> has_path(paths, p) || exists|i: int|
            0 <= i < new.len() && same_path((#[trigger] new[i])@, p),
        paths.is_prefix_of(all_noted(paths, new)),
    decreases new.len(),
{
    if new.len() == 0 {
        assert(paths =~= paths.subrange(0, paths.len() as int));
    } else {
        let front = new.drop_last();
        let n = new.len() - 1;
        let a = all_noted(paths, front);
        let b = all_noted(paths, new);
        only_reported_paths_are_pending(paths, front, p);
        assert(paths =~= b.subrange(0, paths.len() as int)) by {
            assert(paths =~= a.subrange(0, paths.len() as int));
        }
        if has_path(a, p) {
            let i = choose|i: int| 0 <= i < a.len() && same_path(#[trigger] a[i], p);
            assert(same_path(b[i], p));
        }
        if has_path(b, p) {
            let i = choose|i: int| 0 <= i < b.len() && same_path(#[trigger] b[i], p);
            if i < a.len() {
                assert(same_path(a[i], p));
            } else {
                assert(same_path(new[n]@, p));
            }
        }
        if same_path(new[n]@, p) {
            if has_path(a, new[n]@) {
                let i = choose|i: int| 0 <= i < a.len() && same_path(#[trigger] a[i], new[n]@);
                assert(same_path(b[i], p));
            } else {
                assert(same_path(b[a.len() as int], p));
            }
        }
        if exists|i: int| 0 <= i < front.len() && same_path((#[trigger] front[i])@, p) {
            let i = choose|i: int| 0 <= i < front.len() && same_path((#[trigger] front[i])@, p);
            assert(same_path(new[i]@, p));
        }
        if exists|i: int| 0 <= i < new.len() && same_path((#[trigger] new[i])@, p) {
            let i = choose|i: int| 0 <= i < new.len() && same_path((#[trigger] new[i])@, p);
            if i < n {
                assert(same_path(front[i]@, p));
            }
        }
    }
}

/// A burst is handed on exactly when nothing has been reported for 400
/// milliseconds. What is reported while nothing is watched does not count, nor
/// does a report without paths.
pub proof fn bursts_end_after_quiet(
    s: WatchState,
    paths: Seq<FilePath>,
    t: int,
    now: int,
)
    ensures
        s.root is Some && paths.len() > 0 ==> {
            let u = after_report(s, paths, t);
            &&& is_quiet(u, now) <==> now - t >= 400
            &&& u.root == s.root
            &&& u.pending == all_noted(s.pending, paths)
        },
        s.root is None || paths.len() == 0 ==> after_report(s, paths, t) == s,
        s.root is None || s.pending.len() == 0 || s.last is None ==> !is_quiet(s, now),
{
    if s.root is Some && paths.len() > 0 {
        only_reported_paths_are_pending(s.pending, paths, paths[0]@);
        assert(same_path(paths[0]@, paths[0]@));
        assert(has_path(all_noted(s.pending, paths), paths[0]@));
    }
}

/// Watching a folder forgets what is pending. The watch goes on where it is
/// the same folder, and otherwise goes over to it, if it can be watched.
pub proof fn watches_go_over(s: WatchState, p: Seq<char>, started: bool)
    ensures
        after_watch(s, p, started).pending.len() == 0,
        after_watch(s, p, started).last is None,
        s.root matches Some(r) ==> same_path(r, p) ==> after_watch(s, p, started).root == s.root,
        !(s.root matches Some(r) && same_path(r, p)) ==> after_watch(s, p, started).root
            == if started {
            Some(p)
        } else {
            None
        },
{
}

// ---------------------------------------------------------------------
// Undo

/// The journal after these deletes.
pub open spec fn journal_of(history: Seq<FilePath>) -> Seq<FilePath>
    decreases history.len(),
{
    if history.len() == 0 {
        Seq::empty()
    } else {
        journaled(journal_of(history.drop_last()), history.last())
    }
}

/// The journal holds the last hundred deletes, in their order.
pub proof fn last_hundred_can_be_undone(history: Seq<FilePath>)
    ensures
        history.len() <= 100 ==> journal_of(history) == history,
        history.len() > 100 ==> journal_of(history) == history.skip(history.len() - 100),
    decreases history.len(),
{
    if history.len() > 0 {
        let front = history.drop_last();
        last_hundred_can_be_undone(front);
        if history.len() <= 100 {
            assert(journal_of(history) =~= history);
        } else {
            assert(journal_of(history) =~= history.skip(history.len() - 100));
        }
    } else {
        assert(journal_of(history) =~= history);
    }
}

// ---------------------------------------------------------------------
// The app

/// What the app asks for where the user does not say: two hundred rows, one
/// level, fuzzy matching; and what it makes of what the user says: 1 to 5000
/// rows, 1 to 32 levels, folders first.
pub proof fn app_defaults(limit: Option<usize>, depth: Option<usize>, fuzzy: Option<bool>)
    ensures
        ({
            let rows = match limit {
                None => 200int,
                Some(n) => if n == 0 {
                    1
                } else if n > 5000 {
                    5000
                } else {
                    n as int
                },
            };
            let levels = match depth {
                None => 1int,
                Some(n) => if n == 0 {
                    1
                } else if n > 32 {
                    32
                } else {
                    n as int
                },
            };
            &&& browse_options(limit, depth).limit == rows
            &&& browse_options(limit, depth).dirs_first
            &&& browse_options(limit, depth).max_depth matches Some(d) && d == levels
            &&& tree_options(limit, fuzzy).limit == rows
            &&& tree_options(limit, fuzzy).fuzzy == (fuzzy != Some(false))
        }),
{
}

/// Rows are asked for as the user says, between 1 and 5000, and otherwise as
/// the default says.
pub proof fn rows_are_asked_for(limit: Option<usize>, default: usize)
    requires
        1 <= default <= 5000,
    ensures
        row_limit(None, default) == default,
        limit matches Some(n) ==> row_limit(limit, default) == if n == 0 {
            1
        } else if n > 5000 {
            5000
        } else {
            n as int
        },
{
}

/// A scan merges what it has staged when 600 milliseconds have passed since
/// the last time, and shows progress when 150 have.
pub proof fn scans_keep_their_pace(s: PaceState, batch: Seq<FileEntry>, now: u64)
    ensures
        progress_due(s, now) <==> (s.last_progress matches Some(t) ==> now - t >= 150),
        batch.len() > 0 && now - s.last_merge >= 600 ==> {
            let t = after_batch(s, batch, now, true);
            t.staged.len() == 0 && t.last_merge == now && t.walked == s.walked + batch
        },
        batch.len() > 0 && now - s.last_merge < 600 ==> {
            let t = after_batch(s, batch, now, true);
            t.staged == s.staged + batch && t.last_merge == s.last_merge && t.walked == s.walked
                + batch
        },
        after_batch(s, batch, now, false) == s,
        batch.len() == 0 ==> after_batch(s, batch, now, true) == s,
{
}

/// Progress is kept whether it is shown or not; showing it hands out the
/// counts of all that was walked.
pub proof fn progress_is_kept(s: PaceState, files: u64, dirs: u64, now: u64)
    ensures
        after_progress(s, files, dirs, now).files == files,
        after_progress(s, files, dirs, now).dirs == dirs,
        after_progress(s, files, dirs, now).staged == s.staged,
        after_progress(s, files, dirs, now).walked == s.walked,
        progress_due(s, now) ==> after_progress(s, files, dirs, now).shown == s.walked
            && after_progress(s, files, dirs, now).last_progress == Some(now),
        !progress_due(s, now) ==> after_progress(s, files, dirs, now).shown == s.shown
            && after_progress(s, files, dirs, now).last_progress == s.last_progress,
{
}

// ---------------------------------------------------------------------
// Remembered searches

/// A search is remembered exactly when its query has two characters or more
/// and it has no more than twenty thousand candidates; the last eight queries
/// are.
pub proof fn last_eight_are_remembered(history: Seq<CachedQuery>, p: Seq<int>, c: CachedQuery)
    requires
        newest_first(history, p),
    ensures
        storable(c) <==> c.query@.len() >= 2 && c.candidates@.len() <= 20_000,
        stored_all(history).len() == if p.len() < 8 {
            p.len() as int
        } else {
            8
        },
        forall|a: int|
            0 <= a < stored_all(history).len() ==> #[trigger] stored_all(history)[a]
                == history[p[a]],
        !storable(c) ==> remembered(stored_all(history), c) == stored_all(history),
{
    latest_are_remembered(history, p);
}

/// A remembered search can be narrowed to another exactly when it was of the
/// same kind and its query is a beginning of the other.
pub proof fn prefixes_are_narrowed(c: CachedQuery, q: Seq<char>, fuzzy: bool)
    ensures
        narrows(c, q, fuzzy) <==> c.fuzzy == fuzzy && c.query@.is_prefix_of(q),
{
}

// ---------------------------------------------------------------------
// The index

/// Merging entries replaces those with the same paths: each path is then
/// mapped to the last of the entries that has it.
pub proof fn merging_updates(st: IndexState, es: Seq<FileEntry>, i: int)
    requires
        st.sound(),
        0 <= i < es.len(),
        forall|j: int| i < j < es.len() ==> (#[trigger] es[j]).key() != es[i].key(),
    ensures
        st.merged(es).lookup(es[i].key()) == Some(es[i]),
    decreases es.len(),
{
    let front = es.drop_last();
    merge_law(st, front);
    insert_law(st.merged(front), es.last());
    if i < front.len() {
        assert forall|j: int| i < j < front.len() implies (#[trigger] front[j]).key()
            != front[i].key() by {
            assert(es[j].key() != es[i].key());
        }
        merging_updates(st, front, i);
        assert(es[es.len() - 1].key() != es[i].key());
    }
}

/// Of entries that share a path, the last is the one that the path is mapped
/// to.
pub proof fn last_of_equal_paths_is_mapped(entries: Seq<FileEntry>, i: int)
    requires
        0 <= i < entries.len(),
        forall|j: int| i < j < entries.len() ==> (#[trigger] entries[j]).key() != entries[i].key(),
    ensures
        position_map(entries).contains_key(entries[i].key()),
        position_map(entries)[entries[i].key()] == i,
    decreases entries.len(),
{
    let front = entries.drop_last();
    if i < front.len() {
        assert forall|j: int| i < j < front.len() implies (#[trigger] front[j]).key()
            != front[i].key() by {
            assert(entries[j].key() != entries[i].key());
        }
        last_of_equal_paths_is_mapped(front, i);
        assert(entries[entries.len() - 1].key() != entries[i].key());
    }
}

/// Another look at a file puts in what is there now and leaves every other
/// path as it was.
pub proof fn looks_refresh_files(st: IndexState, path: Seq<char>, f: Found, k: Seq<char>)
    requires
        st.sound(),
        !f.entry.is_dir,
    ensures
        after_stat(st, path, Some(f)).lookup(f.entry.key()) == Some(f.entry),
        k != f.entry.key() ==> after_stat(st, path, Some(f)).lookup(k) == st.lookup(k),
{
    insert_law(st, f.entry);
}

/// What is put in is counted, one for each path at which something was found.
pub proof fn events_are_counted(st: IndexState, seen: Seq<Observed>)
    ensures
        after_events(st, seen).upserted == seen.filter(|o: Observed| o.found is Some).len(),
        after_events(st, seen).upserted + after_events(st, seen).removed <= seen.len(),
    decreases seen.len(),
{
    reveal(Seq::filter);
    if seen.len() > 0 {
        events_are_counted(st, seen.drop_last());
    }
}

/// A path at which nothing is found counts as removed exactly when it was
/// indexed just before.
pub proof fn removals_are_counted(st: IndexState, seen: Seq<Observed>)
    requires
        seen.len() > 0,
    ensures
        ({
            let before = after_events(st, seen.drop_last());
            let o = seen.last();
            after_events(st, seen).removed == before.removed + if o.found is None
                && before.state.pos.contains_key(path_key(o.path@)) {
                1int
            } else {
                0
            }
        }),
{
}

/// Another look at a folder refreshes everything in it: each path in it is
/// mapped to what is there now. Paths that are not below it stay as they were.
pub proof fn looks_refresh_folders(
    st: IndexState,
    path: Seq<char>,
    f: Found,
    i: int,
    k: Seq<char>,
)
    requires
        st.complete(),
        f.entry.is_dir,
    ensures
        0 <= i < f.children@.len() && (forall|j: int|
            i < j < f.children@.len() ==> (#[trigger] f.children@[j]).key()
                != f.children@[i].key()) ==> after_stat(st, path, Some(f)).lookup(
            f.children@[i].key(),
        ) == Some(f.children@[i]),
        st.lookup(k) matches Some(e) ==> !under(e.path@, path) && k != f.entry.key() && !has_key(
            f.children@,
            k,
        ) ==> after_stat(st, path, Some(f)).lookup(k) == Some(e),
{
    let a = st.inserted(f.entry);
    let ks = stale_keys(a.entries, path, f.children@);
    let b = a.removed_all(ks);
    insert_law(st, f.entry);
    remove_all_law(a, ks);
    merge_law(b, f.children@);
    stale_keys_contain(a.entries, path, f.children@);
    if 0 <= i < f.children@.len() && (forall|j: int|
        i < j < f.children@.len() ==> (#[trigger] f.children@[j]).key() != f.children@[i].key()) {
        merging_updates(b, f.children@, i);
    }
    if let Some(e) = st.lookup(k) {
        if !under(e.path@, path) && k != f.entry.key() && !has_key(f.children@, k) {
            assert(a.lookup(k) == Some(e));
            if ks.contains(k) {
                let n = choose|n: int|
                    0 <= n < a.entries.len() && is_stale(#[trigger] a.entries[n], path, f.children@)
                        && a.entries[n].key() == k;
                same_key_same_path(a.entries[n].path@, e.path@);
            }
        }
    }
}

/// A covered path that exists is looked at again, whatever its name, and
/// counts as put in where something is there; events are applied one after the
/// other.
pub proof fn covered_paths_are_looked_at(
    a: Applied,
    st: IndexState,
    root: Seq<char>,
    o: Observed,
    seen: Seq<Observed>,
)
    ensures
        !pruned_path(root, o.path@) && o.exists ==> {
            let b = after_watched(a, root, o);
            &&& b.state == after_stat(a.state, o.path@, o.found)
            &&& b.upserted == a.upserted + if o.found is Some {
                1int
            } else {
                0
            }
            &&& b.removed == a.removed
        },
        after_watch_batch(st, root, seen.push(o)) == after_watched(
            after_watch_batch(st, root, seen),
            root,
            o,
        ),
        after_events(st, seen.push(o)).state == after_stat(
            after_events(st, seen).state,
            o.path@,
            o.found,
        ),
        after_events(st, Seq::empty()).state == st,
        after_watch_batch(st, root, Seq::empty()).state == st,
{
    assert(seen.push(o).drop_last() =~= seen);
}

} // verus!
