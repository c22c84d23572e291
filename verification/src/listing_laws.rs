//! What listings and filtered trees show, and how many children their rows
//! tell of.

use crate::counts::children;
use crate::index_model::unique_paths;
use crate::order_laws::{
    hanging_is_reached, hangs, reached_hangs, rows_stand_in_order, share_folder,
};
use crate::path_laws::same_key_same_path;
use crate::paths::{levels_below, parent, path_key, same_path, under};
use crate::query::{
    chunks, clamped, filtered_rows, is_listed, listed_rows, listed_set, listing_depth, listing_len,
    looks, score_of_key, search_hits, shown_count, shows_hits, shows_tree, substring_hits,
    tree_looks, visible_set, Hit, ListOptions, ListedEntry, MatchedEntry, QueryOptions, TreeEntry,
    MAX_ROWS,
};
use crate::search_laws::{asked_for, wanted};
use crate::session::{
    browsed, browsed_set, entries_at, is_browse_row, shows_found, shows_listed, BrowseRow,
    SearchHit,
};
use crate::text::{text_less, trimmed};
use crate::tree::height;
use crate::tree_laws::{only_items_shown, unique_items};
use crate::types::FileEntry;
use vstd::prelude::*;

verus! {

/// A listing reaches as deep as asked for: an entry is in it exactly when it
/// lies below the folder, no more levels than the limit says. A limit counts
/// from 1 to 64; without one every level is shown.
pub proof fn listings_reach_as_asked(
    entries: Seq<FileEntry>,
    dir: Seq<char>,
    opts: ListOptions,
    x: usize,
)
    ensures
        listed_set(entries, dir, listing_depth(opts)).contains(x) <==> x < entries.len() && ({
            let e = entries[x as int];
            let n = levels_below(e.path@, dir);
            &&& under(e.path@, dir)
            &&& n > 0
            &&& opts.max_depth matches Some(d) ==> n <= if d == 0 {
                1
            } else if d > 64 {
                64
            } else {
                d as int
            }
        }),
{
}

/// As many rows are shown as asked for, between 1 and 5000.
pub proof fn row_limits_are_kept(limit: usize)
    ensures
        clamped(limit as int, 1, MAX_ROWS as int) == asked_for(limit),
{
}

/// The children of a folder are the entries whose parent it is, files and
/// folders, hidden or not, each counted once.
pub proof fn children_are_counted(entries: Seq<FileEntry>, d: Seq<char>)
    ensures
        children(entries, None, path_key(d)) == entries.filter(
            |e: FileEntry| parent(e.path@) matches Some(p) && same_path(p, d),
        ).len(),
    decreases entries.len(),
{
    reveal(Seq::filter);
    if entries.len() > 0 {
        children_are_counted(entries.drop_last(), d);
        if let Some(p) = parent(entries.last().path@) {
            same_key_same_path(p, d);
        }
    }
}

/// A folder's row tells of all its children in the index, a file's of none.
pub proof fn rows_tell_of_children(entries: Seq<FileEntry>, e: FileEntry)
    ensures
        e.is_dir ==> shown_count(entries, e) == entries.filter(
            |c: FileEntry| parent(c.path@) matches Some(p) && same_path(p, e.path@),
        ).len(),
        !e.is_dir ==> shown_count(entries, e) == 0,
{
    children_are_counted(entries, e.path@);
}

/// In a filtered tree siblings that hang below the folder stand folders first
/// and then by lowercase name.
pub proof fn filtered_siblings_stand_in_order(
    entries: Seq<FileEntry>,
    hits: Seq<Hit>,
    dir: Seq<char>,
    i: int,
    j: int,
)
    requires
        unique_paths(entries),
        0 <= i < j < filtered_rows(entries, hits, dir).len(),
        ({
            let rows = filtered_rows(entries, hits, dir);
            share_folder(entries[rows[i] as int], entries[rows[j] as int]) && (same_path(
                parent(entries[rows[i] as int].path@).unwrap(),
                dir,
            ) || hangs(entries, visible_set(entries, hits, dir), dir, rows[j]))
        }),
    ensures
        ({
            let rows = filtered_rows(entries, hits, dir);
            let a = entries[rows[i] as int];
            let b = entries[rows[j] as int];
            &&& !(b.is_dir && !a.is_dir)
            &&& a.is_dir == b.is_dir ==> !text_less(b.name_lower@, a.name_lower@)
        }),
{
    let items = visible_set(entries, hits, dir);
    unique_items(entries, items);
    only_items_shown(entries, items, dir, true, j);
    rows_stand_in_order(entries, items, dir, true, i, j);
}

/// The command line shows what hangs below the folder, all of it and nothing
/// else.
pub proof fn browsing_shows_what_hangs(entries: Seq<FileEntry>, dir: Seq<char>, x: usize)
    ensures
        browsed(entries, dir).contains(x) <==> hangs(entries, browsed_set(entries, dir), dir, x),
        browsed_set(entries, dir).contains(x) <==> x < entries.len() && !same_path(
            entries[x as int].path@,
            dir,
        ),
{
    let items = browsed_set(entries, dir);
    let rows = browsed(entries, dir);
    reached_hangs(entries, items, true, dir, dir, height(entries));
    if rows.contains(x) {
        let i = choose|i: int| 0 <= i < rows.len() && rows[i] == x;
    }
    if hangs(entries, items, dir, x) {
        hanging_is_reached(entries, items, true, dir, height(entries), x);
    }
}

/// How often a search looks whether to give up: once at first, once after the
/// substring hits, and where it goes on with fuzzy ones, before every 4096
/// entries and once at the end.
pub proof fn searches_look_often(
    entries: Seq<FileEntry>,
    query: Seq<char>,
    opts: QueryOptions,
    full: int,
    rest: int,
)
    requires
        trimmed(query).len() > 0,
        wanted(query).len() > 0,
        entries.len() == 4096 * full + rest,
        full >= 0,
        0 <= rest < 4096,
    ensures
        !opts.fuzzy || substring_hits(entries, wanted(query)).len() >= asked_for(opts.limit)
            ==> looks(entries, query, opts) == 2,
        opts.fuzzy && substring_hits(entries, wanted(query)).len() < asked_for(opts.limit)
            ==> looks(entries, query, opts) == 3 + full + if rest > 0 {
            1int
        } else {
            0
        },
        tree_looks(entries, query, opts) == looks(entries, query, opts) + if search_hits(
            entries,
            query,
            opts,
        ).len() == 0 {
            1int
        } else {
            3
        },
{
    assert(chunks(entries.len() as int) == full + if rest > 0 {
        1int
    } else {
        0
    });
}

/// As many rows of a listing are shown as there are, but no more than asked
/// for.
pub proof fn listings_are_cut(entries: Seq<FileEntry>, dir: Seq<char>, opts: ListOptions)
    ensures
        listing_len(entries, dir, opts) == if listed_rows(entries, dir, opts).len() < asked_for(
            opts.limit,
        ) {
            listed_rows(entries, dir, opts).len() as int
        } else {
            asked_for(opts.limit)
        },
{
}

/// Rows show the entries that they stand for, with their number of children;
/// hits show them with their scores.
pub proof fn rows_show_their_entries(
    row: ListedEntry,
    r: Seq<MatchedEntry>,
    t: Seq<TreeEntry>,
    entries: Seq<FileEntry>,
    hits: Seq<Hit>,
    dir: Seq<char>,
    at: usize,
    i: int,
)
    ensures
        is_listed(row, entries, at) ==> *row.entry == entries[at as int] && row.child_count
            == shown_count(entries, *row.entry),
        shows_hits(r, entries, hits) && 0 <= i < hits.len() ==> r.len() == hits.len()
            && *r[i].entry == entries[hits[i].at as int] && r[i].score == hits[i].score,
        shows_tree(t, entries, hits, dir) && 0 <= i < filtered_rows(entries, hits, dir).len() ==> {
            let e = entries[filtered_rows(entries, hits, dir)[i] as int];
            let s = score_of_key(entries, hits, e.key());
            &&& t.len() == filtered_rows(entries, hits, dir).len()
            &&& *t[i].entry == e
            &&& t[i].matched == (s is Some)
            &&& s matches Some(n) ==> t[i].score == n
            &&& s is None ==> t[i].score == 0
            &&& t[i].child_count == shown_count(entries, e)
        },
{
    if shows_hits(r, entries, hits) && 0 <= i < hits.len() {
        assert(*r[i].entry == entries[hits[i].at as int]);
    }
    if shows_tree(t, entries, hits, dir) && 0 <= i < filtered_rows(entries, hits, dir).len() {
        assert(*t[i].entry == entries[filtered_rows(entries, hits, dir)[i] as int]);
    }
}

/// The rows of the app show path, name, kind and size of their entries as they
/// are, and the number of their children; rows of a listing are no matches.
pub proof fn app_rows_show_their_entries(
    h: SearchHit,
    entries: Seq<FileEntry>,
    hits: Seq<Hit>,
    at: usize,
)
    ensures
        shows_listed(h, entries, at) || shows_found(h, entries, hits, at) ==> {
            let e = entries[at as int];
            &&& at < entries.len()
            &&& h.path@ == e.path@
            &&& h.name@ == e.name@
            &&& h.is_dir == e.is_dir
            &&& h.size == e.size
            &&& h.child_count == shown_count(entries, e)
        },
        shows_listed(h, entries, at) ==> !h.matched && h.score == 0,
        shows_found(h, entries, hits, at) ==> {
            let s = score_of_key(entries, hits, entries[at as int].key());
            &&& h.matched == (s is Some)
            &&& s matches Some(n) ==> h.score == n
            &&& s is None ==> h.score == 0
        },
{
}

/// A row of the command line tells how deep it lies, from 1 on, and how many
/// of the rows lie directly in it; of a folder at the last level that is not
/// known.
pub proof fn browsed_rows_tell_of_children(
    row: BrowseRow,
    entries: Seq<FileEntry>,
    dir: Seq<char>,
    max: usize,
    at: usize,
)
    requires
        is_browse_row(row, entries, dir, max, at),
    ensures
        ({
            let e = entries[at as int];
            let n = levels_below(e.path@, dir);
            &&& row.level == if under(e.path@, dir) && n > 1 {
                n
            } else {
                1
            }
            &&& row.count is None <==> e.is_dir && row.level == max
            &&& row.count matches Some(c) ==> c == if e.is_dir {
                entries_at(entries, browsed(entries, dir)).filter(
                    |x: FileEntry| parent(x.path@) matches Some(p) && same_path(p, e.path@),
                ).len()
            } else {
                0
            }
        }),
{
    children_are_counted(entries_at(entries, browsed(entries, dir)), entries[at as int].path@);
}

} // verus!
