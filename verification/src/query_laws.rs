//! What holds of every search and every listing.

use crate::index_model::unique_paths;
use crate::path_laws::{body_take, parent_parts, parent_shorter, same_key_same_path};
use crate::paths::{lead_parts, parent, parts, path_key, same_path, under};
use crate::query::{
    clamped, filtered_rows, fuzzy_scores, hit_order, hit_path, is_context, is_visible, known_score,
    listed_rows, listed_set, listing_depth, score_of_key, score_order, scored_set, search_hits,
    search_text, substring_set, tier_at, visible_set, within_depth, Hit, ListOptions, QueryOptions,
    MAX_ROWS,
};
use crate::sort::{lists, ordered, ordered_lists};
use crate::text::{has_text, trimmed, trimmed_once};
use crate::tree::empty_tree;
use crate::tree_laws::{
    nothing_dropped, nothing_twice, only_items_shown, rows_are_items, unique_items,
};
use crate::types::FileEntry;
use vstd::prelude::*;

verus! {

/// The substring hits are the entries whose names hold the text, in order.
pub proof fn substring_listed(entries: Seq<FileEntry>, q: Seq<char>)
    ensures
        lists(
            ordered(substring_set(entries, q), hit_order(entries, q)),
            substring_set(entries, q),
            hit_order(entries, q),
        ),
{
    let set = substring_set(entries, q);
    let before = hit_order(entries, q);
    ordered_lists(set, usize::MAX + 1, before);
}

/// The fuzzy hits are the entries with a score, in order.
pub proof fn scored_listed(scores: Seq<Option<u16>>)
    ensures
        lists(
            ordered(scored_set(scores), score_order(scores)),
            scored_set(scores),
            score_order(scores),
        ),
{
    let set = scored_set(scores);
    let before = score_order(scores);
    ordered_lists(set, usize::MAX + 1, before);
}

/// The limit of a search.
pub open spec fn row_limit(opts: QueryOptions) -> int {
    clamped(opts.limit as int, 1, MAX_ROWS as int)
}

/// A search has at most as many hits as its limit allows, and never more than
/// five thousand.
pub proof fn search_is_bounded(entries: Seq<FileEntry>, query: Seq<char>, opts: QueryOptions)
    ensures
        search_hits(entries, query, opts).len() <= row_limit(opts),
        row_limit(opts) <= 5000,
{
}

/// The positions of a search's hits, in parts: the substring hits that are
/// shown, then the fuzzy hits that are shown.
pub proof fn search_parts(entries: Seq<FileEntry>, query: Seq<char>, opts: QueryOptions)
    ensures
        ({
            let q = search_text(query);
            let a = ordered(substring_set(entries, q), hit_order(entries, q));
            let scores = fuzzy_scores(entries, q);
            let b = ordered(scored_set(scores), score_order(scores));
            let hits = search_hits(entries, query, opts);
            forall|i: int|
                0 <= i < hits.len() ==> {
                    let h = #[trigger] hits[i];
                    if i < a.len() {
                        h.at == a[i] && h.score == known_score(tier_at(entries, q, a[i]))
                    } else {
                        &&& i - a.len() < b.len()
                        &&& h.at == b[i - a.len()]
                        &&& h.score == scores[b[i - a.len()] as int].unwrap() as u32
                    }
                }
        }),
{
}

/// Every hit is an entry of the index, and no entry is hit twice.
pub proof fn search_hits_are_distinct(
    entries: Seq<FileEntry>,
    query: Seq<char>,
    opts: QueryOptions,
    i: int,
    j: int,
)
    requires
        0 <= i < j < search_hits(entries, query, opts).len(),
    ensures
        search_hits(entries, query, opts)[i].at < entries.len(),
        search_hits(entries, query, opts)[j].at < entries.len(),
        search_hits(entries, query, opts)[i].at != search_hits(entries, query, opts)[j].at,
{
    let q = search_text(query);
    let set = substring_set(entries, q);
    let a = ordered(set, hit_order(entries, q));
    let scores = fuzzy_scores(entries, q);
    let fuzzy = scored_set(scores);
    let b = ordered(fuzzy, score_order(scores));
    search_parts(entries, query, opts);
    substring_listed(entries, q);
    scored_listed(scores);
    if j < a.len() {
        assert(a.contains(a[i]) && a.contains(a[j]));
        assert(hit_order(entries, q)(a[i], a[j]));
    } else if i < a.len() {
        assert(a.contains(a[i]));
        assert(b.contains(b[j - a.len()]));
    } else {
        assert(b.contains(b[i - a.len()]) && b.contains(b[j - a.len()]));
        assert(score_order(scores)(b[i - a.len()], b[j - a.len()]));
    }
}

/// A search that does not fill its limit shows every entry whose name holds
/// the text, each with the score of its kind of match.
pub proof fn search_shows_all_substring_hits(
    entries: Seq<FileEntry>,
    query: Seq<char>,
    opts: QueryOptions,
    x: usize,
)
    requires
        search_text(query).len() > 0,
        x < entries.len(),
        tier_at(entries, search_text(query), x) is Some,
        search_hits(entries, query, opts).len() < row_limit(opts),
    ensures
        exists|i: int|
            0 <= i < search_hits(entries, query, opts).len() && (#[trigger] search_hits(
                entries,
                query,
                opts,
            )[i]).at == x && Some(search_hits(entries, query, opts)[i].score) == tier_at(
                entries,
                search_text(query),
                x,
            ),
{
    let q = search_text(query);
    let set = substring_set(entries, q);
    let a = ordered(set, hit_order(entries, q));
    let hits = search_hits(entries, query, opts);
    substring_listed(entries, q);
    search_parts(entries, query, opts);
    assert(a.contains(x));
    let i = choose|i: int| 0 <= i < a.len() && a[i] == x;
    assert(hits[i].at == x);
}

/// Hits come best first: substring hits by descending score and, for equal
/// scores, by ascending length of name; then fuzzy hits by descending score.
pub proof fn search_ranks_best_first(
    entries: Seq<FileEntry>,
    query: Seq<char>,
    opts: QueryOptions,
    i: int,
    j: int,
)
    requires
        0 <= i < j < search_hits(entries, query, opts).len(),
    ensures
        ({
            let q = search_text(query);
            let x = search_hits(entries, query, opts)[i];
            let y = search_hits(entries, query, opts)[j];
            &&& tier_at(entries, q, y.at) is Some ==> tier_at(entries, q, x.at) is Some
            &&& (tier_at(entries, q, x.at) is Some) == (tier_at(entries, q, y.at) is Some)
                ==> x.score >= y.score
            &&& tier_at(entries, q, y.at) is Some && x.score == y.score ==> crate::text::byte_len(
                entries[x.at as int].name@,
            ) <= crate::text::byte_len(entries[y.at as int].name@)
        }),
{
    let q = search_text(query);
    let set = substring_set(entries, q);
    let a = ordered(set, hit_order(entries, q));
    let scores = fuzzy_scores(entries, q);
    let fuzzy = scored_set(scores);
    let b = ordered(fuzzy, score_order(scores));
    search_parts(entries, query, opts);
    substring_listed(entries, q);
    scored_listed(scores);
    if j < a.len() {
        assert(hit_order(entries, q)(a[i], a[j]));
    } else {
        assert(b.contains(b[j - a.len()]));
        if i < a.len() {
            assert(a.contains(a[i]));
        } else {
            assert(b.contains(b[i - a.len()]));
            assert(score_order(scores)(b[i - a.len()], b[j - a.len()]));
        }
    }
}

/// A listing, before it is cut off, shows every entry below the folder that
/// is not too deep, once where paths are unique; without a limit no entry is
/// too deep.
pub proof fn listing_is_complete(
    entries: Seq<FileEntry>,
    dir: Seq<char>,
    opts: ListOptions,
    x: usize,
)
    requires
        unique_paths(entries),
        x < entries.len(),
        within_depth(entries[x as int], dir, listing_depth(opts)),
    ensures
        listed_rows(entries, dir, opts).contains(x),
        listed_rows(entries, dir, opts).no_duplicates(),
{
    let set = listed_set(entries, dir, listing_depth(opts));
    unique_items(entries, set);
    nothing_dropped(entries, set, dir, opts.dirs_first, x);
    nothing_twice(entries, set, dir, opts.dirs_first);
}

/// A listing, before it is cut off, is the entries below the folder that are
/// not too deep in the order of a tree: each of them once and nothing else.
pub proof fn listing_is_exact(
    entries: Seq<FileEntry>,
    dir: Seq<char>,
    opts: ListOptions,
    below: Seq<usize>,
)
    requires
        unique_paths(entries),
        below.no_duplicates(),
        forall|x: usize| #[trigger]
            below.contains(x) <==> x < entries.len() && within_depth(
                entries[x as int],
                dir,
                listing_depth(opts),
            ),
    ensures
        listed_rows(entries, dir, opts).to_multiset() == below.to_multiset(),
        listed_rows(entries, dir, opts).len() == below.len(),
{
    let set = listed_set(entries, dir, listing_depth(opts));
    assert(below.to_set() =~= set) by {
        assert forall|x: usize| below.to_set().contains(x) <==> set.contains(x) by {
            assert(below.to_set().contains(x) <==> below.contains(x));
        }
    }
    unique_items(entries, set);
    assert forall|i: int| 0 <= i < below.len() implies #[trigger] below[i] < entries.len() by {
        assert(below.contains(below[i]));
    }
    rows_are_items(entries, below, dir, opts.dirs_first);
}

/// A filtered tree shows every hit and every folder on the way to one, each
/// once where paths are unique.
pub proof fn tree_shows_hits_in_place(
    entries: Seq<FileEntry>,
    hits: Seq<Hit>,
    dir: Seq<char>,
    j: int,
    x: usize,
)
    requires
        unique_paths(entries),
        0 <= j < hits.len(),
        x < entries.len(),
        hits[j].at == x || is_context(hit_path(entries, hits, j), dir, entries[x as int].key()),
    ensures
        filtered_rows(entries, hits, dir).contains(x),
        filtered_rows(entries, hits, dir).no_duplicates(),
{
    let set = visible_set(entries, hits, dir);
    assert(path_key(hit_path(entries, hits, j)) == entries[x as int].key() || is_context(
        hit_path(entries, hits, j),
        dir,
        entries[x as int].key(),
    ));
    unique_items(entries, set);
    nothing_dropped(entries, set, dir, true, x);
    nothing_twice(entries, set, dir, true);
}

/// A row of a filtered tree is marked as a match exactly when its path is
/// that of a hit; other rows have the score 0.
pub proof fn tree_marks_hits(entries: Seq<FileEntry>, hits: Seq<Hit>, k: Seq<char>)
    ensures
        score_of_key(entries, hits, k) is Some <==> exists|j: int|
            0 <= j < hits.len() && path_key(#[trigger] hit_path(entries, hits, j)) == k,
        score_of_key(entries, hits, k) is None ==> known_score(score_of_key(entries, hits, k)) == 0,
    decreases hits.len(),
{
    if hits.len() > 0 {
        let front = hits.drop_last();
        let n = hits.len() - 1;
        tree_marks_hits(entries, front, k);
        assert(hit_path(entries, hits, n) == entries[hits.last().at as int].path@);
        if exists|j: int|
            0 <= j < front.len() && path_key(#[trigger] hit_path(entries, front, j)) == k {
            let j = choose|j: int|
                0 <= j < front.len() && path_key(#[trigger] hit_path(entries, front, j)) == k;
            assert(hit_path(entries, hits, j) == hit_path(entries, front, j));
        }
        if exists|j: int|
            0 <= j < hits.len() && path_key(#[trigger] hit_path(entries, hits, j)) == k {
            let j = choose|j: int|
                0 <= j < hits.len() && path_key(#[trigger] hit_path(entries, hits, j)) == k;
            if j < n {
                assert(hit_path(entries, front, j) == hit_path(entries, hits, j));
            }
        }
    }
}

/// Without fuzzy matching every hit is an entry whose name holds the text.
pub proof fn plain_search_shows_only_substring_hits(
    entries: Seq<FileEntry>,
    query: Seq<char>,
    opts: QueryOptions,
    i: int,
)
    requires
        !opts.fuzzy,
        0 <= i < search_hits(entries, query, opts).len(),
    ensures
        ({
            let h = search_hits(entries, query, opts)[i];
            h.at < entries.len() && tier_at(entries, search_text(query), h.at) == Some(h.score)
        }),
{
    let q = search_text(query);
    let a = ordered(substring_set(entries, q), hit_order(entries, q));
    search_parts(entries, query, opts);
    substring_listed(entries, q);
    let h = search_hits(entries, query, opts)[i];
    assert(a.contains(a[i]));
}

/// A listing shows only entries below the folder that are not too deep.
pub proof fn listing_shows_nothing_else(
    entries: Seq<FileEntry>,
    dir: Seq<char>,
    opts: ListOptions,
    i: int,
)
    requires
        0 <= i < listed_rows(entries, dir, opts).len(),
    ensures
        ({
            let x = listed_rows(entries, dir, opts)[i];
            x < entries.len() && within_depth(entries[x as int], dir, listing_depth(opts))
        }),
{
    let set = listed_set(entries, dir, listing_depth(opts));
    only_items_shown(entries, set, dir, opts.dirs_first, i);
}

/// A filtered tree shows only hits and folders on the way to one.
pub proof fn tree_shows_nothing_else(
    entries: Seq<FileEntry>,
    hits: Seq<Hit>,
    dir: Seq<char>,
    i: int,
)
    requires
        0 <= i < filtered_rows(entries, hits, dir).len(),
    ensures
        ({
            let x = filtered_rows(entries, hits, dir)[i];
            x < entries.len() && is_visible(entries, hits, dir, entries[x as int].key())
        }),
{
    only_items_shown(entries, visible_set(entries, hits, dir), dir, true, i);
}

/// A fuzzy search extends the plain one: it begins with the same hits, adds
/// nothing where they fill the limit, and what it adds are entries whose
/// names do not hold the text, the best first and none twice.
pub proof fn fuzzy_search_extends(entries: Seq<FileEntry>, query: Seq<char>, limit: usize)
    ensures
        ({
            let q = search_text(query);
            let plain = search_hits(entries, query, QueryOptions { limit, fuzzy: false });
            let all = search_hits(entries, query, QueryOptions { limit, fuzzy: true });
            &&& plain.is_prefix_of(all)
            &&& plain.len() == row_limit(QueryOptions { limit, fuzzy: true }) ==> all == plain
            &&& forall|i: int|
                plain.len() <= i < all.len() ==> (#[trigger] all[i]).at < entries.len()
                    && !has_text(entries[all[i].at as int].name_lower@, q)
            &&& forall|i: int, j: int|
                plain.len() <= i < j < all.len() ==> (#[trigger] all[i]).score >= (
                #[trigger] all[j]).score
            &&& forall|i: int, j: int|
                0 <= i < j < all.len() ==> (#[trigger] all[i]).at != (#[trigger] all[j]).at
        }),
{
    let q = search_text(query);
    let a = QueryOptions { limit, fuzzy: false };
    let b = QueryOptions { limit, fuzzy: true };
    let plain = search_hits(entries, query, a);
    let all = search_hits(entries, query, b);
    let scores = fuzzy_scores(entries, q);
    let found = ordered(substring_set(entries, q), hit_order(entries, q));
    let close = ordered(scored_set(scores), score_order(scores));
    search_parts(entries, query, b);
    scored_listed(scores);
    assert(plain.is_prefix_of(all));
    assert forall|i: int| plain.len() <= i < all.len() implies (#[trigger] all[i]).at
        < entries.len() && !has_text(entries[all[i].at as int].name_lower@, q) by {
        assert(close.contains(close[i - found.len()]));
    }
    assert forall|i: int, j: int| plain.len() <= i < j < all.len() implies (#[trigger] all[i]).score
        >= (#[trigger] all[j]).score by {
        search_ranks_best_first(entries, query, b, i, j);
    }
    assert forall|i: int, j: int| 0 <= i < j < all.len() implies (#[trigger] all[i]).at != (
    #[trigger] all[j]).at by {
        search_hits_are_distinct(entries, query, b, i, j);
    }
}

/// Whether `x` lies strictly between `dir` and `path`.
pub open spec fn strictly_between(path: Seq<char>, dir: Seq<char>, x: Seq<char>) -> bool {
    under(path, x) && !same_path(path, x) && under(x, dir) && !same_path(x, dir)
}

/// What a filtered tree shows on the way to a hit are the folders strictly
/// between the searched folder and the hit. (A bare drive is no folder on the
/// way to what lies below the drive's root: the root has no parent.)
pub proof fn context_is_between(path: Seq<char>, dir: Seq<char>, x: Seq<char>)
    ensures
        is_context(path, dir, path_key(x)) ==> strictly_between(path, dir, x),
        strictly_between(path, dir, x) && parts(x).len() >= lead_parts(path).len() ==> is_context(
            path,
            dir,
            path_key(x),
        ),
    decreases path.len(),
{
    parent_shorter(path);
    parent_parts(path);
    let n = parts(x).len() as int;
    if under(path, x) && n == parts(path).len() {
        assert(parts(x) =~= parts(path));
    }
    if let Some(a) = parent(path) {
        same_key_same_path(a, x);
        context_is_between(a, dir, x);
        if is_context(a, dir, path_key(x)) || path_key(a) == path_key(x) {
            assert(parts(x) =~= parts(path).take(n)) by {
                assert(parts(x) =~= parts(a).take(n));
            }
        }
        if strictly_between(path, dir, x) && n >= lead_parts(path).len() {
            body_take(path);
            let d = parts(dir).len() as int;
            assert(parts(x) =~= parts(a).take(n));
            assert(parts(dir) =~= parts(a).take(d)) by {
                assert(parts(dir) =~= parts(x).take(d));
            }
        }
    } else if strictly_between(path, dir, x) && n >= lead_parts(path).len() {
        body_take(path);
    }
}

/// The rows of a filtered tree are the hits and the folders on the way to
/// them, each once; a row is marked as a match exactly when it is a hit, and
/// then has that hit's score.
pub proof fn tree_rows_are_hits_in_place(
    entries: Seq<FileEntry>,
    hits: Seq<Hit>,
    dir: Seq<char>,
    x: usize,
)
    requires
        unique_paths(entries),
        x < entries.len(),
        forall|j: int| 0 <= j < hits.len() ==> (#[trigger] hits[j]).at < entries.len(),
        forall|i: int, j: int|
            0 <= i < j < hits.len() ==> (#[trigger] hits[i]).at != (#[trigger] hits[j]).at,
    ensures
        filtered_rows(entries, hits, dir).no_duplicates(),
        filtered_rows(entries, hits, dir).contains(x) <==> exists|j: int|
            0 <= j < hits.len() && ((#[trigger] hits[j]).at == x || is_context(
                entries[hits[j].at as int].path@,
                dir,
                entries[x as int].key(),
            )),
        score_of_key(entries, hits, entries[x as int].key()) is Some <==> exists|j: int|
            0 <= j < hits.len() && (#[trigger] hits[j]).at == x,
        forall|j: int|
            0 <= j < hits.len() && (#[trigger] hits[j]).at == x ==> score_of_key(
                entries,
                hits,
                entries[x as int].key(),
            ) == Some(hits[j].score),
{
    let k = entries[x as int].key();
    let set = visible_set(entries, hits, dir);
    let rows = filtered_rows(entries, hits, dir);
    unique_items(entries, set);
    nothing_twice(entries, set, dir, true);
    assert forall|j: int| 0 <= j < hits.len() && path_key(
        #[trigger] hit_path(entries, hits, j),
    ) == k implies hits[j].at == x by {
        let y = hits[j].at;
        if x < y {
            assert(entries[x as int].key() != entries[y as int].key());
        } else if y < x {
            assert(entries[y as int].key() != entries[x as int].key());
        }
    }
    if rows.contains(x) {
        let i = choose|i: int| 0 <= i < rows.len() && rows[i] == x;
        tree_shows_nothing_else(entries, hits, dir, i);
        let j = choose|j: int|
            0 <= j < hits.len() && (path_key(#[trigger] hit_path(entries, hits, j)) == k
                || is_context(hit_path(entries, hits, j), dir, k));
        assert(hits[j].at == x || is_context(entries[hits[j].at as int].path@, dir, k));
    }
    if exists|j: int|
        0 <= j < hits.len() && ((#[trigger] hits[j]).at == x || is_context(
            entries[hits[j].at as int].path@,
            dir,
            k,
        )) {
        let j = choose|j: int|
            0 <= j < hits.len() && ((#[trigger] hits[j]).at == x || is_context(
                entries[hits[j].at as int].path@,
                dir,
                k,
            ));
        tree_shows_hits_in_place(entries, hits, dir, j, x);
    }
    tree_marks_hits(entries, hits, k);
    assert forall|j: int| 0 <= j < hits.len() && (#[trigger] hits[j]).at == x implies score_of_key(
        entries,
        hits,
        k,
    ) == Some(hits[j].score) by {
        score_of_hit(entries, hits, j);
    }
    if exists|j: int| 0 <= j < hits.len() && (#[trigger] hits[j]).at == x {
        let j = choose|j: int| 0 <= j < hits.len() && (#[trigger] hits[j]).at == x;
    }
}

/// Where no entry is hit twice, a hit's path has the hit's score.
proof fn score_of_hit(entries: Seq<FileEntry>, hits: Seq<Hit>, j: int)
    requires
        unique_paths(entries),
        forall|i: int| 0 <= i < hits.len() ==> (#[trigger] hits[i]).at < entries.len(),
        forall|a: int, b: int|
            0 <= a < b < hits.len() ==> (#[trigger] hits[a]).at != (#[trigger] hits[b]).at,
        0 <= j < hits.len(),
    ensures
        score_of_key(entries, hits, entries[hits[j].at as int].key()) == Some(hits[j].score),
    decreases hits.len(),
{
    let n = hits.len() - 1;
    if j < n {
        let front = hits.drop_last();
        assert forall|a: int, b: int| 0 <= a < b < front.len() implies (#[trigger] front[a]).at != (
        #[trigger] front[b]).at by {
            assert(hits[a].at != hits[b].at);
        }
        score_of_hit(entries, front, j);
        let x = hits[j].at;
        let y = hits[n].at;
        if x < y {
            assert(entries[x as int].key() != entries[y as int].key());
        } else {
            assert(entries[y as int].key() != entries[x as int].key());
        }
    }
}

/// An empty query, or one of nothing but space, has no hits and shows no
/// rows.
pub proof fn empty_query_finds_nothing(
    entries: Seq<FileEntry>,
    query: Seq<char>,
    opts: QueryOptions,
    dir: Seq<char>,
)
    requires
        trimmed(query).len() == 0,
    ensures
        search_hits(entries, query, opts) == Seq::<Hit>::empty(),
        filtered_rows(entries, search_hits(entries, query, opts), dir) == Seq::<usize>::empty(),
{
    let none = Seq::<Hit>::empty();
    assert(visible_set(entries, none, dir) =~= Set::empty());
    empty_tree(entries, dir, true);
}

/// Space around the query does not matter: what is left of it is found as the
/// whole is.
pub proof fn space_around_does_not_matter(
    entries: Seq<FileEntry>,
    query: Seq<char>,
    opts: QueryOptions,
)
    ensures
        search_hits(entries, trimmed(query), opts) == search_hits(entries, query, opts),
{
    trimmed_once(query);
}

/// A query matters only by the text that is searched for: where two agree in
/// it, they have the same hits.
pub proof fn same_text_same_hits(
    entries: Seq<FileEntry>,
    a: Seq<char>,
    b: Seq<char>,
    opts: QueryOptions,
)
    requires
        search_text(a) == search_text(b),
    ensures
        search_hits(entries, a, opts) == search_hits(entries, b, opts),
{
}

} // verus!
