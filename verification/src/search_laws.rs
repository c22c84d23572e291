//! What a search answers, said of its entries and its query alone.

use crate::fuzzy::{fuzzy_score, nucleo_score};
use crate::query::{
    fuzzy_scores, hit_order, score_order, scored_set, search_hits, substring_set, Hit, QueryOptions,
};
use crate::query_laws::{scored_listed, search_parts, substring_listed};
use crate::sort::ordered;
use crate::text::{byte_len, has_text, lowercase, trimmed};
use crate::types::FileEntry;
use vstd::prelude::*;

verus! {

/// The text that a query stands for.
pub open spec fn wanted(query: Seq<char>) -> Seq<char> {
    lowercase(trimmed(query))
}

/// The number of hits that is asked for, between 1 and 5000.
pub open spec fn asked_for(limit: usize) -> int {
    if limit == 0 {
        1
    } else if limit > 5000 {
        5000
    } else {
        limit as int
    }
}

/// Whether the entry at `x` is a hit with the score `s`: its lowercase name
/// is the text, begins with it or holds it somewhere, or else, in a fuzzy
/// search, the matcher gives it that score. Files and folders count alike.
pub open spec fn scores(
    entries: Seq<FileEntry>,
    q: Seq<char>,
    fuzzy: bool,
    x: usize,
    s: int,
) -> bool {
    let name = entries[x as int].name_lower@;
    &&& x < entries.len()
    &&& if name == q {
        s == 10_000
    } else if q.is_prefix_of(name) {
        s == 5_000
    } else if has_text(name, q) {
        s == 1_000
    } else {
        fuzzy && (fuzzy_score(name, q) matches Some(n) && s == n)
    }
}

/// Whether the hit `a` stands before the hit `b`: those that hold the text
/// before all others, then the higher score, then, of those that hold the
/// text, the shorter name, then as they stand in the index.
pub open spec fn stands_before(entries: Seq<FileEntry>, q: Seq<char>, a: Hit, b: Hit) -> bool {
    let x = entries[a.at as int];
    let y = entries[b.at as int];
    let held = has_text(x.name_lower@, q);
    if held != has_text(y.name_lower@, q) {
        held
    } else if a.score != b.score {
        a.score > b.score
    } else if held && byte_len(x.name@) != byte_len(y.name@) {
        byte_len(x.name@) < byte_len(y.name@)
    } else {
        a.at < b.at
    }
}

/// A text holds itself, and a text that begins with another holds it.
proof fn prefix_is_held(name: Seq<char>, q: Seq<char>)
    ensures
        q.is_prefix_of(name) ==> has_text(name, q),
        q.is_prefix_of(name) <==> crate::text::begins_with(name, q),
        name == q ==> q.is_prefix_of(name),
{
    if q.is_prefix_of(name) {
        assert(crate::text::occurs_at(name, q, 0));
    }
    if name == q {
        assert(q =~= name.subrange(0, q.len() as int));
    }
}

/// The parts of an answer: how many hits there are, and which they are.
proof fn answer_parts(entries: Seq<FileEntry>, query: Seq<char>, opts: QueryOptions, i: int)
    requires
        trimmed(query).len() > 0,
        wanted(query).len() > 0,
        0 <= i < search_hits(entries, query, opts).len(),
    ensures
        ({
            let q = wanted(query);
            let h = search_hits(entries, query, opts)[i];
            let a = ordered(substring_set(entries, q), hit_order(entries, q));
            let all = fuzzy_scores(entries, q);
            let b = ordered(scored_set(all), score_order(all));
            &&& scores(entries, q, opts.fuzzy, h.at, h.score as int)
            &&& i < a.len() ==> h.at == a[i] && has_text(entries[h.at as int].name_lower@, q)
            &&& i >= a.len() ==> h.at == b[i - a.len()] && !has_text(
                entries[h.at as int].name_lower@,
                q,
            )
        }),
{
    let q = wanted(query);
    let h = search_hits(entries, query, opts)[i];
    let a = ordered(substring_set(entries, q), hit_order(entries, q));
    let all = fuzzy_scores(entries, q);
    let b = ordered(scored_set(all), score_order(all));
    search_parts(entries, query, opts);
    substring_listed(entries, q);
    scored_listed(all);
    if i < a.len() {
        assert(a.contains(a[i]));
    } else {
        assert(b.contains(b[i - a.len()]));
    }
    prefix_is_held(entries[h.at as int].name_lower@, q);
}

/// Every hit is right: the entry scores as the hit says. No entry is hit
/// twice, and there are no more hits than asked for.
pub proof fn hits_are_right(
    entries: Seq<FileEntry>,
    query: Seq<char>,
    opts: QueryOptions,
    i: int,
    j: int,
)
    requires
        trimmed(query).len() > 0,
        wanted(query).len() > 0,
        0 <= i < j < search_hits(entries, query, opts).len() || (0 <= i
            < search_hits(entries, query, opts).len() && i == j),
    ensures
        ({
            let hits = search_hits(entries, query, opts);
            let q = wanted(query);
            &&& hits.len() <= asked_for(opts.limit)
            &&& scores(entries, q, opts.fuzzy, hits[i].at, hits[i].score as int)
            &&& i < j ==> hits[i].at != hits[j].at
            &&& i < j ==> stands_before(entries, q, hits[i], hits[j])
        }),
{
    let q = wanted(query);
    let hits = search_hits(entries, query, opts);
    let a = ordered(substring_set(entries, q), hit_order(entries, q));
    let all = fuzzy_scores(entries, q);
    let b = ordered(scored_set(all), score_order(all));
    answer_parts(entries, query, opts, i);
    answer_parts(entries, query, opts, j);
    substring_listed(entries, q);
    scored_listed(all);
    search_parts(entries, query, opts);
    if i < j {
        if j < a.len() {
            assert(hit_order(entries, q)(a[i], a[j]));
            assert(a.contains(a[i]) && a.contains(a[j]));
        } else if i >= a.len() {
            assert(score_order(all)(b[i - a.len()], b[j - a.len()]));
            assert(b.contains(b[i - a.len()]) && b.contains(b[j - a.len()]));
        }
    }
}

/// Nothing better is left out: an entry that scores, file or folder, is among
/// the hits, with its score; or there are as many hits as asked for, and all
/// of them stand before it.
pub proof fn nothing_better_is_left_out(
    entries: Seq<FileEntry>,
    query: Seq<char>,
    opts: QueryOptions,
    x: usize,
    s: u32,
)
    requires
        trimmed(query).len() > 0,
        wanted(query).len() > 0,
        scores(entries, wanted(query), opts.fuzzy, x, s as int),
    ensures
        ({
            let hits = search_hits(entries, query, opts);
            let h = Hit { at: x, score: s };
            ||| hits.contains(h)
            ||| hits.len() == asked_for(opts.limit) && forall|i: int|
                0 <= i < hits.len() ==> stands_before(entries, wanted(query), #[trigger] hits[i], h)
        }),
{
    let q = wanted(query);
    let hits = search_hits(entries, query, opts);
    let h = Hit { at: x, score: s };
    let a = ordered(substring_set(entries, q), hit_order(entries, q));
    let all = fuzzy_scores(entries, q);
    let b = ordered(scored_set(all), score_order(all));
    let name = entries[x as int].name_lower@;
    search_parts(entries, query, opts);
    substring_listed(entries, q);
    scored_listed(all);
    prefix_is_held(name, q);
    assert forall|i: int| 0 <= i < hits.len() implies scores(
        entries,
        q,
        opts.fuzzy,
        (#[trigger] hits[i]).at,
        hits[i].score as int,
    ) && (i < a.len() <==> has_text(entries[hits[i].at as int].name_lower@, q)) by {
        answer_parts(entries, query, opts, i);
    }
    if has_text(name, q) {
        assert(a.contains(x));
        let p = choose|p: int| 0 <= p < a.len() && a[p] == x;
        if p < hits.len() {
            assert(hits[p] == h);
        } else {
            assert forall|i: int| 0 <= i < hits.len() implies stands_before(
                entries,
                q,
                #[trigger] hits[i],
                h,
            ) by {
                assert(hit_order(entries, q)(a[i], a[p]));
            }
        }
    } else {
        assert(b.contains(x));
        let p = choose|p: int| 0 <= p < b.len() && b[p] == x;
        if a.len() + p < hits.len() {
            assert(hits[a.len() + p] == h);
        } else {
            assert forall|i: int| 0 <= i < hits.len() implies stands_before(
                entries,
                q,
                #[trigger] hits[i],
                h,
            ) by {
                if i >= a.len() {
                    assert(score_order(all)(b[i - a.len()], b[p]));
                }
            }
        }
    }
}

/// A fuzzy search that finds fewer hits than asked for shows every entry, file
/// or folder, whose name the matcher scores, with that score.
pub proof fn fuzzy_search_is_complete(
    entries: Seq<FileEntry>,
    query: Seq<char>,
    opts: QueryOptions,
    x: usize,
)
    requires
        opts.fuzzy,
        trimmed(query).len() > 0,
        wanted(query).len() > 0,
        x < entries.len(),
        !has_text(entries[x as int].name_lower@, wanted(query)),
        fuzzy_score(entries[x as int].name_lower@, wanted(query)) is Some,
        search_hits(entries, query, opts).len() < asked_for(opts.limit),
    ensures
        search_hits(entries, query, opts).contains(
            Hit {
                at: x,
                score: fuzzy_score(entries[x as int].name_lower@, wanted(query)).unwrap() as u32,
            },
        ),
{
    let s = fuzzy_score(entries[x as int].name_lower@, wanted(query)).unwrap() as u32;
    prefix_is_held(entries[x as int].name_lower@, wanted(query));
    nothing_better_is_left_out(entries, query, opts, x, s);
}

/// The matcher is asked about every pair that is not too long: the score of a
/// name and a text without ASCII capitals is what the matcher gives.
pub proof fn short_pairs_are_scored(name: Seq<char>, q: Seq<char>)
    requires
        byte_len(name) <= 0xffff_ffff,
        byte_len(name) <= 2520 || byte_len(q) <= 2520,
        forall|i: int| 0 <= i < q.len() ==> !('A' <= #[trigger] q[i] <= 'Z'),
    ensures
        fuzzy_score(name, q) == nucleo_score(name, q),
{
}

/// Searching again with a larger limit shows the same hits first.
pub proof fn larger_limits_show_more(
    entries: Seq<FileEntry>,
    query: Seq<char>,
    few: usize,
    many: usize,
    fuzzy: bool,
)
    requires
        few <= many,
    ensures
        search_hits(entries, query, QueryOptions { limit: few, fuzzy }).is_prefix_of(
            search_hits(entries, query, QueryOptions { limit: many, fuzzy }),
        ),
{
    let a = search_hits(entries, query, QueryOptions { limit: few, fuzzy });
    let b = search_hits(entries, query, QueryOptions { limit: many, fuzzy });
    assert(a =~= b.subrange(0, a.len() as int));
}

} // verus!
