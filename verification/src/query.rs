//! Listing folders and searching by name.

use crate::cancel::Cancel;
use crate::counts::{
    children, count_in, count_in_tally, scoped_counts_agree, tallies, ChildCounts,
};
use crate::file_path::FilePath;
use crate::fuzzy::{fuzzy_score, new_matcher, score, Needle};
use crate::indexer::Index;
use crate::parallel::par_map;
use crate::path_laws::parent_shorter;
use crate::paths::{levels_below, parent, path_key, same_path, under};
use crate::sort::{order_of, ordered, sort, Ranking};
use crate::text::{
    begins_with, byte_len, chars_of, find_text, has_text, lowercase, stands_at, to_lower, trim,
    trimmed,
};
use crate::tree::{has_place, order_dfs, tree_order};
use crate::types::FileEntry;
use std::sync::atomic::AtomicBool;
use vstd::hash_map::StringHashMap;
use vstd::prelude::*;

verus! {

/// How to search.
#[derive(Debug, Clone, Copy)]
pub struct QueryOptions {
    pub limit: usize,
    pub fuzzy: bool,
}

impl Default for QueryOptions {
    fn default() -> (r: QueryOptions)
        ensures
            r.limit == 100,
            r.fuzzy,
    {
        QueryOptions { limit: 100, fuzzy: true }
    }
}

/// How to list a folder.
#[derive(Debug, Clone, Copy)]
pub struct ListOptions {
    pub limit: usize,
    pub dirs_first: bool,
    /// How many levels below `dir` to show (1 = direct children only).
    /// None = all levels.
    pub max_depth: Option<usize>,
}

impl Default for ListOptions {
    fn default() -> (r: ListOptions)
        ensures
            r.limit == 2000,
            r.dirs_first,
            r.max_depth == Some(1usize),
    {
        ListOptions { limit: 2000, dirs_first: true, max_depth: Some(1) }
    }
}

/// An entry that matches a query.
#[derive(Debug, Clone, Copy)]
pub struct MatchedEntry<'a> {
    pub entry: &'a FileEntry,
    pub score: u32,
}

/// A row of a folder listing. `child_count` is the number of direct children
/// in the index (0 for files).
#[derive(Debug, Clone, Copy)]
pub struct ListedEntry<'a> {
    pub entry: &'a FileEntry,
    pub child_count: usize,
}

/// A row of a filtered tree. `matched` marks real hits; ancestors are context
/// rows with score 0. `child_count` is the total direct-children count in
/// both cases.
#[derive(Debug, Clone, Copy)]
pub struct TreeEntry<'a> {
    pub entry: &'a FileEntry,
    pub score: u32,
    pub matched: bool,
    pub child_count: usize,
}

/// The largest number of rows that a search or listing shows.
pub const MAX_ROWS: usize = 5000;

/// The largest depth that a listing can be limited to.
pub const MAX_DEPTH: usize = 64;

/// `n` moved into the range from `low` to `high`.
pub open spec fn clamped(n: int, low: int, high: int) -> int {
    if n < low {
        low
    } else if n > high {
        high
    } else {
        n
    }
}

fn clamp_to(n: usize, low: usize, high: usize) -> (r: usize)
    requires
        low <= high,
    ensures
        r == clamped(n as int, low as int, high as int),
{
    if n < low {
        low
    } else if n > high {
        high
    } else {
        n
    }
}

/// The positions at which a flag is set, in order.
fn positions(flags: &Vec<bool>) -> (r: Vec<usize>)
    ensures
        r@.no_duplicates(),
        forall|x: usize| #[trigger] r@.contains(x) <==> x < flags@.len() && flags@[x as int],
        forall|i: int| 0 <= i < r@.len() ==> #[trigger] r@[i] < flags@.len(),
{
    let mut out: Vec<usize> = Vec::new();
    for i in 0..flags.len()
        invariant
            out@.no_duplicates(),
            forall|x: usize| #[trigger] out@.contains(x) <==> x < i && flags@[x as int],
            forall|j: int| 0 <= j < out@.len() ==> #[trigger] out@[j] < i,
    {
        let ghost was = out@;
        if flags[i] {
            out.push(i);
        }
        assert forall|x: usize| #[trigger] out@.contains(x) <==> x < i + 1 && flags@[x as int] by {
            vstd::seq_lib::lemma_seq_contains_after_push(was, i, x);
        }
    }
    out
}

// ---------------------------------------------------------------------
// Listing a folder

/// Whether `e` lies below `dir`, at most `max` levels deep where there is a
/// limit.
pub open spec fn within_depth(e: FileEntry, dir: Seq<char>, max: Option<usize>) -> bool {
    &&& under(e.path@, dir)
    &&& 1 <= levels_below(e.path@, dir)
    &&& max matches Some(m) ==> levels_below(e.path@, dir) <= m
}

/// The depth that a listing goes to: a limit that is asked for is kept
/// between 1 and 64, without one all levels are shown.
pub open spec fn listing_depth(opts: ListOptions) -> Option<usize> {
    match opts.max_depth {
        Some(d) => Some(clamped(d as int, 1, MAX_DEPTH as int) as usize),
        None => None,
    }
}

/// The entries that a listing of `dir` shows.
pub open spec fn listed_set(
    entries: Seq<FileEntry>,
    dir: Seq<char>,
    max: Option<usize>,
) -> Set<usize> {
    Set::new(|i: usize| i < entries.len() && within_depth(entries[i as int], dir, max))
}

/// The rows of a listing, before it is cut off.
pub open spec fn listed_rows(
    entries: Seq<FileEntry>,
    dir: Seq<char>,
    opts: ListOptions,
) -> Seq<usize> {
    tree_order(entries, listed_set(entries, dir, listing_depth(opts)), dir, opts.dirs_first)
}

/// How many rows of a listing are shown.
pub open spec fn listing_len(entries: Seq<FileEntry>, dir: Seq<char>, opts: ListOptions) -> int {
    let rows = listed_rows(entries, dir, opts);
    let limit = clamped(opts.limit as int, 1, MAX_ROWS as int);
    if rows.len() < limit {
        rows.len() as int
    } else {
        limit
    }
}

/// The number of direct children that a row shows: of a folder all that are
/// indexed, of a file none.
pub open spec fn shown_count(entries: Seq<FileEntry>, e: FileEntry) -> nat {
    if e.is_dir {
        children(entries, None, e.key())
    } else {
        0
    }
}

/// Whether the row shows the entry at `at`.
pub open spec fn is_listed(row: ListedEntry, entries: Seq<FileEntry>, at: usize) -> bool {
    &&& at < entries.len()
    &&& *row.entry == entries[at as int]
    &&& row.child_count == shown_count(entries, entries[at as int])
}

fn is_within_depth(e: &FileEntry, dir: &FilePath, max: Option<usize>) -> (r: bool)
    ensures
        r == within_depth(*e, dir@, max),
{
    match (e.path.levels_below(dir), max) {
        (Some(d), Some(m)) => 1 <= d && d <= m,
        (Some(d), None) => 1 <= d,
        (None, _) => false,
    }
}

fn child_count_of(e: &FileEntry, counts: &ChildCounts) -> (r: usize)
    ensures
        r == if e.is_dir {
            count_in(counts@, e.key())
        } else {
            0
        },
{
    if e.is_dir {
        counts.get(&e.path)
    } else {
        0
    }
}

/// Directory-listing mode for empty queries: entries under `dir` up to
/// `max_depth` levels deep (1 = direct children only, no recursion; `None` =
/// all levels).
/// Ordered as a real tree (DFS pre-order): each directory is immediately
/// followed by its own children, siblings dirs-first then alphabetical.
pub fn list_dir<'a>(index: &'a Index, dir: &FilePath, opts: &ListOptions) -> (r: Vec<
    ListedEntry<'a>,
>)
    ensures
        ({
            let entries = index@.entries;
            let rows = listed_rows(entries, dir@, *opts);
            &&& r@.len() == listing_len(entries, dir@, *opts)
            &&& forall|i: int|
                0 <= i < r@.len() ==> is_listed(#[trigger] r@[i], entries, rows[i])
        }),
{
    let limit: usize = clamp_to(opts.limit, 1, MAX_ROWS);
    let max: Option<usize> = match opts.max_depth {
        Some(d) => Some(clamp_to(d, 1, MAX_DEPTH)),
        None => None,
    };
    let entries = index.entries();
    let counts = ChildCounts::of(entries, Some(dir));
    let shown = |e: &FileEntry| -> (b: bool)
        ensures
            b == within_depth(*e, dir@, max),
        { is_within_depth(e, dir, max) };
    let flags = par_map(entries, shown);
    let items = positions(&flags);
    proof {
        assert(items@.to_set() =~= listed_set(entries@, dir@, max)) by {
            assert forall|x: usize| items@.to_set().contains(x) <==> listed_set(
                entries@,
                dir@,
                max,
            ).contains(x) by {
                assert(items@.contains(x) <==> x < flags@.len() && flags@[x as int]);
            }
        }
    }
    let order = order_dfs(entries, &items, dir, opts.dirs_first);
    let mut out: Vec<ListedEntry<'a>> = Vec::new();
    let mut i: usize = 0;
    while i < order.len() && i < limit
        invariant
            entries@ == index@.entries,
            order@ == listed_rows(entries@, dir@, *opts),
            tallies(counts@, entries@, Some(dir@)),
            forall|i: int|
                0 <= i < order@.len() ==> has_place(
                    entries@,
                    listed_set(entries@, dir@, max),
                    #[trigger] order@[i],
                ),
            i <= order@.len(),
            i <= limit,
            out@.len() == i,
            forall|j: int|
                0 <= j < i ==> is_listed(#[trigger] out@[j], entries@, order@[j]),
        decreases order@.len() - i,
    {
        let at: usize = order[i];
        assert(has_place(entries@, listed_set(entries@, dir@, max), at));
        let e = &entries[at];
        let child_count: usize = child_count_of(e, &counts);
        proof {
            count_in_tally(counts@, entries@, Some(dir@), e.key());
            scoped_counts_agree(entries@, dir@, e.path@);
        }
        out.push(ListedEntry { entry: e, child_count });
        i += 1;
    }
    out
}

// ---------------------------------------------------------------------
// Searching by name

/// The score of a name that holds the query: highest for the name itself,
/// then for names that begin with it.
pub open spec fn tier(name_lower: Seq<char>, q: Seq<char>) -> Option<u32> {
    if !has_text(name_lower, q) {
        None
    } else if name_lower == q {
        Some(10_000)
    } else if begins_with(name_lower, q) {
        Some(5_000)
    } else {
        Some(1_000)
    }
}

/// The score of the entry at `i`.
pub open spec fn tier_at(entries: Seq<FileEntry>, q: Seq<char>, i: usize) -> Option<u32> {
    tier(entries[i as int].name_lower@, q)
}

/// The entries whose names hold the query.
pub open spec fn substring_set(entries: Seq<FileEntry>, q: Seq<char>) -> Set<usize> {
    Set::new(|i: usize| i < entries.len() && tier_at(entries, q, i) is Some)
}

/// Whether the hit at `a` ranks before the one at `b`: by score, then the
/// shorter name, then as they stand.
pub open spec fn hit_before(entries: Seq<FileEntry>, q: Seq<char>, a: usize, b: usize) -> bool {
    let s = known_score(tier_at(entries, q, a));
    let t = known_score(tier_at(entries, q, b));
    let m = byte_len(entries[a as int].name@);
    let n = byte_len(entries[b as int].name@);
    s > t || (s == t && (m < n || (m == n && a < b)))
}

/// A score, or 0 where there is none.
pub open spec fn known_score(s: Option<u32>) -> u32 {
    match s {
        Some(n) => n,
        None => 0,
    }
}

/// The order of substring hits as a function.
pub open spec fn hit_order(entries: Seq<FileEntry>, q: Seq<char>) -> spec_fn(usize, usize) -> bool {
    |a: usize, b: usize| hit_before(entries, q, a, b)
}

/// A position in the index and its score.
#[derive(Debug, Clone, Copy)]
pub struct Hit {
    pub at: usize,
    pub score: u32,
}

/// All substring hits, best first.
pub open spec fn substring_hits(entries: Seq<FileEntry>, q: Seq<char>) -> Seq<Hit> {
    ordered(substring_set(entries, q), hit_order(entries, q)).map_values(
        |i: usize| Hit { at: i, score: known_score(tier_at(entries, q, i)) },
    )
}

/// The fuzzy scores of the entries that are no substring hits.
pub open spec fn fuzzy_scores(entries: Seq<FileEntry>, q: Seq<char>) -> Seq<Option<u16>> {
    Seq::new(
        entries.len(),
        |i: int|
            if tier(entries[i].name_lower@, q) is Some {
                None
            } else {
                fuzzy_score(entries[i].name_lower@, q)
            },
    )
}

/// The positions that have a score.
pub open spec fn scored_set(scores: Seq<Option<u16>>) -> Set<usize> {
    Set::new(|i: usize| i < scores.len() && scores[i as int] is Some)
}

/// The order of scores, highest first, as a function.
pub open spec fn score_order(scores: Seq<Option<u16>>) -> spec_fn(usize, usize) -> bool {
    |a: usize, b: usize| score_before(scores, a, b)
}

/// Whether the score at `a` ranks before the one at `b`: the higher one, then
/// as they stand.
pub open spec fn score_before(scores: Seq<Option<u16>>, a: usize, b: usize) -> bool {
    let s = scores[a as int].unwrap();
    let t = scores[b as int].unwrap();
    s > t || (s == t && a < b)
}

/// The positions that have a score, best first.
pub open spec fn scored_hits(scores: Seq<Option<u16>>) -> Seq<Hit> {
    ordered(scored_set(scores), score_order(scores)).map_values(
        |i: usize| Hit { at: i, score: scores[i as int].unwrap() as u32 },
    )
}

/// The first `n` hits, or all if there are fewer.
pub open spec fn first_hits(hits: Seq<Hit>, n: int) -> Seq<Hit> {
    if hits.len() <= n {
        hits
    } else {
        hits.take(n)
    }
}

/// The hits of a search for the lowercase text `q`: the substring hits and,
/// where they do not fill the limit, the best of what `scores` gives.
pub open spec fn ranked(
    entries: Seq<FileEntry>,
    q: Seq<char>,
    scores: Seq<Option<u16>>,
    limit: int,
    fuzzy: bool,
) -> Seq<Hit> {
    let hits = substring_hits(entries, q);
    if hits.len() >= limit || !fuzzy {
        first_hits(hits, limit)
    } else {
        hits + first_hits(scored_hits(scores), limit - hits.len())
    }
}

/// What is searched for: the query in lowercase, without surrounding space.
/// In a query of nothing but space that is nothing.
pub open spec fn search_text(query: Seq<char>) -> Seq<char> {
    if trimmed(query).len() == 0 {
        Seq::empty()
    } else {
        lowercase(trimmed(query))
    }
}

/// The hits of a search. An empty query has none.
pub open spec fn search_hits(
    entries: Seq<FileEntry>,
    query: Seq<char>,
    opts: QueryOptions,
) -> Seq<Hit> {
    let q = search_text(query);
    if q.len() == 0 {
        Seq::empty()
    } else {
        ranked(
            entries,
            q,
            fuzzy_scores(entries, q),
            clamped(opts.limit as int, 1, MAX_ROWS as int),
            opts.fuzzy,
        )
    }
}

/// Whether the matches are these hits.
pub open spec fn shows_hits(r: Seq<MatchedEntry>, entries: Seq<FileEntry>, hits: Seq<Hit>) -> bool {
    &&& r.len() == hits.len()
    &&& forall|i: int|
        0 <= i < r.len() ==> {
            &&& hits[i].at < entries.len()
            &&& *(#[trigger] r[i]).entry == entries[hits[i].at as int]
            &&& r[i].score == hits[i].score
        }
}

/// The order of hits by score and length of name.
struct ByTier<'a> {
    entries: &'a Vec<FileEntry>,
    tiers: &'a Vec<Option<u32>>,
    q: Ghost<Seq<char>>,
}

impl<'a> ByTier<'a> {
    spec fn wf(&self) -> bool {
        self.tiers@.len() == self.entries@.len() && forall|i: int|
            0 <= i < self.tiers@.len() ==> #[trigger] self.tiers@[i] == tier(
                self.entries@[i].name_lower@,
                self.q@,
            )
    }
}

impl<'a> Ranking for ByTier<'a> {
    closed spec fn ranks(&self, a: usize) -> bool {
        self.wf() && a < self.entries@.len()
    }

    closed spec fn before(&self, a: usize, b: usize) -> bool {
        hit_before(self.entries@, self.q@, a, b)
    }

    proof fn total(&self, a: usize, b: usize) {
    }

    proof fn transitive(&self, a: usize, b: usize, c: usize) {
    }

    fn precedes(&self, a: usize, b: usize) -> (r: bool) {
        let s: u32 = match self.tiers[a] {
            Some(n) => n,
            None => 0,
        };
        let t: u32 = match self.tiers[b] {
            Some(n) => n,
            None => 0,
        };
        let m: usize = self.entries[a].name.as_str().len();
        let n: usize = self.entries[b].name.as_str().len();
        s > t || (s == t && (m < n || (m == n && a < b)))
    }
}

/// The order of positions by fuzzy score.
struct ByScore<'a> {
    scores: &'a Vec<Option<u16>>,
}

impl<'a> Ranking for ByScore<'a> {
    closed spec fn ranks(&self, a: usize) -> bool {
        a < self.scores@.len() && self.scores@[a as int] is Some
    }

    closed spec fn before(&self, a: usize, b: usize) -> bool {
        score_before(self.scores@, a, b)
    }

    proof fn total(&self, a: usize, b: usize) {
    }

    proof fn transitive(&self, a: usize, b: usize, c: usize) {
    }

    fn precedes(&self, a: usize, b: usize) -> (r: bool) {
        let s: u16 = self.scores[a].unwrap();
        let t: u16 = self.scores[b].unwrap();
        s > t || (s == t && a < b)
    }
}

/// Computes [`tier`].
pub fn substring_score(name_lower: &str, q: &Vec<char>) -> (r: Option<u32>)
    ensures
        r == tier(name_lower@, q@),
{
    let name = chars_of(name_lower);
    if !find_text(&name, q) {
        return None;
    }
    if stands_at(&name, q, 0) {
        if name.len() == q.len() {
            assert(name@.subrange(0, q@.len() as int) =~= name@);
            return Some(10_000);
        }
        return Some(5_000);
    }
    proof {
        if name@ == q@ {
            assert(name@.subrange(0, q@.len() as int) =~= name@);
        }
    }
    Some(1_000)
}

/// All entries whose names hold `q`, best first.
pub fn substring_pass(entries: &Vec<FileEntry>, q: &str) -> (r: Vec<Hit>)
    ensures
        r@ == substring_hits(entries@, q@),
        forall|i: int| 0 <= i < r@.len() ==> (#[trigger] r@[i]).at < entries@.len(),
{
    let text = chars_of(q);
    let scoring = |e: &FileEntry| -> (s: Option<u32>)
        ensures
            s == tier(e.name_lower@, text@),
        { substring_score(e.name_lower.as_str(), &text) };
    let tiers = par_map(entries, scoring);
    let mut flags: Vec<bool> = Vec::new();
    for i in 0..tiers.len()
        invariant
            flags@.len() == i,
            forall|j: int| 0 <= j < i ==> #[trigger] flags@[j] == (tiers@[j] is Some),
    {
        flags.push(tiers[i].is_some());
    }
    let found = positions(&flags);
    let rank = ByTier { entries, tiers: &tiers, q: Ghost(q@) };
    let ghost set = substring_set(entries@, q@);
    proof {
        assert(found@.to_set() =~= set) by {
            assert forall|x: usize| found@.to_set().contains(x) <==> set.contains(x) by {
                assert(found@.contains(x) <==> x < flags@.len() && flags@[x as int]);
            }
        }
        assert(order_of(&rank) =~= hit_order(entries@, q@));
    }
    let order = sort(&found, &rank);
    let mut out: Vec<Hit> = Vec::new();
    for i in 0..order.len()
        invariant
            order@ == ordered(set, hit_order(entries@, q@)),
            set == substring_set(entries@, q@),
            forall|x: usize| set.contains(x) <==> #[trigger] order@.contains(x),
            rank.wf(),
            rank.entries == entries,
            rank.tiers == &tiers,
            rank.q@ == q@,
            out@ =~= substring_hits(entries@, q@).take(i as int),
            forall|j: int| 0 <= j < out@.len() ==> (#[trigger] out@[j]).at < entries@.len(),
    {
        let at: usize = order[i];
        assert(order@.contains(at));
        let score: u32 = match tiers[at] {
            Some(n) => n,
            None => 0,
        };
        out.push(Hit { at, score });
    }
    assert(substring_hits(entries@, q@).take(order@.len() as int) =~= substring_hits(
        entries@,
        q@,
    ));
    out
}

/// Appends the best of what `scores` gives to the substring hits, up to the
/// limit.
pub fn fuzzy_fill(hits: Vec<Hit>, scores: &Vec<Option<u16>>, limit: usize) -> (r: Vec<Hit>)
    requires
        hits@.len() <= limit,
    ensures
        r@ == hits@ + first_hits(scored_hits(scores@), limit - hits@.len()),
        forall|i: int|
            hits@.len() <= i < r@.len() ==> (#[trigger] r@[i]).at < scores@.len(),
{
    let mut flags: Vec<bool> = Vec::new();
    for i in 0..scores.len()
        invariant
            flags@.len() == i,
            forall|j: int| 0 <= j < i ==> #[trigger] flags@[j] == (scores@[j] is Some),
    {
        flags.push(scores[i].is_some());
    }
    let found = positions(&flags);
    let rank = ByScore { scores };
    let ghost set = scored_set(scores@);
    proof {
        assert(found@.to_set() =~= set) by {
            assert forall|x: usize| found@.to_set().contains(x) <==> set.contains(x) by {
                assert(found@.contains(x) <==> x < flags@.len() && flags@[x as int]);
            }
        }
        assert forall|i: int| 0 <= i < found@.len() implies rank.ranks(#[trigger] found@[i]) by {
            assert(found@.contains(found@[i]));
        }
        assert(order_of(&rank) =~= score_order(scores@));
    }
    let order = sort(&found, &rank);
    let room: usize = limit - hits.len();
    let mut out = hits;
    let ghost all = scored_hits(scores@);
    let mut i: usize = 0;
    while i < order.len() && i < room
        invariant
            order@ == ordered(set, score_order(scores@)),
            set == scored_set(scores@),
            forall|x: usize| set.contains(x) <==> #[trigger] order@.contains(x),
            all == scored_hits(scores@),
            all.len() == order@.len(),
            i <= order@.len(),
            i <= room,
            out@ =~= hits@ + all.take(i as int),
            forall|j: int| hits@.len() <= j < out@.len() ==> (#[trigger] out@[j]).at < scores@.len(),
        decreases order@.len() - i,
    {
        let at: usize = order[i];
        assert(order@.contains(at));
        let score: u32 = scores[at].unwrap() as u32;
        out.push(Hit { at, score });
        i += 1;
    }
    out
}

/// Entries of the fuzzy pass between two looks at the cancel flag.
pub const FUZZY_CHUNK: usize = 4096;

/// How many chunks the fuzzy pass over `n` entries has.
pub open spec fn chunks(n: int) -> int {
    (n + FUZZY_CHUNK - 1) / (FUZZY_CHUNK as int)
}

/// How often a search that is not cancelled looks whether it should give up.
pub open spec fn looks(entries: Seq<FileEntry>, query: Seq<char>, opts: QueryOptions) -> int {
    let q = search_text(query);
    if q.len() == 0 {
        1
    } else if substring_hits(entries, q).len() >= clamped(opts.limit as int, 1, MAX_ROWS as int)
        || !opts.fuzzy {
        2
    } else {
        3 + chunks(entries.len() as int)
    }
}

/// The fuzzy scores of the entries that are no substring hits; nothing if
/// told to give up before a chunk. Looks once before each chunk, the first
/// time as look number 2.
fn fuzzy_pass(entries: &Vec<FileEntry>, q: &str, cancel: &Cancel) -> (r: Option<Vec<Option<u16>>>)
    requires
        cancel.clear_until(2),
    ensures
        match r {
            Some(v) => v@ == fuzzy_scores(entries@, q@) && cancel.clear_until(
                2 + chunks(entries@.len() as int),
            ),
            None => cancel.may_stop(2 + chunks(entries@.len() as int)),
        },
{
    let text = chars_of(q);
    let known = Needle::new(q);
    let mut matcher = new_matcher();
    let mut scores: Vec<Option<u16>> = Vec::new();
    for i in 0..entries.len()
        invariant
            text@ == q@,
            known.of(q@),
            scores@ =~= fuzzy_scores(entries@, q@).take(i as int),
            cancel.clear_until(2 + chunks(i as int)),
    {
        if i % FUZZY_CHUNK == 0 {
            let look: usize = i / FUZZY_CHUNK;
            if cancel.raised(2 + look) {
                return None;
            }
        } else {
            assert(chunks(i + 1) == chunks(i as int));
        }
        let e = &entries[i];
        // Skip already-matched to avoid dupes.
        if substring_score(e.name_lower.as_str(), &text).is_some() {
            scores.push(None);
        } else {
            scores.push(score(&mut matcher, e.name_lower.as_str(), q, &known));
        }
    }
    assert(fuzzy_scores(entries@, q@).take(entries@.len() as int) =~= fuzzy_scores(
        entries@,
        q@,
    ));
    Some(scores)
}

/// The hits of a search and the number of looks made; nothing if told to give
/// up.
fn find_hits(entries: &Vec<FileEntry>, query: &str, opts: &QueryOptions, cancel: &Cancel) -> (r:
    Option<(Vec<Hit>, usize)>)
    ensures
        match r {
            Some((v, n)) => v@ == search_hits(entries@, query@, *opts) && n == looks(
                entries@,
                query@,
                *opts,
            ) && n <= usize::MAX - 3 && cancel.clear_until(n as int) && forall|i: int|
                0 <= i < v@.len() ==> (#[trigger] v@[i]).at < entries@.len(),
            None => cancel.may_stop(looks(entries@, query@, *opts)),
        },
{
    if cancel.raised(0) {
        proof {
            more_looks(cancel, 1, looks(entries@, query@, *opts));
        }
        return None;
    }
    let trimmed_query = trim(query);
    if chars_of(trimmed_query.as_str()).len() == 0 {
        let none: Vec<Hit> = Vec::new();
        return Some((none, 1));
    }
    let q = to_lower(trimmed_query.as_str());
    if chars_of(q.as_str()).len() == 0 {
        let none: Vec<Hit> = Vec::new();
        return Some((none, 1));
    }
    let limit: usize = clamp_to(opts.limit, 1, MAX_ROWS);
    // Stage 1: substring, parallel. Score exact-name-match higher.
    let mut hits = substring_pass(entries, q.as_str());
    if cancel.raised(1) {
        proof {
            more_looks(cancel, 2, looks(entries@, query@, *opts));
        }
        return None;
    }
    if hits.len() >= limit || !opts.fuzzy {
        hits.truncate(limit);
        return Some((hits, 2));
    }
    // Stage 2: fuzzy fill, in chunks so a newer keystroke can cancel a slow
    // pass over a huge index.
    let scores = match fuzzy_pass(entries, q.as_str(), cancel) {
        Some(v) => v,
        None => {
            proof {
                more_looks(
                    cancel,
                    2 + chunks(entries@.len() as int),
                    looks(entries@, query@, *opts),
                );
            }
            return None;
        },
    };
    let n: usize = entries.len();
    let last: usize = if n % FUZZY_CHUNK == 0 {
        2 + n / FUZZY_CHUNK
    } else {
        3 + n / FUZZY_CHUNK
    };
    if cancel.raised(last) {
        return None;
    }
    Some((fuzzy_fill(hits, &scores, limit), last + 1))
}

/// What one look can see, more looks can.
proof fn more_looks(cancel: &Cancel, m: int, n: int)
    requires
        cancel.may_stop(m),
        m <= n,
    ensures
        cancel.may_stop(n),
{
}

fn show_hits<'a>(entries: &'a Vec<FileEntry>, hits: &Vec<Hit>) -> (r: Vec<MatchedEntry<'a>>)
    requires
        forall|i: int| 0 <= i < hits@.len() ==> (#[trigger] hits@[i]).at < entries@.len(),
    ensures
        shows_hits(r@, entries@, hits@),
{
    let mut out: Vec<MatchedEntry<'a>> = Vec::new();
    for i in 0..hits.len()
        invariant
            forall|i: int| 0 <= i < hits@.len() ==> (#[trigger] hits@[i]).at < entries@.len(),
            shows_hits(out@, entries@, hits@.take(i as int)),
    {
        let h = hits[i];
        out.push(MatchedEntry { entry: &entries[h.at], score: h.score });
        assert forall|j: int| 0 <= j < out@.len() implies {
            &&& hits@.take(i + 1)[j].at < entries@.len()
            &&& *(#[trigger] out@[j]).entry == entries@[hits@.take(i + 1)[j].at as int]
            &&& out@[j].score == hits@.take(i + 1)[j].score
        } by {
            if j < i {
                assert(hits@.take(i as int)[j] == hits@[j]);
            }
        }
    }
    out
}

/// Two-stage search:
/// 1. Fast case-insensitive substring (parallel). Good for 90% of queries.
/// 2. If fuzzy enabled and not enough hits, fuzzy matching over the rest.
///
/// Empty query returns no hits — callers should use `list_dir` for the
/// browse mode instead.
pub fn search<'a>(index: &'a Index, query: &str, opts: &QueryOptions) -> (r: Vec<MatchedEntry<'a>>)
    ensures
        shows_hits(r@, index@.entries, search_hits(index@.entries, query@, *opts)),
{
    match search_inner(index, query, opts, &Cancel::Never) {
        Some(v) => v,
        None => Vec::new(),
    }
}

/// Cancelable search for interactive use. Returns `None` when `cancel` was
/// set — the caller must drop the result (a newer query is already running).
/// The flag is checked between stages and every 4096 entries of the fuzzy
/// pass (stage 1 itself is one fast parallel pass and is not interruptible).
/// When another thread raises the flag is not known here; what is returned
/// for each course of events, [`search_inner`] says.
pub fn search_cancelable<'a>(
    index: &'a Index,
    query: &str,
    opts: &QueryOptions,
    cancel: &AtomicBool,
) -> (r: Option<Vec<MatchedEntry<'a>>>)
    ensures
        r matches Some(v) ==> shows_hits(
            v@,
            index@.entries,
            search_hits(index@.entries, query@, *opts),
        ),
{
    search_inner(index, query, opts, &Cancel::Flag(cancel))
}

/// A search that gives up as soon as a look at `cancel` says so, and
/// otherwise shows all its hits.
pub fn search_inner<'a>(
    index: &'a Index,
    query: &str,
    opts: &QueryOptions,
    cancel: &Cancel,
) -> (r: Option<Vec<MatchedEntry<'a>>>)
    ensures
        match r {
            Some(v) => shows_hits(
                v@,
                index@.entries,
                search_hits(index@.entries, query@, *opts),
            ) && cancel.clear_until(looks(index@.entries, query@, *opts)),
            None => cancel.may_stop(looks(index@.entries, query@, *opts)),
        },
{
    let entries = index.entries();
    match find_hits(entries, query, opts, cancel) {
        Some((hits, _)) => Some(show_hits(entries, &hits)),
        None => None,
    }
}

// ---------------------------------------------------------------------
// Searching in a tree

/// Whether the key `k` is that of a folder between `dir` and `path`, both
/// left out.
pub open spec fn is_context(path: Seq<char>, dir: Seq<char>, k: Seq<char>) -> bool
    decreases path.len(),
    via is_context_decreases
{
    match parent(path) {
        Some(a) => !same_path(a, dir) && under(a, dir) && (path_key(a) == k || is_context(
            a,
            dir,
            k,
        )),
        None => false,
    }
}

#[via_fn]
proof fn is_context_decreases(path: Seq<char>, dir: Seq<char>, k: Seq<char>) {
    parent_shorter(path);
}

/// The path of the `j`-th hit.
pub open spec fn hit_path(entries: Seq<FileEntry>, hits: Seq<Hit>, j: int) -> Seq<char> {
    entries[hits[j].at as int].path@
}

/// Whether the key `k` is that of a hit or of a folder on the way to one.
pub open spec fn is_visible(
    entries: Seq<FileEntry>,
    hits: Seq<Hit>,
    dir: Seq<char>,
    k: Seq<char>,
) -> bool {
    exists|j: int|
        0 <= j < hits.len() && (path_key(#[trigger] hit_path(entries, hits, j)) == k || is_context(
            hit_path(entries, hits, j),
            dir,
            k,
        ))
}

/// The entries that a filtered tree shows.
pub open spec fn visible_set(entries: Seq<FileEntry>, hits: Seq<Hit>, dir: Seq<char>) -> Set<usize> {
    Set::new(
        |i: usize| i < entries.len() && is_visible(entries, hits, dir, entries[i as int].key()),
    )
}

/// The score of the last hit with the key `k`.
pub open spec fn score_of_key(entries: Seq<FileEntry>, hits: Seq<Hit>, k: Seq<char>) -> Option<u32>
    decreases hits.len(),
{
    if hits.len() == 0 {
        None
    } else if entries[hits.last().at as int].key() == k {
        Some(hits.last().score)
    } else {
        score_of_key(entries, hits.drop_last(), k)
    }
}

/// The rows of a filtered tree.
pub open spec fn filtered_rows(
    entries: Seq<FileEntry>,
    hits: Seq<Hit>,
    dir: Seq<char>,
) -> Seq<usize> {
    tree_order(entries, visible_set(entries, hits, dir), dir, true)
}

/// Whether the rows are the filtered tree of these hits below `dir`.
pub open spec fn shows_tree(
    r: Seq<TreeEntry>,
    entries: Seq<FileEntry>,
    hits: Seq<Hit>,
    dir: Seq<char>,
) -> bool {
    let rows = filtered_rows(entries, hits, dir);
    &&& r.len() == rows.len()
    &&& forall|i: int|
        0 <= i < r.len() ==> {
            let e = entries[rows[i] as int];
            &&& rows[i] < entries.len()
            &&& *(#[trigger] r[i]).entry == e
            &&& r[i].score == known_score(score_of_key(entries, hits, e.key()))
            &&& r[i].matched == (score_of_key(entries, hits, e.key()) is Some)
            &&& r[i].child_count == shown_count(entries, e)
        }
}

/// How often a filtered-tree search that is not cancelled looks whether it
/// should give up.
pub open spec fn tree_looks(
    entries: Seq<FileEntry>,
    query: Seq<char>,
    opts: QueryOptions,
) -> int {
    looks(entries, query, opts) + if search_hits(entries, query, opts).len() == 0 {
        1int
    } else {
        3
    }
}

/// Adds a path and the folders between it and `dir`.
fn show_path(visible: &mut StringHashMap<bool>, path: &FilePath, dir: &FilePath)
    ensures
        forall|k: Seq<char>| #[trigger]
            final(visible)@.contains_key(k) <==> old(visible)@.contains_key(k) || path_key(path@)
                == k || is_context(path@, dir@, k),
{
    let own = path.key();
    visible.insert(own, true);
    let mut at = path.clone();
    let mut going = true;
    while going
        invariant
            forall|k: Seq<char>|
                #![trigger visible@.contains_key(k)]
                (visible@.contains_key(k) || (going && is_context(at@, dir@, k))) <==> (old(
                    visible,
                )@.contains_key(k) || path_key(path@) == k || is_context(path@, dir@, k)),
        decreases at@.len() + if going {
            1int
        } else {
            0
        },
    {
        proof {
            parent_shorter(at@);
        }
        let ghost was = visible@;
        match at.parent() {
            Some(a) => {
                if a.same(dir) || !a.starts_with(dir) {
                    going = false;
                } else {
                    let k = a.key();
                    let ghost kv = k@;
                    visible.insert(k, true);
                    proof {
                        assert forall|k: Seq<char>|
                            #![trigger visible@.contains_key(k)]
                            (visible@.contains_key(k) || is_context(a@, dir@, k)) <==> (old(
                                visible,
                            )@.contains_key(k) || path_key(path@) == k || is_context(
                                path@,
                                dir@,
                                k,
                            )) by {
                            assert(was.contains_key(k) || is_context(at@, dir@, k) <==> (old(
                                visible,
                            )@.contains_key(k) || path_key(path@) == k || is_context(
                                path@,
                                dir@,
                                k,
                            )));
                            assert(is_context(at@, dir@, k) == (kv == k || is_context(
                                a@,
                                dir@,
                                k,
                            )));
                        }
                    }
                    at = a;
                }
            },
            None => {
                going = false;
            },
        }
    }
}

proof fn visible_push(
    entries: Seq<FileEntry>,
    hits: Seq<Hit>,
    dir: Seq<char>,
    i: int,
    k: Seq<char>,
)
    requires
        0 <= i < hits.len(),
    ensures
        is_visible(entries, hits.take(i + 1), dir, k) <==> is_visible(
            entries,
            hits.take(i),
            dir,
            k,
        ) || path_key(hit_path(entries, hits, i)) == k || is_context(
            hit_path(entries, hits, i),
            dir,
            k,
        ),
{
    let a = hits.take(i);
    let b = hits.take(i + 1);
    assert(hit_path(entries, b, i) == hit_path(entries, hits, i));
    if is_visible(entries, b, dir, k) {
        let j = choose|j: int|
            0 <= j < b.len() && (path_key(#[trigger] hit_path(entries, b, j)) == k || is_context(
                hit_path(entries, b, j),
                dir,
                k,
            ));
        if j < i {
            assert(hit_path(entries, a, j) == hit_path(entries, b, j));
        }
    }
    if is_visible(entries, a, dir, k) {
        let j = choose|j: int|
            0 <= j < a.len() && (path_key(#[trigger] hit_path(entries, a, j)) == k || is_context(
                hit_path(entries, a, j),
                dir,
                k,
            ));
        assert(hit_path(entries, b, j) == hit_path(entries, a, j));
    }
}

/// What the maps of a filtered tree hold: the visible keys, and the score of
/// each hit.
struct TreeMaps {
    visible: StringHashMap<bool>,
    scores: StringHashMap<u32>,
}

impl TreeMaps {
    spec fn fits(&self, entries: Seq<FileEntry>, hits: Seq<Hit>, dir: Seq<char>) -> bool {
        &&& forall|k: Seq<char>| #[trigger]
            self.visible@.contains_key(k) <==> is_visible(entries, hits, dir, k)
        &&& forall|k: Seq<char>|
            {
                &&& #[trigger] self.scores@.contains_key(k) <==> score_of_key(
                    entries,
                    hits,
                    k,
                ) is Some
                &&& self.scores@.contains_key(k) ==> Some(self.scores@[k]) == score_of_key(
                    entries,
                    hits,
                    k,
                )
            }
    }
}

fn map_hits(entries: &Vec<FileEntry>, hits: &Vec<Hit>, dir: &FilePath) -> (r: TreeMaps)
    requires
        forall|i: int| 0 <= i < hits@.len() ==> (#[trigger] hits@[i]).at < entries@.len(),
    ensures
        r.fits(entries@, hits@, dir@),
{
    let mut visible: StringHashMap<bool> = StringHashMap::new();
    let mut scores: StringHashMap<u32> = StringHashMap::new();
    for i in 0..hits.len()
        invariant
            forall|i: int| 0 <= i < hits@.len() ==> (#[trigger] hits@[i]).at < entries@.len(),
            forall|k: Seq<char>| #[trigger]
                visible@.contains_key(k) <==> is_visible(entries@, hits@.take(i as int), dir@, k),
            forall|k: Seq<char>|
                {
                    &&& #[trigger] scores@.contains_key(k) <==> score_of_key(
                        entries@,
                        hits@.take(i as int),
                        k,
                    ) is Some
                    &&& scores@.contains_key(k) ==> Some(scores@[k]) == score_of_key(
                        entries@,
                        hits@.take(i as int),
                        k,
                    )
                },
    {
        let h = hits[i];
        let path = &entries[h.at].path;
        let ghost had = scores@;
        show_path(&mut visible, path, dir);
        let k = path.key();
        scores.insert(k, h.score);
        proof {
            let a = hits@.take(i as int);
            let b = hits@.take(i + 1);
            assert(b.drop_last() =~= a);
            assert forall|k: Seq<char>| #[trigger] visible@.contains_key(k) <==> is_visible(
                entries@,
                b,
                dir@,
                k,
            ) by {
                visible_push(entries@, hits@, dir@, i as int, k);
            }
            assert forall|k: Seq<char>|
                {
                    &&& #[trigger] scores@.contains_key(k) <==> score_of_key(
                        entries@,
                        b,
                        k,
                    ) is Some
                    &&& scores@.contains_key(k) ==> Some(scores@[k]) == score_of_key(
                        entries@,
                        b,
                        k,
                    )
                } by {
                assert(had.contains_key(k) <==> score_of_key(entries@, a, k) is Some);
            }
        }
    }
    assert(hits@.take(hits@.len() as int) =~= hits@);
    TreeMaps { visible, scores }
}

fn is_visible_entry(e: &FileEntry, visible: &StringHashMap<bool>) -> (r: bool)
    ensures
        r == visible@.contains_key(e.key()),
{
    let k = e.path.key();
    visible.contains_key(k.as_str())
}

/// The filtered tree of some hits, from the maps made of them.
fn tree_rows<'a>(
    entries: &'a Vec<FileEntry>,
    order: &Vec<usize>,
    maps: &TreeMaps,
    counts: &ChildCounts,
    Ghost(dir): Ghost<Seq<char>>,
    Ghost(hits): Ghost<Seq<Hit>>,
) -> (r: Vec<TreeEntry<'a>>)
    requires
        maps.fits(entries@, hits, dir),
        tallies(counts@, entries@, None),
        order@ == filtered_rows(entries@, hits, dir),
        forall|i: int| 0 <= i < order@.len() ==> #[trigger] order@[i] < entries@.len(),
    ensures
        shows_tree(r@, entries@, hits, dir),
{
    let mut out: Vec<TreeEntry<'a>> = Vec::new();
    for i in 0..order.len()
        invariant
            maps.fits(entries@, hits, dir),
            tallies(counts@, entries@, None),
            forall|i: int| 0 <= i < order@.len() ==> #[trigger] order@[i] < entries@.len(),
            out@.len() == i,
            forall|j: int|
                0 <= j < i ==> {
                    let e = entries@[order@[j] as int];
                    &&& *(#[trigger] out@[j]).entry == e
                    &&& out@[j].score == known_score(score_of_key(entries@, hits, e.key()))
                    &&& out@[j].matched == (score_of_key(entries@, hits, e.key()) is Some)
                    &&& out@[j].child_count == shown_count(entries@, e)
                },
    {
        let e = &entries[order[i]];
        let k = e.path.key();
        proof {
            count_in_tally(counts@, entries@, None, e.key());
            assert(maps.scores@.contains_key(k@) <==> score_of_key(
                entries@,
                hits,
                k@,
            ) is Some);
        }
        let (score, matched) = match maps.scores.get(k.as_str()) {
            Some(s) => (*s, true),
            None => (0, false),
        };
        let child_count: usize = child_count_of(e, counts);
        out.push(TreeEntry { entry: e, score, matched, child_count });
    }
    out
}

/// Filtered-tree search for interactive use: ranked matches (same engine as
/// `search`) plus their ancestor chains up to (excluding) `dir`, ordered as
/// a real tree — so a match in a lower layer shows in place, nested under
/// its parents. Depth filters do NOT apply here: matches show "anyways".
/// Returns `None` when `cancel` was set. When another thread raises the flag
/// is not known here; what is returned for each course of events,
/// [`search_tree_inner`] says.
pub fn search_tree_cancelable<'a>(
    index: &'a Index,
    dir: &FilePath,
    query: &str,
    opts: &QueryOptions,
    cancel: &AtomicBool,
) -> (r: Option<Vec<TreeEntry<'a>>>)
    ensures
        r matches Some(v) ==> shows_tree(
            v@,
            index@.entries,
            search_hits(index@.entries, query@, *opts),
            dir@,
        ),
{
    search_tree_inner(index, dir, query, opts, &Cancel::Flag(cancel))
}

/// A filtered-tree search that gives up as soon as a look at `cancel` says
/// so, and otherwise shows all its rows.
pub fn search_tree_inner<'a>(
    index: &'a Index,
    dir: &FilePath,
    query: &str,
    opts: &QueryOptions,
    cancel: &Cancel,
) -> (r: Option<Vec<TreeEntry<'a>>>)
    ensures
        match r {
            Some(v) => shows_tree(
                v@,
                index@.entries,
                search_hits(index@.entries, query@, *opts),
                dir@,
            ) && cancel.clear_until(tree_looks(index@.entries, query@, *opts)),
            None => cancel.may_stop(tree_looks(index@.entries, query@, *opts)),
        },
{
    let entries = index.entries();
    let ghost n = looks(entries@, query@, *opts);
    let ghost total = tree_looks(entries@, query@, *opts);
    let (hits, made) = match find_hits(entries, query, opts, cancel) {
        Some(v) => v,
        None => {
            proof {
                more_looks(cancel, n, total);
            }
            return None;
        },
    };
    if cancel.raised(made) {
        proof {
            more_looks(cancel, n + 1, total);
        }
        return None;
    }
    if hits.len() == 0 {
        let none: Vec<TreeEntry<'a>> = Vec::new();
        proof {
            no_rows(entries@, hits@, dir@);
        }
        return Some(none);
    }
    // Visible set: matches + ancestors up to (excluding) `dir`.
    let maps = map_hits(entries, &hits, dir);
    if cancel.raised(made + 1) {
        proof {
            more_looks(cancel, n + 2, total);
        }
        return None;
    }
    let counts = ChildCounts::of(entries, None);
    let visible = &maps.visible;
    let shown = |e: &FileEntry| -> (b: bool)
        ensures
            b == visible@.contains_key(e.key()),
        { is_visible_entry(e, visible) };
    let flags = par_map(entries, shown);
    let items = positions(&flags);
    proof {
        let set = visible_set(entries@, hits@, dir@);
        assert(items@.to_set() =~= set) by {
            assert forall|x: usize| items@.to_set().contains(x) <==> set.contains(x) by {
                assert(items@.contains(x) <==> x < flags@.len() && flags@[x as int]);
            }
        }
    }
    if cancel.raised(made + 2) {
        return None;
    }
    let order = order_dfs(entries, &items, dir, true);
    Some(tree_rows(entries, &order, &maps, &counts, Ghost(dir@), Ghost(hits@)))
}

/// Without hits there are no rows.
proof fn no_rows(entries: Seq<FileEntry>, hits: Seq<Hit>, dir: Seq<char>)
    requires
        hits.len() == 0,
    ensures
        filtered_rows(entries, hits, dir) == Seq::<usize>::empty(),
{
    let set = visible_set(entries, hits, dir);
    assert(set =~= Set::empty());
    crate::tree::empty_tree(entries, dir, true);
}

} // verus!
