//! What the remembered searches are after any number of searches.

use crate::indexer::{
    forgotten, forgotten_at, is_longest, narrows, remembered, remembered_policy, same_query,
    within_policy, CachedQuery, QUERY_CACHE_MAX_CANDIDATES, QUERY_CACHE_MAX_ENTRIES,
    QUERY_CACHE_MIN_LEN,
};
use vstd::prelude::*;

verus! {

/// Whether a search is remembered at all: its query is not too short and its
/// candidate set not too large.
pub open spec fn storable(c: CachedQuery) -> bool {
    c.query@.len() >= QUERY_CACHE_MIN_LEN && c.candidates@.len() <= QUERY_CACHE_MAX_CANDIDATES
}

/// The remembered searches after `history` was stored, one after the other.
pub open spec fn stored_all(history: Seq<CachedQuery>) -> Seq<CachedQuery>
    decreases history.len(),
{
    if history.len() == 0 {
        Seq::empty()
    } else {
        remembered(stored_all(history.drop_last()), history.last())
    }
}

/// Whether the `i`-th search of the history is remembered at all and is the
/// latest of those for its query.
pub open spec fn is_latest(history: Seq<CachedQuery>, i: int) -> bool {
    &&& 0 <= i < history.len()
    &&& storable(history[i])
    &&& forall|j: int|
        i < j < history.len() && storable(#[trigger] history[j]) ==> !same_query(
            history[j],
            history[i].query@,
            history[i].fuzzy,
        )
}

/// Whether `p` lists the latest search for each query, the newest first.
pub open spec fn newest_first(history: Seq<CachedQuery>, p: Seq<int>) -> bool {
    &&& falling(p)
    &&& forall|i: int| #[trigger] p.contains(i) <==> is_latest(history, i)
}

pub open spec fn falling(p: Seq<int>) -> bool {
    forall|a: int, b: int| 0 <= a < b < p.len() ==> #[trigger] p[a] > #[trigger] p[b]
}

/// Whether `s` is the first few searches of the history that `p` lists.
pub open spec fn first_few(s: Seq<CachedQuery>, history: Seq<CachedQuery>, p: Seq<int>) -> bool {
    &&& s.len() == if p.len() < QUERY_CACHE_MAX_ENTRIES {
        p.len() as int
    } else {
        QUERY_CACHE_MAX_ENTRIES as int
    }
    &&& forall|a: int| 0 <= a < s.len() ==> #[trigger] s[a] == history[p[a]]
}

/// Where `m` belongs in a falling list.
proof fn slot(p: Seq<int>, m: int) -> (t: int)
    requires
        falling(p),
        !p.contains(m),
    ensures
        0 <= t <= p.len(),
        forall|a: int| 0 <= a < t ==> #[trigger] p[a] > m,
        forall|a: int| t <= a < p.len() ==> #[trigger] p[a] < m,
    decreases p.len(),
{
    if p.len() == 0 {
        0
    } else if p.last() > m {
        assert forall|a: int| 0 <= a < p.len() implies #[trigger] p[a] > m by {
            if a < p.len() - 1 {
                assert(p[a] > p[p.len() - 1]);
            }
        }
        p.len() as int
    } else {
        assert(p.contains(p[p.len() - 1]));
        let front = p.drop_last();
        assert(!front.contains(m)) by {
            if front.contains(m) {
                let a = choose|a: int| 0 <= a < front.len() && front[a] == m;
                assert(p[a] == m);
            }
        }
        let t = slot(front, m);
        assert forall|a: int| 0 <= a < t implies #[trigger] p[a] > m by {
            assert(front[a] > m);
        }
        assert forall|a: int| t <= a < p.len() implies #[trigger] p[a] < m by {
            if a < front.len() {
                assert(front[a] < m);
            }
        }
        t
    }
}

/// After any searches the remembered ones are those for the few queries that
/// were stored most recently, each with the candidates it was stored with
/// last.
pub proof fn latest_are_remembered(history: Seq<CachedQuery>, p: Seq<int>)
    requires
        newest_first(history, p),
    ensures
        first_few(stored_all(history), history, p),
        within_policy(stored_all(history)),
    decreases history.len(),
{
    if history.len() == 0 {
        if p.len() > 0 {
            assert(p.contains(p[0]));
        }
    } else {
        let front = history.drop_last();
        let c = history.last();
        let n = history.len() - 1;
        if !storable(c) {
            assert forall|i: int| #[trigger] p.contains(i) <==> is_latest(front, i) by {
                latest_of_front(history, i);
            }
            latest_are_remembered(front, p);
            assert(stored_all(history) == stored_all(front));
            assert forall|a: int| 0 <= a < stored_all(history).len() implies #[trigger] stored_all(
                history,
            )[a] == history[p[a]] by {
                assert(p.contains(p[a]));
            }
        } else {
            newest_leads(history, p);
            let rest = p.drop_first();
            assert(falling(rest)) by {
                assert forall|a: int, b: int| 0 <= a < b < rest.len() implies #[trigger] rest[a]
                    > #[trigger] rest[b] by {
                    assert(p[a + 1] > p[b + 1]);
                }
            }
            if exists|m: int| replaced(history, m) {
                let m = choose|m: int| replaced(history, m);
                one_replaced(history, p, m);
            } else {
                assert forall|i: int| #[trigger] rest.contains(i) <==> is_latest(front, i) by {
                    rest_contains(history, p, i);
                    latest_of_front(history, i);
                    assert(!replaced(history, i));
                }
                latest_are_remembered(front, rest);
                let s = stored_all(front);
                assert forall|a: int| 0 <= a < s.len() implies !same_query(
                    #[trigger] s[a],
                    c.query@,
                    c.fuzzy,
                ) by {
                    assert(rest.contains(rest[a]));
                    assert(!replaced(history, rest[a]));
                }
                forgotten_at(s, c.query@, c.fuzzy, s.len() as int);
                remembered_policy(s, c);
                let r = stored_all(history);
                assert forall|a: int| 0 <= a < r.len() implies #[trigger] r[a]
                    == history[p[a]] by {
                    if a > 0 {
                        assert(r[a] == s[a - 1]);
                        assert(s[a - 1] == front[rest[a - 1]]);
                        assert(rest.contains(rest[a - 1]));
                    }
                }
            }
        }
    }
}

/// Whether the `m`-th search is the latest for its query until the last
/// search, which is for the same.
spec fn replaced(history: Seq<CachedQuery>, m: int) -> bool {
    is_latest(history.drop_last(), m) && same_query(
        history[m],
        history.last().query@,
        history.last().fuzzy,
    )
}

/// A search before the last is the latest for its query exactly when it was
/// before and the last is not for the same.
proof fn latest_of_front(history: Seq<CachedQuery>, i: int)
    requires
        history.len() > 0,
    ensures
        is_latest(history, i) && i < history.len() - 1 <==> is_latest(history.drop_last(), i) && !(
        storable(history.last()) && replaced(history, i)),
        is_latest(history, history.len() - 1) <==> storable(history.last()),
{
    let front = history.drop_last();
    let n = history.len() - 1;
    if is_latest(history, i) && i < n {
        assert forall|j: int| i < j < front.len() && storable(#[trigger] front[j]) implies !same_query(
            front[j],
            front[i].query@,
            front[i].fuzzy,
        ) by {
            assert(storable(history[j]));
        }
        if storable(history.last()) {
            assert(storable(history[n]));
        }
    }
    if is_latest(front, i) && !(storable(history.last()) && replaced(history, i)) {
        assert forall|j: int|
            i < j < history.len() && storable(#[trigger] history[j]) implies !same_query(
            history[j],
            history[i].query@,
            history[i].fuzzy,
        ) by {
            if j < n {
                assert(storable(front[j]));
            }
        }
    }
}

/// The newest search leads the list.
proof fn newest_leads(history: Seq<CachedQuery>, p: Seq<int>)
    requires
        newest_first(history, p),
        history.len() > 0,
        storable(history.last()),
    ensures
        p.len() > 0,
        p[0] == history.len() - 1,
{
    let n = history.len() - 1;
    latest_of_front(history, n);
    assert(p.contains(n));
    let a = choose|a: int| 0 <= a < p.len() && p[a] == n;
    if a > 0 {
        assert(p[0] > p[a]);
        assert(p.contains(p[0]));
    }
}

proof fn rest_contains(history: Seq<CachedQuery>, p: Seq<int>, i: int)
    requires
        newest_first(history, p),
        history.len() > 0,
        storable(history.last()),
    ensures
        p.drop_first().contains(i) <==> is_latest(history, i) && i < history.len() - 1,
{
    newest_leads(history, p);
    let rest = p.drop_first();
    if rest.contains(i) {
        let a = choose|a: int| 0 <= a < rest.len() && rest[a] == i;
        assert(p[0] > p[a + 1]);
        assert(p.contains(p[a + 1]));
    }
    if is_latest(history, i) && i < history.len() - 1 {
        assert(p.contains(i));
        let a = choose|a: int| 0 <= a < p.len() && p[a] == i;
        assert(rest[a - 1] == i);
    }
}

/// Two searches for the same query cannot both be the latest.
proof fn latest_differ(history: Seq<CachedQuery>, i: int, j: int)
    requires
        is_latest(history, i),
        is_latest(history, j),
        same_query(history[i], history[j].query@, history[j].fuzzy),
    ensures
        i == j,
{
}

/// The last search takes the place of the one for the same query.
proof fn one_replaced(history: Seq<CachedQuery>, p: Seq<int>, m: int)
    requires
        newest_first(history, p),
        history.len() > 0,
        storable(history.last()),
        replaced(history, m),
    ensures
        first_few(stored_all(history), history, p),
        within_policy(stored_all(history)),
    decreases history.len(), 0nat,
{
    let front = history.drop_last();
    let c = history.last();
    newest_leads(history, p);
    let rest = p.drop_first();
    assert(falling(rest)) by {
        assert forall|a: int, b: int| 0 <= a < b < rest.len() implies #[trigger] rest[a]
            > #[trigger] rest[b] by {
            assert(p[a + 1] > p[b + 1]);
        }
    }
    rest_contains(history, p, m);
    latest_of_front(history, m);
    let t = slot(rest, m);
    let with = rest.insert(t, m);
    assert(falling(with)) by {
        assert forall|a: int, b: int| 0 <= a < b < with.len() implies #[trigger] with[a]
            > #[trigger] with[b] by {
            if a < t && b > t {
                assert(rest[a] > rest[b - 1]);
            } else if a > t {
                assert(rest[a - 1] > rest[b - 1]);
            } else if b < t {
                assert(rest[a] > rest[b]);
            }
        }
    }
    assert forall|i: int| #[trigger] with.contains(i) <==> is_latest(front, i) by {
        rest_contains(history, p, i);
        latest_of_front(history, i);
        if with.contains(i) {
            let a = choose|a: int| 0 <= a < with.len() && with[a] == i;
            if a < t {
                assert(rest[a] == i);
            } else if a > t {
                assert(rest[a - 1] == i);
            }
        }
        if is_latest(front, i) {
            if replaced(history, i) {
                latest_differ(front, i, m);
                assert(with[t] == m);
            } else {
                let a = choose|a: int| 0 <= a < rest.len() && rest[a] == i;
                if a < t {
                    assert(with[a] == i);
                } else {
                    assert(with[a + 1] == i);
                }
            }
        }
    }
    latest_are_remembered(front, with);
    let s = stored_all(front);
    remembered_policy(s, c);
    // No other search for the query is remembered.
    assert forall|a: int| 0 <= a < s.len() && a != t implies !same_query(
        #[trigger] s[a],
        c.query@,
        c.fuzzy,
    ) by {
        assert(with.contains(with[a]));
        assert(s[a] == front[with[a]]);
        if same_query(s[a], c.query@, c.fuzzy) {
            latest_differ(front, with[a], m);
            if a < t {
                assert(with[a] > with[t]);
            } else {
                assert(with[t] > with[a]);
            }
        }
    }
    if t < s.len() {
        assert(s[t] == front[with[t]]);
        forgotten_at(s, c.query@, c.fuzzy, t);
    } else {
        forgotten_at(s, c.query@, c.fuzzy, s.len() as int);
    }
    let r = stored_all(history);
    assert forall|a: int| 0 <= a < r.len() implies #[trigger] r[a] == history[p[a]] by {
        if a > 0 {
            let f = forgotten(s, c.query@, c.fuzzy);
            assert(r[a] == f[a - 1]);
            assert(rest.contains(rest[a - 1]));
            rest_contains(history, p, rest[a - 1]);
            if a - 1 < t {
                assert(f[a - 1] == s[a - 1]);
                assert(s[a - 1] == front[with[a - 1]]);
            } else {
                assert(f[a - 1] == s[a]);
                assert(s[a] == front[with[a]]);
            }
        }
    }
}

/// At most one remembered search is the longest that can be narrowed, so what
/// is looked up is fixed.
pub proof fn lookup_is_fixed(s: Seq<CachedQuery>, q: Seq<char>, fuzzy: bool, a: int, b: int)
    requires
        within_policy(s),
        is_longest(s, q, fuzzy, a),
        is_longest(s, q, fuzzy, b),
    ensures
        a == b,
{
    assert(narrows(s[a], q, fuzzy) && narrows(s[b], q, fuzzy));
    assert(s[a].query@ =~= s[b].query@);
    if a < b {
        assert(!same_query(s[a], s[b].query@, s[b].fuzzy));
    } else if b < a {
        assert(!same_query(s[b], s[a].query@, s[a].fuzzy));
    }
}

} // verus!
