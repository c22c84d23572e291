//! Putting positions in order.
//!
//! Lists are sorted as positions into a table. An order that falls back on
//! the position itself is total and keeps equal items in their first order.

use vstd::prelude::*;

verus! {

/// A strict total order on the positions that it ranks.
pub trait Ranking {
    /// Whether the order speaks of the position.
    spec fn ranks(&self, a: usize) -> bool;

    /// Whether the position `a` comes before the position `b`.
    spec fn before(&self, a: usize, b: usize) -> bool;

    /// Of two different positions exactly one comes first.
    proof fn total(&self, a: usize, b: usize)
        requires
            self.ranks(a),
            self.ranks(b),
        ensures
            self.before(a, b) || self.before(b, a) || a == b,
            !(self.before(a, b) && self.before(b, a)),
    ;

    /// The order is transitive.
    proof fn transitive(&self, a: usize, b: usize, c: usize)
        requires
            self.ranks(a),
            self.ranks(b),
            self.ranks(c),
            self.before(a, b),
            self.before(b, c),
        ensures
            self.before(a, c),
    ;

    /// Computes `before`.
    fn precedes(&self, a: usize, b: usize) -> (r: bool)
        requires
            self.ranks(a),
            self.ranks(b),
        ensures
            r == self.before(a, b),
    ;
}

/// Whether each position comes before all that follow it.
pub open spec fn ascending(s: Seq<usize>, before: spec_fn(usize, usize) -> bool) -> bool {
    forall|i: int, j: int| 0 <= i < j < s.len() ==> #[trigger] before(s[i], s[j])
}

/// Whether `s` lists exactly the positions in `members`, in order.
pub open spec fn lists(
    s: Seq<usize>,
    members: Set<usize>,
    before: spec_fn(usize, usize) -> bool,
) -> bool {
    &&& ascending(s, before)
    &&& forall|x: usize| members.contains(x) <==> #[trigger] s.contains(x)
}

/// The positions in `members`, in order.
pub open spec fn ordered(
    members: Set<usize>,
    before: spec_fn(usize, usize) -> bool,
) -> Seq<usize> {
    choose|s: Seq<usize>| lists(s, members, before)
}

/// The order of a ranking.
pub open spec fn order_of<R: Ranking>(r: &R) -> spec_fn(usize, usize) -> bool {
    |a: usize, b: usize| r.before(a, b)
}

/// There is only one way to list positions in order.
pub proof fn listing_unique(
    a: Seq<usize>,
    b: Seq<usize>,
    members: Set<usize>,
    before: spec_fn(usize, usize) -> bool,
)
    requires
        lists(a, members, before),
        lists(b, members, before),
        forall|x: usize, y: usize|
            members.contains(x) && members.contains(y) ==> !(#[trigger] before(x, y) && before(
                y,
                x,
            )),
    ensures
        a == b,
    decreases a.len(),
{
    if a.len() == 0 {
        if b.len() > 0 {
            assert(b.contains(b[0]));
            assert(a.contains(b[0]));
        }
    } else {
        assert(a.contains(a[0]));
        assert(b.contains(a[0]));
        let j = choose|j: int| 0 <= j < b.len() && b[j] == a[0];
        assert(b.contains(b[0]));
        assert(a.contains(b[0]));
        let i = choose|i: int| 0 <= i < a.len() && a[i] == b[0];
        if j > 0 && i > 0 {
            assert(before(a[0], a[i]));
        }
        let rest = members.remove(a[0]);
        let x = a.drop_first();
        let y = b.drop_first();
        assert forall|z: usize| rest.contains(z) <==> #[trigger] x.contains(z) by {
            if rest.contains(z) {
                assert(a.contains(z));
                let k = choose|k: int| 0 <= k < a.len() && a[k] == z;
                assert(x[k - 1] == z);
            }
            if x.contains(z) {
                let k = choose|k: int| 0 <= k < x.len() && x[k] == z;
                assert(a.contains(z));
                if z == a[0] {
                    assert(before(a[0], a[k + 1]));
                }
            }
        }
        assert forall|z: usize| rest.contains(z) <==> #[trigger] y.contains(z) by {
            if rest.contains(z) {
                assert(b.contains(z));
                let k = choose|k: int| 0 <= k < b.len() && b[k] == z;
                assert(y[k - 1] == z);
            }
            if y.contains(z) {
                let k = choose|k: int| 0 <= k < y.len() && y[k] == z;
                assert(b.contains(z));
                if z == b[0] {
                    assert(before(b[0], b[k + 1]));
                }
            }
        }
        assert(ascending(x, before)) by {
            assert forall|k: int, l: int| 0 <= k < l < x.len() implies #[trigger] before(
                x[k],
                x[l],
            ) by {
                assert(before(a[k + 1], a[l + 1]));
            }
        }
        assert(ascending(y, before)) by {
            assert forall|k: int, l: int| 0 <= k < l < y.len() implies #[trigger] before(
                y[k],
                y[l],
            ) by {
                assert(before(b[k + 1], b[l + 1]));
            }
        }
        listing_unique(x, y, rest, before);
        assert(b =~= seq![b[0]] + y);
    }
}

fn merge<R: Ranking>(a: &Vec<usize>, b: &Vec<usize>, rank: &R) -> (out: Vec<usize>)
    requires
        ascending(a@, order_of(rank)),
        ascending(b@, order_of(rank)),
        forall|i: int| 0 <= i < a@.len() ==> rank.ranks(#[trigger] a@[i]),
        forall|i: int| 0 <= i < b@.len() ==> rank.ranks(#[trigger] b@[i]),
        forall|i: int, j: int|
            0 <= i < a@.len() && 0 <= j < b@.len() ==> #[trigger] a@[i] != #[trigger] b@[j],
    ensures
        ascending(out@, order_of(rank)),
        out@.len() == a@.len() + b@.len(),
        forall|x: usize| #[trigger] out@.contains(x) <==> a@.contains(x) || b@.contains(x),
{
    let ghost before = order_of(rank);
    let mut out: Vec<usize> = Vec::new();
    let mut i: usize = 0;
    let mut j: usize = 0;
    while i < a.len() || j < b.len()
        invariant
            i <= a@.len(),
            j <= b@.len(),
            before == order_of(rank),
            ascending(a@, before),
            ascending(b@, before),
            forall|k: int| 0 <= k < a@.len() ==> rank.ranks(#[trigger] a@[k]),
            forall|k: int| 0 <= k < b@.len() ==> rank.ranks(#[trigger] b@[k]),
            forall|k: int, l: int|
                0 <= k < a@.len() && 0 <= l < b@.len() ==> #[trigger] a@[k] != #[trigger] b@[l],
            out@.len() == i + j,
            ascending(out@, before),
            forall|x: usize|
                #[trigger] out@.contains(x) <==> a@.take(i as int).contains(x) || b@.take(
                    j as int,
                ).contains(x),
            forall|k: int, l: int|
                0 <= k < out@.len() && i <= l < a@.len() ==> rank.before(
                    #[trigger] out@[k],
                    #[trigger] a@[l],
                ),
            forall|k: int, l: int|
                0 <= k < out@.len() && j <= l < b@.len() ==> rank.before(
                    #[trigger] out@[k],
                    #[trigger] b@[l],
                ),
        decreases a@.len() - i + b@.len() - j,
    {
        let ghost prev = out@;
        let from_b = j < b.len() && (i >= a.len() || rank.precedes(b[j], a[i]));
        if from_b {
            let x: usize = b[j];
            out.push(x);
            proof {
                assert forall|l: int| i <= l < a@.len() implies rank.before(
                    x,
                    #[trigger] a@[l],
                ) by {
                    if l > i {
                        assert(before(a@[i as int], a@[l]));
                        rank.transitive(x, a@[i as int], a@[l]);
                    }
                }
                assert forall|l: int| j < l < b@.len() implies rank.before(
                    x,
                    #[trigger] b@[l],
                ) by {
                    assert(before(b@[j as int], b@[l]));
                }
                assert(b@.take(j + 1) =~= b@.take(j as int).push(x));
                assert forall|y: usize| #[trigger] out@.contains(y) <==> a@.take(
                    i as int,
                ).contains(y) || b@.take(j + 1).contains(y) by {
                    vstd::seq_lib::lemma_seq_contains_after_push(prev, x, y);
                    vstd::seq_lib::lemma_seq_contains_after_push(b@.take(j as int), x, y);
                    assert(prev.contains(y) <==> a@.take(i as int).contains(y) || b@.take(
                        j as int,
                    ).contains(y));
                }
            }
            j += 1;
        } else {
            let x: usize = a[i];
            proof {
                if j < b@.len() {
                    rank.total(b@[j as int], x);
                }
            }
            out.push(x);
            proof {
                assert forall|l: int| j <= l < b@.len() implies rank.before(
                    x,
                    #[trigger] b@[l],
                ) by {
                    if l > j {
                        assert(before(b@[j as int], b@[l]));
                        rank.transitive(x, b@[j as int], b@[l]);
                    }
                }
                assert forall|l: int| i < l < a@.len() implies rank.before(
                    x,
                    #[trigger] a@[l],
                ) by {
                    assert(before(a@[i as int], a@[l]));
                }
                assert(a@.take(i + 1) =~= a@.take(i as int).push(x));
                assert forall|y: usize| #[trigger] out@.contains(y) <==> a@.take(
                    i + 1,
                ).contains(y) || b@.take(j as int).contains(y) by {
                    vstd::seq_lib::lemma_seq_contains_after_push(prev, x, y);
                    vstd::seq_lib::lemma_seq_contains_after_push(a@.take(i as int), x, y);
                    assert(prev.contains(y) <==> a@.take(i as int).contains(y) || b@.take(
                        j as int,
                    ).contains(y));
                }
            }
            i += 1;
        }
        assert(ascending(out@, before)) by {
            assert forall|k: int, l: int| 0 <= k < l < out@.len() implies #[trigger] before(
                out@[k],
                out@[l],
            ) by {
                if l < prev.len() {
                    assert(before(prev[k], prev[l]));
                }
            }
        }
    }
    assert(a@.take(a@.len() as int) =~= a@);
    assert(b@.take(b@.len() as int) =~= b@);
    out
}

fn sort_range<R: Ranking>(v: &Vec<usize>, from: usize, to: usize, rank: &R) -> (out: Vec<usize>)
    requires
        from <= to <= v@.len(),
        v@.no_duplicates(),
        forall|i: int| 0 <= i < v@.len() ==> rank.ranks(#[trigger] v@[i]),
    ensures
        ascending(out@, order_of(rank)),
        out@.len() == to - from,
        forall|x: usize|
            #[trigger] out@.contains(x) <==> exists|k: int| from <= k < to && v@[k] == x,
    decreases to - from,
{
    if to - from == 0 {
        Vec::new()
    } else if to - from == 1 {
        let mut out: Vec<usize> = Vec::new();
        out.push(v[from]);
        assert forall|x: usize| #[trigger] out@.contains(x) <==> exists|k: int|
            from <= k < to && v@[k] == x by {
            if v@[from as int] == x {
                assert(out@[0] == x);
            }
        }
        out
    } else {
        let mid: usize = from + (to - from) / 2;
        let a = sort_range(v, from, mid, rank);
        let b = sort_range(v, mid, to, rank);
        proof {
            assert forall|i: int| 0 <= i < a@.len() implies rank.ranks(#[trigger] a@[i]) by {
                assert(a@.contains(a@[i]));
            }
            assert forall|i: int| 0 <= i < b@.len() implies rank.ranks(#[trigger] b@[i]) by {
                assert(b@.contains(b@[i]));
            }
            assert forall|i: int, j: int| 0 <= i < a@.len() && 0 <= j < b@.len() implies
                #[trigger] a@[i] != #[trigger] b@[j] by {
                assert(a@.contains(a@[i]));
                assert(b@.contains(b@[j]));
            }
        }
        let out = merge(&a, &b, rank);
        proof {
            assert forall|x: usize| #[trigger] out@.contains(x) <==> exists|k: int|
                from <= k < to && v@[k] == x by {
                if exists|k: int| from <= k < to && v@[k] == x {
                    let k = choose|k: int| from <= k < to && v@[k] == x;
                    if k < mid {
                        assert(a@.contains(x));
                    } else {
                        assert(b@.contains(x));
                    }
                }
            }
        }
        out
    }
}

/// The positions of `v`, in order.
pub fn sort<R: Ranking>(v: &Vec<usize>, rank: &R) -> (out: Vec<usize>)
    requires
        v@.no_duplicates(),
        forall|i: int| 0 <= i < v@.len() ==> rank.ranks(#[trigger] v@[i]),
    ensures
        lists(out@, v@.to_set(), order_of(rank)),
        out@ == ordered(v@.to_set(), order_of(rank)),
        out@.len() == v@.len(),
{
    let out = sort_range(v, 0, v.len(), rank);
    proof {
        let members = v@.to_set();
        assert forall|x: usize| members.contains(x) <==> #[trigger] out@.contains(x) by {
            if v@.contains(x) {
                let k = choose|k: int| 0 <= k < v@.len() && v@[k] == x;
            }
        }
        let before = order_of(rank);
        assert(lists(out@, members, before));
        assert forall|x: usize, y: usize|
            members.contains(x) && members.contains(y) implies !(#[trigger] before(x, y)
            && before(y, x)) by {
            rank.total(x, y);
        }
        listing_unique(out@, ordered(members, before), members, before);
    }
    out
}

// ---------------------------------------------------------------------
// Every finite set of positions can be listed

/// Whether `before` is a strict total order on the members.
pub open spec fn orders(members: Set<usize>, before: spec_fn(usize, usize) -> bool) -> bool {
    &&& forall|x: usize, y: usize|
        members.contains(x) && members.contains(y) ==> (#[trigger] before(x, y) || before(y, x) || x
            == y) && !(before(x, y) && before(y, x))
    &&& forall|x: usize, y: usize, z: usize|
        members.contains(x) && members.contains(y) && members.contains(z) && #[trigger] before(x, y)
            && #[trigger] before(y, z) ==> before(x, z)
}

/// `s` with `x` in its place.
spec fn placed(s: Seq<usize>, x: usize, before: spec_fn(usize, usize) -> bool) -> Seq<usize>
    decreases s.len(),
{
    if s.len() == 0 || before(x, s[0]) {
        seq![x] + s
    } else {
        seq![s[0]] + placed(s.drop_first(), x, before)
    }
}

proof fn placed_contains(
    s: Seq<usize>,
    x: usize,
    before: spec_fn(usize, usize) -> bool,
    y: usize,
)
    ensures
        placed(s, x, before).contains(y) <==> s.contains(y) || y == x,
        placed(s, x, before).len() == s.len() + 1,
    decreases s.len(),
{
    let p = placed(s, x, before);
    if s.len() == 0 || before(x, s[0]) {
        if s.contains(y) {
            let i = choose|i: int| 0 <= i < s.len() && s[i] == y;
            assert(p[i + 1] == y);
        }
        assert(p[0] == x);
        if p.contains(y) {
            let i = choose|i: int| 0 <= i < p.len() && p[i] == y;
            if i > 0 {
                assert(s[i - 1] == y);
            }
        }
    } else {
        let rest = s.drop_first();
        let q = placed(rest, x, before);
        placed_contains(rest, x, before, y);
        assert(p[0] == s[0]);
        if q.contains(y) {
            let i = choose|i: int| 0 <= i < q.len() && q[i] == y;
            assert(p[i + 1] == y);
        }
        if p.contains(y) {
            let i = choose|i: int| 0 <= i < p.len() && p[i] == y;
            if i > 0 {
                assert(q[i - 1] == y);
            } else {
                assert(s.contains(y));
            }
        }
        if s.contains(y) {
            let i = choose|i: int| 0 <= i < s.len() && s[i] == y;
            if i > 0 {
                assert(rest[i - 1] == y);
            }
        }
        if rest.contains(y) {
            let i = choose|i: int| 0 <= i < rest.len() && rest[i] == y;
        }
    }
}

proof fn placed_ascending(
    s: Seq<usize>,
    x: usize,
    members: Set<usize>,
    before: spec_fn(usize, usize) -> bool,
)
    requires
        orders(members, before),
        ascending(s, before),
        members.contains(x),
        !s.contains(x),
        forall|i: int| 0 <= i < s.len() ==> members.contains(#[trigger] s[i]),
    ensures
        ascending(placed(s, x, before), before),
    decreases s.len(),
{
    let p = placed(s, x, before);
    if s.len() == 0 || before(x, s[0]) {
        assert forall|i: int, j: int| 0 <= i < j < p.len() implies #[trigger] before(
            p[i],
            p[j],
        ) by {
            if i > 0 {
                assert(before(s[i - 1], s[j - 1]));
            } else if j > 1 {
                assert(before(s[0], s[j - 1]));
            }
        }
    } else {
        let rest = s.drop_first();
        let q = placed(rest, x, before);
        assert(!rest.contains(x)) by {
            if rest.contains(x) {
                let i = choose|i: int| 0 <= i < rest.len() && rest[i] == x;
            }
        }
        assert forall|i: int, j: int| 0 <= i < j < rest.len() implies #[trigger] before(
            rest[i],
            rest[j],
        ) by {
            assert(before(s[i + 1], s[j + 1]));
        }
        assert forall|i: int| 0 <= i < rest.len() implies members.contains(#[trigger] rest[i]) by {
            assert(members.contains(s[i + 1]));
        }
        placed_ascending(rest, x, members, before);
        assert(s[0] != x) by {
            if s[0] == x {
                assert(s.contains(x));
            }
        }
        assert(before(s[0], x));
        assert forall|i: int, j: int| 0 <= i < j < p.len() implies #[trigger] before(
            p[i],
            p[j],
        ) by {
            if i > 0 {
                assert(before(q[i - 1], q[j - 1]));
            } else {
                let y = p[j];
                placed_contains(rest, x, before, y);
                if y != x {
                    let k = choose|k: int| 0 <= k < rest.len() && rest[k] == y;
                }
            }
        }
    }
}

proof fn listing_exists(members: Set<usize>, n: int, before: spec_fn(usize, usize) -> bool)
    requires
        0 <= n <= usize::MAX + 1,
        forall|x: usize| #[trigger] members.contains(x) ==> x < n,
        orders(members, before),
    ensures
        exists|s: Seq<usize>| lists(s, members, before),
    decreases n,
{
    if n == 0 {
        assert(lists(Seq::empty(), members, before));
    } else {
        let x = (n - 1) as usize;
        let less = members.remove(x);
        listing_exists(less, n - 1, before);
        let s = choose|s: Seq<usize>| lists(s, less, before);
        if members.contains(x) {
            let p = placed(s, x, before);
            assert forall|i: int| 0 <= i < s.len() implies members.contains(#[trigger] s[i]) by {
                assert(s.contains(s[i]));
            }
            placed_ascending(s, x, members, before);
            assert forall|y: usize| members.contains(y) <==> #[trigger] p.contains(y) by {
                placed_contains(s, x, before, y);
            }
            assert(lists(p, members, before));
        } else {
            assert(less =~= members);
        }
    }
}

/// What [`ordered`] gives lists the members in order, where they are bounded
/// and the order is total on them.
pub proof fn ordered_lists(members: Set<usize>, n: int, before: spec_fn(usize, usize) -> bool)
    requires
        0 <= n <= usize::MAX + 1,
        forall|x: usize| #[trigger] members.contains(x) ==> x < n,
        orders(members, before),
    ensures
        lists(ordered(members, before), members, before),
{
    listing_exists(members, n, before);
}

} // verus!
