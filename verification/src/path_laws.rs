//! What holds of every path: its parent has its parts but the last, its key
//! tells paths apart, and paths are totally ordered.

use crate::paths::{
    bare, base, body, divides, dotted, drive_at, file_name, is_sep, joined, kept, lead, lead_parts,
    levels_below, named, needs_sep, parent, part_key, part_less, parts, parts_key, parts_less,
    path_key, path_less, plain_name, prefix, prefix_len, rooted, run_at, run_end, run_end_bounds,
    same_path, span_part, spans, under, verbatim, verbatim_start, verbatim_unc_start, Part,
    PartKind,
};
use crate::text::{text_less_asymmetric, text_less_total, text_less_transitive};
use vstd::prelude::*;

verus! {

/// A run in the first `n` characters ends where it did, or at `n`.
pub proof fn run_end_take(t: Seq<char>, i: int, n: int, verbatim: bool)
    requires
        0 <= i <= n <= t.len(),
    ensures
        run_end(t.take(n), i, verbatim) == if run_end(t, i, verbatim) < n {
            run_end(t, i, verbatim)
        } else {
            n
        },
    decreases n - i,
{
    run_end_bounds(t, i, verbatim);
    if i < n && !divides(t[i], verbatim) {
        run_end_take(t, i + 1, n, verbatim);
    }
}

/// A prefix lies inside the text.
pub proof fn prefix_bounds(t: Seq<char>)
    ensures
        0 <= prefix_len(t) <= t.len(),
        0 <= base(t) <= t.len(),
        0 <= lead(t) <= t.len(),
{
    if t.len() >= 2 {
        run_end_bounds(t, 2, false);
        let server = run_at(t, 2, false);
        if 3 + server.len() <= t.len() {
            run_end_bounds(t, 3 + server.len() as int, false);
        }
    }
    if t.len() >= 4 {
        run_end_bounds(t, 4, true);
        run_end_bounds(t, 4, false);
    }
    if t.len() >= 8 {
        run_end_bounds(t, 8, true);
        let server = run_at(t, 8, true);
        if 9 + server.len() <= t.len() {
            run_end_bounds(t, 9 + server.len() as int, true);
        }
    }
}

/// Cutting a path behind its prefix leaves the prefix as it is.
pub proof fn prefix_take(t: Seq<char>, n: int)
    requires
        prefix_len(t) <= n <= t.len(),
    ensures
        0 <= n,
        prefix(t.take(n)) == prefix(t),
{
    prefix_bounds(t);
    let u = t.take(n);
    if n >= 2 {
        run_end_take(t, 2, n, false);
        run_end_bounds(t, 2, false);
        let e = run_end(t, 2, false);
        if e + 1 <= t.len() {
            run_end_bounds(t, e + 1, false);
        }
        if e + 1 <= n {
            run_end_take(t, e + 1, n, false);
        }
        assert(prefix(t) matches Some(p) && p.part.kind == PartKind::Unc ==> run_at(u, 2, false)
            =~= run_at(t, 2, false) && run_at(u, e + 1, false) =~= run_at(t, e + 1, false));
    }
    if n >= 4 {
        run_end_take(t, 4, n, true);
        run_end_take(t, 4, n, false);
        run_end_bounds(t, 4, true);
        run_end_bounds(t, 4, false);
        assert(run_end(t, 4, false) <= n ==> run_at(u, 4, false) =~= run_at(t, 4, false));
    }
    if n >= 8 {
        run_end_take(t, 8, n, true);
        run_end_bounds(t, 8, true);
        let e = run_end(t, 8, true);
        if e + 1 <= t.len() {
            run_end_bounds(t, e + 1, true);
        }
        if e + 1 <= n {
            run_end_take(t, e + 1, n, true);
        }
        assert(e + 1 <= t.len() && run_end(t, e + 1, true) <= n ==> run_at(u, e + 1, true)
            =~= run_at(t, e + 1, true));
        assert(n == e ==> run_at(u, e + 1, true) =~= Seq::empty());
    }
    if verbatim_start(t) {
        if verbatim_unc_start(t) {
            let e = run_end(t, 8, true);
            assert(run_at(u, 8, true) == run_at(t, 8, true));
            assert(run_at(u, e + 1, true) =~= run_at(t, e + 1, true));
        } else {
            assert(!verbatim_unc_start(u));
            if !(drive_at(t, 4) && (t.len() == 6 || is_sep(t[6]))) {
                assert(run_at(u, 4, true) == run_at(t, 4, true));
                if drive_at(u, 4) && u.len() == 6 && t.len() > 6 {
                    assert(run_end(t, 4, true) == 6);
                }
            }
        }
    }
}

/// Where one run of a path lies: at or behind `i`, without separators inside,
/// up to a separator or the end.
pub open spec fn proper_span(t: Seq<char>, i: int, s: (int, int), verbatim: bool) -> bool {
    &&& i <= s.0 < s.1 <= t.len()
    &&& s.1 < t.len() ==> divides(t[s.1], verbatim)
    &&& kept(t, s.0, s.1, verbatim)
    &&& forall|j: int| s.0 <= j < s.1 ==> !divides(#[trigger] t[j], verbatim)
}

/// The runs of a path lie in order and apart.
pub proof fn spans_bounds(t: Seq<char>, i: int, verbatim: bool)
    requires
        0 <= i <= t.len(),
    ensures
        forall|k: int|
            0 <= k < spans(t, i, verbatim).len() ==> proper_span(
                t,
                i,
                #[trigger] spans(t, i, verbatim)[k],
                verbatim,
            ),
        forall|k: int, l: int|
            0 <= k < l < spans(t, i, verbatim).len() ==> (#[trigger] spans(t, i, verbatim)[k]).1
                < (#[trigger] spans(t, i, verbatim)[l]).0,
    decreases t.len() - i,
{
    if i < t.len() {
        run_end_bounds(t, i, verbatim);
        let e = run_end(t, i, verbatim);
        let all = spans(t, i, verbatim);
        if e < t.len() {
            spans_bounds(t, e + 1, verbatim);
            let rest = spans(t, e + 1, verbatim);
            if kept(t, i, e, verbatim) {
                assert forall|k: int| 0 <= k < all.len() implies proper_span(
                    t,
                    i,
                    #[trigger] all[k],
                    verbatim,
                ) by {
                    if k > 0 {
                        assert(all[k] == rest[k - 1]);
                    }
                }
                assert forall|k: int, l: int| 0 <= k < l < all.len() implies (
                #[trigger] all[k]).1 < (#[trigger] all[l]).0 by {
                    if k > 0 {
                        assert(all[k] == rest[k - 1]);
                    }
                }
            } else {
                assert forall|k: int| 0 <= k < all.len() implies proper_span(
                    t,
                    i,
                    #[trigger] all[k],
                    verbatim,
                ) by {
                    assert(proper_span(t, e + 1, rest[k], verbatim));
                }
            }
        }
    }
}

/// Cutting a text at a separator splits its runs in two.
pub proof fn spans_split(t: Seq<char>, i: int, n: int, verbatim: bool)
    requires
        0 <= i <= n <= t.len(),
        n < t.len() ==> divides(t[n], verbatim),
    ensures
        spans(t, i, verbatim) == spans(t.take(n), i, verbatim) + spans(t, n, verbatim),
    decreases n - i,
{
    let u = t.take(n);
    if i == n {
        assert(spans(t, i, verbatim) =~= spans(u, i, verbatim) + spans(t, n, verbatim));
    } else {
        run_end_bounds(t, i, verbatim);
        run_end_take(t, i, n, verbatim);
        let e = run_end(t, i, verbatim);
        if e < n {
            spans_split(t, e + 1, n, verbatim);
        }
    }
}

/// The runs of a text do not depend on what is cut off behind them.
pub proof fn lead_take(t: Seq<char>, n: int)
    requires
        lead(t) <= n <= t.len(),
        n < t.len() && n > lead(t) ==> divides(t[n], verbatim(t)),
    ensures
        0 <= n,
        prefix(t.take(n)) == prefix(t),
        lead_parts(t.take(n)) == lead_parts(t),
        base(t.take(n)) == base(t),
        lead(t.take(n)) == lead(t),
        verbatim(t.take(n)) == verbatim(t),
        dotted(t.take(n)) == dotted(t),
{
    prefix_bounds(t);
    prefix_take(t, n);
}

/// A leading dot is a run that does not count.
proof fn dotted_body(t: Seq<char>)
    requires
        dotted(t),
    ensures
        lead(t) == base(t) + 1,
        !verbatim(t),
        body(t) == spans(t, lead(t), false),
        lead(t) < t.len() ==> divides(t[lead(t)], false),
{
    prefix_bounds(t);
    let b = base(t);
    assert(run_end(t, b + 1, false) == b + 1);
    assert(!verbatim(t)) by {
        if verbatim(t) {
            assert(prefix(t) is Some);
        }
    }
    if b + 1 < t.len() {
        assert(spans(t, b + 1, false) == if b + 2 <= t.len() {
            spans(t, b + 2, false)
        } else {
            Seq::empty()
        });
    }
}

/// The runs in front of a separator are those of the text cut off there.
pub proof fn body_take(t: Seq<char>)
    requires
        body(t).len() > 0,
    ensures
        parent(t) matches Some(u) && {
            &&& lead(t) <= u.len() <= t.len()
            &&& u == t.take(u.len() as int)
            &&& lead_parts(u) == lead_parts(t)
            &&& body(u) == body(t).drop_last()
            &&& forall|k: int| 0 <= k < body(u).len() ==> (#[trigger] body(u)[k]).1 <= u.len()
        },
{
    prefix_bounds(t);
    let v = verbatim(t);
    let b = body(t);
    let l = lead(t);
    if dotted(t) {
        dotted_body(t);
    }
    spans_bounds(t, l, v);
    let n = if b.len() > 1 {
        b[b.len() - 2].1
    } else {
        l
    };
    if b.len() > 1 {
        assert(proper_span(t, l, b[b.len() - 2], v));
    }
    lead_take(t, n);
    let u = t.take(n);
    if dotted(t) {
        dotted_body(u);
    }
    if b.len() > 1 {
        spans_split(t, l, n, v);
        spans_bounds(t, n, v);
        spans_bounds(u, l, v);
        let x = spans(u, l, v);
        let y = spans(t, n, v);
        // Only the last run begins behind `n`.
        if x.len() >= b.len() {
            assert(b[b.len() - 1] == x[b.len() - 1]);
        } else if x.len() < b.len() - 1 {
            assert(proper_span(t, n, y[b.len() - 2 - x.len()], v));
        }
        assert forall|k: int| 0 <= k < x.len() implies (#[trigger] x[k]).1 <= n by {
            assert(proper_span(u, l, x[k], v));
        }
    } else {
        assert(body(u) =~= b.drop_last());
    }
}

/// The parent of a path is spelled with fewer characters.
pub proof fn parent_shorter(t: Seq<char>)
    ensures
        parent(t) matches Some(p) ==> p.len() < t.len(),
{
    prefix_bounds(t);
    let v = verbatim(t);
    let b = body(t);
    if b.len() > 0 {
        if dotted(t) {
            dotted_body(t);
        }
        spans_bounds(t, lead(t), v);
        assert(proper_span(t, lead(t), b[b.len() - 1], v));
    }
}

/// The parent of a path has the path's parts but the last.
pub proof fn parent_parts(t: Seq<char>)
    ensures
        parent(t) matches Some(p) ==> parts(t).len() > 0 && parts(p) == parts(t).drop_last(),
        parent(t) is None <==> (parts(t).len() == 0 || {
            let k = parts(t).last().kind;
            k != PartKind::Normal && k != PartKind::ParentDir && k != PartKind::CurDir
        }),
{
    let b = body(t);
    if b.len() > 0 {
        body_take(t);
        let u = parent(t).unwrap();
        assert forall|k: int| 0 <= k < body(u).len() implies span_part(u, #[trigger] body(u)[k])
            == span_part(t, b[k]) by {
            assert(u.subrange(b[k].0, b[k].1) =~= t.subrange(b[k].0, b[k].1)) by {
                prefix_bounds(t);
                spans_bounds(t, base(t), verbatim(t));
            }
        }
    } else if dotted(t) && prefix(t) is None {
        assert(parts(t) =~= seq![bare(PartKind::CurDir)]);
    } else {
        assert(parts(t) =~= lead_parts(t));
    }
}

/// A path lies in its parent, and not the other way round.
pub proof fn path_lies_in_parent(t: Seq<char>)
    ensures
        parent(t) matches Some(p) ==> under(t, p) && !under(p, t) && levels_below(t, p) == 1,
{
    parent_parts(t);
    if let Some(p) = parent(t) {
        assert(parts(p) =~= parts(t).subrange(0, parts(p).len() as int));
    }
}

/// What lies below a folder lies below everything that the folder lies below;
/// a path lies below itself, and two that lie below each other are the same.
pub proof fn under_is_an_order(a: Seq<char>, b: Seq<char>, c: Seq<char>)
    ensures
        under(a, a),
        under(a, b) && under(b, c) ==> under(a, c),
        under(a, b) && under(b, a) ==> same_path(a, b),
{
    if under(a, b) && under(b, c) {
        assert(parts(c) =~= parts(a).subrange(0, parts(c).len() as int));
    }
    if under(a, b) && under(b, a) {
        assert(parts(a) =~= parts(b));
    }
}

// ---------------------------------------------------------------------
// Keys

/// The texts of a part hold no backslash.
pub open spec fn clean(p: Part) -> bool {
    &&& forall|i: int| 0 <= i < p.first.len() ==> #[trigger] p.first[i] != '\\'
    &&& forall|i: int| 0 <= i < p.second.len() ==> #[trigger] p.second[i] != '\\'
}

proof fn prefix_clean(t: Seq<char>)
    ensures
        prefix(t) matches Some(p) ==> clean(p.part),
{
    if t.len() >= 2 {
        run_end_bounds(t, 2, false);
        let e = run_end(t, 2, false);
        if e + 1 <= t.len() {
            run_end_bounds(t, e + 1, false);
        }
    }
    if t.len() >= 4 {
        run_end_bounds(t, 4, true);
        run_end_bounds(t, 4, false);
    }
    if t.len() >= 8 {
        run_end_bounds(t, 8, true);
        let e = run_end(t, 8, true);
        if e + 1 <= t.len() {
            run_end_bounds(t, e + 1, true);
        }
    }
}

/// No part of a path holds a backslash.
pub proof fn parts_clean(t: Seq<char>)
    ensures
        forall|i: int| 0 <= i < parts(t).len() ==> clean(#[trigger] parts(t)[i]),
{
    prefix_bounds(t);
    prefix_clean(t);
    spans_bounds(t, base(t), verbatim(t));
    assert forall|i: int| 0 <= i < parts(t).len() implies clean(#[trigger] parts(t)[i]) by {
        let l = lead_parts(t).len();
        if i >= l {
        }
    }
}

/// A text without backslashes in front of a backslash can be told from what
/// follows.
proof fn field_injective(a: Seq<char>, x: Seq<char>, b: Seq<char>, y: Seq<char>)
    requires
        forall|i: int| 0 <= i < a.len() ==> #[trigger] a[i] != '\\',
        forall|i: int| 0 <= i < b.len() ==> #[trigger] b[i] != '\\',
        a + seq!['\\'] + x == b + seq!['\\'] + y,
    ensures
        a == b,
        x == y,
{
    let l = a + seq!['\\'] + x;
    let r = b + seq!['\\'] + y;
    if a.len() < b.len() {
        assert(r[a.len() as int] == b[a.len() as int]);
    }
    if b.len() < a.len() {
        assert(l[b.len() as int] == a[b.len() as int]);
    }
    assert forall|i: int| 0 <= i < a.len() implies a[i] == b[i] by {
        assert(l[i] == r[i]);
    }
    assert(x =~= l.skip(1 + a.len() as int));
}

/// The key of a part can be told from what follows it.
proof fn part_key_injective(p: Part, x: Seq<char>, q: Part, y: Seq<char>)
    requires
        clean(p),
        clean(q),
        part_key(p) + x == part_key(q) + y,
    ensures
        p == q,
        x == y,
{
    let l = part_key(p) + x;
    let r = part_key(q) + y;
    assert(r[0] == q.kind.tag());
    let lx = p.second + seq!['\\'] + x;
    let ry = q.second + seq!['\\'] + y;
    assert(l.drop_first() =~= p.first + seq!['\\'] + lx);
    assert(r.drop_first() =~= q.first + seq!['\\'] + ry);
    field_injective(p.first, lx, q.first, ry);
    field_injective(p.second, x, q.second, y);
}

/// Different parts have different keys.
pub proof fn parts_key_injective(a: Seq<Part>, b: Seq<Part>)
    requires
        parts_key(a) == parts_key(b),
        forall|i: int| 0 <= i < a.len() ==> clean(#[trigger] a[i]),
        forall|i: int| 0 <= i < b.len() ==> clean(#[trigger] b[i]),
    ensures
        a == b,
    decreases a.len(),
{
    if a.len() == 0 || b.len() == 0 {
        if a.len() > 0 {
            assert(part_key(a[0]).len() > 0);
        }
        if b.len() > 0 {
            assert(part_key(b[0]).len() > 0);
        }
    } else {
        let x = a.drop_first();
        let y = b.drop_first();
        part_key_injective(a[0], parts_key(x), b[0], parts_key(y));
        assert forall|i: int| 0 <= i < x.len() implies clean(#[trigger] x[i]) by {
            assert(x[i] == a[i + 1]);
        }
        assert forall|i: int| 0 <= i < y.len() implies clean(#[trigger] y[i]) by {
            assert(y[i] == b[i + 1]);
        }
        parts_key_injective(x, y);
        assert(b =~= seq![b[0]] + y);
    }
}

/// Two texts have the same key exactly when they spell the same path.
pub proof fn same_key_same_path(a: Seq<char>, b: Seq<char>)
    ensures
        path_key(a) == path_key(b) <==> same_path(a, b),
{
    if path_key(a) == path_key(b) {
        parts_clean(a);
        parts_clean(b);
        parts_key_injective(parts(a), parts(b));
    }
}

// ---------------------------------------------------------------------
// Order

/// Of two different parts exactly one comes first, and no part comes before
/// itself.
pub proof fn part_order(a: Part, b: Part)
    ensures
        part_less(a, b) || part_less(b, a) || a == b,
        !(part_less(a, b) && part_less(b, a)),
        !part_less(a, a),
{
    text_less_total(a.first, b.first);
    text_less_total(a.second, b.second);
    text_less_asymmetric(a.first, b.first);
    text_less_asymmetric(a.second, b.second);
}

/// The order of parts is transitive.
pub proof fn part_less_transitive(a: Part, b: Part, c: Part)
    requires
        part_less(a, b),
        part_less(b, c),
    ensures
        part_less(a, c),
{
    if a.kind == b.kind && b.kind == c.kind {
        if a.first != b.first && b.first != c.first {
            text_less_transitive(a.first, b.first, c.first);
            text_less_asymmetric(a.first, c.first);
        } else if a.first == b.first && b.first == c.first {
            text_less_transitive(a.second, b.second, c.second);
        }
    }
}

/// Of two different sequences of parts exactly one comes first.
pub proof fn parts_order(a: Seq<Part>, b: Seq<Part>)
    ensures
        parts_less(a, b) || parts_less(b, a) || a == b,
        !(parts_less(a, b) && parts_less(b, a)),
        !parts_less(a, a),
    decreases a.len(),
{
    if a.len() > 0 {
        parts_order(a.drop_first(), a.drop_first());
    }
    if a.len() == 0 && b.len() == 0 {
        assert(a =~= b);
    } else if a.len() > 0 && b.len() > 0 {
        part_order(a[0], b[0]);
        if a[0] == b[0] {
            parts_order(a.drop_first(), b.drop_first());
            if a.drop_first() == b.drop_first() {
                assert(b =~= seq![b[0]] + b.drop_first());
            }
        }
    }
}

/// The order of sequences of parts is transitive.
pub proof fn parts_less_transitive(a: Seq<Part>, b: Seq<Part>, c: Seq<Part>)
    requires
        parts_less(a, b),
        parts_less(b, c),
    ensures
        parts_less(a, c),
    decreases a.len(),
{
    if a.len() > 0 {
        if a[0] == b[0] && b[0] == c[0] {
            parts_less_transitive(a.drop_first(), b.drop_first(), c.drop_first());
        } else if a[0] != b[0] && b[0] != c[0] {
            part_less_transitive(a[0], b[0], c[0]);
            part_order(a[0], c[0]);
        }
    }
}

/// Of two texts that spell different paths exactly one comes first.
pub proof fn path_order(a: Seq<char>, b: Seq<char>)
    ensures
        path_less(a, b) || path_less(b, a) || same_path(a, b),
        !(path_less(a, b) && path_less(b, a)),
        same_path(a, b) ==> !path_less(a, b),
{
    parts_order(parts(a), parts(b));
}

/// The order of paths is transitive.
pub proof fn path_less_transitive(a: Seq<char>, b: Seq<char>, c: Seq<char>)
    requires
        path_less(a, b),
        path_less(b, c),
    ensures
        path_less(a, c),
{
    parts_less_transitive(parts(a), parts(b), parts(c));
}

// ---------------------------------------------------------------------
// Joining

/// The single run of a text whose rest is one name.
pub proof fn last_span(t: Seq<char>, n: int, v: bool)
    requires
        0 <= n < t.len(),
        plain_name(t.skip(n)),
    ensures
        spans(t, n, v) == seq![(n, t.len() as int)],
        n > 0 && divides(t[n - 1], v) ==> spans(t, n - 1, v) == seq![(n, t.len() as int)],
{
    run_end_bounds(t, n, v);
    let e = run_end(t, n, v);
    if e < t.len() {
        assert(t.skip(n)[e - n] == t[e]);
    }
    if n > 0 && divides(t[n - 1], v) {
        assert(!kept(t, n - 1, n - 1, v));
    }
}

/// What joining a name does to everything in front of the first name.
proof fn join_lead(dir: Seq<char>, name: Seq<char>)
    requires
        plain_name(name),
        prefix_len(joined(dir, name)) <= dir.len(),
        verbatim(dir) ==> rooted(dir),
    ensures
        joined(dir, name).len() >= dir.len() + name.len(),
        joined(dir, name) == if needs_sep(dir) {
            dir.push('\\') + name
        } else {
            dir + name
        },
        joined(dir, name).take(dir.len() as int) == dir,
        joined(dir, name).skip(joined(dir, name).len() - name.len()) == name,
        prefix(joined(dir, name)) == prefix(dir),
        verbatim(joined(dir, name)) == verbatim(dir),
        lead_parts(joined(dir, name)) == lead_parts(dir),
        base(joined(dir, name)) == base(dir) || (needs_sep(dir) && base(dir) == dir.len() && base(
            joined(dir, name),
        ) == dir.len() + 1),
{
    let j = joined(dir, name);
    let d = dir.len() as int;
    assert(j.take(d) =~= dir);
    assert(j.skip(j.len() - name.len()) =~= name);
    prefix_take(j, d);
    prefix_bounds(dir);
    let p = prefix_len(dir);
    if p < d {
        if p + 1 < d {
            assert(j[p + 1] == dir[p + 1]);
        }
    } else {
        if needs_sep(dir) {
            assert(rooted(j));
        } else {
            assert(j[d] == name[0]);
            assert(!rooted(j));
            if name.len() > 1 {
                assert(!is_sep(name[1]));
            }
        }
    }
}

/// What joining a name does to the names of a path.
proof fn join_body(dir: Seq<char>, name: Seq<char>)
    requires
        plain_name(name),
        prefix_len(joined(dir, name)) <= dir.len(),
        verbatim(dir) ==> rooted(dir),
    ensures
        body(joined(dir, name)) == body(dir).push(
            ((joined(dir, name).len() - name.len()) as int, joined(dir, name).len() as int),
        ),
{
    join_lead(dir, name);
    let j = joined(dir, name);
    let d = dir.len() as int;
    let n = j.len() - name.len();
    let v = verbatim(dir);
    prefix_bounds(dir);
    last_span(j, n, v);
    if needs_sep(dir) {
        if base(j) <= d {
            spans_split(j, base(j), d, v);
        } else {
            assert(body(dir) =~= Seq::empty());
        }
    } else if base(dir) == d {
        assert(body(dir) =~= Seq::empty());
    } else {
        spans_split(j, base(j), d - 1, v);
        spans_split(dir, base(j), d - 1, v);
        assert(j.take(d - 1) =~= dir.take(d - 1));
        assert(spans(dir, d, v) =~= Seq::empty());
    }
}

/// Joining a name to a folder adds one part, the name; so the joined path has
/// that file name and its parent is the folder. Left out are folders whose
/// text is only the start of a prefix that the name would complete, and
/// verbatim prefixes without a root.
pub proof fn join_parts(dir: Seq<char>, name: Seq<char>)
    requires
        plain_name(name),
        prefix_len(joined(dir, name)) <= dir.len(),
        verbatim(dir) ==> rooted(dir),
    ensures
        parts(joined(dir, name)) == parts(dir).push(named(PartKind::Normal, name)),
        file_name(joined(dir, name)) == Some(name),
        parent(joined(dir, name)) matches Some(p) && same_path(p, dir),
{
    let j = joined(dir, name);
    let n = j.len() - name.len();
    join_lead(dir, name);
    join_body(dir, name);
    prefix_bounds(dir);
    let v = verbatim(dir);
    spans_bounds(dir, base(dir), v);
    assert forall|k: int| 0 <= k < body(dir).len() implies span_part(j, #[trigger] body(j)[k])
        == span_part(dir, body(dir)[k]) by {
    }
    assert(span_part(j, (n, j.len() as int)) == named(PartKind::Normal, name));
    assert(parts(j) =~= parts(dir).push(named(PartKind::Normal, name)));
    parent_parts(j);
    assert(parts(dir) =~= parts(j).drop_last());
}

} // verus!
