//! What paths mean, said over how they are spelled.

use crate::path_laws::{
    join_parts, last_span, parent_parts, prefix_bounds, spans_bounds, spans_split,
};
use crate::paths::{
    bare, base, body, capital, file_name, is_sep, joined, lead_parts, levels_below, named,
    needs_sep, parent, part_less, parts, parts_less, path_less, plain_name, prefix, prefix_len,
    rooted, run_at, run_end, same_path, span_part, spans, under, verbatim, Part, PartKind, Prefix,
};
use crate::text::text_less;
use vstd::prelude::*;

verus! {

/// Whether `n` is the name of a file or folder, as names are spelled: it is
/// not empty and no dot or two dots, and holds neither a separator nor a colon
/// behind its first character.
pub open spec fn is_name(n: Seq<char>) -> bool {
    &&& n.len() > 0
    &&& n != seq!['.']
    &&& n != seq!['.', '.']
    &&& forall|i: int| 0 <= i < n.len() ==> #[trigger] n[i] != '\\' && n[i] != '/'
    &&& n.len() >= 2 ==> n[1] != ':'
}

proof fn names_are_plain(n: Seq<char>)
    requires
        is_name(n),
    ensures
        plain_name(n),
{
    assert forall|i: int| 0 <= i < n.len() implies !is_sep(#[trigger] n[i]) by {}
    if n.len() == 1 && n[0] == '.' {
        assert(n =~= seq!['.']);
    }
    if n.len() == 2 && n[0] == '.' && n[1] == '.' {
        assert(n =~= seq!['.', '.']);
    }
}

/// Where a path begins: at a drive's root, at a share of a server, at the root,
/// or where one is.
pub ghost enum Start {
    Drive(char),
    Share(Seq<char>, Seq<char>),
    Root,
    Here,
}

/// Whether a drive is named by a letter, and a server and its share by names.
pub open spec fn is_start(s: Start) -> bool {
    match s {
        Start::Drive(c) => ('A' <= c <= 'Z') || ('a' <= c <= 'z'),
        Start::Share(server, share) => is_name(server) && is_name(share) && server != seq!['?'],
        _ => true,
    }
}

/// How the beginning is spelled with the separator `sep`.
pub open spec fn start_text(s: Start, sep: char) -> Seq<char> {
    match s {
        Start::Drive(c) => seq![c, ':', sep],
        Start::Share(server, share) => seq![sep, sep] + server + seq![sep] + share + seq![sep],
        Start::Root => seq![sep],
        Start::Here => Seq::empty(),
    }
}

/// What the beginning means.
pub open spec fn start_parts(s: Start) -> Seq<Part> {
    match s {
        Start::Drive(c) => seq![
            named(
                PartKind::Disk,
                seq![
                    if 'a' <= c <= 'z' {
                        ((c as u32) - 32) as char
                    } else {
                        c
                    },
                ],
            ),
            bare(PartKind::RootDir),
        ],
        Start::Share(server, share) => seq![
            Part { kind: PartKind::Unc, first: server, second: share },
            bare(PartKind::RootDir),
        ],
        Start::Root => seq![bare(PartKind::RootDir)],
        Start::Here => Seq::empty(),
    }
}

/// The path with these names, spelled with the separator `sep`.
pub open spec fn spelled(s: Start, names: Seq<Seq<char>>, sep: char) -> Seq<char>
    decreases names.len(),
{
    if names.len() == 0 {
        start_text(s, sep)
    } else if names.len() == 1 {
        start_text(s, sep) + names[0]
    } else {
        spelled(s, names.drop_last(), sep).push(sep) + names.last()
    }
}

/// The names as parts.
pub open spec fn name_parts(names: Seq<Seq<char>>) -> Seq<Part> {
    Seq::new(names.len(), |i: int| named(PartKind::Normal, names[i]))
}

/// What stands before the first name stays when a name is added behind a
/// separator, and the name becomes the last run.
proof fn add_name(dir: Seq<char>, j: Seq<char>, name: Seq<char>)
    requires
        is_name(name),
        !verbatim(dir),
        !verbatim(j),
        j == dir + name || (j.len() == dir.len() + 1 + name.len() && is_sep(j[dir.len() as int])
            && dir.len() > 0),
        j.take(dir.len() as int) == dir,
        j.skip(j.len() - name.len()) == name,
        prefix(j) == prefix(dir),
        lead_parts(j) == lead_parts(dir),
        base(j) == base(dir),
        base(dir) <= dir.len(),
        j == dir + name ==> base(dir) == dir.len() || is_sep(dir.last()),
    ensures
        parts(j) == parts(dir).push(named(PartKind::Normal, name)),
        file_name(j) == Some(name),
        body(j) == body(dir).push(((j.len() - name.len()) as int, j.len() as int)),
{
    names_are_plain(name);
    let d = dir.len() as int;
    let n = j.len() - name.len();
    let v = false;
    prefix_bounds(dir);
    last_span(j, n, v);
    if j.len() == dir.len() + 1 + name.len() {
        spans_split(j, base(j), d, v);
        assert(j.take(d) == dir);
    } else if base(dir) == d {
        assert(body(dir) =~= Seq::empty());
    } else {
        spans_split(j, base(j), d - 1, v);
        spans_split(dir, base(j), d - 1, v);
        assert(j.take(d - 1) =~= dir.take(d - 1));
        assert(spans(dir, d, v) =~= Seq::empty());
    }
    assert(body(j) =~= body(dir).push((n, j.len() as int)));
    spans_bounds(dir, base(dir), v);
    assert forall|k: int| 0 <= k < body(dir).len() implies span_part(j, #[trigger] body(j)[k])
        == span_part(dir, body(dir)[k]) by {
        assert(j.subrange(body(dir)[k].0, body(dir)[k].1) =~= dir.subrange(
            body(dir)[k].0,
            body(dir)[k].1,
        ));
    }
    assert(j.subrange(n, j.len() as int) =~= name);
    assert(span_part(j, (n, j.len() as int)) == named(PartKind::Normal, name));
    assert(parts(j) =~= parts(dir).push(named(PartKind::Normal, name)));
}

/// The run of characters up to the next separator.
proof fn run_is_read(t: Seq<char>, i: int, n: int)
    requires
        0 <= i <= n <= t.len(),
        forall|k: int| i <= k < n ==> !is_sep(#[trigger] t[k]),
        n < t.len() ==> is_sep(t[n]),
    ensures
        run_end(t, i, false) == n,
    decreases n - i,
{
    if i < n {
        run_is_read(t, i + 1, n);
    }
}

/// A share of a server is the prefix of a path that begins with it.
proof fn share_is_read(server: Seq<char>, share: Seq<char>, t: Seq<char>, sep: char)
    requires
        is_name(server),
        is_name(share),
        server != seq!['?'],
        is_sep(sep),
        ({
            let h = start_text(Start::Share(server, share), sep);
            h.len() <= t.len() && t.take(h.len() as int) == h
        }),
    ensures
        !verbatim(t),
        prefix(t) == Some(
            Prefix {
                part: Part { kind: PartKind::Unc, first: server, second: share },
                len: (3 + server.len() + share.len()) as int,
            },
        ),
        rooted(t),
{
    let h = start_text(Start::Share(server, share), sep);
    let a = server.len() as int;
    let b = share.len() as int;
    assert(h.len() == a + b + 4);
    assert forall|k: int| 0 <= k < h.len() implies #[trigger] t[k] == h[k] by {
        assert(t.take(h.len() as int)[k] == t[k]);
    }
    assert(t[0] == sep && t[1] == sep);
    assert forall|k: int| 2 <= k < 2 + a implies !is_sep(#[trigger] t[k]) && t[k]
        == server[k - 2] by {
        assert(t[k] == h[k]);
        assert(h[k] == server[k - 2]);
    }
    assert(t[2 + a] == sep) by {
        assert(h[2 + a] == sep);
    }
    assert forall|k: int| 3 + a <= k < 3 + a + b implies !is_sep(#[trigger] t[k]) && t[k]
        == share[k - 3 - a] by {
        assert(t[k] == h[k]);
        assert(h[k] == share[k - 3 - a]);
    }
    assert(t[3 + a + b] == sep) by {
        assert(h[3 + a + b] == sep);
    }
    run_is_read(t, 2, 2 + a);
    run_is_read(t, 3 + a, 3 + a + b);
    assert(run_at(t, 2, false) =~= server);
    assert(run_at(t, 3 + a, false) =~= share);
    assert(t[2] == server[0]);
    if a == 1 {
        if server[0] == '?' {
            assert(server =~= seq!['?']);
        }
        if server[0] == '.' {
            assert(server =~= seq!['.']);
        }
    } else {
        assert(t[3] == server[1]);
        assert(!is_sep(t[3]));
    }
}

/// The beginning of a text is read whatever follows, unless that would make
/// another beginning of it.
proof fn lead_is_read(s: Start, t: Seq<char>, sep: char)
    requires
        is_start(s),
        is_sep(sep),
        ({
            let h = start_text(s, sep);
            h.len() <= t.len() && t.take(h.len() as int) == h
        }),
        s is Root ==> (t.len() > 1 ==> !is_sep(t[1])),
        s is Here ==> (t.len() > 0 ==> !is_sep(t[0]) && !(t[0] == '.' && (t.len() == 1 || is_sep(
            t[1],
        )))) && (t.len() > 1 ==> t[1] != ':'),
    ensures
        !verbatim(t),
        base(t) == start_text(s, sep).len(),
        prefix(t) == prefix(start_text(s, sep)),
        lead_parts(t) == start_parts(s),
{
    let h = start_text(s, sep);
    assert forall|k: int| 0 <= k < h.len() implies #[trigger] t[k] == h[k] by {
        assert(t.take(h.len() as int)[k] == t[k]);
    }
    match s {
        Start::Drive(c) => {
            assert(t[0] == h[0] && t[1] == h[1] && t[2] == h[2]);
            assert(capital(c) == if 'a' <= c <= 'z' {
                ((c as u32) - 32) as char
            } else {
                c
            });
        },
        Start::Share(server, share) => {
            share_is_read(server, share, t, sep);
            assert(h.take(h.len() as int) =~= h);
            share_is_read(server, share, h, sep);
        },
        Start::Root => {
            assert(t[0] == h[0]);
        },
        Start::Here => {},
    }
    assert(lead_parts(t) =~= start_parts(s));
}

/// What a path's beginning is in the grammar.
pub proof fn start_is_read(s: Start, names: Seq<Seq<char>>, sep: char)
    requires
        is_start(s),
        is_sep(sep),
        forall|i: int| 0 <= i < names.len() ==> is_name(#[trigger] names[i]),
    ensures
        ({
            let t = spelled(s, names, sep);
            let h = start_text(s, sep);
            &&& h.len() <= t.len()
            &&& t.take(h.len() as int) == h
            &&& !verbatim(t)
            &&& base(t) == h.len()
            &&& prefix(t) == prefix(h)
            &&& lead_parts(t) == start_parts(s)
            &&& names.len() > 0 ==> t.len() > h.len() && !is_sep(t.last()) && !is_sep(
                t[h.len() as int],
            )
            &&& names.len() > 0 ==> (t.len() > h.len() + 1 ==> t[h.len() as int + 1] != ':')
            &&& names.len() > 0 ==> !(t[h.len() as int] == '.' && (t.len() == h.len() + 1 || is_sep(
                t[h.len() as int + 1],
            )))
        }),
    decreases names.len(),
{
    let t = spelled(s, names, sep);
    let h = start_text(s, sep);
    if names.len() == 1 {
        let n = names[0];
        assert(is_name(n));
        assert(t.take(h.len() as int) =~= h);
        assert(t[h.len() as int] == n[0]);
        assert(t.last() == n.last());
        if n.len() > 1 {
            assert(t[h.len() as int + 1] == n[1]);
        } else if n[0] == '.' {
            assert(n =~= seq!['.']);
        }
    } else if names.len() > 1 {
        let front = names.drop_last();
        assert forall|i: int| 0 <= i < front.len() implies is_name(#[trigger] front[i]) by {
            assert(front[i] == names[i]);
        }
        start_is_read(s, front, sep);
        let f = spelled(s, front, sep);
        let n = names.last();
        assert(is_name(names[names.len() - 1]));
        assert(t.take(h.len() as int) =~= f.take(h.len() as int));
        assert(t[h.len() as int] == f[h.len() as int]);
        assert(t.last() == n.last());
        if f.len() > h.len() + 1 {
            assert(t[h.len() as int + 1] == f[h.len() as int + 1]);
        } else {
            assert(t[h.len() as int + 1] == sep);
            // A single dot would have been the first name alone.
            assert(front.len() == 1) by {
                if front.len() > 1 {
                    let g = spelled(s, front.drop_last(), sep);
                    assert(f.len() == g.len() + 1 + front.last().len());
                    assert(is_name(front[front.len() - 1]));
                    start_len(s, front.drop_last(), sep);
                }
            }
        }
    } else {
        assert(t.take(h.len() as int) =~= h);
    }
    lead_is_read(s, t, sep);
}

proof fn start_len(s: Start, names: Seq<Seq<char>>, sep: char)
    ensures
        spelled(s, names, sep).len() >= start_text(s, sep).len(),
    decreases names.len(),
{
    if names.len() > 1 {
        start_len(s, names.drop_last(), sep);
    }
}

/// A path means its beginning and its names, one part for each, with either
/// separator. Its last name is its file name.
#[verifier::rlimit(60)]
pub proof fn paths_mean_their_names(s: Start, names: Seq<Seq<char>>, sep: char)
    requires
        is_start(s),
        sep == '\\' || sep == '/',
        forall|i: int| 0 <= i < names.len() ==> is_name(#[trigger] names[i]),
    ensures
        parts(spelled(s, names, sep)) == start_parts(s) + name_parts(names),
        names.len() > 0 ==> file_name(spelled(s, names, sep)) == Some(names.last()),
        names.len() == 0 ==> file_name(spelled(s, names, sep)) is None,
        body(spelled(s, names, sep)).len() == names.len(),
        names.len() > 0 ==> body(spelled(s, names, sep)).last().1 == spelled(s, names, sep).len(),
    decreases names.len(),
{
    let t = spelled(s, names, sep);
    start_is_read(s, names, sep);
    if names.len() == 0 {
        assert(body(t) =~= Seq::empty());
        assert(parts(t) =~= start_parts(s) + name_parts(names));
    } else {
        let front = names.drop_last();
        let n = names.last();
        assert(is_name(names[names.len() - 1]));
        assert forall|i: int| 0 <= i < front.len() implies is_name(#[trigger] front[i]) by {
            assert(front[i] == names[i]);
        }
        paths_mean_their_names(s, front, sep);
        start_is_read(s, front, sep);
        let f = spelled(s, front, sep);
        assert(t.take(f.len() as int) =~= f);
        assert(t.skip(t.len() - n.len()) =~= n);
        if names.len() > 1 {
            assert(t[f.len() as int] == sep);
            assert(t != f + n) by {
                assert(t.len() != (f + n).len());
            }
        } else {
            assert(t =~= f + n);
        }
        add_name(f, t, n);
        assert(name_parts(names) =~= name_parts(front).push(named(PartKind::Normal, n)));
        assert(parts(t) =~= start_parts(s) + name_parts(names));
    }
}

/// Two spelled paths are the same exactly when they begin alike and have the
/// same names, whatever separators they are spelled with; the letters of names
/// count as they are.
pub proof fn same_names_same_path(
    s: Start,
    a: Seq<Seq<char>>,
    b: Seq<Seq<char>>,
    x: char,
    y: char,
)
    requires
        is_start(s),
        x == '\\' || x == '/',
        y == '\\' || y == '/',
        forall|i: int| 0 <= i < a.len() ==> is_name(#[trigger] a[i]),
        forall|i: int| 0 <= i < b.len() ==> is_name(#[trigger] b[i]),
    ensures
        same_path(spelled(s, a, x), spelled(s, b, y)) <==> a == b,
        under(spelled(s, a, x), spelled(s, b, y)) <==> b.is_prefix_of(a),
        under(spelled(s, a, x), spelled(s, b, y)) ==> levels_below(
            spelled(s, a, x),
            spelled(s, b, y),
        ) == a.len() - b.len(),
{
    paths_mean_their_names(s, a, x);
    paths_mean_their_names(s, b, y);
    let h = start_parts(s);
    let p = h + name_parts(a);
    let q = h + name_parts(b);
    let k = h.len() as int;
    if p == q {
        assert(a.len() == b.len());
        assert forall|i: int| 0 <= i < a.len() implies a[i] == b[i] by {
            assert(p[k + i] == q[k + i]);
        }
        assert(a =~= b);
    }
    if q.is_prefix_of(p) {
        assert forall|i: int| 0 <= i < b.len() implies a[i] == b[i] by {
            assert(p.subrange(0, q.len() as int)[k + i] == q[k + i]);
        }
        assert(b =~= a.subrange(0, b.len() as int));
    }
    if b.is_prefix_of(a) {
        assert(q =~= p.subrange(0, q.len() as int)) by {
            assert forall|i: int| 0 <= i < q.len() implies q[i] == p[i] by {
                if i >= k {
                    assert(b[i - k] == a.subrange(0, b.len() as int)[i - k]);
                }
            }
        }
    }
}

/// The parent of a path is the path without its last name.
pub proof fn parents_lack_the_last_name(s: Start, names: Seq<Seq<char>>, sep: char)
    requires
        is_start(s),
        sep == '\\' || sep == '/',
        forall|i: int| 0 <= i < names.len() ==> is_name(#[trigger] names[i]),
    ensures
        names.len() > 0 ==> (parent(spelled(s, names, sep)) matches Some(p) && same_path(
            p,
            spelled(s, names.drop_last(), sep),
        )),
        names.len() > 0 ==> parent(spelled(s, names, sep)) == Some(
            spelled(s, names.drop_last(), sep),
        ),
        names.len() == 0 ==> parent(spelled(s, names, sep)) is None,
{
    let t = spelled(s, names, sep);
    paths_mean_their_names(s, names, sep);
    start_is_read(s, names, sep);
    parent_parts(t);
    if names.len() > 0 {
        let front = names.drop_last();
        assert forall|i: int| 0 <= i < front.len() implies is_name(#[trigger] front[i]) by {
            assert(front[i] == names[i]);
        }
        paths_mean_their_names(s, front, sep);
        assert(parts(t).last() == named(PartKind::Normal, names.last()));
        assert(parts(t).drop_last() =~= start_parts(s) + name_parts(front));
        let f = spelled(s, front, sep);
        start_is_read(s, front, sep);
        assert(t.take(f.len() as int) =~= f);
        if names.len() > 1 {
            assert(is_name(names[names.len() - 1]));
            assert(t.skip(t.len() - names.last().len()) =~= names.last());
            assert(t[f.len() as int] == sep);
            assert(t != f + names.last()) by {
                assert(t.len() != (f + names.last()).len());
            }
            add_name(f, t, names.last());
            assert(body(t)[body(t).len() - 2] == body(f).last());
        }
    } else {
        assert(name_parts(names) =~= Seq::empty());
        assert(parts(t) =~= start_parts(s));
        start_is_read(s, names, sep);
        assert(body(t) =~= Seq::empty());
    }
}

/// The prefix of a joined path is that of the folder.
proof fn joined_lead(s: Start, t: Seq<char>, j: Seq<char>, n: Seq<char>, sep: char, more: bool)
    requires
        is_start(s),
        is_sep(sep),
        is_name(n),
        ({
            let h = start_text(s, sep);
            &&& h.len() <= t.len()
            &&& t.take(h.len() as int) == h
            &&& base(t) == h.len()
            &&& prefix(t) == prefix(h)
            &&& !more ==> t == h
            &&& more ==> t.len() > h.len() && !is_sep(t[h.len() as int])
            &&& more ==> (t.len() > h.len() + 1 ==> t[h.len() as int + 1] != ':')
            &&& more ==> !(t[h.len() as int] == '.' && (t.len() == h.len() + 1 || is_sep(
                t[h.len() as int + 1],
            )))
        }),
        j == if more {
            t.push('\\') + n
        } else {
            t + n
        },
    ensures
        prefix_len(j) <= t.len(),
{
    let h = start_text(s, sep);
    let k = h.len() as int;
    prefix_bounds(t);
    assert(j.take(k) =~= h) by {
        assert forall|i: int| 0 <= i < k implies #[trigger] j[i] == h[i] by {
            assert(t.take(k)[i] == t[i] && j[i] == t[i]);
        }
    }
    if more {
        assert(j[k] == t[k]);
        if t.len() > k + 1 {
            assert(j[k + 1] == t[k + 1]);
        } else {
            assert(j[k + 1] == '\\');
        }
    } else {
        assert(j[k] == n[0]);
        if n.len() > 1 {
            assert(j[k + 1] == n[1]);
        } else if n[0] == '.' {
            assert(n =~= seq!['.']);
        }
    }
    lead_is_read(s, j, sep);
    lead_is_read(s, t, sep);
}

/// A separator is needed behind a name, and not behind the beginning.
proof fn sep_is_needed(s: Start, names: Seq<Seq<char>>, sep: char)
    requires
        is_start(s),
        is_sep(sep),
        forall|i: int| 0 <= i < names.len() ==> is_name(#[trigger] names[i]),
    ensures
        needs_sep(spelled(s, names, sep)) <==> names.len() > 0,
{
    let t = spelled(s, names, sep);
    start_is_read(s, names, sep);
    let h = start_text(s, sep);
    if names.len() == 0 {
        assert(t == h);
        if h.len() > 0 {
            assert(h.last() == sep);
        }
    } else {
        prefix_bounds(t);
        match s {
            Start::Drive(c) => {
                assert(h.len() == 3);
                assert(prefix_len(h) == 2) by {
                    assert(h[0] == c && h[1] == ':');
                }
            },
            Start::Share(server, share) => {
                assert(h.take(h.len() as int) =~= h);
                share_is_read(server, share, h, sep);
            },
            _ => {},
        }
    }
}

/// Joining a name to a spelled path adds the name to its names.
#[verifier::rlimit(60)]
pub proof fn joining_adds_a_name(s: Start, names: Seq<Seq<char>>, sep: char, n: Seq<char>)
    requires
        is_start(s),
        sep == '\\' || sep == '/',
        forall|i: int| 0 <= i < names.len() ==> is_name(#[trigger] names[i]),
        is_name(n),
    ensures
        same_path(joined(spelled(s, names, sep), n), spelled(s, names.push(n), sep)),
        sep == '\\' ==> joined(spelled(s, names, sep), n) == spelled(s, names.push(n), sep),
        file_name(joined(spelled(s, names, sep), n)) == Some(n),
{
    let t = spelled(s, names, sep);
    let more = names.push(n);
    assert forall|i: int| 0 <= i < more.len() implies is_name(#[trigger] more[i]) by {
        if i < names.len() {
            assert(more[i] == names[i]);
        }
    }
    assert(more.drop_last() =~= names);
    names_are_plain(n);
    start_is_read(s, names, sep);
    paths_mean_their_names(s, names, sep);
    paths_mean_their_names(s, more, sep);
    let j = joined(t, n);
    assert(!rooted(n)) by {
        assert(!is_sep(n[0]));
    }
    sep_is_needed(s, names, sep);
    if names.len() > 0 {
        assert(j == t.push('\\') + n);
        assert(more.len() > 1);
    } else {
        assert(j == t + n);
        assert(j =~= spelled(s, more, sep));
    }
    joined_lead(s, t, j, n, sep, names.len() > 0);
    join_parts(t, n);
    assert(name_parts(more) =~= name_parts(names).push(named(PartKind::Normal, n)));
    assert(parts(j) =~= parts(spelled(s, more, sep)));
}

/// Names in order: the fewer that are a beginning of the other, then the first
/// name that differs, in text order.
pub open spec fn names_less(a: Seq<Seq<char>>, b: Seq<Seq<char>>) -> bool
    decreases a.len(),
{
    if b.len() == 0 {
        false
    } else if a.len() == 0 {
        true
    } else if a[0] == b[0] {
        names_less(a.drop_first(), b.drop_first())
    } else {
        text_less(a[0], b[0])
    }
}

proof fn parts_less_as_names(a: Seq<Seq<char>>, b: Seq<Seq<char>>)
    ensures
        parts_less(name_parts(a), name_parts(b)) <==> names_less(a, b),
    decreases a.len(),
{
    if a.len() > 0 && b.len() > 0 {
        let x = name_parts(a);
        let y = name_parts(b);
        assert(x.drop_first() =~= name_parts(a.drop_first()));
        assert(y.drop_first() =~= name_parts(b.drop_first()));
        parts_less_as_names(a.drop_first(), b.drop_first());
        assert(x[0] == named(PartKind::Normal, a[0]) && y[0] == named(PartKind::Normal, b[0]));
        if a[0] != b[0] {
            assert(part_less(x[0], y[0]) <==> text_less(a[0], b[0]));
        }
    }
}

proof fn same_head_is_skipped(h: Seq<Part>, x: Seq<Part>, y: Seq<Part>)
    ensures
        parts_less(h + x, h + y) <==> parts_less(x, y),
    decreases h.len(),
{
    if h.len() == 0 {
        assert(h + x =~= x);
        assert(h + y =~= y);
    } else {
        let g = h.drop_first();
        same_head_is_skipped(g, x, y);
        assert((h + x).drop_first() =~= g + x);
        assert((h + y).drop_first() =~= g + y);
        assert((h + x)[0] == (h + y)[0]);
    }
}

/// Paths that begin alike stand in the order of their names.
pub proof fn paths_stand_by_name(
    s: Start,
    a: Seq<Seq<char>>,
    b: Seq<Seq<char>>,
    x: char,
    y: char,
)
    requires
        is_start(s),
        x == '\\' || x == '/',
        y == '\\' || y == '/',
        forall|i: int| 0 <= i < a.len() ==> is_name(#[trigger] a[i]),
        forall|i: int| 0 <= i < b.len() ==> is_name(#[trigger] b[i]),
    ensures
        path_less(spelled(s, a, x), spelled(s, b, y)) <==> names_less(a, b),
{
    paths_mean_their_names(s, a, x);
    paths_mean_their_names(s, b, y);
    same_head_is_skipped(start_parts(s), name_parts(a), name_parts(b));
    parts_less_as_names(a, b);
}

/// A path lies below a folder exactly when it is the folder or its parent lies
/// below the folder.
pub proof fn below_by_parents(path: Seq<char>, dir: Seq<char>)
    requires
        parent(path) is Some,
    ensures
        under(path, dir) <==> same_path(path, dir) || under(parent(path).unwrap(), dir),
{
    parent_parts(path);
    let p = parts(path);
    let q = parts(parent(path).unwrap());
    let d = parts(dir);
    if d.is_prefix_of(p) && d.len() == p.len() {
        assert(d =~= p);
    } else if d.is_prefix_of(p) {
        assert(d =~= q.subrange(0, d.len() as int));
    }
    if d.is_prefix_of(q) {
        assert(d =~= p.subrange(0, d.len() as int)) by {
            assert(d =~= q.subrange(0, d.len() as int));
        }
    }
    if p == d {
        assert(d =~= p.subrange(0, d.len() as int));
    }
}

/// What stands behind a separator at the end of a path is read on its own.
proof fn tail_is_read(t: Seq<char>, j: Seq<char>, s: Start, names: Seq<Seq<char>>, sep: char)
    requires
        is_start(s),
        sep == '\\' || sep == '/',
        forall|i: int| 0 <= i < names.len() ==> is_name(#[trigger] names[i]),
        names.len() > 0,
        t == spelled(s, names, sep),
        j.len() > t.len(),
        j.take(t.len() as int) == t,
        j[t.len() as int] == sep,
    ensures
        lead_parts(j) == lead_parts(t),
        !verbatim(j),
        base(j) == base(t),
        body(j) == body(t) + spans(j, t.len() as int + 1, false),
        forall|k: int|
            0 <= k < body(t).len() ==> span_part(j, #[trigger] body(t)[k]) == span_part(
                t,
                body(t)[k],
            ),
{
    let d = t.len() as int;
    let h = start_text(s, sep);
    start_is_read(s, names, sep);
    assert forall|k: int| 0 <= k < d implies #[trigger] j[k] == t[k] by {
        assert(j.take(d)[k] == j[k]);
    }
    assert(j.take(h.len() as int) =~= h) by {
        assert(t.take(h.len() as int) == h);
        assert forall|k: int| 0 <= k < h.len() implies #[trigger] j[k] == h[k] by {
            assert(t.take(h.len() as int)[k] == t[k]);
        }
    }
    assert(t.len() > h.len());
    if h.len() + 1 < d {
        assert(j[h.len() as int + 1] == t[h.len() as int + 1]);
    }
    assert(j[h.len() as int] == t[h.len() as int]);
    lead_is_read(s, j, sep);
    spans_split(j, base(j), d, false);
    run_is_read(j, d, d);
    assert(spans(j, d, false) =~= spans(j, d + 1, false));
    spans_bounds(t, base(t), false);
    assert forall|k: int| 0 <= k < body(t).len() implies span_part(j, #[trigger] body(t)[k])
        == span_part(t, body(t)[k]) by {
        assert(j.subrange(body(t)[k].0, body(t)[k].1) =~= t.subrange(
            body(t)[k].0,
            body(t)[k].1,
        ));
    }
}

/// A separator at the end of a path means nothing, nor does a dot behind it;
/// two dots behind it are a part of their own.
pub proof fn dots_and_separators_at_the_end(s: Start, names: Seq<Seq<char>>, sep: char)
    requires
        is_start(s),
        sep == '\\' || sep == '/',
        forall|i: int| 0 <= i < names.len() ==> is_name(#[trigger] names[i]),
        names.len() > 0,
    ensures
        same_path(spelled(s, names, sep).push(sep), spelled(s, names, sep)),
        same_path(spelled(s, names, sep).push(sep).push('.'), spelled(s, names, sep)),
        parts(spelled(s, names, sep).push(sep).push('.').push('.')) == parts(
            spelled(s, names, sep),
        ).push(bare(PartKind::ParentDir)),
{
    let t = spelled(s, names, sep);
    let d = t.len() as int;
    let a = t.push(sep);
    let b = a.push('.');
    let c = b.push('.');
    assert(a.take(d) =~= t && b.take(d) =~= t && c.take(d) =~= t);
    tail_is_read(t, a, s, names, sep);
    tail_is_read(t, b, s, names, sep);
    tail_is_read(t, c, s, names, sep);
    assert(spans(a, d + 1, false) =~= Seq::empty());
    run_is_read(b, d + 1, d + 2);
    assert(spans(b, d + 1, false) =~= Seq::empty());
    run_is_read(c, d + 1, d + 3);
    assert(spans(c, d + 1, false) =~= seq![(d + 1, d + 3)]);
    assert(c.subrange(d + 1, d + 3) =~= seq!['.', '.']);
    assert(span_part(c, (d + 1, d + 3)) == bare(PartKind::ParentDir));
    assert(parts(a) =~= parts(t));
    assert(parts(b) =~= parts(t));
    assert(parts(c) =~= parts(t).push(bare(PartKind::ParentDir)));
}

/// Joining a path that begins at a drive or a share gives that path; one that
/// begins at the root stays on the drive of the folder.
pub proof fn joining_an_absolute_path(
    dir: Seq<char>,
    s: Start,
    names: Seq<Seq<char>>,
    sep: char,
    c: char,
    others: Seq<Seq<char>>,
)
    requires
        is_start(s),
        is_start(Start::Drive(c)),
        sep == '\\' || sep == '/',
        forall|i: int| 0 <= i < names.len() ==> is_name(#[trigger] names[i]),
        forall|i: int| 0 <= i < others.len() ==> is_name(#[trigger] others[i]),
    ensures
        s is Drive || s is Share ==> joined(dir, spelled(s, names, sep)) == spelled(s, names, sep),
        s is Root ==> joined(spelled(Start::Drive(c), others, sep), spelled(s, names, sep)) == seq![
            c,
            ':',
        ] + spelled(s, names, sep),
{
    let t = spelled(s, names, sep);
    let h = start_text(s, sep);
    start_is_read(s, names, sep);
    match s {
        Start::Drive(d) => {
            assert(h[0] == d && h[1] == ':');
        },
        Start::Share(server, share) => {
            share_is_read(server, share, t, sep);
        },
        Start::Root => {
            let f = spelled(Start::Drive(c), others, sep);
            let g = start_text(Start::Drive(c), sep);
            start_is_read(Start::Drive(c), others, sep);
            assert(g[0] == c && g[1] == ':');
            assert(f[0] == c && f[1] == ':') by {
                assert(f.take(3)[0] == f[0] && f.take(3)[1] == f[1]);
                assert(g.len() == 3);
            }
            assert(f.take(2) =~= seq![c, ':']);
            assert(t[0] == sep) by {
                assert(t.take(1)[0] == t[0]);
            }
            assert(prefix(h) is None);
            assert(rooted(t));
        },
        Start::Here => {},
    }
}

} // verus!
