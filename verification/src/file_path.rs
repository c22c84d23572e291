//! Paths as values.

use crate::path_laws::{prefix_bounds, proper_span, same_key_same_path, spans_bounds};
use crate::paths::{
    base, body, capital, divides, dotted, drive_at, extension_of, file_name, is_letter, is_sep,
    joined, last_dot, lead, lead_parts, levels_below, name_part, parent, part_less, parts,
    parts_key, parts_less, path_key, path_less, prefix, prefix_len, rooted, run_at, run_end,
    same_path, span_part, spans, stem_of, top, under, verbatim, verbatim_prefix, verbatim_start,
    views, PartKind, PathPart, Prefix,
};
use crate::text::{chars_of, concat2, is_text_less, opt_text, same_text, string_of, string_of_range};
use vstd::prelude::*;

verus! {

/// A path, spelled as it was given.
#[derive(Debug)]
pub struct FilePath {
    pub text: String,
}

impl View for FilePath {
    type V = Seq<char>;

    open spec fn view(&self) -> Seq<char> {
        self.text@
    }
}

impl Clone for FilePath {
    fn clone(&self) -> (r: FilePath)
        ensures
            r == *self,
    {
        FilePath { text: self.text.clone() }
    }
}

impl PartialEq for FilePath {
    fn eq(&self, other: &FilePath) -> (r: bool) {
        let a = self.key();
        let b = other.key();
        proof {
            same_key_same_path(self@, other@);
        }
        same_text(a.as_str(), b.as_str())
    }
}

/// Paths are equal when they have the same parts.
impl vstd::std_specs::cmp::PartialEqSpecImpl for FilePath {
    open spec fn obeys_eq_spec() -> bool {
        true
    }

    open spec fn eq_spec(&self, other: &FilePath) -> bool {
        same_path(self@, other@)
    }
}

impl Eq for FilePath {

}

// ---------------------------------------------------------------------
// Splitting

fn sep(c: char) -> (r: bool)
    ensures
        r == is_sep(c),
{
    c == '\\' || c == '/'
}

fn sep_in(c: char, verbatim: bool) -> (r: bool)
    ensures
        r == divides(c, verbatim),
{
    c == '\\' || (c == '/' && !verbatim)
}

fn find_run_end(v: &Vec<char>, i: usize, verbatim: bool) -> (r: usize)
    requires
        i <= v@.len(),
    ensures
        r == run_end(v@, i as int, verbatim),
        i <= r <= v@.len(),
{
    let mut k: usize = i;
    while k < v.len() && !sep_in(v[k], verbatim)
        invariant
            i <= k <= v@.len(),
            run_end(v@, i as int, verbatim) == run_end(v@, k as int, verbatim),
        decreases v@.len() - k,
    {
        k += 1;
    }
    k
}

fn text_run(v: &Vec<char>, i: usize, verbatim: bool) -> (r: (String, usize))
    requires
        i <= v@.len(),
    ensures
        r.0@ == run_at(v@, i as int, verbatim),
        r.1 == r.0@.len(),
        i + r.1 <= v.len(),
{
    let e: usize = find_run_end(v, i, verbatim);
    (string_of_range(v, i, e), e - i)
}

fn drive_letter(c: char) -> (r: String)
    requires
        is_letter(c),
    ensures
        r@ == seq![capital(c)],
{
    let mut s = String::new();
    if 'a' <= c && c <= 'z' {
        let n: u8 = c as u8 - 32;
        s.push(n as char);
    } else {
        s.push(c);
    }
    s
}

fn has_drive(v: &Vec<char>, i: usize) -> (r: bool)
    requires
        i <= v@.len(),
    ensures
        r == drive_at(v@, i as int),
{
    if v.len() - i < 2 {
        return false;
    }
    let c = v[i];
    (('A' <= c && c <= 'Z') || ('a' <= c && c <= 'z')) && v[i + 1] == ':'
}

fn find_verbatim_prefix(v: &Vec<char>) -> (r: (PathPart, usize))
    requires
        verbatim_start(v@),
    ensures
        r.0@ == verbatim_prefix(v@).part,
        r.1 == verbatim_prefix(v@).len,
{
    if v.len() >= 8 && v[4] == 'U' && v[5] == 'N' && v[6] == 'C' && sep(v[7]) {
        let (server, n) = text_run(v, 8, true);
        let (share, m) = if 8 + n < v.len() {
            text_run(v, 9 + n, true)
        } else {
            (String::new(), 0)
        };
        let len: usize = if m > 0 {
            9 + n + m
        } else {
            8 + n
        };
        (PathPart { kind: PartKind::VerbatimUnc, first: server, second: share }, len)
    } else if has_drive(v, 4) && (v.len() == 6 || sep(v[6])) {
        (
            PathPart {
                kind: PartKind::VerbatimDisk,
                first: drive_letter(v[4]),
                second: String::new(),
            },
            6,
        )
    } else {
        let (name, n) = text_run(v, 4, true);
        (PathPart { kind: PartKind::Verbatim, first: name, second: String::new() }, 4 + n)
    }
}

fn starts_verbatim(v: &Vec<char>) -> (r: bool)
    ensures
        r == verbatim_start(v@),
{
    v.len() >= 4 && v[0] == '\\' && v[1] == '\\' && v[2] == '?' && v[3] == '\\'
}

fn find_prefix(v: &Vec<char>) -> (r: Option<(PathPart, usize)>)
    ensures
        match r {
            Some(p) => prefix(v@) == Some(Prefix { part: p.0@, len: p.1 as int }),
            None => prefix(v@) is None,
        },
{
    if starts_verbatim(v) {
        Some(find_verbatim_prefix(v))
    } else if v.len() >= 2 && sep(v[0]) && sep(v[1]) {
        if v.len() >= 4 && v[2] == '.' && sep(v[3]) {
            let (name, n) = text_run(v, 4, false);
            Some((PathPart { kind: PartKind::DeviceNs, first: name, second: String::new() }, 4 + n))
        } else {
            let (server, n) = text_run(v, 2, false);
            let (share, m) = if 2 + n < v.len() {
                text_run(v, 3 + n, false)
            } else {
                (String::new(), 0)
            };
            if n > 0 && m > 0 {
                Some((PathPart { kind: PartKind::Unc, first: server, second: share }, 3 + n + m))
            } else {
                None
            }
        }
    } else if has_drive(v, 0) {
        Some(
            (
                PathPart {
                    kind: PartKind::Disk,
                    first: drive_letter(v[0]),
                    second: String::new(),
                },
                2,
            ),
        )
    } else {
        None
    }
}

/// Where the pieces of a path lie.
struct Layout {
    prefix: Option<PathPart>,
    prefix_len: usize,
    rooted: bool,
    dotted: bool,
    base: usize,
    lead: usize,
    verbatim: bool,
}

impl Layout {
    spec fn fits(&self, t: Seq<char>) -> bool {
        &&& match self.prefix {
            Some(p) => prefix(t) == Some(Prefix { part: p@, len: self.prefix_len as int }),
            None => prefix(t) is None,
        }
        &&& self.prefix_len == prefix_len(t)
        &&& self.rooted == rooted(t)
        &&& self.dotted == dotted(t)
        &&& self.base == base(t)
        &&& self.lead == lead(t)
        &&& self.verbatim == verbatim(t)
        &&& self.lead <= t.len()
        &&& self.base <= t.len()
    }
}

fn layout(v: &Vec<char>) -> (r: Layout)
    ensures
        r.fits(v@),
{
    proof {
        prefix_bounds(v@);
    }
    let (prefix, prefix_len, drive_only) = match find_prefix(v) {
        Some((p, n)) => {
            let drive_only = matches!(p.kind, PartKind::Disk);
            (Some(p), n, drive_only)
        },
        None => (None, 0, true),
    };
    let p: usize = prefix_len;
    let rooted = p < v.len() && sep(v[p]);
    let dotted = !rooted && drive_only && p < v.len() && v[p] == '.' && (v.len() - p == 1 || sep(
        v[p + 1],
    ));
    let base: usize = if rooted {
        p + 1
    } else {
        p
    };
    let lead: usize = if dotted {
        base + 1
    } else {
        base
    };
    Layout { prefix, prefix_len, rooted, dotted, base, lead, verbatim: starts_verbatim(v) }
}

/// Spans as numbers.
spec fn span_views(v: Seq<(usize, usize)>) -> Seq<(int, int)> {
    Seq::new(v.len(), |i: int| (v[i].0 as int, v[i].1 as int))
}

fn find_spans(v: &Vec<char>, base: usize, verbatim: bool) -> (r: Vec<(usize, usize)>)
    requires
        base <= v@.len(),
    ensures
        span_views(r@) == spans(v@, base as int, verbatim),
        forall|k: int|
            0 <= k < r@.len() ==> base <= (#[trigger] r@[k]).0 < r@[k].1 <= v@.len() && proper_span(
                v@,
                base as int,
                (r@[k].0 as int, r@[k].1 as int),
                verbatim,
            ),
{
    let mut out: Vec<(usize, usize)> = Vec::new();
    let mut i: usize = base;
    let mut done = base >= v.len();
    assert(span_views(out@) + spans(v@, base as int, verbatim) =~= spans(
        v@,
        base as int,
        verbatim,
    ));
    while !done
        invariant
            base <= v@.len(),
            done || i < v@.len(),
            base <= i,
            done ==> span_views(out@) == spans(v@, base as int, verbatim),
            !done ==> spans(v@, base as int, verbatim) == span_views(out@) + spans(
                v@,
                i as int,
                verbatim,
            ),
        decreases v@.len() - i + if done { 0int } else { 1int },
    {
        let e: usize = find_run_end(v, i, verbatim);
        let ghost before = span_views(out@);
        let ghost rest = if e < v@.len() {
            spans(v@, e + 1, verbatim)
        } else {
            Seq::empty()
        };
        if i < e && (verbatim || !(e - i == 1 && v[i] == '.')) {
            out.push((i, e));
        } else {
            assert(span_views(out@) =~= before);
        }
        assert(before + spans(v@, i as int, verbatim) =~= span_views(out@) + rest);
        if e < v.len() && e + 1 < v.len() {
            i = e + 1;
        } else {
            done = true;
        }
    }
    proof {
        spans_bounds(v@, base as int, verbatim);
        assert forall|k: int| 0 <= k < out@.len() implies base <= (#[trigger] out@[k]).0
            < out@[k].1 <= v@.len() && proper_span(
            v@,
            base as int,
            (out@[k].0 as int, out@[k].1 as int),
            verbatim,
        ) by {
            assert(span_views(out@)[k] == (out@[k].0 as int, out@[k].1 as int));
        }
    }
    out
}

fn part_of_name(name: String) -> (r: PathPart)
    ensures
        r@ == name_part(name@),
{
    let v = chars_of(name.as_str());
    if v.len() == 1 && v[0] == '.' {
        let r = PathPart { kind: PartKind::CurDir, first: String::new(), second: String::new() };
        r
    } else if v.len() == 2 && v[0] == '.' && v[1] == '.' {
        let r = PathPart { kind: PartKind::ParentDir, first: String::new(), second: String::new() };
        r
    } else {
        let r = PathPart { kind: PartKind::Normal, first: name, second: String::new() };
        r
    }
}

// ---------------------------------------------------------------------
// Keys and order

fn part_precedes(a: &PathPart, b: &PathPart) -> (r: bool)
    ensures
        r == part_less(a@, b@),
{
    if a.kind != b.kind {
        let x: u8 = a.kind.number();
        let y: u8 = b.kind.number();
        x < y
    } else if !same_text(a.first.as_str(), b.first.as_str()) {
        is_text_less(a.first.as_str(), b.first.as_str())
    } else {
        is_text_less(a.second.as_str(), b.second.as_str())
    }
}

fn same_part(a: &PathPart, b: &PathPart) -> (r: bool)
    ensures
        r == (a@ == b@),
{
    let r = a.kind == b.kind && same_text(a.first.as_str(), b.first.as_str()) && same_text(
        a.second.as_str(),
        b.second.as_str(),
    );
    r
}

fn parts_precede(a: &Vec<PathPart>, b: &Vec<PathPart>) -> (r: bool)
    ensures
        r == parts_less(views(a@), views(b@)),
{
    let ghost x = views(a@);
    let ghost y = views(b@);
    let mut i: usize = 0;
    assert(x.skip(0) =~= x && y.skip(0) =~= y);
    while i < a.len() && i < b.len()
        invariant
            x == views(a@),
            y == views(b@),
            i <= a@.len(),
            i <= b@.len(),
            parts_less(x, y) == parts_less(x.skip(i as int), y.skip(i as int)),
        decreases a@.len() - i,
    {
        if !same_part(&a[i], &b[i]) {
            return part_precedes(&a[i], &b[i]);
        }
        assert(x.skip(i as int).drop_first() =~= x.skip(i + 1));
        assert(y.skip(i as int).drop_first() =~= y.skip(i + 1));
        i += 1;
    }
    i < b.len()
}

fn key_of(v: &Vec<PathPart>) -> (r: String)
    ensures
        r@ == parts_key(views(v@)),
{
    let mut out = String::new();
    let ghost s = views(v@);
    assert(s.skip(0) =~= s);
    for i in 0..v.len()
        invariant
            s == views(v@),
            out@ + parts_key(s.skip(i as int)) == parts_key(s),
    {
        let p = &v[i];
        out.push(p.kind.letter());
        out.append(p.first.as_str());
        out.push('\\');
        out.append(p.second.as_str());
        out.push('\\');
        proof {
            assert(s.skip(i as int).drop_first() =~= s.skip(i + 1));
        }
    }
    out
}

// ---------------------------------------------------------------------
// Operations

/// The path that an optional value holds.
pub open spec fn opt_path(o: Option<FilePath>) -> Option<Seq<char>> {
    match o {
        Some(p) => Some(p@),
        None => None,
    }
}

/// Finds [`last_dot`]; nothing for a name without a dot.
fn find_last_dot(v: &Vec<char>) -> (r: Option<usize>)
    ensures
        match r {
            Some(i) => i == last_dot(v@) && i < v.len(),
            None => last_dot(v@) == -1,
        },
{
    let mut n: usize = v.len();
    assert(v@.take(n as int) =~= v@);
    while n > 0
        invariant
            n <= v@.len(),
            last_dot(v@) == last_dot(v@.take(n as int)),
        decreases n,
    {
        if v[n - 1] == '.' {
            return Some(n - 1);
        }
        assert(v@.take(n as int).drop_last() =~= v@.take(n - 1));
        n -= 1;
    }
    None
}

/// Computes [`stem_of`].
pub fn stem(name: &str) -> (r: String)
    ensures
        r@ == stem_of(name@),
{
    let v = chars_of(name);
    match find_last_dot(&v) {
        Some(i) => {
            if i > 0 {
                let r = string_of_range(&v, 0, i);
                r
            } else {
                string_of(&v)
            }
        },
        None => string_of(&v),
    }
}

/// Computes [`extension_of`].
pub fn extension(name: &str) -> (r: Option<String>)
    ensures
        opt_text(r) == extension_of(name@),
{
    let v = chars_of(name);
    match find_last_dot(&v) {
        Some(i) => {
            if i > 0 {
                Some(string_of_range(&v, i + 1, v.len()))
            } else {
                None
            }
        },
        None => None,
    }
}

impl FilePath {
    /// The path that `text` spells.
    pub fn new(text: &str) -> (r: FilePath)
        ensures
            r@ == text@,
    {
        FilePath { text: String::from_str(text) }
    }

    /// The text of the path.
    pub fn as_str(&self) -> (r: &str)
        ensures
            r@ == self@,
    {
        self.text.as_str()
    }

    /// The parts of the path.
    pub fn parts(&self) -> (r: Vec<PathPart>)
        ensures
            views(r@) == parts(self@),
    {
        let v = chars_of(self.as_str());
        let at = layout(&v);
        let s = find_spans(&v, at.base, at.verbatim);
        let mut out: Vec<PathPart> = Vec::new();
        let mut implicit = false;
        let mut bare_path = true;
        match at.prefix {
            Some(p) => {
                implicit = matches!(p.kind, PartKind::Unc | PartKind::DeviceNs);
                bare_path = false;
                out.push(p);
            },
            None => {},
        }
        if at.rooted || implicit {
            out.push(
                PathPart { kind: PartKind::RootDir, first: String::new(), second: String::new() },
            );
        } else if at.dotted && bare_path {
            out.push(
                PathPart { kind: PartKind::CurDir, first: String::new(), second: String::new() },
            );
        }
        let ghost names = Seq::new(body(v@).len(), |i: int| span_part(v@, body(v@)[i]));
        for i in 0..s.len()
            invariant
                span_views(s@) == body(v@),
                names == Seq::new(body(v@).len(), |i: int| span_part(v@, body(v@)[i])),
                forall|k: int|
                    0 <= k < s@.len() ==> (#[trigger] s@[k]).0 < s@[k].1 && s@[k].1 <= v@.len(),
                views(out@) =~= lead_parts(v@) + names.take(i as int),
        {
            let (a, b) = s[i];
            let name = string_of_range(&v, a, b);
            let ghost before = views(out@);
            out.push(part_of_name(name));
            assert(views(out@) =~= before.push(out@.last()@));
        }
        out
    }

    /// The text under which the path is found again, however it is spelled.
    pub fn key(&self) -> (r: String)
        ensures
            r@ == path_key(self@),
    {
        key_of(&self.parts())
    }

    /// Whether the two spell the same path.
    pub fn same(&self, other: &FilePath) -> (r: bool)
        ensures
            r == same_path(self@, other@),
    {
        self == other
    }

    /// Whether this path comes before `other`.
    pub fn precedes(&self, other: &FilePath) -> (r: bool)
        ensures
            r == path_less(self@, other@),
    {
        parts_precede(&self.parts(), &other.parts())
    }

    /// The path without its last part.
    pub fn parent(&self) -> (r: Option<FilePath>)
        ensures
            opt_path(r) == parent(self@),
    {
        let v = chars_of(self.as_str());
        let at = layout(&v);
        let s = find_spans(&v, at.base, at.verbatim);
        if s.len() > 1 {
            let (a, b) = s[s.len() - 2];
            Some(FilePath { text: string_of_range(&v, 0, b) })
        } else if s.len() == 1 {
            Some(FilePath { text: string_of_range(&v, 0, at.lead) })
        } else if at.dotted && at.prefix.is_none() {
            let r = FilePath { text: String::new() };
            Some(r)
        } else {
            None
        }
    }

    /// The topmost ancestor of the path.
    pub fn top(&self) -> (r: FilePath)
        ensures
            r@ == top(self@),
    {
        let v = chars_of(self.as_str());
        let at = layout(&v);
        let s = find_spans(&v, at.base, at.verbatim);
        if at.dotted && at.prefix.is_none() {
            let r = FilePath { text: String::new() };
            r
        } else if s.len() > 0 {
            FilePath { text: string_of_range(&v, 0, at.lead) }
        } else {
            self.clone()
        }
    }

    /// The name of the file or folder that the path leads to.
    pub fn file_name(&self) -> (r: Option<String>)
        ensures
            opt_text(r) == file_name(self@),
    {
        let v = chars_of(self.as_str());
        let at = layout(&v);
        let s = find_spans(&v, at.base, at.verbatim);
        if s.len() == 0 {
            return None;
        }
        let (a, b) = s[s.len() - 1];
        let name = string_of_range(&v, a, b);
        let part = part_of_name(name.clone());
        if matches!(part.kind, PartKind::Normal) {
            Some(name)
        } else {
            None
        }
    }

    /// Whether the path is `dir` or lies below it.
    pub fn starts_with(&self, dir: &FilePath) -> (r: bool)
        ensures
            r == under(self@, dir@),
    {
        let a = self.parts();
        let b = dir.parts();
        let ghost x = views(a@);
        let ghost y = views(b@);
        if b.len() > a.len() {
            return false;
        }
        for i in 0..b.len()
            invariant
                x == views(a@),
                y == views(b@),
                x == parts(self@),
                y == parts(dir@),
                y.len() <= x.len(),
                forall|k: int| 0 <= k < i ==> x[k] == y[k],
        {
            if !same_part(&a[i], &b[i]) {
                assert(x[i as int] != y[i as int]);
                return false;
            }
        }
        true
    }

    /// How many parts the path has below `dir`, if it is `dir` or lies below
    /// it.
    pub fn levels_below(&self, dir: &FilePath) -> (r: Option<usize>)
        ensures
            r is Some <==> under(self@, dir@),
            r matches Some(n) ==> n == levels_below(self@, dir@),
    {
        if !self.starts_with(dir) {
            return None;
        }
        let a = self.parts();
        let b = dir.parts();
        Some(a.len() - b.len())
    }

    /// `name` taken relative to this path.
    pub fn join(&self, name: &str) -> (r: FilePath)
        ensures
            r@ == joined(self@, name@),
    {
        let n = chars_of(name);
        let at = layout(&n);
        if at.prefix.is_some() {
            return FilePath::new(name);
        }
        let v = chars_of(self.as_str());
        let own = layout(&v);
        if at.rooted {
            let head = string_of_range(&v, 0, own.prefix_len);
            return FilePath { text: concat2(head.as_str(), name) };
        }
        let drive_only = match &own.prefix {
            Some(p) => matches!(p.kind, PartKind::Disk) && own.prefix_len == v.len(),
            None => false,
        };
        if v.len() > 0 && !sep_in(v[v.len() - 1], own.verbatim) && !drive_only {
            let mut head = self.text.clone();
            head.push('\\');
            FilePath { text: concat2(head.as_str(), name) }
        } else {
            FilePath { text: concat2(self.as_str(), name) }
        }
    }

    /// The path with its file name replaced.
    pub fn with_file_name(&self, name: &str) -> (r: FilePath)
        ensures
            r@ == renamed(self@, name@),
    {
        if self.file_name().is_some() {
            match self.parent() {
                Some(p) => p.join(name),
                None => self.join(name),
            }
        } else {
            self.join(name)
        }
    }
}

/// A path with its file name replaced by `name`, or with `name` joined to it
/// where it has no file name.
pub open spec fn renamed(t: Seq<char>, name: Seq<char>) -> Seq<char> {
    match (file_name(t), parent(t)) {
        (Some(_), Some(p)) => joined(p, name),
        _ => joined(t, name),
    }
}

} // verus!
