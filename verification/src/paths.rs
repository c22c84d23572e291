//! Windows paths as text: how a path splits into parts, and what its parent,
//! its file name and its place in the order of paths are.
//!
//! Two spellings of one path (`C:\a\b`, `c:/a/./b/`) have the same parts;
//! equality, containment and order of paths are those of their parts.

use crate::text::text_less;
use vstd::prelude::*;

verus! {

// ---------------------------------------------------------------------
// Parts

/// What a part of a path is, in the order in which paths compare.
#[derive(Clone, Copy, Debug, PartialEq, Eq, Structural)]
pub enum PartKind {
    /// `\\?\name`
    Verbatim,
    /// `\\?\UNC\server\share`
    VerbatimUnc,
    /// `\\?\C:`
    VerbatimDisk,
    /// `\\.\COM42`
    DeviceNs,
    /// `\\server\share`
    Unc,
    /// `C:`
    Disk,
    /// The separator after the prefix, or at the very start.
    RootDir,
    /// `.`
    CurDir,
    /// `..`
    ParentDir,
    /// A file or folder name.
    Normal,
}

impl PartKind {
    /// The place of the kind in the order of paths.
    pub open spec fn rank(self) -> int {
        match self {
            PartKind::Verbatim => 0,
            PartKind::VerbatimUnc => 1,
            PartKind::VerbatimDisk => 2,
            PartKind::DeviceNs => 3,
            PartKind::Unc => 4,
            PartKind::Disk => 5,
            PartKind::RootDir => 6,
            PartKind::CurDir => 7,
            PartKind::ParentDir => 8,
            PartKind::Normal => 9,
        }
    }

    pub(crate) fn number(self) -> (r: u8)
        ensures
            r == self.rank(),
    {
        match self {
            PartKind::Verbatim => 0,
            PartKind::VerbatimUnc => 1,
            PartKind::VerbatimDisk => 2,
            PartKind::DeviceNs => 3,
            PartKind::Unc => 4,
            PartKind::Disk => 5,
            PartKind::RootDir => 6,
            PartKind::CurDir => 7,
            PartKind::ParentDir => 8,
            PartKind::Normal => 9,
        }
    }

    /// The letter that stands for the kind in a path's key.
    pub open spec fn tag(self) -> char {
        match self {
            PartKind::Verbatim => 'v',
            PartKind::VerbatimUnc => 'w',
            PartKind::VerbatimDisk => 'x',
            PartKind::DeviceNs => 'd',
            PartKind::Unc => 'u',
            PartKind::Disk => 'c',
            PartKind::RootDir => 'r',
            PartKind::CurDir => '.',
            PartKind::ParentDir => '^',
            PartKind::Normal => 'n',
        }
    }

    pub(crate) fn letter(self) -> (r: char)
        ensures
            r == self.tag(),
    {
        match self {
            PartKind::Verbatim => 'v',
            PartKind::VerbatimUnc => 'w',
            PartKind::VerbatimDisk => 'x',
            PartKind::DeviceNs => 'd',
            PartKind::Unc => 'u',
            PartKind::Disk => 'c',
            PartKind::RootDir => 'r',
            PartKind::CurDir => '.',
            PartKind::ParentDir => '^',
            PartKind::Normal => 'n',
        }
    }
}

/// One part of a path. `first` is the name, the server, the device or the
/// capital drive letter; `second` is the share.
#[verifier::ext_equal]
pub ghost struct Part {
    pub kind: PartKind,
    pub first: Seq<char>,
    pub second: Seq<char>,
}

/// A part without text.
pub open spec fn bare(kind: PartKind) -> Part {
    Part { kind, first: Seq::empty(), second: Seq::empty() }
}

/// A part with one text.
pub open spec fn named(kind: PartKind, first: Seq<char>) -> Part {
    Part { kind, first, second: Seq::empty() }
}

/// A part of a path, as a value.
#[derive(Debug)]
pub struct PathPart {
    pub kind: PartKind,
    pub first: String,
    pub second: String,
}

impl View for PathPart {
    type V = Part;

    open spec fn view(&self) -> Part {
        Part { kind: self.kind, first: self.first@, second: self.second@ }
    }
}

/// The parts that a vector holds.
pub open spec fn views(v: Seq<PathPart>) -> Seq<Part> {
    Seq::new(v.len(), |i: int| v[i]@)
}

// ---------------------------------------------------------------------
// Splitting

/// Whether `c` separates names.
pub open spec fn is_sep(c: char) -> bool {
    c == '\\' || c == '/'
}

/// Whether `c` separates names in a path that is verbatim or not: behind
/// `\\?\` a slash is an ordinary character.
pub open spec fn divides(c: char, verbatim: bool) -> bool {
    c == '\\' || (c == '/' && !verbatim)
}

/// The first separator at or after `i`, or the end of the text.
pub open spec fn run_end(t: Seq<char>, i: int, verbatim: bool) -> int
    decreases t.len() - i,
{
    if i >= t.len() || divides(t[i], verbatim) {
        i
    } else {
        run_end(t, i + 1, verbatim)
    }
}

/// What [`run_end`] finds.
pub proof fn run_end_bounds(t: Seq<char>, i: int, verbatim: bool)
    requires
        0 <= i <= t.len(),
    ensures
        i <= run_end(t, i, verbatim) <= t.len(),
        forall|k: int| i <= k < run_end(t, i, verbatim) ==> !divides(#[trigger] t[k], verbatim),
        run_end(t, i, verbatim) < t.len() ==> divides(t[run_end(t, i, verbatim)], verbatim),
    decreases t.len() - i,
{
    if i < t.len() && !divides(t[i], verbatim) {
        run_end_bounds(t, i + 1, verbatim);
    }
}

/// The name that begins at `i`.
pub open spec fn run_at(t: Seq<char>, i: int, verbatim: bool) -> Seq<char> {
    if i <= t.len() {
        t.subrange(i, run_end(t, i, verbatim))
    } else {
        Seq::empty()
    }
}

/// An ASCII letter.
pub open spec fn is_letter(c: char) -> bool {
    ('A' <= c <= 'Z') || ('a' <= c <= 'z')
}

/// The capital of an ASCII letter.
pub open spec fn capital(c: char) -> char {
    if 'a' <= c <= 'z' {
        ((c as u32) - 32) as char
    } else {
        c
    }
}

/// Whether a drive (`C:`) stands at `i`.
pub open spec fn drive_at(t: Seq<char>, i: int) -> bool {
    i + 2 <= t.len() && is_letter(t[i]) && t[i + 1] == ':'
}

/// Whether the text begins with `\\?\`, spelled with backslashes.
pub open spec fn verbatim_start(t: Seq<char>) -> bool {
    t.len() >= 4 && t[0] == '\\' && t[1] == '\\' && t[2] == '?' && t[3] == '\\'
}

/// Whether `UNC` and a separator follow the first four characters.
pub open spec fn verbatim_unc_start(t: Seq<char>) -> bool {
    t.len() >= 8 && t[4] == 'U' && t[5] == 'N' && t[6] == 'C' && is_sep(t[7])
}

/// The prefix of a path and the number of characters that it takes.
pub ghost struct Prefix {
    pub part: Part,
    pub len: int,
}

/// The prefix of a path that begins with `\\?\`.
pub open spec fn verbatim_prefix(t: Seq<char>) -> Prefix {
    if verbatim_unc_start(t) {
        let server = run_at(t, 8, true);
        let share = run_at(t, 9 + server.len() as int, true);
        Prefix {
            part: Part { kind: PartKind::VerbatimUnc, first: server, second: share },
            len: if share.len() > 0 {
                (9 + server.len() + share.len()) as int
            } else {
                (8 + server.len()) as int
            },
        }
    } else if drive_at(t, 4) && (t.len() == 6 || is_sep(t[6])) {
        Prefix { part: named(PartKind::VerbatimDisk, seq![capital(t[4])]), len: 6 }
    } else {
        let name = run_at(t, 4, true);
        Prefix { part: named(PartKind::Verbatim, name), len: (4 + name.len()) as int }
    }
}

/// The prefix of a path, if it has one.
pub open spec fn prefix(t: Seq<char>) -> Option<Prefix> {
    if verbatim_start(t) {
        Some(verbatim_prefix(t))
    } else if t.len() >= 2 && is_sep(t[0]) && is_sep(t[1]) {
        if t.len() >= 4 && t[2] == '.' && is_sep(t[3]) {
            let name = run_at(t, 4, false);
            Some(Prefix { part: named(PartKind::DeviceNs, name), len: (4 + name.len()) as int })
        } else {
            let server = run_at(t, 2, false);
            let share = run_at(t, 3 + server.len() as int, false);
            if server.len() > 0 && share.len() > 0 {
                Some(
                    Prefix {
                        part: Part { kind: PartKind::Unc, first: server, second: share },
                        len: (3 + server.len() + share.len()) as int,
                    },
                )
            } else {
                None
            }
        }
    } else if drive_at(t, 0) {
        Some(Prefix { part: named(PartKind::Disk, seq![capital(t[0])]), len: 2 })
    } else {
        None
    }
}

/// The length of the prefix.
pub open spec fn prefix_len(t: Seq<char>) -> int {
    match prefix(t) {
        Some(p) => p.len,
        None => 0,
    }
}

/// Whether the path is verbatim.
pub open spec fn verbatim(t: Seq<char>) -> bool {
    verbatim_start(t)
}

/// Whether a separator follows the prefix (or begins a path without one).
pub open spec fn rooted(t: Seq<char>) -> bool {
    prefix_len(t) < t.len() && is_sep(t[prefix_len(t)])
}

/// Whether the prefix itself means that the path starts at a root.
pub open spec fn implicit_root(t: Seq<char>) -> bool {
    match prefix(t) {
        Some(p) => p.part.kind == PartKind::Unc || p.part.kind == PartKind::DeviceNs,
        None => false,
    }
}

/// Whether the path counts as having a root.
pub open spec fn has_root(t: Seq<char>) -> bool {
    rooted(t) || match prefix(t) {
        Some(p) => p.part.kind != PartKind::Disk,
        None => false,
    }
}

/// Whether a path without a root begins with a single dot.
pub open spec fn dotted(t: Seq<char>) -> bool {
    let p = prefix_len(t);
    !has_root(t) && p < t.len() && t[p] == '.' && (p + 1 == t.len() || is_sep(t[p + 1]))
}

/// Where the names begin.
pub open spec fn base(t: Seq<char>) -> int {
    prefix_len(t) + if rooted(t) {
        1int
    } else {
        0
    }
}

/// The length of everything in front of the first name.
pub open spec fn lead(t: Seq<char>) -> int {
    base(t) + if dotted(t) {
        1int
    } else {
        0
    }
}

/// Whether the run `t[s..e]` counts as a part: empty runs and, outside
/// verbatim paths, single dots do not.
pub open spec fn kept(t: Seq<char>, s: int, e: int, verbatim: bool) -> bool {
    s < e && (verbatim || !(e == s + 1 && t[s] == '.'))
}

/// The runs from `i` on that count as parts, as start and end.
pub open spec fn spans(t: Seq<char>, i: int, verbatim: bool) -> Seq<(int, int)>
    decreases t.len() - i,
    when 0 <= i
    via spans_decreases
{
    if i >= t.len() {
        Seq::empty()
    } else {
        let e = run_end(t, i, verbatim);
        let rest = if e < t.len() {
            spans(t, e + 1, verbatim)
        } else {
            Seq::empty()
        };
        if kept(t, i, e, verbatim) {
            seq![(i, e)] + rest
        } else {
            rest
        }
    }
}

#[via_fn]
proof fn spans_decreases(t: Seq<char>, i: int, verbatim: bool) {
    if i < t.len() {
        run_end_bounds(t, i, verbatim);
    }
}

/// The runs of the path that are parts.
pub open spec fn body(t: Seq<char>) -> Seq<(int, int)> {
    spans(t, base(t), verbatim(t))
}

/// The part that a run is.
pub open spec fn name_part(name: Seq<char>) -> Part {
    if name.len() == 1 && name[0] == '.' {
        bare(PartKind::CurDir)
    } else if name.len() == 2 && name[0] == '.' && name[1] == '.' {
        bare(PartKind::ParentDir)
    } else {
        named(PartKind::Normal, name)
    }
}

/// The part that the run `span` of `t` is.
pub open spec fn span_part(t: Seq<char>, span: (int, int)) -> Part {
    name_part(t.subrange(span.0, span.1))
}

/// The parts in front of the first name.
pub open spec fn lead_parts(t: Seq<char>) -> Seq<Part> {
    let p = match prefix(t) {
        Some(p) => seq![p.part],
        None => Seq::empty(),
    };
    if rooted(t) || implicit_root(t) {
        p.push(bare(PartKind::RootDir))
    } else if dotted(t) && prefix(t) is None {
        p.push(bare(PartKind::CurDir))
    } else {
        p
    }
}

/// The parts of a path.
pub open spec fn parts(t: Seq<char>) -> Seq<Part> {
    lead_parts(t) + Seq::new(body(t).len(), |i: int| span_part(t, body(t)[i]))
}

/// Whether two texts spell the same path.
pub open spec fn same_path(a: Seq<char>, b: Seq<char>) -> bool {
    parts(a) == parts(b)
}

// ---------------------------------------------------------------------
// Parent, name, stem, extension

/// The path without its last part; nothing for a root, a prefix or an empty
/// path.
pub open spec fn parent(t: Seq<char>) -> Option<Seq<char>> {
    let b = body(t);
    if b.len() > 1 {
        Some(t.take(b[b.len() - 2].1))
    } else if b.len() == 1 {
        Some(t.take(lead(t)))
    } else if dotted(t) && prefix(t) is None {
        Some(Seq::empty())
    } else {
        None
    }
}

/// The name of the file or folder that the path leads to.
pub open spec fn file_name(t: Seq<char>) -> Option<Seq<char>> {
    let b = body(t);
    if b.len() > 0 && span_part(t, b.last()).kind == PartKind::Normal {
        Some(t.subrange(b.last().0, b.last().1))
    } else {
        None
    }
}

/// Whether `path` is `dir` or lies below it.
pub open spec fn under(path: Seq<char>, dir: Seq<char>) -> bool {
    parts(dir).is_prefix_of(parts(path))
}

/// How many parts `path` has below `dir`.
pub open spec fn levels_below(path: Seq<char>, dir: Seq<char>) -> int {
    parts(path).len() - parts(dir).len()
}

/// The topmost ancestor of a path: what stands in front of the first name.
pub open spec fn top(t: Seq<char>) -> Seq<char> {
    if dotted(t) && prefix(t) is None {
        Seq::empty()
    } else if body(t).len() > 0 {
        t.take(lead(t))
    } else {
        t
    }
}

/// The last dot of a name, or -1.
pub open spec fn last_dot(name: Seq<char>) -> int
    decreases name.len(),
{
    if name.len() == 0 {
        -1
    } else if name.last() == '.' {
        name.len() - 1
    } else {
        last_dot(name.drop_last())
    }
}

/// The name without its extension.
pub open spec fn stem_of(name: Seq<char>) -> Seq<char> {
    if last_dot(name) > 0 {
        name.take(last_dot(name))
    } else {
        name
    }
}

/// What follows the last dot of a name, unless the name starts with it.
pub open spec fn extension_of(name: Seq<char>) -> Option<Seq<char>> {
    if last_dot(name) > 0 {
        Some(name.skip(last_dot(name) + 1))
    } else {
        None
    }
}

// ---------------------------------------------------------------------
// Joining

/// Whether a separator has to go between a folder and a name below it.
pub open spec fn needs_sep(dir: Seq<char>) -> bool {
    &&& dir.len() > 0
    &&& !divides(dir.last(), verbatim(dir))
    &&& !(prefix(dir) matches Some(p) && p.part.kind == PartKind::Disk && p.len == dir.len())
}

/// `name` taken relative to `dir`. A name with a prefix replaces the folder;
/// one with only a root keeps the folder's prefix.
pub open spec fn joined(dir: Seq<char>, name: Seq<char>) -> Seq<char> {
    if prefix(name) is Some {
        name
    } else if rooted(name) {
        dir.take(prefix_len(dir)) + name
    } else if needs_sep(dir) {
        dir.push('\\') + name
    } else {
        dir + name
    }
}

/// A name that can stand for one file or folder.
pub open spec fn plain_name(name: Seq<char>) -> bool {
    &&& name.len() > 0
    &&& forall|i: int| 0 <= i < name.len() ==> !is_sep(#[trigger] name[i])
    &&& !(name.len() == 1 && name[0] == '.')
    &&& !(name.len() == 2 && name[0] == '.' && name[1] == '.')
    &&& prefix(name) is None
}

// ---------------------------------------------------------------------
// Keys

/// One part written as text: its tag and its two texts, each ended by a
/// backslash.
pub open spec fn part_key(p: Part) -> Seq<char> {
    seq![p.kind.tag()] + p.first + seq!['\\'] + p.second + seq!['\\']
}

/// Parts written as text, one behind the other.
pub open spec fn parts_key(s: Seq<Part>) -> Seq<char>
    decreases s.len(),
{
    if s.len() == 0 {
        Seq::empty()
    } else {
        part_key(s[0]) + parts_key(s.drop_first())
    }
}

/// The text under which a path is found again, however it is spelled.
pub open spec fn path_key(t: Seq<char>) -> Seq<char> {
    parts_key(parts(t))
}

// ---------------------------------------------------------------------
// Order

/// Whether the part `a` comes before the part `b`.
pub open spec fn part_less(a: Part, b: Part) -> bool {
    if a.kind != b.kind {
        a.kind.rank() < b.kind.rank()
    } else if a.first != b.first {
        text_less(a.first, b.first)
    } else {
        text_less(a.second, b.second)
    }
}

/// Whether the parts `a` come before the parts `b`, compared from the front.
pub open spec fn parts_less(a: Seq<Part>, b: Seq<Part>) -> bool
    decreases a.len(),
{
    if b.len() == 0 {
        false
    } else if a.len() == 0 {
        true
    } else if a[0] == b[0] {
        parts_less(a.drop_first(), b.drop_first())
    } else {
        part_less(a[0], b[0])
    }
}

/// Whether the path `a` comes before the path `b`.
pub open spec fn path_less(a: Seq<char>, b: Seq<char>) -> bool {
    parts_less(parts(a), parts(b))
}

} // verus!
