//! What is suggested for a path that is being typed.

use crate::complete::{
    completed_dir, completed_text, completions, drive_suggestion, drives, drives_among,
    folder_named, folder_suggestion, has_path, key_before, key_order, last_sep, matching_children,
    matching_roots, roots, sorted_by_keys, with_folders, ListedChild, Suggestion,
};
use crate::file_path::FilePath;
use crate::paths::{file_name, joined};
use crate::sort::{lists, ordered_lists, orders};
use crate::text::{
    begins_with, lowercase, text_less, text_less_asymmetric, text_less_total, text_less_transitive,
    trimmed,
};
use vstd::prelude::*;

verus! {

/// The number of suggestions asked for, between 1 and 100.
pub open spec fn asked_for(limit: usize) -> int {
    if limit == 0 {
        1
    } else if limit > 100 {
        100
    } else {
        limit as int
    }
}

// ---------------------------------------------------------------------
// Sorting

/// The positions in the order of their keys.
proof fn keys_in_order(keys: Seq<Seq<char>>)
    ensures
        lists(
            key_order(keys),
            Set::new(|i: usize| i < keys.len()),
            |a: usize, b: usize| key_before(keys, a, b),
        ),
{
    let set = Set::new(|i: usize| i < keys.len());
    let before = |a: usize, b: usize| key_before(keys, a, b);
    assert(orders(set, before)) by {
        assert forall|x: usize, y: usize|
            set.contains(x) && set.contains(y) implies (#[trigger] before(x, y) || before(y, x) || x
            == y) && !(before(x, y) && before(y, x)) by {
            text_less_total(keys[x as int], keys[y as int]);
            text_less_asymmetric(keys[x as int], keys[y as int]);
        }
        assert forall|x: usize, y: usize, z: usize|
            set.contains(x) && set.contains(y) && set.contains(z) && #[trigger] before(x, y)
                && #[trigger] before(y, z) implies before(x, z) by {
            let a = keys[x as int];
            let b = keys[y as int];
            let c = keys[z as int];
            if a != b && b != c {
                text_less_transitive(a, b, c);
                text_less_asymmetric(a, c);
            }
        }
    }
    ordered_lists(set, usize::MAX + 1, before);
}

/// What suggestions are sorted by.
pub open spec fn sort_key(s: Suggestion, by_path: bool) -> Seq<char> {
    lowercase(
        if by_path {
            s.path
        } else {
            s.name
        },
    )
}

/// Whether no suggestion stands before one with a smaller key.
pub open spec fn sorted(s: Seq<Suggestion>, by_path: bool) -> bool {
    forall|i: int, j: int|
        0 <= i < j < s.len() ==> !text_less(
            sort_key(#[trigger] s[j], by_path),
            sort_key(#[trigger] s[i], by_path),
        )
}

/// Sorting keeps the items and puts them in order.
proof fn sorting_sorts(items: Seq<Suggestion>, by_path: bool)
    requires
        items.len() <= usize::MAX,
    ensures
        ({
            let out = sorted_by_keys(
                items,
                Seq::new(items.len(), |i: int| sort_key(items[i], by_path)),
            );
            &&& sorted(out, by_path)
            &&& forall|s: Suggestion| #[trigger] out.contains(s) <==> items.contains(s)
        }),
{
    let keys = Seq::new(items.len(), |i: int| sort_key(items[i], by_path));
    let order = key_order(keys);
    let out = sorted_by_keys(items, keys);
    keys_in_order(keys);
    assert forall|i: int| 0 <= i < order.len() implies #[trigger] order[i] < items.len() by {
        assert(order.contains(order[i]));
    }
    assert forall|i: int, j: int| 0 <= i < j < out.len() implies !text_less(
        sort_key(#[trigger] out[j], by_path),
        sort_key(#[trigger] out[i], by_path),
    ) by {
        let before = |a: usize, b: usize| key_before(keys, a, b);
        assert(before(order[i], order[j]));
        text_less_asymmetric(keys[order[i] as int], keys[order[j] as int]);
    }
    assert forall|s: Suggestion| #[trigger] out.contains(s) <==> items.contains(s) by {
        if out.contains(s) {
            let i = choose|i: int| 0 <= i < out.len() && out[i] == s;
            assert(items[order[i] as int] == s);
        }
        if items.contains(s) {
            let k = choose|k: int| 0 <= k < items.len() && items[k] == s;
            assert(order.contains(k as usize));
            let i = choose|i: int| 0 <= i < order.len() && order[i] == k;
            assert(out[i] == s);
        }
    }
}

/// Whether `r` is the first `n` of the wanted suggestions, or all if there are
/// fewer: nothing else is in it, it is sorted, and what is left out has no
/// smaller key.
pub open spec fn best_of(
    r: Seq<Suggestion>,
    wanted: spec_fn(Suggestion) -> bool,
    n: int,
    by_path: bool,
) -> bool {
    &&& r.len() <= n
    &&& forall|i: int| 0 <= i < r.len() ==> wanted(#[trigger] r[i])
    &&& sorted(r, by_path)
    &&& forall|s: Suggestion| #[trigger]
        wanted(s) ==> r.contains(s) || (r.len() == n && forall|i: int|
            0 <= i < r.len() ==> !text_less(
                sort_key(s, by_path),
                sort_key(#[trigger] r[i], by_path),
            ))
}

proof fn cut_is_best(
    all: Seq<Suggestion>,
    wanted: spec_fn(Suggestion) -> bool,
    n: int,
    by_path: bool,
)
    requires
        n >= 0,
        sorted(all, by_path),
        forall|s: Suggestion| #[trigger] all.contains(s) <==> wanted(s),
    ensures
        best_of(crate::complete::first_of(all, n), wanted, n, by_path),
{
    let r = crate::complete::first_of(all, n);
    assert forall|i: int| 0 <= i < r.len() implies wanted(#[trigger] r[i]) by {
        assert(r[i] == all[i]);
        assert(all.contains(all[i]));
    }
    assert forall|s: Suggestion| #[trigger] wanted(s) implies r.contains(s) || (r.len() == n
        && forall|i: int|
        0 <= i < r.len() ==> !text_less(
            sort_key(s, by_path),
            sort_key(#[trigger] r[i], by_path),
        )) by {
        assert(all.contains(s));
        let p = choose|p: int| 0 <= p < all.len() && all[p] == s;
        if p < r.len() {
            assert(r[p] == s);
        } else {
            assert forall|i: int| 0 <= i < r.len() implies !text_less(
                sort_key(s, by_path),
                sort_key(#[trigger] r[i], by_path),
            ) by {
                assert(r[i] == all[i]);
            }
        }
    }
}

// ---------------------------------------------------------------------
// Folders in a folder

/// Whether a child gives the suggestion: it is a folder, and its name begins
/// with what was typed, whatever the case of the letters.
pub open spec fn child_gives(
    dir: Seq<char>,
    partial: Seq<char>,
    c: ListedChild,
    s: Suggestion,
) -> bool {
    let path = joined(dir, c.name@);
    &&& c.is_dir
    &&& lowercase(partial).is_prefix_of(lowercase(c.name@))
    &&& s.path == path
    &&& s.name == match file_name(path) {
        Some(n) => n,
        None => path,
    }
    &&& s.is_dir
}

/// Whether one of the children gives the suggestion.
pub open spec fn some_child_gives(
    dir: Seq<char>,
    partial: Seq<char>,
    children: Seq<ListedChild>,
) -> spec_fn(Suggestion) -> bool {
    |s: Suggestion|
        exists|k: int|
            0 <= k < children.len() && child_gives(dir, partial, #[trigger] children[k], s)
}

proof fn children_match(
    dir: Seq<char>,
    partial: Seq<char>,
    children: Seq<ListedChild>,
    s: Suggestion,
)
    ensures
        matching_children(dir, children, lowercase(partial)).contains(s) <==> some_child_gives(
            dir,
            partial,
            children,
        )(s),
        matching_children(dir, children, lowercase(partial)).len() <= children.len(),
    decreases children.len(),
{
    let q = lowercase(partial);
    let all = matching_children(dir, children, q);
    if children.len() > 0 {
        let front = children.drop_last();
        let n = children.len() - 1;
        let c = children[n];
        let was = matching_children(dir, front, q);
        children_match(dir, partial, front, s);
        assert(begins_with(lowercase(c.name@), q) <==> q.is_prefix_of(lowercase(c.name@)));
        let new = crate::complete::suggestion_for(joined(dir, c.name@));
        vstd::seq_lib::lemma_seq_contains_after_push(was, new, s);
        if exists|k: int|
            0 <= k < front.len() && child_gives(dir, partial, #[trigger] front[k], s) {
            let k = choose|k: int|
                0 <= k < front.len() && child_gives(dir, partial, #[trigger] front[k], s);
            assert(child_gives(dir, partial, children[k], s));
        }
        if exists|k: int|
            0 <= k < children.len() && child_gives(dir, partial, #[trigger] children[k], s) {
            let k = choose|k: int|
                0 <= k < children.len() && child_gives(dir, partial, #[trigger] children[k], s);
            if k < n {
                assert(child_gives(dir, partial, front[k], s));
            }
        }
    }
}

proof fn last_sep_is_last(dir: Seq<char>, partial: Seq<char>)
    requires
        dir.len() > 0 ==> dir.last() == '\\' || dir.last() == '/',
        forall|i: int| 0 <= i < partial.len() ==> #[trigger] partial[i] != '\\' && partial[i] != '/',
    ensures
        last_sep(dir + partial) == dir.len() - 1,
    decreases partial.len(),
{
    let t = dir + partial;
    if partial.len() > 0 {
        assert(t.last() == partial[partial.len() - 1]);
        assert(t.drop_last() =~= dir + partial.drop_last());
        last_sep_is_last(dir, partial.drop_last());
    } else {
        assert(t =~= dir);
    }
}

/// Behind a separator the folders in the folder before it are suggested whose
/// names begin with what follows, whatever the case of the letters, sorted by
/// lowercase name: all of them, or the first as many as asked for. Files never
/// are.
pub proof fn child_folders_are_suggested(
    input: Seq<char>,
    limit: usize,
    mask: Option<u32>,
    folders: Seq<(String, FilePath)>,
    children: Seq<ListedChild>,
    dir: Seq<char>,
    partial: Seq<char>,
)
    requires
        completed_text(input, folders) == dir + partial,
        dir.len() > 0,
        dir.last() == '\\' || dir.last() == '/',
        forall|i: int| 0 <= i < partial.len() ==> #[trigger] partial[i] != '\\' && partial[i] != '/',
        children.len() <= usize::MAX,
    ensures
        completed_dir(input, folders) == Some(dir),
        best_of(
            completions(input, limit, mask, folders, Some(children)),
            some_child_gives(dir, partial, children),
            asked_for(limit),
            false,
        ),
        completions(input, limit, mask, folders, None).len() == 0,
{
    let t = completed_text(input, folders);
    last_sep_is_last(dir, partial);
    assert(t.take(dir.len() as int) =~= dir);
    assert(t.skip(dir.len() as int) =~= partial);
    let wanted = some_child_gives(dir, partial, children);
    let found = matching_children(dir, children, lowercase(partial));
    assert forall|s: Suggestion| #[trigger] found.contains(s) <==> wanted(s) by {
        children_match(dir, partial, children, s);
    }
    children_match(dir, partial, children, Suggestion { path: dir, name: dir, is_dir: true });
    sorting_sorts(found, false);
    let keys = Seq::new(found.len(), |i: int| lowercase(found[i].name));
    assert(keys =~= Seq::new(found.len(), |i: int| sort_key(found[i], false)));
    cut_is_best(sorted_by_keys(found, keys), wanted, asked_for(limit), false);
}

// ---------------------------------------------------------------------
// Drives and known folders

/// Whether the suggestion is a drive whose bit is set.
pub open spec fn is_drive(mask: u32, s: Suggestion) -> bool {
    exists|i: u32|
        0 <= i < 26 && #[trigger] (mask & (1u32 << i)) != 0 && s.path == seq![
            ('A' as u32 + i) as char,
            ':',
            '\\',
        ] && s.name == s.path && s.is_dir
}

proof fn drives_follow_bits(mask: u32, n: nat, s: Suggestion)
    requires
        n <= 26,
    ensures
        drives_among(mask, n).contains(s) <==> exists|i: u32|
            0 <= i < n && #[trigger] (mask & (1u32 << i)) != 0 && s == drive_suggestion(i as int),
        drives_among(mask, n).len() <= n,
    decreases n,
{
    if n > 0 {
        let m = (n - 1) as nat;
        let front = drives_among(mask, m);
        drives_follow_bits(mask, m, s);
        vstd::seq_lib::lemma_seq_contains_after_push(front, drive_suggestion(n - 1), s);
        let bit = (n - 1) as u32;
        if exists|i: u32|
            0 <= i < m && #[trigger] (mask & (1u32 << i)) != 0 && s == drive_suggestion(i as int) {
            let i = choose|i: u32|
                0 <= i < m && #[trigger] (mask & (1u32 << i)) != 0 && s == drive_suggestion(
                    i as int,
                );
            assert(mask & (1u32 << i) != 0);
        }
        if exists|i: u32|
            0 <= i < n && #[trigger] (mask & (1u32 << i)) != 0 && s == drive_suggestion(i as int) {
            let i = choose|i: u32|
                0 <= i < n && #[trigger] (mask & (1u32 << i)) != 0 && s == drive_suggestion(
                    i as int,
                );
            if i != bit {
                assert(mask & (1u32 << i) != 0);
            }
        }
        if mask & (1u32 << bit) != 0 {
            assert(mask & (1u32 << bit) != 0);
        }
    }
}

/// The drives suggested are exactly those whose bits are set, from A for the
/// lowest; without such bits the root is.
pub proof fn set_drives_are_suggested(mask: Option<u32>, s: Suggestion)
    ensures
        mask matches Some(m) ==> (drives(mask).contains(s) <==> is_drive(m, s)),
        mask is None ==> drives(mask).len() == 1 && drives(mask)[0].path == seq!['/'],
        drives(mask).len() <= 26,
{
    reveal_strlit(":\\");
    reveal_strlit("/");
    if let Some(m) = mask {
        drives_follow_bits(m, 26, s);
        assert(":\\"@ =~= seq![':', '\\']);
        assert forall|i: u32| 0 <= i < 26 implies #[trigger] drive_suggestion(i as int).path
            == seq![('A' as u32 + i) as char, ':', '\\'] by {
            assert(drive_suggestion(i as int).path =~= seq![
                ('A' as u32 + i) as char,
                ':',
                '\\',
            ]);
        }
        if drives(mask).contains(s) {
            let i = choose|i: u32|
                0 <= i < 26 && #[trigger] (m & (1u32 << i)) != 0 && s == drive_suggestion(i as int);
            assert(m & (1u32 << i) != 0);
            assert(drive_suggestion(i as int).path.len() == 3);
        }
        if is_drive(m, s) {
            let i = choose|i: u32|
                0 <= i < 26 && #[trigger] (m & (1u32 << i)) != 0 && s.path == seq![
                    ('A' as u32 + i) as char,
                    ':',
                    '\\',
                ] && s.name == s.path && s.is_dir;
            assert(m & (1u32 << i) != 0);
            assert(drive_suggestion(i as int).path.len() == 3);
            assert(s == drive_suggestion(i as int));
        }
    } else {
        assert("/"@ =~= seq!['/']);
    }
}

proof fn folders_are_added(s: Seq<Suggestion>, folders: Seq<(String, FilePath)>, n: int)
    requires
        0 <= n <= folders.len(),
    ensures
        forall|x: Suggestion| #[trigger]
            s.contains(x) ==> with_folders(s, folders, n).contains(x),
        forall|x: Suggestion| #[trigger]
            with_folders(s, folders, n).contains(x) ==> s.contains(x) || exists|k: int|
                0 <= k < n && x == folder_suggestion(
                    (#[trigger] folders[k]).0@,
                    folders[k].1@,
                ),
        forall|k: int|
            0 <= k < n ==> has_path(with_folders(s, folders, n), (#[trigger] folders[k]).1@),
        with_folders(s, folders, n).len() <= s.len() + n,
    decreases n,
{
    if n > 0 {
        folders_are_added(s, folders, n - 1);
        let front = with_folders(s, folders, n - 1);
        let all = with_folders(s, folders, n);
        let new = folder_suggestion(folders[n - 1].0@, folders[n - 1].1@);
        assert forall|x: Suggestion| #[trigger] s.contains(x) implies all.contains(x) by {
            vstd::seq_lib::lemma_seq_contains_after_push(front, new, x);
        }
        assert forall|x: Suggestion| #[trigger] all.contains(x) implies s.contains(x) || exists|
            k: int,
        |
            0 <= k < n && x == folder_suggestion((#[trigger] folders[k]).0@, folders[k].1@) by {
            vstd::seq_lib::lemma_seq_contains_after_push(front, new, x);
            if !s.contains(x) && front.contains(x) {
                let k = choose|k: int|
                    0 <= k < n - 1 && x == folder_suggestion(
                        (#[trigger] folders[k]).0@,
                        folders[k].1@,
                    );
                assert(x == folder_suggestion(folders[k].0@, folders[k].1@));
            } else if !s.contains(x) {
                assert(x == folder_suggestion(folders[n - 1].0@, folders[n - 1].1@));
            }
        }
        assert forall|k: int| 0 <= k < n implies has_path(all, (#[trigger] folders[k]).1@) by {
            let p = folders[k].1@;
            if k < n - 1 {
                assert(has_path(front, p));
                let i = choose|i: int| 0 <= i < front.len() && (#[trigger] front[i]).path == p;
                assert(all[i].path == p);
            } else if has_path(front, p) {
                let i = choose|i: int| 0 <= i < front.len() && (#[trigger] front[i]).path == p;
                assert(all[i].path == p);
            } else {
                assert(all[front.len() as int].path == p);
            }
        }
    }
}

/// The roots that are suggested are the drives and the known folders, each
/// path once at least, under its name with the label before it, sorted by
/// lowercase path; and nothing else.
pub proof fn roots_are_drives_and_known_folders(
    mask: Option<u32>,
    folders: Seq<(String, FilePath)>,
)
    requires
        folders.len() + 26 <= usize::MAX,
    ensures
        sorted(roots(mask, folders), true),
        forall|s: Suggestion| #[trigger]
            drives(mask).contains(s) ==> roots(mask, folders).contains(s),
        forall|k: int|
            0 <= k < folders.len() ==> has_path(
                roots(mask, folders),
                (#[trigger] folders[k]).1@,
            ),
        forall|s: Suggestion| #[trigger]
            roots(mask, folders).contains(s) ==> drives(mask).contains(s) || exists|k: int|
                0 <= k < folders.len() && is_known_folder(s, #[trigger] folders[k]),
{
    let all = with_folders(drives(mask), folders, folders.len() as int);
    let out = roots(mask, folders);
    folders_are_added(drives(mask), folders, folders.len() as int);
    set_drives_are_suggested(
        mask,
        Suggestion { path: Seq::empty(), name: Seq::empty(), is_dir: true },
    );
    sorting_sorts(all, true);
    let keys = Seq::new(all.len(), |i: int| lowercase(all[i].path));
    assert(keys =~= Seq::new(all.len(), |i: int| sort_key(all[i], true)));
    assert forall|s: Suggestion| #[trigger] drives(mask).contains(s) implies out.contains(s) by {
        assert(all.contains(s));
    }
    assert forall|k: int| 0 <= k < folders.len() implies has_path(
        out,
        (#[trigger] folders[k]).1@,
    ) by {
        let p = folders[k].1@;
        assert(has_path(all, p));
        let i = choose|i: int| 0 <= i < all.len() && (#[trigger] all[i]).path == p;
        assert(all.contains(all[i]));
        assert(out.contains(all[i]));
        let j = choose|j: int| 0 <= j < out.len() && out[j] == all[i];
        assert(out[j].path == p);
    }
    assert forall|s: Suggestion| #[trigger] out.contains(s) implies drives(mask).contains(s)
        || exists|k: int|
        0 <= k < folders.len() && is_known_folder(s, #[trigger] folders[k]) by {
        assert(all.contains(s));
        if !drives(mask).contains(s) {
            let k = choose|k: int|
                0 <= k < folders.len() && s == folder_suggestion(
                    (#[trigger] folders[k]).0@,
                    folders[k].1@,
                );
            assert(is_known_folder(s, folders[k]));
        }
    }
}

/// Whether the suggestion is the known folder: its path, under its label and,
/// in brackets, its name.
pub open spec fn is_known_folder(s: Suggestion, f: (String, FilePath)) -> bool {
    let path = f.1@;
    &&& s.path == path
    &&& s.name == f.0@ + " ("@ + match file_name(path) {
        Some(n) => n,
        None => path,
    } + ")"@
    &&& s.is_dir
}

/// Whether a root is suggested for what was typed: its path or its name begins
/// with it, whatever the case of the letters.
pub open spec fn root_fits(s: Suggestion, typed: Seq<char>) -> bool {
    let q = lowercase(typed);
    q.is_prefix_of(lowercase(s.path)) || q.is_prefix_of(lowercase(s.name))
}

proof fn roots_match(all: Seq<Suggestion>, typed: Seq<char>)
    requires
        sorted(all, true),
    ensures
        sorted(matching_roots(all, lowercase(typed)), true),
        forall|s: Suggestion| #[trigger]
            matching_roots(all, lowercase(typed)).contains(s) <==> all.contains(s) && root_fits(
                s,
                typed,
            ),
    decreases all.len(),
{
    let q = lowercase(typed);
    let out = matching_roots(all, q);
    if all.len() > 0 {
        let front = all.drop_last();
        let last = all.last();
        let was = matching_roots(front, q);
        assert(sorted(front, true)) by {
            assert forall|i: int, j: int| 0 <= i < j < front.len() implies !text_less(
                sort_key(#[trigger] front[j], true),
                sort_key(#[trigger] front[i], true),
            ) by {
                assert(front[i] == all[i] && front[j] == all[j]);
            }
        }
        roots_match(front, typed);
        assert(begins_with(lowercase(last.path), q) <==> q.is_prefix_of(lowercase(last.path)));
        assert(begins_with(lowercase(last.name), q) <==> q.is_prefix_of(lowercase(last.name)));
        assert(all =~= front.push(last));
        assert forall|s: Suggestion| #[trigger] out.contains(s) <==> all.contains(s) && root_fits(
            s,
            typed,
        ) by {
            vstd::seq_lib::lemma_seq_contains_after_push(was, last, s);
            vstd::seq_lib::lemma_seq_contains_after_push(front, last, s);
        }
        assert(sorted(out, true)) by {
            assert forall|i: int, j: int| 0 <= i < j < out.len() implies !text_less(
                sort_key(#[trigger] out[j], true),
                sort_key(#[trigger] out[i], true),
            ) by {
                if j < was.len() {
                    assert(out[i] == was[i] && out[j] == was[j]);
                } else {
                    assert(out[i] == was[i]);
                    assert(was.contains(was[i]));
                    let k = choose|k: int| 0 <= k < front.len() && front[k] == was[i];
                    assert(all[k] == was[i]);
                    assert(all[all.len() - 1] == out[j]);
                }
            }
        }
    }
}

/// Before any separator the roots are suggested that begin with what was
/// typed, by path or name, whatever the case of the letters; all roots where
/// nothing was typed. They are sorted by lowercase path: all of them, or the
/// first as many as asked for.
pub proof fn roots_are_suggested(
    input: Seq<char>,
    limit: usize,
    mask: Option<u32>,
    folders: Seq<(String, FilePath)>,
    listing: Option<Seq<ListedChild>>,
)
    requires
        folders.len() + 26 <= usize::MAX,
        forall|i: int|
            0 <= i < completed_text(input, folders).len() ==> #[trigger] completed_text(
                input,
                folders,
            )[i] != '\\' && completed_text(input, folders)[i] != '/',
    ensures
        ({
            let t = completed_text(input, folders);
            best_of(
                completions(input, limit, mask, folders, listing),
                |s: Suggestion|
                    roots(mask, folders).contains(s) && (t.len() == 0 || root_fits(s, t)),
                asked_for(limit),
                true,
            )
        }),
{
    let t = completed_text(input, folders);
    let all = roots(mask, folders);
    let wanted = |s: Suggestion| all.contains(s) && (t.len() == 0 || root_fits(s, t));
    roots_are_drives_and_known_folders(mask, folders);
    last_sep_is_last(Seq::empty(), t);
    assert(Seq::<char>::empty() + t =~= t);
    if t.len() == 0 {
        cut_is_best(all, wanted, asked_for(limit), true);
    } else {
        roots_match(all, t);
        cut_is_best(matching_roots(all, lowercase(t)), wanted, asked_for(limit), true);
    }
}

/// A tilde alone or before a separator stands for the profile folder, where it
/// is known; any other text stands for itself, without the space around it.
pub proof fn tilde_is_the_profile(input: Seq<char>, folders: Seq<(String, FilePath)>)
    ensures
        ({
            let t = trimmed(input);
            let tilde = t.len() > 0 && t[0] == '~' && (t.len() == 1 || t[1] == '/' || t[1] == '\\');
            let profile = folder_named(folders, "Profile"@);
            &&& tilde && profile is Some ==> completed_text(input, folders) == profile.unwrap()
                + t.skip(1)
            &&& !tilde || profile is None ==> completed_text(input, folders) == t
        }),
{
}

/// A known folder is found under its name: the first that has it.
pub proof fn folders_are_found_by_name(
    folders: Seq<(String, FilePath)>,
    name: Seq<char>,
    k: int,
)
    requires
        0 <= k < folders.len(),
        folders[k].0@ == name,
        forall|i: int| 0 <= i < k ==> (#[trigger] folders[i]).0@ != name,
    ensures
        folder_named(folders, name) == Some(folders[k].1@),
    decreases k,
{
    if k > 0 {
        assert(folders[0].0@ != name);
        let rest = folders.skip(1);
        assert forall|i: int| 0 <= i < k - 1 implies (#[trigger] rest[i]).0@ != name by {
            assert(rest[i] == folders[i + 1]);
        }
        folders_are_found_by_name(rest, name, k - 1);
    }
}

} // verus!
