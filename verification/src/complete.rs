//! Path autocompletion for the path field: Tab shows suggestions based on
//! the input, Tab cycles, Enter confirms. Directories only — the field
//! selects a scan root, so files would be dead ends.

use crate::file_path::FilePath;
use crate::paths::{file_name, is_sep, joined};
use crate::sort::{order_of, ordered, ordered_lists, orders, sort, Ranking};
use crate::text::{
    begins_with, chars_of, concat2, concat3, is_text_less, lowercase, same_text, string_of_range,
    text_begins_with, text_less, text_less_asymmetric, text_less_total, text_less_transitive,
    to_lower, trim, trimmed,
};
use vstd::prelude::*;

verus! {

/// A suggestion.
#[derive(Debug)]
pub struct Completion {
    /// Full path to insert on confirm.
    pub path: String,
    /// Short label shown in the popup.
    pub name: String,
    pub is_dir: bool,
}

impl Clone for Completion {
    fn clone(&self) -> (r: Completion)
        ensures
            r == *self,
    {
        Completion { path: self.path.clone(), name: self.name.clone(), is_dir: self.is_dir }
    }
}

/// The values of a suggestion.
#[verifier::ext_equal]
pub ghost struct Suggestion {
    pub path: Seq<char>,
    pub name: Seq<char>,
    pub is_dir: bool,
}

impl View for Completion {
    type V = Suggestion;

    open spec fn view(&self) -> Suggestion {
        Suggestion { path: self.path@, name: self.name@, is_dir: self.is_dir }
    }
}

/// The values of suggestions.
pub open spec fn suggestions(v: Seq<Completion>) -> Seq<Suggestion> {
    Seq::new(v.len(), |i: int| v[i]@)
}

/// A folder as a suggestion: shown by its name, or by its path if it has
/// none.
pub open spec fn suggestion_for(path: Seq<char>) -> Suggestion {
    Suggestion {
        path,
        name: match file_name(path) {
            Some(n) => n,
            None => path,
        },
        is_dir: true,
    }
}

fn completion_for(path: &FilePath) -> (r: Completion)
    ensures
        r@ == suggestion_for(path@),
{
    let name = match path.file_name() {
        Some(n) => n,
        None => path.text.clone(),
    };
    Completion { path: path.text.clone(), name, is_dir: true }
}

// ---------------------------------------------------------------------
// Order

/// Whether the key at `a` comes before the one at `b`; equal keys keep their
/// places.
pub open spec fn key_before(keys: Seq<Seq<char>>, a: usize, b: usize) -> bool {
    if keys[a as int] != keys[b as int] {
        text_less(keys[a as int], keys[b as int])
    } else {
        a < b
    }
}

/// The positions of the keys, in the order of the keys.
pub open spec fn key_order(keys: Seq<Seq<char>>) -> Seq<usize> {
    ordered(
        Set::new(|i: usize| i < keys.len()),
        |a: usize, b: usize| key_before(keys, a, b),
    )
}

/// The order of keys.
struct ByKey<'a> {
    keys: &'a Vec<String>,
}

/// The texts of strings.
pub open spec fn texts(v: Seq<String>) -> Seq<Seq<char>> {
    Seq::new(v.len(), |i: int| v[i]@)
}

impl<'a> Ranking for ByKey<'a> {
    closed spec fn ranks(&self, a: usize) -> bool {
        a < self.keys@.len()
    }

    closed spec fn before(&self, a: usize, b: usize) -> bool {
        key_before(texts(self.keys@), a, b)
    }

    proof fn total(&self, a: usize, b: usize) {
        let k = texts(self.keys@);
        text_less_total(k[a as int], k[b as int]);
        text_less_asymmetric(k[a as int], k[b as int]);
    }

    proof fn transitive(&self, a: usize, b: usize, c: usize) {
        let k = texts(self.keys@);
        let x = k[a as int];
        let y = k[b as int];
        let z = k[c as int];
        if x != y && y != z {
            text_less_transitive(x, y, z);
            text_less_asymmetric(x, z);
        }
    }

    fn precedes(&self, a: usize, b: usize) -> (r: bool) {
        if !same_text(self.keys[a].as_str(), self.keys[b].as_str()) {
            is_text_less(self.keys[a].as_str(), self.keys[b].as_str())
        } else {
            a < b
        }
    }
}

/// The items, in the order of their keys.
pub open spec fn sorted_by_keys(items: Seq<Suggestion>, keys: Seq<Seq<char>>) -> Seq<Suggestion> {
    key_order(keys).map_values(|i: usize| items[i as int])
}

fn sort_by_keys(items: &Vec<Completion>, keys: &Vec<String>) -> (r: Vec<Completion>)
    requires
        keys@.len() == items@.len(),
    ensures
        suggestions(r@) == sorted_by_keys(suggestions(items@), texts(keys@)),
{
    let mut all: Vec<usize> = Vec::new();
    for i in 0..keys.len()
        invariant
            all@.len() == i,
            forall|j: int| 0 <= j < i ==> #[trigger] all@[j] == j,
    {
        all.push(i);
    }
    let rank = ByKey { keys };
    let ghost k = texts(keys@);
    let ghost set = Set::new(|i: usize| i < k.len());
    proof {
        assert(all@.to_set() =~= set) by {
            assert forall|x: usize| all@.to_set().contains(x) <==> set.contains(x) by {
                if x < k.len() {
                    assert(all@[x as int] == x);
                }
            }
        }
        assert(order_of(&rank) =~= (|a: usize, b: usize| key_before(k, a, b)));
    }
    let order = sort(&all, &rank);
    let mut out: Vec<Completion> = Vec::new();
    for i in 0..order.len()
        invariant
            keys@.len() == items@.len(),
            k == texts(keys@),
            set == Set::new(|i: usize| i < k.len()),
            order@ == key_order(k),
            forall|x: usize| set.contains(x) <==> #[trigger] order@.contains(x),
            suggestions(out@) =~= sorted_by_keys(suggestions(items@), k).take(i as int),
    {
        let at: usize = order[i];
        assert(order@.contains(at));
        let ghost was = suggestions(out@);
        let c = items[at].clone();
        out.push(c);
        assert(suggestions(out@) =~= was.push(items@[at as int]@));
    }
    assert(sorted_by_keys(suggestions(items@), k).take(order@.len() as int) =~= sorted_by_keys(
        suggestions(items@),
        k,
    ));
    out
}

// ---------------------------------------------------------------------
// Drives and known folders

/// The drive with the number `i`.
pub open spec fn drive_suggestion(i: int) -> Suggestion {
    let path = seq![('A' as u32 + i) as char] + ":\\"@;
    Suggestion { path, name: path, is_dir: true }
}

/// The drives among the first `n` whose bits are set.
pub open spec fn drives_among(mask: u32, n: nat) -> Seq<Suggestion>
    decreases n,
{
    if n == 0 {
        Seq::empty()
    } else {
        let front = drives_among(mask, (n - 1) as nat);
        if mask & (1u32 << ((n - 1) as u32)) != 0 {
            front.push(drive_suggestion(n - 1))
        } else {
            front
        }
    }
}

/// The drives: bit 0 = A:, 1 = B:, ...; the root where there are no drives.
pub open spec fn drives(mask: Option<u32>) -> Seq<Suggestion> {
    match mask {
        Some(m) => drives_among(m, 26),
        None => seq![Suggestion { path: "/"@, name: "/"@, is_dir: true }],
    }
}

/// The drives as suggestions. `mask` is the system's bitmask of drives.
pub fn list_drives(mask: Option<u32>) -> (r: Vec<Completion>)
    ensures
        suggestions(r@) == drives(mask),
{
    let mut out: Vec<Completion> = Vec::new();
    match mask {
        Some(m) => {
            for i in 0..26u32
                invariant
                    suggestions(out@) =~= drives_among(m, i as nat),
            {
                if m & (1u32 << i) != 0 {
                    let letter: u8 = 65 + i as u8;
                    let mut path = String::new();
                    path.push(letter as char);
                    path.append(":\\");
                    let c = Completion { path: path.clone(), name: path, is_dir: true };
                    proof {
                        assert(c@ =~= drive_suggestion(i as int));
                    }
                    out.push(c);
                }
            }
        },
        None => {
            let c = Completion {
                path: String::from_str("/"),
                name: String::from_str("/"),
                is_dir: true,
            };
            out.push(c);
        },
    }
    out
}

/// A known folder as a suggestion: its label and its name.
pub open spec fn folder_suggestion(label: Seq<char>, path: Seq<char>) -> Suggestion {
    Suggestion { name: label + " ("@ + suggestion_for(path).name + ")"@, ..suggestion_for(path) }
}

/// Whether one of the suggestions has this path.
pub open spec fn has_path(s: Seq<Suggestion>, path: Seq<char>) -> bool {
    exists|i: int| 0 <= i < s.len() && (#[trigger] s[i]).path == path
}

/// The suggestions and the first `n` folders, none twice.
pub open spec fn with_folders(
    s: Seq<Suggestion>,
    folders: Seq<(String, FilePath)>,
    n: int,
) -> Seq<Suggestion>
    decreases n,
{
    if n <= 0 {
        s
    } else {
        let front = with_folders(s, folders, n - 1);
        let (label, path) = folders[n - 1];
        if has_path(front, path@) {
            front
        } else {
            front.push(folder_suggestion(label@, path@))
        }
    }
}

/// Drives and known folders, by their lowercase paths.
pub open spec fn roots(mask: Option<u32>, folders: Seq<(String, FilePath)>) -> Seq<Suggestion> {
    let all = with_folders(drives(mask), folders, folders.len() as int);
    sorted_by_keys(all, Seq::new(all.len(), |i: int| lowercase(all[i].path)))
}

fn path_listed(v: &Vec<Completion>, path: &str) -> (r: bool)
    ensures
        r == has_path(suggestions(v@), path@),
{
    for i in 0..v.len()
        invariant
            forall|j: int| 0 <= j < i ==> (#[trigger] suggestions(v@)[j]).path != path@,
    {
        if same_text(v[i].path.as_str(), path) {
            assert(suggestions(v@)[i as int].path == path@);
            return true;
        }
    }
    false
}

/// Drives and known folders, by their lowercase paths.
pub fn known_root_completions(mask: Option<u32>, folders: &Vec<(String, FilePath)>) -> (r: Vec<
    Completion,
>)
    ensures
        suggestions(r@) == roots(mask, folders@),
{
    let mut all = list_drives(mask);
    for i in 0..folders.len()
        invariant
            suggestions(all@) == with_folders(drives(mask), folders@, i as int),
    {
        let label = &folders[i].0;
        let path = &folders[i].1;
        if !path_listed(&all, path.as_str()) {
            let mut c = completion_for(path);
            let head = concat2(label.as_str(), " (");
            c.name = concat3(head.as_str(), c.name.as_str(), ")");
            all.push(c);
        }
    }
    let ghost s = suggestions(all@);
    let mut keys: Vec<String> = Vec::new();
    for i in 0..all.len()
        invariant
            s == suggestions(all@),
            keys@.len() == i,
            forall|j: int| 0 <= j < i ==> (#[trigger] keys@[j])@ == lowercase(s[j].path),
    {
        keys.push(to_lower(all[i].path.as_str()));
    }
    assert(texts(keys@) =~= Seq::new(s.len(), |i: int| lowercase(s[i].path)));
    sort_by_keys(&all, &keys)
}

/// The first folder with this name.
pub open spec fn folder_named(folders: Seq<(String, FilePath)>, name: Seq<char>) -> Option<
    Seq<char>,
>
    decreases folders.len(),
{
    if folders.len() == 0 {
        None
    } else if folders[0].0@ == name {
        Some(folders[0].1@)
    } else {
        folder_named(folders.skip(1), name)
    }
}

/// Finds [`folder_named`].
pub fn find_folder(folders: &Vec<(String, FilePath)>, name: &str) -> (r: Option<FilePath>)
    ensures
        crate::file_path::opt_path(r) == folder_named(folders@, name@),
{
    assert(folders@.skip(0) =~= folders@);
    for i in 0..folders.len()
        invariant
            folder_named(folders@, name@) == folder_named(folders@.skip(i as int), name@),
    {
        if same_text(folders[i].0.as_str(), name) {
            return Some(folders[i].1.clone());
        }
        assert(folders@.skip(i as int).skip(1) =~= folders@.skip(i + 1));
    }
    None
}

/// The input with the profile folder in place of a leading tilde.
pub open spec fn tilde_expanded(
    input: Seq<char>,
    folders: Seq<(String, FilePath)>,
) -> Seq<char> {
    if input.len() > 0 && input[0] == '~' && (input.len() == 1 || is_sep(input[1])) {
        match folder_named(folders, "Profile"@) {
            Some(p) => p + input.skip(1),
            None => input,
        }
    } else {
        input
    }
}

/// Replaces a leading tilde with the profile folder.
pub fn expand_tilde(input: &str, folders: &Vec<(String, FilePath)>) -> (r: String)
    ensures
        r@ == tilde_expanded(input@, folders@),
{
    let v = chars_of(input);
    if v.len() > 0 && v[0] == '~' && (v.len() == 1 || v[1] == '\\' || v[1] == '/') {
        if let Some(p) = find_folder(folders, "Profile") {
            let rest = string_of_range(&v, 1, v.len());
            return concat2(p.as_str(), rest.as_str());
        }
    }
    String::from_str(input)
}

// ---------------------------------------------------------------------
// Completing

/// A child of the folder that the input leads into.
#[derive(Debug)]
pub struct ListedChild {
    pub name: String,
    pub is_dir: bool,
}

/// The last separator of a text, or -1.
pub open spec fn last_sep(t: Seq<char>) -> int
    decreases t.len(),
{
    if t.len() == 0 {
        -1
    } else if is_sep(t.last()) {
        t.len() - 1
    } else {
        last_sep(t.drop_last())
    }
}

/// What is completed: the input without surrounding space, its tilde
/// expanded.
pub open spec fn completed_text(input: Seq<char>, folders: Seq<(String, FilePath)>) -> Seq<char> {
    tilde_expanded(trimmed(input), folders)
}

/// The folder that the input leads into, if it holds a separator.
pub open spec fn completed_dir(input: Seq<char>, folders: Seq<(String, FilePath)>) -> Option<
    Seq<char>,
> {
    let t = completed_text(input, folders);
    if last_sep(t) >= 0 {
        Some(t.take(last_sep(t) + 1))
    } else {
        None
    }
}

/// Whether a root is suggested for the beginning `q`, in lowercase.
pub open spec fn root_matches(s: Suggestion, q: Seq<char>) -> bool {
    begins_with(lowercase(s.path), q) || begins_with(lowercase(s.name), q)
}

/// The roots that match, in order.
pub open spec fn matching_roots(s: Seq<Suggestion>, q: Seq<char>) -> Seq<Suggestion>
    decreases s.len(),
{
    if s.len() == 0 {
        s
    } else if root_matches(s.last(), q) {
        matching_roots(s.drop_last(), q).push(s.last())
    } else {
        matching_roots(s.drop_last(), q)
    }
}

/// The folders among the children whose names begin with `q`, in lowercase.
pub open spec fn matching_children(
    dir: Seq<char>,
    children: Seq<ListedChild>,
    q: Seq<char>,
) -> Seq<Suggestion>
    decreases children.len(),
{
    if children.len() == 0 {
        Seq::empty()
    } else {
        let front = matching_children(dir, children.drop_last(), q);
        let c = children.last();
        if c.is_dir && begins_with(lowercase(c.name@), q) {
            front.push(suggestion_for(joined(dir, c.name@)))
        } else {
            front
        }
    }
}

/// The first `n` suggestions, or all if there are fewer.
pub open spec fn first_of(s: Seq<Suggestion>, n: int) -> Seq<Suggestion> {
    if s.len() <= n {
        s
    } else {
        s.take(n)
    }
}

/// The most suggestions that are made.
pub open spec fn suggestion_limit(limit: usize) -> int {
    if limit < 1 {
        1
    } else if limit > 100 {
        100
    } else {
        limit as int
    }
}

/// What is suggested. Empty input suggests drives and known folders; input
/// without a separator filters those by their beginnings; otherwise the
/// folder that it leads into is listed and filtered by the partial name.
pub open spec fn completions(
    input: Seq<char>,
    limit: usize,
    mask: Option<u32>,
    folders: Seq<(String, FilePath)>,
    listing: Option<Seq<ListedChild>>,
) -> Seq<Suggestion> {
    let t = completed_text(input, folders);
    let n = suggestion_limit(limit);
    if t.len() == 0 {
        first_of(roots(mask, folders), n)
    } else {
        match completed_dir(input, folders) {
            None => first_of(matching_roots(roots(mask, folders), lowercase(t)), n),
            Some(dir) => match listing {
                None => Seq::empty(),
                Some(children) => {
                    let found = matching_children(
                        dir,
                        children,
                        lowercase(t.skip(last_sep(t) + 1)),
                    );
                    first_of(
                        sorted_by_keys(
                            found,
                            Seq::new(found.len(), |i: int| lowercase(found[i].name)),
                        ),
                        n,
                    )
                },
            },
        }
    }
}

fn find_last_sep(v: &Vec<char>) -> (r: Option<usize>)
    ensures
        match r {
            Some(i) => i == last_sep(v@) && i < v.len(),
            None => last_sep(v@) == -1,
        },
{
    let mut n: usize = v.len();
    assert(v@.take(n as int) =~= v@);
    while n > 0
        invariant
            n <= v.len(),
            last_sep(v@) == last_sep(v@.take(n as int)),
        decreases n,
    {
        if v[n - 1] == '\\' || v[n - 1] == '/' {
            return Some(n - 1);
        }
        assert(v@.take(n as int).drop_last() =~= v@.take(n - 1));
        n -= 1;
    }
    None
}

/// The folder to list before completing the input, if one is needed.
pub fn completion_dir(input: &str, folders: &Vec<(String, FilePath)>) -> (r: Option<FilePath>)
    ensures
        crate::file_path::opt_path(r) == completed_dir(input@, folders@),
{
    let s = trim(input);
    let t = expand_tilde(s.as_str(), folders);
    let v = chars_of(t.as_str());
    match find_last_sep(&v) {
        Some(i) => {
            Some(FilePath { text: string_of_range(&v, 0, i + 1) })
        },
        None => None,
    }
}

fn filter_roots(all: &Vec<Completion>, q: &str) -> (r: Vec<Completion>)
    ensures
        suggestions(r@) == matching_roots(suggestions(all@), q@),
{
    let ghost s = suggestions(all@);
    let mut out: Vec<Completion> = Vec::new();
    for i in 0..all.len()
        invariant
            s == suggestions(all@),
            suggestions(out@) =~= matching_roots(s.take(i as int), q@),
    {
        let c = &all[i];
        proof {
            assert(s.take(i + 1).drop_last() =~= s.take(i as int));
        }
        let path = to_lower(c.path.as_str());
        let name = to_lower(c.name.as_str());
        if text_begins_with(path.as_str(), q) || text_begins_with(name.as_str(), q) {
            out.push(c.clone());
        }
    }
    assert(s.take(all@.len() as int) =~= s);
    out
}

fn filter_children(dir: &FilePath, children: &Vec<ListedChild>, q: &str) -> (r: Vec<Completion>)
    ensures
        suggestions(r@) == matching_children(dir@, children@, q@),
{
    let mut out: Vec<Completion> = Vec::new();
    for i in 0..children.len()
        invariant
            suggestions(out@) =~= matching_children(dir@, children@.take(i as int), q@),
    {
        let c = &children[i];
        proof {
            assert(children@.take(i + 1).drop_last() =~= children@.take(i as int));
        }
        if c.is_dir {
            let lower = to_lower(c.name.as_str());
            if text_begins_with(lower.as_str(), q) {
                let path = dir.join(c.name.as_str());
                out.push(completion_for(&path));
            }
        }
    }
    assert(children@.take(children@.len() as int) =~= children@);
    out
}

fn cut_off(v: Vec<Completion>, n: usize) -> (r: Vec<Completion>)
    ensures
        suggestions(r@) == first_of(suggestions(v@), n as int),
{
    let mut out = v;
    if out.len() > n {
        out.truncate(n);
    }
    out
}

/// Complete `input` to child directories. Empty input suggests drives +
/// known folders; input without a separator filters those by prefix;
/// otherwise the parent dir is listed and filtered by the partial name.
/// `listing` is what is in [`completion_dir`], if it can be read: never
/// errors on missing/unreadable dirs — returns what exists.
pub fn complete_path(
    input: &str,
    limit: usize,
    mask: Option<u32>,
    folders: &Vec<(String, FilePath)>,
    listing: Option<&Vec<ListedChild>>,
) -> (r: Vec<Completion>)
    ensures
        suggestions(r@) == completions(
            input@,
            limit,
            mask,
            folders@,
            match listing {
                Some(v) => Some(v@),
                None => None,
            },
        ),
{
    let n: usize = if limit < 1 {
        1
    } else if limit > 100 {
        100
    } else {
        limit
    };
    let s = trim(input);
    let t = expand_tilde(s.as_str(), folders);
    let v = chars_of(t.as_str());
    if v.len() == 0 {
        return cut_off(known_root_completions(mask, folders), n);
    }
    let pos: usize = match find_last_sep(&v) {
        Some(i) => i,
        None => {
            // No separator yet: filter drives + known folders by prefix.
            let q = to_lower(t.as_str());
            let all = known_root_completions(mask, folders);
            return cut_off(filter_roots(&all, q.as_str()), n);
        },
    };
    let dir = FilePath { text: string_of_range(&v, 0, pos + 1) };
    let partial = string_of_range(&v, pos + 1, v.len());
    let q = to_lower(partial.as_str());
    match listing {
        None => {
            let none: Vec<Completion> = Vec::new();
            none
        },
        Some(children) => {
            let found = filter_children(&dir, children, q.as_str());
            let ghost f = suggestions(found@);
            let mut keys: Vec<String> = Vec::new();
            for i in 0..found.len()
                invariant
                    f == suggestions(found@),
                    keys@.len() == i,
                    forall|j: int| 0 <= j < i ==> (#[trigger] keys@[j])@ == lowercase(f[j].name),
            {
                keys.push(to_lower(found[i].name.as_str()));
            }
            assert(texts(keys@) =~= Seq::new(f.len(), |i: int| lowercase(f[i].name)));
            cut_off(sort_by_keys(&found, &keys), n)
        },
    }
}

// ---------------------------------------------------------------------
// Laws

/// Whether every suggestion is a folder.
pub open spec fn all_folders(s: Seq<Suggestion>) -> bool {
    forall|i: int| 0 <= i < s.len() ==> (#[trigger] s[i]).is_dir
}

/// The positions of keys are listed in order.
proof fn keys_listed(keys: Seq<Seq<char>>)
    ensures
        forall|i: int| 0 <= i < key_order(keys).len() ==> #[trigger] key_order(keys)[i] < keys.len(),
{
    let set = Set::new(|i: usize| i < keys.len());
    let before = |a: usize, b: usize| key_before(keys, a, b);
    assert(orders(set, before)) by {
        assert forall|x: usize, y: usize|
            set.contains(x) && set.contains(y) implies (#[trigger] before(x, y) || before(y, x) || x
            == y) && !(before(x, y) && before(y, x)) by {
            text_less_total(keys[x as int], keys[y as int]);
            text_less_asymmetric(keys[x as int], keys[y as int]);
        }
        assert forall|x: usize, y: usize, z: usize|
            set.contains(x) && set.contains(y) && set.contains(z) && #[trigger] before(x, y)
                && #[trigger] before(y, z) implies before(x, z) by {
            let a = keys[x as int];
            let b = keys[y as int];
            let c = keys[z as int];
            if a != b && b != c {
                text_less_transitive(a, b, c);
                text_less_asymmetric(a, c);
            }
        }
    }
    ordered_lists(set, usize::MAX + 1, before);
    let out = key_order(keys);
    assert forall|i: int| 0 <= i < out.len() implies #[trigger] out[i] < keys.len() by {
        assert(out.contains(out[i]));
    }
}

proof fn sorted_folders(items: Seq<Suggestion>, keys: Seq<Seq<char>>)
    requires
        all_folders(items),
        keys.len() == items.len(),
    ensures
        all_folders(sorted_by_keys(items, keys)),
{
    keys_listed(keys);
    let out = sorted_by_keys(items, keys);
    assert forall|i: int| 0 <= i < out.len() implies (#[trigger] out[i]).is_dir by {
        assert(out[i] == items[key_order(keys)[i] as int]);
    }
}

proof fn drives_are_folders(mask: u32, n: nat)
    ensures
        all_folders(drives_among(mask, n)),
    decreases n,
{
    if n > 0 {
        drives_are_folders(mask, (n - 1) as nat);
    }
}

proof fn known_are_folders(s: Seq<Suggestion>, folders: Seq<(String, FilePath)>, n: int)
    requires
        all_folders(s),
    ensures
        all_folders(with_folders(s, folders, n)),
    decreases n,
{
    if n > 0 {
        known_are_folders(s, folders, n - 1);
    }
}

proof fn matches_are_folders(s: Seq<Suggestion>, q: Seq<char>)
    requires
        all_folders(s),
    ensures
        all_folders(matching_roots(s, q)),
    decreases s.len(),
{
    if s.len() > 0 {
        let front = s.drop_last();
        assert forall|i: int| 0 <= i < front.len() implies (#[trigger] front[i]).is_dir by {
            assert(s[i].is_dir);
        }
        matches_are_folders(front, q);
    }
}

proof fn children_are_folders(dir: Seq<char>, children: Seq<ListedChild>, q: Seq<char>)
    ensures
        all_folders(matching_children(dir, children, q)),
    decreases children.len(),
{
    if children.len() > 0 {
        children_are_folders(dir, children.drop_last(), q);
    }
}

/// Only folders are suggested, and never more than asked for nor more than a
/// hundred. A folder that cannot be read gives no suggestions.
pub proof fn completions_are_folders(
    input: Seq<char>,
    limit: usize,
    mask: Option<u32>,
    folders: Seq<(String, FilePath)>,
    listing: Option<Seq<ListedChild>>,
)
    ensures
        all_folders(completions(input, limit, mask, folders, listing)),
        completions(input, limit, mask, folders, listing).len() <= suggestion_limit(limit),
        suggestion_limit(limit) <= 100,
        completed_text(input, folders).len() > 0 && completed_dir(input, folders) is Some
            && listing is None ==> completions(input, limit, mask, folders, listing).len() == 0,
{
    let t = completed_text(input, folders);
    if let Some(m) = mask {
        drives_are_folders(m, 26);
    }
    let all = with_folders(drives(mask), folders, folders.len() as int);
    known_are_folders(drives(mask), folders, folders.len() as int);
    sorted_folders(all, Seq::new(all.len(), |i: int| lowercase(all[i].path)));
    matches_are_folders(roots(mask, folders), lowercase(t));
    if let Some(dir) = completed_dir(input, folders) {
        if let Some(children) = listing {
            let q = lowercase(t.skip(last_sep(t) + 1));
            let found = matching_children(dir, children, q);
            children_are_folders(dir, children, q);
            sorted_folders(found, Seq::new(found.len(), |i: int| lowercase(found[i].name)));
        }
    }
}

} // verus!
