//! Entries in the order of a tree: each folder directly followed by what is
//! in it.

use crate::file_path::FilePath;
use crate::path_laws::{path_less_transitive, path_order};
use crate::paths::{parent, parts, path_key, path_less, same_path};
use crate::sort::{listing_unique, lists, order_of, ordered, ordered_lists, orders, sort, Ranking};
use crate::text::{
    is_text_less, same_text, text_less, text_less_asymmetric, text_less_total, text_less_transitive,
};
use crate::tree_laws::{distinct_items, rows_are_items};
use crate::types::FileEntry;
use vstd::hash_map::StringHashMap;
use vstd::prelude::*;

verus! {

// ---------------------------------------------------------------------
// The order of siblings and of orphans

/// Whether the sibling at `a` comes before the one at `b`: folders first if
/// wanted, then by lowercase name, then as they stand.
pub open spec fn sibling_before(
    entries: Seq<FileEntry>,
    dirs_first: bool,
    a: usize,
    b: usize,
) -> bool {
    let x = entries[a as int];
    let y = entries[b as int];
    if dirs_first && x.is_dir != y.is_dir {
        x.is_dir
    } else if x.name_lower@ != y.name_lower@ {
        text_less(x.name_lower@, y.name_lower@)
    } else {
        a < b
    }
}

/// Whether the orphan at `a` comes before the one at `b`: by path, then as
/// siblings.
pub open spec fn orphan_before(
    entries: Seq<FileEntry>,
    dirs_first: bool,
    a: usize,
    b: usize,
) -> bool {
    let x = entries[a as int].path@;
    let y = entries[b as int].path@;
    path_less(x, y) || (same_path(x, y) && sibling_before(entries, dirs_first, a, b))
}

/// Of two siblings exactly one comes first.
pub proof fn sibling_total(entries: Seq<FileEntry>, dirs_first: bool, a: usize, b: usize)
    ensures
        sibling_before(entries, dirs_first, a, b) || sibling_before(entries, dirs_first, b, a) || a
            == b,
        !(sibling_before(entries, dirs_first, a, b) && sibling_before(entries, dirs_first, b, a)),
{
    let x = entries[a as int].name_lower@;
    let y = entries[b as int].name_lower@;
    text_less_total(x, y);
    text_less_asymmetric(x, y);
}

/// The order of siblings is transitive.
pub proof fn sibling_transitive(
    entries: Seq<FileEntry>,
    dirs_first: bool,
    a: usize,
    b: usize,
    c: usize,
)
    requires
        sibling_before(entries, dirs_first, a, b),
        sibling_before(entries, dirs_first, b, c),
    ensures
        sibling_before(entries, dirs_first, a, c),
{
    let x = entries[a as int].name_lower@;
    let y = entries[b as int].name_lower@;
    let z = entries[c as int].name_lower@;
    if x != y && y != z && text_less(x, y) && text_less(y, z) {
        text_less_transitive(x, y, z);
        text_less_asymmetric(x, z);
    }
}

/// The order of siblings.
pub struct Siblings<'a> {
    pub entries: &'a Vec<FileEntry>,
    pub dirs_first: bool,
}

impl<'a> Ranking for Siblings<'a> {
    open spec fn ranks(&self, a: usize) -> bool {
        a < self.entries@.len()
    }

    open spec fn before(&self, a: usize, b: usize) -> bool {
        sibling_before(self.entries@, self.dirs_first, a, b)
    }

    proof fn total(&self, a: usize, b: usize) {
        sibling_total(self.entries@, self.dirs_first, a, b);
    }

    proof fn transitive(&self, a: usize, b: usize, c: usize) {
        sibling_transitive(self.entries@, self.dirs_first, a, b, c);
    }

    fn precedes(&self, a: usize, b: usize) -> (r: bool) {
        let x = &self.entries[a];
        let y = &self.entries[b];
        if self.dirs_first && x.is_dir != y.is_dir {
            x.is_dir
        } else if !same_text(x.name_lower.as_str(), y.name_lower.as_str()) {
            is_text_less(x.name_lower.as_str(), y.name_lower.as_str())
        } else {
            a < b
        }
    }
}

/// The order of orphans.
pub struct Orphans<'a> {
    pub entries: &'a Vec<FileEntry>,
    pub dirs_first: bool,
}

impl<'a> Ranking for Orphans<'a> {
    open spec fn ranks(&self, a: usize) -> bool {
        a < self.entries@.len()
    }

    open spec fn before(&self, a: usize, b: usize) -> bool {
        orphan_before(self.entries@, self.dirs_first, a, b)
    }

    proof fn total(&self, a: usize, b: usize) {
        path_order(self.entries@[a as int].path@, self.entries@[b as int].path@);
        sibling_total(self.entries@, self.dirs_first, a, b);
    }

    proof fn transitive(&self, a: usize, b: usize, c: usize) {
        let x = self.entries@[a as int].path@;
        let y = self.entries@[b as int].path@;
        let z = self.entries@[c as int].path@;
        path_order(x, y);
        path_order(y, z);
        if path_less(x, y) && path_less(y, z) {
            path_less_transitive(x, y, z);
        }
        if same_path(x, y) && same_path(y, z) {
            sibling_transitive(self.entries@, self.dirs_first, a, b, c);
        }
    }

    fn precedes(&self, a: usize, b: usize) -> (r: bool) {
        let x = &self.entries[a];
        let y = &self.entries[b];
        if x.path.precedes(&y.path) {
            return true;
        }
        if !x.path.same(&y.path) {
            return false;
        }
        let siblings = Siblings { entries: self.entries, dirs_first: self.dirs_first };
        siblings.precedes(a, b)
    }
}

// ---------------------------------------------------------------------
// The order of a tree

/// The key of an entry's parent.
pub open spec fn parent_key(e: FileEntry) -> Option<Seq<char>> {
    match parent(e.path@) {
        Some(p) => Some(path_key(p)),
        None => None,
    }
}

/// The order of siblings as a function.
pub open spec fn sibling_order(entries: Seq<FileEntry>, dirs_first: bool) -> spec_fn(
    usize,
    usize,
) -> bool {
    |a: usize, b: usize| sibling_before(entries, dirs_first, a, b)
}

/// The items directly in the folder with the key `k`.
pub open spec fn kids_set(entries: Seq<FileEntry>, items: Set<usize>, k: Seq<char>) -> Set<usize> {
    Set::new(
        |i: usize| items.contains(i) && i < entries.len() && parent_key(entries[i as int]) == Some(k),
    )
}

/// The items directly in the folder with the key `k`, in order.
pub open spec fn kids(
    entries: Seq<FileEntry>,
    items: Set<usize>,
    dirs_first: bool,
    k: Seq<char>,
) -> Seq<usize> {
    ordered(kids_set(entries, items, k), sibling_order(entries, dirs_first))
}

/// The items in the folder with the key `k` and, up to `depth` levels, in the
/// folders in it: each folder directly followed by what is in it.
pub open spec fn walk(
    entries: Seq<FileEntry>,
    items: Set<usize>,
    dirs_first: bool,
    k: Seq<char>,
    depth: nat,
) -> Seq<usize>
    decreases 2 * depth, 0nat,
{
    if depth == 0 {
        Seq::empty()
    } else {
        walk_each(entries, items, dirs_first, kids(entries, items, dirs_first, k), depth)
    }
}

/// The listed items, each folder among them directly followed by what is in
/// it.
pub open spec fn walk_each(
    entries: Seq<FileEntry>,
    items: Set<usize>,
    dirs_first: bool,
    list: Seq<usize>,
    depth: nat,
) -> Seq<usize>
    decreases 2 * depth - 1, list.len(),
{
    if list.len() == 0 || depth == 0 {
        Seq::empty()
    } else {
        let last = list.last();
        let front = walk_each(entries, items, dirs_first, list.drop_last(), depth).push(last);
        if entries[last as int].is_dir {
            front + walk(
                entries,
                items,
                dirs_first,
                entries[last as int].key(),
                (depth - 1) as nat,
            )
        } else {
            front
        }
    }
}

/// The largest number of parts that a path among the entries has.
pub open spec fn height(entries: Seq<FileEntry>) -> nat
    decreases entries.len(),
{
    if entries.len() == 0 {
        0
    } else {
        let h = height(entries.drop_last());
        let n = parts(entries.last().path@).len();
        if n > h {
            n
        } else {
            h
        }
    }
}

/// Whether one of the listed entries has the key `k`.
pub open spec fn lists_key(entries: Seq<FileEntry>, list: Seq<usize>, k: Seq<char>) -> bool {
    exists|i: int| 0 <= i < list.len() && entries[#[trigger] list[i] as int].key() == k
}

/// The items whose paths are not among those listed.
pub open spec fn orphans_set(
    entries: Seq<FileEntry>,
    items: Set<usize>,
    list: Seq<usize>,
) -> Set<usize> {
    Set::new(
        |i: usize|
            items.contains(i) && i < entries.len() && !lists_key(
                entries,
                list,
                entries[i as int].key(),
            ),
    )
}

/// The order of orphans as a function.
pub open spec fn orphan_order(entries: Seq<FileEntry>, dirs_first: bool) -> spec_fn(
    usize,
    usize,
) -> bool {
    |a: usize, b: usize| orphan_before(entries, dirs_first, a, b)
}

/// The items as a tree below `dir`, followed by those that cannot be reached
/// from `dir`.
pub open spec fn tree_order(
    entries: Seq<FileEntry>,
    items: Set<usize>,
    dir: Seq<char>,
    dirs_first: bool,
) -> Seq<usize> {
    let reached = walk(entries, items, dirs_first, path_key(dir), height(entries));
    reached + ordered(orphans_set(entries, items, reached), orphan_order(entries, dirs_first))
}

// ---------------------------------------------------------------------
// Computing it

/// The items by the folder that they are in.
struct Groups {
    map: StringHashMap<usize>,
    lists: Vec<Vec<usize>>,
}

impl Groups {
    /// Every folder with items has a group of its own that holds them.
    spec fn collects(&self, entries: Seq<FileEntry>, items: Set<usize>) -> bool {
        &&& forall|k: Seq<char>| #[trigger]
            self.map@.contains_key(k) ==> {
                &&& self.map@[k] < self.lists@.len()
                &&& self.lists@[self.map@[k] as int]@.no_duplicates()
                &&& forall|x: usize| #[trigger]
                    self.lists@[self.map@[k] as int]@.contains(x) <==> kids_set(
                        entries,
                        items,
                        k,
                    ).contains(x)
            }
        &&& forall|k: Seq<char>, x: usize|
            !self.map@.contains_key(k) ==> !(#[trigger] kids_set(entries, items, k).contains(x))
        &&& forall|k: Seq<char>, l: Seq<char>|
            self.map@.contains_key(k) && self.map@.contains_key(l) && k != l ==> #[trigger]
                self.map@[k] != #[trigger] self.map@[l]
        &&& forall|j: int| 0 <= j < self.lists@.len() ==> #[trigger] self.is_used(j)
    }

    /// Whether some folder has the group `j`.
    spec fn is_used(&self, j: int) -> bool {
        exists|k: Seq<char>| #[trigger] self.map@.contains_key(k) && self.map@[k] == j
    }

    /// Every folder with items has a group that lists them in order.
    spec fn arranges(&self, entries: Seq<FileEntry>, items: Set<usize>, dirs_first: bool) -> bool {
        forall|k: Seq<char>|
            {
                &&& #[trigger] self.map@.contains_key(k) ==> self.map@[k] < self.lists@.len()
                    && self.lists@[self.map@[k] as int]@ == kids(entries, items, dirs_first, k)
                    && forall|j: int|
                    0 <= j < kids(entries, items, dirs_first, k).len() ==> #[trigger] kids(
                        entries,
                        items,
                        dirs_first,
                        k,
                    )[j] < entries.len()
                &&& !self.map@.contains_key(k) ==> kids(entries, items, dirs_first, k)
                    == Seq::<usize>::empty()
            }
    }
}

/// A folder without items has no kids.
proof fn no_kids(entries: Seq<FileEntry>, items: Set<usize>, dirs_first: bool, k: Seq<char>)
    requires
        forall|x: usize| !(#[trigger] kids_set(entries, items, k).contains(x)),
    ensures
        kids(entries, items, dirs_first, k) == Seq::<usize>::empty(),
{
    let set = kids_set(entries, items, k);
    let before = sibling_order(entries, dirs_first);
    let e = Seq::<usize>::empty();
    assert(lists(e, set, before));
    listing_unique(e, ordered(set, before), set, before);
}

fn collect_groups(entries: &Vec<FileEntry>, items: &Vec<usize>) -> (r: Groups)
    requires
        items@.no_duplicates(),
        forall|i: int| 0 <= i < items@.len() ==> #[trigger] items@[i] < entries@.len(),
    ensures
        r.collects(entries@, items@.to_set()),
{
    let mut g = Groups { map: StringHashMap::new(), lists: Vec::new() };
    for n in 0..items.len()
        invariant
            items@.no_duplicates(),
            forall|i: int| 0 <= i < items@.len() ==> #[trigger] items@[i] < entries@.len(),
            g.collects(entries@, items@.take(n as int).to_set()),
    {
        let x: usize = items[n];
        let ghost was = g;
        let ghost done = items@.take(n as int).to_set();
        let ghost next = items@.take(n + 1).to_set();
        proof {
            assert(items@.take(n + 1) =~= items@.take(n as int).push(x));
            assert forall|y: usize| #[trigger] next.contains(y) <==> done.contains(y) || y == x by {
                vstd::seq_lib::lemma_seq_contains_after_push(items@.take(n as int), x, y);
            }
            assert(!done.contains(x)) by {
                if items@.take(n as int).contains(x) {
                    let i = choose|i: int| 0 <= i < n && items@.take(n as int)[i] == x;
                }
            }
        }
        match entries[x].path.parent() {
            Some(p) => {
                let k = p.key();
                let ghost kv = k@;
                let at: Option<usize> = match g.map.get(k.as_str()) {
                    Some(i) => Some(*i),
                    None => None,
                };
                match at {
                    Some(i) => {
                        g.lists[i].push(x);
                        proof {
                            grown_group(was, g, entries@, done, next, kv, x);
                        }
                    },
                    None => {
                        let i: usize = g.lists.len();
                        let mut list: Vec<usize> = Vec::new();
                        list.push(x);
                        g.lists.push(list);
                        g.map.insert(k, i);
                        proof {
                            assert(g.lists.len() == i + 1);
                            new_group(was, g, entries@, done, next, kv, x, list@);
                        }
                    },
                }
            },
            None => {
                proof {
                    assert forall|k: Seq<char>| kids_set(entries@, next, k)
                        =~= #[trigger] kids_set(entries@, done, k) by {
                        assert forall|y: usize| kids_set(entries@, next, k).contains(y)
                            == kids_set(entries@, done, k).contains(y) by {}
                    }
                    assert(g.collects(entries@, next)) by {
                        assert forall|k: Seq<char>, y: usize| g.map@.contains_key(k) implies (
                        #[trigger] g.lists@[g.map@[k] as int]@.contains(y) <==> kids_set(
                            entries@,
                            next,
                            k,
                        ).contains(y)) by {
                            assert(g.lists@[g.map@[k] as int]@.contains(y) <==> kids_set(
                                entries@,
                                done,
                                k,
                            ).contains(y));
                        }
                        assert forall|k: Seq<char>, y: usize|
                            !g.map@.contains_key(k) implies !(#[trigger] kids_set(
                            entries@,
                            next,
                            k,
                        ).contains(y)) by {
                            assert(!kids_set(entries@, done, k).contains(y));
                        }
                    }
                }
            },
        }
    }
    assert(items@.take(items@.len() as int) =~= items@);
    g
}

proof fn grown_group(
    was: Groups,
    g: Groups,
    entries: Seq<FileEntry>,
    done: Set<usize>,
    next: Set<usize>,
    kv: Seq<char>,
    x: usize,
)
    requires
        was.collects(entries, done),
        x < entries.len(),
        parent_key(entries[x as int]) == Some(kv),
        !done.contains(x),
        forall|y: usize| #[trigger] next.contains(y) <==> done.contains(y) || y == x,
        was.map@.contains_key(kv),
        g.map@ == was.map@,
        g.lists@.len() == was.lists@.len(),
        g.lists@[was.map@[kv] as int]@ == was.lists@[was.map@[kv] as int]@.push(x),
        forall|j: int|
            0 <= j < was.lists@.len() && j != was.map@[kv] ==> #[trigger] g.lists@[j]
                == was.lists@[j],
    ensures
        g.collects(entries, next),
{
    assert forall|k: Seq<char>| #[trigger] g.map@.contains_key(k) implies {
        &&& g.map@[k] < g.lists@.len()
        &&& g.lists@[g.map@[k] as int]@.no_duplicates()
        &&& forall|y: usize| #[trigger]
            g.lists@[g.map@[k] as int]@.contains(y) <==> kids_set(entries, next, k).contains(y)
    } by {
        let old_list = was.lists@[was.map@[k] as int]@;
        let new_list = g.lists@[g.map@[k] as int]@;
        if k == kv {
            assert(!old_list.contains(x)) by {
                assert(old_list.contains(x) <==> kids_set(entries, done, k).contains(x));
            }
        }
        assert forall|y: usize| #[trigger] new_list.contains(y) <==> kids_set(
            entries,
            next,
            k,
        ).contains(y) by {
            if k == kv {
                vstd::seq_lib::lemma_seq_contains_after_push(old_list, x, y);
            } else {
                assert(was.map@[k] != was.map@[kv]);
            }
        }
    }
    assert forall|k: Seq<char>, y: usize| !g.map@.contains_key(k) implies !(#[trigger] kids_set(
        entries,
        next,
        k,
    ).contains(y)) by {
        assert(!kids_set(entries, done, k).contains(y));
    }
    assert forall|j: int| 0 <= j < g.lists@.len() implies #[trigger] g.is_used(j) by {
        assert(was.is_used(j));
    }
}

proof fn new_group(
    was: Groups,
    g: Groups,
    entries: Seq<FileEntry>,
    done: Set<usize>,
    next: Set<usize>,
    kv: Seq<char>,
    x: usize,
    list: Seq<usize>,
)
    requires
        was.collects(entries, done),
        x < entries.len(),
        parent_key(entries[x as int]) == Some(kv),
        !done.contains(x),
        forall|y: usize| #[trigger] next.contains(y) <==> done.contains(y) || y == x,
        !was.map@.contains_key(kv),
        list == seq![x],
        was.lists@.len() < usize::MAX,
        g.map@ == was.map@.insert(kv, was.lists@.len() as usize),
        g.lists@.len() == was.lists@.len() + 1,
        g.lists@.last()@ == list,
        forall|j: int| 0 <= j < was.lists@.len() ==> #[trigger] g.lists@[j] == was.lists@[j],
    ensures
        g.collects(entries, next),
{
    assert forall|k: Seq<char>| #[trigger] g.map@.contains_key(k) implies {
        &&& g.map@[k] < g.lists@.len()
        &&& g.lists@[g.map@[k] as int]@.no_duplicates()
        &&& forall|y: usize| #[trigger]
            g.lists@[g.map@[k] as int]@.contains(y) <==> kids_set(entries, next, k).contains(y)
    } by {
        let new_list = g.lists@[g.map@[k] as int]@;
        if k == kv {
            assert forall|y: usize| #[trigger] new_list.contains(y) <==> kids_set(
                entries,
                next,
                k,
            ).contains(y) by {
                assert(!kids_set(entries, done, k).contains(y));
                if y == x {
                    assert(new_list[0] == x);
                }
            }
        } else {
            let old_list = was.lists@[was.map@[k] as int]@;
            assert forall|y: usize| #[trigger] new_list.contains(y) <==> kids_set(
                entries,
                next,
                k,
            ).contains(y) by {
                assert(old_list.contains(y) <==> kids_set(entries, done, k).contains(y));
            }
        }
    }
    assert forall|k: Seq<char>, y: usize| !g.map@.contains_key(k) implies !(#[trigger] kids_set(
        entries,
        next,
        k,
    ).contains(y)) by {
        assert(!kids_set(entries, done, k).contains(y));
    }
    assert forall|k: Seq<char>, l: Seq<char>|
        g.map@.contains_key(k) && g.map@.contains_key(l) && k != l implies #[trigger] g.map@[k]
        != #[trigger] g.map@[l] by {
        if k != kv {
            assert(was.map@.contains_key(k));
        }
        if l != kv {
            assert(was.map@.contains_key(l));
        }
    }
    assert forall|j: int| 0 <= j < g.lists@.len() implies #[trigger] g.is_used(j) by {
        if j < was.lists@.len() {
            assert(was.is_used(j));
            let k = choose|k: Seq<char>| #[trigger] was.map@.contains_key(k) && was.map@[k] == j;
            assert(g.map@.contains_key(k) && g.map@[k] == j);
        } else {
            assert(g.map@.contains_key(kv) && g.map@[kv] == j);
        }
    }
}

fn arrange_groups(
    g: Groups,
    entries: &Vec<FileEntry>,
    dirs_first: bool,
    Ghost(items): Ghost<Set<usize>>,
) -> (r: Groups)
    requires
        g.collects(entries@, items),
    ensures
        r.arranges(entries@, items, dirs_first),
{
    let rank = Siblings { entries, dirs_first };
    let mut done: Vec<Vec<usize>> = Vec::new();
    for j in 0..g.lists.len()
        invariant
            rank.entries == entries,
            rank.dirs_first == dirs_first,
            g.collects(entries@, items),
            done@.len() == j,
            forall|i: int|
                0 <= i < j ==> (#[trigger] done@[i])@ == ordered(
                    g.lists@[i]@.to_set(),
                    order_of(&rank),
                ) && lists(done@[i]@, g.lists@[i]@.to_set(), order_of(&rank)),
    {
        proof {
            assert(g.is_used(j as int));
            let k = choose|k: Seq<char>| #[trigger] g.map@.contains_key(k) && g.map@[k] == j;
            let list = g.lists@[j as int]@;
            assert forall|i: int| 0 <= i < list.len() implies rank.ranks(#[trigger] list[i]) by {
                assert(list.contains(list[i]));
            }
        }
        let sorted = sort(&g.lists[j], &rank);
        done.push(sorted);
    }
    let r = Groups { map: g.map, lists: done };
    proof {
        assert(order_of(&rank) =~= sibling_order(entries@, dirs_first));
        assert forall|k: Seq<char>|
            {
                &&& #[trigger] r.map@.contains_key(k) ==> r.map@[k] < r.lists@.len()
                    && r.lists@[r.map@[k] as int]@ == kids(entries@, items, dirs_first, k)
                    && forall|j: int|
                    0 <= j < kids(entries@, items, dirs_first, k).len() ==> #[trigger] kids(
                        entries@,
                        items,
                        dirs_first,
                        k,
                    )[j] < entries@.len()
                &&& !r.map@.contains_key(k) ==> kids(entries@, items, dirs_first, k)
                    == Seq::<usize>::empty()
            } by {
            if r.map@.contains_key(k) {
                let set = kids_set(entries@, items, k);
                let list = g.lists@[g.map@[k] as int]@;
                assert(list.to_set() =~= set) by {
                    assert forall|x: usize| list.to_set().contains(x) <==> set.contains(x) by {
                        assert(list.contains(x) <==> set.contains(x));
                    }
                }
                let out = r.lists@[r.map@[k] as int]@;
                assert forall|j: int| 0 <= j < out.len() implies #[trigger] out[j]
                    < entries@.len() by {
                    assert(out.contains(out[j]));
                }
            } else {
                no_kids(entries@, items, dirs_first, k);
            }
        }
    }
    r
}

/// Appends what is in the folder with the key `k`, each folder directly
/// followed by what is in it.
fn dfs_list(
    g: &Groups,
    entries: &Vec<FileEntry>,
    dirs_first: bool,
    Ghost(items): Ghost<Set<usize>>,
    k: &str,
    depth: usize,
    out: &mut Vec<usize>,
)
    requires
        g.arranges(entries@, items, dirs_first),
    ensures
        final(out)@ == old(out)@ + walk(entries@, items, dirs_first, k@, depth as nat),
    decreases depth,
{
    assert(g.map@.contains_key(k@) || kids(entries@, items, dirs_first, k@) == Seq::<
        usize,
    >::empty());
    if depth == 0 {
        return;
    }
    match g.map.get(k) {
        Some(i) => {
            let list = &g.lists[*i];
            let ghost start = out@;
            let ghost all = kids(entries@, items, dirs_first, k@);
            assert(start + walk_each(entries@, items, dirs_first, all.take(0), depth as nat)
                =~= start);
            for j in 0..list.len()
                invariant
                    g.arranges(entries@, items, dirs_first),
                    depth > 0,
                    all == kids(entries@, items, dirs_first, k@),
                    all == list@,
                    forall|i: int| 0 <= i < all.len() ==> #[trigger] all[i] < entries@.len(),
                    out@ == start + walk_each(
                        entries@,
                        items,
                        dirs_first,
                        all.take(j as int),
                        depth as nat,
                    ),
            {
                let x: usize = list[j];
                proof {
                    assert(all.take(j + 1).drop_last() =~= all.take(j as int));
                }
                out.push(x);
                if entries[x].is_dir {
                    let sub = entries[x].path.key();
                    dfs_list(
                        g,
                        entries,
                        dirs_first,
                        Ghost(items),
                        sub.as_str(),
                        depth - 1,
                        out,
                    );
                }
            }
            assert(all.take(all.len() as int) =~= all);
        },
        None => {
            assert(out@ =~= out@ + walk(entries@, items, dirs_first, k@, depth as nat));
        },
    }
}

fn find_height(entries: &Vec<FileEntry>) -> (r: usize)
    ensures
        r == height(entries@),
{
    let mut h: usize = 0;
    for i in 0..entries.len()
        invariant
            h == height(entries@.take(i as int)),
    {
        let p = entries[i].path.parts();
        let n: usize = p.len();
        proof {
            assert(entries@.take(i + 1).drop_last() =~= entries@.take(i as int));
        }
        if n > h {
            h = n;
        }
    }
    assert(entries@.take(entries@.len() as int) =~= entries@);
    h
}

/// The keys of the listed entries.
fn collect_keys(entries: &Vec<FileEntry>, list: &Vec<usize>) -> (r: StringHashMap<bool>)
    requires
        forall|i: int| 0 <= i < list@.len() ==> #[trigger] list@[i] < entries@.len(),
    ensures
        forall|k: Seq<char>| #[trigger] r@.contains_key(k) <==> lists_key(entries@, list@, k),
{
    let mut keys: StringHashMap<bool> = StringHashMap::new();
    for i in 0..list.len()
        invariant
            forall|i: int| 0 <= i < list@.len() ==> #[trigger] list@[i] < entries@.len(),
            forall|k: Seq<char>| #[trigger]
                keys@.contains_key(k) <==> lists_key(entries@, list@.take(i as int), k),
    {
        let x: usize = list[i];
        let k = entries[x].path.key();
        let ghost kv = k@;
        keys.insert(k, true);
        proof {
            assert forall|q: Seq<char>| #[trigger] keys@.contains_key(q) <==> lists_key(
                entries@,
                list@.take(i + 1),
                q,
            ) by {
                let a = list@.take(i as int);
                let b = list@.take(i + 1);
                if lists_key(entries@, a, q) {
                    let j = choose|j: int|
                        0 <= j < a.len() && entries@[#[trigger] a[j] as int].key() == q;
                }
                if q == kv {
                    assert(entries@[b[i as int] as int].key() == q);
                }
                if lists_key(entries@, b, q) {
                    let j = choose|j: int|
                        0 <= j < b.len() && entries@[#[trigger] b[j] as int].key() == q;
                    if j < i {
                        assert(entries@[a[j] as int].key() == q);
                    }
                }
            }
        }
    }
    assert(list@.take(list@.len() as int) =~= list@);
    keys
}

/// The kids of a folder are listed in order.
pub proof fn kids_listed(
    entries: Seq<FileEntry>,
    items: Set<usize>,
    dirs_first: bool,
    k: Seq<char>,
)
    ensures
        lists(
            kids(entries, items, dirs_first, k),
            kids_set(entries, items, k),
            sibling_order(entries, dirs_first),
        ),
        forall|i: int|
            0 <= i < kids(entries, items, dirs_first, k).len() ==> kids_set(
                entries,
                items,
                k,
            ).contains(#[trigger] kids(entries, items, dirs_first, k)[i]),
{
    let set = kids_set(entries, items, k);
    let before = sibling_order(entries, dirs_first);
    assert(orders(set, before)) by {
        assert forall|x: usize, y: usize|
            set.contains(x) && set.contains(y) implies (#[trigger] before(x, y) || before(y, x) || x
            == y) && !(before(x, y) && before(y, x)) by {
            sibling_total(entries, dirs_first, x, y);
        }
        assert forall|x: usize, y: usize, z: usize|
            set.contains(x) && set.contains(y) && set.contains(z) && #[trigger] before(x, y)
                && #[trigger] before(y, z) implies before(x, z) by {
            sibling_transitive(entries, dirs_first, x, y, z);
        }
    }
    ordered_lists(set, usize::MAX + 1, before);
    let out = kids(entries, items, dirs_first, k);
    assert forall|i: int| 0 <= i < out.len() implies set.contains(#[trigger] out[i]) by {
        assert(out.contains(out[i]));
    }
}

/// Whether `x` is an item, and stands for an entry.
pub open spec fn has_place(entries: Seq<FileEntry>, items: Set<usize>, x: usize) -> bool {
    items.contains(x) && x < entries.len()
}

/// What is reached are items.
pub proof fn walk_members(
    entries: Seq<FileEntry>,
    items: Set<usize>,
    dirs_first: bool,
    k: Seq<char>,
    depth: nat,
)
    ensures
        forall|i: int|
            0 <= i < walk(entries, items, dirs_first, k, depth).len() ==> has_place(
                entries,
                items,
                #[trigger] walk(entries, items, dirs_first, k, depth)[i],
            ),
    decreases 2 * depth, 0nat,
{
    if depth > 0 {
        kids_listed(entries, items, dirs_first, k);
        let list = kids(entries, items, dirs_first, k);
        walk_each_members(entries, items, dirs_first, list, depth);
        assert(walk(entries, items, dirs_first, k, depth) == walk_each(
            entries,
            items,
            dirs_first,
            list,
            depth,
        ));
    }
}

pub proof fn walk_each_members(
    entries: Seq<FileEntry>,
    items: Set<usize>,
    dirs_first: bool,
    list: Seq<usize>,
    depth: nat,
)
    requires
        forall|i: int| 0 <= i < list.len() ==> has_place(entries, items, #[trigger] list[i]),
    ensures
        forall|i: int|
            0 <= i < walk_each(entries, items, dirs_first, list, depth).len() ==> has_place(
                entries,
                items,
                #[trigger] walk_each(entries, items, dirs_first, list, depth)[i],
            ),
    decreases 2 * depth - 1, list.len(),
{
    if list.len() > 0 && depth > 0 {
        walk_each_members(entries, items, dirs_first, list.drop_last(), depth);
        let last = list.last();
        let k = entries[last as int].key();
        walk_members(entries, items, dirs_first, k, (depth - 1) as nat);
        let front = walk_each(entries, items, dirs_first, list.drop_last(), depth);
        let below = walk(entries, items, dirs_first, k, (depth - 1) as nat);
        let all = walk_each(entries, items, dirs_first, list, depth);
        assert(all == if entries[last as int].is_dir {
            front.push(last) + below
        } else {
            front.push(last)
        });
        assert forall|i: int| 0 <= i < all.len() implies has_place(
            entries,
            items,
            #[trigger] all[i],
        ) by {
            if i < front.len() {
                assert(all[i] == front[i]);
            } else if i > front.len() {
                assert(all[i] == below[i - front.len() - 1]);
            }
        }
    }
}

/// Nothing in order is nothing.
pub proof fn empty_tree(entries: Seq<FileEntry>, dir: Seq<char>, dirs_first: bool)
    ensures
        tree_order(entries, Set::empty(), dir, dirs_first) == Seq::<usize>::empty(),
{
    let items = Set::<usize>::empty();
    let k = path_key(dir);
    let reached = walk(entries, items, dirs_first, k, height(entries));
    walk_members(entries, items, dirs_first, k, height(entries));
    if reached.len() > 0 {
        assert(has_place(entries, items, reached[0]));
    }
    let set = orphans_set(entries, items, reached);
    let before = orphan_order(entries, dirs_first);
    let e = Seq::<usize>::empty();
    assert(lists(e, set, before));
    listing_unique(e, ordered(set, before), set, before);
}

/// The items that can be reached from `dir`, in the order of a tree.
pub fn walk_tree(
    entries: &Vec<FileEntry>,
    items: &Vec<usize>,
    dir: &FilePath,
    dirs_first: bool,
) -> (r: Vec<usize>)
    requires
        items@.no_duplicates(),
        forall|i: int| 0 <= i < items@.len() ==> #[trigger] items@[i] < entries@.len(),
    ensures
        r@ == walk(entries@, items@.to_set(), dirs_first, path_key(dir@), height(entries@)),
        forall|i: int|
            0 <= i < r@.len() ==> has_place(entries@, items@.to_set(), #[trigger] r@[i]),
{
    let ghost set = items@.to_set();
    let g = arrange_groups(collect_groups(entries, items), entries, dirs_first, Ghost(set));
    let k = dir.key();
    let h: usize = find_height(entries);
    let mut out: Vec<usize> = Vec::new();
    dfs_list(&g, entries, dirs_first, Ghost(set), k.as_str(), h, &mut out);
    proof {
        walk_members(entries@, set, dirs_first, path_key(dir@), height(entries@));
    }
    out
}

/// Order entries as a real tree (DFS pre-order): each directory is
/// immediately followed by its own children; siblings dirs-first
/// (optional) then alphabetical. Entries unreachable from `dir` are
/// appended at the end instead of silently dropped.
pub fn order_dfs(
    entries: &Vec<FileEntry>,
    items: &Vec<usize>,
    dir: &FilePath,
    dirs_first: bool,
) -> (r: Vec<usize>)
    requires
        items@.no_duplicates(),
        forall|i: int| 0 <= i < items@.len() ==> #[trigger] items@[i] < entries@.len(),
    ensures
        r@ == tree_order(entries@, items@.to_set(), dir@, dirs_first),
        forall|i: int|
            0 <= i < r@.len() ==> has_place(entries@, items@.to_set(), #[trigger] r@[i]),
        distinct_items(entries@, items@.to_set()) ==> r@.to_multiset() == items@.to_multiset(),
{
    let ghost set = items@.to_set();
    let mut out = walk_tree(entries, items, dir, dirs_first);
    let ghost reached = out@;
    proof {
        assert forall|i: int| 0 <= i < out@.len() implies #[trigger] out@[i] < entries@.len() by {
            assert(has_place(entries@, set, reached[i]));
        }
    }
    let emitted = collect_keys(entries, &out);
    let mut orphans: Vec<usize> = Vec::new();
    for n in 0..items.len()
        invariant
            items@.no_duplicates(),
            set == items@.to_set(),
            forall|i: int| 0 <= i < items@.len() ==> #[trigger] items@[i] < entries@.len(),
            forall|k: Seq<char>| #[trigger]
                emitted@.contains_key(k) <==> lists_key(entries@, reached, k),
            orphans@.no_duplicates(),
            forall|x: usize| #[trigger]
                orphans@.contains(x) <==> items@.take(n as int).contains(x) && orphans_set(
                    entries@,
                    set,
                    reached,
                ).contains(x),
    {
        let x: usize = items[n];
        let ghost was = orphans@;
        proof {
            assert(items@.take(n + 1) =~= items@.take(n as int).push(x));
            assert(!items@.take(n as int).contains(x)) by {
                if items@.take(n as int).contains(x) {
                    let i = choose|i: int| 0 <= i < n && items@.take(n as int)[i] == x;
                }
            }
        }
        let k = entries[x].path.key();
        if !emitted.contains_key(k.as_str()) {
            assert(!was.contains(x));
            orphans.push(x);
        }
        proof {
            assert forall|y: usize| #[trigger] orphans@.contains(y) <==> items@.take(
                n + 1,
            ).contains(y) && orphans_set(entries@, set, reached).contains(y) by {
                vstd::seq_lib::lemma_seq_contains_after_push(items@.take(n as int), x, y);
                vstd::seq_lib::lemma_seq_contains_after_push(was, x, y);
                assert(was.contains(y) <==> items@.take(n as int).contains(y) && orphans_set(
                    entries@,
                    set,
                    reached,
                ).contains(y));
            }
        }
    }
    let rank = Orphans { entries, dirs_first };
    proof {
        let want = orphans_set(entries@, set, reached);
        assert(items@.take(items@.len() as int) =~= items@);
        assert(orphans@.to_set() =~= want) by {
            assert forall|x: usize| orphans@.to_set().contains(x) <==> want.contains(x) by {
                assert(orphans@.contains(x) <==> items@.take(items@.len() as int).contains(x)
                    && want.contains(x));
            }
        }
        assert forall|i: int| 0 <= i < orphans@.len() implies rank.ranks(
            #[trigger] orphans@[i],
        ) by {
            assert(orphans@.contains(orphans@[i]));
        }
        assert(order_of(&rank) =~= orphan_order(entries@, dirs_first));
    }
    let mut tail = sort(&orphans, &rank);
    proof {
        let want = orphans_set(entries@, set, reached);
        assert forall|i: int| 0 <= i < tail@.len() implies has_place(
            entries@,
            set,
            #[trigger] tail@[i],
        ) by {
            assert(tail@.contains(tail@[i]));
        }
    }
    out.append(&mut tail);
    proof {
        if distinct_items(entries@, set) {
            rows_are_items(entries@, items@, dir@, dirs_first);
        }
    }
    out
}

} // verus!
