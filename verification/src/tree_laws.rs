//! What holds of every tree order: nothing is dropped, nothing is shown
//! twice, and folders are shown to the bottom.

use crate::index_model::unique_paths;
use crate::path_laws::{parent_parts, path_less_transitive, path_order, same_key_same_path};
use crate::paths::{parent, parts, path_key, path_less, same_path, Part};
use crate::sort::{lists, ordered, ordered_lists, orders};
use crate::tree::{
    has_place, height, kids, kids_listed, kids_set, lists_key, orphan_order, orphans_set,
    sibling_order, sibling_total, sibling_transitive, tree_order, walk, walk_each, walk_members,
};
use crate::types::FileEntry;
use vstd::prelude::*;

verus! {

/// The orphans are listed in order.
pub proof fn orphans_listed(
    entries: Seq<FileEntry>,
    items: Set<usize>,
    dirs_first: bool,
    reached: Seq<usize>,
)
    ensures
        lists(
            ordered(orphans_set(entries, items, reached), orphan_order(entries, dirs_first)),
            orphans_set(entries, items, reached),
            orphan_order(entries, dirs_first),
        ),
{
    let set = orphans_set(entries, items, reached);
    let before = orphan_order(entries, dirs_first);
    assert(orders(set, before)) by {
        assert forall|x: usize, y: usize|
            set.contains(x) && set.contains(y) implies (#[trigger] before(x, y) || before(y, x) || x
            == y) && !(before(x, y) && before(y, x)) by {
            path_order(entries[x as int].path@, entries[y as int].path@);
            sibling_total(entries, dirs_first, x, y);
        }
        assert forall|x: usize, y: usize, z: usize|
            set.contains(x) && set.contains(y) && set.contains(z) && #[trigger] before(x, y)
                && #[trigger] before(y, z) implies before(x, z) by {
            let a = entries[x as int].path@;
            let b = entries[y as int].path@;
            let c = entries[z as int].path@;
            path_order(a, b);
            path_order(b, c);
            if path_less(a, b) && path_less(b, c) {
                path_less_transitive(a, b, c);
            }
            if same_path(a, b) && same_path(b, c) {
                sibling_transitive(entries, dirs_first, x, y, z);
            }
        }
    }
    ordered_lists(set, usize::MAX + 1, before);
}

/// Whether no two items have the same path.
pub open spec fn distinct_items(entries: Seq<FileEntry>, items: Set<usize>) -> bool {
    forall|x: usize, y: usize|
        has_place(entries, items, x) && has_place(entries, items, y) && x != y
            ==> #[trigger] entries[x as int].key() != #[trigger] entries[y as int].key()
}

/// Where no two entries have the same path, no two items have.
pub proof fn unique_items(entries: Seq<FileEntry>, items: Set<usize>)
    requires
        unique_paths(entries),
    ensures
        distinct_items(entries, items),
{
    assert forall|x: usize, y: usize|
        has_place(entries, items, x) && has_place(entries, items, y) && x
            != y implies #[trigger] entries[x as int].key()
        != #[trigger] entries[y as int].key() by {
        if x < y {
            assert(entries[x as int].key() != entries[y as int].key());
        } else {
            assert(entries[y as int].key() != entries[x as int].key());
        }
    }
}

/// Nothing is dropped: of every item the path is shown, and where no two
/// items have the same path the item itself is.
pub proof fn nothing_dropped(
    entries: Seq<FileEntry>,
    items: Set<usize>,
    dir: Seq<char>,
    dirs_first: bool,
    x: usize,
)
    requires
        has_place(entries, items, x),
    ensures
        lists_key(entries, tree_order(entries, items, dir, dirs_first), entries[x as int].key()),
        distinct_items(entries, items) ==> tree_order(entries, items, dir, dirs_first).contains(x),
{
    let reached = walk(entries, items, dirs_first, path_key(dir), height(entries));
    let set = orphans_set(entries, items, reached);
    let tail = ordered(set, orphan_order(entries, dirs_first));
    let all = tree_order(entries, items, dir, dirs_first);
    let k = entries[x as int].key();
    if lists_key(entries, reached, k) {
        let i = choose|i: int|
            0 <= i < reached.len() && entries[#[trigger] reached[i] as int].key() == k;
        assert(entries[all[i] as int].key() == k);
        walk_members(entries, items, dirs_first, path_key(dir), height(entries));
        assert(has_place(entries, items, reached[i]));
    } else {
        orphans_listed(entries, items, dirs_first, reached);
        assert(tail.contains(x));
        let i = choose|i: int| 0 <= i < tail.len() && tail[i] == x;
        assert(entries[all[reached.len() + i] as int].key() == k);
    }
}

/// Nothing is made up: every row is an item.
pub proof fn only_items_shown(
    entries: Seq<FileEntry>,
    items: Set<usize>,
    dir: Seq<char>,
    dirs_first: bool,
    i: int,
)
    requires
        0 <= i < tree_order(entries, items, dir, dirs_first).len(),
    ensures
        has_place(entries, items, tree_order(entries, items, dir, dirs_first)[i]),
{
    let reached = walk(entries, items, dirs_first, path_key(dir), height(entries));
    let set = orphans_set(entries, items, reached);
    let tail = ordered(set, orphan_order(entries, dirs_first));
    let all = tree_order(entries, items, dir, dirs_first);
    walk_members(entries, items, dirs_first, path_key(dir), height(entries));
    if i < reached.len() {
        assert(all[i] == reached[i]);
    } else {
        orphans_listed(entries, items, dirs_first, reached);
        assert(tail.contains(tail[i - reached.len()]));
    }
}

/// Whether the path of `y` lies strictly below the parts `d`.
pub open spec fn strictly_below(entries: Seq<FileEntry>, y: usize, d: Seq<Part>) -> bool {
    y < entries.len() && d.is_prefix_of(parts(entries[y as int].path@)) && d.len() < parts(
        entries[y as int].path@,
    ).len()
}

/// A kid of `d` has the parts of `d` and one more.
pub proof fn kid_parts(entries: Seq<FileEntry>, items: Set<usize>, d: Seq<char>, x: usize)
    requires
        kids_set(entries, items, path_key(d)).contains(x),
    ensures
        x < entries.len(),
        parts(entries[x as int].path@).len() == parts(d).len() + 1,
        parts(d) == parts(entries[x as int].path@).drop_last(),
        strictly_below(entries, x, parts(d)),
{
    let t = entries[x as int].path@;
    let p = parent(t).unwrap();
    same_key_same_path(p, d);
    parent_parts(t);
}

/// What is reached from a folder lies below it and is reached once.
pub proof fn walk_once(
    entries: Seq<FileEntry>,
    items: Set<usize>,
    dirs_first: bool,
    d: Seq<char>,
    depth: nat,
)
    requires
        distinct_items(entries, items),
    ensures
        walk(entries, items, dirs_first, path_key(d), depth).no_duplicates(),
        forall|i: int|
            0 <= i < walk(entries, items, dirs_first, path_key(d), depth).len() ==> strictly_below(
                entries,
                #[trigger] walk(entries, items, dirs_first, path_key(d), depth)[i],
                parts(d),
            ),
    decreases 2 * depth, 0nat,
{
    if depth > 0 {
        let k = path_key(d);
        let list = kids(entries, items, dirs_first, k);
        kids_listed(entries, items, dirs_first, k);
        assert forall|i: int| 0 <= i < list.len() implies kid_of(
            entries,
            #[trigger] list[i],
            parts(d),
        ) by {
            kid_parts(entries, items, d, list[i]);
        }
        assert(list.no_duplicates()) by {
            let before = sibling_order(entries, dirs_first);
            assert forall|i: int, j: int| 0 <= i < j < list.len() implies list[i] != list[j] by {
                assert(before(list[i], list[j]));
                sibling_total(entries, dirs_first, list[i], list[j]);
            }
        }
        walk_each_once(entries, items, dirs_first, list, parts(d), depth);
        let all = walk_each(entries, items, dirs_first, list, depth);
        assert forall|i: int| 0 <= i < all.len() implies strictly_below(
            entries,
            #[trigger] all[i],
            parts(d),
        ) by {
            let j = choose|j: int|
                0 <= j < list.len() && in_block(entries, #[trigger] list[j], all[i]);
            below_kid(entries, list[j], all[i], parts(d));
        }
    }
}

pub open spec fn kid_of(entries: Seq<FileEntry>, x: usize, d: Seq<Part>) -> bool {
    x < entries.len() && parts(entries[x as int].path@).len() == d.len() + 1 && d == parts(
        entries[x as int].path@,
    ).drop_last()
}

/// Whether `y` is shown at or below `x`.
pub open spec fn in_block(entries: Seq<FileEntry>, x: usize, y: usize) -> bool {
    y < entries.len() && x < entries.len() && parts(entries[x as int].path@).is_prefix_of(
        parts(entries[y as int].path@),
    )
}

pub open spec fn from_block(entries: Seq<FileEntry>, list: Seq<usize>, y: usize) -> bool {
    exists|j: int| 0 <= j < list.len() && in_block(entries, #[trigger] list[j], y)
}

proof fn below_kid(entries: Seq<FileEntry>, x: usize, y: usize, d: Seq<Part>)
    requires
        kid_of(entries, x, d),
        in_block(entries, x, y),
    ensures
        strictly_below(entries, y, d),
{
}

/// Blocks below different kids of one folder have nothing in common.
pub proof fn blocks_apart(
    entries: Seq<FileEntry>,
    items: Set<usize>,
    a: usize,
    b: usize,
    y: usize,
    d: Seq<Part>,
)
    requires
        distinct_items(entries, items),
        items.contains(a),
        items.contains(b),
        kid_of(entries, a, d),
        kid_of(entries, b, d),
        in_block(entries, a, y),
        in_block(entries, b, y),
    ensures
        a == b,
{
    same_key_same_path(entries[a as int].path@, entries[b as int].path@);
    assert(has_place(entries, items, a) && has_place(entries, items, b));
    assert(entries[a as int].key() == entries[b as int].key());
}

pub proof fn walk_each_once(
    entries: Seq<FileEntry>,
    items: Set<usize>,
    dirs_first: bool,
    list: Seq<usize>,
    d: Seq<Part>,
    depth: nat,
)
    requires
        distinct_items(entries, items),
        list.no_duplicates(),
        forall|i: int| 0 <= i < list.len() ==> items.contains(#[trigger] list[i]),
        forall|i: int| 0 <= i < list.len() ==> kid_of(entries, #[trigger] list[i], d),
    ensures
        walk_each(entries, items, dirs_first, list, depth).no_duplicates(),
        forall|i: int|
            0 <= i < walk_each(entries, items, dirs_first, list, depth).len() ==> from_block(
                entries,
                list,
                #[trigger] walk_each(entries, items, dirs_first, list, depth)[i],
            ),
    decreases 2 * depth - 1, list.len(),
{
    if list.len() > 0 && depth > 0 {
        let rest = list.drop_last();
        let last = list.last();
        let n = list.len() - 1;
        assert forall|i: int| 0 <= i < rest.len() implies kid_of(entries, #[trigger] rest[i], d) by {
            assert(rest[i] == list[i]);
        }
        walk_each_once(entries, items, dirs_first, rest, d, depth);
        let path = entries[last as int].path@;
        walk_once(entries, items, dirs_first, path, (depth - 1) as nat);
        let front = walk_each(entries, items, dirs_first, rest, depth);
        let below = if entries[last as int].is_dir {
            walk(entries, items, dirs_first, path_key(path), (depth - 1) as nat)
        } else {
            Seq::empty()
        };
        let all = walk_each(entries, items, dirs_first, list, depth);
        let f = front.len() as int;
        assert forall|i: int| f <= i < all.len() implies in_block(entries, last, #[trigger] all[i])
            && (i > f ==> parts(entries[all[i] as int].path@).len() > parts(path).len()) by {
            if i == f {
                assert(parts(path) =~= parts(path).subrange(0, parts(path).len() as int));
            } else {
                assert(strictly_below(entries, below[i - f - 1], parts(path)));
            }
        }
        assert forall|i: int| 0 <= i < all.len() implies from_block(
            entries,
            list,
            #[trigger] all[i],
        ) by {
            if i < f {
                let j = choose|j: int|
                    0 <= j < rest.len() && in_block(entries, #[trigger] rest[j], front[i]);
            } else {
                assert(in_block(entries, list[n], all[i]));
            }
        }
        assert forall|i: int, j: int| 0 <= i < j < all.len() implies all[i] != all[j] by {
            if j < f {
                assert(front[i] != front[j]);
            } else if i < f {
                if all[i] == all[j] {
                    let m = choose|m: int|
                        0 <= m < rest.len() && in_block(entries, #[trigger] rest[m], front[i]);
                    blocks_apart(entries, items, rest[m], last, all[i], d);
                }
            } else if i > f {
                assert(below[i - f - 1] != below[j - f - 1]);
            }
        }
    }
}

/// Nothing is shown twice where no two items have the same path.
pub proof fn nothing_twice(
    entries: Seq<FileEntry>,
    items: Set<usize>,
    dir: Seq<char>,
    dirs_first: bool,
)
    requires
        distinct_items(entries, items),
    ensures
        tree_order(entries, items, dir, dirs_first).no_duplicates(),
{
    let reached = walk(entries, items, dirs_first, path_key(dir), height(entries));
    let set = orphans_set(entries, items, reached);
    let before = orphan_order(entries, dirs_first);
    let tail = ordered(set, before);
    let all = tree_order(entries, items, dir, dirs_first);
    walk_once(entries, items, dirs_first, dir, height(entries));
    orphans_listed(entries, items, dirs_first, reached);
    let r = reached.len() as int;
    assert forall|i: int, j: int| 0 <= i < j < all.len() implies all[i] != all[j] by {
        if j < r {
            assert(reached[i] != reached[j]);
        } else if i < r {
            assert(tail.contains(tail[j - r]));
            if all[i] == all[j] {
                assert(entries[reached[i] as int].key() == entries[all[j] as int].key());
            }
        } else {
            assert(before(tail[i - r], tail[j - r]));
            path_order(
                entries[tail[i - r] as int].path@,
                entries[tail[j - r] as int].path@,
            );
            sibling_total(entries, dirs_first, tail[i - r], tail[j - r]);
        }
    }
}

/// The rows of a tree are its items: each once, and nothing else. What cannot
/// be reached from `dir` is among them, also where it has no parent.
pub proof fn rows_are_items(
    entries: Seq<FileEntry>,
    items: Seq<usize>,
    dir: Seq<char>,
    dirs_first: bool,
)
    requires
        items.no_duplicates(),
        forall|i: int| 0 <= i < items.len() ==> #[trigger] items[i] < entries.len(),
        distinct_items(entries, items.to_set()),
    ensures
        tree_order(entries, items.to_set(), dir, dirs_first).to_multiset() == items.to_multiset(),
        tree_order(entries, items.to_set(), dir, dirs_first).len() == items.len(),
        tree_order(entries, items.to_set(), dir, dirs_first).no_duplicates(),
{
    let rows = tree_order(entries, items.to_set(), dir, dirs_first);
    nothing_twice(entries, items.to_set(), dir, dirs_first);
    assert forall|x: usize| rows.contains(x) <==> items.contains(x) by {
        if rows.contains(x) {
            let i = choose|i: int| 0 <= i < rows.len() && rows[i] == x;
            only_items_shown(entries, items.to_set(), dir, dirs_first, i);
        }
        if items.contains(x) {
            nothing_dropped(entries, items.to_set(), dir, dirs_first, x);
        }
    }
    same_items(rows, items);
}

/// Two lists without duplicates that hold the same hold it equally often.
pub proof fn same_items<A>(a: Seq<A>, b: Seq<A>)
    requires
        a.no_duplicates(),
        b.no_duplicates(),
        forall|x: A| a.contains(x) <==> b.contains(x),
    ensures
        a.to_multiset() == b.to_multiset(),
        a.len() == b.len(),
{
    a.lemma_multiset_has_no_duplicates();
    b.lemma_multiset_has_no_duplicates();
    a.to_multiset_ensures();
    b.to_multiset_ensures();
    assert forall|x: A| a.to_multiset().count(x) == b.to_multiset().count(x) by {
        assert(a.contains(x) <==> b.contains(x));
    }
    assert(a.to_multiset() =~= b.to_multiset());
}

/// No path has more parts than the height says.
pub proof fn height_bounds(entries: Seq<FileEntry>, i: int)
    requires
        0 <= i < entries.len(),
    ensures
        parts(entries[i].path@).len() <= height(entries),
    decreases entries.len(),
{
    if i < entries.len() - 1 {
        height_bounds(entries.drop_last(), i);
    }
}

/// Folders are shown to the bottom: looking deeper than the height of the
/// entries shows nothing more.
pub proof fn depth_is_enough(
    entries: Seq<FileEntry>,
    items: Set<usize>,
    dirs_first: bool,
    d: Seq<char>,
    depth: nat,
)
    requires
        depth >= height(entries),
    ensures
        walk(entries, items, dirs_first, path_key(d), depth) == walk(
            entries,
            items,
            dirs_first,
            path_key(d),
            height(entries),
        ),
{
    walk_stable(entries, items, dirs_first, d, depth, height(entries));
}

proof fn walk_stable(
    entries: Seq<FileEntry>,
    items: Set<usize>,
    dirs_first: bool,
    d: Seq<char>,
    a: nat,
    b: nat,
)
    requires
        a + parts(d).len() >= height(entries),
        b + parts(d).len() >= height(entries),
    ensures
        walk(entries, items, dirs_first, path_key(d), a) == walk(
            entries,
            items,
            dirs_first,
            path_key(d),
            b,
        ),
    decreases 2 * a, 0nat,
{
    let k = path_key(d);
    let list = kids(entries, items, dirs_first, k);
    kids_listed(entries, items, dirs_first, k);
    assert forall|i: int| 0 <= i < list.len() implies kid_of(
        entries,
        #[trigger] list[i],
        parts(d),
    ) by {
        kid_parts(entries, items, d, list[i]);
    }
    if list.len() > 0 {
        height_bounds(entries, list[0] as int);
    }
    if a > 0 && b > 0 {
        walk_each_stable(entries, items, dirs_first, list, parts(d), a, b);
        assert(walk(entries, items, dirs_first, k, a) == walk_each(
            entries,
            items,
            dirs_first,
            list,
            a,
        ));
        assert(walk(entries, items, dirs_first, k, b) == walk_each(
            entries,
            items,
            dirs_first,
            list,
            b,
        ));
    } else {
        assert(walk(entries, items, dirs_first, k, b) =~= Seq::empty());
    }
}

proof fn walk_each_stable(
    entries: Seq<FileEntry>,
    items: Set<usize>,
    dirs_first: bool,
    list: Seq<usize>,
    d: Seq<Part>,
    a: nat,
    b: nat,
)
    requires
        a > 0,
        b > 0,
        a + d.len() >= height(entries),
        b + d.len() >= height(entries),
        forall|i: int| 0 <= i < list.len() ==> kid_of(entries, #[trigger] list[i], d),
    ensures
        walk_each(entries, items, dirs_first, list, a) == walk_each(
            entries,
            items,
            dirs_first,
            list,
            b,
        ),
    decreases 2 * a - 1, list.len(),
{
    if list.len() > 0 {
        let rest = list.drop_last();
        let last = list.last();
        assert forall|i: int| 0 <= i < rest.len() implies kid_of(entries, #[trigger] rest[i], d) by {
            assert(rest[i] == list[i]);
        }
        walk_each_stable(entries, items, dirs_first, rest, d, a, b);
        let path = entries[last as int].path@;
        walk_stable(entries, items, dirs_first, path, (a - 1) as nat, (b - 1) as nat);
    }
}

/// Whether the row behind the folder at `i` is the first of its kids, if it
/// has any.
pub open spec fn kids_follow(
    entries: Seq<FileEntry>,
    items: Set<usize>,
    dirs_first: bool,
    rows: Seq<usize>,
    i: int,
) -> bool {
    let e = entries[rows[i] as int];
    let list = kids(entries, items, dirs_first, e.key());
    e.is_dir && list.len() > 0 ==> i + 1 < rows.len() && rows[i + 1] == list[0]
}

/// Every folder that is reached is directly followed by what is in it.
pub proof fn folder_then_children(
    entries: Seq<FileEntry>,
    items: Set<usize>,
    dirs_first: bool,
    d: Seq<char>,
    i: int,
)
    requires
        0 <= i < walk(entries, items, dirs_first, path_key(d), height(entries)).len(),
    ensures
        kids_follow(
            entries,
            items,
            dirs_first,
            walk(entries, items, dirs_first, path_key(d), height(entries)),
            i,
        ),
{
    walk_nests(entries, items, dirs_first, d, height(entries));
}

spec fn nests(
    entries: Seq<FileEntry>,
    items: Set<usize>,
    dirs_first: bool,
    rows: Seq<usize>,
) -> bool {
    forall|i: int|
        0 <= i < rows.len() ==> #[trigger] kids_follow(entries, items, dirs_first, rows, i)
}

proof fn walk_nests(
    entries: Seq<FileEntry>,
    items: Set<usize>,
    dirs_first: bool,
    d: Seq<char>,
    depth: nat,
)
    requires
        depth + parts(d).len() >= height(entries),
    ensures
        nests(entries, items, dirs_first, walk(entries, items, dirs_first, path_key(d), depth)),
        kids(entries, items, dirs_first, path_key(d)).len() > 0 ==> {
            &&& walk(entries, items, dirs_first, path_key(d), depth).len() > 0
            &&& walk(entries, items, dirs_first, path_key(d), depth)[0] == kids(
                entries,
                items,
                dirs_first,
                path_key(d),
            )[0]
        },
    decreases 2 * depth, 0nat,
{
    let k = path_key(d);
    let list = kids(entries, items, dirs_first, k);
    kids_listed(entries, items, dirs_first, k);
    assert forall|i: int| 0 <= i < list.len() implies kid_of(
        entries,
        #[trigger] list[i],
        parts(d),
    ) by {
        kid_parts(entries, items, d, list[i]);
    }
    if list.len() > 0 {
        height_bounds(entries, list[0] as int);
    }
    if depth > 0 {
        walk_each_nests(entries, items, dirs_first, list, parts(d), depth);
        assert(walk(entries, items, dirs_first, k, depth) == walk_each(
            entries,
            items,
            dirs_first,
            list,
            depth,
        ));
    }
}

proof fn walk_each_nests(
    entries: Seq<FileEntry>,
    items: Set<usize>,
    dirs_first: bool,
    list: Seq<usize>,
    d: Seq<Part>,
    depth: nat,
)
    requires
        depth > 0,
        depth + d.len() >= height(entries),
        forall|i: int| 0 <= i < list.len() ==> kid_of(entries, #[trigger] list[i], d),
    ensures
        nests(entries, items, dirs_first, walk_each(entries, items, dirs_first, list, depth)),
        list.len() > 0 ==> walk_each(entries, items, dirs_first, list, depth).len() > 0
            && walk_each(entries, items, dirs_first, list, depth)[0] == list[0],
    decreases 2 * depth - 1, list.len(),
{
    if list.len() > 0 {
        let rest = list.drop_last();
        let last = list.last();
        assert forall|i: int| 0 <= i < rest.len() implies kid_of(entries, #[trigger] rest[i], d) by {
            assert(rest[i] == list[i]);
        }
        walk_each_nests(entries, items, dirs_first, rest, d, depth);
        let path = entries[last as int].path@;
        walk_nests(entries, items, dirs_first, path, (depth - 1) as nat);
        let front = walk_each(entries, items, dirs_first, rest, depth);
        let below = if entries[last as int].is_dir {
            walk(entries, items, dirs_first, path_key(path), (depth - 1) as nat)
        } else {
            Seq::empty()
        };
        let all = walk_each(entries, items, dirs_first, list, depth);
        let f = front.len() as int;
        assert forall|i: int| 0 <= i < all.len() implies #[trigger] kids_follow(
            entries,
            items,
            dirs_first,
            all,
            i,
        ) by {
            if i < f {
                assert(kids_follow(entries, items, dirs_first, front, i));
                if i + 1 < f {
                    assert(all[i + 1] == front[i + 1]);
                }
            } else if i == f {
                if below.len() > 0 {
                    assert(all[i + 1] == below[0]);
                }
            } else {
                assert(kids_follow(entries, items, dirs_first, below, i - f - 1));
                if i + 1 < all.len() {
                    assert(all[i + 1] == below[i - f]);
                }
            }
        }
        if rest.len() > 0 {
            assert(all[0] == front[0]);
        } else {
            assert(all[0] == last);
        }
    }
}

} // verus!
