//! What the order of a tree is, said of its rows alone: what hangs below the
//! folder comes first, each folder before what is in it with nothing else in
//! between, siblings in order; the rest follows by path.

use crate::index_model::unique_paths;
use crate::path_laws::{parent_parts, same_key_same_path};
use crate::paths::{parent, parts, path_key, path_less, same_path, under, Part};
use crate::query::{listed_rows, listed_set, listing_depth, ListOptions};
use crate::sort::ordered;
use crate::text::{text_less, text_less_asymmetric, text_less_irreflexive};
use crate::tree::{
    has_place, height, kids, kids_listed, kids_set, orphan_order, orphans_set, sibling_order,
    tree_order, walk, walk_each,
};
use crate::tree_laws::{
    blocks_apart, distinct_items, from_block, height_bounds, in_block, kid_of, kid_parts,
    nothing_twice, orphans_listed, strictly_below, walk_each_once, walk_once,
};
use crate::types::FileEntry;
use vstd::prelude::*;

verus! {

/// Whether the item at `x` hangs below `dir`: it lies directly in it, or in a
/// folder that is an item and hangs below it.
pub open spec fn hangs(entries: Seq<FileEntry>, items: Set<usize>, dir: Seq<char>, x: usize) -> bool
    decreases parts(entries[x as int].path@).len(),
{
    has_place(entries, items, x) && (parent(entries[x as int].path@) matches Some(p) && (same_path(
        p,
        dir,
    ) || exists|y: usize| #[trigger]
        has_place(entries, items, y) && entries[y as int].is_dir && same_path(
            entries[y as int].path@,
            p,
        ) && parts(entries[y as int].path@).len() < parts(entries[x as int].path@).len() && hangs(
            entries,
            items,
            dir,
            y,
        )))
}

/// Whether two entries lie in the same folder.
pub open spec fn share_folder(a: FileEntry, b: FileEntry) -> bool {
    parent(a.path@) matches Some(p) && parent(b.path@) matches Some(q) && same_path(p, q)
}

/// Whether two siblings stand in the right order: no folder after a file where
/// folders come first, and otherwise by lowercase name.
pub open spec fn siblings_in_order(a: FileEntry, b: FileEntry, dirs_first: bool) -> bool {
    &&& dirs_first ==> !(b.is_dir && !a.is_dir)
    &&& !dirs_first || a.is_dir == b.is_dir ==> !text_less(b.name_lower@, a.name_lower@)
}

// ---------------------------------------------------------------------
// What is reached

/// A listed item is among the rows made of the list.
proof fn each_is_shown(
    entries: Seq<FileEntry>,
    items: Set<usize>,
    dirs_first: bool,
    list: Seq<usize>,
    depth: nat,
    i: int,
)
    requires
        depth > 0,
        0 <= i < list.len(),
    ensures
        walk_each(entries, items, dirs_first, list, depth).contains(list[i]),
    decreases list.len(),
{
    let rest = list.drop_last();
    let front = walk_each(entries, items, dirs_first, rest, depth);
    let all = walk_each(entries, items, dirs_first, list, depth);
    if i < rest.len() {
        each_is_shown(entries, items, dirs_first, rest, depth, i);
        let k = choose|k: int| 0 <= k < front.len() && front[k] == rest[i];
        assert(all[k] == list[i]);
    } else {
        assert(all[front.len() as int] == list[i]);
    }
}

/// What lies directly in a folder is reached from it.
proof fn kids_are_reached(
    entries: Seq<FileEntry>,
    items: Set<usize>,
    dirs_first: bool,
    d: Seq<char>,
    depth: nat,
    x: usize,
)
    requires
        depth + parts(d).len() >= height(entries),
        kids_set(entries, items, path_key(d)).contains(x),
    ensures
        walk(entries, items, dirs_first, path_key(d), depth).contains(x),
{
    let list = kids(entries, items, dirs_first, path_key(d));
    kids_listed(entries, items, dirs_first, path_key(d));
    kid_parts(entries, items, d, x);
    height_bounds(entries, x as int);
    assert(list.contains(x));
    let i = choose|i: int| 0 <= i < list.len() && list[i] == x;
    each_is_shown(entries, items, dirs_first, list, depth, i);
}

/// What lies in a folder that is reached is reached.
proof fn below_is_reached(
    entries: Seq<FileEntry>,
    items: Set<usize>,
    dirs_first: bool,
    d: Seq<char>,
    depth: nat,
    y: usize,
    x: usize,
)
    requires
        depth + parts(d).len() >= height(entries),
        walk(entries, items, dirs_first, path_key(d), depth).contains(y),
        entries[y as int].is_dir,
        kids_set(entries, items, entries[y as int].key()).contains(x),
    ensures
        walk(entries, items, dirs_first, path_key(d), depth).contains(x),
    decreases 2 * depth, 0nat,
{
    let list = kids(entries, items, dirs_first, path_key(d));
    kids_listed(entries, items, dirs_first, path_key(d));
    assert forall|i: int| 0 <= i < list.len() implies kid_of(
        entries,
        #[trigger] list[i],
        parts(d),
    ) by {
        kid_parts(entries, items, d, list[i]);
    }
    if depth > 0 {
        each_below_is_reached(entries, items, dirs_first, list, parts(d), depth, y, x);
    }
}

proof fn each_below_is_reached(
    entries: Seq<FileEntry>,
    items: Set<usize>,
    dirs_first: bool,
    list: Seq<usize>,
    d: Seq<Part>,
    depth: nat,
    y: usize,
    x: usize,
)
    requires
        depth > 0,
        depth + d.len() >= height(entries),
        forall|i: int| 0 <= i < list.len() ==> kid_of(entries, #[trigger] list[i], d),
        walk_each(entries, items, dirs_first, list, depth).contains(y),
        entries[y as int].is_dir,
        kids_set(entries, items, entries[y as int].key()).contains(x),
    ensures
        walk_each(entries, items, dirs_first, list, depth).contains(x),
    decreases 2 * depth - 1, list.len(),
{
    if list.len() > 0 {
        let rest = list.drop_last();
        let last = list.last();
        assert(kid_of(entries, list[list.len() - 1], d));
        assert forall|i: int| 0 <= i < rest.len() implies kid_of(entries, #[trigger] rest[i], d) by {
            assert(rest[i] == list[i]);
        }
        let path = entries[last as int].path@;
        let front = walk_each(entries, items, dirs_first, rest, depth);
        let below = if entries[last as int].is_dir {
            walk(entries, items, dirs_first, path_key(path), (depth - 1) as nat)
        } else {
            Seq::empty()
        };
        let all = walk_each(entries, items, dirs_first, list, depth);
        let f = front.len() as int;
        let k = choose|k: int| 0 <= k < all.len() && all[k] == y;
        if k < f {
            assert(front[k] == y);
            each_below_is_reached(entries, items, dirs_first, rest, d, depth, y, x);
            let m = choose|m: int| 0 <= m < front.len() && front[m] == x;
            assert(all[m] == x);
        } else {
            if k == f {
                kids_are_reached(entries, items, dirs_first, path, (depth - 1) as nat, x);
            } else {
                assert(below[k - f - 1] == y);
                below_is_reached(entries, items, dirs_first, path, (depth - 1) as nat, y, x);
            }
            let m = choose|m: int| 0 <= m < below.len() && below[m] == x;
            assert(all[f + 1 + m] == x);
        }
    }
}

/// What hangs below a folder is reached from it.
pub proof fn hanging_is_reached(
    entries: Seq<FileEntry>,
    items: Set<usize>,
    dirs_first: bool,
    d: Seq<char>,
    depth: nat,
    x: usize,
)
    requires
        depth + parts(d).len() >= height(entries),
        hangs(entries, items, d, x),
    ensures
        walk(entries, items, dirs_first, path_key(d), depth).contains(x),
    decreases parts(entries[x as int].path@).len(),
{
    let p = parent(entries[x as int].path@).unwrap();
    same_key_same_path(p, d);
    if same_path(p, d) {
        kids_are_reached(entries, items, dirs_first, d, depth, x);
    } else {
        let y = choose|y: usize| #[trigger]
            has_place(entries, items, y) && entries[y as int].is_dir && same_path(
                entries[y as int].path@,
                p,
            ) && parts(entries[y as int].path@).len() < parts(entries[x as int].path@).len()
                && hangs(entries, items, d, y);
        hanging_is_reached(entries, items, dirs_first, d, depth, y);
        same_key_same_path(p, entries[y as int].path@);
        below_is_reached(entries, items, dirs_first, d, depth, y, x);
    }
}

/// Whether what lies directly in `d` hangs below `dir`.
pub open spec fn is_home(entries: Seq<FileEntry>, items: Set<usize>, dir: Seq<char>, d: Seq<char>) -> bool {
    same_path(d, dir) || exists|y: usize| #[trigger]
        has_place(entries, items, y) && entries[y as int].is_dir && same_path(
            entries[y as int].path@,
            d,
        ) && hangs(entries, items, dir, y)
}

/// What is reached hangs below the folder.
pub proof fn reached_hangs(
    entries: Seq<FileEntry>,
    items: Set<usize>,
    dirs_first: bool,
    dir: Seq<char>,
    d: Seq<char>,
    depth: nat,
)
    requires
        is_home(entries, items, dir, d),
    ensures
        forall|i: int|
            0 <= i < walk(entries, items, dirs_first, path_key(d), depth).len() ==> hangs(
                entries,
                items,
                dir,
                #[trigger] walk(entries, items, dirs_first, path_key(d), depth)[i],
            ),
    decreases 2 * depth, 0nat,
{
    if depth > 0 {
        let list = kids(entries, items, dirs_first, path_key(d));
        kids_listed(entries, items, dirs_first, path_key(d));
        assert forall|i: int| 0 <= i < list.len() implies hangs(
            entries,
            items,
            dir,
            #[trigger] list[i],
        ) by {
            let x = list[i];
            let p = parent(entries[x as int].path@).unwrap();
            same_key_same_path(p, d);
            parent_parts(entries[x as int].path@);
            if !same_path(d, dir) {
                let y = choose|y: usize| #[trigger]
                    has_place(entries, items, y) && entries[y as int].is_dir && same_path(
                        entries[y as int].path@,
                        d,
                    ) && hangs(entries, items, dir, y);
                assert(has_place(entries, items, y));
            }
        }
        each_reached_hangs(entries, items, dirs_first, dir, list, depth);
        assert(walk(entries, items, dirs_first, path_key(d), depth) == walk_each(
            entries,
            items,
            dirs_first,
            list,
            depth,
        ));
    }
}

proof fn each_reached_hangs(
    entries: Seq<FileEntry>,
    items: Set<usize>,
    dirs_first: bool,
    dir: Seq<char>,
    list: Seq<usize>,
    depth: nat,
)
    requires
        forall|i: int| 0 <= i < list.len() ==> hangs(entries, items, dir, #[trigger] list[i]),
    ensures
        forall|i: int|
            0 <= i < walk_each(entries, items, dirs_first, list, depth).len() ==> hangs(
                entries,
                items,
                dir,
                #[trigger] walk_each(entries, items, dirs_first, list, depth)[i],
            ),
    decreases 2 * depth - 1, list.len(),
{
    if list.len() > 0 && depth > 0 {
        let rest = list.drop_last();
        let last = list.last();
        assert(hangs(entries, items, dir, list[list.len() - 1]));
        assert forall|i: int| 0 <= i < rest.len() implies hangs(
            entries,
            items,
            dir,
            #[trigger] rest[i],
        ) by {
            assert(rest[i] == list[i]);
        }
        each_reached_hangs(entries, items, dirs_first, dir, rest, depth);
        let path = entries[last as int].path@;
        let front = walk_each(entries, items, dirs_first, rest, depth);
        let all = walk_each(entries, items, dirs_first, list, depth);
        if entries[last as int].is_dir {
            assert(has_place(entries, items, last));
            reached_hangs(entries, items, dirs_first, dir, path, (depth - 1) as nat);
        }
        let below = if entries[last as int].is_dir {
            walk(entries, items, dirs_first, path_key(path), (depth - 1) as nat)
        } else {
            Seq::empty()
        };
        let f = front.len() as int;
        assert forall|i: int| 0 <= i < all.len() implies hangs(
            entries,
            items,
            dir,
            #[trigger] all[i],
        ) by {
            if i < f {
                assert(all[i] == front[i]);
            } else if i > f {
                assert(all[i] == below[i - f - 1]);
            }
        }
    }
}

// ---------------------------------------------------------------------
// The order of what is reached

/// Whether the entry lies directly in the folder with the parts `d`.
spec fn lies_in(e: FileEntry, d: Seq<Part>) -> bool {
    parent(e.path@) matches Some(p) && parts(p) == d
}

spec fn siblings_sorted(entries: Seq<FileEntry>, dirs_first: bool, rows: Seq<usize>) -> bool {
    forall|i: int, j: int|
        0 <= i < j < rows.len() && share_folder(
            entries[#[trigger] rows[i] as int],
            entries[#[trigger] rows[j] as int],
        ) ==> sibling_order(entries, dirs_first)(rows[i], rows[j])
}

spec fn follows_folder(entries: Seq<FileEntry>, rows: Seq<usize>, k: int, d: Seq<Part>) -> bool {
    lies_in(entries[rows[k] as int], d) || exists|i: int|
        0 <= i < k && entries[#[trigger] rows[i] as int].is_dir && lies_in(
            entries[rows[k] as int],
            parts(entries[rows[i] as int].path@),
        )
}

spec fn blocks_whole(entries: Seq<FileEntry>, rows: Seq<usize>) -> bool {
    forall|i: int, j: int, k: int|
        0 <= i < j < k < rows.len() && under(
            entries[#[trigger] rows[k] as int].path@,
            entries[#[trigger] rows[i] as int].path@,
        ) ==> under(entries[#[trigger] rows[j] as int].path@, entries[rows[i] as int].path@)
}

spec fn is_pre_order(
    entries: Seq<FileEntry>,
    dirs_first: bool,
    rows: Seq<usize>,
    d: Seq<Part>,
) -> bool {
    &&& siblings_sorted(entries, dirs_first, rows)
    &&& forall|k: int| 0 <= k < rows.len() ==> #[trigger] follows_folder(entries, rows, k, d)
    &&& blocks_whole(entries, rows)
}

proof fn walk_is_pre_order(
    entries: Seq<FileEntry>,
    items: Set<usize>,
    dirs_first: bool,
    d: Seq<char>,
    depth: nat,
)
    requires
        distinct_items(entries, items),
    ensures
        is_pre_order(
            entries,
            dirs_first,
            walk(entries, items, dirs_first, path_key(d), depth),
            parts(d),
        ),
    decreases 2 * depth, 0nat,
{
    if depth > 0 {
        let list = kids(entries, items, dirs_first, path_key(d));
        kids_listed(entries, items, dirs_first, path_key(d));
        assert forall|i: int| 0 <= i < list.len() implies is_kid(
            entries,
            items,
            #[trigger] list[i],
            parts(d),
        ) by {
            kid_parts(entries, items, d, list[i]);
            same_key_same_path(parent(entries[list[i] as int].path@).unwrap(), d);
        }
        assert(list.no_duplicates()) by {
            let before = sibling_order(entries, dirs_first);
            assert forall|i: int, j: int| 0 <= i < j < list.len() implies list[i] != list[j] by {
                assert(before(list[i], list[j]));
                crate::tree::sibling_total(entries, dirs_first, list[i], list[j]);
            }
        }
        each_is_pre_order(entries, items, dirs_first, list, parts(d), depth);
        assert(walk(entries, items, dirs_first, path_key(d), depth) == walk_each(
            entries,
            items,
            dirs_first,
            list,
            depth,
        ));
    }
}

/// What is known of the rows before the last of some kids and of those below
/// it.
spec fn are_pieces(
    entries: Seq<FileEntry>,
    items: Set<usize>,
    list: Seq<usize>,
    d: Seq<Part>,
    front: Seq<usize>,
    below: Seq<usize>,
) -> bool {
    let rest = list.drop_last();
    &&& list.len() > 0
    &&& list.no_duplicates()
    &&& distinct_items(entries, items)
    &&& forall|i: int| 0 <= i < list.len() ==> is_kid(entries, items, #[trigger] list[i], d)
    &&& forall|i: int| 0 <= i < front.len() ==> is_before(entries, items, rest, #[trigger] front[i])
    &&& forall|i: int|
        0 <= i < below.len() ==> strictly_below(
            entries,
            #[trigger] below[i],
            parts(entries[list.last() as int].path@),
        )
    &&& below.len() > 0 ==> entries[list.last() as int].is_dir
}

spec fn is_kid(entries: Seq<FileEntry>, items: Set<usize>, x: usize, d: Seq<Part>) -> bool {
    kid_of(entries, x, d) && lies_in(entries[x as int], d) && items.contains(x)
}

spec fn is_before(
    entries: Seq<FileEntry>,
    items: Set<usize>,
    rest: Seq<usize>,
    x: usize,
) -> bool {
    has_place(entries, items, x) && from_block(entries, rest, x)
}

/// A row before the last block lies in the block of one of the other kids, and
/// so not in the last.
proof fn not_in_last(
    entries: Seq<FileEntry>,
    items: Set<usize>,
    list: Seq<usize>,
    d: Seq<Part>,
    front: Seq<usize>,
    below: Seq<usize>,
    i: int,
) -> (m: int)
    requires
        are_pieces(entries, items, list, d, front, below),
        0 <= i < front.len(),
    ensures
        0 <= m < list.len() - 1,
        in_block(entries, list[m], front[i]),
        !in_block(entries, list.last(), front[i]),
        has_place(entries, items, front[i]),
{
    let rest = list.drop_last();
    let n = list.len() - 1;
    assert(is_before(entries, items, rest, front[i]));
    let m = choose|m: int| 0 <= m < rest.len() && in_block(entries, #[trigger] rest[m], front[i]);
    assert(rest[m] == list[m]);
    if in_block(entries, list.last(), front[i]) {
        assert(is_kid(entries, items, list[m], d) && is_kid(entries, items, list[n], d));
        blocks_apart(entries, items, list[m], list[n], front[i], d);
    }
    m
}

proof fn join_siblings(
    entries: Seq<FileEntry>,
    items: Set<usize>,
    dirs_first: bool,
    list: Seq<usize>,
    d: Seq<Part>,
    front: Seq<usize>,
    below: Seq<usize>,
)
    requires
        are_pieces(entries, items, list, d, front, below),
        crate::sort::ascending(list, sibling_order(entries, dirs_first)),
        siblings_sorted(entries, dirs_first, front),
        siblings_sorted(entries, dirs_first, below),
    ensures
        siblings_sorted(entries, dirs_first, front.push(list.last()) + below),
{
    let before = sibling_order(entries, dirs_first);
    let n = list.len() - 1;
    let last = list.last();
    let all = front.push(last) + below;
    let f = front.len() as int;
    let path = entries[last as int].path@;
    assert(is_kid(entries, items, list[n], d));
    assert forall|i: int, j: int|
        0 <= i < j < all.len() && share_folder(
            entries[#[trigger] all[i] as int],
            entries[#[trigger] all[j] as int],
        ) implies before(all[i], all[j]) by {
        let x = entries[all[i] as int];
        let y = entries[all[j] as int];
        parent_parts(x.path@);
        parent_parts(y.path@);
        if j < f {
            assert(all[i] == front[i] && all[j] == front[j]);
        } else if i < f {
            assert(all[i] == front[i]);
            let m = not_in_last(entries, items, list, d, front, below, i);
            assert(is_kid(entries, items, list[m], d));
            if j == f {
                // Both lie directly in the folder.
                assert(parts(x.path@) =~= parts(entries[list[m] as int].path@));
                assert(entries[list[m] as int].key() == x.key());
                assert(has_place(entries, items, list[m]));
                assert(list[m] == all[i]);
                assert(before(list[m], list[n]));
            } else {
                assert(all[j] == below[j - f - 1]);
                let c = parts(path).len() as int;
                assert(parts(path) =~= parts(y.path@).subrange(0, c));
                assert(parts(x.path@).subrange(0, c) =~= parts(y.path@).drop_last().subrange(0, c));
                assert(parts(y.path@).drop_last().subrange(0, c) =~= parts(path));
                assert(in_block(entries, last, front[i]));
            }
        } else if i == f {
            assert(all[j] == below[j - f - 1]);
            assert(parts(y.path@).len() > parts(path).len());
        } else {
            assert(all[i] == below[i - f - 1] && all[j] == below[j - f - 1]);
        }
    }
}

proof fn join_follows(
    entries: Seq<FileEntry>,
    items: Set<usize>,
    list: Seq<usize>,
    d: Seq<Part>,
    front: Seq<usize>,
    below: Seq<usize>,
    k: int,
)
    requires
        are_pieces(entries, items, list, d, front, below),
        forall|k: int| 0 <= k < front.len() ==> #[trigger] follows_folder(entries, front, k, d),
        forall|k: int|
            0 <= k < below.len() ==> #[trigger] follows_folder(
                entries,
                below,
                k,
                parts(entries[list.last() as int].path@),
            ),
        0 <= k < front.len() + 1 + below.len(),
    ensures
        follows_folder(entries, front.push(list.last()) + below, k, d),
{
    let last = list.last();
    let all = front.push(last) + below;
    let f = front.len() as int;
    let path = entries[last as int].path@;
    assert(is_kid(entries, items, list[list.len() - 1], d));
    if k < f {
        assert(all[k] == front[k]);
        assert(follows_folder(entries, front, k, d));
        if !lies_in(entries[front[k] as int], d) {
            let i = choose|i: int|
                0 <= i < k && entries[#[trigger] front[i] as int].is_dir && lies_in(
                    entries[front[k] as int],
                    parts(entries[front[i] as int].path@),
                );
            assert(all[i] == front[i]);
        }
    } else if k > f {
        assert(follows_folder(entries, below, k - f - 1, parts(path)));
        assert(all[k] == below[k - f - 1]);
        if lies_in(entries[all[k] as int], parts(path)) {
            assert(entries[all[f] as int].is_dir);
        } else {
            let i = choose|i: int|
                0 <= i < k - f - 1 && entries[#[trigger] below[i] as int].is_dir && lies_in(
                    entries[below[k - f - 1] as int],
                    parts(entries[below[i] as int].path@),
                );
            assert(all[f + 1 + i] == below[i]);
        }
    }
}

proof fn join_blocks(
    entries: Seq<FileEntry>,
    items: Set<usize>,
    list: Seq<usize>,
    d: Seq<Part>,
    front: Seq<usize>,
    below: Seq<usize>,
)
    requires
        are_pieces(entries, items, list, d, front, below),
        blocks_whole(entries, front),
        blocks_whole(entries, below),
    ensures
        blocks_whole(entries, front.push(list.last()) + below),
{
    let n = list.len() - 1;
    let last = list.last();
    let all = front.push(last) + below;
    let f = front.len() as int;
    let path = entries[last as int].path@;
    assert(is_kid(entries, items, list[n], d));
    assert forall|i: int, j: int, k: int|
        0 <= i < j < k < all.len() && under(
            entries[#[trigger] all[k] as int].path@,
            entries[#[trigger] all[i] as int].path@,
        ) implies under(entries[#[trigger] all[j] as int].path@, entries[all[i] as int].path@) by {
        let x = parts(entries[all[i] as int].path@);
        let z = parts(entries[all[k] as int].path@);
        if k < f {
            assert(all[i] == front[i] && all[j] == front[j] && all[k] == front[k]);
        } else if i < f {
            assert(all[i] == front[i]);
            let m = not_in_last(entries, items, list, d, front, below, i);
            assert(is_kid(entries, items, list[m], d));
            let y = parts(entries[list[m] as int].path@);
            assert(y =~= x.subrange(0, y.len() as int));
            assert(x =~= z.subrange(0, x.len() as int));
            assert(y =~= z.subrange(0, y.len() as int));
            assert(in_block(entries, last, all[k])) by {
                if k == f {
                    assert(parts(path) =~= parts(path).subrange(0, parts(path).len() as int));
                } else {
                    assert(all[k] == below[k - f - 1]);
                }
            }
            blocks_apart(entries, items, list[m], list[n], all[k], d);
            assert(list[m] == list[n]);
        } else if i == f {
            assert(all[j] == below[j - f - 1]);
        } else {
            assert(all[i] == below[i - f - 1] && all[j] == below[j - f - 1] && all[k] == below[k - f
                - 1]);
        }
    }
}

proof fn each_is_pre_order(
    entries: Seq<FileEntry>,
    items: Set<usize>,
    dirs_first: bool,
    list: Seq<usize>,
    d: Seq<Part>,
    depth: nat,
)
    requires
        distinct_items(entries, items),
        list.no_duplicates(),
        crate::sort::ascending(list, sibling_order(entries, dirs_first)),
        forall|i: int| 0 <= i < list.len() ==> is_kid(entries, items, #[trigger] list[i], d),
    ensures
        is_pre_order(
            entries,
            dirs_first,
            walk_each(entries, items, dirs_first, list, depth),
            d,
        ),
    decreases 2 * depth - 1, list.len(),
{
    if list.len() > 0 && depth > 0 {
        let before = sibling_order(entries, dirs_first);
        let rest = list.drop_last();
        let last = list.last();
        let n = list.len() - 1;
        assert(is_kid(entries, items, list[n], d));
        assert forall|i: int| 0 <= i < rest.len() implies is_kid(
            entries,
            items,
            #[trigger] rest[i],
            d,
        ) by {
            assert(rest[i] == list[i]);
        }
        assert forall|i: int, j: int| 0 <= i < j < rest.len() implies #[trigger] before(
            rest[i],
            rest[j],
        ) by {
            assert(before(list[i], list[j]));
        }
        each_is_pre_order(entries, items, dirs_first, rest, d, depth);
        let path = entries[last as int].path@;
        let front = walk_each(entries, items, dirs_first, rest, depth);
        let below = if entries[last as int].is_dir {
            walk_is_pre_order(entries, items, dirs_first, path, (depth - 1) as nat);
            walk_once(entries, items, dirs_first, path, (depth - 1) as nat);
            walk(entries, items, dirs_first, path_key(path), (depth - 1) as nat)
        } else {
            Seq::empty()
        };
        assert forall|i: int| 0 <= i < rest.len() implies items.contains(#[trigger] rest[i])
            && kid_of(entries, rest[i], d) && has_place(entries, items, rest[i]) by {
            assert(is_kid(entries, items, rest[i], d));
        }
        walk_each_once(entries, items, dirs_first, rest, d, depth);
        crate::tree::walk_each_members(entries, items, dirs_first, rest, depth);
        let all = walk_each(entries, items, dirs_first, list, depth);
        assert(all =~= front.push(last) + below);
        assert(are_pieces(entries, items, list, d, front, below));
        join_siblings(entries, items, dirs_first, list, d, front, below);
        join_blocks(entries, items, list, d, front, below);
        assert forall|k: int| 0 <= k < all.len() implies #[trigger] follows_folder(
            entries,
            all,
            k,
            d,
        ) by {
            join_follows(entries, items, list, d, front, below, k);
        }
    }
}

// ---------------------------------------------------------------------
// The rows of a tree

/// The rows that are reached are those that hang below the folder.
pub proof fn reached_rows(
    entries: Seq<FileEntry>,
    items: Set<usize>,
    dir: Seq<char>,
    dirs_first: bool,
    i: int,
)
    requires
        distinct_items(entries, items),
        0 <= i < tree_order(entries, items, dir, dirs_first).len(),
    ensures
        ({
            let rows = tree_order(entries, items, dir, dirs_first);
            let reached = walk(entries, items, dirs_first, path_key(dir), height(entries));
            &&& i < reached.len() <==> hangs(entries, items, dir, rows[i])
            &&& i < reached.len() ==> rows[i] == reached[i]
        }),
{
    let rows = tree_order(entries, items, dir, dirs_first);
    let reached = walk(entries, items, dirs_first, path_key(dir), height(entries));
    nothing_twice(entries, items, dir, dirs_first);
    reached_hangs(entries, items, dirs_first, dir, dir, height(entries));
    if i < reached.len() {
        assert(rows[i] == reached[i]);
    } else if hangs(entries, items, dir, rows[i]) {
        hanging_is_reached(entries, items, dirs_first, dir, height(entries), rows[i]);
        let k = choose|k: int| 0 <= k < reached.len() && reached[k] == rows[i];
        assert(rows[k] == rows[i]);
    }
}

/// Of two rows the earlier stands right: what hangs below the folder before
/// what does not; siblings that hang folders first where wanted and by
/// lowercase name; what does not hang by path.
pub proof fn rows_stand_in_order(
    entries: Seq<FileEntry>,
    items: Set<usize>,
    dir: Seq<char>,
    dirs_first: bool,
    i: int,
    j: int,
)
    requires
        distinct_items(entries, items),
        0 <= i < j < tree_order(entries, items, dir, dirs_first).len(),
    ensures
        ({
            let rows = tree_order(entries, items, dir, dirs_first);
            let a = entries[rows[i] as int];
            let b = entries[rows[j] as int];
            &&& hangs(entries, items, dir, rows[j]) ==> hangs(entries, items, dir, rows[i])
            &&& hangs(entries, items, dir, rows[j]) && share_folder(a, b) ==> siblings_in_order(
                a,
                b,
                dirs_first,
            )
            &&& !hangs(entries, items, dir, rows[i]) ==> path_less(a.path@, b.path@)
        }),
{
    let rows = tree_order(entries, items, dir, dirs_first);
    let reached = walk(entries, items, dirs_first, path_key(dir), height(entries));
    let tail = ordered(
        orphans_set(entries, items, reached),
        orphan_order(entries, dirs_first),
    );
    let a = entries[rows[i] as int];
    let b = entries[rows[j] as int];
    reached_rows(entries, items, dir, dirs_first, i);
    reached_rows(entries, items, dir, dirs_first, j);
    walk_is_pre_order(entries, items, dirs_first, dir, height(entries));
    text_less_asymmetric(a.name_lower@, b.name_lower@);
    text_less_irreflexive(a.name_lower@);
    let r = reached.len() as int;
    if j < r {
        if share_folder(a, b) {
            assert(rows[i] == reached[i] && rows[j] == reached[j]);
            assert(sibling_order(entries, dirs_first)(reached[i], reached[j]));
        }
    } else if i >= r {
        orphans_listed(entries, items, dirs_first, reached);
        assert(orphan_order(entries, dirs_first)(tail[i - r], tail[j - r]));
        assert(tail.contains(tail[i - r]) && tail.contains(tail[j - r]));
        if same_path(a.path@, b.path@) {
            same_key_same_path(a.path@, b.path@);
            nothing_twice(entries, items, dir, dirs_first);
            assert(has_place(entries, items, rows[i]) && has_place(entries, items, rows[j]));
            assert(a.key() == b.key());
        }
    }
}

/// A folder stands before what is in it: a row that hangs below the folder
/// lies directly in it or in a folder that stands before the row.
pub proof fn folders_stand_before_contents(
    entries: Seq<FileEntry>,
    items: Set<usize>,
    dir: Seq<char>,
    dirs_first: bool,
    k: int,
)
    requires
        distinct_items(entries, items),
        0 <= k < tree_order(entries, items, dir, dirs_first).len(),
        hangs(entries, items, dir, tree_order(entries, items, dir, dirs_first)[k]),
    ensures
        ({
            let rows = tree_order(entries, items, dir, dirs_first);
            let p = parent(entries[rows[k] as int].path@).unwrap();
            same_path(p, dir) || exists|i: int|
                0 <= i < k && entries[#[trigger] rows[i] as int].is_dir && same_path(
                    entries[rows[i] as int].path@,
                    p,
                )
        }),
{
    let rows = tree_order(entries, items, dir, dirs_first);
    let reached = walk(entries, items, dirs_first, path_key(dir), height(entries));
    reached_rows(entries, items, dir, dirs_first, k);
    walk_is_pre_order(entries, items, dirs_first, dir, height(entries));
    assert(follows_folder(entries, reached, k, parts(dir)));
    if !lies_in(entries[reached[k] as int], parts(dir)) {
        let i = choose|i: int|
            0 <= i < k && entries[#[trigger] reached[i] as int].is_dir && lies_in(
                entries[reached[k] as int],
                parts(entries[reached[i] as int].path@),
            );
        assert(rows[i] == reached[i]);
    }
}

/// Nothing else stands between a folder and what is below it.
pub proof fn folders_stand_with_contents(
    entries: Seq<FileEntry>,
    items: Set<usize>,
    dir: Seq<char>,
    dirs_first: bool,
    i: int,
    j: int,
    k: int,
)
    requires
        distinct_items(entries, items),
        0 <= i < j < k < tree_order(entries, items, dir, dirs_first).len(),
        hangs(entries, items, dir, tree_order(entries, items, dir, dirs_first)[k]),
        under(
            entries[tree_order(entries, items, dir, dirs_first)[k] as int].path@,
            entries[tree_order(entries, items, dir, dirs_first)[i] as int].path@,
        ),
    ensures
        under(
            entries[tree_order(entries, items, dir, dirs_first)[j] as int].path@,
            entries[tree_order(entries, items, dir, dirs_first)[i] as int].path@,
        ),
{
    let rows = tree_order(entries, items, dir, dirs_first);
    let reached = walk(entries, items, dirs_first, path_key(dir), height(entries));
    reached_rows(entries, items, dir, dirs_first, i);
    reached_rows(entries, items, dir, dirs_first, j);
    reached_rows(entries, items, dir, dirs_first, k);
    walk_is_pre_order(entries, items, dirs_first, dir, height(entries));
    assert(rows[i] == reached[i] && rows[j] == reached[j] && rows[k] == reached[k]);
}

/// Of two rows of a listing that lie in the same folder, reached from the
/// listed one, the earlier is no file before a folder where folders come
/// first, and where the kinds agree or do not matter its lowercase name is not
/// the greater.
pub proof fn listed_siblings_stand_in_order(
    entries: Seq<FileEntry>,
    dir: Seq<char>,
    opts: ListOptions,
    i: int,
    j: int,
)
    requires
        unique_paths(entries),
        0 <= i < j < listed_rows(entries, dir, opts).len(),
        ({
            let rows = listed_rows(entries, dir, opts);
            let a = entries[rows[i] as int];
            let b = entries[rows[j] as int];
            share_folder(a, b) && (same_path(parent(a.path@).unwrap(), dir) || hangs(
                entries,
                listed_set(entries, dir, listing_depth(opts)),
                dir,
                rows[j],
            ))
        }),
    ensures
        ({
            let rows = listed_rows(entries, dir, opts);
            let a = entries[rows[i] as int];
            let b = entries[rows[j] as int];
            &&& opts.dirs_first ==> !(b.is_dir && !a.is_dir)
            &&& !opts.dirs_first || a.is_dir == b.is_dir ==> !text_less(
                b.name_lower@,
                a.name_lower@,
            )
        }),
{
    let items = listed_set(entries, dir, listing_depth(opts));
    let rows = listed_rows(entries, dir, opts);
    crate::tree_laws::unique_items(entries, items);
    crate::tree_laws::only_items_shown(entries, items, dir, opts.dirs_first, j);
    rows_stand_in_order(entries, items, dir, opts.dirs_first, i, j);
}

} // verus!
