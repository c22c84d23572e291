//! How the quick look at the first layer of a tree relates to a full scan.

use crate::index_model::unique_paths;
use crate::scanner::{keeps, left_out, ReadChild, ScanOptions};
use crate::shallow::{shallow_state, ShallowItem, ShallowState};
use crate::types::{entry_at, Entry, FileEntry};
use crate::walk::{item_entry, run_state, shown_mtime, shown_size, undisturbed, ScanState, WalkItem};
use vstd::prelude::*;

verus! {

/// Whether `e` is the entry of what the walk found. The walk does not look up
/// the attributes.
pub open spec fn entry_of_item(e: FileEntry, item: WalkItem) -> bool {
    item matches WalkItem::Found { path, is_dir, meta } && meta matches Some(m) && m.is_dir
        == is_dir && e@ == entry_at(path@, is_dir, shown_size(m), shown_mtime(m), e@.attributes)
}

/// Whether a quick look and a walk came across the same child: both could
/// read it or neither, and saw the same name, kind and values.
pub open spec fn same_child(c: ShallowItem, read: ReadChild, item: WalkItem) -> bool {
    match c {
        ShallowItem::Failed => !read.readable && item is Failed,
        ShallowItem::Child { name, kind, link_is_dir, entry } => match kind {
            None => !read.readable && item is Failed,
            Some(k) => {
                &&& read.readable
                &&& read.is_dir == k.is_dir
                &&& read.name@ == name@
                &&& !(k.is_symlink && link_is_dir)
                &&& match entry {
                    Some(e) => entry_of_item(e, item),
                    None => item matches WalkItem::Found { meta, .. } && meta is None,
                }
            },
        },
    }
}

/// What a walk of depth one comes across below its root: the children that
/// are not left out.
pub open spec fn kept_items(
    opts: ScanOptions,
    read: Seq<ReadChild>,
    items: Seq<WalkItem>,
) -> Seq<WalkItem>
    decreases read.len(),
{
    if read.len() == 0 || items.len() == 0 {
        Seq::empty()
    } else {
        let front = kept_items(opts, read.drop_last(), items.drop_last());
        if keeps(opts, read.last()) {
            front.push(items.last())
        } else {
            front
        }
    }
}

/// An entry without its attributes.
pub open spec fn unattributed(e: Entry) -> Entry {
    Entry { attributes: 0, ..e }
}

/// Whether a quick look and a walk found and counted the same.
pub open spec fn same_results(s: ShallowState, w: ScanState) -> bool {
    &&& s.out.len() == w.out.len()
    &&& forall|i: int| 0 <= i < s.out.len() ==> unattributed((#[trigger] s.out[i])@) == w.out[i]
    &&& s.files == w.files
    &&& s.dirs == w.dirs
    &&& s.errors == w.errors
}

/// A shallow scan shows what a scan of depth one shows: of the same children,
/// read the same way, both find the same entries in the same order and count
/// the same files, folders, errors and left-out folders. (Attributes are
/// looked up by the shallow scan only.)
pub proof fn shallow_is_depth_one(
    root: FileEntry,
    root_item: WalkItem,
    children: Seq<ShallowItem>,
    read: Seq<ReadChild>,
    items: Seq<WalkItem>,
    opts: ScanOptions,
)
    requires
        entry_of_item(root, root_item),
        read.len() == children.len(),
        items.len() == children.len(),
        forall|i: int|
            0 <= i < children.len() ==> same_child(#[trigger] children[i], read[i], items[i]),
    ensures
        same_results(
            shallow_state(Some(root), children, opts),
            run_state(seq![root_item] + kept_items(opts, read, items), Seq::empty()),
        ),
        shallow_state(Some(root), children, opts).skipped == left_out(opts, read),
    decreases children.len(),
{
    let kept = kept_items(opts, read, items);
    let all = seq![root_item] + kept;
    undisturbed(all);
    if children.len() == 0 {
        assert(all =~= seq![root_item]);
        assert(all.drop_last() =~= Seq::empty());
        undisturbed(all.drop_last());
        assert(run_state(all.drop_last(), Seq::empty()).out =~= Seq::empty());
    } else {
        let n = children.len() - 1;
        assert forall|i: int| 0 <= i < n implies same_child(
            #[trigger] children.drop_last()[i],
            read.drop_last()[i],
            items.drop_last()[i],
        ) by {
            assert(same_child(children[i], read[i], items[i]));
        }
        shallow_is_depth_one(
            root,
            root_item,
            children.drop_last(),
            read.drop_last(),
            items.drop_last(),
            opts,
        );
        assert(same_child(children[n], read[n], items[n]));
        let front = seq![root_item] + kept_items(opts, read.drop_last(), items.drop_last());
        undisturbed(front);
        if keeps(opts, read.last()) {
            assert(all.drop_last() =~= front);
            assert(all.last() == items.last());
        } else {
            assert(all =~= front);
        }
    }
}

/// What a walk of any depth comes across below its root: the children that
/// are not left out, each followed by what the walk comes across below it.
pub open spec fn deep_items(
    opts: ScanOptions,
    read: Seq<ReadChild>,
    items: Seq<WalkItem>,
    below: Seq<Seq<WalkItem>>,
) -> Seq<WalkItem>
    decreases read.len(),
{
    if read.len() == 0 || items.len() == 0 || below.len() == 0 {
        Seq::empty()
    } else {
        let front = deep_items(opts, read.drop_last(), items.drop_last(), below.drop_last());
        if keeps(opts, read.last()) {
            front.push(items.last()) + below.last()
        } else {
            front
        }
    }
}

/// Whatever else the walk comes across, the children that are not left out are
/// there.
proof fn kept_are_walked(
    opts: ScanOptions,
    read: Seq<ReadChild>,
    items: Seq<WalkItem>,
    below: Seq<Seq<WalkItem>>,
    k: int,
)
    requires
        items.len() == read.len(),
        below.len() == read.len(),
        0 <= k < kept_items(opts, read, items).len(),
    ensures
        deep_items(opts, read, items, below).contains(kept_items(opts, read, items)[k]),
    decreases read.len(),
{
    let front = kept_items(opts, read.drop_last(), items.drop_last());
    let deep = deep_items(opts, read.drop_last(), items.drop_last(), below.drop_last());
    let all = deep_items(opts, read, items, below);
    if k < front.len() {
        kept_are_walked(opts, read.drop_last(), items.drop_last(), below.drop_last(), k);
        let i = choose|i: int| 0 <= i < deep.len() && deep[i] == front[k];
        assert(all[i] == front[k]);
    } else {
        assert(all[deep.len() as int] == items.last());
    }
}

/// What a walk that is not cancelled comes across and can read is among what
/// it found.
proof fn walked_is_found(items: Seq<WalkItem>, k: int)
    requires
        0 <= k < items.len(),
    ensures
        item_entry(items[k]) matches Some(e) ==> run_state(items, Seq::empty()).out.contains(e),
    decreases items.len(),
{
    let front = items.drop_last();
    let was = run_state(front, Seq::empty());
    let now = run_state(items, Seq::empty());
    undisturbed(front);
    if let Some(e) = item_entry(items[k]) {
        if k < front.len() {
            walked_is_found(front, k);
            let i = choose|i: int| 0 <= i < was.out.len() && was.out[i] == e;
            assert(now.out[i] == e);
        } else {
            assert(now.out[was.out.len() as int] == e);
        }
    }
}

/// Everything that a walk found was come across.
proof fn found_was_walked(items: Seq<WalkItem>, i: int) -> (k: int)
    requires
        0 <= i < run_state(items, Seq::empty()).out.len(),
    ensures
        0 <= k < items.len(),
        item_entry(items[k]) == Some(run_state(items, Seq::empty()).out[i]),
    decreases items.len(),
{
    if items.len() == 0 {
        0
    } else {
        let front = items.drop_last();
        undisturbed(front);
        if i < run_state(front, Seq::empty()).out.len() {
            found_was_walked(front, i)
        } else {
            items.len() - 1
        }
    }
}

/// A shallow scan never shows what the full scan leaves out: every entry that
/// it shows is among those of a scan of any depth over the same children.
/// (Attributes are looked up by the shallow scan only.)
pub proof fn shallow_is_within_any_scan(
    root: FileEntry,
    root_item: WalkItem,
    children: Seq<ShallowItem>,
    read: Seq<ReadChild>,
    items: Seq<WalkItem>,
    below: Seq<Seq<WalkItem>>,
    opts: ScanOptions,
    i: int,
)
    requires
        entry_of_item(root, root_item),
        read.len() == children.len(),
        items.len() == children.len(),
        below.len() == children.len(),
        forall|i: int|
            0 <= i < children.len() ==> same_child(#[trigger] children[i], read[i], items[i]),
        0 <= i < shallow_state(Some(root), children, opts).out.len(),
    ensures
        run_state(
            seq![root_item] + deep_items(opts, read, items, below),
            Seq::empty(),
        ).out.contains(unattributed(shallow_state(Some(root), children, opts).out[i]@)),
{
    let kept = kept_items(opts, read, items);
    let deep = deep_items(opts, read, items, below);
    shallow_is_depth_one(root, root_item, children, read, items, opts);
    let k = found_was_walked(seq![root_item] + kept, i);
    let all = seq![root_item] + deep;
    if k == 0 {
        walked_is_found(all, 0);
    } else {
        kept_are_walked(opts, read, items, below, k - 1);
        let j = choose|j: int| 0 <= j < deep.len() && deep[j] == kept[k - 1];
        assert(all[j + 1] == kept[k - 1]);
        walked_is_found(all, j + 1);
    }
}

/// The path of a child whose entry is known, as a key.
pub open spec fn child_key(c: ShallowItem) -> Option<Seq<char>> {
    match c {
        ShallowItem::Child { entry: Some(e), .. } => Some(e.key()),
        _ => None,
    }
}

/// What a shallow scan shows is the root or one of the children.
proof fn shown_is_root_or_child(
    root: FileEntry,
    children: Seq<ShallowItem>,
    opts: ScanOptions,
    i: int,
)
    requires
        0 <= i < shallow_state(Some(root), children, opts).out.len(),
    ensures
        ({
            let k = shallow_state(Some(root), children, opts).out[i].key();
            k == root.key() || exists|j: int|
                0 <= j < children.len() && child_key(#[trigger] children[j]) == Some(k)
        }),
    decreases children.len(),
{
    if children.len() > 0 {
        let front = children.drop_last();
        let was = shallow_state(Some(root), front, opts).out;
        let k = shallow_state(Some(root), children, opts).out[i].key();
        if i < was.len() {
            shown_is_root_or_child(root, front, opts, i);
            if k != root.key() {
                let j = choose|j: int|
                    0 <= j < front.len() && child_key(#[trigger] front[j]) == Some(k);
                assert(child_key(children[j]) == Some(k));
            }
        } else {
            assert(child_key(children[children.len() - 1]) == Some(k));
        }
    }
}

/// A shallow scan shows no path twice where no two children have the same
/// path and none has the root's.
pub proof fn shallow_shows_nothing_twice(
    root: FileEntry,
    children: Seq<ShallowItem>,
    opts: ScanOptions,
)
    requires
        forall|i: int|
            0 <= i < children.len() ==> child_key(#[trigger] children[i]) != Some(root.key()),
        forall|i: int, j: int|
            0 <= i < j < children.len() && child_key(#[trigger] children[i]) is Some ==> child_key(
                children[i],
            ) != child_key(#[trigger] children[j]),
    ensures
        unique_paths(shallow_state(Some(root), children, opts).out),
    decreases children.len(),
{
    if children.len() > 0 {
        let front = children.drop_last();
        let n = children.len() - 1;
        let was = shallow_state(Some(root), front, opts).out;
        let now = shallow_state(Some(root), children, opts).out;
        assert forall|i: int| 0 <= i < front.len() implies child_key(#[trigger] front[i]) != Some(
            root.key(),
        ) by {
            assert(child_key(children[i]) != Some(root.key()));
        }
        assert forall|i: int, j: int|
            0 <= i < j < front.len() && child_key(#[trigger] front[i]) is Some implies child_key(
            front[i],
        ) != child_key(#[trigger] front[j]) by {
            assert(child_key(children[i]) != child_key(children[j]));
        }
        shallow_shows_nothing_twice(root, front, opts);
        assert forall|i: int, j: int| 0 <= i < j < now.len() implies (#[trigger] now[i]).key() != (
        #[trigger] now[j]).key() by {
            if j < was.len() {
                assert(was[i].key() != was[j].key());
            } else {
                let k = now[j].key();
                assert(child_key(children[n]) == Some(k));
                shown_is_root_or_child(root, front, opts, i);
                if was[i].key() == k {
                    let m = choose|m: int|
                        0 <= m < front.len() && child_key(#[trigger] front[m]) == Some(k);
                    assert(child_key(children[m]) != child_key(children[n]));
                }
            }
        }
    }
}

/// Whether the child could be read, with its kind and its entry.
pub open spec fn is_readable(c: ShallowItem) -> bool {
    c matches ShallowItem::Child { kind, entry, .. } && kind is Some && entry is Some
}

/// Where every child can be read, a shallow scan counts no errors.
pub proof fn readable_children_give_no_errors(
    root: FileEntry,
    children: Seq<ShallowItem>,
    opts: ScanOptions,
)
    requires
        forall|i: int| 0 <= i < children.len() ==> is_readable(#[trigger] children[i]),
    ensures
        shallow_state(Some(root), children, opts).errors == 0,
    decreases children.len(),
{
    if children.len() > 0 {
        let front = children.drop_last();
        assert(is_readable(children[children.len() - 1]));
        assert forall|i: int| 0 <= i < front.len() implies is_readable(#[trigger] front[i]) by {
            assert(is_readable(children[i]));
        }
        readable_children_give_no_errors(root, front, opts);
    }
}

} // verus!
