//! What holds of copying and pasting as a whole: the first free name is used,
//! and a folder is copied with everything below it.

use crate::fs_ops::{
    copy_place, dir_steps, found_taken, goes_on, paste_name, DirChild, FsError, StepView,
    MAX_COPY_NUMBER,
};
use crate::paths::joined;
use vstd::prelude::*;

verus! {

// ---------------------------------------------------------------------
// Free names

/// All names before the one that trying ends with are taken, and that one is
/// free unless all were tried.
proof fn tries_end_at_first_free(taken: spec_fn(nat) -> bool, used: nat)
    requires
        used <= MAX_COPY_NUMBER + 1,
    ensures
        ({
            let n = found_taken(taken, used);
            &&& used <= n <= MAX_COPY_NUMBER + 1
            &&& forall|m: nat| used <= m < n ==> #[trigger] taken(m)
            &&& n <= MAX_COPY_NUMBER ==> !taken(n)
        }),
    decreases MAX_COPY_NUMBER + 1 - used,
{
    if goes_on(used, taken(used)) {
        tries_end_at_first_free(taken, used + 1);
    }
}

/// Whether the `n`-th place for a copy is on the disk.
pub open spec fn copy_taken(
    src: Seq<char>,
    is_dir: bool,
    disk: spec_fn(Seq<char>) -> bool,
) -> spec_fn(nat) -> bool {
    |n: nat| copy_place(src, is_dir, n) matches Ok(p) && disk(p)
}

/// A copy goes to the first of its places that is free: nothing is there, and
/// something is at every place before. There are too many copies exactly when
/// none of the places is free.
pub proof fn copy_goes_to_first_free_place(
    src: Seq<char>,
    is_dir: bool,
    disk: spec_fn(Seq<char>) -> bool,
)
    ensures
        ({
            let n = found_taken(copy_taken(src, is_dir, disk), 0);
            match copy_place(src, is_dir, n) {
                Ok(p) => {
                    &&& !disk(p)
                    &&& forall|m: nat|
                        m < n ==> (#[trigger] copy_place(src, is_dir, m) matches Ok(q) && disk(q)
                            && q != p)
                },
                Err(e) => {
                    &&& e == FsError::TooManyCopies ==> forall|m: nat|
                        m < MAX_COPY_NUMBER ==> (#[trigger] copy_place(src, is_dir, m) matches Ok(
                            q,
                        ) && disk(q))
                    &&& e != FsError::TooManyCopies ==> n == 0
                },
            }
        }),
{
    let taken = copy_taken(src, is_dir, disk);
    let n = found_taken(taken, 0);
    tries_end_at_first_free(taken, 0);
    assert forall|m: nat| m < n implies (#[trigger] copy_place(src, is_dir, m) matches Ok(q)
        && disk(q)) by {
        assert(taken(m));
    }
    if n > 0 {
        assert(taken(0));
    }
}

/// Whether the `n`-th place for pasting is on the disk.
pub open spec fn paste_taken(
    dir: Seq<char>,
    name: Seq<char>,
    is_dir: bool,
    nanos: u32,
    disk: spec_fn(Seq<char>) -> bool,
) -> spec_fn(nat) -> bool {
    |n: nat| disk(joined(dir, paste_name(name, is_dir, n, nanos)))
}

/// Pasting goes to the first of its places that is free: nothing is there,
/// and something is at every place before. Where none is free, the name made
/// of the fraction of a second is used.
pub proof fn paste_goes_to_first_free_place(
    dir: Seq<char>,
    name: Seq<char>,
    is_dir: bool,
    nanos: u32,
    disk: spec_fn(Seq<char>) -> bool,
)
    ensures
        ({
            let n = found_taken(paste_taken(dir, name, is_dir, nanos, disk), 0);
            let place = |m: nat| joined(dir, paste_name(name, is_dir, m, nanos));
            &&& n <= MAX_COPY_NUMBER + 1
            &&& n <= MAX_COPY_NUMBER ==> !disk(place(n))
            &&& forall|m: nat| m < n ==> disk(#[trigger] place(m))
            &&& n == 0 <==> !disk(joined(dir, name))
        }),
{
    let taken = paste_taken(dir, name, is_dir, nanos, disk);
    let n = found_taken(taken, 0);
    let place = |m: nat| joined(dir, paste_name(name, is_dir, m, nanos));
    tries_end_at_first_free(taken, 0);
    assert forall|m: nat| m < n implies disk(#[trigger] place(m)) by {
        assert(taken(m));
    }
    if n > 0 {
        assert(taken(0));
    }
}

// ---------------------------------------------------------------------
// Whole folders

/// A child of a folder with everything below it.
pub ghost struct Node {
    pub child: DirChild,
    pub below: Seq<Node>,
}

/// Whether a child is copied: links are not, nor what is neither file nor
/// folder.
pub open spec fn is_copied(c: DirChild) -> bool {
    !c.is_symlink && (c.is_dir || c.is_file)
}

/// All steps of copying the folder `src` to `dst`: those of the folder itself,
/// each folder among them followed by its own.
pub open spec fn tree_steps(src: Seq<char>, dst: Seq<char>, nodes: Seq<Node>) -> Seq<StepView>
    decreases nodes,
    via tree_steps_decreases
{
    if nodes.len() == 0 {
        Seq::empty()
    } else {
        let c = nodes.last().child;
        let front = tree_steps(src, dst, nodes.drop_last());
        let own = front + dir_steps(src, dst, seq![c]);
        if is_copied(c) && c.is_dir {
            own + tree_steps(joined(src, c.name@), joined(dst, c.name@), nodes.last().below)
        } else {
            own
        }
    }
}

#[via_fn]
proof fn tree_steps_decreases(src: Seq<char>, dst: Seq<char>, nodes: Seq<Node>) {
    nodes_shrink(nodes);
}

/// What lies below a child is less than the child and all before it.
proof fn nodes_shrink(nodes: Seq<Node>)
    ensures
        nodes.len() > 0 ==> decreases_to!(nodes => nodes.drop_last()),
        nodes.len() > 0 ==> decreases_to!(nodes => nodes.last().below),
{
    if nodes.len() > 0 {
        let last = nodes[nodes.len() - 1];
        assert(decreases_to!(nodes => nodes.drop_last()));
        assert(decreases_to!(nodes => last));
        assert(decreases_to!(last => last.below));
    }
}

/// Whether the names lead from the children down to one that is copied, a
/// folder or not as `is_dir` says, through folders that are copied.
pub open spec fn leads(nodes: Seq<Node>, names: Seq<Seq<char>>, is_dir: bool) -> bool
    decreases names.len(),
{
    names.len() > 0 && exists|i: int|
        0 <= i < nodes.len() && leads_by(#[trigger] nodes[i], names, is_dir)
}

/// Whether the names lead to the node or through it.
pub open spec fn leads_by(node: Node, names: Seq<Seq<char>>, is_dir: bool) -> bool
    decreases names.len(),
{
    &&& names.len() > 0
    &&& node.child.name@ == names[0]
    &&& is_copied(node.child)
    &&& if names.len() == 1 {
        node.child.is_dir == is_dir
    } else {
        node.child.is_dir && exists|i: int|
            0 <= i < node.below.len() && leads_by(
                #[trigger] node.below[i],
                names.drop_first(),
                is_dir,
            )
    }
}

/// The path that the names lead to from `dir`.
pub open spec fn path_down(dir: Seq<char>, names: Seq<Seq<char>>) -> Seq<char>
    decreases names.len(),
{
    if names.len() == 0 {
        dir
    } else {
        path_down(joined(dir, names[0]), names.drop_first())
    }
}

/// The step for what the names lead to.
pub open spec fn step_down(
    src: Seq<char>,
    dst: Seq<char>,
    names: Seq<Seq<char>>,
    is_dir: bool,
) -> StepView {
    StepView { from: path_down(src, names), to: path_down(dst, names), is_dir }
}

/// The steps of a folder are those of its children, one after the other.
pub proof fn steps_of_each_child(src: Seq<char>, dst: Seq<char>, children: Seq<DirChild>)
    requires
        children.len() > 0,
    ensures
        dir_steps(src, dst, children) == dir_steps(src, dst, children.drop_last()) + dir_steps(
            src,
            dst,
            seq![children.last()],
        ),
{
    one_step(src, dst, children.last());
    assert(dir_steps(src, dst, children) =~= dir_steps(src, dst, children.drop_last())
        + dir_steps(src, dst, seq![children.last()]));
}

/// The step of a single child.
proof fn one_step(src: Seq<char>, dst: Seq<char>, c: DirChild)
    ensures
        dir_steps(src, dst, seq![c]) == if is_copied(c) {
            seq![
                StepView {
                    from: joined(src, c.name@),
                    to: joined(dst, c.name@),
                    is_dir: c.is_dir,
                },
            ]
        } else {
            Seq::empty()
        },
{
    assert(seq![c].drop_last() =~= Seq::empty());
    assert(dir_steps(src, dst, seq![c].drop_last()) =~= Seq::empty());
    if is_copied(c) {
        assert(dir_steps(src, dst, seq![c]) =~= seq![
            StepView { from: joined(src, c.name@), to: joined(dst, c.name@), is_dir: c.is_dir },
        ]);
    }
}

/// Copying a folder copies everything below it: whatever names lead to from
/// the source, the same names lead to below the target, a folder for a folder
/// and a file for a file.
pub proof fn whole_tree_is_copied(
    src: Seq<char>,
    dst: Seq<char>,
    nodes: Seq<Node>,
    names: Seq<Seq<char>>,
    is_dir: bool,
)
    requires
        leads(nodes, names, is_dir),
    ensures
        tree_steps(src, dst, nodes).contains(step_down(src, dst, names, is_dir)),
    decreases nodes,
{
    nodes_shrink(nodes);
    let n = nodes.len() - 1;
    let last = nodes[n];
    let c = last.child;
    let front = tree_steps(src, dst, nodes.drop_last());
    let own = dir_steps(src, dst, seq![c]);
    let all = tree_steps(src, dst, nodes);
    let want = step_down(src, dst, names, is_dir);
    one_step(src, dst, c);
    let i = choose|i: int| 0 <= i < nodes.len() && leads_by(#[trigger] nodes[i], names, is_dir);
    if i < n {
        assert(leads_by(nodes.drop_last()[i], names, is_dir));
        whole_tree_is_copied(src, dst, nodes.drop_last(), names, is_dir);
        let k = choose|k: int| 0 <= k < front.len() && front[k] == want;
        assert(all[k] == want);
    } else if names.len() == 1 {
        assert(names.drop_first().len() == 0);
        assert(path_down(joined(src, names[0]), names.drop_first()) == joined(src, names[0]));
        assert(path_down(joined(dst, names[0]), names.drop_first()) == joined(dst, names[0]));
        assert(all[front.len() as int] == own[0]);
    } else {
        let rest = names.drop_first();
        let a = joined(src, c.name@);
        let b = joined(dst, c.name@);
        assert(leads(last.below, rest, is_dir));
        whole_tree_is_copied(a, b, last.below, rest, is_dir);
        let below = tree_steps(a, b, last.below);
        let k = choose|k: int| 0 <= k < below.len() && below[k] == step_down(a, b, rest, is_dir);
        assert(all[front.len() + own.len() + k] == want);
    }
}

/// Copying a folder makes nothing up: every step is for something that names
/// lead to from the source.
pub proof fn only_the_tree_is_copied(
    src: Seq<char>,
    dst: Seq<char>,
    nodes: Seq<Node>,
    k: int,
) -> (names: Seq<Seq<char>>)
    requires
        0 <= k < tree_steps(src, dst, nodes).len(),
    ensures
        ({
            let step = tree_steps(src, dst, nodes)[k];
            leads(nodes, names, step.is_dir) && step == step_down(src, dst, names, step.is_dir)
        }),
    decreases nodes,
{
    nodes_shrink(nodes);
    let n = nodes.len() - 1;
    let last = nodes[n];
    let c = last.child;
    let front = tree_steps(src, dst, nodes.drop_last());
    let own = dir_steps(src, dst, seq![c]);
    let step = tree_steps(src, dst, nodes)[k];
    one_step(src, dst, c);
    if k < front.len() {
        let names = only_the_tree_is_copied(src, dst, nodes.drop_last(), k);
        let i = choose|i: int|
            0 <= i < n && leads_by(#[trigger] nodes.drop_last()[i], names, step.is_dir);
        assert(leads_by(nodes[i], names, step.is_dir));
        names
    } else if k < front.len() + own.len() {
        let names = seq![c.name@];
        assert(names.drop_first().len() == 0);
        assert(path_down(joined(src, names[0]), names.drop_first()) == joined(src, names[0]));
        assert(path_down(joined(dst, names[0]), names.drop_first()) == joined(dst, names[0]));
        assert(leads_by(nodes[n], names, step.is_dir));
        names
    } else {
        let a = joined(src, c.name@);
        let b = joined(dst, c.name@);
        let rest = only_the_tree_is_copied(a, b, last.below, k - front.len() - own.len());
        let names = seq![c.name@] + rest;
        assert(names.drop_first() =~= rest);
        let i = choose|i: int|
            0 <= i < last.below.len() && leads_by(#[trigger] last.below[i], rest, step.is_dir);
        assert(leads_by(nodes[n], names, step.is_dir));
        names
    }
}

} // verus!
