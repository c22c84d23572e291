//! Which folders a scan leaves out, said over their names.

use crate::paths::{parts, under, Part, PartKind};
use crate::scanner::{
    cache_dir, keeps, left_out, listing_options, pruned_path, system_dir, ReadChild, ScanOptions,
};
use crate::shallow::{verdict, ShallowItem, Verdict};
use crate::text::lowercase;
use crate::types::FileEntry;
use vstd::prelude::*;

verus! {

/// The system folders.
pub open spec fn system_names() -> Seq<Seq<char>> {
    seq![
        "$Recycle.Bin"@,
        "System Volume Information"@,
        "$WinREAgent"@,
        "Config.Msi"@,
        "Recovery"@,
        "Documents and Settings"@,
    ]
}

/// The dependency and cache folders, in lowercase.
pub open spec fn cache_names() -> Seq<Seq<char>> {
    seq![
        "node_modules"@,
        ".git"@,
        ".svn"@,
        ".hg"@,
        "__pycache__"@,
        ".cache"@,
        "cache"@,
        "code cache"@,
        "gpucache"@,
        "dawncache"@,
        "crashpad"@,
        "service worker"@,
        ".npm"@,
        "_cacache"@,
    ]
}

/// Whether a folder of this name is left out under the options.
pub open spec fn is_unwanted(opts: ScanOptions, name: Seq<char>) -> bool {
    (opts.skip_system_dirs && system_names().contains(name)) || (opts.skip_caches
        && cache_names().contains(lowercase(name)))
}

proof fn system_names_listed(name: Seq<char>)
    ensures
        system_dir(name) <==> system_names().contains(name),
{
    let all = system_names();
    assert(all[0] == "$Recycle.Bin"@);
    assert(all[1] == "System Volume Information"@);
    assert(all[2] == "$WinREAgent"@);
    assert(all[3] == "Config.Msi"@);
    assert(all[4] == "Recovery"@);
    assert(all[5] == "Documents and Settings"@);
    if all.contains(name) {
        let i = choose|i: int| 0 <= i < all.len() && all[i] == name;
    }
}

proof fn cache_names_listed(name: Seq<char>)
    ensures
        cache_dir(name) <==> cache_names().contains(lowercase(name)),
{
    let all = cache_names();
    assert(all[0] == "node_modules"@);
    assert(all[1] == ".git"@);
    assert(all[2] == ".svn"@);
    assert(all[3] == ".hg"@);
    assert(all[4] == "__pycache__"@);
    assert(all[5] == ".cache"@);
    assert(all[6] == "cache"@);
    assert(all[7] == "code cache"@);
    assert(all[8] == "gpucache"@);
    assert(all[9] == "dawncache"@);
    assert(all[10] == "crashpad"@);
    assert(all[11] == "service worker"@);
    assert(all[12] == ".npm"@);
    assert(all[13] == "_cacache"@);
    if all.contains(lowercase(name)) {
        let i = choose|i: int| 0 <= i < all.len() && all[i] == lowercase(name);
    }
}

/// A child is left out exactly when it can be read, is a folder and has one of
/// the six system names or, whatever the case of its letters, one of the
/// fourteen cache names, as far as the options say so. Every other child is
/// kept. Of the scanned root itself only the system names count.
pub proof fn only_named_folders_are_left_out(opts: ScanOptions, c: ReadChild)
    ensures
        keeps(opts, c) <==> !(c.readable && c.is_dir && is_unwanted(opts, c.name@)),
        keeps(listing_options(opts, false), c) <==> keeps(opts, c),
        keeps(listing_options(opts, true), c) <==> !(c.readable && c.is_dir
            && opts.skip_system_dirs && system_names().contains(c.name@)),
{
    system_names_listed(c.name@);
    cache_names_listed(c.name@);
}

/// The children that are left out are counted one by one.
pub proof fn left_out_are_counted(opts: ScanOptions, children: Seq<ReadChild>)
    ensures
        left_out(opts, children) == children.filter(
            |c: ReadChild| c.readable && c.is_dir && is_unwanted(opts, c.name@),
        ).len(),
    decreases children.len(),
{
    reveal(Seq::filter);
    if children.len() > 0 {
        left_out_are_counted(opts, children.drop_last());
        only_named_folders_are_left_out(opts, children.last());
    }
}

/// A quick look keeps a child exactly when it can be read, is no linked folder
/// and is not left out; it skips linked folders and what is left out, and
/// counts the rest as errors.
pub proof fn quick_look_leaves_out_the_same(
    opts: ScanOptions,
    name: String,
    is_dir: bool,
    is_symlink: bool,
    link_is_dir: bool,
    entry: Option<FileEntry>,
)
    ensures
        ({
            let kind = Some(crate::shallow::ChildKind { is_dir, is_symlink });
            let item = ShallowItem::Child { name, kind, link_is_dir, entry };
            let skipped = (is_dir && is_unwanted(opts, name@)) || (is_symlink && link_is_dir);
            &&& verdict(item, opts) is Skipped <==> skipped
            &&& verdict(item, opts) is Error <==> !skipped && entry is None
            &&& !skipped ==> (entry matches Some(e) ==> verdict(item, opts) == Verdict::Kept(e))
        }),
        verdict(ShallowItem::Failed, opts) is Error,
        verdict(ShallowItem::Child { name, kind: None, link_is_dir, entry }, opts) is Error,
{
    system_names_listed(name@);
    cache_names_listed(name@);
}

/// Whether a part of a path is a name that scans leave out.
pub open spec fn is_unwanted_part(p: Part) -> bool {
    p.kind == PartKind::Normal && (system_names().contains(p.first) || cache_names().contains(
        lowercase(p.first),
    ))
}

/// A watched path is ignored exactly when it is not below the root or one of
/// its names below the root is one that scans leave out. The root's own names
/// do not matter.
pub proof fn only_uncovered_paths_are_ignored(root: Seq<char>, path: Seq<char>)
    ensures
        pruned_path(root, path) <==> !under(path, root) || exists|i: int|
            parts(root).len() <= i < parts(path).len() && is_unwanted_part(
                #[trigger] parts(path)[i],
            ),
{
    assert forall|i: int|
        0 <= i < parts(path).len() implies (is_unwanted_part(#[trigger] parts(path)[i])
        <==> crate::scanner::pruned_part(parts(path)[i])) by {
        system_names_listed(parts(path)[i].first);
        cache_names_listed(parts(path)[i].first);
    }
}

} // verus!
