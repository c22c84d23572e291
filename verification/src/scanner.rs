//! Scanning: which folders are left out, and what one walk over a tree adds
//! up to.

use crate::file_path::FilePath;
use crate::paths::{parts, under, views, Part, PartKind};
use crate::text::{lowercase, same_text, to_lower};
use vstd::prelude::*;

verus! {

/// How to scan.
#[derive(Debug, Clone, Copy)]
pub struct ScanOptions {
    /// Max depth. None = unlimited.
    pub max_depth: Option<usize>,
    /// Scan worker threads. None = auto (all cores minus one, min 1) so the
    /// UI thread always has room to breathe. Set explicitly to benchmark.
    pub num_threads: Option<usize>,
    /// Skip well-known noisy system dirs ($Recycle.Bin, System Volume Information, ...).
    pub skip_system_dirs: bool,
    /// Skip dependency/cache dirs (node_modules, .git, browser caches, ...).
    /// Pruned at traversal time — their contents are never even enumerated.
    /// Does not apply to the scanned root itself.
    pub skip_caches: bool,
}

impl Default for ScanOptions {
    fn default() -> (r: ScanOptions)
        ensures
            r.max_depth is None,
            r.num_threads is None,
            r.skip_system_dirs,
            r.skip_caches,
    {
        ScanOptions {
            max_depth: None,
            num_threads: None,
            skip_system_dirs: true,
            skip_caches: true,
        }
    }
}

/// The number of threads that scan: as many as asked for, else all cores but
/// one (four are taken to be there if the number is not known), at least one.
pub open spec fn thread_count(explicit: Option<usize>, cores: Option<usize>) -> int {
    let n = match explicit {
        Some(n) => n as int,
        None => match cores {
            Some(c) => c - 1,
            None => 3,
        },
    };
    if n < 1 {
        1
    } else {
        n
    }
}

/// Computes [`thread_count`]. One core is reserved for the UI so a big scan
/// can't freeze the app.
pub fn scan_threads(explicit: Option<usize>, cores: Option<usize>) -> (r: usize)
    ensures
        r == thread_count(explicit, cores),
{
    if let Some(n) = explicit {
        return if n < 1 {
            1
        } else {
            n
        };
    }
    let n: usize = match cores {
        Some(c) => c,
        None => 4,
    };
    if n <= 2 {
        1
    } else {
        n - 1
    }
}

// ---------------------------------------------------------------------
// Folders that are left out

/// The names of noisy system folders.
pub open spec fn system_dir(name: Seq<char>) -> bool {
    ||| name == "$Recycle.Bin"@
    ||| name == "System Volume Information"@
    ||| name == "$WinREAgent"@
    ||| name == "Config.Msi"@
    ||| name == "Recovery"@
    ||| name == "Documents and Settings"@
}

/// The lowercase names of dependency and cache folders.
pub open spec fn cache_name(lower: Seq<char>) -> bool {
    ||| lower == "node_modules"@
    ||| lower == ".git"@
    ||| lower == ".svn"@
    ||| lower == ".hg"@
    ||| lower == "__pycache__"@
    ||| lower == ".cache"@
    ||| lower == "cache"@
    ||| lower == "code cache"@
    ||| lower == "gpucache"@
    ||| lower == "dawncache"@
    ||| lower == "crashpad"@
    ||| lower == "service worker"@
    ||| lower == ".npm"@
    ||| lower == "_cacache"@
}

/// Whether a folder of this name holds dependencies or a cache, whatever the
/// case of its letters.
pub open spec fn cache_dir(name: Seq<char>) -> bool {
    cache_name(lowercase(name))
}

/// Whether the name is that of a noisy system folder.
pub fn is_system_dir_name(name: &str) -> (r: bool)
    ensures
        r == system_dir(name@),
{
    same_text(name, "$Recycle.Bin") || same_text(name, "System Volume Information") || same_text(
        name,
        "$WinREAgent",
    ) || same_text(name, "Config.Msi") || same_text(name, "Recovery") || same_text(
        name,
        "Documents and Settings",
    )
}

/// Whether the name is that of a dependency or cache folder.
pub fn is_cache_dir_name(name: &str) -> (r: bool)
    ensures
        r == cache_dir(name@),
{
    let lower = to_lower(name);
    let s = lower.as_str();
    same_text(s, "node_modules") || same_text(s, ".git") || same_text(s, ".svn") || same_text(
        s,
        ".hg",
    ) || same_text(s, "__pycache__") || same_text(s, ".cache") || same_text(s, "cache")
        || same_text(s, "code cache") || same_text(s, "gpucache") || same_text(s, "dawncache")
        || same_text(s, "crashpad") || same_text(s, "service worker") || same_text(s, ".npm")
        || same_text(s, "_cacache")
}

/// Whether a scan leaves out the folder of this name.
pub open spec fn pruned_name(opts: ScanOptions, name: Seq<char>) -> bool {
    (opts.skip_system_dirs && system_dir(name)) || (opts.skip_caches && cache_dir(name))
}

/// Whether a scan leaves out a child of a folder: only folders are left out,
/// by their names.
pub fn prunes_child(opts: &ScanOptions, is_dir: bool, name: &str) -> (r: bool)
    ensures
        r == (is_dir && pruned_name(*opts, name@)),
{
    is_dir && ((opts.skip_system_dirs && is_system_dir_name(name)) || (opts.skip_caches
        && is_cache_dir_name(name)))
}

/// What reading a folder gives for one of its children.
#[derive(Debug)]
pub struct ReadChild {
    /// Whether it could be read at all.
    pub readable: bool,
    pub is_dir: bool,
    pub name: String,
}

/// Whether a scan goes on with the child. What could not be read stays, to be
/// counted as an error.
pub open spec fn keeps(opts: ScanOptions, c: ReadChild) -> bool {
    !(c.readable && c.is_dir && pruned_name(opts, c.name@))
}

/// How many of the children a scan leaves out.
pub open spec fn left_out(opts: ScanOptions, children: Seq<ReadChild>) -> nat
    decreases children.len(),
{
    if children.len() == 0 {
        0
    } else {
        left_out(opts, children.drop_last()) + if keeps(opts, children.last()) {
            0nat
        } else {
            1
        }
    }
}

proof fn left_out_bound(opts: ScanOptions, children: Seq<ReadChild>)
    ensures
        left_out(opts, children) <= children.len(),
    decreases children.len(),
{
    if children.len() > 0 {
        left_out_bound(opts, children.drop_last());
    }
}

/// Which children of a folder a scan goes on with, and how many it leaves
/// out: those are never even walked.
pub fn prune_children(opts: &ScanOptions, children: &Vec<ReadChild>) -> (r: (Vec<bool>, u64))
    ensures
        r.0@.len() == children@.len(),
        forall|i: int| 0 <= i < r.0@.len() ==> #[trigger] r.0@[i] == keeps(*opts, children@[i]),
        r.1 == left_out(*opts, children@),
{
    let mut keep: Vec<bool> = Vec::new();
    let mut skipped: u64 = 0;
    for i in 0..children.len()
        invariant
            keep@.len() == i,
            forall|j: int| 0 <= j < i ==> #[trigger] keep@[j] == keeps(*opts, children@[j]),
            skipped == left_out(*opts, children@.take(i as int)),
    {
        let c = &children[i];
        proof {
            left_out_bound(*opts, children@.take(i as int));
            assert(children@.take(i + 1).drop_last() =~= children@.take(i as int));
        }
        let kept = !(c.readable && prunes_child(opts, c.is_dir, c.name.as_str()));
        if !kept {
            skipped += 1;
        }
        keep.push(kept);
    }
    assert(children@.take(children@.len() as int) =~= children@);
    (keep, skipped)
}

/// What a scan leaves out of a listing: of the one that holds nothing but the
/// scanned root, no dependency or cache folder.
pub open spec fn listing_options(opts: ScanOptions, is_root: bool) -> ScanOptions {
    ScanOptions { skip_caches: opts.skip_caches && !is_root, ..opts }
}

/// Which children of a listing a scan goes on with, and how many it leaves
/// out. `is_root` says that the listing is the scanned root itself, to which
/// `skip_caches` does not apply.
pub fn prune_listing(opts: &ScanOptions, is_root: bool, children: &Vec<ReadChild>) -> (r: (
    Vec<bool>,
    u64,
))
    ensures
        r.0@.len() == children@.len(),
        forall|i: int|
            0 <= i < r.0@.len() ==> #[trigger] r.0@[i] == keeps(
                listing_options(*opts, is_root),
                children@[i],
            ),
        r.1 == left_out(listing_options(*opts, is_root), children@),
        is_root ==> forall|i: int|
            0 <= i < r.0@.len() && !#[trigger] r.0@[i] ==> opts.skip_system_dirs && system_dir(
                children@[i].name@,
            ),
{
    let own = ScanOptions {
        max_depth: opts.max_depth,
        num_threads: opts.num_threads,
        skip_system_dirs: opts.skip_system_dirs,
        skip_caches: opts.skip_caches && !is_root,
    };
    prune_children(&own, children)
}

/// Whether a part names a folder that scans leave out.
pub open spec fn pruned_part(p: Part) -> bool {
    p.kind == PartKind::Normal && (system_dir(p.first) || cache_dir(p.first))
}

/// Whether `path` lies outside `root`, or in or at a folder below `root` that
/// scans leave out.
pub open spec fn pruned_path(root: Seq<char>, path: Seq<char>) -> bool {
    ||| !under(path, root)
    ||| exists|i: int|
        parts(root).len() <= i < parts(path).len() && pruned_part(#[trigger] parts(path)[i])
}

/// Whether a change at `path` is none of the business of an index of `root`.
pub fn is_pruned_path(root: &FilePath, path: &FilePath) -> (r: bool)
    ensures
        r == pruned_path(root@, path@),
{
    if !path.starts_with(root) {
        return true;
    }
    let a = root.parts();
    let b = path.parts();
    let ghost x = views(b@);
    let from: usize = a.len();
    let mut i: usize = from;
    while i < b.len()
        invariant
            x == views(b@),
            x == parts(path@),
            from == parts(root@).len(),
            from <= i,
            i <= b@.len(),
            under(path@, root@),
            forall|k: int| from <= k < i ==> !pruned_part(#[trigger] x[k]),
        decreases b@.len() - i,
    {
        let p = &b[i];
        if matches!(p.kind, PartKind::Normal) && (is_system_dir_name(p.first.as_str())
            || is_cache_dir_name(p.first.as_str())) {
            assert(pruned_part(x[i as int]));
            return true;
        }
        i += 1;
    }
    false
}

/// A path inside a folder that is left out is left out itself.
pub proof fn pruned_below(root: Seq<char>, dir: Seq<char>, path: Seq<char>)
    requires
        under(dir, root),
        pruned_path(root, dir),
        under(path, dir),
    ensures
        pruned_path(root, path),
{
    let i = choose|i: int|
        parts(root).len() <= i < parts(dir).len() && pruned_part(#[trigger] parts(dir)[i]);
}

} // verus!
