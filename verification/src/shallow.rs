//! The first layer of a tree, for an instant first paint.

use crate::scanner::{pruned_name, prunes_child, ScanOptions};
use crate::types::FileEntry;
use crate::walk::ScanStats;
use vstd::prelude::*;

verus! {

/// What kind of thing a child of a folder is.
#[derive(Debug, Clone, Copy)]
pub struct ChildKind {
    pub is_dir: bool,
    pub is_symlink: bool,
}

/// What reading a folder gives for one of its children.
#[derive(Debug)]
pub enum ShallowItem {
    /// It could not be read.
    Failed,
    /// Its name, its kind and its entry as far as known, and whether it is a
    /// link that stands for a folder.
    Child {
        name: String,
        kind: Option<ChildKind>,
        link_is_dir: bool,
        entry: Option<FileEntry>,
    },
}

/// What becomes of a child.
pub ghost enum Verdict {
    Error,
    Skipped,
    Kept(FileEntry),
}

/// Folders that scans leave out and linked folders are skipped; what cannot
/// be read is an error.
pub open spec fn verdict(item: ShallowItem, opts: ScanOptions) -> Verdict {
    match item {
        ShallowItem::Failed => Verdict::Error,
        ShallowItem::Child { name, kind, link_is_dir, entry } => match kind {
            None => Verdict::Error,
            Some(k) => if (k.is_dir && pruned_name(opts, name@)) || (k.is_symlink && link_is_dir) {
                Verdict::Skipped
            } else {
                match entry {
                    Some(e) => Verdict::Kept(e),
                    None => Verdict::Error,
                }
            },
        },
    }
}

/// What a shallow scan has found and counted.
pub ghost struct ShallowState {
    pub out: Seq<FileEntry>,
    pub files: nat,
    pub dirs: nat,
    pub errors: nat,
    pub skipped: nat,
}

/// With one more entry.
pub open spec fn kept_one(s: ShallowState, e: FileEntry) -> ShallowState {
    if e.is_dir {
        ShallowState { out: s.out.push(e), dirs: s.dirs + 1, ..s }
    } else {
        ShallowState { out: s.out.push(e), files: s.files + 1, ..s }
    }
}

/// The root itself, if it can be read.
pub open spec fn shallow_start(root: Option<FileEntry>) -> ShallowState {
    let s = ShallowState { out: Seq::empty(), files: 0, dirs: 0, errors: 0, skipped: 0 };
    match root {
        Some(e) => kept_one(s, e),
        None => s,
    }
}

/// The root and its direct children.
pub open spec fn shallow_state(
    root: Option<FileEntry>,
    children: Seq<ShallowItem>,
    opts: ScanOptions,
) -> ShallowState
    decreases children.len(),
{
    if children.len() == 0 {
        shallow_start(root)
    } else {
        let s = shallow_state(root, children.drop_last(), opts);
        match verdict(children.last(), opts) {
            Verdict::Error => ShallowState { errors: s.errors + 1, ..s },
            Verdict::Skipped => ShallowState { skipped: s.skipped + 1, ..s },
            Verdict::Kept(e) => kept_one(s, e),
        }
    }
}

/// All that a shallow scan finds and counts. A root that cannot be listed is
/// one error.
pub open spec fn shallow_result(
    root: Option<FileEntry>,
    listing: Option<Seq<ShallowItem>>,
    opts: ScanOptions,
) -> ShallowState {
    match listing {
        Some(children) => shallow_state(root, children, opts),
        None => ShallowState { errors: 1, ..shallow_start(root) },
    }
}

/// Whether the counts are those of the state.
pub open spec fn counts_shallow(stats: ScanStats, s: ShallowState) -> bool {
    &&& stats.files == s.files
    &&& stats.dirs == s.dirs
    &&& stats.errors == s.errors
    &&& stats.skipped == s.skipped
    &&& !stats.cancelled
    &&& stats.duration_ms == 0
    &&& stats.files_per_sec == 0
}

/// Every entry is counted, and everything counts once.
proof fn shallow_counts(root: Option<FileEntry>, children: Seq<ShallowItem>, opts: ScanOptions)
    ensures
        ({
            let s = shallow_state(root, children, opts);
            &&& s.files + s.dirs == s.out.len()
            &&& root is Some ==> s.out.len() > 0
            &&& s.out.len() + s.errors + s.skipped == children.len() + if root is Some {
                1int
            } else {
                0
            }
        }),
    decreases children.len(),
{
    if children.len() > 0 {
        shallow_counts(root, children.drop_last(), opts);
    }
}

/// Fast depth-1 scan for instant first paint: the root itself plus its
/// direct children (no recursion). Applies the same `skip_system_dirs` /
/// `skip_caches` filters as the full scan so the partial list never shows
/// entries the final index will prune. `listing` is what reading the root
/// gave, if it could be read.
pub fn scan_shallow(
    root: Option<FileEntry>,
    listing: Option<Vec<ShallowItem>>,
    opts: &ScanOptions,
) -> (r: (Vec<FileEntry>, ScanStats))
    ensures
        ({
            let children = match listing {
                Some(v) => Some(v@),
                None => None,
            };
            let s = shallow_result(root, children, *opts);
            r.0@ == s.out && counts_shallow(r.1, s)
        }),
{
    let mut stats = ScanStats::default();
    let mut out: Vec<FileEntry> = Vec::new();
    let ghost first = root;
    if let Some(e) = root {
        if e.is_dir {
            stats.dirs = 1;
        } else {
            stats.files = 1;
        }
        out.push(e);
    }
    assert(out@ =~= shallow_start(first).out);
    let children = match listing {
        Some(v) => v,
        None => {
            stats.errors = 1;
            return (out, stats);
        },
    };
    for i in 0..children.len()
        invariant
            ({
                let s = shallow_state(first, children@.take(i as int), *opts);
                out@ == s.out && counts_shallow(stats, s)
            }),
    {
        proof {
            shallow_counts(first, children@.take(i as int), *opts);
            shallow_counts(first, children@.take(i + 1), *opts);
            assert(children@.take(i + 1).drop_last() =~= children@.take(i as int));
            assert(children@.take(i + 1).last() == children@[i as int]);
            assert(i < children.len());
        }
        match &children[i] {
            ShallowItem::Failed => {
                stats.errors = stats.errors + 1;
            },
            ShallowItem::Child { name, kind, link_is_dir, entry } => match kind {
                None => {
                    stats.errors = stats.errors + 1;
                },
                Some(k) => {
                    if prunes_child(opts, k.is_dir, name.as_str()) || (k.is_symlink
                        && *link_is_dir) {
                        stats.skipped = stats.skipped + 1;
                    } else {
                        match entry {
                            Some(e) => {
                                out.push(e.clone());
                                // The counts add up to the length of the list.
                                assert(out.len() <= usize::MAX);
                                if e.is_dir {
                                    stats.dirs = stats.dirs + 1;
                                } else {
                                    stats.files = stats.files + 1;
                                }
                            },
                            None => {
                                stats.errors = stats.errors + 1;
                            },
                        }
                    }
                },
            },
        }
    }
    assert(children@.take(children@.len() as int) =~= children@);
    (out, stats)
}

/// A shallow scan shows no folder that the full scan leaves out.
pub proof fn shallow_shows_nothing_pruned(item: ShallowItem, opts: ScanOptions)
    ensures
        verdict(item, opts) is Kept ==> (item matches ShallowItem::Child { name, kind, .. } && (
        kind matches Some(k) && !(k.is_dir && pruned_name(opts, name@)))),
{
}

} // verus!
