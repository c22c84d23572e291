use eksplora::scanner::{
    is_cache_dir_name, is_pruned_path, is_system_dir_name, prune_children, prune_listing,
    prunes_child, scan_threads, ReadChild,
};
use eksplora::shallow::{ChildKind, ShallowItem};
use eksplora::walk::{
    known_attributes, scan_streaming_inner, Meta, ScanCall, ScanReport, Walk, WalkItem,
};
use eksplora::{
    scan, scan_shallow, scan_with, scan_with_full, scan_with_full_streaming, stat_one, FileEntry,
    FilePath, ScanOptions, STREAM_BATCH,
};
use std::collections::{BTreeMap, HashSet};

fn p(s: &str) -> FilePath {
    FilePath::new(s)
}

fn meta(is_dir: bool) -> Meta {
    Meta { is_dir, len: 3, modified_ms: Some(1_000) }
}

/// A little tree: paths below the root, folders ending in a backslash.
struct Tree {
    root: String,
    at: BTreeMap<String, bool>,
}

impl Tree {
    fn new(paths: &[&str]) -> Tree {
        let mut at = BTreeMap::new();
        for q in paths {
            let mut upto = String::new();
            let is_dir = q.ends_with('\\');
            let parts: Vec<&str> = q.trim_end_matches('\\').split('\\').collect();
            for (i, part) in parts.iter().enumerate() {
                if i > 0 {
                    upto.push('\\');
                }
                upto.push_str(part);
                at.insert(upto.clone(), i + 1 < parts.len() || is_dir);
            }
        }
        Tree { root: "C:\\t".to_string(), at }
    }

    fn children(&self, below: &str) -> Vec<(String, bool)> {
        let start = if below.is_empty() { String::new() } else { format!("{}\\", below) };
        self.at
            .iter()
            .filter(|(k, _)| k.starts_with(&start) && !k[start.len()..].contains('\\'))
            .map(|(k, d)| (k.clone(), *d))
            .collect()
    }

    /// Walks the tree as a directory walker does: children of a folder are
    /// filtered as they are read.
    fn walk(&self, opts: &ScanOptions) -> Walk {
        let own = ReadChild {
            readable: true,
            is_dir: true,
            name: self.root.rsplit('\\').next().unwrap().to_string(),
        };
        let (keep, skipped) = prune_listing(opts, true, &vec![own]);
        let mut walk = Walk { items: Vec::new(), skipped };
        if keep[0] {
            let root = p(&self.root);
            walk.items.push(WalkItem::Found { path: root, is_dir: true, meta: Some(meta(true)) });
            self.walk_below("", opts, &mut walk);
        }
        walk
    }

    fn walk_below(&self, below: &str, opts: &ScanOptions, walk: &mut Walk) {
        let children = self.children(below);
        let facts = children
            .iter()
            .map(|(path, is_dir)| ReadChild {
                readable: true,
                is_dir: *is_dir,
                name: path.rsplit('\\').next().unwrap().to_string(),
            })
            .collect();
        let (keep, skipped) = prune_listing(opts, false, &facts);
        walk.skipped += skipped;
        for ((path, is_dir), kept) in children.into_iter().zip(keep) {
            if !kept {
                continue;
            }
            let full = p(&format!("{}\\{}", self.root, path));
            walk.items.push(WalkItem::Found { path: full, is_dir, meta: Some(meta(is_dir)) });
            if is_dir {
                self.walk_below(&path, opts, walk);
            }
        }
    }

    fn shallow(&self, opts: &ScanOptions) -> (Vec<FileEntry>, eksplora::ScanStats) {
        let root = stat_one(&p(&self.root), Some(meta(true)), 0);
        let listing = self
            .children("")
            .into_iter()
            .map(|(name, is_dir)| ShallowItem::Child {
                entry: stat_one(&p(&self.root).join(&name), Some(meta(is_dir)), 0),
                name,
                kind: Some(ChildKind { is_dir, is_symlink: false }),
                link_is_dir: false,
            })
            .collect();
        scan_shallow(root, Some(listing), opts)
    }
}

fn names(entries: &[FileEntry]) -> Vec<&str> {
    entries.iter().map(|e| e.name.as_str()).collect()
}

#[test]
fn skips_cache_dirs_and_counts_them() {
    let tree = Tree::new(&["node_modules\\pkg\\x.js", "keep.txt"]);
    let (entries, stats) = scan(&tree.walk(&ScanOptions::default()));
    let names = names(&entries);
    assert!(names.contains(&"keep.txt"));
    assert!(!names.iter().any(|n| *n == "x.js"));
    assert!(stats.skipped >= 1, "pruned dirs should be counted");
    assert!(!stats.cancelled);
}

#[test]
fn skip_caches_can_be_disabled() {
    let tree = Tree::new(&["node_modules\\x.js"]);
    let opts = ScanOptions { skip_caches: false, ..Default::default() };
    let (entries, _) = scan(&tree.walk(&opts));
    assert!(entries.iter().any(|e| e.name == "x.js"));
}

#[test]
fn precancelled_scan_aborts_immediately() {
    let tree = Tree::new(&["a.txt"]);
    let (entries, stats) = scan_with(&tree.walk(&ScanOptions::default()), &vec![true]);
    assert!(stats.cancelled);
    assert!(entries.is_empty());
    assert_eq!(stats.skipped, 0);
}

#[test]
fn progress_callback_fires() {
    let tree = Tree::new(&["a.txt"]);
    let r = scan_with_full(&tree.walk(&ScanOptions::default()), &Vec::new(), true);
    assert!(!r.stats.cancelled);
    let calls = r.calls.iter().filter(|c| matches!(c, ScanCall::Progress(_, _))).count();
    assert!(calls >= 1, "progress must fire at least once");
    assert_eq!(r.calls, vec![ScanCall::Progress(0, 0)]);
}

#[test]
fn shallow_returns_first_layer_only() {
    let tree = Tree::new(&["top.txt", "sub\\mid.txt", "sub\\deep\\leaf.txt"]);
    let (entries, stats) = tree.shallow(&ScanOptions::default());
    let names = names(&entries);
    assert!(names.contains(&"top.txt"));
    assert!(names.contains(&"sub"));
    assert!(!names.iter().any(|n| *n == "mid.txt"), "shallow must not recurse");
    assert!(!names.iter().any(|n| *n == "leaf.txt"), "shallow must not recurse");
    assert!(!stats.cancelled);
    assert_eq!((stats.dirs, stats.files), (2, 1));
}

#[test]
fn streaming_batches_cover_full_scan_without_dupes() {
    // Small batch to cross several boundaries with few files (fast).
    let mut paths: Vec<String> = (0..2500).map(|i| format!("f{:05}.txt", i)).collect();
    paths.push("sub\\deep.txt".to_string());
    let refs: Vec<&str> = paths.iter().map(|s| s.as_str()).collect();
    let tree = Tree::new(&refs);
    let r: ScanReport =
        scan_streaming_inner(&tree.walk(&ScanOptions::default()), &Vec::new(), false, Some(512));
    assert!(!r.stats.cancelled);
    let mut seen: Vec<&str> = Vec::new();
    let mut batches = 0;
    for c in &r.calls {
        if let ScanCall::Batch(from, to) = c {
            batches += 1;
            seen.extend(r.entries[*from..*to].iter().map(|e| e.path.as_str()));
        }
    }
    assert_eq!(seen.len(), r.entries.len(), "batches must cover every entry exactly once");
    let full: HashSet<&str> = r.entries.iter().map(|e| e.path.as_str()).collect();
    let got: HashSet<&str> = seen.iter().copied().collect();
    assert_eq!(got, full);
    assert_eq!(r.entries.len(), 2503);
    assert_eq!(batches, 5);
}

fn files(n: usize) -> Walk {
    let items = (0..n)
        .map(|i| WalkItem::Found {
            path: p(&format!("C:\\t\\{}", i)),
            is_dir: false,
            meta: Some(meta(false)),
        })
        .collect();
    Walk { items, skipped: 7 }
}

#[test]
fn scan_looks_at_the_flag_every_so_often() {
    let walk = files(2000);
    // The look before the 512th item stops the walk in front of it.
    let (entries, stats) = scan_with(&walk, &vec![false, true]);
    assert_eq!(entries.len(), 511);
    assert!(stats.cancelled);
    assert_eq!(stats.skipped, 7);
    let (entries, stats) = scan_with(&walk, &vec![false, false, false, true]);
    assert_eq!(entries.len(), 1535);
    assert_eq!(stats.files, 1535);
    let (entries, stats) = scan_with(&walk, &vec![false, false, false, false, true]);
    assert_eq!(entries.len(), 2000);
    assert!(!stats.cancelled);
}

#[test]
fn progress_counts_what_came_before() {
    let r = scan_with_full(&files(1100), &Vec::new(), true);
    assert_eq!(
        r.calls,
        vec![ScanCall::Progress(0, 0), ScanCall::Progress(511, 0), ScanCall::Progress(1023, 0)]
    );
}

#[test]
fn batches_end_with_the_rest() {
    let batches = |n: usize, size: usize| -> Vec<ScanCall> {
        scan_streaming_inner(&files(n), &Vec::new(), false, Some(size)).calls
    };
    assert_eq!(batches(0, 4), vec![ScanCall::Batch(0, 0)]);
    assert_eq!(batches(4, 4), vec![ScanCall::Batch(0, 4)]);
    assert_eq!(batches(5, 4), vec![ScanCall::Batch(0, 4), ScanCall::Batch(4, 5)]);
    let r = scan_with_full_streaming(&files(STREAM_BATCH + 1), &Vec::new(), false, true);
    assert_eq!(
        r.calls,
        vec![ScanCall::Batch(0, STREAM_BATCH), ScanCall::Batch(STREAM_BATCH, STREAM_BATCH + 1)]
    );
}

#[test]
fn unreadable_items_are_errors() {
    let walk = Walk {
        items: vec![
            WalkItem::Failed,
            WalkItem::Found { path: p("C:\\x"), is_dir: false, meta: None },
            WalkItem::Found { path: p("C:\\y"), is_dir: true, meta: Some(meta(true)) },
        ],
        skipped: 0,
    };
    let (entries, stats) = scan(&walk);
    assert_eq!((stats.files, stats.dirs, stats.errors), (0, 1, 2));
    assert_eq!(entries[0].size, 0);
    assert_eq!(entries[0].mtime_ms, 1_000);
}

#[test]
fn shallow_counts_errors_and_skips() {
    let child = |name: &str, kind: Option<ChildKind>, link_is_dir: bool, known: bool| {
        ShallowItem::Child {
            name: name.to_string(),
            kind,
            link_is_dir,
            entry: if known { stat_one(&p(name), Some(meta(false)), 0) } else { None },
        }
    };
    let dir = Some(ChildKind { is_dir: true, is_symlink: false });
    let link = Some(ChildKind { is_dir: false, is_symlink: true });
    let file = Some(ChildKind { is_dir: false, is_symlink: false });
    let listing = vec![
        ShallowItem::Failed,
        child("a", None, false, true),
        child("$Recycle.Bin", dir, false, true),
        child(".GIT", dir, false, true),
        child("l", link, true, true),
        child("m", link, false, true),
        child("cache", file, false, true),
        child("gone", file, false, false),
    ];
    let (entries, stats) = scan_shallow(None, Some(listing), &ScanOptions::default());
    assert_eq!(names(&entries), vec!["m", "cache"]);
    assert_eq!((stats.errors, stats.skipped, stats.files), (3, 3, 2));
    let (none, stats) = scan_shallow(None, None, &ScanOptions::default());
    assert!(none.is_empty());
    assert_eq!(stats.errors, 1);
}

#[test]
fn folder_names_that_are_left_out() {
    assert!(is_system_dir_name("System Volume Information"));
    assert!(!is_system_dir_name("system volume information"));
    assert!(is_cache_dir_name("Node_Modules"));
    assert!(is_cache_dir_name("Service Worker"));
    assert!(!is_cache_dir_name("caches"));
    let all = ScanOptions { skip_system_dirs: false, skip_caches: false, ..Default::default() };
    assert!(!prunes_child(&all, true, "node_modules"));
    assert!(!prunes_child(&ScanOptions::default(), false, "node_modules"));
    assert!(prunes_child(&ScanOptions::default(), true, "Recovery"));
}

#[test]
fn the_scanned_root_may_be_a_cache() {
    let mut tree = Tree::new(&["x.js"]);
    tree.root = "C:\\t\\node_modules".to_string();
    let (entries, stats) = scan(&tree.walk(&ScanOptions::default()));
    assert_eq!(names(&entries), vec!["node_modules", "x.js"]);
    assert_eq!((stats.dirs, stats.files, stats.skipped), (1, 1, 0));
    let one = |name: &str| {
        vec![ReadChild { readable: true, is_dir: true, name: name.to_string() }]
    };
    let opts = ScanOptions::default();
    assert_eq!(prune_listing(&opts, true, &one(".git")), (vec![true], 0));
    assert_eq!(prune_listing(&opts, false, &one(".git")), (vec![false], 1));
    assert_eq!(prune_listing(&opts, true, &one("$Recycle.Bin")), (vec![false], 1));
}

#[test]
fn a_shallow_scan_shows_the_first_level() {
    let tree = Tree::new(&["a.txt", "node_modules\\x.js", "sub\\", ".git\\"]);
    let opts = ScanOptions::default();
    let (quick, few) = tree.shallow(&opts);
    let (full, all) = scan(&tree.walk(&opts));
    assert_eq!(names(&quick), names(&full));
    assert_eq!(
        (few.files, few.dirs, few.errors, few.skipped),
        (all.files, all.dirs, all.errors, all.skipped)
    );
    assert_eq!(few.skipped, 2);
}

#[test]
fn unreadable_children_stay_to_be_counted() {
    let child = |readable: bool, is_dir: bool, name: &str| ReadChild {
        readable,
        is_dir,
        name: name.to_string(),
    };
    let children = vec![
        child(true, true, "src"),
        child(true, true, ".Git"),
        child(false, true, ".git"),
        child(true, false, "cache"),
        child(true, true, "$WinREAgent"),
    ];
    let (keep, skipped) = prune_children(&ScanOptions::default(), &children);
    assert_eq!(keep, vec![true, false, true, true, false]);
    assert_eq!(skipped, 2);
}

#[test]
fn changes_outside_the_scan_are_left_out() {
    let root = p("C:\\r");
    assert!(!is_pruned_path(&root, &p("C:\\r\\a\\b.txt")));
    assert!(!is_pruned_path(&root, &root));
    assert!(is_pruned_path(&root, &p("D:\\r\\a")));
    assert!(is_pruned_path(&root, &p("C:\\r\\x\\node_modules\\y")));
    assert!(is_pruned_path(&root, &p("C:\\r\\node_modules")));
    // The root itself may have such a name.
    assert!(!is_pruned_path(&p("C:\\node_modules"), &p("C:\\node_modules\\a")));
}

#[test]
fn threads_leave_one_core_free() {
    assert_eq!(scan_threads(Some(0), Some(8)), 1);
    assert_eq!(scan_threads(Some(5), Some(8)), 5);
    assert_eq!(scan_threads(None, Some(8)), 7);
    assert_eq!(scan_threads(None, Some(1)), 1);
    assert_eq!(scan_threads(None, None), 3);
}

#[test]
fn stat_gives_the_entry() {
    let e = stat_one(&p("C:\\x\\Notes.TXT"), Some(meta(false)), 0x20).unwrap();
    assert_eq!((e.name.as_str(), e.name_lower.as_str(), e.ext.as_str()), ("Notes.TXT", "notes.txt", "txt"));
    assert_eq!((e.size, e.mtime_ms, e.attributes), (3, 1_000, 0x20));
    assert!(stat_one(&p("C:\\x"), None, 0).is_none());
    let early = Meta { is_dir: true, len: 9, modified_ms: None };
    let d = stat_one(&p("C:\\x"), Some(early), 0).unwrap();
    assert_eq!((d.size, d.mtime_ms), (0, 0));
    let late = Meta { is_dir: false, len: 9, modified_ms: Some(u64::MAX as u128 + 5) };
    assert_eq!(stat_one(&p("C:\\x"), Some(late), 0).unwrap().mtime_ms, 4);
    assert_eq!(known_attributes(u32::MAX), 0);
    assert_eq!(known_attributes(0x10), 0x10);
}
