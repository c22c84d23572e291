use eksplora::cancel::Cancel;
use eksplora::index_model::Found;
use eksplora::session::{
    browse_rows, copy_entry, list_children, open_path, paste_entry, patch_deleted, patch_moved,
    patch_renamed, scan_dir, scan_done, search_index, sysinfo, Refusal, ScanPace, UndoJournal,
};
use eksplora::{FileEntry, FilePath, Index, LiveDirCounts, ScanStats};

fn p(s: &str) -> FilePath {
    FilePath::new(s)
}

fn entry(path: &str, is_dir: bool) -> FileEntry {
    FileEntry::from_path(p(path), is_dir, 3, 0, 0)
}

fn tree() -> Index {
    Index::from_entries(vec![
        entry("C:\\r", true),
        entry("C:\\r\\a.txt", false),
        entry("C:\\r\\sub", true),
        entry("C:\\r\\sub\\b.txt", false),
    ])
}

fn paths(idx: &Index) -> Vec<&str> {
    idx.entries().iter().map(|e| e.path.as_str()).collect()
}

#[test]
fn undo_takes_back_the_latest_first() {
    let mut undo = UndoJournal::new();
    assert!(undo.pop().is_none());
    for i in 0..103 {
        undo.push(p(&format!("C:\\{}", i)));
    }
    let mut back = Vec::new();
    while let Some(q) = undo.pop() {
        back.push(q.text);
    }
    assert_eq!(back.len(), 100);
    assert_eq!(back[0], "C:\\102");
    assert_eq!(back[99], "C:\\3");
}

#[test]
fn patches_follow_the_disk() {
    let mut idx = tree();
    let there = Found {
        entry: entry("C:\\r\\new", true),
        children: vec![entry("C:\\r\\new", true), entry("C:\\r\\new\\b.txt", false)],
    };
    patch_renamed(&mut idx, &p("C:\\r\\sub"), &p("C:\\r\\new"), Some(&there));
    assert_eq!(paths(&idx), vec!["C:\\r", "C:\\r\\a.txt", "C:\\r\\new", "C:\\r\\new\\b.txt"]);
    patch_deleted(&mut idx, &p("C:\\r\\new"));
    assert_eq!(paths(&idx), vec!["C:\\r", "C:\\r\\a.txt"]);
    let moved = Found { entry: entry("C:\\a.txt", false), children: Vec::new() };
    patch_moved(&mut idx, &p("C:\\r\\a.txt"), &p("C:\\a.txt"), Some(&moved));
    assert_eq!(paths(&idx), vec!["C:\\r", "C:\\a.txt"]);
    patch_moved(&mut idx, &p("C:\\a.txt"), &p("c:/a.txt"), Some(&moved));
    assert_eq!(idx.len(), 2);
}

#[test]
fn empty_query_browses_the_root() {
    let idx = tree();
    let root = p("C:\\r");
    let rows = search_index(&idx, Some(&root), "  ", None, None, None, &Cancel::Never).unwrap();
    let shown: Vec<(&str, usize, bool)> =
        rows.iter().map(|h| (h.name.as_str(), h.child_count, h.matched)).collect();
    assert_eq!(shown, vec![("sub", 1, false), ("a.txt", 0, false)]);
    assert_eq!((rows[1].path.as_str(), rows[1].size, rows[1].score), ("C:\\r\\a.txt", 3, 0));
    let deep = search_index(&idx, Some(&root), "", None, None, Some(9), &Cancel::Never).unwrap();
    assert_eq!(deep.len(), 3);
    assert!(search_index(&idx, None, "", None, None, None, &Cancel::Never).unwrap().is_empty());
}

#[test]
fn query_filters_the_tree() {
    let idx = tree();
    let root = p("C:\\r");
    let rows =
        search_index(&idx, Some(&root), "b.t", None, Some(false), None, &Cancel::Never).unwrap();
    let shown: Vec<(&str, u32, bool)> =
        rows.iter().map(|h| (h.name.as_str(), h.score, h.matched)).collect();
    assert_eq!(shown, vec![("sub", 0, false), ("b.txt", 5_000, true)]);
    let up = vec![true];
    assert!(search_index(&idx, Some(&root), "b", None, None, None, &Cancel::Seen(&up)).is_none());
    assert!(search_index(&idx, Some(&root), "", None, None, None, &Cancel::Seen(&up)).is_some());
    assert!(search_index(&idx, None, "b", None, None, None, &Cancel::Never).unwrap().is_empty());
}

#[test]
fn children_of_any_folder_are_listed() {
    let idx = tree();
    let rows = list_children(&idx, &p("C:\\r\\sub"), None);
    assert_eq!(rows.len(), 1);
    assert_eq!(rows[0].name, "b.txt");
    assert_eq!(list_children(&idx, &p("C:\\r"), Some(0)).len(), 1);
}

#[test]
fn live_counts_tick_upwards() {
    let mut live = LiveDirCounts::new();
    live.add_batch(&[entry("C:\\r\\a", false), entry("C:\\r\\b", false), entry("C:\\r\\s\\c", false)]);
    let first = live.drain_changed();
    let shown: Vec<(&str, u64)> = first.iter().map(|(q, n)| (q.as_str(), *n)).collect();
    assert_eq!(shown, vec![("C:\\r", 2), ("C:\\r\\s", 1)]);
    assert!(live.drain_changed().is_empty());
    live.add_batch(&[entry("c:/r/d", false)]);
    let second = live.drain_changed();
    assert_eq!((second.len(), second[0].1), (1, 3));
}

#[test]
fn scan_pace_merges_rarely() {
    let mut pace = ScanPace::begin(1_000);
    assert!(pace.batch(&[entry("C:\\r\\a", false)], 1_100, true).is_none());
    assert!(pace.batch(&[entry("C:\\r\\x", false)], 1_700, false).is_none());
    assert!(pace.batch(&[], 1_700, true).is_none());
    let counts = pace.progress(5, 1, 1_100).unwrap();
    assert_eq!((counts[0].0.as_str(), counts[0].1), ("C:\\r", 1));
    assert!(pace.progress(6, 2, 1_249).is_none());
    assert_eq!(pace.totals(), (6, 2));
    assert!(pace.progress(6, 2, 1_250).unwrap().is_empty());
    let staged = pace.batch(&[entry("C:\\r\\b", false)], 1_600, true).unwrap();
    assert_eq!(staged.len(), 2);
    assert!(pace.batch(&[entry("C:\\r\\c", false)], 2_199, true).is_none());
    assert_eq!(pace.batch(&[entry("C:\\r\\d", false)], 2_200, true).unwrap().len(), 2);
}

#[test]
fn only_the_latest_scan_is_published() {
    let mut stats = ScanStats::default();
    stats.files = 4;
    stats.dirs = 2;
    let done = scan_done(6, &stats, true);
    assert_eq!((done.len, done.files, done.dirs, done.cancelled), (6, 4, 2, false));
    let stale = scan_done(6, &stats, false);
    assert_eq!((stale.len, stale.files, stale.dirs, stale.cancelled), (0, 0, 0, true));
    stats.cancelled = true;
    assert!(scan_done(6, &stats, true).cancelled);
}

#[test]
fn refusals_are_told() {
    let a = p("C:\\a");
    assert_eq!(open_path(false, true).unwrap_err().message(&a), "no longer exists: C:\\a");
    assert_eq!(open_path(true, true).unwrap_err().message(&a), "use navigation for directories");
    assert!(open_path(true, false).is_ok());
    assert_eq!(scan_dir(false).unwrap_err().message(&a), "path does not exist: C:\\a");
    assert!(scan_dir(true).is_ok());
    assert_eq!(copy_entry(false).unwrap_err().message(&a), "no longer exists: C:\\a");
    assert!(copy_entry(true).is_ok());
    assert_eq!(paste_entry(false, 0).unwrap_err(), Refusal::NotAFolder);
    assert_eq!(paste_entry(false, 0).unwrap_err().message(&a), "not a folder: C:\\a");
    assert_eq!(paste_entry(true, 0).unwrap_err().message(&a), "clipboard is empty");
    assert!(paste_entry(true, 1).is_ok());
}

#[test]
fn system_information_has_a_line_each() {
    let folders = vec![("A".to_string(), p("C:\\a")), ("B".to_string(), p("C:\\b"))];
    assert_eq!(sysinfo(&folders, "v", "j"), "A: C:\\a\nB: C:\\b\nv\nj");
}

#[test]
fn command_line_browses_without_the_folder_itself() {
    let entries = vec![
        entry("C:\\r", true),
        entry("C:\\r\\z.txt", false),
        entry("C:\\r\\sub", true),
        entry("C:\\r\\sub\\deep", true),
        entry("C:\\r\\sub\\b.txt", false),
        entry("C:\\r\\gone\\lost", false),
    ];
    let rows = browse_rows(&entries, &p("C:\\r"), 2);
    let shown: Vec<(usize, usize, Option<usize>)> =
        rows.iter().map(|r| (r.at, r.level, r.count)).collect();
    assert_eq!(shown, vec![(2, 1, Some(2)), (3, 2, None), (4, 2, Some(0)), (1, 1, Some(0))]);
}
