use eksplora::index_model::{Found, Observed};
use eksplora::saving::SaveStep;
use eksplora::types::{from_row, to_row, FileRow};
use eksplora::{FileEntry, FilePath, Index};

fn p(s: &str) -> FilePath {
    FilePath::new(s)
}

fn entry(path: &str, is_dir: bool, size: u64) -> FileEntry {
    FileEntry::from_path(p(path), is_dir, size, 0, 0)
}

fn paths(idx: &Index) -> Vec<&str> {
    idx.entries().iter().map(|e| e.path.as_str()).collect()
}

fn tree() -> Index {
    Index::from_entries(vec![
        entry("C:\\r", true, 0),
        entry("C:\\r\\a.txt", false, 1),
        entry("C:\\r\\sub", true, 0),
        entry("C:\\r\\sub\\b.txt", false, 2),
    ])
}

#[test]
fn upsert_inserts_then_updates() {
    let mut idx = Index::new();
    assert!(idx.is_empty());
    idx.upsert(entry("C:\\a", false, 1));
    idx.push(entry("c:/a/", false, 2));
    assert_eq!(idx.len(), 1);
    assert_eq!(idx.resolve(&p("C:\\a")).unwrap().size, 2);
    assert!(idx.resolve(&p("C:\\b")).is_none());
    idx.reserve(10);
    idx.clear();
    assert!(idx.is_empty());
    assert!(idx.resolve(&p("C:\\a")).is_none());
}

#[test]
fn remove_moves_the_last_entry_up() {
    let mut idx = tree();
    assert!(idx.remove(&p("C:\\r\\a.txt")));
    assert!(!idx.remove(&p("C:\\r\\a.txt")));
    assert_eq!(paths(&idx), vec!["C:\\r", "C:\\r\\sub\\b.txt", "C:\\r\\sub"]);
    assert_eq!(idx.resolve(&p("C:\\r\\sub\\b.txt")).unwrap().size, 2);
}

#[test]
fn remove_prefix_takes_the_subtree() {
    let mut idx = tree();
    assert_eq!(idx.remove_prefix(&p("C:\\r\\sub")), 2);
    assert_eq!(paths(&idx), vec!["C:\\r", "C:\\r\\a.txt"]);
    assert_eq!(idx.remove_prefix(&p("C:\\r\\sub")), 0);
    assert!(idx.resolve(&p("C:\\r\\a.txt")).is_some());
}

#[test]
fn merge_updates_and_appends() {
    let mut idx = tree();
    idx.merge_entries(vec![entry("C:\\r\\a.txt", false, 9), entry("C:\\r\\n", false, 3)]);
    assert_eq!(idx.len(), 5);
    assert_eq!(idx.resolve(&p("C:\\r\\a.txt")).unwrap().size, 9);
}

#[test]
fn of_equal_paths_the_last_is_mapped() {
    let idx = Index::from_entries(vec![entry("C:\\a", false, 1), entry("C:/a", false, 2)]);
    assert_eq!(idx.len(), 2);
    assert_eq!(idx.resolve(&p("C:\\a")).unwrap().size, 2);
}

#[test]
fn child_counts_follow_changes() {
    let mut idx = tree();
    assert_eq!(idx.child_counts().get(&p("C:\\r")), 2);
    assert_eq!(idx.child_counts().get(&p("C:\\r\\sub")), 1);
    assert_eq!(idx.child_counts().get(&p("C:\\")), 1);
    assert_eq!(idx.child_counts().get(&p("D:\\")), 0);
    idx.upsert(entry("C:\\r\\c.txt", false, 0));
    assert_eq!(idx.child_counts().get(&p("C:\\r")), 3);
    idx.remove(&p("C:\\r\\sub\\b.txt"));
    assert_eq!(idx.child_counts().get(&p("C:\\r\\sub")), 0);
}

#[test]
fn query_cache_finds_the_longest_prefix() {
    let mut idx = tree();
    idx.store_query_cache("ph".to_string(), true, vec![(1, p("C:\\a"))]);
    idx.store_query_cache("pho".to_string(), true, vec![(2, p("C:\\b"))]);
    idx.store_query_cache("p".to_string(), true, Vec::new());
    assert_eq!(idx.lookup_query_cache("phot", true).unwrap().query, "pho");
    assert_eq!(idx.lookup_query_cache("ph", true).unwrap().candidates[0].0, 1);
    assert!(idx.lookup_query_cache("p", true).is_none()); // too short to keep
    assert!(idx.lookup_query_cache("phot", false).is_none());
    idx.store_query_cache("ph".to_string(), true, vec![(7, p("C:\\c"))]);
    assert_eq!(idx.lookup_query_cache("phx", true).unwrap().candidates[0].0, 7);
    idx.upsert(entry("C:\\x", false, 0));
    assert!(idx.lookup_query_cache("phot", true).is_none()); // dropped by the change
}

#[test]
fn query_cache_forgets_the_oldest() {
    let mut idx = tree();
    for i in 0..9 {
        idx.store_query_cache(format!("q{}", i), false, Vec::new());
    }
    assert!(idx.lookup_query_cache("q0", false).is_none());
    assert!(idx.lookup_query_cache("q1", false).is_some());
    // Stored again, a search is the newest: the next one out is another.
    idx.store_query_cache("q1".to_string(), false, Vec::new());
    idx.store_query_cache("q9".to_string(), false, Vec::new());
    assert!(idx.lookup_query_cache("q1", false).is_some());
    assert!(idx.lookup_query_cache("q2", false).is_none());
    let many = (0..20_001).map(|i| (i, p("C:\\a"))).collect();
    idx.store_query_cache("big".to_string(), false, many);
    assert!(idx.lookup_query_cache("big", false).is_none());
}

fn found(path: &str, is_dir: bool, children: Vec<FileEntry>) -> Option<Found> {
    Some(Found { entry: entry(path, is_dir, 5), children })
}

#[test]
fn another_look_at_a_folder_replaces_its_contents() {
    let mut idx = tree();
    let now = found(
        "C:\\r\\sub",
        true,
        vec![entry("C:\\r\\sub", true, 0), entry("C:\\r\\sub\\new.txt", false, 4)],
    );
    assert!(idx.stat_and_upsert(&p("C:\\r\\sub"), now.as_ref()));
    assert!(idx.resolve(&p("C:\\r\\sub\\b.txt")).is_none());
    assert_eq!(idx.resolve(&p("C:\\r\\sub\\new.txt")).unwrap().size, 4);
    assert!(idx.resolve(&p("C:\\r\\a.txt")).is_some());
    assert_eq!(idx.len(), 4);
}

#[test]
fn vanished_folder_takes_its_children_along() {
    let mut idx = tree();
    assert!(!idx.stat_and_upsert(&p("C:\\r\\sub"), None));
    assert_eq!(paths(&idx), vec!["C:\\r", "C:\\r\\a.txt"]);
    assert!(!idx.stat_and_upsert(&p("C:\\elsewhere"), None));
    assert_eq!(idx.len(), 2);
}

fn seen(path: &str, exists: bool, found: Option<Found>) -> Observed {
    Observed { path: p(path), exists, found }
}

#[test]
fn event_paths_count_upserts_and_removals() {
    let mut idx = tree();
    let events = vec![
        seen("C:\\r\\a.txt", true, found("C:\\r\\a.txt", false, Vec::new())),
        seen("C:\\r\\new.txt", true, found("C:\\r\\new.txt", false, Vec::new())),
        seen("C:\\r\\sub", false, None),
        seen("C:\\r\\unknown", false, None),
    ];
    assert_eq!(idx.apply_event_paths(&events), (2, 1));
    assert_eq!(idx.len(), 3);
}

#[test]
fn the_same_events_again_change_nothing() {
    let mut idx = tree();
    let events = vec![
        seen(
            "C:\\r\\sub",
            true,
            found("C:\\r\\sub", true, vec![entry("C:\\r\\sub\\new.txt", false, 4)]),
        ),
        seen("C:\\r\\a.txt", false, None),
    ];
    assert_eq!(idx.apply_event_paths(&events), (1, 1));
    let mut once: Vec<String> = paths(&idx).iter().map(|s| s.to_string()).collect();
    assert_eq!(idx.apply_event_paths(&events), (1, 0));
    let mut twice: Vec<String> = paths(&idx).iter().map(|s| s.to_string()).collect();
    once.sort();
    twice.sort();
    assert_eq!(once, twice);
    assert!(idx.resolve(&p("C:\\r\\a.txt")).is_none());
}

#[test]
fn changes_that_do_not_matter_keep_the_caches() {
    let mut idx = tree();
    idx.store_query_cache("ph".to_string(), true, Vec::new());
    let outside = vec![
        seen("C:\\r\\.git\\x", true, found("C:\\r\\.git\\x", false, Vec::new())),
        seen("D:\\a.txt", false, None),
    ];
    assert_eq!(idx.apply_watch_batch(&p("C:\\r"), &outside), (0, 0));
    assert_eq!(idx.apply_event_paths(&vec![seen("C:\\none", false, None)]), (0, 0));
    assert!(!idx.stat_and_upsert(&p("C:\\none"), None));
    assert_eq!(idx.remove_prefix(&p("C:\\none")), 0);
    assert!(idx.lookup_query_cache("pho", true).is_some());
    let gone = vec![seen("C:\\r\\a.txt", false, None)];
    assert_eq!(idx.apply_watch_batch(&p("C:\\r"), &gone), (0, 1));
    assert!(idx.lookup_query_cache("pho", true).is_none());
}

#[test]
fn watched_changes_below_pruned_folders_are_ignored() {
    let mut idx = tree();
    let events = vec![
        seen("C:\\r\\node_modules\\x.js", true, found("C:\\r\\node_modules\\x.js", false, Vec::new())),
        seen("D:\\y", true, found("D:\\y", false, Vec::new())),
        seen("C:\\r\\new.txt", true, found("C:\\r\\new.txt", false, Vec::new())),
        seen("C:\\r\\a.txt", false, None),
        seen("C:\\r\\sub", true, None),
        seen("C:\\r\\link", false, found("C:\\r\\link", false, Vec::new())),
    ];
    assert_eq!(idx.apply_watch_batch(&p("C:\\r"), &events), (1, 1));
    assert_eq!(paths(&idx), vec!["C:\\r", "C:\\r\\new.txt"]);
}

#[test]
fn saved_rows_load_back() {
    let mut e = entry("C:\\r\\Ünï.TXT", false, u64::MAX);
    e.mtime_ms = -5;
    e.attributes = 0xffff_ffff;
    let idx = Index::from_entries(vec![entry("C:\\r", true, 0), e]);
    let steps = idx.save_steps();
    assert!(matches!(steps[0], SaveStep::Clear));
    let rows: Vec<FileRow> = steps
        .into_iter()
        .filter_map(|s| match s {
            SaveStep::Clear => None,
            SaveStep::Put(row) => Some(row),
        })
        .collect();
    assert_eq!(rows.len(), 2);
    assert_eq!((rows[1].size, rows[1].is_dir, rows[1].attributes), (-1, 0, 0xffff_ffff));
    let back = Index::from_rows(&rows);
    let got = &back.entries()[1];
    assert_eq!((got.size, got.mtime_ms, got.attributes, got.is_dir), (u64::MAX, -5, 0xffff_ffff, false));
    assert_eq!((got.name.as_str(), got.name_lower.as_str(), got.ext.as_str()), ("Ünï.TXT", "ünï.txt", "txt"));
    assert!(back.resolve(&p("C:\\r")).unwrap().is_dir);
    let mut odd = to_row(got);
    odd.attributes = -1;
    odd.is_dir = 2;
    assert_eq!(from_row(&odd).attributes, 0xffff_ffff);
    assert!(from_row(&odd).is_dir);
}

#[test]
fn hidden_by_attribute_or_dot() {
    let plain = entry("C:\\a", false, 0);
    let dot = entry("C:\\.a", false, 0);
    let mut flagged = entry("C:\\b", false, 0);
    flagged.attributes = 0x2;
    assert!(!plain.is_hidden());
    assert!(dot.is_hidden());
    assert!(flagged.is_hidden());
    assert_eq!(entry("C:\\", true, 0).name, "");
}
