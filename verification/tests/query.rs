use eksplora::cancel::Cancel;
use eksplora::query::{fuzzy_fill, search_inner, search_tree_inner, substring_pass, Hit};
use eksplora::tree::order_dfs;
use eksplora::{
    list_dir, search, search_cancelable, search_tree_cancelable, FileEntry, FilePath, Index,
    ListOptions, QueryOptions,
};
use std::sync::atomic::AtomicBool;

fn entry(p: &str, is_dir: bool) -> FileEntry {
    FileEntry::from_path(FilePath::new(p), is_dir, 0, 0, 0)
}

fn sample_index() -> Index {
    let mut idx = Index::new();
    idx.upsert(entry("C:\\Root", true));
    idx.upsert(entry("C:\\Root\\a.txt", false));
    idx.upsert(entry("C:\\Root\\sub", true));
    idx.upsert(entry("C:\\Root\\sub\\deep.txt", false));
    idx
}

#[test]
fn lists_direct_children_only() {
    let idx = sample_index();
    let kids = list_dir(
        &idx,
        &FilePath::new("C:\\Root"),
        &ListOptions { limit: 100, dirs_first: true, max_depth: Some(1) },
    );
    let names: Vec<&str> = kids.iter().map(|e| e.entry.name.as_str()).collect();
    assert!(names.contains(&"a.txt"));
    assert!(names.contains(&"sub"));
    assert!(!names.contains(&"deep.txt"));
    assert!(!names.contains(&"Root"));
    // dirs_first: "sub" before "a.txt"
    assert_eq!(kids[0].entry.name, "sub");
}

#[test]
fn max_depth_two_includes_grandchildren() {
    let idx = sample_index();
    let kids = list_dir(
        &idx,
        &FilePath::new("C:\\Root"),
        &ListOptions { limit: 100, dirs_first: true, max_depth: Some(2) },
    );
    let names: Vec<&str> = kids.iter().map(|e| e.entry.name.as_str()).collect();
    assert!(names.contains(&"deep.txt"));
    assert_eq!(names.len(), 3);
}

#[test]
fn children_nest_directly_under_parents() {
    let idx = sample_index();
    let kids = list_dir(
        &idx,
        &FilePath::new("C:\\Root"),
        &ListOptions { limit: 100, dirs_first: true, max_depth: Some(2) },
    );
    let names: Vec<&str> = kids.iter().map(|e| e.entry.name.as_str()).collect();
    // DFS pre-order: sub is immediately followed by its child deep.txt,
    // not pushed to the bottom after the whole first layer.
    let sub_pos = names.iter().position(|&n| n == "sub").unwrap();
    assert_eq!(names[sub_pos + 1], "deep.txt");
}

#[test]
fn child_counts_cover_direct_children() {
    let idx = sample_index();
    let kids = list_dir(
        &idx,
        &FilePath::new("C:\\Root"),
        &ListOptions { limit: 100, dirs_first: true, max_depth: Some(1) },
    );
    let sub = kids.iter().find(|e| e.entry.name == "sub").unwrap();
    assert_eq!(sub.child_count, 1); // deep.txt, even though depth=1 hides it
    let file = kids.iter().find(|e| e.entry.name == "a.txt").unwrap();
    assert_eq!(file.child_count, 0);
}

#[test]
fn unlimited_depth_includes_all() {
    let idx = sample_index();
    let kids = list_dir(
        &idx,
        &FilePath::new("C:\\Root"),
        &ListOptions { limit: 100, dirs_first: true, max_depth: None },
    );
    assert_eq!(kids.len(), 3);
}

#[test]
fn empty_query_returns_no_hits() {
    let idx = sample_index();
    let hits = search(&idx, "   ", &QueryOptions::default());
    assert!(hits.is_empty());
}

#[test]
fn substring_search_still_works() {
    let idx = sample_index();
    let hits = search(&idx, "deep", &QueryOptions::default());
    assert_eq!(hits.len(), 1);
    assert_eq!(hits[0].entry.name, "deep.txt");
}

#[test]
fn pre_cancelled_search_returns_none() {
    let idx = sample_index();
    let flag = AtomicBool::new(true);
    assert!(search_cancelable(&idx, "a", &QueryOptions::default(), &flag).is_none());
}

#[test]
fn uncancelled_search_returns_some() {
    let idx = sample_index();
    let flag = AtomicBool::new(false);
    let hits = search_cancelable(&idx, "a", &QueryOptions::default(), &flag);
    assert!(hits.is_some());
}

#[test]
fn search_tree_nests_match_under_ancestors() {
    let idx = sample_index();
    let flag = AtomicBool::new(false);
    let rows = search_tree_cancelable(
        &idx,
        &FilePath::new("C:\\Root"),
        "deep",
        &QueryOptions::default(),
        &flag,
    )
    .expect("not cancelled");
    let names: Vec<&str> = rows.iter().map(|r| r.entry.name.as_str()).collect();
    // Match plus its ancestor chain, nested: sub directly above deep.txt.
    assert_eq!(names, vec!["sub", "deep.txt"]);
    assert!(!rows[0].matched);
    assert_eq!(rows[0].score, 0);
    assert!(rows[1].matched);
    assert!(rows[1].score > 0);
    assert_eq!(rows[0].child_count, 1);
}

#[test]
fn search_tree_empty_query_gives_no_rows() {
    let idx = sample_index();
    let flag = AtomicBool::new(false);
    let rows = search_tree_cancelable(
        &idx,
        &FilePath::new("C:\\Root"),
        "   ",
        &QueryOptions::default(),
        &flag,
    )
    .expect("not cancelled");
    assert!(rows.is_empty());
}

#[test]
fn search_tree_cancelled_returns_none() {
    let idx = sample_index();
    let flag = AtomicBool::new(true);
    assert!(search_tree_cancelable(
        &idx,
        &FilePath::new("C:\\Root"),
        "deep",
        &QueryOptions::default(),
        &flag,
    )
    .is_none());
}

#[test]
fn scores_rank_exact_then_prefix_then_inside() {
    let mut idx = Index::new();
    idx.upsert(entry("C:\\r\\my report", false));
    idx.upsert(entry("C:\\r\\report.txt", false));
    idx.upsert(entry("C:\\r\\Report", false));
    idx.upsert(entry("C:\\r\\report.md", false));
    let hits = search(&idx, " REPORT ", &QueryOptions { limit: 10, fuzzy: false });
    let shown: Vec<(&str, u32)> = hits.iter().map(|h| (h.entry.name.as_str(), h.score)).collect();
    assert_eq!(
        shown,
        vec![("Report", 10_000), ("report.md", 5_000), ("report.txt", 5_000), ("my report", 1_000)]
    );
}

#[test]
fn equal_hits_keep_index_order() {
    let mut idx = Index::new();
    idx.upsert(entry("C:\\b\\note", false));
    idx.upsert(entry("C:\\a\\note", false));
    let hits = search(&idx, "note", &QueryOptions { limit: 10, fuzzy: false });
    assert_eq!(hits[0].entry.path.as_str(), "C:\\b\\note");
    assert_eq!(hits[1].entry.path.as_str(), "C:\\a\\note");
}

#[test]
fn limit_is_clamped_to_at_least_one() {
    let idx = sample_index();
    let hits = search(&idx, "t", &QueryOptions { limit: 0, fuzzy: false });
    assert_eq!(hits.len(), 1);
}

#[test]
fn fuzzy_matches_fill_up_behind_substring_hits() {
    let mut idx = Index::new();
    idx.upsert(entry("C:\\r\\foo bar", false));
    idx.upsert(entry("C:\\r\\fbr", false));
    idx.upsert(entry("C:\\r\\zzz", false));
    let opts = QueryOptions { limit: 10, fuzzy: true };
    let hits = search(&idx, "fbr", &opts);
    let names: Vec<&str> = hits.iter().map(|h| h.entry.name.as_str()).collect();
    assert_eq!(names, vec!["fbr", "foo bar"]);
    assert_eq!(hits[0].score, 10_000);
    assert!(hits[1].score > 0 && hits[1].score < 1_000);
    // Without fuzzy matching only the substring hit is left.
    let plain = search(&idx, "fbr", &QueryOptions { limit: 10, fuzzy: false });
    assert_eq!(plain.len(), 1);
}

#[test]
fn fuzzy_score_is_that_of_the_matcher() {
    let mut idx = Index::new();
    idx.upsert(entry("C:\\r\\foo bar", false));
    let hits = search(&idx, "fbr", &QueryOptions { limit: 10, fuzzy: true });
    let mut matcher = nucleo_matcher::Matcher::new(nucleo_matcher::Config::DEFAULT);
    let mut a = Vec::new();
    let mut b = Vec::new();
    let want = matcher.fuzzy_match(
        nucleo_matcher::Utf32Str::new("foo bar", &mut a),
        nucleo_matcher::Utf32Str::new("fbr", &mut b),
    );
    assert_eq!(Some(hits[0].score), want.map(u32::from));
}

#[test]
fn fuzzy_match_can_score_zero() {
    let mut idx = Index::new();
    idx.upsert(entry(&format!("C:\\r\\{}é", "e".repeat(39)), false));
    let hits = search(&idx, &"é".repeat(40), &QueryOptions::default());
    assert_eq!(hits.len(), 1);
    assert_eq!(hits[0].score, 0);
}

#[test]
fn names_too_long_to_score_are_no_fuzzy_match() {
    let mut idx = Index::new();
    let long = format!("C:\\r\\{}b", "a".repeat(3000));
    idx.upsert(entry(&long, false));
    let query = format!("{}b", "a".repeat(2500));
    // The name holds the query, so it is a hit all the same.
    assert_eq!(search(&idx, &query, &QueryOptions::default()).len(), 1);
    let other = format!("{}b", "a ".repeat(1300));
    assert_eq!(search(&idx, &other, &QueryOptions::default()).len(), 0);
}

#[test]
fn long_texts_count_by_characters_where_they_can() {
    let mut idx = Index::new();
    // More bytes than can be scored, but fewer characters.
    let start = "\u{44f}".repeat(1999);
    idx.upsert(entry(&format!("C:\\r\\{}\u{431}\u{44f}", start), false));
    let hits = search(&idx, &format!("{}\u{44f}", start), &QueryOptions::default());
    assert_eq!(hits.len(), 1);
    assert!(hits[0].score > 16 * 2000);
}

#[test]
fn the_longest_scored_query_still_fits() {
    let mut idx = Index::new();
    // All of the query, but for one more space near the end.
    let start = format!("aa{}", " a".repeat(1258));
    idx.upsert(entry(&format!("C:\\r\\{}  a", start), false));
    let query = format!("{} a", start);
    assert_eq!(query.len(), 2520);
    let hits = search(&idx, &query, &QueryOptions::default());
    assert_eq!((hits.len(), hits[0].score), (1, 36 + 26 * 2519 - 3));
}

#[test]
fn fuzzy_fill_takes_best_scores_up_to_the_limit() {
    let hits = vec![Hit { at: 4, score: 1_000 }];
    let scores = vec![Some(3), None, Some(9), Some(3)];
    let out = fuzzy_fill(hits, &scores, 3);
    let shown: Vec<(usize, u32)> = out.iter().map(|h| (h.at, h.score)).collect();
    assert_eq!(shown, vec![(4, 1_000), (2, 9), (0, 3)]);
}

#[test]
fn substring_pass_lists_all_hits() {
    let entries = vec![entry("C:\\r\\xx", false), entry("C:\\r\\x", false), entry("C:\\r\\y", false)];
    let out = substring_pass(&entries, "x");
    let shown: Vec<(usize, u32)> = out.iter().map(|h| (h.at, h.score)).collect();
    assert_eq!(shown, vec![(1, 10_000), (0, 5_000)]);
}

#[test]
fn search_gives_up_at_the_look_that_says_so() {
    let idx = sample_index();
    let opts = QueryOptions { limit: 100, fuzzy: true };
    // Looks: before, after stage 1, before the only chunk, at the end.
    for i in 0..4 {
        let mut seen = vec![false; 4];
        seen[i] = true;
        assert!(search_inner(&idx, "deep", &opts, &Cancel::Seen(&seen)).is_none());
    }
    let late = vec![false, false, false, false, true];
    assert!(search_inner(&idx, "deep", &opts, &Cancel::Seen(&late)).is_some());
    // Without fuzzy matching there are two looks.
    let plain = QueryOptions { limit: 100, fuzzy: false };
    let third = vec![false, false, true];
    assert!(search_inner(&idx, "deep", &plain, &Cancel::Seen(&third)).is_some());
    // An empty query looks once.
    let second = vec![false, true];
    assert!(search_inner(&idx, " ", &opts, &Cancel::Seen(&second)).is_some());
}

#[test]
fn tree_search_looks_on_after_its_hits() {
    let idx = sample_index();
    let dir = FilePath::new("C:\\Root");
    let opts = QueryOptions { limit: 100, fuzzy: false };
    for i in 0..5 {
        let mut seen = vec![false; 5];
        seen[i] = true;
        assert!(search_tree_inner(&idx, &dir, "deep", &opts, &Cancel::Seen(&seen)).is_none());
    }
    let late = vec![false, false, false, false, false, true];
    assert!(search_tree_inner(&idx, &dir, "deep", &opts, &Cancel::Seen(&late)).is_some());
}

#[test]
fn orphans_are_appended_not_dropped() {
    let mut idx = Index::new();
    // No entry for the folder between the root and the file.
    idx.upsert(entry("C:\\Root\\z.txt", false));
    idx.upsert(entry("C:\\Root\\gone\\lost.txt", false));
    let rows = list_dir(
        &idx,
        &FilePath::new("c:/Root/"),
        &ListOptions { limit: 100, dirs_first: true, max_depth: None },
    );
    let names: Vec<&str> = rows.iter().map(|r| r.entry.name.as_str()).collect();
    assert_eq!(names, vec!["z.txt", "lost.txt"]);
}

#[test]
fn without_a_limit_every_level_is_listed() {
    let mut idx = Index::new();
    let mut path = "C:\\Root".to_string();
    idx.upsert(entry(&path, true));
    for _ in 0..70 {
        path.push_str("\\d");
        idx.upsert(entry(&path, true));
    }
    let listed = |max_depth: Option<usize>| {
        list_dir(
            &idx,
            &FilePath::new("C:\\Root"),
            &ListOptions { limit: 5000, dirs_first: true, max_depth },
        )
        .len()
    };
    assert_eq!(listed(None), 70);
    assert_eq!(listed(Some(usize::MAX)), 64);
    assert_eq!(listed(Some(65)), 64);
    assert_eq!(listed(Some(0)), 1);
}

#[test]
fn a_root_without_a_parent_is_listed() {
    let mut idx = Index::new();
    idx.upsert(entry("C:\\", true));
    idx.upsert(entry("C:\\a.txt", false));
    let opts = ListOptions { limit: 100, dirs_first: true, max_depth: None };
    let rows = list_dir(&idx, &FilePath::new("C:"), &opts);
    let shown: Vec<(&str, usize)> =
        rows.iter().map(|r| (r.entry.path.as_str(), r.child_count)).collect();
    assert_eq!(shown, vec![("C:\\", 1), ("C:\\a.txt", 0)]);
    // A search shows it as well, wherever it looks.
    let entries = vec![entry("\\", true), entry("\\x", false)];
    let order = order_dfs(&entries, &vec![0, 1], &FilePath::new("C:\\elsewhere"), true);
    assert_eq!(order, vec![0, 1]);
}

#[test]
fn hits_elsewhere_show_all_their_children() {
    let mut idx = Index::new();
    idx.upsert(entry("/root", true));
    idx.upsert(entry("/other", true));
    idx.upsert(entry("/other/x.txt", false));
    let no = AtomicBool::new(false);
    let opts = QueryOptions { limit: 10, fuzzy: false };
    let rows =
        search_tree_cancelable(&idx, &FilePath::new("/root"), "other", &opts, &no).unwrap();
    assert_eq!(rows.len(), 1);
    assert_eq!(rows[0].entry.path.as_str(), "/other");
    assert_eq!((rows[0].matched, rows[0].score, rows[0].child_count), (true, 10_000, 1));
}

#[test]
fn fuzzy_hits_follow_the_plain_ones() {
    let mut idx = sample_index();
    idx.upsert(entry("C:\\Root\\d_e_e_p.txt", false));
    let plain = search(&idx, "deep", &QueryOptions { limit: 10, fuzzy: false });
    let all = search(&idx, "deep", &QueryOptions { limit: 10, fuzzy: true });
    assert_eq!((plain.len(), all.len()), (1, 2));
    assert_eq!(plain[0].entry.path.as_str(), all[0].entry.path.as_str());
    assert_eq!(plain[0].score, all[0].score);
    assert_eq!(all[1].entry.name, "d_e_e_p.txt");
    let full = search(&idx, "deep", &QueryOptions { limit: 1, fuzzy: true });
    assert_eq!((full.len(), full[0].score), (1, plain[0].score));
}

#[test]
fn siblings_mix_when_folders_do_not_come_first() {
    let mut idx = Index::new();
    idx.upsert(entry("C:\\Root\\b", true));
    idx.upsert(entry("C:\\Root\\A.txt", false));
    idx.upsert(entry("C:\\Root\\c.txt", false));
    let mixed = list_dir(
        &idx,
        &FilePath::new("C:\\Root"),
        &ListOptions { limit: 2, dirs_first: false, max_depth: Some(1) },
    );
    let names: Vec<&str> = mixed.iter().map(|r| r.entry.name.as_str()).collect();
    assert_eq!(names, vec!["A.txt", "b"]);
}

#[test]
fn context_stops_below_the_searched_folder() {
    let mut idx = Index::new();
    idx.upsert(entry("C:\\a", true));
    idx.upsert(entry("C:\\a\\b", true));
    idx.upsert(entry("C:\\a\\b\\c", true));
    idx.upsert(entry("C:\\a\\b\\c\\hit.txt", false));
    idx.upsert(entry("C:\\a\\b\\c\\miss", false));
    let flag = AtomicBool::new(false);
    let rows = search_tree_cancelable(
        &idx,
        &FilePath::new("C:\\a"),
        "hit",
        &QueryOptions { limit: 10, fuzzy: false },
        &flag,
    )
    .unwrap();
    let names: Vec<&str> = rows.iter().map(|r| r.entry.name.as_str()).collect();
    assert_eq!(names, vec!["b", "c", "hit.txt"]);
    assert_eq!(rows[1].child_count, 2);
}
