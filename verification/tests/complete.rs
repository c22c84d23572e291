use eksplora::complete::{
    complete_path, completion_dir, expand_tilde, find_folder, known_root_completions, list_drives,
    Completion, ListedChild,
};
use eksplora::FilePath;

const C_AND_D: Option<u32> = Some(0b1100);

fn folders() -> Vec<(String, FilePath)> {
    vec![
        ("Desktop".to_string(), FilePath::new("C:\\Users\\me\\Desktop")),
        ("Profile".to_string(), FilePath::new("C:\\Users\\me")),
        ("Root".to_string(), FilePath::new("C:\\")),
    ]
}

fn child(name: &str, is_dir: bool) -> ListedChild {
    ListedChild { name: name.to_string(), is_dir }
}

fn complete(input: &str, limit: usize, listing: Option<&Vec<ListedChild>>) -> Vec<Completion> {
    complete_path(input, limit, C_AND_D, &folders(), listing)
}

#[test]
fn empty_input_suggests_roots() {
    let comps = complete("", 100, None);
    assert!(!comps.is_empty());
    assert!(comps.iter().any(|c| c.path.ends_with(":\\")));
}

#[test]
fn completes_child_dirs_not_files() {
    let listing = vec![child("alpha", true), child("alpine", true), child("alpha.txt", false)];
    let comps = complete("C:\\t\\alp", 50, Some(&listing));
    let names: Vec<&str> = comps.iter().map(|c| c.name.as_str()).collect();
    assert!(names.contains(&"alpha"));
    assert!(names.contains(&"alpine"));
    assert!(!names.contains(&"alpha.txt"));
}

#[test]
fn completions_ignore_case_and_are_sorted() {
    let listing = vec![child("alpine", true), child("beta", true), child("Alpha", true)];
    let comps = complete("C:\\t\\aLp", 50, Some(&listing));
    let names: Vec<&str> = comps.iter().map(|c| c.name.as_str()).collect();
    assert_eq!(names, vec!["Alpha", "alpine"]);
    assert_eq!(comps[0].path, "C:\\t\\Alpha");
    assert!(comps.iter().all(|c| c.is_dir));
}

#[test]
fn trailing_separator_lists_all_child_dirs() {
    let listing = vec![child("sub", true)];
    let comps = complete("C:\\t\\", 50, Some(&listing));
    assert!(comps.iter().any(|c| c.name == "sub"));
}

#[test]
fn missing_parent_gives_no_completions() {
    let comps = complete("C:\\definitely-not-here-eksplora\\par", 50, None);
    assert!(comps.is_empty());
}

#[test]
fn roots_are_sorted_and_listed_once() {
    let comps = known_root_completions(C_AND_D, &folders());
    let shown: Vec<(&str, &str)> =
        comps.iter().map(|c| (c.path.as_str(), c.name.as_str())).collect();
    assert_eq!(
        shown,
        vec![
            ("C:\\", "C:\\"),
            ("C:\\Users\\me", "Profile (me)"),
            ("C:\\Users\\me\\Desktop", "Desktop (Desktop)"),
            ("D:\\", "D:\\"),
        ]
    );
}

#[test]
fn input_without_separator_filters_roots() {
    let by_label: Vec<String> = complete("prof", 50, None).into_iter().map(|c| c.path).collect();
    assert_eq!(by_label, vec!["C:\\Users\\me"]);
    let by_path: Vec<String> = complete(" d ", 50, None).into_iter().map(|c| c.path).collect();
    assert_eq!(by_path, vec!["C:\\Users\\me\\Desktop", "D:\\"]);
}

#[test]
fn limit_is_between_one_and_a_hundred() {
    assert_eq!(complete("", 0, None).len(), 1);
    let many: Vec<ListedChild> = (0..150).map(|i| child(&format!("d{:03}", i), true)).collect();
    assert_eq!(complete("C:\\", 1000, Some(&many)).len(), 100);
}

#[test]
fn tilde_stands_for_the_profile() {
    assert_eq!(expand_tilde("~", &folders()), "C:\\Users\\me");
    assert_eq!(expand_tilde("~/x", &folders()), "C:\\Users\\me/x");
    assert_eq!(expand_tilde("~\\x", &folders()), "C:\\Users\\me\\x");
    assert_eq!(expand_tilde("~x", &folders()), "~x");
    assert_eq!(expand_tilde("~", &Vec::new()), "~");
    assert_eq!(completion_dir(" ~/do", &folders()).unwrap().as_str(), "C:\\Users\\me/");
    assert!(completion_dir("c", &folders()).is_none());
}

#[test]
fn drives_follow_the_mask() {
    let paths: Vec<String> = list_drives(Some(1 | 1 << 25)).into_iter().map(|c| c.path).collect();
    assert_eq!(paths, vec!["A:\\", "Z:\\"]);
    assert_eq!(list_drives(None)[0].path, "/");
}

#[test]
fn folders_are_found_by_name() {
    assert_eq!(find_folder(&folders(), "Desktop").unwrap().as_str(), "C:\\Users\\me\\Desktop");
    assert!(find_folder(&folders(), "Music").is_none());
}
