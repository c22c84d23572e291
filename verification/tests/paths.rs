use eksplora::file_path::{extension, stem};
use eksplora::FilePath;

fn p(s: &str) -> FilePath {
    FilePath::new(s)
}

fn parent(s: &str) -> Option<String> {
    p(s).parent().map(|q| q.text)
}

#[test]
fn parents_of_paths() {
    assert_eq!(parent("C:\\Root\\a.txt").as_deref(), Some("C:\\Root"));
    assert_eq!(parent("C:\\Root").as_deref(), Some("C:\\"));
    assert_eq!(parent("C:\\"), None);
    assert_eq!(parent("C:a").as_deref(), Some("C:"));
    assert_eq!(parent("C:"), None);
    assert_eq!(parent("a\\b/.//").as_deref(), Some("a"));
    assert_eq!(parent("a").as_deref(), Some(""));
    assert_eq!(parent("."), Some(String::new()));
    assert_eq!(parent("./a").as_deref(), Some("."));
    assert_eq!(parent(""), None);
    assert_eq!(parent("\\\\srv\\share\\x").as_deref(), Some("\\\\srv\\share\\"));
    assert_eq!(parent("\\\\srv\\share"), None);
    assert_eq!(parent("\\\\?\\C:\\x\\y").as_deref(), Some("\\\\?\\C:\\x"));
    assert_eq!(parent("\\x").as_deref(), Some("\\"));
}

#[test]
fn spellings_of_one_path_are_equal() {
    assert_eq!(p("C:\\a\\b"), p("c:/a/./b/"));
    assert_eq!(p("C:\\a\\b").key(), p("c://a\\b").key());
    assert_ne!(p("C:\\a"), p("C:\\A"));
    assert_ne!(p("C:a"), p("C:\\a"));
    assert_ne!(p("a\\..\\b"), p("b"));
    // Behind \\?\ a slash is an ordinary character.
    assert_ne!(p("\\\\?\\C:\\a/b"), p("\\\\?\\C:\\a\\b"));
}

#[test]
fn names_stems_and_extensions() {
    assert_eq!(p("C:\\x\\notes.txt").file_name().as_deref(), Some("notes.txt"));
    assert_eq!(p("C:\\").file_name(), None);
    assert_eq!(p("C:\\x\\..").file_name(), None);
    assert_eq!(stem("notes.tar.gz"), "notes.tar");
    assert_eq!(extension("notes.tar.gz").as_deref(), Some("gz"));
    assert_eq!(stem(".bashrc"), ".bashrc");
    assert_eq!(extension(".bashrc"), None);
    assert_eq!(extension("a.").as_deref(), Some(""));
    assert_eq!(extension("a"), None);
}

#[test]
fn containment_counts_levels() {
    assert!(!p("C:\\Root\\sub\\x").starts_with(&p("c:/root")));
    assert!(p("C:\\Root\\sub\\x").starts_with(&p("c:/Root")));
    assert!(!p("C:\\Rooted").starts_with(&p("C:\\Root")));
    assert_eq!(p("C:\\Root\\sub\\x").levels_below(&p("C:\\Root")), Some(2));
    assert_eq!(p("C:\\Root").levels_below(&p("C:\\Root")), Some(0));
    assert_eq!(p("D:\\Root").levels_below(&p("C:\\Root")), None);
}

#[test]
fn joining_names() {
    assert_eq!(p("C:\\a").join("b").as_str(), "C:\\a\\b");
    assert_eq!(p("C:\\").join("b").as_str(), "C:\\b");
    assert_eq!(p("C:").join("b").as_str(), "C:b");
    assert_eq!(p("").join("b").as_str(), "b");
    assert_eq!(p("C:\\a").join("\\b").as_str(), "C:\\b");
    assert_eq!(p("C:\\a").join("D:\\b").as_str(), "D:\\b");
    let j = p("C:\\a").join("b");
    assert_eq!(j.parent().unwrap(), p("C:\\a"));
    assert_eq!(j.file_name().as_deref(), Some("b"));
    assert_eq!(p("C:\\a\\b").with_file_name("c").as_str(), "C:\\a\\c");
    assert_eq!(p("C:\\").with_file_name("c").as_str(), "C:\\c");
}

#[test]
fn order_goes_by_parts() {
    assert!(p("C:\\a").precedes(&p("C:\\a\\b")));
    assert!(p("C:\\a\\z").precedes(&p("C:\\a b")));
    assert!(!p("C:\\a").precedes(&p("c:/a")));
    assert!(p("C:\\b").precedes(&p("D:\\a")));
    assert!(p("\\\\s\\h\\x").precedes(&p("C:\\x")));
}

#[test]
fn topmost_ancestor() {
    assert_eq!(p("C:\\foo\\bar").top().as_str(), "C:\\");
    assert_eq!(p("foo\\bar").top().as_str(), "");
    assert_eq!(p("C:\\").top().as_str(), "C:\\");
}

#[test]
fn parts_of_prefixes() {
    let kinds = |s: &str| -> Vec<String> {
        p(s).parts().iter().map(|q| format!("{:?} {} {}", q.kind, q.first, q.second)).collect()
    };
    assert_eq!(kinds("c:\\x"), vec!["Disk C ", "RootDir  ", "Normal x "]);
    assert_eq!(kinds("\\\\s\\h"), vec!["Unc s h", "RootDir  "]);
    assert_eq!(kinds("\\\\.\\COM1"), vec!["DeviceNs COM1 ", "RootDir  "]);
    assert_eq!(kinds("\\\\?\\c:\\."), vec!["VerbatimDisk C ", "RootDir  ", "CurDir  "]);
    assert_eq!(kinds("\\\\?\\UNC\\s\\h\\x"), vec!["VerbatimUnc s h", "RootDir  ", "Normal x "]);
    assert_eq!(kinds("\\\\?\\foo"), vec!["Verbatim foo "]);
    assert_eq!(kinds("\\\\s"), vec!["RootDir  ", "Normal s "]);
    assert_eq!(kinds("./a/.."), vec!["CurDir  ", "Normal a ", "ParentDir  "]);
}
