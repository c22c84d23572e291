use eksplora::watcher::{FsEvent, WatchQueue};
use eksplora::FilePath;

fn p(s: &str) -> FilePath {
    FilePath::new(s)
}

#[test]
fn bursts_collapse_into_one_batch() {
    let mut q = WatchQueue::new();
    assert!(q.needs_watch(&p("C:\\r")));
    q.watch(p("C:\\r"), true);
    assert!(!q.needs_watch(&p("c:/r")));
    let ev = FsEvent { paths: vec![p("C:\\r\\a"), p("C:\\r\\b")], kind: "Create".to_string() };
    q.report(&ev.paths, 100);
    q.report(&vec![p("c:/r/a")], 300);
    q.report(&Vec::new(), 600);
    assert!(q.poll(699).is_none());
    let (root, batch) = q.poll(700).unwrap();
    assert_eq!(root.as_str(), "C:\\r");
    let shown: Vec<&str> = batch.iter().map(|b| b.as_str()).collect();
    assert_eq!(shown, vec!["C:\\r\\a", "C:\\r\\b"]);
    assert!(q.poll(9_999).is_none());
}

#[test]
fn new_commands_forget_what_was_pending() {
    let mut q = WatchQueue::new();
    q.report(&vec![p("C:\\x")], 0); // nothing is watched
    assert!(q.poll(9_999).is_none());
    q.watch(p("C:\\r"), true);
    q.report(&vec![p("C:\\r\\a")], 0);
    q.watch(p("C:\\r"), false); // still watched
    assert!(q.poll(9_999).is_none());
    q.report(&vec![p("C:\\r\\b")], 0);
    assert_eq!(q.poll(400).unwrap().1.len(), 1);
    q.watch(p("D:\\"), false); // could not be started
    q.report(&vec![p("D:\\b")], 0);
    assert!(q.poll(9_999).is_none());
    q.watch(p("C:\\r"), true);
    q.report(&vec![p("C:\\r\\b")], 0);
    q.unwatch();
    assert!(q.poll(9_999).is_none());
    assert!(q.needs_watch(&p("C:\\r")));
}
