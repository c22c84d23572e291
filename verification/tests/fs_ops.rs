use eksplora::fs_ops::{
    copy_dir_recursive, copy_path, copy_target, delete_path, duplicate_path, move_into, move_target,
    next_try, paste_into, paste_target, rename_entry, sibling_path, CopyPlan, DeleteError, DirChild,
    Facts, FsError, MovePlan, RecycleError, RecycleOutcome,
};
use eksplora::FilePath;
use std::collections::BTreeMap;

/// A little disk: what is a folder and what is a file with which contents.
struct Disk {
    at: BTreeMap<String, Option<String>>,
}

fn p(s: &str) -> FilePath {
    FilePath::new(s)
}

impl Disk {
    fn new() -> Disk {
        let mut d = Disk { at: BTreeMap::new() };
        d.folder("C:\\t");
        d
    }

    fn folder(&mut self, path: &str) {
        self.at.insert(path.to_string(), None);
    }

    fn write(&mut self, path: &str, text: &str) {
        self.at.insert(path.to_string(), Some(text.to_string()));
    }

    fn read(&self, path: &str) -> &str {
        self.at[path].as_deref().unwrap()
    }

    fn holds(&self, path: &FilePath) -> bool {
        self.at.contains_key(path.as_str())
    }

    fn is_dir(&self, path: &FilePath) -> bool {
        matches!(self.at.get(path.as_str()), Some(None))
    }

    fn facts(&self, path: &FilePath) -> Facts {
        let exists = self.holds(path);
        let is_dir = self.is_dir(path);
        Facts { exists, is_dir, is_file: exists && !is_dir }
    }

    fn put(&mut self, src: &FilePath, plan: CopyPlan) -> FilePath {
        if plan.is_dir {
            self.folder(plan.dst.as_str());
            let below = format!("{}\\", src.as_str());
            let names: Vec<String> = self
                .at
                .keys()
                .filter(|k| k.starts_with(&below) && !k[below.len()..].contains('\\'))
                .map(|k| k[below.len()..].to_string())
                .collect();
            let children: Vec<DirChild> = names
                .iter()
                .map(|n| {
                    let f = self.facts(&src.join(n));
                    DirChild {
                        name: n.clone(),
                        is_symlink: false,
                        is_dir: f.is_dir,
                        is_file: f.is_file,
                    }
                })
                .collect();
            for step in copy_dir_recursive(src, &plan.dst, &children) {
                self.put(&step.from, CopyPlan { dst: step.to, is_dir: step.is_dir });
            }
        } else {
            let text = self.read(src.as_str()).to_string();
            self.write(plan.dst.as_str(), &text);
        }
        plan.dst
    }

    fn copy_path(&mut self, src: &str) -> Result<FilePath, FsError> {
        let src = p(src);
        let here = self.facts(&src);
        let mut taken = 0;
        while here.exists {
            let held = self.holds(&copy_target(&src, here.is_dir, taken)?);
            match next_try(taken, held) {
                Some(n) => taken = n,
                None => break,
            }
        }
        let plan = copy_path(&src, &here, taken)?;
        Ok(self.put(&src, plan))
    }

    fn rename(&mut self, path: &str, name: &str) -> Result<FilePath, FsError> {
        let path = p(path);
        let taken = sibling_path(&path, name).map(|d| self.holds(&d)).unwrap_or(false);
        let dst = rename_entry(&path, name, self.holds(&path), taken)?;
        self.relocate(&path, &dst);
        Ok(dst)
    }

    fn relocate(&mut self, src: &FilePath, dst: &FilePath) {
        let below = format!("{}\\", src.as_str());
        let keys: Vec<String> = self.at.keys().cloned().collect();
        for k in keys {
            if k == src.as_str() || k.starts_with(&below) {
                let v = self.at.remove(&k).unwrap();
                self.at.insert(format!("{}{}", dst.as_str(), &k[src.as_str().len()..]), v);
            }
        }
    }

    fn duplicate(&mut self, src: &str, name: &str) -> Result<FilePath, FsError> {
        let src = p(src);
        let taken = sibling_path(&src, name).map(|d| self.holds(&d)).unwrap_or(false);
        let plan = duplicate_path(&src, name, &self.facts(&src), taken)?;
        Ok(self.put(&src, plan))
    }

    fn paste(&mut self, src: &str, dir: &str) -> Result<FilePath, FsError> {
        let (src, dir) = (p(src), p(dir));
        let here = self.facts(&src);
        let mut taken = 0;
        if let Some(name) = src.file_name() {
            while let Some(n) =
                next_try(taken, self.holds(&paste_target(&dir, &name, here.is_dir, taken, 0)))
            {
                taken = n;
            }
        }
        let plan = paste_into(&src, &dir, &here, self.is_dir(&dir), taken, 0)?;
        Ok(self.put(&src, plan))
    }

    fn move_into(&mut self, src: &str, dir: &str) -> Result<FilePath, FsError> {
        let (src, dir) = (p(src), p(dir));
        let taken = move_target(&src, &dir).map(|d| self.holds(&d)).unwrap_or(false);
        let plan = move_into(&src, &dir, &self.facts(&src), self.is_dir(&dir), taken)?;
        if !plan.stays {
            self.relocate(&src, &plan.dst);
        }
        Ok(plan.dst)
    }
}

#[test]
fn copies_file_with_copy_suffix() {
    let mut d = Disk::new();
    d.write("C:\\t\\notes.txt", "hello");
    let dst = d.copy_path("C:\\t\\notes.txt").unwrap();
    assert_eq!(dst, p("C:\\t\\notes - Copy.txt"));
    assert_eq!(d.read(dst.as_str()), "hello");
    // Second copy picks the numbered variant.
    let dst2 = d.copy_path("C:\\t\\notes.txt").unwrap();
    assert_eq!(dst2, p("C:\\t\\notes - Copy (2).txt"));
}

#[test]
fn copies_dir_recursively() {
    let mut d = Disk::new();
    d.folder("C:\\t\\sub");
    d.folder("C:\\t\\sub\\deep");
    d.write("C:\\t\\sub\\a.txt", "a");
    d.write("C:\\t\\sub\\deep\\b.txt", "b");
    let dst = d.copy_path("C:\\t\\sub").unwrap();
    assert_eq!(dst, p("C:\\t\\sub - Copy"));
    assert_eq!(d.read("C:\\t\\sub - Copy\\a.txt"), "a");
    assert_eq!(d.read("C:\\t\\sub - Copy\\deep\\b.txt"), "b");
}

#[test]
fn renames_and_rejects_bad_names() {
    let mut d = Disk::new();
    d.write("C:\\t\\old.txt", "x");
    let dst = d.rename("C:\\t\\old.txt", "new.txt").unwrap();
    assert_eq!(dst, p("C:\\t\\new.txt"));
    assert!(!d.holds(&p("C:\\t\\old.txt")));
    assert!(d.rename("C:\\t\\new.txt", "").is_err());
    assert!(d.rename("C:\\t\\new.txt", "a/b").is_err());
    assert!(d.rename("C:\\t\\new.txt", "new.txt").is_err()); // same
    d.write("C:\\t\\taken.txt", "t");
    assert!(d.rename("C:\\t\\new.txt", "taken.txt").is_err()); // clash
    assert!(d.holds(&p("C:\\t\\new.txt"))); // untouched by failed renames
}

#[test]
fn duplicates_with_explicit_name_and_refuses_clash() {
    let mut d = Disk::new();
    d.write("C:\\t\\a.txt", "a");
    let dst = d.duplicate("C:\\t\\a.txt", "a-copy.txt").unwrap();
    assert_eq!(dst, p("C:\\t\\a-copy.txt"));
    assert_eq!(d.read(dst.as_str()), "a");
    // Conflict is an error (UI shows the message), not auto-numbering.
    assert!(d.duplicate("C:\\t\\a.txt", "a-copy.txt").is_err());
    assert!(d.duplicate("C:\\t\\a.txt", "").is_err());
    assert!(d.duplicate("C:\\t\\missing.txt", "x.txt").is_err());
}

#[test]
fn paste_keeps_name_then_appends_copy() {
    let mut d = Disk::new();
    d.folder("C:\\t\\other");
    d.write("C:\\t\\a.txt", "a");
    d.folder("C:\\t\\d");
    // Free name elsewhere: unchanged.
    let p1 = d.paste("C:\\t\\a.txt", "C:\\t\\other").unwrap();
    assert_eq!(p1, p("C:\\t\\other\\a.txt"));
    // Same folder: -copy suffix, then numbered.
    let p2 = d.paste("C:\\t\\a.txt", "C:\\t").unwrap();
    assert_eq!(p2, p("C:\\t\\a-copy.txt"));
    let p3 = d.paste("C:\\t\\a.txt", "C:\\t").unwrap();
    assert_eq!(p3, p("C:\\t\\a-copy (2).txt"));
    // Dirs keep the whole name as stem.
    let d1 = d.paste("C:\\t\\d", "C:\\t").unwrap();
    assert_eq!(d1, p("C:\\t\\d-copy"));
    // Missing source / non-dir target are errors.
    assert!(d.paste("C:\\t\\gone.txt", "C:\\t").is_err());
    assert!(d.paste("C:\\t\\a.txt", "C:\\t\\a.txt").is_err());
}

#[test]
fn moves_files_and_dirs_with_guards() {
    let mut d = Disk::new();
    d.folder("C:\\t\\target");
    d.folder("C:\\t\\sub");
    d.folder("C:\\t\\sub\\deep");
    d.write("C:\\t\\sub\\deep\\b.txt", "b");
    d.write("C:\\t\\a.txt", "a");
    // File move keeps content.
    let m1 = d.move_into("C:\\t\\a.txt", "C:\\t\\target").unwrap();
    assert_eq!(m1, p("C:\\t\\target\\a.txt"));
    assert_eq!(d.read(m1.as_str()), "a");
    // Dir move carries children.
    let m2 = d.move_into("C:\\t\\sub", "C:\\t\\target").unwrap();
    assert_eq!(m2, p("C:\\t\\target\\sub"));
    assert_eq!(d.read("C:\\t\\target\\sub\\deep\\b.txt"), "b");
    // Dropping into its own folder is a no-op success.
    let m3 = d.move_into("C:\\t\\target\\a.txt", "C:\\t\\target").unwrap();
    assert_eq!(m3, p("C:\\t\\target\\a.txt"));
    // Clash refuses instead of overwriting.
    d.write("C:\\t\\a.txt", "new");
    assert!(d.move_into("C:\\t\\a.txt", "C:\\t\\target").is_err());
    assert!(d.holds(&p("C:\\t\\target\\a.txt"))); // untouched
    // Cannot move a folder into itself or its children.
    assert!(d.move_into("C:\\t\\target\\sub", "C:\\t\\target\\sub").is_err());
    assert!(d.move_into("C:\\t\\target\\sub", "C:\\t\\target\\sub\\deep").is_err());
    assert!(d.holds(&p("C:\\t\\target\\sub"))); // untouched
    // Missing source / non-dir target are errors.
    assert!(d.move_into("C:\\t\\gone.txt", "C:\\t\\target").is_err());
    assert!(d.move_into("C:\\t\\target\\a.txt", "C:\\t\\target\\a.txt").is_err());
}

const FILE: Facts = Facts { exists: true, is_dir: false, is_file: true };
const FOLDER: Facts = Facts { exists: true, is_dir: true, is_file: false };
const NOTHING: Facts = Facts { exists: false, is_dir: false, is_file: false };
const DEVICE: Facts = Facts { exists: true, is_dir: false, is_file: false };

#[test]
fn each_refusal_has_its_input() {
    let a = p("C:\\t\\a.txt");
    let root = p("C:\\");
    assert_eq!(rename_entry(&a, " ", true, false).unwrap_err(), FsError::EmptyName);
    assert_eq!(rename_entry(&a, "x\\y", false, true).unwrap_err(), FsError::BadName);
    assert_eq!(rename_entry(&a, "x\0", true, false).unwrap_err(), FsError::BadName);
    assert_eq!(rename_entry(&a, "x", false, true).unwrap_err(), FsError::Gone);
    assert_eq!(rename_entry(&root, "x", true, true).unwrap_err(), FsError::NoParent);
    assert_eq!(rename_entry(&a, " a.txt ", true, true).unwrap_err(), FsError::SameName);
    assert_eq!(rename_entry(&a, "b.txt", true, true).unwrap_err(), FsError::NameTaken);
    assert_eq!(rename_entry(&a, " b.txt ", true, false).unwrap().as_str(), "C:\\t\\b.txt");
    assert_eq!(duplicate_path(&a, "b", &DEVICE, false).unwrap_err(), FsError::NotFileOrDir);
    assert_eq!(copy_path(&a, &NOTHING, 0).unwrap_err(), FsError::Gone);
    assert_eq!(copy_path(&root, &FOLDER, 0).unwrap_err(), FsError::NoParent);
    assert_eq!(copy_path(&p("C:\\t\\.."), &FOLDER, 0).unwrap_err(), FsError::CannotCopy);
    assert_eq!(copy_path(&a, &FILE, 9_999).unwrap_err(), FsError::TooManyCopies);
    assert_eq!(paste_into(&a, &root, &NOTHING, true, 0, 0).unwrap_err(), FsError::SourceGone);
    assert_eq!(paste_into(&a, &root, &FILE, false, 0, 0).unwrap_err(), FsError::NotAFolder);
    assert_eq!(paste_into(&root, &a, &FOLDER, true, 0, 0).unwrap_err(), FsError::NoFileName);
    let into: Result<MovePlan, FsError> =
        move_into(&p("C:\\t"), &p("C:\\t\\sub"), &FOLDER, true, false);
    assert_eq!(into.unwrap_err(), FsError::IntoItself);
}

#[test]
fn messages_name_the_path() {
    let a = p("C:\\a");
    assert_eq!(FsError::Gone.message(&a), "no longer exists: C:\\a");
    assert_eq!(FsError::SourceGone.message(&a), "source no longer exists: C:\\a");
    assert_eq!(FsError::EmptyName.message(&a), "name is empty");
    assert_eq!(FsError::BadName.message(&a), "name must not contain path separators");
    assert_eq!(FsError::NoParent.message(&a), "no parent: C:\\a");
    assert_eq!(FsError::SameName.message(&a), "same name — nothing to do");
    assert_eq!(FsError::NameTaken.message(&a), "name already exists");
    assert_eq!(FsError::NotAFolder.message(&a), "not a folder: C:\\a");
    assert_eq!(FsError::NoFileName.message(&a), "no file name: C:\\a");
    assert_eq!(FsError::NotFileOrDir.message(&a), "not a file or directory: C:\\a");
    assert_eq!(FsError::CannotCopy.message(&a), "cannot copy: C:\\a");
    assert_eq!(FsError::TooManyCopies.message(&a), "too many copies of C:\\a");
    assert_eq!(FsError::IntoItself.message(&a), "can't move a folder into itself");
}

#[test]
fn copy_names_count_up_to_the_last() {
    let a = p("C:\\t\\a.tar.gz");
    assert_eq!(copy_target(&a, false, 0).unwrap().as_str(), "C:\\t\\a.tar - Copy.gz");
    assert_eq!(copy_target(&a, true, 0).unwrap().as_str(), "C:\\t\\a.tar.gz - Copy");
    assert_eq!(copy_target(&a, false, 9_998).unwrap().as_str(), "C:\\t\\a.tar - Copy (9999).gz");
    assert_eq!(copy_target(&a, false, 9_999).unwrap_err(), FsError::TooManyCopies);
    let dot = p("C:\\t\\.bashrc");
    assert_eq!(copy_target(&dot, false, 1).unwrap().as_str(), "C:\\t\\.bashrc - Copy (2)");
}

#[test]
fn paste_names_end_with_the_clock() {
    let dir = p("C:\\t");
    let name = |taken: u32| paste_target(&dir, "a.txt", false, taken, 0xbeef).text;
    assert_eq!(name(0), "C:\\t\\a.txt");
    assert_eq!(name(1), "C:\\t\\a-copy.txt");
    assert_eq!(name(2), "C:\\t\\a-copy (2).txt");
    assert_eq!(name(9_999), "C:\\t\\a-copy (9999).txt");
    assert_eq!(name(10_000), "C:\\t\\a-copy-beef.txt");
    assert_eq!(paste_target(&dir, ".x", false, 1, 0).as_str(), "C:\\t\\.x-copy");
    assert_eq!(paste_target(&dir, "v1.2", true, 1, 0).as_str(), "C:\\t\\v1.2-copy");
}

#[test]
fn folder_copies_leave_links_out() {
    let child = |name: &str, is_symlink: bool, is_dir: bool, is_file: bool| DirChild {
        name: name.to_string(),
        is_symlink,
        is_dir,
        is_file,
    };
    let children = vec![
        child("link", true, true, false),
        child("sub", false, true, false),
        child("pipe", false, false, false),
        child("f", false, false, true),
    ];
    let steps = copy_dir_recursive(&p("C:\\a"), &p("D:\\b"), &children);
    let shown: Vec<(&str, &str, bool)> =
        steps.iter().map(|s| (s.from.as_str(), s.to.as_str(), s.is_dir)).collect();
    assert_eq!(shown, vec![("C:\\a\\sub", "D:\\b\\sub", true), ("C:\\a\\f", "D:\\b\\f", false)]);
}

#[test]
fn deletes_go_through_the_bin() {
    let ok = RecycleOutcome::Returned { code: 0, aborted: false };
    let failed = RecycleOutcome::Returned { code: -1, aborted: true };
    let aborted = RecycleOutcome::Returned { code: 0, aborted: true };
    assert!(delete_path(true, ok).is_ok());
    assert_eq!(delete_path(false, ok).unwrap_err(), DeleteError::Refused(FsError::Gone));
    assert_eq!(
        delete_path(true, RecycleOutcome::Unsupported).unwrap_err(),
        DeleteError::Recycle(RecycleError::Unsupported)
    );
    assert_eq!(
        delete_path(true, failed).unwrap_err(),
        DeleteError::Recycle(RecycleError::Failed(-1))
    );
    assert_eq!(
        delete_path(true, aborted).unwrap_err(),
        DeleteError::Recycle(RecycleError::Aborted)
    );
    let a = p("C:\\a");
    assert_eq!(RecycleError::Failed(-1).message(&a), "recycle failed (0xFFFFFFFF) for C:\\a");
    assert_eq!(RecycleError::Failed(124).message(&a), "recycle failed (0x7C) for C:\\a");
    assert_eq!(RecycleError::Aborted.message(&a), "recycle aborted for C:\\a");
    assert_eq!(
        RecycleError::Unsupported.message(&a),
        "recycle bin not supported on this platform (C:\\a)"
    );
}

#[test]
fn names_are_tried_until_one_is_free() {
    assert_eq!(next_try(0, false), None);
    assert_eq!(next_try(0, true), Some(1));
    assert_eq!(next_try(9_999, true), Some(10_000));
    assert_eq!(next_try(10_000, true), None);
    let mut d = Disk::new();
    d.write("C:\\t\\a.txt", "x");
    d.write("C:\\t\\a - Copy.txt", "y");
    d.write("C:\\t\\a - Copy (3).txt", "z");
    // The first free one, though a later one is taken.
    assert_eq!(d.copy_path("C:\\t\\a.txt").unwrap().as_str(), "C:\\t\\a - Copy (2).txt");
    assert_eq!(d.copy_path("C:\\t\\a.txt").unwrap().as_str(), "C:\\t\\a - Copy (4).txt");
}

#[test]
fn a_folder_is_copied_to_the_bottom() {
    let mut d = Disk::new();
    d.folder("C:\\t\\src");
    d.folder("C:\\t\\src\\a");
    d.folder("C:\\t\\src\\a\\b");
    d.write("C:\\t\\src\\a\\b\\deep.txt", "deep");
    d.write("C:\\t\\src\\top.txt", "top");
    d.folder("C:\\t\\into");
    d.paste("C:\\t\\src", "C:\\t\\into").unwrap();
    assert_eq!(d.read("C:\\t\\into\\src\\a\\b\\deep.txt"), "deep");
    assert_eq!(d.read("C:\\t\\into\\src\\top.txt"), "top");
    let copied = d.at.keys().filter(|k| k.starts_with("C:\\t\\into\\src\\")).count();
    assert_eq!(copied, 4);
}
