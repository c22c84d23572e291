//! Local file operations behind the context menu: copy, rename, delete,
//! move. All validate first and return plain errors the UI can display.
//!
//! What is on the disk comes in as facts; what comes out says what to do.

use crate::file_path::{extension, stem, FilePath};
use crate::path_laws::join_parts;
use crate::paths::{
    extension_of, file_name, joined, last_dot, parent, plain_name, prefix_len, rooted, same_path,
    stem_of, under, verbatim,
};
use crate::text::{
    chars_of, concat2, concat3, decimal, decimal_injective, decimal_text, has_char, hex_lower,
    hex_lower_text, hex_upper, hex_upper_text, same_text, trim, trimmed,
};
use vstd::prelude::*;

verus! {

/// Why an operation is refused.
#[derive(Debug, Clone, Copy, PartialEq, Eq, Structural)]
pub enum FsError {
    /// The path no longer exists.
    Gone,
    /// What was copied no longer exists.
    SourceGone,
    /// The new name is empty.
    EmptyName,
    /// The new name holds a separator or a null.
    BadName,
    /// The path has no parent.
    NoParent,
    /// The new name is the old one.
    SameName,
    /// Something has the new name already.
    NameTaken,
    /// The target is not a folder.
    NotAFolder,
    /// The path has no file name.
    NoFileName,
    /// The path is neither a file nor a folder.
    NotFileOrDir,
    /// The path has no name that a copy could be called after.
    CannotCopy,
    /// Every name for a copy is taken.
    TooManyCopies,
    /// The target lies in the folder that is to be moved.
    IntoItself,
}

/// What is at a path, links followed.
#[derive(Debug, Clone, Copy)]
pub struct Facts {
    pub exists: bool,
    pub is_dir: bool,
    pub is_file: bool,
}

/// A file or folder to be copied to `dst`.
#[derive(Debug)]
pub struct CopyPlan {
    pub dst: FilePath,
    pub is_dir: bool,
}

/// Whether the result is this one.
pub open spec fn is_path(r: Result<FilePath, FsError>, want: Result<Seq<char>, FsError>) -> bool {
    match (r, want) {
        (Ok(p), Ok(t)) => p@ == t,
        (Err(e), Err(x)) => e == x,
        _ => false,
    }
}

/// Whether the result is this one, with the kind of what is there.
pub open spec fn is_plan(
    r: Result<CopyPlan, FsError>,
    want: Result<Seq<char>, FsError>,
    here: Facts,
) -> bool {
    match want {
        Ok(t) => if here.is_dir {
            r matches Ok(p) && p.dst@ == t && p.is_dir
        } else if here.is_file {
            r matches Ok(p) && p.dst@ == t && !p.is_dir
        } else {
            r matches Err(e) && e == FsError::NotFileOrDir
        },
        Err(x) => r matches Err(e) && e == x,
    }
}

fn plan_copy(dst: FilePath, here: &Facts) -> (r: Result<CopyPlan, FsError>)
    ensures
        is_plan(r, Ok(dst@), *here),
{
    if here.is_dir {
        Ok(CopyPlan { dst, is_dir: true })
    } else if here.is_file {
        Ok(CopyPlan { dst, is_dir: false })
    } else {
        Err(FsError::NotFileOrDir)
    }
}

// ---------------------------------------------------------------------
// New names

/// What is wrong with a new name, surrounding space left out.
pub open spec fn name_error(name: Seq<char>) -> Option<FsError> {
    let t = trimmed(name);
    if t.len() == 0 {
        Some(FsError::EmptyName)
    } else if t.contains('/') || t.contains('\\') || t.contains('\0') {
        Some(FsError::BadName)
    } else {
        None
    }
}

fn check_name(name: &str) -> (r: Result<String, FsError>)
    ensures
        match r {
            Ok(t) => name_error(name@) is None && t@ == trimmed(name@),
            Err(e) => name_error(name@) == Some(e),
        },
{
    let t = trim(name);
    let v = chars_of(t.as_str());
    if v.len() == 0 {
        return Err(FsError::EmptyName);
    }
    if has_char(&v, '/') || has_char(&v, '\\') || has_char(&v, '\0') {
        return Err(FsError::BadName);
    }
    Ok(t)
}

/// Where a file or folder goes when it gets a new name in its own folder.
pub open spec fn sibling(path: Seq<char>, name: Seq<char>) -> Option<Seq<char>> {
    match parent(path) {
        Some(p) => Some(joined(p, trimmed(name))),
        None => None,
    }
}

/// The path next to `path` with the given name, surrounding space left out.
pub fn sibling_path(path: &FilePath, name: &str) -> (r: Option<FilePath>)
    ensures
        crate::file_path::opt_path(r) == sibling(path@, name@),
{
    match path.parent() {
        Some(p) => {
            let t = trim(name);
            Some(p.join(t.as_str()))
        },
        None => None,
    }
}

/// What renaming does: the new path, or why not.
pub open spec fn rename_result(
    path: Seq<char>,
    new_name: Seq<char>,
    exists: bool,
    taken: bool,
) -> Result<Seq<char>, FsError> {
    match name_error(new_name) {
        Some(e) => Err(e),
        None => if !exists {
            Err(FsError::Gone)
        } else {
            match sibling(path, new_name) {
                None => Err(FsError::NoParent),
                Some(dst) => if file_name(path) == Some(trimmed(new_name)) {
                    Err(FsError::SameName)
                } else if taken {
                    Err(FsError::NameTaken)
                } else {
                    Ok(dst)
                },
            }
        },
    }
}

/// Rename a file or directory within its own folder: its new path. `new_name`
/// is a bare name (no separators). `exists` says whether something is at
/// `path`, `taken` whether something is at the new path.
pub fn rename_entry(path: &FilePath, new_name: &str, exists: bool, taken: bool) -> (r: Result<
    FilePath,
    FsError,
>)
    ensures
        is_path(r, rename_result(path@, new_name@, exists, taken)),
{
    let name = match check_name(new_name) {
        Ok(t) => t,
        Err(e) => {
            return Err(e);
        },
    };
    if !exists {
        return Err(FsError::Gone);
    }
    let dst = match path.parent() {
        Some(p) => p.join(name.as_str()),
        None => {
            return Err(FsError::NoParent);
        },
    };
    let same = match path.file_name() {
        Some(n) => same_text(n.as_str(), name.as_str()),
        None => false,
    };
    if same {
        return Err(FsError::SameName);
    }
    if taken {
        return Err(FsError::NameTaken);
    }
    Ok(dst)
}

/// Where duplicating puts the copy, or why not.
pub open spec fn duplicate_result(
    src: Seq<char>,
    new_name: Seq<char>,
    exists: bool,
    taken: bool,
) -> Result<Seq<char>, FsError> {
    match name_error(new_name) {
        Some(e) => Err(e),
        None => if !exists {
            Err(FsError::Gone)
        } else {
            match sibling(src, new_name) {
                None => Err(FsError::NoParent),
                Some(dst) => if taken {
                    Err(FsError::NameTaken)
                } else {
                    Ok(dst)
                },
            }
        },
    }
}

/// Duplicate with an explicit new name (context-menu "Duplicate" panel).
/// Refuses when the name is taken instead of auto-numbering — the UI shows
/// the message and lets the user pick another name.
pub fn duplicate_path(src: &FilePath, new_name: &str, here: &Facts, taken: bool) -> (r: Result<
    CopyPlan,
    FsError,
>)
    ensures
        is_plan(r, duplicate_result(src@, new_name@, here.exists, taken), *here),
{
    let name = match check_name(new_name) {
        Ok(t) => t,
        Err(e) => {
            return Err(e);
        },
    };
    if !here.exists {
        return Err(FsError::Gone);
    }
    match src.parent() {
        Some(p) => {
            if taken {
                return Err(FsError::NameTaken);
            }
            plan_copy(p.join(name.as_str()), here)
        },
        None => Err(FsError::NoParent),
    }
}

// ---------------------------------------------------------------------
// Copies next to the original

/// The largest number in the name of a copy.
pub const MAX_COPY_NUMBER: u32 = 9_999;

/// After a look whether the next name is taken, the number of names found
/// taken; nothing once no further name is tried: `used` is the number then.
pub fn next_try(used: u32, taken: bool) -> (r: Option<u32>)
    ensures
        r == if goes_on(used as nat, taken) {
            Some((used + 1) as u32)
        } else {
            None
        },
{
    if taken && used <= MAX_COPY_NUMBER {
        Some(used + 1)
    } else {
        None
    }
}

/// Whether another name is tried when `used` were found taken and the next is
/// `taken` or not.
pub open spec fn goes_on(used: nat, taken: bool) -> bool {
    taken && used <= MAX_COPY_NUMBER
}

/// The number of names found taken, from the first `used` on.
pub open spec fn found_taken(taken: spec_fn(nat) -> bool, used: nat) -> nat
    decreases MAX_COPY_NUMBER + 1 - used,
{
    if goes_on(used, taken(used)) {
        found_taken(taken, used + 1)
    } else {
        used
    }
}

/// The part of a name in front of the extension, as a copy uses it. Folders
/// have no extension.
pub open spec fn copy_stem(src: Seq<char>, is_dir: bool) -> Seq<char> {
    match file_name(src) {
        Some(n) => if is_dir {
            n
        } else {
            stem_of(n)
        },
        None => Seq::empty(),
    }
}

/// The extension of a copy, with its dot.
pub open spec fn copy_ext(src: Seq<char>, is_dir: bool) -> Seq<char> {
    match file_name(src) {
        Some(n) => match extension_of(n) {
            Some(x) => if is_dir {
                Seq::empty()
            } else {
                "."@ + x
            },
            None => Seq::empty(),
        },
        None => Seq::empty(),
    }
}

/// `stem`, a suffix, a number in brackets from 2 on, and `ext`.
pub open spec fn numbered(
    stem: Seq<char>,
    suffix: Seq<char>,
    number: nat,
    ext: Seq<char>,
) -> Seq<char> {
    if number < 2 {
        stem + suffix + ext
    } else {
        stem + suffix + " ("@ + decimal(number) + ")"@ + ext
    }
}

fn numbered_name(stem: &str, suffix: &str, number: u32, ext: &str) -> (r: String)
    ensures
        r@ == numbered(stem@, suffix@, number as nat, ext@),
{
    if number < 2 {
        concat3(stem, suffix, ext)
    } else {
        let digits = decimal_text(number as u64);
        let head = concat3(stem, suffix, " (");
        let tail = concat3(digits.as_str(), ")", ext);
        let r = concat2(head.as_str(), tail.as_str());
        r
    }
}

/// Where a copy of `src` goes when `taken` names were found taken: first
/// `notes - Copy.txt`, then `notes - Copy (2).txt`, …
pub open spec fn copy_place(src: Seq<char>, is_dir: bool, taken: nat) -> Result<
    Seq<char>,
    FsError,
> {
    match parent(src) {
        None => Err(FsError::NoParent),
        Some(p) => if copy_stem(src, is_dir).len() == 0 {
            Err(FsError::CannotCopy)
        } else if taken >= MAX_COPY_NUMBER {
            Err(FsError::TooManyCopies)
        } else {
            Ok(
                joined(
                    p,
                    numbered(
                        copy_stem(src, is_dir),
                        " - Copy"@,
                        taken + 1,
                        copy_ext(src, is_dir),
                    ),
                ),
            )
        },
    }
}

/// The next ` - Copy` sibling to try for `src`, when `taken` of them were
/// found taken.
pub fn copy_target(src: &FilePath, is_dir: bool, taken: u32) -> (r: Result<FilePath, FsError>)
    ensures
        is_path(r, copy_place(src@, is_dir, taken as nat)),
{
    let dir = match src.parent() {
        Some(p) => p,
        None => {
            return Err(FsError::NoParent);
        },
    };
    let (base, ext) = match src.file_name() {
        Some(n) => {
            if is_dir {
                (n, String::new())
            } else {
                let ext = match extension(n.as_str()) {
                    Some(x) => concat2(".", x.as_str()),
                    None => String::new(),
                };
                (stem(n.as_str()), ext)
            }
        },
        None => (String::new(), String::new()),
    };
    if chars_of(base.as_str()).len() == 0 {
        return Err(FsError::CannotCopy);
    }
    if taken >= MAX_COPY_NUMBER {
        return Err(FsError::TooManyCopies);
    }
    let name = numbered_name(base.as_str(), " - Copy", taken + 1, ext.as_str());
    Ok(dir.join(name.as_str()))
}

/// Duplicate a file or directory next to itself, Explorer-style:
/// `notes.txt` -> `notes - Copy.txt`, then `notes - Copy (2).txt`, …
/// `taken` says how many of these names were found taken. Directories copy
/// recursively. The plan says where to.
pub fn copy_path(src: &FilePath, here: &Facts, taken: u32) -> (r: Result<CopyPlan, FsError>)
    ensures
        is_plan(
            r,
            if here.exists {
                copy_place(src@, here.is_dir, taken as nat)
            } else {
                Err(FsError::Gone)
            },
            *here,
        ),
{
    if !here.exists {
        return Err(FsError::Gone);
    }
    match copy_target(src, here.is_dir, taken) {
        Ok(dst) => plan_copy(dst, here),
        Err(e) => Err(e),
    }
}

// ---------------------------------------------------------------------
// Pasting

/// The part of a name in front of the last dot, unless the name starts with
/// it or is a folder's.
pub open spec fn paste_stem(name: Seq<char>, is_dir: bool) -> Seq<char> {
    if is_dir {
        name
    } else {
        stem_of(name)
    }
}

/// The rest of a name behind [`paste_stem`].
pub open spec fn paste_ext(name: Seq<char>, is_dir: bool) -> Seq<char> {
    name.skip(paste_stem(name, is_dir).len() as int)
}

/// The name under which `name` is pasted when `taken` names were found taken:
/// the plain name, then `notes-copy.txt`, then `notes-copy (2).txt`, … After
/// ten thousand the fraction of a second makes the name.
pub open spec fn paste_name(name: Seq<char>, is_dir: bool, taken: nat, nanos: u32) -> Seq<char> {
    if taken == 0 {
        name
    } else if taken <= MAX_COPY_NUMBER {
        numbered(paste_stem(name, is_dir), "-copy"@, taken, paste_ext(name, is_dir))
    } else {
        paste_stem(name, is_dir) + "-copy-"@ + hex_lower(nanos as nat) + paste_ext(name, is_dir)
    }
}

/// The next sibling to try for pasting `name` into `dir`, when `taken` of
/// them were found taken: the plain name when free, else `{stem}-copy{ext}`,
/// `{stem}-copy (2){ext}`, … Directories treat the whole name as the stem
/// (extension would be meaningless). With ten thousand taken, the name made
/// of `nanos` is not tried but used.
pub fn paste_target(dir: &FilePath, name: &str, is_dir: bool, taken: u32, nanos: u32) -> (r:
    FilePath)
    ensures
        r@ == joined(dir@, paste_name(name@, is_dir, taken as nat, nanos)),
{
    if taken == 0 {
        return dir.join(name);
    }
    let v = chars_of(name);
    let base = if is_dir {
        String::from_str(name)
    } else {
        stem(name)
    };
    let n: usize = chars_of(base.as_str()).len();
    proof {
        stem_is_prefix(name@);
    }
    let ext = crate::text::string_of_range(&v, n, v.len());
    let full = if taken <= MAX_COPY_NUMBER {
        numbered_name(base.as_str(), "-copy", taken, ext.as_str())
    } else {
        let digits = hex_lower_text(nanos as u64);
        let head = concat3(base.as_str(), "-copy-", digits.as_str());
        concat2(head.as_str(), ext.as_str())
    };
    dir.join(full.as_str())
}

proof fn stem_is_prefix(name: Seq<char>)
    ensures
        stem_of(name).len() <= name.len(),
{
    last_dot_bound(name);
}

proof fn last_dot_bound(name: Seq<char>)
    ensures
        -1 <= last_dot(name) < name.len(),
    decreases name.len(),
{
    if name.len() > 0 {
        last_dot_bound(name.drop_last());
    }
}

/// Where pasting puts the copy, or why not.
pub open spec fn paste_result(
    src: Seq<char>,
    dir: Seq<char>,
    here: Facts,
    dir_is_dir: bool,
    taken: nat,
    nanos: u32,
) -> Result<Seq<char>, FsError> {
    if !here.exists {
        Err(FsError::SourceGone)
    } else if !dir_is_dir {
        Err(FsError::NotAFolder)
    } else {
        match file_name(src) {
            None => Err(FsError::NoFileName),
            Some(n) => Ok(joined(dir, paste_name(n, here.is_dir, taken, nanos))),
        }
    }
}

/// Paste a copied file/folder into `dir`. Keeps the original name when free,
/// otherwise appends `-copy` (`notes-copy.txt`, then `notes-copy (2).txt`),
/// so pasting into the source's own folder never collides. `taken` says how
/// many of these names were found taken. Missing sources are reported, not
/// silently skipped.
pub fn paste_into(
    src: &FilePath,
    dir: &FilePath,
    here: &Facts,
    dir_is_dir: bool,
    taken: u32,
    nanos: u32,
) -> (r: Result<CopyPlan, FsError>)
    ensures
        is_plan(r, paste_result(src@, dir@, *here, dir_is_dir, taken as nat, nanos), *here),
{
    if !here.exists {
        return Err(FsError::SourceGone);
    }
    if !dir_is_dir {
        return Err(FsError::NotAFolder);
    }
    match src.file_name() {
        Some(n) => plan_copy(paste_target(dir, n.as_str(), here.is_dir, taken, nanos), here),
        None => Err(FsError::NoFileName),
    }
}

// ---------------------------------------------------------------------
// Moving and deleting

/// A file or folder to be moved to `dst`, unless it is there already.
#[derive(Debug)]
pub struct MovePlan {
    pub dst: FilePath,
    pub stays: bool,
}

/// Where moving puts the path, or why not.
pub open spec fn move_result(
    src: Seq<char>,
    dir: Seq<char>,
    here: Facts,
    dir_is_dir: bool,
    taken: bool,
) -> Result<Seq<char>, FsError> {
    if !here.exists {
        Err(FsError::Gone)
    } else if !dir_is_dir {
        Err(FsError::NotAFolder)
    } else {
        match file_name(src) {
            None => Err(FsError::NoFileName),
            Some(n) => {
                let dst = joined(dir, n);
                if same_path(dst, src) {
                    Ok(dst)
                } else if taken {
                    Err(FsError::NameTaken)
                } else if here.is_dir && under(dst, src) {
                    Err(FsError::IntoItself)
                } else {
                    Ok(dst)
                }
            },
        }
    }
}

/// The path that `src` has once it is moved into `dir`.
pub fn move_target(src: &FilePath, dir: &FilePath) -> (r: Option<FilePath>)
    ensures
        match (r, file_name(src@)) {
            (Some(p), Some(n)) => p@ == joined(dir@, n),
            (None, None) => true,
            _ => false,
        },
{
    match src.file_name() {
        Some(n) => Some(dir.join(n.as_str())),
        None => None,
    }
}

/// Move a file or directory into another folder (drag and drop).
/// Keeps the name; refuses on conflict instead of overwriting. Dropping an
/// item into its own folder is a no-op success. Moving a folder into itself
/// or one of its children is refused. `taken` says whether something is at
/// the new path.
pub fn move_into(
    src: &FilePath,
    dir: &FilePath,
    here: &Facts,
    dir_is_dir: bool,
    taken: bool,
) -> (r: Result<MovePlan, FsError>)
    ensures
        match (r, move_result(src@, dir@, *here, dir_is_dir, taken)) {
            (Ok(p), Ok(t)) => p.dst@ == t && p.stays == same_path(t, src@),
            (Err(e), Err(x)) => e == x,
            _ => false,
        },
{
    if !here.exists {
        return Err(FsError::Gone);
    }
    if !dir_is_dir {
        return Err(FsError::NotAFolder);
    }
    let dst = match move_target(src, dir) {
        Some(p) => p,
        None => {
            return Err(FsError::NoFileName);
        },
    };
    if dst.same(src) {
        return Ok(MovePlan { dst, stays: true });  // dropped into its own folder
    }
    if taken {
        return Err(FsError::NameTaken);
    }
    if here.is_dir && dst.starts_with(src) {
        return Err(FsError::IntoItself);
    }
    Ok(MovePlan { dst, stays: false })
}

/// What came of handing a path to the system's Recycle Bin.
#[derive(Debug, Clone, Copy)]
pub enum RecycleOutcome {
    /// The platform has none.
    Unsupported,
    /// The code that the system returned, and whether anything was aborted.
    Returned { code: i32, aborted: bool },
}

/// Why a path was not recycled.
#[derive(Debug, Clone, Copy, PartialEq, Eq, Structural)]
pub enum RecycleError {
    /// No portable trash here — refuse rather than permanently delete.
    Unsupported,
    /// The system failed with this code.
    Failed(i32),
    /// The system gave up half way.
    Aborted,
}

/// Why a path was not recycled, if it was not.
pub open spec fn recycle_error(outcome: RecycleOutcome) -> Option<RecycleError> {
    match outcome {
        RecycleOutcome::Unsupported => Some(RecycleError::Unsupported),
        RecycleOutcome::Returned { code, aborted } => if code != 0 {
            Some(RecycleError::Failed(code))
        } else if aborted {
            Some(RecycleError::Aborted)
        } else {
            None
        },
    }
}

/// Moves a file or directory to the Recycle Bin (undoable delete): whether
/// what came back means that it worked.
pub fn move_to_recycle_bin(outcome: RecycleOutcome) -> (r: Result<(), RecycleError>)
    ensures
        match r {
            Ok(()) => recycle_error(outcome) is None,
            Err(e) => recycle_error(outcome) == Some(e),
        },
{
    match outcome {
        RecycleOutcome::Unsupported => Err(RecycleError::Unsupported),
        RecycleOutcome::Returned { code, aborted } => {
            if code != 0 {
                Err(RecycleError::Failed(code))
            } else if aborted {
                Err(RecycleError::Aborted)
            } else {
                Ok(())
            }
        },
    }
}

/// Why a path was not deleted.
#[derive(Debug, Clone, Copy, PartialEq, Eq, Structural)]
pub enum DeleteError {
    Refused(FsError),
    Recycle(RecycleError),
}

/// Send a file or directory to the Recycle Bin (undoable). A path that no
/// longer exists is refused, whatever the bin would say; refusing where there
/// is no bin beats silently destroying data.
pub fn delete_path(exists: bool, outcome: RecycleOutcome) -> (r: Result<(), DeleteError>)
    ensures
        match r {
            Ok(()) => exists && recycle_error(outcome) is None,
            Err(DeleteError::Refused(e)) => !exists && e == FsError::Gone,
            Err(DeleteError::Recycle(e)) => exists && recycle_error(outcome) == Some(e),
        },
{
    if !exists {
        return Err(DeleteError::Refused(FsError::Gone));
    }
    match move_to_recycle_bin(outcome) {
        Ok(()) => Ok(()),
        Err(e) => Err(DeleteError::Recycle(e)),
    }
}

// ---------------------------------------------------------------------
// Copying folders

/// A child of a folder that is copied, links not followed.
#[derive(Debug)]
pub struct DirChild {
    pub name: String,
    pub is_symlink: bool,
    pub is_dir: bool,
    pub is_file: bool,
}

/// One file to copy, or one folder to go on with.
#[derive(Debug)]
pub struct CopyStep {
    pub from: FilePath,
    pub to: FilePath,
    pub is_dir: bool,
}

/// Where a child is copied from and to, and whether it is a folder.
pub ghost struct StepView {
    pub from: Seq<char>,
    pub to: Seq<char>,
    pub is_dir: bool,
}

/// The children that are copied, in order. Links are never followed; what is
/// neither file nor folder is left out.
pub open spec fn dir_steps(src: Seq<char>, dst: Seq<char>, children: Seq<DirChild>) -> Seq<StepView>
    decreases children.len(),
{
    if children.len() == 0 {
        Seq::empty()
    } else {
        let steps = dir_steps(src, dst, children.drop_last());
        let c = children.last();
        if !c.is_symlink && (c.is_dir || c.is_file) {
            steps.push(
                StepView {
                    from: joined(src, c.name@),
                    to: joined(dst, c.name@),
                    is_dir: c.is_dir,
                },
            )
        } else {
            steps
        }
    }
}

/// The values of copy steps.
pub open spec fn step_views(v: Seq<CopyStep>) -> Seq<StepView> {
    Seq::new(v.len(), |i: int| StepView { from: v[i].from@, to: v[i].to@, is_dir: v[i].is_dir })
}

/// What copying the folder `src` to `dst` does with its children.
pub fn copy_dir_recursive(src: &FilePath, dst: &FilePath, children: &Vec<DirChild>) -> (r: Vec<
    CopyStep,
>)
    ensures
        step_views(r@) == dir_steps(src@, dst@, children@),
{
    let mut out: Vec<CopyStep> = Vec::new();
    for i in 0..children.len()
        invariant
            step_views(out@) =~= dir_steps(src@, dst@, children@.take(i as int)),
    {
        let c = &children[i];
        assert(children@.take(i + 1).drop_last() =~= children@.take(i as int));
        // Never follow symlinks/reparse points (matches the scanner).
        if !c.is_symlink && (c.is_dir || c.is_file) {
            let ghost was = step_views(out@);
            let step = CopyStep {
                from: src.join(c.name.as_str()),
                to: dst.join(c.name.as_str()),
                is_dir: c.is_dir,
            };
            out.push(step);
            assert(step_views(out@) =~= was.push(
                StepView { from: step.from@, to: step.to@, is_dir: step.is_dir },
            ));
        }
    }
    assert(children@.take(children@.len() as int) =~= children@);
    out
}

// ---------------------------------------------------------------------
// Messages

/// What the UI shows for an error about `subject`.
pub open spec fn fs_message(e: FsError, subject: Seq<char>) -> Seq<char> {
    match e {
        FsError::Gone => "no longer exists: "@ + subject,
        FsError::SourceGone => "source no longer exists: "@ + subject,
        FsError::EmptyName => "name is empty"@,
        FsError::BadName => "name must not contain path separators"@,
        FsError::NoParent => "no parent: "@ + subject,
        FsError::SameName => "same name — nothing to do"@,
        FsError::NameTaken => "name already exists"@,
        FsError::NotAFolder => "not a folder: "@ + subject,
        FsError::NoFileName => "no file name: "@ + subject,
        FsError::NotFileOrDir => "not a file or directory: "@ + subject,
        FsError::CannotCopy => "cannot copy: "@ + subject,
        FsError::TooManyCopies => "too many copies of "@ + subject,
        FsError::IntoItself => "can't move a folder into itself"@,
    }
}

impl FsError {
    /// What the UI shows for the error. `subject` is the target folder for
    /// [`FsError::NotAFolder`], else the path that the operation is about.
    pub fn message(&self, subject: &FilePath) -> (r: String)
        ensures
            r@ == fs_message(*self, subject@),
    {
        match self {
            FsError::Gone => concat2("no longer exists: ", subject.as_str()),
            FsError::SourceGone => concat2("source no longer exists: ", subject.as_str()),
            FsError::EmptyName => String::from_str("name is empty"),
            FsError::BadName => String::from_str("name must not contain path separators"),
            FsError::NoParent => concat2("no parent: ", subject.as_str()),
            FsError::SameName => String::from_str("same name — nothing to do"),
            FsError::NameTaken => String::from_str("name already exists"),
            FsError::NotAFolder => concat2("not a folder: ", subject.as_str()),
            FsError::NoFileName => concat2("no file name: ", subject.as_str()),
            FsError::NotFileOrDir => concat2("not a file or directory: ", subject.as_str()),
            FsError::CannotCopy => concat2("cannot copy: ", subject.as_str()),
            FsError::TooManyCopies => concat2("too many copies of ", subject.as_str()),
            FsError::IntoItself => String::from_str("can't move a folder into itself"),
        }
    }
}

/// A code as an unsigned number of 32 bits.
pub open spec fn code_bits(code: i32) -> nat {
    (code as int % 0x1_0000_0000) as nat
}

/// What the UI shows when a path was not recycled.
pub open spec fn recycle_message(e: RecycleError, subject: Seq<char>) -> Seq<char> {
    match e {
        RecycleError::Unsupported => "recycle bin not supported on this platform ("@ + subject
            + ")"@,
        RecycleError::Failed(code) => "recycle failed (0x"@ + hex_upper(code_bits(code)) + ") for "@
            + subject,
        RecycleError::Aborted => "recycle aborted for "@ + subject,
    }
}

impl RecycleError {
    /// What the UI shows for the error.
    pub fn message(&self, subject: &FilePath) -> (r: String)
        ensures
            r@ == recycle_message(*self, subject@),
    {
        match self {
            RecycleError::Unsupported => concat3(
                "recycle bin not supported on this platform (",
                subject.as_str(),
                ")",
            ),
            RecycleError::Failed(code) => {
                let bits: u64 = if *code < 0 {
                    0xffff_ffff - (-(*code + 1)) as u64
                } else {
                    *code as u64
                };
                let digits = hex_upper_text(bits);
                let head = concat2("recycle failed (0x", digits.as_str());
                concat3(head.as_str(), ") for ", subject.as_str())
            },
            RecycleError::Aborted => concat2("recycle aborted for ", subject.as_str()),
        }
    }
}

// ---------------------------------------------------------------------
// Laws

/// Names with different numbers differ, so trying one after the other never
/// tries a name twice.
pub proof fn numbered_names_differ(
    stem: Seq<char>,
    suffix: Seq<char>,
    ext: Seq<char>,
    a: nat,
    b: nat,
)
    requires
        1 <= a < b,
    ensures
        numbered(stem, suffix, a, ext) != numbered(stem, suffix, b, ext),
{
    reveal_strlit(" (");
    reveal_strlit(")");
    let x = numbered(stem, suffix, a, ext);
    let y = numbered(stem, suffix, b, ext);
    let n = stem.len() + suffix.len();
    if x == y {
        if a < 2 {
            assert(y.len() > n + ext.len());
        } else {
            let d = decimal(a);
            let e = decimal(b);
            assert(y.len() == n + 3 + e.len() + ext.len());
            assert forall|i: int| 0 <= i < d.len() implies d[i] == e[i] by {
                assert(y[n + 2 + i] == e[i]);
            }
            assert(d =~= e);
            decimal_injective(a, b);
        }
    }
}

/// Pasting under another name than the plain one never collides with the
/// source, whatever its name.
pub proof fn pasted_name_is_new(name: Seq<char>, is_dir: bool, taken: nat, nanos: u32)
    requires
        taken > 0,
    ensures
        paste_name(name, is_dir, taken, nanos) != name,
{
    reveal_strlit("-copy");
    reveal_strlit("-copy-");
    reveal_strlit(" (");
    reveal_strlit(")");
    stem_is_prefix(name);
}

/// Renaming leaves a path in its folder, under the new name. (The folder's
/// text must not be the bare start of a prefix, see [`join_parts`].)
pub proof fn renamed_stays_in_folder(path: Seq<char>, new_name: Seq<char>, taken: bool)
    requires
        rename_result(path, new_name, true, taken) is Ok,
        plain_name(trimmed(new_name)),
        parent(path) matches Some(p) && prefix_len(joined(p, trimmed(new_name))) <= p.len() && (
        verbatim(p) ==> rooted(p)),
    ensures
        rename_result(path, new_name, true, taken) matches Ok(dst) && {
            &&& file_name(dst) == Some(trimmed(new_name))
            &&& parent(dst) matches Some(q) && same_path(q, parent(path).unwrap())
            &&& !taken
        },
{
    join_parts(parent(path).unwrap(), trimmed(new_name));
}

/// A folder is never moved below itself, and nothing is moved onto something
/// else.
pub proof fn moves_are_safe(
    src: Seq<char>,
    dir: Seq<char>,
    here: Facts,
    dir_is_dir: bool,
    taken: bool,
)
    ensures
        move_result(src, dir, here, dir_is_dir, taken) matches Ok(dst) ==> same_path(dst, src) || (
        !taken && (here.is_dir ==> !under(dst, src))),
{
}

} // verus!
