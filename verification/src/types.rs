//! What the index knows of one file or folder.

use crate::bytes::as_signed;
use crate::file_path::{extension, FilePath};
use crate::paths::{extension_of, file_name, path_key};
use crate::text::{chars_of, lowercase, to_lower};
use vstd::prelude::*;

verus! {

/// A file or folder.
#[derive(Debug)]
pub struct FileEntry {
    pub path: FilePath,
    /// File name only (no parent), e.g. `notes.txt`
    pub name: String,
    /// Lowercased name for fast case-insensitive search. Precomputed once at scan.
    pub name_lower: String,
    pub ext: String,
    pub size: u64,
    /// Unix millis. 0 if unknown.
    pub mtime_ms: i64,
    pub is_dir: bool,
    /// Raw Win32 attributes (FILE_ATTRIBUTE_*). 0 on non-Windows / unknown.
    pub attributes: u32,
}

/// The values that an entry holds.
pub ghost struct Entry {
    pub path: Seq<char>,
    pub name: Seq<char>,
    pub name_lower: Seq<char>,
    pub ext: Seq<char>,
    pub size: u64,
    pub mtime_ms: i64,
    pub is_dir: bool,
    pub attributes: u32,
}

impl View for FileEntry {
    type V = Entry;

    open spec fn view(&self) -> Entry {
        Entry {
            path: self.path@,
            name: self.name@,
            name_lower: self.name_lower@,
            ext: self.ext@,
            size: self.size,
            mtime_ms: self.mtime_ms,
            is_dir: self.is_dir,
            attributes: self.attributes,
        }
    }
}

impl Clone for FileEntry {
    fn clone(&self) -> (r: FileEntry)
        ensures
            r == *self,
    {
        FileEntry {
            path: self.path.clone(),
            name: self.name.clone(),
            name_lower: self.name_lower.clone(),
            ext: self.ext.clone(),
            size: self.size,
            mtime_ms: self.mtime_ms,
            is_dir: self.is_dir,
            attributes: self.attributes,
        }
    }
}

/// The name that a path gives its entry: the file name, or nothing.
pub open spec fn entry_name(path: Seq<char>) -> Seq<char> {
    match file_name(path) {
        Some(n) => n,
        None => Seq::empty(),
    }
}

/// The extension that a path gives its entry, in lowercase.
pub open spec fn entry_ext(path: Seq<char>) -> Seq<char> {
    match file_name(path) {
        Some(n) => match extension_of(n) {
            Some(x) => lowercase(x),
            None => Seq::empty(),
        },
        None => Seq::empty(),
    }
}

/// The entry of the file or folder at `path`.
pub open spec fn entry_at(
    path: Seq<char>,
    is_dir: bool,
    size: u64,
    mtime_ms: i64,
    attributes: u32,
) -> Entry {
    Entry {
        path,
        name: entry_name(path),
        name_lower: lowercase(entry_name(path)),
        ext: entry_ext(path),
        size,
        mtime_ms,
        is_dir,
        attributes,
    }
}

impl FileEntry {
    /// The key of the entry's path.
    pub open spec fn key(&self) -> Seq<char> {
        path_key(self.path@)
    }

    /// The entry of the file or folder at `path`.
    pub fn from_path(
        path: FilePath,
        is_dir: bool,
        size: u64,
        mtime_ms: i64,
        attributes: u32,
    ) -> (r: FileEntry)
        ensures
            r.path == path,
            r@ == entry_at(path@, is_dir, size, mtime_ms, attributes),
    {
        let name = match path.file_name() {
            Some(n) => n,
            None => String::new(),
        };
        let ext = match extension(name.as_str()) {
            Some(x) => to_lower(x.as_str()),
            None => String::new(),
        };
        let name_lower = to_lower(name.as_str());
        proof {
            assert(ext@ =~= entry_ext(path@));
        }
        FileEntry { path, name, name_lower, ext, size, mtime_ms, is_dir, attributes }
    }

    /// Whether the entry is hidden: by attribute, or by a leading dot.
    pub fn is_hidden(&self) -> (r: bool)
        ensures
            r == (self.attributes & 0x2 != 0 || (self.name@.len() > 0 && self.name@[0] == '.')),
    {
        // 0x2 = FILE_ATTRIBUTE_HIDDEN
        if self.attributes & 0x2 != 0 {
            return true;
        }
        let v = chars_of(self.name.as_str());
        v.len() > 0 && v[0] == '.'
    }
}

// ---------------------------------------------------------------------
// Rows of the saved index

/// One row of the table `files`, in the column types of the database.
#[derive(Debug)]
pub struct FileRow {
    pub path: String,
    pub name: String,
    pub name_lower: String,
    pub ext: String,
    pub size: i64,
    pub mtime_ms: i64,
    pub is_dir: i32,
    pub attributes: i64,
}

/// Whether `row` is what is saved of `e`.
pub open spec fn is_row_of(row: FileRow, e: FileEntry) -> bool {
    &&& row.path@ == e.path@
    &&& row.name@ == e.name@
    &&& row.name_lower@ == e.name_lower@
    &&& row.ext@ == e.ext@
    &&& row.size == as_signed(e.size as int)
    &&& row.mtime_ms == e.mtime_ms
    &&& row.is_dir == if e.is_dir {
        1int
    } else {
        0
    }
    &&& row.attributes == e.attributes
}

/// Whether `e` is what a saved row stands for.
pub open spec fn is_entry_of(e: FileEntry, row: FileRow) -> bool {
    &&& e.path@ == row.path@
    &&& e.name@ == row.name@
    &&& e.name_lower@ == row.name_lower@
    &&& e.ext@ == row.ext@
    &&& e.size == row.size as int % 0x1_0000_0000_0000_0000
    &&& e.mtime_ms == row.mtime_ms
    &&& e.is_dir == (row.is_dir != 0)
    &&& e.attributes == row.attributes as int % 0x1_0000_0000
}

/// Whether two rows hold the same values.
pub open spec fn same_row(a: FileRow, b: FileRow) -> bool {
    &&& a.path@ == b.path@
    &&& a.name@ == b.name@
    &&& a.name_lower@ == b.name_lower@
    &&& a.ext@ == b.ext@
    &&& a.size == b.size
    &&& a.mtime_ms == b.mtime_ms
    &&& a.is_dir == b.is_dir
    &&& a.attributes == b.attributes
}

/// The 64 bits of a signed number, read as an unsigned one.
fn unsigned(n: i64) -> (r: u64)
    ensures
        r == n as int % 0x1_0000_0000_0000_0000,
{
    if n < 0 {
        let magnitude: u64 = (-(n + 1)) as u64;
        0xffff_ffff_ffff_ffff - magnitude
    } else {
        n as u64
    }
}

/// The row that saves an entry.
pub fn to_row(e: &FileEntry) -> (r: FileRow)
    ensures
        is_row_of(r, *e),
{
    let size: i64 = if e.size >= 0x8000_0000_0000_0000 {
        -((0xffff_ffff_ffff_ffff - e.size) as i64) - 1
    } else {
        e.size as i64
    };
    FileRow {
        path: e.path.text.clone(),
        name: e.name.clone(),
        name_lower: e.name_lower.clone(),
        ext: e.ext.clone(),
        size,
        mtime_ms: e.mtime_ms,
        is_dir: if e.is_dir {
            1
        } else {
            0
        },
        attributes: e.attributes as i64,
    }
}

/// The entry that a row stands for.
pub fn from_row(row: &FileRow) -> (r: FileEntry)
    ensures
        is_entry_of(r, *row),
{
    let bits: u64 = unsigned(row.attributes);
    FileEntry {
        path: FilePath { text: row.path.clone() },
        name: row.name.clone(),
        name_lower: row.name_lower.clone(),
        ext: row.ext.clone(),
        size: unsigned(row.size),
        mtime_ms: row.mtime_ms,
        is_dir: row.is_dir != 0,
        attributes: (bits % 0x1_0000_0000) as u32,
    }
}

/// Loading a saved row gives the entry back.
pub proof fn row_round_trip(e: FileEntry, row: FileRow, loaded: FileEntry)
    requires
        is_row_of(row, e),
        is_entry_of(loaded, row),
    ensures
        loaded@ == e@,
{
}

} // verus!
