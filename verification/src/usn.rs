//! USN Change Journal reader (NTFS, optional, needs admin).
//! Portable base works without it (scan + watcher).
//! When elevated, this gives ms-level deltas without rescanning.
//!
//! Design: query journal -> READ_USN_JOURNAL in pages -> parse USN_RECORD_V2/V3.
//! Full FRN->path resolution is NOT done here (needs MFT walk); entries hold
//! parent FRN + name + reason, enough to invalidate/update index entries
//! and to prove elevation + journal health.

use crate::bytes::{
    as_signed, decode_utf16_lossy, le16, le32, le64, push_u16, push_u32, push_u64, read_i64,
    read_u16, read_u32, read_u64, read_units, units_at, utf16_text_lossy,
};
use crate::file_path::FilePath;
use crate::text::{
    begins_with, byte_len, chars_of, concat2, concat3, hex_lower, hex_lower_text, hex_upper,
    hex_upper_text, signed_decimal, signed_decimal_text, text_begins_with,
};
use vstd::prelude::*;

verus! {

// ---------------------------------------------------------------------
// Reasons

/// winioctl.h USN_REASON_* (subset, most common first).
pub open spec fn reason_flags() -> Seq<(u32, Seq<char>)> {
    seq![
        (0x00000001, "DATA_OVERWRITE"@),
        (0x00000002, "DATA_EXTEND"@),
        (0x00000004, "DATA_TRUNCATION"@),
        (0x00000010, "NAMED_DATA_OVERWRITE"@),
        (0x00000020, "NAMED_DATA_EXTEND"@),
        (0x00000040, "NAMED_DATA_TRUNCATION"@),
        (0x00000100, "FILE_CREATE"@),
        (0x00000200, "FILE_DELETE"@),
        (0x00000400, "EA_CHANGE"@),
        (0x00000800, "SECURITY_CHANGE"@),
        (0x00001000, "RENAME_OLD"@),
        (0x00002000, "RENAME_NEW"@),
        (0x00004000, "INDEXABLE_CHANGE"@),
        (0x00008000, "BASIC_INFO_CHANGE"@),
        (0x00010000, "HARD_LINK_CHANGE"@),
        (0x00020000, "COMPRESSION_CHANGE"@),
        (0x00040000, "ENCRYPTION_CHANGE"@),
        (0x00080000, "OBJECT_ID_CHANGE"@),
        (0x00100000, "REPARSE_POINT_CHANGE"@),
        (0x00200000, "STREAM_CHANGE"@),
        (0x80000000, "CLOSE"@),
    ]
}

/// The names of the flags that are set.
pub open spec fn set_flags(reason: u32, flags: Seq<(u32, Seq<char>)>) -> Seq<Seq<char>>
    decreases flags.len(),
{
    if flags.len() == 0 {
        Seq::empty()
    } else {
        let names = set_flags(reason, flags.drop_last());
        if reason & flags.last().0 != 0 {
            names.push(flags.last().1)
        } else {
            names
        }
    }
}

/// Names with a bar between them.
pub open spec fn barred(names: Seq<Seq<char>>) -> Seq<char>
    decreases names.len(),
{
    if names.len() == 0 {
        Seq::empty()
    } else if names.len() == 1 {
        names[0]
    } else {
        barred(names.drop_last()) + "|"@ + names.last()
    }
}

/// A reason in words: its flags, or its number if none is known.
pub open spec fn reason_text(reason: u32) -> Seq<char> {
    let names = set_flags(reason, reason_flags());
    if names.len() == 0 {
        "0x"@ + hex_upper(reason as nat)
    } else {
        barred(names)
    }
}

fn flag_table() -> (r: Vec<(u32, &'static str)>)
    ensures
        r@.len() == reason_flags().len(),
        forall|i: int|
            0 <= i < r@.len() ==> (#[trigger] r@[i]).0 == reason_flags()[i].0 && r@[i].1@
                == reason_flags()[i].1,
{
    let r: Vec<(u32, &'static str)> = vec![
        (0x00000001, "DATA_OVERWRITE"),
        (0x00000002, "DATA_EXTEND"),
        (0x00000004, "DATA_TRUNCATION"),
        (0x00000010, "NAMED_DATA_OVERWRITE"),
        (0x00000020, "NAMED_DATA_EXTEND"),
        (0x00000040, "NAMED_DATA_TRUNCATION"),
        (0x00000100, "FILE_CREATE"),
        (0x00000200, "FILE_DELETE"),
        (0x00000400, "EA_CHANGE"),
        (0x00000800, "SECURITY_CHANGE"),
        (0x00001000, "RENAME_OLD"),
        (0x00002000, "RENAME_NEW"),
        (0x00004000, "INDEXABLE_CHANGE"),
        (0x00008000, "BASIC_INFO_CHANGE"),
        (0x00010000, "HARD_LINK_CHANGE"),
        (0x00020000, "COMPRESSION_CHANGE"),
        (0x00040000, "ENCRYPTION_CHANGE"),
        (0x00080000, "OBJECT_ID_CHANGE"),
        (0x00100000, "REPARSE_POINT_CHANGE"),
        (0x00200000, "STREAM_CHANGE"),
        (0x80000000, "CLOSE"),
    ];
    r
}

/// A reason in words.
pub fn reason_to_str(reason: u32) -> (r: String)
    ensures
        r@ == reason_text(reason),
{
    let flags = flag_table();
    let ghost table = reason_flags();
    let mut out = String::new();
    let mut none = true;
    for i in 0..flags.len()
        invariant
            table == reason_flags(),
            flags@.len() == table.len(),
            forall|i: int|
                0 <= i < flags@.len() ==> (#[trigger] flags@[i]).0 == table[i].0 && flags@[i].1@
                    == table[i].1,
            out@ == barred(set_flags(reason, table.take(i as int))),
            none == (set_flags(reason, table.take(i as int)).len() == 0),
    {
        let (mask, name) = flags[i];
        let ghost names = set_flags(reason, table.take(i as int));
        proof {
            assert(table.take(i + 1).drop_last() =~= table.take(i as int));
            assert(names.push(name@).drop_last() =~= names);
        }
        if reason & mask != 0 {
            if none {
                out = String::from_str(name);
                none = false;
            } else {
                out = concat3(out.as_str(), "|", name);
            }
        }
    }
    assert(table.take(table.len() as int) =~= table);
    if none {
        let digits = hex_upper_text(reason as u64);
        concat2("0x", digits.as_str())
    } else {
        out
    }
}

// ---------------------------------------------------------------------
// Volumes

/// The root of the volume that a path is on.
pub open spec fn volume_root(t: Seq<char>) -> Seq<char> {
    if t.len() >= 2 && t[1] == ':' {
        seq![t[0]] + ":\\"@
    } else if begins_with(t, "\\\\?\\"@) && byte_len(t) >= 7 && t.len() > 4 {
        seq![t[4]] + ":\\"@
    } else {
        "C:\\"@
    }
}

/// The letter of a volume's drive.
pub open spec fn drive_letter(root: Seq<char>) -> char {
    if root.len() > 0 {
        root[0]
    } else {
        'C'
    }
}

/// `C:\foo` -> `C:\`, `\\?\C:\...` -> keep drive letter logic simple.
pub fn volume_root_of(p: &FilePath) -> (r: FilePath)
    ensures
        r@ == volume_root(p@),
{
    let v = chars_of(p.as_str());
    let letter: char;
    if v.len() >= 2 && v[1] == ':' {
        letter = v[0];
    } else if text_begins_with(p.as_str(), "\\\\?\\") && p.as_str().len() >= 7 && v.len() > 4 {
        letter = v[4];
    } else {
        return FilePath::new("C:\\");
    }
    let mut s = String::new();
    s.push(letter);
    s.append(":\\");
    FilePath { text: s }
}

/// The letter of a volume's drive.
pub fn drive_letter_of(root: &FilePath) -> (r: char)
    ensures
        r == drive_letter(root@),
{
    let v = chars_of(root.as_str());
    if v.len() > 0 {
        v[0]
    } else {
        'C'
    }
}

/// The device under which a drive is opened.
pub fn volume_device(drive: char) -> (r: String)
    ensures
        r@ == "\\\\.\\"@ + seq![drive] + ":"@,
{
    let mut s = String::from_str("\\\\.\\");
    s.push(drive);
    s.append(":");
    s
}

// ---------------------------------------------------------------------
// Records

/// One change.
#[derive(Debug)]
pub struct UsnEntry {
    pub frn: u64,
    pub parent_frn: u64,
    pub usn: i64,
    pub reason: u32,
    pub reason_str: String,
    pub name: String,
    pub is_dir: bool,
}

/// The values of one change.
pub ghost struct UsnFields {
    pub frn: int,
    pub parent_frn: int,
    pub usn: int,
    pub reason: int,
    pub reason_str: Seq<char>,
    pub name: Seq<char>,
    pub is_dir: bool,
}

impl View for UsnEntry {
    type V = UsnFields;

    open spec fn view(&self) -> UsnFields {
        UsnFields {
            frn: self.frn as int,
            parent_frn: self.parent_frn as int,
            usn: self.usn as int,
            reason: self.reason as int,
            reason_str: self.reason_str@,
            name: self.name@,
            is_dir: self.is_dir,
        }
    }
}

/// What a record says. USN_RECORD_V2/V3 common prefix (little-endian):
/// u32 RecordLength, u16 Major, u16 Minor,
/// u64 FRN, u64 ParentFRN, i64 Usn, i64 Time,
/// u32 Reason, u32 SourceInfo, u32 SecurityId, u32 Attrs,
/// u16 NameLen, u16 NameOff, [u16 name...]
pub open spec fn usn_fields(rec: Seq<u8>) -> Option<UsnFields> {
    let major = le16(rec, 4);
    let name_len = le16(rec, 56);
    let name_off = le16(rec, 58);
    if rec.len() < 60 || (major != 2 && major != 3) || name_off + name_len > rec.len() || name_len
        % 2 != 0 {
        None
    } else {
        Some(
            UsnFields {
                frn: le64(rec, 8),
                parent_frn: le64(rec, 16),
                usn: as_signed(le64(rec, 24)),
                reason: le32(rec, 40),
                reason_str: reason_text(le32(rec, 40) as u32),
                name: utf16_text_lossy(units_at(rec, name_off, (name_len / 2) as nat)),
                is_dir: (le32(rec, 52) as u32) & 0x1000_0000 != 0,
            },
        )
    }
}

/// Parses one record. Other versions than 2 and 3 are skipped.
pub fn parse_usn_record(rec: &[u8]) -> (r: Option<UsnEntry>)
    ensures
        match r {
            Some(e) => usn_fields(rec@) == Some(e@),
            None => usn_fields(rec@) is None,
        },
{
    if rec.len() < 60 {
        return None;
    }
    let major: u16 = read_u16(rec, 4);
    if major != 2 && major != 3 {
        return None;  // V4 (ReFS) skipped.
    }
    let frn: u64 = read_u64(rec, 8);
    let parent_frn: u64 = read_u64(rec, 16);
    let usn: i64 = read_i64(rec, 24);
    let reason: u32 = read_u32(rec, 40);
    let attrs: u32 = read_u32(rec, 52);
    let name_len: usize = read_u16(rec, 56) as usize;
    let name_off: usize = read_u16(rec, 58) as usize;
    if name_off + name_len > rec.len() || name_len % 2 != 0 {
        return None;
    }
    let units = read_units(rec, name_off, name_len / 2);
    let name = decode_utf16_lossy(&units);
    // 0x10000000 = FILE_ATTRIBUTE_DIRECTORY
    let is_dir = attrs & 0x1000_0000 != 0;
    Some(
        UsnEntry {
            frn,
            parent_frn,
            usn,
            reason,
            reason_str: reason_to_str(reason),
            name,
            is_dir,
        },
    )
}

/// The changes in a page from `off` on.
pub open spec fn page_records(b: Seq<u8>, off: int) -> Seq<UsnFields>
    decreases b.len() - off,
{
    let n = le32(b, off);
    if off < 0 || off + 4 > b.len() || n < 60 || off + n > b.len() {
        Seq::empty()
    } else {
        match usn_fields(b.subrange(off, off + n)) {
            Some(e) => seq![e] + page_records(b, off + n),
            None => page_records(b, off + n),
        }
    }
}

/// The values of changes.
pub open spec fn entry_fields(v: Seq<UsnEntry>) -> Seq<UsnFields> {
    Seq::new(v.len(), |i: int| v[i]@)
}

/// Adds the changes of a page as long as there is room. Gives the position of
/// the first change for which there was none.
fn read_page(buf: &[u8], out: &mut Vec<UsnEntry>, limit: usize) -> (r: Option<i64>)
    requires
        old(out)@.len() <= limit,
    ensures
        ({
            let all = entry_fields(old(out)@) + page_records(buf@, 8);
            match r {
                None => all.len() <= limit && entry_fields(final(out)@) == all,
                Some(u) => all.len() > limit && entry_fields(final(out)@) == all.take(
                    limit as int,
                ) && u == all[limit as int].usn,
            }
        }),
        final(out)@.len() <= limit,
{
    let ghost all = entry_fields(out@) + page_records(buf@, 8);
    let mut left: Option<i64> = None;
    let mut off: usize = 8;
    let mut going = buf.len() >= 8;
    while going
        invariant
            going ==> 8 <= off <= buf.len(),
            out@.len() <= limit,
            going ==> left is None,
            match left {
                None => all == entry_fields(out@) + if going {
                    page_records(buf@, off as int)
                } else {
                    Seq::empty()
                },
                Some(u) => all.len() > limit && entry_fields(out@) == all.take(limit as int) && u
                    == all[limit as int].usn,
            },
        decreases buf@.len() - off + if going {
            1int
        } else {
            0
        },
    {
        if buf.len() - off < 4 {
            going = false;
        } else {
            let n: u32 = read_u32(buf, off);
            if n < 60 || buf.len() - off < n as usize {
                going = false;
            } else {
                let rec = vstd::slice::slice_subrange(buf, off, off + n as usize);
                if let Some(e) = parse_usn_record(rec) {
                    if out.len() < limit {
                        out.push(e);
                        off += n as usize;
                    } else {
                        left = Some(e.usn);
                        going = false;
                        assert(entry_fields(out@) =~= all.take(limit as int));
                    }
                } else {
                    off += n as usize;
                }
            }
        }
    }
    left
}

// ---------------------------------------------------------------------
// The journal

/// What the journal says of itself.
#[derive(Debug, Clone, Copy, PartialEq, Eq, Structural)]
pub struct UsnJournalInfo {
    pub journal_id: u64,
    pub first_usn: i64,
    pub next_usn: i64,
    pub lowest_valid_usn: i64,
    pub max_usn: i64,
}

/// What asking the system for the journal came to.
#[derive(Debug)]
pub enum JournalProbe {
    /// There are no journals on this platform.
    NotWindows,
    /// The volume of this drive could not be opened.
    OpenFailed(char),
    /// The request failed, in the system's words.
    QueryFailed(String),
    /// USN_JOURNAL_DATA: u64 UsnJournalID, i64 FirstUsn, i64 NextUsn,
    /// i64 LowestValidUsn, i64 MaxUsn, …
    Data(Vec<u8>),
}

/// Why the journal cannot be read.
#[derive(Debug)]
pub enum UsnError {
    NotWindows,
    OpenFailed(char),
    QueryFailed(String),
    /// Reading a page failed, in the system's words, on the volume with this
    /// root.
    ReadFailed(String, FilePath),
}

/// The errors, as values.
pub ghost enum UsnErrorView {
    NotWindows,
    OpenFailed(char),
    QueryFailed(Seq<char>),
    ReadFailed(Seq<char>, Seq<char>),
}

impl View for UsnError {
    type V = UsnErrorView;

    open spec fn view(&self) -> UsnErrorView {
        match self {
            UsnError::NotWindows => UsnErrorView::NotWindows,
            UsnError::OpenFailed(c) => UsnErrorView::OpenFailed(*c),
            UsnError::QueryFailed(m) => UsnErrorView::QueryFailed(m@),
            UsnError::ReadFailed(m, root) => UsnErrorView::ReadFailed(m@, root@),
        }
    }
}

/// What the bytes of USN_JOURNAL_DATA say.
pub open spec fn journal_fields(b: Seq<u8>) -> UsnJournalInfo {
    UsnJournalInfo {
        journal_id: le64(b, 0) as u64,
        first_usn: as_signed(le64(b, 8)) as i64,
        next_usn: as_signed(le64(b, 16)) as i64,
        lowest_valid_usn: as_signed(le64(b, 24)) as i64,
        max_usn: as_signed(le64(b, 32)) as i64,
    }
}

/// What a probe of the journal means.
pub open spec fn journal_result(probe: JournalProbe) -> Result<UsnJournalInfo, UsnErrorView> {
    match probe {
        JournalProbe::NotWindows => Err(UsnErrorView::NotWindows),
        JournalProbe::OpenFailed(c) => Err(UsnErrorView::OpenFailed(c)),
        JournalProbe::QueryFailed(m) => Err(UsnErrorView::QueryFailed(m@)),
        JournalProbe::Data(b) => Ok(journal_fields(b@)),
    }
}

/// The least number of bytes of USN_JOURNAL_DATA that is read.
pub const JOURNAL_DATA_LEN: usize = 40;

/// Whether a probe brought enough bytes, if it brought any.
pub open spec fn probe_fits(probe: JournalProbe) -> bool {
    probe matches JournalProbe::Data(b) ==> b@.len() >= JOURNAL_DATA_LEN
}

/// The journal of the volume that was asked for it.
pub fn query_journal(probe: &JournalProbe) -> (r: Result<UsnJournalInfo, UsnError>)
    requires
        probe_fits(*probe),
    ensures
        match r {
            Ok(j) => journal_result(*probe) == Ok::<UsnJournalInfo, UsnErrorView>(j),
            Err(e) => journal_result(*probe) == Err::<UsnJournalInfo, UsnErrorView>(e@),
        },
{
    match probe {
        JournalProbe::NotWindows => Err(UsnError::NotWindows),
        JournalProbe::OpenFailed(c) => Err(UsnError::OpenFailed(*c)),
        JournalProbe::QueryFailed(m) => Err(UsnError::QueryFailed(m.clone())),
        JournalProbe::Data(v) => {
            let b = v.as_slice();
            Ok(
                UsnJournalInfo {
                    journal_id: read_u64(b, 0),
                    first_usn: read_i64(b, 8),
                    next_usn: read_i64(b, 16),
                    lowest_valid_usn: read_i64(b, 24),
                    max_usn: read_i64(b, 32),
                },
            )
        },
    }
}

/// What is shown for an error.
pub open spec fn usn_message(e: UsnErrorView) -> Seq<char> {
    match e {
        UsnErrorView::NotWindows => "USN is Windows/NTFS only"@,
        UsnErrorView::OpenFailed(c) => "open volume \\\\.\\"@ + seq![c] + ": (needs admin)"@,
        UsnErrorView::QueryFailed(m) => "FSCTL_QUERY_USN_JOURNAL failed: "@ + m
            + " (needs admin + NTFS)"@,
        UsnErrorView::ReadFailed(m, root) => "FSCTL_READ_USN_JOURNAL failed: "@ + m
            + " (is USN journal enabled on "@ + root + "?)"@,
    }
}

impl UsnError {
    /// What is shown for the error.
    pub fn message(&self) -> (r: String)
        ensures
            r@ == usn_message(self@),
    {
        match self {
            UsnError::NotWindows => String::from_str("USN is Windows/NTFS only"),
            UsnError::OpenFailed(c) => {
                let mut s = String::from_str("open volume \\\\.\\");
                s.push(*c);
                s.append(": (needs admin)");
                s
            },
            UsnError::QueryFailed(m) => concat3(
                "FSCTL_QUERY_USN_JOURNAL failed: ",
                m.as_str(),
                " (needs admin + NTFS)",
            ),
            UsnError::ReadFailed(m, root) => {
                let head = concat3(
                    "FSCTL_READ_USN_JOURNAL failed: ",
                    m.as_str(),
                    " (is USN journal enabled on ",
                );
                concat3(head.as_str(), root.as_str(), "?)")
            },
        }
    }
}

/// What is shown of the journal of a path's volume.
pub open spec fn status_text(path: Seq<char>, probe: JournalProbe) -> Seq<char> {
    match journal_result(probe) {
        Ok(j) => "USN ready: journal_id=0x"@ + hex_lower(j.journal_id as nat) + " first_usn="@
            + signed_decimal(j.first_usn as int) + " next_usn="@ + signed_decimal(
            j.next_usn as int,
        ) + " (elevated, NTFS)"@,
        Err(e) => if e is NotWindows {
            "USN unavailable (non-windows, path="@ + path + ")"@
        } else {
            "USN unavailable ("@ + usn_message(e)
                + "). Run elevated + NTFS for journal boost; base uses scan+watch."@
        },
    }
}

/// What is shown of the journal of a path's volume.
pub fn status_string(path: &FilePath, probe: &JournalProbe) -> (r: String)
    requires
        probe_fits(*probe),
    ensures
        r@ == status_text(path@, *probe),
{
    match query_journal(probe) {
        Ok(j) => {
            let id = hex_lower_text(j.journal_id);
            let first = signed_decimal_text(j.first_usn);
            let next = signed_decimal_text(j.next_usn);
            let a = concat3("USN ready: journal_id=0x", id.as_str(), " first_usn=");
            let b = concat3(a.as_str(), first.as_str(), " next_usn=");
            concat3(b.as_str(), next.as_str(), " (elevated, NTFS)")
        },
        Err(UsnError::NotWindows) => concat3(
            "USN unavailable (non-windows, path=",
            path.as_str(),
            ")",
        ),
        Err(e) => {
            let m = e.message();
            concat3(
                "USN unavailable (",
                m.as_str(),
                "). Run elevated + NTFS for journal boost; base uses scan+watch.",
            )
        },
    }
}

// ---------------------------------------------------------------------
// Reading changes

/// The largest number of changes that is read at once.
pub const MAX_DELTAS: usize = 100_000;

/// The largest number of pages that is read at once, so that a huge journal
/// and a small limit cannot loop forever.
pub const MAX_PAGES: usize = 512;

/// How far reading changes has come.
pub ghost struct DeltaState {
    pub entries: Seq<UsnFields>,
    pub cursor: int,
    pub pages: int,
    pub done: bool,
}

/// Where reading begins: at the given position, or at the first where it is
/// none of the journal's (it was recreated) or not given.
pub open spec fn first_cursor(j: UsnJournalInfo, start: Option<i64>) -> int {
    match start {
        Some(c) => if c < j.first_usn || c > j.next_usn {
            j.first_usn as int
        } else {
            c as int
        },
        None => j.first_usn as int,
    }
}

/// The number of changes that is read at most.
pub open spec fn delta_limit(limit: usize) -> int {
    if limit < 1 {
        1
    } else if limit > MAX_DELTAS {
        MAX_DELTAS as int
    } else {
        limit as int
    }
}

/// Before the first page.
pub open spec fn deltas_begun(j: UsnJournalInfo, start: Option<i64>) -> DeltaState {
    DeltaState { entries: Seq::empty(), cursor: first_cursor(j, start), pages: 0, done: false }
}

/// Whether another page is wanted.
pub open spec fn wants_page(s: DeltaState, limit: int) -> bool {
    !s.done && s.pages < MAX_PAGES && s.entries.len() < limit
}

/// After one more page: the position of the next page, then changes. Where
/// they are more than there is room for, reading goes on from the first that
/// was left. Reading is done when a page holds no changes or the position of
/// the next page does not advance or reaches the journal's end.
pub open spec fn page_taken(
    s: DeltaState,
    b: Seq<u8>,
    j: UsnJournalInfo,
    limit: int,
) -> DeltaState {
    if b.len() <= 8 {
        DeltaState { pages: s.pages + 1, done: true, ..s }
    } else {
        let next = as_signed(le64(b, 0));
        let all = s.entries + page_records(b, 8);
        DeltaState {
            entries: if all.len() <= limit {
                all
            } else {
                all.take(limit)
            },
            cursor: if all.len() <= limit {
                next
            } else {
                all[limit].usn
            },
            pages: s.pages + 1,
            done: next <= s.cursor || next >= j.next_usn,
        }
    }
}

/// Reading changes, page by page.
pub struct DeltaReader {
    journal: UsnJournalInfo,
    limit: usize,
    entries: Vec<UsnEntry>,
    cursor: i64,
    pages: usize,
    done: bool,
}

impl View for DeltaReader {
    type V = DeltaState;

    closed spec fn view(&self) -> DeltaState {
        DeltaState {
            entries: entry_fields(self.entries@),
            cursor: self.cursor as int,
            pages: self.pages as int,
            done: self.done,
        }
    }
}

impl DeltaReader {
    /// The limit is in range and kept to.
    pub closed spec fn wf(&self) -> bool {
        1 <= self.limit <= MAX_DELTAS && self.entries@.len() <= self.limit && self.pages
            <= MAX_PAGES
    }

    /// The journal that is read.
    pub closed spec fn source(&self) -> UsnJournalInfo {
        self.journal
    }

    /// The number of changes that is read at most.
    pub closed spec fn most(&self) -> int {
        self.limit as int
    }

    /// Begins at `start_usn` (default: FirstUsn).
    pub fn begin(journal: &UsnJournalInfo, start_usn: Option<i64>, limit: usize) -> (r: DeltaReader)
        ensures
            r.wf(),
            r.source() == *journal,
            r.most() == delta_limit(limit),
            r@ == deltas_begun(*journal, start_usn),
    {
        let limit: usize = if limit < 1 {
            1
        } else if limit > MAX_DELTAS {
            MAX_DELTAS
        } else {
            limit
        };
        let mut cursor: i64 = match start_usn {
            Some(c) => c,
            None => journal.first_usn,
        };
        // If journal was recreated, old cursor is invalid — restart at first.
        if cursor < journal.first_usn || cursor > journal.next_usn {
            cursor = journal.first_usn;
        }
        let r = DeltaReader {
            journal: *journal,
            limit,
            entries: Vec::new(),
            cursor,
            pages: 0,
            done: false,
        };
        assert(r@.entries =~= Seq::empty());
        r
    }

    /// Where to read the next page from, if one is wanted.
    pub fn next_request(&self) -> (r: Option<i64>)
        requires
            self.wf(),
        ensures
            r is Some <==> wants_page(self@, self.most()),
            r matches Some(c) ==> c == self@.cursor,
    {
        if !self.done && self.pages < MAX_PAGES && self.entries.len() < self.limit {
            Some(self.cursor)
        } else {
            None
        }
    }

    /// Takes in a page.
    pub fn take_page(&mut self, buf: &[u8])
        requires
            old(self).wf(),
            wants_page(old(self)@, old(self).most()),
        ensures
            final(self).wf(),
            final(self).source() == old(self).source(),
            final(self).most() == old(self).most(),
            final(self)@ == page_taken(
                old(self)@,
                buf@,
                old(self).source(),
                old(self).most(),
            ),
    {
        self.pages = self.pages + 1;
        if buf.len() <= 8 {
            self.done = true;  // only next-USN header, no records.
            return;
        }
        // First 8 bytes = next USN after this batch.
        let next: i64 = read_i64(buf, 0);
        let left = read_page(buf, &mut self.entries, self.limit);
        self.done = next <= self.cursor || next >= self.journal.next_usn;
        self.cursor = match left {
            Some(usn) => usn,
            None => next,
        };
    }

    /// The changes read, and where to go on from.
    pub fn finish(self) -> (r: (Vec<UsnEntry>, i64))
        ensures
            entry_fields(r.0@) == self@.entries,
            r.1 == self@.cursor,
    {
        (self.entries, self.cursor)
    }
}

/// The request for a page: READ_USN_JOURNAL_DATA from `cursor` on, with every
/// reason, without waiting, records of the versions 2 to 4.
pub fn page_request(cursor: i64, journal_id: u64) -> (r: Vec<u8>)
    ensures
        r@.len() == 48,
        as_signed(le64(r@, 0)) == cursor,
        le32(r@, 8) == 0xffff_ffff,
        le32(r@, 12) == 0,
        le64(r@, 16) == 0,
        le64(r@, 24) == 0,
        le64(r@, 32) == journal_id,
        le16(r@, 40) == 2,
        le16(r@, 42) == 4,
{
    let bits: u64 = if cursor < 0 {
        0xffff_ffff_ffff_ffff - (-(cursor + 1)) as u64
    } else {
        cursor as u64
    };
    let mut out: Vec<u8> = Vec::new();
    push_u64(&mut out, bits);
    push_u32(&mut out, 0xffff_ffff);
    push_u32(&mut out, 0);
    push_u64(&mut out, 0);
    push_u64(&mut out, 0);
    push_u64(&mut out, journal_id);
    push_u16(&mut out, 2);
    push_u16(&mut out, 4);
    push_u32(&mut out, 0);
    out
}

/// What came of reading one page: its bytes, or the system's words.
#[derive(Debug)]
pub enum PageRead {
    Page(Vec<u8>),
    Failed(String),
}

/// Reading page after page until none is wanted, or none is left.
pub open spec fn deltas_read(
    s: DeltaState,
    pages: Seq<PageRead>,
    root: Seq<char>,
    j: UsnJournalInfo,
    limit: int,
) -> Result<DeltaState, UsnErrorView>
    decreases pages.len(),
{
    if pages.len() == 0 || !wants_page(s, limit) {
        Ok(s)
    } else {
        match pages[0] {
            PageRead::Page(b) => deltas_read(
                page_taken(s, b@, j, limit),
                pages.skip(1),
                root,
                j,
                limit,
            ),
            PageRead::Failed(m) => Err(UsnErrorView::ReadFailed(m@, root)),
        }
    }
}

/// Read up to `limit` USN records starting at `start_usn` (default: FirstUsn)
/// from what asking for the journal and for its pages came to. Returns
/// (entries, next_usn_to_continue_from). Reading on from there neither
/// leaves out a change nor repeats one, also where the limit ends the reading
/// inside a page.
pub fn read_deltas(
    path: &FilePath,
    probe: &JournalProbe,
    start_usn: Option<i64>,
    limit: usize,
    pages: &Vec<PageRead>,
) -> (r: Result<(Vec<UsnEntry>, i64), UsnError>)
    requires
        probe_fits(*probe),
    ensures
        match journal_result(*probe) {
            Ok(j) => match (
                r,
                deltas_read(
                    deltas_begun(j, start_usn),
                    pages@,
                    volume_root(path@),
                    j,
                    delta_limit(limit),
                ),
            ) {
                (Ok(v), Ok(s)) => entry_fields(v.0@) == s.entries && v.1 == s.cursor,
                (Err(e), Err(x)) => e@ == x,
                _ => false,
            },
            Err(x) => r matches Err(e) && e@ == x,
        },
{
    let journal = match query_journal(probe) {
        Ok(j) => j,
        Err(e) => {
            return Err(e);
        },
    };
    let root = volume_root_of(path);
    let mut reader = DeltaReader::begin(&journal, start_usn, limit);
    let ghost want = deltas_read(
        deltas_begun(journal, start_usn),
        pages@,
        root@,
        journal,
        delta_limit(limit),
    );
    assert(pages@.skip(0) =~= pages@);
    let mut i: usize = 0;
    while i < pages.len() && reader.next_request().is_some()
        invariant
            i <= pages@.len(),
            reader.wf(),
            reader.source() == journal,
            reader.most() == delta_limit(limit),
            want == deltas_read(
                reader@,
                pages@.skip(i as int),
                root@,
                journal,
                delta_limit(limit),
            ),
            want == deltas_read(
                deltas_begun(journal, start_usn),
                pages@,
                volume_root(path@),
                journal,
                delta_limit(limit),
            ),
            journal_result(*probe) == Ok::<UsnJournalInfo, UsnErrorView>(journal),
            root@ == volume_root(path@),
        decreases pages@.len() - i,
    {
        match &pages[i] {
            PageRead::Page(b) => {
                reader.take_page(b.as_slice());
                assert(pages@.skip(i as int).skip(1) =~= pages@.skip(i + 1));
            },
            PageRead::Failed(m) => {
                return Err(UsnError::ReadFailed(m.clone(), root));
            },
        }
        i += 1;
    }
    Ok(reader.finish())
}

/// Reading never gives more changes than asked for, nor more than a hundred
/// thousand, and reads no more pages than it may.
pub proof fn deltas_bounded(
    s: DeltaState,
    pages: Seq<PageRead>,
    root: Seq<char>,
    j: UsnJournalInfo,
    limit: usize,
)
    requires
        s.entries.len() <= delta_limit(limit),
        s.pages <= MAX_PAGES,
    ensures
        deltas_read(s, pages, root, j, delta_limit(limit)) matches Ok(t) ==> t.entries.len()
            <= delta_limit(limit) && t.pages <= MAX_PAGES && t.entries.len() <= 100_000,
    decreases pages.len(),
{
    if pages.len() > 0 && wants_page(s, delta_limit(limit)) {
        if let PageRead::Page(b) = pages[0] {
            deltas_bounded(
                page_taken(s, b@, j, delta_limit(limit)),
                pages.skip(1),
                root,
                j,
                limit,
            );
        }
    }
}

/// A position that the journal does not know is not read from: reading then
/// begins at the journal's first.
pub proof fn stale_cursor_restarts(j: UsnJournalInfo, start: Option<i64>)
    requires
        j.first_usn <= j.next_usn,
    ensures
        j.first_usn <= deltas_begun(j, start).cursor <= j.next_usn,
        start matches Some(c) ==> j.first_usn <= c <= j.next_usn ==> deltas_begun(j, start).cursor
            == c,
{
}

} // verus!
