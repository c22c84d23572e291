//! The Recycle Bin: its metadata files, and which deleted copy of a path a
//! restore brings back.

use crate::bytes::{
    char_units, decode_utf16, le16, le32, le64, read_u16, read_u32, read_u64, read_units, units_at,
    utf16_round_trip, utf16_text, utf16_units,
};
use crate::file_path::{renamed, FilePath};
use crate::paths::{file_name, joined, parent, top};
use crate::text::{
    begins_with, chars_of, concat2, lowercase, same_text, stands_at, string_of_range, to_lower,
};
use vstd::prelude::*;

verus! {

// ---------------------------------------------------------------------
// Metadata files

/// Why a `$I` metadata file cannot be read.
#[derive(Debug, Clone, Copy, PartialEq, Eq, Structural)]
pub enum BinInfoError {
    /// The file has only so many bytes.
    TooShort(usize),
    /// The header is that of no known layout.
    BadHeader(u64),
    /// The stored length of the path is zero.
    ZeroLength,
    /// The path is said to go on behind the end of the file.
    Overrun,
    /// No null ends the path.
    NotTerminated,
    /// The path is empty.
    EmptyPath,
    /// The path is no UTF-16.
    NotUtf16,
}

/// What a `$I` metadata file says: the original size in bytes, the deletion
/// time as a Windows FILETIME, and the full original path.
pub ghost struct BinFields {
    pub size: int,
    pub deleted_at: int,
    pub path: Seq<char>,
}

/// The code units at `off` up to the first null, nothing if there is none.
pub open spec fn units_to_null(b: Seq<u8>, off: int) -> Option<Seq<u16>>
    decreases b.len() - off,
{
    if off + 2 > b.len() {
        None
    } else if le16(b, off) == 0 {
        Some(Seq::empty())
    } else {
        match units_to_null(b, off + 2) {
            Some(u) => Some(seq![le16(b, off) as u16] + u),
            None => None,
        }
    }
}

/// The path that some code units spell.
pub open spec fn info_path(u: Seq<u16>) -> Result<Seq<char>, BinInfoError> {
    if u.len() == 0 {
        Err(BinInfoError::EmptyPath)
    } else {
        match utf16_text(u) {
            Some(t) => Ok(t),
            None => Err(BinInfoError::NotUtf16),
        }
    }
}

/// The path in a metadata file. Two layouts exist in the wild:
/// - v1: u64 header (1), u64 original size, u64 deletion FILETIME, then the
///   null-terminated UTF-16 original path at offset 24.
/// - v2: u64 header (2), u64 original size, u64 deletion FILETIME, u32 path
///   length in UTF-16 code units *including* the null terminator at offset
///   24, then the path itself at offset 28.
pub open spec fn stored_path(b: Seq<u8>) -> Result<Seq<char>, BinInfoError> {
    if le64(b, 0) == 2 {
        let n = le32(b, 24);
        if n == 0 {
            Err(BinInfoError::ZeroLength)
        } else if 28 + 2 * n > b.len() {
            Err(BinInfoError::Overrun)
        } else {
            info_path(units_at(b, 28, (n - 1) as nat))
        }
    } else if le64(b, 0) == 1 {
        match units_to_null(b, 24) {
            Some(u) => info_path(u),
            None => Err(BinInfoError::NotTerminated),
        }
    } else {
        Err(BinInfoError::BadHeader(le64(b, 0) as u64))
    }
}

/// What a metadata file says.
pub open spec fn bin_fields(b: Seq<u8>) -> Result<BinFields, BinInfoError> {
    if b.len() < 28 {
        Err(BinInfoError::TooShort(b.len() as usize))
    } else {
        match stored_path(b) {
            Ok(path) => Ok(BinFields { size: le64(b, 8), deleted_at: le64(b, 16), path }),
            Err(e) => Err(e),
        }
    }
}

/// Whether the parsed values are these.
pub open spec fn says(
    r: Result<(u64, u64, FilePath), BinInfoError>,
    fields: Result<BinFields, BinInfoError>,
) -> bool {
    match (r, fields) {
        (Ok(v), Ok(f)) => v.0 == f.size && v.1 == f.deleted_at && v.2@ == f.path,
        (Err(e), Err(x)) => e == x,
        _ => false,
    }
}

fn path_of_units(u: &Vec<u16>) -> (r: Result<FilePath, BinInfoError>)
    ensures
        match r {
            Ok(p) => info_path(u@) == Ok::<Seq<char>, BinInfoError>(p@),
            Err(e) => info_path(u@) == Err::<Seq<char>, BinInfoError>(e),
        },
{
    if u.len() == 0 {
        return Err(BinInfoError::EmptyPath);
    }
    match decode_utf16(u) {
        Some(text) => Ok(FilePath { text }),
        None => Err(BinInfoError::NotUtf16),
    }
}

fn read_units_to_null(bytes: &[u8], from: usize) -> (r: Option<Vec<u16>>)
    requires
        from <= bytes.len(),
    ensures
        match r {
            Some(v) => units_to_null(bytes@, from as int) == Some(v@),
            None => units_to_null(bytes@, from as int) is None,
        },
{
    let mut out: Vec<u16> = Vec::new();
    let mut off: usize = from;
    loop
        invariant
            from <= off <= bytes.len(),
            units_to_null(bytes@, from as int) == (match units_to_null(bytes@, off as int) {
                Some(u) => Some(out@ + u),
                None => None::<Seq<u16>>,
            }),
        decreases bytes@.len() - off,
    {
        if bytes.len() - off < 2 {
            return None;
        }
        let w: u16 = read_u16(bytes, off);
        if w == 0 {
            return Some(out);
        }
        out.push(w);
        proof {
            if let Some(u) = units_to_null(bytes@, off + 2) {
                assert(out@ + u =~= out@.drop_last() + (seq![w] + u));
            }
        }
        off += 2;
    }
}

/// Parse an `$I` Recycle Bin metadata file. Returns (size, deleted_at,
/// original_path).
pub fn parse_bin_info(bytes: &[u8]) -> (r: Result<(u64, u64, FilePath), BinInfoError>)
    ensures
        says(r, bin_fields(bytes@)),
{
    if bytes.len() < 28 {
        return Err(BinInfoError::TooShort(bytes.len()));
    }
    let header: u64 = read_u64(bytes, 0);
    let size: u64 = read_u64(bytes, 8);
    let deleted_at: u64 = read_u64(bytes, 16);
    if header == 2 {
        let len: u32 = read_u32(bytes, 24);
        if len == 0 {
            return Err(BinInfoError::ZeroLength);
        }
        if (bytes.len() - 28) / 2 < len as usize {
            return Err(BinInfoError::Overrun);
        }
        let units = read_units(bytes, 28, len as usize - 1);
        return match path_of_units(&units) {
            Ok(path) => Ok((size, deleted_at, path)),
            Err(e) => Err(e),
        };
    }
    if header != 1 {
        return Err(BinInfoError::BadHeader(header));
    }
    match read_units_to_null(bytes, 24) {
        Some(units) => match path_of_units(&units) {
            Ok(path) => Ok((size, deleted_at, path)),
            Err(e) => Err(e),
        },
        None => Err(BinInfoError::NotTerminated),
    }
}

// ---------------------------------------------------------------------
// Writing them

/// The two bytes of a code unit, least significant first.
pub open spec fn le16_bytes(n: int) -> Seq<u8> {
    seq![(n % 0x100) as u8, (n / 0x100) as u8]
}

/// The four bytes of a number.
#[verifier::opaque]
pub open spec fn le32_bytes(n: int) -> Seq<u8> {
    le16_bytes(n % 0x1_0000) + le16_bytes(n / 0x1_0000)
}

/// The eight bytes of a number.
#[verifier::opaque]
pub open spec fn le64_bytes(n: int) -> Seq<u8> {
    le32_bytes(n % 0x1_0000_0000) + le32_bytes(n / 0x1_0000_0000)
}

/// The bytes of some code units.
pub open spec fn unit_bytes(u: Seq<u16>) -> Seq<u8> {
    Seq::new(2 * u.len(), |i: int| le16_bytes(u[i / 2] as int)[i % 2])
}

/// A metadata file of the first layout.
pub open spec fn bin_info_v1(size: int, deleted_at: int, u: Seq<u16>) -> Seq<u8> {
    le64_bytes(1) + le64_bytes(size) + le64_bytes(deleted_at) + unit_bytes(u.push(0))
}

/// A metadata file of the second layout.
pub open spec fn bin_info_v2(size: int, deleted_at: int, u: Seq<u16>) -> Seq<u8> {
    le64_bytes(2) + le64_bytes(size) + le64_bytes(deleted_at) + le32_bytes(1 + u.len() as int)
        + unit_bytes(u.push(0))
}

/// How many bytes numbers take.
pub proof fn number_lengths(n: int)
    ensures
        le32_bytes(n).len() == 4,
        le64_bytes(n).len() == 8,
{
    reveal(le32_bytes);
    reveal(le64_bytes);
}

pub proof fn le16_read(b: Seq<u8>, at: int, n: int)
    requires
        0 <= n < 0x1_0000,
        0 <= at,
        at + 2 <= b.len(),
        b.subrange(at, at + 2) == le16_bytes(n),
    ensures
        le16(b, at) == n,
{
    assert(b[at + 1] == b.subrange(at, at + 2)[1]);
}

pub proof fn le32_read(b: Seq<u8>, at: int, n: int)
    requires
        0 <= n < 0x1_0000_0000,
        0 <= at,
        at + 4 <= b.len(),
        b.subrange(at, at + 4) == le32_bytes(n),
    ensures
        le32(b, at) == n,
{
    reveal(le32_bytes);
    let s = b.subrange(at, at + 4);
    assert(b.subrange(at, at + 2) =~= s.subrange(0, 2));
    assert(s.subrange(0, 2) =~= le16_bytes(n % 0x1_0000));
    assert(b.subrange(at + 2, at + 4) =~= s.subrange(2, 4));
    assert(s.subrange(2, 4) =~= le16_bytes(n / 0x1_0000));
    le16_read(b, at, n % 0x1_0000);
    le16_read(b, at + 2, n / 0x1_0000);
}

pub proof fn le64_read(b: Seq<u8>, at: int, n: int)
    requires
        0 <= n < 0x1_0000_0000_0000_0000,
        0 <= at,
        at + 8 <= b.len(),
        b.subrange(at, at + 8) == le64_bytes(n),
    ensures
        le64(b, at) == n,
{
    reveal(le64_bytes);
    number_lengths(n % 0x1_0000_0000);
    number_lengths(n / 0x1_0000_0000);
    let s = b.subrange(at, at + 8);
    assert(b.subrange(at, at + 4) =~= s.subrange(0, 4));
    assert(s.subrange(0, 4) =~= le32_bytes(n % 0x1_0000_0000));
    assert(b.subrange(at + 4, at + 8) =~= s.subrange(4, 8));
    assert(s.subrange(4, 8) =~= le32_bytes(n / 0x1_0000_0000));
    le32_read(b, at, n % 0x1_0000_0000);
    le32_read(b, at + 4, n / 0x1_0000_0000);
}

/// Reading the bytes of code units gives them back.
pub proof fn units_read(b: Seq<u8>, off: int, u: Seq<u16>)
    requires
        0 <= off,
        off + 2 * u.len() <= b.len(),
        b.subrange(off, off + 2 * u.len()) == unit_bytes(u),
    ensures
        forall|i: int| 0 <= i < u.len() ==> #[trigger] le16(b, off + 2 * i) == u[i],
{
    assert forall|i: int| 0 <= i < u.len() implies #[trigger] le16(b, off + 2 * i) == u[i] by {
        let s = b.subrange(off, off + 2 * u.len());
        assert(s[2 * i] == le16_bytes(u[i] as int)[0]);
        assert(s[2 * i + 1] == le16_bytes(u[i] as int)[1]);
    }
}

proof fn units_to_null_read(b: Seq<u8>, off: int, u: Seq<u16>, i: int)
    requires
        0 <= i <= u.len(),
        0 <= off,
        off + 2 * u.len() + 2 <= b.len(),
        forall|k: int| 0 <= k < u.len() ==> #[trigger] u[k] != 0,
        forall|k: int| 0 <= k < u.len() ==> #[trigger] le16(b, off + 2 * k) == u[k],
        le16(b, off + 2 * u.len()) == 0,
    ensures
        units_to_null(b, off + 2 * i) == Some(u.skip(i)),
    decreases u.len() - i,
{
    if i < u.len() {
        units_to_null_read(b, off, u, i + 1);
    } else {
        assert(u.skip(i) =~= Seq::empty());
    }
}

/// The code units of a text without null characters hold no null.
proof fn units_without_null(t: Seq<char>)
    requires
        forall|i: int| 0 <= i < t.len() ==> #[trigger] t[i] != '\0',
    ensures
        forall|i: int| 0 <= i < utf16_units(t).len() ==> #[trigger] utf16_units(t)[i] != 0,
        utf16_units(t).len() >= t.len(),
    decreases t.len(),
{
    if t.len() > 0 {
        let rest = t.skip(1);
        assert forall|i: int| 0 <= i < rest.len() implies #[trigger] rest[i] != '\0' by {
            assert(rest[i] == t[i + 1]);
        }
        units_without_null(rest);
        let c: char = t[0];
        vstd::utf8::char_is_scalar(c);
        vstd::utf8::char_u32_cast(c, c as u32);
        assert(c as u32 != 0) by {
            if c as u32 == 0 {
                assert(0u32 as char == '\0');
            }
        }
        let head = char_units(c);
        let all = utf16_units(t);
        assert forall|i: int| 0 <= i < all.len() implies #[trigger] all[i] != 0 by {
            if i >= head.len() {
                assert(all[i] == utf16_units(rest)[i - head.len()]);
            }
        }
    }
}

/// Parsing a metadata file of the first layout gives back what was written
/// into it. (A path with a null character cannot be written: the null ends
/// it.)
pub proof fn bin_info_v1_round_trip(size: u64, deleted_at: u64, path: Seq<char>)
    requires
        path.len() > 0,
        forall|i: int| 0 <= i < path.len() ==> #[trigger] path[i] != '\0',
    ensures
        bin_fields(bin_info_v1(size as int, deleted_at as int, utf16_units(path))) == Ok::<
            BinFields,
            BinInfoError,
        >(BinFields { size: size as int, deleted_at: deleted_at as int, path }),
{
    let u = utf16_units(path);
    let b = bin_info_v1(size as int, deleted_at as int, u);
    units_without_null(path);
    number_lengths(1);
    number_lengths(size as int);
    number_lengths(deleted_at as int);
    assert(b.subrange(0, 8) =~= le64_bytes(1));
    assert(b.subrange(8, 16) =~= le64_bytes(size as int));
    assert(b.subrange(16, 24) =~= le64_bytes(deleted_at as int));
    le64_read(b, 0, 1);
    le64_read(b, 8, size as int);
    le64_read(b, 16, deleted_at as int);
    let w = u.push(0);
    assert(b.subrange(24, 24 + 2 * (w.len() as int)) =~= unit_bytes(w));
    units_read(b, 24, w);
    assert forall|k: int| 0 <= k < u.len() implies #[trigger] le16(b, 24 + 2 * k) == u[k] by {
        assert(le16(b, 24 + 2 * k) == w[k]);
    }
    units_to_null_read(b, 24, u, 0);
    assert(u.skip(0) =~= u);
    utf16_round_trip(path);
}

proof fn v2_layout(h: Seq<u8>, size: Seq<u8>, at: Seq<u8>, n: Seq<u8>, path: Seq<u8>)
    requires
        h.len() == 8,
        size.len() == 8,
        at.len() == 8,
        n.len() == 4,
    ensures
        ({
            let b = h + size + at + n + path;
            &&& b.len() == 28 + path.len()
            &&& b.subrange(0, 8) == h
            &&& b.subrange(8, 16) == size
            &&& b.subrange(16, 24) == at
            &&& b.subrange(24, 28) == n
            &&& b.subrange(28, b.len() as int) == path
        }),
{
    let b = h + size + at + n + path;
}

/// Parsing a metadata file of the second layout gives back what was written
/// into it.
pub proof fn bin_info_v2_round_trip(size: u64, deleted_at: u64, path: Seq<char>)
    requires
        path.len() > 0,
        utf16_units(path).len() < 0xffff_ffff,
    ensures
        bin_fields(bin_info_v2(size as int, deleted_at as int, utf16_units(path))) == Ok::<
            BinFields,
            BinInfoError,
        >(BinFields { size: size as int, deleted_at: deleted_at as int, path }),
{
    let u = utf16_units(path);
    let b = bin_info_v2(size as int, deleted_at as int, u);
    assert(u.len() > 0) by {
        assert(char_units(path[0]).len() > 0);
    }
    let w = u.push(0);
    number_lengths(2);
    number_lengths(size as int);
    number_lengths(deleted_at as int);
    number_lengths(1 + u.len() as int);
    v2_layout(
        le64_bytes(2),
        le64_bytes(size as int),
        le64_bytes(deleted_at as int),
        le32_bytes(1 + u.len() as int),
        unit_bytes(w),
    );
    le64_read(b, 0, 2);
    le64_read(b, 8, size as int);
    le64_read(b, 16, deleted_at as int);
    le32_read(b, 24, 1 + u.len() as int);
    units_read(b, 28, w);
    v2_path(b, u, path);
}

/// The path that is read from a file of the second layout.
proof fn v2_path(b: Seq<u8>, u: Seq<u16>, path: Seq<char>)
    requires
        b.len() == 28 + 2 * (u.len() + 1),
        u == utf16_units(path),
        u.len() > 0,
        le64(b, 0) == 2,
        le32(b, 24) == 1 + u.len(),
        forall|i: int| 0 <= i < u.push(0).len() ==> #[trigger] le16(b, 28 + 2 * i) == u.push(0)[i],
    ensures
        stored_path(b) == Ok::<Seq<char>, BinInfoError>(path),
{
    let r = units_at(b, 28, u.len());
    assert forall|i: int| 0 <= i < u.len() implies r[i] == u[i] by {
        assert(le16(b, 28 + 2 * i) == u.push(0)[i]);
    }
    assert(r =~= u);
    utf16_round_trip(path);
}

// ---------------------------------------------------------------------
// Finding a deleted path

/// A Recycle Bin entry matched to an original path, parsed from its `$I`
/// metadata file. The `$R` data file shares the `$I` file's name with the
/// leading `I` swapped for `R` (`$Iab12cd.txt` <-> `$Rab12cd.txt`).
#[derive(Debug, PartialEq)]
pub struct BinItem {
    /// Full original path, as stored in the `$I` file.
    pub original_path: FilePath,
    /// Original size in bytes (from the `$I` header).
    pub size: u64,
    /// Deletion time as a Windows FILETIME.
    pub deleted_at: u64,
    /// Path of the `$I` metadata file.
    pub info_path: FilePath,
    /// Path of the `$R` entry holding the actual contents (file or dir).
    pub data_path: FilePath,
}

/// A file of the Recycle Bin and its bytes, if they could be read.
#[derive(Debug)]
pub struct InfoFile {
    pub path: FilePath,
    pub bytes: Option<Vec<u8>>,
}

/// Whether the path is that of a metadata file.
pub open spec fn info_file(path: Seq<char>) -> bool {
    file_name(path) matches Some(n) && begins_with(n, "$I"@)
}

/// The name of the data file that goes with a metadata file.
pub open spec fn data_name(name: Seq<char>) -> Seq<char> {
    if begins_with(name, "$I"@) {
        "$R"@ + name.skip(2)
    } else {
        "$R"@ + name
    }
}

/// The data file that goes with a metadata file.
pub open spec fn data_path(info: Seq<char>) -> Seq<char> {
    let name = match file_name(info) {
        Some(n) => n,
        None => Seq::empty(),
    };
    renamed(info, data_name(name))
}

/// A text with backslashes for slashes.
pub open spec fn backslashed(s: Seq<char>) -> Seq<char> {
    Seq::new(
        s.len(),
        |i: int|
            if s[i] == '/' {
                '\\'
            } else {
                s[i]
            },
    )
}

/// A text without the backslashes at its end.
pub open spec fn unslashed_end(s: Seq<char>) -> Seq<char>
    decreases s.len(),
{
    if s.len() > 0 && s.last() == '\\' {
        unslashed_end(s.drop_last())
    } else {
        s
    }
}

/// A path as the bin compares it: backslashes, no trailing separators,
/// lowercase.
pub open spec fn bin_path(t: Seq<char>) -> Seq<char> {
    lowercase(unslashed_end(backslashed(t)))
}

/// What a file of the bin says, if it is about the wanted path.
pub open spec fn bin_match(info: InfoFile, want: Seq<char>) -> Option<BinFields> {
    match info.bytes {
        Some(b) => match bin_fields(b@) {
            Ok(f) => if info_file(info.path@) && bin_path(f.path) == want {
                Some(f)
            } else {
                None
            },
            Err(_) => None,
        },
        None => None,
    }
}

/// The first of the files that are about the wanted path and deleted last.
pub open spec fn latest(infos: Seq<InfoFile>, want: Seq<char>) -> Option<int>
    decreases infos.len(),
{
    if infos.len() == 0 {
        None
    } else {
        let best = latest(infos.drop_last(), want);
        match bin_match(infos.last(), want) {
            Some(f) => match best {
                Some(i) => if f.deleted_at > bin_match(infos[i], want).unwrap().deleted_at {
                    Some(infos.len() - 1)
                } else {
                    best
                },
                None => Some(infos.len() - 1),
            },
            None => best,
        }
    }
}

/// Whether the item is what a file of the bin says.
pub open spec fn is_item(item: BinItem, info: InfoFile, f: BinFields) -> bool {
    &&& item.original_path@ == f.path
    &&& item.size == f.size
    &&& item.deleted_at == f.deleted_at
    &&& item.info_path@ == info.path@
    &&& item.data_path@ == data_path(info.path@)
}

/// Whether the result is the latest copy of the wanted path.
pub open spec fn is_latest(r: Option<BinItem>, infos: Seq<InfoFile>, want: Seq<char>) -> bool {
    match (r, latest(infos, want)) {
        (Some(item), Some(i)) => 0 <= i < infos.len() && (bin_match(infos[i], want) matches Some(f)
            && is_item(item, infos[i], f)),
        (None, None) => true,
        _ => false,
    }
}

/// What was deleted last is found: nothing about the wanted path was deleted
/// later, nor earlier in the listing at the same time.
pub proof fn latest_is_newest(infos: Seq<InfoFile>, want: Seq<char>)
    ensures
        match latest(infos, want) {
            Some(i) => 0 <= i < infos.len() && (bin_match(infos[i], want) matches Some(f)
                && forall|j: int|
                0 <= j < infos.len() ==> (bin_match(#[trigger] infos[j], want) matches Some(g) ==> {
                    g.deleted_at < f.deleted_at || (g.deleted_at == f.deleted_at && i <= j)
                })),
            None => forall|j: int|
                0 <= j < infos.len() ==> bin_match(#[trigger] infos[j], want) is None,
        },
    decreases infos.len(),
{
    if infos.len() > 0 {
        let front = infos.drop_last();
        latest_is_newest(front, want);
        assert forall|j: int| 0 <= j < front.len() implies #[trigger] infos[j] == front[j] by {}
    }
}

/// Metadata and data files of one deletion differ in one letter.
pub proof fn paired_names(rest: Seq<char>)
    ensures
        data_name("$I"@ + rest) == "$R"@ + rest,
{
    reveal_strlit("$I");
    let name = "$I"@ + rest;
    assert(name.subrange(0, 2) =~= "$I"@);
}

/// Whether the path is that of a metadata file.
pub fn is_info_file(p: &FilePath) -> (r: bool)
    ensures
        r == info_file(p@),
{
    match p.file_name() {
        Some(n) => stands_at(&chars_of(n.as_str()), &chars_of("$I"), 0),
        None => false,
    }
}

/// The data file that goes with a metadata file.
pub fn paired_data_path(info: &FilePath) -> (r: FilePath)
    ensures
        r@ == data_path(info@),
{
    let name = match info.file_name() {
        Some(n) => n,
        None => String::new(),
    };
    let v = chars_of(name.as_str());
    proof {
        reveal_strlit("$I");
    }
    let rest = if stands_at(&v, &chars_of("$I"), 0) {
        string_of_range(&v, 2, v.len())
    } else {
        name
    };
    let data = concat2("$R", rest.as_str());
    info.with_file_name(data.as_str())
}

/// Compare helper: backslashes, no trailing separators, lowercase.
/// Both sides go through the same function, so `C:\` ( -> `c:` ) still
/// matches itself.
pub fn norm_bin_path(p: &FilePath) -> (r: String)
    ensures
        r@ == bin_path(p@),
{
    let v = chars_of(p.as_str());
    let mut w: Vec<char> = Vec::new();
    for i in 0..v.len()
        invariant
            w@ =~= backslashed(v@).take(i as int),
    {
        if v[i] == '/' {
            w.push('\\');
        } else {
            w.push(v[i]);
        }
    }
    assert(backslashed(v@).take(v@.len() as int) =~= backslashed(v@));
    let mut n: usize = w.len();
    while n > 0 && w[n - 1] == '\\'
        invariant
            n <= w@.len(),
            unslashed_end(w@) == unslashed_end(w@.take(n as int)),
        decreases n,
    {
        assert(w@.take(n as int).drop_last() =~= w@.take(n - 1));
        n -= 1;
    }
    let s = string_of_range(&w, 0, n);
    to_lower(s.as_str())
}

/// `$Recycle.Bin` directory for the drive holding `path`
/// (`C:\foo\bar.txt` -> `C:\$Recycle.Bin`).
pub fn drive_bin_root(path: &FilePath) -> (r: FilePath)
    ensures
        r@ == joined(top(path@), "$Recycle.Bin"@),
{
    path.top().join("$Recycle.Bin")
}

/// What one file of the bin says, if it is about the wanted path.
fn match_info(info: &InfoFile, want: &str) -> (r: Option<BinItem>)
    ensures
        match r {
            Some(item) => bin_match(*info, want@) matches Some(f) && is_item(item, *info, f),
            None => bin_match(*info, want@) is None,
        },
{
    if !is_info_file(&info.path) {
        return None;
    }
    match &info.bytes {
        Some(b) => match parse_bin_info(b.as_slice()) {
            Ok((size, deleted_at, original_path)) => {
                let norm = norm_bin_path(&original_path);
                if same_text(norm.as_str(), want) {
                    Some(
                        BinItem {
                            original_path,
                            size,
                            deleted_at,
                            info_path: info.path.clone(),
                            data_path: paired_data_path(&info.path),
                        },
                    )
                } else {
                    None
                }
            },
            // not ours / corrupt — skip, don't fail
            Err(_) => None,
        },
        None => None,
    }
}

/// Latest-deleted bin entry for `original`, if any, among the files of the
/// bin that could be listed (other users' entries simply fail to read and are
/// skipped).
pub fn find_in_bin_under(infos: &Vec<InfoFile>, original: &FilePath) -> (r: Option<BinItem>)
    ensures
        is_latest(r, infos@, bin_path(original@)),
{
    let want = norm_bin_path(original);
    let mut best: Option<BinItem> = None;
    for i in 0..infos.len()
        invariant
            want@ == bin_path(original@),
            is_latest(best, infos@.take(i as int), want@),
    {
        let ghost front = infos@.take(i as int);
        let ghost next = infos@.take(i + 1);
        proof {
            assert(next.drop_last() =~= front);
            latest_is_newest(front, want@);
        }
        if let Some(item) = match_info(&infos[i], want.as_str()) {
            let newer = match &best {
                Some(b) => item.deleted_at > b.deleted_at,
                None => true,
            };
            if newer {
                best = Some(item);
            }
        }
    }
    assert(infos@.take(infos@.len() as int) =~= infos@);
    best
}

// ---------------------------------------------------------------------
// Restoring

/// Why a deleted path cannot be restored.
#[derive(Debug, Clone, Copy, PartialEq, Eq, Structural)]
pub enum RestoreError {
    /// The bin cannot be read.
    BinUnreadable,
    /// No copy of the path is in the bin.
    NotInBin,
    /// Something is at the path again.
    AlreadyExists,
    /// The folder it was in is gone.
    ParentGone,
    /// The bin has lost the contents.
    DataMissing,
}

/// What is on the disk around a path that is to be restored.
#[derive(Debug, Clone, Copy)]
pub struct RestoreFacts {
    /// Whether something is at the path.
    pub exists: bool,
    /// Whether its parent is a folder.
    pub parent_is_dir: bool,
    /// Whether the data file of the copy in the bin exists.
    pub data_exists: bool,
}

/// Why the path cannot be restored, if it cannot.
pub open spec fn restore_refusal(
    bin: Option<Seq<InfoFile>>,
    original: Seq<char>,
    facts: RestoreFacts,
) -> Option<RestoreError> {
    match bin {
        None => Some(RestoreError::BinUnreadable),
        Some(infos) => if latest(infos, bin_path(original)) is None {
            Some(RestoreError::NotInBin)
        } else if facts.exists {
            Some(RestoreError::AlreadyExists)
        } else if parent(original) is Some && !facts.parent_is_dir {
            Some(RestoreError::ParentGone)
        } else if !facts.data_exists {
            Some(RestoreError::DataMissing)
        } else {
            None
        },
    }
}

/// The values behind an optional listing.
pub open spec fn listing_view(bin: Option<&Vec<InfoFile>>) -> Option<Seq<InfoFile>> {
    match bin {
        Some(v) => Some(v@),
        None => None,
    }
}

/// What a restore of `original` moves back: the bin entry whose data file
/// takes its place and whose metadata file is then dropped. Refuses when the
/// target exists or the parent folder is gone.
pub fn restore_from_bin_under(
    bin: Option<&Vec<InfoFile>>,
    original: &FilePath,
    facts: &RestoreFacts,
) -> (r: Result<BinItem, RestoreError>)
    ensures
        match r {
            Ok(item) => {
                &&& restore_refusal(listing_view(bin), original@, *facts) is None
                &&& bin matches Some(infos) && is_latest(
                    Some(item),
                    infos@,
                    bin_path(original@),
                )
            },
            Err(e) => restore_refusal(listing_view(bin), original@, *facts) == Some(e),
        },
{
    let infos = match bin {
        Some(v) => v,
        None => {
            return Err(RestoreError::BinUnreadable);
        },
    };
    let found = match find_in_bin_under(infos, original) {
        Some(item) => item,
        None => {
            return Err(RestoreError::NotInBin);
        },
    };
    if facts.exists {
        return Err(RestoreError::AlreadyExists);
    }
    if original.parent().is_some() && !facts.parent_is_dir {
        return Err(RestoreError::ParentGone);
    }
    if !facts.data_exists {
        return Err(RestoreError::DataMissing);
    }
    Ok(found)
}

/// Restore the most recently deleted Recycle Bin copy of `original` back to
/// `original` (Ctrl+Z for deletes): what to move and what to drop. `bin` is
/// the listing of the bin of the drive, see [`drive_bin_root`].
pub fn restore_from_bin(
    original: &FilePath,
    bin: Option<&Vec<InfoFile>>,
    facts: &RestoreFacts,
) -> (r: Result<BinItem, RestoreError>)
    ensures
        match r {
            Ok(item) => {
                &&& restore_refusal(listing_view(bin), original@, *facts) is None
                &&& bin matches Some(infos) && is_latest(
                    Some(item),
                    infos@,
                    bin_path(original@),
                )
            },
            Err(e) => restore_refusal(listing_view(bin), original@, *facts) == Some(e),
        },
{
    restore_from_bin_under(bin, original, facts)
}

/// What the UI shows when a path cannot be restored.
pub open spec fn restore_message(
    e: RestoreError,
    bin_root: Seq<char>,
    original: Seq<char>,
) -> Seq<char> {
    match e {
        RestoreError::BinUnreadable => "cannot read Recycle Bin at "@ + bin_root,
        RestoreError::NotInBin => "not found in Recycle Bin — it may have been emptied: "@
            + original,
        RestoreError::AlreadyExists => "already exists: "@ + original,
        RestoreError::ParentGone => "original folder no longer exists: "@ + match parent(
            original,
        ) {
            Some(p) => p,
            None => Seq::empty(),
        },
        RestoreError::DataMissing => "Recycle Bin data is missing for "@ + original,
    }
}

impl RestoreError {
    /// What the UI shows for the error.
    pub fn message(&self, bin_root: &FilePath, original: &FilePath) -> (r: String)
        ensures
            r@ == restore_message(*self, bin_root@, original@),
    {
        match self {
            RestoreError::BinUnreadable => concat2(
                "cannot read Recycle Bin at ",
                bin_root.as_str(),
            ),
            RestoreError::NotInBin => concat2(
                "not found in Recycle Bin — it may have been emptied: ",
                original.as_str(),
            ),
            RestoreError::AlreadyExists => concat2("already exists: ", original.as_str()),
            RestoreError::ParentGone => {
                let dir = match original.parent() {
                    Some(p) => p.text,
                    None => String::new(),
                };
                let r = concat2("original folder no longer exists: ", dir.as_str());
                r
            },
            RestoreError::DataMissing => concat2(
                "Recycle Bin data is missing for ",
                original.as_str(),
            ),
        }
    }
}

} // verus!
