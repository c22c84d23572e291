//! What journal records, pages and reasons say, as they are laid out.

use crate::bytes::{
    as_signed, char_units, le32, units_at, utf16_round_trip, utf16_text, utf16_text_lossy,
    utf16_units,
};
use crate::recycle::{
    le16_bytes, le16_read, le32_bytes, le32_read, le64_bytes, le64_read, number_lengths, unit_bytes,
    units_read,
};
use crate::text::hex_upper;
use crate::usn::{
    barred, delta_limit, deltas_read, journal_fields, page_records, page_taken, reason_flags,
    reason_text, set_flags, usn_fields, wants_page, DeltaState, PageRead, UsnErrorView, UsnFields,
    UsnJournalInfo,
};
use vstd::prelude::*;

verus! {

// ---------------------------------------------------------------------
// Records

/// Whether `rec` holds these bytes at `at`.
pub open spec fn holds(rec: Seq<u8>, at: int, bytes: Seq<u8>) -> bool {
    0 <= at && at + bytes.len() <= rec.len() && rec.subrange(at, at + bytes.len()) == bytes
}

/// The 64 bits of a signed number.
pub open spec fn bits_of(n: i64) -> int {
    if n < 0 {
        n + 0x1_0000_0000_0000_0000
    } else {
        n as int
    }
}

/// Whether `rec` is laid out as a record of the given version with these
/// values: references of eight bytes each, the position and the name's length
/// and place, all numbers with the least significant byte first.
pub open spec fn is_record(
    rec: Seq<u8>,
    major: u16,
    frn: u64,
    parent_frn: u64,
    usn: i64,
    reason: u32,
    attributes: u32,
    name_at: u16,
    name: Seq<u16>,
) -> bool {
    &&& rec.len() >= 60
    &&& holds(rec, 4, le16_bytes(major as int))
    &&& holds(rec, 8, le64_bytes(frn as int))
    &&& holds(rec, 16, le64_bytes(parent_frn as int))
    &&& holds(rec, 24, le64_bytes(bits_of(usn)))
    &&& holds(rec, 40, le32_bytes(reason as int))
    &&& holds(rec, 52, le32_bytes(attributes as int))
    &&& 2 * name.len() <= 0xffff
    &&& holds(rec, 56, le16_bytes(2 * name.len() as int))
    &&& holds(rec, 58, le16_bytes(name_at as int))
    &&& holds(rec, name_at as int, unit_bytes(name))
}

/// The bytes of a number are the standard ones: the least significant comes
/// first, and each counts 256 times the one before.
pub proof fn bytes_are_little_endian(n: int)
    requires
        0 <= n < 0x1_0000_0000_0000_0000,
    ensures
        ({
            let b = le64_bytes(n);
            &&& b.len() == 8
            &&& n == b[0] + 0x100 * b[1] + 0x1_0000 * b[2] + 0x100_0000 * b[3] + 0x1_0000_0000
                * b[4] + 0x100_0000_0000 * b[5] + 0x1_0000_0000_0000 * b[6] + 0x100_0000_0000_0000
                * b[7]
        }),
        n < 0x1_0000_0000 ==> {
            let b = le32_bytes(n);
            &&& b.len() == 4
            &&& n == b[0] + 0x100 * b[1] + 0x1_0000 * b[2] + 0x100_0000 * b[3]
        },
        n < 0x1_0000 ==> {
            let b = le16_bytes(n);
            b.len() == 2 && n == b[0] + 0x100 * b[1]
        },
{
    number_lengths(n);
    assert(le64_bytes(n).subrange(0, 8) =~= le64_bytes(n));
    le64_read(le64_bytes(n), 0, n);
    if n < 0x1_0000_0000 {
        assert(le32_bytes(n).subrange(0, 4) =~= le32_bytes(n));
        le32_read(le32_bytes(n), 0, n);
    }
}

/// Reading a record of version 2 or 3 gives back the values that it was laid
/// out from, for all references, positions, reasons and attributes and every
/// name. It is a folder's where bit 28 of the attributes is set.
pub proof fn record_reads_back(
    rec: Seq<u8>,
    major: u16,
    frn: u64,
    parent_frn: u64,
    usn: i64,
    reason: u32,
    attributes: u32,
    name_at: u16,
    name: Seq<char>,
)
    requires
        is_record(
            rec,
            major,
            frn,
            parent_frn,
            usn,
            reason,
            attributes,
            name_at,
            utf16_units(name),
        ),
        major == 2 || major == 3,
    ensures
        usn_fields(rec) == Some(
            UsnFields {
                frn: frn as int,
                parent_frn: parent_frn as int,
                usn: usn as int,
                reason: reason as int,
                reason_str: reason_text(reason),
                name,
                is_dir: attributes / 0x1000_0000 % 2 == 1,
            },
        ),
{
    let u = utf16_units(name);
    read_numbers(rec, major, frn, parent_frn, usn, reason, attributes, name_at, u);
    units_read(rec, name_at as int, u);
    let r = units_at(rec, name_at as int, u.len());
    assert(r =~= u) by {
        assert forall|i: int| 0 <= i < u.len() implies r[i] == u[i] by {
            assert(crate::bytes::le16(rec, name_at as int + 2 * i) == u[i]);
        }
    }
    utf16_round_trip(name);
    assert((attributes & 0x1000_0000 != 0) == (attributes / 0x1000_0000 % 2 == 1))
        by (bit_vector);
}

proof fn read_numbers(
    rec: Seq<u8>,
    major: u16,
    frn: u64,
    parent_frn: u64,
    usn: i64,
    reason: u32,
    attributes: u32,
    name_at: u16,
    u: Seq<u16>,
)
    requires
        is_record(rec, major, frn, parent_frn, usn, reason, attributes, name_at, u),
    ensures
        crate::bytes::le16(rec, 4) == major,
        crate::bytes::le64(rec, 8) == frn,
        crate::bytes::le64(rec, 16) == parent_frn,
        as_signed(crate::bytes::le64(rec, 24)) == usn,
        le32(rec, 40) == reason,
        le32(rec, 52) == attributes,
        crate::bytes::le16(rec, 56) == 2 * u.len(),
        crate::bytes::le16(rec, 58) == name_at,
{
    number_lengths(frn as int);
    number_lengths(parent_frn as int);
    number_lengths(bits_of(usn));
    number_lengths(reason as int);
    number_lengths(attributes as int);
    le16_read(rec, 4, major as int);
    le64_read(rec, 8, frn as int);
    le64_read(rec, 16, parent_frn as int);
    le64_read(rec, 24, bits_of(usn));
    le32_read(rec, 40, reason as int);
    le32_read(rec, 52, attributes as int);
    le16_read(rec, 56, 2 * u.len() as int);
    le16_read(rec, 58, name_at as int);
}

/// Records of other versions are skipped, and so is what is too short to be
/// one.
pub proof fn other_records_are_skipped(
    rec: Seq<u8>,
    major: u16,
    frn: u64,
    parent_frn: u64,
    usn: i64,
    reason: u32,
    attributes: u32,
    name_at: u16,
    u: Seq<u16>,
)
    requires
        is_record(rec, major, frn, parent_frn, usn, reason, attributes, name_at, u),
    ensures
        usn_fields(rec) is Some <==> major == 2 || major == 3,
        forall|n: int| 0 <= n < 60 ==> usn_fields(#[trigger] rec.take(n)) is None,
{
    read_numbers(rec, major, frn, parent_frn, usn, reason, attributes, name_at, u);
}

/// A character outside the first plane is two units, a high and a low one, and
/// every other is one unit, its own number.
pub proof fn units_are_standard(c: char)
    ensures
        (c as u32) < 0x10000 ==> char_units(c) == seq![c as u16],
        (c as u32) >= 0x10000 ==> {
            let u = char_units(c);
            &&& u.len() == 2
            &&& 0xd800 <= u[0] < 0xdc00
            &&& 0xdc00 <= u[1] < 0xe000
            &&& c as u32 == 0x10000 + (u[0] - 0xd800) * 0x400 + (u[1] - 0xdc00)
        },
        utf16_units(seq![c]) == char_units(c),
{
    vstd::utf8::char_is_scalar(c);
    vstd::utf8::char_u32_cast(c, c as u32);
    assert(seq![c].skip(1) =~= Seq::empty());
    assert(utf16_units(seq![c].skip(1)) =~= Seq::empty());
    assert(utf16_units(seq![c]) =~= char_units(c));
}

/// Half a pair is not text; where that does not matter it is shown as the
/// replacement character, and what follows is read on.
pub proof fn half_pairs_are_replaced(u: Seq<u16>)
    requires
        u.len() > 0,
        0xdc00 <= u[0] < 0xe000 || (0xd800 <= u[0] < 0xdc00 && !(u.len() > 1 && 0xdc00 <= u[1]
            < 0xe000)),
    ensures
        utf16_text(u) is None,
        utf16_text_lossy(u) == seq!['\u{fffd}'] + utf16_text_lossy(u.skip(1)),
{
}

// ---------------------------------------------------------------------
// Pages

/// Records one after the other.
pub open spec fn in_a_row(recs: Seq<Seq<u8>>) -> Seq<u8>
    decreases recs.len(),
{
    if recs.len() == 0 {
        Seq::empty()
    } else {
        recs[0] + in_a_row(recs.drop_first())
    }
}

/// What the records say, those that are skipped left out.
pub open spec fn all_said(recs: Seq<Seq<u8>>) -> Seq<UsnFields>
    decreases recs.len(),
{
    if recs.len() == 0 {
        Seq::empty()
    } else {
        match usn_fields(recs[0]) {
            Some(f) => seq![f] + all_said(recs.drop_first()),
            None => all_said(recs.drop_first()),
        }
    }
}

/// A page gives what its records say, one after the other: each record begins
/// with its length, and the position of the next page comes before them.
pub proof fn page_gives_all_records(head: Seq<u8>, recs: Seq<Seq<u8>>)
    requires
        forall|i: int|
            0 <= i < recs.len() ==> (#[trigger] recs[i]).len() >= 60 && le32(recs[i], 0)
                == recs[i].len(),
    ensures
        page_records(head + in_a_row(recs), head.len() as int) == all_said(recs),
    decreases recs.len(),
{
    let b = head + in_a_row(recs);
    let off = head.len() as int;
    if recs.len() > 0 {
        let first = recs[0];
        let rest = recs.drop_first();
        assert forall|i: int| 0 <= i < rest.len() implies (#[trigger] rest[i]).len() >= 60 && le32(
            rest[i],
            0,
        ) == rest[i].len() by {
            assert(rest[i] == recs[i + 1]);
        }
        page_gives_all_records(head + first, rest);
        assert(b =~= (head + first) + in_a_row(rest));
        assert(b.subrange(off, off + first.len()) =~= first);
        assert(le32(b, off) == le32(first, 0)) by {
            assert forall|k: int| 0 <= k < 4 implies b[off + k] == #[trigger] first[k] by {}
            assert(b[off] == first[0] && b[off + 1] == first[1] && b[off + 2] == first[2] && b[off
                + 3] == first[3]);
        }
    }
}

/// A journal's five numbers are read back from their bytes.
pub proof fn journal_reads_back(
    b: Seq<u8>,
    id: u64,
    first: i64,
    next: i64,
    lowest: i64,
    most: i64,
)
    requires
        holds(b, 0, le64_bytes(id as int)),
        holds(b, 8, le64_bytes(bits_of(first))),
        holds(b, 16, le64_bytes(bits_of(next))),
        holds(b, 24, le64_bytes(bits_of(lowest))),
        holds(b, 32, le64_bytes(bits_of(most))),
    ensures
        journal_fields(b).journal_id == id,
        journal_fields(b).first_usn == first,
        journal_fields(b).next_usn == next,
        journal_fields(b).lowest_valid_usn == lowest,
        journal_fields(b).max_usn == most,
{
    number_lengths(id as int);
    number_lengths(bits_of(first));
    number_lengths(bits_of(next));
    number_lengths(bits_of(lowest));
    number_lengths(bits_of(most));
    le64_read(b, 0, id as int);
    le64_read(b, 8, bits_of(first));
    le64_read(b, 16, bits_of(next));
    le64_read(b, 24, bits_of(lowest));
    le64_read(b, 32, bits_of(most));
}

/// As many changes are read as asked for, between one and a hundred thousand,
/// and no page is asked for after the five hundred and twelfth.
pub proof fn reading_is_bounded(limit: usize, s: DeltaState)
    ensures
        1 <= limit <= 100_000 ==> delta_limit(limit) == limit,
        limit == 0 ==> delta_limit(limit) == 1,
        limit > 100_000 ==> delta_limit(limit) == 100_000,
        wants_page(s, delta_limit(limit)) <==> !s.done && s.pages < 512 && s.entries.len()
            < delta_limit(limit),
{
}

// ---------------------------------------------------------------------
// Reasons

/// The reasons and their names.
pub open spec fn reasons() -> Seq<(u32, Seq<char>)> {
    seq![
        (0x00000001, "DATA_OVERWRITE"@),
        (0x00000002, "DATA_EXTEND"@),
        (0x00000004, "DATA_TRUNCATION"@),
        (0x00000010, "NAMED_DATA_OVERWRITE"@),
        (0x00000020, "NAMED_DATA_EXTEND"@),
        (0x00000040, "NAMED_DATA_TRUNCATION"@),
        (0x00000100, "FILE_CREATE"@),
        (0x00000200, "FILE_DELETE"@),
        (0x00000400, "EA_CHANGE"@),
        (0x00000800, "SECURITY_CHANGE"@),
        (0x00001000, "RENAME_OLD"@),
        (0x00002000, "RENAME_NEW"@),
        (0x00004000, "INDEXABLE_CHANGE"@),
        (0x00008000, "BASIC_INFO_CHANGE"@),
        (0x00010000, "HARD_LINK_CHANGE"@),
        (0x00020000, "COMPRESSION_CHANGE"@),
        (0x00040000, "ENCRYPTION_CHANGE"@),
        (0x00080000, "OBJECT_ID_CHANGE"@),
        (0x00100000, "REPARSE_POINT_CHANGE"@),
        (0x00200000, "STREAM_CHANGE"@),
        (0x80000000, "CLOSE"@),
    ]
}

/// The names of those that are among the reasons `r`, in order.
pub open spec fn named_in(r: u32) -> Seq<Seq<char>> {
    reasons().filter(|f: (u32, Seq<char>)| r & f.0 != 0).map_values(|f: (u32, Seq<char>)| f.1)
}

/// Names with a bar between each and the next.
pub open spec fn with_bars(names: Seq<Seq<char>>) -> Seq<char>
    decreases names.len(),
{
    if names.len() == 0 {
        Seq::empty()
    } else if names.len() == 1 {
        names[0]
    } else {
        names[0] + "|"@ + with_bars(names.drop_first())
    }
}

/// A reason is told by the names of all its known bits, in order, with bars
/// between them; where none is known, by its number.
pub proof fn reasons_are_told(r: u32)
    ensures
        named_in(r).len() > 0 ==> reason_text(r) == with_bars(named_in(r)),
        named_in(r).len() == 0 ==> reason_text(r) == "0x"@ + hex_upper(r as nat),
{
    let f = |f: (u32, Seq<char>)| r & f.0 != 0;
    assert(reasons() =~= reason_flags());
    flags_filtered(r, reasons());
    bars_agree(named_in(r));
}

proof fn flags_filtered(r: u32, flags: Seq<(u32, Seq<char>)>)
    ensures
        set_flags(r, flags) == flags.filter(|f: (u32, Seq<char>)| r & f.0 != 0).map_values(
            |f: (u32, Seq<char>)| f.1,
        ),
    decreases flags.len(),
{
    let p = |f: (u32, Seq<char>)| r & f.0 != 0;
    let name = |f: (u32, Seq<char>)| f.1;
    reveal(Seq::filter);
    if flags.len() > 0 {
        let front = flags.drop_last();
        flags_filtered(r, front);
        if p(flags.last()) {
            assert(front.filter(p).push(flags.last()).map_values(name) =~= front.filter(
                p,
            ).map_values(name).push(flags.last().1));
        }
    } else {
        assert(flags.filter(p).map_values(name) =~= Seq::empty());
    }
}

proof fn bars_agree(names: Seq<Seq<char>>)
    ensures
        names.len() > 0 ==> barred(names) == with_bars(names),
    decreases names.len(),
{
    if names.len() == 2 {
        assert(barred(names.drop_last()) == names[0]);
        assert(with_bars(names.drop_first()) == names[1]);
    } else if names.len() > 2 {
        let mid = names.drop_first().drop_last();
        bars_agree(names.drop_last());
        bars_agree(names.drop_first());
        bars_agree(mid);
        assert(names.drop_last().drop_first() =~= mid);
        assert(barred(names.drop_first()) == barred(mid) + "|"@ + names.last());
        assert(with_bars(names.drop_last()) == names[0] + "|"@ + with_bars(mid));
        assert(barred(names) =~= with_bars(names));
    }
}

// ---------------------------------------------------------------------
// Reading

/// A page brings its changes behind those that are there, as many as there is
/// room for, and the position to go on from: its own, or that of the first
/// change that was left. Reading ends with a page without changes, and where
/// the page's position does not advance or reaches the journal's end.
pub proof fn pages_are_taken(s: DeltaState, b: Seq<u8>, j: UsnJournalInfo, limit: int, next: i64)
    requires
        s.entries.len() <= limit,
        b.len() > 8 ==> holds(b, 0, le64_bytes(bits_of(next))),
    ensures
        ({
            let t = page_taken(s, b, j, limit);
            let all = s.entries + page_records(b, 8);
            &&& t.pages == s.pages + 1
            &&& b.len() <= 8 ==> t.done && t.entries == s.entries && t.cursor == s.cursor
            &&& b.len() > 8 ==> {
                &&& t.done <==> next <= s.cursor || next >= j.next_usn
                &&& all.len() <= limit ==> t.entries == all && t.cursor == next
                &&& all.len() > limit ==> t.entries == all.take(limit) && t.cursor
                    == all[limit].usn
            }
        }),
{
    if b.len() > 8 {
        number_lengths(bits_of(next));
        le64_read(b, 0, bits_of(next));
    }
}

/// Reading goes page by page as long as one is wanted; a page that cannot be
/// read ends it with an error that tells why and of which volume.
pub proof fn pages_are_read_in_turn(
    s: DeltaState,
    pages: Seq<PageRead>,
    root: Seq<char>,
    j: UsnJournalInfo,
    limit: int,
)
    ensures
        !wants_page(s, limit) ==> deltas_read(s, pages, root, j, limit) == Ok::<
            DeltaState,
            UsnErrorView,
        >(s),
        wants_page(s, limit) && pages.len() > 0 ==> (pages[0] matches PageRead::Page(b)
            ==> deltas_read(s, pages, root, j, limit) == deltas_read(
            page_taken(s, b@, j, limit),
            pages.skip(1),
            root,
            j,
            limit,
        )),
        wants_page(s, limit) && pages.len() > 0 ==> (pages[0] matches PageRead::Failed(m)
            ==> deltas_read(s, pages, root, j, limit) == Err::<DeltaState, UsnErrorView>(
            UsnErrorView::ReadFailed(m@, root),
        )),
{
}

} // verus!
