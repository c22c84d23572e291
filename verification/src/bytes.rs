//! Little-endian integers and UTF-16 text in byte buffers.

use vstd::prelude::*;

verus! {

// ---------------------------------------------------------------------
// Integers

/// The two bytes at `at`, least significant first.
pub open spec fn le16(b: Seq<u8>, at: int) -> int {
    b[at] + 0x100 * b[at + 1]
}

/// The four bytes at `at`, least significant first.
pub open spec fn le32(b: Seq<u8>, at: int) -> int {
    le16(b, at) + 0x1_0000 * le16(b, at + 2)
}

/// The eight bytes at `at`, least significant first.
pub open spec fn le64(b: Seq<u8>, at: int) -> int {
    le32(b, at) + 0x1_0000_0000 * le32(b, at + 4)
}

/// A 64-bit pattern read as a two's complement number.
pub open spec fn as_signed(n: int) -> int {
    if n >= 0x8000_0000_0000_0000 {
        n - 0x1_0000_0000_0000_0000
    } else {
        n
    }
}

/// Reads [`le16`].
pub fn read_u16(b: &[u8], at: usize) -> (r: u16)
    requires
        at + 2 <= b.len(),
    ensures
        r == le16(b@, at as int),
{
    b[at] as u16 + 0x100 * (b[at + 1] as u16)
}

/// Reads [`le32`].
pub fn read_u32(b: &[u8], at: usize) -> (r: u32)
    requires
        at + 4 <= b.len(),
    ensures
        r == le32(b@, at as int),
{
    read_u16(b, at) as u32 + 0x1_0000 * (read_u16(b, at + 2) as u32)
}

/// Reads [`le64`].
pub fn read_u64(b: &[u8], at: usize) -> (r: u64)
    requires
        at + 8 <= b.len(),
    ensures
        r == le64(b@, at as int),
{
    read_u32(b, at) as u64 + 0x1_0000_0000 * (read_u32(b, at + 4) as u64)
}

/// Reads [`le64`] as a signed number.
pub fn read_i64(b: &[u8], at: usize) -> (r: i64)
    requires
        at + 8 <= b.len(),
    ensures
        r == as_signed(le64(b@, at as int)),
{
    let n: u64 = read_u64(b, at);
    if n >= 0x8000_0000_0000_0000 {
        -((0xffff_ffff_ffff_ffff - n) as i64) - 1
    } else {
        n as i64
    }
}

/// Appends the two bytes of a number, least significant first.
pub fn push_u16(out: &mut Vec<u8>, n: u16)
    ensures
        final(out)@.len() == old(out)@.len() + 2,
        final(out)@.take(old(out)@.len() as int) == old(out)@,
        le16(final(out)@, old(out)@.len() as int) == n,
{
    out.push((n % 0x100) as u8);
    out.push((n / 0x100) as u8);
}

/// Appends the four bytes of a number, least significant first.
pub fn push_u32(out: &mut Vec<u8>, n: u32)
    ensures
        final(out)@.len() == old(out)@.len() + 4,
        final(out)@.take(old(out)@.len() as int) == old(out)@,
        le32(final(out)@, old(out)@.len() as int) == n,
{
    push_u16(out, (n % 0x1_0000) as u16);
    let ghost mid = out@;
    push_u16(out, (n / 0x1_0000) as u16);
    proof {
        kept_bytes(mid, out@);
    }
}

/// Appends the eight bytes of a number, least significant first.
pub fn push_u64(out: &mut Vec<u8>, n: u64)
    ensures
        final(out)@.len() == old(out)@.len() + 8,
        final(out)@.take(old(out)@.len() as int) == old(out)@,
        le64(final(out)@, old(out)@.len() as int) == n,
{
    push_u32(out, (n % 0x1_0000_0000) as u32);
    let ghost mid = out@;
    push_u32(out, (n / 0x1_0000_0000) as u32);
    proof {
        kept_bytes(mid, out@);
    }
}

/// Bytes that are appended change no number in front of them.
pub proof fn kept_bytes(a: Seq<u8>, b: Seq<u8>)
    requires
        a.len() <= b.len(),
        b.take(a.len() as int) == a,
    ensures
        forall|i: int| 0 <= i < a.len() ==> #[trigger] b[i] == a[i],
        forall|i: int| 0 <= i && i + 2 <= a.len() ==> #[trigger] le16(b, i) == le16(a, i),
        forall|i: int| 0 <= i && i + 4 <= a.len() ==> #[trigger] le32(b, i) == le32(a, i),
        forall|i: int| 0 <= i && i + 8 <= a.len() ==> #[trigger] le64(b, i) == le64(a, i),
{
    assert forall|i: int| 0 <= i < a.len() implies #[trigger] b[i] == a[i] by {
        assert(b.take(a.len() as int)[i] == b[i]);
    }
}

// ---------------------------------------------------------------------
// UTF-16

/// The `n` code units at `off`.
pub open spec fn units_at(b: Seq<u8>, off: int, n: nat) -> Seq<u16> {
    Seq::new(n, |i: int| le16(b, off + 2 * i) as u16)
}

/// Reads [`units_at`].
pub fn read_units(b: &[u8], off: usize, n: usize) -> (r: Vec<u16>)
    requires
        off + 2 * n <= b.len(),
    ensures
        r@ == units_at(b@, off as int, n as nat),
{
    let mut out: Vec<u16> = Vec::new();
    for i in 0..n
        invariant
            off + 2 * n <= b.len(),
            out@ =~= units_at(b@, off as int, i as nat),
    {
        out.push(read_u16(b, off + i * 2));
    }
    out
}

/// The first half of a surrogate pair.
pub open spec fn is_high(u: u16) -> bool {
    0xd800 <= u < 0xdc00
}

/// The second half of a surrogate pair.
pub open spec fn is_low(u: u16) -> bool {
    0xdc00 <= u < 0xe000
}

/// The character that a surrogate pair stands for.
pub open spec fn pair_char(high: u16, low: u16) -> char {
    (0x10000 + (high - 0xd800) * 0x400 + (low - 0xdc00)) as char
}

/// The text of well-formed UTF-16, nothing where a surrogate stands alone.
pub open spec fn utf16_text(u: Seq<u16>) -> Option<Seq<char>>
    decreases u.len(),
{
    if u.len() == 0 {
        Some(Seq::empty())
    } else if !is_high(u[0]) && !is_low(u[0]) {
        match utf16_text(u.skip(1)) {
            Some(t) => Some(seq![u[0] as char] + t),
            None => None,
        }
    } else if is_high(u[0]) && u.len() > 1 && is_low(u[1]) {
        match utf16_text(u.skip(2)) {
            Some(t) => Some(seq![pair_char(u[0], u[1])] + t),
            None => None,
        }
    } else {
        None
    }
}

/// The text of UTF-16 in which U+FFFD replaces each lone surrogate.
pub open spec fn utf16_text_lossy(u: Seq<u16>) -> Seq<char>
    decreases u.len(),
{
    if u.len() == 0 {
        Seq::empty()
    } else if !is_high(u[0]) && !is_low(u[0]) {
        seq![u[0] as char] + utf16_text_lossy(u.skip(1))
    } else if is_high(u[0]) && u.len() > 1 && is_low(u[1]) {
        seq![pair_char(u[0], u[1])] + utf16_text_lossy(u.skip(2))
    } else {
        seq!['\u{fffd}'] + utf16_text_lossy(u.skip(1))
    }
}

/// The UTF-16 code units of one character.
pub open spec fn char_units(c: char) -> Seq<u16> {
    let n = c as u32;
    if n < 0x10000 {
        seq![n as u16]
    } else {
        seq![(0xd800 + (n - 0x10000) / 0x400) as u16, (0xdc00 + (n - 0x10000) % 0x400) as u16]
    }
}

/// The UTF-16 code units of a text.
pub open spec fn utf16_units(s: Seq<char>) -> Seq<u16>
    decreases s.len(),
{
    if s.len() == 0 {
        Seq::empty()
    } else {
        char_units(s[0]) + utf16_units(s.skip(1))
    }
}

/// The character with the scalar value `n`, if there is one.
pub open spec fn scalar_char(n: u32) -> Option<char> {
    if n <= 0x10ffff && !(0xd800 <= n < 0xe000) {
        Some(n as char)
    } else {
        None
    }
}

/// `char::from_u32` accepts the Unicode scalar values: everything up to
/// U+10FFFF but the surrogates.
pub assume_specification[ char::from_u32 ](i: u32) -> (r: Option<char>)
    ensures
        r == scalar_char(i),
;

fn unit_char(u: u16) -> (c: char)
    requires
        !is_high(u) && !is_low(u),
    ensures
        c == u as char,
{
    match char::from_u32(u as u32) {
        Some(c) => c,
        None => '\u{fffd}',
    }
}

fn surrogate_char(high: u16, low: u16) -> (c: char)
    requires
        is_high(high),
        is_low(low),
    ensures
        c == pair_char(high, low),
{
    let n: u32 = 0x10000 + (high - 0xd800) as u32 * 0x400 + (low - 0xdc00) as u32;
    match char::from_u32(n) {
        Some(c) => c,
        None => '\u{fffd}',
    }
}

/// Computes [`utf16_text`].
pub fn decode_utf16(u: &Vec<u16>) -> (r: Option<String>)
    ensures
        r is Some <==> utf16_text(u@) is Some,
        r matches Some(s) ==> Some(s@) == utf16_text(u@),
{
    let mut out = String::new();
    let mut i: usize = 0;
    assert(u@.skip(0) =~= u@);
    while i < u.len()
        invariant
            i <= u@.len(),
            utf16_text(u@) == (match utf16_text(u@.skip(i as int)) {
                Some(t) => Some(out@ + t),
                None => None::<Seq<char>>,
            }),
        decreases u@.len() - i,
    {
        let a: u16 = u[i];
        if a < 0xd800 || a >= 0xe000 {
            out.push(unit_char(a));
            proof {
                assert(u@.skip(i as int).skip(1) =~= u@.skip(i + 1));
                if let Some(t) = utf16_text(u@.skip(i + 1)) {
                    assert(out@ + t =~= out@.drop_last() + (seq![a as char] + t));
                }
            }
            i += 1;
        } else if a < 0xdc00 && i + 1 < u.len() && u[i + 1] >= 0xdc00 && u[i + 1] < 0xe000 {
            let b: u16 = u[i + 1];
            out.push(surrogate_char(a, b));
            proof {
                assert(u@.skip(i as int).skip(2) =~= u@.skip(i + 2));
                if let Some(t) = utf16_text(u@.skip(i + 2)) {
                    assert(out@ + t =~= out@.drop_last() + (seq![pair_char(a, b)] + t));
                }
            }
            i += 2;
        } else {
            return None;
        }
    }
    Some(out)
}

/// Computes [`utf16_text_lossy`].
pub fn decode_utf16_lossy(u: &Vec<u16>) -> (r: String)
    ensures
        r@ == utf16_text_lossy(u@),
{
    let mut out = String::new();
    let mut i: usize = 0;
    assert(u@.skip(0) =~= u@);
    while i < u.len()
        invariant
            i <= u@.len(),
            utf16_text_lossy(u@) == out@ + utf16_text_lossy(u@.skip(i as int)),
        decreases u@.len() - i,
    {
        let a: u16 = u[i];
        if a < 0xd800 || a >= 0xe000 {
            out.push(unit_char(a));
            assert(u@.skip(i as int).skip(1) =~= u@.skip(i + 1));
            i += 1;
        } else if a < 0xdc00 && i + 1 < u.len() && u[i + 1] >= 0xdc00 && u[i + 1] < 0xe000 {
            let b: u16 = u[i + 1];
            out.push(surrogate_char(a, b));
            assert(u@.skip(i as int).skip(2) =~= u@.skip(i + 2));
            i += 2;
        } else {
            out.push('\u{fffd}');
            assert(u@.skip(i as int).skip(1) =~= u@.skip(i + 1));
            i += 1;
        }
    }
    out
}

/// Appends the UTF-16 code units of `s` to `out`.
pub fn push_utf16(out: &mut Vec<u16>, s: &str)
    ensures
        final(out)@ == old(out)@ + utf16_units(s@),
{
    let v = crate::text::chars_of(s);
    let ghost start = out@;
    assert(v@.skip(0) =~= v@);
    for i in 0..v.len()
        invariant
            v@ == s@,
            start + utf16_units(v@) =~= out@ + utf16_units(v@.skip(i as int)),
    {
        let n: u32 = v[i] as u32;
        if n < 0x10000 {
            out.push(n as u16);
        } else {
            out.push((0xd800 + (n - 0x10000) / 0x400) as u16);
            out.push((0xdc00 + (n - 0x10000) % 0x400) as u16);
        }
        assert(v@.skip(i as int).skip(1) =~= v@.skip(i + 1));
    }
}

/// Decoding the UTF-16 code units of a text gives the text back.
pub proof fn utf16_round_trip(s: Seq<char>)
    ensures
        utf16_text(utf16_units(s)) == Some(s),
        utf16_text_lossy(utf16_units(s)) == s,
    decreases s.len(),
{
    if s.len() == 0 {
        assert(s =~= Seq::empty());
    } else {
        let rest = s.skip(1);
        utf16_round_trip(rest);
        let u = utf16_units(s);
        let c: char = s[0];
        vstd::utf8::char_is_scalar(c);
        vstd::utf8::char_u32_cast(c, c as u32);
        let k = char_units(s[0]).len();
        assert(u.skip(k as int) =~= utf16_units(rest));
    }
}

} // verus!
