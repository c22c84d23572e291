//! What searching, trimming and writing numbers do to texts.

use crate::text::{
    begins_with, decimal, digit_char, has_text, hex_lower, hex_upper, is_space, occurs_at,
    signed_decimal, small_digit_char, trimmed, trimmed_end, trimmed_start,
};
use vstd::prelude::*;

verus! {

/// A text holds another exactly when it is that text with something before it
/// and something behind it; it begins with it when nothing stands before it.
pub proof fn held_texts(hay: Seq<char>, needle: Seq<char>)
    ensures
        has_text(hay, needle) <==> exists|a: Seq<char>, b: Seq<char>|
            hay == #[trigger] (a + needle + b),
        begins_with(hay, needle) <==> needle.is_prefix_of(hay),
{
    if has_text(hay, needle) {
        let i = choose|i: int| #[trigger] occurs_at(hay, needle, i);
        let a = hay.take(i);
        let b = hay.skip(i + needle.len());
        assert(hay =~= a + needle + b);
    }
    if exists|a: Seq<char>, b: Seq<char>| hay == #[trigger] (a + needle + b) {
        let (a, b) = choose|a: Seq<char>, b: Seq<char>| hay == #[trigger] (a + needle + b);
        assert(hay.subrange(a.len() as int, (a.len() + needle.len()) as int) =~= needle);
        assert(occurs_at(hay, needle, a.len() as int));
    }
}

/// White space by its numbers.
pub proof fn space_by_number(c: char)
    ensures
        is_space(c) <==> {
            let n = c as u32;
            ||| 9 <= n <= 13
            ||| n == 32
            ||| n == 133
            ||| n == 160
            ||| n == 5760
            ||| 8192 <= n <= 8202
            ||| n == 8232
            ||| n == 8233
            ||| n == 8239
            ||| n == 8287
            ||| n == 12288
        },
{
}

/// Whether a text is nothing but space.
pub open spec fn all_space(s: Seq<char>) -> bool {
    forall|i: int| 0 <= i < s.len() ==> is_space(#[trigger] s[i])
}

proof fn start_is_cut(s: Seq<char>) -> (k: int)
    ensures
        0 <= k <= s.len(),
        trimmed_start(s) == s.skip(k),
        all_space(s.take(k)),
        k < s.len() ==> !is_space(s[k]),
    decreases s.len(),
{
    if s.len() > 0 && is_space(s[0]) {
        let rest = s.drop_first();
        let k = start_is_cut(rest);
        assert(rest.skip(k) =~= s.skip(k + 1));
        assert forall|i: int| 0 <= i < k + 1 implies is_space(#[trigger] s.take(k + 1)[i]) by {
            if i > 0 {
                assert(rest.take(k)[i - 1] == s[i]);
            }
        }
        k + 1
    } else {
        assert(s.skip(0) =~= s);
        0
    }
}

proof fn end_is_cut(s: Seq<char>) -> (k: int)
    ensures
        0 <= k <= s.len(),
        trimmed_end(s) == s.take(k),
        all_space(s.skip(k)),
        k > 0 ==> !is_space(s[k - 1]),
    decreases s.len(),
{
    if s.len() > 0 && is_space(s.last()) {
        let rest = s.drop_last();
        let k = end_is_cut(rest);
        assert(rest.take(k) =~= s.take(k));
        assert forall|i: int| 0 <= i < s.len() - k implies is_space(#[trigger] s.skip(k)[i]) by {
            if i < rest.len() - k {
                assert(rest.skip(k)[i] == s[k + i]);
            }
        }
        k
    } else {
        assert(s.take(s.len() as int) =~= s);
        s.len() as int
    }
}

/// Trimming takes off all the space around a text and nothing else.
pub proof fn trimming_takes_off_space(s: Seq<char>)
    ensures
        exists|a: Seq<char>, b: Seq<char>|
            all_space(a) && all_space(b) && s == #[trigger] (a + trimmed(s) + b),
        trimmed(s).len() > 0 ==> !is_space(trimmed(s)[0]) && !is_space(trimmed(s).last()),
{
    let k = start_is_cut(s);
    let t = trimmed_start(s);
    let m = end_is_cut(t);
    let a = s.take(k);
    let b = t.skip(m);
    assert(s =~= a + trimmed(s) + b);
    if trimmed(s).len() > 0 {
        assert(trimmed(s)[0] == t[0]);
        assert(t[0] == s[k]);
    }
}

/// The value of a digit.
pub open spec fn digit_value(c: char) -> int {
    if '0' <= c <= '9' {
        c as int - '0' as int
    } else if 'a' <= c <= 'f' {
        c as int - 'a' as int + 10
    } else {
        c as int - 'A' as int + 10
    }
}

/// The number that digits stand for.
pub open spec fn number_value(s: Seq<char>, radix: int) -> int
    decreases s.len(),
{
    if s.len() == 0 {
        0
    } else {
        radix * number_value(s.drop_last(), radix) + digit_value(s.last())
    }
}

proof fn digits_have_values(d: int)
    requires
        0 <= d < 16,
    ensures
        digit_value(digit_char(d)) == d,
        digit_value(small_digit_char(d)) == d,
        d < 10 ==> '0' <= digit_char(d) <= '9',
        d > 0 ==> digit_char(d) != '0' && small_digit_char(d) != '0',
        !('a' <= digit_char(d) <= 'f'),
        !('A' <= small_digit_char(d) <= 'F'),
{
}

/// A number is written in the digits of its value, without leading zeros.
pub proof fn numbers_are_written(n: nat)
    ensures
        number_value(decimal(n), 10) == n,
        number_value(hex_upper(n), 16) == n,
        number_value(hex_lower(n), 16) == n,
        n > 0 ==> decimal(n)[0] != '0' && hex_upper(n)[0] != '0' && hex_lower(n)[0] != '0',
        decimal(n).len() > 0 && hex_upper(n).len() > 0 && hex_lower(n).len() > 0,
    decreases n,
{
    reveal_with_fuel(number_value, 2);
    digits_have_values(n as int % 10);
    digits_have_values(n as int % 16);
    if n >= 10 {
        numbers_are_written(n / 10);
        assert(decimal(n).drop_last() =~= decimal(n / 10));
    } else {
        assert(decimal(n).drop_last() =~= Seq::empty());
    }
    if n >= 16 {
        numbers_are_written(n / 16);
        assert(hex_upper(n).drop_last() =~= hex_upper(n / 16));
        assert(hex_lower(n).drop_last() =~= hex_lower(n / 16));
    } else {
        assert(hex_upper(n).drop_last() =~= Seq::empty());
        assert(hex_lower(n).drop_last() =~= Seq::empty());
    }
}

/// Letters among the digits are capital or small as asked for.
pub proof fn digits_are_in_case(n: nat, i: int)
    ensures
        0 <= i < decimal(n).len() ==> '0' <= decimal(n)[i] <= '9',
        0 <= i < hex_upper(n).len() ==> !('a' <= hex_upper(n)[i] <= 'f'),
        0 <= i < hex_lower(n).len() ==> !('A' <= hex_lower(n)[i] <= 'F'),
    decreases n,
{
    digits_have_values(n as int % 10);
    digits_have_values(n as int % 16);
    if n >= 10 {
        digits_are_in_case(n / 10, i);
    }
    if n >= 16 {
        digits_are_in_case(n / 16, i);
    }
}

/// A number below zero is written with a minus before its digits.
pub proof fn signed_numbers_are_written(n: int)
    ensures
        n < 0 ==> signed_decimal(n) == seq!['-'] + decimal((-n) as nat),
        n >= 0 ==> signed_decimal(n) == decimal(n as nat),
{
}

} // verus!
