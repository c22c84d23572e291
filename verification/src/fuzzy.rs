//! Fuzzy matching of names.

use crate::text::{byte_len, chars_of};
use nucleo_matcher::{Config, Matcher, Utf32Str};
use vstd::prelude::*;

verus! {

/// The scratch memory and settings of the matcher.
#[verifier::external_type_specification]
#[verifier::external_body]
pub struct ExMatcher(nucleo_matcher::Matcher);

/// What `nucleo_matcher::Matcher::fuzzy_match` gives a haystack and a needle
/// under the default settings.
pub uninterp spec fn nucleo_score(haystack: Seq<char>, needle: Seq<char>) -> Option<u16>;

/// `Matcher::new` with the default settings. Nothing is stated of the value:
/// every match sets the settings that it runs under.
#[verifier::external_body]
pub(crate) fn new_matcher() -> Matcher {
    Matcher::new(Config::DEFAULT)
}

/// `Matcher::fuzzy_match` on the two texts as `Utf32Str::new` takes them
/// apart, under `Config::DEFAULT`. The score is only named. It depends on the
/// two texts alone: the memory that the matcher keeps between calls is
/// scratch.
///
/// Left out are the inputs on which the matcher panics: haystacks longer than
/// `u32::MAX`, matches so long that their score may not fit in 16 bits, and
/// needles with ASCII capitals, which must have been folded. Whether the score
/// of a long match fits is known only once it is computed.
#[verifier::external_body]
pub(crate) fn match_names(matcher: &mut Matcher, haystack: &str, needle: &str) -> (r: Option<u16>)
    requires
        scorable(haystack@, needle@),
    ensures
        r == nucleo_score(haystack@, needle@),
{
    matcher.config = Config::DEFAULT;
    let mut haystack_chars = Vec::new();
    let mut needle_chars = Vec::new();
    let haystack = Utf32Str::new(haystack, &mut haystack_chars);
    let needle = Utf32Str::new(needle, &mut needle_chars);
    matcher.fuzzy_match(haystack, needle)
}

/// The longest needle whose score always fits in 16 bits: its first character
/// counts 36 at most, every other 26.
pub const MAX_SCORED_LEN: usize = 2520;

/// What the matcher takes for the length of a text, at most. It goes by
/// characters where one that stands alone is not ASCII, as the first of a text
/// always does, and otherwise by bytes: `e` and a combining accent are three.
pub open spec fn most_units(s: Seq<char>) -> nat {
    if s.len() > 0 && s[0] > '\u{7f}' && s.len() < byte_len(s) {
        s.len()
    } else {
        byte_len(s) as nat
    }
}

/// Whether the matcher can score the pair: the score must fit, and the needle
/// must hold no ASCII capital.
pub open spec fn scorable(haystack: Seq<char>, needle: Seq<char>) -> bool {
    &&& most_units(haystack) <= 0xffff_ffff
    &&& most_units(haystack) <= MAX_SCORED_LEN || most_units(needle) <= MAX_SCORED_LEN
    &&& forall|i: int| 0 <= i < needle.len() ==> !('A' <= #[trigger] needle[i] <= 'Z')
}

/// Whether [`most_units`] is at most `max`.
fn has_at_most(s: &str, max: usize) -> (r: bool)
    ensures
        r == (most_units(s@) <= max),
{
    if s.len() <= max {
        return true;
    }
    let v = chars_of(s);
    v.len() > 0 && v[0] > '\u{7f}' && v.len() <= max
}

/// The fuzzy score of a pair; a pair that cannot be scored does not match.
pub open spec fn fuzzy_score(haystack: Seq<char>, needle: Seq<char>) -> Option<u16> {
    if scorable(haystack, needle) {
        nucleo_score(haystack, needle)
    } else {
        None
    }
}

/// Whether a text holds no ASCII capital.
fn without_capitals(s: &str) -> (r: bool)
    ensures
        r == (forall|i: int| 0 <= i < s@.len() ==> !('A' <= #[trigger] s@[i] <= 'Z')),
{
    let v = chars_of(s);
    for i in 0..v.len()
        invariant
            v@ == s@,
            forall|k: int| 0 <= k < i ==> !('A' <= #[trigger] v@[k] <= 'Z'),
    {
        if 'A' <= v[i] && v[i] <= 'Z' {
            return false;
        }
    }
    true
}

/// What is known of a needle before it meets a haystack.
pub(crate) struct Needle {
    /// Whether it holds no ASCII capital.
    pub folded: bool,
    /// Whether it is short enough for every score to fit.
    pub short: bool,
}

impl Needle {
    /// Whether this is known of `needle`.
    pub(crate) open spec fn of(&self, needle: Seq<char>) -> bool {
        &&& self.folded == (forall|i: int|
            0 <= i < needle.len() ==> !('A' <= #[trigger] needle[i] <= 'Z'))
        &&& self.short == (most_units(needle) <= MAX_SCORED_LEN)
    }

    /// What is known of `needle`.
    pub(crate) fn new(needle: &str) -> (r: Needle)
        ensures
            r.of(needle@),
    {
        Needle { folded: without_capitals(needle), short: has_at_most(needle, MAX_SCORED_LEN) }
    }
}

/// Computes [`fuzzy_score`].
pub(crate) fn score(
    matcher: &mut Matcher,
    haystack: &str,
    needle: &str,
    known: &Needle,
) -> (r: Option<u16>)
    requires
        known.of(needle@),
    ensures
        r == fuzzy_score(haystack@, needle@),
{
    if known.folded && has_at_most(haystack, 0xffff_ffff) && (known.short || has_at_most(
        haystack,
        MAX_SCORED_LEN,
    )) {
        match_names(matcher, haystack, needle)
    } else {
        None
    }
}

} // verus!
