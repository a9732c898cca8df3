//! Character classes that come from Unicode tables: decimal digits and Han
//! characters. The tables are those of the `regex` crate; the ASCII range is
//! decided here.

use regex::Regex;
use vstd::prelude::*;

verus! {

/// What `regex::Regex::is_match` answers for `text`, with the regex compiled
/// from `pattern`.
pub uninterp spec fn regex_matches(pattern: Seq<char>, text: Seq<char>) -> bool;

/// The pattern of a text that is one decimal digit.
pub open spec fn digit_pattern() -> Seq<char> {
    "^\\d$"@
}

/// The pattern of a text that is one character of the Han script.
pub open spec fn han_pattern() -> Seq<char> {
    "^\\p{Script=Han}$"@
}

/// Whether `c` is an ASCII digit.
pub open spec fn is_plain_digit(c: char) -> bool {
    '0' <= c && c <= '9'
}

/// Whether `c` is a decimal digit: an ASCII digit, or a character beyond
/// ASCII that the digit pattern accepts.
pub open spec fn is_digit(c: char) -> bool {
    is_plain_digit(c) || (c > '\u{7f}' && regex_matches(digit_pattern(), seq![c]))
}

/// Whether `c` is a Han character: one from U+2E80 on that the Han pattern
/// accepts.
pub open spec fn is_han(c: char) -> bool {
    c >= '\u{2e80}' && regex_matches(han_pattern(), seq![c])
}

/// `Regex::new` on one of the two patterns of this module, then
/// `Regex::is_match` on the text that consists of `c` alone. Both patterns
/// compile. The contract only names the answer.
#[verifier::external_body]
fn char_matches(pattern: &str, c: char) -> (r: bool)
    requires
        pattern@ == digit_pattern() || pattern@ == han_pattern(),
    ensures
        r == regex_matches(pattern@, seq![c]),
{
    Regex::new(pattern).unwrap().is_match(c.to_string().as_str())
}

/// Whether `c` is a decimal digit.
pub fn is_decimal_digit(c: char) -> (r: bool)
    ensures
        r == is_digit(c),
{
    if c <= '\u{7f}' {
        '0' <= c && c <= '9'
    } else {
        char_matches("^\\d$", c)
    }
}

/// Whether `c` is a Han character.
pub fn is_han_char(c: char) -> (r: bool)
    ensures
        r == is_han(c),
{
    c >= '\u{2e80}' && char_matches("^\\p{Script=Han}$", c)
}

} // verus!
