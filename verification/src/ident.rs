//! Placeholder identifiers.
//!
//! A legal placeholder name starts with a letter or an underscore and
//! continues with letters, digits or underscores.

use vstd::prelude::*;
use vstd::string::*;

verus! {

/// Whether a character has the Unicode `Alphabetic` property.
pub uninterp spec fn unicode_letter(c: char) -> bool;

/// Whether a character is a Unicode letter or number.
pub uninterp spec fn unicode_alnum(c: char) -> bool;

/// Relies on char::is_alphabetic: true exactly for characters with the
/// Unicode `Alphabetic` property; the result depends on the character alone.
#[verifier::external_body]
fn char_is_letter(c: char) -> (r: bool)
    ensures
        r == unicode_letter(c),
{
    c.is_alphabetic()
}

/// Relies on char::is_alphanumeric: true exactly for Unicode letters and
/// numbers; the result depends on the character alone.
#[verifier::external_body]
fn char_is_alnum(c: char) -> (r: bool)
    ensures
        r == unicode_alnum(c),
{
    c.is_alphanumeric()
}

/// A character that may open an identifier: a letter or an underscore.
pub open spec fn start_char(c: char) -> bool {
    c == '_' || unicode_letter(c)
}

/// A character that may continue an identifier: a letter, a digit or an
/// underscore.
pub open spec fn word_char(c: char) -> bool {
    c == '_' || unicode_alnum(c)
}

/// A legal placeholder name: nonempty, opened by a start character and
/// continued by word characters.
pub open spec fn spec_is_identifier(s: Seq<char>) -> bool {
    &&& s.len() > 0
    &&& start_char(s[0])
    &&& forall|i: int| 1 <= i < s.len() ==> word_char(#[trigger] s[i])
}

/// Check whether a variable name is a proper identifier.
pub fn is_identifier(s: &str) -> (r: bool)
    ensures
        r == spec_is_identifier(s@),
{
    let n: usize = s.unicode_len();
    if n == 0 {
        return false;
    }
    let c0: char = s.get_char(0);
    if !(c0 == '_' || char_is_letter(c0)) {
        return false;
    }
    let mut i: usize = 1;
    while i < n
        invariant
            1 <= i <= n,
            n == s@.len(),
            start_char(s@[0]),
            forall|j: int| 1 <= j < i ==> word_char(#[trigger] s@[j]),
        decreases n - i,
    {
        let c: char = s.get_char(i);
        if !(c == '_' || char_is_alnum(c)) {
            return false;
        }
        i += 1;
    }
    true
}

} // verus!
