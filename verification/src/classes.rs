//! The fixed character classes of the word grammar: whitespace, letters,
//! the safe-unescaped set, and the double-quote metacharacters.

use vstd::prelude::*;

verus! {

/// Whether `char::is_alphabetic` holds of a character above ASCII.
pub uninterp spec fn wide_letter(c: char) -> bool;

/// Whether `char::is_whitespace` holds of a character above ASCII.
pub uninterp spec fn wide_space(c: char) -> bool;

/// Unicode whitespace. On ASCII this is exactly space, tab, line feed,
/// vertical tab, form feed and carriage return.
pub open spec fn is_space_char(c: char) -> bool {
    if (c as u32) < 128 {
        c == ' ' || c == '\t' || c == '\n' || c == '\r' || c == '\u{b}' || c == '\u{c}'
    } else {
        wide_space(c)
    }
}

/// Unicode letters. On ASCII this is exactly `a`..`z` and `A`..`Z`;
/// beyond ASCII it goes by `char::is_alphabetic`, and no such letter
/// is whitespace.
pub open spec fn is_letter_char(c: char) -> bool {
    if (c as u32) < 128 {
        (97 <= c as u32 && c as u32 <= 122) || (65 <= c as u32 && c as u32 <= 90)
    } else {
        wide_letter(c) && !wide_space(c)
    }
}

/// The ASCII decimal digits.
pub open spec fn is_digit_char(c: char) -> bool {
    48 <= c as u32 && c as u32 <= 57
}

/// The safe-unescaped set: characters the escaper never prefixes with a
/// backslash — letters, digits, `_ - . , : / @` and the newline.
pub open spec fn is_safe_char(c: char) -> bool {
    ||| is_letter_char(c)
    ||| is_digit_char(c)
    ||| c == '_'
    ||| c == '-'
    ||| c == '.'
    ||| c == ','
    ||| c == ':'
    ||| c == '/'
    ||| c == '@'
    ||| c == '\n'
}

/// The double-quote metacharacters: the only characters whose preceding
/// backslash has escaping effect inside a double-quoted span.
pub open spec fn is_dq_meta(c: char) -> bool {
    c == '$' || c == '`' || c == '"' || c == '\\' || c == '\n'
}

/// Relies on `char::is_whitespace`: the result depends on the character's
/// White_Space property alone; on ASCII that property holds exactly of
/// space, tab, line feed, vertical tab, form feed and carriage return.
#[verifier::external_body]
pub(crate) fn char_is_space(c: char) -> (r: bool)
    ensures
        r == is_space_char(c),
        (c as u32) >= 128 ==> r == wide_space(c),
{
    c.is_whitespace()
}

/// Relies on `char::is_alphabetic`: the result depends on the character's
/// Alphabetic property alone; on ASCII that property holds exactly of the
/// letters `a`..`z` and `A`..`Z`, and no Alphabetic character has the
/// White_Space property.
#[verifier::external_body]
pub(crate) fn char_is_letter(c: char) -> (r: bool)
    ensures
        r == is_letter_char(c),
        (c as u32) >= 128 ==> r == (wide_letter(c) && !wide_space(c)),
{
    c.is_alphabetic()
}

/// Whether the escaper may emit `c` without a backslash prefix.
pub(crate) fn char_is_safe(c: char) -> (r: bool)
    ensures
        r == is_safe_char(c),
{
    if char_is_letter(c) {
        return true;
    }
    let u = c as u32;
    (48 <= u && u <= 57) || c == '_' || c == '-' || c == '.' || c == ',' || c == ':' || c == '/'
        || c == '@' || c == '\n'
}

/// A safe character other than the newline can never split a word, open a
/// quote or start an escape: it is not whitespace, not a backslash and not
/// a quote of either kind.
pub proof fn lemma_safe_char_plain(c: char)
    requires
        is_safe_char(c),
        c != '\n',
    ensures
        !is_space_char(c),
        c != '\\',
        c != '\'',
        c != '"',
{
}

} // verus!
