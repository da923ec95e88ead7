//! Character classification used by the scanner.
//!
//! The scanner follows the Unicode character classes of the standard
//! library: whitespace is stated exactly (the `White_Space` set is small),
//! while the alphabetic and numeric classes are far too large to write out
//! and are therefore named by uninterpreted spec functions whose meaning is
//! fixed by the trusted specifications below.

use vstd::prelude::*;

verus! {

use vstd::string::StrSliceExecFns;

/// The Unicode `White_Space` code points, the exact set that
/// `char::is_whitespace` recognizes (its documentation lists them).
pub open spec fn is_space(c: char) -> bool {
    let u = c as u32;
    (0x09 <= u && u <= 0x0D) || u == 0x20 || u == 0x85 || u == 0xA0 || u == 0x1680 || (0x2000
        <= u && u <= 0x200A) || u == 0x2028 || u == 0x2029 || u == 0x202F || u == 0x205F || u
        == 0x3000
}

/// Whether `c` has the Unicode `Alphabetic` property, the class that
/// `char::is_alphabetic` decides; it depends on the character alone.
pub uninterp spec fn is_alpha(c: char) -> bool;

/// Whether `c` lies in a Unicode numeric category (`Nd`, `Nl`, `No`), the
/// class that `char::is_numeric` decides; it depends on the character alone.
pub uninterp spec fn is_numeric(c: char) -> bool;

/// Relies on `char::is_whitespace`: true exactly on the Unicode
/// `White_Space` code points, which its documentation lists.
pub assume_specification[ char::is_whitespace ](c: char) -> (b: bool)
    ensures
        b == is_space(c),
;

/// Relies on `char::is_alphabetic`: true exactly on Unicode `Alphabetic`
/// characters.
pub assume_specification[ char::is_alphabetic ](c: char) -> (b: bool)
    ensures
        b == is_alpha(c),
;

/// Relies on `char::is_alphanumeric`, documented as
/// `is_alphabetic() || is_numeric()`.
pub assume_specification[ char::is_alphanumeric ](c: char) -> (b: bool)
    ensures
        b == (is_alpha(c) || is_numeric(c)),
;

/// The decimal digits `'0'` through `'9'`, the set `char::is_digit(10)`
/// accepts.
pub open spec fn is_digit(c: char) -> bool {
    48 <= c as u32 && c as u32 <= 57
}

/// The value of a decimal digit character.
pub open spec fn digit_of(c: char) -> int {
    c as u32 - 48
}

/// Decides `is_digit` executably.
pub fn char_is_digit(c: char) -> (b: bool)
    ensures
        b == is_digit(c),
{
    let u = c as u32;
    48 <= u && u <= 57
}

/// Relies on `String`'s `FromIterator<char>`: collecting characters yields
/// the string of exactly those characters, in order.
#[verifier::external_body]
pub(crate) fn string_from_chars(v: Vec<char>) -> (s: String)
    ensures
        s@ == v@,
{
    v.into_iter().collect()
}

/// Whether two string slices hold the same characters.
pub fn str_eq_str(a: &str, b: &str) -> (r: bool)
    ensures
        r == (a@ == b@),
{
    let na = a.unicode_len();
    let nb = b.unicode_len();
    if na != nb {
        return false;
    }
    let mut i: usize = 0;
    while i < na
        invariant
            na == a@.len(),
            na == b@.len(),
            i <= na,
            forall|j: int| 0 <= j < i ==> a@[j] == b@[j],
        decreases na - i,
    {
        if a.get_char(i) != b.get_char(i) {
            return false;
        }
        i = i + 1;
    }
    proof {
        assert(a@ =~= b@);
    }
    true
}

} // verus!
