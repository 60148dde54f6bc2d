//! What this library takes on trust from the standard library: the two
//! functions on strings that it calls and that vstd says nothing about.

use vstd::prelude::*;
use crate::text::spec_lossy_char;

verus! {

/// `String::push` of the standard library appends the character to the end
/// of the string.
pub assume_specification[ String::push ](s: &mut String, c: char)
    ensures
        final(s)@ == old(s)@.push(c),
;

/// `String::from_utf16_lossy` of the standard library, on a single code unit.
/// It decodes UTF-16 and puts U+FFFD in the place of whatever is not valid.
/// One code unit is valid exactly when it is no surrogate, and then it is the
/// character with that code; so the result is one character,
/// `spec_lossy_char` of the unit.
#[verifier::external_body]
pub(crate) fn utf16_unit_lossy(unit: u16) -> (s: String)
    ensures
        s@ == seq![spec_lossy_char(unit)],
{
    String::from_utf16_lossy(&[unit])
}

} // verus!
