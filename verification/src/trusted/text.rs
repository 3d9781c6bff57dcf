//! Functions of the standard library on text for which `vstd` has no
//! contract.

use vstd::prelude::*;

verus! {

/// The lower-case form of an ASCII capital; every other character is left
/// as it is.
pub open spec fn lower_char(c: char) -> char {
    if 'A' <= c <= 'Z' {
        ((c as u8) + 32) as char
    } else {
        c
    }
}

/// `str::to_ascii_lowercase`: the text with every ASCII capital in lower
/// case and every other character as it was.
#[verifier::external_body]
pub(crate) fn ascii_lowercase(text: &str) -> (lower: String)
    ensures
        lower@ == text@.map_values(|c: char| lower_char(c)),
{
    text.to_ascii_lowercase()
}

/// `String::push`: `c` is appended to the text.
#[verifier::external_body]
pub(crate) fn string_push(text: &mut String, c: char)
    ensures
        final(text)@ == old(text)@.push(c),
{
    text.push(c)
}

} // verus!
