//! Two small character-level primitives of the standard library that the
//! tokenizer, parser and renderer are built on.

use vstd::prelude::*;

verus! {

/// Relies on `str`'s `PartialEq`: two string slices are equal exactly
/// when their character sequences are.
#[verifier::external_body]
pub(crate) fn str_eq(a: &str, b: &str) -> (r: bool)
    ensures
        r == (a@ == b@),
{
    a == b
}

/// Relies on `String::push`: appends one character at the end.
#[verifier::external_body]
pub(crate) fn push_char(s: &mut String, c: char)
    ensures
        final(s)@ == old(s)@.push(c),
{
    s.push(c);
}

} // verus!
