//! Turning characters into text, taken from std.

use vstd::prelude::*;

verus! {

/// `String`'s `FromIterator<char>`: the string of the characters, in
/// order.
#[verifier::external_body]
pub(crate) fn string_of(chars: &Vec<char>) -> (s: String)
    ensures
        s@ == chars@,
{
    chars.iter().collect()
}

} // verus!
