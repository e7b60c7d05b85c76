//! Plain text helpers: moving between strings and character vectors, and
//! string concatenation.

use vstd::prelude::*;

verus! {

/// Relies on str::chars (collected into a Vec): the iterator yields exactly
/// the characters of the string, in order.
#[verifier::external_body]
pub(crate) fn chars_vec(s: &str) -> (r: Vec<char>)
    ensures
        r@ == s@,
{
    s.chars().collect()
}

/// Relies on String::from_iter (via collect): the characters are assembled
/// into a string in order.
#[verifier::external_body]
pub(crate) fn string_from_chars(v: &Vec<char>) -> (r: String)
    ensures
        r@ == v@,
{
    v.iter().collect()
}

/// Joins two string slices into one owned string.
pub fn concat_strings(a: &str, b: &str) -> (r: String)
    ensures
        r@ == a@ + b@,
{
    let mut cs = chars_vec(a);
    let mut cb = chars_vec(b);
    cs.append(&mut cb);
    string_from_chars(&cs)
}

} // verus!
