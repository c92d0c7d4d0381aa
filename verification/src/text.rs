//! Helpers on strings.

use vstd::prelude::*;

verus! {

/// Whether two strings hold the same characters. This is `str`'s own
/// equality, which compares the contents of the two slices.
#[verifier::external_body]
pub(crate) fn str_eq(a: &str, b: &str) -> (res: bool)
    ensures
        res == (a@ == b@),
{
    a == b
}

/// `String::push` appends one character to the end of the string.
pub assume_specification[ std::string::String::push ](s: &mut std::string::String, c: char)
    ensures
        final(s)@ == old(s)@.push(c),
;

/// The characters of a string.
pub fn chars_of(s: &str) -> (res: Vec<char>)
    ensures
        res@ == s@,
{
    let mut out: Vec<char> = Vec::new();
    for c in iter: s.chars()
        invariant
            iter.seq() == s@,
            out@ == s@.take(iter.index()),
    {
        out.push(c);
        assert(out@ =~= s@.take(iter.index() + 1));
    }
    assert(out@ =~= s@);
    out
}

/// The string made of the given characters.
pub fn string_of(chars: &Vec<char>) -> (res: String)
    ensures
        res@ == chars@,
{
    let mut out = String::new();
    let mut i: usize = 0;
    while i < chars.len()
        invariant
            i <= chars.len(),
            out@ == chars@.take(i as int),
        decreases chars.len() - i,
    {
        out.push(chars[i]);
        assert(out@ =~= chars@.take(i as int + 1));
        i += 1;
    }
    assert(out@ =~= chars@);
    out
}

} // verus!
