//! Byte buffers read as text, one character per byte.
use vstd::prelude::*;

verus! {

/// The characters whose code points are the given bytes.
pub open spec fn chars_of(raw: Seq<u8>) -> Seq<char> {
    Seq::new(raw.len(), |i: int| raw[i] as char)
}

/// Relies on `String::push`: appends one character at the end.
#[verifier::external_body]
pub(crate) fn push_char(s: &mut String, c: char)
    ensures
        final(s)@ == old(s)@.push(c),
{
    s.push(c)
}

/// Reads every byte as the character with that code point.
pub fn to_ascii(raw: Vec<u8>) -> (r: Vec<char>)
    ensures
        r@ == chars_of(raw@),
{
    let mut ascii: Vec<char> = Vec::new();
    for i in 0..raw.len()
        invariant
            ascii@.len() == i,
            forall|j: int| 0 <= j < i ==> ascii@[j] == #[trigger] chars_of(raw@)[j],
    {
        ascii.push(raw[i] as char);
    }
    assert(ascii@ =~= chars_of(raw@));
    ascii
}

/// Collects the characters into a string, in order.
pub fn array_to_string(value: Vec<char>) -> (r: String)
    ensures
        r@ == value@,
{
    let mut string = String::new();
    for i in 0..value.len()
        invariant
            string@ == value@.take(i as int),
    {
        push_char(&mut string, value[i]);
        assert(value@.take(i + 1) =~= value@.take(i as int).push(value@[i as int]));
    }
    assert(value@.take(value@.len() as int) =~= value@);
    string
}

} // verus!
