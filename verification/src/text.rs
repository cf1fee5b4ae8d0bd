//! Character-level access to strings.

use vstd::prelude::*;

verus! {

/// Whether two strings hold the same characters.
pub fn str_equal(a: &str, b: &str) -> (r: bool)
    ensures
        r == (a@ == b@),
{
    let x = a.as_bytes();
    let y = b.as_bytes();
    proof {
        vstd::utf8::encode_utf8_decode_utf8(a@);
        vstd::utf8::encode_utf8_decode_utf8(b@);
    }
    if x.len() != y.len() {
        return false;
    }
    let mut i: usize = 0;
    while i < x.len()
        invariant
            i <= x.len(),
            x.len() == y.len(),
            x@ == vstd::utf8::encode_utf8(a@),
            y@ == vstd::utf8::encode_utf8(b@),
            forall|j: int| 0 <= j < i ==> x@[j] == y@[j],
        decreases x.len() - i,
    {
        if x[i] != y[i] {
            return false;
        }
        i += 1;
    }
    assert(x@ =~= y@);
    true
}

/// The characters of a string, in order.
pub fn str_chars(s: &str) -> (v: Vec<char>)
    ensures
        v@ == s@,
{
    let mut v: Vec<char> = Vec::new();
    for c in iter: s.chars()
        invariant
            iter.seq() == s@,
            v@ == s@.take(iter.index()),
    {
        v.push(c);
        assert(s@.take(iter.index() + 1) =~= s@.take(iter.index()).push(c));
    }
    assert(s@.take(s@.len() as int) =~= s@);
    v
}

/// The characters of `s` from `from` up to, not including, `to`.
pub fn slice_chars(s: &Vec<char>, from: usize, to: usize) -> (v: Vec<char>)
    requires
        from <= to <= s.len(),
    ensures
        v@ == s@.subrange(from as int, to as int),
{
    let mut v: Vec<char> = Vec::new();
    let mut i: usize = from;
    while i < to
        invariant
            from <= i <= to <= s.len(),
            v@ == s@.subrange(from as int, i as int),
        decreases to - i,
    {
        v.push(s[i]);
        assert(s@.subrange(from as int, i + 1) =~= s@.subrange(from as int, i as int).push(
            s@[i as int],
        ));
        i += 1;
    }
    v
}

/// Calls `char::from_u32`: the character with the given code point, or
/// `None` where the number is no Unicode scalar value, that is above
/// `0x10FFFF` or a surrogate.
#[verifier::external_body]
pub(crate) fn char_from_code(code: u32) -> (r: Option<char>)
    ensures
        r == (if vstd::utf8::is_scalar(code) {
            Some(code as char)
        } else {
            None
        }),
{
    char::from_u32(code)
}

/// Calls `String::push`: appends one character.
#[verifier::external_body]
pub(crate) fn string_push(s: &mut String, c: char)
    ensures
        final(s)@ == old(s)@.push(c),
{
    s.push(c)
}

/// The string made of the given characters.
pub fn chars_to_string(chars: &Vec<char>) -> (s: String)
    ensures
        s@ == chars@,
{
    let mut s = String::new();
    let mut i: usize = 0;
    while i < chars.len()
        invariant
            i <= chars.len(),
            s@ == chars@.take(i as int),
        decreases chars.len() - i,
    {
        string_push(&mut s, chars[i]);
        assert(chars@.take(i + 1) =~= chars@.take(i as int).push(chars@[i as int]));
        i += 1;
    }
    assert(chars@.take(chars@.len() as int) =~= chars@);
    s
}

} // verus!
