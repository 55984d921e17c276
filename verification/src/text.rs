//! Character-level access to standard strings.
use vstd::prelude::*;
use vstd::string::{StringSliceAdditionalSpecFns, StrSliceExecFns};

verus! {

/// The characters of `s`, in order (`str::chars`, collected).
#[verifier::external_body]
pub(crate) fn str_chars(s: &str) -> (v: Vec<char>)
    ensures
        v@ == s@,
{
    s.chars().collect()
}

/// The string made of `chars`, in order (`String::from_iter`).
#[verifier::external_body]
pub(crate) fn string_from_chars(chars: &[char]) -> (s: String)
    ensures
        s@ == chars@,
{
    String::from_iter(chars)
}

/// Whether two string slices hold the same characters (`str::eq`).
#[verifier::external_body]
pub(crate) fn str_eq(a: &str, b: &str) -> (r: bool)
    ensures
        r == (a@ == b@),
{
    a == b
}

/// The concatenation of two texts.
pub fn concat(a: &str, b: &str) -> (r: String)
    ensures
        r@ == a@ + b@,
{
    let mut chars = str_chars(a);
    let tail = str_chars(b);
    let ghost start = chars@;
    let mut i: usize = 0;
    while i < tail.len()
        invariant
            i <= tail@.len(),
            chars@ == start + tail@.take(i as int),
            start == a@,
        decreases tail@.len() - i,
    {
        chars.push(tail[i]);
        i = i + 1;
        proof {
            assert(chars@ =~= start + tail@.take(i as int));
        }
    }
    proof {
        assert(tail@.take(i as int) =~= tail@);
    }
    string_from_chars(chars.as_slice())
}

} // verus!

verus! {

/// `core::str::from_utf8`: the string slice `bytes` spell, when they are
/// valid UTF-8.
#[verifier::external_body]
pub(crate) fn str_from_utf8(bytes: &[u8]) -> (r: Option<&str>)
    ensures
        r is Some <==> vstd::utf8::valid_utf8(bytes@),
        r matches Some(s) ==> s.spec_bytes() == bytes@,
{
    core::str::from_utf8(bytes).ok()
}

/// The number of characters UTF-8 `bytes` spell, when they are valid UTF-8.
pub fn utf8_char_count(bytes: &[u8]) -> (r: Option<usize>)
    ensures
        r is Some <==> vstd::utf8::valid_utf8(bytes@),
        r matches Some(n) ==> n == vstd::utf8::decode_utf8(bytes@).len(),
{
    match str_from_utf8(bytes) {
        Some(s) => {
            proof {
                vstd::utf8::encode_utf8_decode_utf8(s@);
            }
            Some(s.unicode_len())
        }
        None => None,
    }
}

} // verus!
