//! SHA-256 digests and their `sha256:<hex>` text form.
use vstd::prelude::*;
use crate::error::Error;
use crate::text::{str_chars, string_from_chars};

verus! {

/// The SHA-256 digest of `data` (FIPS 180-4).
pub uninterp spec fn sha256_spec(data: Seq<u8>) -> Seq<u8>;

/// `sha2::Sha256::digest`: the 32-byte SHA-256 digest of `data`.
#[verifier::external_body]
pub(crate) fn sha256(data: &[u8]) -> (out: [u8; 32])
    ensures
        out@ == sha256_spec(data@),
{
    <sha2::Sha256 as sha2::Digest>::digest(data).into()
}

/// The lowercase hexadecimal digit for a value below 16.
pub open spec fn hex_digit(n: int) -> char {
    if n < 10 { (n + 48) as char } else { (n - 10 + 97) as char }
}

/// Lowercase hexadecimal text of `bytes`, two digits per byte, high nibble first.
pub open spec fn hex_text(bytes: Seq<u8>) -> Seq<char> {
    Seq::new(
        2 * bytes.len(),
        |i: int| if i % 2 == 0 { hex_digit(bytes[i / 2] as int / 16) } else { hex_digit(bytes[i / 2] as int % 16) },
    )
}

/// A character of `[0-9a-f]`.
pub open spec fn is_lower_hex_char(c: char) -> bool {
    ('0' <= c && c <= '9') || ('a' <= c && c <= 'f')
}

/// The seven characters `sha256:`.
pub open spec fn sha256_prefix() -> Seq<char> {
    seq!['s', 'h', 'a', '2', '5', '6', ':']
}

/// Whether `s` starts with `sha256:`.
pub open spec fn has_sha256_prefix(s: Seq<char>) -> bool {
    s.len() >= 7 && s.subrange(0, 7) == sha256_prefix()
}

/// The exact lowercase `sha256:<64 hex digits>` representation.
pub open spec fn is_sha256_text(s: Seq<char>) -> bool {
    &&& has_sha256_prefix(s)
    &&& s.len() == 71
    &&& forall|i: int| 7 <= i < 71 ==> #[trigger] is_lower_hex_char(s[i])
}

fn hex_char(n: u8) -> (c: char)
    requires
        n < 16,
    ensures
        c == hex_digit(n as int),
{
    if n < 10 {
        (n + 48) as char
    } else {
        (n - 10 + 97) as char
    }
}

pub(crate) fn push_hex(out: &mut Vec<char>, bytes: &[u8])
    requires
        old(out)@.len() + 2 * bytes@.len() <= usize::MAX,
    ensures
        final(out)@ == old(out)@ + hex_text(bytes@),
{
    let ghost start = out@;
    let mut i: usize = 0;
    while i < bytes.len()
        invariant
            i <= bytes@.len(),
            out@ == start + hex_text(bytes@.subrange(0, i as int)),
        decreases bytes@.len() - i,
    {
        let b = bytes[i];
        let ghost before = out@;
        out.push(hex_char(b / 16));
        out.push(hex_char(b % 16));
        proof {
            let t = hex_text(bytes@.subrange(0, i + 1));
            let p = hex_text(bytes@.subrange(0, i as int));
            assert(t =~= p + seq![hex_digit(b as int / 16), hex_digit(b as int % 16)]) by {
                assert forall|k: int| 0 <= k < t.len() implies #[trigger] t[k] == (p + seq![hex_digit(b as int / 16), hex_digit(b as int % 16)])[k] by {
                    if k < 2 * i {
                        assert(k / 2 < i);
                    } else {
                        assert(k / 2 == i);
                    }
                }
            }
        }
        i = i + 1;
    }
    assert(bytes@.subrange(0, bytes@.len() as int) =~= bytes@);
}

/// Lowercase hexadecimal encoding of `bytes`, two digits per byte.
pub fn lower_hex(bytes: &[u8]) -> (s: String)
    requires
        2 * bytes@.len() <= usize::MAX,
    ensures
        s@ == hex_text(bytes@),
{
    let mut out: Vec<char> = Vec::new();
    push_hex(&mut out, bytes);
    assert(out@ =~= hex_text(bytes@));
    string_from_chars(out.as_slice())
}

/// Computes a lowercase `sha256:<hex>` digest.
pub fn sha256_prefixed(bytes: &[u8]) -> (s: String)
    ensures
        s@ == sha256_prefix() + hex_text(sha256_spec(bytes@)),
{
    let digest = sha256(bytes);
    let mut out: Vec<char> = Vec::new();
    out.push('s');
    out.push('h');
    out.push('a');
    out.push('2');
    out.push('5');
    out.push('6');
    out.push(':');
    assert(out@ =~= sha256_prefix());
    push_hex(&mut out, &digest);
    string_from_chars(out.as_slice())
}

/// Validates the exact lowercase `sha256:<64 hex digits>` representation.
///
/// Returns `Error::Validation` naming the prefix when `value` does not start
/// with `sha256:`, and naming the digits when it does but what follows is not
/// exactly 64 lowercase hexadecimal digits.
pub fn validate_sha256(value: &str) -> (r: Result<(), Error>)
    ensures
        !has_sha256_prefix(value@) ==> r == Err::<(), Error>(Error::Validation("digest prefix must be sha256:")),
        has_sha256_prefix(value@) && !is_sha256_text(value@) ==> r == Err::<(), Error>(
            Error::Validation("digest must contain 64 lowercase hexadecimal digits"),
        ),
        is_sha256_text(value@) ==> r is Ok,
{
    let chars = str_chars(value);
    if chars.len() < 7 || chars[0] != 's' || chars[1] != 'h' || chars[2] != 'a' || chars[3] != '2'
        || chars[4] != '5' || chars[5] != '6' || chars[6] != ':' {
        proof {
            if has_sha256_prefix(value@) {
                assert(value@.subrange(0, 7)[0] == 's');
                assert(value@.subrange(0, 7)[1] == 'h');
                assert(value@.subrange(0, 7)[2] == 'a');
                assert(value@.subrange(0, 7)[3] == '2');
                assert(value@.subrange(0, 7)[4] == '5');
                assert(value@.subrange(0, 7)[5] == '6');
                assert(value@.subrange(0, 7)[6] == ':');
            }
        }
        return Err(Error::Validation("digest prefix must be sha256:"));
    }
    assert(value@.subrange(0, 7) =~= sha256_prefix());
    if chars.len() != 71 {
        return Err(Error::Validation("digest must contain 64 lowercase hexadecimal digits"));
    }
    let mut i: usize = 7;
    while i < 71
        invariant
            7 <= i <= 71,
            chars@ == value@,
            chars@.len() == 71,
            has_sha256_prefix(value@),
            forall|k: int| 7 <= k < i ==> #[trigger] is_lower_hex_char(chars@[k]),
        decreases 71 - i,
    {
        let c = chars[i];
        if !(('0' <= c && c <= '9') || ('a' <= c && c <= 'f')) {
            assert(!is_lower_hex_char(value@[i as int]));
            return Err(Error::Validation("digest must contain 64 lowercase hexadecimal digits"));
        }
        i = i + 1;
    }
    Ok(())
}

} // verus!
