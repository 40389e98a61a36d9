//! SHA-256 digests and their hexadecimal text form.

use vstd::prelude::*;
use vstd::utf8::encode_utf8;

verus! {

/// What SHA-256 yields for a byte string.
pub uninterp spec fn sha256_spec(data: Seq<u8>) -> Seq<u8>;

/// SHA-256 of a byte string (`sha2::Sha256::digest`): the hash of the given
/// bytes, 32 bytes long.
#[verifier::external_body]
pub(crate) fn sha256(data: &[u8]) -> (r: Vec<u8>)
    ensures
        r@ == sha256_spec(data@),
        r@.len() == 32,
{
    <sha2::Sha256 as sha2::Digest>::digest(data).to_vec()
}

/// Lowercase hexadecimal digit of a value below 16.
pub open spec fn hex_digit(n: int) -> char {
    if n < 10 {
        (('0' as u32) + n) as char
    } else {
        (('a' as u32) + (n - 10)) as char
    }
}

/// Lowercase hexadecimal text of a byte string, two digits per byte.
pub open spec fn hex_lower(b: Seq<u8>) -> Seq<char>
    decreases b.len(),
{
    if b.len() == 0 {
        Seq::empty()
    } else {
        seq![hex_digit((b[0] / 16) as int), hex_digit((b[0] % 16) as int)] + hex_lower(b.drop_first())
    }
}

/// Value of a hexadecimal digit in either case.
pub open spec fn hex_value(c: char) -> Option<u8> {
    let u = c as u32;
    if '0' as u32 <= u && u <= '9' as u32 {
        Some((u - '0' as u32) as u8)
    } else if 'a' as u32 <= u && u <= 'f' as u32 {
        Some((u - 'a' as u32 + 10) as u8)
    } else if 'A' as u32 <= u && u <= 'F' as u32 {
        Some((u - 'A' as u32 + 10) as u8)
    } else {
        None
    }
}

/// The bytes that a hexadecimal text stands for; `None` for odd length or a
/// character that is no hexadecimal digit.
pub open spec fn hex_decoded(s: Seq<char>) -> Option<Seq<u8>>
    decreases s.len(),
{
    if s.len() == 0 {
        Some(Seq::empty())
    } else if s.len() == 1 {
        None
    } else {
        match (hex_value(s[0]), hex_value(s[1]), hex_decoded(s.skip(2))) {
            (Some(h), Some(l), Some(rest)) => Some(seq![(h * 16 + l) as u8] + rest),
            _ => None,
        }
    }
}

/// `hex::encode`: lowercase hexadecimal text of the bytes.
#[verifier::external_body]
pub(crate) fn hex_encode(data: &[u8]) -> (r: String)
    ensures
        r@ == hex_lower(data@),
{
    hex::encode(data)
}

/// `hex::decode`: the bytes of a hexadecimal text, `None` where the crate
/// reports an error (odd length or an invalid character).
#[verifier::external_body]
pub(crate) fn hex_decode(s: &str) -> (r: Option<Vec<u8>>)
    ensures
        match r {
            Some(v) => hex_decoded(s@) == Some(v@),
            None => hex_decoded(s@) is None,
        },
{
    match hex::decode(s) {
        Ok(v) => Some(v),
        Err(_) => None,
    }
}

/// Lowercase hexadecimal SHA-256 of the UTF-8 bytes of a text.
pub open spec fn sha256_hex_of_text(s: Seq<char>) -> Seq<char> {
    hex_lower(sha256_spec(encode_utf8(s)))
}

/// Hexadecimal text has two digits per byte.
pub proof fn lemma_hex_lower_len(b: Seq<u8>)
    ensures
        hex_lower(b).len() == 2 * b.len(),
    decreases b.len(),
{
    if b.len() > 0 {
        lemma_hex_lower_len(b.drop_first());
    }
}

/// Lowercase hexadecimal SHA-256 of a byte string: 64 digits.
pub fn sha256_hex(data: &[u8]) -> (r: String)
    ensures
        r@ == hex_lower(sha256_spec(data@)),
        r@.len() == 64,
{
    let d = sha256(data);
    proof {
        lemma_hex_lower_len(d@);
    }
    hex_encode(d.as_slice())
}

} // verus!
