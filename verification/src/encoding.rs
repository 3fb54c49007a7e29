//! Hashing and base64 through the `sha2` and `base64` crates, and lowercase
//! hex encoding.

use vstd::prelude::*;
use base64::Engine;
use sha2::{Digest, Sha256};
use crate::text::push_char;

verus! {

/// The SHA-256 digest of `data`, as `sha2` computes it.
pub uninterp spec fn sha256_digest(data: Seq<u8>) -> Seq<u8>;

/// `Sha256::digest` from `sha2`: the result is the SHA-256 digest of `input`,
/// a function of the input bytes alone, and is 32 bytes long (the output
/// type is `GenericArray<u8, U32>`).
#[verifier::external_body]
pub(crate) fn sha256(input: &[u8]) -> (out: Vec<u8>)
    ensures
        out@ == sha256_digest(input@),
        out@.len() == 32,
{
    Sha256::digest(input).to_vec()
}

/// The standard (padded) base64 text of `data`, as `base64` computes it.
pub uninterp spec fn base64_standard(data: Seq<u8>) -> Seq<char>;

/// `general_purpose::STANDARD.encode` from `base64`: the padded
/// standard-alphabet base64 text of `data`, a function of the bytes alone.
#[verifier::external_body]
pub(crate) fn base64_encode(data: &[u8]) -> (text: String)
    ensures
        text@ == base64_standard(data@),
{
    base64::engine::general_purpose::STANDARD.encode(data)
}

#[verifier::external_type_specification]
#[verifier::external_body]
pub struct ExDecodeError(base64::DecodeError);

/// What `general_purpose::URL_SAFE_NO_PAD.decode` gives for `text`: the
/// decoded bytes, or `None` when `text` is not unpadded url-safe base64.
pub uninterp spec fn base64url_unpadded_decoding(text: Seq<char>) -> Option<Seq<u8>>;

/// `general_purpose::URL_SAFE_NO_PAD.decode` from `base64`: succeeds exactly
/// when the name above gives bytes, and then gives those bytes. Which texts
/// decode, and to what, is left to the name.
#[verifier::external_body]
pub(crate) fn base64url_decode(text: &str) -> (r: Result<Vec<u8>, base64::DecodeError>)
    ensures
        match r {
            Ok(v) => base64url_unpadded_decoding(text@) == Some(v@),
            Err(_) => base64url_unpadded_decoding(text@) is None,
        },
{
    base64::engine::general_purpose::URL_SAFE_NO_PAD.decode(text)
}

/// The lowercase hex digit for `d < 16`.
pub open spec fn hex_digit(d: int) -> char {
    if d < 10 {
        ((d + 48) as u8) as char
    } else {
        ((d + 87) as u8) as char
    }
}

/// Lowercase hex, two digits per byte (`format!("{b:02x}")` for each byte).
pub open spec fn hex_of(bytes: Seq<u8>) -> Seq<char>
    decreases bytes.len(),
{
    if bytes.len() == 0 {
        Seq::empty()
    } else {
        hex_of(bytes.drop_last()) + seq![
            hex_digit(bytes.last() as int / 16),
            hex_digit(bytes.last() as int % 16),
        ]
    }
}

/// Two hex digits per byte, and hex of a concatenation is the
/// concatenation of the hex.
pub proof fn lemma_hex_concat(a: Seq<u8>, b: Seq<u8>)
    ensures
        hex_of(a + b) == hex_of(a) + hex_of(b),
        hex_of(a).len() == 2 * a.len(),
    decreases b.len(),
{
    if b.len() == 0 {
        assert(a + b =~= a);
        lemma_hex_len(a);
    } else {
        lemma_hex_concat(a, b.drop_last());
        assert((a + b).drop_last() =~= a + b.drop_last());
        assert((a + b).last() == b.last());
        assert(hex_of(a + b) =~= hex_of(a) + hex_of(b));
    }
}

/// `0`-`9` or `a`-`f`.
pub open spec fn is_lower_hex(c: char) -> bool {
    ('0' <= c <= '9') || ('a' <= c <= 'f')
}

/// Hex is made of lowercase hex digits only.
pub proof fn lemma_hex_digits(a: Seq<u8>)
    ensures
        forall|i: int| 0 <= i < hex_of(a).len() ==> is_lower_hex(#[trigger] hex_of(a)[i]),
    decreases a.len(),
{
    if a.len() > 0 {
        lemma_hex_digits(a.drop_last());
        let b = a.last() as int;
        let h = hex_of(a);
        let p = hex_of(a.drop_last());
        assert forall|i: int| 0 <= i < h.len() implies is_lower_hex(#[trigger] h[i]) by {
            if i < p.len() {
                assert(h[i] == p[i]);
            } else if i == p.len() {
                assert(h[i] == hex_digit(b / 16));
            } else {
                assert(h[i] == hex_digit(b % 16));
            }
        }
    }
}

proof fn lemma_hex_len(a: Seq<u8>)
    ensures
        hex_of(a).len() == 2 * a.len(),
    decreases a.len(),
{
    if a.len() > 0 {
        lemma_hex_len(a.drop_last());
    }
}

fn hex_char(d: u8) -> (c: char)
    requires
        d < 16,
    ensures
        c == hex_digit(d as int),
{
    if d < 10 {
        (d + 48) as char
    } else {
        (d + 87) as char
    }
}

/// Appends the lowercase hex of `bytes` to `out`.
pub fn push_hex(out: &mut String, bytes: &[u8])
    ensures
        final(out)@ == old(out)@ + hex_of(bytes@),
{
    let n = bytes.len();
    for i in 0..n
        invariant
            n == bytes@.len(),
            out@ == old(out)@ + hex_of(bytes@.take(i as int)),
    {
        let b = bytes[i];
        push_char(out, hex_char(b / 16));
        push_char(out, hex_char(b % 16));
        assert(bytes@.take(i + 1).drop_last() =~= bytes@.take(i as int));
        assert(hex_of(bytes@.take(i + 1)) == hex_of(bytes@.take(i as int)) + seq![
            hex_digit(b as int / 16),
            hex_digit(b as int % 16),
        ]);
    }
    assert(bytes@.take(n as int) =~= bytes@);
}

} // verus!
