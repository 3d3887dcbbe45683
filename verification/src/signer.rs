//! The signature: HMAC-SHA1 of the base string, written in base64 and percent-encoded.

use crate::canonical::encoded;
use crate::percent::percent_encode;
use hmac::{Hmac, Mac};
use sha1::Sha1;
use vstd::prelude::*;
use vstd::string::*;
use vstd::utf8::*;

verus! {

/// The HMAC-SHA1 authentication code of a message under a key.
pub uninterp spec fn hmac_sha1_code(key: Seq<u8>, message: Seq<u8>) -> Seq<u8>;

/// The character that stands for a six-bit value in the standard base64 alphabet.
pub open spec fn base64_symbol(value: int) -> char {
    if value < 26 {
        (0x41 + value) as u8 as char
    } else if value < 52 {
        (0x61 + value - 26) as u8 as char
    } else if value < 62 {
        (0x30 + value - 52) as u8 as char
    } else if value == 62 {
        '+'
    } else {
        '/'
    }
}

/// Standard base64 with padding: every three bytes give four symbols, and a last
/// group of one or two bytes is filled up with `=`.
pub open spec fn base64_text(bytes: Seq<u8>) -> Seq<char>
    decreases bytes.len(),
{
    if bytes.len() == 0 {
        Seq::empty()
    } else if bytes.len() == 1 {
        let a = bytes[0] as int;
        seq![base64_symbol(a / 4), base64_symbol(a % 4 * 16), '=', '=']
    } else if bytes.len() == 2 {
        let a = bytes[0] as int;
        let b = bytes[1] as int;
        seq![
            base64_symbol(a / 4),
            base64_symbol(a % 4 * 16 + b / 16),
            base64_symbol(b % 16 * 4),
            '=',
        ]
    } else {
        let a = bytes[0] as int;
        let b = bytes[1] as int;
        let c = bytes[2] as int;
        seq![
            base64_symbol(a / 4),
            base64_symbol(a % 4 * 16 + b / 16),
            base64_symbol(b % 16 * 4 + c / 64),
            base64_symbol(c % 64),
        ] + base64_text(bytes.skip(3))
    }
}

/// The signing key: the two secrets as they are, with `&` between them.
pub open spec fn key_text(consumer_secret: Seq<char>, token_secret: Seq<char>) -> Seq<char> {
    consumer_secret + seq!['&'] + token_secret
}

/// An authentication code as it is written in the header.
pub open spec fn signature_text(code: Seq<u8>) -> Seq<char> {
    encoded(base64_text(code))
}

/// The authentication code of a base string under the key made of the two secrets.
pub open spec fn signing_code(
    base: Seq<char>,
    consumer_secret: Seq<char>,
    token_secret: Seq<char>,
) -> Seq<u8> {
    hmac_sha1_code(encode_utf8(key_text(consumer_secret, token_secret)), encode_utf8(base))
}

/// The signature of a base string under the two secrets.
pub open spec fn signed_text(
    base: Seq<char>,
    consumer_secret: Seq<char>,
    token_secret: Seq<char>,
) -> Seq<char> {
    signature_text(signing_code(base, consumer_secret, token_secret))
}

/// Computes HMAC-SHA1 with the `hmac` and `sha1` crates: `Hmac::<Sha1>::new_varkey`
/// on the key, `input` on the message, then `result().code()`. The code depends on
/// the key and the message alone and is as long as a SHA-1 digest, twenty bytes.
/// `new_varkey` returns `Ok` for a key of any length.
#[verifier::external_body]
fn hmac_sha1(key: &[u8], message: &[u8]) -> (code: Vec<u8>)
    ensures
        code@ == hmac_sha1_code(key@, message@),
        code@.len() == 20,
{
    let mut mac = Hmac::<Sha1>::new_varkey(key).expect("HMAC can take keys of any size");
    mac.input(message);
    mac.result().code().to_vec()
}

/// `base64::encode` writes bytes in the standard alphabet, with padding. It panics
/// when the length of the result does not fit in `usize`.
#[verifier::external_body]
fn base64_encode(bytes: &[u8]) -> (text: String)
    requires
        bytes@.len() / 3 * 4 + 4 <= usize::MAX,
    ensures
        text@ == base64_text(bytes@),
{
    base64::encode(bytes)
}

/// Builds the signing key from the two secrets.
pub fn signing_key(consumer_secret: &str, token_secret: &str) -> (key: String)
    ensures
        key@ == key_text(consumer_secret@, token_secret@),
{
    let mut key = String::from_str(consumer_secret);
    key.push('&');
    key.append(token_secret);
    key
}

/// Writes an authentication code as base64, percent-encoded.
pub fn encode_signature(code: &[u8]) -> (text: String)
    requires
        code@.len() / 3 * 4 + 4 <= usize::MAX,
    ensures
        text@ == signature_text(code@),
{
    let plain = base64_encode(code);
    percent_encode(plain.as_str())
}

/// Signs a base string with the key made of the two secrets. The code that is
/// written has the twenty bytes of a SHA-1 digest.
pub fn sign(base: &str, consumer_secret: &str, token_secret: &str) -> (signature: String)
    ensures
        signature@ == signed_text(base@, consumer_secret@, token_secret@),
        signing_code(base@, consumer_secret@, token_secret@).len() == 20,
{
    let key = signing_key(consumer_secret, token_secret);
    let code = hmac_sha1(key.as_str().as_bytes(), base.as_bytes());
    encode_signature(code.as_slice())
}

/// Base64 writes four characters for every three bytes, a last group of one or
/// two bytes counted as three: twenty bytes give twenty-eight characters.
pub proof fn lemma_base64_length(bytes: Seq<u8>)
    ensures
        base64_text(bytes).len() == (bytes.len() + 2) / 3 * 4,
    decreases bytes.len(),
{
    if bytes.len() >= 3 {
        lemma_base64_length(bytes.skip(3));
    }
}

} // verus!
