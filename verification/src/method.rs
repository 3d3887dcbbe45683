//! HTTP methods, as the `http` crate holds them.

use http::method::InvalidMethod;
use http::Method;
use vstd::prelude::*;
use vstd::string::*;
use vstd::utf8::*;

verus! {

/// `http::Method`, held as an opaque value.
#[verifier::external_type_specification]
#[verifier::external_body]
pub struct ExMethod(Method);

/// `http::method::InvalidMethod`, the error of a refused method name.
#[verifier::external_type_specification]
#[verifier::external_body]
pub struct ExInvalidMethod(InvalidMethod);

/// The name of an HTTP method, as `http::Method::as_str` gives it.
pub uninterp spec fn method_name(method: Method) -> Seq<char>;

/// A byte that may stand in a method's name: a letter, a digit, or one of
/// `!`, `*`, `+`, `-`, `.`, `^`, `_`, `` ` ``, `|` and `~`.
pub open spec fn is_method_byte(byte: u8) -> bool {
    ||| 0x30 <= byte <= 0x39
    ||| 0x41 <= byte <= 0x5A
    ||| 0x61 <= byte <= 0x7A
    ||| byte == 0x21
    ||| byte == 0x2A
    ||| byte == 0x2B
    ||| byte == 0x2D
    ||| byte == 0x2E
    ||| byte == 0x5E
    ||| byte == 0x5F
    ||| byte == 0x60
    ||| byte == 0x7C
    ||| byte == 0x7E
}

/// Whether bytes are the name of a method: at least one byte, each of them allowed.
pub open spec fn is_method_token(bytes: Seq<u8>) -> bool {
    &&& bytes.len() > 0
    &&& forall|i: int| 0 <= i < bytes.len() ==> is_method_byte(#[trigger] bytes[i])
}

/// `http::Method::as_str` gives the method's name: a fixed upper-case word for each
/// of the nine standard methods, the stored token for any other.
pub assume_specification[ Method::as_str ](method: &Method) -> (name: &str)
    ensures
        name@ == method_name(*method),
;

/// `http::Method::from_bytes` accepts a name of at least one byte whose bytes its
/// table of method characters allows, and refuses any other input. The method it
/// gives has the input as its name: one of the nine standard methods where the
/// input is that method's word, else an extension that keeps the bytes.
pub assume_specification[ Method::from_bytes ](src: &[u8]) -> (parsed: Result<
    Method,
    InvalidMethod,
>)
    ensures
        parsed is Ok <==> is_method_token(src@),
        parsed matches Ok(method) ==> encode_utf8(method_name(method)) == src@,
;

/// `Method::default` is `GET`.
pub assume_specification[ <Method as Default>::default ]() -> (method: Method)
    ensures
        method_name(method) == "GET"@,
;

/// Reads a method from its name. A text that is no method name gives `GET`.
pub fn method_or_default(token: &str) -> (method: Method)
    ensures
        method_name(method) == if is_method_token(encode_utf8(token@)) {
            token@
        } else {
            "GET"@
        },
{
    match Method::from_bytes(token.as_bytes()) {
        Ok(method) => {
            proof {
                encode_utf8_decode_utf8(method_name(method));
                encode_utf8_decode_utf8(token@);
            }
            method
        },
        Err(_) => Method::default(),
    }
}

/// Pairs up a flat list of alternating names and values.
pub fn pair_up<'a>(items: &[&'a str]) -> (pairs: Vec<(&'a str, &'a str)>)
    requires
        items@.len() % 2 == 0,
    ensures
        pairs@.len() * 2 == items@.len(),
        forall|i: int|
            0 <= i < pairs@.len() ==> #[trigger] pairs@[i] == (items@[2 * i], items@[2 * i + 1]),
{
    let mut pairs: Vec<(&'a str, &'a str)> = Vec::new();
    let mut at: usize = 0;
    while at < items.len()
        invariant
            at <= items@.len(),
            at % 2 == 0,
            items@.len() % 2 == 0,
            pairs@.len() * 2 == at,
            forall|i: int|
                0 <= i < pairs@.len() ==> #[trigger] pairs@[i] == (
                    items@[2 * i],
                    items@[2 * i + 1],
                ),
        decreases items@.len() - at,
    {
        pairs.push((items[at], items[at + 1]));
        at += 2;
    }
    pairs
}

} // verus!
