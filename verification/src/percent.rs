//! Percent-encoding with the OAuth set of characters that stay as they are.

use percent_encoding::percent_encode_byte;
use vstd::prelude::*;
use vstd::string::*;
use vstd::utf8::*;

verus! {

/// The bytes that are written unchanged: ASCII letters, digits, `-`, `.`, `_` and `~`.
pub open spec fn is_unreserved(byte: u8) -> bool {
    ||| 0x30 <= byte <= 0x39
    ||| 0x41 <= byte <= 0x5A
    ||| 0x61 <= byte <= 0x7A
    ||| byte == 0x2D
    ||| byte == 0x2E
    ||| byte == 0x5F
    ||| byte == 0x7E
}

/// The upper-case hexadecimal digit for a value below sixteen.
pub open spec fn hex_digit(nibble: u8) -> char {
    if nibble < 10 {
        (0x30 + nibble) as u8 as char
    } else {
        (0x37 + nibble) as u8 as char
    }
}

/// `%` followed by the two upper-case hexadecimal digits of `byte`.
pub open spec fn escape(byte: u8) -> Seq<char> {
    seq!['%', hex_digit(byte / 16), hex_digit(byte % 16)]
}

/// What one byte becomes: itself when unreserved, its escape otherwise.
pub open spec fn encoded_byte(byte: u8) -> Seq<char> {
    if is_unreserved(byte) {
        seq![byte as char]
    } else {
        escape(byte)
    }
}

/// The percent-encoding of a byte string: the encodings of its bytes, in order.
pub open spec fn percent_encoded(bytes: Seq<u8>) -> Seq<char>
    decreases bytes.len(),
{
    if bytes.len() == 0 {
        Seq::empty()
    } else {
        percent_encoded(bytes.drop_last()) + encoded_byte(bytes.last())
    }
}

/// `percent_encoding::percent_encode_byte` looks the byte up in a table of the 256
/// three-character escapes, `%00` to `%FF`, with upper-case digits.
pub assume_specification[ percent_encoding::percent_encode_byte ](byte: u8) -> (text: &'static str)
    ensures
        text@ == escape(byte),
;

/// `String::push` appends one character.
pub assume_specification[ String::push ](text: &mut String, ch: char)
    ensures
        final(text)@ == old(text)@.push(ch),
;

/// Decides whether a byte is written unchanged.
pub fn unreserved(byte: u8) -> (keep: bool)
    ensures
        keep == is_unreserved(byte),
{
    (0x30 <= byte && byte <= 0x39) || (0x41 <= byte && byte <= 0x5A) || (0x61 <= byte && byte
        <= 0x7A) || byte == 0x2D || byte == 0x2E || byte == 0x5F || byte == 0x7E
}

/// Percent-encodes the UTF-8 bytes of `input`.
pub fn percent_encode(input: &str) -> (output: String)
    ensures
        output@ == percent_encoded(input.spec_bytes()),
{
    let bytes = input.as_bytes();
    let mut output = String::new();
    let mut done: usize = 0;
    while done < bytes.len()
        invariant
            done <= bytes@.len(),
            output@ == percent_encoded(bytes@.take(done as int)),
        decreases bytes@.len() - done,
    {
        let byte = bytes[done];
        if unreserved(byte) {
            output.push(byte as char);
        } else {
            output.append(percent_encode_byte(byte));
        }
        proof {
            assert(bytes@.take(done + 1).drop_last() =~= bytes@.take(done as int));
        }
        done += 1;
    }
    proof {
        assert(bytes@.take(done as int) =~= bytes@);
    }
    output
}

/// The percent-encoding of any bytes holds ASCII characters only.
pub proof fn lemma_percent_encoded_ascii(bytes: Seq<u8>)
    ensures
        is_ascii_chars(percent_encoded(bytes)),
    decreases bytes.len(),
{
    if bytes.len() > 0 {
        lemma_percent_encoded_ascii(bytes.drop_last());
    }
}

/// An upper-case hexadecimal digit.
pub open spec fn is_upper_hex(ch: char) -> bool {
    ||| '0' <= ch <= '9'
    ||| 'A' <= ch <= 'F'
}

/// A character that is written unchanged.
pub open spec fn is_unreserved_char(ch: char) -> bool {
    ch <= '\u{7f}' && is_unreserved(ch as u8)
}

/// Whether a text holds nothing but unreserved characters and escapes: each `%`
/// is followed by two upper-case hexadecimal digits.
pub open spec fn well_escaped(text: Seq<char>) -> bool {
    forall|i: int|
        0 <= i < text.len() ==> {
            ||| is_unreserved_char(#[trigger] text[i])
            ||| text[i] == '%' && i + 2 < text.len() && is_upper_hex(text[i + 1]) && is_upper_hex(
                text[i + 2],
            )
        }
}

/// The value of a hexadecimal digit.
pub open spec fn hex_value(ch: char) -> int {
    if '0' <= ch <= '9' {
        ch as int - 0x30
    } else {
        ch as int - 0x37
    }
}

/// The bytes that a percent-encoded text stands for: an escape gives the byte it
/// names, any other character its own code.
pub open spec fn percent_decoded(text: Seq<char>) -> Seq<u8>
    decreases text.len(),
{
    if text.len() == 0 {
        Seq::empty()
    } else if text[0] == '%' && text.len() >= 3 {
        seq![(16 * hex_value(text[1]) + hex_value(text[2])) as u8] + percent_decoded(text.skip(3))
    } else {
        seq![text[0] as u8] + percent_decoded(text.drop_first())
    }
}

/// Encoding goes byte by byte: the encoding of two byte strings, one after the
/// other, is the encoding of the first followed by that of the second.
pub proof fn lemma_percent_encoded_concat(a: Seq<u8>, b: Seq<u8>)
    ensures
        percent_encoded(a + b) == percent_encoded(a) + percent_encoded(b),
    decreases b.len(),
{
    if b.len() == 0 {
        assert(a + b =~= a);
        assert(percent_encoded(a) + percent_encoded(b) =~= percent_encoded(a));
    } else {
        lemma_percent_encoded_concat(a, b.drop_last());
        assert((a + b).drop_last() =~= a + b.drop_last());
        assert(percent_encoded(a + b) =~= percent_encoded(a) + percent_encoded(b));
    }
}

/// In an encoded text every byte outside the unreserved set stands as `%` and two
/// upper-case hexadecimal digits, and nothing but unreserved characters stands
/// between the escapes.
pub proof fn lemma_percent_encoded_well_escaped(bytes: Seq<u8>)
    ensures
        well_escaped(percent_encoded(bytes)),
    decreases bytes.len(),
{
    if bytes.len() > 0 {
        let front = percent_encoded(bytes.drop_last());
        let back = encoded_byte(bytes.last());
        lemma_percent_encoded_well_escaped(bytes.drop_last());
        assert forall|i: int| 0 <= i < (front + back).len() implies {
            ||| is_unreserved_char(#[trigger] (front + back)[i])
            ||| (front + back)[i] == '%' && i + 2 < (front + back).len() && is_upper_hex(
                (front + back)[i + 1],
            ) && is_upper_hex((front + back)[i + 2])
        } by {
            if i < front.len() {
                assert((front + back)[i] == front[i]);
                if !is_unreserved_char(front[i]) {
                    assert((front + back)[i + 1] == front[i + 1]);
                    assert((front + back)[i + 2] == front[i + 2]);
                }
            } else {
                assert((front + back)[i] == back[i - front.len()]);
                lemma_hex_digit(bytes.last() / 16);
                lemma_hex_digit(bytes.last() % 16);
                if !is_unreserved(bytes.last()) {
                    assert((front + back)[front.len() as int + 1] == back[1]);
                    assert((front + back)[front.len() as int + 2] == back[2]);
                }
            }
        }
    }
}

/// Decoding undoes encoding, so no two byte strings have the same encoding.
pub proof fn lemma_percent_round_trip(bytes: Seq<u8>)
    ensures
        percent_decoded(percent_encoded(bytes)) == bytes,
    decreases bytes.len(),
{
    if bytes.len() > 0 {
        let first = bytes[0];
        let rest = bytes.drop_first();
        let head = encoded_byte(first);
        let tail = percent_encoded(rest);
        assert(bytes =~= seq![first] + rest);
        lemma_percent_encoded_concat(seq![first], rest);
        assert(seq![first].drop_last() =~= Seq::<u8>::empty());
        assert(percent_encoded(Seq::<u8>::empty()) =~= Seq::<char>::empty());
        assert(percent_encoded(seq![first]) =~= head);
        lemma_percent_round_trip(rest);
        lemma_hex_digit(first / 16);
        lemma_hex_digit(first % 16);
        if is_unreserved(first) {
            assert((head + tail).drop_first() =~= tail);
        } else {
            assert((head + tail).skip(3) =~= tail);
        }
        assert(percent_decoded(head + tail) =~= seq![first] + rest);
    }
}

/// The digit of a value below sixteen is an upper-case hexadecimal digit with
/// that value.
pub proof fn lemma_hex_digit(nibble: u8)
    requires
        nibble < 16,
    ensures
        is_upper_hex(hex_digit(nibble)),
        hex_value(hex_digit(nibble)) == nibble,
{
}

} // verus!
