//! Percent-encoding of text for the query part of a request.

use vstd::prelude::*;
use vstd::string::*;
use vstd::utf8::*;

verus! {

/// The characters that pass unchanged: ASCII letters and digits, `-`, `_`,
/// `.` and `~`.
pub open spec fn is_unreserved(c: char) -> bool {
    ||| 'a' <= c <= 'z'
    ||| 'A' <= c <= 'Z'
    ||| '0' <= c <= '9'
    ||| c == '-'
    ||| c == '_'
    ||| c == '.'
    ||| c == '~'
}

/// The upper-case hexadecimal digit for a value below sixteen.
pub open spec fn hex_char(nibble: u8) -> char {
    if nibble < 10 {
        ((48 + nibble) as u8) as char
    } else {
        ((55 + nibble) as u8) as char
    }
}

/// A byte written as `%` and two hexadecimal digits.
pub open spec fn percent_byte(byte: u8) -> Seq<char> {
    seq!['%', hex_char(byte / 16), hex_char(byte % 16)]
}

/// Every byte of `bytes` written as `%` and two hexadecimal digits.
pub open spec fn percent_bytes(bytes: Seq<u8>) -> Seq<char>
    decreases bytes.len(),
{
    if bytes.len() == 0 {
        Seq::empty()
    } else {
        percent_byte(bytes[0]) + percent_bytes(bytes.drop_first())
    }
}

/// What one character becomes: itself if it is unreserved, else the bytes of
/// its UTF-8 encoding, each written as `%` and two hexadecimal digits.
pub open spec fn encoded_char(c: char) -> Seq<char> {
    if is_unreserved(c) {
        seq![c]
    } else {
        percent_bytes(encode_scalar(c as u32))
    }
}

/// The percent-encoding of a text: the encodings of its characters, in order.
pub open spec fn encoded(text: Seq<char>) -> Seq<char>
    decreases text.len(),
{
    if text.len() == 0 {
        Seq::empty()
    } else {
        encoded_char(text[0]) + encoded(text.drop_first())
    }
}

/// Whether a byte is the ASCII code of an unreserved character.
pub open spec fn is_unreserved_byte(byte: u8) -> bool {
    byte < 128 && is_unreserved(byte as char)
}

/// What one byte of UTF-8 text becomes.
pub open spec fn encoded_byte(byte: u8) -> Seq<char> {
    if is_unreserved_byte(byte) {
        seq![byte as char]
    } else {
        percent_byte(byte)
    }
}

/// What a run of bytes of UTF-8 text becomes.
pub open spec fn encoded_bytes(bytes: Seq<u8>) -> Seq<char>
    decreases bytes.len(),
{
    if bytes.len() == 0 {
        Seq::empty()
    } else {
        encoded_byte(bytes[0]) + encoded_bytes(bytes.drop_first())
    }
}

proof fn lemma_single_byte(byte: u8)
    ensures
        encoded_bytes(seq![byte]) == encoded_byte(byte),
        percent_bytes(seq![byte]) == percent_byte(byte),
{
    reveal_with_fuel(encoded_bytes, 2);
    reveal_with_fuel(percent_bytes, 2);
    assert(seq![byte].drop_first() =~= Seq::<u8>::empty());
    assert(encoded_bytes(seq![byte]) =~= encoded_byte(byte));
    assert(percent_bytes(seq![byte]) =~= percent_byte(byte));
}

proof fn lemma_encoded_bytes_concat(head: Seq<u8>, tail: Seq<u8>)
    ensures
        encoded_bytes(head + tail) == encoded_bytes(head) + encoded_bytes(tail),
    decreases head.len(),
{
    if head.len() == 0 {
        assert(head + tail =~= tail);
        assert(encoded_bytes(head) + encoded_bytes(tail) =~= encoded_bytes(tail));
    } else {
        lemma_encoded_bytes_concat(head.drop_first(), tail);
        assert((head + tail).drop_first() =~= head.drop_first() + tail);
        assert(encoded_bytes(head + tail) =~= encoded_bytes(head) + encoded_bytes(tail));
    }
}

proof fn lemma_reserved_bytes(bytes: Seq<u8>)
    requires
        forall|i: int| 0 <= i < bytes.len() ==> !is_unreserved_byte(#[trigger] bytes[i]),
    ensures
        encoded_bytes(bytes) == percent_bytes(bytes),
    decreases bytes.len(),
{
    if bytes.len() > 0 {
        assert(!is_unreserved_byte(bytes[0]));
        assert forall|i: int| 0 <= i < bytes.drop_first().len() implies !is_unreserved_byte(
            #[trigger] bytes.drop_first()[i],
        ) by {
            assert(bytes.drop_first()[i] == bytes[i + 1]);
        }
        lemma_reserved_bytes(bytes.drop_first());
    }
}

proof fn lemma_high_bit(low: u8)
    ensures
        0x80u8 | low >= 0x80,
        0xC0u8 | low >= 0x80,
        0xE0u8 | low >= 0x80,
        0xF0u8 | low >= 0x80,
{
    assert(0x80u8 | low >= 0x80) by (bit_vector);
    assert(0xC0u8 | low >= 0x80) by (bit_vector);
    assert(0xE0u8 | low >= 0x80) by (bit_vector);
    assert(0xF0u8 | low >= 0x80) by (bit_vector);
}

proof fn lemma_encoded_scalar(c: char)
    ensures
        encoded_bytes(encode_scalar(c as u32)) == encoded_char(c),
{
    let scalar = c as u32;
    let bytes = encode_scalar(scalar);
    char_is_scalar(c);
    if has_width_1_encoding(scalar) {
        assert(scalar as u8 == leading_byte_width_1(scalar)) by (bit_vector)
            requires
                has_width_1_encoding(scalar),
        ;
        assert(bytes =~= seq![scalar as u8]);
        assert((scalar as u8) as char == c);
        lemma_single_byte(scalar as u8);
    } else {
        lemma_high_bit(((scalar >> 6) & 0x1F) as u8);
        lemma_high_bit(((scalar >> 12) & 0x0F) as u8);
        lemma_high_bit(((scalar >> 18) & 0x7) as u8);
        lemma_high_bit((scalar & 0x3F) as u8);
        lemma_high_bit(((scalar >> 6) & 0x3F) as u8);
        lemma_high_bit(((scalar >> 12) & 0x3F) as u8);
        assert forall|i: int| 0 <= i < bytes.len() implies !is_unreserved_byte(
            #[trigger] bytes[i],
        ) by {
            assert(bytes[i] >= 0x80);
        }
        lemma_reserved_bytes(bytes);
    }
}

/// Encoding byte by byte over the UTF-8 form of a text gives the encoding of
/// the text character by character.
pub proof fn lemma_encoded_by_bytes(text: Seq<char>)
    ensures
        encoded_bytes(encode_utf8(text)) == encoded(text),
    decreases text.len(),
{
    if text.len() > 0 {
        lemma_encoded_by_bytes(text.drop_first());
        lemma_encoded_bytes_concat(
            encode_scalar(text[0] as u32),
            encode_utf8(text.drop_first()),
        );
        lemma_encoded_scalar(text[0]);
    }
}

/// The result is safe in a query: it holds unreserved characters and `%`
/// only, and each `%` is followed by two hexadecimal digits.
pub proof fn lemma_encoded_is_safe(text: Seq<char>)
    ensures
        forall|i: int|
            0 <= i < encoded(text).len() ==> is_unreserved(#[trigger] encoded(text)[i]) || encoded(
                text,
            )[i] == '%',
    decreases text.len(),
{
    if text.len() > 0 {
        let first = encoded_char(text[0]);
        let rest = encoded(text.drop_first());
        lemma_encoded_is_safe(text.drop_first());
        lemma_percent_bytes_are_safe(encode_scalar(text[0] as u32));
        assert forall|i: int| 0 <= i < encoded(text).len() implies is_unreserved(
            #[trigger] encoded(text)[i],
        ) || encoded(text)[i] == '%' by {
            if i < first.len() {
                assert(encoded(text)[i] == first[i]);
            } else {
                assert(encoded(text)[i] == rest[i - first.len()]);
            }
        }
    }
}

proof fn lemma_percent_bytes_are_safe(bytes: Seq<u8>)
    ensures
        forall|i: int|
            0 <= i < percent_bytes(bytes).len() ==> is_unreserved(#[trigger] percent_bytes(bytes)[i])
                || percent_bytes(bytes)[i] == '%',
    decreases bytes.len(),
{
    if bytes.len() > 0 {
        let first = percent_byte(bytes[0]);
        let rest = percent_bytes(bytes.drop_first());
        lemma_percent_bytes_are_safe(bytes.drop_first());
        assert(is_unreserved(hex_char(bytes[0] / 16)));
        assert(is_unreserved(hex_char(bytes[0] % 16)));
        assert forall|i: int| 0 <= i < percent_bytes(bytes).len() implies is_unreserved(
            #[trigger] percent_bytes(bytes)[i],
        ) || percent_bytes(bytes)[i] == '%' by {
            if i < 3 {
                assert(percent_bytes(bytes)[i] == first[i]);
            } else {
                assert(percent_bytes(bytes)[i] == rest[i - 3]);
            }
        }
    }
}

/// A text of unreserved characters is its own encoding.
pub proof fn lemma_unreserved_text_is_unchanged(text: Seq<char>)
    requires
        forall|i: int| 0 <= i < text.len() ==> is_unreserved(#[trigger] text[i]),
    ensures
        encoded(text) == text,
    decreases text.len(),
{
    if text.len() > 0 {
        assert(is_unreserved(text[0]));
        assert forall|i: int| 0 <= i < text.drop_first().len() implies is_unreserved(
            #[trigger] text.drop_first()[i],
        ) by {
            assert(text.drop_first()[i] == text[i + 1]);
        }
        lemma_unreserved_text_is_unchanged(text.drop_first());
        assert(seq![text[0]] + text.drop_first() =~= text);
    } else {
        assert(encoded(text) =~= text);
    }
}

fn hex_digit(nibble: u8) -> (digit: char)
    requires
        nibble < 16,
    ensures
        digit == hex_char(nibble),
{
    if nibble < 10 {
        (48 + nibble) as char
    } else {
        (55 + nibble) as char
    }
}

fn unreserved_byte(byte: u8) -> (b: bool)
    ensures
        b == is_unreserved_byte(byte),
{
    (97 <= byte && byte <= 122) || (65 <= byte && byte <= 90) || (48 <= byte && byte <= 57)
        || byte == 45 || byte == 95 || byte == 46 || byte == 126
}

/// Percent-encodes `s` for use in a query: unreserved characters pass, and
/// every other character becomes the bytes of its UTF-8 encoding, each
/// written as `%` and two upper-case hexadecimal digits.
pub fn encode(s: &str) -> (r: String)
    ensures
        r@ == encoded(s@),
{
    let bytes = s.as_bytes();
    let mut r = String::new();
    let mut i: usize = 0;
    while i < bytes.len()
        invariant
            i <= bytes.len(),
            r@ == encoded_bytes(bytes@.take(i as int)),
        decreases bytes.len() - i,
    {
        let byte = bytes[i];
        proof {
            lemma_encoded_bytes_concat(bytes@.take(i as int), seq![byte]);
            assert(bytes@.take(i + 1) =~= bytes@.take(i as int) + seq![byte]);
            lemma_single_byte(byte);
        }
        if unreserved_byte(byte) {
            r.push(byte as char);
            assert(r@ =~= encoded_bytes(bytes@.take(i as int)) + encoded_byte(byte));
        } else {
            r.push('%');
            r.push(hex_digit(byte / 16));
            r.push(hex_digit(byte % 16));
            assert(r@ =~= encoded_bytes(bytes@.take(i as int)) + encoded_byte(byte));
        }
        i = i + 1;
    }
    proof {
        assert(bytes@.take(bytes.len() as int) =~= bytes@);
        lemma_encoded_by_bytes(s@);
    }
    r
}

} // verus!
