//! Percent-encoding.

use vstd::prelude::*;
use vstd::utf8::valid_utf8;
use crate::text::{is_ascii_bytes, lemma_utf8_then_ascii};

verus! {

/// The value of a hexadecimal digit, of either case.
pub open spec fn hex_value(digit: u8) -> Option<u8> {
    if 0x30 <= digit <= 0x39 {
        Some((digit - 0x30) as u8)
    } else if 0x61 <= digit <= 0x66 {
        Some((digit - 0x61 + 10) as u8)
    } else if 0x41 <= digit <= 0x46 {
        Some((digit - 0x41 + 10) as u8)
    } else {
        None
    }
}

/// The lower-case hexadecimal digit of a value below 16.
pub open spec fn hex_digit(value: u8) -> u8 {
    if value < 10 {
        (0x30 + value) as u8
    } else {
        (0x61 + value - 10) as u8
    }
}

/// Tells whether a byte stands for itself in an encoded text: the ASCII
/// letters and digits, and `_ . ! ~ * ' ( ) -`.
pub open spec fn is_unreserved(b: u8) -> bool {
    ||| 0x30 <= b <= 0x39
    ||| 0x41 <= b <= 0x5a
    ||| 0x61 <= b <= 0x7a
    ||| b == 0x5f
    ||| b == 0x2e
    ||| b == 0x21
    ||| b == 0x7e
    ||| b == 0x2a
    ||| b == 0x27
    ||| b == 0x28
    ||| b == 0x29
    ||| b == 0x2d
}

/// The encoding of one byte: the byte itself where it is unreserved, and
/// else a percent sign and its two hexadecimal digits.
pub open spec fn encoded_byte(b: u8) -> Seq<u8> {
    if is_unreserved(b) {
        seq![b]
    } else {
        seq![0x25u8, hex_digit(b / 16), hex_digit(b % 16)]
    }
}

/// The encoding of a text: the encodings of its bytes, one after the other.
pub open spec fn encoded(text: Seq<u8>) -> Seq<u8>
    decreases text.len(),
{
    if text.len() == 0 {
        Seq::empty()
    } else {
        encoded(text.drop_last()) + encoded_byte(text.last())
    }
}

/// The text that an encoded text stands for: each percent sign with the two
/// hexadecimal digits behind it gives the byte with that value, every other
/// byte gives itself. There is none where a percent sign is not followed by
/// two hexadecimal digits.
pub open spec fn decoded(text: Seq<u8>) -> Option<Seq<u8>>
    decreases text.len(),
{
    if text.len() == 0 {
        Some(Seq::empty())
    } else if text[0] == 0x25 {
        if text.len() >= 3 && hex_value(text[1]) is Some && hex_value(text[2]) is Some {
            match decoded(text.skip(3)) {
                Some(rest) => Some(
                    seq![(hex_value(text[1])->0 * 16 + hex_value(text[2])->0) as u8] + rest,
                ),
                None => None,
            }
        } else {
            None
        }
    } else {
        match decoded(text.drop_first()) {
            Some(rest) => Some(seq![text[0]] + rest),
            None => None,
        }
    }
}

/// What follows an encoded text is decoded as if it stood alone.
pub proof fn lemma_decoded_after_encoded(text: Seq<u8>, tail: Seq<u8>)
    ensures
        decoded(encoded(text) + tail) == match decoded(tail) {
            Some(rest) => Some(text + rest),
            None => None,
        },
    decreases text.len(),
{
    if text.len() == 0 {
        assert(encoded(text) + tail == tail);
        if decoded(tail) is Some {
            assert(text + decoded(tail)->0 == decoded(tail)->0);
        }
    } else {
        let b = text.last();
        let front = text.drop_last();
        let one = encoded_byte(b) + tail;
        assert(encoded(text) + tail == encoded(front) + one);
        lemma_decoded_after_encoded(front, one);
        if is_unreserved(b) {
            assert(one.drop_first() == tail);
        } else {
            assert(one.skip(3) == tail);
            assert(hex_value(hex_digit(b / 16)) == Some((b / 16) as u8));
            assert(hex_value(hex_digit(b % 16)) == Some((b % 16) as u8));
            assert((b / 16) * 16 + b % 16 == b);
        }
        if decoded(tail) is Some {
            let rest = decoded(tail)->0;
            assert(decoded(one) == Some(seq![b] + rest));
            assert(front + (seq![b] + rest) == text + rest);
        }
    }
}

/// Decoding undoes encoding.
pub proof fn decoding_undoes_encoding(text: Seq<u8>)
    ensures
        decoded(encoded(text)) == Some(text),
        is_ascii_bytes(encoded(text)),
    decreases text.len(),
{
    lemma_decoded_after_encoded(text, Seq::empty());
    assert(encoded(text) + Seq::<u8>::empty() == encoded(text));
    assert(text + Seq::<u8>::empty() == text);
    if text.len() > 0 {
        decoding_undoes_encoding(text.drop_last());
    }
}

/// Reads a hexadecimal digit.
fn hex(digit: u8) -> (value: Option<u8>)
    ensures
        value == hex_value(digit),
{
    if 0x30 <= digit && digit <= 0x39 {
        Some(digit - 0x30)
    } else if 0x61 <= digit && digit <= 0x66 {
        Some(digit - 0x61 + 10)
    } else if 0x41 <= digit && digit <= 0x46 {
        Some(digit - 0x41 + 10)
    } else {
        None
    }
}

/// Decodes a percent-encoded text.
pub fn percent_decode(text: &[u8]) -> (plain: Option<Vec<u8>>)
    ensures
        match plain {
            Some(bytes) => decoded(text@) == Some(bytes@),
            None => decoded(text@) is None,
        },
{
    let mut plain: Vec<u8> = Vec::with_capacity(text.len());
    let mut i: usize = 0;
    assert(text@.skip(0) == text@);
    while i < text.len()
        invariant
            i <= text.len(),
            decoded(text@) == match decoded(text@.skip(i as int)) {
                Some(rest) => Some(plain@ + rest),
                None => None,
            },
        decreases text.len() - i,
    {
        let ghost here = text@.skip(i as int);
        let ghost before = plain@;
        assert(here[0] == text@[i as int]);
        if text[i] == 0x25 {
            if text.len() - i < 3 {
                return None;
            }
            assert(here[1] == text@[i + 1] && here[2] == text@[i + 2]);
            match (hex(text[i + 1]), hex(text[i + 2])) {
                (Some(high), Some(low)) => {
                    plain.push(high * 16 + low);
                    proof {
                        assert(here.skip(3) == text@.skip(i + 3));
                        if decoded(here.skip(3)) is Some {
                            let rest = decoded(here.skip(3))->0;
                            assert(before + (seq![(high * 16 + low) as u8] + rest) == plain@ + rest);
                        }
                    }
                    i += 3;
                },
                _ => {
                    return None;
                },
            }
        } else {
            plain.push(text[i]);
            proof {
                assert(here.drop_first() == text@.skip(i + 1));
                if decoded(here.drop_first()) is Some {
                    let rest = decoded(here.drop_first())->0;
                    assert(before + (seq![text@[i as int]] + rest) == plain@ + rest);
                }
            }
            i += 1;
        }
    }
    assert(plain@ + Seq::<u8>::empty() == plain@);
    Some(plain)
}

/// Tells whether a byte stands for itself in an encoded text.
fn unreserved(b: u8) -> (plain: bool)
    ensures
        plain == is_unreserved(b),
{
    (0x30 <= b && b <= 0x39) || (0x41 <= b && b <= 0x5a) || (0x61 <= b && b <= 0x7a) || b == 0x5f
        || b == 0x2e || b == 0x21 || b == 0x7e || b == 0x2a || b == 0x27 || b == 0x28 || b == 0x29
        || b == 0x2d
}

/// Writes a hexadecimal digit.
fn digit(value: u8) -> (digit: u8)
    requires
        value < 16,
    ensures
        digit == hex_digit(value),
{
    if value < 10 {
        0x30 + value
    } else {
        0x61 + value - 10
    }
}

/// Appends the encoding of a text.
pub fn percent_encode_into(text: &[u8], out: &mut Vec<u8>)
    ensures
        final(out)@ == old(out)@ + encoded(text@),
        valid_utf8(old(out)@) ==> valid_utf8(final(out)@),
{
    proof {
        decoding_undoes_encoding(text@);
        if valid_utf8(out@) {
            lemma_utf8_then_ascii(out@, encoded(text@));
        }
    }
    let mut i: usize = 0;
    assert(text@.take(0) == Seq::<u8>::empty());
    while i < text.len()
        invariant
            i <= text.len(),
            out@ == old(out)@ + encoded(text@.take(i as int)),
        decreases text.len() - i,
    {
        proof {
            let next = text@.take(i + 1);
            assert(next.drop_last() == text@.take(i as int));
            assert(next.last() == text@[i as int]);
        }
        let b = text[i];
        if unreserved(b) {
            out.push(b);
        } else {
            out.push(0x25);
            out.push(digit(b / 16));
            out.push(digit(b % 16));
        }
        assert(out@ == old(out)@ + encoded(text@.take(i + 1)));
        i += 1;
    }
    assert(text@.take(text.len() as int) == text@);
}

} // verus!
