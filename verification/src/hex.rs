//! Bytes as hexadecimal text.

use vstd::prelude::*;
use vstd::string::StringSliceAdditionalSpecFns;
use vstd::utf8::{encode_utf8, is_char_boundary};

verus! {

/// `String::push`. Claimed of it: the character goes to the end of the string.
pub assume_specification[ String::push ](s: &mut String, c: char)
    ensures
        final(s)@ == old(s)@.push(c),
;

/// The lower-case digit of a number below sixteen.
pub open spec fn hex_digit(n: int) -> char {
    if n < 10 {
        (48 + n) as char
    } else {
        (87 + n) as char
    }
}

/// Two lower-case digits for each byte, the high half first.
pub open spec fn hex(bytes: Seq<u8>) -> Seq<char> {
    Seq::new(
        2 * bytes.len(),
        |i: int|
            hex_digit(
                if i % 2 == 0 {
                    bytes[i / 2] as int / 16
                } else {
                    bytes[i / 2] as int % 16
                },
            ),
    )
}

fn digit(n: u8) -> (c: char)
    requires
        n < 16,
    ensures
        c == hex_digit(n as int),
{
    if n < 10 {
        (48 + n) as char
    } else {
        (87 + n) as char
    }
}

/// Appends the digits of `bytes` to `text`.
pub fn push_hex(text: &mut String, bytes: &[u8])
    ensures
        final(text)@ == old(text)@ + hex(bytes@),
{
    let mut i: usize = 0;
    assert(hex(bytes@).take(0) =~= Seq::<char>::empty());
    while i < bytes.len()
        invariant
            i <= bytes@.len(),
            text@ =~= old(text)@ + hex(bytes@).take(2 * i),
        decreases bytes@.len() - i,
    {
        let ghost before = text@;
        text.push(digit(bytes[i] / 16));
        text.push(digit(bytes[i] % 16));
        proof {
            let h = hex(bytes@);
            assert(h[2 * i] == hex_digit(bytes@[i as int] as int / 16));
            assert(h[2 * i + 1] == hex_digit(bytes@[i as int] as int % 16));
            assert(h.take(2 * (i + 1)) =~= h.take(2 * i).push(h[2 * i]).push(h[2 * i + 1]));
        }
        i = i + 1;
    }
    assert(hex(bytes@).take(2 * i) =~= hex(bytes@));
}

/// The digits of `bytes`.
pub fn encode(bytes: &[u8]) -> (text: String)
    ensures
        text@ == hex(bytes@),
{
    let mut text: String = String::new();
    push_hex(&mut text, bytes);
    assert(text@ =~= hex(bytes@));
    text
}

/// What a digit of either case stands for.
pub open spec fn digit_value(b: u8) -> Option<u8> {
    if 48 <= b <= 57 {
        Some((b - 48) as u8)
    } else if 97 <= b <= 102 {
        Some((b - 87) as u8)
    } else if 65 <= b <= 70 {
        Some((b - 55) as u8)
    } else {
        None
    }
}

/// What two characters stand for: two digits, or a plus sign and one digit.
pub open spec fn pair_value(high: u8, low: u8) -> Option<u8> {
    match (digit_value(high), digit_value(low)) {
        (Some(h), Some(l)) => Some((16 * h + l) as u8),
        (None, Some(l)) if high == 43 => Some(l),
        _ => None,
    }
}

/// The bytes that the text stands for from position `i` on, or the first fault in it. Two bytes
/// are read at a time; where they do not make up whole characters, the text counts as too short.
pub open spec fn decoded(text: Seq<u8>, i: int) -> Result<Seq<u8>, Seq<char>>
    decreases text.len() - i,
{
    if i >= text.len() {
        Ok(Seq::empty())
    } else if i + 2 > text.len() || !is_char_boundary(text, i) || !is_char_boundary(text, i + 2) {
        Err("odd-length hex string"@)
    } else {
        match pair_value(text[i], text[i + 1]) {
            None => Err("invalid digit found in string"@),
            Some(b) => match decoded(text, i + 2) {
                Ok(rest) => Ok(seq![b] + rest),
                Err(e) => Err(e),
            },
        }
    }
}

fn value_of(b: u8) -> (value: Option<u8>)
    ensures
        value == digit_value(b),
        value matches Some(v) ==> v < 16,
{
    if 48 <= b && b <= 57 {
        Some(b - 48)
    } else if 97 <= b && b <= 102 {
        Some(b - 87)
    } else if 65 <= b && b <= 70 {
        Some(b - 55)
    } else {
        None
    }
}

/// The bytes that hexadecimal text stands for.
pub fn decode(s: &str) -> (bytes: Result<Vec<u8>, String>)
    ensures
        match bytes {
            Ok(b) => decoded(encode_utf8(s@), 0) == Ok::<Seq<u8>, Seq<char>>(b@),
            Err(e) => decoded(encode_utf8(s@), 0) == Err::<Seq<u8>, Seq<char>>(e@),
        },
{
    let text: &[u8] = s.as_bytes();
    let n: usize = text.len();
    let mut out: Vec<u8> = Vec::new();
    let mut i: usize = 0;
    proof {
        match decoded(text@, 0) {
            Ok(rest) => {
                assert(out@ + rest =~= rest);
            },
            Err(_) => {},
        }
    }
    while i < n
        invariant
            n == text@.len(),
            text@ == encode_utf8(s@),
            s.spec_bytes() == text@,
            match decoded(text@, i as int) {
                Ok(rest) => decoded(text@, 0) == Ok::<Seq<u8>, Seq<char>>(out@ + rest),
                Err(e) => decoded(text@, 0) == Err::<Seq<u8>, Seq<char>>(e),
            },
        decreases n - i,
    {
        if n - i < 2 || !s.is_char_boundary(i) || !s.is_char_boundary(i + 2) {
            return Err("odd-length hex string".to_owned());
        }
        let high: u8 = text[i];
        let low: u8 = text[i + 1];
        let byte: u8 = match (value_of(high), value_of(low)) {
            (Some(h), Some(l)) => 16 * h + l,
            (None, Some(l)) if high == 43 => l,
            _ => {
                return Err("invalid digit found in string".to_owned());
            },
        };
        let ghost before = out@;
        out.push(byte);
        proof {
            match decoded(text@, i + 2) {
                Ok(rest) => {
                    assert(before + (seq![byte] + rest) =~= out@ + rest);
                },
                Err(_) => {},
            }
        }
        i = i + 2;
    }
    assert(out@ + Seq::<u8>::empty() =~= out@);
    Ok(out)
}

/// Hexadecimal text is ASCII, with the digit's code for each byte of it.
pub proof fn lemma_hex_bytes(bytes: Seq<u8>)
    ensures
        encode_utf8(hex(bytes)).len() == 2 * bytes.len(),
        forall|i: int|
            0 <= i < 2 * bytes.len() ==> #[trigger] encode_utf8(hex(bytes))[i] == hex(bytes)[i] as u8,
        vstd::utf8::is_ascii_chars(hex(bytes)),
{
    let h = hex(bytes);
    assert forall|i: int| 0 <= i < h.len() implies 0 <= #[trigger] h[i] as nat && (h[i] as nat) < 128 by {}
    assert(vstd::utf8::is_ascii_chars(h));
    vstd::utf8::is_ascii_chars_encode_utf8(h);
}

/// Decoding gives back the bytes that were encoded.
pub proof fn law_decode_undoes_encode(bytes: Seq<u8>)
    ensures
        decoded(encode_utf8(hex(bytes)), 0) == Ok::<Seq<u8>, Seq<char>>(bytes),
{
    lemma_hex_bytes(bytes);
    lemma_decoded_from(bytes, 0);
    assert(bytes.skip(0) =~= bytes);
}

proof fn lemma_decoded_from(bytes: Seq<u8>, k: int)
    requires
        0 <= k <= bytes.len(),
    ensures
        decoded(encode_utf8(hex(bytes)), 2 * k) == Ok::<Seq<u8>, Seq<char>>(bytes.skip(k)),
    decreases bytes.len() - k,
{
    let text = encode_utf8(hex(bytes));
    lemma_hex_bytes(bytes);
    if k < bytes.len() {
        lemma_decoded_from(bytes, k + 1);
        vstd::utf8::encode_utf8_valid_utf8(hex(bytes));
        assert(text[2 * k] == hex_digit(bytes[k] as int / 16) as u8) by {
            assert(hex(bytes)[2 * k] == hex_digit(bytes[k] as int / 16));
        }
        assert(text[2 * k + 1] == hex_digit(bytes[k] as int % 16) as u8) by {
            assert(hex(bytes)[2 * k + 1] == hex_digit(bytes[k] as int % 16));
        }
        assert(is_char_boundary(text, 2 * k)) by {
            lemma_hex_boundary(bytes, 2 * k);
        }
        assert(is_char_boundary(text, 2 * k + 2)) by {
            lemma_hex_boundary(bytes, 2 * k + 2);
        }
        assert(pair_value(text[2 * k], text[2 * k + 1]) == Some(bytes[k]));
        assert(seq![bytes[k]] + bytes.skip(k + 1) =~= bytes.skip(k));
    } else {
        assert(bytes.skip(k) =~= Seq::<u8>::empty());
    }
}

proof fn lemma_hex_boundary(bytes: Seq<u8>, i: int)
    requires
        0 <= i <= 2 * bytes.len(),
    ensures
        is_char_boundary(encode_utf8(hex(bytes)), i),
{
    let text = encode_utf8(hex(bytes));
    lemma_hex_bytes(bytes);
    vstd::utf8::encode_utf8_valid_utf8(hex(bytes));
    if i == text.len() {
        vstd::utf8::is_char_boundary_start_end_of_seq(text);
    } else {
        vstd::utf8::is_char_boundary_iff_not_is_continuation_byte(text, i);
        assert(text[i] == hex(bytes)[i] as u8);
    }
}

/// Each byte is written as two lower-case digits, the high one first, and digits of either case
/// are read.
pub proof fn law_hex_digits(bytes: Seq<u8>, i: int, high: u8, low: u8)
    requires
        0 <= i < bytes.len(),
    ensures
        hex(bytes).len() == 2 * bytes.len(),
        hex(bytes)[2 * i] as int == if bytes[i] < 160 {
            '0' as int + bytes[i] as int / 16
        } else {
            'a' as int + (bytes[i] as int / 16 - 10)
        },
        hex(bytes)[2 * i + 1] as int == if bytes[i] as int % 16 < 10 {
            '0' as int + bytes[i] as int % 16
        } else {
            'a' as int + (bytes[i] as int % 16 - 10)
        },
        '0' as u8 <= low <= '9' as u8 ==> digit_value(low) == Some((low - '0' as u8) as u8),
        'a' as u8 <= low <= 'f' as u8 ==> digit_value(low) == Some((low - 'a' as u8 + 10) as u8),
        'A' as u8 <= low <= 'F' as u8 ==> digit_value(low) == Some((low - 'A' as u8 + 10) as u8),
        digit_value(low) is Some ==> ('0' as u8 <= low <= '9' as u8) || ('a' as u8 <= low
            <= 'f' as u8) || ('A' as u8 <= low <= 'F' as u8),
        digit_value(high) is Some && digit_value(low) is Some ==> pair_value(high, low) == Some(
            (16 * digit_value(high)->0 + digit_value(low)->0) as u8,
        ),
        digit_value(low) is None ==> pair_value(high, low) is None,
        digit_value(high) is None && digit_value(low) is Some ==> pair_value(high, low) == if high
            == '+' as u8 {
            digit_value(low)
        } else {
            None
        },
{
}

/// Text is read two bytes at a time: the first pair is the first byte, what is left over is too
/// short, and a pair that is not of digits is refused.
pub proof fn law_hex_is_read_by_pairs(text: Seq<u8>, i: int)
    requires
        0 <= i,
    ensures
        i >= text.len() ==> decoded(text, i) == Ok::<Seq<u8>, Seq<char>>(Seq::empty()),
        i + 1 == text.len() ==> decoded(text, i) == Err::<Seq<u8>, Seq<char>>(
            "odd-length hex string"@,
        ),
        i + 2 <= text.len() && is_char_boundary(text, i) && is_char_boundary(text, i + 2) ==> {
            match pair_value(text[i], text[i + 1]) {
                None => decoded(text, i) == Err::<Seq<u8>, Seq<char>>(
                    "invalid digit found in string"@,
                ),
                Some(b) => match decoded(text, i + 2) {
                    Ok(rest) => decoded(text, i) == Ok::<Seq<u8>, Seq<char>>(seq![b] + rest),
                    Err(e) => decoded(text, i) == Err::<Seq<u8>, Seq<char>>(e),
                },
            }
        },
{
}

} // verus!
