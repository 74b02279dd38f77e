//! What a username may look like.

use vstd::prelude::*;
use vstd::utf8::encode_utf8;

verus! {

/// The longest username, in bytes.
pub const MAX_LEN: usize = 64;

/// Whether a byte may stand in a username: an ASCII letter or digit, `_` or `-`.
pub open spec fn username_byte(b: u8) -> bool {
    0x30 <= b <= 0x39 || 0x41 <= b <= 0x5a || 0x61 <= b <= 0x7a || b == 0x5f || b == 0x2d
}

/// Whether `username` is not empty and made of ASCII letters, digits, `_` and `-` alone.
pub open spec fn username_allowed(username: Seq<char>) -> bool {
    encode_utf8(username).len() > 0 && forall|i: int|
        0 <= i < encode_utf8(username).len() ==> username_byte(#[trigger] encode_utf8(username)[i])
}

/// Whether `username` is not empty and made of ASCII letters, digits, `_` and `-` alone.
pub fn has_only_allowed_characters(username: &str) -> (ok: bool)
    ensures
        ok == username_allowed(username@),
{
    let bytes: &[u8] = username.as_bytes();
    if bytes.len() == 0 {
        return false;
    }
    let mut i: usize = 0;
    while i < bytes.len()
        invariant
            i <= bytes@.len(),
            bytes@ == encode_utf8(username@),
            forall|j: int| 0 <= j < i ==> username_byte(#[trigger] encode_utf8(username@)[j]),
        decreases bytes@.len() - i,
    {
        let b: u8 = bytes[i];
        let ok: bool = (0x30 <= b && b <= 0x39) || (0x41 <= b && b <= 0x5a) || (0x61 <= b && b
            <= 0x7a) || b == 0x5f || b == 0x2d;
        if !ok {
            assert(!username_byte(encode_utf8(username@)[i as int]));
            return false;
        }
        i = i + 1;
    }
    true
}

/// A username is allowed exactly where it is not empty and each of its bytes is that of an ASCII
/// digit, a letter of either case, an underscore or a hyphen.
pub proof fn law_usernames_are_letters_digits_and_two_signs(username: Seq<char>)
    ensures
        username_allowed(username) <==> encode_utf8(username).len() > 0 && forall|i: int|
            0 <= i < encode_utf8(username).len() ==> {
                let b = #[trigger] encode_utf8(username)[i];
                ||| '0' as u8 <= b && b <= '9' as u8
                ||| 'A' as u8 <= b && b <= 'Z' as u8
                ||| 'a' as u8 <= b && b <= 'z' as u8
                ||| b == '_' as u8
                ||| b == '-' as u8
            },
{
    let bytes = encode_utf8(username);
    assert forall|i: int| 0 <= i < bytes.len() implies (username_byte(#[trigger] bytes[i]) <==> ('0' as u8
        <= bytes[i] && bytes[i] <= '9' as u8) || ('A' as u8 <= bytes[i] && bytes[i] <= 'Z' as u8) || (
    'a' as u8 <= bytes[i] && bytes[i] <= 'z' as u8) || bytes[i] == '_' as u8 || bytes[i] == '-' as u8) by {}
}

} // verus!
