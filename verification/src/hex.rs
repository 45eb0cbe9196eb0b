//! 0x-prefixed hexadecimal text for byte strings.

use vstd::prelude::*;

use crate::error::decimal;

verus! {

/// The lower-case hexadecimal digit for `n < 16`.
pub open spec fn hex_char(n: nat) -> char {
    if n < 10 {
        (48 + n) as char
    } else {
        (87 + n) as char
    }
}

/// The value of a hexadecimal digit of either case, or `None` for any other character.
pub open spec fn hex_char_value(c: char) -> Option<nat> {
    if '0' <= c && c <= '9' {
        Some((c as nat - 48) as nat)
    } else if 'a' <= c && c <= 'f' {
        Some((c as nat - 87) as nat)
    } else if 'A' <= c && c <= 'F' {
        Some((c as nat - 55) as nat)
    } else {
        None
    }
}

/// Two lower-case hexadecimal digits per byte, high nibble first.
pub open spec fn hex_lower(bytes: Seq<u8>) -> Seq<char>
    decreases bytes.len(),
{
    if bytes.len() == 0 {
        Seq::empty()
    } else {
        seq![hex_char(bytes[0] as nat / 16), hex_char(bytes[0] as nat % 16)] + hex_lower(
            bytes.drop_first(),
        )
    }
}

/// The text of `bytes` as 0x-prefixed lower-case hexadecimal.
pub open spec fn prefixed_hex(bytes: Seq<u8>) -> Seq<char> {
    seq!['0', 'x'] + hex_lower(bytes)
}

/// The bytes that an even number of hexadecimal digits (of either case) stand for, or `None`
/// for an odd number of characters or a character that is not a digit.
pub open spec fn hex_digits_bytes(chars: Seq<char>) -> Option<Seq<u8>>
    decreases chars.len(),
{
    if chars.len() == 0 {
        Some(Seq::empty())
    } else if chars.len() == 1 {
        None
    } else {
        match (
            hex_char_value(chars[0]),
            hex_char_value(chars[1]),
            hex_digits_bytes(chars.subrange(2, chars.len() as int)),
        ) {
            (Some(high), Some(low), Some(rest)) => Some(seq![(high * 16 + low) as u8] + rest),
            _ => None,
        }
    }
}

/// The bytes that a 0x-prefixed hexadecimal string stands for, or `None` when it is not one.
pub open spec fn prefixed_hex_bytes(text: Seq<char>) -> Option<Seq<u8>> {
    if text.len() >= 2 && text[0] == '0' && text[1] == 'x' {
        hex_digits_bytes(text.subrange(2, text.len() as int))
    } else {
        None
    }
}

/// Reading back the hexadecimal text of `bytes` gives `bytes`.
pub proof fn lemma_hex_round_trip(bytes: Seq<u8>)
    ensures
        hex_lower(bytes).len() == 2 * bytes.len(),
        hex_digits_bytes(hex_lower(bytes)) == Some(bytes),
        prefixed_hex_bytes(prefixed_hex(bytes)) == Some(bytes),
    decreases bytes.len(),
{
    if bytes.len() > 0 {
        let rest = bytes.drop_first();
        lemma_hex_round_trip(rest);
        let b = bytes[0] as nat;
        let high = b / 16;
        let low = b % 16;
        assert(high < 16 && low < 16 && high * 16 + low == b) by {
            vstd::arithmetic::div_mod::lemma_fundamental_div_mod(b as int, 16);
        }
        let text = hex_lower(bytes);
        assert(text.subrange(2, text.len() as int) =~= hex_lower(rest));
        assert(hex_char_value(hex_char(high)) == Some(high));
        assert(hex_char_value(hex_char(low)) == Some(low));
        assert(seq![(high * 16 + low) as u8] + rest =~= bytes);
    }
    let text = prefixed_hex(bytes);
    assert(text.subrange(2, text.len() as int) =~= hex_lower(bytes));
}

/// Calls `serde_utils::hex::encode`, which writes `0x` and then two lower-case hexadecimal
/// digits per byte.
#[verifier::external_body]
pub(crate) fn hex_encode(data: &[u8]) -> (text: String)
    ensures
        text@ == prefixed_hex(data@),
{
    ::serde_utils::hex::encode(data)
}

/// The message that `serde_utils::hex::decode` gives for `text` when it is not 0x-prefixed
/// hexadecimal.
pub uninterp spec fn hex_decode_message(text: Seq<char>) -> Seq<char>;

/// True when every character of `chars` is ASCII, and so one byte of the text.
pub open spec fn all_ascii(chars: Seq<char>) -> bool {
    forall|i: int| 0 <= i < chars.len() ==> (#[trigger] chars[i] as nat) < 128
}

/// The position of the first character of `chars` that is not a hexadecimal digit, if any.
pub open spec fn first_non_digit(chars: Seq<char>) -> Option<nat>
    decreases chars.len(),
{
    if chars.len() == 0 {
        None
    } else if hex_char_value(chars[0]) is None {
        Some(0)
    } else {
        match first_non_digit(chars.drop_first()) {
            Some(i) => Some(i + 1),
            None => None,
        }
    }
}

/// True when `{:?}` prints `c` as itself between single quotes: a printable ASCII character
/// other than the quotes and the backslash.
pub open spec fn plain_debug_char(c: char) -> bool {
    ' ' <= c && c <= '~' && c != '\'' && c != '"' && c != '\\'
}

/// The message that `serde_utils::hex::decode` gives for `text`, where the sources settle
/// it: without the `0x` prefix; and for ASCII text after it, for an odd number of characters
/// or for a first non-digit that `{:?}` prints as itself. `None` for other text.
pub open spec fn known_hex_error(text: Seq<char>) -> Option<Seq<char>> {
    if !(text.len() >= 2 && text[0] == '0' && text[1] == 'x') {
        Some("hex must have 0x prefix"@)
    } else {
        let rest = text.subrange(2, text.len() as int);
        if !all_ascii(rest) {
            None
        } else if rest.len() % 2 == 1 {
            Some("invalid hex: OddLength"@)
        } else {
            match first_non_digit(rest) {
                Some(i) => if plain_debug_char(rest[i as int]) {
                    Some(
                        "invalid hex: InvalidHexCharacter { c: '"@ + seq![rest[i as int]]
                            + "', index: "@ + decimal(i) + " }"@,
                    )
                } else {
                    None
                },
                None => None,
            }
        }
    }
}

/// Calls `serde_utils::hex::decode`, which strips a leading `0x` and reads an even number of
/// hexadecimal digits of either case; otherwise it returns a message saying what was wrong:
/// `hex must have 0x prefix` without the prefix, and, after it, `invalid hex: ` and the
/// `{:?}` form of the `hex` crate's error. The message is named `hex_decode_message`; where
/// `known_hex_error` gives it, it is that. For text with non-ASCII characters after the
/// prefix, or a first non-digit that `{:?}` escapes, its wording is not stated.
#[verifier::external_body]
pub(crate) fn hex_decode(text: &str) -> (r: Result<Vec<u8>, String>)
    ensures
        r is Ok <==> prefixed_hex_bytes(text@) is Some,
        r matches Ok(bytes) ==> prefixed_hex_bytes(text@) == Some(bytes@),
        r matches Err(message) ==> message@ == hex_decode_message(text@),
        r matches Err(message) ==> (known_hex_error(text@) is Some ==> message@
            == known_hex_error(text@)->0),
{
    ::serde_utils::hex::decode(text)
}

} // verus!
