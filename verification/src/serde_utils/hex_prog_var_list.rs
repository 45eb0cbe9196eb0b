//! A `ProgressiveVariableList<u8, N>` as a 0x-prefixed hex string.

use vstd::prelude::*;

use crate::error::HexError;
use crate::hex::{
    hex_decode_message, known_hex_error, hex_decode, hex_encode, lemma_hex_round_trip,
    prefixed_hex, prefixed_hex_bytes,
};
use crate::progressive_variable_list::{within_limit, ProgressiveVariableList};

verus! {

/// The bytes of the list as 0x-prefixed lower-case hex.
pub fn serialize<const N: usize>(bytes: &ProgressiveVariableList<u8, N>) -> (text: String)
    ensures
        text@ == prefixed_hex(bytes@),
{
    hex_encode(bytes.as_slice())
}

/// Reads a list from 0x-prefixed hex text (digits of either case), rejecting text that is not
/// hex and text that stands for more bytes than the optional limit allows.
pub fn deserialize<const N: usize>(text: &str) -> (r: Result<ProgressiveVariableList<u8, N>, HexError>)
    ensures
        r is Ok <==> (prefixed_hex_bytes(text@) matches Some(b) && within_limit(b.len(), N)),
        r is Ok <==> (prefixed_hex_bytes(text@) matches Some(b) && (N == 0 || b.len() <= N)),
        r matches Ok(list) ==> prefixed_hex_bytes(text@) == Some(list@),
        prefixed_hex_bytes(text@) is None ==> (r matches Err(HexError::InvalidHex(message))
            && message@ == hex_decode_message(text@) && (known_hex_error(text@) is Some
            ==> message@ == known_hex_error(text@)->0)),
        prefixed_hex_bytes(text@) matches Some(b) ==> (!within_limit(b.len(), N) ==> r == Err::<
            ProgressiveVariableList<u8, N>,
            HexError,
        >(HexError::TooLong { len: b.len() as usize, max: N })),
{
    let bytes = match hex_decode(text) {
        Ok(bytes) => bytes,
        Err(message) => {
            return Err(HexError::InvalidHex(message));
        },
    };
    if let Some(max) = ProgressiveVariableList::<u8, N>::max_len() {
        if bytes.len() > max {
            return Err(HexError::TooLong { len: bytes.len(), max });
        }
    }
    match ProgressiveVariableList::new(bytes) {
        Ok(list) => Ok(list),
        Err(_) => {
            proof {
                assert(false);
            }
            Err(HexError::TooLong { len: 0, max: N })
        },
    }
}

/// Round trip: the text that `serialize` writes for a list within the limit reads back as
/// the same bytes.
pub proof fn lemma_hex_list_round_trip(bytes: Seq<u8>, max: usize)
    requires
        within_limit(bytes.len(), max),
    ensures
        prefixed_hex_bytes(prefixed_hex(bytes)) == Some(bytes),
{
    lemma_hex_round_trip(bytes);
}

} // verus!
