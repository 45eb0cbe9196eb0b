//! A `ProgressiveVariableList<ProgressiveVariableList<u8, M>, N>` as a list of 0x-prefixed
//! hex strings.

use vstd::prelude::*;

use crate::error::{Error, HexError};
use crate::hex::{hex_decode_message, known_hex_error, prefixed_hex, prefixed_hex_bytes};
use crate::progressive_variable_list::{within_limit, ProgressiveVariableList};
use crate::serde_utils::hex_prog_var_list;

verus! {

/// One inner byte list read from its hex text; `M` is its optional length limit.
pub struct WrappedListOwned<const M: usize>(pub ProgressiveVariableList<u8, M>);

/// One inner byte list, borrowed, to be written as hex text.
pub struct WrappedListRef<'a, const M: usize>(pub &'a ProgressiveVariableList<u8, M>);

impl<const M: usize> WrappedListOwned<M> {
    /// Reads an inner list from 0x-prefixed hex text, as `hex_prog_var_list::deserialize`.
    pub fn deserialize(text: &str) -> (r: Result<Self, HexError>)
        ensures
            r is Ok <==> (prefixed_hex_bytes(text@) matches Some(b) && within_limit(b.len(), M)),
            r is Ok <==> (prefixed_hex_bytes(text@) matches Some(b) && (M == 0 || b.len() <= M)),
            r matches Ok(w) ==> prefixed_hex_bytes(text@) == Some(w.0@),
            prefixed_hex_bytes(text@) is None ==> (r matches Err(HexError::InvalidHex(message))
            && message@ == hex_decode_message(text@) && (known_hex_error(text@) is Some
            ==> message@ == known_hex_error(text@)->0)),
            prefixed_hex_bytes(text@) matches Some(b) ==> (!within_limit(b.len(), M) ==> r
                == Err::<Self, HexError>(HexError::TooLong { len: b.len() as usize, max: M })),
    {
        match hex_prog_var_list::deserialize(text) {
            Ok(list) => Ok(WrappedListOwned(list)),
            Err(e) => Err(e),
        }
    }
}

impl<'a, const M: usize> WrappedListRef<'a, M> {
    /// The inner list as 0x-prefixed lower-case hex.
    pub fn serialize(&self) -> (text: String)
        ensures
            text@ == prefixed_hex(self.0@),
    {
        hex_prog_var_list::serialize(self.0)
    }
}

/// Each inner list as 0x-prefixed lower-case hex, in order.
pub fn serialize<const M: usize, const N: usize>(
    list: &ProgressiveVariableList<ProgressiveVariableList<u8, M>, N>,
) -> (texts: Vec<String>)
    ensures
        texts@.len() == list@.len(),
        forall|i: int| 0 <= i < list@.len() ==> (#[trigger] texts@[i])@ == prefixed_hex(list@[i]@),
{
    let items = list.as_slice();
    let mut texts: Vec<String> = Vec::new();
    let mut i: usize = 0;
    while i < items.len()
        invariant
            items@ == list@,
            i <= items@.len(),
            texts@.len() == i,
            forall|j: int| 0 <= j < i ==> (#[trigger] texts@[j])@ == prefixed_hex(list@[j]@),
        decreases items@.len() - i,
    {
        texts.push(WrappedListRef(&items[i]).serialize());
        i = i + 1;
    }
    texts
}

/// Reads all the inner lists first and checks the limit of the outer list at the end.
pub struct Visitor<const M: usize, const N: usize>;

impl<const M: usize, const N: usize> Default for Visitor<M, N> {
    fn default() -> (v: Self)
        ensures
            v == (Visitor::<M, N>),
    {
        Visitor
    }
}

impl<const M: usize, const N: usize> Visitor<M, N> {
    /// Builds the outer list from all the inner lists read, rejecting more than `N` of them.
    pub fn visit_seq(&self, values: Vec<WrappedListOwned<M>>) -> (r: Result<
        ProgressiveVariableList<ProgressiveVariableList<u8, M>, N>,
        Error,
    >)
        ensures
            r is Ok <==> within_limit(values@.len(), N),
            r is Ok <==> (N == 0 || values@.len() <= N),
            r matches Ok(list) ==> list@.len() == values@.len() && forall|i: int|
                0 <= i < values@.len() ==> #[trigger] list@[i] == values@[i].0,
            r is Err ==> r == Err::<ProgressiveVariableList<ProgressiveVariableList<u8, M>, N>, Error>(
                Error::OutOfBounds { i: values@.len() as usize, len: N },
            ),
    {
        let mut list: Vec<ProgressiveVariableList<u8, M>> = Vec::new();
        let ghost all = values@;
        for value in it: values
            invariant
                it.seq() == all,
                list@.len() == it.index(),
                forall|j: int| 0 <= j < it.index() ==> #[trigger] list@[j] == all[j].0,
        {
            let WrappedListOwned(inner) = value;
            list.push(inner);
        }
        ProgressiveVariableList::new(list)
    }
}

} // verus!
