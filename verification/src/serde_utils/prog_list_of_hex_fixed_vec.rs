//! A `ProgressiveVariableList<FixedVector<u8, M>, N>` as a list of 0x-prefixed hex strings.

use vstd::prelude::*;

use crate::error::{Error, HexError};
use crate::fixed_vector::FixedVector;
use crate::hex::{
    hex_decode_message, known_hex_error, hex_decode, hex_encode, prefixed_hex, prefixed_hex_bytes,
};
use crate::progressive_variable_list::{within_limit, ProgressiveVariableList};

verus! {

/// One element read from its hex text.
pub struct WrappedListOwned<const M: usize>(pub FixedVector<u8, M>);

/// One element, borrowed, to be written as hex text.
pub struct WrappedListRef<'a, const M: usize>(pub &'a FixedVector<u8, M>);

impl<const M: usize> WrappedListOwned<M> {
    /// Reads an element from 0x-prefixed hex text that stands for exactly `M` bytes.
    pub fn deserialize(text: &str) -> (r: Result<Self, HexError>)
        ensures
            r is Ok <==> (prefixed_hex_bytes(text@) matches Some(b) && b.len() == M),
            r matches Ok(w) ==> prefixed_hex_bytes(text@) == Some(w.0@),
            prefixed_hex_bytes(text@) is None ==> (r matches Err(HexError::InvalidHex(message))
            && message@ == hex_decode_message(text@) && (known_hex_error(text@) is Some
            ==> message@ == known_hex_error(text@)->0)),
            prefixed_hex_bytes(text@) matches Some(b) ==> (b.len() != M ==> r == Err::<
                Self,
                HexError,
            >(HexError::WrongLength { len: b.len() as usize, expected: M })),
    {
        let bytes = match hex_decode(text) {
            Ok(bytes) => bytes,
            Err(message) => {
                return Err(HexError::InvalidHex(message));
            },
        };
        let len = bytes.len();
        match FixedVector::new(bytes) {
            Ok(v) => Ok(WrappedListOwned(v)),
            Err(_) => Err(HexError::WrongLength { len, expected: M }),
        }
    }
}

impl<'a, const M: usize> WrappedListRef<'a, M> {
    /// The element as 0x-prefixed lower-case hex.
    pub fn serialize(&self) -> (text: String)
        ensures
            text@ == prefixed_hex(self.0@),
    {
        hex_encode(self.0.as_slice())
    }
}

/// Each element of the list as 0x-prefixed lower-case hex, in order.
pub fn serialize<const M: usize, const N: usize>(
    list: &ProgressiveVariableList<FixedVector<u8, M>, N>,
) -> (texts: Vec<String>)
    ensures
        texts@.len() == list@.len(),
        forall|i: int| 0 <= i < list@.len() ==> (#[trigger] texts@[i])@ == prefixed_hex(list@[i]@),
{
    let items = list.as_slice();
    let mut texts: Vec<String> = Vec::new();
    let mut i: usize = 0;
    while i < items.len()
        invariant
            items@ == list@,
            i <= items@.len(),
            texts@.len() == i,
            forall|j: int| 0 <= j < i ==> (#[trigger] texts@[j])@ == prefixed_hex(list@[j]@),
        decreases items@.len() - i,
    {
        texts.push(WrappedListRef(&items[i]).serialize());
        i = i + 1;
    }
    texts
}

/// Builds the list one element at a time as the elements are read, so that a list past its
/// limit is rejected at the first element too many, before any later element is read.
pub struct Visitor<const M: usize, const N: usize>;

impl<const M: usize, const N: usize> Default for Visitor<M, N> {
    fn default() -> (v: Self)
        ensures
            v == (Visitor::<M, N>),
    {
        Visitor
    }
}

impl<const M: usize, const N: usize> Visitor<M, N> {
    /// The list before any element has been read.
    pub fn start(&self) -> (list: ProgressiveVariableList<FixedVector<u8, M>, N>)
        ensures
            list@ == Seq::<FixedVector<u8, M>>::empty(),
    {
        ProgressiveVariableList::empty()
    }

    /// Takes in the next element read: appends it, or rejects it and leaves the list as it
    /// was when the list is already at its limit.
    pub fn visit_element(
        &self,
        list: &mut ProgressiveVariableList<FixedVector<u8, M>, N>,
        value: WrappedListOwned<M>,
    ) -> (r: Result<(), Error>)
        requires
            old(list)@.len() < usize::MAX,
        ensures
            r is Ok <==> within_limit(old(list)@.len() + 1, N),
            r is Ok <==> (N == 0 || old(list)@.len() < N),
            r is Ok ==> final(list)@ == old(list)@.push(value.0),
            r is Err ==> final(list)@ == old(list)@ && r == Err::<(), Error>(
                Error::OutOfBounds { i: (old(list)@.len() + 1) as usize, len: N },
            ),
    {
        list.push(value.0)
    }
}

} // verus!
