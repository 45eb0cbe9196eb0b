use vstd::prelude::*;
use vstd::std_specs::iter::IteratorSpec;

use crate::error::{Error, SszError};
use crate::offsets::decode_variable_items;
use crate::ssz_element::{
    byte_vecs_view, chunk, lemma_flatten_fixed, lemma_offsets_len, ssz_append_byte_lists,
    variable_layout, SszElement, BYTES_PER_LENGTH_OFFSET, MAX_LENGTH_VALUE,
};
use crate::ssz_list::{
    encodings, lemma_encodings_fixed, lemma_list_decoded_encodes_back,
    lemma_list_decoded_same_encodings, lemma_list_encoding_decodes, list_decode_error, list_decodes,
    list_decoded, spec_list_encoding,
};

verus! {

/// Upper bound on the number of elements reserved up front when a list is built from a
/// source whose size hint cannot be trusted.
pub const MAX_ELEMENTS_TO_PRE_ALLOCATE: usize = 131072;

/// An ordered, variable-length, homogeneous list of `T` with an optional length limit `N`.
///
/// `N == 0` means the list has no limit; otherwise the list never holds more than `N` items.
/// A non-zero limit is enforced on construction, on mutation and on decoding. The limit does
/// not change the SSZ encoding of the list.
#[derive(Debug, PartialEq, Eq, Hash)]
pub struct ProgressiveVariableList<T, const N: usize> {
    vec: Vec<T>,
}

/// True when a list of `len` items respects the limit `max` (`0` meaning no limit).
pub open spec fn within_limit(len: nat, max: usize) -> bool {
    max == 0 || len <= max
}

/// The limit as the list reports it: `None` for no limit.
pub open spec fn spec_max_len(max: usize) -> Option<usize> {
    if max == 0 {
        None
    } else {
        Some(max)
    }
}

/// The limit, in plain terms: `0` admits any length, any other `max` admits exactly the
/// lengths up to `max`; and the limit is reported as `None` for `0` and as itself otherwise.
pub proof fn lemma_limit_is_plain(len: nat, max: usize)
    ensures
        within_limit(len, max) <==> (max == 0 || len <= max),
        max == 0 ==> spec_max_len(max) is None,
        max != 0 ==> spec_max_len(max) == Some(max),
        max != 0 && len == max + 1 ==> !within_limit(len, max),
{
}

/// The number of elements reserved for a source whose size hint is `hint`, with limit `max`.
pub open spec fn spec_capacity_to_reserve(hint: (usize, Option<usize>), max: usize) -> usize {
    let cap = if max == 0 {
        MAX_ELEMENTS_TO_PRE_ALLOCATE
    } else if max < MAX_ELEMENTS_TO_PRE_ALLOCATE {
        max
    } else {
        MAX_ELEMENTS_TO_PRE_ALLOCATE
    };
    let wanted = match hint.1 {
        Some(upper) => upper,
        None => hint.0,
    };
    if wanted < cap {
        wanted
    } else {
        cap
    }
}

/// Calls `Iterator::size_hint`, whose bounds an implementation may get wrong, so nothing is
/// promised of them.
#[verifier::external_body]
fn iter_size_hint<I: Iterator>(iter: &I) -> (usize, Option<usize>) {
    iter.size_hint()
}

/// Calls `Vec::capacity`, which is documented to be at least the length.
#[verifier::external_body]
fn vec_capacity<T>(vec: &Vec<T>) -> (c: usize)
    ensures
        c >= vec@.len(),
{
    vec.capacity()
}

impl<T, const N: usize> View for ProgressiveVariableList<T, N> {
    type V = Seq<T>;

    closed spec fn view(&self) -> Seq<T> {
        self.vec@
    }
}

impl<T: Clone, const N: usize> Clone for ProgressiveVariableList<T, N> {
    fn clone(&self) -> (c: Self)
        ensures
            c@.len() == self@.len(),
            forall|i: int| 0 <= i < self@.len() ==> cloned::<T>(self@[i], #[trigger] c@[i]),
    {
        proof {
            use_type_invariant(self);
        }
        ProgressiveVariableList { vec: self.vec.clone() }
    }
}

impl<T, const N: usize> ProgressiveVariableList<T, N> {
    #[verifier::type_invariant]
    spec fn inv(self) -> bool {
        within_limit(self.vec@.len(), N)
    }

    /// Create an empty list.
    pub fn empty() -> (list: Self)
        ensures
            list@ == Seq::<T>::empty(),
    {
        ProgressiveVariableList { vec: Vec::new() }
    }

    /// The number of values presently in the list.
    pub fn len(&self) -> (n: usize)
        ensures
            n == self@.len(),
            within_limit(self@.len(), N),
    {
        proof {
            use_type_invariant(self);
        }
        self.vec.len()
    }

    /// True if the list holds no values.
    pub fn is_empty(&self) -> (b: bool)
        ensures
            b == (self@.len() == 0),
    {
        self.vec.len() == 0
    }

    /// The contents as a slice.
    pub fn as_slice(&self) -> (s: &[T])
        ensures
            s@ == self@,
    {
        self.vec.as_slice()
    }

    /// Consumes the list, returning the underlying `Vec`.
    pub fn into_vec(self) -> (v: Vec<T>)
        ensures
            v@ == self@,
    {
        self.vec
    }

    /// The number of values the list can hold before it reallocates.
    pub fn capacity(&self) -> (c: usize)
        ensures
            c >= self@.len(),
    {
        vec_capacity(&self.vec)
    }

    /// A list of the first values of `vec`, as many as the optional limit allows; the rest
    /// are dropped.
    pub fn truncating_new(vec: Vec<T>) -> (list: Self)
        ensures
            within_limit(vec@.len(), N) ==> list@ == vec@,
            !within_limit(vec@.len(), N) ==> list@ == vec@.take(N as int),
            N == 0 || vec@.len() <= N ==> list@ == vec@,
            N != 0 && vec@.len() > N ==> list@ == vec@.take(N as int),
    {
        let mut vec = vec;
        if let Some(max) = Self::max_len() {
            vec.truncate(max);
        }
        ProgressiveVariableList { vec }
    }

    /// The optional length limit: `None` means no limit, `Some(n)` rejects more than `n` items.
    pub fn max_len() -> (m: Option<usize>)
        ensures
            m == spec_max_len(N),
            N == 0 ==> m is None,
            N != 0 ==> m == Some(N),
    {
        if N == 0 {
            None
        } else {
            Some(N)
        }
    }

    /// Create a list from a `Vec`, returning an error if it exceeds the optional limit.
    pub fn new(vec: Vec<T>) -> (r: Result<Self, Error>)
        ensures
            r is Ok <==> within_limit(vec@.len(), N),
            r is Ok <==> (N == 0 || vec@.len() <= N),
            r matches Ok(list) ==> list@ == vec@,
            r is Err ==> r == Err::<Self, Error>(Error::OutOfBounds { i: vec@.len() as usize, len: N }),
    {
        if let Some(max) = Self::max_len() {
            if vec.len() > max {
                return Err(Error::OutOfBounds { i: vec.len(), len: max });
            }
        }
        Ok(ProgressiveVariableList { vec })
    }

    /// Appends `value` to the back of the list, returning an error if it would exceed the
    /// optional limit. On error the list is unchanged.
    pub fn push(&mut self, value: T) -> (r: Result<(), Error>)
        requires
            old(self)@.len() < usize::MAX,
        ensures
            r is Ok <==> within_limit(old(self)@.len() + 1, N),
            r is Ok <==> (N == 0 || old(self)@.len() < N),
            r is Ok ==> final(self)@ == old(self)@.push(value),
            r is Err ==> final(self)@ == old(self)@ && r == Err::<(), Error>(
                Error::OutOfBounds { i: (old(self)@.len() + 1) as usize, len: N },
            ),
    {
        proof {
            use_type_invariant(&*self);
        }
        if let Some(max) = Self::max_len() {
            if self.vec.len() >= max {
                return Err(Error::OutOfBounds { i: self.vec.len() + 1, len: max });
            }
        }
        let mut items = Vec::new();
        std::mem::swap(&mut items, &mut self.vec);
        items.push(value);
        self.vec = items;
        Ok(())
    }

    /// Replaces the value at `index` with `value`; the length, and so the limit, is unchanged.
    pub fn set(&mut self, index: usize, value: T)
        requires
            index < old(self)@.len(),
        ensures
            final(self)@ == old(self)@.update(index as int, value),
    {
        proof {
            use_type_invariant(&*self);
        }
        let mut items = Vec::new();
        std::mem::swap(&mut items, &mut self.vec);
        items.set(index, value);
        self.vec = items;
    }

    /// The number of elements to reserve for a source with size hint `(lower, upper)`: the
    /// hint comes from untrusted input, so the limit and a constant cap the reservation.
    pub fn capacity_to_reserve(size_hint: (usize, Option<usize>)) -> (c: usize)
        ensures
            c == spec_capacity_to_reserve(size_hint, N),
    {
        let (lower, upper) = size_hint;
        let cap = match Self::max_len() {
            None => MAX_ELEMENTS_TO_PRE_ALLOCATE,
            Some(max) => if max < MAX_ELEMENTS_TO_PRE_ALLOCATE {
                max
            } else {
                MAX_ELEMENTS_TO_PRE_ALLOCATE
            },
        };
        let wanted = upper.unwrap_or(lower);
        if wanted < cap {
            wanted
        } else {
            cap
        }
    }

    /// Builds a list from the items of `iter`, pulling them one at a time and pushing them in
    /// order. It stops at the first item past the limit and returns the error without pulling
    /// another, so at most `N + 1` items are taken from `iter`. Room is reserved up front for
    /// as many items as `capacity_to_reserve` allows for the size hint of `iter`.
    ///
    /// For an iterator that Verus knows to yield a finite sequence of items (one that obeys
    /// its laws), the contract says which items are taken and what is returned; for any
    /// iterator, an error is always the one for the first item past the limit.
    pub fn try_from_iter<I: Iterator<Item = T>>(iter: &mut I) -> (r: Result<Self, Error>)
        requires
            (*old(iter)).obeys_prophetic_iter_laws() ==> (*old(iter)).remaining().len() <= usize::MAX,
        ensures
            r is Err ==> N != 0 && r == Err::<Self, Error>(
                Error::OutOfBounds { i: (N + 1) as usize, len: N },
            ),
            (*old(iter)).obeys_prophetic_iter_laws() ==> {
                let items = (*old(iter)).remaining();
                &&& r is Ok <==> within_limit(items.len(), N)
                &&& r matches Ok(list) ==> list@ == items && (*final(iter)).remaining().len() == 0
                &&& r is Err ==> (*final(iter)).remaining() == items.skip(N + 1)
            },
    {
        let capacity = Self::capacity_to_reserve(iter_size_hint(&*iter));
        let mut list = match Self::new(Vec::with_capacity(capacity)) {
            Ok(list) => list,
            Err(e) => return Err(e),
        };
        let ghost laws = (*iter).obeys_prophetic_iter_laws();
        let ghost items = (*iter).remaining();
        loop
            invariant
                laws == (*old(iter)).obeys_prophetic_iter_laws(),
                laws == (*iter).obeys_prophetic_iter_laws(),
                items == (*old(iter)).remaining(),
                laws ==> items.len() <= usize::MAX,
                laws ==> list@ + (*iter).remaining() == items,
            decreases usize::MAX - list@.len(),
        {
            proof {
                use_type_invariant(&list);
            }
            // A list cannot hold more than `usize::MAX` items (a `Vec` panics when pushed past
            // that), so building stops there; a lawful source of at most that many items has
            // none left to give.
            if list.len() == usize::MAX {
                assert(laws ==> (*iter).remaining().len() == 0);
                return Ok(list);
            }
            let ghost before = (*iter).remaining();
            match iter.next() {
                None => {
                    assert(laws ==> list@ =~= items);
                    return Ok(list);
                },
                Some(item) => {
                    let ghost pushed = list@;
                    match list.push(item) {
                        Ok(()) => {
                            assert(laws ==> list@ + (*iter).remaining() =~= pushed + before);
                        },
                        Err(e) => {
                            assert(laws ==> items.skip(N + 1) =~= (*iter).remaining()) by {
                                if laws {
                                    assert(pushed.len() == N);
                                    assert(items =~= pushed + before);
                                    assert(before =~= seq![item] + (*iter).remaining());
                                }
                            }
                            return Err(e);
                        },
                    }
                },
            }
        }
    }
}

} // verus!

verus! {

impl<T, const N: usize> Default for ProgressiveVariableList<T, N> {
    /// An empty list.
    fn default() -> (list: Self)
        ensures
            list@ == Seq::<T>::empty(),
    {
        Self::empty()
    }
}

impl<T, const N: usize> TryFrom<Vec<T>> for ProgressiveVariableList<T, N> {
    type Error = Error;

    /// Same as [`ProgressiveVariableList::new`].
    fn try_from(vec: Vec<T>) -> (r: Result<Self, Error>)
        ensures
            r is Ok <==> within_limit(vec@.len(), N),
            r is Ok <==> (N == 0 || vec@.len() <= N),
            r matches Ok(list) ==> list@ == vec@,
            r is Err ==> r == Err::<Self, Error>(Error::OutOfBounds { i: vec@.len() as usize, len: N }),
    {
        if N != 0 && vec.len() > N {
            Err(Error::OutOfBounds { i: vec.len(), len: N })
        } else {
            Ok(ProgressiveVariableList { vec })
        }
    }
}

impl<T, const N: usize> vstd::std_specs::convert::TryFromSpecImpl<Vec<T>> for ProgressiveVariableList<T, N> {
    open spec fn obeys_try_from_spec() -> bool {
        true
    }

    closed spec fn try_from_spec(vec: Vec<T>) -> Result<Self, Error> {
        if within_limit(vec@.len(), N) {
            Ok(ProgressiveVariableList { vec })
        } else {
            Err(Error::OutOfBounds { i: vec@.len() as usize, len: N })
        }
    }
}

impl<T, const N: usize> From<ProgressiveVariableList<T, N>> for Vec<T> {
    /// The underlying `Vec` of the list.
    fn from(list: ProgressiveVariableList<T, N>) -> (v: Vec<T>)
        ensures
            v@ == list@,
    {
        list.vec
    }
}

impl<T, const N: usize> vstd::std_specs::convert::FromSpecImpl<ProgressiveVariableList<T, N>> for Vec<T> {
    open spec fn obeys_from_spec() -> bool {
        true
    }

    closed spec fn from_spec(list: ProgressiveVariableList<T, N>) -> Vec<T> {
        list.vec
    }
}

} // verus!

verus! {

impl<T: SszElement, const N: usize> ProgressiveVariableList<T, N> {
    /// Decodes a list from its SSZ encoding, rejecting encodings of more than
    /// `MAX_LENGTH_VALUE` bytes and encodings of more items than the optional limit allows.
    /// The limit is checked before any item is decoded; the items are decoded in order and
    /// the first failure is the one reported.
    pub fn from_ssz_bytes(bytes: &[u8]) -> (r: Result<Self, SszError>)
        ensures
            r is Ok <==> list_decodes::<T>(bytes@, N),
            r matches Ok(list) ==> list_decoded::<T>(bytes@, list@) && within_limit(
                list@.len(),
                N,
            ) && (forall|i: int| 0 <= i < list@.len() ==> (#[trigger] list@[i]).spec_valid()),
            r matches Err(e) ==> list_decode_error::<T>(bytes@, N, e),
    {
        let len = bytes.len();
        if len > MAX_LENGTH_VALUE {
            return Err(SszError::EncodingTooLong { len });
        }
        if len == 0 {
            return Ok(Self::empty());
        }
        match T::ssz_fixed_len() {
            Some(item_len) => {
                if item_len == 0 {
                    return Err(SszError::ZeroLengthItem);
                }
                let num_items = len / item_len;
                if let Some(max) = Self::max_len() {
                    if num_items > max {
                        return Err(SszError::TooManyItems { items: num_items, max });
                    }
                }
                if len % item_len != 0 {
                    return Err(SszError::UnevenLength { len, item_len });
                }
                proof {
                    vstd::arithmetic::div_mod::lemma_fundamental_div_mod(len as int, item_len as int);
                    assert(num_items * item_len == len) by (nonlinear_arith)
                        requires
                            len == item_len * (len / item_len) + len % item_len,
                            len % item_len == 0,
                            num_items == len / item_len,
                    ;
                }
                let ghost k = item_len as nat;
                let mut vec: Vec<T> = Vec::with_capacity(num_items);
                let mut i: usize = 0;
                let mut start: usize = 0;
                while i < num_items
                    invariant
                        k == item_len,
                        k > 0,
                        T::spec_fixed_len() == Some(item_len),
                        0 < len <= MAX_LENGTH_VALUE,
                        within_limit(num_items as nat, N),
                        len % item_len == 0,
                        len == bytes@.len(),
                        num_items * item_len == len,
                        num_items == len / item_len,
                        i <= num_items,
                        start == i * k,
                        vec@.len() == i,
                        forall|j: int|
                            0 <= j < i ==> T::spec_decoded(chunk(bytes@, k, j), #[trigger] vec@[j])
                                && vec@[j].spec_valid(),
                        forall|j: int| 0 <= j < i ==> T::spec_decodes(#[trigger] chunk(bytes@, k, j)),
                    decreases num_items - i,
                {
                    proof {
                        assert(start + k <= len) by (nonlinear_arith)
                            requires
                                start == i * k,
                                i < num_items,
                                num_items * k == len,
                        ;
                    }
                    let piece = &bytes[start..start + item_len];
                    assert(piece@ == chunk(bytes@, k, i as int));
                    match T::from_ssz_bytes(piece) {
                        Ok(v) => {
                            vec.push(v);
                        },
                        Err(e) => {
                            assert(!T::spec_decodes(chunk(bytes@, k, i as int)));
                            assert(T::spec_decode_error(chunk(bytes@, k, i as int), e));
                            return Err(e);
                        },
                    }
                    proof {
                        assert((i + 1) * k == i * k + k) by (nonlinear_arith);
                    }
                    start = start + item_len;
                    i = i + 1;
                }
                Ok(ProgressiveVariableList { vec })
            },
            None => {
                match decode_variable_items::<T>(bytes, Self::max_len()) {
                    Ok(vec) => Ok(ProgressiveVariableList { vec }),
                    Err(e) => Err(e),
                }
            },
        }
    }

    /// A list is not of fixed length when it is an item of another encoding.
    pub fn is_ssz_fixed_len() -> (b: bool)
        ensures
            !b,
    {
        false
    }

    /// The number of bytes a list takes in the fixed part of an enclosing encoding: the width
    /// of its offset.
    pub fn ssz_fixed_len() -> (n: usize)
        ensures
            n == BYTES_PER_LENGTH_OFFSET,
    {
        BYTES_PER_LENGTH_OFFSET
    }

    /// Appends the SSZ encoding of the list to `buf`.
    ///
    /// For items of variable length the encoding must stay within `MAX_LENGTH_VALUE` bytes,
    /// or the offsets it holds would not fit their four bytes.
    ///
    /// Round trip: what is appended decodes, under the list's own limit, to items with the
    /// same encodings as the list's, provided it is within `MAX_LENGTH_VALUE` bytes.
    pub fn ssz_append(&self, buf: &mut Vec<u8>)
        requires
            T::spec_fixed_len() is None ==> spec_list_encoding(self@).len() <= MAX_LENGTH_VALUE,
        ensures
            final(buf)@ == old(buf)@ + spec_list_encoding(self@),
            forall|i: int| 0 <= i < self@.len() ==> (#[trigger] self@[i]).spec_valid(),
            spec_list_encoding(self@).len() <= MAX_LENGTH_VALUE ==> list_decodes::<T>(
                spec_list_encoding(self@),
                N,
            ),
            forall|decoded: Seq<T>| #[trigger]
                list_decoded::<T>(spec_list_encoding(self@), decoded) ==> encodings(decoded)
                    == encodings(self@),
    {
        proof {
            use_type_invariant(self);
        }
        let n = self.vec.len();
        let ghost items = self@;
        match T::ssz_fixed_len() {
            Some(_) => {
                let mut i: usize = 0;
                while i < n
                    invariant
                        T::spec_fixed_len() is Some,
                        items == self@,
                        n == items.len(),
                        i <= n,
                        buf@ == old(buf)@ + encodings(items.take(i as int)).flatten(),
                        forall|j: int| 0 <= j < i ==> (#[trigger] items[j]).spec_valid(),
                    decreases n - i,
                {
                    self.vec[i].ssz_append(buf);
                    proof {
                        assert(encodings(items.take(i + 1)) =~= encodings(items.take(i as int)).push(
                            items[i as int].spec_encoding(),
                        ));
                        encodings(items.take(i as int)).lemma_flatten_push(
                            items[i as int].spec_encoding(),
                        );
                    }
                    i = i + 1;
                }
                assert(items.take(n as int) =~= items);
            },
            None => {
                let mut parts: Vec<Vec<u8>> = Vec::new();
                let mut i: usize = 0;
                while i < n
                    invariant
                        T::spec_fixed_len() is None,
                        spec_list_encoding(items).len() <= MAX_LENGTH_VALUE,
                        items == self@,
                        n == items.len(),
                        i <= n,
                        byte_vecs_view(parts@) == encodings(items.take(i as int)),
                        forall|j: int| 0 <= j < i ==> (#[trigger] items[j]).spec_valid(),
                    decreases n - i,
                {
                    proof {
                        let p = encodings(items);
                        lemma_offsets_len(p, 4 * p.len());
                        p.lemma_flatten_length_ge_single_element_length(i as int);
                        p.lemma_flatten_and_flatten_alt_are_equivalent();
                    }
                    let mut part: Vec<u8> = Vec::new();
                    self.vec[i].ssz_append(&mut part);
                    assert(part@ =~= items[i as int].spec_encoding());
                    let ghost before = parts@;
                    parts.push(part);
                    proof {
                        assert(byte_vecs_view(parts@) =~= byte_vecs_view(before).push(part@));
                        assert(encodings(items.take(i + 1)) =~= encodings(items.take(i as int)).push(
                            items[i as int].spec_encoding(),
                        ));
                    }
                    i = i + 1;
                }
                assert(items.take(n as int) =~= items);
                ssz_append_byte_lists(&parts, buf);
            },
        }
        proof {
            if spec_list_encoding(items).len() <= MAX_LENGTH_VALUE {
                lemma_list_encoding_decodes(items, N);
            }
            assert forall|decoded: Seq<T>| #[trigger]
                list_decoded::<T>(spec_list_encoding(items), decoded) implies encodings(decoded)
                == encodings(items) by {
                lemma_list_decoded_same_encodings(items, decoded);
            }
        }
    }

    /// The SSZ encoding of the list.
    ///
    /// Round trip: the encoding decodes, under the list's own limit, to items with the same
    /// encodings as the list's, provided it is within `MAX_LENGTH_VALUE` bytes.
    pub fn as_ssz_bytes(&self) -> (bytes: Vec<u8>)
        requires
            T::spec_fixed_len() is None ==> spec_list_encoding(self@).len() <= MAX_LENGTH_VALUE,
        ensures
            bytes@ == spec_list_encoding(self@),
            bytes@.len() <= MAX_LENGTH_VALUE ==> list_decodes::<T>(bytes@, N),
            forall|decoded: Seq<T>| #[trigger]
                list_decoded::<T>(bytes@, decoded) ==> encodings(decoded) == encodings(self@),
    {
        let mut buf: Vec<u8> = Vec::new();
        self.ssz_append(&mut buf);
        assert(buf@ =~= spec_list_encoding(self@));
        buf
    }

    /// The length of the SSZ encoding of the list.
    pub fn ssz_bytes_len(&self) -> (len: usize)
        requires
            spec_list_encoding(self@).len() <= usize::MAX,
        ensures
            len == spec_list_encoding(self@).len(),
    {
        let n = self.vec.len();
        let ghost items = self@;
        match T::ssz_fixed_len() {
            Some(item_len) => {
                proof {
                    lemma_encodings_fixed(items, item_len);
                    lemma_flatten_fixed(encodings(items), item_len as nat);
                }
                item_len * n
            },
            None => {
                let ghost parts = encodings(items);
                proof {
                    lemma_offsets_len(parts, 4 * parts.len());
                    assert(parts =~= parts.take(n as int) + parts.skip(n as int));
                }
                let mut total: usize = 0;
                let mut i: usize = 0;
                while i < n
                    invariant
                        T::spec_fixed_len() is None,
                        items == self@,
                        parts == encodings(items),
                        n == items.len(),
                        i <= n,
                        total == parts.take(i as int).flatten().len(),
                        variable_layout(parts).len() <= usize::MAX,
                        variable_layout(parts).len() == 4 * n + parts.flatten().len(),
                    decreases n - i,
                {
                    proof {
                        assert(parts =~= parts.take(i + 1) + parts.skip(i + 1));
                        vstd::seq_lib::lemma_flatten_concat(parts.take(i + 1), parts.skip(i + 1));
                        assert(parts.take(i + 1) =~= parts.take(i as int).push(parts[i as int]));
                        parts.take(i as int).lemma_flatten_push(parts[i as int]);
                    }
                    let item_len = self.vec[i].ssz_bytes_len();
                    total = total + item_len;
                    i = i + 1;
                }
                assert(parts.take(n as int) =~= parts);
                total + BYTES_PER_LENGTH_OFFSET * n
            },
        }
    }
}

impl<T: SszElement, const M: usize> SszElement for ProgressiveVariableList<T, M> {
    open spec fn spec_fixed_len() -> Option<usize> {
        None
    }

    open spec fn spec_encoding(&self) -> Seq<u8> {
        spec_list_encoding::<T>(self@)
    }

    open spec fn spec_decodes(bytes: Seq<u8>) -> bool {
        list_decodes::<T>(bytes, M)
    }

    open spec fn spec_decoded(bytes: Seq<u8>, value: Self) -> bool {
        list_decoded::<T>(bytes, value@) && within_limit(value@.len(), M)
    }

    open spec fn spec_decode_error(bytes: Seq<u8>, e: SszError) -> bool {
        list_decode_error::<T>(bytes, M, e)
    }

    open spec fn spec_valid(&self) -> bool {
        &&& within_limit(self@.len(), M)
        &&& forall|i: int| 0 <= i < self@.len() ==> (#[trigger] self@[i]).spec_valid()
    }

    proof fn lemma_fixed_len(v: &Self) {
    }

    proof fn lemma_encoding_decodes(v: &Self) {
        lemma_list_encoding_decodes::<T>(v@, M);
    }

    proof fn lemma_decoded_encodes_back(bytes: Seq<u8>, v: Self) {
        lemma_list_decoded_encodes_back::<T>(bytes, v@);
    }

    fn ssz_fixed_len() -> (r: Option<usize>) {
        None
    }

    fn from_ssz_bytes(bytes: &[u8]) -> (r: Result<Self, SszError>) {
        ProgressiveVariableList::<T, M>::from_ssz_bytes(bytes)
    }

    fn ssz_append(&self, buf: &mut Vec<u8>) {
        proof {
            use_type_invariant(self);
        }
        ProgressiveVariableList::<T, M>::ssz_append(self, buf)
    }

    fn ssz_bytes_len(&self) -> (n: usize) {
        ProgressiveVariableList::<T, M>::ssz_bytes_len(self)
    }
}

} // verus!
