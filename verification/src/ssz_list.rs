//! The SSZ encoding of a whole list, and the round-trip laws of encoding and decoding.

use vstd::prelude::*;

use crate::offsets::{
    lemma_layout_reads_back, lemma_parts_layout, part, parts_of, variable_items_decode,
    variable_items_decoded, variable_items_error,
};
use crate::progressive_variable_list::{spec_max_len, within_limit, ProgressiveVariableList};
use crate::error::SszError;
use crate::ssz_element::{
    chunk, lemma_chunks_flatten, lemma_flatten_fixed, lemma_le_value_of_bytes, lemma_offsets_len,
    lemma_pow_256_8, variable_layout, SszElement, MAX_LENGTH_VALUE,
};

verus! {

/// The encodings of `items`, one per item.
pub open spec fn encodings<T: SszElement>(items: Seq<T>) -> Seq<Seq<u8>> {
    items.map_values(|x: T| x.spec_encoding())
}

/// The SSZ encoding of a list holding `items`: the item encodings one after the other for a
/// fixed-length item type, and with a four-byte offset per item in front otherwise.
pub open spec fn spec_list_encoding<T: SszElement>(items: Seq<T>) -> Seq<u8> {
    if T::spec_fixed_len() is Some {
        encodings(items).flatten()
    } else {
        variable_layout(encodings(items))
    }
}

/// True when `bytes` decode to a list of `T` with limit `max`.
pub open spec fn list_decodes<T: SszElement>(bytes: Seq<u8>, max: usize) -> bool {
    &&& bytes.len() <= MAX_LENGTH_VALUE
    &&& bytes.len() > 0 ==> match T::spec_fixed_len() {
        Some(k) => {
            &&& k > 0
            &&& within_limit(bytes.len() / (k as nat), max)
            &&& bytes.len() % (k as nat) == 0
            &&& forall|i: int|
                0 <= i < bytes.len() / (k as nat) ==> T::spec_decodes(
                    #[trigger] chunk(bytes, k as nat, i),
                )
        },
        None => variable_items_decode::<T>(bytes, spec_max_len(max)),
    }
}

/// True when `items` are what decoding `bytes` as a list of `T` yields.
pub open spec fn list_decoded<T: SszElement>(bytes: Seq<u8>, items: Seq<T>) -> bool {
    if bytes.len() == 0 {
        items.len() == 0
    } else {
        match T::spec_fixed_len() {
            Some(k) => {
                &&& k > 0
                &&& bytes.len() % (k as nat) == 0
                &&& items.len() == bytes.len() / (k as nat)
                &&& forall|i: int|
                    0 <= i < items.len() ==> T::spec_decoded(
                        chunk(bytes, k as nat, i),
                        #[trigger] items[i],
                    )
            },
            None => variable_items_decoded::<T>(bytes, items),
        }
    }
}

/// True when `e` is the error that decoding `bytes` as a list of `T` with limit `max`
/// reports, given that it fails: the length is checked first; then, for fixed-length items,
/// the item length, the limit and whether the bytes split evenly, and then the items in
/// order; for variable-length items the offsets and items in the order of the bytes.
pub open spec fn list_decode_error<T: SszElement>(bytes: Seq<u8>, max: usize, e: SszError) -> bool {
    if bytes.len() > MAX_LENGTH_VALUE {
        e == SszError::EncodingTooLong { len: bytes.len() as usize }
    } else {
        match T::spec_fixed_len() {
            Some(k) => {
                if k == 0 {
                    e == SszError::ZeroLengthItem
                } else if !within_limit(bytes.len() / (k as nat), max) {
                    e == SszError::TooManyItems {
                        items: (bytes.len() / (k as nat)) as usize,
                        max: max,
                    }
                } else if bytes.len() % (k as nat) != 0 {
                    e == SszError::UnevenLength { len: bytes.len() as usize, item_len: k }
                } else {
                    forall|j: int|
                        0 <= j < bytes.len() / (k as nat) && (forall|i: int|
                            0 <= i < j ==> T::spec_decodes(#[trigger] chunk(bytes, k as nat, i)))
                            && !T::spec_decodes(#[trigger] chunk(bytes, k as nat, j))
                            ==> T::spec_decode_error(chunk(bytes, k as nat, j), e)
                }
            },
            None => variable_items_error::<T>(bytes, spec_max_len(max), e),
        }
    }
}

/// The encodings of items of a fixed-length type all have that length.
pub proof fn lemma_encodings_fixed<T: SszElement>(items: Seq<T>, k: usize)
    requires
        T::spec_fixed_len() == Some(k),
    ensures
        k > 0,
        encodings(items).len() == items.len(),
        forall|i: int| 0 <= i < items.len() ==> (#[trigger] encodings(items)[i]).len() == k,
{
    assert forall|i: int| 0 <= i < items.len() implies (#[trigger] encodings(items)[i]).len()
        == k by {
        T::lemma_fixed_len(&items[i]);
    }
    if items.len() == 0 {
        T::lemma_fixed_len(&arbitrary());
    } else {
        T::lemma_fixed_len(&items[0]);
    }
}

/// The encoding of a valid list of items within the limit decodes, if it is within
/// `MAX_LENGTH_VALUE` bytes.
pub proof fn lemma_list_encoding_decodes<T: SszElement>(items: Seq<T>, max: usize)
    requires
        within_limit(items.len(), max),
        forall|i: int| 0 <= i < items.len() ==> (#[trigger] items[i]).spec_valid(),
        spec_list_encoding(items).len() <= MAX_LENGTH_VALUE,
    ensures
        list_decodes::<T>(spec_list_encoding(items), max),
{
    if T::spec_fixed_len() is None {
        lemma_variable_encoding_decodes(items, max);
    } else {
        let k = T::spec_fixed_len()->0;
        let n = items.len();
        let parts = encodings(items);
        let bytes = spec_list_encoding(items);
        lemma_encodings_fixed(items, k);
        lemma_flatten_fixed(parts, k as nat);
        if n > 0 {
            assert(bytes.len() / (k as nat) == n && bytes.len() % (k as nat) == 0) by {
                vstd::arithmetic::div_mod::lemma_fundamental_div_mod_converse(
                    bytes.len() as int,
                    k as int,
                    n as int,
                    0,
                );
            }
            assert forall|i: int| 0 <= i < bytes.len() / (k as nat) implies T::spec_decodes(
                #[trigger] chunk(bytes, k as nat, i),
            ) by {
                assert(chunk(bytes, k as nat, i) == parts[i]);
                assert(k <= bytes.len()) by (nonlinear_arith)
                    requires
                        bytes.len() == n * k,
                        n > 0,
                ;
                T::lemma_encoding_decodes(&items[i]);
            }
        }
    }
}

/// The encoding of a valid list of variable-length items within the limit decodes, if it
/// is within `MAX_LENGTH_VALUE` bytes.
proof fn lemma_variable_encoding_decodes<T: SszElement>(items: Seq<T>, max: usize)
    requires
        T::spec_fixed_len() is None,
        within_limit(items.len(), max),
        forall|i: int| 0 <= i < items.len() ==> (#[trigger] items[i]).spec_valid(),
        spec_list_encoding(items).len() <= MAX_LENGTH_VALUE,
    ensures
        list_decodes::<T>(spec_list_encoding(items), max),
{
    let p = encodings(items);
    let bytes = spec_list_encoding(items);
    lemma_offsets_len(p, 4 * p.len());
    if p.len() > 0 {
        lemma_layout_reads_back(p);
        assert forall|i: int| 0 <= i < p.len() implies T::spec_decodes(#[trigger] part(bytes, i)) by {
            p.lemma_flatten_length_ge_single_element_length(i);
            p.lemma_flatten_and_flatten_alt_are_equivalent();
            assert(p[i] == items[i].spec_encoding());
            T::lemma_encoding_decodes(&items[i]);
        }
    }
}

/// What a list decodes to encodes back to the bytes it came from, and its items are valid.
pub proof fn lemma_list_decoded_encodes_back<T: SszElement>(bytes: Seq<u8>, items: Seq<T>)
    requires
        list_decoded::<T>(bytes, items),
    ensures
        spec_list_encoding(items) == bytes,
        forall|i: int| 0 <= i < items.len() ==> (#[trigger] items[i]).spec_valid(),
{
    if T::spec_fixed_len() is None {
        if bytes.len() == 0 {
            assert(encodings(items) =~= Seq::<Seq<u8>>::empty());
            lemma_offsets_len(encodings(items), 0);
            assert(spec_list_encoding(items) =~= bytes);
        } else {
            assert forall|j: int|
                #![trigger items[j]]
                #![trigger encodings(items)[j]]
                0 <= j < items.len() implies encodings(items)[j] == parts_of(bytes)[j]
                    && items[j].spec_valid() by {
                T::lemma_decoded_encodes_back(part(bytes, j), items[j]);
            }
            assert(encodings(items) =~= parts_of(bytes));
            lemma_parts_layout(bytes);
        }
    } else {
        let k = T::spec_fixed_len()->0;
        lemma_encodings_fixed(items, k);
        if bytes.len() == 0 {
            assert(encodings(items) =~= Seq::<Seq<u8>>::empty());
            assert(encodings(items).flatten() =~= bytes);
        } else {
            let n = items.len();
            let chunks = Seq::new(n, |i: int| chunk(bytes, k as nat, i));
            assert forall|i: int|
                #![trigger items[i]]
                #![trigger encodings(items)[i]]
                0 <= i < n implies encodings(items)[i] == chunks[i] && items[i].spec_valid() by {
                T::lemma_decoded_encodes_back(chunk(bytes, k as nat, i), items[i]);
            }
            assert(encodings(items) =~= chunks);
            vstd::arithmetic::div_mod::lemma_fundamental_div_mod(bytes.len() as int, k as int);
            assert(bytes.len() == n * k) by (nonlinear_arith)
                requires
                    bytes.len() == k * (bytes.len() / (k as nat)) + bytes.len() % (k as nat),
                    bytes.len() % (k as nat) == 0,
                    n == bytes.len() / (k as nat),
            ;
            lemma_chunks_flatten(bytes, k as nat, n);
        }
    }
}

/// What the encoding of a list decodes to has, item for item, the same encodings as the
/// list, provided that for variable-length items the encoding is within `MAX_LENGTH_VALUE`
/// bytes (longer offsets do not fit their four bytes).
pub proof fn lemma_list_decoded_same_encodings<T: SszElement>(items: Seq<T>, decoded: Seq<T>)
    requires
        T::spec_fixed_len() is None ==> spec_list_encoding(items).len() <= MAX_LENGTH_VALUE,
        list_decoded::<T>(spec_list_encoding(items), decoded),
    ensures
        encodings(decoded) == encodings(items),
{
    if T::spec_fixed_len() is None {
        let p = encodings(items);
        let bytes = spec_list_encoding(items);
        lemma_offsets_len(p, 4 * p.len());
        if p.len() == 0 {
            assert(encodings(decoded) =~= encodings(items));
        } else {
            lemma_layout_reads_back(p);
            assert forall|i: int| 0 <= i < decoded.len() implies #[trigger] encodings(decoded)[i]
                == p[i] by {
                T::lemma_decoded_encodes_back(part(bytes, i), decoded[i]);
            }
            assert(encodings(decoded) =~= encodings(items));
        }
    } else {
        let k = T::spec_fixed_len()->0;
        lemma_list_decoded_encodes_back(spec_list_encoding(items), decoded);
        lemma_encodings_fixed(items, k);
        lemma_encodings_fixed(decoded, k);
        lemma_flatten_fixed(encodings(items), k as nat);
        lemma_flatten_fixed(encodings(decoded), k as nat);
        assert(decoded.len() == items.len()) by (nonlinear_arith)
            requires
                decoded.len() * k == items.len() * k,
                k > 0,
        ;
        assert forall|i: int| 0 <= i < items.len() implies #[trigger] encodings(decoded)[i]
            == encodings(items)[i] by {
            assert(chunk(encodings(decoded).flatten(), k as nat, i) == encodings(decoded)[i]);
            assert(chunk(encodings(items).flatten(), k as nat, i) == encodings(items)[i]);
        }
        assert(encodings(decoded) =~= encodings(items));
    }
}

/// Round trip: decoding the encoding of a valid list of items within the limit succeeds, if
/// the encoding is within `MAX_LENGTH_VALUE` bytes, and gives back items with the same
/// encodings, one for one.
pub proof fn lemma_ssz_round_trip<T: SszElement>(items: Seq<T>, max: usize, decoded: Seq<T>)
    requires
        within_limit(items.len(), max),
        forall|i: int| 0 <= i < items.len() ==> (#[trigger] items[i]).spec_valid(),
        spec_list_encoding(items).len() <= MAX_LENGTH_VALUE,
    ensures
        list_decodes::<T>(spec_list_encoding(items), max),
        list_decoded::<T>(spec_list_encoding(items), decoded) ==> encodings(decoded)
            == encodings(items),
{
    lemma_list_encoding_decodes(items, max);
    if list_decoded::<T>(spec_list_encoding(items), decoded) {
        lemma_list_decoded_same_encodings(items, decoded);
    }
}

/// Round trip for lists of bytes: decoding the encoding gives back exactly the same bytes.
pub proof fn lemma_ssz_round_trip_u8(items: Seq<u8>, max: usize, decoded: Seq<u8>)
    requires
        within_limit(items.len(), max),
        spec_list_encoding(items).len() <= MAX_LENGTH_VALUE,
    ensures
        list_decodes::<u8>(spec_list_encoding(items), max),
        list_decoded::<u8>(spec_list_encoding(items), decoded) ==> decoded == items,
{
    lemma_ssz_round_trip(items, max, decoded);
    if list_decoded::<u8>(spec_list_encoding(items), decoded) {
        assert forall|i: int| 0 <= i < items.len() implies #[trigger] decoded[i] == items[i] by {
            assert(encodings(decoded)[i] == encodings(items)[i]);
            lemma_le_value_of_bytes(decoded[i] as nat, 1);
            lemma_le_value_of_bytes(items[i] as nat, 1);
            vstd::arithmetic::power::lemma_pow1(256);
        }
        assert(decoded =~= items);
    }
}

/// Round trip for lists of `u64`: decoding the encoding gives back exactly the same numbers.
pub proof fn lemma_ssz_round_trip_u64(items: Seq<u64>, max: usize, decoded: Seq<u64>)
    requires
        within_limit(items.len(), max),
        spec_list_encoding(items).len() <= MAX_LENGTH_VALUE,
    ensures
        list_decodes::<u64>(spec_list_encoding(items), max),
        list_decoded::<u64>(spec_list_encoding(items), decoded) ==> decoded == items,
{
    lemma_ssz_round_trip(items, max, decoded);
    if list_decoded::<u64>(spec_list_encoding(items), decoded) {
        assert forall|i: int| 0 <= i < items.len() implies #[trigger] decoded[i] == items[i] by {
            assert(encodings(decoded)[i] == encodings(items)[i]);
            lemma_le_value_of_bytes(decoded[i] as nat, 8);
            lemma_le_value_of_bytes(items[i] as nat, 8);
            lemma_pow_256_8();
        }
        assert(decoded =~= items);
    }
}

/// Byte lists with the same encodings hold the same bytes, one for one.
pub proof fn lemma_byte_lists_same_encodings<const M: usize>(
    a: Seq<ProgressiveVariableList<u8, M>>,
    b: Seq<ProgressiveVariableList<u8, M>>,
)
    requires
        encodings(a) == encodings(b),
    ensures
        a.len() == b.len(),
        forall|i: int| 0 <= i < a.len() ==> (#[trigger] a[i])@ == b[i]@,
{
    assert(encodings(a).len() == a.len() && encodings(b).len() == b.len());
    assert forall|i: int| 0 <= i < a.len() implies (#[trigger] a[i])@ == b[i]@ by {
        assert(encodings(a)[i] == encodings(b)[i]);
        lemma_byte_list_encoding(a[i]@);
        lemma_byte_list_encoding(b[i]@);
    }
}

/// A list of bytes encodes as the bytes themselves.
pub proof fn lemma_byte_list_encoding(items: Seq<u8>)
    ensures
        spec_list_encoding(items) == items,
    decreases items.len(),
{
    if items.len() > 0 {
        lemma_byte_list_encoding(items.drop_first());
        assert(encodings(items).drop_first() =~= encodings(items.drop_first()));
        lemma_le_value_of_bytes(items[0] as nat, 1);
        assert(encodings(items)[0] =~= seq![items[0]]);
        assert(encodings(items).flatten() == encodings(items)[0] + encodings(
            items,
        ).drop_first().flatten());
        assert(spec_list_encoding(items) =~= items);
    } else {
        assert(encodings(items) =~= Seq::<Seq<u8>>::empty());
    }
}

/// The limit does not change the encoding: lists with the same items encode alike whatever
/// their limits.
pub proof fn lemma_limit_does_not_change_encoding<T: SszElement, const N1: usize, const N2: usize>(
    a: ProgressiveVariableList<T, N1>,
    b: ProgressiveVariableList<T, N2>,
)
    requires
        a@ == b@,
    ensures
        spec_list_encoding(a@) == spec_list_encoding(b@),
{
}

} // verus!
