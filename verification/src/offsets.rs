//! The offsets of an SSZ list of variable-length items: how they are read and checked, and
//! how the items are cut out at them.

use vstd::prelude::*;
use vstd::arithmetic::power::pow;

use crate::error::SszError;
use crate::ssz_element::{
    le_bytes, le_value, lemma_le_bytes_of_value, lemma_le_value_of_bytes, lemma_offsets_len,
    offsets_from, variable_layout, SszElement, BYTES_PER_LENGTH_OFFSET, MAX_LENGTH_VALUE,
};

verus! {

/// The `i`-th four-byte offset at the front of `bytes`, read little-endian.
pub open spec fn offset_at(bytes: Seq<u8>, i: int) -> nat {
    le_value(bytes.subrange(4 * i, 4 * i + 4))
}

/// The first offset, which also marks where the offsets end.
pub open spec fn first_offset(bytes: Seq<u8>) -> nat {
    offset_at(bytes, 0)
}

/// True when the first offset can be read, lies within `bytes` and ends a whole, non-zero
/// number of offsets.
pub open spec fn header_ok(bytes: Seq<u8>) -> bool {
    &&& bytes.len() >= 4
    &&& first_offset(bytes) <= bytes.len()
    &&& first_offset(bytes) % 4 == 0
    &&& first_offset(bytes) >= 4
}

/// The number of items that the offsets announce.
pub open spec fn item_count(bytes: Seq<u8>) -> nat {
    first_offset(bytes) / 4
}

/// What the checks of offset `i` (`0 < i < item_count(bytes)`) report: `None` when it lies
/// between the end of the offsets and the end of the bytes and does not go back.
pub open spec fn offset_error(bytes: Seq<u8>, i: int) -> Option<SszError> {
    let o = offset_at(bytes, i);
    if o < first_offset(bytes) {
        Some(SszError::OffsetIntoFixedPortion(o as usize))
    } else if o > bytes.len() {
        Some(SszError::OffsetOutOfBounds(o as usize))
    } else if offset_at(bytes, i - 1) > o {
        Some(SszError::OffsetsAreDecreasing(o as usize))
    } else {
        None
    }
}

/// True when offsets `1..=j` all pass their checks.
pub open spec fn offsets_ok_through(bytes: Seq<u8>, j: int) -> bool {
    forall|i: int| 1 <= i <= j ==> (#[trigger] offset_error(bytes, i)) is None
}

/// Where item `j` ends: at the next offset, or at the end of `bytes` for the last item.
pub open spec fn part_end(bytes: Seq<u8>, j: int) -> nat {
    if j + 1 < item_count(bytes) {
        offset_at(bytes, j + 1)
    } else {
        bytes.len()
    }
}

/// The bytes of item `j`.
pub open spec fn part(bytes: Seq<u8>, j: int) -> Seq<u8> {
    bytes.subrange(offset_at(bytes, j) as int, part_end(bytes, j) as int)
}

/// True when decoding gets as far as item `j`: the offsets up to `j` pass and the items
/// before `j` decode.
pub open spec fn reaches_item<T: SszElement>(bytes: Seq<u8>, j: int) -> bool {
    &&& offsets_ok_through(bytes, j)
    &&& forall|k: int| 0 <= k < j ==> T::spec_decodes(#[trigger] part(bytes, k))
}

/// True when decoding stops at item `j`: the offset that ends it fails, or the item itself
/// does not decode.
pub open spec fn item_fails<T: SszElement>(bytes: Seq<u8>, j: int) -> bool {
    ||| j + 1 < item_count(bytes) && offset_error(bytes, j + 1) is Some
    ||| !T::spec_decodes(part(bytes, j))
}

/// True when `e` is what decoding reports when it stops at item `j`: the error of the offset
/// that ends the item if there is one, else the item's own error.
pub open spec fn fails_at_item<T: SszElement>(bytes: Seq<u8>, j: int, e: SszError) -> bool {
    if j + 1 < item_count(bytes) && offset_error(bytes, j + 1) is Some {
        e == offset_error(bytes, j + 1)->0
    } else {
        T::spec_decode_error(part(bytes, j), e)
    }
}

/// True when non-empty `bytes` decode as a list of variable-length `T` of at most `max_len`
/// items.
pub open spec fn variable_items_decode<T: SszElement>(
    bytes: Seq<u8>,
    max_len: Option<usize>,
) -> bool {
    &&& header_ok(bytes)
    &&& max_len matches Some(m) ==> item_count(bytes) <= m
    &&& offsets_ok_through(bytes, item_count(bytes) - 1)
    &&& forall|j: int| 0 <= j < item_count(bytes) ==> T::spec_decodes(#[trigger] part(bytes, j))
}

/// True when `items` are what non-empty `bytes` decode to as a list of variable-length `T`.
pub open spec fn variable_items_decoded<T: SszElement>(bytes: Seq<u8>, items: Seq<T>) -> bool {
    &&& header_ok(bytes)
    &&& items.len() == item_count(bytes)
    &&& offsets_ok_through(bytes, item_count(bytes) - 1)
    &&& forall|j: int|
        0 <= j < items.len() ==> T::spec_decoded(part(bytes, j), #[trigger] items[j])
}

/// True when `e` is the error that decoding non-empty `bytes` as a list of variable-length
/// `T` of at most `max_len` items reports: the checks come in the order of the bytes, and
/// the first that fails decides.
pub open spec fn variable_items_error<T: SszElement>(
    bytes: Seq<u8>,
    max_len: Option<usize>,
    e: SszError,
) -> bool {
    if bytes.len() < 4 {
        e == SszError::InvalidLengthPrefix { len: bytes.len() as usize, expected: 4 }
    } else if first_offset(bytes) > bytes.len() {
        e == SszError::OffsetOutOfBounds(first_offset(bytes) as usize)
    } else if !header_ok(bytes) {
        e == SszError::InvalidListFixedBytesLen(first_offset(bytes) as usize)
    } else if max_len is Some && item_count(bytes) > max_len->0 {
        e == SszError::TooManyVariableItems { items: item_count(bytes) as usize, max: max_len->0 }
    } else {
        forall|j: int|
            0 <= j < item_count(bytes) && #[trigger] reaches_item::<T>(bytes, j) && item_fails::<T>(
                bytes,
                j,
            ) ==> fails_at_item::<T>(bytes, j, e)
    }
}

/// What checking `offset` reports, given the offset before it (if any), the length of the
/// encoding and the number of bytes before the variable part (if known).
pub open spec fn spec_sanitize_offset(
    offset: usize,
    previous_offset: Option<usize>,
    num_bytes: usize,
    num_fixed_bytes: Option<usize>,
) -> Result<usize, SszError> {
    if num_fixed_bytes is Some && offset < num_fixed_bytes->0 {
        Err(SszError::OffsetIntoFixedPortion(offset))
    } else if previous_offset is None && num_fixed_bytes is Some && offset != num_fixed_bytes->0 {
        Err(SszError::OffsetSkipsVariableBytes(offset))
    } else if offset > num_bytes {
        Err(SszError::OffsetOutOfBounds(offset))
    } else if previous_offset is Some && previous_offset->0 > offset {
        Err(SszError::OffsetsAreDecreasing(offset))
    } else {
        Ok(offset)
    }
}

/// Checks `offset`, in this order: it does not point into the fixed part, a first offset
/// points exactly at its end, it stays within the encoding, and it does not go below the
/// offset before it. These are the checks the `ssz` crate makes of the offsets it reads.
pub fn sanitize_offset(
    offset: usize,
    previous_offset: Option<usize>,
    num_bytes: usize,
    num_fixed_bytes: Option<usize>,
) -> (r: Result<usize, SszError>)
    ensures
        r == spec_sanitize_offset(offset, previous_offset, num_bytes, num_fixed_bytes),
{
    if let Some(fixed) = num_fixed_bytes {
        if offset < fixed {
            return Err(SszError::OffsetIntoFixedPortion(offset));
        }
        if previous_offset.is_none() && offset != fixed {
            return Err(SszError::OffsetSkipsVariableBytes(offset));
        }
    }
    if offset > num_bytes {
        return Err(SszError::OffsetOutOfBounds(offset));
    }
    if let Some(prev) = previous_offset {
        if prev > offset {
            return Err(SszError::OffsetsAreDecreasing(offset));
        }
    }
    Ok(offset)
}

/// Calls `ssz::read_offset`, which reads the first four bytes as a little-endian offset and
/// fails when there are fewer than four, reporting the length it got and the four it
/// expected.
#[verifier::external_body]
fn ssz_read_offset(bytes: &[u8]) -> (r: Result<usize, SszError>)
    ensures
        r is Ok <==> bytes@.len() >= 4,
        r matches Ok(o) ==> o as nat == le_value(bytes@.subrange(0, 4)),
        r matches Err(e) ==> e == (SszError::InvalidLengthPrefix {
            len: bytes@.len() as usize,
            expected: 4,
        }),
{
    match ssz::read_offset(bytes) {
        Ok(o) => Ok(o),
        Err(ssz::DecodeError::InvalidLengthPrefix { len, expected }) => {
            Err(SszError::InvalidLengthPrefix { len, expected })
        },
        Err(e) => Err(SszError::Ssz(e)),
    }
}

/// Decodes non-empty `bytes` as a list of variable-length items of at most `max_len` items.
///
/// The first offset is read and checked, then the limit; then item by item the offset that
/// ends the item is read and checked and the item is decoded, so that the first failure in
/// the order of the bytes is the one reported.
///
/// `ssz::decode_list_of_variable_length_items` takes the same steps for items that implement
/// `ssz::Decode`. The items here are decoded by `SszElement`, and a verified type cannot
/// implement `ssz::Decode` (Verus does not take an outside crate's trait as a bound), so the
/// steps are taken here, with `ssz::read_offset` reading each offset.
pub(crate) fn decode_variable_items<T: SszElement>(bytes: &[u8], max_len: Option<usize>) -> (r: Result<
    Vec<T>,
    SszError,
>)
    requires
        0 < bytes@.len() <= MAX_LENGTH_VALUE,
    ensures
        r is Ok <==> variable_items_decode::<T>(bytes@, max_len),
        r matches Ok(items) ==> variable_items_decoded::<T>(bytes@, items@) && (forall|j: int|
            0 <= j < items@.len() ==> (#[trigger] items@[j]).spec_valid()),
        r matches Err(e) ==> variable_items_error::<T>(bytes@, max_len, e),
{
    let ghost b = bytes@;
    let len = bytes.len();
    let first = match ssz_read_offset(bytes) {
        Ok(o) => o,
        Err(e) => {
            return Err(e);
        },
    };
    assert(first == first_offset(b));
    match sanitize_offset(first, None, len, Some(first)) {
        Ok(_) => {},
        Err(e) => {
            return Err(e);
        },
    }
    if first % BYTES_PER_LENGTH_OFFSET != 0 || first < BYTES_PER_LENGTH_OFFSET {
        return Err(SszError::InvalidListFixedBytesLen(first));
    }
    let num_items = first / BYTES_PER_LENGTH_OFFSET;
    if let Some(max) = max_len {
        if num_items > max {
            return Err(SszError::TooManyVariableItems { items: num_items, max });
        }
    }
    let mut items: Vec<T> = Vec::new();
    let mut offset = first;
    let mut i: usize = 1;
    while i <= num_items
        invariant
            b == bytes@,
            len == b.len(),
            0 < len <= MAX_LENGTH_VALUE,
            header_ok(b),
            first == first_offset(b),
            num_items == item_count(b),
            num_items * 4 == first,
            max_len matches Some(m) ==> num_items <= m,
            1 <= i <= num_items + 1,
            i <= num_items ==> offset == offset_at(b, i - 1),
            first <= offset <= len,
            forall|k: int| 1 <= k < i && k < num_items ==> (#[trigger] offset_error(b, k)) is None,
            items@.len() == i - 1,
            forall|k: int| 0 <= k < i - 1 ==> T::spec_decodes(#[trigger] part(b, k)),
            forall|k: int|
                0 <= k < i - 1 ==> T::spec_decoded(part(b, k), #[trigger] items@[k])
                    && items@[k].spec_valid(),
        decreases num_items + 1 - i,
    {
        let ghost j = i - 1;
        assert(reaches_item::<T>(b, j));
        let start = offset;
        let end = if i < num_items {
            let pos = i * BYTES_PER_LENGTH_OFFSET;
            let rest = &bytes[pos..len];
            assert(rest@.subrange(0, 4) =~= b.subrange(4 * i, 4 * i + 4));
            let next = match ssz_read_offset(rest) {
                Ok(o) => o,
                Err(e) => {
                    return Err(e);
                },
            };
            match sanitize_offset(next, Some(offset), len, Some(first)) {
                Ok(o) => o,
                Err(e) => {
                    assert(offset_error(b, i as int) == Some(e));
                    assert(item_fails::<T>(b, j));
                    assert(fails_at_item::<T>(b, j, e));
                    assert(!offsets_ok_through(b, item_count(b) - 1));
                    return Err(e);
                },
            }
        } else {
            len
        };
        assert(i < num_items ==> offset_error(b, i as int) is None);
        let piece = &bytes[start..end];
        assert(piece@ =~= part(b, j));
        match T::from_ssz_bytes(piece) {
            Ok(v) => {
                items.push(v);
            },
            Err(e) => {
                assert(item_fails::<T>(b, j));
                assert(fails_at_item::<T>(b, j, e));
                assert(!T::spec_decodes(part(b, j)));
                return Err(e);
            },
        }
        offset = end;
        i = i + 1;
    }
    Ok(items)
}

/// `256^4` is `2^32`.
pub proof fn lemma_pow_256_4()
    ensures
        pow(256, 4) == 0x1_0000_0000int,
{
    reveal(pow);
    reveal_with_fuel(pow, 5);
}

/// The bytes of the parts before part `j`, and those up to part `j`, differ by part `j`; and
/// part `j` lies between them in the flattening.
pub proof fn lemma_flatten_prefix(parts: Seq<Seq<u8>>, j: int)
    requires
        0 <= j < parts.len(),
    ensures
        parts.take(j + 1).flatten().len() == parts.take(j).flatten().len() + parts[j].len(),
        parts.take(j + 1).flatten().len() <= parts.flatten().len(),
        parts.flatten().subrange(
            parts.take(j).flatten().len() as int,
            parts.take(j + 1).flatten().len() as int,
        ) == parts[j],
{
    assert(parts.take(j + 1) =~= parts.take(j).push(parts[j]));
    parts.take(j).lemma_flatten_push(parts[j]);
    assert(parts =~= parts.take(j + 1) + parts.skip(j + 1));
    vstd::seq_lib::lemma_flatten_concat(parts.take(j + 1), parts.skip(j + 1));
    let f = parts.flatten();
    let a = parts.take(j).flatten();
    assert(f == a + parts[j] + parts.skip(j + 1).flatten());
    assert(f.subrange(a.len() as int, (a.len() + parts[j].len()) as int) =~= parts[j]);
}

/// In the offsets written from `start`, offset `i` is `start` plus the length of the parts
/// before part `i`.
pub proof fn lemma_offsets_from_at(parts: Seq<Seq<u8>>, start: nat, i: int)
    requires
        0 <= i < parts.len(),
    ensures
        offsets_from(parts, start).subrange(4 * i, 4 * i + 4) == le_bytes(
            start + parts.take(i).flatten().len(),
            4,
        ),
    decreases parts.len(),
{
    let rest = parts.drop_first();
    let next = start + parts[0].len();
    lemma_le_value_of_bytes(start, 4);
    lemma_offsets_len(rest, next);
    let offs = offsets_from(parts, start);
    assert(offs == le_bytes(start, 4) + offsets_from(rest, next));
    if i == 0 {
        assert(parts.take(0) =~= Seq::<Seq<u8>>::empty());
        assert(offs.subrange(0, 4) =~= le_bytes(start, 4));
    } else {
        lemma_offsets_from_at(rest, next, i - 1);
        assert(offs.subrange(4 * i, 4 * i + 4) =~= offsets_from(rest, next).subrange(
            4 * (i - 1),
            4 * (i - 1) + 4,
        ));
        assert(parts.take(i).drop_first() =~= rest.take(i - 1));
        assert(parts.take(i).flatten() == parts.take(i)[0] + parts.take(i).drop_first().flatten());
    }
}

/// The bytes of the items cut out at the offsets of `bytes`.
pub open spec fn parts_of(bytes: Seq<u8>) -> Seq<Seq<u8>> {
    Seq::new(item_count(bytes), |j: int| part(bytes, j))
}

/// Where item `j` starts, for `j <= item_count(bytes)`: at offset `j`, or at the end of the
/// bytes for `j == item_count(bytes)`.
pub open spec fn item_start(bytes: Seq<u8>, j: int) -> nat {
    if j < item_count(bytes) {
        offset_at(bytes, j)
    } else {
        bytes.len()
    }
}

/// With offsets that pass their checks, the items before item `j` are the bytes from the end
/// of the offsets to the start of item `j`, and the starts never go back.
pub proof fn lemma_parts_prefix(bytes: Seq<u8>, j: int)
    requires
        header_ok(bytes),
        offsets_ok_through(bytes, item_count(bytes) - 1),
        0 <= j <= item_count(bytes),
    ensures
        first_offset(bytes) <= item_start(bytes, j) <= bytes.len(),
        parts_of(bytes).take(j).flatten() == bytes.subrange(
            first_offset(bytes) as int,
            item_start(bytes, j) as int,
        ),
    decreases j,
{
    let n = item_count(bytes);
    let parts = parts_of(bytes);
    if j == 0 {
        assert(parts.take(0) =~= Seq::<Seq<u8>>::empty());
        assert(bytes.subrange(first_offset(bytes) as int, first_offset(bytes) as int) =~= Seq::<
            u8,
        >::empty());
    } else {
        lemma_parts_prefix(bytes, j - 1);
        if j < n {
            assert(offset_error(bytes, j) is None);
        }
        assert(part_end(bytes, j - 1) == item_start(bytes, j));
        assert(parts.take(j) =~= parts.take(j - 1).push(parts[j - 1]));
        parts.take(j - 1).lemma_flatten_push(parts[j - 1]);
        assert(parts.take(j).flatten() =~= bytes.subrange(
            first_offset(bytes) as int,
            item_start(bytes, j) as int,
        ));
    }
}

/// Bytes whose offsets pass their checks are the layout of the items cut out at them.
pub proof fn lemma_parts_layout(bytes: Seq<u8>)
    requires
        header_ok(bytes),
        offsets_ok_through(bytes, item_count(bytes) - 1),
    ensures
        variable_layout(parts_of(bytes)) == bytes,
{
    let n = item_count(bytes);
    let parts = parts_of(bytes);
    let first = first_offset(bytes);
    lemma_parts_prefix(bytes, n as int);
    assert(parts.take(n as int) =~= parts);
    let offs = offsets_from(parts, 4 * n);
    lemma_offsets_len(parts, 4 * n);
    assert forall|i: int| 0 <= i < n implies #[trigger] offs.subrange(4 * i, 4 * i + 4)
        == bytes.subrange(4 * i, 4 * i + 4) by {
        lemma_offsets_from_at(parts, 4 * n, i);
        lemma_parts_prefix(bytes, i);
        lemma_flatten_prefix(parts, i);
        lemma_le_bytes_of_value(bytes.subrange(4 * i, 4 * i + 4));
    }
    assert forall|k: int| 0 <= k < 4 * n implies #[trigger] offs[k] == bytes[k] by {
        let i = k / 4;
        assert(0 <= i < n && 4 * i <= k < 4 * i + 4);
        assert(offs.subrange(4 * i, 4 * i + 4)[k - 4 * i] == bytes.subrange(4 * i, 4 * i + 4)[k
            - 4 * i]);
    }
    assert(offs =~= bytes.subrange(0, first as int));
    assert(variable_layout(parts) =~= bytes);
}

/// The SSZ layout of non-empty parts reads back as those parts: the first offset ends the
/// offsets, every offset passes its checks, and each part lies between its offsets.
pub proof fn lemma_layout_reads_back(parts: Seq<Seq<u8>>)
    requires
        parts.len() > 0,
        variable_layout(parts).len() <= MAX_LENGTH_VALUE,
    ensures
        header_ok(variable_layout(parts)),
        item_count(variable_layout(parts)) == parts.len(),
        offsets_ok_through(variable_layout(parts), parts.len() - 1),
        forall|j: int| 0 <= j < parts.len() ==> #[trigger] part(variable_layout(parts), j) == parts[j],
{
    let n = parts.len();
    let bytes = variable_layout(parts);
    let offs = offsets_from(parts, 4 * n);
    let f = parts.flatten();
    lemma_offsets_len(parts, 4 * n);
    lemma_pow_256_4();
    assert(parts.take(n as int) =~= parts);
    assert forall|i: int| 0 <= i < n implies #[trigger] offset_at(bytes, i) == 4 * n
        + parts.take(i).flatten().len() by {
        lemma_offsets_from_at(parts, 4 * n, i);
        lemma_flatten_prefix(parts, i);
        let v = 4 * n + parts.take(i).flatten().len();
        lemma_le_value_of_bytes(v, 4);
        assert(bytes.subrange(4 * i, 4 * i + 4) =~= offs.subrange(4 * i, 4 * i + 4));
    }
    assert(parts.take(0) =~= Seq::<Seq<u8>>::empty());
    assert(offset_at(bytes, 0) == 4 * n);
    assert(item_count(bytes) == n);
    assert forall|i: int| 1 <= i <= n - 1 implies (#[trigger] offset_error(bytes, i)) is None by {
        lemma_flatten_prefix(parts, i - 1);
        lemma_flatten_prefix(parts, i);
    }
    assert forall|j: int| 0 <= j < n implies #[trigger] part(bytes, j) == parts[j] by {
        lemma_flatten_prefix(parts, j);
        let a = parts.take(j).flatten().len();
        let c = parts.take(j + 1).flatten().len();
        if j + 1 < n {
            assert(part_end(bytes, j) == 4 * n + c);
        } else {
            assert(parts.take(j + 1) =~= parts);
        }
        assert(part(bytes, j) =~= f.subrange(a as int, c as int));
    }
}

} // verus!
