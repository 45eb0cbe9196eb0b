//! SSZ encodings of the values a list can hold, and the byte-level facts they rest on.

use vstd::prelude::*;
use vstd::arithmetic::power::pow;

use crate::error::SszError;

verus! {

/// The largest length an SSZ encoding may have: offsets are four bytes wide.
pub const MAX_LENGTH_VALUE: usize = 4294967295;

/// The width of an offset in the encoding of a list of variable-length items.
pub const BYTES_PER_LENGTH_OFFSET: usize = 4;

/// The unsigned number that `bytes` encode, least significant byte first.
pub open spec fn le_value(bytes: Seq<u8>) -> nat
    decreases bytes.len(),
{
    if bytes.len() == 0 {
        0
    } else {
        bytes[0] as nat + 256 * le_value(bytes.drop_first())
    }
}

/// The `n` least significant bytes of `v`, least significant first.
pub open spec fn le_bytes(v: nat, n: nat) -> Seq<u8>
    decreases n,
{
    if n == 0 {
        Seq::empty()
    } else {
        seq![(v % 256) as u8] + le_bytes(v / 256, (n - 1) as nat)
    }
}

/// Reading back `n` bytes written from `v` gives `v` modulo `256^n`.
pub proof fn lemma_le_value_of_bytes(v: nat, n: nat)
    ensures
        le_bytes(v, n).len() == n,
        le_value(le_bytes(v, n)) == v % pow(256, n) as nat,
    decreases n,
{
    vstd::arithmetic::power::lemma_pow_positive(256, n);
    reveal(pow);
    if n == 0 {
        assert(pow(256, 0) == 1);
        assert(v % 1 == 0);
    } else {
        let m = (n - 1) as nat;
        lemma_le_value_of_bytes(v / 256, m);
        vstd::arithmetic::power::lemma_pow_positive(256, m);
        let p = pow(256, m);
        let bs = le_bytes(v, n);
        assert(bs.drop_first() =~= le_bytes(v / 256, m));
        assert(bs[0] as nat == v % 256);
        assert(le_value(bs) == v % 256 + 256 * ((v / 256) % (p as nat)));
        vstd::arithmetic::div_mod::lemma_mod_breakdown(v as int, 256, p);
        assert(pow(256, n) == 256 * p);
    }
}

/// Writing back the number that `bytes` encode gives `bytes` again.
pub proof fn lemma_le_bytes_of_value(bytes: Seq<u8>)
    ensures
        le_value(bytes) < pow(256, bytes.len()),
        le_bytes(le_value(bytes), bytes.len()) == bytes,
    decreases bytes.len(),
{
    reveal(pow);
    if bytes.len() > 0 {
        let rest = bytes.drop_first();
        lemma_le_bytes_of_value(rest);
        let r = le_value(rest);
        let b0 = bytes[0] as nat;
        let p = pow(256, rest.len());
        reveal(pow);
        assert(pow(256, bytes.len()) == 256 * p);
        assert(b0 + 256 * r < 256 * p) by (nonlinear_arith)
            requires
                b0 < 256,
                r < p,
        ;
        vstd::arithmetic::div_mod::lemma_fundamental_div_mod_converse(
            (b0 + 256 * r) as int,
            256,
            r as int,
            b0 as int,
        );
        assert(le_bytes(le_value(bytes), bytes.len()) =~= bytes);
    }
}

/// `256^8` is `2^64`.
pub proof fn lemma_pow_256_8()
    ensures
        pow(256, 8) == 0x1_0000_0000_0000_0000int,
{
    reveal(pow);
    reveal_with_fuel(pow, 9);
}

/// The encoding of the offsets of `parts`, the first part starting at byte `start`.
pub open spec fn offsets_from(parts: Seq<Seq<u8>>, start: nat) -> Seq<u8>
    decreases parts.len(),
{
    if parts.len() == 0 {
        Seq::empty()
    } else {
        le_bytes(start, 4) + offsets_from(parts.drop_first(), start + parts[0].len())
    }
}

/// The SSZ layout of a list of variable-length parts: one four-byte offset per part,
/// then the parts themselves in order.
pub open spec fn variable_layout(parts: Seq<Seq<u8>>) -> Seq<u8> {
    offsets_from(parts, 4 * parts.len()) + parts.flatten()
}

/// There are four offset bytes per part.
pub proof fn lemma_offsets_len(parts: Seq<Seq<u8>>, start: nat)
    ensures
        offsets_from(parts, start).len() == 4 * parts.len(),
    decreases parts.len(),
{
    if parts.len() > 0 {
        lemma_offsets_len(parts.drop_first(), start + parts[0].len());
        lemma_le_value_of_bytes(start, 4);
    }
}

/// The `i`-th of the `k`-byte chunks of `bytes`.
pub open spec fn chunk(bytes: Seq<u8>, k: nat, i: int) -> Seq<u8> {
    bytes.subrange(i * k, i * k + k)
}

/// Flattening parts of `k` bytes each gives `len * k` bytes whose `i`-th chunk is part `i`.
pub proof fn lemma_flatten_fixed(parts: Seq<Seq<u8>>, k: nat)
    requires
        forall|i: int| 0 <= i < parts.len() ==> #[trigger] parts[i].len() == k,
    ensures
        parts.flatten().len() == parts.len() * k,
        forall|i: int| 0 <= i < parts.len() ==> #[trigger] chunk(parts.flatten(), k, i) == parts[i],
    decreases parts.len(),
{
    if parts.len() > 0 {
        let rest = parts.drop_first();
        lemma_flatten_fixed(rest, k);
        let rf = rest.flatten();
        let f = parts.flatten();
        assert(f == parts[0] + rf);
        assert(parts.len() * k == k + rest.len() * k) by (nonlinear_arith)
            requires
                parts.len() == rest.len() + 1,
        ;
        assert forall|i: int| 0 <= i < parts.len() implies #[trigger] chunk(f, k, i) == parts[i] by {
            if i == 0 {
                assert(chunk(f, k, 0) =~= parts[0]);
            } else {
                assert(i * k == k + (i - 1) * k) by (nonlinear_arith);
                assert(0 <= (i - 1) * k && i * k + k <= parts.len() * k) by (nonlinear_arith)
                    requires
                        1 <= i < parts.len(),
                ;
                assert(rest[i - 1] == parts[i]);
                assert(chunk(rf, k, i - 1) == rest[i - 1]);
                assert(chunk(f, k, i) =~= chunk(rf, k, i - 1));
            }
        }
    }
}

/// Bytes of length `n * k` are the flattening of their `k`-byte chunks.
pub proof fn lemma_chunks_flatten(bytes: Seq<u8>, k: nat, n: nat)
    requires
        bytes.len() == n * k,
    ensures
        Seq::new(n, |i: int| chunk(bytes, k, i)).flatten() == bytes,
    decreases n,
{
    let parts = Seq::new(n, |i: int| chunk(bytes, k, i));
    if n == 0 {
        assert(bytes.len() == 0) by (nonlinear_arith)
            requires
                bytes.len() == n * k,
                n == 0,
        ;
        assert(parts.flatten() =~= bytes);
    } else {
        assert(n * k == k + (n - 1) * k) by (nonlinear_arith)
            requires
                n > 0,
        ;
        let tail = bytes.subrange(k as int, bytes.len() as int);
        lemma_chunks_flatten(tail, k, (n - 1) as nat);
        let tparts = Seq::new((n - 1) as nat, |i: int| chunk(tail, k, i));
        assert forall|i: int| 0 <= i < tparts.len() implies #[trigger] tparts[i] == parts.drop_first()[i] by {
            assert((i + 1) * k == i * k + k) by (nonlinear_arith);
            assert(0 <= i * k && (i + 1) * k + k <= n * k) by (nonlinear_arith)
                requires
                    0 <= i < n - 1,
            ;
            assert(chunk(tail, k, i) =~= chunk(bytes, k, i + 1));
        }
        assert(tparts =~= parts.drop_first());
        assert(parts[0] =~= bytes.subrange(0, k as int));
        assert(parts.flatten() == parts[0] + parts.drop_first().flatten());
        assert(parts.flatten() =~= bytes);
    }
}

/// A value that an SSZ list can hold.
///
/// Each element has an encoding; elements of a fixed-length type all encode to the same
/// number of bytes. Decoding is given as a relation between bytes and the value it yields.
pub trait SszElement: Sized {
    /// `Some(k)` when every element encodes to exactly `k` bytes, `None` when lengths vary.
    spec fn spec_fixed_len() -> Option<usize>;

    /// The SSZ encoding of the element.
    spec fn spec_encoding(&self) -> Seq<u8>;

    /// True when decoding `bytes` as an element succeeds.
    spec fn spec_decodes(bytes: Seq<u8>) -> bool;

    /// True when `value` is what decoding `bytes` yields.
    spec fn spec_decoded(bytes: Seq<u8>, value: Self) -> bool;

    /// True when `e` is the error that decoding `bytes` reports.
    spec fn spec_decode_error(bytes: Seq<u8>, e: SszError) -> bool;

    /// The invariant that every value of the type keeps.
    spec fn spec_valid(&self) -> bool;

    /// A fixed-length element encodes to exactly that many bytes, and that length is positive.
    proof fn lemma_fixed_len(v: &Self)
        ensures
            Self::spec_fixed_len() matches Some(k) ==> k > 0 && v.spec_encoding().len() == k,
    ;

    /// The encoding of an element of acceptable size decodes.
    proof fn lemma_encoding_decodes(v: &Self)
        requires
            v.spec_valid(),
            v.spec_encoding().len() <= MAX_LENGTH_VALUE,
        ensures
            Self::spec_decodes(v.spec_encoding()),
    ;

    /// A decoded value encodes back to the bytes it was decoded from.
    proof fn lemma_decoded_encodes_back(bytes: Seq<u8>, v: Self)
        requires
            Self::spec_decoded(bytes, v),
        ensures
            v.spec_encoding() == bytes,
            v.spec_valid(),
    ;

    /// `Some(k)` for a fixed-length element type of `k` bytes, `None` otherwise.
    fn ssz_fixed_len() -> (r: Option<usize>)
        ensures
            r == Self::spec_fixed_len(),
    ;

    /// Decodes one element from exactly `bytes`.
    fn from_ssz_bytes(bytes: &[u8]) -> (r: Result<Self, SszError>)
        ensures
            r is Ok <==> Self::spec_decodes(bytes@),
            r matches Ok(v) ==> Self::spec_decoded(bytes@, v) && v.spec_valid(),
            r matches Err(e) ==> Self::spec_decode_error(bytes@, e),
    ;

    /// Appends the encoding of the element to `buf`. An element of variable length must
    /// encode within `MAX_LENGTH_VALUE` bytes, or the offsets inside it would not fit.
    fn ssz_append(&self, buf: &mut Vec<u8>)
        requires
            Self::spec_fixed_len() is None ==> self.spec_encoding().len() <= MAX_LENGTH_VALUE,
        ensures
            final(buf)@ == old(buf)@ + self.spec_encoding(),
            self.spec_valid(),
    ;

    /// The length of the encoding of the element.
    fn ssz_bytes_len(&self) -> (n: usize)
        requires
            self.spec_encoding().len() <= usize::MAX,
        ensures
            n == self.spec_encoding().len(),
    ;
}

/// The `ssz` crate's decoding error, carried through unopened.
#[verifier::external_type_specification]
#[verifier::external_body]
pub struct ExSszDecodeError(ssz::DecodeError);

/// Calls `<u8 as ssz::Decode>::from_ssz_bytes`, which succeeds exactly on 1 bytes and
/// reads them as a little-endian number; otherwise it reports the length it got and the
/// length it expected.
#[verifier::external_body]
fn ssz_decode_u8(bytes: &[u8]) -> (r: Result<u8, SszError>)
    ensures
        r is Ok <==> bytes@.len() == 1,
        r matches Ok(v) ==> v as nat == le_value(bytes@),
        r matches Err(e) ==> e == (SszError::InvalidByteLength {
            len: bytes@.len() as usize,
            expected: 1,
        }),
{
    match <u8 as ssz::Decode>::from_ssz_bytes(bytes) {
        Ok(v) => Ok(v),
        Err(ssz::DecodeError::InvalidByteLength { len, expected }) => {
            Err(SszError::InvalidByteLength { len, expected })
        },
        Err(e) => Err(SszError::Ssz(e)),
    }
}

/// Calls `<u8 as ssz::Encode>::ssz_append`, which appends the byte itself.
#[verifier::external_body]
fn ssz_append_u8(value: u8, buf: &mut Vec<u8>)
    ensures
        final(buf)@ == old(buf)@ + le_bytes(value as nat, 1),
{
    ssz::Encode::ssz_append(&value, buf)
}

/// Calls `<u64 as ssz::Decode>::from_ssz_bytes`, which succeeds exactly on 8 bytes and
/// reads them as a little-endian number; otherwise it reports the length it got and the
/// length it expected.
#[verifier::external_body]
fn ssz_decode_u64(bytes: &[u8]) -> (r: Result<u64, SszError>)
    ensures
        r is Ok <==> bytes@.len() == 8,
        r matches Ok(v) ==> v as nat == le_value(bytes@),
        r matches Err(e) ==> e == (SszError::InvalidByteLength {
            len: bytes@.len() as usize,
            expected: 8,
        }),
{
    match <u64 as ssz::Decode>::from_ssz_bytes(bytes) {
        Ok(v) => Ok(v),
        Err(ssz::DecodeError::InvalidByteLength { len, expected }) => {
            Err(SszError::InvalidByteLength { len, expected })
        },
        Err(e) => Err(SszError::Ssz(e)),
    }
}

/// Calls `<u64 as ssz::Encode>::ssz_append`, which appends the eight little-endian bytes of
/// the value.
#[verifier::external_body]
fn ssz_append_u64(value: u64, buf: &mut Vec<u8>)
    ensures
        final(buf)@ == old(buf)@ + le_bytes(value as nat, 8),
{
    ssz::Encode::ssz_append(&value, buf)
}

impl SszElement for u8 {
    open spec fn spec_fixed_len() -> Option<usize> {
        Some(1)
    }

    open spec fn spec_encoding(&self) -> Seq<u8> {
        le_bytes(*self as nat, 1)
    }

    open spec fn spec_decodes(bytes: Seq<u8>) -> bool {
        bytes.len() == 1
    }

    open spec fn spec_valid(&self) -> bool {
        true
    }

    open spec fn spec_decoded(bytes: Seq<u8>, value: u8) -> bool {
        bytes.len() == 1 && value as nat == le_value(bytes)
    }

    open spec fn spec_decode_error(bytes: Seq<u8>, e: SszError) -> bool {
        e == SszError::InvalidByteLength { len: bytes.len() as usize, expected: 1 }
    }

    proof fn lemma_fixed_len(v: &u8) {
        lemma_le_value_of_bytes(*v as nat, 1);
    }

    proof fn lemma_encoding_decodes(v: &u8) {
        lemma_le_value_of_bytes(*v as nat, 1);
    }

    proof fn lemma_decoded_encodes_back(bytes: Seq<u8>, v: u8) {
        lemma_le_bytes_of_value(bytes);
    }

    fn ssz_fixed_len() -> (r: Option<usize>) {
        Some(1)
    }

    fn from_ssz_bytes(bytes: &[u8]) -> (r: Result<u8, SszError>) {
        ssz_decode_u8(bytes)
    }

    fn ssz_append(&self, buf: &mut Vec<u8>) {
        ssz_append_u8(*self, buf)
    }


    fn ssz_bytes_len(&self) -> (n: usize) {
        proof {
            lemma_le_value_of_bytes(*self as nat, 1);
        }
        1
    }
}

impl SszElement for u64 {
    open spec fn spec_fixed_len() -> Option<usize> {
        Some(8)
    }

    open spec fn spec_encoding(&self) -> Seq<u8> {
        le_bytes(*self as nat, 8)
    }

    open spec fn spec_decodes(bytes: Seq<u8>) -> bool {
        bytes.len() == 8
    }

    open spec fn spec_valid(&self) -> bool {
        true
    }

    open spec fn spec_decoded(bytes: Seq<u8>, value: u64) -> bool {
        bytes.len() == 8 && value as nat == le_value(bytes)
    }

    open spec fn spec_decode_error(bytes: Seq<u8>, e: SszError) -> bool {
        e == SszError::InvalidByteLength { len: bytes.len() as usize, expected: 8 }
    }

    proof fn lemma_fixed_len(v: &u64) {
        lemma_le_value_of_bytes(*v as nat, 8);
    }

    proof fn lemma_encoding_decodes(v: &u64) {
        lemma_le_value_of_bytes(*v as nat, 8);
    }

    proof fn lemma_decoded_encodes_back(bytes: Seq<u8>, v: u64) {
        lemma_le_bytes_of_value(bytes);
    }

    fn ssz_fixed_len() -> (r: Option<usize>) {
        Some(8)
    }

    fn from_ssz_bytes(bytes: &[u8]) -> (r: Result<u64, SszError>) {
        ssz_decode_u64(bytes)
    }

    fn ssz_append(&self, buf: &mut Vec<u8>) {
        ssz_append_u64(*self, buf)
    }

    fn ssz_bytes_len(&self) -> (n: usize) {
        proof {
            lemma_le_value_of_bytes(*self as nat, 8);
        }
        8
    }
}

/// The views of a list of byte vectors.
pub open spec fn byte_vecs_view(parts: Seq<Vec<u8>>) -> Seq<Seq<u8>> {
    parts.map_values(|p: Vec<u8>| p@)
}

/// Calls `<Vec<Vec<u8>> as ssz::Encode>::ssz_append`, which writes one four-byte offset per
/// part (the position of the part after the offsets, little-endian) and then the parts
/// themselves. The offsets are only well-formed while the whole encoding stays within
/// `MAX_LENGTH_VALUE`, which the caller must ensure.
#[verifier::external_body]
pub(crate) fn ssz_append_byte_lists(parts: &Vec<Vec<u8>>, buf: &mut Vec<u8>)
    requires
        variable_layout(byte_vecs_view(parts@)).len() <= MAX_LENGTH_VALUE,
    ensures
        final(buf)@ == old(buf)@ + variable_layout(byte_vecs_view(parts@)),
{
    ssz::Encode::ssz_append(parts, buf)
}

} // verus!
