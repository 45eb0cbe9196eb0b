use vstd::prelude::*;

verus! {

/// Errors raised when a list would grow past its length limit.
#[derive(Debug, Clone, Copy, PartialEq, Eq, Structural)]
pub enum Error {
    /// The list would hold `i` items where at most `len` are allowed.
    OutOfBounds { i: usize, len: usize },
}

/// The decimal digit for `d < 10`.
pub open spec fn decimal_digit(d: nat) -> char {
    (48 + d) as char
}

/// The decimal digits of `n`, most significant first, without leading zeros.
pub open spec fn decimal(n: nat) -> Seq<char>
    decreases n,
{
    if n < 10 {
        seq![decimal_digit(n)]
    } else {
        decimal(n / 10).push(decimal_digit(n % 10))
    }
}

/// The message for an index `i` out of bounds of a length `len`.
pub open spec fn out_of_bounds_text(i: nat, len: nat) -> Seq<char> {
    "Index out of bounds: index "@ + decimal(i) + ", length "@ + decimal(len)
}

/// Calls `usize::to_string`, which writes the number in decimal, without leading zeros.
#[verifier::external_body]
fn decimal_string(n: usize) -> (text: String)
    ensures
        text@ == decimal(n as nat),
{
    n.to_string()
}

impl Error {
    /// A message that describes the error.
    pub fn message(&self) -> (text: String)
        ensures
            match *self {
                Error::OutOfBounds { i, len } => text@ == out_of_bounds_text(i as nat, len as nat),
            },
    {
        match self {
            Error::OutOfBounds { i, len } => {
                let mut text = String::from_str("Index out of bounds: index ");
                text.append(decimal_string(*i).as_str());
                text.append(", length ");
                text.append(decimal_string(*len).as_str());
                text
            },
        }
    }
}

} // verus!

verus! {

/// Errors raised when SSZ bytes do not decode to a list.
#[derive(Debug, PartialEq)]
pub enum SszError {
    /// The encoding is longer than `MAX_LENGTH_VALUE` bytes.
    EncodingTooLong { len: usize },
    /// The encoding holds `items` elements where at most `max` are allowed.
    TooManyItems { items: usize, max: usize },
    /// The encoding of a list of `item_len`-byte elements is `len` bytes, not a multiple.
    UnevenLength { len: usize, item_len: usize },
    /// The element type claims a fixed length of zero bytes.
    ZeroLengthItem,
    /// An element of `expected` bytes was to be read from `len` bytes.
    InvalidByteLength { len: usize, expected: usize },
    /// An offset of `expected` bytes was to be read from `len` bytes.
    InvalidLengthPrefix { len: usize, expected: usize },
    /// The first offset of a list of variable-length items does not mark the end of a whole
    /// number of offsets.
    InvalidListFixedBytesLen(usize),
    /// The encoding announces `items` variable-length elements where at most `max` are allowed.
    TooManyVariableItems { items: usize, max: usize },
    /// An offset points back into the offsets themselves.
    OffsetIntoFixedPortion(usize),
    /// The first offset does not point just past the offsets.
    OffsetSkipsVariableBytes(usize),
    /// An offset points past the end of the encoding.
    OffsetOutOfBounds(usize),
    /// An offset is smaller than the one before it.
    OffsetsAreDecreasing(usize),
    /// Any other error that the `ssz` crate reported.
    Ssz(ssz::DecodeError),
}

} // verus!

verus! {

/// Errors raised when text does not stand for a byte list of acceptable length.
#[derive(Debug, Clone, PartialEq)]
pub enum HexError {
    /// The text is not 0x-prefixed hexadecimal; the message says why.
    InvalidHex(String),
    /// The text stands for `len` bytes where at most `max` are allowed.
    TooLong { len: usize, max: usize },
    /// The text stands for `len` bytes where exactly `expected` are required.
    WrongLength { len: usize, expected: usize },
}

} // verus!
