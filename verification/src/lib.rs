//! An SSZ `ProgressiveList`: an ordered list with an optional length limit, its SSZ encoding
//! and decoding, and its 0x-prefixed hex text forms.

pub mod error;
pub mod fixed_vector;
pub mod hex;
pub mod offsets;
pub mod progressive_variable_list;
pub mod serde_utils;
pub mod ssz_element;
pub mod ssz_list;

pub use error::{Error, HexError, SszError};
pub use progressive_variable_list::ProgressiveVariableList;
