//! Text forms of byte lists: 0x-prefixed hexadecimal, alone or in lists.

pub mod hex_prog_var_list;
pub mod prog_list_of_hex_fixed_vec;
pub mod prog_list_of_hex_prog_var_list;
