# ssz_types

An SSZ `ProgressiveList` (EIP-7916) with an optional length limit, verified with Verus.

- `src/` is the verified library: the list and its limit (`progressive_variable_list`), the
  SSZ codec of items (`ssz_element`: `u8`, `u64` and lists of items, nested to any depth),
  the offsets of lists of variable-length items (`offsets`), whole lists with the round-trip
  laws (`ssz_list`), 0x-prefixed hex text (`hex`, `serde_utils`), and a fixed-length vector
  (`fixed_vector`).
  Calls into the `ssz`, `serde_utils` crates and into `std` where Verus has no
  specification go through small trusted wrappers whose contracts are stated next to them.
- `app/` adds what Verus cannot check: serde, SSZ and `arbitrary` trait impls and the
  context-aware deserializer, on thin copies of the library's types.
- `tests/` runs the library on concrete values.

The limit `N` is a const generic: `ProgressiveVariableList<T, 0>` has no limit.

Not provided: the SSZ hash tree root of the list (`TreeHash`), and mutable access to the
elements through `DerefMut`/`IndexMut`; `set` replaces one element in place instead.
