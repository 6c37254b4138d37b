# itym

Specialized collections and integer encodings, with their behaviour stated in contracts and
proved with Verus.

- `src/` is the verified library: couplings of two values into one integer (`couple`), cyclic
  ordering (`cyclic`), unsigned integers packed into few bytes (`pack`), interning caches
  (`intern`), byte buffers whose length is fixed by a type (`slot`) and the string types built
  on them (`str`), top-level memory layouts packed into one integer (`tlmem`), size-class bit
  sets (`slab`), and the smaller marker types and traits (`attack`, `frovec`, `mem`, `schema`,
  `ts`, `variant_map`).
- `app/` holds what the library cannot express: process-wide interners shared through a lock,
  `std::io` adapters for slot writers, and error types with `Display`.
- `tests/` exercises the library on concrete values.

Two things are deliberately not provided:

- The aligned wrappers in `mem::aligned` carry the alignment of their second type through a
  zero-length array of it, so they are aligned for both types, but they are not enlarged to
  that type's size, as a union of the two would be (reading a union field needs `unsafe`).
  `AlignedManuallyDrop` still never runs the destructor of the value it holds.
- Type-erased vectors, whose element operations are tables of function pointers keyed by a
  type's identity, are not part of this library: they rest on `Any`, raw parts and function
  pointer types, none of which the verified code can hold.
