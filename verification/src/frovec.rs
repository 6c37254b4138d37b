//! Vectors that store the parts of their elements in separate runs.

use vstd::prelude::*;

verus! {

/// Element types of a [`FroVec`]: how a chunk of elements is laid out, field by field.
pub trait FieldMap {
    /// A chunk: one array per field.
    type Fro;

    /// The number of elements in a chunk.
    fn size() -> usize;
}

/// Field re-ordering vector: its elements are stored field by field, in chunks.
pub struct FroVec<T: FieldMap> {
    chunks: Vec<T::Fro>,
    len: usize,
}

/// Analog of `Vec<(T, U)>` that stores the two halves of its elements in two runs.
pub struct BiVec<T, U> {
    t_items: Vec<T>,
    u_items: Vec<U>,
}

} // verus!
