//! Descriptions of the shape of structs, enums, unions and tuples.

use vstd::prelude::*;

verus! {

/// Shape of a `struct`.
pub trait StructSchema {
    /// The size class of the struct.
    type Size;
}

/// Shape of an `enum`.
pub trait EnumSchema {
    /// The size class of the enum.
    type Size;

    /// The number of variants.
    fn variants() -> u16;
}

/// Shape of a `union`.
pub trait UnionSchema {
    /// The size class of the union.
    type Size;

    /// The number of variants.
    fn variants() -> u16;
}

/// Shape of a tuple `(T0, ...)`.
pub trait TupleSchema {
    /// The number of fields.
    spec fn arity() -> nat;

    /// The number of fields.
    fn len() -> (r: usize)
        ensures
            r == Self::arity(),
    ;
}

/// The type of field `INDEX` of a tuple.
pub trait TupleSchemaField<const INDEX: usize>: TupleSchema {
    /// The field's type.
    type Field;
}

/// A tuple split into its last field and the rest.
pub trait TupleSchemaPop: TupleSchema {
    /// The last field.
    type Popped;
    /// The tuple of the other fields.
    type Residual;
}

impl TupleSchema for () {
    open spec fn arity() -> nat {
        0
    }

    fn len() -> (r: usize) {
        0
    }
}

impl<T0> TupleSchema for (T0,) {
    open spec fn arity() -> nat {
        1
    }

    fn len() -> (r: usize) {
        1
    }
}

impl<T0> TupleSchemaField<0> for (T0,) {
    type Field = T0;
}

impl<T0> TupleSchemaPop for (T0,) {
    type Popped = T0;
    type Residual = ();
}

} // verus!
