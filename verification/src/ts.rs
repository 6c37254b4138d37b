//! Types that stand for values at the type level.
//!
//! The types here are markers: they are meant to be named in bounds, not constructed for
//! their contents. [`TypeValue`] gives the value that a type stands for.

use core::marker::PhantomData;
use vstd::prelude::*;

verus! {

/// A type standing for a state of kind `C`; `State` is the canonical type of that state.
pub trait TypeState<C> {
    /// The canonical type of the state.
    type State;
}

/// A type standing for a value.
pub trait TypeValue {
    /// The type of the value.
    type Value;

    /// The value.
    spec fn value_spec() -> Self::Value;

    /// The value.
    fn value() -> (r: Self::Value)
        ensures
            r == Self::value_spec(),
    ;
}

/// Stands for the boolean `VALUE`.
#[derive(Debug)]
pub struct Bool<const VALUE: bool>;

impl<const VALUE: bool> TypeState<bool> for Bool<VALUE> {
    type State = Bool<VALUE>;
}

impl<const VALUE: bool> TypeValue for Bool<VALUE> {
    type Value = bool;

    open spec fn value_spec() -> bool {
        VALUE
    }

    fn value() -> (r: bool) {
        VALUE
    }
}

/// Stands for an absent optional value.
#[derive(Debug)]
pub struct OptionNone;

/// Stands for a present optional value, given by `T`.
#[derive(Debug)]
pub struct OptionSome<T>(PhantomData<T>);

impl<const VALUE: bool> TypeValue for OptionSome<Bool<VALUE>> {
    type Value = Option<bool>;

    open spec fn value_spec() -> Option<bool> {
        Some(VALUE)
    }

    fn value() -> (r: Option<bool>) {
        Some(VALUE)
    }
}

} // verus!
