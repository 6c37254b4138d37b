//! Values whose layout also accommodates the alignment of another type.
//!
//! Each wrapper holds, beside its value, a zero-length array of `A`. That array takes no
//! space but raises the wrapper's alignment to at least `A`'s, so the wrapper is aligned for
//! both `T` and `A`. Its size is that of `T` rounded up to that alignment: where `A` is larger
//! than its own alignment, the wrapper is not made as large as `A`. The contracts state the
//! value held; the layout is a property of the compiled types, which they do not speak of.

use core::mem::ManuallyDrop;
use vstd::prelude::*;

pub mod byte_array;

verus! {

/// Calls `<ManuallyDrop<T> as DerefMut>::deref_mut`, which hands out the value inside for
/// writing.
#[verifier::external_body]
fn manually_drop_mut<T>(m: &mut ManuallyDrop<T>) -> (r: &mut T)
    ensures
        *r == old(m)@,
        final(m)@ == *final(r),
{
    &mut **m
}

/// Wrapper of a value of `T`, aligned for both `T` and `A`, whose destructor never runs the
/// value's destructor.
pub struct AlignedManuallyDrop<T, A> {
    value: ManuallyDrop<T>,
    alignment: [A; 0],
}

impl<T, A> View for AlignedManuallyDrop<T, A> {
    type V = T;

    closed spec fn view(&self) -> T {
        self.value@
    }
}

impl<T, A> AlignedManuallyDrop<T, A> {
    /// Wraps `value`.
    pub fn new(value: T) -> (r: Self)
        ensures
            r@ == value,
    {
        AlignedManuallyDrop { value: ManuallyDrop::new(value), alignment: [] }
    }

    /// The wrapped value.
    pub fn as_ref(&self) -> (r: &T)
        ensures
            *r == self@,
    {
        &*self.value
    }

    /// The wrapped value, for writing.
    pub fn as_mut(&mut self) -> (r: &mut T)
        ensures
            *r == old(self)@,
            final(self)@ == *final(r),
    {
        manually_drop_mut(&mut self.value)
    }

    /// A wrapper of a copy of the value.
    pub fn copy(&self) -> (r: Self)
        where
            T: Copy,
        ensures
            r@ == self@,
    {
        Self::new(*self.as_ref())
    }

    /// The wrapped value.
    pub fn into_inner(self) -> (r: T)
        ensures
            r == self@,
    {
        ManuallyDrop::into_inner(self.value)
    }
}

/// Wrapper of a value of `T`, aligned for both `T` and `A`; dropping it drops the value.
pub struct Aligned<T, A> {
    value: T,
    alignment: [A; 0],
}

impl<T, A> View for Aligned<T, A> {
    type V = T;

    closed spec fn view(&self) -> T {
        self.value
    }
}

impl<T, A> Aligned<T, A> {
    /// Wraps `value`.
    pub fn new(value: T) -> (r: Self)
        ensures
            r@ == value,
    {
        Aligned { value, alignment: [] }
    }

    /// The wrapped value.
    pub fn as_ref(&self) -> (r: &T)
        ensures
            *r == self@,
    {
        &self.value
    }

    /// The wrapped value, for writing.
    pub fn as_mut(&mut self) -> (r: &mut T)
        ensures
            *r == old(self)@,
            final(self)@ == *final(r),
    {
        &mut self.value
    }

    /// A wrapper of a copy of the value.
    pub fn copy(&self) -> (r: Self)
        where
            T: Copy,
        ensures
            r@ == self@,
    {
        Self::new(self.value)
    }

    /// The wrapper whose destructor no longer runs the value's destructor.
    pub fn into_manually_drop(self) -> (r: AlignedManuallyDrop<T, A>)
        ensures
            r@ == self@,
    {
        AlignedManuallyDrop::new(self.value)
    }

    /// The wrapped value.
    pub fn into_inner(self) -> (r: T)
        ensures
            r == self@,
    {
        self.value
    }
}

} // verus!
