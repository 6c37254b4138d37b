//! A byte array whose layout also accommodates the alignment of another type.

use super::AlignedManuallyDrop;
use vstd::prelude::*;

verus! {

/// `LEN` bytes, aligned for `A` (see the module of [`AlignedManuallyDrop`]).
pub struct ByteArray<const LEN: usize, A = usize>(AlignedManuallyDrop<[u8; LEN], A>);

impl<const LEN: usize, A> View for ByteArray<LEN, A> {
    type V = Seq<u8>;

    closed spec fn view(&self) -> Seq<u8> {
        self.0@@
    }
}

impl<const LEN: usize, A> ByteArray<LEN, A> {
    /// The bytes of `array`.
    pub fn new(array: [u8; LEN]) -> (r: Self)
        ensures
            r@ == array@,
    {
        ByteArray(AlignedManuallyDrop::new(array))
    }

    /// The bytes.
    pub fn as_slice(&self) -> (r: &[u8])
        ensures
            r@ == self@,
    {
        self.0.as_ref().as_slice()
    }

    /// The bytes, for writing.
    pub fn as_mut_slice(&mut self) -> (r: &mut [u8])
        ensures
            r@ == old(self)@,
            final(self)@ == final(r)@,
    {
        let array: &mut [u8; LEN] = self.0.as_mut();
        array
    }

    /// The bytes as an array.
    pub fn as_ref(&self) -> (r: &[u8; LEN])
        ensures
            r@ == self@,
    {
        self.0.as_ref()
    }

    /// The bytes as an array, for writing.
    pub fn as_mut(&mut self) -> (r: &mut [u8; LEN])
        ensures
            r@ == old(self)@,
            final(self)@ == final(r)@,
    {
        self.0.as_mut()
    }

    /// A copy of the bytes.
    pub fn copy(&self) -> (r: Self)
        ensures
            r@ == self@,
    {
        ByteArray(self.0.copy())
    }
}

} // verus!
