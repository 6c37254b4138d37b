//! Borrowing the [`Slot`] that a container holds.

use super::{Slot, SlotBuffer};
use super::writer::SlotWriter;
use vstd::prelude::*;

verus! {

/// Whether [`as_slot_ref`] may be used on a container.
pub trait SlotVisibility {

}

/// Forbids the use of [`as_slot_ref`].
#[derive(Debug)]
pub struct SlotVisPriv;

impl SlotVisibility for SlotVisPriv {

}

/// Allows the use of [`as_slot_ref`].
#[derive(Debug)]
pub struct SlotVisPub;

impl SlotVisibility for SlotVisPub {

}

/// Types that hold a primary `Slot<T>`.
pub trait RawSlotRef<T: SlotBuffer> {
    /// [`SlotVisPub`] where outside code may borrow the slot.
    type Visibility: SlotVisibility;

    /// The bytes of the held slot.
    spec fn held_slot(&self) -> Seq<u8>;

    /// The held slot.
    fn slot_ref(&self) -> (r: &Slot<T>)
        ensures
            r@ == self.held_slot(),
    ;
}

/// Types that are laid out exactly as `Slot<T>`.
pub trait RawSlotTransparent<T: SlotBuffer>: RawSlotRef<T> {

}

impl<T: SlotBuffer> RawSlotRef<T> for Slot<T> {
    type Visibility = SlotVisPub;

    open spec fn held_slot(&self) -> Seq<u8> {
        self@
    }

    fn slot_ref(&self) -> (r: &Slot<T>) {
        self
    }
}

impl<T: SlotBuffer> RawSlotTransparent<T> for Slot<T> {

}

impl<T: SlotBuffer> RawSlotRef<T> for SlotWriter<T> {
    type Visibility = SlotVisPub;

    open spec fn held_slot(&self) -> Seq<u8> {
        self@.1
    }

    fn slot_ref(&self) -> (r: &Slot<T>) {
        self.slot_unchecked()
    }
}

/// The slot that `container` holds, where its visibility allows it.
pub fn as_slot_ref<T: SlotBuffer, C: RawSlotRef<T, Visibility = SlotVisPub>>(container: &C) -> (r:
    &Slot<T>)
    ensures
        r@ == container.held_slot(),
{
    container.slot_ref()
}

} // verus!
