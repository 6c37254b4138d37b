//! A cursor that writes into a [`Slot`] and never moves past its end.

use super::{overwrite, SlotBuffer, Slot};
use crate::utf8::encode_char;
use vstd::prelude::*;
use vstd::utf8::encode_scalar;

verus! {

/// Why a seek was refused.
#[derive(Debug, Clone, Copy, PartialEq, Eq, Structural)]
pub enum SlotSeekError {
    /// Cursor set to a position beyond the end of the slot.
    CursorOverflow,
    /// Cursor set to a position before byte 0.
    CursorUnderflow,
    /// Cursor set beyond `isize::MAX`.
    IndexOverflow,
}

/// Why a write was refused.
#[derive(Debug, Clone, Copy, PartialEq, Eq, Structural)]
pub enum SlotWriteError {
    /// Nothing could be written: the cursor is at the end of the slot.
    EndOfBuffer,
    /// See [`SlotSeekError`].
    Seek(SlotSeekError),
}

impl From<SlotSeekError> for SlotWriteError {
    fn from(error: SlotSeekError) -> (r: Self) {
        SlotWriteError::Seek(error)
    }
}

impl vstd::std_specs::convert::FromSpecImpl<SlotSeekError> for SlotWriteError {
    open spec fn obeys_from_spec() -> bool {
        true
    }

    open spec fn from_spec(error: SlotSeekError) -> Self {
        SlotWriteError::Seek(error)
    }
}

/// Where an absolute seek to `position` leaves the cursor of a slot of `len` bytes.
pub open spec fn seek_from_start_outcome(position: int, len: nat) -> Result<nat, SlotSeekError> {
    if position > isize::MAX {
        Err(SlotSeekError::IndexOverflow)
    } else if position > len {
        Err(SlotSeekError::CursorOverflow)
    } else {
        Ok(position as nat)
    }
}

/// Where a seek by `offset` from `base` leaves the cursor of a slot of `len` bytes.
pub open spec fn seek_outcome(base: int, offset: int, len: nat) -> Result<nat, SlotSeekError> {
    if base + offset < 0 {
        Err(SlotSeekError::CursorUnderflow)
    } else if base + offset > u64::MAX {
        Err(SlotSeekError::CursorOverflow)
    } else {
        seek_from_start_outcome(base + offset, len)
    }
}

/// `value` kept within `0..=len`.
pub open spec fn clamp(value: int, len: nat) -> nat {
    if value < 0 {
        0
    } else if value > len {
        len
    } else {
        value as nat
    }
}

/// Writes into a slot from a cursor that never moves past the slot's end.
#[derive(Debug)]
pub struct SlotWriter<T: SlotBuffer> {
    cursor: usize,
    slot: Slot<T>,
}

impl<T: SlotBuffer> View for SlotWriter<T> {
    /// The cursor and the bytes of the slot.
    type V = (nat, Seq<u8>);

    closed spec fn view(&self) -> (nat, Seq<u8>) {
        (self.cursor as nat, self.slot@)
    }
}

impl<T: SlotBuffer> SlotWriter<T> {
    /// The slot is well formed and the cursor lies within it.
    pub open spec fn wf(self) -> bool {
        &&& self@.1.len() == T::buffer_len()
        &&& T::buffer_len() < isize::MAX
        &&& self@.0 <= T::buffer_len()
    }

    /// A writer at the start of `slot`.
    pub fn new(slot: Slot<T>) -> (r: Self)
        requires
            slot.wf(),
        ensures
            r.wf(),
            r@ == (0nat, slot@),
    {
        SlotWriter { cursor: 0, slot }
    }

    /// The bytes from the cursor on.
    pub fn as_slice(&self) -> (r: &[u8])
        requires
            self.wf(),
        ensures
            r@ == self@.1.subrange(self@.0 as int, T::buffer_len() as int),
    {
        let (_, tail) = self.slot.as_slice().split_at(self.cursor);
        tail
    }

    /// Appends `item` to the slot; the cursor keeps its position from the start.
    pub fn buffer_push<U: SlotBuffer>(self, item: Slot<U>) -> (r: SlotWriter<(T, U)>)
        requires
            self.wf(),
            item.wf(),
            T::buffer_len() + U::buffer_len() < isize::MAX,
        ensures
            r.wf(),
            r@ == (self@.0, self@.1 + item@),
    {
        SlotWriter { cursor: self.cursor, slot: self.slot.push(item) }
    }

    /// The slot written into.
    pub fn into_inner(self) -> (r: Slot<T>)
        requires
            self.wf(),
        ensures
            r.wf(),
            r@ == self@.1,
    {
        self.slot
    }

    /// The cursor.
    pub fn position(&self) -> (r: usize)
        ensures
            r == self@.0,
    {
        self.cursor
    }

    /// The slot written into.
    pub fn slot(&self) -> (r: &Slot<T>)
        requires
            self.wf(),
        ensures
            r.wf(),
            r@ == self@.1,
    {
        &self.slot
    }

    /// The slot written into, for writing; the writer stays well formed as long as the slot
    /// does.
    pub fn slot_mut(&mut self) -> (r: &mut Slot<T>)
        requires
            old(self).wf(),
        ensures
            r.wf(),
            r@ == old(self)@.1,
            final(self)@ == (old(self)@.0, final(r)@),
            final(r).wf() ==> final(self).wf(),
    {
        &mut self.slot
    }

    /// The slot written into, whatever its state.
    pub(crate) fn slot_unchecked(&self) -> (r: &Slot<T>)
        ensures
            r@ == self@.1,
    {
        &self.slot
    }

    /// Moves the cursor by `offset`, stopping at either end of the slot.
    pub fn seek(&mut self, offset: isize)
        requires
            old(self).wf(),
        ensures
            final(self).wf(),
            final(self)@ == (clamp(old(self)@.0 + offset, T::buffer_len()), old(self)@.1),
    {
        let len = self.slot.len();
        if offset >= 0 {
            let forward = offset as usize;
            if forward >= len - self.cursor {
                self.cursor = len;
            } else {
                self.cursor = self.cursor + forward;
            }
        } else {
            let back: usize = (-(offset + 1)) as usize + 1;
            if back >= self.cursor {
                self.cursor = 0;
            } else {
                self.cursor = self.cursor - back;
            }
        }
    }

    /// Moves the cursor `offset` bytes before the end, stopping at the start.
    pub fn seek_from_end(&mut self, offset: usize)
        requires
            old(self).wf(),
        ensures
            final(self).wf(),
            final(self)@ == (clamp(T::buffer_len() - offset, T::buffer_len()), old(self)@.1),
    {
        let len = self.slot.len();
        self.cursor = if offset >= len { 0 } else { len - offset };
    }

    /// Moves the cursor to `position`, stopping at the end.
    pub fn seek_from_start(&mut self, position: usize)
        requires
            old(self).wf(),
        ensures
            final(self).wf(),
            final(self)@ == (clamp(position as int, T::buffer_len()), old(self)@.1),
    {
        let len = self.slot.len();
        self.cursor = if position > len { len } else { position };
    }

    /// Moves the cursor to `position`; refused, with the cursor unmoved, where that lies
    /// beyond `isize::MAX` or the end of the slot.
    pub fn try_seek_from_start(&mut self, position: u64) -> (r: Result<(), SlotSeekError>)
        requires
            old(self).wf(),
        ensures
            final(self).wf(),
            match seek_from_start_outcome(position as int, T::buffer_len()) {
                Ok(p) => r is Ok && final(self)@ == (p, old(self)@.1),
                Err(e) => r == Err::<(), SlotSeekError>(e) && final(self)@ == old(self)@,
            },
    {
        if position as u128 > isize::MAX as u128 {
            return Err(SlotSeekError::IndexOverflow);
        }
        let position = position as usize;
        if position > self.slot.len() {
            return Err(SlotSeekError::CursorOverflow);
        }
        self.cursor = position;
        Ok(())
    }

    /// Moves the cursor by `offset`; refused, with the cursor unmoved, where that lies before
    /// the start, beyond `isize::MAX` or beyond the end of the slot.
    pub fn try_seek(&mut self, offset: i64) -> (r: Result<(), SlotSeekError>)
        requires
            old(self).wf(),
        ensures
            final(self).wf(),
            match seek_outcome(old(self)@.0 as int, offset as int, T::buffer_len()) {
                Ok(p) => r is Ok && final(self)@ == (p, old(self)@.1),
                Err(e) => r == Err::<(), SlotSeekError>(e) && final(self)@ == old(self)@,
            },
    {
        let base = self.cursor as i128;
        self.try_seek_by(base, offset)
    }

    /// Moves the cursor `offset` bytes from the end; refused, with the cursor unmoved, where
    /// that lies before the start, beyond `isize::MAX` or beyond the end of the slot.
    pub fn try_seek_from_end(&mut self, offset: i64) -> (r: Result<(), SlotSeekError>)
        requires
            old(self).wf(),
        ensures
            final(self).wf(),
            match seek_outcome(T::buffer_len() as int, offset as int, T::buffer_len()) {
                Ok(p) => r is Ok && final(self)@ == (p, old(self)@.1),
                Err(e) => r == Err::<(), SlotSeekError>(e) && final(self)@ == old(self)@,
            },
    {
        let base = self.slot.len() as i128;
        self.try_seek_by(base, offset)
    }

    fn try_seek_by(&mut self, base: i128, offset: i64) -> (r: Result<(), SlotSeekError>)
        requires
            old(self).wf(),
            0 <= base <= isize::MAX,
        ensures
            final(self).wf(),
            match seek_outcome(base as int, offset as int, T::buffer_len()) {
                Ok(p) => r is Ok && final(self)@ == (p, old(self)@.1),
                Err(e) => r == Err::<(), SlotSeekError>(e) && final(self)@ == old(self)@,
            },
    {
        let target: i128 = base + offset as i128;
        if target < 0 {
            return Err(SlotSeekError::CursorUnderflow);
        }
        if target > 0xffff_ffff_ffff_ffffi128 {
            return Err(SlotSeekError::CursorOverflow);
        }
        self.try_seek_from_start(target as u64)
    }

    /// Writes `value` at the cursor and moves past it.
    pub fn write_byte(&mut self, value: u8)
        requires
            old(self).wf(),
            old(self)@.0 < T::buffer_len(),
        ensures
            final(self).wf(),
            final(self)@ == ((old(self)@.0 + 1) as nat, old(self)@.1.update(old(self)@.0 as int, value)),
    {
        self.slot.write_byte_at(self.cursor, value);
        self.cursor = self.cursor + 1;
    }

    /// Writes as much of `src` as fits from the cursor on, moves past it, and returns how
    /// many bytes were written.
    pub fn write_slice(&mut self, src: &[u8]) -> (r: usize)
        requires
            old(self).wf(),
        ensures
            final(self).wf(),
            r as int == (if src@.len() <= T::buffer_len() - old(self)@.0 {
                src@.len() as int
            } else {
                T::buffer_len() - old(self)@.0
            }),
            final(self)@ == (
                (old(self)@.0 + r) as nat,
                overwrite(old(self)@.1, old(self)@.0 as int, src@.subrange(0, r as int)),
            ),
    {
        let space = self.slot.len() - self.cursor;
        if src.len() > space {
            let (head, _) = src.split_at(space);
            self.slot.write_slice_at(self.cursor, head);
            self.cursor = self.slot.len();
            return space;
        }
        self.slot.write_slice_at(self.cursor, src);
        assert(src@.subrange(0, src@.len() as int) =~= src@);
        self.cursor = self.cursor + src.len();
        src.len()
    }

    /// Writes the UTF-8 encoding of `c` at the cursor and moves past it.
    pub fn write_char(&mut self, c: char)
        requires
            old(self).wf(),
            old(self)@.0 + encode_scalar(c as u32).len() <= T::buffer_len(),
        ensures
            final(self).wf(),
            final(self)@ == (
                (old(self)@.0 + encode_scalar(c as u32).len()) as nat,
                overwrite(old(self)@.1, old(self)@.0 as int, encode_scalar(c as u32)),
            ),
    {
        let encoded = encode_char(c);
        let written = self.write_slice(encoded.as_slice());
        assert(encoded@.subrange(0, written as int) =~= encoded@);
    }
}

impl<T: SlotBuffer, U: SlotBuffer> SlotWriter<(T, U)> {
    /// Splits off the trailing `U` part; a cursor beyond the remaining slot moves to its end.
    pub fn buffer_pop(self) -> (r: (SlotWriter<T>, Slot<U>))
        requires
            self.wf(),
        ensures
            r.0.wf(),
            r.1.wf(),
            r.0@ == (
                clamp(self@.0 as int, T::buffer_len()),
                self@.1.subrange(0, T::buffer_len() as int),
            ),
            r.1@ == self@.1.subrange(T::buffer_len() as int, self@.1.len() as int),
    {
        let cursor = self.cursor;
        let (t, u) = self.slot.pop();
        let len = t.len();
        let cursor = if cursor > len { len } else { cursor };
        (SlotWriter { cursor, slot: t }, u)
    }

    /// Drops the trailing `U` part; a cursor beyond the remaining slot moves to its end.
    pub fn buffer_popped(self) -> (r: SlotWriter<T>)
        requires
            self.wf(),
        ensures
            r.wf(),
            r@ == (clamp(self@.0 as int, T::buffer_len()), self@.1.subrange(0, T::buffer_len() as int)),
    {
        self.buffer_pop().0
    }
}

impl<T: SlotBuffer> Slot<T> {
    /// A writer at the start of this slot.
    pub fn writer(self) -> (r: SlotWriter<T>)
        requires
            self.wf(),
        ensures
            r.wf(),
            r@ == (0nat, self@),
    {
        SlotWriter::new(self)
    }
}

} // verus!
