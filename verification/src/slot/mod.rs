//! Byte arrays whose length is fixed by a type: see [`Slot`].

use core::marker::PhantomData;
pub mod convert;
pub mod writer;

use crate::utf8::encode_char;
use vstd::prelude::*;
use vstd::utf8::encode_scalar;

verus! {

/// Types that fix the length of a [`Slot`]: byte arrays, and pairs of such types,
/// whose length is the sum of the lengths of their parts.
pub trait SlotBuffer {
    /// The number of bytes.
    spec fn buffer_len() -> nat;

    /// The number of bytes.
    fn buffer_size() -> (r: usize)
        requires
            Self::buffer_len() <= usize::MAX,
        ensures
            r == Self::buffer_len(),
    ;
}

impl<const N: usize> SlotBuffer for [u8; N] {
    open spec fn buffer_len() -> nat {
        N as nat
    }

    fn buffer_size() -> (r: usize) {
        N
    }
}

impl<T: SlotBuffer, U: SlotBuffer> SlotBuffer for (T, U) {
    open spec fn buffer_len() -> nat {
        T::buffer_len() + U::buffer_len()
    }

    fn buffer_size() -> (r: usize) {
        T::buffer_size() + U::buffer_size()
    }
}

/// Byte array whose length is fixed by the type `T`.
#[derive(Debug)]
pub struct Slot<T: SlotBuffer> {
    bytes: Vec<u8>,
    marker: PhantomData<T>,
}

impl<T: SlotBuffer> View for Slot<T> {
    type V = Seq<u8>;

    closed spec fn view(&self) -> Seq<u8> {
        self.bytes@
    }
}

/// `dst` with `src` written over it from position `start` on.
pub open spec fn overwrite(dst: Seq<u8>, start: int, src: Seq<u8>) -> Seq<u8> {
    dst.subrange(0, start) + src + dst.subrange(start + src.len(), dst.len() as int)
}

/// `len` copies of `value`.
pub open spec fn repeat_byte(value: u8, len: nat) -> Seq<u8> {
    Seq::new(len, |i: int| value)
}

/// `count` bytes of `src` from position `start` on, pushed onto `out`.
pub(crate) fn push_range(out: &mut Vec<u8>, src: &[u8], start: usize, count: usize)
    requires
        start + count <= src@.len(),
    ensures
        final(out)@ == old(out)@ + src@.subrange(start as int, start + count),
{
    let len = src.len();
    let mut i: usize = 0;
    while i < count
        invariant
            start + count <= src@.len(),
            len == src@.len(),
            i <= count,
            out@ == old(out)@ + src@.subrange(start as int, start + i),
        decreases count - i,
    {
        out.push(src[start + i]);
        i = i + 1;
        assert(out@ =~= old(out)@ + src@.subrange(start as int, start + i));
    }
}

/// `count` copies of `value`, pushed onto `out`.
pub(crate) fn push_repeat(out: &mut Vec<u8>, value: u8, count: usize)
    ensures
        final(out)@ == old(out)@ + repeat_byte(value, count as nat),
{
    let mut i: usize = 0;
    while i < count
        invariant
            i <= count,
            out@ == old(out)@ + repeat_byte(value, i as nat),
        decreases count - i,
    {
        out.push(value);
        i = i + 1;
        assert(out@ =~= old(out)@ + repeat_byte(value, i as nat));
    }
}

/// Writes `src` into `dst` from position `start` on.
pub(crate) fn write_into(dst: &mut Vec<u8>, start: usize, src: &[u8])
    requires
        start + src@.len() <= old(dst)@.len(),
    ensures
        final(dst)@ == overwrite(old(dst)@, start as int, src@),
{
    let len = dst.len();
    let mut i: usize = 0;
    while i < src.len()
        invariant
            start + src@.len() <= dst@.len(),
            dst@.len() == old(dst)@.len(),
            dst@.len() == len,
            i <= src@.len(),
            forall|j: int| 0 <= j < start ==> dst@[j] == old(dst)@[j],
            forall|j: int| start + src@.len() <= j < dst@.len() ==> dst@[j] == old(dst)@[j],
            forall|j: int| 0 <= j < i ==> dst@[start + j] == src@[j],
            forall|j: int| start + i <= j < start + src@.len() ==> dst@[j] == old(dst)@[j],
        decreases src@.len() - i,
    {
        dst.set(start + i, src[i]);
        i = i + 1;
    }
    assert(dst@ =~= overwrite(old(dst)@, start as int, src@)) by {
        assert forall|j: int| 0 <= j < dst@.len() implies dst@[j] == overwrite(
            old(dst)@,
            start as int,
            src@,
        )[j] by {
            if start <= j < start + src@.len() {
                assert(dst@[start + (j - start)] == src@[j - start]);
            }
        }
    }
}

/// Writes `count` copies of `value` into `dst` from position `start` on.
fn write_repeat(dst: &mut Vec<u8>, start: usize, value: u8, count: usize)
    requires
        start + count <= old(dst)@.len(),
    ensures
        final(dst)@ == overwrite(old(dst)@, start as int, repeat_byte(value, count as nat)),
{
    let len = dst.len();
    let mut i: usize = 0;
    while i < count
        invariant
            start + count <= dst@.len(),
            dst@.len() == old(dst)@.len(),
            dst@.len() == len,
            i <= count,
            forall|j: int| 0 <= j < start ==> dst@[j] == old(dst)@[j],
            forall|j: int| start + count <= j < dst@.len() ==> dst@[j] == old(dst)@[j],
            forall|j: int| start <= j < start + i ==> dst@[j] == value,
            forall|j: int| start + i <= j < start + count ==> dst@[j] == old(dst)@[j],
        decreases count - i,
    {
        dst.set(start + i, value);
        i = i + 1;
    }
    assert(dst@ =~= overwrite(old(dst)@, start as int, repeat_byte(value, count as nat)));
}

impl<T: SlotBuffer> Slot<T> {
    /// The slot holds exactly as many bytes as its type fixes, fewer than `isize::MAX`.
    pub open spec fn wf(self) -> bool {
        &&& self@.len() == T::buffer_len()
        &&& T::buffer_len() < isize::MAX
    }

    /// A slot of the given bytes.
    fn from_vec(bytes: Vec<u8>) -> (r: Self)
        ensures
            r@ == bytes@,
    {
        Slot { bytes, marker: PhantomData }
    }

    /// A slot of the given bytes, whose length must be that of the slot.
    pub(crate) fn from_bytes(bytes: Vec<u8>) -> (r: Self)
        requires
            bytes@.len() == T::buffer_len(),
            T::buffer_len() < isize::MAX,
        ensures
            r.wf(),
            r@ == bytes@,
    {
        Slot { bytes, marker: PhantomData }
    }

    /// A slot whose every byte is `value`.
    pub fn filled_unchecked(value: u8) -> (r: Self)
        requires
            T::buffer_len() < isize::MAX,
        ensures
            r.wf(),
            r@ == repeat_byte(value, T::buffer_len()),
    {
        let mut bytes: Vec<u8> = Vec::new();
        push_repeat(&mut bytes, value, T::buffer_size());
        Self::from_vec(bytes)
    }

    /// A slot of zero bytes.
    pub fn zeroed_unchecked() -> (r: Self)
        requires
            T::buffer_len() < isize::MAX,
        ensures
            r.wf(),
            r@ == repeat_byte(0, T::buffer_len()),
    {
        Self::filled_unchecked(0)
    }

    /// A slot holding `src`, whose length must be that of the slot.
    pub fn from_slice_unchecked(src: &[u8]) -> (r: Self)
        requires
            T::buffer_len() < isize::MAX,
            src@.len() == T::buffer_len(),
        ensures
            r.wf(),
            r@ == src@,
    {
        let mut bytes: Vec<u8> = Vec::new();
        push_range(&mut bytes, src, 0, src.len());
        assert(src@.subrange(0, src@.len() as int) =~= src@);
        Self::from_vec(bytes)
    }

    /// A slot holding `src`, or `None` where its length is not that of the slot.
    pub fn try_from_slice(src: &[u8]) -> (r: Option<Self>)
        requires
            T::buffer_len() < isize::MAX,
        ensures
            r is None <==> src@.len() != T::buffer_len(),
            r matches Some(slot) ==> slot.wf() && slot@ == src@,
    {
        if src.len() != T::buffer_size() {
            return None;
        }
        Some(Self::from_slice_unchecked(src))
    }

    /// The number of bytes, fixed by the type.
    pub fn len(&self) -> (r: usize)
        requires
            self.wf(),
        ensures
            r == T::buffer_len(),
            r == self@.len(),
    {
        self.bytes.len()
    }

    /// The bytes of the slot.
    pub fn as_slice(&self) -> (r: &[u8])
        ensures
            r@ == self@,
    {
        self.bytes.as_slice()
    }

    /// A slot with the same bytes.
    pub fn copy(&self) -> (r: Self)
        requires
            self.wf(),
        ensures
            r.wf(),
            r@ == self@,
    {
        Self::from_slice_unchecked(self.as_slice())
    }

    /// Overwrites the whole slot with `src`, whose length must be that of the slot.
    pub fn copy_from_slice(&mut self, src: &[u8])
        requires
            old(self).wf(),
            src@.len() == T::buffer_len(),
        ensures
            final(self).wf(),
            final(self)@ == src@,
    {
        write_into(&mut self.bytes, 0, src);
        assert(overwrite(old(self)@, 0, src@) =~= src@);
    }

    /// Overwrites the whole slot with the bytes of a slot of the same length.
    pub fn copy_from_slot<U: SlotBuffer>(&mut self, src: &Slot<U>)
        requires
            old(self).wf(),
            src.wf(),
            U::buffer_len() == T::buffer_len(),
        ensures
            final(self).wf(),
            final(self)@ == src@,
    {
        self.copy_from_slice(src.as_slice());
    }

    /// Fills the entire slot with `value`.
    pub fn fill(&mut self, value: u8)
        requires
            old(self).wf(),
        ensures
            final(self).wf(),
            final(self)@ == repeat_byte(value, T::buffer_len()),
    {
        let n = self.bytes.len();
        write_repeat(&mut self.bytes, 0, value, n);
        assert(overwrite(old(self)@, 0, repeat_byte(value, T::buffer_len())) =~= repeat_byte(
            value,
            T::buffer_len(),
        ));
    }

    /// Writes `value` at `position`.
    pub fn write_byte_at(&mut self, position: usize, value: u8)
        requires
            old(self).wf(),
            position < T::buffer_len(),
        ensures
            final(self).wf(),
            final(self)@ == old(self)@.update(position as int, value),
    {
        self.bytes.set(position, value);
    }

    /// Writes `count` copies of `value` from the start, leaving the rest untouched.
    pub fn write_bytes(&mut self, value: u8, count: usize)
        requires
            old(self).wf(),
            count <= T::buffer_len(),
        ensures
            final(self).wf(),
            final(self)@ == overwrite(old(self)@, 0, repeat_byte(value, count as nat)),
    {
        write_repeat(&mut self.bytes, 0, value, count);
    }

    /// Writes `src` from the start, leaving trailing bytes untouched.
    pub fn write_slice(&mut self, src: &[u8])
        requires
            old(self).wf(),
            src@.len() <= T::buffer_len(),
        ensures
            final(self).wf(),
            final(self)@ == overwrite(old(self)@, 0, src@),
    {
        write_into(&mut self.bytes, 0, src);
    }

    /// Writes `src` from position `start` on, leaving the other bytes untouched.
    pub fn write_slice_at(&mut self, start: usize, src: &[u8])
        requires
            old(self).wf(),
            start + src@.len() <= T::buffer_len(),
        ensures
            final(self).wf(),
            final(self)@ == overwrite(old(self)@, start as int, src@),
    {
        write_into(&mut self.bytes, start, src);
    }

    /// Writes `src` from the start and sets every trailing byte to `tail_fill`.
    pub fn set_slice(&mut self, src: &[u8], tail_fill: u8)
        requires
            old(self).wf(),
            src@.len() <= T::buffer_len(),
        ensures
            final(self).wf(),
            final(self)@ == src@ + repeat_byte(tail_fill, (T::buffer_len() - src@.len()) as nat),
    {
        write_into(&mut self.bytes, 0, src);
        let n = self.bytes.len();
        write_repeat(&mut self.bytes, src.len(), tail_fill, n - src.len());
        assert(self@ =~= src@ + repeat_byte(tail_fill, (T::buffer_len() - src@.len()) as nat));
    }
}

/// `s` cut to `len` bytes, or lengthened to `len` bytes with copies of `value`.
pub open spec fn resized(s: Seq<u8>, len: nat, value: u8) -> Seq<u8> {
    if len <= s.len() {
        s.subrange(0, len as int)
    } else {
        s + repeat_byte(value, (len - s.len()) as nat)
    }
}

/// `s` split into its first `at` bytes and the rest.
pub open spec fn split_bytes(s: Seq<u8>, at: int) -> (Seq<u8>, Seq<u8>) {
    (s.subrange(0, at), s.subrange(at, s.len() as int))
}

/// `len` bytes repeating `chunk` from its start.
pub open spec fn cycle(chunk: Seq<u8>, len: nat) -> Seq<u8> {
    Seq::new(len, |i: int| chunk[i % chunk.len() as int])
}

/// Writes `len` bytes repeating `chunk` into `dst` from position `start` on.
fn write_cycle(dst: &mut Vec<u8>, start: usize, chunk: &[u8], len: usize)
    requires
        chunk@.len() > 0,
        start + len <= old(dst)@.len(),
    ensures
        final(dst)@ == overwrite(old(dst)@, start as int, cycle(chunk@, len as nat)),
{
    let dlen = dst.len();
    let n = chunk.len();
    let mut i: usize = 0;
    while i < len
        invariant
            start + len <= dst@.len(),
            dst@.len() == old(dst)@.len(),
            dst@.len() == dlen,
            n == chunk@.len(),
            n > 0,
            i <= len,
            forall|j: int| 0 <= j < start ==> dst@[j] == old(dst)@[j],
            forall|j: int| start + len <= j < dst@.len() ==> dst@[j] == old(dst)@[j],
            forall|j: int| start <= j < start + i ==> #[trigger] dst@[j] == chunk@[(j - start) % n as int],
            forall|j: int| start + i <= j < start + len ==> dst@[j] == old(dst)@[j],
        decreases len - i,
    {
        dst.set(start + i, chunk[i % n]);
        i = i + 1;
    }
    assert(dst@ =~= overwrite(old(dst)@, start as int, cycle(chunk@, len as nat))) by {
        assert forall|j: int| 0 <= j < dst@.len() implies dst@[j] == overwrite(
            old(dst)@,
            start as int,
            cycle(chunk@, len as nat),
        )[j] by {
        }
    }
}

/// Calls `<[u8]>::as_mut_array`, which hands out the slice's bytes as an array when the
/// slice holds exactly `LEN` of them, and nothing otherwise.
#[verifier::external_body]
fn slice_as_mut_array<const LEN: usize>(slice: &mut [u8]) -> (r: Option<&mut [u8; LEN]>)
    ensures
        r is Some <==> old(slice)@.len() == LEN,
        r matches Some(array) ==> array@ == old(slice)@ && final(slice)@ == final(array)@,
{
    slice.as_mut_array()
}

/// An array holding the first `LEN` bytes of `src`.
fn array_from<const LEN: usize>(src: &[u8]) -> (r: [u8; LEN])
    requires
        LEN <= src@.len(),
    ensures
        r@ == src@.subrange(0, LEN as int),
{
    let mut array = [0u8; LEN];
    let mut i: usize = 0;
    while i < LEN
        invariant
            LEN <= src@.len(),
            i <= LEN,
            array@.len() == LEN,
            forall|j: int| 0 <= j < i ==> array@[j] == src@[j],
        decreases LEN - i,
    {
        array[i] = src[i];
        i = i + 1;
    }
    assert(array@ =~= src@.subrange(0, LEN as int));
    array
}

impl<T: SlotBuffer> Slot<T> {
    /// The first `N` bytes, or `None` where the slot is shorter.
    pub fn first_chunk<const N: usize>(&self) -> (r: Option<[u8; N]>)
        requires
            self.wf(),
        ensures
            r is None <==> N > T::buffer_len(),
            r matches Some(a) ==> a@ == self@.subrange(0, N as int),
    {
        if N > self.bytes.len() {
            return None;
        }
        Some(array_from(self.as_slice()))
    }

    /// The last `N` bytes, or `None` where the slot is shorter.
    pub fn last_chunk<const N: usize>(&self) -> (r: Option<[u8; N]>)
        requires
            self.wf(),
        ensures
            r is None <==> N > T::buffer_len(),
            r matches Some(a) ==> a@ == self@.subrange(T::buffer_len() - N, T::buffer_len() as int),
    {
        let len = self.bytes.len();
        if N > len {
            return None;
        }
        let (_, tail) = self.as_slice().split_at(len - N);
        Some(array_from(tail))
    }

    /// The bytes as an array of the same length.
    pub fn as_array<const LEN: usize>(&self) -> (r: [u8; LEN])
        requires
            self.wf(),
            LEN == T::buffer_len(),
        ensures
            r@ == self@,
    {
        let r = array_from(self.as_slice());
        assert(self@.subrange(0, LEN as int) =~= self@);
        r
    }

    /// The bytes as an array of the same length, for writing.
    pub fn as_mut_array<const LEN: usize>(&mut self) -> (r: &mut [u8; LEN])
        requires
            old(self).wf(),
            LEN == T::buffer_len(),
        ensures
            r@ == old(self)@,
            final(self)@ == final(r)@,
            final(self).wf(),
    {
        let slice = self.bytes.as_mut_slice();
        slice_as_mut_array(slice).unwrap()
    }

    /// The bytes as an array of the same length.
    pub fn into_array<const LEN: usize>(self) -> (r: [u8; LEN])
        requires
            self.wf(),
            LEN == T::buffer_len(),
        ensures
            r@ == self@,
    {
        self.as_array()
    }

    /// The first `LEN` bytes as an array.
    pub fn into_array_truncated<const LEN: usize>(self) -> (r: [u8; LEN])
        requires
            self.wf(),
            LEN <= T::buffer_len(),
        ensures
            r@ == self@.subrange(0, LEN as int),
    {
        array_from(self.as_slice())
    }

    /// The bytes as an array of `LEN` bytes; where it is longer, `value` fills the trailing bytes.
    pub fn into_array_resize<const LEN: usize>(self, value: u8) -> (r: [u8; LEN])
        requires
            self.wf(),
        ensures
            r@ == resized(self@, LEN as nat, value),
    {
        let mut bytes = self.bytes;
        let len = bytes.len();
        if LEN > len {
            push_repeat(&mut bytes, value, LEN - len);
        }
        let r = array_from(bytes.as_slice());
        assert(r@ =~= resized(self@, LEN as nat, value));
        r
    }

    /// Joins this slot and `other` into one slot holding the bytes of both, in order.
    pub fn push<U: SlotBuffer>(self, other: Slot<U>) -> (r: Slot<(T, U)>)
        requires
            self.wf(),
            other.wf(),
            T::buffer_len() + U::buffer_len() < isize::MAX,
        ensures
            r.wf(),
            r@ == self@ + other@,
    {
        let mut bytes = self.bytes;
        push_range(&mut bytes, other.as_slice(), 0, other.bytes.len());
        assert(other@.subrange(0, other@.len() as int) =~= other@);
        Slot::from_vec(bytes)
    }

    /// A slot of type `U` holding these bytes, cut to its length or lengthened with `value`.
    pub fn resize<U: SlotBuffer>(self, value: u8) -> (r: Slot<U>)
        requires
            self.wf(),
            U::buffer_len() < isize::MAX,
        ensures
            r.wf(),
            r@ == resized(self@, U::buffer_len(), value),
    {
        let mut bytes = self.bytes;
        let len = bytes.len();
        let target = U::buffer_size();
        if target > len {
            push_repeat(&mut bytes, value, target - len);
            Slot::from_vec(bytes)
        } else {
            let mut out: Vec<u8> = Vec::new();
            push_range(&mut out, bytes.as_slice(), 0, target);
            Slot::from_vec(out)
        }
    }

    /// A slot of type `U`, no longer than this one, holding the first bytes of this one.
    pub fn truncated<U: SlotBuffer>(self) -> (r: Slot<U>)
        requires
            self.wf(),
            U::buffer_len() <= T::buffer_len(),
        ensures
            r.wf(),
            r@ == self@.subrange(0, U::buffer_len() as int),
    {
        self.resize(0)
    }

    /// Fills the slot with whole repetitions of `chunk` from the start and returns where the
    /// untouched tail, shorter than `chunk`, begins.
    pub fn fill_chunks<const N: usize>(&mut self, chunk: &[u8; N]) -> (r: usize)
        requires
            old(self).wf(),
            N > 0,
        ensures
            final(self).wf(),
            r == T::buffer_len() - (T::buffer_len() as int) % (N as int),
            final(self)@ == overwrite(old(self)@, 0, cycle(chunk@, r as nat)),
    {
        self.fill_cycle(chunk.as_slice())
    }

    /// Fills the whole slot with repetitions of `chunk`, whose length divides that of the slot.
    pub fn fill_chunks_exact<const N: usize>(&mut self, chunk: &[u8; N])
        requires
            old(self).wf(),
            N > 0,
            (T::buffer_len() as int) % (N as int) == 0,
        ensures
            final(self).wf(),
            final(self)@ == cycle(chunk@, T::buffer_len()),
    {
        self.fill_cycle(chunk.as_slice());
        assert(overwrite(old(self)@, 0, cycle(chunk@, T::buffer_len())) =~= cycle(chunk@, T::buffer_len()));
    }

    /// Fills the slot with whole repetitions of `chunk` up to its end and returns the length
    /// of the untouched head, shorter than `chunk`.
    pub fn fill_rchunks<const N: usize>(&mut self, chunk: &[u8; N]) -> (r: usize)
        requires
            old(self).wf(),
            N > 0,
        ensures
            final(self).wf(),
            r == (T::buffer_len() as int) % (N as int),
            final(self)@ == overwrite(old(self)@, r as int, cycle(chunk@, (T::buffer_len() - r) as nat)),
    {
        let len = self.bytes.len();
        let head = len % N;
        assert(head <= len) by (nonlinear_arith)
            requires
                head == len % N,
                N > 0,
        ;
        write_cycle(&mut self.bytes, head, chunk.as_slice(), len - head);
        head
    }

    /// Fills the slot with whole repetitions of `chunk` from the start; returns where the
    /// untouched tail begins.
    fn fill_cycle(&mut self, chunk: &[u8]) -> (r: usize)
        requires
            old(self).wf(),
            chunk@.len() > 0,
        ensures
            final(self).wf(),
            r == T::buffer_len() - (T::buffer_len() as int) % (chunk@.len() as int),
            final(self)@ == overwrite(old(self)@, 0, cycle(chunk@, r as nat)),
    {
        let len = self.bytes.len();
        let n = chunk.len();
        assert(len % n <= len) by (nonlinear_arith)
            requires
                n > 0,
        ;
        let filled = len - len % n;
        write_cycle(&mut self.bytes, 0, chunk, filled);
        filled
    }

    /// Fills the slot with whole repetitions of the UTF-8 encoding of `c` from the start and
    /// returns where the untouched tail, shorter than the encoding, begins.
    pub fn fill_char_utf8(&mut self, c: char) -> (r: usize)
        requires
            old(self).wf(),
        ensures
            final(self).wf(),
            r == T::buffer_len() - (T::buffer_len() as int) % (encode_scalar(c as u32).len() as int),
            final(self)@ == overwrite(old(self)@, 0, cycle(encode_scalar(c as u32), r as nat)),
    {
        let encoded = encode_char(c);
        self.fill_cycle(encoded.as_slice())
    }

    /// Fills the whole slot with repetitions of the UTF-8 encoding of `c`, whose length
    /// divides that of the slot.
    pub fn fill_char_utf8_exact(&mut self, c: char)
        requires
            old(self).wf(),
            (T::buffer_len() as int) % (encode_scalar(c as u32).len() as int) == 0,
        ensures
            final(self).wf(),
            final(self)@ == cycle(encode_scalar(c as u32), T::buffer_len()),
    {
        let encoded = encode_char(c);
        self.fill_cycle(encoded.as_slice());
        assert(overwrite(old(self)@, 0, cycle(encode_scalar(c as u32), T::buffer_len())) =~= cycle(
            encode_scalar(c as u32),
            T::buffer_len(),
        ));
    }

    /// Whether the two slots hold the same bytes.
    pub fn eq<U: SlotBuffer>(&self, other: &Slot<U>) -> (r: bool)
        ensures
            r == (self@ == other@),
    {
        slices_equal(self.as_slice(), other.as_slice())
    }
}

/// Whether `a` and `b` hold the same bytes.
fn slices_equal(a: &[u8], b: &[u8]) -> (r: bool)
    ensures
        r == (a@ == b@),
{
    if a.len() != b.len() {
        return false;
    }
    let mut i: usize = 0;
    while i < a.len()
        invariant
            a@.len() == b@.len(),
            i <= a@.len(),
            forall|j: int| 0 <= j < i ==> a@[j] == b@[j],
        decreases a@.len() - i,
    {
        if a[i] != b[i] {
            return false;
        }
        i = i + 1;
    }
    assert(a@ =~= b@);
    true
}

/// Calls `Vec::into_boxed_slice`, which keeps the items in their order and only gives up
/// spare capacity.
#[verifier::external_body]
pub(crate) fn boxed_slice<E>(items: Vec<E>) -> (r: Box<[E]>)
    ensures
        r@ == items@,
{
    items.into_boxed_slice()
}

/// Calls `Box::leak`, which hands out the boxed value for the rest of the program.
#[verifier::external_body]
pub(crate) fn leak_box<V: ?Sized + View + 'static>(boxed: Box<V>) -> (r: &'static mut V)
    ensures
        r@ == boxed@,
{
    Box::leak(boxed)
}

impl<T: SlotBuffer> Slot<T> {
    /// A boxed slot whose every byte is `value`.
    pub fn new_boxed_fill(value: u8) -> (r: Box<Self>)
        requires
            T::buffer_len() < isize::MAX,
        ensures
            r.wf(),
            r@ == repeat_byte(value, T::buffer_len()),
    {
        Box::new(Self::filled_unchecked(value))
    }

    /// A boxed slot of zero bytes.
    pub fn new_boxed_zeroed() -> (r: Box<Self>)
        requires
            T::buffer_len() < isize::MAX,
        ensures
            r.wf(),
            r@ == repeat_byte(0, T::buffer_len()),
    {
        Box::new(Self::zeroed_unchecked())
    }

    /// The bytes as a vector.
    pub fn into_vec(self) -> (r: Vec<u8>)
        ensures
            r@ == self@,
    {
        self.bytes
    }

    /// The bytes as a vector; its capacity is the length of the slot.
    pub fn into_vec_exact(self) -> (r: Vec<u8>)
        ensures
            r@ == self@,
    {
        self.bytes
    }

    /// The bytes as a boxed slice.
    pub fn into_boxed_slice(self) -> (r: Box<[u8]>)
        ensures
            r@ == self@,
    {
        boxed_slice(self.bytes)
    }

    /// The bytes, leaked for the rest of the program.
    pub fn leak(self) -> (r: &'static mut [u8])
        ensures
            r@ == self@,
    {
        leak_box(self.into_boxed_slice())
    }
}

impl<T: SlotBuffer, U: SlotBuffer> Slot<(T, U)> {
    /// Splits the slot into its first `T`-long part and the rest.
    pub fn pop(self) -> (r: (Slot<T>, Slot<U>))
        requires
            self.wf(),
        ensures
            r.0.wf(),
            r.1.wf(),
            (r.0@, r.1@) == split_bytes(self@, T::buffer_len() as int),
    {
        let at = T::buffer_size();
        let len = self.bytes.len();
        let mut head: Vec<u8> = Vec::new();
        let mut tail: Vec<u8> = Vec::new();
        push_range(&mut head, self.as_slice(), 0, at);
        push_range(&mut tail, self.as_slice(), at, len - at);
        (Slot::from_vec(head), Slot::from_vec(tail))
    }

    /// The first `T`-long part of the slot.
    pub fn popped(self) -> (r: Slot<T>)
        requires
            self.wf(),
        ensures
            r.wf(),
            r@ == self@.subrange(0, T::buffer_len() as int),
    {
        self.pop().0
    }
}

impl<const N: usize> Slot<[u8; N]> {
    /// A slot holding the bytes of a byte string literal.
    pub fn lit(byte_literal: &[u8; N]) -> (r: Self)
        requires
            N < isize::MAX,
        ensures
            r.wf(),
            r@ == byte_literal@,
    {
        Self::from_slice_unchecked(byte_literal.as_slice())
    }

    /// A slot holding the bytes of `array`.
    pub fn new_array(array: [u8; N]) -> (r: Self)
        requires
            N < isize::MAX,
        ensures
            r.wf(),
            r@ == array@,
    {
        Self::from_slice_unchecked(array.as_slice())
    }

    /// A slot of zero bytes.
    pub fn new_array_zeroed() -> (r: Self)
        requires
            N < isize::MAX,
        ensures
            r.wf(),
            r@ == repeat_byte(0, N as nat),
    {
        Self::zeroed_unchecked()
    }

    /// A slot whose every byte is `value`.
    pub fn new_array_fill(value: u8) -> (r: Self)
        requires
            N < isize::MAX,
        ensures
            r.wf(),
            r@ == repeat_byte(value, N as nat),
    {
        Self::filled_unchecked(value)
    }
}

} // verus!

verus! {

/// Splitting the bytes of two joined slots where the first ends gives both back:
/// [`Slot::pop`] undoes [`Slot::push`].
pub proof fn lemma_push_then_pop(a: Seq<u8>, b: Seq<u8>)
    ensures
        split_bytes(a + b, a.len() as int) == (a, b),
{
    assert((a + b).subrange(0, a.len() as int) =~= a);
    assert((a + b).subrange(a.len() as int, (a + b).len() as int) =~= b);
}

/// Joining the two parts of split bytes gives them back: [`Slot::push`] undoes [`Slot::pop`].
pub proof fn lemma_pop_then_push(s: Seq<u8>, at: int)
    requires
        0 <= at <= s.len(),
    ensures
        split_bytes(s, at).0 + split_bytes(s, at).1 == s,
{
    assert(split_bytes(s, at).0 + split_bytes(s, at).1 =~= s);
}

/// Resizing to the same length changes nothing, and resizing back to the starting length
/// after lengthening gives the starting bytes.
pub proof fn lemma_resize_back(s: Seq<u8>, len: nat, value: u8, other: u8)
    requires
        s.len() <= len,
    ensures
        resized(s, s.len(), value) == s,
        resized(resized(s, len, value), s.len(), other) == s,
{
    assert(s.subrange(0, s.len() as int) =~= s);
    assert(resized(s, len, value).subrange(0, s.len() as int) =~= s);
}

/// The `j`-th byte of the `k`-th copy of `chunk` is the `j`-th byte of `chunk`.
proof fn lemma_cycle_at(chunk: Seq<u8>, len: nat, k: int, j: int)
    requires
        chunk.len() > 0,
        0 <= k,
        0 <= j < chunk.len(),
        k * chunk.len() + j < len,
    ensures
        cycle(chunk, len)[k * chunk.len() + j] == chunk[j],
{
    let n = chunk.len() as int;
    vstd::arithmetic::div_mod::lemma_fundamental_div_mod_converse_mod(k * n + j, n, k, j);
}

/// Law: filling repeats whole copies of `chunk`, one after another: within the filled
/// length, the `k`-th run of `chunk.len()` bytes is `chunk` itself.
pub proof fn lemma_cycle_blocks(chunk: Seq<u8>, len: nat, k: int)
    requires
        chunk.len() > 0,
        0 <= k,
        (k + 1) * chunk.len() <= len,
    ensures
        cycle(chunk, len).len() == len,
        cycle(chunk, len).subrange(k * chunk.len(), (k + 1) * chunk.len()) == chunk,
{
    let n = chunk.len() as int;
    assert((k + 1) * n == k * n + n) by (nonlinear_arith);
    assert forall|j: int| 0 <= j < n implies #[trigger] cycle(chunk, len).subrange(k * n, (k + 1) * n)[j]
        == chunk[j] by {
        lemma_cycle_at(chunk, len, k, j);
    }
    assert(cycle(chunk, len).subrange(k * n, (k + 1) * n) =~= chunk);
}

/// Law: past its last whole copy of `chunk`, the filled part starts another copy of it.
pub proof fn lemma_cycle_tail(chunk: Seq<u8>, len: nat, k: int)
    requires
        chunk.len() > 0,
        0 <= k,
        k * chunk.len() <= len < (k + 1) * chunk.len(),
    ensures
        cycle(chunk, len).subrange(k * chunk.len(), len as int) == chunk.subrange(
            0,
            len - k * chunk.len(),
        ),
{
    let n = chunk.len() as int;
    assert((k + 1) * n == k * n + n) by (nonlinear_arith);
    assert forall|j: int| 0 <= j < len - k * n implies #[trigger] cycle(chunk, len).subrange(
        k * n,
        len as int,
    )[j] == chunk[j] by {
        lemma_cycle_at(chunk, len, k, j);
    }
    assert(cycle(chunk, len).subrange(k * n, len as int) =~= chunk.subrange(0, len - k * n));
}

/// `chunk` written `count` times, one copy after another.
pub open spec fn repeat_chunk(chunk: Seq<u8>, count: nat) -> Seq<u8>
    decreases count,
{
    if count == 0 {
        Seq::empty()
    } else {
        repeat_chunk(chunk, (count - 1) as nat) + chunk
    }
}

/// Law: filling `count` whole copies' worth of bytes writes `chunk` `count` times.
pub proof fn lemma_cycle_whole(chunk: Seq<u8>, count: nat)
    requires
        chunk.len() > 0,
    ensures
        cycle(chunk, count * chunk.len()) == repeat_chunk(chunk, count),
    decreases count,
{
    let n = chunk.len() as int;
    if count == 0 {
        assert(cycle(chunk, 0) =~= Seq::<u8>::empty());
    } else {
        let c = (count - 1) as nat;
        lemma_cycle_whole(chunk, c);
        assert(count * n == c * n + n) by (nonlinear_arith)
            requires
                c == count - 1,
        ;
        let whole = cycle(chunk, count * chunk.len());
        let prev = cycle(chunk, c * chunk.len());
        assert(c * n >= 0) by (nonlinear_arith)
            requires
                n > 0,
        ;
        assert forall|i: int| 0 <= i < whole.len() implies #[trigger] whole[i] == (prev + chunk)[i] by {
            if i < c * n {
                assert(whole[i] == prev[i]);
            } else {
                lemma_cycle_at(chunk, count * chunk.len(), c as int, i - c * n);
            }
        }
        assert(whole =~= prev + chunk);
    }
}

/// Filling with a one-byte chunk is filling with that byte.
pub proof fn lemma_cycle_single(value: u8, len: nat)
    ensures
        cycle(seq![value], len) == repeat_byte(value, len),
{
    assert(cycle(seq![value], len) =~= repeat_byte(value, len));
}

} // verus!
