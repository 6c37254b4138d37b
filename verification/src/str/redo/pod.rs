//! A string buffer whose length is fixed by a type: see [`PodStr`].

use crate::slot::{overwrite, push_range, repeat_byte, write_into, SlotBuffer};
use crate::utf8::encode_char;
use core::marker::PhantomData;
use vstd::prelude::*;
use vstd::string::{StrSliceExecFns, StringSliceAdditionalSpecFns};
use vstd::utf8::{
    decode_utf8, encode_scalar, encode_utf8, encode_utf8_decode_utf8, encode_utf8_valid_utf8,
    is_char_boundary, is_char_boundary_iff_not_is_continuation_byte, is_continuation_byte,
    valid_utf8, valid_utf8_concat, valid_utf8_split,
};

verus! {

/// Types that act as the state of a [`PodStr`], fixing its length.
pub trait PodStrBuffer: SlotBuffer {

}

impl<const N: usize> PodStrBuffer for [u8; N] {

}

impl<T0: PodStrBuffer, T1: PodStrBuffer> PodStrBuffer for (T0, T1) {

}

impl SlotBuffer for () {
    open spec fn buffer_len() -> nat {
        0
    }

    fn buffer_size() -> (r: usize) {
        0
    }
}

impl PodStrBuffer for () {

}

/// Type-level wrapper for using a single buffer type where a tuple is expected.
#[derive(Debug, Clone, Copy)]
pub struct Single<T>(T);

impl<T: SlotBuffer> SlotBuffer for Single<T> {
    open spec fn buffer_len() -> nat {
        T::buffer_len()
    }

    fn buffer_size() -> (r: usize) {
        T::buffer_size()
    }
}

impl<T: PodStrBuffer> PodStrBuffer for Single<T> {

}

/// `count` copies of `bytes`, one after another.
pub open spec fn repeat_bytes(bytes: Seq<u8>, count: nat) -> Seq<u8>
    decreases count,
{
    if count == 0 {
        seq![]
    } else {
        bytes + repeat_bytes(bytes, (count - 1) as nat)
    }
}

/// The bytes of `pod`, interpreted as text.
pub open spec fn text_of(bytes: Seq<u8>) -> Seq<char> {
    decode_utf8(bytes)
}

proof fn lemma_repeat_push(bytes: Seq<u8>, count: nat)
    ensures
        repeat_bytes(bytes, count + 1) == repeat_bytes(bytes, count) + bytes,
    decreases count,
{
    if count > 0 {
        let prev = repeat_bytes(bytes, (count - 1) as nat);
        lemma_repeat_push(bytes, (count - 1) as nat);
        assert(((count - 1) + 1) as nat == count);
        assert(repeat_bytes(bytes, count) == bytes + prev);
        assert(repeat_bytes(bytes, count + 1) == bytes + repeat_bytes(bytes, count));
        assert(repeat_bytes(bytes, count) == prev + bytes);
        assert(bytes + (prev + bytes) =~= (bytes + prev) + bytes);
    } else {
        assert(repeat_bytes(bytes, 0) == Seq::<u8>::empty());
        assert(repeat_bytes(bytes, 1) == bytes + repeat_bytes(bytes, 0));
        assert(repeat_bytes(bytes, 1) =~= bytes);
        assert(repeat_bytes(bytes, 0) + bytes =~= bytes);
    }
}

proof fn lemma_repeat_len(bytes: Seq<u8>, count: nat)
    ensures
        repeat_bytes(bytes, count).len() == count * bytes.len(),
    decreases count,
{
    if count > 0 {
        let m = (count - 1) as nat;
        lemma_repeat_len(bytes, m);
        assert(repeat_bytes(bytes, count) == bytes + repeat_bytes(bytes, m));
        assert(count * bytes.len() == bytes.len() + m * bytes.len()) by (nonlinear_arith)
            requires
                m + 1 == count,
        ;
        assert((bytes + repeat_bytes(bytes, m)).len() == bytes.len() + repeat_bytes(bytes, m).len());
    } else {
        assert(repeat_bytes(bytes, 0).len() == 0);
        assert(0 * bytes.len() == 0);
    }
}

/// The encoding of `count` copies of `c` is `count` copies of the encoding of `c`.
proof fn lemma_repeat_encodes(c: char, count: nat)
    ensures
        repeat_bytes(encode_scalar(c as u32), count) == encode_utf8(Seq::new(count, |i: int| c)),
    decreases count,
{
    if count > 0 {
        lemma_repeat_encodes(c, (count - 1) as nat);
        assert(Seq::new(count, |i: int| c).drop_first() =~= Seq::new((count - 1) as nat, |i: int| c));
    } else {
        assert(Seq::new(0, |i: int| c) =~= Seq::<char>::empty());
    }
}

/// Filling with a character: the bytes are valid UTF-8 and read back as `count` copies of it.
pub proof fn lemma_fill_decodes(c: char, count: nat)
    ensures
        valid_utf8(repeat_bytes(encode_scalar(c as u32), count)),
        text_of(repeat_bytes(encode_scalar(c as u32), count)) == Seq::new(count, |i: int| c),
{
    lemma_repeat_encodes(c, count);
    encode_utf8_valid_utf8(Seq::new(count, |i: int| c));
    encode_utf8_decode_utf8(Seq::new(count, |i: int| c));
}

proof fn lemma_ascii_encoding(byte: u8)
    requires
        byte < 128,
    ensures
        encode_scalar(byte as u32) == seq![byte],
{
    assert(((byte as u32) & 0x7F) as u8 == byte) by (bit_vector)
        requires
            byte < 128,
    ;
}

proof fn lemma_repeat_single(byte: u8, count: nat)
    ensures
        repeat_bytes(seq![byte], count) == repeat_byte(byte, count),
    decreases count,
{
    if count > 0 {
        lemma_repeat_single(byte, (count - 1) as nat);
    }
    assert(repeat_bytes(seq![byte], count) =~= repeat_byte(byte, count));
}

/// `count` copies of an ASCII byte are valid UTF-8.
pub proof fn lemma_ascii_fill_valid(byte: u8, count: nat)
    requires
        byte < 128,
    ensures
        valid_utf8(repeat_byte(byte, count)),
{
    lemma_ascii_encoding(byte);
    lemma_repeat_single(byte, count);
    lemma_fill_decodes(byte as char, count);
    assert((byte as char) as u32 == byte as u32);
}

/// `count` copies of `byte`.
pub(crate) fn ascii_run(byte: u8, count: usize) -> (r: Vec<u8>)
    ensures
        r@ == repeat_byte(byte, count as nat),
{
    let mut out: Vec<u8> = Vec::new();
    crate::slot::push_repeat(&mut out, byte, count);
    assert(out@ =~= repeat_byte(byte, count as nat));
    out
}

/// `count` copies of `bytes`.
fn repeat_into(bytes: &[u8], count: usize) -> (r: Vec<u8>)
    ensures
        r@ == repeat_bytes(bytes@, count as nat),
{
    let mut out: Vec<u8> = Vec::new();
    let mut i: usize = 0;
    while i < count
        invariant
            i <= count,
            out@ == repeat_bytes(bytes@, i as nat),
        decreases count - i,
    {
        push_range(&mut out, bytes, 0, bytes.len());
        proof {
            assert(bytes@.subrange(0, bytes@.len() as int) =~= bytes@);
            lemma_repeat_push(bytes@, i as nat);
        }
        i = i + 1;
    }
    out
}

/// The error of `std`'s UTF-8 check, carried through as an opaque value.
#[verifier::external_type_specification]
#[verifier::external_body]
pub struct ExUtf8Error(core::str::Utf8Error);

/// Calls `core::str::from_utf8`, which succeeds exactly on valid UTF-8 and then views the
/// same bytes as text. Where it fails, nothing is stated of the error's fields.
#[verifier::external_body]
pub(crate) fn check_utf8(bytes: &[u8]) -> (r: Result<&str, core::str::Utf8Error>)
    ensures
        r is Ok <==> valid_utf8(bytes@),
        r matches Ok(s) ==> s.spec_bytes() == bytes@,
{
    core::str::from_utf8(bytes)
}

/// A string buffer whose length is fixed by the type `T`, always holding valid UTF-8.
#[derive(Debug)]
pub struct PodStr<T: PodStrBuffer> {
    bytes: Vec<u8>,
    marker: PhantomData<T>,
}

impl<T: PodStrBuffer> View for PodStr<T> {
    type V = Seq<u8>;

    closed spec fn view(&self) -> Seq<u8> {
        self.bytes@
    }
}

impl<T: PodStrBuffer> PodStr<T> {
    /// The buffer holds exactly as many bytes as its type fixes, and they are valid UTF-8.
    pub open spec fn wf(self) -> bool {
        &&& self@.len() == T::buffer_len()
        &&& T::buffer_len() < isize::MAX
        &&& valid_utf8(self@)
    }

    fn from_vec(bytes: Vec<u8>) -> (r: Self)
        ensures
            r@ == bytes@,
    {
        PodStr { bytes, marker: PhantomData }
    }

    /// Fills the buffer with the character `c`; `None` where the buffer's length is not a
    /// multiple of the length of its encoding.
    pub fn from_fill(c: char) -> (r: Option<Self>)
        requires
            T::buffer_len() < isize::MAX,
        ensures
            r is None <==> (T::buffer_len() as int) % (encode_scalar(c as u32).len() as int) != 0,
            r matches Some(p) ==> p.wf() && p@ == repeat_bytes(
                encode_scalar(c as u32),
                T::buffer_len() / encode_scalar(c as u32).len(),
            ),
    {
        let encoded = encode_char(c);
        let width = encoded.len();
        let len = T::buffer_size();
        if len % width != 0 {
            return None;
        }
        let count = len / width;
        let bytes = repeat_into(encoded.as_slice(), count);
        proof {
            lemma_fill_decodes(c, count as nat);
            lemma_repeat_len(encoded@, count as nat);
            vstd::arithmetic::div_mod::lemma_fundamental_div_mod(len as int, width as int);
            assert(count * width == len) by (nonlinear_arith)
                requires
                    len == width * (len / width) + len % width,
                    len % width == 0,
                    count == len / width,
            ;
        }
        Some(Self::from_vec(bytes))
    }

    /// Fills the buffer with the ASCII byte `byte`; `None` where it is not ASCII.
    pub fn from_fill_ascii(byte: u8) -> (r: Option<Self>)
        requires
            T::buffer_len() < isize::MAX,
        ensures
            r is None <==> byte >= 128,
            r matches Some(p) ==> p.wf() && p@ == repeat_byte(byte, T::buffer_len()),
    {
        if byte >= 128 {
            return None;
        }
        let single = [byte];
        let len = T::buffer_size();
        let bytes = repeat_into(single.as_slice(), len);
        proof {
            assert(single@ =~= seq![byte]);
            lemma_ascii_encoding(byte);
            lemma_repeat_single(byte, len as nat);
            lemma_fill_decodes(byte as char, len as nat);
            assert((byte as char) as u32 == byte as u32);
        }
        Some(Self::from_vec(bytes))
    }

    /// Fills the buffer with the ASCII byte `BYTE`, which must be ASCII.
    pub fn from_fill_ascii_const<const BYTE: u8>() -> (r: Self)
        requires
            T::buffer_len() < isize::MAX,
            BYTE < 128,
        ensures
            r.wf(),
            r@ == repeat_byte(BYTE, T::buffer_len()),
    {
        match Self::from_fill_ascii(BYTE) {
            Some(p) => p,
            None => Self::from_vec(Vec::new()),
        }
    }

    /// The last character; the buffer must not be empty.
    pub fn last_char(&self) -> (r: char)
        requires
            self.wf(),
            T::buffer_len() > 0,
        ensures
            r == text_of(self@).last(),
    {
        let s = self.as_str();
        let count = s.unicode_len();
        proof {
            encode_utf8_decode_utf8(s@);
            if count == 0 {
                assert(encode_utf8(s@) =~= Seq::<u8>::empty());
            }
        }
        s.get_char(count - 1)
    }

    /// Joins this buffer and the one taken out of `item`; hands this buffer back where `item`
    /// holds none.
    pub fn push_from<U: PodStrBuffer>(self, item: &mut Option<PodStr<U>>) -> (r: Result<
        PodStr<(T, U)>,
        Self,
    >)
        requires
            self.wf(),
            *old(item) matches Some(p) ==> p.wf(),
            T::buffer_len() + U::buffer_len() < isize::MAX,
        ensures
            *final(item) is None,
            match *old(item) {
                Some(p) => r matches Ok(joined) && joined.wf() && joined@ == self@ + p@,
                None => r matches Err(back) && back@ == self@,
            },
    {
        match item.take() {
            None => Err(self),
            Some(p) => Ok(self.push(p)),
        }
    }

    /// A buffer of nul bytes.
    pub fn zeroed() -> (r: Self)
        requires
            T::buffer_len() < isize::MAX,
        ensures
            r.wf(),
            r@ == repeat_byte(0, T::buffer_len()),
    {
        match Self::from_fill_ascii(0) {
            Some(p) => p,
            None => Self::from_vec(Vec::new()),
        }
    }

    /// A buffer of nul bytes, as [`Self::zeroed`].
    pub fn new() -> (r: Self)
        requires
            T::buffer_len() < isize::MAX,
        ensures
            r.wf(),
            r@ == repeat_byte(0, T::buffer_len()),
    {
        Self::zeroed()
    }

    /// The buffer holding `bytes`, whose length must be that of the buffer; refused where
    /// they are not valid UTF-8.
    pub fn from_utf8_slice(bytes: &[u8]) -> (r: Result<Self, core::str::Utf8Error>)
        requires
            T::buffer_len() < isize::MAX,
            bytes@.len() == T::buffer_len(),
        ensures
            r is Ok <==> valid_utf8(bytes@),
            r matches Ok(p) ==> p.wf() && p@ == bytes@,
    {
        match check_utf8(bytes) {
            Ok(_) => Ok(Self::from_utf8_slice_unchecked(bytes)),
            Err(error) => Err(error),
        }
    }

    /// The buffer holding `bytes`, of the buffer's length; refused where they are not
    /// valid UTF-8.
    pub fn from_utf8_array<const LEN: usize>(bytes: [u8; LEN]) -> (r: Result<
        Self,
        core::str::Utf8Error,
    >)
        requires
            T::buffer_len() < isize::MAX,
            LEN == T::buffer_len(),
        ensures
            r is Ok <==> valid_utf8(bytes@),
            r matches Ok(p) ==> p.wf() && p@ == bytes@,
    {
        Self::from_utf8_slice(bytes.as_slice())
    }

    /// The buffer holding `bytes`, which must be valid UTF-8 of the buffer's length.
    pub fn from_utf8_slice_unchecked(bytes: &[u8]) -> (r: Self)
        requires
            T::buffer_len() < isize::MAX,
            bytes@.len() == T::buffer_len(),
            valid_utf8(bytes@),
        ensures
            r.wf(),
            r@ == bytes@,
    {
        let mut out: Vec<u8> = Vec::new();
        push_range(&mut out, bytes, 0, bytes.len());
        assert(bytes@.subrange(0, bytes@.len() as int) =~= bytes@);
        Self::from_vec(out)
    }

    /// The bytes of the buffer.
    pub fn as_bytes(&self) -> (r: &[u8])
        ensures
            r@ == self@,
    {
        self.bytes.as_slice()
    }

    /// The buffer as text.
    pub fn as_str(&self) -> (r: &str)
        requires
            self.wf(),
        ensures
            r.spec_bytes() == self@,
            r@ == text_of(self@),
    {
        match check_utf8(self.bytes.as_slice()) {
            Ok(s) => {
                proof {
                    encode_utf8_decode_utf8(s@);
                }
                s
            },
            Err(_) => "",
        }
    }

    /// The text as an owned string.
    pub fn into_string(self) -> (r: String)
        requires
            self.wf(),
        ensures
            r@ == text_of(self@),
    {
        self.as_str().to_owned()
    }

    /// Sets every byte to nul.
    pub fn clear(&mut self)
        requires
            old(self).wf(),
        ensures
            final(self).wf(),
            final(self)@ == repeat_byte(0, T::buffer_len()),
    {
        *self = Self::zeroed();
    }

    /// Fills the buffer with the character `c`, whose encoding's length must divide the
    /// buffer's.
    pub fn fill(&mut self, c: char)
        requires
            old(self).wf(),
            (T::buffer_len() as int) % (encode_scalar(c as u32).len() as int) == 0,
        ensures
            final(self).wf(),
            final(self)@ == repeat_bytes(
                encode_scalar(c as u32),
                T::buffer_len() / encode_scalar(c as u32).len(),
            ),
    {
        if let Some(p) = Self::from_fill(c) {
            *self = p;
        }
    }

    /// Fills the buffer with the ASCII byte `byte`.
    pub fn fill_ascii(&mut self, byte: u8)
        requires
            old(self).wf(),
            byte < 128,
        ensures
            final(self).wf(),
            final(self)@ == repeat_byte(byte, T::buffer_len()),
    {
        if let Some(p) = Self::from_fill_ascii(byte) {
            *self = p;
        }
    }

    /// The first `N` bytes, `N` being at most the buffer's length.
    pub fn into_first_chunk<const N: usize>(self) -> (r: [u8; N])
        requires
            self.wf(),
            N <= T::buffer_len(),
        ensures
            r@ == self@.subrange(0, N as int),
    {
        let mut array = [0u8; N];
        let mut i: usize = 0;
        while i < N
            invariant
                N <= self@.len(),
                i <= N,
                array@.len() == N,
                forall|j: int| 0 <= j < i ==> array@[j] == self@[j],
            decreases N - i,
        {
            array[i] = self.bytes[i];
            i = i + 1;
        }
        assert(array@ =~= self@.subrange(0, N as int));
        array
    }

    /// Whether every byte is ASCII.
    pub fn is_ascii(&self) -> (r: bool)
        ensures
            r == (forall|i: int| 0 <= i < self@.len() ==> self@[i] < 128),
    {
        let mut i: usize = 0;
        while i < self.bytes.len()
            invariant
                i <= self@.len(),
                forall|j: int| 0 <= j < i ==> self@[j] < 128,
            decreases self@.len() - i,
        {
            if self.bytes[i] >= 128 {
                return false;
            }
            i = i + 1;
        }
        true
    }

    /// Whether `index` is the start of a character or the end of the buffer.
    pub fn is_char_boundary(&self, index: usize) -> (r: bool)
        requires
            self.wf(),
        ensures
            r == is_char_boundary(self@, index as int),
    {
        let len = self.bytes.len();
        if index == 0 || index == len {
            proof {
                vstd::utf8::is_char_boundary_start_end_of_seq(self@);
            }
            return true;
        }
        if index > len {
            return false;
        }
        proof {
            is_char_boundary_iff_not_is_continuation_byte(self@, index as int);
        }
        let b = self.bytes[index];
        assert(is_continuation_byte(b) <==> (b & 0xC0) == 0x80) by (bit_vector);
        b & 0xC0 != 0x80
    }

    /// Whether the buffer is empty.
    pub fn is_empty(&self) -> (r: bool)
        requires
            self.wf(),
        ensures
            r == (T::buffer_len() == 0),
    {
        self.bytes.len() == 0
    }

    /// The number of bytes, fixed by the type.
    pub fn len(&self) -> (r: usize)
        requires
            self.wf(),
        ensures
            r == T::buffer_len(),
    {
        self.bytes.len()
    }

    /// Joins this buffer and `item` into one holding both, in order.
    pub fn push<U: PodStrBuffer>(self, item: PodStr<U>) -> (r: PodStr<(T, U)>)
        requires
            self.wf(),
            item.wf(),
            T::buffer_len() + U::buffer_len() < isize::MAX,
        ensures
            r.wf(),
            r@ == self@ + item@,
    {
        let mut bytes = self.bytes;
        push_range(&mut bytes, item.as_bytes(), 0, item.bytes.len());
        proof {
            assert(item@.subrange(0, item@.len() as int) =~= item@);
            valid_utf8_concat(self@, item@);
        }
        PodStr::from_vec(bytes)
    }

    /// Same as [`PodStr::push`].
    pub fn concat<U: PodStrBuffer>(self, item: PodStr<U>) -> (r: PodStr<(T, U)>)
        requires
            self.wf(),
            item.wf(),
            T::buffer_len() + U::buffer_len() < isize::MAX,
        ensures
            r.wf(),
            r@ == self@ + item@,
    {
        self.push(item)
    }

    /// Writes `src` from the start, leaving the rest untouched; its end must fall on a
    /// character boundary of the buffer.
    pub fn write_str(&mut self, src: &str)
        requires
            old(self).wf(),
            is_char_boundary(old(self)@, src.spec_bytes().len() as int),
        ensures
            final(self).wf(),
            final(self)@ == overwrite(old(self)@, 0, src.spec_bytes()),
    {
        self.write_str_at(0, src);
    }

    /// Writes `src` from `start` on, leaving the rest untouched; both ends of what is written
    /// must fall on character boundaries of the buffer.
    pub fn write_str_at(&mut self, start: usize, src: &str)
        requires
            old(self).wf(),
            is_char_boundary(old(self)@, start as int),
            is_char_boundary(old(self)@, start + src.spec_bytes().len()),
        ensures
            final(self).wf(),
            final(self)@ == overwrite(old(self)@, start as int, src.spec_bytes()),
    {
        let bytes = src.as_bytes();
        let ghost old_bytes = self@;
        let ghost end = start + bytes@.len();
        proof {
            encode_utf8_valid_utf8(src@);
            vstd::utf8::is_char_boundary_start_end_of_seq(old_bytes);
            lemma_boundary_in_range(old_bytes, end);
            valid_utf8_split(old_bytes, start as int);
            valid_utf8_split(old_bytes, end);
            let head = old_bytes.subrange(0, start as int);
            let rest = old_bytes.subrange(start as int, old_bytes.len() as int);
            lemma_boundary_of_suffix(old_bytes, start as int, end);
            valid_utf8_split(rest, end - start);
            assert(rest.subrange(end - start, rest.len() as int) =~= old_bytes.subrange(
                end,
                old_bytes.len() as int,
            ));
            let tail = old_bytes.subrange(end, old_bytes.len() as int);
            valid_utf8_concat(bytes@, tail);
            valid_utf8_concat(head, bytes@ + tail);
            assert(overwrite(old_bytes, start as int, bytes@) =~= head + (bytes@ + tail));
        }
        write_into(&mut self.bytes, start, bytes);
    }
}

/// No character boundary lies beyond the bytes.
pub proof fn lemma_boundary_within(bytes: Seq<u8>, index: int)
    requires
        valid_utf8(bytes),
        index > bytes.len(),
    ensures
        !is_char_boundary(bytes, index),
{
    if is_char_boundary(bytes, index) {
        lemma_boundary_in_range(bytes, index);
    }
}

/// A character boundary lies within the bytes.
proof fn lemma_boundary_in_range(bytes: Seq<u8>, index: int)
    requires
        valid_utf8(bytes),
        is_char_boundary(bytes, index),
    ensures
        0 <= index <= bytes.len(),
    decreases bytes.len(),
{
    if index != 0 {
        let rest = vstd::utf8::pop_first_scalar(bytes);
        let first = vstd::utf8::length_of_first_scalar(bytes);
        assert(first <= bytes.len() as int);
        assert(rest.len() == bytes.len() as int - first);
        lemma_boundary_in_range(rest, index - vstd::utf8::length_of_first_scalar(bytes));
    }
}

/// A boundary after a boundary `at` is a boundary of the bytes from `at` on.
proof fn lemma_boundary_of_suffix(bytes: Seq<u8>, at: int, index: int)
    requires
        valid_utf8(bytes),
        is_char_boundary(bytes, at),
        is_char_boundary(bytes, index),
        at <= index,
    ensures
        valid_utf8(bytes.subrange(at, bytes.len() as int)),
        is_char_boundary(bytes.subrange(at, bytes.len() as int), index - at),
{
    lemma_boundary_in_range(bytes, at);
    lemma_boundary_in_range(bytes, index);
    valid_utf8_split(bytes, at);
    let rest = bytes.subrange(at, bytes.len() as int);
    if index == bytes.len() {
        vstd::utf8::is_char_boundary_start_end_of_seq(rest);
    } else {
        is_char_boundary_iff_not_is_continuation_byte(bytes, index);
        is_char_boundary_iff_not_is_continuation_byte(rest, index - at);
    }
}

impl<T: PodStrBuffer, U: PodStrBuffer> PodStr<(T, U)> {
    /// Splits the buffer into its first `T`-long part and the rest; the split must fall on
    /// a character boundary.
    pub fn pop(self) -> (r: (PodStr<T>, PodStr<U>))
        requires
            self.wf(),
            is_char_boundary(self@, T::buffer_len() as int),
        ensures
            r.0.wf(),
            r.1.wf(),
            r.0@ == self@.subrange(0, T::buffer_len() as int),
            r.1@ == self@.subrange(T::buffer_len() as int, self@.len() as int),
    {
        let at = T::buffer_size();
        let len = self.bytes.len();
        let mut head: Vec<u8> = Vec::new();
        let mut tail: Vec<u8> = Vec::new();
        push_range(&mut head, self.as_bytes(), 0, at);
        push_range(&mut tail, self.as_bytes(), at, len - at);
        proof {
            valid_utf8_split(self@, at as int);
        }
        (PodStr::from_vec(head), PodStr::from_vec(tail))
    }

    /// The first `T`-long part; the split must fall on a character boundary.
    pub fn pop_discard(self) -> (r: PodStr<T>)
        requires
            self.wf(),
            is_char_boundary(self@, T::buffer_len() as int),
        ensures
            r.wf(),
            r@ == self@.subrange(0, T::buffer_len() as int),
    {
        self.pop().0
    }

    /// The first `T`-long part, storing the rest in `slot`; the split must fall on a character
    /// boundary.
    pub fn pop_into(self, slot: &mut Option<PodStr<U>>) -> (r: PodStr<T>)
        requires
            self.wf(),
            is_char_boundary(self@, T::buffer_len() as int),
        ensures
            r.wf(),
            r@ == self@.subrange(0, T::buffer_len() as int),
            *final(slot) matches Some(p) && p.wf() && p@ == self@.subrange(
                T::buffer_len() as int,
                self@.len() as int,
            ),
    {
        let (residual, pop) = self.pop();
        *slot = Some(pop);
        residual
    }

    /// The trailing `U`-long part; the split must fall on a character boundary.
    pub fn last(self) -> (r: PodStr<U>)
        requires
            self.wf(),
            is_char_boundary(self@, T::buffer_len() as int),
        ensures
            r.wf(),
            r@ == self@.subrange(T::buffer_len() as int, self@.len() as int),
    {
        self.pop().1
    }
}

impl<const LEN: usize> PodStr<[u8; LEN]> {
    /// The buffer holding a byte string literal, which must be valid UTF-8.
    pub fn lit(byte_str_literal: &[u8; LEN]) -> (r: Self)
        requires
            LEN < isize::MAX,
            valid_utf8(byte_str_literal@),
        ensures
            r.wf(),
            r@ == byte_str_literal@,
    {
        Self::from_utf8_slice_unchecked(byte_str_literal.as_slice())
    }
}

/// Pushing two buffers and popping at the first one's end gives both back.
pub proof fn lemma_push_then_pop(a: Seq<u8>, b: Seq<u8>)
    requires
        valid_utf8(a),
        valid_utf8(b),
    ensures
        valid_utf8(a + b),
        is_char_boundary(a + b, a.len() as int),
        (a + b).subrange(0, a.len() as int) == a,
        (a + b).subrange(a.len() as int, (a + b).len() as int) == b,
{
    valid_utf8_concat(a, b);
    assert((a + b).subrange(0, a.len() as int) =~= a);
    assert((a + b).subrange(a.len() as int, (a + b).len() as int) =~= b);
    lemma_concat_boundary(a, b);
}

/// The end of valid UTF-8 is a character boundary of it followed by more valid UTF-8.
proof fn lemma_concat_boundary(a: Seq<u8>, b: Seq<u8>)
    requires
        valid_utf8(a),
        valid_utf8(b),
    ensures
        is_char_boundary(a + b, a.len() as int),
    decreases a.len(),
{
    valid_utf8_concat(a, b);
    if a.len() == 0 {
        assert(a + b =~= b);
    } else if b.len() == 0 {
        vstd::utf8::is_char_boundary_start_end_of_seq(a + b);
        assert(a + b =~= a);
    } else {
        vstd::utf8::is_char_boundary_start_end_of_seq(a);
        is_char_boundary_iff_not_is_continuation_byte(b, 0);
        is_char_boundary_iff_not_is_continuation_byte(a + b, a.len() as int);
        assert((a + b)[a.len() as int] == b[0]);
    }
}

} // verus!
