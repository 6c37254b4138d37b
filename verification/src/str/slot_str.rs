//! A [`Slot`] holding valid UTF-8: see [`SlotStr`].

use crate::slot::{push_range, push_repeat, repeat_byte, Slot, SlotBuffer};
use crate::str::terminated::{lemma_trimmed_valid, terminated_len, trimmed_len};
use crate::str::redo::pod::check_utf8;
use vstd::prelude::*;
use vstd::string::StringSliceAdditionalSpecFns;
use vstd::utf8::{decode_utf8, encode_utf8_decode_utf8, encode_utf8_valid_utf8, valid_utf8};

verus! {

/// Why a [`SlotStr`] could not be made.
#[derive(Debug)]
pub enum SlotStrError {
    /// The length must exactly match the capacity of the buffer.
    Size,
    /// The bytes are not valid UTF-8.
    Utf8(core::str::Utf8Error),
}

impl From<core::str::Utf8Error> for SlotStrError {
    fn from(value: core::str::Utf8Error) -> (r: Self) {
        SlotStrError::Utf8(value)
    }
}

impl vstd::std_specs::convert::FromSpecImpl<core::str::Utf8Error> for SlotStrError {
    open spec fn obeys_from_spec() -> bool {
        true
    }

    open spec fn from_spec(value: core::str::Utf8Error) -> Self {
        SlotStrError::Utf8(value)
    }
}

/// The contents of `a` and `b`, trimmed of trailing `term` bytes, one after the other, and
/// padded with `term` bytes to the joint length.
pub open spec fn joined_terminated(a: Seq<u8>, b: Seq<u8>, term: u8) -> Seq<u8> {
    let la = trimmed_len(a, term);
    let lb = trimmed_len(b, term);
    a.subrange(0, la as int) + b.subrange(0, lb as int) + repeat_byte(
        term,
        (a.len() + b.len() - la - lb) as nat,
    )
}

/// Bytes whose last byte is not `term`, followed by `term` bytes, have those bytes as
/// their content.
proof fn lemma_trimmed_padded(c: Seq<u8>, term: u8, k: nat)
    requires
        c.len() == 0 || c.last() != term,
    ensures
        trimmed_len(c + repeat_byte(term, k), term) == c.len(),
    decreases k,
{
    let s = c + repeat_byte(term, k);
    if k == 0 {
        assert(s =~= c);
    } else {
        lemma_trimmed_padded(c, term, (k - 1) as nat);
        assert(s.drop_last() =~= c + repeat_byte(term, (k - 1) as nat));
    }
}

/// Law: joining keeps each part's content, in order: the content of the joined bytes is
/// the content of `a` followed by the content of `b`, and every byte after it is `term`.
pub proof fn lemma_joined_content(a: Seq<u8>, b: Seq<u8>, term: u8)
    ensures
        ({
            let r = joined_terminated(a, b, term);
            let la = trimmed_len(a, term);
            let lb = trimmed_len(b, term);
            &&& r.len() == a.len() + b.len()
            &&& trimmed_len(r, term) == la + lb
            &&& r.subrange(0, (la + lb) as int) == a.subrange(0, la as int) + b.subrange(0, lb as int)
            &&& forall|i: int| la + lb <= i < r.len() ==> r[i] == term
        }),
{
    crate::str::terminated::lemma_split_terminator(a, term);
    crate::str::terminated::lemma_split_terminator(b, term);
    let la = trimmed_len(a, term);
    let lb = trimmed_len(b, term);
    let content = a.subrange(0, la as int) + b.subrange(0, lb as int);
    let pad = (a.len() + b.len() - la - lb) as nat;
    let r = joined_terminated(a, b, term);
    assert(r =~= content + repeat_byte(term, pad));
    if lb > 0 {
        assert(content.last() == b[lb - 1]);
    } else if la > 0 {
        assert(content.last() == a[la - 1]);
    }
    lemma_trimmed_padded(content, term, pad);
    assert(r.subrange(0, (la + lb) as int) =~= content);
}

/// A slot whose bytes are valid UTF-8.
#[derive(Debug)]
pub struct SlotStr<T: SlotBuffer>(Slot<T>);

impl<T: SlotBuffer> View for SlotStr<T> {
    type V = Seq<u8>;

    closed spec fn view(&self) -> Seq<u8> {
        self.0@
    }
}

impl<T: SlotBuffer> SlotStr<T> {
    /// The slot is well formed and its bytes are valid UTF-8.
    pub open spec fn wf(self) -> bool {
        &&& self@.len() == T::buffer_len()
        &&& T::buffer_len() < isize::MAX
        &&& valid_utf8(self@)
    }

    /// The string held by `slot`; refused where its bytes are not valid UTF-8.
    pub fn new(slot: Slot<T>) -> (r: Result<Self, core::str::Utf8Error>)
        requires
            slot.wf(),
        ensures
            r is Ok <==> valid_utf8(slot@),
            r matches Ok(s) ==> s.wf() && s@ == slot@,
    {
        match check_utf8(slot.as_slice()) {
            Ok(_) => Ok(SlotStr(slot)),
            Err(error) => Err(error),
        }
    }

    /// The string held by `slot`, whose bytes must be valid UTF-8.
    pub fn new_unchecked(slot: Slot<T>) -> (r: Self)
        requires
            slot.wf(),
            valid_utf8(slot@),
        ensures
            r.wf(),
            r@ == slot@,
    {
        SlotStr(slot)
    }

    /// A string holding `s`; refused with [`SlotStrError::Size`] where its length is not that
    /// of the slot.
    pub fn from_str(s: &str) -> (r: Result<Self, SlotStrError>)
        requires
            T::buffer_len() < isize::MAX,
        ensures
            r is Ok <==> s.spec_bytes().len() == T::buffer_len(),
            r matches Ok(v) ==> v.wf() && v@ == s.spec_bytes(),
            r matches Err(e) ==> e is Size,
    {
        proof {
            encode_utf8_valid_utf8(s@);
        }
        match Slot::<T>::try_from_slice(s.as_bytes()) {
            Some(slot) => Ok(SlotStr(slot)),
            None => Err(SlotStrError::Size),
        }
    }

    /// The bytes.
    pub fn as_bytes(&self) -> (r: &[u8])
        ensures
            r@ == self@,
    {
        self.0.as_slice()
    }

    /// The slot.
    pub fn as_slot(&self) -> (r: &Slot<T>)
        requires
            self.wf(),
        ensures
            r.wf(),
            r@ == self@,
    {
        &self.0
    }

    /// The bytes as text.
    pub fn as_str(&self) -> (r: &str)
        requires
            self.wf(),
        ensures
            r.spec_bytes() == self@,
            r@ == decode_utf8(self@),
    {
        match check_utf8(self.0.as_slice()) {
            Ok(s) => {
                proof {
                    encode_utf8_decode_utf8(s@);
                }
                s
            },
            Err(_) => "",
        }
    }

    /// The slot.
    pub fn into_slot(self) -> (r: Slot<T>)
        requires
            self.wf(),
        ensures
            r.wf(),
            r@ == self@,
    {
        self.0
    }

    /// The number of bytes, fixed by the type.
    pub fn len(&self) -> (r: usize)
        requires
            self.wf(),
        ensures
            r == T::buffer_len(),
    {
        self.0.len()
    }

    /// The string as one of adjustable length, filling its slot.
    pub fn into_slot_string(self) -> (r: crate::str::slot_string::SlotString<T>)
        requires
            self.wf(),
        ensures
            r.wf(),
            r@ == self@,
    {
        crate::str::slot_string::SlotString::from_full(self.0)
    }

    /// Joins this string and `item` into one holding both, in order.
    pub fn push<U: SlotBuffer>(self, item: SlotStr<U>) -> (r: SlotStr<(T, U)>)
        requires
            self.wf(),
            item.wf(),
            T::buffer_len() + U::buffer_len() < isize::MAX,
        ensures
            r.wf(),
            r@ == self@ + item@,
    {
        proof {
            vstd::utf8::valid_utf8_concat(self@, item@);
        }
        SlotStr(self.0.push(item.0))
    }
}

impl<T: SlotBuffer> SlotStr<T> {
    fn push_term<U: SlotBuffer>(self, item: SlotStr<U>, term: u8) -> (r: SlotStr<(T, U)>)
        requires
            self.wf(),
            item.wf(),
            T::buffer_len() + U::buffer_len() < isize::MAX,
            term < 128,
        ensures
            r.wf(),
            r@ == joined_terminated(self@, item@, term),
            trimmed_len(r@, term) == trimmed_len(self@, term) + trimmed_len(item@, term),
            r@.subrange(0, trimmed_len(r@, term) as int) == self@.subrange(
                0,
                trimmed_len(self@, term) as int,
            ) + item@.subrange(0, trimmed_len(item@, term) as int),
    {
        proof {
            lemma_joined_content(self@, item@, term);
        }
        let la = terminated_len(self.as_bytes(), term);
        let lb = terminated_len(item.as_bytes(), term);
        proof {
            crate::str::terminated::lemma_split_terminator(self@, term);
            crate::str::terminated::lemma_split_terminator(item@, term);
        }
        let total = self.0.len() + item.0.len();
        let mut out: Vec<u8> = Vec::new();
        push_range(&mut out, self.as_bytes(), 0, la);
        push_range(&mut out, item.as_bytes(), 0, lb);
        push_repeat(&mut out, term, total - la - lb);
        proof {
            let a = self@.subrange(0, la as int);
            let b = item@.subrange(0, lb as int);
            let fill = repeat_byte(term, (total - la - lb) as nat);
            lemma_trimmed_valid(self@, term);
            lemma_trimmed_valid(item@, term);
            crate::str::redo::pod::lemma_ascii_fill_valid(term, (total - la - lb) as nat);
            vstd::utf8::valid_utf8_concat(a, b);
            vstd::utf8::valid_utf8_concat(a + b, fill);
            assert(out@ =~= joined_terminated(self@, item@, term));
        }
        SlotStr(Slot::from_bytes(out))
    }

    /// Joins the contents of this string and `item`, each without its trailing nul bytes,
    /// and pads the result with nul bytes.
    pub fn push_nul_terminated<U: SlotBuffer>(self, item: SlotStr<U>) -> (r: SlotStr<(T, U)>)
        requires
            self.wf(),
            item.wf(),
            T::buffer_len() + U::buffer_len() < isize::MAX,
        ensures
            r.wf(),
            r@ == joined_terminated(self@, item@, 0),
            trimmed_len(r@, 0) == trimmed_len(self@, 0) + trimmed_len(item@, 0),
            r@.subrange(0, trimmed_len(r@, 0) as int) == self@.subrange(
                0,
                trimmed_len(self@, 0) as int,
            ) + item@.subrange(0, trimmed_len(item@, 0) as int),
    {
        proof {
            lemma_joined_content(self@, item@, 0);
        }
        self.push_term(item, 0)
    }

    /// Joins the contents of this string and `item`, each without its trailing `0x1A` bytes,
    /// and pads the result with `0x1A` bytes.
    pub fn push_terminated<U: SlotBuffer>(self, item: SlotStr<U>) -> (r: SlotStr<(T, U)>)
        requires
            self.wf(),
            item.wf(),
            T::buffer_len() + U::buffer_len() < isize::MAX,
        ensures
            r.wf(),
            r@ == joined_terminated(self@, item@, 0x1A),
            trimmed_len(r@, 0x1A) == trimmed_len(self@, 0x1A) + trimmed_len(item@, 0x1A),
            r@.subrange(0, trimmed_len(r@, 0x1A) as int) == self@.subrange(
                0,
                trimmed_len(self@, 0x1A) as int,
            ) + item@.subrange(0, trimmed_len(item@, 0x1A) as int),
    {
        proof {
            lemma_joined_content(self@, item@, 0x1A);
        }
        self.push_term(item, 0x1A)
    }
}

impl<T: SlotBuffer, U: SlotBuffer> SlotStr<(T, U)> {
    /// Splits the string into its first `T`-long part and the rest; the split must fall on a
    /// character boundary.
    pub fn pop(self) -> (r: (SlotStr<T>, SlotStr<U>))
        requires
            self.wf(),
            vstd::utf8::is_char_boundary(self@, T::buffer_len() as int),
        ensures
            r.0.wf(),
            r.1.wf(),
            r.0@ == self@.subrange(0, T::buffer_len() as int),
            r.1@ == self@.subrange(T::buffer_len() as int, self@.len() as int),
    {
        proof {
            vstd::utf8::valid_utf8_split(self@, T::buffer_len() as int);
        }
        let (t, u) = self.0.pop();
        (SlotStr(t), SlotStr(u))
    }

    /// The first `T`-long part; the split must fall on a character boundary.
    pub fn popped(self) -> (r: SlotStr<T>)
        requires
            self.wf(),
            vstd::utf8::is_char_boundary(self@, T::buffer_len() as int),
        ensures
            r.wf(),
            r@ == self@.subrange(0, T::buffer_len() as int),
    {
        self.pop().0
    }
}

impl<const LEN: usize> SlotStr<[u8; LEN]> {
    /// A string of the ASCII substitute byte `0x1A`.
    pub fn new_terminated() -> (r: Self)
        requires
            LEN < isize::MAX,
        ensures
            r.wf(),
            r@ == repeat_byte(0x1A, LEN as nat),
    {
        let slot = Slot::<[u8; LEN]>::new_array_fill(0x1A);
        proof {
            crate::str::redo::pod::lemma_ascii_fill_valid(0x1A, LEN as nat);
        }
        SlotStr(slot)
    }

    /// The string of a byte string literal, which must be valid UTF-8.
    pub fn lit(byte_literal: &[u8; LEN]) -> (r: Self)
        requires
            LEN < isize::MAX,
            valid_utf8(byte_literal@),
        ensures
            r.wf(),
            r@ == byte_literal@,
    {
        SlotStr(Slot::lit(byte_literal))
    }
}

} // verus!
