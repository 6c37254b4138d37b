//! A string of adjustable length held in a [`Slot`]: see [`SlotString`].

use crate::slot::{overwrite, push_range, repeat_byte, write_into, Slot, SlotBuffer};
use crate::str::error::CapacityError;
use crate::str::redo::pod::check_utf8;
use crate::str::slot_str::SlotStr;
use crate::utf8::{encode_char, len_utf8};
use vstd::prelude::*;
use vstd::string::{StrSliceExecFns, StringSliceAdditionalSpecFns};
use vstd::utf8::{
    decode_utf8, encode_scalar, encode_utf8, encode_utf8_decode_utf8, encode_utf8_valid_utf8,
    valid_utf8, valid_utf8_concat,
};

verus! {

/// The encoding of text ends with the encoding of its last character.
proof fn lemma_encode_last(text: Seq<char>)
    requires
        text.len() > 0,
    ensures
        encode_utf8(text) == encode_utf8(text.drop_last()) + encode_scalar(text.last() as u32),
    decreases text.len(),
{
    if text.len() == 1 {
        assert(text.drop_last() =~= Seq::<char>::empty());
        assert(text.drop_first() =~= Seq::<char>::empty());
        assert(encode_utf8(Seq::<char>::empty()) == Seq::<u8>::empty());
        assert(encode_utf8(text) == encode_scalar(text[0] as u32) + encode_utf8(text.drop_first()));
        assert(encode_utf8(text) =~= encode_scalar(text[0] as u32));
        assert(encode_utf8(text.drop_last()) + encode_scalar(text.last() as u32) =~= encode_scalar(
            text[0] as u32,
        ));
    } else {
        let rest = text.drop_first();
        lemma_encode_last(rest);
        assert(text.drop_last().drop_first() =~= rest.drop_last());
        assert(text.drop_last()[0] == text[0]);
        assert(rest.last() == text.last());
        assert(encode_utf8(text) =~= encode_utf8(text.drop_last()) + encode_scalar(
            text.last() as u32,
        ));
    }
}

/// Why an operation owning a [`SlotString`] failed.
#[derive(Debug)]
pub enum SlotStringErrorKind {
    /// See [`CapacityError`].
    Capacity(CapacityError),
    /// The index was not a character boundary.
    CharBoundary(usize),
    /// See `core::str::Utf8Error`.
    Utf8(core::str::Utf8Error),
}

impl From<CapacityError> for SlotStringErrorKind {
    fn from(value: CapacityError) -> (r: Self) {
        SlotStringErrorKind::Capacity(value)
    }
}

impl vstd::std_specs::convert::FromSpecImpl<CapacityError> for SlotStringErrorKind {
    open spec fn obeys_from_spec() -> bool {
        true
    }

    open spec fn from_spec(value: CapacityError) -> Self {
        SlotStringErrorKind::Capacity(value)
    }
}

/// A string of adjustable length, up to the length of its slot.
#[derive(Debug)]
pub struct SlotString<T: SlotBuffer> {
    slot: Slot<T>,
    len: usize,
}

/// Returned by fallible operations that own a [`SlotString`], which it hands back.
#[derive(Debug)]
pub struct SlotStringError<T: SlotBuffer> {
    /// Why the operation failed.
    pub kind: SlotStringErrorKind,
    /// The string the operation owned.
    pub slot_string: SlotString<T>,
}

impl<T: SlotBuffer> SlotStringError<T> {
    /// The error of `kind`, handing back `slot_string`.
    pub fn new(slot_string: SlotString<T>, kind: SlotStringErrorKind) -> (r: Self)
        ensures
            r.kind == kind,
            r.slot_string == slot_string,
    {
        SlotStringError { kind, slot_string }
    }
}

impl<T: SlotBuffer> View for SlotString<T> {
    /// The bytes of the string.
    type V = Seq<u8>;

    closed spec fn view(&self) -> Seq<u8> {
        self.slot@.subrange(0, self.len as int)
    }
}

impl<T: SlotBuffer> SlotString<T> {
    /// The slot is well formed, the string fits in it, and it is valid UTF-8.
    pub closed spec fn wf(self) -> bool {
        &&& self.slot.wf()
        &&& self.len <= T::buffer_len()
        &&& valid_utf8(self@)
    }

    /// The capacity in bytes.
    pub open spec fn cap() -> nat {
        T::buffer_len()
    }

    pub(crate) proof fn lemma_wf(self)
        requires
            self.wf(),
        ensures
            self@.len() <= T::buffer_len(),
            T::buffer_len() < isize::MAX,
            valid_utf8(self@),
    {
    }

    /// The string filling the whole of `slot`, whose bytes must be valid UTF-8.
    pub(crate) fn from_full(slot: Slot<T>) -> (r: Self)
        requires
            slot.wf(),
            valid_utf8(slot@),
        ensures
            r.wf(),
            r@ == slot@,
    {
        let len = slot.len();
        let r = SlotString { slot, len };
        proof {
            assert(r.slot@.subrange(0, len as int) =~= r.slot@);
        }
        r
    }

    /// The string of `bytes`, in a slot whose other bytes are `0x1A`; refused where they do not
    /// fit the slot or are not valid UTF-8.
    pub fn from_utf8_bytes(bytes: &[u8]) -> (r: Result<Self, SlotStringErrorKind>)
        requires
            T::buffer_len() < isize::MAX,
        ensures
            match r {
                Ok(s) => bytes@.len() <= T::buffer_len() && valid_utf8(bytes@) && s.wf() && s@
                    == bytes@,
                Err(SlotStringErrorKind::Capacity(e)) => bytes@.len() > T::buffer_len() && e.0
                    == bytes@.len() - T::buffer_len(),
                Err(SlotStringErrorKind::Utf8(_)) => bytes@.len() <= T::buffer_len() && !valid_utf8(
                    bytes@,
                ),
                Err(SlotStringErrorKind::CharBoundary(_)) => false,
            },
    {
        let cap = T::buffer_size();
        if let Some(error) = CapacityError::new(cap, bytes.len()) {
            return Err(SlotStringErrorKind::Capacity(error));
        }
        if let Err(error) = check_utf8(bytes) {
            return Err(SlotStringErrorKind::Utf8(error));
        }
        let mut slot = Slot::<T>::filled_unchecked(0x1A);
        slot.write_slice(bytes);
        let len = bytes.len();
        let r = SlotString { slot, len };
        proof {
            assert(r@ =~= bytes@);
        }
        Ok(r)
    }

    /// The bytes of the string.
    pub fn as_bytes(&self) -> (r: &[u8])
        requires
            self.wf(),
        ensures
            r@ == self@,
    {
        let (head, _) = self.slot.as_slice().split_at(self.len);
        head
    }

    /// Whether `index` is the start of a character or the end of the string.
    pub fn is_char_boundary(&self, index: usize) -> (r: bool)
        requires
            self.wf(),
        ensures
            r == vstd::utf8::is_char_boundary(self@, index as int),
    {
        let len = self.len;
        if index == 0 || index == len {
            proof {
                vstd::utf8::is_char_boundary_start_end_of_seq(self@);
            }
            return true;
        }
        if index > len {
            proof {
                crate::str::redo::pod::lemma_boundary_within(self@, index as int);
            }
            return false;
        }
        proof {
            vstd::utf8::is_char_boundary_iff_not_is_continuation_byte(self@, index as int);
        }
        let b = self.slot.as_slice()[index];
        assert(self@[index as int] == b);
        assert(vstd::utf8::is_continuation_byte(b) <==> (b & 0xC0) == 0x80) by (bit_vector);
        b & 0xC0 != 0x80
    }

    /// The string as text.
    pub fn as_str(&self) -> (r: &str)
        requires
            self.wf(),
        ensures
            r.spec_bytes() == self@,
            r@ == decode_utf8(self@),
    {
        match check_utf8(self.as_bytes()) {
            Ok(s) => {
                proof {
                    encode_utf8_decode_utf8(s@);
                }
                s
            },
            Err(_) => "",
        }
    }

    /// An owned copy of the text.
    pub fn to_string(&self) -> (r: String)
        requires
            self.wf(),
        ensures
            r@ == decode_utf8(self@),
    {
        self.as_str().to_owned()
    }

    /// The capacity in bytes.
    pub fn capacity(&self) -> (r: usize)
        requires
            self.wf(),
        ensures
            r == Self::cap(),
    {
        self.slot.len()
    }

    /// Empties the string.
    pub fn clear(&mut self)
        requires
            old(self).wf(),
        ensures
            final(self).wf(),
            final(self)@ == Seq::<u8>::empty(),
    {
        self.len = 0;
        proof {
            assert(self@ =~= Seq::<u8>::empty());
        }
    }

    /// The whole slot, with the bytes after the string set to `0x1A`.
    pub fn into_slot_str(self) -> (r: SlotStr<T>)
        requires
            self.wf(),
        ensures
            r.wf(),
            r@ == self@ + repeat_byte(0x1A, (Self::cap() - self@.len()) as nat),
    {
        let mut slot = self.slot;
        let len = self.len;
        let cap = slot.len();
        let fill = crate::str::redo::pod::ascii_run(0x1A, cap - len);
        slot.write_slice_at(len, fill.as_slice());
        proof {
            crate::str::redo::pod::lemma_ascii_fill_valid(0x1A, (cap - len) as nat);
            valid_utf8_concat(self@, repeat_byte(0x1A, (cap - len) as nat));
            assert(slot@ =~= self@ + repeat_byte(0x1A, (cap - len) as nat));
        }
        SlotStr::new_unchecked(slot)
    }

    /// Whether the string is empty.
    pub fn is_empty(&self) -> (r: bool)
        requires
            self.wf(),
        ensures
            r == (self@.len() == 0),
    {
        self.len == 0
    }

    /// The length in bytes.
    pub fn len(&self) -> (r: usize)
        requires
            self.wf(),
        ensures
            r == self@.len(),
    {
        self.len
    }

    /// Removes the last character and returns it; `None` where the string is empty.
    pub fn pop_char(&mut self) -> (r: Option<char>)
        requires
            old(self).wf(),
        ensures
            final(self).wf(),
            r is None <==> old(self)@.len() == 0,
            r is None ==> final(self)@ == old(self)@,
            r matches Some(c) ==> c == decode_utf8(old(self)@).last() && final(self)@ == encode_utf8(
                decode_utf8(old(self)@).drop_last(),
            ),
    {
        if self.len == 0 {
            return None;
        }
        let s = self.as_str();
        let count = s.unicode_len();
        let ghost text = s@;
        proof {
            encode_utf8_decode_utf8(text);
            if count == 0 {
                assert(encode_utf8(text) =~= Seq::<u8>::empty());
            }
        }
        let c = s.get_char(count - 1);
        let width = len_utf8(c);
        proof {
            lemma_encode_last(text);
            encode_utf8_valid_utf8(text.drop_last());
            assert(self@.subrange(0, self.len - width) =~= encode_utf8(text.drop_last()));
        }
        self.len = self.len - width;
        proof {
            assert(self@ =~= encode_utf8(text.drop_last()));
        }
        Some(c)
    }

    /// Appends `bytes`, valid UTF-8; refused where they do not fit.
    fn push_bytes(&mut self, bytes: &[u8]) -> (r: Result<(), CapacityError>)
        requires
            old(self).wf(),
            valid_utf8(bytes@),
        ensures
            final(self).wf(),
            match r {
                Ok(_) => old(self)@.len() + bytes@.len() <= Self::cap() && final(self)@ == old(self)@
                    + bytes@,
                Err(e) => old(self)@.len() + bytes@.len() > Self::cap() && e.0 == old(self)@.len()
                    + bytes@.len() - Self::cap() && final(self)@ == old(self)@,
            },
    {
        let space = self.slot.len() - self.len;
        match CapacityError::new(space, bytes.len()) {
            Some(error) => Err(error),
            None => {
                let ghost before = self.slot@;
                self.slot.write_slice_at(self.len, bytes);
                proof {
                    valid_utf8_concat(old(self)@, bytes@);
                    assert(overwrite(before, self.len as int, bytes@).subrange(
                        0,
                        self.len + bytes@.len(),
                    ) =~= old(self)@ + bytes@);
                }
                self.len = self.len + bytes.len();
                Ok(())
            },
        }
    }

    /// Appends the UTF-8 encoding of `c`; refused where it does not fit.
    pub fn push_char(&mut self, c: char) -> (r: Result<(), CapacityError>)
        requires
            old(self).wf(),
        ensures
            final(self).wf(),
            match r {
                Ok(_) => old(self)@.len() + encode_scalar(c as u32).len() <= Self::cap()
                    && final(self)@ == old(self)@ + encode_scalar(c as u32),
                Err(e) => old(self)@.len() + encode_scalar(c as u32).len() > Self::cap() && e.0
                    == old(self)@.len() + encode_scalar(c as u32).len() - Self::cap() && final(self)@
                    == old(self)@,
            },
    {
        let encoded = encode_char(c);
        proof {
            crate::str::redo::pod::lemma_fill_decodes(c, 1);
            assert(crate::str::redo::pod::repeat_bytes(encode_scalar(c as u32), 0) == Seq::<u8>::empty());
            assert(crate::str::redo::pod::repeat_bytes(encode_scalar(c as u32), 1) =~= encode_scalar(
                c as u32,
            ));
        }
        self.push_bytes(encoded.as_slice())
    }

    /// Appends `s`; refused where it does not fit.
    pub fn push_str(&mut self, s: &str) -> (r: Result<(), CapacityError>)
        requires
            old(self).wf(),
        ensures
            final(self).wf(),
            match r {
                Ok(_) => old(self)@.len() + s.spec_bytes().len() <= Self::cap() && final(self)@
                    == old(self)@ + s.spec_bytes(),
                Err(e) => old(self)@.len() + s.spec_bytes().len() > Self::cap() && e.0 == old(
                    self,
                )@.len() + s.spec_bytes().len() - Self::cap() && final(self)@ == old(self)@,
            },
    {
        proof {
            encode_utf8_valid_utf8(s@);
        }
        self.push_bytes(s.as_bytes())
    }

    /// Appends the whole of `slot_str`; refused where it does not fit.
    pub fn push_slot_str<U: SlotBuffer>(&mut self, slot_str: SlotStr<U>) -> (r: Result<
        (),
        CapacityError,
    >)
        requires
            old(self).wf(),
            slot_str.wf(),
        ensures
            final(self).wf(),
            match r {
                Ok(_) => old(self)@.len() + slot_str@.len() <= Self::cap() && final(self)@ == old(
                    self,
                )@ + slot_str@,
                Err(e) => old(self)@.len() + slot_str@.len() > Self::cap() && e.0 == old(self)@.len()
                    + slot_str@.len() - Self::cap() && final(self)@ == old(self)@,
            },
    {
        self.push_bytes(slot_str.as_bytes())
    }

    /// Joins this string and `other` into one whose slot holds both slots.
    pub fn push<U: SlotBuffer>(self, other: SlotString<U>) -> (r: SlotString<(T, U)>)
        requires
            self.wf(),
            other.wf(),
            T::buffer_len() + U::buffer_len() < isize::MAX,
        ensures
            r.wf(),
            r@ == self@ + other@,
    {
        let len = self.len + other.len;
        let mut bytes: Vec<u8> = Vec::new();
        push_range(&mut bytes, self.as_bytes(), 0, self.len);
        push_range(&mut bytes, other.as_bytes(), 0, other.len);
        let total = self.slot.len() + other.slot.len();
        crate::slot::push_repeat(&mut bytes, 0, total - len);
        proof {
            valid_utf8_concat(self@, other@);
            assert(self@.subrange(0, self@.len() as int) =~= self@);
            assert(other@.subrange(0, other@.len() as int) =~= other@);
            assert(bytes@ =~= (self@ + other@) + repeat_byte(0, (total - len) as nat));
            assert(bytes@.subrange(0, len as int) =~= self@ + other@);
        }
        SlotString { slot: Slot::from_bytes(bytes), len }
    }

    /// Lengthens the string to `new_len` bytes, at most its capacity, with copies of the ASCII
    /// byte `value`; a shorter `new_len` leaves it as it is.
    pub fn resize(&mut self, new_len: usize, value: u8)
        requires
            old(self).wf(),
            value < 128,
        ensures
            final(self).wf(),
            ({
                let target = if new_len > Self::cap() { Self::cap() } else { new_len as nat };
                final(self)@ == if target > old(self)@.len() {
                    old(self)@ + repeat_byte(value, (target - old(self)@.len()) as nat)
                } else {
                    old(self)@
                }
            }),
    {
        let cap = self.slot.len();
        let target = if new_len > cap { cap } else { new_len };
        if target <= self.len {
            return;
        }
        let fill = crate::str::redo::pod::ascii_run(value, target - self.len);
        proof {
            crate::str::redo::pod::lemma_ascii_fill_valid(value, (target - self.len) as nat);
        }
        let _ = self.push_bytes(fill.as_slice());
    }
}

/// Pushing a character and popping it again gives back the character and the string.
pub proof fn lemma_push_then_pop_char(s: Seq<u8>, c: char)
    requires
        valid_utf8(s),
    ensures
        decode_utf8(s + encode_scalar(c as u32)).last() == c,
        encode_utf8(decode_utf8(s + encode_scalar(c as u32)).drop_last()) == s,
{
    let text = decode_utf8(s).push(c);
    vstd::utf8::decode_utf8_encode_utf8(s);
    lemma_encode_last(text);
    assert(text.drop_last() =~= decode_utf8(s));
    encode_utf8_decode_utf8(text);
}

impl<const CAP: usize> SlotString<[u8; CAP]> {
    /// An empty string.
    pub fn new() -> (r: Self)
        requires
            CAP < isize::MAX,
        ensures
            r.wf(),
            r@ == Seq::<u8>::empty(),
    {
        let r = SlotString { slot: Slot::new_array_zeroed(), len: 0 };
        proof {
            assert(r@ =~= Seq::<u8>::empty());
        }
        r
    }

    /// The string `s`; refused where it does not fit.
    pub fn from_str(s: &str) -> (r: Result<Self, CapacityError>)
        requires
            CAP < isize::MAX,
        ensures
            match r {
                Ok(v) => s.spec_bytes().len() <= CAP && v.wf() && v@ == s.spec_bytes(),
                Err(e) => s.spec_bytes().len() > CAP && e.0 == s.spec_bytes().len() - CAP,
            },
    {
        let mut string = Self::new();
        match string.push_str(s) {
            Ok(_) => {
                proof {
                    assert(Seq::<u8>::empty() + s.spec_bytes() =~= s.spec_bytes());
                }
                Ok(string)
            },
            Err(error) => Err(error),
        }
    }

    /// The string `s`, which must fit.
    pub fn lit(s: &str) -> (r: Self)
        requires
            CAP < isize::MAX,
            s.spec_bytes().len() <= CAP,
        ensures
            r.wf(),
            r@ == s.spec_bytes(),
    {
        match Self::from_str(s) {
            Ok(string) => string,
            Err(_) => Self::new(),
        }
    }
}

} // verus!
