//! A string of adjustable length up to a fixed capacity: see [`ArrayString`].

use super::array_str::ArrayStr;
use super::error::CapacityError;
use super::pod::PodStr;
use crate::str::slot_string::SlotString;
use vstd::prelude::*;
use vstd::string::StringSliceAdditionalSpecFns;
use vstd::utf8::{decode_utf8, encode_scalar, is_char_boundary, valid_utf8};

verus! {

/// A string of at most `CAP` bytes.
#[derive(Debug)]
pub struct ArrayString<const CAP: usize> {
    inner: SlotString<[u8; CAP]>,
}

impl<const CAP: usize> View for ArrayString<CAP> {
    /// The bytes of the string.
    type V = Seq<u8>;

    closed spec fn view(&self) -> Seq<u8> {
        self.inner@
    }
}

/// Whether [`ArrayString::try_truncate_into_array_str`] succeeds on the bytes `s` of a string
/// of capacity `cap`.
pub open spec fn truncates_to(s: Seq<u8>, cap: nat, target: nat) -> bool {
    (cap == target && s.len() == cap) || s.len() == target || (s.len() > target
        && is_char_boundary(s, target as int))
}

impl<const CAP: usize> ArrayString<CAP> {
    /// The string is well formed: at most `CAP` bytes of valid UTF-8.
    pub closed spec fn wf(self) -> bool {
        self.inner.wf()
    }

    proof fn lemma_wf(self)
        requires
            self.wf(),
        ensures
            self@.len() <= CAP,
            CAP < isize::MAX,
            valid_utf8(self@),
    {
        self.inner.lemma_wf();
    }

    /// An empty string.
    pub fn new() -> (r: Self)
        requires
            CAP < isize::MAX,
        ensures
            r.wf(),
            r@ == Seq::<u8>::empty(),
    {
        ArrayString { inner: SlotString::new() }
    }

    /// The bytes of the string.
    pub fn as_bytes(&self) -> (r: &[u8])
        requires
            self.wf(),
        ensures
            r@ == self@,
    {
        self.inner.as_bytes()
    }

    /// The string as text.
    pub fn as_str(&self) -> (r: &str)
        requires
            self.wf(),
        ensures
            r.spec_bytes() == self@,
            r@ == decode_utf8(self@),
    {
        self.inner.as_str()
    }

    /// Whether the string is empty.
    pub fn is_empty(&self) -> (r: bool)
        requires
            self.wf(),
        ensures
            r == (self@.len() == 0),
    {
        self.inner.is_empty()
    }

    /// The capacity in bytes.
    pub fn capacity(&self) -> (r: usize)
        ensures
            r == CAP,
    {
        CAP
    }

    /// Empties the string.
    pub fn clear(&mut self)
        requires
            old(self).wf(),
        ensures
            final(self).wf(),
            final(self)@ == Seq::<u8>::empty(),
    {
        self.inner.clear();
    }

    /// The length in bytes.
    pub fn len(&self) -> (r: usize)
        requires
            self.wf(),
        ensures
            r == self@.len(),
    {
        self.inner.len()
    }

    /// Appends the UTF-8 encoding of `c`; refused where it does not fit.
    pub fn try_push_char(&mut self, c: char) -> (r: Result<(), CapacityError>)
        requires
            old(self).wf(),
        ensures
            final(self).wf(),
            r is Ok <==> old(self)@.len() + encode_scalar(c as u32).len() <= CAP,
            r is Ok ==> final(self)@ == old(self)@ + encode_scalar(c as u32),
            r is Err ==> final(self)@ == old(self)@,
    {
        match self.inner.push_char(c) {
            Ok(_) => Ok(()),
            Err(_) => Err(CapacityError::new()),
        }
    }

    /// Appends `s`; refused where it does not fit.
    pub fn try_push_str(&mut self, s: &str) -> (r: Result<(), CapacityError>)
        requires
            old(self).wf(),
        ensures
            final(self).wf(),
            r is Ok <==> old(self)@.len() + s.spec_bytes().len() <= CAP,
            r is Ok ==> final(self)@ == old(self)@ + s.spec_bytes(),
            r is Err ==> final(self)@ == old(self)@,
    {
        match self.inner.push_str(s) {
            Ok(_) => Ok(()),
            Err(_) => Err(CapacityError::new()),
        }
    }

    /// Appends the UTF-8 encoding of `c`, which must fit.
    pub fn push_char(&mut self, c: char)
        requires
            old(self).wf(),
            old(self)@.len() + encode_scalar(c as u32).len() <= CAP,
        ensures
            final(self).wf(),
            final(self)@ == old(self)@ + encode_scalar(c as u32),
    {
        let _ = self.try_push_char(c);
    }

    /// Appends `s`, which must fit.
    pub fn push_str(&mut self, s: &str)
        requires
            old(self).wf(),
            old(self)@.len() + s.spec_bytes().len() <= CAP,
        ensures
            final(self).wf(),
            final(self)@ == old(self)@ + s.spec_bytes(),
    {
        let _ = self.try_push_str(s);
    }

    /// The first `TARGET` bytes as a string of that exact length; refused, handing the string
    /// back, unless it is exactly `TARGET` bytes long or longer with a character boundary there.
    pub fn try_truncate_into_array_str<const TARGET: usize>(self) -> (r: Result<
        ArrayStr<TARGET>,
        Self,
    >)
        requires
            self.wf(),
        ensures
            r is Ok <==> truncates_to(self@, CAP as nat, TARGET as nat),
            r matches Ok(s) ==> s.0.wf() && s.0@ == self@.subrange(0, TARGET as int),
            r matches Err(back) ==> back.wf() && back@ == self@,
    {
        proof {
            self.lemma_wf();
        }
        let len = self.inner.len();
        let fits = if len == TARGET {
            true
        } else if len > TARGET {
            self.inner.is_char_boundary(TARGET)
        } else {
            false
        };
        if !fits {
            return Err(self);
        }
        let (head, _) = self.as_bytes().split_at(TARGET);
        proof {
            if len == TARGET {
                assert(self@.subrange(0, TARGET as int) =~= self@);
            } else {
                vstd::utf8::valid_utf8_split(self@, TARGET as int);
            }
        }
        Ok(ArrayStr(PodStr::from_utf8_slice_unchecked(head)))
    }

    /// The string as one of exactly `TARGET` bytes, which must be its length.
    pub fn into_array_str<const TARGET: usize>(self) -> (r: ArrayStr<TARGET>)
        requires
            self.wf(),
            self@.len() == TARGET,
        ensures
            r.0.wf(),
            r.0@ == self@,
    {
        proof {
            self.lemma_wf();
            assert(self@.subrange(0, TARGET as int) =~= self@);
        }
        match self.try_truncate_into_array_str() {
            Ok(s) => s,
            Err(_) => ArrayStr(PodStr::zeroed()),
        }
    }

    /// The first `TARGET` bytes as a string of that exact length, which must be allowed by
    /// [`ArrayString::try_truncate_into_array_str`].
    pub fn truncate_into_array_str<const TARGET: usize>(self) -> (r: ArrayStr<TARGET>)
        requires
            self.wf(),
            truncates_to(self@, CAP as nat, TARGET as nat),
        ensures
            r.0.wf(),
            r.0@ == self@.subrange(0, TARGET as int),
    {
        proof {
            self.lemma_wf();
        }
        match self.try_truncate_into_array_str() {
            Ok(s) => s,
            Err(_) => ArrayStr(PodStr::zeroed()),
        }
    }
}

} // verus!
