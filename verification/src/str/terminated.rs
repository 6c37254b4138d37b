//! Sequences padded at their end with a terminator byte: see [`AsTerminated`] (`0x1A`) and
//! [`AsNulTerminated`] (`0x00`).
//!
//! The content of such a sequence is what remains once every trailing terminator byte is
//! trimmed off; the trimmed-off tail is free space that pushes write into.

use crate::str::error::CapacityError;
use crate::slot::overwrite;
use crate::utf8::encode_char;
use crate::slot::write_into;
use vstd::prelude::*;
use vstd::string::StringSliceAdditionalSpecFns;
use vstd::utf8::{
    encode_scalar, encode_utf8, encode_utf8_valid_utf8, is_char_boundary, is_continuation_byte,
};

verus! {

/// The length of `bytes` once every trailing `term` byte is trimmed off.
pub open spec fn trimmed_len(bytes: Seq<u8>, term: u8) -> nat
    decreases bytes.len(),
{
    if bytes.len() == 0 {
        0
    } else if bytes.last() == term {
        trimmed_len(bytes.drop_last(), term)
    } else {
        bytes.len()
    }
}

/// The content never ends in the terminator, and the tail after it is all terminators.
pub proof fn lemma_split_terminator(bytes: Seq<u8>, term: u8)
    ensures
        trimmed_len(bytes, term) <= bytes.len(),
        trimmed_len(bytes, term) == 0 || bytes[trimmed_len(bytes, term) - 1] != term,
        forall|i: int| trimmed_len(bytes, term) <= i < bytes.len() ==> bytes[i] == term,
    decreases bytes.len(),
{
    if bytes.len() > 0 && bytes.last() == term {
        let rest = bytes.drop_last();
        lemma_split_terminator(rest, term);
        let n = trimmed_len(rest, term);
        assert forall|i: int| n <= i < bytes.len() implies bytes[i] == term by {
            if i < rest.len() {
                assert(rest[i] == bytes[i]);
            }
        }
        if n > 0 {
            assert(rest[n - 1] == bytes[n - 1]);
        }
    }
}

/// The length of the content of `bytes`.
pub(crate) fn terminated_len(bytes: &[u8], term: u8) -> (r: usize)
    ensures
        r == trimmed_len(bytes@, term),
{
    let mut n = bytes.len();
    proof {
        assert(bytes@.subrange(0, n as int) =~= bytes@);
    }
    while n > 0 && bytes[n - 1] == term
        invariant
            n <= bytes@.len(),
            trimmed_len(bytes@, term) == trimmed_len(bytes@.subrange(0, n as int), term),
        decreases n,
    {
        proof {
            let prefix = bytes@.subrange(0, n as int);
            assert(prefix.drop_last() =~= bytes@.subrange(0, n - 1));
        }
        n = n - 1;
    }
    proof {
        let prefix = bytes@.subrange(0, n as int);
        if n > 0 {
            assert(prefix.last() != term);
        }
    }
    n
}

/// Writes `src` at the start of the free space of `bytes`; refused where it does not fit.
fn push_bytes(bytes: &mut Vec<u8>, term: u8, src: &[u8]) -> (r: Result<(), CapacityError>)
    ensures
        ({
            let n = trimmed_len(old(bytes)@, term);
            let space = old(bytes)@.len() - n;
            match r {
                Ok(_) => src@.len() <= space && final(bytes)@ == overwrite(old(bytes)@, n as int, src@),
                Err(e) => src@.len() > space && e.0 == src@.len() - space && final(bytes)@ == old(bytes)@,
            }
        }),
{
    let n = terminated_len(bytes.as_slice(), term);
    proof {
        lemma_split_terminator(old(bytes)@, term);
    }
    let space = bytes.len() - n;
    match CapacityError::new(space, src.len()) {
        Some(error) => Err(error),
        None => {
            write_into(bytes, n, src);
            Ok(())
        },
    }
}

/// Trims trailing `0x1A` bytes off `T` before use.
pub struct AsTerminated<T>(pub T);

/// Trims trailing nul bytes off `T` before use.
pub struct AsNulTerminated<T>(pub T);

impl<T> AsTerminated<T> {
    /// Wraps `sequence`.
    pub fn new(sequence: T) -> (r: Self)
        ensures
            r.0 == sequence,
    {
        AsTerminated(sequence)
    }
}

impl<T> AsNulTerminated<T> {
    /// Wraps `sequence`.
    pub fn new(sequence: T) -> (r: Self)
        ensures
            r.0 == sequence,
    {
        AsNulTerminated(sequence)
    }
}

impl AsTerminated<Vec<u8>> {
    /// The content: the bytes before the trailing `0x1A` bytes.
    pub fn const_as_bytes(&self) -> (r: &[u8])
        ensures
            r@ == self.0@.subrange(0, trimmed_len(self.0@, 0x1A) as int),
    {
        let (head, _) = self.const_split_terminator();
        head
    }

    /// The length of the content.
    pub fn const_len(&self) -> (r: usize)
        ensures
            r == trimmed_len(self.0@, 0x1A),
    {
        terminated_len(self.0.as_slice(), 0x1A)
    }

    /// The content and the trailing `0x1A` bytes.
    pub fn const_split_terminator(&self) -> (r: (&[u8], &[u8]))
        ensures
            r.0@ == self.0@.subrange(0, trimmed_len(self.0@, 0x1A) as int),
            r.1@ == self.0@.subrange(trimmed_len(self.0@, 0x1A) as int, self.0@.len() as int),
    {
        let n = self.const_len();
        proof {
            lemma_split_terminator(self.0@, 0x1A);
        }
        self.0.as_slice().split_at(n)
    }

    /// Sets the first trailing `0x1A` byte to `value`; refused where there is none.
    pub fn const_push_byte(&mut self, value: u8) -> (r: Result<(), CapacityError>)
        ensures
            ({
                let n = trimmed_len(old(self).0@, 0x1A);
                match r {
                    Ok(_) => n < old(self).0@.len() && final(self).0@ == old(self).0@.update(n as int, value),
                    Err(e) => n == old(self).0@.len() && e.0 == 1 && final(self).0@ == old(self).0@,
                }
            }),
    {
        let single = [value];
        let r = push_bytes(&mut self.0, 0x1A, single.as_slice());
        proof {
            let n = trimmed_len(old(self).0@, 0x1A);
            lemma_split_terminator(old(self).0@, 0x1A);
            assert(single@ =~= seq![value]);
            if r is Ok {
                assert(overwrite(old(self).0@, n as int, seq![value]) =~= old(self).0@.update(n as int, value));
            }
        }
        r
    }

    /// Writes the UTF-8 encoding of `c` over the first trailing `0x1A` bytes; refused where
    /// they are too few.
    pub fn const_push_char(&mut self, c: char) -> (r: Result<(), CapacityError>)
        ensures
            ({
                let n = trimmed_len(old(self).0@, 0x1A);
                let space = old(self).0@.len() - n;
                let enc = encode_scalar(c as u32);
                match r {
                    Ok(_) => enc.len() <= space && final(self).0@ == overwrite(old(self).0@, n as int, enc),
                    Err(e) => enc.len() > space && e.0 == enc.len() - space && final(self).0@ == old(self).0@,
                }
            }),
    {
        let encoded = encode_char(c);
        push_bytes(&mut self.0, 0x1A, encoded.as_slice())
    }
}

impl AsNulTerminated<Vec<u8>> {
    /// The content: the bytes before the trailing nul bytes.
    pub fn const_as_bytes(&self) -> (r: &[u8])
        ensures
            r@ == self.0@.subrange(0, trimmed_len(self.0@, 0) as int),
    {
        let (head, _) = self.const_split_terminator();
        head
    }

    /// The length of the content.
    pub fn const_len(&self) -> (r: usize)
        ensures
            r == trimmed_len(self.0@, 0),
    {
        terminated_len(self.0.as_slice(), 0)
    }

    /// The content and the trailing nul bytes.
    pub fn const_split_terminator(&self) -> (r: (&[u8], &[u8]))
        ensures
            r.0@ == self.0@.subrange(0, trimmed_len(self.0@, 0) as int),
            r.1@ == self.0@.subrange(trimmed_len(self.0@, 0) as int, self.0@.len() as int),
    {
        let n = self.const_len();
        proof {
            lemma_split_terminator(self.0@, 0);
        }
        self.0.as_slice().split_at(n)
    }

    /// Sets the first trailing nul byte to `value`; refused where there is none.
    pub fn const_push_byte(&mut self, value: u8) -> (r: Result<(), CapacityError>)
        ensures
            ({
                let n = trimmed_len(old(self).0@, 0);
                match r {
                    Ok(_) => n < old(self).0@.len() && final(self).0@ == old(self).0@.update(n as int, value),
                    Err(e) => n == old(self).0@.len() && e.0 == 1 && final(self).0@ == old(self).0@,
                }
            }),
    {
        let single = [value];
        let r = push_bytes(&mut self.0, 0, single.as_slice());
        proof {
            let n = trimmed_len(old(self).0@, 0);
            lemma_split_terminator(old(self).0@, 0);
            assert(single@ =~= seq![value]);
            if r is Ok {
                assert(overwrite(old(self).0@, n as int, seq![value]) =~= old(self).0@.update(n as int, value));
            }
        }
        r
    }

    /// Writes the UTF-8 encoding of `c` over the first trailing nul bytes; refused where they
    /// are too few.
    pub fn const_push_char(&mut self, c: char) -> (r: Result<(), CapacityError>)
        ensures
            ({
                let n = trimmed_len(old(self).0@, 0);
                let space = old(self).0@.len() - n;
                let enc = encode_scalar(c as u32);
                match r {
                    Ok(_) => enc.len() <= space && final(self).0@ == overwrite(old(self).0@, n as int, enc),
                    Err(e) => enc.len() > space && e.0 == enc.len() - space && final(self).0@ == old(self).0@,
                }
            }),
    {
        let encoded = encode_char(c);
        push_bytes(&mut self.0, 0, encoded.as_slice())
    }
}

/// The end of the content of valid UTF-8 padded with an ASCII terminator is a character
/// boundary, so the content is valid UTF-8 too.
pub proof fn lemma_trimmed_valid(bytes: Seq<u8>, term: u8)
    requires
        vstd::utf8::valid_utf8(bytes),
        term < 128,
    ensures
        is_char_boundary(bytes, trimmed_len(bytes, term) as int),
        vstd::utf8::valid_utf8(bytes.subrange(0, trimmed_len(bytes, term) as int)),
{
    lemma_split_terminator(bytes, term);
    let n = trimmed_len(bytes, term) as int;
    if n == bytes.len() {
        vstd::utf8::is_char_boundary_start_end_of_seq(bytes);
    } else {
        vstd::utf8::is_char_boundary_iff_not_is_continuation_byte(bytes, n);
        let b = bytes[n];
        assert(!is_continuation_byte(b)) by (bit_vector)
            requires
                b == term,
                term < 128,
        ;
    }
    vstd::utf8::valid_utf8_split(bytes, n);
}

/// The end of the content of text padded with an ASCII terminator is a character boundary.
proof fn lemma_trimmed_boundary(s: &str, term: u8)
    requires
        term < 128,
    ensures
        vstd::utf8::valid_utf8(s.spec_bytes()),
        is_char_boundary(s.spec_bytes(), trimmed_len(s.spec_bytes(), term) as int),
{
    let bytes = s.spec_bytes();
    encode_utf8_valid_utf8(s@);
    lemma_split_terminator(bytes, term);
    let n = trimmed_len(bytes, term) as int;
    if n == bytes.len() {
        vstd::utf8::is_char_boundary_start_end_of_seq(bytes);
    } else {
        vstd::utf8::is_char_boundary_iff_not_is_continuation_byte(bytes, n);
        let b = bytes[n];
        assert(!is_continuation_byte(b)) by (bit_vector)
            requires
                b == term,
                term < 128,
        ;
    }
}

impl AsTerminated<String> {
    /// The length of the content.
    pub fn const_len(&self) -> (r: usize)
        ensures
            r == trimmed_len(encode_utf8(self.0@), 0x1A),
    {
        terminated_len(self.0.as_str().as_bytes(), 0x1A)
    }

    /// The content: the text before the trailing `0x1A` bytes.
    pub fn const_as_str(&self) -> (r: &str)
        ensures
            r.spec_bytes() == encode_utf8(self.0@).subrange(0, trimmed_len(encode_utf8(self.0@), 0x1A) as int),
    {
        let (head, _) = self.const_split_terminator();
        head
    }

    /// The content and the trailing `0x1A` bytes.
    pub fn const_split_terminator(&self) -> (r: (&str, &str))
        ensures
            r.0.spec_bytes() == encode_utf8(self.0@).subrange(0, trimmed_len(encode_utf8(self.0@), 0x1A) as int),
            r.1.spec_bytes() == encode_utf8(self.0@).subrange(
                trimmed_len(encode_utf8(self.0@), 0x1A) as int,
                encode_utf8(self.0@).len() as int,
            ),
    {
        let s = self.0.as_str();
        let n = terminated_len(s.as_bytes(), 0x1A);
        proof {
            lemma_trimmed_boundary(s, 0x1A);
        }
        s.split_at(n)
    }
}

impl AsNulTerminated<String> {
    /// The length of the content.
    pub fn const_len(&self) -> (r: usize)
        ensures
            r == trimmed_len(encode_utf8(self.0@), 0),
    {
        terminated_len(self.0.as_str().as_bytes(), 0)
    }

    /// The content: the text before the trailing nul bytes.
    pub fn const_as_str(&self) -> (r: &str)
        ensures
            r.spec_bytes() == encode_utf8(self.0@).subrange(0, trimmed_len(encode_utf8(self.0@), 0) as int),
    {
        let (head, _) = self.const_split_terminator();
        head
    }

    /// The content and the trailing nul bytes.
    pub fn const_split_terminator(&self) -> (r: (&str, &str))
        ensures
            r.0.spec_bytes() == encode_utf8(self.0@).subrange(0, trimmed_len(encode_utf8(self.0@), 0) as int),
            r.1.spec_bytes() == encode_utf8(self.0@).subrange(
                trimmed_len(encode_utf8(self.0@), 0) as int,
                encode_utf8(self.0@).len() as int,
            ),
    {
        let s = self.0.as_str();
        let n = terminated_len(s.as_bytes(), 0);
        proof {
            lemma_trimmed_boundary(s, 0);
        }
        s.split_at(n)
    }
}

} // verus!
