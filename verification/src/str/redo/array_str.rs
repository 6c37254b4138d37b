//! A string of an exact length: see [`ArrayStr`].

use super::pod::PodStr;
use vstd::prelude::*;
use vstd::utf8::valid_utf8;

verus! {

/// A string of exactly `LEN` bytes.
#[derive(Debug)]
pub struct ArrayStr<const LEN: usize>(pub PodStr<[u8; LEN]>);

impl<const LEN: usize> ArrayStr<LEN> {
    /// The string of a byte string literal, which must be valid UTF-8.
    pub fn lit(byte_str_literal: &[u8; LEN]) -> (r: Self)
        requires
            LEN < isize::MAX,
            valid_utf8(byte_str_literal@),
        ensures
            r.0.wf(),
            r.0@ == byte_str_literal@,
    {
        ArrayStr(PodStr::lit(byte_str_literal))
    }
}

} // verus!
