//! UTF-8 encoding of single characters.

use vstd::prelude::*;
use vstd::utf8::*;

verus! {

/// The number of bytes of the UTF-8 encoding of `c`.
pub fn len_utf8(c: char) -> (r: usize)
    ensures
        r == encode_scalar(c as u32).len(),
        1 <= r <= 4,
{
    let v = c as u32;
    if v <= 0x7F {
        1
    } else if v <= 0x7FF {
        2
    } else if v <= 0xFFFF {
        3
    } else {
        4
    }
}

/// The UTF-8 encoding of `c`.
pub fn encode_char(c: char) -> (r: Vec<u8>)
    ensures
        r@ == encode_scalar(c as u32),
        1 <= r@.len() <= 4,
{
    let v = c as u32;
    let mut r: Vec<u8> = Vec::new();
    if v <= 0x7F {
        r.push((v & 0x7F) as u8);
    } else if v <= 0x7FF {
        r.push(0xC0 | ((v >> 6) & 0x1F) as u8);
        r.push(0x80 | (v & 0x3F) as u8);
    } else if v <= 0xFFFF {
        r.push(0xE0 | ((v >> 12) & 0x0F) as u8);
        r.push(0x80 | ((v >> 6) & 0x3F) as u8);
        r.push(0x80 | (v & 0x3F) as u8);
    } else {
        r.push(0xF0 | ((v >> 18) & 0x7) as u8);
        r.push(0x80 | ((v >> 12) & 0x3F) as u8);
        r.push(0x80 | ((v >> 6) & 0x3F) as u8);
        r.push(0x80 | (v & 0x3F) as u8);
    }
    assert(r@ =~= encode_scalar(v));
    r
}

} // verus!
