//! See [`Address`].

use vstd::prelude::*;

verus! {

/// Unsigned integer types usable as addresses.
pub trait Address: Clone + Copy + Eq + Ord + Sized + Send + Sync + 'static {

}

impl Address for u8 {

}

impl Address for u16 {

}

impl Address for u32 {

}

impl Address for u64 {

}

impl Address for u128 {

}

impl Address for usize {

}

} // verus!
