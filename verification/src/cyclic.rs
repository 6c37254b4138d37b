//! Cyclic ordering of unsigned integers: see [`Cyclic`].

use core::cmp::Ordering;
use vstd::prelude::*;

verus! {

/// Distance of `n` from the midpoint `max / 2` of the range `0..=max`.
pub open spec fn midpoint_distance(n: int, max: int) -> int {
    if n <= max / 2 {
        max / 2 - n
    } else {
        n - max / 2
    }
}

/// `|x - y|`.
pub open spec fn abs_diff(x: int, y: int) -> int {
    if x < y {
        y - x
    } else {
        x - y
    }
}

/// The midpoint of the `usize` range, rounded down: `2^63 - 1` or `2^31 - 1`.
pub open spec fn usize_midpoint() -> int {
    if usize::BITS == 64 {
        0x7fff_ffff_ffff_ffff
    } else {
        0x7fff_ffff
    }
}

/// The ordering of `x` against `y`.
pub open spec fn order_of(x: int, y: int) -> Ordering {
    if x < y {
        Ordering::Less
    } else if x == y {
        Ordering::Equal
    } else {
        Ordering::Greater
    }
}

/// The reversed ordering.
pub open spec fn reversed(o: Ordering) -> Ordering {
    match o {
        Ordering::Less => Ordering::Greater,
        Ordering::Equal => Ordering::Equal,
        Ordering::Greater => Ordering::Less,
    }
}

/// Law: comparing the other way round gives the reversed ordering.
pub proof fn lemma_order_antisymmetric(x: int, y: int)
    ensures
        order_of(x, y) == reversed(order_of(y, x)),
{
}

/// Law: the ordering is transitive.
pub proof fn lemma_order_transitive(x: int, y: int, z: int)
    requires
        order_of(x, y) == Ordering::Less,
        order_of(y, z) == Ordering::Less,
    ensures
        order_of(x, z) == Ordering::Less,
{
}

/// Law: a value compares equal to itself.
pub proof fn lemma_order_reflexive(x: int)
    ensures
        order_of(x, x) == Ordering::Equal,
{
}

/// Cyclic ordering for integer primitives: values are ordered by their
/// distance from the middle of the integer range.
#[derive(Debug, Clone, Copy, PartialEq, Eq, Hash)]
pub struct Cyclic<T>(T);

impl<T> View for Cyclic<T> {
    type V = T;

    closed spec fn view(&self) -> T {
        self.0
    }
}

impl<T> Cyclic<T> {
    pub fn new(n: T) -> (r: Self)
        ensures
            r@ == n,
    {
        Self(n)
    }

    pub fn get(self) -> (r: T)
        ensures
            r == self@,
    {
        self.0
    }
}

impl Cyclic<u8> {
    /// Distance of the value from the middle of the `u8` range.
    pub open spec fn distance(self) -> int {
        midpoint_distance(self@ as int, u8::MAX as int)
    }

    /// Twice `rhs`, going round the cycle of `u8` values; `self` does not enter into it.
    pub fn add(self, rhs: Self) -> (r: Self)
        ensures
            r@ == (if rhs@ + rhs@ > u8::MAX {
                rhs@ + rhs@ - u8::MAX - 1
            } else {
                rhs@ + rhs@
            }),
    {
        Self(rhs.0.wrapping_add(rhs.0))
    }

    /// `rhs` minus itself: always zero; `self` does not enter into it.
    pub fn sub(self, rhs: Self) -> (r: Self)
        ensures
            r@ == 0,
    {
        Self(rhs.0.wrapping_sub(rhs.0))
    }

    fn midpoint_distance(self) -> (d: u8)
        ensures
            d == self.distance(),
    {
        let midpoint: u8 = u8::MAX / 2;
        if self.0 <= midpoint {
            midpoint - self.0
        } else {
            self.0 - midpoint
        }
    }

    /// Orders by distance from the middle of the range.
    pub fn cmp(&self, other: &Self) -> (r: Ordering)
        ensures
            r == order_of(self.distance(), other.distance()),
            r == order_of(offset_u8(*self), offset_u8(*other)),
    {
        proof {
            lemma_u8_order(*self, *other);
        }
        let lhs = self.midpoint_distance();
        let rhs = other.midpoint_distance();
        if lhs < rhs {
            Ordering::Less
        } else if lhs == rhs {
            Ordering::Equal
        } else {
            Ordering::Greater
        }
    }

    /// Same as [`Self::cmp`], always `Some`.
    pub fn partial_cmp(&self, other: &Self) -> (r: Option<Ordering>)
        ensures
            r == Some(order_of(self.distance(), other.distance())),
            r == Some(order_of(offset_u8(*self), offset_u8(*other))),
    {
        proof {
            lemma_u8_order(*self, *other);
        }
        Some(self.cmp(other))
    }
}

impl Cyclic<u16> {
    /// Distance of the value from the middle of the `u16` range.
    pub open spec fn distance(self) -> int {
        midpoint_distance(self@ as int, u16::MAX as int)
    }

    /// Twice `rhs`, going round the cycle of `u16` values; `self` does not enter into it.
    pub fn add(self, rhs: Self) -> (r: Self)
        ensures
            r@ == (if rhs@ + rhs@ > u16::MAX {
                rhs@ + rhs@ - u16::MAX - 1
            } else {
                rhs@ + rhs@
            }),
    {
        Self(rhs.0.wrapping_add(rhs.0))
    }

    /// `rhs` minus itself: always zero; `self` does not enter into it.
    pub fn sub(self, rhs: Self) -> (r: Self)
        ensures
            r@ == 0,
    {
        Self(rhs.0.wrapping_sub(rhs.0))
    }

    fn midpoint_distance(self) -> (d: u16)
        ensures
            d == self.distance(),
    {
        let midpoint: u16 = u16::MAX / 2;
        if self.0 <= midpoint {
            midpoint - self.0
        } else {
            self.0 - midpoint
        }
    }

    /// Orders by distance from the middle of the range.
    pub fn cmp(&self, other: &Self) -> (r: Ordering)
        ensures
            r == order_of(self.distance(), other.distance()),
            r == order_of(offset_u16(*self), offset_u16(*other)),
    {
        proof {
            lemma_u16_order(*self, *other);
        }
        let lhs = self.midpoint_distance();
        let rhs = other.midpoint_distance();
        if lhs < rhs {
            Ordering::Less
        } else if lhs == rhs {
            Ordering::Equal
        } else {
            Ordering::Greater
        }
    }

    /// Same as [`Self::cmp`], always `Some`.
    pub fn partial_cmp(&self, other: &Self) -> (r: Option<Ordering>)
        ensures
            r == Some(order_of(self.distance(), other.distance())),
            r == Some(order_of(offset_u16(*self), offset_u16(*other))),
    {
        proof {
            lemma_u16_order(*self, *other);
        }
        Some(self.cmp(other))
    }
}

impl Cyclic<u32> {
    /// Distance of the value from the middle of the `u32` range.
    pub open spec fn distance(self) -> int {
        midpoint_distance(self@ as int, u32::MAX as int)
    }

    /// Twice `rhs`, going round the cycle of `u32` values; `self` does not enter into it.
    pub fn add(self, rhs: Self) -> (r: Self)
        ensures
            r@ == (if rhs@ + rhs@ > u32::MAX {
                rhs@ + rhs@ - u32::MAX - 1
            } else {
                rhs@ + rhs@
            }),
    {
        Self(rhs.0.wrapping_add(rhs.0))
    }

    /// `rhs` minus itself: always zero; `self` does not enter into it.
    pub fn sub(self, rhs: Self) -> (r: Self)
        ensures
            r@ == 0,
    {
        Self(rhs.0.wrapping_sub(rhs.0))
    }

    fn midpoint_distance(self) -> (d: u32)
        ensures
            d == self.distance(),
    {
        let midpoint: u32 = u32::MAX / 2;
        if self.0 <= midpoint {
            midpoint - self.0
        } else {
            self.0 - midpoint
        }
    }

    /// Orders by distance from the middle of the range.
    pub fn cmp(&self, other: &Self) -> (r: Ordering)
        ensures
            r == order_of(self.distance(), other.distance()),
            r == order_of(offset_u32(*self), offset_u32(*other)),
    {
        proof {
            lemma_u32_order(*self, *other);
        }
        let lhs = self.midpoint_distance();
        let rhs = other.midpoint_distance();
        if lhs < rhs {
            Ordering::Less
        } else if lhs == rhs {
            Ordering::Equal
        } else {
            Ordering::Greater
        }
    }

    /// Same as [`Self::cmp`], always `Some`.
    pub fn partial_cmp(&self, other: &Self) -> (r: Option<Ordering>)
        ensures
            r == Some(order_of(self.distance(), other.distance())),
            r == Some(order_of(offset_u32(*self), offset_u32(*other))),
    {
        proof {
            lemma_u32_order(*self, *other);
        }
        Some(self.cmp(other))
    }
}

impl Cyclic<u64> {
    /// Distance of the value from the middle of the `u64` range.
    pub open spec fn distance(self) -> int {
        midpoint_distance(self@ as int, u64::MAX as int)
    }

    /// Twice `rhs`, going round the cycle of `u64` values; `self` does not enter into it.
    pub fn add(self, rhs: Self) -> (r: Self)
        ensures
            r@ == (if rhs@ + rhs@ > u64::MAX {
                rhs@ + rhs@ - u64::MAX - 1
            } else {
                rhs@ + rhs@
            }),
    {
        Self(rhs.0.wrapping_add(rhs.0))
    }

    /// `rhs` minus itself: always zero; `self` does not enter into it.
    pub fn sub(self, rhs: Self) -> (r: Self)
        ensures
            r@ == 0,
    {
        Self(rhs.0.wrapping_sub(rhs.0))
    }

    fn midpoint_distance(self) -> (d: u64)
        ensures
            d == self.distance(),
    {
        let midpoint: u64 = u64::MAX / 2;
        if self.0 <= midpoint {
            midpoint - self.0
        } else {
            self.0 - midpoint
        }
    }

    /// Orders by distance from the middle of the range.
    pub fn cmp(&self, other: &Self) -> (r: Ordering)
        ensures
            r == order_of(self.distance(), other.distance()),
            r == order_of(offset_u64(*self), offset_u64(*other)),
    {
        proof {
            lemma_u64_order(*self, *other);
        }
        let lhs = self.midpoint_distance();
        let rhs = other.midpoint_distance();
        if lhs < rhs {
            Ordering::Less
        } else if lhs == rhs {
            Ordering::Equal
        } else {
            Ordering::Greater
        }
    }

    /// Same as [`Self::cmp`], always `Some`.
    pub fn partial_cmp(&self, other: &Self) -> (r: Option<Ordering>)
        ensures
            r == Some(order_of(self.distance(), other.distance())),
            r == Some(order_of(offset_u64(*self), offset_u64(*other))),
    {
        proof {
            lemma_u64_order(*self, *other);
        }
        Some(self.cmp(other))
    }
}

impl Cyclic<u128> {
    /// Distance of the value from the middle of the `u128` range.
    pub open spec fn distance(self) -> int {
        midpoint_distance(self@ as int, u128::MAX as int)
    }

    /// Twice `rhs`, going round the cycle of `u128` values; `self` does not enter into it.
    pub fn add(self, rhs: Self) -> (r: Self)
        ensures
            r@ == (if rhs@ + rhs@ > u128::MAX {
                rhs@ + rhs@ - u128::MAX - 1
            } else {
                rhs@ + rhs@
            }),
    {
        Self(rhs.0.wrapping_add(rhs.0))
    }

    /// `rhs` minus itself: always zero; `self` does not enter into it.
    pub fn sub(self, rhs: Self) -> (r: Self)
        ensures
            r@ == 0,
    {
        Self(rhs.0.wrapping_sub(rhs.0))
    }

    fn midpoint_distance(self) -> (d: u128)
        ensures
            d == self.distance(),
    {
        let midpoint: u128 = u128::MAX / 2;
        if self.0 <= midpoint {
            midpoint - self.0
        } else {
            self.0 - midpoint
        }
    }

    /// Orders by distance from the middle of the range.
    pub fn cmp(&self, other: &Self) -> (r: Ordering)
        ensures
            r == order_of(self.distance(), other.distance()),
            r == order_of(offset_u128(*self), offset_u128(*other)),
    {
        proof {
            lemma_u128_order(*self, *other);
        }
        let lhs = self.midpoint_distance();
        let rhs = other.midpoint_distance();
        if lhs < rhs {
            Ordering::Less
        } else if lhs == rhs {
            Ordering::Equal
        } else {
            Ordering::Greater
        }
    }

    /// Same as [`Self::cmp`], always `Some`.
    pub fn partial_cmp(&self, other: &Self) -> (r: Option<Ordering>)
        ensures
            r == Some(order_of(self.distance(), other.distance())),
            r == Some(order_of(offset_u128(*self), offset_u128(*other))),
    {
        proof {
            lemma_u128_order(*self, *other);
        }
        Some(self.cmp(other))
    }
}

impl Cyclic<usize> {
    /// Distance of the value from the middle of the `usize` range.
    pub open spec fn distance(self) -> int {
        midpoint_distance(self@ as int, usize::MAX as int)
    }

    /// Twice `rhs`, going round the cycle of `usize` values; `self` does not enter into it.
    pub fn add(self, rhs: Self) -> (r: Self)
        ensures
            r@ == (if rhs@ + rhs@ > usize::MAX {
                rhs@ + rhs@ - usize::MAX - 1
            } else {
                rhs@ + rhs@
            }),
    {
        Self(rhs.0.wrapping_add(rhs.0))
    }

    /// `rhs` minus itself: always zero; `self` does not enter into it.
    pub fn sub(self, rhs: Self) -> (r: Self)
        ensures
            r@ == 0,
    {
        Self(rhs.0.wrapping_sub(rhs.0))
    }

    fn midpoint_distance(self) -> (d: usize)
        ensures
            d == self.distance(),
    {
        let midpoint: usize = usize::MAX / 2;
        if self.0 <= midpoint {
            midpoint - self.0
        } else {
            self.0 - midpoint
        }
    }

    /// Orders by distance from the middle of the range.
    pub fn cmp(&self, other: &Self) -> (r: Ordering)
        ensures
            r == order_of(self.distance(), other.distance()),
            r == order_of(offset_usize(*self), offset_usize(*other)),
    {
        proof {
            lemma_usize_order(*self, *other);
        }
        let lhs = self.midpoint_distance();
        let rhs = other.midpoint_distance();
        if lhs < rhs {
            Ordering::Less
        } else if lhs == rhs {
            Ordering::Equal
        } else {
            Ordering::Greater
        }
    }

    /// Same as [`Self::cmp`], always `Some`.
    pub fn partial_cmp(&self, other: &Self) -> (r: Option<Ordering>)
        ensures
            r == Some(order_of(self.distance(), other.distance())),
            r == Some(order_of(offset_usize(*self), offset_usize(*other))),
    {
        proof {
            lemma_usize_order(*self, *other);
        }
        Some(self.cmp(other))
    }
}

/// How far the value of `c` lies from 127, the midpoint of the `u8` range rounded
/// down.
pub open spec fn offset_u8(c: Cyclic<u8>) -> int {
    abs_diff(c@ as int, 127)
}

/// How far the value of `c` lies from 32767, the midpoint of the `u16` range rounded
/// down.
pub open spec fn offset_u16(c: Cyclic<u16>) -> int {
    abs_diff(c@ as int, 32767)
}

/// How far the value of `c` lies from 2147483647, the midpoint of the `u32` range rounded
/// down.
pub open spec fn offset_u32(c: Cyclic<u32>) -> int {
    abs_diff(c@ as int, 2147483647)
}

/// How far the value of `c` lies from 9223372036854775807, the midpoint of the `u64` range rounded
/// down.
pub open spec fn offset_u64(c: Cyclic<u64>) -> int {
    abs_diff(c@ as int, 9223372036854775807)
}

/// How far the value of `c` lies from 170141183460469231731687303715884105727, the midpoint of the `u128` range rounded
/// down.
pub open spec fn offset_u128(c: Cyclic<u128>) -> int {
    abs_diff(c@ as int, 170141183460469231731687303715884105727)
}

/// How far the value of `c` lies from [`usize_midpoint`], the midpoint of the `usize` range rounded
/// down.
pub open spec fn offset_usize(c: Cyclic<usize>) -> int {
    abs_diff(c@ as int, usize_midpoint())
}

/// Law: values of `Cyclic<u8>` are ordered by how far they lie from 127, the
/// midpoint of `0..=255` rounded down: the distance is `|x - midpoint|`, and comparing two
/// values compares their distances.
pub proof fn lemma_u8_order(a: Cyclic<u8>, b: Cyclic<u8>)
    ensures
        a.distance() == offset_u8(a),
        b.distance() == offset_u8(b),
        order_of(a.distance(), b.distance()) == order_of(
            offset_u8(a),
            offset_u8(b),
        ),
{
}

/// Law: values of `Cyclic<u16>` are ordered by how far they lie from 32767, the
/// midpoint of the `u16` range rounded down: the distance is `|x - midpoint|`, and comparing two
/// values compares their distances.
pub proof fn lemma_u16_order(a: Cyclic<u16>, b: Cyclic<u16>)
    ensures
        a.distance() == offset_u16(a),
        b.distance() == offset_u16(b),
        order_of(a.distance(), b.distance()) == order_of(
            offset_u16(a),
            offset_u16(b),
        ),
{
}

/// Law: values of `Cyclic<u32>` are ordered by how far they lie from 2147483647, the
/// midpoint of the `u32` range rounded down: the distance is `|x - midpoint|`, and comparing two
/// values compares their distances.
pub proof fn lemma_u32_order(a: Cyclic<u32>, b: Cyclic<u32>)
    ensures
        a.distance() == offset_u32(a),
        b.distance() == offset_u32(b),
        order_of(a.distance(), b.distance()) == order_of(
            offset_u32(a),
            offset_u32(b),
        ),
{
}

/// Law: values of `Cyclic<u64>` are ordered by how far they lie from 9223372036854775807, the
/// midpoint of the `u64` range rounded down: the distance is `|x - midpoint|`, and comparing two
/// values compares their distances.
pub proof fn lemma_u64_order(a: Cyclic<u64>, b: Cyclic<u64>)
    ensures
        a.distance() == offset_u64(a),
        b.distance() == offset_u64(b),
        order_of(a.distance(), b.distance()) == order_of(
            offset_u64(a),
            offset_u64(b),
        ),
{
}

/// Law: values of `Cyclic<u128>` are ordered by how far they lie from 170141183460469231731687303715884105727, the
/// midpoint of the `u128` range rounded down: the distance is `|x - midpoint|`, and comparing two
/// values compares their distances.
pub proof fn lemma_u128_order(a: Cyclic<u128>, b: Cyclic<u128>)
    ensures
        a.distance() == offset_u128(a),
        b.distance() == offset_u128(b),
        order_of(a.distance(), b.distance()) == order_of(
            offset_u128(a),
            offset_u128(b),
        ),
{
}

/// Law: values of `Cyclic<usize>` are ordered by how far they lie from [`usize_midpoint`], the
/// midpoint of the `usize` range rounded down: the distance is `|x - midpoint|`, and comparing two
/// values compares their distances.
pub proof fn lemma_usize_order(a: Cyclic<usize>, b: Cyclic<usize>)
    ensures
        a.distance() == offset_usize(a),
        b.distance() == offset_usize(b),
        order_of(a.distance(), b.distance()) == order_of(
            offset_usize(a),
            offset_usize(b),
        ),
{
}

} // verus!
