//! Bit sets of element sizes, one bit per size class: see [`Rainbow`].

use core::marker::PhantomData;
use vstd::arithmetic::power2::{lemma_pow2_unfold, pow2};
use vstd::layout::size_of;
use vstd::prelude::*;

verus! {

/// The bit of a type of `size` bytes: bit `size - 1` for sizes `1..=128`, none otherwise.
pub open spec fn size_bit(size: nat) -> u128 {
    if 1 <= size <= 128 {
        1u128 << ((size - 1) as u32)
    } else {
        0
    }
}

/// The number of one bits of `n`.
pub open spec fn ones(n: nat) -> nat
    decreases n,
{
    if n == 0 {
        0
    } else {
        n % 2 + ones(n / 2)
    }
}

/// A set of size classes, one bit for each size of `1..=128` bytes.
pub trait Rainbow {
    /// The bits of the set.
    spec fn rainbow_spec() -> nat;

    /// The bits of the set.
    fn rainbow() -> (r: u128)
        ensures
            r == Self::rainbow_spec(),
    ;
}

/// The bit of the size of `T`.
fn size_bit_of<T>() -> (r: u128)
    ensures
        r == size_bit(size_of::<T>()),
{
    let size = core::mem::size_of::<T>();
    if size == 0 || size > 128 {
        return 0;
    }
    1u128 << ((size - 1) as u32)
}

impl<T> Rainbow for (T,) {
    open spec fn rainbow_spec() -> nat {
        size_bit(size_of::<T>()) as nat
    }

    fn rainbow() -> (r: u128) {
        size_bit_of::<T>()
    }
}

impl<T, U> Rainbow for (T, U) {
    /// Both bits where the two sizes share a bit, none where they do not.
    open spec fn rainbow_spec() -> nat {
        let t = size_bit(size_of::<T>());
        let u = size_bit(size_of::<U>());
        if t & u == 0 {
            0
        } else {
            (t | u) as nat
        }
    }

    fn rainbow() -> (r: u128) {
        let t = size_bit_of::<T>();
        let u = size_bit_of::<U>();
        if t & u == 0 {
            0
        } else {
            t | u
        }
    }
}

impl<T0, T1, T2> Rainbow for (T0, T1, T2) {
    /// All bits where the three sizes share a bit, none where they do not.
    open spec fn rainbow_spec() -> nat {
        let t0 = size_bit(size_of::<T0>());
        let t1 = size_bit(size_of::<T1>());
        let t2 = size_bit(size_of::<T2>());
        if t0 & t1 & t2 == 0 {
            0
        } else {
            (t0 | t1 | t2) as nat
        }
    }

    fn rainbow() -> (r: u128) {
        let t0 = size_bit_of::<T0>();
        let t1 = size_bit_of::<T1>();
        let t2 = size_bit_of::<T2>();
        if t0 & t1 & t2 == 0 {
            0
        } else {
            t0 | t1 | t2
        }
    }
}

/// Two distinct bits below 128 share nothing, and a bit joined with itself is that bit.
proof fn lemma_single_bits(a: u32, b: u32)
    requires
        a < 128,
        b < 128,
    ensures
        ((1u128 << a) & (1u128 << b) == 0) == (a != b),
        (1u128 << a) | (1u128 << a) == 1u128 << a,
        (1u128 << a) & (1u128 << a) & (1u128 << a) == 1u128 << a,
        (1u128 << a) | (1u128 << a) | (1u128 << a) == 1u128 << a,
        1u128 << a != 0,
{
    assert(((1u128 << a) & (1u128 << b) == 0) == (a != b)) by (bit_vector)
        requires
            a < 128,
            b < 128,
    ;
    assert((1u128 << a) | (1u128 << a) == 1u128 << a) by (bit_vector);
    assert((1u128 << a) & (1u128 << a) & (1u128 << a) == 1u128 << a) by (bit_vector);
    assert((1u128 << a) | (1u128 << a) | (1u128 << a) == 1u128 << a) by (bit_vector);
    assert(1u128 << a != 0) by (bit_vector)
        requires
            a < 128,
    ;
}

/// Law: the size classes of a pair are those of its two single types together where the
/// two share a class, and none where they share none.
pub proof fn lemma_pair_rainbow<T, U>()
    ensures
        ({
            let t = <(T,) as Rainbow>::rainbow_spec() as u128;
            let u = <(U,) as Rainbow>::rainbow_spec() as u128;
            <(T, U) as Rainbow>::rainbow_spec() == if t & u == 0 {
                0
            } else {
                (t | u) as nat
            }
        }),
{
}

/// Law: a pair has a size class exactly when both of its types have the same size, of
/// `1..=128` bytes; that size is then its one class.
pub proof fn lemma_pair_rainbow_same_size<T, U>()
    ensures
        <(T, U) as Rainbow>::rainbow_spec() == if size_of::<T>() == size_of::<U>() && 1 <= size_of::<T>()
            <= 128 {
            size_bit(size_of::<T>()) as nat
        } else {
            0
        },
{
    let st = size_of::<T>();
    let su = size_of::<U>();
    if 1 <= st <= 128 && 1 <= su <= 128 {
        lemma_single_bits((st - 1) as u32, (su - 1) as u32);
    } else if 1 <= st <= 128 {
        assert(size_bit(st) & 0 == 0) by (bit_vector);
    } else if 1 <= su <= 128 {
        assert(0 & size_bit(su) == 0) by (bit_vector);
    } else {
        assert(0u128 & 0u128 == 0) by (bit_vector);
    }
}

/// Law: three types have a size class exactly when all three have the same size, of
/// `1..=128` bytes; that size is then their one class.
pub proof fn lemma_triple_rainbow_same_size<T0, T1, T2>()
    ensures
        <(T0, T1, T2) as Rainbow>::rainbow_spec() == if size_of::<T0>() == size_of::<T1>()
            && size_of::<T1>() == size_of::<T2>() && 1 <= size_of::<T0>() <= 128 {
            size_bit(size_of::<T0>()) as nat
        } else {
            0
        },
{
    let s0 = size_of::<T0>();
    let s1 = size_of::<T1>();
    let s2 = size_of::<T2>();
    let b0 = size_bit(s0);
    let b1 = size_bit(s1);
    let b2 = size_bit(s2);
    if 1 <= s0 <= 128 && 1 <= s1 <= 128 && 1 <= s2 <= 128 {
        let a0 = (s0 - 1) as u32;
        let a1 = (s1 - 1) as u32;
        let a2 = (s2 - 1) as u32;
        lemma_single_bits(a0, a1);
        lemma_single_bits(a1, a2);
        lemma_single_bits(a0, a2);
        assert(((1u128 << a0) & (1u128 << a1) & (1u128 << a2) == 0) == (a0 != a1 || a1 != a2)) by (bit_vector)
            requires
                a0 < 128,
                a1 < 128,
                a2 < 128,
        ;
    } else {
        assert(b0 == 0 || b1 == 0 || b2 == 0);
        assert(b0 & b1 & b2 == 0) by (bit_vector)
            requires
                b0 == 0 || b1 == 0 || b2 == 0,
        ;
    }
}

/// The number of one bits of `n`.
fn count_ones(n: u128) -> (r: u32)
    ensures
        r == ones(n as nat),
{
    let mut rest = n;
    let mut count: u32 = 0;
    proof {
        vstd::arithmetic::power2::lemma2_to64();
        vstd::arithmetic::power2::lemma_pow2_adds(64, 64);
        lemma_ones_bound(n as nat, 128);
    }
    while rest > 0
        invariant
            count + ones(rest as nat) == ones(n as nat),
            ones(n as nat) <= 128,
        decreases rest,
    {
        count = count + (rest % 2) as u32;
        rest = rest / 2;
    }
    count
}

proof fn lemma_ones_bound(n: nat, bits: nat)
    requires
        n < pow2(bits),
    ensures
        ones(n) <= bits,
    decreases bits,
{
    if n > 0 {
        if bits == 0 {
            vstd::arithmetic::power2::lemma2_to64();
        } else {
            lemma_pow2_unfold(bits);
            lemma_ones_bound(n / 2, (bits - 1) as nat);
        }
    }
}

/// Identifier of an entry of a slab; never zero.
#[derive(Debug)]
pub struct RainbowSlabId<T> {
    index: usize,
    marker: PhantomData<T>,
}

/// Collects the types whose size classes a slab holds.
#[derive(Debug)]
pub struct RainbowBuilder<T> {
    marker: PhantomData<T>,
}

impl<T> RainbowBuilder<T> {
    /// A builder for the single type `T`, whose size must be `1..=128` bytes.
    pub fn new() -> (r: RainbowBuilder<(T,)>)
        requires
            1 <= size_of::<T>() <= 128,
    {
        RainbowBuilder { marker: PhantomData }
    }

    /// Adds the type `U`; the size of `T` must be `1..=128` bytes.
    pub fn register<U>(self) -> (r: RainbowBuilder<(T, U)>)
        requires
            1 <= size_of::<T>() <= 128,
    {
        RainbowBuilder { marker: PhantomData }
    }

    /// The number of size classes: the one bits of [`RainbowBuilder::rainbow`].
    pub fn bands(&self) -> (r: usize)
        ensures
            r == ones(<(T,) as Rainbow>::rainbow_spec()),
    {
        count_ones(<(T,) as Rainbow>::rainbow()) as usize
    }

    /// The size classes of `(T,)`.
    pub fn rainbow(&self) -> (r: u128)
        ensures
            r == <(T,) as Rainbow>::rainbow_spec(),
    {
        <(T,) as Rainbow>::rainbow()
    }
}

} // verus!
