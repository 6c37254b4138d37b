//! Pairing of two integers into one: see [`UniqueCouple`].
//!
//! A pair `lesser < greater` is packed as `tri(greater) + lesser`, where
//! `tri(x) = 0 + 1 + ... + x`. Every natural number is `tri(g) + l` for exactly
//! one `g` and one `l <= g`, so the packed value can always be decoded again.

use vstd::prelude::*;

verus! {

/// The `x`-th triangular number, `0 + 1 + ... + x`.
pub open spec fn tri(x: int) -> int {
    x * (x + 1) / 2
}

/// `p` decodes to the pair `(lesser, greater)`: `greater` is the unique
/// value with `tri(greater) <= p < tri(greater + 1)`, and `lesser` is the rest.
pub open spec fn decodes_to(p: int, lesser: int, greater: int) -> bool {
    &&& 0 <= greater
    &&& tri(greater) <= p < tri(greater + 1)
    &&& lesser == p - tri(greater)
}

/// Errors of [`UniqueCouple`] construction.
#[derive(Debug, Clone, Copy, PartialEq, Eq, Structural)]
pub enum CouplingError {
    /// The two values are equal, so they do not form a pair of distinct values.
    Equal,
    /// `tri(greater)` does not fit the packed type.
    OverflowHi,
    /// `tri(greater) + lesser` does not fit the packed type.
    OverflowLo,
}

/// What coupling `alfa` and `bravo` gives when the packed type holds values up to `max`.
pub open spec fn couple_outcome(alfa: int, bravo: int, max: int) -> Result<int, CouplingError> {
    if alfa == bravo {
        Err(CouplingError::Equal)
    } else {
        let lesser = if alfa < bravo { alfa } else { bravo };
        let greater = if alfa < bravo { bravo } else { alfa };
        if tri(greater) > max {
            Err(CouplingError::OverflowHi)
        } else if tri(greater) + lesser > max {
            Err(CouplingError::OverflowLo)
        } else {
            Ok(tri(greater) + lesser)
        }
    }
}

/// `2 * tri(x)` is exactly `x * (x + 1)`.
pub proof fn lemma_tri_double(x: int)
    ensures
        2 * tri(x) == x * (x + 1),
{
    let k = x / 2;
    if x % 2 == 0 {
        assert(x * (x + 1) == 2 * (k * (x + 1))) by (nonlinear_arith)
            requires
                x == 2 * k,
        ;
    } else {
        assert(x * (x + 1) == 2 * (x * (k + 1))) by (nonlinear_arith)
            requires
                x == 2 * k + 1,
        ;
    }
}

/// Consecutive triangular numbers differ by the index.
pub proof fn lemma_tri_step(x: int)
    ensures
        tri(x + 1) == tri(x) + x + 1,
{
    lemma_tri_double(x);
    lemma_tri_double(x + 1);
    assert((x + 1) * (x + 2) == x * (x + 1) + 2 * (x + 1)) by (nonlinear_arith);
}

/// Triangular numbers grow with their index, and `tri(x) >= x`.
pub proof fn lemma_tri_monotonic(x: int, y: int)
    requires
        0 <= x <= y,
    ensures
        tri(x) <= tri(y),
        x <= tri(x),
        2 <= x ==> x < tri(x),
{
    lemma_tri_double(x);
    lemma_tri_double(y);
    assert(x * (x + 1) <= y * (y + 1)) by (nonlinear_arith)
        requires
            0 <= x <= y,
    ;
    assert(2 * x <= x * (x + 1)) by (nonlinear_arith)
        requires
            0 <= x,
    ;
    if 2 <= x {
        assert(2 * x < x * (x + 1)) by (nonlinear_arith)
            requires
                2 <= x,
        ;
    }
}

/// Floor of the square root: the `r` with `r * r <= n < (r + 1) * (r + 1)`.
fn isqrt(n: u128) -> (r: u128)
    ensures
        r * r <= n,
        n < (r + 1) * (r + 1),
{
    let mut lo: u128 = 0;
    let mut hi: u128 = 0x1_0000_0000_0000_0000;
    assert(n < 0x1_0000_0000_0000_0000 * 0x1_0000_0000_0000_0000);
    while hi - lo > 1
        invariant
            lo < hi <= 0x1_0000_0000_0000_0000,
            lo * lo <= n,
            n < hi * hi,
        decreases hi - lo,
    {
        let mid = lo + (hi - lo) / 2;
        assert(mid * mid < 0x1_0000_0000_0000_0000 * 0x1_0000_0000_0000_0000) by (nonlinear_arith)
            requires
                0 <= mid < 0x1_0000_0000_0000_0000,
        ;
        if mid * mid <= n {
            lo = mid;
        } else {
            hi = mid;
        }
    }
    lo
}

/// An integer square root `r` of `8 * p + 1` gives the decoding of `p`.
proof fn lemma_root_decodes(p: int, r: int)
    requires
        0 <= p,
        0 <= r,
        r * r <= 8 * p + 1,
        8 * p + 1 < (r + 1) * (r + 1),
    ensures
        1 <= r,
        0 <= (r - 1) / 2,
        tri((r - 1) / 2) <= p < tri((r - 1) / 2 + 1),
{
    if r == 0 {
        assert((r + 1) * (r + 1) == 1) by (nonlinear_arith)
            requires
                r == 0,
        ;
    }
    let g = (r - 1) / 2;
    lemma_tri_double(g);
    lemma_tri_double(g + 1);
    let t0 = tri(g);
    let t1 = tri(g + 1);
    if r % 2 == 1 {
        assert(t0 <= p < t1) by (nonlinear_arith)
            requires
                r == 2 * g + 1,
                2 * t0 == g * (g + 1),
                2 * t1 == (g + 1) * (g + 2),
                r * r <= 8 * p + 1,
                8 * p + 1 < (r + 1) * (r + 1),
        ;
    } else {
        assert(t0 <= p < t1) by (nonlinear_arith)
            requires
                r == 2 * g + 2,
                0 <= g,
                2 * t0 == g * (g + 1),
                2 * t1 == (g + 1) * (g + 2),
                r * r <= 8 * p + 1,
                8 * p + 1 < (r + 1) * (r + 1),
        ;
    }
}

/// `Some(tri(x))` when it is at most `max`.
fn seq_checked(x: u128, max: u128) -> (r: Option<u128>)
    ensures
        r == (if tri(x as int) <= max {
            Some(tri(x as int) as u128)
        } else {
            None::<u128>
        }),
{
    proof {
        lemma_tri_double(x as int);
        lemma_tri_monotonic(x as int, x as int);
    }
    let plus_one = match x.checked_add(1) {
        Some(p) => p,
        None => {
            return None;
        },
    };
    let product = if x % 2 == 0 {
        let half = x / 2;
        assert(half * (x + 1) == tri(x as int)) by (nonlinear_arith)
            requires
                x == 2 * half,
                2 * tri(x as int) == x * (x + 1),
        ;
        half.checked_mul(plus_one)
    } else {
        let half = plus_one / 2;
        assert(x * half == tri(x as int)) by (nonlinear_arith)
            requires
                x + 1 == 2 * half,
                2 * tri(x as int) == x * (x + 1),
        ;
        x.checked_mul(half)
    };
    match product {
        None => None,
        Some(p) => {
            if p <= max {
                Some(p)
            } else {
                None
            }
        },
    }
}

/// The greater value packed in `y`.
fn seq_inv(y: u128) -> (g: u128)
    requires
        8 * y + 1 <= u128::MAX,
    ensures
        tri(g as int) <= y < tri(g + 1),
        g <= y,
{
    let r = isqrt(8 * y + 1);
    proof {
        lemma_root_decodes(y as int, r as int);
        lemma_tri_monotonic(((r - 1) / 2) as int, ((r - 1) / 2) as int);
    }
    (r - 1) / 2
}

/// Splits a packed value into `(lesser, greater)`.
fn uncouple(p: u128) -> (r: (u128, u128))
    requires
        8 * p + 1 <= u128::MAX,
    ensures
        decodes_to(p as int, r.0 as int, r.1 as int),
        r.0 <= r.1 <= p,
{
    let greater = seq_inv(p);
    let base = match seq_checked(greater, p) {
        Some(t) => t,
        None => {
            proof {
                assert(false);
            }
            0
        },
    };
    proof {
        lemma_tri_step(greater as int);
    }
    (p - base, greater)
}

/// Packs the pair when the packed type holds values up to `max`.
fn pack_pair(alfa: u128, bravo: u128, max: u128) -> (r: Result<u128, CouplingError>)
    ensures
        match r {
            Ok(v) => couple_outcome(alfa as int, bravo as int, max as int) == Ok::<int, CouplingError>(v as int),
            Err(e) => couple_outcome(alfa as int, bravo as int, max as int) == Err::<int, CouplingError>(e),
        },
{
    let mut alfa = alfa;
    let mut bravo = bravo;
    if alfa > bravo {
        let swap = alfa;
        alfa = bravo;
        bravo = swap;
    } else if alfa == bravo {
        return Err(CouplingError::Equal);
    }
    let pack = match seq_checked(bravo, max) {
        Some(p) => p,
        None => {
            return Err(CouplingError::OverflowHi);
        },
    };
    match pack.checked_add(alfa) {
        Some(p) => {
            if p <= max {
                Ok(p)
            } else {
                Err(CouplingError::OverflowLo)
            }
        },
        None => Err(CouplingError::OverflowLo),
    }
}

/// `256` to the power `n`: the number of values that `n` bytes can hold.
pub open spec fn pow256(n: nat) -> int
    decreases n,
{
    if n == 0 {
        1
    } else {
        256 * pow256((n - 1) as nat)
    }
}

/// The number of bytes needed to hold `max_value`: the least `bytes` with
/// `max_value < 256^bytes`.
pub fn byte_occupancy(max_value: u128) -> (bytes: usize)
    requires
        max_value > 0,
    ensures
        1 <= bytes <= 16,
        max_value < pow256(bytes as nat),
        pow256((bytes - 1) as nat) <= max_value,
{
    let mut bytes: usize = 1;
    let mut limit: u128 = 256;
    proof {
        reveal_with_fuel(pow256, 17);
    }
    assert(pow256(16) == 0x1_0000_0000_0000_0000_0000_0000_0000_0000);
    assert(pow256(15) == 0x100_0000_0000_0000_0000_0000_0000_0000);
    while bytes < 16 && max_value >= limit
        invariant
            1 <= bytes <= 16,
            bytes < 16 ==> limit == pow256(bytes as nat),
            pow256((bytes - 1) as nat) <= max_value,
            pow256(16) == 0x1_0000_0000_0000_0000_0000_0000_0000_0000,
            pow256(15) == 0x100_0000_0000_0000_0000_0000_0000_0000,
        decreases 16 - bytes,
    {
        bytes = bytes + 1;
        if bytes < 16 {
            proof {
                lemma_pow256_monotonic((bytes - 1) as nat, 14);
                assert(pow256(15) == 256 * pow256(14));
            }
            limit = limit * 256;
        }
    }
    bytes
}

/// Powers of 256 grow with the exponent.
pub proof fn lemma_pow256_monotonic(a: nat, b: nat)
    requires
        a <= b,
    ensures
        1 <= pow256(a) <= pow256(b),
    decreases b,
{
    if a < b {
        lemma_pow256_monotonic(a, (b - 1) as nat);
    } else if a > 0 {
        lemma_pow256_monotonic((a - 1) as nat, (a - 1) as nat);
    }
}

/// A pair of two distinct values of type `T`, or a single value of `T`.
#[derive(Debug, Clone, Copy, Ord, PartialOrd, Eq, PartialEq, Hash)]
pub struct OptionalCouple<T>(T);

impl<T> View for OptionalCouple<T> {
    type V = T;

    closed spec fn view(&self) -> T {
        self.0
    }
}

impl<T> OptionalCouple<T> {
    /// The packed representation.
    pub fn as_raw(&self) -> (r: &T)
        ensures
            *r == self@,
    {
        &self.0
    }

    /// The packed representation.
    pub fn into_raw(self) -> (r: T)
        ensures
            r == self@,
    {
        self.0
    }
}

/// A pair of two distinct values of type `T`, packed into one `T` as
/// `tri(greater) + lesser`.
#[derive(Debug, Clone, Copy, Ord, PartialOrd, Eq, PartialEq, Hash)]
pub struct UniqueCouple<T>(T);

impl<T> View for UniqueCouple<T> {
    type V = T;

    closed spec fn view(&self) -> T {
        self.0
    }
}

impl<T> UniqueCouple<T> {
    /// The packed representation.
    pub fn as_raw(&self) -> (r: &T)
        ensures
            *r == self@,
    {
        &self.0
    }

    /// The packed representation.
    pub fn into_raw(self) -> (r: T)
        ensures
            r == self@,
    {
        self.0
    }
}

/// Types whose pairs are packed into a couple type.
pub trait Coupling {
    type Couple;
}

impl Coupling for (u8, Option<u8>) {
    type Couple = OptionalCouple<u16>;
}

impl Coupling for (u16, Option<u16>) {
    type Couple = OptionalCouple<u32>;
}

impl Coupling for (u32, Option<u32>) {
    type Couple = OptionalCouple<u64>;
}

impl Coupling for (u64, Option<u64>) {
    type Couple = OptionalCouple<u64>;
}

impl Coupling for [u8; 2] {
    type Couple = UniqueCouple<u16>;
}

impl Coupling for [u16; 2] {
    type Couple = UniqueCouple<u32>;
}

impl Coupling for [u32; 2] {
    type Couple = UniqueCouple<u64>;
}

impl Coupling for [u64; 2] {
    type Couple = UniqueCouple<u128>;
}

impl Coupling for [usize; 2] {
    type Couple = UniqueCouple<u128>;
}

impl UniqueCouple<u8> {
    /// Couples two distinct values; the order of `alfa` and `bravo` does not matter.
    /// Fails with [`CouplingError::Equal`] on equal values and with an overflow
    /// error where the packed value does not fit in a `u8`.
    pub fn new(alfa: u8, bravo: u8) -> (r: Result<Self, CouplingError>)
        ensures
            match r {
                Ok(c) => couple_outcome(alfa as int, bravo as int, u8::MAX as int) == Ok::<int, CouplingError>(c@ as int),
                Err(e) => couple_outcome(alfa as int, bravo as int, u8::MAX as int) == Err::<int, CouplingError>(e),
            },
    {
        match pack_pair(alfa as u128, bravo as u128, u8::MAX as u128) {
            Ok(p) => Ok(UniqueCouple(p as u8)),
            Err(e) => Err(e),
        }
    }

    /// Uncouples into `[lesser, greater]`.
    pub fn get(self) -> (r: [u8; 2])
        ensures
            decodes_to(self@ as int, r@[0] as int, r@[1] as int),
    {
        let (lesser, greater) = uncouple(self.0 as u128);
        [lesser as u8, greater as u8]
    }

    /// The greater value of the pair.
    pub fn get_greater(self) -> (g: u8)
        ensures
            tri(g as int) <= self@ < tri(g + 1),
    {
        seq_inv(self.0 as u128) as u8
    }

    /// The lesser value of the pair.
    pub fn get_lesser(self) -> (l: u8)
        ensures
            exists|g: int| decodes_to(self@ as int, l as int, g),
    {
        let (l, g) = uncouple(self.0 as u128);
        assert(decodes_to(self@ as int, (l as u8) as int, g as int));
        l as u8
    }
}

impl UniqueCouple<u16> {
    /// Couples two distinct values; the order of `alfa` and `bravo` does not matter.
    /// Fails with [`CouplingError::Equal`] on equal values and with an overflow
    /// error where the packed value does not fit in a `u16`.
    pub fn new(alfa: u16, bravo: u16) -> (r: Result<Self, CouplingError>)
        ensures
            match r {
                Ok(c) => couple_outcome(alfa as int, bravo as int, u16::MAX as int) == Ok::<int, CouplingError>(c@ as int),
                Err(e) => couple_outcome(alfa as int, bravo as int, u16::MAX as int) == Err::<int, CouplingError>(e),
            },
    {
        match pack_pair(alfa as u128, bravo as u128, u16::MAX as u128) {
            Ok(p) => Ok(UniqueCouple(p as u16)),
            Err(e) => Err(e),
        }
    }

    /// Uncouples into `[lesser, greater]`.
    pub fn get(self) -> (r: [u16; 2])
        ensures
            decodes_to(self@ as int, r@[0] as int, r@[1] as int),
    {
        let (lesser, greater) = uncouple(self.0 as u128);
        [lesser as u16, greater as u16]
    }

    /// The greater value of the pair.
    pub fn get_greater(self) -> (g: u16)
        ensures
            tri(g as int) <= self@ < tri(g + 1),
    {
        seq_inv(self.0 as u128) as u16
    }

    /// The lesser value of the pair.
    pub fn get_lesser(self) -> (l: u16)
        ensures
            exists|g: int| decodes_to(self@ as int, l as int, g),
    {
        let (l, g) = uncouple(self.0 as u128);
        assert(decodes_to(self@ as int, (l as u16) as int, g as int));
        l as u16
    }
}

impl UniqueCouple<u32> {
    /// Couples two distinct values; the order of `alfa` and `bravo` does not matter.
    /// Fails with [`CouplingError::Equal`] on equal values and with an overflow
    /// error where the packed value does not fit in a `u32`.
    pub fn new(alfa: u32, bravo: u32) -> (r: Result<Self, CouplingError>)
        ensures
            match r {
                Ok(c) => couple_outcome(alfa as int, bravo as int, u32::MAX as int) == Ok::<int, CouplingError>(c@ as int),
                Err(e) => couple_outcome(alfa as int, bravo as int, u32::MAX as int) == Err::<int, CouplingError>(e),
            },
    {
        match pack_pair(alfa as u128, bravo as u128, u32::MAX as u128) {
            Ok(p) => Ok(UniqueCouple(p as u32)),
            Err(e) => Err(e),
        }
    }

    /// Uncouples into `[lesser, greater]`.
    pub fn get(self) -> (r: [u32; 2])
        ensures
            decodes_to(self@ as int, r@[0] as int, r@[1] as int),
    {
        let (lesser, greater) = uncouple(self.0 as u128);
        [lesser as u32, greater as u32]
    }

    /// The greater value of the pair.
    pub fn get_greater(self) -> (g: u32)
        ensures
            tri(g as int) <= self@ < tri(g + 1),
    {
        seq_inv(self.0 as u128) as u32
    }

    /// The lesser value of the pair.
    pub fn get_lesser(self) -> (l: u32)
        ensures
            exists|g: int| decodes_to(self@ as int, l as int, g),
    {
        let (l, g) = uncouple(self.0 as u128);
        assert(decodes_to(self@ as int, (l as u32) as int, g as int));
        l as u32
    }
}

impl UniqueCouple<u64> {
    /// Couples two distinct values; the order of `alfa` and `bravo` does not matter.
    /// Fails with [`CouplingError::Equal`] on equal values and with an overflow
    /// error where the packed value does not fit in a `u64`.
    pub fn new(alfa: u64, bravo: u64) -> (r: Result<Self, CouplingError>)
        ensures
            match r {
                Ok(c) => couple_outcome(alfa as int, bravo as int, u64::MAX as int) == Ok::<int, CouplingError>(c@ as int),
                Err(e) => couple_outcome(alfa as int, bravo as int, u64::MAX as int) == Err::<int, CouplingError>(e),
            },
    {
        match pack_pair(alfa as u128, bravo as u128, u64::MAX as u128) {
            Ok(p) => Ok(UniqueCouple(p as u64)),
            Err(e) => Err(e),
        }
    }

    /// Uncouples into `[lesser, greater]`.
    pub fn get(self) -> (r: [u64; 2])
        ensures
            decodes_to(self@ as int, r@[0] as int, r@[1] as int),
    {
        let (lesser, greater) = uncouple(self.0 as u128);
        [lesser as u64, greater as u64]
    }

    /// The greater value of the pair.
    pub fn get_greater(self) -> (g: u64)
        ensures
            tri(g as int) <= self@ < tri(g + 1),
    {
        seq_inv(self.0 as u128) as u64
    }

    /// The lesser value of the pair.
    pub fn get_lesser(self) -> (l: u64)
        ensures
            exists|g: int| decodes_to(self@ as int, l as int, g),
    {
        let (l, g) = uncouple(self.0 as u128);
        assert(decodes_to(self@ as int, (l as u64) as int, g as int));
        l as u64
    }
}

impl UniqueCouple<u128> {
    /// Couples two distinct values; the order of `alfa` and `bravo` does not matter.
    /// Fails with [`CouplingError::Equal`] on equal values and with an overflow
    /// error where the packed value does not fit in a `u128`.
    pub fn new(alfa: u128, bravo: u128) -> (r: Result<Self, CouplingError>)
        ensures
            match r {
                Ok(c) => couple_outcome(alfa as int, bravo as int, u128::MAX as int) == Ok::<int, CouplingError>(c@ as int),
                Err(e) => couple_outcome(alfa as int, bravo as int, u128::MAX as int) == Err::<int, CouplingError>(e),
            },
    {
        match pack_pair(alfa as u128, bravo as u128, u128::MAX as u128) {
            Ok(p) => Ok(UniqueCouple(p as u128)),
            Err(e) => Err(e),
        }
    }

    /// Uncouples into `[lesser, greater]`.
    /// The decoding computes `8 * self + 1` in a `u128`, which must not overflow.
    pub fn get(self) -> (r: [u128; 2])
        requires
            8 * self@ + 1 <= u128::MAX,
        ensures
            decodes_to(self@ as int, r@[0] as int, r@[1] as int),
    {
        let (lesser, greater) = uncouple(self.0 as u128);
        [lesser as u128, greater as u128]
    }

    /// The greater value of the pair.
    pub fn get_greater(self) -> (g: u128)
        requires
            8 * self@ + 1 <= u128::MAX,
        ensures
            tri(g as int) <= self@ < tri(g + 1),
    {
        seq_inv(self.0 as u128) as u128
    }

    /// The lesser value of the pair.
    pub fn get_lesser(self) -> (l: u128)
        requires
            8 * self@ + 1 <= u128::MAX,
        ensures
            exists|g: int| decodes_to(self@ as int, l as int, g),
    {
        let (l, g) = uncouple(self.0 as u128);
        assert(decodes_to(self@ as int, (l as u128) as int, g as int));
        l as u128
    }
}

impl UniqueCouple<usize> {
    /// Couples two distinct values; the order of `alfa` and `bravo` does not matter.
    /// Fails with [`CouplingError::Equal`] on equal values and with an overflow
    /// error where the packed value does not fit in a `usize`.
    pub fn new(alfa: usize, bravo: usize) -> (r: Result<Self, CouplingError>)
        ensures
            match r {
                Ok(c) => couple_outcome(alfa as int, bravo as int, usize::MAX as int) == Ok::<int, CouplingError>(c@ as int),
                Err(e) => couple_outcome(alfa as int, bravo as int, usize::MAX as int) == Err::<int, CouplingError>(e),
            },
    {
        match pack_pair(alfa as u128, bravo as u128, usize::MAX as u128) {
            Ok(p) => Ok(UniqueCouple(p as usize)),
            Err(e) => Err(e),
        }
    }

    /// Uncouples into `[lesser, greater]`.
    pub fn get(self) -> (r: [usize; 2])
        ensures
            decodes_to(self@ as int, r@[0] as int, r@[1] as int),
    {
        let (lesser, greater) = uncouple(self.0 as u128);
        [lesser as usize, greater as usize]
    }

    /// The greater value of the pair.
    pub fn get_greater(self) -> (g: usize)
        ensures
            tri(g as int) <= self@ < tri(g + 1),
    {
        seq_inv(self.0 as u128) as usize
    }

    /// The lesser value of the pair.
    pub fn get_lesser(self) -> (l: usize)
        ensures
            exists|g: int| decodes_to(self@ as int, l as int, g),
    {
        let (l, g) = uncouple(self.0 as u128);
        assert(decodes_to(self@ as int, (l as usize) as int, g as int));
        l as usize
    }
}

/// Law: a successful coupling decodes to the lesser and the greater of the two values.
pub proof fn lemma_couple_roundtrip(alfa: int, bravo: int, max: int, packed: int)
    requires
        0 <= alfa,
        0 <= bravo,
        couple_outcome(alfa, bravo, max) == Ok::<int, CouplingError>(packed),
    ensures
        decodes_to(
            packed,
            if alfa < bravo { alfa } else { bravo },
            if alfa < bravo { bravo } else { alfa },
        ),
{
    let g = if alfa < bravo { bravo } else { alfa };
    lemma_tri_step(g);
}

/// Law: coupling does not depend on the order of the two values.
pub proof fn lemma_couple_symmetric(alfa: int, bravo: int, max: int)
    ensures
        couple_outcome(alfa, bravo, max) == couple_outcome(bravo, alfa, max),
{
}

/// Law: coupling fails with [`CouplingError::Equal`] exactly when the values are equal.
pub proof fn lemma_couple_equal(alfa: int, bravo: int, max: int)
    ensures
        (couple_outcome(alfa, bravo, max) == Err::<int, CouplingError>(CouplingError::Equal)) == (alfa == bravo),
{
}

/// Law: a packed value decodes to one pair only.
pub proof fn lemma_decode_unique(p: int, l1: int, g1: int, l2: int, g2: int)
    requires
        decodes_to(p, l1, g1),
        decodes_to(p, l2, g2),
    ensures
        l1 == l2,
        g1 == g2,
{
    if g1 < g2 {
        lemma_tri_monotonic(g1 + 1, g2);
    } else if g2 < g1 {
        lemma_tri_monotonic(g2 + 1, g1);
    }
}

/// Law: distinct pairs are packed into distinct values.
pub proof fn lemma_couple_injective(a: int, b: int, c: int, d: int, max: int, packed: int)
    requires
        0 <= a,
        0 <= b,
        0 <= c,
        0 <= d,
        couple_outcome(a, b, max) == Ok::<int, CouplingError>(packed),
        couple_outcome(c, d, max) == Ok::<int, CouplingError>(packed),
    ensures
        (a == c && b == d) || (a == d && b == c),
{
    lemma_couple_roundtrip(a, b, max, packed);
    lemma_couple_roundtrip(c, d, max, packed);
    lemma_decode_unique(
        packed,
        if a < b { a } else { b },
        if a < b { b } else { a },
        if c < d { c } else { d },
        if c < d { d } else { c },
    );
}

} // verus!
