//! Unsigned integers held in an exact number of bytes: see [`Unalign`] and [`Unpad`].
//!
//! The canonical value of an integer of `BYTES` bytes is a `u128`; it ranges over
//! `0..256^BYTES`, for `BYTES` in `1..=16`. The bytes are stored least
//! significant first, the native order of little-endian targets, on every target.

use crate::couple::{lemma_pow256_monotonic, pow256};
use vstd::prelude::*;

verus! {

/// The value of `bytes` read least significant byte first.
pub open spec fn le_value(bytes: Seq<u8>) -> int
    decreases bytes.len(),
{
    if bytes.len() == 0 {
        0
    } else {
        le_value(bytes.drop_last()) + pow256((bytes.len() - 1) as nat) * bytes.last()
    }
}

/// `n` bytes hold values below `256^n`.
pub proof fn lemma_le_value_bound(bytes: Seq<u8>)
    ensures
        0 <= le_value(bytes) < pow256(bytes.len()),
    decreases bytes.len(),
{
    if bytes.len() > 0 {
        let n = (bytes.len() - 1) as nat;
        lemma_le_value_bound(bytes.drop_last());
        lemma_pow256_monotonic(n, n);
        assert(pow256(n) * bytes.last() <= pow256(n) * 255) by (nonlinear_arith)
            requires
                0 <= bytes.last() <= 255,
                1 <= pow256(n),
        ;
        assert(pow256(n + 1) == 256 * pow256(n));
    }
}

/// Layout facts of an unsigned integer of a fixed number of bytes.
pub trait Pack {
    /// The number of bytes.
    spec fn packed_size() -> nat;

    /// The number of bytes.
    fn size() -> (r: usize)
        ensures
            r == Self::packed_size(),
    ;

    /// The largest canonical value: `256^size - 1`.
    fn canon_max() -> (r: u128)
        requires
            1 <= Self::packed_size() <= 16,
        ensures
            r == pow256(Self::packed_size()) - 1,
    ;
}

/// `256^bytes - 1`, computed without overflow.
fn max_of_bytes(bytes: usize) -> (r: u128)
    requires
        1 <= bytes <= 16,
    ensures
        r == pow256(bytes as nat) - 1,
{
    proof {
        reveal_with_fuel(pow256, 17);
    }
    assert(pow256(16) == 0x1_0000_0000_0000_0000_0000_0000_0000_0000);
    let mut max: u128 = 255;
    let mut i: usize = 1;
    while i < bytes
        invariant
            1 <= i <= bytes <= 16,
            max == pow256(i as nat) - 1,
            pow256(16) == 0x1_0000_0000_0000_0000_0000_0000_0000_0000,
        decreases bytes - i,
    {
        proof {
            lemma_pow256_monotonic((i + 1) as nat, 16);
        }
        max = max * 256 + 255;
        i = i + 1;
    }
    max
}

/// An unsigned integer constrained to the values that `BYTES` bytes can hold.
pub struct Unsigned<const BYTES: usize>(u128);

impl<const BYTES: usize> View for Unsigned<BYTES> {
    type V = u128;

    closed spec fn view(&self) -> u128 {
        self.0
    }
}

impl<const BYTES: usize> Pack for Unsigned<BYTES> {
    open spec fn packed_size() -> nat {
        BYTES as nat
    }

    fn size() -> (r: usize) {
        BYTES
    }

    fn canon_max() -> (r: u128) {
        max_of_bytes(BYTES)
    }
}

impl<const BYTES: usize> Unsigned<BYTES> {
    /// `None` where `canon` does not fit in `BYTES` bytes.
    pub fn from_canon(canon: u128) -> (r: Option<Self>)
        requires
            1 <= BYTES <= 16,
        ensures
            r is Some <==> canon < pow256(BYTES as nat),
            r matches Some(u) ==> u@ == canon,
    {
        if canon <= max_of_bytes(BYTES) {
            Some(Self(canon))
        } else {
            None
        }
    }

    /// The canonical value.
    pub fn get(self) -> (r: u128)
        ensures
            r == self@,
    {
        self.0
    }

    pub fn as_raw(&self) -> (r: &u128)
        ensures
            *r == self@,
    {
        &self.0
    }

    pub fn as_raw_mut(&mut self) -> (r: &mut u128)
        ensures
            *r == old(self)@,
            final(self)@ == *final(r),
    {
        &mut self.0
    }

    pub fn into_raw(self) -> (r: u128)
        ensures
            r == self@,
    {
        self.0
    }

    /// Same value, as an integer of `MAPPED` bytes.
    fn map_generic<const MAPPED: usize>(self) -> (r: Unsigned<MAPPED>)
        requires
            BYTES == MAPPED,
        ensures
            r@ == self@,
    {
        Unsigned(self.0)
    }

    fn map_generic_option<const MAPPED: usize>(option: Option<Self>) -> (r: Option<Unsigned<MAPPED>>)
        requires
            BYTES == MAPPED,
        ensures
            r is Some <==> option is Some,
            r matches Some(v) ==> v@ == option->Some_0@,
    {
        match option {
            None => None,
            Some(value) => Some(value.map_generic()),
        }
    }
}

/// The little-endian bytes of `canon`, when it fits in `N` bytes.
fn encode_bytes<const N: usize>(canon: u128) -> (r: Option<[u8; N]>)
    requires
        1 <= N <= 16,
    ensures
        r is Some <==> canon < pow256(N as nat),
        r matches Some(bytes) ==> le_value(bytes@) == canon,
{
    let mut bytes: [u8; N] = [0u8; N];
    let mut rest = canon;
    let mut i: usize = 0;
    while i < N
        invariant
            0 <= i <= N <= 16,
            bytes@.len() == N,
            canon == le_value(bytes@.take(i as int)) + pow256(i as nat) * rest,
        decreases N - i,
    {
        let byte = (rest % 256) as u8;
        proof {
            let prefix = bytes@.take(i as int).push(byte);
            assert(prefix.drop_last() =~= bytes@.take(i as int));
            assert(pow256((i + 1) as nat) == 256 * pow256(i as nat));
            assert(rest == 256 * (rest / 256) + byte);
            assert(pow256(i as nat) * rest == pow256(i as nat) * byte + pow256((i + 1) as nat) * (
            rest / 256)) by (nonlinear_arith)
                requires
                    rest == 256 * (rest / 256) + byte,
                    pow256((i + 1) as nat) == 256 * pow256(i as nat),
            ;
        }
        let ghost before = bytes@;
        bytes[i] = byte;
        rest = rest / 256;
        proof {
            assert(bytes@.take(i as int) =~= before.take(i as int));
            assert(bytes@.take((i + 1) as int).drop_last() =~= bytes@.take(i as int));
            assert(bytes@.take((i + 1) as int).last() == byte);
            assert(le_value(bytes@.take((i + 1) as int)) == le_value(bytes@.take(i as int)) + pow256(
                i as nat,
            ) * byte);
        }
        i = i + 1;
    }
    proof {
        assert(bytes@.take(N as int) =~= bytes@);
        lemma_le_value_bound(bytes@);
        lemma_pow256_monotonic(N as nat, N as nat);
        if rest > 0 {
            assert(pow256(N as nat) * rest >= pow256(N as nat)) by (nonlinear_arith)
                requires
                    rest >= 1,
                    pow256(N as nat) >= 1,
            ;
        }
    }
    if rest == 0 {
        Some(bytes)
    } else {
        None
    }
}

/// The value of little-endian `bytes`.
fn decode_bytes<const N: usize>(bytes: &[u8; N]) -> (r: u128)
    requires
        1 <= N <= 16,
    ensures
        r == le_value(bytes@),
{
    proof {
        reveal_with_fuel(pow256, 17);
    }
    assert(pow256(16) == 0x1_0000_0000_0000_0000_0000_0000_0000_0000);
    let mut acc: u128 = 0;
    let mut power: u128 = 1;
    let mut i: usize = 0;
    while i < N
        invariant
            0 <= i <= N <= 16,
            bytes@.len() == N,
            acc == le_value(bytes@.take(i as int)),
            i < N ==> power == pow256(i as nat),
            pow256(16) == 0x1_0000_0000_0000_0000_0000_0000_0000_0000,
        decreases N - i,
    {
        proof {
            assert(bytes@.take((i + 1) as int).drop_last() =~= bytes@.take(i as int));
            assert(le_value(bytes@.take((i + 1) as int)) == le_value(bytes@.take(i as int)) + pow256(
                i as nat,
            ) * bytes[i as int]);
            lemma_le_value_bound(bytes@.take((i + 1) as int));
            lemma_pow256_monotonic((i + 1) as nat, 16);
            lemma_pow256_monotonic(i as nat, i as nat);
            assert(pow256(i as nat) * bytes[i as int] <= pow256(i as nat) * 255) by (nonlinear_arith)
                requires
                    0 <= bytes[i as int] <= 255,
                    1 <= pow256(i as nat),
            ;
        }
        assert((bytes[i as int] as int) * power == pow256(i as nat) * bytes[i as int]) by (nonlinear_arith)
            requires
                power == pow256(i as nat),
        ;
        assert(acc + (bytes[i as int] as int) * power < 0x1_0000_0000_0000_0000_0000_0000_0000_0000);
        acc = acc + (bytes[i] as u128) * power;
        if i + 1 < N {
            proof {
                lemma_pow256_monotonic((i + 1) as nat, 15);
                assert(pow256(16) == 256 * pow256(15));
                assert(pow256((i + 1) as nat) == 256 * pow256(i as nat));
            }
            power = power * 256;
        }
        i = i + 1;
    }
    assert(bytes@.take(N as int) =~= bytes@);
    acc
}

/// A completely unaligned unsigned integer of exactly `BYTES` bytes,
/// least significant byte first.
pub struct Unalign<const BYTES: usize>([u8; BYTES]);

impl<const BYTES: usize> View for Unalign<BYTES> {
    type V = Seq<u8>;

    closed spec fn view(&self) -> Seq<u8> {
        self.0@
    }
}

impl<const BYTES: usize> Clone for Unalign<BYTES> {
    fn clone(&self) -> (r: Self)
        ensures
            r@ == self@,
    {
        Self(self.0)
    }
}

impl<const BYTES: usize> Unalign<BYTES> {
    /// The value of `n`, held in `BYTES` bytes.
    pub fn new(n: Unsigned<BYTES>) -> (r: Option<Self>)
        requires
            1 <= BYTES <= 16,
        ensures
            r is Some <==> n@ < pow256(BYTES as nat),
            r matches Some(u) ==> le_value(u@) == n@,
    {
        Self::from_canon(n.0)
    }

    /// `None` where `canon` does not fit in `BYTES` bytes.
    pub fn from_canon(canon: u128) -> (r: Option<Self>)
        requires
            1 <= BYTES <= 16,
        ensures
            r is Some <==> canon < pow256(BYTES as nat),
            r matches Some(u) ==> le_value(u@) == canon,
    {
        match encode_bytes::<BYTES>(canon) {
            Some(bytes) => Some(Self(bytes)),
            None => None,
        }
    }

    /// The integer held in `bytes`, least significant byte first (the native order of
    /// little-endian targets).
    pub fn from_bytes_ne(bytes: [u8; BYTES]) -> (r: Self)
        ensures
            r@ == bytes@,
    {
        Self(bytes)
    }

    /// The canonical value.
    pub fn get(self) -> (r: u128)
        requires
            1 <= BYTES <= 16,
        ensures
            r == le_value(self@),
    {
        decode_bytes(&self.0)
    }

    pub fn as_raw(&self) -> (r: &[u8; BYTES])
        ensures
            r@ == self@,
    {
        &self.0
    }

    pub fn as_raw_mut(&mut self) -> (r: &mut [u8; BYTES])
        ensures
            r@ == old(self)@,
            final(self)@ == final(r)@,
    {
        &mut self.0
    }

    pub fn into_raw(self) -> (r: [u8; BYTES])
        ensures
            r@ == self@,
    {
        self.0
    }

    /// Same bytes, as an integer of `MAPPED` bytes.
    fn map_generic<const MAPPED: usize>(self) -> (r: Unalign<MAPPED>)
        requires
            BYTES == MAPPED,
        ensures
            r@ == self@,
    {
        let mut bytes: [u8; MAPPED] = [0u8; MAPPED];
        let mut i: usize = 0;
        while i < MAPPED
            invariant
                BYTES == MAPPED,
                0 <= i <= MAPPED,
                bytes@.len() == MAPPED,
                self.0@.len() == BYTES,
                forall|j: int| 0 <= j < i ==> bytes@[j] == self.0@[j],
            decreases MAPPED - i,
        {
            bytes[i] = self.0[i];
            i = i + 1;
        }
        assert(bytes@ =~= self.0@);
        Unalign(bytes)
    }

    fn map_generic_option<const MAPPED: usize>(option: Option<Self>) -> (r: Option<Unalign<MAPPED>>)
        requires
            BYTES == MAPPED,
        ensures
            r is Some <==> option is Some,
            r matches Some(v) ==> v@ == option->Some_0@,
    {
        match option {
            None => None,
            Some(value) => Some(value.map_generic()),
        }
    }
}

/// An unsigned integer of exactly `BYTES` bytes, least significant byte first,
/// stored without padding.
pub struct Unpad<const BYTES: usize>([u8; BYTES]);

impl<const BYTES: usize> View for Unpad<BYTES> {
    type V = Seq<u8>;

    closed spec fn view(&self) -> Seq<u8> {
        self.0@
    }
}

impl<const BYTES: usize> Clone for Unpad<BYTES> {
    fn clone(&self) -> (r: Self)
        ensures
            r@ == self@,
    {
        Self(self.0)
    }
}

impl<const BYTES: usize> Unpad<BYTES> {
    /// The value of `n`, held in `BYTES` bytes.
    pub fn new(n: Unsigned<BYTES>) -> (r: Option<Self>)
        requires
            1 <= BYTES <= 16,
        ensures
            r is Some <==> n@ < pow256(BYTES as nat),
            r matches Some(u) ==> le_value(u@) == n@,
    {
        Self::from_canon(n.0)
    }

    /// `None` where `canon` does not fit in `BYTES` bytes.
    pub fn from_canon(canon: u128) -> (r: Option<Self>)
        requires
            1 <= BYTES <= 16,
        ensures
            r is Some <==> canon < pow256(BYTES as nat),
            r matches Some(u) ==> le_value(u@) == canon,
    {
        match encode_bytes::<BYTES>(canon) {
            Some(bytes) => Some(Self(bytes)),
            None => None,
        }
    }

    /// The integer held in `bytes`, least significant byte first (the native order of
    /// little-endian targets).
    pub fn from_bytes_ne(bytes: [u8; BYTES]) -> (r: Self)
        ensures
            r@ == bytes@,
    {
        Self(bytes)
    }

    /// The canonical value.
    pub fn get(self) -> (r: u128)
        requires
            1 <= BYTES <= 16,
        ensures
            r == le_value(self@),
    {
        decode_bytes(&self.0)
    }

    pub fn as_raw(&self) -> (r: &[u8; BYTES])
        ensures
            r@ == self@,
    {
        &self.0
    }

    pub fn as_raw_mut(&mut self) -> (r: &mut [u8; BYTES])
        ensures
            r@ == old(self)@,
            final(self)@ == final(r)@,
    {
        &mut self.0
    }

    pub fn into_raw(self) -> (r: [u8; BYTES])
        ensures
            r@ == self@,
    {
        self.0
    }

    /// Same bytes, as an integer of `MAPPED` bytes.
    fn map_generic<const MAPPED: usize>(self) -> (r: Unpad<MAPPED>)
        requires
            BYTES == MAPPED,
        ensures
            r@ == self@,
    {
        let mut bytes: [u8; MAPPED] = [0u8; MAPPED];
        let mut i: usize = 0;
        while i < MAPPED
            invariant
                BYTES == MAPPED,
                0 <= i <= MAPPED,
                bytes@.len() == MAPPED,
                self.0@.len() == BYTES,
                forall|j: int| 0 <= j < i ==> bytes@[j] == self.0@[j],
            decreases MAPPED - i,
        {
            bytes[i] = self.0[i];
            i = i + 1;
        }
        assert(bytes@ =~= self.0@);
        Unpad(bytes)
    }

    fn map_generic_option<const MAPPED: usize>(option: Option<Self>) -> (r: Option<Unpad<MAPPED>>)
        requires
            BYTES == MAPPED,
        ensures
            r is Some <==> option is Some,
            r matches Some(v) ==> v@ == option->Some_0@,
    {
        match option {
            None => None,
            Some(value) => Some(value.map_generic()),
        }
    }
}

/// Law: reading back an integer stored in `BYTES` bytes gives the stored value,
/// and every byte pattern is the storage of exactly one value.
pub proof fn lemma_pack_roundtrip(bytes: Seq<u8>, other: Seq<u8>)
    requires
        bytes.len() == other.len(),
        le_value(bytes) == le_value(other),
    ensures
        bytes == other,
    decreases bytes.len(),
{
    if bytes.len() > 0 {
        let n = (bytes.len() - 1) as nat;
        lemma_le_value_bound(bytes.drop_last());
        lemma_le_value_bound(other.drop_last());
        let (a, b) = (le_value(bytes.drop_last()), le_value(other.drop_last()));
        let (x, y) = (bytes.last() as int, other.last() as int);
        let p = pow256(n);
        assert(x == y && a == b) by (nonlinear_arith)
            requires
                a + p * x == b + p * y,
                0 <= a < p,
                0 <= b < p,
                0 <= x,
                0 <= y,
        ;
        lemma_pack_roundtrip(bytes.drop_last(), other.drop_last());
        assert(bytes =~= bytes.drop_last().push(bytes.last()));
        assert(other =~= other.drop_last().push(other.last()));
    }
}

} // verus!
