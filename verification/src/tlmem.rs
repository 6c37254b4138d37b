//! Top-level memory layouts packed into one integer: see [`TlmLayout`].
//!
//! Every pair of a size `s >= 1` and an alignment `a` that is a power of two dividing `s`
//! gets its own integer. The pairs are ordered by size, then by alignment: size `s` owns
//! `1 + trailing_zeros(s)` consecutive integers, one for each alignment `1, 2, ..., 2^tz(s)`.

use vstd::arithmetic::div_mod::{lemma_mod_breakdown, lemma_mod_multiples_basic, lemma_mod_mod};
use vstd::arithmetic::power2::{lemma_pow2_adds, lemma_pow2_pos, lemma_pow2_unfold, pow2};
use core::alloc::Layout;
use vstd::prelude::*;

verus! {

/// The number of one bits of `n`.
pub open spec fn popcount(n: nat) -> nat
    decreases n,
{
    if n == 0 {
        0
    } else {
        n % 2 + popcount(n / 2)
    }
}

/// The number of trailing zero bits of `n`, taken as 0 for 0.
pub open spec fn trailing_zeros(n: nat) -> nat
    decreases n,
{
    if n == 0 || n % 2 == 1 {
        0
    } else {
        1 + trailing_zeros(n / 2)
    }
}

/// The number of encoded integers owned by the sizes `1..=major`.
pub open spec fn entries_through(major: nat) -> int {
    2 * major - popcount(major)
}

/// The integer that encodes size `size` with alignment `align`.
pub open spec fn encoding(size: nat, align: nat) -> int {
    entries_through((size - 1) as nat) + trailing_zeros(align)
}

/// `encoded` is the integer of size `size` with alignment `align`.
pub open spec fn decodes_to(encoded: nat, size: nat, align: nat) -> bool {
    &&& size >= 1
    &&& entries_through((size - 1) as nat) <= encoded < entries_through(size)
    &&& align == pow2((encoded - entries_through((size - 1) as nat)) as nat)
}

proof fn lemma_popcount_le(n: nat)
    ensures
        popcount(n) <= n,
        n >= 2 ==> popcount(n) < n,
        popcount(n) == 0 <==> n == 0,
    decreases n,
{
    if n > 0 {
        lemma_popcount_le(n / 2);
    }
}

proof fn lemma_popcount_step(m: nat)
    ensures
        popcount(m + 1) + trailing_zeros(m + 1) == popcount(m) + 1,
    decreases m,
{
    if m % 2 == 1 {
        let k = ((m + 1) / 2) as nat;
        assert(k >= 1);
        assert(m / 2 == k - 1);
        lemma_popcount_step((k - 1) as nat);
        assert(((k - 1) + 1) as nat == k);
    }
}

/// Size `major + 1` owns `1 + trailing_zeros(major + 1)` integers.
proof fn lemma_entries_step(m: nat)
    ensures
        entries_through(m + 1) == entries_through(m) + 1 + trailing_zeros(m + 1),
{
    lemma_popcount_step(m);
}

/// `entries_through` grows by at least one per size.
proof fn lemma_entries_monotone(a: nat, b: nat)
    requires
        a <= b,
    ensures
        entries_through(a) + (b - a) <= entries_through(b),
    decreases b - a,
{
    if a < b {
        lemma_entries_monotone(a, (b - 1) as nat);
        lemma_entries_step((b - 1) as nat);
    }
}

/// `m` is an odd multiple of `2^trailing_zeros(m)`.
proof fn lemma_tz_factor(m: nat) -> (k: nat)
    requires
        m > 0,
    ensures
        m == k * pow2(trailing_zeros(m)),
        k % 2 == 1,
    decreases m,
{
    if m % 2 == 1 {
        assert(pow2(0) == 1) by {
            vstd::arithmetic::power2::lemma2_to64();
        }
        assert(trailing_zeros(m) == 0);
        assert(m == m * pow2(0));
        m
    } else {
        let h = (m / 2) as nat;
        let k = lemma_tz_factor(h);
        let t = trailing_zeros(h);
        assert(trailing_zeros(m) == t + 1);
        lemma_pow2_unfold(t + 1);
        assert(m == k * pow2(t + 1)) by (nonlinear_arith)
            requires
                m == 2 * h,
                h == k * pow2(t),
                pow2(t + 1) == 2 * pow2(t),
        ;
        k
    }
}

/// `2^trailing_zeros(m)` is at most `m`.
proof fn lemma_pow2_tz_le(m: nat)
    requires
        m > 0,
    ensures
        pow2(trailing_zeros(m)) <= m,
{
    let k = lemma_tz_factor(m);
    let p = pow2(trailing_zeros(m));
    lemma_pow2_pos(trailing_zeros(m));
    assert(p <= m) by (nonlinear_arith)
        requires
            m == k * p,
            k % 2 == 1,
            p > 0,
    ;
}

/// `2^x` divides `m` for every `x` up to `trailing_zeros(m)`.
proof fn lemma_pow2_divides(m: nat, x: nat)
    requires
        m > 0,
        x <= trailing_zeros(m),
    ensures
        m % pow2(x) == 0,
{
    let t = trailing_zeros(m);
    let k = lemma_tz_factor(m);
    let d = (t - x) as nat;
    lemma_pow2_adds(d, x);
    assert(d + x == t);
    lemma_pow2_pos(x);
    lemma_pow2_pos(d);
    assert(m == (k * pow2(d)) * pow2(x)) by (nonlinear_arith)
        requires
            m == k * pow2(t),
            pow2(t) == pow2(d) * pow2(x),
    ;
    lemma_mod_multiples_basic((k * pow2(d)) as int, pow2(x) as int);
}

/// Where `2^k` divides `s`, `k` is at most `trailing_zeros(s)`.
proof fn lemma_divides_tz(s: nat, k: nat)
    requires
        s > 0,
        s % pow2(k) == 0,
    ensures
        k <= trailing_zeros(s),
    decreases k,
{
    if k > 0 {
        let q = pow2((k - 1) as nat);
        lemma_pow2_unfold(k);
        lemma_pow2_pos((k - 1) as nat);
        lemma_mod_mod(s as int, 2, q as int);
        lemma_mod_breakdown(s as int, 2, q as int);
        assert(s % 2 == 0);
        assert((s / 2) % q == 0);
        lemma_divides_tz((s / 2) as nat, (k - 1) as nat);
    }
}

/// A power of two has one bit set, and `x` trailing zeros.
proof fn lemma_pow2_bits(x: nat)
    ensures
        popcount(pow2(x)) == 1,
        trailing_zeros(pow2(x)) == x,
    decreases x,
{
    if x == 0 {
        vstd::arithmetic::power2::lemma2_to64();
        assert(popcount(1) == 1 + popcount(0));
    } else {
        lemma_pow2_unfold(x);
        lemma_pow2_pos(x);
        lemma_pow2_pos((x - 1) as nat);
        lemma_pow2_bits((x - 1) as nat);
        assert(pow2(x) / 2 == pow2((x - 1) as nat));
        assert(pow2(x) % 2 == 0);
    }
}

/// A number with one bit set is the power of two given by its trailing zeros.
proof fn lemma_one_bit(a: nat)
    requires
        popcount(a) == 1,
    ensures
        a == pow2(trailing_zeros(a)),
    decreases a,
{
    lemma_popcount_le(a / 2);
    if a % 2 == 1 {
        assert(a / 2 == 0);
        vstd::arithmetic::power2::lemma2_to64();
    } else {
        lemma_one_bit((a / 2) as nat);
        lemma_pow2_unfold(trailing_zeros(a));
    }
}

/// At most one pair decodes from an integer.
pub proof fn lemma_decode_unique(encoded: nat, s1: nat, a1: nat, s2: nat, a2: nat)
    requires
        decodes_to(encoded, s1, a1),
        decodes_to(encoded, s2, a2),
    ensures
        s1 == s2,
        a1 == a2,
{
    if s1 < s2 {
        lemma_entries_monotone(s1, (s2 - 1) as nat);
    } else if s2 < s1 {
        lemma_entries_monotone(s2, (s1 - 1) as nat);
    }
}

/// Decoding the integer of a size and an alignment that divides it gives them back.
pub proof fn lemma_decode_encode(size: nat, align: nat)
    requires
        size >= 1,
        popcount(align) == 1,
        size % align == 0,
    ensures
        align <= size,
        decodes_to(encoding(size, align) as nat, size, align),
{
    lemma_one_bit(align);
    let k = trailing_zeros(align);
    lemma_divides_tz(size, k);
    lemma_pow2_tz_le(size);
    if k < trailing_zeros(size) {
        vstd::arithmetic::power2::lemma_pow2_strictly_increases(k, trailing_zeros(size));
    }
    lemma_entries_step((size - 1) as nat);
    lemma_popcount_le((size - 1) as nat);
}

/// Encoding what an integer decodes to gives the integer back; the pair is a valid one.
pub proof fn lemma_encode_decode(encoded: nat, size: nat, align: nat)
    requires
        decodes_to(encoded, size, align),
    ensures
        popcount(align) == 1,
        size % align == 0,
        align <= size,
        encoding(size, align) == encoded,
{
    let x = (encoded - entries_through((size - 1) as nat)) as nat;
    lemma_entries_step((size - 1) as nat);
    lemma_pow2_bits(x);
    lemma_pow2_divides(size, x);
    lemma_pow2_tz_le(size);
    if x < trailing_zeros(size) {
        vstd::arithmetic::power2::lemma_pow2_strictly_increases(x, trailing_zeros(size));
    }
}

} // verus!

verus! {

/// Why a layout, a size or an alignment was refused.
#[derive(Debug, Clone, Copy, PartialEq, Eq, Structural)]
pub enum TlmError {
    /// Alignment must be a power of two (and no larger than the size).
    OddAlign,
    /// Alignment can not be larger than size.
    ExcessiveAlign,
    /// Alignment cannot be zero.
    ZeroAlign,
    /// Size cannot be zero.
    ZeroSize,
    /// The encoded layout would not fit in a `usize`.
    EncodeOverflow,
}

/// The number of one bits of `n`.
fn count_ones(n: usize) -> (r: usize)
    ensures
        r == popcount(n as nat),
{
    let mut rest = n;
    let mut count: usize = 0;
    proof {
        lemma_popcount_le(n as nat);
    }
    while rest > 0
        invariant
            count + popcount(rest as nat) == popcount(n as nat),
            popcount(n as nat) <= n,
        decreases rest,
    {
        proof {
            lemma_popcount_le(rest as nat);
        }
        count = count + rest % 2;
        rest = rest / 2;
    }
    count
}

/// The number of trailing zero bits of `n`.
fn trailing_zeros_of(n: usize) -> (r: usize)
    requires
        n > 0,
    ensures
        r == trailing_zeros(n as nat),
        pow2(r as nat) <= n,
{
    proof {
        lemma_pow2_tz_le(n as nat);
    }
    let mut rest = n;
    let mut count: usize = 0;
    while rest % 2 == 0
        invariant
            rest > 0,
            count + trailing_zeros(rest as nat) == trailing_zeros(n as nat),
            pow2(trailing_zeros(n as nat)) <= n,
        decreases rest,
    {
        proof {
            if count >= n {
                vstd::arithmetic::power2::lemma_pow2_strictly_increases(
                    n as nat,
                    trailing_zeros(n as nat),
                );
                lemma_pow2_exceeds(n as nat);
            }
        }
        count = count + 1;
        rest = rest / 2;
    }
    count
}

proof fn lemma_pow2_exceeds(n: nat)
    ensures
        n < pow2(n),
    decreases n,
{
    if n == 0 {
        vstd::arithmetic::power2::lemma2_to64();
    } else {
        lemma_pow2_exceeds((n - 1) as nat);
        lemma_pow2_unfold(n);
        lemma_pow2_pos((n - 1) as nat);
    }
}

/// `2^e`.
fn pow2_of(e: usize) -> (r: usize)
    requires
        pow2(e as nat) <= usize::MAX,
    ensures
        r == pow2(e as nat),
{
    let mut r: usize = 1;
    let mut i: usize = 0;
    proof {
        vstd::arithmetic::power2::lemma2_to64();
    }
    while i < e
        invariant
            i <= e,
            r == pow2(i as nat),
            pow2(e as nat) <= usize::MAX,
        decreases e - i,
    {
        proof {
            lemma_pow2_unfold((i + 1) as nat);
            if i + 1 < e {
                vstd::arithmetic::power2::lemma_pow2_strictly_increases((i + 1) as nat, e as nat);
            }
        }
        r = r * 2;
        i = i + 1;
    }
    r
}

/// The number of encoded integers owned by the sizes `1..=major`, where it fits.
fn entries_through_exec(major: usize) -> (r: Option<usize>)
    ensures
        r is Some <==> entries_through(major as nat) <= usize::MAX,
        r matches Some(v) ==> v == entries_through(major as nat),
{
    let ones = count_ones(major);
    proof {
        lemma_popcount_le(major as nat);
    }
    major.checked_add(major - ones)
}

/// The size and alignment that `encoded` stands for.
fn decode(encoded: usize) -> (r: (usize, usize))
    ensures
        decodes_to(encoded as nat, r.0 as nat, r.1 as nat),
{
    let mut low: usize = 0;
    let mut high: usize = encoded;
    proof {
        lemma_entries_monotone(0, (encoded + 1) as nat);
    }
    while low < high
        invariant
            low <= high <= encoded,
            entries_through(low as nat) <= encoded,
            entries_through((high + 1) as nat) > encoded,
        decreases high - low,
    {
        let distance = high - low;
        let middle = low + distance / 2 + distance % 2;
        match entries_through_exec(middle) {
            Some(end) if end <= encoded => {
                low = middle;
            },
            _ => {
                assert((middle - 1 + 1) as nat == middle);
                high = middle - 1;
            },
        }
    }
    let completed = low;
    proof {
        lemma_entries_step(completed as nat);
        lemma_popcount_le(completed as nat);
        if completed >= 2 {
            assert(entries_through(completed as nat) > completed);
        }
    }
    let start = match entries_through_exec(completed) {
        Some(start) => start,
        None => 0,
    };
    let exponent = encoded - start;
    let major = completed + 1;
    proof {
        lemma_pow2_tz_le(major as nat);
        if exponent < trailing_zeros(major as nat) {
            vstd::arithmetic::power2::lemma_pow2_strictly_increases(
                exponent as nat,
                trailing_zeros(major as nat),
            );
        }
    }
    (major, pow2_of(exponent))
}

/// The integer of size `size` with alignment `align`, or `EncodeOverflow` where it does not
/// fit in a `usize`.
fn encode_unchecked(size: usize, align: usize) -> (r: Result<usize, TlmError>)
    requires
        popcount(align as nat) == 1,
        size != 0,
        align <= size,
    ensures
        r is Ok <==> encoding(size as nat, align as nat) <= usize::MAX,
        r matches Ok(v) ==> v == encoding(size as nat, align as nat),
        r matches Err(e) ==> e == TlmError::EncodeOverflow,
{
    let start = match entries_through_exec(size - 1) {
        Some(start) => start,
        None => {
            return Err(TlmError::EncodeOverflow);
        },
    };
    proof {
        lemma_popcount_le(align as nat);
    }
    match start.checked_add(trailing_zeros_of(align)) {
        Some(encoded) => Ok(encoded),
        None => Err(TlmError::EncodeOverflow),
    }
}

} // verus!

verus! {

/// The outcome of [`TlmLayout::try_from_size_align`]: the integer of the pair, or why the pair
/// was refused.
pub open spec fn size_align_outcome(size: nat, align: nat) -> Result<nat, TlmError> {
    if popcount(align) != 1 {
        Err(TlmError::OddAlign)
    } else if size == 0 {
        Err(TlmError::ZeroSize)
    } else if align > size {
        Err(TlmError::OddAlign)
    } else if encoding(size, align) > usize::MAX {
        Err(TlmError::EncodeOverflow)
    } else {
        Ok(encoding(size, align) as nat)
    }
}

#[verifier::external_type_specification]
#[verifier::external_body]
pub struct ExLayout(Layout);

/// Calls `Layout::size`, the size of the layout in bytes.
#[verifier::external_body]
fn layout_size(layout: &Layout) -> (r: usize) {
    layout.size()
}

/// Calls `Layout::align`, the alignment of the layout, which `Layout` keeps a power of two.
#[verifier::external_body]
fn layout_align(layout: &Layout) -> (r: usize)
    ensures
        popcount(r as nat) == 1,
{
    layout.align()
}

/// `r` is what [`TlmLayout::try_from_size_align`] gives for `size` and `align`.
pub open spec fn size_align_result(size: nat, align: nat, r: Result<TlmLayout, TlmError>) -> bool {
    match size_align_outcome(size, align) {
        Ok(encoded) => r matches Ok(layout) && layout.encoded() == encoded,
        Err(e) => r == Err::<TlmLayout, TlmError>(e),
    }
}

/// Byte alignment in a top-level memory layout; always a power of two.
#[derive(Debug, Clone, Copy, PartialEq, Eq, Hash, PartialOrd, Ord)]
pub struct TlmAlign(usize);

impl TlmAlign {
    #[verifier::type_invariant]
    spec fn power_of_two(self) -> bool {
        popcount(self.0 as nat) == 1
    }

    /// The alignment in bytes.
    pub closed spec fn value(self) -> nat {
        self.0 as nat
    }

    /// The alignment `align`; refused where it is not a power of two.
    pub fn new(align: usize) -> (r: Result<Self, TlmError>)
        ensures
            r is Ok <==> popcount(align as nat) == 1,
            r matches Ok(a) ==> a.value() == align,
            r matches Err(e) ==> e == TlmError::OddAlign,
    {
        if count_ones(align) != 1 {
            return Err(TlmError::OddAlign);
        }
        Ok(TlmAlign(align))
    }

    /// The alignment `align`, which must be a power of two.
    pub fn new_unchecked(align: usize) -> (r: Self)
        requires
            popcount(align as nat) == 1,
        ensures
            r.value() == align,
    {
        TlmAlign(align)
    }

    /// The alignment in bytes.
    pub fn into_raw(self) -> (r: usize)
        ensures
            r == self.value(),
            popcount(r as nat) == 1,
            r > 0,
    {
        proof {
            use_type_invariant(&self);
            lemma_popcount_le(self.0 as nat);
        }
        self.0
    }

    /// The next smaller alignment, or `None` for an alignment of one byte.
    pub fn lower(&self) -> (r: Option<Self>)
        ensures
            r is None <==> self.value() == 1,
            r matches Some(a) ==> a.value() * 2 == self.value(),
    {
        proof {
            use_type_invariant(self);
            lemma_one_bit(self.0 as nat);
            lemma_popcount_le(self.0 as nat);
        }
        if self.0 == 1 {
            return None;
        }
        proof {
            let t = trailing_zeros(self.0 as nat);
            if t == 0 {
                vstd::arithmetic::power2::lemma2_to64();
            }
            lemma_pow2_unfold(t);
            lemma_pow2_bits((t - 1) as nat);
        }
        Some(TlmAlign(self.0 / 2))
    }
}

/// Size in a top-level memory layout; never zero.
#[derive(Debug, Clone, Copy, PartialEq, Eq, Hash, PartialOrd, Ord)]
pub struct TlmSize(usize);

impl TlmSize {
    #[verifier::type_invariant]
    spec fn nonzero(self) -> bool {
        self.0 > 0
    }

    /// The size in bytes.
    pub closed spec fn value(self) -> nat {
        self.0 as nat
    }

    /// The size `size`; refused where it is zero.
    pub fn new(size: usize) -> (r: Result<Self, TlmError>)
        ensures
            r is Ok <==> size > 0,
            r matches Ok(s) ==> s.value() == size,
            r matches Err(e) ==> e == TlmError::ZeroSize,
    {
        if size == 0 {
            return Err(TlmError::ZeroSize);
        }
        Ok(TlmSize(size))
    }

    /// The size `size`, which must not be zero.
    pub fn new_unchecked(size: usize) -> (r: Self)
        requires
            size > 0,
        ensures
            r.value() == size,
    {
        TlmSize(size)
    }

    /// The size in bytes.
    pub fn into_raw(self) -> (r: usize)
        ensures
            r == self.value(),
            r > 0,
    {
        proof {
            use_type_invariant(&self);
        }
        self.0
    }

    /// The largest alignment that divides the size: `2^trailing_zeros(size)`.
    pub fn max_align(&self) -> (r: TlmAlign)
        ensures
            r.value() == pow2(trailing_zeros(self.value())),
    {
        proof {
            use_type_invariant(self);
            lemma_pow2_tz_le(self.0 as nat);
            lemma_pow2_bits(trailing_zeros(self.0 as nat));
        }
        let t = trailing_zeros_of(self.0);
        TlmAlign(pow2_of(t))
    }
}

/// Top-level memory layout: a size and an alignment packed into one integer.
///
/// The alignment is never larger than the size, as padding is part of the layout's size.
#[derive(Debug, Clone, Copy, PartialEq, Eq, Hash, PartialOrd, Ord)]
pub struct TlmLayout(usize);

impl TlmLayout {
    /// The encoded integer.
    pub closed spec fn encoded(self) -> nat {
        self.0 as nat
    }

    /// The layout of `size` and `align`, which must be no larger than `size` and whose
    /// encoding must fit in a `usize`.
    pub fn new(size: TlmSize, align: TlmAlign) -> (r: Self)
        requires
            align.value() <= size.value(),
            encoding(size.value(), align.value()) <= usize::MAX,
        ensures
            r.encoded() == encoding(size.value(), align.value()),
    {
        let s = size.into_raw();
        let a = align.into_raw();
        match encode_unchecked(s, a) {
            Ok(encoded) => TlmLayout(encoded),
            Err(_) => TlmLayout(0),
        }
    }

    /// The layout of `layout`, whose alignment is a power of two; refused where its size is
    /// zero, where its alignment is larger than its size, or where the encoding does not fit.
    pub fn try_from_layout(layout: Layout) -> (r: Result<Self, TlmError>)
        ensures
            exists|size: nat, align: nat|
                #![trigger size_align_result(size, align, r)]
                popcount(align) == 1 && size_align_result(size, align, r),
    {
        let align = layout_align(&layout);
        let size = layout_size(&layout);
        let r = Self::try_from_size_align(size, align);
        assert(size_align_result(size as nat, align as nat, r));
        r
    }

    /// The layout of `size` and `align`; refused where `align` is not a power of two or is
    /// larger than `size`, where `size` is zero, or where the encoding does not fit.
    pub fn try_from_size_align(size: usize, align: usize) -> (r: Result<Self, TlmError>)
        ensures
            match size_align_outcome(size as nat, align as nat) {
                Ok(encoded) => r matches Ok(layout) && layout.encoded() == encoded,
                Err(e) => r == Err::<Self, TlmError>(e),
            },
    {
        if count_ones(align) != 1 {
            return Err(TlmError::OddAlign);
        }
        if size == 0 {
            return Err(TlmError::ZeroSize);
        }
        if align > size {
            return Err(TlmError::OddAlign);
        }
        match encode_unchecked(size, align) {
            Ok(packed) => Ok(TlmLayout(packed)),
            Err(error) => Err(error),
        }
    }

    /// The layout of the type `T`, whose size and alignment must form a valid layout.
    pub fn of<T: Sized>() -> (r: Self)
        requires
            size_align_outcome(vstd::layout::size_of::<T>(), vstd::layout::align_of::<T>()) is Ok,
        ensures
            size_align_outcome(vstd::layout::size_of::<T>(), vstd::layout::align_of::<T>())
                == Ok::<nat, TlmError>(r.encoded()),
    {
        match Self::try_from_size_align(core::mem::size_of::<T>(), core::mem::align_of::<T>()) {
            Ok(layout) => layout,
            Err(_) => TlmLayout(0),
        }
    }

    /// The encoded integer.
    pub fn into_raw(self) -> (r: usize)
        ensures
            r == self.encoded(),
    {
        self.0
    }

    /// The size and alignment that the layout stands for.
    pub fn size_align(&self) -> (r: (TlmSize, TlmAlign))
        ensures
            decodes_to(self.encoded(), r.0.value(), r.1.value()),
    {
        let (size, align) = decode(self.0);
        proof {
            lemma_encode_decode(self.0 as nat, size as nat, align as nat);
        }
        (TlmSize::new_unchecked(size), TlmAlign::new_unchecked(align))
    }

    /// The alignment that the layout stands for.
    pub fn align(&self) -> (r: TlmAlign)
        ensures
            exists|size: nat| decodes_to(self.encoded(), size, r.value()),
    {
        self.size_align().1
    }

    /// The size that the layout stands for.
    pub fn size(&self) -> (r: TlmSize)
        ensures
            exists|align: nat| decodes_to(self.encoded(), r.value(), align),
    {
        self.size_align().0
    }
}

} // verus!
