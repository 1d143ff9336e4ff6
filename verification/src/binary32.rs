//! Ratios of sizes in IEEE 754 binary32 arithmetic, computed on integers.
//!
//! The pool measures how full a block is by converting two sizes to single precision, dividing
//! them in single precision, and holding the quotient against a threshold that is itself a single.
//! Both conversions and the division round to nearest, ties to even. A single is handled through
//! its 32-bit encoding, and its value is counted in units of the least positive single, which is
//! two to the power of minus 149: every finite single is a whole number of these units.

use vstd::prelude::*;

verus! {

/// The encoding of the single 1.0.
pub const ONE: u32 = 0x3f80_0000;

/// The encoding of the single nearest to four fifths.
pub const FOUR_FIFTHS: u32 = 0x3f4c_cccd;

/// Two to the power of `e`.
pub open spec fn two_to(e: nat) -> nat {
    vstd::arithmetic::power2::pow2(e)
}

/// The integer nearest to `n / d`; of two that are equally near, the even one.
pub open spec fn nearest(n: nat, d: nat) -> nat {
    let q = n / d;
    let r = n % d;
    if 2 * r < d || (2 * r == d && q % 2 == 0) {
        q
    } else {
        q + 1
    }
}

/// The exponent of the gap between neighbouring singles around the integer `n`: the number of low
/// bits of `n` that do not fit into a 24-bit significand.
pub open spec fn spare_bits(n: nat) -> nat
    decreases n,
{
    if n < 0x100_0000 {
        0
    } else {
        1 + spare_bits(n / 2)
    }
}

/// The integer `n` converted to single precision. The result is an integer as well.
pub open spec fn single(n: nat) -> nat {
    nearest(n, two_to(spare_bits(n))) * two_to(spare_bits(n))
}

/// How often `n` must be doubled for `n / d` to reach a 24-bit significand, that is, two to the
/// power of 23.
pub open spec fn quotient_shift(n: nat, d: nat) -> nat
    decreases 0x100_0000 * d - n,
{
    if n == 0 || n >= 0x80_0000 * d {
        0
    } else {
        1 + quotient_shift(2 * n, d)
    }
}

/// The single-precision quotient of `n` and `d`, for `0 < n <= d`, in units of the least positive
/// single.
pub open spec fn quotient(n: nat, d: nat) -> nat {
    let s = quotient_shift(n, d);
    nearest(n * two_to(s), d) * two_to((149 - s) as nat)
}

/// The quotient of two sizes in single-precision arithmetic, in units of the least positive single.
pub open spec fn ratio_value(part: nat, whole: nat) -> nat {
    if part == 0 {
        0
    } else {
        quotient(single(part), single(whole))
    }
}

/// Whether the encoding stands for a number at all.
pub open spec fn is_number(bits: u32) -> bool {
    bits % 0x8000_0000 <= 0x7f80_0000
}

/// The value of a finite single that is not negative, in units of the least positive single.
pub open spec fn value_of(bits: u32) -> nat {
    let exponent = bits / 0x80_0000;
    let fraction = bits % 0x80_0000;
    if exponent == 0 {
        fraction as nat
    } else {
        ((0x80_0000 + fraction) as nat) * two_to((exponent - 1) as nat)
    }
}

/// Whether a number of units that is not negative is at least the single `bits`. Nothing is at
/// least an encoding that is not a number, nothing finite is at least positive infinity, and
/// everything is at least a single with its sign bit set, negative zero among them.
pub open spec fn reaches(value: nat, bits: u32) -> bool {
    &&& is_number(bits)
    &&& bits >= 0x8000_0000 || (bits < 0x7f80_0000 && value_of(bits) <= value)
}

/// Whether a request for `part` bytes fills a block of `whole` bytes at least to `threshold`.
/// An empty block is never filled: zero over zero is not a number.
pub open spec fn fills(part: nat, whole: nat, threshold: u32) -> bool {
    whole > 0 && reaches(ratio_value(part, whole), threshold)
}

proof fn lemma_nearest_bounds(n: nat, d: nat, lo: nat, hi: nat)
    requires
        d > 0,
        lo * d <= n,
        n < hi * d,
    ensures
        lo <= nearest(n, d) <= hi,
{
    vstd::arithmetic::div_mod::lemma_fundamental_div_mod(n as int, d as int);
    let q = n / d;
    assert(lo <= q < hi) by (nonlinear_arith)
        requires
            lo * d <= n,
            n < hi * d,
            n == d * q + n % d,
            0 <= n % d < d,
            d > 0,
    ;
}

/// `nearest` keeps the order of the fractions it rounds.
proof fn lemma_nearest_monotone(n1: nat, d1: nat, n2: nat, d2: nat)
    requires
        d1 > 0,
        d2 > 0,
        n1 * d2 <= n2 * d1,
    ensures
        nearest(n1, d1) <= nearest(n2, d2),
{
    vstd::arithmetic::div_mod::lemma_fundamental_div_mod(n1 as int, d1 as int);
    vstd::arithmetic::div_mod::lemma_fundamental_div_mod(n2 as int, d2 as int);
    let (q1, r1) = (n1 / d1, n1 % d1);
    let (q2, r2) = (n2 / d2, n2 % d2);
    assert(q1 <= q2) by (nonlinear_arith)
        requires
            n1 * d2 <= n2 * d1,
            n1 == d1 * q1 + r1,
            n2 == d2 * q2 + r2,
            0 <= r1 < d1,
            0 <= r2 < d2,
    ;
    if q1 == q2 {
        assert(r1 * d2 <= r2 * d1) by (nonlinear_arith)
            requires
                n1 * d2 <= n2 * d1,
                n1 == d1 * q1 + r1,
                n2 == d2 * q2 + r2,
                q1 == q2,
        ;
        if 2 * r1 > d1 {
            assert(2 * r2 > d2) by (nonlinear_arith)
                requires
                    r1 * d2 <= r2 * d1,
                    2 * r1 > d1,
                    d1 > 0,
                    d2 > 0,
            ;
        } else if 2 * r1 == d1 {
            assert(2 * r2 >= d2) by (nonlinear_arith)
                requires
                    r1 * d2 <= r2 * d1,
                    2 * r1 == d1,
                    d1 > 0,
                    d2 > 0,
            ;
        }
    }
}

proof fn lemma_two_to(e: nat)
    ensures
        two_to(e) > 0,
        two_to(e + 1) == 2 * two_to(e),
{
    vstd::arithmetic::power2::lemma_pow2_pos(e);
    vstd::arithmetic::power2::lemma_pow2_unfold(e + 1);
}

proof fn lemma_two_to_monotone(a: nat, b: nat)
    requires
        a <= b,
    ensures
        two_to(a) <= two_to(b),
{
    if a < b {
        vstd::arithmetic::power2::lemma_pow2_strictly_increases(a, b);
    }
}

proof fn lemma_spare_bits(n: nat)
    ensures
        n < 0x100_0000 * two_to(spare_bits(n)),
        spare_bits(n) > 0 ==> n >= 0x80_0000 * two_to(spare_bits(n)),
    decreases n,
{
    lemma_two_to(0);
    vstd::arithmetic::power2::lemma2_to64();
    if n >= 0x100_0000 {
        lemma_spare_bits(n / 2);
        lemma_two_to(spare_bits(n / 2));
    }
}

proof fn lemma_spare_bits_monotone(n: nat, m: nat)
    requires
        n <= m,
    ensures
        spare_bits(n) <= spare_bits(m),
    decreases m,
{
    if n >= 0x100_0000 {
        lemma_spare_bits_monotone(n / 2, m / 2);
    }
}

/// A single lies between the ends of the binade of the integer it was converted from.
proof fn lemma_single_bounds(n: nat)
    ensures
        single(n) <= 0x100_0000 * two_to(spare_bits(n)),
        spare_bits(n) > 0 ==> 0x80_0000 * two_to(spare_bits(n)) <= single(n),
        spare_bits(n) == 0 ==> single(n) == n,
{
    let p = two_to(spare_bits(n));
    lemma_spare_bits(n);
    lemma_two_to(spare_bits(n));
    if spare_bits(n) == 0 {
        vstd::arithmetic::power2::lemma2_to64();
        assert(n / 1 == n && n % 1 == 0);
    } else {
        lemma_nearest_bounds(n, p, 0x80_0000, 0x100_0000);
        let m = nearest(n, p);
        assert(0x80_0000 * p <= m * p <= 0x100_0000 * p) by (nonlinear_arith)
            requires
                0x80_0000 <= m <= 0x100_0000,
        ;
    }
    if spare_bits(n) == 0 {
        assert(single(n) == n);
    }
}

proof fn lemma_single_monotone(n: nat, m: nat)
    requires
        n <= m,
    ensures
        single(n) <= single(m),
{
    let a = spare_bits(n);
    let b = spare_bits(m);
    lemma_spare_bits_monotone(n, m);
    lemma_two_to(a);
    if a == b {
        let p = two_to(a);
        assert(n * p <= m * p) by (nonlinear_arith)
            requires
                n <= m,
        ;
        lemma_nearest_monotone(n, p, m, p);
        let (x, y) = (nearest(n, p), nearest(m, p));
        assert(x * p <= y * p) by (nonlinear_arith)
            requires
                x <= y,
        ;
    } else {
        lemma_single_bounds(n);
        lemma_single_bounds(m);
        lemma_two_to_monotone(a + 1, b);
    }
}

/// Converting a size to single precision at most doubles it, and leaves no size but zero at zero.
proof fn lemma_single_range(n: nat)
    ensures
        single(n) <= 2 * n,
        n > 0 ==> single(n) > 0,
{
    lemma_spare_bits(n);
    lemma_single_bounds(n);
    lemma_two_to(spare_bits(n));
}

/// The shift brings the quotient between two neighbouring powers of two.
proof fn lemma_quotient_shift(n: nat, d: nat)
    requires
        0 < n < 0x100_0000 * d,
    ensures
        0x80_0000 * d <= n * two_to(quotient_shift(n, d)) < 0x100_0000 * d,
    decreases 0x100_0000 * d - n,
{
    if n >= 0x80_0000 * d {
        vstd::arithmetic::power2::lemma2_to64();
        assert(quotient_shift(n, d) == 0);
        assert(n * two_to(0) == n) by (nonlinear_arith)
            requires
                two_to(0) == 1,
        ;
    } else {
        let t = quotient_shift(2 * n, d);
        lemma_quotient_shift(2 * n, d);
        lemma_two_to(t);
        let p = two_to(t);
        assert(n * (2 * p) == 2 * n * p) by (nonlinear_arith);
    }
}

/// Of two quotients the smaller one needs at least as large a shift.
proof fn lemma_quotient_shift_antitone(n1: nat, d1: nat, n2: nat, d2: nat)
    requires
        0 < n1 < 0x100_0000 * d1,
        0 < n2 < 0x100_0000 * d2,
        n1 * d2 <= n2 * d1,
    ensures
        quotient_shift(n2, d2) <= quotient_shift(n1, d1),
{
    let (s1, s2) = (quotient_shift(n1, d1), quotient_shift(n2, d2));
    if s1 < s2 {
        lemma_quotient_shift(n1, d1);
        lemma_quotient_shift(n2, d2);
        lemma_two_to(s1);
        lemma_two_to_monotone(s1 + 1, s2);
        let (p1, p2) = (two_to(s1), two_to(s2));
        assert(n2 * p2 >= n2 * (2 * p1)) by (nonlinear_arith)
            requires
                p2 >= 2 * p1,
        ;
        assert((n1 * p1) * (2 * d2) >= (0x80_0000 * d1) * (2 * d2)) by (nonlinear_arith)
            requires
                n1 * p1 >= 0x80_0000 * d1,
        ;
        assert((n1 * p1) * (2 * d2) == (n1 * d2) * (2 * p1)) by (nonlinear_arith);
        assert((n1 * d2) * (2 * p1) <= (n2 * d1) * (2 * p1)) by (nonlinear_arith)
            requires
                n1 * d2 <= n2 * d1,
        ;
        assert((n2 * d1) * (2 * p1) == (n2 * (2 * p1)) * d1) by (nonlinear_arith);
        assert((0x80_0000 * d1) * (2 * d2) == (0x100_0000 * d2) * d1) by (nonlinear_arith);
        assert(n2 * (2 * p1) >= 0x100_0000 * d2) by (nonlinear_arith)
            requires
                (n2 * (2 * p1)) * d1 >= (0x100_0000 * d2) * d1,
                d1 > 0,
        ;
    }
}

/// The shift that a quotient of sizes needs stays well within the range of a single's exponent.
proof fn lemma_quotient_shift_range(n: nat, d: nat)
    requires
        0 < n <= d,
        d < two_to(66),
    ensures
        23 <= quotient_shift(n, d) < 90,
{
    let s = quotient_shift(n, d);
    lemma_quotient_shift(n, d);
    let p = two_to(s);
    vstd::arithmetic::power2::lemma2_to64();
    if s < 23 {
        lemma_two_to_monotone(s, 22);
        assert(n * p < 0x80_0000 * d) by (nonlinear_arith)
            requires
                p <= 0x40_0000,
                0 < n <= d,
        ;
    }
    if s >= 90 {
        lemma_two_to_monotone(90, s);
        vstd::arithmetic::power2::lemma_pow2_adds(24, 66);
        let top = two_to(66);
        assert(two_to(90) == 0x100_0000 * top);
        assert(n * p >= 0x100_0000 * d) by (nonlinear_arith)
            requires
                p >= 0x100_0000 * top,
                d < top,
                n >= 1,
        ;
    }
}

proof fn lemma_quotient_significand(n: nat, d: nat)
    requires
        0 < n < 0x100_0000 * d,
    ensures
        0x80_0000 <= nearest(n * two_to(quotient_shift(n, d)), d) <= 0x100_0000,
{
    lemma_quotient_shift(n, d);
    lemma_nearest_bounds(n * two_to(quotient_shift(n, d)), d, 0x80_0000, 0x100_0000);
}

/// Division in single precision keeps the order of the exact quotients.
proof fn lemma_quotient_monotone(n1: nat, d1: nat, n2: nat, d2: nat)
    requires
        0 < n1 <= d1 < two_to(66),
        0 < n2 <= d2 < two_to(66),
        n1 * d2 <= n2 * d1,
    ensures
        quotient(n1, d1) <= quotient(n2, d2),
{
    let (s1, s2) = (quotient_shift(n1, d1), quotient_shift(n2, d2));
    lemma_quotient_shift_range(n1, d1);
    lemma_quotient_shift_range(n2, d2);
    lemma_quotient_shift_antitone(n1, d1, n2, d2);
    lemma_quotient_significand(n1, d1);
    lemma_quotient_significand(n2, d2);
    let (m1, m2) = (nearest(n1 * two_to(s1), d1), nearest(n2 * two_to(s2), d2));
    let (u1, u2) = (two_to((149 - s1) as nat), two_to((149 - s2) as nat));
    if s1 == s2 {
        let p = two_to(s1);
        assert((n1 * p) * d2 <= (n2 * p) * d1) by (nonlinear_arith)
            requires
                n1 * d2 <= n2 * d1,
        ;
        lemma_nearest_monotone(n1 * p, d1, n2 * p, d2);
        assert(m1 * u1 <= m2 * u1) by (nonlinear_arith)
            requires
                m1 <= m2,
        ;
    } else {
        lemma_two_to((149 - s1) as nat);
        lemma_two_to_monotone((150 - s1) as nat, (149 - s2) as nat);
        assert(m1 * u1 <= m2 * u2) by (nonlinear_arith)
            requires
                m1 <= 0x100_0000,
                m2 >= 0x80_0000,
                u2 >= 2 * u1,
        ;
    }
}

/// The order of the encodings of finite singles that are not negative is the order of their values.
proof fn lemma_value_order(x: u32, y: u32)
    requires
        x < y < 0x7f80_0000,
    ensures
        value_of(x) < value_of(y),
{
    let (ex, ey) = (x / 0x80_0000, y / 0x80_0000);
    let (fx, fy) = (x % 0x80_0000, y % 0x80_0000);
    vstd::arithmetic::power2::lemma2_to64();
    if ex == ey {
        if ex > 0 {
            let p = two_to((ex - 1) as nat);
            lemma_two_to((ex - 1) as nat);
            assert((0x80_0000 + fx) * p < (0x80_0000 + fy) * p) by (nonlinear_arith)
                requires
                    fx < fy,
                    p > 0,
            ;
        }
    } else {
        let q = two_to((ey - 1) as nat);
        lemma_two_to_monotone(0, (ey - 1) as nat);
        assert((0x80_0000 + fy) * q >= 0x80_0000 * q) by (nonlinear_arith);
        if ex > 0 {
            let p = two_to((ex - 1) as nat);
            lemma_two_to((ex - 1) as nat);
            lemma_two_to_monotone(ex as nat, (ey - 1) as nat);
            assert((0x80_0000 + fx) * p < 0x80_0000 * (2 * p)) by (nonlinear_arith)
                requires
                    fx < 0x80_0000,
                    p > 0,
            ;
        }
    }
}

/// `nearest`, for operands that leave room to double a remainder.
fn round_to_nearest(n: u128, d: u128) -> (m: u128)
    requires
        0 < d < 0x8000_0000_0000_0000_0000_0000_0000_0000,
        n < u128::MAX,
    ensures
        m == nearest(n as nat, d as nat),
{
    let q: u128 = n / d;
    let r: u128 = n % d;
    if 2 * r < d || (2 * r == d && q % 2 == 0) {
        q
    } else {
        proof {
            assert(q <= n) by (nonlinear_arith)
                requires
                    q == n / d,
                    d > 0,
            ;
        }
        q + 1
    }
}

/// Converts a size to single precision.
fn to_single(n: usize) -> (m: u128)
    ensures
        m == single(n as nat),
        m <= 2 * n,
        n > 0 ==> m > 0,
{
    let mut significand: u128 = n as u128;
    let mut gap: u128 = 1;
    let ghost mut e: nat = 0;
    proof {
        vstd::arithmetic::power2::lemma2_to64();
        lemma_single_range(n as nat);
        lemma_spare_bits(n as nat);
    }
    while significand >= 0x100_0000
        invariant
            gap == two_to(e),
            gap > 0,
            significand * gap <= n,
            spare_bits(n as nat) == e + spare_bits(significand as nat),
        decreases significand,
    {
        proof {
            lemma_two_to(e);
            let half = significand / 2;
            assert(half * (2 * gap) <= n) by (nonlinear_arith)
                requires
                    significand * gap <= n,
                    half * 2 <= significand,
            ;
            assert(0x100_0000 * gap <= n) by (nonlinear_arith)
                requires
                    significand * gap <= n,
                    significand >= 0x100_0000,
            ;
        }
        significand = significand / 2;
        gap = 2 * gap;
        proof {
            e = e + 1;
        }
    }
    assert(gap <= 2 * n + 1) by {
        lemma_spare_bits(n as nat);
    }
    let m: u128 = round_to_nearest(n as u128, gap);
    assert(m * gap == single(n as nat));
    m * gap
}

/// The quotient of two sizes in single-precision arithmetic, as the encoding of a single.
pub fn ratio(part: usize, whole: usize) -> (bits: u32)
    requires
        part <= whole,
        whole > 0,
    ensures
        value_of(bits) == ratio_value(part as nat, whole as nat),
        bits <= ONE,
{
    if part == 0 {
        return 0;
    }
    let n: u128 = to_single(part);
    let d: u128 = to_single(whole);
    proof {
        lemma_single_monotone(part as nat, whole as nat);
        vstd::arithmetic::power2::lemma2_to64();
        vstd::arithmetic::power2::lemma_pow2_adds(64, 2);
        lemma_quotient_shift_range(n as nat, d as nat);
    }
    let mut scaled: u128 = n;
    let mut shift: u32 = 0;
    let ghost s = quotient_shift(n as nat, d as nat);
    proof {
        assert(n * two_to(0) == n) by (nonlinear_arith)
            requires
                two_to(0) == 1,
        ;
    }
    while scaled < 0x80_0000 * d
        invariant
            0 < d < 0x4_0000_0000_0000_0000,
            0 < scaled < 0x100_0000 * d,
            s == shift + quotient_shift(scaled as nat, d as nat),
            scaled == n * two_to(shift as nat),
            s < 90,
        decreases 0x100_0000 * d - scaled,
    {
        proof {
            lemma_two_to(shift as nat);
            let p = two_to(shift as nat);
            assert(2 * (n * p) == n * (2 * p)) by (nonlinear_arith);
        }
        scaled = 2 * scaled;
        shift = shift + 1;
    }
    let significand: u128 = round_to_nearest(scaled, d);
    proof {
        assert(quotient_shift(scaled as nat, d as nat) == 0);
        lemma_quotient_significand(n as nat, d as nat);
        if shift == 23 {
            lemma_nearest_of_multiple(d as nat, 0x80_0000);
            assert(scaled * d <= (d * 0x80_0000) * d) by (nonlinear_arith)
                requires
                    scaled == n * 0x80_0000,
                    n <= d,
            ;
            lemma_nearest_monotone(scaled as nat, d as nat, (d * 0x80_0000) as nat, d as nat);
        }
    }
    let bits: u32 = (150 - shift) * 0x80_0000 + (significand as u32 - 0x80_0000);
    proof {
        let unit = two_to((149 - shift) as nat);
        lemma_two_to((149 - shift) as nat);
        if significand < 0x100_0000 {
            assert(bits / 0x80_0000 == 150 - shift);
            assert(bits % 0x80_0000 == significand - 0x80_0000);
        } else {
            assert(bits / 0x80_0000 == 151 - shift);
            assert(bits % 0x80_0000 == 0);
            assert(0x80_0000 * (2 * unit) == 0x100_0000 * unit);
        }
    }
    bits
}

/// Whether a request for `part` bytes fills a block of `whole` bytes at least to `threshold`, the
/// encoding of a single.
pub fn meets_threshold(part: usize, whole: usize, threshold: u32) -> (met: bool)
    requires
        part <= whole,
    ensures
        met == fills(part as nat, whole as nat, threshold),
{
    if whole == 0 || threshold % 0x8000_0000 > 0x7f80_0000 {
        return false;
    }
    if threshold >= 0x8000_0000 {
        return true;
    }
    let bits: u32 = ratio(part, whole);
    proof {
        if bits < threshold && threshold < 0x7f80_0000 {
            lemma_value_order(bits, threshold);
        }
        if threshold < bits {
            lemma_value_order(threshold, bits);
        }
    }
    threshold <= bits
}

/// Within one block, a larger request fills at least as much: if a request fails the threshold,
/// so does every smaller one.
pub proof fn law_fills_grows_with_request(small: nat, large: nat, whole: nat, threshold: u32)
    requires
        small <= large <= whole <= usize::MAX,
        fills(small, whole, threshold),
    ensures
        fills(large, whole, threshold),
{
    lemma_ratio_monotone(small, whole, large, whole);
}

/// One request fills a smaller block at least as much: if the smallest block that can hold a
/// request fails the threshold, so does every larger one.
pub proof fn law_fills_shrinks_with_block(part: nat, small: nat, large: nat, threshold: u32)
    requires
        part <= small <= large <= usize::MAX,
        0 < small,
        fills(part, large, threshold),
    ensures
        fills(part, small, threshold),
{
    lemma_ratio_monotone(part, large, part, small);
}

/// A request of exactly a block's size fills it completely: the ratio is the single 1.0, so every
/// threshold up to 1.0 is met.
pub proof fn law_exact_size_fills(size: nat, threshold: u32)
    requires
        0 < size <= usize::MAX,
        is_number(threshold),
        threshold >= 0x8000_0000 || threshold <= ONE,
    ensures
        ratio_value(size, size) == value_of(ONE),
        fills(size, size, threshold),
{
    let d = single(size);
    lemma_single_range(size);
    vstd::arithmetic::power2::lemma2_to64();
    vstd::arithmetic::power2::lemma_pow2_adds(64, 2);
    lemma_quotient_shift_range(d, d);
    lemma_quotient_shift(d, d);
    let s = quotient_shift(d, d);
    if s > 23 {
        lemma_two_to_monotone(24, s);
        let p = two_to(s);
        assert(d * p >= 0x100_0000 * d) by (nonlinear_arith)
            requires
                p >= 0x100_0000,
        ;
    }
    lemma_nearest_of_multiple(d, 0x80_0000);
    if threshold < ONE {
        lemma_value_order(threshold, ONE);
    }
}

/// Against a threshold of zero every request that fits into a block with any bytes is good enough.
pub proof fn law_zero_threshold_admits_all(part: nat, whole: nat)
    requires
        0 < whole,
    ensures
        fills(part, whole, 0),
{
}

proof fn lemma_nearest_of_multiple(d: nat, k: nat)
    requires
        d > 0,
    ensures
        nearest(d * k, d) == k,
{
    assert(d * k == k * d) by (nonlinear_arith);
    vstd::arithmetic::div_mod::lemma_fundamental_div_mod_converse(
        (d * k) as int,
        d as int,
        k as int,
        0,
    );
}

/// Conversion and division in single precision keep the order of the exact ratios, whenever the
/// parts and the wholes are ordered one by one.
proof fn lemma_ratio_monotone(part1: nat, whole1: nat, part2: nat, whole2: nat)
    requires
        part1 <= part2,
        part1 <= whole1 <= usize::MAX,
        part2 <= whole2 <= whole1,
        0 < whole2,
    ensures
        ratio_value(part1, whole1) <= ratio_value(part2, whole2),
{
    if part1 > 0 {
        lemma_single_range(part1);
        lemma_single_range(part2);
        lemma_single_range(whole1);
        lemma_single_range(whole2);
        lemma_single_monotone(part1, part2);
        lemma_single_monotone(part1, whole1);
        lemma_single_monotone(part2, whole2);
        lemma_single_monotone(whole2, whole1);
        vstd::arithmetic::power2::lemma2_to64();
        vstd::arithmetic::power2::lemma_pow2_adds(64, 2);
        let (n1, d1, n2, d2) = (single(part1), single(whole1), single(part2), single(whole2));
        assert(n1 * d2 <= n2 * d1) by (nonlinear_arith)
            requires
                n1 <= n2,
                d2 <= d1,
        ;
        lemma_quotient_monotone(n1, d1, n2, d2);
    }
}

/// When a rounded fraction reaches a whole number: when the fraction lies above the middle between
/// that number and the one before it, or on the middle and the number is even.
proof fn lemma_nearest_reaches(n: nat, d: nat, k: nat)
    requires
        d > 0,
        k > 0,
    ensures
        k <= nearest(n, d) <==> 2 * n > (2 * k - 1) * d || (2 * n == (2 * k - 1) * d && k % 2
            == 0),
{
    vstd::arithmetic::div_mod::lemma_fundamental_div_mod(n as int, d as int);
    let (q, r) = (n / d, n % d);
    assert(n == q * d + r) by (nonlinear_arith)
        requires
            n == d * q + r,
    ;
    if k <= q {
        assert(2 * n > (2 * k - 1) * d) by (nonlinear_arith)
            requires
                n == q * d + r,
                k <= q,
                d > 0,
        ;
    } else if k == q + 1 {
        assert((2 * k - 1) * d == 2 * (q * d) + d) by (nonlinear_arith)
            requires
                k == q + 1,
        ;
    } else {
        assert(2 * n < (2 * k - 1) * d) by (nonlinear_arith)
            requires
                n == q * d + r,
                r < d,
                k >= q + 2,
        ;
    }
}

/// A shift by `a + b` is a shift by `a` followed by one by `b`.
proof fn lemma_shifted(n: nat, a: nat, b: nat)
    ensures
        n * two_to(a + b) == (n * two_to(a)) * two_to(b),
{
    vstd::arithmetic::power2::lemma_pow2_adds(a, b);
    let (x, y) = (two_to(a), two_to(b));
    assert(n * (x * y) == (n * x) * y) by (nonlinear_arith);
}

/// When the single-precision quotient of `n` and `d` reaches the single with the biased exponent
/// `e` and the fraction `f`.
proof fn lemma_quotient_reaches(n: nat, d: nat, e: nat, f: nat)
    requires
        0 < n <= d < two_to(66),
        1 <= e <= 127,
        f < 0x80_0000,
    ensures
        f > 0 ==> ((0x80_0000 + f) * two_to((e - 1) as nat) <= quotient(n, d) <==> {
            ||| 2 * (n * two_to((150 - e) as nat)) > (0xff_ffff + 2 * f) * d
            ||| 2 * (n * two_to((150 - e) as nat)) == (0xff_ffff + 2 * f) * d && f % 2 == 0
        }),
        f == 0 ==> (0x80_0000 * two_to((e - 1) as nat) <= quotient(n, d) <==> 4 * (n * two_to(
            (150 - e) as nat,
        )) >= 0x1ff_ffff * d),
{
    let s = quotient_shift(n, d);
    let x = n * two_to(s);
    lemma_quotient_shift_range(n, d);
    lemma_quotient_shift(n, d);
    lemma_quotient_significand(n, d);
    let m = nearest(x, d);
    let unit = two_to((149 - s) as nat);
    let k = 0x80_0000 + f;
    let y = n * two_to((150 - e) as nat);
    let p = two_to((e - 1) as nat);
    lemma_two_to((149 - s) as nat);
    assert((2 * k - 1) * d == (0xff_ffff + 2 * f) * d) by (nonlinear_arith)
        requires
            k == 0x80_0000 + f,
    ;
    if e == 150 - s {
        assert(k * p <= m * p <==> k <= m) by (nonlinear_arith)
            requires
                p > 0,
        ;
        lemma_nearest_reaches(x, d, k);
    } else if e < 150 - s {
        let gap = (150 - s - e) as nat;
        lemma_shifted(n, s, gap);
        lemma_two_to((gap - 1) as nat);
        let g = two_to(gap);
        assert(y == x * g);
        assert(y >= 2 * x) by (nonlinear_arith)
            requires
                y == x * g,
                g >= 2,
        ;
        assert((0xff_ffff + 2 * f) * d < 2 * (0x100_0000 * d)) by (nonlinear_arith)
            requires
                f < 0x80_0000,
                d > 0,
        ;
        lemma_two_to((e - 1) as nat);
        lemma_two_to_monotone(e, (149 - s) as nat);
        assert(k * p <= m * unit) by (nonlinear_arith)
            requires
                k < 0x100_0000,
                m >= 0x80_0000,
                unit >= 2 * p,
        ;
    } else {
        let gap = (e - (150 - s)) as nat;
        lemma_shifted(n, (150 - e) as nat, gap);
        let g = two_to(gap);
        assert(x == y * g);
        if gap == 1 {
            vstd::arithmetic::power2::lemma2_to64();
            assert(x == 2 * y) by (nonlinear_arith)
                requires
                    x == y * g,
                    g == 2,
            ;
            lemma_two_to((e - 2) as nat);
            assert(p == 2 * unit);
            assert(k * p <= m * unit <==> 2 * k <= m) by (nonlinear_arith)
                requires
                    p == 2 * unit,
                    unit > 0,
            ;
            lemma_nearest_reaches(x, d, 0x100_0000);
            if f > 0 {
                assert((0xff_ffff + 2 * f) * d > 0x100_0000 * d) by (nonlinear_arith)
                    requires
                        f > 0,
                        d > 0,
                ;
            }
        } else {
            lemma_two_to_monotone(2, gap);
            vstd::arithmetic::power2::lemma2_to64();
            assert(4 * y <= x) by (nonlinear_arith)
                requires
                    x == y * g,
                    g >= 4,
            ;
            assert((0xff_ffff + 2 * f) * d >= 0xff_ffff * d) by (nonlinear_arith);
            lemma_two_to((149 - s) as nat);
            lemma_two_to((150 - s) as nat);
            lemma_two_to_monotone((151 - s) as nat, (e - 1) as nat);
            assert(k * p > m * unit) by (nonlinear_arith)
                requires
                    k >= 0x80_0000,
                    m <= 0x100_0000,
                    p >= 4 * unit,
                    unit > 0,
            ;
        }
    }
}

/// A size below two to the power of 24 is a single. Any other is converted to the nearest multiple
/// of the gap between neighbouring singles there, and to the even one of two that are equally near:
/// for a size of `24 + k` binary digits, the gap is two to the power of `k`.
pub proof fn law_conversion_takes_the_nearest_single(n: nat, k: nat)
    ensures
        n < 0x100_0000 ==> single(n) == n,
        vstd::arithmetic::power2::pow2(23 + k) <= n < vstd::arithmetic::power2::pow2(24 + k) ==> {
            let gap = vstd::arithmetic::power2::pow2(k);
            &&& single(n) % gap == 0
            &&& 2 * single(n) <= 2 * n + gap
            &&& 2 * n <= 2 * single(n) + gap
            &&& 2 * single(n) == 2 * n + gap || 2 * n == 2 * single(n) + gap ==> (single(n) / gap)
                % 2 == 0
        },
{
    lemma_single_bounds(n);
    if vstd::arithmetic::power2::pow2(23 + k) <= n < vstd::arithmetic::power2::pow2(24 + k) {
        let gap = two_to(k);
        let b = spare_bits(n);
        lemma_two_to(k);
        lemma_spare_bits(n);
        vstd::arithmetic::power2::lemma2_to64();
        vstd::arithmetic::power2::lemma_pow2_adds(23, k);
        vstd::arithmetic::power2::lemma_pow2_adds(24, k);
        if b < k {
            lemma_two_to(b);
            lemma_two_to_monotone(b + 1, k);
        }
        if k < b {
            lemma_two_to_monotone(k + 1, b);
        }
        assert(b == k);
        vstd::arithmetic::div_mod::lemma_fundamental_div_mod(n as int, gap as int);
        let (q, r) = (n / gap, n % gap);
        let m = nearest(n, gap);
        assert(q * gap == gap * q) by (nonlinear_arith);
        assert((q + 1) * gap == gap * q + gap) by (nonlinear_arith);
        vstd::arithmetic::div_mod::lemma_mod_multiples_basic(m as int, gap as int);
        vstd::arithmetic::div_mod::lemma_div_multiples_vanish(m as int, gap as int);
        assert(m * gap == gap * m) by (nonlinear_arith);
    }
}

/// What it is to fill a block. The threshold is the single with the biased exponent `e` and the
/// fraction `f`, that is, `(1 + f / 2^23) * 2^(e - 127)`. The request fills the block just when the
/// exact ratio of the two sizes, each in single precision, rounds to the threshold or above: when it
/// lies above the middle between the threshold and the single before it, or on the middle and the
/// threshold is the one with the even fraction. The single before a power of two is only half as
/// far away as the one after it.
pub proof fn law_fills_by_the_exact_ratio(
    part: nat,
    whole: nat,
    threshold: u32,
    e: nat,
    f: nat,
)
    requires
        part <= whole <= usize::MAX,
        0 < whole,
        threshold == 0x80_0000 * e + f,
        f < 0x80_0000,
        1 <= e <= 127,
    ensures
        f > 0 ==> (fills(part, whole, threshold) <==> {
            let scaled = single(part) * vstd::arithmetic::power2::pow2((150 - e) as nat);
            ||| 2 * scaled > (0xff_ffff + 2 * f) * single(whole)
            ||| 2 * scaled == (0xff_ffff + 2 * f) * single(whole) && f % 2 == 0
        }),
        f == 0 ==> (fills(part, whole, threshold) <==> 4 * (single(part)
            * vstd::arithmetic::power2::pow2((150 - e) as nat)) >= 0x1ff_ffff * single(whole)),
{
    let (n, d) = (single(part), single(whole));
    lemma_single_range(part);
    lemma_single_range(whole);
    lemma_single_monotone(part, whole);
    vstd::arithmetic::power2::lemma2_to64();
    vstd::arithmetic::power2::lemma_pow2_adds(64, 2);
    assert(threshold / 0x80_0000 == e);
    assert(threshold % 0x80_0000 == f);
    let p = two_to((e - 1) as nat);
    lemma_two_to((e - 1) as nat);
    assert(value_of(threshold) == (0x80_0000 + f) * p);
    if part == 0 {
        assert((0x80_0000 + f) * p > 0) by (nonlinear_arith)
            requires
                p > 0,
        ;
        assert(n == 0);
        assert(n * two_to((150 - e) as nat) == 0) by (nonlinear_arith)
            requires
                n == 0,
        ;
        assert((0xff_ffff + 2 * f) * d > 0) by (nonlinear_arith)
            requires
                d > 0,
        ;
    } else {
        lemma_quotient_reaches(n, d, e, f);
    }
}

/// What it is to fill a block, for sizes below two to the power of 24: the exact ratio of the sizes
/// themselves rounds to the threshold or above. So a request fills a block whenever it takes up the
/// threshold's part of it, and no request fills a block that falls short of the threshold by more
/// than half of the distance to the single before it.
pub proof fn law_fills_by_the_sizes(part: nat, whole: nat, threshold: u32, e: nat, f: nat)
    requires
        part <= whole < 0x100_0000,
        0 < whole,
        threshold == 0x80_0000 * e + f,
        f < 0x80_0000,
        1 <= e <= 127,
    ensures
        f > 0 ==> (fills(part, whole, threshold) <==> {
            let scaled = part * vstd::arithmetic::power2::pow2((150 - e) as nat);
            ||| 2 * scaled > (0xff_ffff + 2 * f) * whole
            ||| 2 * scaled == (0xff_ffff + 2 * f) * whole && f % 2 == 0
        }),
        f == 0 ==> (fills(part, whole, threshold) <==> 4 * (part
            * vstd::arithmetic::power2::pow2((150 - e) as nat)) >= 0x1ff_ffff * whole),
        part * vstd::arithmetic::power2::pow2((150 - e) as nat) >= (0x80_0000 + f) * whole
            ==> fills(part, whole, threshold),
        (part * vstd::arithmetic::power2::pow2((150 - e) as nat)) + whole < (0x80_0000 + f) * whole
            ==> !fills(part, whole, threshold),
{
    law_conversion_takes_the_nearest_single(part, 0);
    law_conversion_takes_the_nearest_single(whole, 0);
    law_fills_by_the_exact_ratio(part, whole, threshold, e, f);
    let scaled = part * two_to((150 - e) as nat);
    assert((0xff_ffff + 2 * f) * whole == 2 * ((0x80_0000 + f) * whole) - whole) by (nonlinear_arith);
    assert(f == 0 ==> (0x80_0000 + f) * whole == 0x80_0000 * whole);
}

/// The same for sizes of any magnitude, up to the error of converting the two sizes: a request that
/// takes up the threshold's part of a block with a margin of one in eight million fills it, and one
/// that falls short by such a margin does not.
pub proof fn law_fills_up_to_rounding(part: nat, whole: nat, threshold: u32, e: nat, f: nat)
    requires
        part <= whole <= usize::MAX,
        0 < whole,
        threshold == 0x80_0000 * e + f,
        f < 0x80_0000,
        1 <= e <= 127,
    ensures
        (part * vstd::arithmetic::power2::pow2((150 - e) as nat)) * 0xff_ffff >= ((0x80_0000 + f)
            * whole) * 0x100_0001 ==> fills(part, whole, threshold),
        (part * vstd::arithmetic::power2::pow2((150 - e) as nat)) * 0x100_0001 < ((0x7f_ffff + f)
            * whole) * 0xff_ffff ==> !fills(part, whole, threshold),
{
    let (n, d) = (single(part), single(whole));
    let g = two_to((150 - e) as nat);
    let k = 0x80_0000 + f;
    law_fills_by_the_exact_ratio(part, whole, threshold, e, f);
    lemma_single_error(part);
    lemma_single_error(whole);
    lemma_single_range(whole);
    lemma_two_to((150 - e) as nat);
    assert((0xff_ffff + 2 * f) * d == 2 * (k * d) - d) by (nonlinear_arith)
        requires
            k == 0x80_0000 + f,
    ;
    if (part * g) * 0xff_ffff >= (k * whole) * 0x100_0001 {
        assert((n * g) * 0x100_0000 >= (part * g) * 0xff_ffff) by (nonlinear_arith)
            requires
                n * 0x100_0000 >= part * 0xff_ffff,
        ;
        assert((k * whole) * 0x100_0001 >= (k * d) * 0x100_0000) by (nonlinear_arith)
            requires
                whole * 0x100_0001 >= d * 0x100_0000,
        ;
        assert(n * g >= k * d);
        assert(f == 0 ==> k * d == 0x80_0000 * d);
    }
    if (part * g) * 0x100_0001 < ((0x7f_ffff + f) * whole) * 0xff_ffff {
        assert((n * g) * 0x100_0000 <= (part * g) * 0x100_0001) by (nonlinear_arith)
            requires
                n * 0x100_0000 <= part * 0x100_0001,
        ;
        assert(((0x7f_ffff + f) * whole) * 0xff_ffff <= ((0x7f_ffff + f) * d) * 0x100_0000)
            by (nonlinear_arith)
            requires
                whole * 0xff_ffff <= d * 0x100_0000,
        ;
        assert(n * g < (0x7f_ffff + f) * d);
        assert((0x7f_ffff + f) * d == k * d - d) by (nonlinear_arith)
            requires
                k == 0x80_0000 + f,
        ;
        assert(f == 0 ==> k * d == 0x80_0000 * d);
    }
}

/// Converting a size to single precision changes it by at most one part in two to the power of 24.
proof fn lemma_single_error(n: nat)
    ensures
        n * 0xff_ffff <= single(n) * 0x100_0000 <= n * 0x100_0001,
{
    let b = spare_bits(n);
    lemma_spare_bits(n);
    lemma_single_bounds(n);
    if b > 0 {
        vstd::arithmetic::power2::lemma_pow2_adds(23, b);
        vstd::arithmetic::power2::lemma_pow2_adds(24, b);
        vstd::arithmetic::power2::lemma2_to64();
        law_conversion_takes_the_nearest_single(n, b);
    }
}

/// What is not a number is never reached, nor is any threshold above 1.0 by a request that fits
/// into the block, nor is any threshold in a block of no bytes. Every number with its sign bit set
/// is reached in a block with any bytes, and so is zero. A threshold below two to the power of
/// minus 126 is reached by every request for any bytes.
pub proof fn law_thresholds_at_the_edges(part: nat, whole: nat, threshold: u32)
    requires
        part <= whole <= usize::MAX,
    ensures
        whole == 0 ==> !fills(part, whole, threshold),
        0x7f80_0000 < threshold < 0x8000_0000 || 0xff80_0000 < threshold ==> !fills(
            part,
            whole,
            threshold,
        ),
        0x3f80_0000 < threshold < 0x8000_0000 ==> !fills(part, whole, threshold),
        0 < whole && 0x8000_0000 <= threshold <= 0xff80_0000 ==> fills(part, whole, threshold),
        0 < whole && threshold == 0 ==> fills(part, whole, threshold),
        0 < part && threshold < 0x80_0000 ==> fills(part, whole, threshold),
        part == 0 && 0 < threshold < 0x8000_0000 ==> !fills(part, whole, threshold),
{
    if whole > 0 && part > 0 && threshold < 0x80_0000 {
        vstd::arithmetic::power2::lemma2_to64();
        lemma_ratio_is_normal(part, whole);
        lemma_value_order(threshold, 0x80_0000);
    }
    if whole > 0 && 0x3f80_0000 < threshold < 0x7f80_0000 {
        law_exact_size_fills(whole, ONE);
        lemma_ratio_monotone(part, whole, whole, whole);
        lemma_value_order(ONE, threshold);
    }
    if part == 0 && 0 < threshold < 0x7f80_0000 {
        lemma_value_order(0, threshold);
    }
}

/// The ratio of a request for any bytes and a block is at least the least normal single.
proof fn lemma_ratio_is_normal(part: nat, whole: nat)
    requires
        0 < part <= whole <= usize::MAX,
    ensures
        value_of(0x80_0000) <= ratio_value(part, whole),
{
    let (n, d) = (single(part), single(whole));
    lemma_single_range(part);
    lemma_single_range(whole);
    lemma_single_monotone(part, whole);
    vstd::arithmetic::power2::lemma2_to64();
    vstd::arithmetic::power2::lemma_pow2_adds(64, 2);
    lemma_quotient_shift_range(n, d);
    lemma_quotient_significand(n, d);
    let s = quotient_shift(n, d);
    let m = nearest(n * two_to(s), d);
    let unit = two_to((149 - s) as nat);
    lemma_two_to((149 - s) as nat);
    assert(m * unit >= 0x80_0000) by (nonlinear_arith)
        requires
            m >= 0x80_0000,
            unit >= 1,
    ;
    assert(0x80_0000 * two_to(0) == 0x80_0000) by (nonlinear_arith)
        requires
            two_to(0) == 1,
    ;
}

/// A ratio of sizes is the single nearest to the exact ratio of the two sizes, each in single
/// precision, and the one with the even fraction of two that are equally near. The encoding of the
/// ratio has the biased exponent `e` and the fraction `f`.
pub proof fn law_ratio_is_the_nearest_single(part: nat, whole: nat, bits: u32, e: nat, f: nat)
    requires
        part <= whole <= usize::MAX,
        0 < whole,
        bits <= ONE,
        value_of(bits) == ratio_value(part, whole),
        bits == 0x80_0000 * e + f,
        f < 0x80_0000,
    ensures
        part == 0 <==> bits == 0,
        part == whole ==> bits == 0x3f80_0000,
        part > 0 ==> 1 <= e <= 127,
        part > 0 ==> 2 * (single(part) * vstd::arithmetic::power2::pow2((150 - e) as nat))
            <= (0x100_0001 + 2 * f) * single(whole),
        part > 0 && 2 * (single(part) * vstd::arithmetic::power2::pow2((150 - e) as nat))
            == (0x100_0001 + 2 * f) * single(whole) ==> f % 2 == 0,
        part > 0 && f > 0 ==> 2 * (single(part) * vstd::arithmetic::power2::pow2((150 - e) as nat))
            >= (0xff_ffff + 2 * f) * single(whole),
        part > 0 && f > 0 && 2 * (single(part) * vstd::arithmetic::power2::pow2((150 - e) as nat))
            == (0xff_ffff + 2 * f) * single(whole) ==> f % 2 == 0,
        part > 0 && f == 0 ==> 4 * (single(part) * vstd::arithmetic::power2::pow2((150 - e) as nat))
            >= 0x1ff_ffff * single(whole),
{
    vstd::arithmetic::power2::lemma2_to64();
    if part == 0 {
        if bits > 0 {
            lemma_value_order(0, bits);
        }
    } else {
        lemma_ratio_is_normal(part, whole);
        if bits < 0x80_0000 {
            lemma_value_order(bits, 0x80_0000);
        }
        if part == whole {
            law_exact_size_fills(whole, ONE);
            if bits < ONE {
                lemma_value_order(bits, ONE);
            }
        }
        assert(fills(part, whole, bits));
        law_fills_by_the_exact_ratio(part, whole, bits, e, f);
        let above = (bits + 1) as u32;
        lemma_value_order(bits, above);
        assert(!fills(part, whole, above));
        let d = single(whole);
        let scaled = single(part) * two_to((150 - e) as nat);
        if e == 127 {
            // Nothing lies above 1.0.
            lemma_single_monotone(part, whole);
            assert(f == 0);
            lemma_single_range(part);
            assert(2 * scaled < (0x100_0001 + 2 * f) * d) by (nonlinear_arith)
                requires
                    scaled == single(part) * 0x80_0000,
                    0 < single(part) <= d,
            ;
        } else if f < 0x7f_ffff {
            law_fills_by_the_exact_ratio(part, whole, above, e, f + 1);
            assert((0xff_ffff + 2 * (f + 1)) * d == (0x100_0001 + 2 * f) * d);
        } else {
            law_fills_by_the_exact_ratio(part, whole, above, e + 1, 0);
            lemma_two_to((149 - e) as nat);
            let half = two_to((149 - e) as nat);
            let n = single(part);
            assert(n * (2 * half) == 2 * (n * half)) by (nonlinear_arith);
            assert((0x100_0001 + 2 * f) * d == 0x1ff_ffff * d);
        }
    }
}

/// The single that is taken for four fifths is nearer to it than its neighbours.
pub proof fn law_four_fifths_is_the_nearest_single()
    ensures
        FOUR_FIFTHS == 0x80_0000 * 126 + 0x4c_cccd,
        5 * (0x80_0000 + 0x4c_cccd) - 4 * 0x100_0000 == 1,
        ONE == 0x80_0000 * 127,
{
}

} // verus!
