//! Binary floating-point arithmetic on numbers that are not negative.
//!
//! A number is a mantissa times a power of two. Every operation rounds its exact result to the
//! nearest number whose mantissa has a given count of bits, ties to an even mantissa: with 53 bits
//! that is double precision, with 24 bits single precision. The exponents met here stay far from
//! the ends of the range of either format.
use vstd::arithmetic::power2::{lemma_pow2_adds, lemma_pow2_pos, lemma_pow2_unfold, pow2};
use vstd::prelude::*;

use crate::number::{decimal, decimal_chars, digit_char, digit_for};

verus! {

/// The bits of a mantissa in double precision.
pub const DOUBLE: u32 = 53;

/// The bits of a mantissa in single precision.
pub const SINGLE: u32 = 24;

/// The number `mant * 2^exp`.
#[derive(Debug, Clone, Copy)]
pub struct Float {
    pub mant: u64,
    pub exp: i32,
}

/// The number `mant * 2^exp`, without limits on either part.
pub struct FloatModel {
    pub mant: nat,
    pub exp: int,
}

impl View for Float {
    type V = FloatModel;

    open spec fn view(&self) -> FloatModel {
        FloatModel { mant: self.mant as nat, exp: self.exp as int }
    }
}

/// `n / d` rounded to an integer, ties to the even one.
pub open spec fn half_even(n: nat, d: nat) -> nat {
    let q = n / d;
    let r = n % d;
    if 2 * r < d || (2 * r == d && q % 2 == 0) {
        q
    } else {
        q + 1
    }
}

/// `n / d * 2^e` rounded, for a quotient of at least `bits` bits: the denominator is doubled until
/// the quotient has no more bits than that.
pub open spec fn shrunk(n: nat, d: nat, e: int, bits: nat) -> FloatModel
    decreases n - d,
    when d > 0 && bits > 0 via shrunk_decreases
{
    if n < pow2(bits) * d {
        FloatModel { mant: half_even(n, d), exp: e }
    } else {
        shrunk(n, 2 * d, e + 1, bits)
    }
}

#[via_fn]
proof fn shrunk_decreases(n: nat, d: nat, e: int, bits: nat) {
    lemma_pow2_unfold(bits);
    lemma_pow2_pos((bits - 1) as nat);
    let p = pow2((bits - 1) as nat);
    assert(2 * p * d >= 2 * d) by (nonlinear_arith)
        requires
            p >= 1,
            d >= 0,
    ;
}

/// How far `n` lies below `goal`.
pub open spec fn up_to(goal: nat, n: nat) -> nat {
    if n < goal {
        (goal - n) as nat
    } else {
        0
    }
}

/// `n / d * 2^e` rounded: the numerator is doubled until the quotient has at least `bits` bits.
pub open spec fn grown(n: nat, d: nat, e: int, bits: nat) -> FloatModel
    decreases up_to(pow2((bits - 1) as nat) * d, n),
    when n > 0 && d > 0 && bits > 0
{
    if n < pow2((bits - 1) as nat) * d {
        grown(2 * n, d, e - 1, bits)
    } else {
        shrunk(n, d, e, bits)
    }
}

/// The floating-point number of `bits` bits nearest to `n / d * 2^e`.
pub open spec fn nearest(n: nat, d: nat, e: int, bits: nat) -> FloatModel {
    if n == 0 {
        FloatModel { mant: 0, exp: 0 }
    } else {
        grown(n, d, e, bits)
    }
}

/// An integer as a floating-point number.
pub open spec fn float_of(n: nat, bits: nat) -> FloatModel {
    nearest(n, 1, 0, bits)
}

/// The quotient of two floating-point numbers.
pub open spec fn float_div(a: FloatModel, b: FloatModel, bits: nat) -> FloatModel {
    nearest(a.mant, b.mant, a.exp - b.exp, bits)
}

/// The product of two floating-point numbers.
pub open spec fn float_mul(a: FloatModel, b: FloatModel, bits: nat) -> FloatModel {
    nearest(a.mant * b.mant, 1, a.exp + b.exp, bits)
}

/// The sum of two floating-point numbers.
pub open spec fn float_add(a: FloatModel, b: FloatModel, bits: nat) -> FloatModel {
    let e = if a.exp < b.exp {
        a.exp
    } else {
        b.exp
    };
    nearest(
        a.mant * pow2((a.exp - e) as nat) + b.mant * pow2((b.exp - e) as nat),
        1,
        e,
        bits,
    )
}

/// Whether the number is greater than one.
pub open spec fn exceeds_one(x: FloatModel) -> bool {
    if x.exp >= 0 {
        x.mant * pow2(x.exp as nat) > 1
    } else {
        x.mant > pow2((-x.exp) as nat)
    }
}

/// A time span of `nanos` nanoseconds in seconds: whole seconds and the fraction are converted
/// each by itself and added.
pub open spec fn seconds_of(nanos: nat, bits: nat) -> FloatModel {
    float_add(
        float_of(nanos / 1_000_000_000, bits),
        float_div(float_of(nanos % 1_000_000_000, bits), float_of(1_000_000_000, bits), bits),
        bits,
    )
}

/// The integer part.
pub open spec fn float_floor(x: FloatModel) -> nat {
    if x.exp >= 0 {
        x.mant * pow2(x.exp as nat)
    } else {
        x.mant / pow2((-x.exp) as nat)
    }
}

/// The number times ten to the power of `digits`, rounded to an integer, ties to even: the digits
/// of its decimal notation with that many places.
pub open spec fn float_fixed(x: FloatModel, tens: nat) -> nat {
    if x.exp >= 0 {
        x.mant * tens * pow2(x.exp as nat)
    } else {
        half_even(x.mant * tens, pow2((-x.exp) as nat))
    }
}

proof fn half_even_bound(n: nat, d: nat, bits: nat)
    requires
        d > 0,
        n < pow2(bits) * d,
    ensures
        half_even(n, d) <= pow2(bits),
{
    let p = pow2(bits);
    assert(n / d < p) by (nonlinear_arith)
        requires
            d > 0,
            n < p * d,
    ;
}

proof fn pow2_53()
    ensures
        pow2(24) == 0x100_0000,
        pow2(23) == 0x80_0000,
        pow2(53) == 0x20_0000_0000_0000,
        pow2(52) == 0x10_0000_0000_0000,
{
    vstd::arithmetic::power2::lemma2_to64();
    lemma_pow2_adds(32, 21);
    lemma_pow2_adds(32, 20);
}

/// Rounds `n / d` to an integer, ties to even.
fn round_half_even(n: u128, d: u128) -> (q: u128)
    requires
        d > 0,
        n <= 0x4000_0000_0000_0000_0000_0000_0000_0000,
        d <= 0x4000_0000_0000_0000_0000_0000_0000_0000,
    ensures
        q == half_even(n as nat, d as nat),
{
    let q: u128 = n / d;
    let r: u128 = n % d;
    proof {
        assert(n / d <= n) by (nonlinear_arith)
            requires
                d > 0,
        ;
    }
    if 2 * r < d || (2 * r == d && q % 2 == 0) {
        q
    } else {
        q + 1
    }
}

/// The double or single precision number nearest to `n / d * 2^e`.
#[verifier::rlimit(60)]
pub fn round_to(n: u128, d: u128, e: i32, bits: u32) -> (x: Float)
    requires
        0 < d <= 0x1_0000_0000_0000_0000,
        n <= 0x400_0000_0000_0000_0000_0000_0000_0000,
        bits == DOUBLE || bits == SINGLE,
        -10_000 <= e <= 10_000,
    ensures
        x@ == nearest(n as nat, d as nat, e as int, bits as nat),
        x.mant <= 0x20_0000_0000_0000,
        x.mant <= pow2(bits as nat),
        n > 0 ==> x.mant >= pow2((bits - 1) as nat) && x.mant > 0 && e - 200 <= x.exp <= e + 200,
        n == 0 ==> x.exp == 0,
        forall|k: nat|
            n > 0 && n * #[trigger] pow2(k) >= pow2((bits - 1) as nat) * d ==> x.exp >= e - k,
        forall|k: nat| n > 0 && n * #[trigger] pow2(k) < pow2(bits as nat) * d ==> x.exp <= e - k,
        forall|k: nat|
            n > 0 && n < pow2(bits as nat) * #[trigger] pow2(k) * d ==> x.exp <= e + k,
{
    if n == 0 {
        return Float { mant: 0, exp: 0 };
    }
    proof {
        pow2_53();
    }
    let most: u128 = if bits == DOUBLE {
        0x20_0000_0000_0000
    } else {
        0x100_0000
    };
    let least: u128 = most / 2;
    let mut top: u128 = n;
    let mut exp: i32 = e;
    let ghost want = nearest(n as nat, d as nat, e as int, bits as nat);
    let mut steps: u32 = 0;
    proof {
        assert(least * d <= 0x10_0000_0000_0000_0000_0000_0000_0000 * 0x10) by (nonlinear_arith)
            requires
                least <= 0x10_0000_0000_0000,
                0 < d <= 0x1_0000_0000_0000_0000,
        ;
        assert(most * d <= 0x10_0000_0000_0000_0000_0000_0000_0000 * 0x20) by (nonlinear_arith)
            requires
                most <= 0x20_0000_0000_0000,
                0 < d <= 0x1_0000_0000_0000_0000,
        ;
        assert(most * d >= 2 * d) by (nonlinear_arith)
            requires
                most >= 2,
                0 < d,
        ;
        assert(least * d >= d) by (nonlinear_arith)
            requires
                least >= 1,
                0 < d,
        ;
        vstd::arithmetic::power2::lemma2_to64();
    }
    let low: u128 = least * d;
    while top < low
        invariant
            0 < top,
            top <= 0x400_0000_0000_0000_0000_0000_0000_0000,
            low <= 0x100_0000_0000_0000_0000_0000_0000_0000,
            0 < d,
            0 < bits,
            low == pow2((bits - 1) as nat) * d,
            exp == e - steps,
            -10_000 <= e <= 10_000,
            steps <= 200,
            top == n * pow2(steps as nat),
            pow2(steps as nat) <= top,
            steps > 0 ==> n * pow2((steps - 1) as nat) < low,
            steps > 0 ==> top < 2 * low,
            want == grown(top as nat, d as nat, exp as int, bits as nat),
        decreases 2 * low - top,
    {
        proof {
            steps_bound(top as nat, steps as nat);
            lemma_pow2_unfold((steps + 1) as nat);
            let p = pow2(steps as nat);
            assert(n * (2 * p) == 2 * (n * p)) by (nonlinear_arith);
        }
        top = 2 * top;
        exp = exp - 1;
        steps = steps + 1;
    }
    proof {
        let p = pow2((bits - 1) as nat);
        lemma_pow2_unfold(bits as nat);
        assert((2 * p) * d == 2 * (p * d)) by (nonlinear_arith);
        let t = pow2(0);
        vstd::arithmetic::power2::lemma2_to64();
        assert(d * t == d) by (nonlinear_arith)
            requires
                t == 1,
        ;
    }
    let mut ups: u32 = 0;
    let mut bottom: u128 = d;
    let mut high: u128 = most * d;
    while top >= high
        invariant
            0 < bottom <= top,
            2 * bottom <= high,
            high == pow2(bits as nat) * bottom,
            high == 2 * (pow2((bits - 1) as nat) * bottom),
            pow2((bits - 1) as nat) * bottom <= top,
            bottom == d * pow2(ups as nat),
            2 * low <= high,
            steps > 0 ==> top < 2 * low,
            ups > 0 ==> steps == 0,
            ups > 0 ==> top >= pow2(bits as nat) * (d * pow2((ups - 1) as nat)),
            high <= 0x1000_0000_0000_0000_0000_0000_0000_0000,
            top <= 0x400_0000_0000_0000_0000_0000_0000_0000,
            0 < bits,
            exp == e - steps + ups,
            -10_000 <= e <= 10_000,
            steps <= 200,
            ups <= 200,
            pow2(ups as nat) <= bottom,
            want == shrunk(top as nat, bottom as nat, exp as int, bits as nat),
        decreases 0x1000_0000_0000_0000_0000_0000_0000_0000 - high,
    {
        proof {
            steps_bound(bottom as nat, ups as nat);
            let p = pow2(bits as nat);
            assert(p * (2 * bottom) == 2 * (p * bottom)) by (nonlinear_arith);
            let h = pow2((bits - 1) as nat);
            assert(h * (2 * bottom) == 2 * (h * bottom)) by (nonlinear_arith);
            lemma_pow2_unfold((ups + 1) as nat);
            let q = pow2(ups as nat);
            assert(d * (2 * q) == 2 * (d * q)) by (nonlinear_arith);
        }
        bottom = 2 * bottom;
        high = 2 * high;
        exp = exp + 1;
        ups = ups + 1;
    }
    proof {
        half_even_bound(top as nat, bottom as nat, bits as nat);
        assert(top / bottom >= 1) by (nonlinear_arith)
            requires
                0 < bottom <= top,
        ;
        let h = pow2((bits - 1) as nat) as int;
        assert(top as int / bottom as int >= h) by (nonlinear_arith)
            requires
                0 < bottom,
                h * bottom <= top,
        ;
        exponent_bounds(n as nat, d as nat, bits as nat, steps as nat, ups as nat);
    }
    let mant: u128 = round_half_even(top, bottom);
    Float { mant: mant as u64, exp }
}

/// Whether a number is one of double precision.
pub open spec fn is_double(x: Float) -> bool {
    x.mant <= 0x20_0000_0000_0000 && -1_074 <= x.exp <= 971
}

/// The limits within which the executable operations work.
pub open spec fn in_range(x: Float) -> bool {
    x.mant <= 0x20_0000_0000_0000 && -1_100 <= x.exp <= 1_000
}

impl Float {
    /// The number nearest to an integer.
    pub fn from_u64(n: u64, bits: u32) -> (x: Float)
        requires
            bits == DOUBLE || bits == SINGLE,
        ensures
            x@ == float_of(n as nat, bits as nat),
            x.mant <= 0x20_0000_0000_0000,
            -64 <= x.exp <= 64,
            n > 0 ==> x.mant >= pow2((bits - 1) as nat) && x.mant > 0 && x.exp > -(bits as int),
            n == 0 ==> x.exp == 0,
            x.mant <= pow2(bits as nat),
            forall|k: nat|
                n > 0 && n * #[trigger] pow2(k) >= pow2((bits - 1) as nat) ==> x.exp >= -k,
            forall|k: nat| n > 0 && n * #[trigger] pow2(k) < pow2(bits as nat) ==> x.exp <= -k,
            forall|k: nat| n > 0 && n < pow2(bits as nat) * #[trigger] pow2(k) ==> x.exp <= k,
    {
        let x = round_to(n as u128, 1, 0, bits);
        proof {
            let k = (bits - 1) as nat;
            assert(n > 0 ==> n * pow2(k) >= pow2(k) * 1) by {
                let p = pow2(k);
                assert(n > 0 ==> n * p >= p) by (nonlinear_arith);
            }
            vstd::arithmetic::power2::lemma2_to64();
            lemma_pow2_pos(bits as nat);
            let q = pow2(bits as nat);
            assert(n < q * pow2(64) * 1) by {
                let t = pow2(64);
                assert(q * t >= t) by (nonlinear_arith)
                    requires
                        q >= 1,
                ;
            }
        }
        x
    }

    /// The quotient of two numbers.
    pub fn div(self, other: Float, bits: u32) -> (x: Float)
        requires
            bits == DOUBLE || bits == SINGLE,
            in_range(self),
            in_range(other),
            other.mant > 0,
        ensures
            x@ == float_div(self@, other@, bits as nat),
            x.mant <= 0x20_0000_0000_0000,
            self.mant > 0 ==> x.mant > 0 && self.exp - other.exp - 200 <= x.exp <= self.exp
                - other.exp + 200,
            self.mant == 0 ==> x.exp == 0 && x.mant == 0,
            forall|k: nat|
                self.mant > 0 && self.mant * #[trigger] pow2(k) >= pow2((bits - 1) as nat)
                    * other.mant ==> x.exp >= self.exp - other.exp - k,
            self.mant > 0 && self.mant < pow2(bits as nat) * other.mant ==> x.exp <= self.exp
                - other.exp,
            forall|k: nat|
                self.mant > 0 && self.mant * #[trigger] pow2(k) < pow2(bits as nat) * other.mant
                    ==> x.exp <= self.exp - other.exp - k,
    {
        proof {
            vstd::arithmetic::power2::lemma2_to64();
            let (p, d) = (pow2(bits as nat), other.mant);
            let t = pow2(0);
            assert(p * t * d == p * d) by (nonlinear_arith)
                requires
                    t == 1,
            ;
        }
        round_to(self.mant as u128, other.mant as u128, self.exp - other.exp, bits)
    }

    /// The product of two numbers.
    pub fn times(self, other: Float, bits: u32) -> (x: Float)
        requires
            bits == DOUBLE || bits == SINGLE,
            in_range(self),
            in_range(other),
        ensures
            x@ == float_mul(self@, other@, bits as nat),
            x.mant <= 0x20_0000_0000_0000,
            self.mant > 0 && other.mant > 0 ==> self.exp + other.exp - 200 <= x.exp <= self.exp
                + other.exp + 200,
            self.mant == 0 || other.mant == 0 ==> x.exp == 0,
    {
        proof {
            let (a, b) = (self.mant, other.mant);
            assert(a * b <= 0x20_0000_0000_0000 * 0x20_0000_0000_0000) by (nonlinear_arith)
                requires
                    0 <= a <= 0x20_0000_0000_0000,
                    0 <= b <= 0x20_0000_0000_0000,
            ;
            assert(a > 0 && b > 0 ==> a * b > 0) by (nonlinear_arith);
            assert(a == 0 || b == 0 ==> a * b == 0) by (nonlinear_arith);
        }
        round_to(self.mant as u128 * other.mant as u128, 1, self.exp + other.exp, bits)
    }
}

impl Float {
    /// The sum of two numbers.
    pub fn plus(self, other: Float, bits: u32) -> (x: Float)
        requires
            bits == DOUBLE || bits == SINGLE,
            in_range(self),
            in_range(other),
            -120 <= self.exp - other.exp <= 120,
            self.mant == 0 || self.exp - other.exp <= 64,
            other.mant == 0 || other.exp - self.exp <= 64,
        ensures
            x@ == float_add(self@, other@, bits as nat),
            x.mant <= 0x20_0000_0000_0000,
            self.mant > 0 || other.mant > 0 ==> x.mant > 0,
            x.exp == 0 || self.exp - 200 <= x.exp <= self.exp + 200 || other.exp - 200 <= x.exp
                <= other.exp + 200,
    {
        let e: i32 = if self.exp < other.exp {
            self.exp
        } else {
            other.exp
        };
        let p = two_to((self.exp - e) as u32);
        let q = two_to((other.exp - e) as u32);
        proof {
            shift_bound(self.mant as nat, (self.exp - e) as nat);
            shift_bound(other.mant as nat, (other.exp - e) as nat);
            let (a, b) = (self.mant, other.mant);
            assert(a > 0 ==> a * p > 0) by (nonlinear_arith)
                requires
                    p > 0,
            ;
            assert(b > 0 ==> b * q > 0) by (nonlinear_arith)
                requires
                    q > 0,
            ;
        }
        let n: u128 = self.mant as u128 * p + other.mant as u128 * q;
        round_to(n, 1, e, bits)
    }
}

proof fn shift_bound(m: nat, k: nat)
    requires
        m <= 0x20_0000_0000_0000,
        m == 0 || k <= 64,
    ensures
        m * pow2(k) <= 0x20_0000_0000_0000 * 0x1_0000_0000_0000_0000,
{
    let p = pow2(k);
    if m == 0 {
        assert(0 * p == 0) by (nonlinear_arith);
    } else {
        vstd::arithmetic::power2::lemma2_to64();
        pow2_monotone(k, 64);
        assert(m * p <= 0x20_0000_0000_0000 * 0x1_0000_0000_0000_0000) by (nonlinear_arith)
            requires
                m <= 0x20_0000_0000_0000,
                p <= 0x1_0000_0000_0000_0000,
        ;
    }
}

/// A time span in seconds (`Duration::as_secs_f64`, `Duration::as_secs_f32`).
pub fn seconds(nanos: u64, bits: u32) -> (x: Float)
    requires
        bits == DOUBLE || bits == SINGLE,
    ensures
        x@ == seconds_of(nanos as nat, bits as nat),
        x.mant <= 0x20_0000_0000_0000,
        -400 <= x.exp <= 400,
        nanos > 0 ==> x.mant > 0,
{
    let whole = Float::from_u64(nanos / 1_000_000_000, bits);
    let part = Float::from_u64(nanos % 1_000_000_000, bits);
    let billion = Float::from_u64(1_000_000_000, bits);
    let fraction = part.div(billion, bits);
    proof {
        pow2_53();
        vstd::arithmetic::power2::lemma2_to64();
        let secs = nanos / 1_000_000_000;
        if bits == DOUBLE {
            let (p, q) = (pow2(18) as int, pow2(23) as int);
            let s = secs as int;
            assert(s * p < 0x20_0000_0000_0000) by (nonlinear_arith)
                requires
                    0 <= s <= 18_446_744_073,
                    p == 0x4_0000,
            ;
            assert(1_000_000_000 * q < 0x20_0000_0000_0000) by (nonlinear_arith)
                requires
                    q == 0x80_0000,
            ;
            assert(1_000_000_000nat * pow2(23) < pow2(53));
            assert(secs > 0 ==> whole.exp <= -18);
            assert(billion.exp <= -23);
            assert(1_000_000_000nat * pow2(23) >= pow2(52));
            assert(billion.exp >= -23);
            let r = (nanos % 1_000_000_000) as int;
            assert(r * q < 0x20_0000_0000_0000) by (nonlinear_arith)
                requires
                    0 <= r < 1_000_000_000,
                    q == 0x80_0000,
            ;
            assert(r > 0 ==> part.exp <= -23);
        } else {
            let (p, q, r) = (pow2(24) as int, pow2(11) as int, pow2(6) as int);
            assert(p * q == 0x8_0000_0000 && p * r == 0x4000_0000) by (nonlinear_arith)
                requires
                    p == 0x100_0000,
                    q == 0x800,
                    r == 0x40,
            ;
            assert(secs > 0 ==> whole.exp <= 11);
            assert(billion.exp <= 6);
            assert(1_000_000_000nat * pow2(0) >= pow2(23));
            assert(billion.exp >= 0);
            assert(nanos % 1_000_000_000 > 0 ==> part.exp <= 6);
        }
        let (m, d, h, p) = (
            part.mant as int,
            billion.mant as int,
            pow2((bits - 1) as nat) as int,
            pow2(bits as nat) as int,
        );
        if part.mant > 0 {
            assert(m * p >= h * d) by (nonlinear_arith)
                requires
                    m >= h,
                    p >= d,
                    h >= 0,
                    d >= 0,
            ;
            assert(fraction.exp >= part.exp - billion.exp - bits);
            assert(m < p * d) by (nonlinear_arith)
                requires
                    m <= p,
                    d >= 2,
                    p > 0,
            ;
            assert(fraction.exp <= part.exp - billion.exp);
        }
    }
    whole.plus(fraction, bits)
}

/// Two to the power of `k`.
fn two_to(k: u32) -> (p: u128)
    requires
        k <= 120,
    ensures
        p == pow2(k as nat),
        p > 0,
        p <= 0x100_0000_0000_0000_0000_0000_0000_0000,
{
    let mut p: u128 = 1;
    proof {
        vstd::arithmetic::power2::lemma2_to64();
        pow2_at_most(k as nat);
    }
    for i in 0..k
        invariant
            k <= 120,
            p == pow2(i as nat),
            p > 0,
    {
        proof {
            pow2_at_most(i as nat);
            lemma_pow2_unfold((i + 1) as nat);
        }
        p = 2 * p;
    }
    p
}

proof fn pow2_at_most(k: nat)
    requires
        k <= 120,
    ensures
        pow2(k) <= 0x100_0000_0000_0000_0000_0000_0000_0000,
{
    vstd::arithmetic::power2::lemma2_to64();
    lemma_pow2_adds(64, 56);
    assert(pow2(56) == 0x100_0000_0000_0000) by {
        lemma_pow2_adds(32, 24);
    }
    if k < 120 {
        vstd::arithmetic::power2::lemma_pow2_strictly_increases(k, 120);
    }
}

/// Beyond a few bits the power of two exceeds any 64-bit number.
proof fn pow2_beyond(k: nat)
    requires
        k >= 65,
    ensures
        pow2(k) > 0x1_0000_0000_0000_0000,
{
    vstd::arithmetic::power2::lemma2_to64();
    vstd::arithmetic::power2::lemma_pow2_strictly_increases(64, k);
}

/// The integer part as `u64`, or the largest one where it is larger.
pub open spec fn float_to_u64(x: FloatModel) -> u64 {
    if float_floor(x) > u64::MAX {
        u64::MAX
    } else {
        float_floor(x) as u64
    }
}

impl Float {
    /// The integer part, at most `u64::MAX`.
    pub fn to_u64(self) -> (n: u64)
        ensures
            n == float_to_u64(self@),
    {
        if self.mant == 0 {
            proof {
                if self.exp >= 0 {
                    let p = pow2(self.exp as nat);
                    assert(0 * p == 0);
                } else {
                    let p = pow2((-self.exp) as nat);
                    lemma_pow2_pos((-self.exp) as nat);
                    assert(0nat / p == 0) by (nonlinear_arith)
                        requires
                            p > 0,
                    ;
                }
            }
            return 0;
        }
        if self.exp >= 64 {
            proof {
                let p = pow2(self.exp as nat);
                let m = self.mant;
                vstd::arithmetic::power2::lemma2_to64();
                if self.exp > 64 {
                    pow2_beyond(self.exp as nat);
                }
                assert(m * p >= p) by (nonlinear_arith)
                    requires
                        m >= 1,
                        p >= 0,
                ;
            }
            return u64::MAX;
        }
        if self.exp >= 0 {
            let p = two_to(self.exp as u32);
            proof {
                vstd::arithmetic::power2::lemma2_to64();
                if self.exp < 64 {
                    vstd::arithmetic::power2::lemma_pow2_strictly_increases(self.exp as nat, 64);
                }
                let m = self.mant;
                assert(m * p <= 0x1_0000_0000_0000_0000 * 0xffff_ffff_ffff_ffff)
                    by (nonlinear_arith)
                    requires
                        0 <= m <= 0xffff_ffff_ffff_ffff,
                        0 <= p <= 0x1_0000_0000_0000_0000,
                ;
            }
            let v: u128 = self.mant as u128 * p;
            return if v > u64::MAX as u128 {
                u64::MAX
            } else {
                v as u64
            };
        }
        if self.exp < -64 {
            proof {
                let k = (-(self.exp as int)) as nat;
                pow2_beyond(k);
                let p = pow2(k);
                let m = self.mant as int;
                assert(m / p as int == 0) by (nonlinear_arith)
                    requires
                        0 <= m < p,
                ;
            }
            return 0;
        }
        let p = two_to((-self.exp) as u32);
        proof {
            let m = self.mant as int;
            assert(m / p as int <= m) by (nonlinear_arith)
                requires
                    0 <= m,
                    p > 0,
            ;
        }
        (self.mant as u128 / p) as u64
    }

    /// Whether the number is greater than one.
    pub fn above_one(self) -> (r: bool)
        ensures
            r == exceeds_one(self@),
    {
        if self.exp >= 0 {
            proof {
                let p = pow2(self.exp as nat);
                lemma_pow2_pos(self.exp as nat);
                vstd::arithmetic::power2::lemma2_to64();
                if self.exp > 0 {
                    pow2_monotone(1, self.exp as nat);
                }
                let m = self.mant;
                assert(m >= 2 ==> m * p > 1) by (nonlinear_arith)
                    requires
                        p >= 1,
                ;
                assert(m == 1 ==> m * p == p) by (nonlinear_arith);
                assert(m == 0 ==> m * p == 0) by (nonlinear_arith);
            }
            self.mant >= 2 || (self.mant == 1 && self.exp > 0)
        } else if self.exp <= -64 {
            proof {
                vstd::arithmetic::power2::lemma2_to64();
                pow2_monotone(64, (-(self.exp as int)) as nat);
            }
            false
        } else {
            self.mant as u128 > two_to((-self.exp) as u32)
        }
    }

    /// The number times `tens`, rounded to an integer, ties to even.
    pub fn fixed(self, tens: u64) -> (n: u64)
        requires
            self.mant <= 0x20_0000_0000_0000,
            self.exp <= 3,
            0 < tens <= 100,
        ensures
            n == float_fixed(self@, tens as nat),
            n <= 0x20_0000_0000_0000 * 800,
    {
        proof {
            let (a, b) = (self.mant as int, tens as int);
            assert(a * b <= 0x20_0000_0000_0000 * 100) by (nonlinear_arith)
                requires
                    0 <= a <= 0x20_0000_0000_0000,
                    0 < b <= 100,
            ;
        }
        let m: u128 = self.mant as u128 * tens as u128;
        if self.exp >= 0 {
            let p = two_to(self.exp as u32);
            proof {
                vstd::arithmetic::power2::lemma2_to64();
                assert(p == 1 || p == 2 || p == 4 || p == 8);
                let v = m as int;
                assert(v * p <= v * 8) by (nonlinear_arith)
                    requires
                        0 <= v,
                        0 <= p <= 8,
                ;
            }
            return (m * p) as u64;
        }
        if self.exp < -120 {
            proof {
                let k = (-(self.exp as int)) as nat;
                vstd::arithmetic::power2::lemma2_to64();
                lemma_pow2_adds(64, 1);
                vstd::arithmetic::power2::lemma_pow2_strictly_increases(65, k);
                let p = pow2(k) as int;
                let v = m as int;
                assert(v / p == 0 && v % p == v) by (nonlinear_arith)
                    requires
                        0 <= v < p,
                ;
            }
            return 0;
        }
        let p = two_to((-self.exp) as u32);
        let n: u128 = round_half_even(m, p);
        proof {
            let v = m as int;
            assert(v / p as int <= v) by (nonlinear_arith)
                requires
                    0 <= v,
                    p > 0,
            ;
        }
        n as u64
    }
}

/// A number below 2^63 has an integer part that fits into 64 bits.
pub proof fn floor_fits(x: Float)
    requires
        x.mant <= 0x20_0000_0000_0000,
        x.exp <= 10,
    ensures
        float_floor(x@) <= u64::MAX,
        float_to_u64(x@) == float_floor(x@),
{
    let m = x.mant as int;
    if x.exp >= 0 {
        let p = pow2(x.exp as nat) as int;
        vstd::arithmetic::power2::lemma2_to64();
        pow2_monotone(x.exp as nat, 10);
        assert(m * p <= 0x20_0000_0000_0000 * 0x400) by (nonlinear_arith)
            requires
                0 <= m <= 0x20_0000_0000_0000,
                0 <= p <= 0x400,
        ;
    } else {
        let p = pow2((-(x.exp as int)) as nat) as int;
        lemma_pow2_pos((-(x.exp as int)) as nat);
        assert(m / p <= m) by (nonlinear_arith)
            requires
                0 <= m,
                p >= 1,
        ;
    }
}

impl Float {
    /// A number of seconds in minutes or hours.
    pub fn in_units(self, unit: u64) -> (x: Float)
        requires
            in_range(self),
            unit == 60 || unit == 3600,
        ensures
            x@ == float_div(self@, float_of(unit as nat, 53), 53),
            x.mant <= 0x20_0000_0000_0000,
            self.mant > 0 ==> x.exp <= self.exp - 4,
            self.mant == 0 ==> x.exp == 0,
    {
        let b = Float::from_u64(unit, DOUBLE);
        proof {
            pow2_53();
            vstd::arithmetic::power2::lemma2_to64();
            lemma_pow2_adds(32, 15);
            lemma_pow2_adds(32, 19);
            let (p, q, r) = (pow2(47) as int, pow2(51) as int, pow2(53) as int);
            assert(p == 0x8000_0000_0000 && q == 0x8_0000_0000_0000);
            let u = unit as int;
            assert(u * p >= 0x10_0000_0000_0000) by (nonlinear_arith)
                requires
                    u >= 60,
                    p == 0x8000_0000_0000,
            ;
            assert(b.exp >= -47);
            let (x, y) = (self.mant as int, b.mant as int);
            assert(x * q < r * y) by (nonlinear_arith)
                requires
                    0 <= x <= 0x20_0000_0000_0000,
                    q == 0x8_0000_0000_0000,
                    r == 0x20_0000_0000_0000,
                    y >= 0x10_0000_0000_0000,
            ;
        }
        self.div(b, DOUBLE)
    }
}

/// The remainder of a division by an integer.
pub open spec fn float_mod(x: FloatModel, k: nat) -> FloatModel {
    if x.exp >= 0 {
        FloatModel { mant: x.mant * pow2(x.exp as nat) % k, exp: 0 }
    } else {
        FloatModel { mant: x.mant % (k * pow2((-x.exp) as nat)), exp: x.exp }
    }
}

impl Float {
    /// The remainder of a division by an integer.
    pub fn modulo(self, k: u64) -> (x: Float)
        requires
            in_range(self),
            0 < k <= 3600,
        ensures
            x@ == float_mod(self@, k as nat),
            x.mant <= 0x20_0000_0000_0000,
            x.exp == (if self.exp < 0 {
                self.exp
            } else {
                0
            }),
    {
        if self.exp >= 0 {
            let mut n: u64 = self.mant % k;
            let mut i: i32 = 0;
            proof {
                vstd::arithmetic::power2::lemma2_to64();
                assert(self.mant * pow2(0) == self.mant);
            }
            while i < self.exp
                invariant
                    0 <= i <= self.exp <= 1_000,
                    0 < k <= 3600,
                    n < k,
                    n == (self.mant * pow2(i as nat)) % (k as int),
                decreases self.exp - i,
            {
                proof {
                    let (m, p, d) = (self.mant as int, pow2(i as nat) as int, k as int);
                    lemma_pow2_unfold((i + 1) as nat);
                    vstd::arithmetic::div_mod::lemma_mul_mod_noop_right(2, m * p, d);
                    assert(2 * (m * p) == m * (2 * p)) by (nonlinear_arith);
                }
                n = 2 * n % k;
                i = i + 1;
            }
            Float { mant: n, exp: 0 }
        } else if self.exp < -64 {
            proof {
                let e = (-(self.exp as int)) as nat;
                pow2_beyond(e);
                let (p, m, q) = (pow2(e) as int, self.mant as int, k as int);
                assert(q * p >= p) by (nonlinear_arith)
                    requires
                        q >= 1,
                        p >= 0,
                ;
                let d = q * p;
                assert(m % d == m) by (nonlinear_arith)
                    requires
                        0 <= m < d,
                ;
            }
            self
        } else {
            let p = two_to((-self.exp) as u32);
            proof {
                vstd::arithmetic::power2::lemma2_to64();
                pow2_monotone((-(self.exp as int)) as nat, 64);
                let q = k as int;
                assert(0 < q * p <= 3600 * 0x1_0000_0000_0000_0000) by (nonlinear_arith)
                    requires
                        0 < q <= 3600,
                        0 < p <= 0x1_0000_0000_0000_0000,
                ;
                let (m, d) = (self.mant as int, q * p);
                assert(0 <= m % d <= m) by (nonlinear_arith)
                    requires
                        0 <= m,
                        0 < d,
                ;
            }
            let n: u128 = self.mant as u128 % (k as u128 * p);
            Float { mant: n as u64, exp: self.exp }
        }
    }
}

/// Decimal notation with `places` places of the number whose digits are those of `n`.
pub open spec fn fixed_notation(n: nat, places: nat) -> Seq<char> {
    if places == 0 {
        decimal(n)
    } else if places == 1 {
        decimal(n / 10).push('.').push(digit_char((n % 10) as int))
    } else {
        decimal(n / 100).push('.').push(digit_char((n / 10 % 10) as int)).push(
            digit_char((n % 10) as int),
        )
    }
}

/// Ten to the power of `places`.
pub open spec fn tens(places: nat) -> nat {
    if places == 0 {
        1
    } else if places == 1 {
        10
    } else {
        100
    }
}

/// What `{:.places}` writes for the number.
pub open spec fn float_notation(x: FloatModel, places: nat) -> Seq<char> {
    fixed_notation(float_fixed(x, tens(places)), places)
}

impl Float {
    /// Decimal notation with up to two places.
    pub fn notation(self, places: u8) -> (out: Vec<char>)
        requires
            self.mant <= 0x20_0000_0000_0000,
            self.exp <= 3,
            places <= 2,
        ensures
            out@ == float_notation(self@, places as nat),
    {
        if places == 0 {
            let n = self.fixed(1);
            decimal_chars(n)
        } else if places == 1 {
            let n = self.fixed(10);
            let mut out = decimal_chars(n / 10);
            out.push('.');
            out.push(digit_for(n % 10));
            out
        } else {
            let n = self.fixed(100);
            let mut out = decimal_chars(n / 100);
            out.push('.');
            out.push(digit_for(n / 10 % 10));
            out.push(digit_for(n % 10));
            out
        }
    }
}

/// A number of units, computed in double precision, in decimal notation.
pub open spec fn units_notation(n: nat, unit: nat, places: nat) -> Seq<char> {
    float_notation(float_div(float_of(n, 53), float_of(unit, 53), 53), places)
}

/// A number of units of 2^10, 2^20 or 2^30 in decimal notation.
pub fn units_text(n: u64, unit: u64, places: u8) -> (out: Vec<char>)
    requires
        unit == 0x400 || unit == 0x10_0000 || unit == 0x4000_0000,
        places <= 2,
    ensures
        out@ == units_notation(n as nat, unit as nat, places as nat),
{
    let a = Float::from_u64(n, DOUBLE);
    let b = Float::from_u64(unit, DOUBLE);
    proof {
        pow2_53();
        vstd::arithmetic::power2::lemma2_to64();
        lemma_pow2_adds(32, 10);
        lemma_pow2_adds(32, 19);
        let (p, q, r, t) = (
            pow2(42) as int,
            pow2(51) as int,
            pow2(53) as int,
            pow2(11) as int,
        );
        let u = unit as int;
        assert(p == 0x400_0000_0000 && q == 0x8_0000_0000_0000 && t == 0x800);
        assert(u * p >= 0x10_0000_0000_0000) by (nonlinear_arith)
            requires
                u >= 0x400,
                p == 0x400_0000_0000,
        ;
        assert(b.exp >= -42);
        assert(r * t == 0x1_0000_0000_0000_0000) by (nonlinear_arith)
            requires
                r == 0x20_0000_0000_0000,
                t == 0x800,
        ;
        assert(n > 0 ==> a.exp <= 11);
        let (x, y) = (a.mant as int, b.mant as int);
        assert(x * q < r * y) by (nonlinear_arith)
            requires
                0 <= x <= 0x20_0000_0000_0000,
                q == 0x8_0000_0000_0000,
                r == 0x20_0000_0000_0000,
                y >= 0x10_0000_0000_0000,
        ;
    }
    a.div(b, DOUBLE).notation(places)
}

/// `part / whole * 100` in double precision.
pub open spec fn percent_float(part: nat, whole: nat) -> FloatModel {
    float_mul(
        float_div(float_of(part, 53), float_of(whole, 53), 53),
        float_of(100, 53),
        53,
    )
}

/// The percentage that `part` is of `whole`, computed in double precision, cut to an integer of at
/// most 255.
pub open spec fn percent_of(part: nat, whole: nat) -> u8 {
    let p = float_floor(percent_float(part, whole));
    if p > 255 {
        255
    } else {
        p as u8
    }
}

/// The percentage that `part` is of `whole`.
pub fn percent(part: u64, whole: u64) -> (p: u8)
    requires
        whole > 0,
    ensures
        p == percent_of(part as nat, whole as nat),
{
    let a = Float::from_u64(part, DOUBLE);
    let b = Float::from_u64(whole, DOUBLE);
    let q = a.div(b, DOUBLE);
    let h = Float::from_u64(100, DOUBLE);
    let x = q.times(h, DOUBLE);
    let n = x.to_u64();
    if n > 255 {
        255
    } else {
        n as u8
    }
}

/// What the counts of doublings say about the quotient.
proof fn exponent_bounds(n: nat, d: nat, bits: nat, steps: nat, ups: nat)
    requires
        n > 0,
        d > 0,
        bits > 0,
        steps > 0 ==> n * pow2((steps - 1) as nat) < pow2((bits - 1) as nat) * d,
        n * pow2(steps) >= pow2((bits - 1) as nat) * d,
        ups > 0 ==> n * pow2(steps) >= pow2(bits) * (d * pow2((ups - 1) as nat)),
        n * pow2(steps) < pow2(bits) * (d * pow2(ups)),
        ups > 0 ==> steps == 0,
    ensures
        forall|k: nat| n * #[trigger] pow2(k) >= pow2((bits - 1) as nat) * d ==> ups - steps >= -k,
        forall|k: nat| n * #[trigger] pow2(k) < pow2(bits) * d ==> ups - steps <= -k,
        forall|k: nat| n < pow2(bits) * #[trigger] pow2(k) * d ==> ups - steps <= k,
{
    assert forall|k: nat|
        n * #[trigger] pow2(k) >= pow2((bits - 1) as nat) * d implies ups - steps >= -k by {
        if steps > k {
            pow2_monotone(k, (steps - 1) as nat);
            let (p, q) = (pow2(k), pow2((steps - 1) as nat));
            assert(n * p <= n * q) by (nonlinear_arith)
                requires
                    p <= q,
            ;
        }
    }
    assert forall|k: nat| n * #[trigger] pow2(k) < pow2(bits) * d implies ups - steps <= -k by {
        lemma_pow2_unfold(bits);
        let h = pow2((bits - 1) as nat);
        if ups > 0 {
            lemma_pow2_pos((ups - 1) as nat);
            lemma_pow2_pos(k);
            vstd::arithmetic::power2::lemma2_to64();
            let (p, q, r) = (pow2(k), pow2((ups - 1) as nat), pow2(bits));
            assert(n * p >= n) by (nonlinear_arith)
                requires
                    p >= 1,
            ;
            assert(r * (d * q) >= r * d) by (nonlinear_arith)
                requires
                    q >= 1,
            ;
            let t = pow2(steps);
            assert(n * t == n) by (nonlinear_arith)
                requires
                    t == 1,
            ;
            assert(false);
        }
        if steps < k {
            pow2_monotone(steps + 1, k);
            lemma_pow2_unfold(steps + 1);
            let (p, q) = (pow2(k), pow2(steps));
            assert(n * p >= 2 * (n * q)) by (nonlinear_arith)
                requires
                    p >= 2 * q,
            ;
            assert(2 * h * d == 2 * (h * d)) by (nonlinear_arith);
        }
    }
    assert forall|k: nat| n < pow2(bits) * #[trigger] pow2(k) * d implies ups - steps <= k by {
        if ups > k {
            pow2_monotone(k, (ups - 1) as nat);
            vstd::arithmetic::power2::lemma2_to64();
            let (p, q, r) = (pow2(k), pow2((ups - 1) as nat), pow2(bits));
            assert(r * p * d <= r * (d * q)) by (nonlinear_arith)
                requires
                    p <= q,
            ;
            let t = pow2(steps);
            assert(n * t == n) by (nonlinear_arith)
                requires
                    t == 1,
            ;
        }
    }
}

proof fn pow2_monotone(a: nat, b: nat)
    requires
        a <= b,
    ensures
        pow2(a) <= pow2(b),
{
    if a < b {
        vstd::arithmetic::power2::lemma_pow2_strictly_increases(a, b);
    }
}

proof fn steps_bound(n: nat, steps: nat)
    requires
        pow2(steps) <= n,
        n <= 0x1000_0000_0000_0000_0000_0000_0000_0000,
    ensures
        pow2(steps + 1) <= 2 * n,
        steps < 200,
{
    lemma_pow2_unfold(steps + 1);
    if steps >= 200 {
        vstd::arithmetic::power2::lemma2_to64();
        lemma_pow2_adds(64, 64);
        assert(pow2(128) == 0x1_0000_0000_0000_0000_0000_0000_0000_0000);
        lemma_pow2_adds(128, (steps - 128) as nat);
        lemma_pow2_pos((steps - 128) as nat);
        let p = pow2((steps - 128) as nat);
        assert(0x1_0000_0000_0000_0000_0000_0000_0000_0000 * p
            >= 0x1_0000_0000_0000_0000_0000_0000_0000_0000) by (nonlinear_arith)
            requires
                p >= 1,
        ;
    }
}

// ---------------------------------------------------------------------------
// Laws

/// Growing a numerator step by step doubles it as often.
proof fn grown_by(n: nat, d: nat, e: int, bits: nat, k: nat)
    requires
        n > 0,
        d > 0,
        bits > 0,
        k > 0 ==> n * pow2((k - 1) as nat) < pow2((bits - 1) as nat) * d,
    ensures
        grown(n, d, e, bits) == grown(n * pow2(k), d, e - k, bits),
    decreases k,
{
    lemma_pow2_pos(k);
    if k == 0 {
        vstd::arithmetic::power2::lemma2_to64();
    } else {
        let p = pow2((k - 1) as nat);
        lemma_pow2_pos((k - 1) as nat);
        lemma_pow2_unfold(k);
        assert(n <= n * p) by (nonlinear_arith)
            requires
                p >= 1,
        ;
        if k > 1 {
            lemma_pow2_unfold((k - 1) as nat);
            let q = pow2((k - 2) as nat);
            assert(2 * n * q == n * (2 * q)) by (nonlinear_arith);
        }
        grown_by(2 * n, d, e - 1, bits, (k - 1) as nat);
        assert(2 * n * p == n * (2 * p)) by (nonlinear_arith);
    }
}

/// Shrinking a quotient step by step doubles the denominator as often.
proof fn shrunk_by(n: nat, d: nat, e: int, bits: nat, k: nat)
    requires
        d > 0,
        bits > 0,
        k > 0 ==> n >= pow2(bits) * (d * pow2((k - 1) as nat)),
    ensures
        shrunk(n, d, e, bits) == shrunk(n, d * pow2(k), e + k, bits),
    decreases k,
{
    lemma_pow2_pos(k);
    if k == 0 {
        vstd::arithmetic::power2::lemma2_to64();
    } else {
        let p = pow2((k - 1) as nat);
        let b = pow2(bits);
        lemma_pow2_pos((k - 1) as nat);
        lemma_pow2_pos(bits);
        lemma_pow2_unfold(k);
        assert(b * d <= b * (d * p)) by (nonlinear_arith)
            requires
                p >= 1,
                b >= 1,
        ;
        if k > 1 {
            lemma_pow2_unfold((k - 1) as nat);
            let q = pow2((k - 2) as nat);
            assert(2 * d * q == d * (2 * q)) by (nonlinear_arith);
        }
        shrunk_by(n, 2 * d, e + 1, bits, (k - 1) as nat);
        assert(2 * d * p == d * (2 * p)) by (nonlinear_arith);
    }
}

proof fn shrunk_is_positive(n: nat, d: nat, e: int, bits: nat)
    requires
        d > 0,
        bits > 0,
        n >= pow2((bits - 1) as nat) * d,
    ensures
        shrunk(n, d, e, bits).mant > 0,
    decreases n - d,
{
    let h = pow2((bits - 1) as nat);
    lemma_pow2_unfold(bits);
    lemma_pow2_pos((bits - 1) as nat);
    if n < pow2(bits) * d {
        assert(n / d >= 1) by (nonlinear_arith)
            requires
                d > 0,
                n >= h * d,
                h >= 1,
        ;
    } else {
        assert(h * (2 * d) == 2 * h * d) by (nonlinear_arith);
        assert(2 * h * d >= 2 * d) by (nonlinear_arith)
            requires
                h >= 1,
        ;
        shrunk_is_positive(n, 2 * d, e + 1, bits);
    }
}

proof fn grown_is_positive(n: nat, d: nat, e: int, bits: nat)
    requires
        n > 0,
        d > 0,
        bits > 0,
    ensures
        grown(n, d, e, bits).mant > 0,
    decreases up_to(pow2((bits - 1) as nat) * d, n),
{
    if n < pow2((bits - 1) as nat) * d {
        grown_is_positive(2 * n, d, e - 1, bits);
    } else {
        shrunk_is_positive(n, d, e, bits);
    }
}

proof fn equal_numbers_divide_to_one(m: nat)
    requires
        m > 0,
    ensures
        nearest(m, m, 0, 53) == (FloatModel { mant: 0x10_0000_0000_0000, exp: -52 }),
{
    pow2_53();
    vstd::arithmetic::power2::lemma2_to64();
    lemma_pow2_adds(32, 19);
    let h: nat = 0x10_0000_0000_0000;
    assert(pow2(51) == 0x8_0000_0000_0000);
    assert(m * 0x8_0000_0000_0000 < h * m);
    grown_by(m, m, 0, 53, 52);
    assert(m * h >= h * m && m * h < 0x20_0000_0000_0000 * m) by (nonlinear_arith)
        requires
            m > 0,
            h == 0x10_0000_0000_0000,
    ;
    assert((m * h) / m == h && (m * h) % m == 0) by (nonlinear_arith)
        requires
            m > 0,
    ;
}

proof fn a_hundred()
    ensures
        float_of(100, 53) == (FloatModel { mant: 100 * 0x4000_0000_0000, exp: -46 }),
{
    pow2_53();
    vstd::arithmetic::power2::lemma2_to64();
    lemma_pow2_adds(32, 13);
    lemma_pow2_adds(32, 14);
    grown_by(100, 1, 0, 53, 46);
}

proof fn one_times_a_hundred()
    ensures
        nearest(0x10_0000_0000_0000 * (100 * 0x4000_0000_0000), 1, -98, 53) == (FloatModel {
            mant: 100 * 0x4000_0000_0000,
            exp: -46,
        }),
{
    pow2_53();
    vstd::arithmetic::power2::lemma2_to64();
    lemma_pow2_adds(32, 19);
    assert(pow2(51) == 0x8_0000_0000_0000);
    let top: nat = 0x10_0000_0000_0000 * (100 * 0x4000_0000_0000);
    shrunk_by(top, 1, -98, 53, 52);
}

/// What is complete is a hundred percent.
pub proof fn complete_is_a_hundred_percent(n: nat)
    requires
        n > 0,
    ensures
        percent_of(n, n) == 100,
{
    let x = float_of(n, 53);
    grown_is_positive(n, 1, 0, 53);
    equal_numbers_divide_to_one(x.mant);
    a_hundred();
    one_times_a_hundred();
    vstd::arithmetic::power2::lemma2_to64();
    lemma_pow2_adds(32, 14);
    assert(pow2(46) == 0x4000_0000_0000);
    let p = percent_float(n, n);
    assert(p.mant == 100 * 0x4000_0000_0000 && p.exp == -46);
    assert((-p.exp) as nat == 46nat);
    assert(float_floor(p) == 100);
}

/// Whether `n1 / d1 * 2^e1` is at most `n2 / d2 * 2^e2`, for exponents of at least `-k`.
spec fn ratio_le(n1: nat, d1: nat, e1: int, n2: nat, d2: nat, e2: int, k: int) -> bool {
    (n1 * d2) * pow2((e1 + k) as nat) <= (n2 * d1) * pow2((e2 + k) as nat)
}

proof fn half_even_is_monotone(n1: nat, d1: nat, n2: nat, d2: nat)
    requires
        d1 > 0,
        d2 > 0,
        n1 * d2 <= n2 * d1,
    ensures
        half_even(n1, d1) <= half_even(n2, d2),
{
    let (q1, r1, q2, r2) = (n1 / d1, n1 % d1, n2 / d2, n2 % d2);
    vstd::arithmetic::div_mod::lemma_fundamental_div_mod(n1 as int, d1 as int);
    vstd::arithmetic::div_mod::lemma_fundamental_div_mod(n2 as int, d2 as int);
    assert(n1 == d1 * q1 + r1 && n2 == d2 * q2 + r2);
    assert(q1 <= q2) by (nonlinear_arith)
        requires
            n1 == d1 * q1 + r1,
            n2 == d2 * q2 + r2,
            0 <= r1 < d1,
            0 <= r2 < d2,
            n1 * d2 <= n2 * d1,
    ;
    if q1 == q2 {
        assert(r1 * d2 <= r2 * d1) by (nonlinear_arith)
            requires
                n1 == d1 * q1 + r1,
                n2 == d2 * q1 + r2,
                n1 * d2 <= n2 * d1,
        ;
        if 2 * r1 >= d1 {
            assert(2 * r2 >= d2) by (nonlinear_arith)
                requires
                    2 * r1 >= d1,
                    r1 * d2 <= r2 * d1,
                    d1 > 0,
                    d2 > 0,
            ;
        }
        if 2 * r1 > d1 {
            assert(2 * r2 > d2) by (nonlinear_arith)
                requires
                    2 * r1 > d1,
                    r1 * d2 <= r2 * d1,
                    d1 > 0,
                    d2 > 0,
            ;
        }
    }
}

/// The quotient that is rounded: its parts are those of the ratio, doubled `r.0` and `r.1` times.
proof fn shrunk_form(n: nat, d: nat, e: int, bits: nat) -> (j: nat)
    requires
        d > 0,
        bits > 0,
        n >= pow2((bits - 1) as nat) * d,
    ensures
        ({
            let b = d * pow2(j);
            &&& b > 0
            &&& pow2((bits - 1) as nat) * b <= n < pow2(bits) * b
            &&& shrunk(n, d, e, bits) == (FloatModel { mant: half_even(n, b), exp: e + j })
        }),
    decreases n - d,
{
    let h = pow2((bits - 1) as nat);
    lemma_pow2_unfold(bits);
    lemma_pow2_pos((bits - 1) as nat);
    vstd::arithmetic::power2::lemma2_to64();
    if n < pow2(bits) * d {
        assert(d * pow2(0) == d);
        0
    } else {
        assert(h * (2 * d) == 2 * h * d) by (nonlinear_arith);
        assert(2 * h * d >= 2 * d) by (nonlinear_arith)
            requires
                h >= 1,
        ;
        let j = shrunk_form(n, 2 * d, e + 1, bits);
        let p = pow2(j);
        lemma_pow2_unfold(j + 1);
        assert(2 * d * p == d * (2 * p)) by (nonlinear_arith);
        j + 1
    }
}

proof fn grown_form(n: nat, d: nat, e: int, bits: nat) -> (r: (nat, nat))
    requires
        n > 0,
        d > 0,
        bits > 0,
    ensures
        ({
            let (a, b) = (n * pow2(r.0), d * pow2(r.1));
            &&& b > 0
            &&& pow2((bits - 1) as nat) * b <= a < pow2(bits) * b
            &&& grown(n, d, e, bits) == (FloatModel {
                mant: half_even(a, b),
                exp: e - r.0 + r.1,
            })
        }),
    decreases up_to(pow2((bits - 1) as nat) * d, n),
{
    vstd::arithmetic::power2::lemma2_to64();
    if n < pow2((bits - 1) as nat) * d {
        let r = grown_form(2 * n, d, e - 1, bits);
        let p = pow2(r.0);
        lemma_pow2_unfold(r.0 + 1);
        assert(2 * n * p == n * (2 * p)) by (nonlinear_arith);
        (r.0 + 1, r.1)
    } else {
        let j = shrunk_form(n, d, e, bits);
        assert(n * pow2(0) == n);
        (0, j)
    }
}

/// Whether a number is at most another.
pub open spec fn float_le(a: FloatModel, b: FloatModel) -> bool {
    if a.exp <= b.exp {
        a.mant <= b.mant * pow2((b.exp - a.exp) as nat)
    } else {
        a.mant * pow2((a.exp - b.exp) as nat) <= b.mant
    }
}

/// Doubling parts of a ratio and shifting its exponent back leaves its order as it is.
proof fn ratio_le_scaled(
    n1: nat,
    d1: nat,
    e1: int,
    n2: nat,
    d2: nat,
    e2: int,
    k: int,
    r1: (nat, nat),
    r2: (nat, nat),
)
    requires
        0 <= e1 + k,
        0 <= e2 + k,
        ratio_le(n1, d1, e1, n2, d2, e2, k),
    ensures
        ratio_le(
            n1 * pow2(r1.0),
            d1 * pow2(r1.1),
            e1 - r1.0 + r1.1,
            n2 * pow2(r2.0),
            d2 * pow2(r2.1),
            e2 - r2.0 + r2.1,
            k + r1.0 + r2.0,
        ),
{
    let s: nat = r1.1 + r2.1 + r1.0 + r2.0;
    let (p1, q1, p2, q2) = (pow2(r1.0), pow2(r1.1), pow2(r2.0), pow2(r2.1));
    let x1 = (e1 + r1.1 + r2.0 + k) as nat;
    let x2 = (e2 + r2.1 + r1.0 + k) as nat;
    let (t1, t2) = ((e1 + k) as nat, (e2 + k) as nat);
    // Both sides are scaled by two to the power of `s`.
    scaled_side(n1, d2, r1.0, r2.1, x1, t1, s);
    scaled_side(n2, d1, r2.0, r1.1, x2, t2, s);
    let (u, v, w) = ((n1 * d2) * pow2(t1), (n2 * d1) * pow2(t2), pow2(s));
    assert(u * w <= v * w) by (nonlinear_arith)
        requires
            u <= v,
    ;
}

proof fn scaled_side(n: nat, d: nat, i: nat, j: nat, x: nat, t: nat, s: nat)
    requires
        i + j + x == t + s,
    ensures
        ((n * pow2(i)) * (d * pow2(j))) * pow2(x) == ((n * d) * pow2(t)) * pow2(s),
{
    lemma_pow2_adds(i, j);
    lemma_pow2_adds(i + j, x);
    lemma_pow2_adds(t, s);
    let (a, b, c, y, z) = (pow2(i), pow2(j), pow2(x), pow2(t), pow2(s));
    assert(((n * a) * (d * b)) * c == (n * d) * ((a * b) * c)) by (nonlinear_arith);
    assert(((n * d) * y) * z == (n * d) * (y * z)) by (nonlinear_arith);
}

/// Rounding keeps the order.
proof fn nearest_is_monotone(
    n1: nat,
    d1: nat,
    e1: int,
    n2: nat,
    d2: nat,
    e2: int,
    bits: nat,
    k: int,
)
    requires
        n1 > 0,
        n2 > 0,
        d1 > 0,
        d2 > 0,
        bits > 0,
        0 <= e1 + k,
        0 <= e2 + k,
        ratio_le(n1, d1, e1, n2, d2, e2, k),
    ensures
        float_le(nearest(n1, d1, e1, bits), nearest(n2, d2, e2, bits)),
{
    let r1 = grown_form(n1, d1, e1, bits);
    let r2 = grown_form(n2, d2, e2, bits);
    let (a1, b1, x1) = (n1 * pow2(r1.0), d1 * pow2(r1.1), e1 - r1.0 + r1.1);
    let (a2, b2, x2) = (n2 * pow2(r2.0), d2 * pow2(r2.1), e2 - r2.0 + r2.1);
    let big = k + r1.0 + r2.0;
    ratio_le_scaled(n1, d1, e1, n2, d2, e2, k, r1, r2);
    let (u, v) = (a1 * b2, a2 * b1);
    let (y1, y2) = ((x1 + big) as nat, (x2 + big) as nat);
    let (f, g) = (pow2(bits), pow2((bits - 1) as nat));
    lemma_pow2_unfold(bits);
    lemma_pow2_pos(y1);
    lemma_pow2_pos(y2);
    lemma_pow2_pos((bits - 1) as nat);
    half_even_bound(a1, b1, bits);
    assert(half_even(a2, b2) >= g) by {
        assert(a2 / b2 >= g) by (nonlinear_arith)
            requires
                b2 > 0,
                a2 >= g * b2,
        ;
    }
    if x1 == x2 {
        let p = pow2(y1);
        assert(u <= v) by (nonlinear_arith)
            requires
                u * p <= v * p,
                p > 0,
        ;
        half_even_is_monotone(a1, b1, a2, b2);
        vstd::arithmetic::power2::lemma2_to64();
        let m = half_even(a2, b2);
        assert(m * pow2(0) == m);
    } else if x1 < x2 {
        let w = (x2 - x1) as nat;
        lemma_pow2_unfold(w);
        lemma_pow2_pos((w - 1) as nat);
        let (m1, m2, p) = (half_even(a1, b1), half_even(a2, b2), pow2(w));
        assert(m1 <= m2 * p) by (nonlinear_arith)
            requires
                m1 <= 2 * g,
                m2 >= g,
                p >= 2,
        ;
    } else {
        // The first ratio would be greater than the second.
        let w = (x1 - x2) as nat;
        lemma_pow2_adds(y2, w);
        lemma_pow2_unfold(w);
        lemma_pow2_pos((w - 1) as nat);
        let (p, q, s) = (pow2(y1), pow2(y2), pow2(w));
        assert(g * (b1 * b2) <= u) by (nonlinear_arith)
            requires
                g * b1 <= a1,
                u == a1 * b2,
        ;
        assert(v < 2 * (g * (b1 * b2))) by (nonlinear_arith)
            requires
                a2 < (2 * g) * b2,
                v == a2 * b1,
                b1 > 0,
        ;
        assert(p == q * s);
        assert(v * q < u * p) by (nonlinear_arith)
            requires
                v < 2 * u,
                p == q * s,
                s >= 2,
                q > 0,
                v >= 0,
        ;
    }
}

proof fn integers_keep_their_order(a: nat, b: nat, bits: nat)
    requires
        0 < a <= b,
        bits > 0,
    ensures
        float_le(float_of(a, bits), float_of(b, bits)),
{
    vstd::arithmetic::power2::lemma2_to64();
    assert((a * 1) * pow2(0) <= (b * 1) * pow2(0));
    nearest_is_monotone(a, 1, 0, b, 1, 0, bits, 0);
}

proof fn at_most_one(a: FloatModel, b: FloatModel)
    requires
        a.mant > 0,
        b.mant > 0,
        float_le(a, b),
    ensures
        float_le(float_div(a, b, 53), FloatModel { mant: 0x10_0000_0000_0000, exp: -52 }),
{
    vstd::arithmetic::power2::lemma2_to64();
    let e = a.exp - b.exp;
    let k = if e <= 0 {
        -e
    } else {
        0
    };
    let (m, n) = (a.mant, b.mant);
    assert(m * 1 == m && 1 * n == n);
    assert((m * 1) * pow2((e + k) as nat) <= (1 * n) * pow2(k as nat)) by {
        if e <= 0 {
            assert(m * pow2(0) == m);
        } else {
            assert(n * pow2(0) == n);
        }
    }
    nearest_is_monotone(a.mant, b.mant, e, 1, 1, 0, 53, k);
    equal_numbers_divide_to_one(1);
}

proof fn at_most_a_hundred(q: FloatModel)
    requires
        q.mant > 0,
        float_le(q, FloatModel { mant: 0x10_0000_0000_0000, exp: -52 }),
    ensures
        float_le(
            float_mul(q, float_of(100, 53), 53),
            FloatModel { mant: 100 * 0x4000_0000_0000, exp: -46 },
        ),
{
    let one: nat = 0x10_0000_0000_0000;
    let h: nat = 100 * 0x4000_0000_0000;
    a_hundred();
    one_times_a_hundred();
    vstd::arithmetic::power2::lemma2_to64();
    let m = q.mant;
    let (n1, n2) = (m * h, one * h);
    let (e1, e2) = (q.exp - 46, -98int);
    assert(n1 * 1 == n1 && n2 * 1 == n2);
    assert(n1 > 0) by (nonlinear_arith)
        requires
            m > 0,
            h > 0,
            n1 == m * h,
    ;
    if q.exp <= -52 {
        let p = pow2((-52 - q.exp) as nat);
        assert(n1 <= n2 * p) by (nonlinear_arith)
            requires
                m <= one * p,
                n1 == m * h,
                n2 == one * h,
        ;
        assert(n1 * pow2(0) == n1);
        nearest_is_monotone(n1, 1, e1, n2, 1, e2, 53, -e1);
    } else {
        let p = pow2((q.exp + 52) as nat);
        assert(n1 * p <= n2) by (nonlinear_arith)
            requires
                m * p <= one,
                n1 == m * h,
                n2 == one * h,
        ;
        assert(n2 * pow2(0) == n2);
        nearest_is_monotone(n1, 1, e1, n2, 1, e2, 53, 98);
    }
}

proof fn floor_of_at_most_a_hundred(x: FloatModel)
    requires
        float_le(x, FloatModel { mant: 100 * 0x4000_0000_0000, exp: -46 }),
    ensures
        float_floor(x) <= 100,
{
    vstd::arithmetic::power2::lemma2_to64();
    lemma_pow2_adds(32, 14);
    let c: nat = 0x4000_0000_0000;
    assert(pow2(46) == c);
    let m = x.mant;
    if x.exp >= 0 {
        let p = pow2(x.exp as nat);
        lemma_pow2_adds(x.exp as nat, 46);
        assert(m * p <= 100) by (nonlinear_arith)
            requires
                m * (p * c) <= 100 * c,
                c > 0,
        ;
    } else {
        let e = (-x.exp) as nat;
        let p = pow2(e);
        lemma_pow2_pos(e);
        assert(m <= 100 * p) by {
            if x.exp <= -46 {
                let q = pow2((e - 46) as nat);
                lemma_pow2_adds((e - 46) as nat, 46);
                assert(100 * c * q == 100 * (q * c)) by (nonlinear_arith);
            } else {
                let q = pow2((46 - e) as nat);
                lemma_pow2_adds((46 - e) as nat, e);
                lemma_pow2_pos((46 - e) as nat);
                assert(m <= 100 * p) by (nonlinear_arith)
                    requires
                        m * q <= 100 * (q * p),
                        q > 0,
                ;
            }
        }
        assert(m / p <= 100) by (nonlinear_arith)
            requires
                m <= 100 * p,
                p > 0,
        ;
    }
}

/// A part is never more than a hundred percent of the whole.
pub proof fn parts_are_at_most_a_hundred_percent(part: nat, whole: nat)
    requires
        part <= whole,
        whole > 0,
    ensures
        percent_of(part, whole) <= 100,
{
    vstd::arithmetic::power2::lemma2_to64();
    let (a, b) = (float_of(part, 53), float_of(whole, 53));
    if part == 0 {
        nothing_is_zero_percent(whole);
    } else {
        grown_is_positive(part, 1, 0, 53);
        grown_is_positive(whole, 1, 0, 53);
        integers_keep_their_order(part, whole, 53);
        at_most_one(a, b);
        let q = float_div(a, b, 53);
        grown_is_positive(a.mant, b.mant, a.exp - b.exp, 53);
        at_most_a_hundred(q);
        floor_of_at_most_a_hundred(percent_float(part, whole));
    }
}

/// A number as a multiple of two to the power of `-k`, where it is one.
spec fn scaled(x: FloatModel, k: int) -> nat {
    x.mant * pow2((x.exp + k) as nat)
}

/// Whether a scale is fine enough for a number.
spec fn is_scale(x: FloatModel, k: int) -> bool {
    0 <= x.exp + k
}

proof fn le_scaled(a: FloatModel, b: FloatModel, k: int)
    requires
        is_scale(a, k),
        is_scale(b, k),
    ensures
        float_le(a, b) == (scaled(a, k) <= scaled(b, k)),
{
    let (m, n) = (a.mant, b.mant);
    if a.exp <= b.exp {
        let (t, w) = ((a.exp + k) as nat, (b.exp - a.exp) as nat);
        lemma_pow2_adds(t, w);
        lemma_pow2_pos(t);
        let (p, q) = (pow2(t), pow2(w));
        assert(n * (p * q) == (n * q) * p) by (nonlinear_arith);
        assert((m <= n * q) == (m * p <= (n * q) * p)) by (nonlinear_arith)
            requires
                p > 0,
        ;
    } else {
        let (t, w) = ((b.exp + k) as nat, (a.exp - b.exp) as nat);
        lemma_pow2_adds(t, w);
        lemma_pow2_pos(t);
        let (p, q) = (pow2(t), pow2(w));
        assert(m * (p * q) == (m * q) * p) by (nonlinear_arith);
        assert((m * q <= n) == ((m * q) * p <= n * p)) by (nonlinear_arith)
            requires
                p > 0,
        ;
    }
}

proof fn floor_scaled(x: FloatModel, k: int)
    requires
        is_scale(x, k),
        k >= 0,
    ensures
        float_floor(x) == scaled(x, k) / pow2(k as nat),
{
    let m = x.mant;
    lemma_pow2_pos(k as nat);
    if x.exp >= 0 {
        lemma_pow2_adds(x.exp as nat, k as nat);
        let (p, q) = (pow2(x.exp as nat), pow2(k as nat));
        assert(m * (p * q) == (m * p) * q) by (nonlinear_arith);
        assert(((m * p) * q) / q == m * p) by (nonlinear_arith)
            requires
                q > 0,
        ;
    } else {
        let (e, t) = ((-x.exp) as nat, (x.exp + k) as nat);
        lemma_pow2_adds(e, t);
        lemma_pow2_pos(e);
        lemma_pow2_pos(t);
        let (p, q) = (pow2(e) as int, pow2(t) as int);
        vstd::arithmetic::div_mod::lemma_div_multiples_vanish_quotient(q, m as int, p);
        assert(q * m == m * q && q * p == p * q) by (nonlinear_arith);
    }
}

proof fn floor_is_monotone(a: FloatModel, b: FloatModel)
    requires
        float_le(a, b),
    ensures
        float_floor(a) <= float_floor(b),
{
    let k = scale_for(a, b);
    le_scaled(a, b, k);
    floor_scaled(a, k);
    floor_scaled(b, k);
    lemma_pow2_pos(k as nat);
    vstd::arithmetic::div_mod::lemma_div_is_ordered(
        scaled(a, k) as int,
        scaled(b, k) as int,
        pow2(k as nat) as int,
    );
}

/// A scale that is fine enough for two numbers.
spec fn scale_for(a: FloatModel, b: FloatModel) -> int {
    let x = if a.exp < 0 {
        -a.exp
    } else {
        0
    };
    let y = if b.exp < 0 {
        -b.exp
    } else {
        0
    };
    x + y
}

proof fn div_is_monotone(a: FloatModel, b: FloatModel, by: FloatModel)
    requires
        a.mant > 0,
        b.mant > 0,
        by.mant > 0,
        float_le(a, b),
    ensures
        float_le(float_div(a, by, 53), float_div(b, by, 53)),
{
    let k = scale_for(a, b);
    le_scaled(a, b, k);
    let (x, y, d) = (a.mant, b.mant, by.mant);
    let (p, q) = (pow2((a.exp + k) as nat), pow2((b.exp + k) as nat));
    assert((x * d) * p <= (y * d) * q) by (nonlinear_arith)
        requires
            x * p <= y * q,
    ;
    nearest_is_monotone(x, d, a.exp - by.exp, y, d, b.exp - by.exp, 53, k + by.exp);
}

proof fn mul_is_monotone(a: FloatModel, b: FloatModel, by: FloatModel)
    requires
        a.mant > 0,
        b.mant > 0,
        by.mant > 0,
        float_le(a, b),
    ensures
        float_le(float_mul(a, by, 53), float_mul(b, by, 53)),
{
    let k = scale_for(a, b);
    le_scaled(a, b, k);
    let (x, y, d) = (a.mant, b.mant, by.mant);
    let (p, q) = (pow2((a.exp + k) as nat), pow2((b.exp + k) as nat));
    assert(((x * d) * 1) * p <= ((y * d) * 1) * q) by (nonlinear_arith)
        requires
            x * p <= y * q,
    ;
    assert(x * d > 0 && y * d > 0) by (nonlinear_arith)
        requires
            x > 0,
            y > 0,
            d > 0,
    ;
    nearest_is_monotone(x * d, 1, a.exp + by.exp, y * d, 1, b.exp + by.exp, 53, k - by.exp);
}

/// Nothing is no percent of anything.
pub proof fn nothing_is_zero_percent(whole: nat)
    requires
        whole > 0,
    ensures
        percent_of(0, whole) == 0,
{
    let h = float_of(100, 53).mant;
    assert(0 * h == 0) by (nonlinear_arith);
    assert(percent_float(0, whole) == (FloatModel { mant: 0, exp: 0 }));
    assert(0 * pow2(0) == 0);
}

/// The percentage never goes down as the part grows.
pub proof fn percent_never_goes_down(part: nat, more: nat, whole: nat)
    requires
        part <= more,
        whole > 0,
    ensures
        percent_of(part, whole) <= percent_of(more, whole),
{
    if part == 0 {
        nothing_is_zero_percent(whole);
    } else {
        let (a, b, w) = (float_of(part, 53), float_of(more, 53), float_of(whole, 53));
        let h = float_of(100, 53);
        grown_is_positive(part, 1, 0, 53);
        grown_is_positive(more, 1, 0, 53);
        grown_is_positive(whole, 1, 0, 53);
        grown_is_positive(100, 1, 0, 53);
        integers_keep_their_order(part, more, 53);
        div_is_monotone(a, b, w);
        grown_is_positive(a.mant, w.mant, a.exp - w.exp, 53);
        grown_is_positive(b.mant, w.mant, b.exp - w.exp, 53);
        mul_is_monotone(float_div(a, w, 53), float_div(b, w, 53), h);
        floor_is_monotone(percent_float(part, whole), percent_float(more, whole));
    }
}

/// Rounding changes a ratio by less than one part in 2^53.
proof fn rounding_is_close(n: nat, d: nat, e: int, k: int)
    requires
        n > 0,
        d > 0,
        0 <= e + k,
        is_scale(nearest(n, d, e, 53), k),
    ensures
        ({
            let x = scaled(nearest(n, d, e, 53), k);
            let y = n * pow2((e + k) as nat);
            let m: nat = 0x20_0000_0000_0000;
            &&& (x * d) * m <= y * (m + 1)
            &&& (x * d) * m >= y * (m - 1)
        }),
{
    let r = grown_form(n, d, e, 53);
    let (i, j) = r;
    pow2_53();
    let m: nat = 0x20_0000_0000_0000;
    let (a, b) = (n * pow2(i), d * pow2(j));
    let h = half_even(a, b);
    vstd::arithmetic::div_mod::lemma_fundamental_div_mod(a as int, b as int);
    let (q, t) = (a / b, a % b);
    // The rounded quotient is off by at most one half, and the quotient is at least 2^52.
    assert(h == q ==> b * h == b * q);
    assert(h == q + 1 ==> b * h == b * q + b) by (nonlinear_arith);
    assert(h * b == b * h) by (nonlinear_arith);
    assert((h * b) * m <= a * (m + 1) && (h * b) * m >= a * (m - 1)) by {
        if h == q {
            assert(2 * t <= b);
        } else {
            assert(2 * t >= b);
        }
        assert(2 * (h * b) <= 2 * a + b && 2 * (h * b) + b >= 2 * a);
        assert(0x10_0000_0000_0000 * b <= a);
        let z = h * b;
        assert(z * m <= a * m + a && z * m + a >= a * m);
        assert(a * (m + 1) == a * m + a && a * (m - 1) == a * m - a) by (nonlinear_arith);
    }
    // Both sides are multiplied by the same power of two.
    let x = (e - i + j + k) as nat;
    let y = (e + k) as nat;
    lemma_pow2_adds(x, i);
    lemma_pow2_adds(y, j);
    lemma_pow2_pos(i);
    lemma_pow2_pos(y);
    let (pi, pj, px, py) = (pow2(i), pow2(j), pow2(x), pow2(y));
    assert(px * pi == py * pj);
    close_scaled(h, d, n, m, pi, pj, px, py);
}

proof fn close_scaled(h: nat, d: nat, n: nat, m: nat, pi: nat, pj: nat, px: nat, py: nat)
    requires
        px * pi == py * pj,
        pi > 0,
        m >= 1,
        (h * (d * pj)) * m <= (n * pi) * (m + 1),
        (h * (d * pj)) * m >= (n * pi) * (m - 1),
    ensures
        ((h * px) * d) * m <= (n * py) * (m + 1),
        ((h * px) * d) * m >= (n * py) * (m - 1),
{
    let z = (h * (d * pj)) * m;
    let left = ((h * px) * d) * m;
    assert(left * pi == z * py) by {
        assert(left * pi == (h * d * m) * (px * pi)) by (nonlinear_arith)
            requires
                left == ((h * px) * d) * m,
        ;
        assert(z * py == (h * d * m) * (py * pj)) by (nonlinear_arith)
            requires
                z == (h * (d * pj)) * m,
        ;
    }
    let (up, down) = ((n * py) * (m + 1), (n * py) * (m - 1));
    assert(up * pi == ((n * pi) * (m + 1)) * py) by (nonlinear_arith)
        requires
            up == (n * py) * (m + 1),
    ;
    assert(down * pi == ((n * pi) * (m - 1)) * py) by (nonlinear_arith)
        requires
            down == (n * py) * (m - 1),
    ;
    let (u, v) = ((n * pi) * (m + 1), (n * pi) * (m - 1));
    assert(z * py <= u * py && z * py >= v * py) by (nonlinear_arith)
        requires
            z <= u,
            z >= v,
            py >= 0,
    ;
    assert(left <= up && left >= down) by (nonlinear_arith)
        requires
            left * pi <= up * pi,
            left * pi >= down * pi,
            pi > 0,
    ;
}

/// What four roundings add to a share at most.
proof fn share_from_above(p: nat, q: nat, a: nat, b: nat, n: nat, w: nat, s: nat, m: nat)
    requires
        s > 0,
        m > 1,
        p * m <= (100 * q) * (m + 1),
        (q * b) * m <= (a * s) * (m + 1),
        a * m <= (n * s) * (m + 1),
        b * m >= (w * s) * (m - 1),
    ensures
        (p * w) * (m * m * (m - 1)) <= (100 * n * s) * ((m + 1) * (m + 1) * (m + 1)),
{
    let f = m + 1;
    let g = (m - 1) as nat;
    let bm = b * m;
    // p m * b m <= 100 f (q b m) <= 100 f (a s f)
    assert((p * m) * bm <= ((100 * q) * f) * bm) by (nonlinear_arith)
        requires
            p * m <= (100 * q) * f,
            bm >= 0,
    ;
    assert(((100 * q) * f) * bm == (100 * f) * ((q * b) * m)) by (nonlinear_arith)
        requires
            bm == b * m,
    ;
    let qbm = (q * b) * m;
    assert((100 * f) * qbm <= (100 * f) * ((a * s) * f)) by (nonlinear_arith)
        requires
            qbm <= (a * s) * f,
            f >= 0,
    ;
    // ... times m: a m <= n s f
    let am = a * m;
    assert(((100 * f) * ((a * s) * f)) * m == (100 * f * f * s) * am) by (nonlinear_arith)
        requires
            am == a * m,
    ;
    let c = 100 * f * f * s;
    assert(c * am <= c * ((n * s) * f)) by (nonlinear_arith)
        requires
            am <= (n * s) * f,
            c >= 0,
    ;
    let left = (p * m) * bm;
    let bound = (100 * f) * ((a * s) * f);
    assert(left * m <= bound * m) by (nonlinear_arith)
        requires
            left <= bound,
            m >= 0,
    ;
    let ws = (w * s) * g;
    assert((p * m) * ws <= left) by (nonlinear_arith)
        requires
            ws <= bm,
            left == (p * m) * bm,
            p * m >= 0,
    ;
    assert(((p * m) * ws) * m <= left * m) by (nonlinear_arith)
        requires
            (p * m) * ws <= left,
            m >= 0,
    ;
    let (x, y) = ((p * w) * (m * m * g), (100 * n * s) * (f * f * f));
    assert(((p * m) * ws) * m == x * s) by (nonlinear_arith)
        requires
            ws == (w * s) * g,
            x == (p * w) * (m * m * g),
    ;
    assert(c * ((n * s) * f) == y * s) by (nonlinear_arith)
        requires
            c == 100 * f * f * s,
            y == (100 * n * s) * (f * f * f),
    ;
    assert(x <= y) by (nonlinear_arith)
        requires
            x * s <= y * s,
            s > 0,
    ;
}

/// What four roundings take from a share at most.
proof fn share_from_below(p: nat, q: nat, a: nat, b: nat, n: nat, w: nat, s: nat, m: nat)
    requires
        s > 0,
        m > 1,
        p * m >= (100 * q) * (m - 1),
        (q * b) * m >= (a * s) * (m - 1),
        a * m >= (n * s) * (m - 1),
        b * m <= (w * s) * (m + 1),
    ensures
        (p * w) * (m * m * (m + 1)) >= (100 * n * s) * ((m - 1) * (m - 1) * (m - 1)),
{
    let f = m + 1;
    let g = (m - 1) as nat;
    let bm = b * m;
    assert((p * m) * bm >= ((100 * q) * g) * bm) by (nonlinear_arith)
        requires
            p * m >= (100 * q) * g,
            bm >= 0,
    ;
    assert(((100 * q) * g) * bm == (100 * g) * ((q * b) * m)) by (nonlinear_arith)
        requires
            bm == b * m,
    ;
    let qbm = (q * b) * m;
    assert((100 * g) * qbm >= (100 * g) * ((a * s) * g)) by (nonlinear_arith)
        requires
            qbm >= (a * s) * g,
            g >= 0,
    ;
    let am = a * m;
    assert(((100 * g) * ((a * s) * g)) * m == (100 * g * g * s) * am) by (nonlinear_arith)
        requires
            am == a * m,
    ;
    let c = 100 * g * g * s;
    assert(c * am >= c * ((n * s) * g)) by (nonlinear_arith)
        requires
            am >= (n * s) * g,
            c >= 0,
    ;
    let left = (p * m) * bm;
    let bound = (100 * g) * ((a * s) * g);
    assert(left * m >= bound * m) by (nonlinear_arith)
        requires
            left >= bound,
            m >= 0,
    ;
    let ws = (w * s) * f;
    assert((p * m) * ws >= left) by (nonlinear_arith)
        requires
            ws >= bm,
            left == (p * m) * bm,
            p * m >= 0,
    ;
    assert(((p * m) * ws) * m >= left * m) by (nonlinear_arith)
        requires
            (p * m) * ws >= left,
            m >= 0,
    ;
    let (x, y) = ((p * w) * (m * m * f), (100 * n * s) * (g * g * g));
    assert(((p * m) * ws) * m == x * s) by (nonlinear_arith)
        requires
            ws == (w * s) * f,
            x == (p * w) * (m * m * f),
    ;
    assert(c * ((n * s) * g) == y * s) by (nonlinear_arith)
        requires
            c == 100 * g * g * s,
            y == (100 * n * s) * (g * g * g),
    ;
    assert(x >= y) by (nonlinear_arith)
        requires
            x * s >= y * s,
            s > 0,
    ;
}

/// Bounds on a scaled share bound its integer part.
proof fn share_between(p: nat, n: nat, w: nat, s: nat)
    requires
        s > 0,
        0 < n <= w,
        ({
            let m: nat = 0x20_0000_0000_0000;
            &&& (p * w) * (m * m * (m - 1)) <= (100 * n * s) * ((m + 1) * (m + 1) * (m + 1))
            &&& (p * w) * (m * m * (m + 1)) >= (100 * n * s) * ((m - 1) * (m - 1) * (m - 1))
        }),
    ensures
        p / s <= (100 * n) / w + 1,
        p / s + 1 >= (100 * n) / w,
{
    let m: nat = 0x20_0000_0000_0000;
    let (c1, c2) = ((m + 1) * (m + 1) * (m + 1), m * m * (m - 1));
    let (c3, c4) = ((m - 1) * (m - 1) * (m - 1), m * m * (m + 1));
    assert(c1 == 0x8000000000000c00000000000060000000000001
        && c2 == 0x7ffffffffffffc00000000000000000000000000
        && c3 == 0x7ffffffffffff40000000000005fffffffffffff
        && c4 == 0x8000000000000400000000000000000000000000) by (nonlinear_arith)
        requires
            m == 0x20_0000_0000_0000,
            c1 == (m + 1) * (m + 1) * (m + 1),
            c2 == m * m * (m - 1),
            c3 == (m - 1) * (m - 1) * (m - 1),
            c4 == m * m * (m + 1),
    ;
    let t = 100 * n;
    let k = t / w;
    vstd::arithmetic::div_mod::lemma_fundamental_div_mod(t as int, w as int);
    let r = t % w;
    assert(t == w * k + r && r < w);
    assert(k <= 100) by (nonlinear_arith)
        requires
            t == w * k + r,
            r >= 0,
            t <= 100 * w,
            w > 0,
    ;
    // From above.
    assert(c1 * (k + 1) <= c2 * (k + 2));
    assert(t < (k + 1) * w) by (nonlinear_arith)
        requires
            t == w * k + r,
            r < w,
    ;
    assert(p < s * (k + 2)) by {
        assert((t * s) * c1 < (((k + 1) * w) * s) * c1) by (nonlinear_arith)
            requires
                t < (k + 1) * w,
                s > 0,
                c1 > 0,
        ;
        let (x, y) = (p * c2, (c1 * (k + 1)) * s);
        assert((((k + 1) * w) * s) * c1 == y * w) by (nonlinear_arith)
            requires
                y == (c1 * (k + 1)) * s,
        ;
        assert((p * w) * c2 == x * w) by (nonlinear_arith)
            requires
                x == p * c2,
        ;
        assert(x < y) by (nonlinear_arith)
            requires
                x * w < y * w,
                w > 0,
        ;
        let (u, v) = (c1 * (k + 1), c2 * (k + 2));
        assert(u * s <= v * s) by (nonlinear_arith)
            requires
                u <= v,
                s > 0,
        ;
        assert(v * s == (s * (k + 2)) * c2) by (nonlinear_arith)
            requires
                v == c2 * (k + 2),
        ;
        let z = s * (k + 2);
        assert(p < z) by (nonlinear_arith)
            requires
                p * c2 < z * c2,
                c2 > 0,
        ;
    }
    assert(p / s < k + 2) by (nonlinear_arith)
        requires
            p < s * (k + 2),
            s > 0,
    ;
    // From below.
    if k >= 1 {
        let l = (k - 1) as nat;
        assert(c3 * k >= c4 * l);
        assert(t >= k * w) by (nonlinear_arith)
            requires
                t == w * k + r,
                r >= 0,
        ;
        assert((t * s) * c3 >= ((k * w) * s) * c3) by (nonlinear_arith)
            requires
                t >= k * w,
                s > 0,
                c3 > 0,
        ;
        let (x, y) = (p * c4, (c3 * k) * s);
        assert(((k * w) * s) * c3 == y * w) by (nonlinear_arith)
            requires
                y == (c3 * k) * s,
        ;
        assert((p * w) * c4 == x * w) by (nonlinear_arith)
            requires
                x == p * c4,
        ;
        assert(x >= y) by (nonlinear_arith)
            requires
                x * w >= y * w,
                w > 0,
        ;
        let (u, v) = (c3 * k, c4 * l);
        assert(u * s >= v * s) by (nonlinear_arith)
            requires
                u >= v,
                s > 0,
        ;
        let z = s * l;
        assert(v * s == z * c4) by (nonlinear_arith)
            requires
                v == c4 * l,
                z == s * l,
        ;
        assert(p >= z) by (nonlinear_arith)
            requires
                p * c4 >= z * c4,
                c4 > 0,
        ;
        assert(p / s >= l) by (nonlinear_arith)
            requires
                p >= s * l,
                s > 0,
        ;
    }
}

/// The distance of an exponent from zero.
spec fn distance(e: int) -> int {
    if e < 0 {
        -e
    } else {
        e
    }
}

/// The percentage of a part differs by at most one from the exact share, cut to an integer.
pub proof fn percent_is_close(part: nat, whole: nat)
    requires
        part <= whole,
        whole > 0,
    ensures
        percent_of(part, whole) <= (100 * part) / whole + 1,
        percent_of(part, whole) + 1 >= (100 * part) / whole,
{
    if part == 0 {
        nothing_is_zero_percent(whole);
        assert((100 * part) / whole == 0);
    } else {
        let (a, b, h) = (float_of(part, 53), float_of(whole, 53), float_of(100, 53));
        let q = float_div(a, b, 53);
        let p = float_mul(q, h, 53);
        grown_is_positive(part, 1, 0, 53);
        grown_is_positive(whole, 1, 0, 53);
        grown_is_positive(a.mant, b.mant, a.exp - b.exp, 53);
        a_hundred();
        let k = distance(a.exp) + distance(b.exp) + distance(q.exp) + distance(p.exp) + 100;
        let s = pow2(k as nat);
        let m: nat = 0x20_0000_0000_0000;
        lemma_pow2_pos(k as nat);
        let (sa, sb, sq, sp) = (scaled(a, k), scaled(b, k), scaled(q, k), scaled(p, k));
        rounding_is_close(part, 1, 0, k);
        rounding_is_close(whole, 1, 0, k);
        assert(sa * 1 == sa && sb * 1 == sb);
        // The quotient.
        rounding_is_close(a.mant, b.mant, a.exp - b.exp, k);
        let t = (b.exp + k) as nat;
        let x = (a.exp - b.exp + k) as nat;
        lemma_pow2_adds(x, t);
        lemma_pow2_adds((a.exp + k) as nat, k as nat);
        lemma_pow2_pos(t);
        quotient_scaled(sq, a.mant, b.mant, m, pow2(x), pow2(t), pow2((a.exp + k) as nat), s);
        // The product.
        let hm: nat = 100 * 0x4000_0000_0000;
        let n = q.mant * hm;
        assert(n > 0) by (nonlinear_arith)
            requires
                q.mant > 0,
                hm > 0,
                n == q.mant * hm,
        ;
        rounding_is_close(n, 1, q.exp - 46, k);
        let y = (q.exp - 46 + k) as nat;
        lemma_pow2_adds(y, 46);
        vstd::arithmetic::power2::lemma2_to64();
        lemma_pow2_adds(32, 14);
        let (py, c) = (pow2(y), 0x4000_0000_0000nat);
        assert(pow2(46) == c);
        let qm = q.mant;
        assert((qm * (100 * c)) * py == 100 * (qm * (py * c))) by (nonlinear_arith);
        assert(sp * 1 == sp);
        share_from_above(sp, sq, sa, sb, part, whole, s, m);
        share_from_below(sp, sq, sa, sb, part, whole, s, m);
        share_between(sp, part, whole, s);
        floor_scaled(p, k);
        parts_are_at_most_a_hundred_percent(part, whole);
    }
}

proof fn quotient_scaled(x: nat, a: nat, b: nat, m: nat, px: nat, pt: nat, pa: nat, s: nat)
    requires
        px * pt == pa * s,
        m >= 1,
        (x * b) * m <= (a * px) * (m + 1),
        (x * b) * m >= (a * px) * (m - 1),
    ensures
        (x * (b * pt)) * m <= ((a * pa) * s) * (m + 1),
        (x * (b * pt)) * m >= ((a * pa) * s) * (m - 1),
{
    let z = (x * b) * m;
    assert((x * (b * pt)) * m == z * pt) by (nonlinear_arith)
        requires
            z == (x * b) * m,
    ;
    let (u, v) = ((a * px) * (m + 1), (a * px) * (m - 1));
    assert(z * pt <= u * pt && z * pt >= v * pt) by (nonlinear_arith)
        requires
            z <= u,
            z >= v,
            pt >= 0,
    ;
    let (f, g) = (m + 1, m - 1);
    assert(u * pt == (a * f) * (px * pt)) by (nonlinear_arith)
        requires
            u == (a * px) * f,
    ;
    assert(v * pt == (a * g) * (px * pt)) by (nonlinear_arith)
        requires
            v == (a * px) * g,
    ;
    assert((a * f) * (pa * s) == ((a * pa) * s) * f) by (nonlinear_arith);
    assert((a * g) * (pa * s) == ((a * pa) * s) * g) by (nonlinear_arith);
}

/// The share of a span that a part of a whole stands for, in double precision and cut to an integer.
pub open spec fn share_of(span: nat, part: nat, whole: nat) -> nat {
    float_floor(
        float_mul(float_of(span, 53), float_div(float_of(part, 53), float_of(whole, 53), 53), 53),
    )
}

/// No part has no share.
pub proof fn nothing_has_no_share(span: nat, whole: nat)
    requires
        whole > 0,
    ensures
        share_of(span, 0, whole) == 0,
{
    let h = float_of(span, 53).mant;
    assert(h * 0 == 0) by (nonlinear_arith);
    let x = float_div(float_of(0, 53), float_of(whole, 53), 53);
    assert(float_of(0, 53) == (FloatModel { mant: 0, exp: 0 }));
    assert(x == (FloatModel { mant: 0, exp: 0 }));
    assert(float_mul(float_of(span, 53), x, 53) == (FloatModel { mant: 0, exp: 0 }));
    assert(0 * pow2(0) == 0);
}

/// The share never goes down as the part grows.
pub proof fn share_never_goes_down(span: nat, part: nat, more: nat, whole: nat)
    requires
        span > 0,
        part <= more,
        whole > 0,
    ensures
        share_of(span, part, whole) <= share_of(span, more, whole),
{
    if part == 0 {
        nothing_has_no_share(span, whole);
    } else {
        let (a, b, w) = (float_of(part, 53), float_of(more, 53), float_of(whole, 53));
        let h = float_of(span, 53);
        grown_is_positive(part, 1, 0, 53);
        grown_is_positive(more, 1, 0, 53);
        grown_is_positive(whole, 1, 0, 53);
        grown_is_positive(span, 1, 0, 53);
        integers_keep_their_order(part, more, 53);
        div_is_monotone(a, b, w);
        grown_is_positive(a.mant, w.mant, a.exp - w.exp, 53);
        grown_is_positive(b.mant, w.mant, b.exp - w.exp, 53);
        let (x, y) = (float_div(a, w, 53), float_div(b, w, 53));
        mul_is_monotone(x, y, h);
        float_mul_commutes(x, h);
        float_mul_commutes(y, h);
        floor_is_monotone(float_mul(h, x, 53), float_mul(h, y, 53));
    }
}

proof fn float_mul_commutes(a: FloatModel, b: FloatModel)
    ensures
        float_mul(a, b, 53) == float_mul(b, a, 53),
{
    let (x, y) = (a.mant, b.mant);
    assert(x * y == y * x) by (nonlinear_arith);
}

/// The whole has the whole span as its share, for a span between sixteen and thirty-one.
pub proof fn whole_has_the_span(span: nat, whole: nat)
    requires
        16 <= span < 32,
        whole > 0,
    ensures
        share_of(span, whole, whole) == span,
{
    let h: nat = 0x10_0000_0000_0000;
    let c: nat = 0x1_0000_0000_0000;
    pow2_53();
    vstd::arithmetic::power2::lemma2_to64();
    lemma_pow2_adds(32, 16);
    lemma_pow2_adds(32, 15);
    lemma_pow2_adds(32, 19);
    assert(pow2(48) == c);
    assert(pow2(47) == 0x8000_0000_0000);
    assert(pow2(51) == 0x8_0000_0000_0000);
    grown_by(span, 1, 0, 53, 48);
    assert(float_of(span, 53) == (FloatModel { mant: span * c, exp: -48 }));
    let x = float_of(whole, 53);
    grown_is_positive(whole, 1, 0, 53);
    equal_numbers_divide_to_one(x.mant);
    let m = span * c;
    let top = m * h;
    assert(top / h == m && top % h == 0) by (nonlinear_arith)
        requires
            top == m * h,
            h > 0,
    ;
    assert(top >= 0x8_0000_0000_0000 * h) by (nonlinear_arith)
        requires
            top == m * h,
            m >= 0x10_0000_0000_0000,
            h > 0,
    ;
    shrunk_by(top, 1, -100, 53, 52);
    let p = float_mul(float_of(span, 53), FloatModel { mant: h, exp: -52 }, 53);
    assert(p == (FloatModel { mant: m, exp: -48 }));
    assert((-p.exp) as nat == 48nat);
    assert((span * c) / c == span) by (nonlinear_arith)
        requires
            c > 0,
    ;
}

/// A quotient that has few enough bits is not rounded.
proof fn exact_quotient(n: nat, d: nat, e: int, t: nat, q: nat) -> (s: nat)
    requires
        n > 0,
        d > 0,
        0 < q < 0x20_0000_0000_0000,
        n * pow2(t) == q * d,
    ensures
        grown(n, d, e, 53) == (FloatModel { mant: q * pow2(s), exp: e - t - s }),
    decreases up_to(pow2(52) * d, n),
{
    pow2_53();
    vstd::arithmetic::power2::lemma2_to64();
    let h: nat = 0x10_0000_0000_0000;
    if n < h * d {
        if t > 0 {
            lemma_pow2_unfold(t);
            let p = pow2((t - 1) as nat);
            assert(2 * n * p == n * (2 * p)) by (nonlinear_arith);
            exact_quotient(2 * n, d, e - 1, (t - 1) as nat, q)
        } else {
            times_one(n, pow2(t));
            assert(q < h) by (nonlinear_arith)
                requires
                    q * d < h * d,
                    d > 0,
            ;
            assert(2 * n * 1 == 2 * q * d) by (nonlinear_arith)
                requires
                    n == q * d,
            ;
            let s = exact_quotient(2 * n, d, e - 1, 0, 2 * q);
            lemma_pow2_unfold(s + 1);
            let p = pow2(s);
            assert(2 * q * p == q * (2 * p)) by (nonlinear_arith);
            s + 1
        }
    } else {
        if t > 0 {
            lemma_pow2_unfold(t);
            let p = pow2((t - 1) as nat);
            lemma_pow2_pos((t - 1) as nat);
            assert(n * (2 * p) >= 2 * n) by (nonlinear_arith)
                requires
                    p >= 1,
            ;
            assert(q * d >= 2 * (h * d));
            assert(q >= 2 * h) by (nonlinear_arith)
                requires
                    q * d >= 2 * (h * d),
                    d > 0,
            ;
        }
        times_one(n, pow2(t));
        assert(n < 0x20_0000_0000_0000 * d) by (nonlinear_arith)
            requires
                n == q * d,
                q < 0x20_0000_0000_0000,
                d > 0,
        ;
        assert(n / d == q && n % d == 0) by (nonlinear_arith)
            requires
                n == q * d,
                d > 0,
        ;
        times_one(q, pow2(0));
        0
    }
}

proof fn times_one(n: nat, one: nat)
    requires
        one == 1,
    ensures
        n * one == n,
{
}

/// A whole number of at most 53 bits is not rounded.
proof fn exact_number(n: nat) -> (s: nat)
    requires
        0 < n < 0x20_0000_0000_0000,
    ensures
        float_of(n, 53) == (FloatModel { mant: n * pow2(s), exp: -s }),
{
    vstd::arithmetic::power2::lemma2_to64();
    exact_quotient(n, 1, 0, 0, n)
}

proof fn exact_value(q: nat, s: nat)
    ensures
        float_floor(FloatModel { mant: q * pow2(s), exp: -s }) == q,
        float_fixed(FloatModel { mant: q * pow2(s), exp: -s }, 1) == q,
        float_fixed(FloatModel { mant: q * pow2(s), exp: -s }, 10) == 10 * q,
        float_fixed(FloatModel { mant: q * pow2(s), exp: -s }, 100) == 100 * q,
{
    vstd::arithmetic::power2::lemma2_to64();
    lemma_pow2_pos(s);
    let p = pow2(s);
    let m = q * p;
    let x = FloatModel { mant: m, exp: -s };
    if s == 0 {
        times_one(q, p);
        times_one(m, p);
        times_one(m * 1, p);
        times_one(m * 10, p);
        times_one(m * 100, p);
    } else {
        assert(m / p == q) by (nonlinear_arith)
            requires
                m == q * p,
                p > 0,
        ;
        whole_half_even(q, p, 1);
        whole_half_even(q, p, 10);
        whole_half_even(q, p, 100);
    }
}

proof fn whole_half_even(q: nat, p: nat, f: nat)
    requires
        p > 0,
    ensures
        half_even(q * p * f, p) == f * q,
{
    let n = q * p * f;
    assert(n == (f * q) * p) by (nonlinear_arith)
        requires
            n == q * p * f,
    ;
    let k = f * q;
    assert(n / p == k && n % p == 0) by (nonlinear_arith)
        requires
            n == k * p,
            p > 0,
    ;
}

/// A whole number is written as it is, and as many units as a size has of them.
pub proof fn whole_units_are_told(q: nat, unit: nat)
    requires
        q > 0,
        unit > 0,
        q * unit < 0x20_0000_0000_0000,
    ensures
        float_floor(float_of(q, 53)) == q,
        float_notation(float_of(q, 53), 0) == decimal(q),
        units_notation(q * unit, unit, 1) == decimal(q).push('.').push('0'),
        units_notation(q * unit, unit, 2) == decimal(q).push('.').push('0').push('0'),
{
    let n = q * unit;
    assert(n >= q && n >= unit) by (nonlinear_arith)
        requires
            n == q * unit,
            q > 0,
            unit > 0,
    ;
    let z = exact_number(q);
    exact_value(q, z);
    let i = exact_number(n);
    let j = exact_number(unit);
    let (a, b) = (n * pow2(i), unit * pow2(j));
    lemma_pow2_pos(i);
    lemma_pow2_pos(j);
    let (pi, pj) = (pow2(i), pow2(j));
    assert(a > 0 && b > 0) by (nonlinear_arith)
        requires
            a == n * pi,
            b == unit * pj,
            n > 0,
            unit > 0,
            pi > 0,
            pj > 0,
    ;
    let x = float_div(float_of(n, 53), float_of(unit, 53), 53);
    if i <= j {
        let t = (j - i) as nat;
        lemma_pow2_adds(i, t);
        let pt = pow2(t);
        assert(a * pt == q * b) by (nonlinear_arith)
            requires
                a == n * pi,
                b == unit * pj,
                n == q * unit,
                pi * pt == pj,
        ;
        let s = exact_quotient(a, b, t as int, t, q);
        assert(x == (FloatModel { mant: q * pow2(s), exp: -s }));
        exact_value(q, s);
    } else {
        // The quotient has the value of a multiple of the number.
        let t = (i - j) as nat;
        lemma_pow2_adds(j, t);
        let pt = pow2(t);
        lemma_pow2_pos(t);
        let big = q * pt;
        assert(a == big * b) by (nonlinear_arith)
            requires
                a == n * pi,
                b == unit * pj,
                n == q * unit,
                pj * pt == pi,
                big == q * pt,
        ;
        assert(big > 0) by (nonlinear_arith)
            requires
                big == q * pt,
                q > 0,
                pt > 0,
        ;
        mantissa_fits(n, i);
        assert(big < 0x20_0000_0000_0000) by (nonlinear_arith)
            requires
                a == big * b,
                b >= 1,
                a < 0x20_0000_0000_0000,
        ;
        vstd::arithmetic::power2::lemma2_to64();
        let s = exact_quotient(a, b, -t, 0, big);
        lemma_pow2_adds(t, s);
        let ps = pow2(s);
        assert(big * ps == q * (pt * ps)) by (nonlinear_arith)
            requires
                big == q * pt,
        ;
        assert(x == (FloatModel { mant: q * pow2(t + s), exp: -(t + s) }));
        exact_value(q, t + s);
    }
    assert((10 * q) / 10 == q && (10 * q) % 10 == 0);
    assert((100 * q) / 100 == q && (100 * q) / 10 % 10 == 0 && (100 * q) % 10 == 0);
    assert(digit_char(0) == '0');
}

proof fn mantissa_fits(n: nat, i: nat)
    requires
        0 < n < 0x20_0000_0000_0000,
        float_of(n, 53) == (FloatModel { mant: n * pow2(i), exp: -i }),
    ensures
        n * pow2(i) < 0x20_0000_0000_0000,
{
    mantissa_is_small(n, 0);
}

proof fn mantissa_is_small(n: nat, e: int)
    requires
        0 < n < 0x20_0000_0000_0000,
    ensures
        grown(n, 1, e, 53).mant < 0x20_0000_0000_0000,
    decreases up_to(pow2(52), n),
{
    pow2_53();
    if n < 0x10_0000_0000_0000 {
        mantissa_is_small(2 * n, e - 1);
    } else {
        assert(n / 1 == n && n % 1 == 0);
    }
}

/// The integer part of a quotient of whole numbers is that of the exact quotient.
pub proof fn quotients_are_cut(n: nat, d: nat)
    requires
        n < 0x10_0000_0000_0000,
        0 < d < 0x10_0000_0000_0000,
    ensures
        float_floor(float_div(float_of(n, 53), float_of(d, 53), 53)) == n / d,
{
    if n == 0 {
        vstd::arithmetic::power2::lemma2_to64();
        times_one(0, pow2(0));
        assert(float_of(0, 53) == (FloatModel { mant: 0 * pow2(0), exp: -0 }));
        cut_quotient(0, 0, d);
    } else {
        let i = exact_number(n);
        cut_quotient(n, i, d);
    }
}

/// The integer part of a quotient, whatever the exponent of the numerator.
proof fn cut_quotient(n: nat, i: nat, d: nat)
    requires
        n < 0x10_0000_0000_0000,
        0 < d < 0x10_0000_0000_0000,
    ensures
        float_floor(
            float_div(FloatModel { mant: n * pow2(i), exp: -i }, float_of(d, 53), 53),
        ) == n / d,
{
    let q = n / d;
    let x = float_div(FloatModel { mant: n * pow2(i), exp: -i }, float_of(d, 53), 53);
    if n == 0 {
        assert(0 * pow2(i) == 0) by (nonlinear_arith);
        assert(x == (FloatModel { mant: 0, exp: 0 }));
        vstd::arithmetic::power2::lemma2_to64();
        times_one(0, pow2(0));
        assert(0nat / d == 0) by (nonlinear_arith)
            requires
                d > 0,
        ;
    } else {
        let j = exact_number(d);
        let (a, b) = (n * pow2(i), d * pow2(j));
        lemma_pow2_pos(i);
        lemma_pow2_pos(j);
        let (pi, pj) = (pow2(i), pow2(j));
        assert(a > 0 && b > 0) by (nonlinear_arith)
            requires
                a == n * pi,
                b == d * pj,
                n > 0,
                d > 0,
                pi > 0,
                pj > 0,
        ;
        let e = j - i;
        let k: int = distance(x.exp) + i + j;
        rounding_is_close(a, b, e, k);
        floor_scaled(x, k);
        let sx = scaled(x, k);
        let m: nat = 0x20_0000_0000_0000;
        let pk = pow2(k as nat);
        let pe = pow2((e + k) as nat);
        lemma_pow2_pos(k as nat);
        lemma_pow2_adds(i, (e + k) as nat);
        lemma_pow2_adds(j, k as nat);
        assert(pi * pe == pj * pk);
        // Both sides have the factor of the denominator.
        let y = a * pe;
        assert(y == (n * pk) * pj) by (nonlinear_arith)
            requires
                y == (n * pi) * pe,
                pi * pe == pj * pk,
        ;
        let w = n * pk;
        close_cut(sx, b, d, pj, w, y, m);
        vstd::arithmetic::div_mod::lemma_fundamental_div_mod(n as int, d as int);
        assert(q * d == d * q) by (nonlinear_arith);
        cut_from_above(sx, n, d, q, pk, m);
        assert(sx / pk <= q) by (nonlinear_arith)
            requires
                sx < (q + 1) * pk,
                pk > 0,
        ;
        // Rounding keeps the order, and the integer part is not rounded.
        if q > 0 {
            let z = exact_number(q);
            exact_value(q, z);
            assert((q * b) * pk <= (a * 1) * pe) by (nonlinear_arith)
                requires
                    b == d * pj,
                    a * pe == (n * pk) * pj,
                    q * d <= n,
                    pj > 0,
                    pk > 0,
            ;
            nearest_is_monotone(q, 1, 0, a, b, e, 53, k);
            floor_is_monotone(float_of(q, 53), x);
        }
    }
}

proof fn cut_from_above(sx: nat, n: nat, d: nat, q: nat, pk: nat, m: nat)
    requires
        d > 0,
        pk > 0,
        n < d * q + d,
        d * q + d <= m,
        (sx * d) * m <= (n * pk) * (m + 1),
    ensures
        sx < (q + 1) * pk,
{
    if sx >= (q + 1) * pk {
        let top = d * q + d;
        assert((sx * d) * m >= (top * pk) * m) by (nonlinear_arith)
            requires
                sx >= (q + 1) * pk,
                top == d * q + d,
                d > 0,
                m >= 0,
        ;
        assert((n * pk) * (m + 1) <= ((top - 1) * pk) * (m + 1)) by (nonlinear_arith)
            requires
                n <= top - 1,
                pk > 0,
                m >= 0,
        ;
        assert(((top - 1) * pk) * (m + 1) < (top * pk) * m) by (nonlinear_arith)
            requires
                top <= m,
                pk > 0,
        ;
    }
}

proof fn close_cut(sx: nat, b: nat, d: nat, pj: nat, w: nat, y: nat, m: nat)
    requires
        b == d * pj,
        y == w * pj,
        pj > 0,
        (sx * b) * m <= y * (m + 1),
        (sx * b) * m >= y * (m - 1),
    ensures
        (sx * d) * m <= w * (m + 1),
        (sx * d) * m >= w * (m - 1),
{
    let (u, v) = ((sx * d) * m, w * (m + 1));
    let v2 = w * (m - 1);
    assert((sx * b) * m == u * pj) by (nonlinear_arith)
        requires
            u == (sx * d) * m,
            b == d * pj,
    ;
    let (f, g) = (m + 1, m - 1);
    assert(y * f == (w * f) * pj) by (nonlinear_arith)
        requires
            y == w * pj,
    ;
    assert(y * g == (w * g) * pj) by (nonlinear_arith)
        requires
            y == w * pj,
    ;
    assert(u <= v) by (nonlinear_arith)
        requires
            u * pj <= v * pj,
            pj > 0,
    ;
    assert(u >= v2) by (nonlinear_arith)
        requires
            u * pj >= v2 * pj,
            pj > 0,
    ;
}

/// The remainder of a whole number is whole: it is written as it is, and its quotients are cut as
/// exact ones.
pub proof fn remainders_are_whole(n: nat, k: nat, d: nat)
    requires
        0 < n < 0x20_0000_0000_0000,
        0 < k < 0x10_0000_0000_0000,
        0 < d < 0x10_0000_0000_0000,
    ensures
        float_notation(float_mod(float_of(n, 53), k), 0) == decimal(n % k),
        float_floor(float_div(float_mod(float_of(n, 53), k), float_of(d, 53), 53)) == (n % k) / d,
{
    let s = exact_number(n);
    let p = pow2(s);
    lemma_pow2_pos(s);
    vstd::arithmetic::power2::lemma2_to64();
    let x = float_of(n, 53);
    let r = float_mod(x, k);
    if s == 0 {
        times_one(n, p);
        times_one(x.mant, p);
        times_one(n % k, p);
    } else {
        let m = n * p;
        vstd::arithmetic::div_mod::lemma_truncate_middle(n as int, p as int, k as int);
        assert((n % k) * p == m % (k * p)) by {
            assert(p * n == n * p) by (nonlinear_arith);
            assert(p * k == k * p) by (nonlinear_arith);
            assert(p * (n % k) == (n % k) * p) by (nonlinear_arith);
        }
    }
    assert(r == (FloatModel { mant: (n % k) * p, exp: -s }));
    exact_value(n % k, s);
    cut_quotient(n % k, s, d);
}

} // verus!
