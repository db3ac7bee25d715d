//! Floating-point numbers as bit patterns.
//!
//! Coordinates and scales are IEEE 754 numbers. They are held here as their bit
//! patterns and computed with in whole numbers: each operation gives the pattern
//! of the number nearest to the exact result, a tie going to the even pattern.
//! Where an operation has no numeric result it gives one quiet NaN; the payload
//! of a NaN carries no meaning.
use crate::rounding::{
    excess, half_even, lemma_bit_len_unique, lemma_nearest_monotone, lemma_nearest_same,
    lemma_units_monotone, nearest, power_of_two, round_quotient, round_scaled, scaled_den,
    scaled_num, units,
};
use vstd::arithmetic::div_mod::*;
use vstd::arithmetic::mul::*;
use vstd::arithmetic::power2::*;
use vstd::prelude::*;

verus! {

/// A single-precision number, by its bit pattern.
#[derive(Clone, Copy, Debug, PartialEq, Eq, Structural)]
pub struct Single {
    pub bits: u32,
}

/// A double-precision number, by its bit pattern.
#[derive(Clone, Copy, Debug, PartialEq, Eq, Structural)]
pub struct Double {
    pub bits: u64,
}

/// The weight of the sign bit of a single-precision number.
pub const SINGLE_SIGN: u32 = 0x8000_0000;

/// The magnitude of the single-precision infinities.
pub const SINGLE_INF: u32 = 0x7f80_0000;

/// A single-precision NaN.
pub const SINGLE_NAN: u32 = 0x7fc0_0000;

/// The bits of the single-precision number one.
pub const SINGLE_ONE: u32 = 0x3f80_0000;

/// The weight of the sign bit of a double-precision number.
pub const DOUBLE_SIGN: u64 = 0x8000_0000_0000_0000;

/// The magnitude of the double-precision infinities.
pub const DOUBLE_INF: u64 = 0x7ff0_0000_0000_0000;

/// The power of two that makes one out of the single-precision unit.
pub const SINGLE_SCALE: u32 = 149;

/// The power of two that makes one out of the double-precision unit.
pub const DOUBLE_SCALE: u32 = 1074;

/// The power of two that makes a single-precision unit out of a double-precision one.
pub const SCALE_STEP: u32 = 925;

/// The lesser of two numbers.
pub open spec fn at_most(n: nat, limit: nat) -> nat {
    if n < limit {
        n
    } else {
        limit
    }
}

impl Single {
    /// Whether the sign bit is set.
    pub open spec fn negative(self) -> bool {
        self.bits >= SINGLE_SIGN
    }

    /// The bit pattern without its sign bit.
    pub open spec fn mag(self) -> nat {
        (self.bits % SINGLE_SIGN) as nat
    }

    /// Whether this is a number that is neither infinite nor NaN.
    pub open spec fn finite(self) -> bool {
        self.mag() < SINGLE_INF
    }

    /// Whether this is one of the infinities.
    pub open spec fn infinite(self) -> bool {
        self.mag() == SINGLE_INF
    }

    /// Whether this is not a number.
    pub open spec fn nan(self) -> bool {
        self.mag() > SINGLE_INF
    }

    /// The absolute value of a finite number, in units.
    pub open spec fn units(self) -> nat {
        units(24, self.mag())
    }

    /// A finite number, in units.
    pub open spec fn value(self) -> int {
        if self.negative() {
            -self.units()
        } else {
            self.units() as int
        }
    }

    /// The place of a number among all numbers: a greater number has a greater
    /// place, and the two zeros share one.
    pub open spec fn place(self) -> int {
        if self.negative() {
            -self.mag()
        } else {
            self.mag() as int
        }
    }

    /// The number with the given sign and magnitude; what is beyond the largest
    /// finite number is infinite.
    pub open spec fn signed(negative: bool, mag: nat) -> Single {
        let m = at_most(mag, SINGLE_INF as nat);
        Single {
            bits: if negative {
                (SINGLE_SIGN + m) as u32
            } else {
                m as u32
            },
        }
    }

    /// A value that is not a number.
    pub open spec fn nan_value() -> Single {
        Single { bits: SINGLE_NAN }
    }

    /// Whether the sign bit is set.
    fn is_negative(self) -> (r: bool)
        ensures
            r == self.negative(),
    {
        self.bits >= SINGLE_SIGN
    }

    /// The bit pattern without its sign bit.
    fn magnitude(self) -> (r: u32)
        ensures
            r == self.mag(),
            r < SINGLE_SIGN,
    {
        self.bits % SINGLE_SIGN
    }

    /// Whether this is a number that is neither infinite nor NaN.
    pub fn is_finite(self) -> (r: bool)
        ensures
            r == self.finite(),
    {
        self.magnitude() < SINGLE_INF
    }

    /// Whether this is not a number.
    pub fn is_nan(self) -> (r: bool)
        ensures
            r == self.nan(),
    {
        self.magnitude() > SINGLE_INF
    }

    /// The number with the given sign and magnitude.
    fn pack(negative: bool, mag: u64) -> (r: Single)
        ensures
            r == Single::signed(negative, mag as nat),
    {
        let m: u32 = if mag < SINGLE_INF as u64 {
            mag as u32
        } else {
            SINGLE_INF
        };
        Single {
            bits: if negative {
                SINGLE_SIGN + m
            } else {
                m
            },
        }
    }

    /// The number one.
    pub open spec fn one() -> Single {
        Single { bits: SINGLE_ONE }
    }

    /// The number one.
    pub fn new_one() -> (r: Single)
        ensures
            r == Single::one(),
    {
        Single { bits: SINGLE_ONE }
    }

    /// Whether `self` is a number at most as great as the number `other`.
    pub open spec fn le_spec(self, other: Single) -> bool {
        !self.nan() && !other.nan() && self.place() <= other.place()
    }

    /// Whether `self` is a number at most as great as the number `other`.
    pub fn le(self, other: Single) -> (r: bool)
        ensures
            r == self.le_spec(other),
    {
        if self.is_nan() || other.is_nan() {
            return false;
        }
        let a: u32 = self.magnitude();
        let b: u32 = other.magnitude();
        if self.is_negative() {
            if other.is_negative() {
                b <= a
            } else {
                true
            }
        } else {
            if other.is_negative() {
                a == 0 && b == 0
            } else {
                a <= b
            }
        }
    }

    /// The lesser of two numbers; the other one where one is not a number.
    pub open spec fn min_spec(self, other: Single) -> Single {
        if self.nan() || (!other.nan() && other.place() < self.place()) {
            other
        } else {
            self
        }
    }

    /// The lesser of two numbers; the other one where one is not a number.
    pub fn min(self, other: Single) -> (r: Single)
        ensures
            r == self.min_spec(other),
    {
        if self.is_nan() || (!other.is_nan() && !self.le(other)) {
            other
        } else {
            self
        }
    }

    /// The greater of two numbers; the other one where one is not a number.
    pub open spec fn max_spec(self, other: Single) -> Single {
        if self.nan() || (!other.nan() && other.place() > self.place()) {
            other
        } else {
            self
        }
    }

    /// The greater of two numbers; the other one where one is not a number.
    pub fn max(self, other: Single) -> (r: Single)
        ensures
            r == self.max_spec(other),
    {
        if self.is_nan() || (!other.is_nan() && !other.le(self)) {
            other
        } else {
            self
        }
    }
}

/// The digits and the exponent of a magnitude: its units are `r.0 * 2^r.1`.
pub(crate) fn parts(p: u32, mag: u64) -> (r: (u64, u32))
    requires
        p == 24 || p == 53,
        mag < 0x8000_0000_0000_0000,
        p == 24 ==> mag < 0x8000_0000,
    ensures
        units(p as nat, mag as nat) == r.0 as nat * pow2(r.1 as nat),
        mag == r.1 * pow2((p - 1) as nat) + r.0,
        r.0 < pow2(p as nat),
        r.1 > 0 ==> r.0 >= pow2((p - 1) as nat),
        p == 24 ==> r.1 < 256,
        p == 53 ==> r.1 < 2048,
{
    proof {
        lemma2_to64();
        lemma2_to64_rest();
    }
    let h: u64 = power_of_two(p - 1) as u64;
    if mag < 2 * h {
        proof {
            lemma_mul_basics(mag as int);
            lemma_mul_basics(h as int);
        }
        (mag, 0)
    } else {
        let q: u64 = mag / h;
        proof {
            lemma_fundamental_div_mod(mag as int, h as int);
            assert(2 <= q) by (nonlinear_arith)
                requires
                    q == mag / h,
                    mag >= 2 * h,
                    h > 0,
            ;
            if p == 24 {
                assert(q < 256);
            } else {
                assert(q < 2048);
            }
            assert(mag == (q - 1) * h + (h + mag % h)) by (nonlinear_arith)
                requires
                    mag == h * q + mag % h,
            ;
        }
        (h + mag % h, (q - 1) as u32)
    }
}

/// Moving a power of two from the units to the denominator.
proof fn lemma_nearest_shift(p: nat, n: nat, t: nat, u: nat)
    requires
        p > 0,
    ensures
        nearest(p, n * pow2(t), pow2(u)) == nearest(
            p,
            scaled_num(n, t - u),
            scaled_den(t - u),
        ),
{
    if t >= u {
        let s = (t - u) as nat;
        lemma_pow2_adds(s, u);
        lemma_pow2_pos(u);
        lemma_mul_is_associative(n as int, pow2(s) as int, pow2(u) as int);
        lemma_mul_basics(pow2(u) as int);
        lemma_nearest_same(p, n * pow2(s), 1, pow2(u));
    } else {
        let s = (u - t) as nat;
        lemma_pow2_adds(s, t);
        lemma_pow2_pos(t);
        lemma_pow2_pos(s);
        lemma_nearest_same(p, n, pow2(s), pow2(t));
    }
}

/// Products of scaled numbers.
proof fn lemma_scaled_product(a: nat, s: nat, b: nat, t: nat)
    ensures
        (a * pow2(s)) * (b * pow2(t)) == (a * b) * pow2(s + t),
{
    lemma_pow2_adds(s, t);
    assert((a * pow2(s)) * (b * pow2(t)) == (a * b) * (pow2(s) * pow2(t))) by (nonlinear_arith);
}

impl Single {
    /// The product of two numbers.
    pub open spec fn mul_spec(self, other: Single) -> Single {
        let negative = self.negative() != other.negative();
        if self.nan() || other.nan() || (self.infinite() && other.mag() == 0) || (
        other.infinite() && self.mag() == 0) {
            Single::nan_value()
        } else if self.infinite() || other.infinite() {
            Single::signed(negative, SINGLE_INF as nat)
        } else {
            Single::signed(
                negative,
                nearest(24, self.units() * other.units(), pow2(SINGLE_SCALE as nat)),
            )
        }
    }

    /// The product of two numbers.
    pub fn mul(self, other: Single) -> (r: Single)
        ensures
            r == self.mul_spec(other),
    {
        let a: u32 = self.magnitude();
        let b: u32 = other.magnitude();
        let negative: bool = self.is_negative() != other.is_negative();
        if a > SINGLE_INF || b > SINGLE_INF || (a == SINGLE_INF && b == 0) || (b == SINGLE_INF && a
            == 0) {
            return Single { bits: SINGLE_NAN };
        }
        if a == SINGLE_INF || b == SINGLE_INF {
            return Single::pack(negative, SINGLE_INF as u64);
        }
        let (m, s): (u64, u32) = parts(24, a as u64);
        let (n, t): (u64, u32) = parts(24, b as u64);
        proof {
            lemma2_to64();
            lemma2_to64_rest();
            assert(m * n < 0x1_0000_0000_0000) by (nonlinear_arith)
                requires
                    m < 0x100_0000,
                    n < 0x100_0000,
            ;
            lemma_pow2_strictly_increases(48, 100);
            lemma_scaled_product(m as nat, s as nat, n as nat, t as nat);
            lemma_nearest_shift(24, m as nat * n as nat, (s + t) as nat, SINGLE_SCALE as nat);
        }
        let product: u64 = m * n;
        let shift: i32 = s as i32 + t as i32 - SINGLE_SCALE as i32;
        let mag: u64 = round_scaled(24, product as u128, shift);
        Single::pack(negative, mag)
    }

    /// The quotient of a number and a positive whole number.
    pub open spec fn div_spec(self, d: nat) -> Single {
        if self.nan() {
            Single::nan_value()
        } else if self.infinite() {
            self
        } else {
            Single::signed(self.negative(), nearest(24, self.units(), d))
        }
    }

    /// The quotient of a number and a positive whole number.
    pub fn div(self, d: u32) -> (r: Single)
        requires
            d > 0,
        ensures
            r == self.div_spec(d as nat),
    {
        let a: u32 = self.magnitude();
        if a > SINGLE_INF {
            return Single { bits: SINGLE_NAN };
        }
        if a == SINGLE_INF {
            return self;
        }
        let (m, s): (u64, u32) = parts(24, a as u64);
        proof {
            lemma2_to64();
        }
        let mag: u64 = round_quotient(24, m, s, d as u64);
        Single::pack(self.is_negative(), mag)
    }

    /// The whole part of a number as an unsigned integer: zero for what is not
    /// positive or not a number, the greatest integer for what exceeds it.
    pub open spec fn whole(self) -> nat {
        if self.nan() || self.negative() {
            0
        } else if self.infinite() {
            u32::MAX as nat
        } else {
            at_most(self.units() / pow2(SINGLE_SCALE as nat), u32::MAX as nat)
        }
    }

    /// The whole part of a number as an unsigned integer.
    pub fn to_u32(self) -> (r: u32)
        ensures
            r == self.whole(),
    {
        let a: u32 = self.magnitude();
        if a > SINGLE_INF || self.is_negative() {
            return 0;
        }
        if a == SINGLE_INF {
            return u32::MAX;
        }
        let (m, s): (u64, u32) = parts(24, a as u64);
        whole_part(m, s, SINGLE_SCALE, u32::MAX as u64) as u32
    }

    /// The same number in double precision.
    pub open spec fn widen_spec(self) -> Double {
        Double::signed(
            self.negative(),
            nearest(53, self.units() * pow2(SCALE_STEP as nat), 1),
        )
    }

    /// The same number in double precision.
    pub fn widen(self) -> (r: Double)
        requires
            self.finite(),
        ensures
            r == self.widen_spec(),
    {
        let (m, s): (u64, u32) = parts(24, self.magnitude() as u64);
        proof {
            lemma2_to64();
            lemma_pow2_strictly_increases(24, 100);
            lemma_pow2_adds(s as nat, SCALE_STEP as nat);
            lemma_mul_is_associative(m as int, pow2(s as nat) as int, pow2(SCALE_STEP as nat) as int);
        }
        let mag: u64 = round_scaled(53, m as u128, s as i32 + SCALE_STEP as i32);
        Double::pack(self.is_negative(), mag)
    }
}

/// The whole part of `m * 2^s / 2^scale`, at most `limit`.
pub(crate) fn whole_part(m: u64, s: u32, scale: u32, limit: u64) -> (r: u64)
    requires
        m < 0x20_0000_0000_0000,
        s < 2048,
        scale < 2048,
    ensures
        r == at_most((m as nat * pow2(s as nat)) / pow2(scale as nat), limit as nat),
{
    let ghost v = m as nat * pow2(s as nat);
    proof {
        lemma_pow2_pos(s as nat);
        lemma_pow2_pos(scale as nat);
        lemma2_to64();
        lemma2_to64_rest();
    }
    if m == 0 {
        proof {
            lemma_mul_basics(pow2(s as nat) as int);
            lemma_basic_div(0, pow2(scale as nat) as int);
        }
        return 0;
    }
    if s >= scale {
        let up: u32 = s - scale;
        proof {
            lemma_pow2_adds(up as nat, scale as nat);
            lemma_mul_is_associative(m as int, pow2(up as nat) as int, pow2(scale as nat) as int);
            lemma_div_by_multiple((m * pow2(up as nat)) as int, pow2(scale as nat) as int);
        }
        if up >= 64 {
            proof {
                if up > 64 {
                    lemma_pow2_strictly_increases(64, up as nat);
                }
                assert(m * pow2(up as nat) >= 0x1_0000_0000_0000_0000) by (nonlinear_arith)
                    requires
                        m >= 1,
                        pow2(up as nat) >= 0x1_0000_0000_0000_0000,
                ;
            }
            return limit;
        }
        let f: u128 = power_of_two(up);
        proof {
            lemma_pow2_strictly_increases(up as nat, 64);
            assert(m * f < 0x20_0000_0000_0000 * 0x1_0000_0000_0000_0000) by (nonlinear_arith)
                requires
                    m < 0x20_0000_0000_0000,
                    0 <= f < 0x1_0000_0000_0000_0000,
            ;
        }
        let w: u128 = m as u128 * f;
        if w < limit as u128 {
            w as u64
        } else {
            limit
        }
    } else {
        let down: u32 = scale - s;
        proof {
            lemma_pow2_adds(down as nat, s as nat);
            lemma_pow2_pos(down as nat);
            lemma_div_denominator(v as int, pow2(s as nat) as int, pow2(down as nat) as int);
            lemma_div_by_multiple(m as int, pow2(s as nat) as int);
            lemma_mul_is_commutative(pow2(s as nat) as int, pow2(down as nat) as int);
            assert(v / pow2(scale as nat) == m as nat / pow2(down as nat));
        }
        if down >= 64 {
            proof {
                if down > 64 {
                    lemma_pow2_strictly_increases(64, down as nat);
                }
                lemma_basic_div(m as int, pow2(down as nat) as int);
            }
            return 0;
        }
        let d: u128 = power_of_two(down);
        let w: u128 = m as u128 / d;
        proof {
            assert(w <= m) by (nonlinear_arith)
                requires
                    w == m as u128 / d,
                    d >= 1,
            ;
        }
        if w < limit as u128 {
            w as u64
        } else {
            limit
        }
    }
}

impl Double {
    /// Whether the sign bit is set.
    pub open spec fn negative(self) -> bool {
        self.bits >= DOUBLE_SIGN
    }

    /// The bit pattern without its sign bit.
    pub open spec fn mag(self) -> nat {
        (self.bits % DOUBLE_SIGN) as nat
    }

    /// Whether this is a number that is neither infinite nor NaN.
    pub open spec fn finite(self) -> bool {
        self.mag() < DOUBLE_INF
    }

    /// Whether this is one of the infinities.
    pub open spec fn infinite(self) -> bool {
        self.mag() == DOUBLE_INF
    }

    /// Whether this is not a number.
    pub open spec fn nan(self) -> bool {
        self.mag() > DOUBLE_INF
    }

    /// The absolute value of a finite number, in units.
    pub open spec fn units(self) -> nat {
        units(53, self.mag())
    }

    /// The place of a number among all numbers.
    pub open spec fn place(self) -> int {
        if self.negative() {
            -self.mag()
        } else {
            self.mag() as int
        }
    }

    /// The number with the given sign and magnitude; what is beyond the largest
    /// finite number is infinite.
    pub open spec fn signed(negative: bool, mag: nat) -> Double {
        let m = at_most(mag, DOUBLE_INF as nat);
        Double {
            bits: if negative {
                (DOUBLE_SIGN + m) as u64
            } else {
                m as u64
            },
        }
    }

    /// Whether the sign bit is set.
    fn is_negative(self) -> (r: bool)
        ensures
            r == self.negative(),
    {
        self.bits >= DOUBLE_SIGN
    }

    /// The bit pattern without its sign bit.
    fn magnitude(self) -> (r: u64)
        ensures
            r == self.mag(),
            r < DOUBLE_SIGN,
    {
        self.bits % DOUBLE_SIGN
    }

    /// The number with the given sign and magnitude.
    fn pack(negative: bool, mag: u64) -> (r: Double)
        ensures
            r == Double::signed(negative, mag as nat),
    {
        let m: u64 = if mag < DOUBLE_INF {
            mag
        } else {
            DOUBLE_INF
        };
        Double {
            bits: if negative {
                DOUBLE_SIGN + m
            } else {
                m
            },
        }
    }

    /// The number nearest to a whole number.
    pub open spec fn from_int(n: int) -> Double {
        let a = if n < 0 {
            (-n) as nat
        } else {
            n as nat
        };
        Double::signed(n < 0, nearest(53, a * pow2(DOUBLE_SCALE as nat), 1))
    }

    /// The number nearest to an unsigned integer.
    pub fn from_u64(n: u64) -> (r: Double)
        ensures
            r == Double::from_int(n as int),
    {
        proof {
            lemma2_to64_rest();
            lemma_pow2_strictly_increases(64, 100);
        }
        let mag: u64 = round_scaled(53, n as u128, DOUBLE_SCALE as i32);
        Double::pack(false, mag)
    }

    /// The number nearest to a signed integer.
    pub fn from_i64(n: i64) -> (r: Double)
        ensures
            r == Double::from_int(n as int),
    {
        proof {
            lemma2_to64_rest();
            lemma_pow2_strictly_increases(64, 100);
        }
        let a: u128 = if n < 0 {
            (-(n as i128)) as u128
        } else {
            n as u128
        };
        let mag: u64 = round_scaled(53, a, DOUBLE_SCALE as i32);
        Double::pack(n < 0, mag)
    }

    /// The single-precision number nearest to this one.
    pub open spec fn narrow_spec(self) -> Single {
        if self.nan() {
            Single::nan_value()
        } else if self.infinite() {
            Single::signed(self.negative(), SINGLE_INF as nat)
        } else {
            Single::signed(
                self.negative(),
                nearest(24, self.units(), pow2(SCALE_STEP as nat)),
            )
        }
    }

    /// The single-precision number nearest to this one.
    pub fn narrow(self) -> (r: Single)
        ensures
            r == self.narrow_spec(),
    {
        let a: u64 = self.magnitude();
        if a > DOUBLE_INF {
            return Single { bits: SINGLE_NAN };
        }
        if a == DOUBLE_INF {
            return Single::pack(self.is_negative(), SINGLE_INF as u64);
        }
        let (m, s): (u64, u32) = parts(53, a);
        proof {
            lemma2_to64();
            lemma_pow2_strictly_increases(53, 100);
            lemma_nearest_shift(24, m as nat, s as nat, SCALE_STEP as nat);
        }
        let mag: u64 = round_scaled(24, m as u128, s as i32 - SCALE_STEP as i32);
        Single::pack(self.is_negative(), mag)
    }

    /// The lesser of two numbers; the other one where one is not a number.
    pub open spec fn min_spec(self, other: Double) -> Double {
        if self.nan() || (!other.nan() && other.place() < self.place()) {
            other
        } else {
            self
        }
    }

    /// The lesser of two numbers; the other one where one is not a number.
    pub fn min(self, other: Double) -> (r: Double)
        ensures
            r == self.min_spec(other),
    {
        let a: u64 = self.magnitude();
        let b: u64 = other.magnitude();
        if a > DOUBLE_INF {
            return other;
        }
        if b > DOUBLE_INF {
            return self;
        }
        let less: bool = if other.is_negative() {
            if self.is_negative() {
                a < b
            } else {
                a > 0 || b > 0
            }
        } else {
            !self.is_negative() && b < a
        };
        if less {
            other
        } else {
            self
        }
    }

    /// The whole part of this number divided by `2^e`, as an unsigned integer:
    /// zero for what is not positive or not a number, the greatest integer for
    /// what exceeds it.
    pub open spec fn whole(self, e: nat) -> nat {
        if self.nan() || self.negative() {
            0
        } else if self.infinite() {
            usize::MAX as nat
        } else {
            at_most(self.units() / pow2(DOUBLE_SCALE as nat + e), usize::MAX as nat)
        }
    }

    /// The whole part of this number divided by `2^e`.
    pub fn to_usize(self, e: u32) -> (r: usize)
        requires
            e <= 64,
        ensures
            r == self.whole(e as nat),
    {
        let a: u64 = self.magnitude();
        if a > DOUBLE_INF || self.is_negative() {
            return 0;
        }
        if a == DOUBLE_INF {
            return usize::MAX;
        }
        let (m, s): (u64, u32) = parts(53, a);
        proof {
            lemma2_to64_rest();
        }
        whole_part(m, s, DOUBLE_SCALE + e, usize::MAX as u64) as usize
    }
}

/// Adding or taking away less than a quarter of the last place changes nothing.
proof fn lemma_nearest_absorbs(m: nat, k: nat, v: int, x: nat)
    requires
        k > 64,
        pow2(23) <= m < pow2(24),
        0 <= x < pow2((k - 40) as nat),
        v == m * pow2(k) + x || v == m * pow2(k) - x,
    ensures
        v >= 0,
        nearest(24, v as nat, 1) == k * pow2(23) + m,
{
    lemma2_to64();
    let w = pow2(k) as int;
    lemma_pow2_unfold(k);
    lemma_pow2_unfold((k - 1) as nat);
    lemma_pow2_unfold((k - 2) as nat);
    lemma_pow2_strictly_increases((k - 40) as nat, (k - 2) as nat);
    lemma_pow2_pos(k);
    assert(0 <= x && 4 * x < w);
    assert(m * w >= 0x80_0000 * w) by (nonlinear_arith)
        requires
            m >= 0x80_0000,
            w > 0,
    ;
    lemma_pow2_adds(23, k);
    lemma_pow2_adds(24, k);
    let n = v as nat;
    lemma_div_by_multiple(n as int, 1);
    assert((m + 1) * w <= pow2(24) * w) by (nonlinear_arith)
        requires
            m + 1 <= pow2(24),
            w > 0,
    ;
    assert((m + 1) * w == m * w + w) by (nonlinear_arith);
    if v >= m * w {
        lemma_bit_len_unique(n, 24 + k);
        assert(excess(24, n, 1) == k);
        lemma_fundamental_div_mod_converse(n as int, w, m as int, x as int);
        lemma_mul_basics(w);
    } else if m > pow2(23) {
        assert((m - 1) * w >= pow2(23) * w) by (nonlinear_arith)
            requires
                m - 1 >= pow2(23),
                w > 0,
        ;
        assert((m - 1) * w == m * w - w) by (nonlinear_arith);
        lemma_bit_len_unique(n, 24 + k);
        assert(excess(24, n, 1) == k);
        lemma_fundamental_div_mod_converse(n as int, w, m - 1, w - x);
        lemma_mul_basics(w);
    } else {
        let j = (k - 1) as nat;
        let u = pow2(j) as int;
        lemma_pow2_adds(22, k);
        lemma_pow2_adds(23, j);
        lemma_pow2_adds(24, j);
        assert(w == 2 * u);
        assert(m * w == pow2(24) * u) by (nonlinear_arith)
            requires
                m == 0x80_0000,
                w == 2 * u,
                pow2(24) == 0x100_0000,
        ;
        assert(pow2(24) * u >= pow2(23) * u + u) by (nonlinear_arith)
            requires
                pow2(24) == 0x100_0000,
                pow2(23) == 0x80_0000,
                u > 0,
        ;
        lemma_bit_len_unique(n, 23 + k);
        assert(excess(24, n, 1) == j);
        assert((pow2(24) - 1) * u == pow2(24) * u - u) by (nonlinear_arith);
        lemma_fundamental_div_mod_converse(n as int, u, pow2(24) - 1, u - x);
        lemma_mul_basics(u);
        assert(half_even(n, 1 * pow2(j)) == pow2(24));
        assert(j * pow2(23) + pow2(24) == k * pow2(23) + m) by (nonlinear_arith)
            requires
                j == k - 1,
                m == 0x80_0000,
                pow2(24) == 0x100_0000,
                pow2(23) == 0x80_0000,
        ;
    }
}

/// Greater magnitudes stand for greater numbers.
proof fn lemma_parts_ordered(m: nat, s: nat, n: nat, t: nat)
    requires
        m < pow2(24),
        n < pow2(24),
        s > 0 ==> m >= pow2(23),
        t > 0 ==> n >= pow2(23),
        m + s * pow2(23) > n + t * pow2(23),
    ensures
        s >= t,
        m * pow2(s) > n * pow2(t),
{
    lemma2_to64();
    assert(s >= t) by (nonlinear_arith)
        requires
            m < 0x100_0000,
            t > 0 ==> n >= 0x80_0000,
            m + s * 0x80_0000 > n + t * 0x80_0000,
    ;
    lemma_pow2_pos(t);
    if s == t {
        lemma_mul_strict_inequality(n as int, m as int, pow2(t) as int);
    } else {
        let e = (s - t) as nat;
        lemma_pow2_adds(e, t);
        lemma_pow2_unfold(e);
        lemma_pow2_pos((e - 1) as nat);
        assert(m * (pow2(e) * pow2(t)) > n * pow2(t)) by (nonlinear_arith)
            requires
                m >= 0x80_0000,
                n < 0x100_0000,
                pow2(e) >= 2,
                pow2(t) > 0,
        ;
    }
}

/// The magnitude nearest to the sum or the difference of two magnitudes.
fn combine(a: u32, b: u32, minus: bool) -> (r: u64)
    requires
        b <= a < SINGLE_INF,
    ensures
        a > b ==> units(24, a as nat) > units(24, b as nat),
        minus ==> r == nearest(24, (units(24, a as nat) - units(24, b as nat)) as nat, 1),
        !minus ==> r == nearest(24, units(24, a as nat) + units(24, b as nat), 1),
{
    let (m, s): (u64, u32) = parts(24, a as u64);
    let (n, t): (u64, u32) = parts(24, b as u64);
    let ghost big = m as nat * pow2(s as nat);
    let ghost small = n as nat * pow2(t as nat);
    proof {
        lemma2_to64();
        if a > b {
            lemma_parts_ordered(m as nat, s as nat, n as nat, t as nat);
        } else {
            assert(s == t && m == n) by (nonlinear_arith)
                requires
                    m + s * 0x80_0000 == n + t * 0x80_0000,
                    m < 0x100_0000,
                    n < 0x100_0000,
                    s > 0 ==> m >= 0x80_0000,
                    t > 0 ==> n >= 0x80_0000,
            ;
        }
        lemma_pow2_pos(t as nat);
    }
    let gap: u32 = s - t;
    if gap <= 64 {
        let f: u128 = power_of_two(gap);
        proof {
            lemma2_to64_rest();
            lemma_pow2_adds(gap as nat, t as nat);
            lemma_mul_is_associative(m as int, pow2(gap as nat) as int, pow2(t as nat) as int);
            if gap < 64 {
                lemma_pow2_strictly_increases(gap as nat, 64);
            }
            lemma_pow2_pos(gap as nat);
            lemma_pow2_adds(36, 64);
            assert(m * f < 0x100_0000 * 0x1_0000_0000_0000_0001) by (nonlinear_arith)
                requires
                    m < 0x100_0000,
                    0 < f <= 0x1_0000_0000_0000_0000,
            ;
            assert(n <= m * f) by (nonlinear_arith)
                requires
                    m * f * pow2(t as nat) >= n * pow2(t as nat),
                    pow2(t as nat) > 0,
            ;
        }
        let w: u128 = m as u128 * f;
        let x: u128 = if minus {
            w - n as u128
        } else {
            w + n as u128
        };
        proof {
            if minus {
                lemma_mul_is_distributive_sub_other_way(
                    pow2(t as nat) as int,
                    w as int,
                    n as int,
                );
            } else {
                lemma_mul_is_distributive_add_other_way(
                    pow2(t as nat) as int,
                    w as int,
                    n as int,
                );
            }
        }
        round_scaled(24, x, t as i32)
    } else {
        proof {
            lemma_pow2_adds(24, t as nat);
            lemma_mul_strict_inequality(n as int, pow2(24) as int, pow2(t as nat) as int);
            if 24 + t < s - 40 {
                lemma_pow2_strictly_increases((24 + t) as nat, (s - 40) as nat);
            }
            lemma_nearest_absorbs(m as nat, s as nat, (big + small) as int, small);
            lemma_nearest_absorbs(m as nat, s as nat, big - small, small);
        }
        a as u64
    }
}

impl Single {
    /// The difference of two numbers.
    pub open spec fn sub_spec(self, other: Single) -> Single {
        if self.nan() || other.nan() || (self.infinite() && other.infinite() && self.negative()
            == other.negative()) {
            Single::nan_value()
        } else if self.infinite() {
            self
        } else if other.infinite() {
            Single::signed(!other.negative(), SINGLE_INF as nat)
        } else {
            let v = self.value() - other.value();
            if v == 0 {
                Single::signed(self.mag() == 0 && self.negative() && !other.negative(), 0)
            } else if v < 0 {
                Single::signed(true, nearest(24, (-v) as nat, 1))
            } else {
                Single::signed(false, nearest(24, v as nat, 1))
            }
        }
    }

    /// The difference of two numbers.
    pub fn sub(self, other: Single) -> (r: Single)
        ensures
            r == self.sub_spec(other),
    {
        let a: u32 = self.magnitude();
        let b: u32 = other.magnitude();
        let neg_a: bool = self.is_negative();
        let neg_b: bool = other.is_negative();
        if a > SINGLE_INF || b > SINGLE_INF || (a == SINGLE_INF && b == SINGLE_INF && neg_a
            == neg_b) {
            return Single { bits: SINGLE_NAN };
        }
        if a == SINGLE_INF {
            return self;
        }
        if b == SINGLE_INF {
            return Single::pack(!neg_b, SINGLE_INF as u64);
        }
        if neg_a != neg_b {
            let mag: u64 = if a >= b {
                combine(a, b, false)
            } else {
                combine(b, a, false)
            };
            proof {
                if self.value() - other.value() == 0 {
                    assert(self.units() == 0 && other.units() == 0);
                    lemma_no_units(a as nat);
                    lemma_no_units(b as nat);
                    lemma_nearest_zero();
                }
            }
            Single::pack(neg_a, mag)
        } else if a == b {
            Single::pack(false, 0)
        } else if a > b {
            let mag: u64 = combine(a, b, true);
            Single::pack(neg_a, mag)
        } else {
            let mag: u64 = combine(b, a, true);
            Single::pack(!neg_a, mag)
        }
    }
}

/// Only zero has no units.
proof fn lemma_no_units(mag: nat)
    ensures
        units(24, mag) == 0 ==> mag == 0,
{
    lemma2_to64();
    let h = pow2(23);
    if mag >= 2 * h {
        lemma_pow2_pos((mag / h - 1) as nat);
        lemma_mul_strictly_positive((h + mag % h) as int, pow2((mag / h - 1) as nat) as int);
    }
}

/// Zero is its own rounding.
proof fn lemma_nearest_zero()
    ensures
        nearest(24, 0, 1) == 0,
{
    lemma2_to64();
    lemma_mul_basics(pow2(23) as int);
}

/// A number that is at most as great stays so in single precision, below a bound that
/// is not negative.
pub proof fn lemma_narrow_monotone(a: Double, b: Double)
    requires
        !a.nan(),
        !b.nan(),
        !b.negative(),
        a.place() <= b.place(),
    ensures
        a.narrow_spec().le_spec(b.narrow_spec()),
        !b.narrow_spec().negative(),
{
    lemma_pow2_pos(SCALE_STEP as nat);
    if !a.negative() {
        lemma_units_monotone(53, a.mag(), b.mag());
        lemma_nearest_monotone(24, a.units(), b.units(), pow2(SCALE_STEP as nat));
    }
}

/// A number that is at most as great stays so when it is divided, below a bound that is
/// not negative.
pub proof fn lemma_div_monotone(a: Single, b: Single, d: nat)
    requires
        !a.nan(),
        !b.nan(),
        !b.negative(),
        a.place() <= b.place(),
        d > 0,
    ensures
        a.div_spec(d).le_spec(b.div_spec(d)),
        !b.div_spec(d).negative(),
{
    if !a.negative() {
        lemma_units_monotone(24, a.mag(), b.mag());
        lemma_nearest_monotone(24, a.units(), b.units(), d);
    }
}

} // verus!
