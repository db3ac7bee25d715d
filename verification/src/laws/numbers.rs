//! Numbers keep their value, and are ordered by it.
use crate::float::{Double, Single, DOUBLE_INF, DOUBLE_SCALE, SCALE_STEP, SINGLE_INF, SINGLE_SCALE};
use crate::rounding::{
    bit_len, excess, half_even, lemma_bit_len_bounds, lemma_bit_len_scale, lemma_half_even_error,
    lemma_nearest_digits, lemma_nearest_exact, lemma_units_of_nearest, nearest, units,
};
use vstd::arithmetic::div_mod::*;
use vstd::arithmetic::mul::*;
use vstd::arithmetic::power2::*;
use vstd::prelude::*;

verus! {

/// The digits and the exponent of a magnitude.
proof fn lemma_units_parts(p: nat, mag: nat) -> (r: (nat, nat))
    requires
        p > 1,
    ensures
        units(p, mag) == r.0 * pow2(r.1),
        mag == r.1 * pow2((p - 1) as nat) + r.0,
        r.0 < pow2(p),
        r.1 > 0 ==> r.0 >= pow2((p - 1) as nat),
{
    let h = pow2((p - 1) as nat);
    lemma_pow2_pos((p - 1) as nat);
    lemma_pow2_unfold(p);
    lemma2_to64();
    if mag < 2 * h {
        lemma_mul_basics(mag as int);
        lemma_mul_basics(h as int);
        (mag, 0)
    } else {
        let q = mag / h;
        lemma_fundamental_div_mod(mag as int, h as int);
        lemma_mod_bound(mag as int, h as int);
        assert(2 <= q) by (nonlinear_arith)
            requires
                q == mag / h,
                mag >= 2 * h,
                h > 0,
        ;
        assert(mag == (q - 1) * h + (h + mag % h)) by (nonlinear_arith)
            requires
                mag == h * q + mag % h,
        ;
        (h + mag % h, (q - 1) as nat)
    }
}

/// A greater magnitude stands for a strictly greater number.
pub proof fn lemma_units_strict(p: nat, a: nat, b: nat)
    requires
        p > 1,
        a < b,
    ensures
        units(p, a) < units(p, b),
{
    let h = pow2((p - 1) as nat);
    let (m, j) = lemma_units_parts(p, a);
    let (n, k) = lemma_units_parts(p, b);
    lemma_pow2_unfold(p);
    lemma_pow2_pos(j);
    lemma_pow2_pos((p - 1) as nat);
    if j == k {
        lemma_mul_strict_inequality(m as int, n as int, pow2(j) as int);
    } else {
        assert(j < k) by {
            if j > k {
                assert((k + 1) * h <= j * h) by (nonlinear_arith)
                    requires
                        k + 1 <= j,
                        0 <= h,
                ;
                assert((k + 1) * h == k * h + h) by (nonlinear_arith);
            }
        }
        if j + 1 < k {
            lemma_pow2_strictly_increases((j + 1) as nat, k);
        }
        lemma_pow2_unfold((j + 1) as nat);
        assert(m * pow2(j) < (2 * h) * pow2(j)) by (nonlinear_arith)
            requires
                m < 2 * h,
                pow2(j) > 0,
        ;
        assert((2 * h) * pow2(j) == h * (2 * pow2(j))) by (nonlinear_arith);
        assert(h * (2 * pow2(j)) <= n * pow2(k)) by (nonlinear_arith)
            requires
                h <= n,
                2 * pow2(j) <= pow2(k),
                0 <= h,
                0 <= pow2(j),
        ;
    }
}

/// Numbers are ordered by their value.
pub proof fn law_order_is_by_value(a: Single, b: Single)
    requires
        a.finite(),
        b.finite(),
    ensures
        a.le_spec(b) <==> a.value() <= b.value(),
{
    lemma2_to64();
    if a.mag() < b.mag() {
        lemma_units_strict(24, a.mag(), b.mag());
    } else if b.mag() < a.mag() {
        lemma_units_strict(24, b.mag(), a.mag());
    }
    if a.mag() > 0 {
        lemma_units_strict(24, 0, a.mag());
    }
    if b.mag() > 0 {
        lemma_units_strict(24, 0, b.mag());
    }
    lemma2_to64_rest();
    assert(units(24, 0) == 0);
}

/// Whether `a` is no greater than `b`: by their values where both are finite. The negative
/// infinity is no greater than any number, and no number is greater than the positive one.
/// What is not a number is not ordered.
pub open spec fn no_greater(a: Single, b: Single) -> bool {
    if a.nan() || b.nan() {
        false
    } else if a.finite() && b.finite() {
        a.value() <= b.value()
    } else {
        (a.infinite() && a.negative()) || (b.infinite() && !b.negative())
    }
}

/// All numbers are ordered, the infinities too.
pub proof fn law_all_numbers_are_ordered(a: Single, b: Single)
    ensures
        a.le_spec(b) <==> no_greater(a, b),
{
    if a.finite() && b.finite() {
        law_order_is_by_value(a, b);
    }
}

/// The lesser of two numbers is one of them, and no greater than either; likewise the
/// greater. Of a number and what is none, the number is both.
pub proof fn law_lesser_and_greater(a: Single, b: Single)
    ensures
        a.min_spec(b) == a || a.min_spec(b) == b,
        a.max_spec(b) == a || a.max_spec(b) == b,
        !a.nan() && !b.nan() ==> {
            &&& no_greater(a.min_spec(b), a) && no_greater(a.min_spec(b), b)
            &&& no_greater(a, a.max_spec(b)) && no_greater(b, a.max_spec(b))
        },
        a.nan() ==> a.min_spec(b) == b && a.max_spec(b) == b,
        b.nan() && !a.nan() ==> a.min_spec(b) == a && a.max_spec(b) == a,
{
    law_all_numbers_are_ordered(a, a);
    law_all_numbers_are_ordered(a, b);
    law_all_numbers_are_ordered(b, a);
    law_all_numbers_are_ordered(b, b);
}

/// What is no greater than a number is no greater than a greater one.
pub proof fn lemma_no_greater_chain(a: Single, b: Single, c: Single)
    requires
        no_greater(a, b),
        no_greater(b, c),
    ensures
        no_greater(a, c),
{
}

/// A rounded number with few enough digits has no greater magnitude than the format
/// holds.
proof fn lemma_double_fits(m: nat, k: nat)
    requires
        m < pow2(53),
        k <= 1300,
    ensures
        nearest(53, m * pow2(k), 1) < DOUBLE_INF,
        units(53, nearest(53, m * pow2(k), 1)) == m * pow2(k),
{
    let n = m * pow2(k);
    lemma2_to64();
    lemma2_to64_rest();
    lemma_mul_basics(n as int);
    lemma_nearest_exact(53, m, k, 1);
    assert(n / 1 == n);
    lemma_nearest_digits(53, n, 1);
    let e = excess(53, n, 1);
    assert(e <= 1353) by {
        if m == 0 {
            assert(n == 0) by (nonlinear_arith)
                requires
                    n == m * pow2(k),
                    m == 0,
            ;
        } else {
            lemma_bit_len_bounds(m);
            if bit_len(m) > 53 {
                lemma_pow2_strictly_increases(53, bit_len(m));
                if bit_len(m) > 54 {
                    lemma_pow2_strictly_increases(53, (bit_len(m) - 1) as nat);
                }
            }
            lemma_bit_len_scale(m, k);
        }
    }
    assert(nearest(53, n, 1) == e * pow2(52) + half_even(n, 1 * pow2(e)));
    assert(e * pow2(52) <= 1353 * pow2(52)) by (nonlinear_arith)
        requires
            e <= 1353,
            0 <= pow2(52),
    ;
}

/// A single-precision number keeps its sign and its value in double precision.
pub proof fn law_widening_keeps_the_value(s: Single)
    requires
        s.finite(),
    ensures
        s.widen_spec().finite(),
        s.widen_spec().negative() == s.negative(),
        s.widen_spec().units() == s.units() * pow2(SCALE_STEP as nat),
{
    lemma2_to64();
    lemma2_to64_rest();
    let (m, k) = lemma_units_parts(24, s.mag());
    lemma_pow2_adds(k, SCALE_STEP as nat);
    lemma_mul_is_associative(m as int, pow2(k) as int, pow2(SCALE_STEP as nat) as int);
    assert(k < 256) by (nonlinear_arith)
        requires
            s.mag() == k * 0x80_0000 + m,
            s.mag() < 0x8000_0000,
    ;
    lemma_double_fits(m, k + SCALE_STEP as nat);
}

/// The double-precision number of an integer of up to 53 binary digits is exact.
pub proof fn law_integers_are_exact(n: int)
    requires
        -0x20_0000_0000_0000 < n < 0x20_0000_0000_0000,
    ensures
        Double::from_int(n).finite(),
        Double::from_int(n).negative() == (n < 0),
        Double::from_int(n).units() == (if n < 0 {
            -n
        } else {
            n
        }) * pow2(DOUBLE_SCALE as nat),
{
    lemma2_to64();
    lemma2_to64_rest();
    let a = if n < 0 {
        (-n) as nat
    } else {
        n as nat
    };
    lemma_double_fits(a, DOUBLE_SCALE as nat);
}

/// A single-precision number with few enough digits has no greater magnitude than the
/// format holds.
proof fn lemma_single_fits(m: nat, d: nat)
    requires
        m < pow2(24),
        d > 0,
    ensures
        nearest(24, (m * pow2(SINGLE_SCALE as nat)) * d, d) < SINGLE_INF,
        units(24, nearest(24, (m * pow2(SINGLE_SCALE as nat)) * d, d)) == m * pow2(
            SINGLE_SCALE as nat,
        ),
{
    let k = SINGLE_SCALE as nat;
    let v = m * pow2(k);
    let n = v * d;
    lemma2_to64();
    lemma2_to64_rest();
    lemma_nearest_exact(24, m, k, d);
    lemma_div_by_multiple(v as int, d as int);
    lemma_nearest_digits(24, n, d);
    let e = excess(24, n, d);
    assert(e <= 149) by {
        if m == 0 {
            assert(v == 0) by (nonlinear_arith)
                requires
                    v == m * pow2(k),
                    m == 0,
            ;
        } else {
            lemma_bit_len_bounds(m);
            if bit_len(m) > 24 {
                if bit_len(m) > 25 {
                    lemma_pow2_strictly_increases(24, (bit_len(m) - 1) as nat);
                }
            }
            lemma_bit_len_scale(m, k);
        }
    }
    assert(nearest(24, n, d) == e * pow2(23) + half_even(n, d * pow2(e)));
    assert(e * pow2(23) <= 149 * pow2(23)) by (nonlinear_arith)
        requires
            e <= 149,
            0 <= pow2(23),
    ;
}

/// The single-precision number of an integer of up to 24 binary digits is exact.
pub proof fn law_small_integers_are_exact_in_single_precision(n: int)
    requires
        -0x100_0000 < n < 0x100_0000,
    ensures
        Double::from_int(n).narrow_spec().finite(),
        Double::from_int(n).narrow_spec().value() == n * pow2(SINGLE_SCALE as nat),
{
    lemma2_to64();
    lemma2_to64_rest();
    law_integers_are_exact(n);
    let a = if n < 0 {
        (-n) as nat
    } else {
        n as nat
    };
    lemma_pow2_adds(SINGLE_SCALE as nat, SCALE_STEP as nat);
    lemma_pow2_pos(SCALE_STEP as nat);
    lemma_mul_is_associative(
        a as int,
        pow2(SINGLE_SCALE as nat) as int,
        pow2(SCALE_STEP as nat) as int,
    );
    lemma_single_fits(a, pow2(SCALE_STEP as nat));
    assert(-(a * pow2(SINGLE_SCALE as nat)) == (-a) * pow2(SINGLE_SCALE as nat))
        by (nonlinear_arith);
}

/// The product of two whole numbers is exact in single precision as long as it has up to 24
/// binary digits.
pub proof fn law_whole_products_are_exact(a: Single, b: Single, m: nat, k: nat)
    requires
        a.finite() && b.finite(),
        !a.negative() && !b.negative(),
        a.units() == m * pow2(SINGLE_SCALE as nat),
        b.units() == k * pow2(SINGLE_SCALE as nat),
        m * k < 0x100_0000,
    ensures
        a.mul_spec(b).finite(),
        a.mul_spec(b).value() == (m * k) * pow2(SINGLE_SCALE as nat),
{
    let one = pow2(SINGLE_SCALE as nat);
    lemma_pow2_pos(SINGLE_SCALE as nat);
    assert(pow2(24) == 0x100_0000) by {
        lemma2_to64();
    }
    lemma_single_fits(m * k, one);
    assert((m * one) * (k * one) == ((m * k) * one) * one) by (nonlinear_arith);
    assert(a.mul_spec(b) == Single::signed(false, nearest(24, a.units() * b.units(), one)));
}

/// The quotient of a whole number and one that divides it is exact in single precision as
/// long as it has up to 24 binary digits.
pub proof fn law_whole_quotients_are_exact(a: Single, q: nat, k: nat)
    requires
        a.finite(),
        !a.negative(),
        a.units() == (q * k) * pow2(SINGLE_SCALE as nat),
        k > 0,
        q < 0x100_0000,
    ensures
        a.div_spec(k).finite(),
        a.div_spec(k).value() == q * pow2(SINGLE_SCALE as nat),
{
    let one = pow2(SINGLE_SCALE as nat);
    assert(pow2(24) == 0x100_0000) by {
        lemma2_to64();
    }
    lemma_single_fits(q, k);
    assert((q * k) * one == (q * one) * k) by (nonlinear_arith);
    assert(a.div_spec(k) == Single::signed(false, nearest(24, a.units(), k)));
}

/// The whole part of a number that is not negative is at most the number, and more than
/// one less.
pub proof fn law_whole_part_is_below(s: Single)
    requires
        s.finite(),
        0 <= s.value() < 0x1_0000_0000 * pow2(SINGLE_SCALE as nat),
    ensures
        s.whole() * pow2(SINGLE_SCALE as nat) <= s.value() < (s.whole() + 1) * pow2(
            SINGLE_SCALE as nat,
        ),
{
    let one = pow2(SINGLE_SCALE as nat) as int;
    let v = s.units() as int;
    lemma_pow2_pos(SINGLE_SCALE as nat);
    lemma_fundamental_div_mod(v, one);
    lemma_mod_bound(v, one);
    if s.negative() {
        assert(v == 0);
        lemma_basic_div(0, one);
    }
    assert(v / one < 0x1_0000_0000) by (nonlinear_arith)
        requires
            v < 0x1_0000_0000 * one,
            one > 0,
            v == one * (v / one) + v % one,
            0 <= v % one,
    ;
    lemma_mul_is_commutative(one, v / one);
    assert((v / one + 1) * one == (v / one) * one + one) by (nonlinear_arith);
    lemma_mul_basics(one);
}

/// The number one is one.
pub proof fn law_one_is_one()
    ensures
        Single::one().finite(),
        Single::one().value() == pow2(SINGLE_SCALE as nat),
{
    lemma2_to64();
    lemma2_to64_rest();
    let (m, k) = lemma_units_parts(24, 0x3f80_0000);
    assert(Single::one().mag() == 0x3f80_0000);
    assert(units(24, 0x3f80_0000) == 0x80_0000 * pow2(126)) by {
        assert(0x3f80_0000nat % 0x80_0000nat == 0);
        assert(0x3f80_0000nat / 0x80_0000nat == 127);
    }
    lemma_pow2_adds(23, 126);
}

/// A number that the format holds is its own rounding.
proof fn lemma_nearest_of_units(p: nat, mag: nat, d: nat)
    requires
        p > 1,
        d > 0,
    ensures
        nearest(p, units(p, mag) * d, d) == mag,
{
    let (m, k) = lemma_units_parts(p, mag);
    let got = nearest(p, units(p, mag) * d, d);
    lemma_nearest_exact(p, m, k, d);
    if got < mag {
        lemma_units_strict(p, got, mag);
    } else if mag < got {
        lemma_units_strict(p, mag, got);
    }
}

/// A difference, a product or a quotient is exact wherever there is a number that it can be.
pub proof fn law_results_are_exact_where_they_can_be(a: Single, b: Single, d: nat, r: Single)
    requires
        a.finite() && b.finite() && r.finite(),
    ensures
        r.value() == a.value() - b.value() && r.value() != 0 ==> a.sub_spec(b) == r,
        a.value() == b.value() ==> a.sub_spec(b).mag() == 0,
        r.negative() == (a.negative() != b.negative()) && r.units() * pow2(SINGLE_SCALE as nat)
            == a.units() * b.units() ==> a.mul_spec(b) == r,
        d > 0 && r.negative() == a.negative() && r.units() * d == a.units() ==> a.div_spec(d) == r,
{
    lemma_pow2_pos(SINGLE_SCALE as nat);
    lemma_nearest_of_units(24, r.mag(), 1);
    lemma_mul_basics(r.units() as int);
    lemma_nearest_of_units(24, r.mag(), pow2(SINGLE_SCALE as nat));
    if d > 0 {
        lemma_nearest_of_units(24, r.mag(), d);
    }
}

/// A number in double precision that came of single precision goes back to it.
pub proof fn law_narrowing_undoes_widening(s: Single)
    requires
        s.finite(),
    ensures
        s.widen_spec().narrow_spec() == s,
{
    lemma_pow2_pos(SCALE_STEP as nat);
    law_widening_keeps_the_value(s);
    lemma_nearest_of_units(24, s.mag(), pow2(SCALE_STEP as nat));
}

/// A quotient is rounded to the nearest whole number, and to the even one of two that are
/// as near.
pub proof fn law_rounding_is_to_the_nearest_even(n: nat, d: nat)
    requires
        d > 0,
    ensures
        2 * (half_even(n, d) * d) <= 2 * n + d,
        2 * n <= 2 * (half_even(n, d) * d) + d,
        2 * (half_even(n, d) * d) == 2 * n + d || 2 * n == 2 * (half_even(n, d) * d) + d
            ==> half_even(n, d) % 2 == 0,
{
    lemma_half_even_error(n, d);
    let q = n / d;
    lemma_fundamental_div_mod(n as int, d as int);
    assert((q + 1) * d == d * q + d) by (nonlinear_arith);
    lemma_mul_is_commutative(q as int, d as int);
}

/// A negative number, or what is not a number, has no whole part, and one that is too great
/// has the greatest.
pub proof fn law_whole_part_stays_in_range(s: Single)
    ensures
        s.finite() && s.value() < 0 ==> s.whole() == 0,
        s.nan() ==> s.whole() == 0,
        s.infinite() && s.negative() ==> s.whole() == 0,
        s.infinite() && !s.negative() ==> s.whole() == 0xffff_ffff,
        s.finite() && s.value() >= 0xffff_ffff * pow2(SINGLE_SCALE as nat) ==> s.whole()
            == 0xffff_ffff,
{
    let one = pow2(SINGLE_SCALE as nat) as int;
    lemma_pow2_pos(SINGLE_SCALE as nat);
    if s.finite() && s.value() >= 0xffff_ffff * one {
        let v = s.units() as int;
        assert(0xffff_ffff * one > 0) by (nonlinear_arith)
            requires
                one > 0,
        ;
        lemma_fundamental_div_mod(v, one);
        lemma_mod_bound(v, one);
        assert(v / one >= 0xffff_ffff) by (nonlinear_arith)
            requires
                v >= 0xffff_ffff * one,
                v == one * (v / one) + v % one,
                v % one < one,
                one > 0,
        ;
    }
}

/// How far two whole numbers are apart.
pub open spec fn gap(a: int, b: int) -> int {
    if a < b {
        b - a
    } else {
        a - b
    }
}

/// No other multiple of `d` is nearer to a number than the one that it is rounded to.
proof fn lemma_no_multiple_is_nearer(n: nat, d: nat, w: nat)
    requires
        d > 0,
    ensures
        gap((half_even(n, d) * d) as int, n as int) <= gap((w * d) as int, n as int),
{
    let m = half_even(n, d);
    lemma_half_even_error(n, d);
    if w < m {
        assert((w + 1) * d <= m * d) by (nonlinear_arith)
            requires
                w + 1 <= m,
        ;
        assert((w + 1) * d == w * d + d) by (nonlinear_arith);
    } else if m < w {
        assert((m + 1) * d <= w * d) by (nonlinear_arith)
            requires
                m + 1 <= w,
        ;
        assert((m + 1) * d == m * d + d) by (nonlinear_arith);
    }
}

/// No other number of the format is nearer to a quotient than the one that it is rounded
/// to.
proof fn lemma_no_number_is_nearer(p: nat, n: nat, d: nat, mag: nat)
    requires
        p > 1,
        d > 0,
    ensures
        gap((units(p, nearest(p, n, d)) * d) as int, n as int) <= gap(
            (units(p, mag) * d) as int,
            n as int,
        ),
{
    let k = excess(p, n, d);
    let dk = d * pow2(k);
    let m = half_even(n, dk);
    let h = pow2((p - 1) as nat);
    let (a, j) = lemma_units_parts(p, mag);
    lemma_pow2_pos(k);
    lemma_mul_strictly_positive(d as int, pow2(k) as int);
    lemma_units_of_nearest(p, n, d);
    assert((m * pow2(k)) * d == m * dk) by (nonlinear_arith)
        requires
            dk == d * pow2(k),
    ;
    if j >= k {
        let w = a * pow2((j - k) as nat);
        lemma_pow2_adds((j - k) as nat, k);
        lemma_mul_is_associative(a as int, pow2((j - k) as nat) as int, pow2(k) as int);
        assert((w * pow2(k)) * d == w * dk) by (nonlinear_arith)
            requires
                dk == d * pow2(k),
        ;
        lemma_no_multiple_is_nearer(n, dk, w);
    } else {
        let q = n / d;
        lemma_bit_len_bounds(q);
        lemma_fundamental_div_mod(n as int, d as int);
        lemma_pow2_adds((p - 1) as nat, k);
        lemma_pow2_unfold(p);
        lemma_pow2_unfold((j + 1) as nat);
        if j + 1 < k {
            lemma_pow2_strictly_increases((j + 1) as nat, k);
        }
        assert(h * dk <= n) by (nonlinear_arith)
            requires
                n == d * q + n % d,
                n % d >= 0,
                q >= h * pow2(k),
                dk == d * pow2(k),
                d > 0,
        ;
        assert(a * pow2(j) <= (2 * h) * pow2(j)) by (nonlinear_arith)
            requires
                a < 2 * h,
        ;
        assert((2 * h) * pow2(j) == h * (2 * pow2(j))) by (nonlinear_arith);
        assert(h * (2 * pow2(j)) <= h * pow2(k)) by (nonlinear_arith)
            requires
                2 * pow2(j) <= pow2(k),
                0 <= h,
        ;
        assert(units(p, mag) * d <= h * dk) by (nonlinear_arith)
            requires
                units(p, mag) <= h * pow2(k),
                dk == d * pow2(k),
                d > 0,
        ;
        lemma_no_multiple_is_nearer(n, dk, h);
    }
}

/// No other number is nearer to the exact product of two numbers than their product.
pub proof fn law_products_are_the_nearest_numbers(a: Single, b: Single, other: Single)
    requires
        a.finite() && b.finite() && other.finite(),
    ensures
        a.mul_spec(b).negative() == (a.negative() != b.negative()),
        a.mul_spec(b).finite() ==> gap(
            (a.mul_spec(b).units() * pow2(SINGLE_SCALE as nat)) as int,
            (a.units() * b.units()) as int,
        ) <= gap(
            (other.units() * pow2(SINGLE_SCALE as nat)) as int,
            (a.units() * b.units()) as int,
        ),
{
    lemma_pow2_pos(SINGLE_SCALE as nat);
    lemma_no_number_is_nearer(
        24,
        a.units() * b.units(),
        pow2(SINGLE_SCALE as nat),
        other.mag(),
    );
}

/// No other number is nearer to the exact quotient of a number and a whole number than
/// their quotient.
pub proof fn law_quotients_are_the_nearest_numbers(a: Single, d: nat, other: Single)
    requires
        a.finite() && other.finite(),
        d > 0,
    ensures
        a.div_spec(d).negative() == a.negative(),
        a.div_spec(d).finite() ==> gap((a.div_spec(d).units() * d) as int, a.units() as int) <= gap(
            (other.units() * d) as int,
            a.units() as int,
        ),
{
    lemma_no_number_is_nearer(24, a.units(), d, other.mag());
}

/// No other number is nearer to the exact difference of two numbers than their difference.
pub proof fn law_differences_are_the_nearest_numbers(a: Single, b: Single, other: Single)
    requires
        a.finite() && b.finite() && other.finite(),
        a.sub_spec(b).finite(),
    ensures
        gap(a.sub_spec(b).value(), a.value() - b.value()) <= gap(
            other.value(),
            a.value() - b.value(),
        ),
{
    let v = a.value() - b.value();
    let n = gap(v, 0) as nat;
    let r = a.sub_spec(b);
    assert(units(24, 0) == 0) by {
        lemma2_to64();
    }
    if v == 0 {
        assert(r.mag() == 0);
    } else {
        assert(r.mag() == nearest(24, n, 1));
        assert(r.negative() == (v < 0));
        lemma_no_number_is_nearer(24, n, 1, other.mag());
        lemma_no_number_is_nearer(24, n, 1, 0);
        lemma_mul_basics(other.units() as int);
        lemma_mul_basics(r.units() as int);
    }
}

/// No single-precision number is nearer to a number than the one that it is narrowed to.
pub proof fn law_narrowing_is_to_the_nearest_number(x: Double, other: Single)
    requires
        x.finite() && other.finite(),
    ensures
        x.narrow_spec().negative() == x.negative(),
        x.narrow_spec().finite() ==> gap(
            (x.narrow_spec().units() * pow2(SCALE_STEP as nat)) as int,
            x.units() as int,
        ) <= gap((other.units() * pow2(SCALE_STEP as nat)) as int, x.units() as int),
{
    lemma_pow2_pos(SCALE_STEP as nat);
    lemma_no_number_is_nearer(24, x.units(), pow2(SCALE_STEP as nat), other.mag());
}

/// The product of an infinity and a number that is not zero is infinite, and so is what is
/// too great; what is not a number stays so.
pub proof fn law_infinities_stay_infinite(a: Single, b: Single, d: nat)
    ensures
        a.infinite() && !b.nan() && b.mag() > 0 ==> a.mul_spec(b).infinite() && a.mul_spec(
            b,
        ).negative() == (a.negative() != b.negative()),
        a.infinite() && b.mag() == 0 ==> a.mul_spec(b).nan(),
        a.nan() || b.nan() ==> a.mul_spec(b).nan() && a.sub_spec(b).nan(),
        a.nan() ==> a.div_spec(d).nan(),
        a.infinite() ==> a.div_spec(d) == a,
        a.infinite() && b.finite() ==> a.sub_spec(b) == a,
        a.finite() && b.infinite() ==> a.sub_spec(b).infinite() && a.sub_spec(b).negative()
            != b.negative(),
{
}

/// A number that is too great for single precision is infinite there, and keeps its sign.
pub proof fn law_narrowing_may_overflow(x: Double)
    ensures
        x.nan() ==> x.narrow_spec().nan(),
        x.infinite() ==> x.narrow_spec().infinite() && x.narrow_spec().negative() == x.negative(),
        x.finite() && x.units() >= pow2(1202) ==> x.narrow_spec().infinite()
            && x.narrow_spec().negative() == x.negative(),
{
    if x.finite() && x.units() >= pow2(1202) {
        let n = x.units();
        let d = pow2(SCALE_STEP as nat);
        let q = n / d;
        let k = excess(24, n, d);
        lemma_pow2_pos(SCALE_STEP as nat);
        lemma_pow2_adds(277, SCALE_STEP as nat);
        lemma_div_is_ordered((pow2(277) * d) as int, n as int, d as int);
        lemma_div_by_multiple(pow2(277) as int, d as int);
        lemma_bit_len_bounds(q);
        if bit_len(q) <= 277 {
            if bit_len(q) < 277 {
                lemma_pow2_strictly_increases(bit_len(q), 277);
            }
        }
        assert(k >= 254);
        lemma_nearest_digits(24, n, d);
        lemma2_to64();
        assert(k * pow2(23) >= 254 * pow2(23)) by (nonlinear_arith)
            requires
                k >= 254,
                pow2(23) >= 0,
        ;
        assert(nearest(24, n, d) >= SINGLE_INF);
    }
}

} // verus!
