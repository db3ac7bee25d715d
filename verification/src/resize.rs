//! Target sizes that keep the aspect ratio of an image.
use crate::float::{at_most, parts, whole_part, DOUBLE_SCALE};
use crate::rounding::{
    bit_len, excess, lemma_bit_len_bounds, lemma_nearest_error, lemma_nearest_exact, nearest,
    power_of_two, round_quotient, round_scaled, units,
};
use vstd::arithmetic::div_mod::*;
use vstd::arithmetic::mul::*;
use vstd::arithmetic::power2::*;
use vstd::prelude::*;

verus! {

/// One, in double-precision units.
pub open spec fn double_one() -> nat {
    pow2(DOUBLE_SCALE as nat)
}

/// The double-precision quotient of two whole numbers, in units.
pub open spec fn ratio(target: nat, source: nat) -> nat {
    units(53, nearest(53, target * double_one(), source))
}

/// The double-precision product of a whole number and a number of `r` units, in
/// units.
pub open spec fn stretched(side: nat, r: nat) -> nat {
    units(53, nearest(53, side * r, 1))
}

/// The side that goes with a target for the other side: `side` times the
/// double-precision quotient of `target` and `source`, rounded to the nearest
/// whole number, a tie away from zero, and at most the greatest `u32`.
///
/// A division by zero gives infinity or, for zero by zero, NaN; so does the
/// product with zero. NaN becomes zero, infinity the greatest `u32`.
pub open spec fn scaled_side_spec(side: u32, target: u32, source: u32) -> nat {
    if source == 0 {
        if target == 0 || side == 0 {
            0
        } else {
            u32::MAX as nat
        }
    } else {
        let v = stretched(side as nat, ratio(target as nat, source as nat));
        at_most((2 * v + double_one()) / (2 * double_one()), u32::MAX as nat)
    }
}

/// The size that has the requested width or, where no width is requested, the
/// requested height, and keeps the aspect ratio.
pub open spec fn requested_size(
    w: u32,
    h: u32,
    tw: Option<u32>,
    th: Option<u32>,
) -> Option<(u32, u32)> {
    match (tw, th) {
        (Some(tw), _) => Some((tw, scaled_side_spec(h, tw, w) as u32)),
        (None, Some(th)) => Some((scaled_side_spec(w, th, h) as u32, th)),
        (None, None) => None,
    }
}

/// The size to resize an image to; `None` where no size is requested, or the image
/// already has it.
pub open spec fn resize_dims_spec(
    w: u32,
    h: u32,
    tw: Option<u32>,
    th: Option<u32>,
) -> Option<(u32, u32)> {
    if requested_size(w, h, tw, th) == Some((w, h)) {
        None
    } else {
        requested_size(w, h, tw, th)
    }
}

/// The nearest whole number, a tie away from zero, to `m * 2^k` units.
fn nearest_whole(m: u64, k: u32) -> (r: u32)
    requires
        m < 0x20_0000_0000_0000,
        k < 2048,
    ensures
        r == at_most(
            (2 * (m as nat * pow2(k as nat)) + double_one()) / (2 * double_one()),
            u32::MAX as nat,
        ),
{
    let ghost v = m as nat * pow2(k as nat);
    let ghost one = double_one();
    proof {
        lemma_pow2_pos(DOUBLE_SCALE as nat);
        lemma2_to64();
        lemma2_to64_rest();
    }
    if k >= DOUBLE_SCALE {
        proof {
            // A whole number stays as it is.
            let up = (k - DOUBLE_SCALE) as nat;
            lemma_pow2_adds(up, DOUBLE_SCALE as nat);
            lemma_mul_is_associative(m as int, pow2(up) as int, one as int);
            let w = m as nat * pow2(up);
            assert(v == w * one);
            lemma_div_by_multiple(w as int, one as int);
            assert(2 * v + one == w * (2 * one) + one) by (nonlinear_arith)
                requires
                    v == w * one,
            ;
            lemma_fundamental_div_mod_converse(
                (2 * v + one) as int,
                (2 * one) as int,
                w as int,
                one as int,
            );
        }
        whole_part(m, k, DOUBLE_SCALE, u32::MAX as u64) as u32
    } else {
        let down: u32 = DOUBLE_SCALE - k;
        proof {
            let c = pow2(k as nat);
            let d = pow2(down as nat);
            lemma_pow2_adds(down as nat, k as nat);
            lemma_pow2_pos(k as nat);
            lemma_pow2_pos(down as nat);
            assert(2 * v + one == (2 * m + d) * c) by (nonlinear_arith)
                requires
                    v == m * c,
                    one == d * c,
            ;
            assert(2 * one == c * (2 * d)) by (nonlinear_arith)
                requires
                    one == d * c,
            ;
            lemma_div_denominator((2 * v + one) as int, c as int, (2 * d) as int);
            lemma_div_by_multiple((2 * m + d) as int, c as int);
            assert((2 * v + one) / (2 * one) == (2 * m + d) / (2 * d as int));
        }
        if down >= 64 {
            proof {
                if down > 64 {
                    lemma_pow2_strictly_increases(64, down as nat);
                }
                lemma_basic_div(2 * m + pow2(down as nat), (2 * pow2(down as nat)) as int);
            }
            return 0;
        }
        let d: u128 = power_of_two(down);
        proof {
            lemma_pow2_strictly_increases(down as nat, 64);
        }
        let w: u128 = (2 * m as u128 + d) / (2 * d);
        if w < u32::MAX as u128 {
            w as u32
        } else {
            u32::MAX
        }
    }
}

/// The side that goes with a target for the other side.
pub fn scaled_side(side: u32, target: u32, source: u32) -> (r: u32)
    ensures
        r == scaled_side_spec(side, target, source),
{
    if source == 0 {
        return if target == 0 || side == 0 {
            0
        } else {
            u32::MAX
        };
    }
    proof {
        lemma2_to64();
        lemma2_to64_rest();
    }
    let scale: u64 = round_quotient(53, target as u64, DOUBLE_SCALE, source as u64);
    let (m, k): (u64, u32) = parts(53, scale);
    proof {
        assert(k < 1300) by (nonlinear_arith)
            requires
                scale == k * 0x10_0000_0000_0000 + m,
                scale < 1200 * 0x10_0000_0000_0000,
        ;
        assert(side * m < 0x1_0000_0000 * 0x20_0000_0000_0000) by (nonlinear_arith)
            requires
                side < 0x1_0000_0000,
                m < 0x20_0000_0000_0000,
        ;
        lemma_pow2_adds(36, 64);
        lemma_mul_is_associative(side as int, m as int, pow2(k as nat) as int);
    }
    let n: u128 = side as u128 * m as u128;
    let product: u64 = round_scaled(53, n, k as i32);
    let (v, e): (u64, u32) = parts(53, product);
    nearest_whole(v, e)
}

/// Computes the target size that preserves the aspect ratio of a `w` by `h`
/// image. A requested width takes precedence over a requested height. Gives
/// `None` where no resize is needed: no size is requested, or the image already
/// has it.
pub fn resize_dims(w: u32, h: u32, tw: Option<u32>, th: Option<u32>) -> (r: Option<(u32, u32)>)
    ensures
        r == resize_dims_spec(w, h, tw, th),
{
    let (nw, nh): (u32, u32) = match (tw, th) {
        (Some(tw), _) => (tw, scaled_side(h, tw, w)),
        (None, Some(th)) => (scaled_side(w, th, h), th),
        (None, None) => return None,
    };
    if nw == w && nh == h {
        None
    } else {
        Some((nw, nh))
    }
}

/// A requested width is the resulting width, whatever height is requested; where no
/// resize is needed, the image already has it.
pub proof fn law_width_takes_precedence(w: u32, h: u32, tw: u32, th: Option<u32>)
    ensures
        resize_dims_spec(w, h, Some(tw), th) == resize_dims_spec(w, h, Some(tw), None),
        match resize_dims_spec(w, h, Some(tw), th) {
            Some(size) => size.0 == tw,
            None => w == tw,
        },
{
}

/// A requested height, where no width is requested, is the resulting height; where no
/// resize is needed, the image already has it.
pub proof fn law_height_is_kept(w: u32, h: u32, th: u32)
    ensures
        match resize_dims_spec(w, h, None, Some(th)) {
            Some(size) => size.1 == th,
            None => h == th,
        },
{
}

/// One is exactly one: the quotient of a number and itself.
proof fn lemma_ratio_of_equals(n: nat)
    requires
        n > 0,
    ensures
        ratio(n, n) == double_one(),
{
    lemma2_to64();
    lemma2_to64_rest();
    lemma_mul_basics(double_one() as int);
    lemma_nearest_exact(53, 1, DOUBLE_SCALE as nat, n);
    lemma_mul_is_commutative(n as int, double_one() as int);
}

/// A whole number of ones is exact.
proof fn lemma_stretched_one(side: nat)
    requires
        side <= u32::MAX,
    ensures
        stretched(side, double_one()) == side * double_one(),
{
    lemma2_to64();
    lemma2_to64_rest();
    lemma_mul_basics((side * double_one()) as int);
    lemma_nearest_exact(53, side, DOUBLE_SCALE as nat, 1);
}

/// An image that already has the width or the height asked for needs no resize.
pub proof fn law_same_size_needs_no_resize(w: u32, h: u32)
    ensures
        w > 0 ==> resize_dims_spec(w, h, Some(w), None) is None,
        h > 0 ==> resize_dims_spec(w, h, None, Some(h)) is None,
{
    if w > 0 {
        lemma_side_of_same(h, w);
    }
    if h > 0 {
        lemma_side_of_same(w, h);
    }
}

proof fn lemma_side_of_same(side: u32, source: u32)
    requires
        source > 0,
    ensures
        scaled_side_spec(side, source, source) == side,
{
    let one = double_one();
    lemma_pow2_pos(DOUBLE_SCALE as nat);
    lemma_ratio_of_equals(source as nat);
    lemma_stretched_one(side as nat);
    assert(2 * (side * one) + one == side * (2 * one) + one) by (nonlinear_arith);
    lemma_fundamental_div_mod_converse(
        2 * (side * one) + one,
        (2 * one) as int,
        side as int,
        one as int,
    );
}

/// A quotient of at least `2^53` units loses digits.
proof fn lemma_loses_digits(n: nat, d: nat)
    requires
        0 < d <= u32::MAX,
        n >= pow2(1041) * d,
    ensures
        excess(53, n, d) > 0,
{
    let q = n / d;
    lemma_div_is_ordered((pow2(1041) * d) as int, n as int, d as int);
    lemma_div_by_multiple(pow2(1041) as int, d as int);
    lemma_bit_len_bounds(q);
    if bit_len(q) <= 53 {
        if bit_len(q) < 53 {
            lemma_pow2_strictly_increases(bit_len(q), 53);
        }
        lemma_pow2_strictly_increases(53, 1041);
    }
}

/// The errors of the quotient and of the product that make up a side.
proof fn lemma_side_errors(h: nat, t: nat, w: nat)
    requires
        h <= u32::MAX,
        t <= u32::MAX,
        0 < w <= u32::MAX,
    ensures
        ({
            let big = 0x20_0000_0000_0000nat;
            let u = double_one();
            let r = ratio(t, w);
            let v = stretched(h, r);
            &&& big * (r * w) <= big * (t * u) + t * u
            &&& big * (t * u) <= big * (r * w) + t * u
            &&& big * v <= big * (h * r) + h * r
            &&& big * (h * r) <= big * v + h * r
        }),
{
    let big = 0x20_0000_0000_0000nat;
    let u = double_one();
    let r = ratio(t, w);
    let small = pow2(1041);
    lemma_pow2_pos(1041);
    lemma2_to64();
    lemma2_to64_rest();
    lemma_pow2_adds(1041, 33);
    lemma_pow2_adds(32, 1);
    assert(u == small * 0x2_0000_0000);
    if t > 0 {
        assert(t * u >= small * w) by (nonlinear_arith)
            requires
                t >= 1,
                w <= 0x1_0000_0000,
                u == small * 0x2_0000_0000,
                small > 0,
        ;
        lemma_loses_digits(t * u, w);
        lemma_nearest_error(53, t * u, w);
        if h > 0 {
            assert(r >= small) by {
                if r < small {
                    assert(r * w <= small * 0x1_0000_0000) by (nonlinear_arith)
                        requires
                            r <= small,
                            w <= 0x1_0000_0000,
                    ;
                    assert(t * u >= u) by (nonlinear_arith)
                        requires
                            t >= 1,
                            u >= 0,
                    ;
                }
            }
            assert(h * r >= small * 1) by (nonlinear_arith)
                requires
                    h >= 1,
                    r >= small,
            ;
            lemma_loses_digits(h * r, 1);
            lemma_nearest_error(53, h * r, 1);
            lemma_mul_basics(stretched(h, r) as int);
        }
    } else {
        lemma_mul_basics(u as int);
        lemma_mul_basics(w as int);
        lemma_mul_basics(pow2(0) as int);
        lemma_nearest_exact(53, 0, 0, w);
        lemma_mul_basics(h as int);
    }
    if h == 0 || t == 0 {
        lemma_mul_basics(r as int);
        lemma_mul_basics(h as int);
        lemma_mul_basics(pow2(0) as int);
        lemma_nearest_exact(53, 0, 0, 1);
    }
}

/// The aspect ratio is preserved: the computed side differs from the exact
/// `side * target / source` by at most half a pixel and the rounding errors of
/// two double-precision operations, three parts in `2^53` of the exact side. Only where
/// that is beyond the greatest `u32` it is less.
pub proof fn law_aspect_ratio_is_preserved(side: u32, target: u32, source: u32)
    requires
        source > 0,
    ensures
        0x20_0000_0000_0000 * (scaled_side_spec(side, target, source) * source) <= 0x20_0000_0000_0000
            * (side * target) + 0x10_0000_0000_0000 * source + 3 * (side * target),
        scaled_side_spec(side, target, source) < u32::MAX ==> 0x20_0000_0000_0000 * (side * target)
            <= 0x20_0000_0000_0000 * (scaled_side_spec(side, target, source) * source)
            + 0x10_0000_0000_0000 * source + 3 * (side * target),
{
    let big = 0x20_0000_0000_0000int;
    let u = double_one() as int;
    let w = source as int;
    let h = side as int;
    let t = target as int;
    let r = ratio(target as nat, source as nat) as int;
    let v = stretched(side as nat, r as nat) as int;
    let s = (2 * v + u) / (2 * u);
    lemma_pow2_pos(DOUBLE_SCALE as nat);
    lemma_side_errors(side as nat, target as nat, source as nat);
    lemma_fundamental_div_mod(2 * v + u, 2 * u);
    // All terms times `w * u`.
    let x = (s * w) * u;
    let y = (h * t) * u;
    let z = w * u;
    let vw = v * w;
    let q = h * (r * w);
    assert(2 * x <= 2 * vw + z && 2 * vw + z <= 2 * x + 2 * z) by (nonlinear_arith)
        requires
            2 * v + u == (2 * u) * s + (2 * v + u) % (2 * u),
            0 <= (2 * v + u) % (2 * u) < 2 * u,
            x == (s * w) * u,
            z == w * u,
            vw == v * w,
            w > 0,
    ;
    assert(big * vw <= big * q + q && big * q <= big * vw + q) by (nonlinear_arith)
        requires
            big * v <= big * (h * r) + h * r,
            big * (h * r) <= big * v + h * r,
            vw == v * w,
            q == h * (r * w),
            w > 0,
    ;
    assert(big * q <= big * y + y && big * y <= big * q + y) by (nonlinear_arith)
        requires
            big * (r * w) <= big * (t * u) + t * u,
            big * (t * u) <= big * (r * w) + t * u,
            q == h * (r * w),
            y == (h * t) * u,
            h >= 0,
    ;
    assert(y >= 0) by (nonlinear_arith)
        requires
            y == (h * t) * u,
            h >= 0,
            t >= 0,
            u > 0,
    ;
    assert(big * x <= big * y + 3 * y + 0x10_0000_0000_0000 * z);
    assert(big * y <= big * x + 3 * y + 0x10_0000_0000_0000 * z);
    assert(big * (s * w) <= big * (h * t) + 0x10_0000_0000_0000 * w + 3 * (h * t))
        by (nonlinear_arith)
        requires
            big * x <= big * y + 3 * y + 0x10_0000_0000_0000 * z,
            x == (s * w) * u,
            y == (h * t) * u,
            z == w * u,
            u > 0,
    ;
    assert(big * (h * t) <= big * (s * w) + 0x10_0000_0000_0000 * w + 3 * (h * t))
        by (nonlinear_arith)
        requires
            big * y <= big * x + 3 * y + 0x10_0000_0000_0000 * z,
            x == (s * w) * u,
            y == (h * t) * u,
            z == w * u,
            u > 0,
    ;
    let capped = scaled_side_spec(side, target, source) as int;
    assert(capped * w <= s * w) by (nonlinear_arith)
        requires
            capped <= s,
            w > 0,
    ;
}

/// Half a pixel is rounded up: a side of which the exact size is known in halves, as for a
/// source of two pixels, or in other parts by a power of two, is exact to the pixel.
pub proof fn law_half_a_pixel_is_rounded_up(side: u32, target: u32, source: u32, k: nat)
    requires
        source == pow2(k),
        k <= 31,
        side * target < 0x20_0000_0000_0000,
    ensures
        scaled_side_spec(side, target, source) == at_most(
            ((2 * (side * target) + source) / (2 * source)) as nat,
            u32::MAX as nat,
        ),
{
    let low = (DOUBLE_SCALE - k) as nat;
    let h = side as nat;
    let t = target as nat;
    let w = source as nat;
    let u = double_one();
    let q = pow2(low);
    lemma2_to64();
    lemma2_to64_rest();
    lemma_pow2_pos(k);
    lemma_pow2_pos(low);
    lemma_pow2_adds(low, k);
    assert(u == q * w);
    assert(t * u == (t * q) * w) by (nonlinear_arith)
        requires
            u == q * w,
    ;
    lemma_nearest_exact(53, t, low, w);
    assert(ratio(t, w) == t * q);
    assert(h * (t * q) == (h * t) * q) by (nonlinear_arith);
    lemma_mul_basics(((h * t) * q) as int);
    lemma_nearest_exact(53, h * t, low, 1);
    let v = stretched(h, t * q);
    assert(v == (h * t) * q);
    let a = 2 * (h * t) + w;
    assert(2 * v + u == a * q && 2 * u == (2 * w) * q) by (nonlinear_arith)
        requires
            v == (h * t) * q,
            u == q * w,
            a == 2 * (h * t) + w,
    ;
    lemma_div_multiples_vanish_quotient(q as int, a as int, (2 * w) as int);
    lemma_mul_is_commutative(q as int, a as int);
    lemma_mul_is_commutative(q as int, (2 * w) as int);
}

} // verus!
