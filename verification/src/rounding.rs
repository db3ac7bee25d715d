//! Rounding of exact quotients to binary floating point.
//!
//! Every finite number of a binary format is a whole multiple of the smallest
//! positive number of that format. The specifications here measure numbers in
//! that unit, so that a finite number is a natural number and an exact result is
//! a quotient of two natural numbers. A number is written down as its magnitude,
//! the bit pattern without the sign bit.
use vstd::arithmetic::div_mod::*;
use vstd::arithmetic::mul::*;
use vstd::arithmetic::power2::*;
use vstd::prelude::*;

verus! {

/// The number of binary digits of `n`.
pub open spec fn bit_len(n: nat) -> nat
    decreases n,
{
    if n == 0 {
        0
    } else {
        1 + bit_len(n / 2)
    }
}

/// `n / d` rounded to the nearest whole number, a tie to the even one.
pub open spec fn half_even(n: nat, d: nat) -> nat {
    let q = n / d;
    let r = n % d;
    if 2 * r < d || (2 * r == d && q % 2 == 0) {
        q
    } else {
        q + 1
    }
}

/// How many binary digits of the whole part of `n / d` do not fit in `p` digits.
pub open spec fn excess(p: nat, n: nat, d: nat) -> nat {
    if bit_len(n / d) <= p {
        0
    } else {
        (bit_len(n / d) - p) as nat
    }
}

/// The magnitude of the number with `p` significant binary digits that is
/// nearest to `n / d` units, for a format without a largest exponent.
pub open spec fn nearest(p: nat, n: nat, d: nat) -> nat {
    let k = excess(p, n, d);
    k * pow2((p - 1) as nat) + half_even(n, d * pow2(k))
}

/// The units in the number whose magnitude is `mag`, in a format with `p`
/// significant binary digits.
pub open spec fn units(p: nat, mag: nat) -> nat {
    let h = pow2((p - 1) as nat);
    if mag < 2 * h {
        mag
    } else {
        (h + mag % h) * pow2((mag / h - 1) as nat)
    }
}

/// A number is below two to the power of its digit count, and at least half of
/// that unless it is zero.
pub proof fn lemma_bit_len_bounds(n: nat)
    ensures
        n < pow2(bit_len(n)),
        n > 0 ==> bit_len(n) > 0 && pow2((bit_len(n) - 1) as nat) <= n,
    decreases n,
{
    lemma2_to64();
    if n > 0 {
        lemma_bit_len_bounds(n / 2);
        lemma_pow2_unfold(bit_len(n));
        if n / 2 > 0 {
            lemma_pow2_unfold((bit_len(n) - 1) as nat);
        }
    }
}

/// The digit count is fixed by the powers of two around the number.
pub proof fn lemma_bit_len_unique(n: nat, b: nat)
    requires
        b > 0,
        pow2((b - 1) as nat) <= n < pow2(b),
    ensures
        bit_len(n) == b,
{
    lemma_bit_len_bounds(n);
    lemma_pow2_pos((b - 1) as nat);
    let c = bit_len(n);
    if c < b {
        if c < b - 1 {
            lemma_pow2_strictly_increases(c, (b - 1) as nat);
        }
    }
    if c > b {
        if b < c - 1 {
            lemma_pow2_strictly_increases(b, (c - 1) as nat);
        }
    }
}

/// Multiplying by a power of two appends digits.
pub proof fn lemma_bit_len_scale(n: nat, s: nat)
    requires
        n > 0,
    ensures
        bit_len(n * pow2(s)) == bit_len(n) + s,
{
    let b = bit_len(n);
    lemma_bit_len_bounds(n);
    lemma_pow2_adds(b, s);
    lemma_pow2_adds((b - 1) as nat, s);
    lemma_pow2_pos(s);
    lemma_mul_strict_inequality(n as int, pow2(b) as int, pow2(s) as int);
    lemma_mul_inequality(pow2((b - 1) as nat) as int, n as int, pow2(s) as int);
    lemma_bit_len_unique(n * pow2(s), b + s);
}

/// Dividing by a power of two drops digits.
pub proof fn lemma_bit_len_shrink(n: nat, s: nat)
    ensures
        bit_len(n / pow2(s)) == if bit_len(n) <= s {
            0
        } else {
            (bit_len(n) - s) as nat
        },
{
    let b = bit_len(n);
    lemma_bit_len_bounds(n);
    lemma_pow2_pos(s);
    if b <= s {
        if b < s {
            lemma_pow2_strictly_increases(b, s);
        }
        lemma_basic_div(n as int, pow2(s) as int);
    } else {
        let c = (b - s) as nat;
        lemma_pow2_adds(c, s);
        lemma_pow2_adds((c - 1) as nat, s);
        lemma_fundamental_div_mod(n as int, pow2(s) as int);
        let q = n / pow2(s);
        assert(pow2((c - 1) as nat) <= q) by {
            lemma_div_is_ordered(
                (pow2((c - 1) as nat) * pow2(s)) as int,
                n as int,
                pow2(s) as int,
            );
            lemma_div_by_multiple(pow2((c - 1) as nat) as int, pow2(s) as int);
        }
        assert(q < pow2(c)) by {
            if q >= pow2(c) {
                lemma_mul_inequality(pow2(c) as int, q as int, pow2(s) as int);
                lemma_mul_is_commutative(q as int, pow2(s) as int);
            }
        }
        lemma_bit_len_unique(q, c);
    }
}

/// Scaling both sides of a quotient keeps its rounding.
pub proof fn lemma_half_even_scale(n: nat, d: nat, c: nat)
    requires
        d > 0,
        c > 0,
    ensures
        half_even(n * c, d * c) == half_even(n, d),
{
    lemma_mul_strictly_positive(d as int, c as int);
    let q = (n / d) as int;
    let r = (n % d) as int;
    lemma_fundamental_div_mod(n as int, d as int);
    assert(n * c == q * (d * c) + r * c) by (nonlinear_arith)
        requires
            n == d * q + r,
    ;
    assert(0 <= r * c < d * c) by (nonlinear_arith)
        requires
            0 <= r < d,
            c > 0,
    ;
    lemma_fundamental_div_mod_converse((n * c) as int, (d * c) as int, q, r * c);
    assert(2 * (r * c) < d * c <==> 2 * r < d) by (nonlinear_arith)
        requires
            c > 0,
    ;
    assert(2 * (r * c) == d * c <==> 2 * r == d) by (nonlinear_arith)
        requires
            c > 0,
    ;
}

/// A whole quotient is its own rounding.
pub proof fn lemma_half_even_exact(m: nat, d: nat)
    requires
        d > 0,
    ensures
        half_even(m * d, d) == m,
{
    lemma_fundamental_div_mod_converse((m * d) as int, d as int, m as int, 0);
}

/// What is below one half rounds to zero.
pub proof fn lemma_half_even_small(n: nat, d: nat)
    requires
        2 * n < d,
    ensures
        half_even(n, d) == 0,
{
    lemma_basic_div(n as int, d as int);
    lemma_small_mod(n, d);
}

/// The rounding of a quotient below `2^p` is at most `2^p`.
pub proof fn lemma_half_even_bound(n: nat, d: nat, p: nat)
    requires
        d > 0,
        n < d * pow2(p),
    ensures
        half_even(n, d) <= pow2(p),
{
    lemma_multiply_divide_lt(n as int, d as int, pow2(p) as int);
}

/// The numerator of `n * 2^s` units.
pub open spec fn scaled_num(n: nat, s: int) -> nat {
    if s >= 0 {
        n * pow2(s as nat)
    } else {
        n
    }
}

/// The denominator of `n * 2^s` units.
pub open spec fn scaled_den(s: int) -> nat {
    if s >= 0 {
        1
    } else {
        pow2((-s) as nat)
    }
}

/// The rounding of `n / d` keeps `p` or, after a carry, `p + 1` digits, and fills
/// them where any digit was lost.
pub proof fn lemma_nearest_digits(p: nat, n: nat, d: nat)
    requires
        p > 0,
        d > 0,
    ensures
        half_even(n, d * pow2(excess(p, n, d))) <= pow2(p),
        excess(p, n, d) > 0 ==> pow2((p - 1) as nat) <= half_even(
            n,
            d * pow2(excess(p, n, d)),
        ),
{
    let k = excess(p, n, d);
    let q = n / d;
    let b = bit_len(q);
    lemma_bit_len_bounds(q);
    lemma_pow2_pos(k);
    lemma_pow2_adds(p, k);
    if b < p + k {
        lemma_pow2_strictly_increases(b, p + k);
    }
    lemma_mul_strictly_positive(d as int, pow2(k) as int);
    lemma_fundamental_div_mod(n as int, d as int);
    assert(n < (d * pow2(k)) * pow2(p)) by (nonlinear_arith)
        requires
            n == d * q + n % d,
            n % d < d,
            q + 1 <= pow2(p) * pow2(k),
            d > 0,
    ;
    lemma_half_even_bound(n, d * pow2(k), p);
    if k > 0 {
        let h = pow2((p - 1) as nat);
        lemma_pow2_adds((p - 1) as nat, k);
        assert(h * (d * pow2(k)) <= n) by (nonlinear_arith)
            requires
                n == d * q + n % d,
                n % d >= 0,
                q >= h * pow2(k),
                d > 0,
        ;
        lemma_div_is_ordered((h * (d * pow2(k))) as int, n as int, (d * pow2(k)) as int);
        lemma_div_by_multiple(h as int, (d * pow2(k)) as int);
    }
}

/// What the magnitude of the nearest number stands for.
pub proof fn lemma_units_of_nearest(p: nat, n: nat, d: nat)
    requires
        p > 0,
        d > 0,
    ensures
        units(p, nearest(p, n, d)) == half_even(n, d * pow2(excess(p, n, d))) * pow2(
            excess(p, n, d),
        ),
{
    let k = excess(p, n, d);
    let h = pow2((p - 1) as nat);
    let m = half_even(n, d * pow2(k));
    let mag = nearest(p, n, d);
    lemma_nearest_digits(p, n, d);
    lemma_pow2_pos((p - 1) as nat);
    lemma_pow2_unfold(p);
    lemma2_to64();
    if k == 0 {
        lemma_mul_basics(h as int);
        lemma_mul_basics(m as int);
        if m == 2 * h {
            lemma_fundamental_div_mod_converse(mag as int, h as int, 2, 0);
            assert(units(p, mag) == (h + 0) * pow2(1));
            assert(units(p, mag) == 2 * h);
        }
    } else {
        if m < 2 * h {
            assert(mag == (k + 1) * h + (m - h)) by (nonlinear_arith)
                requires
                    mag == k * h + m,
            ;
            lemma_fundamental_div_mod_converse(mag as int, h as int, (k + 1) as int, m - h);
            assert(h + mag % h == m);
        } else {
            assert(mag == (k + 2) * h + 0) by (nonlinear_arith)
                requires
                    mag == k * h + m,
                    m == 2 * h,
            ;
            lemma_fundamental_div_mod_converse(mag as int, h as int, (k + 2) as int, 0);
            lemma_pow2_unfold(k + 1);
            assert(h * (2 * pow2(k)) == (2 * h) * pow2(k)) by (nonlinear_arith);
        }
        assert(2 * h <= mag) by (nonlinear_arith)
            requires
                mag == k * h + m,
                k >= 1,
                m >= h,
                h >= 0,
        ;
    }
}

/// How `n * 2^s` units are rounded: what is lost, and the digits that are kept.
pub proof fn lemma_nearest_scaled(p: nat, n: nat, s: int)
    requires
        p > 0,
        n > 0,
    ensures
        scaled_den(s) > 0,
        excess(p, scaled_num(n, s), scaled_den(s)) == if bit_len(n) + s <= p {
            0int
        } else {
            bit_len(n) + s - p
        },
        ({
            let k = excess(p, scaled_num(n, s), scaled_den(s));
            half_even(scaled_num(n, s), scaled_den(s) * pow2(k)) == if k <= s {
                n * pow2((s - k) as nat)
            } else {
                half_even(n, pow2((k - s) as nat))
            }
        }),
{
    let num = scaled_num(n, s);
    let den = scaled_den(s);
    if s >= 0 {
        lemma_bit_len_scale(n, s as nat);
        lemma_div_by_multiple(num as int, 1);
        let k = excess(p, num, den);
        lemma_pow2_pos(k);
        if k <= s {
            let m = n * pow2((s - k) as nat);
            lemma_pow2_adds((s - k) as nat, k);
            lemma_mul_is_associative(
                n as int,
                pow2((s - k) as nat) as int,
                pow2(k) as int,
            );
            lemma_half_even_exact(m, pow2(k));
        } else {
            lemma_pow2_adds((k - s) as nat, s as nat);
            lemma_pow2_pos(s as nat);
            lemma_pow2_pos((k - s) as nat);
            lemma_half_even_scale(n, pow2((k - s) as nat), pow2(s as nat));
        }
    } else {
        let t = (-s) as nat;
        lemma_pow2_pos(t);
        lemma_bit_len_shrink(n, t);
        let k = excess(p, num, den);
        lemma_pow2_adds(t, k);
    }
}

/// The number of binary digits of `n`.
pub fn bit_length(n: u128) -> (r: u32)
    ensures
        r == bit_len(n as nat),
        r <= 128,
{
    let mut x: u128 = n;
    let mut r: u32 = 0;
    proof {
        lemma2_to64();
        lemma2_to64_rest();
        lemma_pow2_adds(64, 64);
    }
    while x > 0
        invariant
            bit_len(n as nat) == r + bit_len(x as nat),
            x < pow2((128 - r) as nat),
            r <= 128,
        decreases x,
    {
        proof {
            lemma2_to64();
            if r < 128 {
                lemma_pow2_unfold((128 - r) as nat);
            }
        }
        x = x / 2;
        r = r + 1;
    }
    r
}

/// Two to the power `k`.
pub fn power_of_two(k: u32) -> (r: u128)
    requires
        k < 128,
    ensures
        r == pow2(k as nat),
{
    let mut r: u128 = 1;
    let mut i: u32 = 0;
    proof {
        lemma2_to64();
    }
    while i < k
        invariant
            i <= k < 128,
            r == pow2(i as nat),
        decreases k - i,
    {
        proof {
            lemma_pow2_unfold((i + 1) as nat);
            lemma2_to64();
            lemma2_to64_rest();
            lemma_pow2_adds(63, 64);
            if i + 1 < 127 {
                lemma_pow2_strictly_increases((i + 1) as nat, 127);
            }
        }
        r = r * 2;
        i = i + 1;
    }
    r
}

/// `n / d` rounded to the nearest whole number, a tie to the even one.
pub fn divide_half_even(n: u128, d: u128) -> (r: u128)
    requires
        d > 0,
    ensures
        r == half_even(n as nat, d as nat),
{
    let q: u128 = n / d;
    let r: u128 = n % d;
    if r < d - r || (r == d - r && q % 2 == 0) {
        q
    } else {
        proof {
            lemma_fundamental_div_mod(n as int, d as int);
            assert(q < u128::MAX) by (nonlinear_arith)
                requires
                    n == d * q + r,
                    r > 0,
                    d > 0,
                    n <= u128::MAX,
            ;
        }
        q + 1
    }
}

/// The magnitude of the number with `p` significant binary digits that is
/// nearest to `n * 2^s` units.
pub fn round_scaled(p: u32, n: u128, s: i32) -> (mag: u64)
    requires
        1 <= p <= 53,
        n < pow2(100),
        -2500 <= s <= 2300,
    ensures
        mag == nearest(p as nat, scaled_num(n as nat, s as int), scaled_den(s as int)),
        p == 53 && s <= 1700 ==> mag < 0x7ff0_0000_0000_0000,
{
    let ghost num = scaled_num(n as nat, s as int);
    let ghost den = scaled_den(s as int);
    if n == 0 {
        proof {
            assert(num == 0) by {
                if s >= 0 {
                    lemma_mul_basics(pow2(s as nat) as int);
                }
            }
            if s < 0 {
                lemma_pow2_pos((-s) as nat);
            }
            lemma_basic_div(0, den as int);
            lemma2_to64();
            lemma_mul_basics(den as int);
            lemma_mul_basics(pow2((p - 1) as nat) as int);
            lemma_half_even_small(0, den);
        }
        return 0;
    }
    let b: u32 = bit_length(n);
    proof {
        lemma_bit_len_bounds(n as nat);
        if b > 100 {
            if b - 1 > 100 {
                lemma_pow2_strictly_increases(100, (b - 1) as nat);
            }
        }
        lemma_nearest_scaled(p as nat, n as nat, s as int);
        lemma_nearest_digits(p as nat, num, den);
        lemma2_to64();
        if p < 53 {
            lemma_pow2_strictly_increases(p as nat, 53);
        }
        if p - 1 < 52 {
            lemma_pow2_strictly_increases((p - 1) as nat, 52);
        }
        lemma2_to64_rest();
        lemma_pow2_pos((p - 1) as nat);
    }
    let total: i32 = b as i32 + s;
    let k: i32 = if total <= p as i32 {
        0
    } else {
        total - p as i32
    };
    let m: u128 = if k <= s {
        let up: u32 = (s - k) as u32;
        let f: u128 = power_of_two(up);
        proof {
            lemma_mul_is_commutative(n as int, f as int);
        }
        n * f
    } else {
        let down: u32 = (k - s) as u32;
        if down > b {
            proof {
                lemma_pow2_unfold(down as nat);
                if b < down - 1 {
                    lemma_pow2_strictly_increases(b as nat, (down - 1) as nat);
                }
                lemma_half_even_small(n as nat, pow2(down as nat));
            }
            0
        } else {
            let d: u128 = power_of_two(down);
            proof {
                lemma_pow2_pos(down as nat);
            }
            divide_half_even(n, d)
        }
    };
    let h: u128 = power_of_two(p - 1);
    proof {
        assert(k * h <= 2400 * 0x10_0000_0000_0000) by (nonlinear_arith)
            requires
                0 <= k <= 2400,
                0 <= h <= 0x10_0000_0000_0000,
        ;
        assert(k <= 1800 ==> k * h <= 1800 * 0x10_0000_0000_0000) by (nonlinear_arith)
            requires
                0 <= k,
                0 <= h <= 0x10_0000_0000_0000,
        ;
    }
    (k as u128 * h + m) as u64
}

/// Scaling both sides of a quotient keeps the nearest number.
pub proof fn lemma_nearest_same(p: nat, n: nat, d: nat, c: nat)
    requires
        p > 0,
        d > 0,
        c > 0,
    ensures
        nearest(p, n * c, d * c) == nearest(p, n, d),
{
    lemma_mul_strictly_positive(d as int, c as int);
    lemma_div_multiple(n, d, c);
    let k = excess(p, n, d);
    lemma_pow2_pos(k);
    lemma_mul_strictly_positive(d as int, pow2(k) as int);
    assert((d * c) * pow2(k) == (d * pow2(k)) * c) by (nonlinear_arith);
    lemma_half_even_scale(n, d * pow2(k), c);
}

proof fn lemma_div_multiple(n: nat, d: nat, c: nat)
    requires
        d > 0,
        c > 0,
    ensures
        (n * c) / (d * c) == n / d,
{
    let q = (n / d) as int;
    let r = (n % d) as int;
    lemma_fundamental_div_mod(n as int, d as int);
    assert(n * c == q * (d * c) + r * c) by (nonlinear_arith)
        requires
            n == d * q + r,
    ;
    assert(0 <= r * c < d * c) by (nonlinear_arith)
        requires
            0 <= r < d,
            c > 0,
    ;
    lemma_fundamental_div_mod_converse((n * c) as int, (d * c) as int, q, r * c);
}

/// A number that needs no more than `p` digits is its own rounding.
pub proof fn lemma_nearest_exact(p: nat, m: nat, k: nat, d: nat)
    requires
        p > 0,
        d > 0,
        m < pow2(p),
    ensures
        units(p, nearest(p, (m * pow2(k)) * d, d)) == m * pow2(k),
{
    let v = m * pow2(k);
    let n = v * d;
    lemma_div_by_multiple(v as int, d as int);
    lemma_units_of_nearest(p, n, d);
    let e = excess(p, n, d);
    lemma_pow2_pos(e);
    if m == 0 {
        lemma_mul_basics(pow2(k) as int);
        lemma_mul_basics(d as int);
        lemma_mul_strictly_positive(d as int, pow2(e) as int);
        lemma_half_even_exact(0, d * pow2(e));
        lemma_mul_basics((d * pow2(e)) as int);
        lemma_mul_basics(pow2(e) as int);
    } else {
        lemma_bit_len_scale(m, k);
        lemma_bit_len_bounds(m);
        if bit_len(m) > p {
            if bit_len(m) - 1 > p {
                lemma_pow2_strictly_increases(p, (bit_len(m) - 1) as nat);
            }
        }
        assert(e <= k);
        let w = m * pow2((k - e) as nat);
        lemma_pow2_adds((k - e) as nat, e);
        lemma_mul_is_associative(m as int, pow2((k - e) as nat) as int, pow2(e) as int);
        assert(v == w * pow2(e));
        assert(n == w * (d * pow2(e))) by (nonlinear_arith)
            requires
                n == v * d,
                v == w * pow2(e),
        ;
        lemma_mul_strictly_positive(d as int, pow2(e) as int);
        lemma_half_even_exact(w, d * pow2(e));
    }
}

/// Rounding moves a quotient by no more than half of the last place that is kept.
pub proof fn lemma_half_even_error(n: nat, d: nat)
    requires
        d > 0,
    ensures
        2 * (half_even(n, d) * d) <= 2 * n + d,
        2 * n <= 2 * (half_even(n, d) * d) + d,
{
    let q = n / d;
    let r = n % d;
    lemma_fundamental_div_mod(n as int, d as int);
    assert((q + 1) * d == d * q + d) by (nonlinear_arith);
    lemma_mul_is_commutative(q as int, d as int);
}

/// A number that loses digits is rounded with a relative error of at most one
/// part in `2^p`.
pub proof fn lemma_nearest_error(p: nat, n: nat, d: nat)
    requires
        p > 0,
        d > 0,
        excess(p, n, d) > 0,
    ensures
        pow2(p) * (units(p, nearest(p, n, d)) * d) <= pow2(p) * n + n,
        pow2(p) * n <= pow2(p) * (units(p, nearest(p, n, d)) * d) + n,
{
    let k = excess(p, n, d);
    let q = n / d;
    let dk = d * pow2(k);
    let m = half_even(n, dk);
    let h = pow2((p - 1) as nat);
    lemma_pow2_pos(k);
    lemma_mul_strictly_positive(d as int, pow2(k) as int);
    lemma_units_of_nearest(p, n, d);
    lemma_half_even_error(n, dk);
    lemma_bit_len_bounds(q);
    lemma_pow2_adds((p - 1) as nat, k);
    lemma_pow2_unfold(p);
    lemma_fundamental_div_mod(n as int, d as int);
    assert(h * dk <= n) by (nonlinear_arith)
        requires
            n == d * q + n % d,
            n % d >= 0,
            q >= h * pow2(k),
            dk == d * pow2(k),
            d > 0,
    ;
    let u = units(p, nearest(p, n, d));
    assert(u * d == m * dk) by (nonlinear_arith)
        requires
            u == m * pow2(k),
            dk == d * pow2(k),
    ;
    assert((2 * h) * (u * d) <= (2 * h) * n + n) by (nonlinear_arith)
        requires
            2 * (u * d) <= 2 * n + dk,
            h * dk <= n,
            h >= 0,
    ;
    assert((2 * h) * n <= (2 * h) * (u * d) + n) by (nonlinear_arith)
        requires
            2 * n <= 2 * (u * d) + dk,
            h * dk <= n,
            h >= 0,
    ;
}

/// The digit count of a quotient grows with its numerator.
proof fn lemma_quotient_digits(n: nat, c: nat, k: nat, d: nat)
    requires
        d > 0,
        (n * pow2(c)) / d > 0,
    ensures
        bit_len((n * pow2(k)) / d) == if bit_len((n * pow2(c)) / d) + k <= c {
            0int
        } else {
            bit_len((n * pow2(c)) / d) + k - c
        },
{
    let x = n * pow2(c);
    let f = x / d;
    let b = bit_len(f);
    lemma_bit_len_bounds(f);
    lemma_fundamental_div_mod(x as int, d as int);
    if k >= c {
        let t = (k - c) as nat;
        let y = n * pow2(k);
        lemma_pow2_adds(c, t);
        lemma_pow2_pos(t);
        lemma_mul_is_associative(n as int, pow2(c) as int, pow2(t) as int);
        assert(y == x * pow2(t));
        lemma_pow2_adds(b, t);
        lemma_pow2_adds((b - 1) as nat, t);
        let lo = pow2((b - 1) as nat) * pow2(t);
        let hi = pow2(b) * pow2(t);
        assert(lo * d <= y) by (nonlinear_arith)
            requires
                y == x * pow2(t),
                x == d * f + x % d,
                x % d >= 0,
                lo == pow2((b - 1) as nat) * pow2(t),
                pow2((b - 1) as nat) <= f,
                d > 0,
                pow2(t) > 0,
        ;
        assert(y < d * hi) by (nonlinear_arith)
            requires
                y == x * pow2(t),
                x == d * f + x % d,
                x % d < d,
                hi == pow2(b) * pow2(t),
                f + 1 <= pow2(b),
                d > 0,
                pow2(t) > 0,
        ;
        lemma_div_is_ordered((lo * d) as int, y as int, d as int);
        lemma_div_by_multiple(lo as int, d as int);
        lemma_multiply_divide_lt(y as int, d as int, hi as int);
        lemma_bit_len_unique(y / d, b + t);
    } else {
        let t = (c - k) as nat;
        let y = n * pow2(k);
        lemma_pow2_adds(k, t);
        lemma_pow2_pos(t);
        lemma_mul_is_associative(n as int, pow2(k) as int, pow2(t) as int);
        assert(x == y * pow2(t));
        lemma_div_denominator(x as int, d as int, pow2(t) as int);
        lemma_div_multiple(y, d, pow2(t));
        lemma_bit_len_shrink(f, t);
    }
}

/// The magnitude of the number with `p` significant binary digits that is
/// nearest to `m * 2^k / d` units.
pub fn round_quotient(p: u32, m: u64, k: u32, d: u64) -> (mag: u64)
    requires
        p == 24 || p == 53,
        m < pow2(p as nat),
        m < 0x1_0000_0000,
        0 < d < 0x1_0000_0000,
        k <= 2000,
    ensures
        mag == nearest(p as nat, m as nat * pow2(k as nat), d as nat),
        p == 53 && k <= 1100 ==> mag < 1200 * 0x10_0000_0000_0000,
{
    let ghost num = m as nat * pow2(k as nat);
    if m == 0 {
        proof {
            lemma_mul_basics(pow2(k as nat) as int);
            lemma_basic_div(0, d as int);
            lemma2_to64();
            lemma_mul_basics(d as int);
            lemma_mul_basics(pow2((p - 1) as nat) as int);
            lemma_half_even_small(0, d as nat);
        }
        return 0;
    }
    proof {
        lemma2_to64();
        lemma2_to64_rest();
        lemma_pow2_adds(32, 64);
        lemma_pow2_adds(24, 64);
    }
    let one: u128 = power_of_two(64);
    let wide: u128 = m as u128 * one;
    let whole: u128 = wide / (d as u128);
    let b: u32 = bit_length(whole);
    proof {
        assert(wide == m as nat * pow2(64));
        assert(whole >= 1) by (nonlinear_arith)
            requires
                whole == wide / (d as u128),
                wide >= 0x1_0000_0000_0000_0000,
                0 < d < 0x1_0000_0000,
        ;
        lemma_quotient_digits(m as nat, 64, k as nat, d as nat);
        // The whole part has no more digits than the shifted numerator.
        assert(whole <= wide) by (nonlinear_arith)
            requires
                whole == wide / (d as u128),
                d >= 1,
        ;
        lemma_bit_len_bounds(whole as nat);
        if p == 24 {
            if b > 88 {
                if b - 1 > 88 {
                    lemma_pow2_strictly_increases(88, (b - 1) as nat);
                }
            }
        } else {
            if b > 96 {
                if b - 1 > 96 {
                    lemma_pow2_strictly_increases(96, (b - 1) as nat);
                }
            }
        }
        assert(b >= 33) by {
            assert(whole >= 0x1_0000_0000) by (nonlinear_arith)
                requires
                    whole == wide / (d as u128),
                    wide >= 0x1_0000_0000_0000_0000,
                    0 < d < 0x1_0000_0000,
            ;
            if b < 33 {
                if b < 32 {
                    lemma_pow2_strictly_increases(b as nat, 32);
                }
            }
        }
    }
    let total: u32 = b + k;
    let e: u32 = if total <= p + 64 {
        0
    } else {
        total - p - 64
    };
    let up: u32 = k - e;
    let f: u128 = power_of_two(up);
    proof {
        lemma_nearest_digits(p as nat, num, d as nat);
        lemma_pow2_adds(up as nat, e as nat);
        lemma_pow2_pos(e as nat);
        lemma_mul_is_associative(m as int, pow2(up as nat) as int, pow2(e as nat) as int);
        lemma_half_even_scale(m as nat * pow2(up as nat), d as nat, pow2(e as nat));
        if up < 84 {
            lemma_pow2_strictly_increases(up as nat, 84);
        }
        lemma_pow2_adds(20, 64);
        lemma_pow2_pos(up as nat);
        assert(m * f < 0x1_0000_0000 * (0x10_0000 * 0x1_0000_0000_0000_0000)) by (nonlinear_arith)
            requires
                m < 0x1_0000_0000,
                0 < f <= 0x10_0000 * 0x1_0000_0000_0000_0000,
        ;
    }
    let r: u128 = divide_half_even(m as u128 * f, d as u128);
    let h: u128 = power_of_two(p - 1);
    proof {
        assert(e * h <= 2400 * 0x10_0000_0000_0000) by (nonlinear_arith)
            requires
                0 <= e <= 2400,
                0 <= h <= 0x10_0000_0000_0000,
        ;
        assert(e <= 1100 ==> e * h <= 1100 * 0x10_0000_0000_0000) by (nonlinear_arith)
            requires
                0 <= e,
                0 <= h <= 0x10_0000_0000_0000,
        ;
    }
    (e as u128 * h + r) as u64
}

/// A greater number has no fewer digits.
proof fn lemma_bit_len_monotone(a: nat, b: nat)
    requires
        a <= b,
    ensures
        bit_len(a) <= bit_len(b),
{
    lemma_bit_len_bounds(a);
    lemma_bit_len_bounds(b);
    if bit_len(a) > bit_len(b) {
        if bit_len(b) < bit_len(a) - 1 {
            lemma_pow2_strictly_increases(bit_len(b), (bit_len(a) - 1) as nat);
        }
    }
}

/// A greater quotient is not rounded to a lesser number.
proof fn lemma_half_even_monotone(a: nat, b: nat, d: nat)
    requires
        a <= b,
        d > 0,
    ensures
        half_even(a, d) <= half_even(b, d),
{
    lemma_div_is_ordered(a as int, b as int, d as int);
    lemma_fundamental_div_mod(a as int, d as int);
    lemma_fundamental_div_mod(b as int, d as int);
}

/// A greater quotient is not rounded to a lesser magnitude.
pub proof fn lemma_nearest_monotone(p: nat, a: nat, b: nat, d: nat)
    requires
        p > 0,
        a <= b,
        d > 0,
    ensures
        nearest(p, a, d) <= nearest(p, b, d),
{
    let j = excess(p, a, d);
    let k = excess(p, b, d);
    let h = pow2((p - 1) as nat);
    lemma_div_is_ordered(a as int, b as int, d as int);
    lemma_bit_len_monotone(a / d, b / d);
    lemma_pow2_pos(j);
    lemma_mul_strictly_positive(d as int, pow2(j) as int);
    if j == k {
        lemma_half_even_monotone(a, b, d * pow2(j));
    } else {
        lemma_nearest_digits(p, a, d);
        lemma_nearest_digits(p, b, d);
        lemma_pow2_unfold(p);
        assert((j + 1) * h <= k * h) by (nonlinear_arith)
            requires
                j + 1 <= k,
                0 <= h,
        ;
        assert((j + 1) * h == j * h + h) by (nonlinear_arith);
    }
}

/// A greater magnitude stands for a greater number.
pub proof fn lemma_units_monotone(p: nat, a: nat, b: nat)
    requires
        p > 0,
        a <= b,
    ensures
        units(p, a) <= units(p, b),
{
    let h = pow2((p - 1) as nat);
    lemma_pow2_pos((p - 1) as nat);
    if b >= 2 * h {
        lemma_fundamental_div_mod(b as int, h as int);
        lemma_mod_bound(b as int, h as int);
        let k = b / h;
        assert(k >= 2) by (nonlinear_arith)
            requires
                b >= 2 * h,
                h > 0,
                k == b / h,
        ;
        lemma_pow2_unfold((k - 1) as nat);
        lemma_pow2_pos((k - 2) as nat);
        let t = pow2((k - 1) as nat);
        assert(h * t <= (h + b % h) * t) by (nonlinear_arith)
            requires
                0 <= b % h,
                0 <= t,
        ;
        if a < 2 * h {
            assert(2 * h <= h * t) by (nonlinear_arith)
                requires
                    t >= 2,
                    h > 0,
            ;
        } else {
            lemma_fundamental_div_mod(a as int, h as int);
            lemma_mod_bound(a as int, h as int);
            lemma_div_is_ordered(a as int, b as int, h as int);
            let j = a / h;
            let s = pow2((j - 1) as nat);
            assert(j >= 2) by (nonlinear_arith)
                requires
                    a >= 2 * h,
                    h > 0,
                    j == a / h,
            ;
            if j == k {
                let x = (a % h) as int;
                let y = (b % h) as int;
                assert((h + x) * t <= (h + y) * t) by (nonlinear_arith)
                    requires
                        x <= y,
                        0 <= t,
                ;
            } else {
                if j < k - 1 {
                    lemma_pow2_strictly_increases(j, (k - 1) as nat);
                }
                lemma_pow2_unfold(j);
                let x = (a % h) as int;
                assert((h + x) * s <= (2 * h) * s) by (nonlinear_arith)
                    requires
                        x < h,
                        0 <= s,
                ;
                assert((2 * h) * s == h * (2 * s)) by (nonlinear_arith);
                assert(h * (2 * s) <= h * t) by (nonlinear_arith)
                    requires
                        2 * s <= t,
                        0 <= h,
                ;
            }
        }
    }
}

} // verus!
