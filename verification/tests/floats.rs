//! The bit-pattern arithmetic against the processor's own.
use pdf_mcp::float::{Double, Single};
use pdf_mcp::resize::{resize_dims, scaled_side};

struct Rng(u64);

impl Rng {
    fn next(&mut self) -> u64 {
        self.0 = self.0.wrapping_mul(6364136223846793005).wrapping_add(1442695040888963407);
        let x = self.0;
        (x ^ (x >> 29)).wrapping_mul(0x9E3779B97F4A7C15) ^ (x >> 32)
    }
}

/// Patterns around every boundary of the format, and random ones.
fn singles() -> Vec<u32> {
    let mut v: Vec<u32> = vec![
        0, 1, 2, 3, 0x7f_fffe, 0x7f_ffff, 0x80_0000, 0x80_0001, 0xff_ffff, 0x100_0000, 0x3f80_0000,
        0x3f7f_ffff, 0x3f80_0001, 0x4000_0000, 0x4080_0001, 0x4b00_0000, 0x4b7f_ffff, 0x4b80_0000,
        0x4f7f_ffff, 0x4f80_0000, 0x4f00_0000, 0x7f7f_ffff, 0x7f7f_fffe, 0x7f80_0000, 0x7fc0_0000,
        0x7f80_0001, 0x5f00_0000, 0x2000_0000, 0x1fff_ffff, 0x4290_0000,
    ];
    let mut rng = Rng(7);
    for _ in 0..120 {
        v.push((rng.next() & 0x7fff_ffff) as u32);
    }
    for _ in 0..120 {
        v.push(((rng.next() % 0x0a00_0000) + 0x3a00_0000) as u32);
    }
    let negatives: Vec<u32> = v.iter().map(|b| b | 0x8000_0000).collect();
    v.extend(negatives);
    v
}

fn doubles() -> Vec<u64> {
    let mut v: Vec<u64> = vec![
        0, 1, 0xf_ffff_ffff_ffff, 0x10_0000_0000_0000, 0x3ff0_0000_0000_0000, 0x3fef_ffff_ffff_ffff,
        0x3ff0_0000_1000_0000, 0x3ff0_0000_1000_0001, 0x3ff0_0000_0fff_ffff, 0x3ff0_0000_3000_0000,
        0x47ef_ffff_e000_0000, 0x47ef_ffff_efff_ffff, 0x47ef_ffff_f000_0000, 0x47f0_0000_0000_0000,
        0x3690_0000_0000_0000, 0x3690_0000_0000_0001, 0x36a0_0000_0000_0000, 0x380f_ffff_ffff_ffff,
        0x7fef_ffff_ffff_ffff, 0x7ff0_0000_0000_0000, 0x7ff8_0000_0000_0000, 0x4092_c000_0000_0000,
        0x43f0_0000_0000_0000, 0x43ef_ffff_ffff_ffff, 0x43e0_0000_0000_0000,
    ];
    let mut rng = Rng(11);
    for _ in 0..400 {
        v.push(rng.next() & 0x7fff_ffff_ffff_ffff);
    }
    for _ in 0..400 {
        v.push((rng.next() % 0x0a00_0000_0000_0000) + 0x3b00_0000_0000_0000);
    }
    let negatives: Vec<u64> = v.iter().map(|b| b | 0x8000_0000_0000_0000).collect();
    v.extend(negatives);
    v
}

fn same(got: Single, want: f32) -> bool {
    if want.is_nan() {
        got.is_nan()
    } else {
        got.bits == want.to_bits()
    }
}

#[test]
fn single_products_match_the_processor() {
    let all = singles();
    for &a in &all {
        for &b in &all {
            let want = f32::from_bits(a) * f32::from_bits(b);
            assert!(same(Single { bits: a }.mul(Single { bits: b }), want), "{a:x} * {b:x}");
        }
    }
}

#[test]
fn single_differences_match_the_processor() {
    let all = singles();
    for &a in &all {
        for &b in &all {
            let want = f32::from_bits(a) - f32::from_bits(b);
            assert!(same(Single { bits: a }.sub(Single { bits: b }), want), "{a:x} - {b:x}");
        }
    }
}

#[test]
fn single_quotients_match_the_processor() {
    for &a in &singles() {
        for d in [1u32, 2, 3, 7, 72, 100, 0xff_ffff] {
            let want = f32::from_bits(a) / d as f32;
            assert!(same(Single { bits: a }.div(d), want), "{a:x} / {d}");
        }
    }
}

#[test]
fn single_order_matches_the_processor() {
    let all = singles();
    for &a in &all {
        for &b in &all {
            let (x, y) = (f32::from_bits(a), f32::from_bits(b));
            let (s, t) = (Single { bits: a }, Single { bits: b });
            assert_eq!(s.le(t), x <= y, "{a:x} <= {b:x}");
            // Which zero comes back of two zeros is open, and which NaN of two NaNs.
            if x.is_nan() && y.is_nan() {
                assert!(s.min(t).is_nan() && s.max(t).is_nan());
            } else {
                assert_eq!(f32::from_bits(s.min(t).bits), x.min(y), "{a:x} min {b:x}");
                assert_eq!(f32::from_bits(s.max(t).bits), x.max(y), "{a:x} max {b:x}");
            }
        }
    }
}

#[test]
fn single_conversions_match_the_processor() {
    for &a in &singles() {
        let x = f32::from_bits(a);
        assert_eq!(Single { bits: a }.to_u32(), x as u32, "{a:x}");
        assert_eq!(Single { bits: a }.is_finite(), x.is_finite());
        if x.is_finite() {
            assert_eq!(Single { bits: a }.widen().bits, (x as f64).to_bits(), "{a:x}");
        }
    }
}

#[test]
fn double_conversions_match_the_processor() {
    for &a in &doubles() {
        let x = f64::from_bits(a);
        assert!(same(Double { bits: a }.narrow(), x as f32), "{a:x}");
        assert_eq!(Double { bits: a }.to_usize(0), x as usize, "{a:x}");
        assert_eq!(Double { bits: a }.to_usize(1), (x / 2.0).max(0.5) as usize, "{a:x}");
        let capped = f64::from_bits(Double { bits: a }.min(Double { bits: 1200.0f64.to_bits() }).bits);
        assert_eq!(capped, x.min(1200.0), "{a:x}");
    }
}

#[test]
fn integers_become_the_nearest_doubles() {
    let mut rng = Rng(3);
    let mut all: Vec<u64> = vec![0, 1, 2, 72, 150, 1 << 53, (1 << 53) + 1, (1 << 53) + 3, u64::MAX, i64::MAX as u64, 1 << 63];
    for _ in 0..400 {
        let n = rng.next();
        all.push(n >> (rng.next() % 64));
    }
    for n in all {
        assert_eq!(Double::from_u64(n).bits, (n as f64).to_bits(), "{n}");
        assert_eq!(Double::from_i64(n as i64).bits, (n as i64 as f64).to_bits(), "{n}");
    }
}

/// The same size by the processor.
fn expected_side(side: u32, target: u32, source: u32) -> u32 {
    (side as f64 * (target as f64 / source as f64)).round() as u32
}

#[test]
fn sides_match_the_processor() {
    let fixed = [0u32, 1, 2, 3, 5, 6, 7, 9, 10, 49, 100, 612, 792, 1275, 1650, 0x7fff_ffff, 0x8000_0000, u32::MAX];
    for &s in &fixed {
        for &t in &fixed {
            for &w in &fixed {
                assert_eq!(scaled_side(s, t, w), expected_side(s, t, w), "{s} * {t} / {w}");
            }
        }
    }
    let mut rng = Rng(5);
    for _ in 0..20000 {
        let (a, b, c) = (rng.next() as u32, rng.next() as u32, rng.next() as u32);
        let cut = (rng.next() % 32) as u32;
        let (s, t, w) = (a >> cut, b >> (rng.next() % 32), c >> (rng.next() % 32));
        assert_eq!(scaled_side(s, t, w), expected_side(s, t, w), "{s} * {t} / {w}");
    }
}

#[test]
fn ties_follow_the_double_arithmetic() {
    // Every exact half among small sizes.
    for w in 1u32..60 {
        for h in 1u32..60 {
            for t in 1u32..30 {
                let needed = |size: (u32, u32)| Some(size).filter(|s| *s != (w, h));
                let by_width = needed((t, expected_side(h, t, w)));
                let by_height = needed((expected_side(w, t, h), t));
                assert_eq!(resize_dims(w, h, Some(t), None), by_width);
                assert_eq!(resize_dims(w, h, None, Some(t)), by_height);
            }
        }
    }
}
