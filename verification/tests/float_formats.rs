use mach_model::double_bits::{
    f64_to_f32, f64_to_usize, is_finite64, is_nan64, is_zero64, larger64, lt64,
};
use mach_model::fp16::{bf16_to_f32, f16_to_f32, f32_to_bf16, f32_to_f16};
use mach_model::fp8::{e4m3_to_f32, f32_to_e4m3};
use mach_model::fp8_tensor::{block_max, Fp8Tensor};
use mach_model::npy::npy_f32;

fn to_half(x: f32) -> u16 {
    f32_to_f16(x.to_bits())
}

fn from_half(h: u16) -> f32 {
    f32::from_bits(f16_to_f32(h))
}

fn to_e4m3(x: f32) -> u8 {
    f32_to_e4m3(x.to_bits())
}

fn from_e4m3(q: u8) -> f32 {
    f32::from_bits(e4m3_to_f32(q))
}

#[test]
fn f16_known_values() {
    assert_eq!(to_half(0.0), 0x0000);
    assert_eq!(to_half(-0.0), 0x8000);
    assert_eq!(to_half(1.0), 0x3c00);
    assert_eq!(to_half(-1.0), 0xbc00);
    assert_eq!(to_half(2.0), 0x4000);
    assert_eq!(to_half(0.5), 0x3800);
    assert_eq!(to_half(65504.0), 0x7bff); // max normal
    assert_eq!(to_half(65520.0), 0x7c00); // -> inf
    assert_eq!(to_half(f32::INFINITY), 0x7c00);
    assert_eq!(to_half(f32::NEG_INFINITY), 0xfc00);
    assert_eq!(to_half(6.1e-5), 0x03ff); // just below 2^-14 -> max subnormal
    assert_eq!(to_half(1.0 / 16384.0), 0x0400); // min normal = 2^-14
    assert_eq!(to_half(6.0e-8), 0x0001); // min subnormal = 2^-24
    assert_eq!(to_half(-6.0e-8), 0x8001);
}

#[test]
fn f16_round_trip() {
    let cases = [
        0.0f32,
        1.0,
        -1.0,
        0.5,
        std::f32::consts::PI,
        -std::f32::consts::E,
        1e-3,
        1e-5,
        123.456,
        -0.25,
        65504.0,
        0.000061,
        -0.000061,
        100.0,
    ];
    for c in cases {
        let rt = from_half(to_half(c));
        let err = (rt - c).abs();
        let rel = err / c.abs().max(1e-30);
        // Half precision has about 3 decimal digits; subnormals (e.g. 1e-5) are looser.
        assert!(
            rel < 1e-2,
            "f16 round-trip rel err too large for {c}: {rt} (err {err})"
        );
    }
}

#[test]
#[allow(clippy::excessive_precision)]
fn f16_round_to_nearest_even() {
    // 1.0000001192 (just above 1.0) -> 1.0 (rounds down, tie-to-even on 0).
    assert_eq!(to_half(1.0000001192), 0x3c00);
    // Just below 1.5 -> rounds to 1.5; just above -> 1.5.
    let below = 1.4999389648f32; // 1.5 - 2^-11-ish
    let above = 1.5000610352f32; // 1.5 + 2^-11-ish
    assert_eq!(from_half(to_half(below)), 1.5);
    assert_eq!(from_half(to_half(above)), 1.5);
}

#[test]
fn every_half_survives_a_round_trip() {
    for h in 0..=u16::MAX {
        let x = from_half(h);
        if x.is_nan() {
            assert!(from_half(to_half(x)).is_nan());
        } else {
            assert_eq!(to_half(x), h);
        }
    }
}

#[test]
fn rounding_to_half_is_monotone() {
    let mut last = to_half(0.0);
    let mut x = 1.0e-9f32;
    while x < 1.0e6 {
        let h = to_half(x);
        assert!(h >= last);
        last = h;
        x *= 1.001;
    }
}

#[test]
fn bf16_round_trip() {
    assert_eq!(f32_to_bf16(1.0f32.to_bits()), 0x3f80);
    assert_eq!(
        f32::from_bits(bf16_to_f32(f32_to_bf16(1.0f32.to_bits()))),
        1.0
    );
    for c in [0.0f32, 1.0, -1.0, 0.5, std::f32::consts::PI, 1e-5, 1e5] {
        let rt = f32::from_bits(bf16_to_f32(f32_to_bf16(c.to_bits())));
        assert!(
            (rt - c).abs() / c.abs().max(1e-30) < 1e-2,
            "bf16 {c} -> {rt}"
        );
    }
}

#[test]
fn bf16_ties_go_to_even() {
    assert_eq!(f32_to_bf16(0x3f80_8000), 0x3f80);
    assert_eq!(f32_to_bf16(0x3f81_8000), 0x3f82);
    assert_eq!(f32_to_bf16(0x3f80_8001), 0x3f81);
}

#[test]
fn e4m3_known_values() {
    assert_eq!(to_e4m3(0.0), 0x00);
    assert_eq!(to_e4m3(-0.0), 0x80);
    assert_eq!(to_e4m3(1.0), 0x38);
    assert_eq!(to_e4m3(-1.0), 0xb8);
    assert_eq!(to_e4m3(2.0), 0x40);
    assert_eq!(to_e4m3(0.5), 0x30);
    assert_eq!(to_e4m3(448.0), 0x7e); // max normal
    assert_eq!(to_e4m3(-448.0), 0xfe);
    assert_eq!(to_e4m3(1000.0), 0x7e); // saturate
    assert_eq!(to_e4m3(-1000.0), 0xfe);
    assert_eq!(to_e4m3(256.0), 0x78); // exp 0b1111, mant 0 is normal
    assert_eq!(to_e4m3(f32::INFINITY), 0x7f); // NaN
    assert_eq!(to_e4m3(f32::NEG_INFINITY), 0xff); // NaN
    assert_eq!(to_e4m3(f32::NAN), 0x7f);
    assert_eq!(to_e4m3(1.0 / 64.0), 0x08); // min normal 2^-6
    assert_eq!(to_e4m3(1.0 / 512.0), 0x01); // min subnormal 2^-9
    assert_eq!(to_e4m3(1e-20), 0x00); // flush to zero
}

#[test]
fn e4m3_dequant_known_values() {
    assert_eq!(from_e4m3(0x00), 0.0);
    assert_eq!(from_e4m3(0x80), -0.0);
    assert_eq!(from_e4m3(0x38), 1.0);
    assert_eq!(from_e4m3(0xb8), -1.0);
    assert_eq!(from_e4m3(0x40), 2.0);
    assert_eq!(from_e4m3(0x30), 0.5);
    assert_eq!(from_e4m3(0x7e), 448.0);
    assert_eq!(from_e4m3(0xfe), -448.0);
    assert_eq!(from_e4m3(0x78), 256.0);
    assert_eq!(from_e4m3(0x01), 1.0 / 512.0);
    assert_eq!(from_e4m3(0x08), 1.0 / 64.0);
    assert!(from_e4m3(0x7f).is_nan());
    assert!(from_e4m3(0xff).is_nan());
}

#[test]
fn e4m3_round_trip_error_is_bounded() {
    // E4M3 relative precision is about 2^-3 per step, so relative error of a single value stays
    // well under 8%.
    let cases = [
        0.0f32,
        1.0,
        -1.0,
        0.5,
        std::f32::consts::PI,
        -std::f32::consts::E,
        1e-2,
        123.456,
        -0.25,
        255.0,
        440.0,
        0.015625, // min normal
        0.004,    // subnormal
        -0.004,
    ];
    for c in cases {
        let rt = from_e4m3(to_e4m3(c));
        let err = (rt - c).abs();
        let rel = err / c.abs().max(1e-9);
        assert!(
            rel < 0.08,
            "E4M3 round-trip rel err too large for {c}: {rt} (err {err})"
        );
    }
}

#[test]
fn every_e4m3_survives_a_round_trip() {
    for q in 0..=u8::MAX {
        assert_eq!(to_e4m3(from_e4m3(q)), q);
    }
}

fn bits(w: &[f32]) -> Vec<u32> {
    w.iter().map(|x| x.to_bits()).collect()
}

/// The scale of a block, and its weights divided by it.
fn scaled(w: &[f32]) -> (f32, Vec<u32>) {
    let scale = f32::from_bits(block_max(&bits(w))) / 448.0;
    (scale, w.iter().map(|x| (x / scale).to_bits()).collect())
}

fn quantize_block(w: &[f32], block: usize) -> Fp8Tensor {
    let mut scales = Vec::new();
    let mut quotients = Vec::new();
    for part in w.chunks(block) {
        let (scale, q) = scaled(part);
        scales.push(scale.to_bits());
        quotients.extend(q);
    }
    Fp8Tensor::quantize_block(&quotients, scales, block)
}

fn quantize(w: &[f32]) -> Fp8Tensor {
    let (scale, quotients) = scaled(w);
    Fp8Tensor::quantize(&quotients, scale.to_bits())
}

fn dequantize(t: &Fp8Tensor) -> Vec<f32> {
    t.dequantize()
        .iter()
        .map(|&(x, s)| f32::from_bits(x) * f32::from_bits(s))
        .collect()
}

fn concat(a: &Fp8Tensor, b: &Fp8Tensor) -> Fp8Tensor {
    a.concat(b).unwrap_or_else(|| {
        let mut v = dequantize(a);
        v.extend(dequantize(b));
        quantize(&v)
    })
}

fn wave(n: usize, k: f64) -> Vec<f32> {
    (0..n)
        .map(|i| ((i as f64) * k).sin() as f32 * 4.0)
        .collect()
}

#[test]
fn quantize_scales_into_range() {
    let w: Vec<f32> = (0..1024)
        .map(|i| ((i as f64) * 0.13).cos() as f32 * 0.5)
        .collect();
    let t = quantize(&w);
    assert_eq!(t.block(), w.len());
    assert_eq!(t.scales().len(), 1);
    // max |w| = 0.5 -> scale = 0.5/448; dequant max ~= 0.5.
    let d = dequantize(&t);
    let max_d = d.iter().fold(0.0f32, |m, v| m.max(v.abs()));
    assert!((max_d - 0.5).abs() < 0.05, "dequant max {max_d}");
    // relative error stays small (per-tensor scale keeps values in range).
    for (&a, &b) in w.iter().zip(&d) {
        let rel = (a - b).abs() / a.abs().max(1e-9);
        assert!(rel < 0.1, "rel err {rel} for {a} -> {b}");
    }
}

#[test]
fn zero_blocks_quantize_to_zero() {
    let t = quantize_block(&[0.0, 0.0, 1.0, -2.0], 2);
    assert_eq!(t.bytes(), &vec![0, 0, 0x76, 0xfe]);
    assert_eq!(t.scales()[0], 0);
    assert_eq!(t.len(), 4);
    assert_eq!(t.byte_size(), 4);
    assert!(!t.is_empty());
    assert!(quantize(&[]).is_empty());
    assert_eq!(quantize(&[]).block(), 0);
}

#[test]
fn block_max_ignores_sign_and_nan() {
    assert_eq!(
        block_max(&bits(&[1.0, -3.5, f32::NAN, 2.0])),
        3.5f32.to_bits()
    );
    assert_eq!(block_max(&bits(&[1.0, f32::NEG_INFINITY])), 0x7f80_0000);
    assert_eq!(block_max(&[]), 0);
}

#[test]
fn concat_aligned_appends_exactly() {
    for (n1, n2) in [(0usize, 64usize), (64, 128), (128, 96), (32, 1024)] {
        let a = quantize_block(&wave(n1, 0.37), 32);
        let b = quantize_block(&wave(n2, 0.11), 32);
        // n1 must land on a block boundary for the fast path.
        let mut w = wave(n1, 0.37);
        w.extend(wave(n2, 0.11));
        let c = a.concat(&b).expect("aligned");
        let want = quantize_block(&w, 32);
        assert_eq!(c.bytes(), want.bytes(), "bytes n1={n1} n2={n2}");
        assert_eq!(c.scales(), want.scales(), "scales n1={n1} n2={n2}");
        assert_eq!(c.len(), n1 + n2);
    }
}

#[test]
fn concat_unaligned_falls_back_to_requant() {
    let a = quantize_block(&wave(33, 0.7), 32);
    let b = quantize_block(&wave(64, 0.2), 32);
    assert!(a.concat(&b).is_none());
    let mut v = dequantize(&a);
    v.extend(dequantize(&b));
    let want = quantize(&v);
    let c = concat(&a, &b);
    assert_eq!(c.bytes(), want.bytes());
    assert_eq!(c.scales(), want.scales());
    assert_eq!(c.len(), want.len());
}

#[test]
fn concat_many_matches_concat_fold_when_aligned() {
    let cases: &[&[usize]] = &[&[8, 8], &[32, 64, 16], &[128], &[4, 4, 4, 4]];
    for parts in cases {
        let tensors: Vec<Fp8Tensor> = parts.iter().map(|&n| quantize(&wave(n, 0.07))).collect();
        let folded = tensors
            .iter()
            .fold(Fp8Tensor::default(), |a, b| concat(&a, b));
        let many = Fp8Tensor::concat_many(&tensors).unwrap_or_else(|| {
            let mut v = Vec::new();
            for t in &tensors {
                v.extend(dequantize(t));
            }
            quantize(&v)
        });
        assert_eq!(many.bytes(), folded.bytes(), "parts {parts:?}: packed bytes");
        assert_eq!(many.scales(), folded.scales(), "parts {parts:?}: scales");
        assert_eq!(many.block(), folded.block(), "parts {parts:?}: block");
        assert_eq!(many.len(), folded.len(), "parts {parts:?}: n");
    }
}

#[test]
fn concat_many_keeps_every_element() {
    let parts: Vec<Fp8Tensor> = (1..4u32)
        .map(|i| quantize(&wave(8, 0.07 * i as f64)))
        .collect();
    let many = Fp8Tensor::concat_many(&parts).unwrap();
    assert_eq!((many.block(), many.len()), (8, 24));
    assert_eq!(many.scales().len(), 3);
    let terms: Vec<(u32, u32)> = parts.iter().flat_map(|p| p.dequantize()).collect();
    assert_eq!(many.dequantize(), terms);
}

#[test]
fn doubles_narrow_like_a_cast() {
    let cases = [
        0.0f64,
        -0.0,
        1.0,
        0.1,
        -0.3,
        1.0e-45,
        7.0e-46,
        1.0e-40,
        3.4e38,
        3.5e38,
        f64::INFINITY,
        f64::NEG_INFINITY,
        1.0 + f64::EPSILON,
        16777217.0,
        16777219.0,
    ];
    for d in cases {
        assert_eq!(f64_to_f32(d.to_bits()), (d as f32).to_bits(), "{d}");
    }
    assert!(f32::from_bits(f64_to_f32(f64::NAN.to_bits())).is_nan());
}

#[test]
fn doubles_compare_like_floats() {
    let cases = [
        f64::NEG_INFINITY,
        -2.5,
        -1.0e-320,
        -0.0,
        0.0,
        5.0e-324,
        1.0,
        f64::INFINITY,
        f64::NAN,
    ];
    for a in cases {
        assert_eq!(is_nan64(a.to_bits()), a.is_nan());
        assert_eq!(is_finite64(a.to_bits()), a.is_finite());
        assert_eq!(is_zero64(a.to_bits()), a == 0.0);
        for b in cases {
            assert_eq!(lt64(a.to_bits(), b.to_bits()), a < b, "{a} < {b}");
            let m = f64::from_bits(larger64(a.to_bits(), b.to_bits()));
            assert!(m == a.max(b) || (m.is_nan() && a.max(b).is_nan()));
        }
    }
}

#[test]
fn doubles_give_sizes_like_a_cast() {
    let size = |v: f64| {
        if !v.is_finite() || v < 0.0 || v > usize::MAX as f64 {
            None
        } else {
            Some(v as usize)
        }
    };
    let cases = [
        0.0,
        -0.0,
        -1.0e-300,
        5.0e-324,
        0.999_999_999,
        1.0,
        1.5,
        2.0,
        448.0,
        65_535.75,
        4_294_967_295.0,
        4_294_967_295.5,
        4_294_967_296.0,
        4_503_599_627_370_495.5,
        9_007_199_254_740_993.0,
        1.0e18,
        18_446_744_073_709_549_568.0,
        18_446_744_073_709_551_616.0,
        18_446_744_073_709_555_712.0,
        3.0e19,
        1.0e300,
        f64::INFINITY,
        f64::NAN,
    ];
    for v in cases {
        assert_eq!(f64_to_usize(v.to_bits()), size(v), "{v}");
    }
}

#[test]
fn write_npy_f32_header_and_payload() {
    // Non-empty vector: shape (3,), three values, low byte first.
    let bytes = npy_f32(&bits(&[1.5f32, -2.25, 0.0]));
    assert_eq!(&bytes[..6], b"\x93NUMPY", "magic");
    assert_eq!(&bytes[6..8], &[1u8, 0], "format version 1.0");
    let hlen = u16::from_le_bytes([bytes[8], bytes[9]]) as usize;
    assert_eq!(10 + hlen, bytes.len() - 3 * 4, "payload size");
    assert_eq!((10 + hlen) % 64, 0, "header block 64-byte alignment");
    let hdr = core::str::from_utf8(&bytes[10..10 + hlen]).unwrap();
    assert!(hdr.ends_with('\n'), "header terminated by newline");
    assert!(hdr.contains("'descr': '<f4'"), "{hdr}");
    assert!(hdr.contains("'fortran_order': False"), "{hdr}");
    assert!(hdr.contains("'shape': (3,)"), "{hdr}");
    let mut want = Vec::new();
    want.extend_from_slice(&1.5f32.to_le_bytes());
    want.extend_from_slice(&(-2.25f32).to_le_bytes());
    want.extend_from_slice(&0.0f32.to_le_bytes());
    assert_eq!(&bytes[10 + hlen..], want.as_slice(), "LE f32 payload");

    // Empty vector: shape (0,), zero payload.
    let bytes = npy_f32(&[]);
    let hlen = u16::from_le_bytes([bytes[8], bytes[9]]) as usize;
    assert_eq!(10 + hlen, bytes.len(), "no payload");
    assert_eq!((10 + hlen) % 64, 0, "header block 64-byte alignment");
    let hdr = core::str::from_utf8(&bytes[10..10 + hlen]).unwrap();
    assert!(hdr.contains("'shape': (0,)"), "{hdr}");
}

#[test]
fn npy_counts_in_decimal() {
    let bytes = npy_f32(&vec![0; 1203]);
    let hdr = core::str::from_utf8(&bytes[10..128]).unwrap();
    assert_eq!(
        hdr.trim_end(),
        "{'descr': '<f4', 'fortran_order': False, 'shape': (1203,), }"
    );
}
