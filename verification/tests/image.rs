use mach_model::image_processor::{
    check_image, plan_image, preprocess_image, Field, ImageError, ImageProcessorConfig,
};
use mach_model::image_resize::{
    check_table, clip8, resize_rgb8_bicubic, scaled_size, smart_resize, Resize, Taps,
};
use serde_json::{Number, Value};

const SRC: [u8; 60] = [
    225, 83, 51, 234, 213, 237, 28, 225, 137, 23, 40, 1, 13, 31, 78, 212, 115, 135, 89, 186, 143,
    58, 11, 170, 193, 205, 168, 120, 182, 147, 51, 251, 18, 2, 76, 16, 11, 154, 158, 52, 207, 135,
    237, 178, 135, 148, 92, 218, 247, 42, 161, 31, 50, 139, 118, 206, 209, 9, 31, 244,
];

const WANT: [u8; 144] = [
    224, 72, 32, 244, 133, 128, 236, 219, 245, 87, 253, 182, 7, 184, 85, 12, 37, 0, 8, 13, 34, 5,
    20, 80, 232, 82, 90, 212, 141, 140, 165, 206, 202, 72, 145, 175, 56, 110, 129, 110, 118, 84,
    82, 108, 96, 53, 101, 113, 200, 131, 123, 143, 157, 120, 63, 166, 122, 43, 46, 157, 90, 61,
    176, 181, 208, 174, 167, 211, 158, 140, 190, 146, 70, 247, 21, 37, 181, 15, 0, 88, 27, 5, 117,
    125, 26, 163, 165, 60, 207, 138, 173, 200, 132, 249, 187, 130, 91, 179, 119, 112, 123, 102,
    124, 50, 86, 45, 81, 128, 26, 142, 158, 75, 206, 171, 108, 147, 186, 126, 92, 194, 147, 86,
    235, 209, 65, 209, 255, 39, 167, 92, 29, 139, 44, 94, 155, 122, 205, 210, 49, 102, 241, 0, 8,
    254,
];

fn bicubic(x: f64) -> f64 {
    const A: f64 = -0.5;
    let x = x.abs();
    if x < 1.0 {
        ((A + 2.0) * x - (A + 3.0)) * x * x + 1.0
    } else if x < 2.0 {
        (((x - 5.0) * x + 8.0) * x - 4.0) * A
    } else {
        0.0
    }
}

fn fixed_point(w: f64) -> i32 {
    let scaled = w * ((1i32 << 22) as f64);
    if w < 0.0 {
        (-0.5 + scaled) as i32
    } else {
        (0.5 + scaled) as i32
    }
}

fn resample_coeffs(in_size: usize, out_size: usize) -> Vec<Taps> {
    let scale = in_size as f64 / out_size as f64;
    let filterscale = scale.max(1.0);
    let support = 2.0 * filterscale;
    let inv_filterscale = 1.0 / filterscale;
    let mut out = Vec::with_capacity(out_size);
    for xx in 0..out_size {
        let center = (xx as f64 + 0.5) * scale;
        let xmin = ((center - support + 0.5) as i64).max(0) as usize;
        let xmax = ((center + support + 0.5) as i64).min(in_size as i64) as usize;
        let weights: Vec<f64> = (xmin..xmax)
            .map(|x| bicubic((x as f64 - center + 0.5) * inv_filterscale))
            .collect();
        let ww: f64 = weights.iter().sum();
        let ks = weights
            .into_iter()
            .map(|w| fixed_point(if ww != 0.0 { w / ww } else { w }))
            .collect();
        out.push((xmin, ks));
    }
    out
}

#[test]
fn resize_matches_pillow_bicubic() {
    let across = resample_coeffs(5, 8);
    let down = resample_coeffs(4, 6);
    assert!(check_table(&across, 5, 8));
    assert!(check_table(&down, 4, 6));
    let got = resize_rgb8_bicubic(&SRC, 4, 5, 6, 8, &across, &down).unwrap();
    assert_eq!(got, WANT);
}

#[test]
fn tables_outside_the_image_are_refused() {
    let mut across = resample_coeffs(5, 8);
    assert!(!check_table(&across, 4, 8));
    assert!(!check_table(&across, 5, 7));
    across[0].1[0] = i32::MAX;
    assert!(!check_table(&across, 5, 8));
}

#[test]
fn clip8_shifts_and_clamps() {
    assert_eq!(clip8(-1), 0);
    assert_eq!(clip8(0), 0);
    assert_eq!(clip8((1 << 22) - 1), 0);
    assert_eq!(clip8(1 << 22), 1);
    assert_eq!(clip8((255 << 22) - 1), 254);
    assert_eq!(clip8(255 << 22), 255);
    assert_eq!(clip8(i32::MAX), 255);
}

#[test]
fn sides_snap_to_the_factor() {
    let at = |h, w| smart_resize(h, w, 32, 65_536, 16_777_216);
    assert_eq!(
        at(300, 500),
        Ok(Resize::Snapped {
            height: 288,
            width: 512
        })
    );
    // Ties go to an even multiple.
    assert_eq!(
        at(304, 336),
        Ok(Resize::Snapped {
            height: 320,
            width: 320
        })
    );
    assert_eq!(
        at(272, 368),
        Ok(Resize::Snapped {
            height: 256,
            width: 384
        })
    );
    assert_eq!(at(100, 100), Ok(Resize::Grow));
    assert_eq!(at(5000, 5000), Ok(Resize::Shrink));
    assert_eq!(at(0, 100), Err(ImageError::EmptyImage));
    assert_eq!(at(10, 2000), Ok(Resize::Grow));
    assert_eq!(at(10, 2001), Err(ImageError::AspectRatio));
    assert_eq!(at(2001, 10), Err(ImageError::AspectRatio));
    assert_eq!(
        smart_resize(10, 10, 32, 5, 4),
        Err(ImageError::PixelLimits {
            min_pixels: 5,
            max_pixels: 4
        })
    );
    assert_eq!(
        smart_resize(usize::MAX, 10, 32, 4, 5),
        Ok(Resize::Inexact)
    );
}

#[test]
fn scaled_sides_must_be_sizes() {
    let at = |h: f64, w: f64, f| scaled_size(h.to_bits(), w.to_bits(), f);
    assert_eq!(at(2.0, 1.0, 32), Ok((64, 32)));
    // No side is shorter than the factor.
    assert_eq!(at(0.0, 3.0, 32), Ok((32, 96)));
    assert_eq!(at(f64::NAN, 1.0, 32), Err(ImageError::NotASize));
    assert_eq!(at(1.0, f64::INFINITY, 32), Err(ImageError::NotASize));
    assert_eq!(at(1e19, 1.0, 32), Err(ImageError::NotASize));
    assert_eq!(at(1e18, 1e3, 1), Err(ImageError::PixelCountOverflow));
}

#[test]
fn scaled_pixels_lie_where_the_factors_put_them() {
    let at = |h: f64, w: f64, f| scaled_size(h.to_bits(), w.to_bits(), f).unwrap();
    // Shrunk by the exact scale: below the limit of 16 777 216.
    assert_eq!(smart_resize(5000, 5000, 32, 65_536, 16_777_216), Ok(Resize::Shrink));
    let (h, w) = at(128.0, 128.0, 32);
    assert_eq!(h * w, 128 * 128 * 32 * 32);
    assert!(h * w <= 16_777_216);
    // Grown and rounded up: above the lower limit of 1000, and here above the upper one of 2000.
    assert_eq!(smart_resize(30, 30, 28, 1000, 2000), Ok(Resize::Grow));
    let (h, w) = at(2.0, 2.0, 28);
    assert_eq!((h, w), (56, 56));
    assert!(h * w >= 1000 && h * w > 2000);
    // A side raised to the factor can exceed the upper limit too.
    assert_eq!(smart_resize(40, 400, 32, 100, 4096), Ok(Resize::Shrink));
    assert_eq!(at(0.0, 6.0, 32), (32, 192));
}

#[test]
fn a_fitting_size_is_kept() {
    assert_eq!(
        smart_resize(288, 512, 32, 65_536, 16_777_216),
        Ok(Resize::Snapped {
            height: 288,
            width: 512
        })
    );
}

#[test]
fn a_channel_comes_from_that_channel_alone() {
    let across = resample_coeffs(5, 8);
    let down = resample_coeffs(4, 6);
    let mut other = SRC;
    for (i, b) in other.iter_mut().enumerate() {
        if i % 3 != 1 {
            *b = 255 - *b;
        }
    }
    let a = resize_rgb8_bicubic(&SRC, 4, 5, 6, 8, &across, &down).unwrap();
    let b = resize_rgb8_bicubic(&other, 4, 5, 6, 8, &across, &down).unwrap();
    assert_eq!(a.len(), 6 * 8 * 3);
    assert_ne!(a, b);
    for i in 0..a.len() {
        if i % 3 == 1 {
            assert_eq!(a[i], b[i]);
        }
    }
}

#[test]
fn resizing_keeps_flat_images_and_equal_sizes() {
    let across = resample_coeffs(5, 8);
    let down = resample_coeffs(4, 6);
    let flat: Vec<u8> = [0, 131, 255].repeat(20);
    let got = resize_rgb8_bicubic(&flat, 4, 5, 6, 8, &across, &down).unwrap();
    assert_eq!(got, [0, 131, 255].repeat(48));
    let same = resize_rgb8_bicubic(
        &SRC,
        4,
        5,
        4,
        5,
        &resample_coeffs(5, 5),
        &resample_coeffs(4, 4),
    )
    .unwrap();
    assert_eq!(same, SRC);
}

#[test]
fn planning_refuses_the_buffer_before_the_shape() {
    let cfg = ImageProcessorConfig::default();
    let wide = vec![0u8; 3 * 2001 * 10];
    assert_eq!(
        plan_image(&cfg, &wide[1..], 10, 2001),
        Err(ImageError::BufferLength {
            got: 60_029,
            want: 60_030
        })
    );
    assert_eq!(plan_image(&cfg, &wide, 10, 2001), Err(ImageError::AspectRatio));
    assert_eq!(plan_image(&cfg, &[], 0, 10), Err(ImageError::EmptyImage));
    let bad = ImageProcessorConfig {
        patch_size: 0,
        ..cfg
    };
    assert_eq!(plan_image(&bad, &[], 0, 10), Err(ImageError::SizeZero));
    let image = vec![0u8; 3 * 300 * 500];
    assert_eq!(
        plan_image(&cfg, &image, 300, 500),
        smart_resize(300, 500, cfg.factor(), cfg.min_pixels, cfg.max_pixels)
    );
}

fn object(entries: Vec<(&str, Value)>) -> Value {
    let mut m = serde_json::Map::new();
    for (k, v) in entries {
        m.insert(k.to_string(), v);
    }
    Value::Object(m)
}

fn number(x: f64) -> Value {
    Value::Number(Number::from_f64(x).unwrap())
}

fn rgb(r: f64, g: f64, b: f64) -> Value {
    Value::Array(vec![number(r), number(g), number(b)])
}

#[test]
fn configuration_reads_every_entry() {
    let size = object(vec![
        ("shortest_edge", Value::from(3136u64)),
        ("longest_edge", Value::from(1_003_520u64)),
    ]);
    let v = object(vec![
        ("size", size),
        ("patch_size", Value::from(14u64)),
        ("temporal_patch_size", Value::from(1u64)),
        ("merge_size", Value::from(4u64)),
        ("image_mean", rgb(0.48145466, 0.4578275, 0.40821073)),
        ("image_std", rgb(0.26862954, 0.26130258, 0.27577711)),
        ("do_rescale", Value::Bool(true)),
    ]);
    let c = ImageProcessorConfig::from_hf_json(&v).unwrap();
    assert_eq!(c.patch_size, 14);
    assert_eq!(c.temporal_patch_size, 1);
    assert_eq!(c.merge_size, 4);
    assert_eq!(c.min_pixels, 3136);
    assert_eq!(c.max_pixels, 1_003_520);
    assert_eq!(c.image_mean[0], 0.48145466f32.to_bits());
    assert_eq!(c.image_mean[2], 0.40821073f32.to_bits());
    assert_eq!(c.image_std[1], 0.26130258f32.to_bits());
    assert_eq!(c.factor(), 56);
}

#[test]
fn configuration_defaults_without_entries() {
    let c = ImageProcessorConfig::from_hf_json(&object(vec![])).unwrap();
    assert_eq!(c, ImageProcessorConfig::default());
    assert_eq!(ImageProcessorConfig::from_hf_json(&Value::Null), Ok(c));
    assert_eq!(c.factor(), 32);
    assert_eq!(c.image_std, [0.5f32.to_bits(); 3]);
    // Integers count as numbers.
    let v = object(vec![(
        "image_mean",
        Value::Array(vec![Value::from(0u64), Value::from(1u64), Value::from(-1i64)]),
    )]);
    let c = ImageProcessorConfig::from_hf_json(&v).unwrap();
    assert_eq!(
        c.image_mean,
        [0.0f32.to_bits(), 1.0f32.to_bits(), (-1.0f32).to_bits()]
    );
}

fn parse_error(key: &str, v: Value) -> ImageError {
    ImageProcessorConfig::from_hf_json(&object(vec![(key, v)])).unwrap_err()
}

#[test]
fn configuration_errors() {
    let edge = |k, v| object(vec![(k, v)]);
    assert_eq!(
        parse_error("size", edge("shortest_edge", number(1.5))),
        ImageError::NotAnInteger(Field::ShortestEdge)
    );
    assert_eq!(
        parse_error("size", edge("longest_edge", Value::from(-1i64))),
        ImageError::NotAnInteger(Field::LongestEdge)
    );
    assert_eq!(
        parse_error("patch_size", Value::Null),
        ImageError::NotAnInteger(Field::PatchSize)
    );
    assert_eq!(
        parse_error("temporal_patch_size", Value::String("2".into())),
        ImageError::NotAnInteger(Field::TemporalPatchSize)
    );
    assert_eq!(
        parse_error("merge_size", Value::Bool(true)),
        ImageError::NotAnInteger(Field::MergeSize)
    );
    assert_eq!(
        parse_error("image_mean", number(0.5)),
        ImageError::NotThreeNumbers(Field::ImageMean)
    );
    assert_eq!(
        parse_error("image_std", Value::Array(vec![number(0.5)])),
        ImageError::NotThreeNumbers(Field::ImageStd)
    );
    let mixed = Value::Array(vec![number(0.5), Value::Null, number(0.5)]);
    assert_eq!(
        parse_error("image_std", mixed),
        ImageError::NotANumber {
            field: Field::ImageStd,
            index: 1
        }
    );
    assert_eq!(
        parse_error("patch_size", Value::from(0u64)),
        ImageError::SizeZero
    );
    assert_eq!(
        parse_error("merge_size", Value::from(257u64)),
        ImageError::SizeOutOfRange
    );
    assert_eq!(
        parse_error("size", edge("longest_edge", Value::from(100u64))),
        ImageError::PixelLimits {
            min_pixels: 65_536,
            max_pixels: 100
        }
    );
    assert_eq!(
        parse_error("image_std", rgb(0.5, 0.5, 0.0)),
        ImageError::Channel(2)
    );
    // Beyond single precision.
    assert_eq!(
        parse_error("image_mean", rgb(1.0e39, 0.5, 0.5)),
        ImageError::Channel(0)
    );
}

/// The normalized value of each byte in each channel.
fn levels(c: &ImageProcessorConfig) -> Vec<u32> {
    let mut out = Vec::new();
    for ch in 0..3 {
        let mean = f32::from_bits(c.image_mean[ch]);
        let std = f32::from_bits(c.image_std[ch]);
        for raw in 0..256 {
            out.push(((raw as f32 / 255.0 - mean) / std).to_bits());
        }
    }
    out
}

fn small() -> ImageProcessorConfig {
    ImageProcessorConfig {
        patch_size: 2,
        temporal_patch_size: 2,
        merge_size: 2,
        min_pixels: 1,
        max_pixels: 4096,
        ..ImageProcessorConfig::default()
    }
}

#[test]
fn patches_are_merged_in_blocks() {
    let c = small();
    // An 8x8 image of the factor's size is not resampled: every pixel keeps its value.
    let (h, w) = (8usize, 8usize);
    let rgb8: Vec<u8> = (0..h * w * 3).map(|i| i as u8).collect();
    let same: Vec<Taps> = (0..8usize).map(|i| (i, vec![1 << 22])).collect();
    let got = preprocess_image(&c, &rgb8, h, w, (8, 8), &same, &same, &levels(&c)).unwrap();
    assert_eq!(got.grid, [1, 4, 4]);
    assert_eq!(got.tokens(), 16);
    let mut want = Vec::new();
    for row in 0..2 {
        for col in 0..2 {
            for mh in 0..2 {
                for mw in 0..2 {
                    for ch in 0..3 {
                        for _ in 0..2 {
                            for py in 0..2 {
                                for px in 0..2 {
                                    let y = (row * 2 + mh) * 2 + py;
                                    let x = (col * 2 + mw) * 2 + px;
                                    let raw = rgb8[(y * w + x) * 3 + ch];
                                    want.push(((raw as f32 / 255.0 - 0.5) / 0.5).to_bits());
                                }
                            }
                        }
                    }
                }
            }
        }
    }
    assert_eq!(got.pixel_values, want);
}

#[test]
fn images_are_checked() {
    let c = small();
    assert_eq!(check_image(&c, &[0; 12], 2, 2), Ok(()));
    assert_eq!(check_image(&c, &[0; 12], 0, 2), Err(ImageError::EmptyImage));
    assert_eq!(
        check_image(&c, &[0; 11], 2, 2),
        Err(ImageError::BufferLength { got: 11, want: 12 })
    );
    assert_eq!(
        check_image(&c, &[], usize::MAX, 2),
        Err(ImageError::ImageSizeOverflow)
    );
    let bad = ImageProcessorConfig {
        patch_size: 0,
        ..c
    };
    assert_eq!(check_image(&bad, &[], 2, 2), Err(ImageError::SizeZero));
    assert_eq!(bad.validate(), Err(ImageError::SizeZero));
}
