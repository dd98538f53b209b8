use zfp_rs::bitstream::ZfpBitStream;
use zfp_rs::config::{ZfpConfig, ZfpStreamAlignment};
use zfp_rs::field::{ZfpField, ZfpFieldMut};
use zfp_rs::types::ZfpScalarType;

fn compress_then_decompress(
    bytes: &[u8],
    ty: ZfpScalarType,
    dims: [usize; 4],
    config: &ZfpConfig,
) -> (Vec<u8>, usize, usize) {
    let field = ZfpField::new(bytes, ty, dims);
    let mut bs = ZfpBitStream::new(config.maximum_size(ty, &dims[..field.dimensionality().as_usize()]) + 64);
    let written = bs.compress(config, &field).expect("compress");
    bs.rewind();
    let mut out = vec![0u8; bytes.len()];
    let read = {
        let mut target = ZfpFieldMut::new(&mut out, ty, dims);
        bs.decompress(config, &mut target).expect("decompress")
    };
    (out, written, read)
}

fn f64_bytes(v: &[f64]) -> Vec<u8> {
    v.iter().flat_map(|x| x.to_le_bytes()).collect()
}

fn f32_bytes(v: &[f32]) -> Vec<u8> {
    v.iter().flat_map(|x| x.to_le_bytes()).collect()
}

fn f64_values(b: &[u8]) -> Vec<f64> {
    b.chunks(8).map(|c| f64::from_le_bytes(c.try_into().unwrap())).collect()
}

fn f32_values(b: &[u8]) -> Vec<f32> {
    b.chunks(4).map(|c| f32::from_le_bytes(c.try_into().unwrap())).collect()
}

fn awkward_f64(n: usize) -> Vec<f64> {
    (0..n)
        .map(|i| match i % 9 {
            0 => 0.0,
            1 => -0.0,
            2 => 1.0e-310,
            3 => -3.75,
            4 => f64::MAX,
            5 => (i as f64).sin() * 1.0e5,
            6 => f64::MIN_POSITIVE,
            7 => -1.0 / 3.0,
            _ => i as f64 * 0.1,
        })
        .collect()
}

#[test]
fn reversible_mode_reproduces_doubles_exactly() {
    let data = awkward_f64(5 * 3 * 2);
    let bytes = f64_bytes(&data);
    let (out, written, read) =
        compress_then_decompress(&bytes, ZfpScalarType::Double, [5, 3, 2, 0], &ZfpConfig::reversible());
    assert_eq!(out, bytes);
    assert_eq!(written, read);
}

#[test]
fn reversible_mode_reproduces_singles_exactly() {
    let data: Vec<f32> = awkward_f64(7 * 6).into_iter().map(|x| x as f32).chain([f32::NAN, f32::INFINITY]).collect();
    let bytes = f32_bytes(&data);
    let (out, written, read) =
        compress_then_decompress(&bytes, ZfpScalarType::Float, [11, 4, 0, 0], &ZfpConfig::reversible());
    assert_eq!(out, bytes);
    assert_eq!(written, read);
}

#[test]
fn reversible_mode_reproduces_smooth_singles_exactly() {
    let data: Vec<f32> = (0..64).map(|i| 1.5 + i as f32 * 0.25).collect();
    let bytes = f32_bytes(&data);
    let (out, _, _) = compress_then_decompress(&bytes, ZfpScalarType::Float, [4, 4, 4, 0], &ZfpConfig::reversible());
    assert_eq!(out, bytes);
}

#[test]
fn reversible_mode_reproduces_integers_exactly() {
    let data: Vec<i32> = (0..(9 * 9)).map(|i: i32| (i * 7919).wrapping_mul(31337) ^ (i << 20)).collect();
    let bytes: Vec<u8> = data.iter().flat_map(|x| x.to_le_bytes()).collect();
    let (out, _, _) = compress_then_decompress(&bytes, ZfpScalarType::Int32, [9, 9, 0, 0], &ZfpConfig::reversible());
    assert_eq!(out, bytes);

    let data: Vec<i64> = (0..(3 * 5 * 2 * 2)).map(|i: i64| i64::MIN / 3 + i * 1_000_000_007).collect();
    let bytes: Vec<u8> = data.iter().flat_map(|x| x.to_le_bytes()).collect();
    let (out, _, _) = compress_then_decompress(&bytes, ZfpScalarType::Int64, [3, 5, 2, 2], &ZfpConfig::reversible());
    assert_eq!(out, bytes);
}

#[test]
fn fixed_precision_keeps_smooth_doubles_close() {
    let data: Vec<f64> = (0..(8 * 8)).map(|i| ((i % 8) as f64 * 0.3).sin() + ((i / 8) as f64 * 0.2).cos()).collect();
    let bytes = f64_bytes(&data);
    let (out, _, _) =
        compress_then_decompress(&bytes, ZfpScalarType::Double, [8, 8, 0, 0], &ZfpConfig::fixed_precision(40));
    for (a, b) in data.iter().zip(f64_values(&out)) {
        assert!((a - b).abs() < 1e-6, "{a} {b}");
    }
}

#[test]
fn fixed_accuracy_meets_its_tolerance() {
    let data: Vec<f64> = (0..(6 * 7)).map(|i| (i as f64 * 0.37).exp().sin() * 100.0).collect();
    let bytes = f64_bytes(&data);
    let (out, _, _) = compress_then_decompress(
        &bytes,
        ZfpScalarType::Double,
        [6, 7, 0, 0],
        &ZfpConfig::fixed_accuracy_exponent(-10),
    );
    for (a, b) in data.iter().zip(f64_values(&out)) {
        assert!((a - b).abs() <= 1.0 / 1024.0, "{a} {b}");
    }
}

#[test]
fn fixed_rate_singles_use_the_rate_and_stay_close() {
    let data: Vec<f32> = (0..(4 * 4 * 4)).map(|i| (i as f32 * 0.05).cos()).collect();
    let bytes = f32_bytes(&data);
    // 16 bits per value over 64 values.
    let config = ZfpConfig::fixed_rate_bits(1024, ZfpScalarType::Float, ZfpStreamAlignment::Packed);
    let (out, written, _) = compress_then_decompress(&bytes, ZfpScalarType::Float, [4, 4, 4, 0], &config);
    assert_eq!(written, 1024 / 8);
    for (a, b) in data.iter().zip(f32_values(&out)) {
        assert!((a - b).abs() < 1e-2, "{a} {b}");
    }
}

#[test]
fn lossy_integers_at_full_precision_are_within_one() {
    let data: Vec<i64> = (0..16).map(|i: i64| i * i - 40).collect();
    let bytes: Vec<u8> = data.iter().flat_map(|x| x.to_le_bytes()).collect();
    let (out, _, _) =
        compress_then_decompress(&bytes, ZfpScalarType::Int64, [4, 4, 0, 0], &ZfpConfig::fixed_precision(64));
    let back: Vec<i64> = out.chunks(8).map(|c| i64::from_le_bytes(c.try_into().unwrap())).collect();
    for (a, b) in data.iter().zip(back) {
        assert!((a - b).abs() <= 1, "{a} {b}");
    }
}

#[test]
fn an_all_zero_double_block_codes_to_one_bit_per_block() {
    let bytes = f64_bytes(&[0.0; 16]);
    let config = ZfpConfig::fixed_precision(20);
    let field = ZfpField::new(&bytes, ZfpScalarType::Double, [16usize]);
    let mut bs = ZfpBitStream::new(64);
    bs.compress(&config, &field).unwrap();
    // Four blocks of one zero bit each, flushed to one word.
    assert_eq!(bs.word_at(0), 0);
    assert_eq!(bs.word_pos(), 1);
}
