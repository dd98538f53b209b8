use zfp_rs::bitstream::ZfpBitStream;
use zfp_rs::config::{ZfpConfig, ZfpStreamAlignment};
use zfp_rs::execution::ZfpExecution;
use zfp_rs::field::{ZfpField, ZfpFieldMut};
use zfp_rs::types::ZfpScalarType;

fn f64_bytes(v: &[f64]) -> Vec<u8> {
    v.iter().flat_map(|x| x.to_le_bytes()).collect()
}

fn f64_values(b: &[u8]) -> Vec<f64> {
    b.chunks(8).map(|c| f64::from_le_bytes(c.try_into().unwrap())).collect()
}

/// `[1, 1]` maps index `[x, y]` to `x + y`, so the span is 15 elements.
fn decode(bs: &mut ZfpBitStream, config: &ZfpConfig, execution: ZfpExecution) -> Vec<u64> {
    let mut out = f64_bytes(&[0f64; 15]);
    {
        let mut field = ZfpFieldMut::new_strided(&mut out, ZfpScalarType::Double, [8usize, 8], [1isize, 1]);
        bs.rewind();
        bs.decompress_with_execution(config, &mut field, execution).unwrap();
    }
    f64_values(&out).into_iter().map(f64::to_bits).collect()
}

#[test]
fn aliasing_strides_decompress_serially() {
    // A rate of 16 bits per value over blocks of 16 values.
    let config = ZfpConfig::fixed_rate_bits(256, ZfpScalarType::Double, ZfpStreamAlignment::Packed);
    let src: Vec<f64> = (0..64).map(f64::from).collect();
    let bytes = f64_bytes(&src);
    let mut bs = ZfpBitStream::new(4096);
    bs.compress(&config, &ZfpField::new(&bytes, ZfpScalarType::Double, [8usize, 8])).unwrap();

    let parallel = decode(&mut bs, &config, ZfpExecution::Rayon { threads: 4, chunk_size: 1 });
    assert_eq!(parallel, decode(&mut bs, &config, ZfpExecution::Serial));
}

#[test]
fn decompressed_field_hands_back_its_bytes() {
    let config = ZfpConfig::reversible();
    let src: Vec<f64> = (0..16).map(|i| f64::from(i) * 0.25 - 1.0).collect();
    let bytes = f64_bytes(&src);
    let mut bs = ZfpBitStream::new(config.maximum_size(ZfpScalarType::Double, &[4, 4]));
    let n = bs.compress(&config, &ZfpField::new(&bytes, ZfpScalarType::Double, [4usize, 4])).unwrap();
    bs.rewind();

    let mut out = vec![0u8; bytes.len()];
    let mut field = ZfpFieldMut::new(&mut out, ZfpScalarType::Double, [4usize, 4]);
    assert_eq!(bs.decompress(&config, &mut field), Ok(n));
    let back = field.into_data();
    assert_eq!(back, &bytes[..]);
}

#[test]
fn maximum_size_has_room_for_any_reversible_block() {
    // Values whose bit patterns use every plane, in each of the four scalar types.
    let config = ZfpConfig::reversible();
    let doubles: Vec<f64> = (0..64).map(|i| if i % 2 == 0 { f64::MAX } else { -f64::MIN_POSITIVE * f64::from(i) }).collect();
    let bytes = f64_bytes(&doubles);
    let max = config.maximum_size(ZfpScalarType::Double, &[4, 4, 4]);
    let mut bs = ZfpBitStream::new(max);
    let n = bs.compress(&config, &ZfpField::new(&bytes, ZfpScalarType::Double, [4usize, 4, 4])).unwrap();
    assert!(n > 0 && n <= max);

    let ints: Vec<u8> = (0..16i32).flat_map(|i| (if i % 2 == 0 { i32::MIN } else { i32::MAX - i }).to_le_bytes()).collect();
    let max = config.maximum_size(ZfpScalarType::Int32, &[16]);
    let mut bs = ZfpBitStream::new(max);
    let n = bs.compress(&config, &ZfpField::new(&ints, ZfpScalarType::Int32, [16usize])).unwrap();
    assert!(n > 0 && n <= max);
}
