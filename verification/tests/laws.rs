use zfp_rs::bitstream::ZfpBitStream;
use zfp_rs::codec::order::{fwd_order_i32, int2uint_i32, int2uint_i64, inv_order_i32, uint2int_u32, uint2int_u64};
use zfp_rs::codec::promote::{demote_i32_to_i16, demote_i32_to_u8, promote_i16_to_i32, promote_u8_to_i32};
use zfp_rs::codec::transform::{rev_fwd_xform_2d, rev_inv_xform_2d, rev_fwd_xform_3d_i64, rev_inv_xform_3d_i64};
use zfp_rs::config::{ZfpConfig, ZfpStreamAlignment};
use zfp_rs::field::{decode_metadata, field_metadata, ZfpField, ZfpFieldMut};
use zfp_rs::types::{ZfpDimensionality, ZfpHeaderMask, ZfpScalarType};

#[test]
fn header_written_then_read_gives_config_and_metadata_back() {
    let bytes = vec![0u8; 4 * 7 * 3 * 8];
    let field = ZfpField::new(&bytes, ZfpScalarType::Double, [7usize, 3, 8]);
    let config = ZfpConfig::fixed_precision(23);
    let mut bs = ZfpBitStream::new(64);
    let written = bs.write_header(&config, &field, ZfpHeaderMask::full());
    bs.flush();
    bs.rewind();
    let header = bs.read_header(ZfpHeaderMask::full()).expect("header");
    assert_eq!(header.bits_read, written);
    assert_eq!(header.config, Some(config));
    let meta = header.metadata.expect("metadata");
    assert_eq!(meta.scalar_type, ZfpScalarType::Double);
    assert_eq!(meta.dims, [7, 3, 8, 0]);
}

#[test]
fn a_header_without_magic_is_refused() {
    let mut bs = ZfpBitStream::new(64);
    bs.write_bits(0x1234_5678, 32);
    bs.flush();
    bs.rewind();
    assert!(bs.read_header(ZfpHeaderMask::magic()).is_err());
}

#[test]
fn metadata_word_round_trips() {
    for (ty, dims) in [
        (ZfpScalarType::Int32, [17usize, 0, 0, 0]),
        (ZfpScalarType::Float, [5, 9, 0, 0]),
        (ZfpScalarType::Int64, [3, 4, 5, 0]),
        (ZfpScalarType::Double, [2, 3, 4, 5]),
    ] {
        let meta = field_metadata(ty, &dims).expect("encodable");
        assert_eq!(decode_metadata(meta), Some((ty, dims)));
    }
}

#[test]
fn negabinary_round_trips() {
    for x in [0i32, 1, -1, 12345, i32::MIN, i32::MAX] {
        assert_eq!(uint2int_u32(int2uint_i32(x)), x);
    }
    for x in [0i64, 7, -7, i64::MIN, i64::MAX] {
        assert_eq!(uint2int_u64(int2uint_i64(x)), x);
    }
    // 1 in negabinary is 0b1, -1 is 0b11.
    assert_eq!(int2uint_i32(1), 1);
    assert_eq!(int2uint_i32(-1), 3);
}

#[test]
fn coefficient_order_round_trips() {
    let block: Vec<i32> = (0..16).map(|i| i * 37 - 200).collect();
    let u = fwd_order_i32(&block, 2);
    let mut back = vec![0i32; 16];
    inv_order_i32(&u, &mut back, 2);
    assert_eq!(back, block);
}

#[test]
fn reversible_transforms_round_trip() {
    let mut block = [0i32; 16];
    for (i, v) in block.iter_mut().enumerate() {
        *v = (i as i32 * 1_000_003) ^ -77;
    }
    let before = block;
    rev_fwd_xform_2d(&mut block);
    assert_ne!(block, before);
    rev_inv_xform_2d(&mut block);
    assert_eq!(block, before);

    let mut wide = [0i64; 64];
    for (i, v) in wide.iter_mut().enumerate() {
        *v = (i as i64 - 30) * 0x1234_5678_9abc;
    }
    let before = wide;
    rev_fwd_xform_3d_i64(&mut wide);
    rev_inv_xform_3d_i64(&mut wide);
    assert_eq!(wide, before);
}

#[test]
fn promotion_then_demotion_round_trips() {
    let src: Vec<u8> = (0..16).map(|i| (i * 16 + 3) as u8).collect();
    let mut wide = vec![0i32; 16];
    promote_u8_to_i32(&mut wide, &src, ZfpDimensionality::D2);
    let mut back = vec![0u8; 16];
    demote_i32_to_u8(&mut back, &wide, ZfpDimensionality::D2);
    assert_eq!(back, src);

    let src: Vec<i16> = (0..4).map(|i| i * 9000 - 15000).collect();
    let mut wide = vec![0i32; 4];
    promote_i16_to_i32(&mut wide, &src, ZfpDimensionality::D1);
    let mut back = vec![0i16; 4];
    demote_i32_to_i16(&mut back, &wide, ZfpDimensionality::D1);
    assert_eq!(back, src);
}

#[test]
fn fixed_rate_blocks_take_exactly_the_rate() {
    // Five one-dimensional blocks of 40 bits each.
    let values: Vec<i32> = (0..19).map(|i| i * i * 1000 - 7).collect();
    let bytes: Vec<u8> = values.iter().flat_map(|x| x.to_le_bytes()).collect();
    let field = ZfpField::new(&bytes, ZfpScalarType::Int32, [values.len()]);
    let config = ZfpConfig::fixed_rate_bits(40, ZfpScalarType::Int32, ZfpStreamAlignment::Packed);
    let mut bs = ZfpBitStream::new(1024);
    bs.compress(&config, &field).unwrap();
    assert_eq!(bs.word_pos(), (5 * 40 + 63) / 64);

    let doubles: Vec<f64> = (0..17).map(|i| (i as f64).sqrt()).collect();
    let bytes: Vec<u8> = doubles.iter().flat_map(|x| x.to_le_bytes()).collect();
    let field = ZfpField::new(&bytes, ZfpScalarType::Double, [doubles.len()]);
    let config = ZfpConfig::fixed_rate_bits(64, ZfpScalarType::Double, ZfpStreamAlignment::Packed);
    let mut bs = ZfpBitStream::new(1024);
    let size = bs.compress(&config, &field).unwrap();
    assert_eq!(size, 5 * 64 / 8);
}

#[test]
fn fixed_rate_blocks_take_exactly_the_rate_at_high_rates() {
    // 80 bits per value: the coder runs without a budget and the block is padded.
    let values: Vec<i64> = (0..8).map(|i| (i as i64 - 3) * 0x0123_4567_89ab_cdef).collect();
    let bytes: Vec<u8> = values.iter().flat_map(|x| x.to_le_bytes()).collect();
    let field = ZfpField::new(&bytes, ZfpScalarType::Int64, [values.len()]);
    let config = ZfpConfig::fixed_rate_bits(320, ZfpScalarType::Int64, ZfpStreamAlignment::Packed);
    let mut bs = ZfpBitStream::new(1024);
    let size = bs.compress(&config, &field).unwrap();
    assert_eq!(size, 2 * 320 / 8);

    let doubles: Vec<f64> = (0..16).map(|i| (i as f64 * 0.7).sin() * 1.0e300).collect();
    let bytes: Vec<u8> = doubles.iter().flat_map(|x| x.to_le_bytes()).collect();
    let field = ZfpField::new(&bytes, ZfpScalarType::Double, [4usize, 4]);
    let config = ZfpConfig::fixed_rate_bits(16 * 72, ZfpScalarType::Double, ZfpStreamAlignment::Packed);
    let mut bs = ZfpBitStream::new(4096);
    let size = bs.compress(&config, &field).unwrap();
    assert_eq!(size, 16 * 72 / 8);
}

#[test]
fn lossy_decompression_reads_what_compression_wrote() {
    let doubles: Vec<f64> = (0..(5 * 6 * 3)).map(|i| ((i * 7) as f64).cos() * 3.0e4 - 11.0).collect();
    let bytes: Vec<u8> = doubles.iter().flat_map(|x| x.to_le_bytes()).collect();
    let dims = [5usize, 6, 3, 0];
    let configs = [
        ZfpConfig::fixed_precision(17),
        ZfpConfig::fixed_rate_bits(64 * 3 + 5, ZfpScalarType::Double, ZfpStreamAlignment::Packed),
        ZfpConfig::expert(12, 3000, 40, -30),
        ZfpConfig::fixed_accuracy_exponent(-10),
    ];
    for config in configs.iter() {
        let field = ZfpField::new(&bytes, ZfpScalarType::Double, dims);
        let mut bs = ZfpBitStream::new(config.maximum_size(ZfpScalarType::Double, &dims[..3]) + 64);
        let written = bs.compress(config, &field).unwrap();
        bs.rewind();
        let mut out = vec![0u8; bytes.len()];
        let read = {
            let mut target = ZfpFieldMut::new(&mut out, ZfpScalarType::Double, dims);
            bs.decompress(config, &mut target).unwrap()
        };
        assert_eq!(read, written);
    }
}

#[test]
fn strided_fields_round_trip_reversibly() {
    // A 3x4 field laid out with a negative row stride inside a larger buffer.
    let values: Vec<i64> = (0..20).map(|i| i * 31 - 100).collect();
    let bytes: Vec<u8> = values.iter().flat_map(|x| x.to_le_bytes()).collect();
    let field = ZfpField::new_strided(&bytes[..], ZfpScalarType::Int64, [3usize, 4], [1isize, -5]);
    let config = ZfpConfig::reversible();
    let mut bs = ZfpBitStream::new(4096);
    bs.compress(&config, &field).unwrap();
    bs.rewind();
    let mut out = vec![0u8; bytes.len()];
    {
        let mut target = ZfpFieldMut::new_strided(&mut out, ZfpScalarType::Int64, [3usize, 4], [1isize, -5]);
        bs.decompress(&config, &mut target).unwrap();
    }
    let back: Vec<i64> = out.chunks(8).map(|c| i64::from_le_bytes(c.try_into().unwrap())).collect();
    // Value (x, y) lies at 15 - 5y + x, counted from the least one.
    for y in 0..4 {
        for x in 0..3 {
            let i = 15 - 5 * y + x;
            assert_eq!(back[i], values[i]);
        }
    }
}
