use zfp_rs::bitstream::{ZfpBitStream, ZfpBitStreamMutOps, ZfpBitStreamOps};
use zfp_rs::codec::typed::{decode_block_checked, default_block_params, encode_block_checked};
use zfp_rs::types::{ZfpBlockError, ZfpDimensionality, ZfpScalarType};

#[test]
fn a_block_of_the_wrong_length_is_refused() {
    let mut bs = ZfpBitStream::new(256);
    let params = default_block_params(ZfpScalarType::Int32, ZfpDimensionality::D2);
    let raw = vec![1u64; 15];
    assert_eq!(encode_block_checked(&mut bs, ZfpScalarType::Int32, &raw, ZfpDimensionality::D2, &params), Err(ZfpBlockError));
    assert_eq!(bs.write_pos(), 0);
    let mut out = vec![7u64; 5];
    assert_eq!(decode_block_checked(&mut bs, ZfpScalarType::Int32, &mut out, ZfpDimensionality::D1, &params), Err(ZfpBlockError));
    assert_eq!(out, vec![7u64; 5]);
    assert_eq!(bs.read_pos(), 0);
}

#[test]
fn default_parameters_follow_the_scalar_type() {
    let p = default_block_params(ZfpScalarType::Int32, ZfpDimensionality::D1);
    assert_eq!((p.min_bits, p.max_bits, p.max_prec, p.min_exp), (0, 32 * 4 + 1, 32, -1074));
    let p = default_block_params(ZfpScalarType::Int64, ZfpDimensionality::D3);
    assert_eq!((p.min_bits, p.max_bits, p.max_prec, p.min_exp), (0, 64 * 64 + 1, 64, -1074));
    let p = default_block_params(ZfpScalarType::Float, ZfpDimensionality::D2);
    assert_eq!((p.min_bits, p.max_bits, p.max_prec, p.min_exp), (0, 9 + 32 * 16, 32, -149));
    let p = default_block_params(ZfpScalarType::Double, ZfpDimensionality::D4);
    assert_eq!((p.min_bits, p.max_bits, p.max_prec, p.min_exp), (0, 12 + 64 * 256, 64, -1074));
}

#[test]
fn a_block_decodes_from_the_bits_it_was_coded_to() {
    let dims = ZfpDimensionality::D2;
    let params = default_block_params(ZfpScalarType::Double, dims);
    let values: Vec<f64> = (0..16).map(|i| (i as f64 * 0.37).sin() * 100.0).collect();
    let raw: Vec<u64> = values.iter().map(|v| v.to_bits()).collect();
    let mut bs = ZfpBitStream::new(4096);
    let written = encode_block_checked(&mut bs, ZfpScalarType::Double, &raw, dims, &params).unwrap();
    assert_eq!(bs.write_pos(), written);
    bs.flush();
    bs.rewind();
    let mut out = vec![0u64; 16];
    let read = decode_block_checked(&mut bs, ZfpScalarType::Double, &mut out, dims, &params).unwrap();
    assert_eq!(read, written);
    for (a, b) in values.iter().zip(out.iter().map(|b| f64::from_bits(*b))) {
        assert!((a - b).abs() < 1e-9, "{a} {b}");
    }
}
