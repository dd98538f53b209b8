use zfp_rs::bitstream::ZfpBitStream;
use zfp_rs::config::ZfpConfig;
use zfp_rs::field::{ZfpField, ZfpFieldMut};
use zfp_rs::types::{ZfpHeaderMask, ZfpScalarType};
use zfp_rs::{compress_bitstream, decompress_bitstream, read_header_bitstream};

fn i32_bytes(v: &[i32]) -> Vec<u8> {
    v.iter().flat_map(|x| x.to_le_bytes()).collect()
}

#[test]
fn generic_entry_points_round_trip_integers() {
    let values: Vec<i32> = (0..40).map(|i| (i * i * 37 - 500) as i32).collect();
    let bytes = i32_bytes(&values);
    let dims = [8usize, 5, 0, 0];
    let config = ZfpConfig::reversible();
    let field = ZfpField::new(&bytes, ZfpScalarType::Int32, dims);
    let mut bs = ZfpBitStream::new(config.maximum_size(ZfpScalarType::Int32, &dims[..2]) + 64);
    let written = compress_bitstream(&mut bs, &field, &config).expect("compress");
    assert!(written > 0);
    assert_eq!(written % 8, 0);
    bs.rewind();
    let mut out = vec![0u8; bytes.len()];
    let read = {
        let mut target = ZfpFieldMut::new(&mut out, ZfpScalarType::Int32, dims);
        decompress_bitstream(&mut bs, &mut target, &config).expect("decompress")
    };
    assert_eq!(out, bytes);
    assert_eq!(read, written);
}

#[test]
fn generic_header_reader_matches_the_stream_method() {
    let bytes = vec![0u8; 6 * 4];
    let field = ZfpField::new(&bytes, ZfpScalarType::Float, [6usize, 0, 0, 0]);
    let config = ZfpConfig::fixed_precision(12);
    let mut bs = ZfpBitStream::new(64);
    let written = bs.write_header(&config, &field, ZfpHeaderMask::full());
    bs.flush();
    bs.rewind();
    let header = read_header_bitstream(&mut bs, ZfpHeaderMask::full()).expect("header");
    assert_eq!(header.bits_read, written);
    assert_eq!(header.config, Some(config));
    let meta = header.metadata.expect("metadata");
    assert_eq!(meta.scalar_type, ZfpScalarType::Float);
    assert_eq!(meta.dims, [6, 0, 0, 0]);
}

#[test]
fn generic_compress_refuses_a_short_field() {
    let bytes = vec![0u8; 8];
    let field = ZfpField::new(&bytes, ZfpScalarType::Int32, [4usize, 0, 0, 0]);
    let mut bs = ZfpBitStream::new(64);
    assert!(compress_bitstream(&mut bs, &field, &ZfpConfig::reversible()).is_err());
    assert_eq!(bs.bits_written(), 0);
}
