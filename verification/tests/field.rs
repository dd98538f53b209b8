use zfp_rs::bitstream::ZfpBitStream;
use zfp_rs::config::ZfpConfig;
use zfp_rs::field::{checked_size_bytes, ZfpField, ZfpFieldMut};
use zfp_rs::types::{ZfpCompressionError, ZfpDecompressionError, ZfpScalarType};

fn f64_bytes(v: &[f64]) -> Vec<u8> {
    v.iter().flat_map(|x| x.to_le_bytes()).collect()
}

#[test]
fn checked_size_bytes_matches_size_bytes_for_ordinary_fields() {
    let data = f64_bytes(&[0f64; 64]);
    let field = ZfpField::new(&data, ZfpScalarType::Double, [4usize, 4, 4]);
    assert_eq!(field.checked_size_bytes(), Some(field.size_bytes()));

    // Negative and permuted strides still span the same buffer.
    let strided = ZfpField::new_strided(&data, ZfpScalarType::Double, [4usize, 4, 4], [1isize, -4, 16]);
    assert_eq!(strided.checked_size_bytes(), Some(strided.size_bytes()));
}

#[test]
fn checked_size_bytes_reports_overflow_instead_of_wrapping() {
    assert_eq!(checked_size_bytes(&[usize::MAX, usize::MAX, 0, 0], &[0; 4], ZfpScalarType::Double), None);
}

#[test]
fn compress_rejects_a_field_larger_than_its_buffer() {
    let data = f64_bytes(&[0f64; 4]);
    let field = ZfpField::new(&data, ZfpScalarType::Double, [1000usize]);
    let config = ZfpConfig::reversible();
    let mut bs = ZfpBitStream::new(4096);

    assert_eq!(bs.compress(&config, &field), Err(ZfpCompressionError::InvalidField { required: 8000, actual: 32 }));
}

#[test]
fn decompress_rejects_a_field_larger_than_its_buffer() {
    let mut data = f64_bytes(&[0f64; 4]);
    let mut field = ZfpFieldMut::new(&mut data, ZfpScalarType::Double, [1000usize]);
    let config = ZfpConfig::reversible();
    let mut bs = ZfpBitStream::new(4096);

    assert_eq!(
        bs.decompress(&config, &mut field),
        Err(ZfpDecompressionError::InvalidField { required: 8000, actual: 32 })
    );
}

#[test]
fn strides_that_overrun_the_buffer_are_rejected() {
    let data = f64_bytes(&[0f64; 16]);
    // A 4x4 field with sy = 100 spans 1 + 3*1 + 3*100 = 304 elements.
    let field = ZfpField::new_strided(&data, ZfpScalarType::Double, [4usize, 4], [1isize, 100]);
    let config = ZfpConfig::reversible();
    let mut bs = ZfpBitStream::new(4096);

    assert_eq!(
        bs.compress(&config, &field),
        Err(ZfpCompressionError::InvalidField { required: 304 * 8, actual: 128 })
    );
}

#[test]
fn exactly_sized_fields_are_accepted() {
    let data = f64_bytes(&[1.5f64; 64]);
    let field = ZfpField::new(&data, ZfpScalarType::Double, [4usize, 4, 4]);
    let config = ZfpConfig::reversible();
    let mut bs = ZfpBitStream::new(config.maximum_size(ZfpScalarType::Double, &[4, 4, 4]));

    let written = bs.compress(&config, &field).expect("exact fit must compress");
    assert!(written > 0);
}
