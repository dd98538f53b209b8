use zfp_rs::field::{ZfpField, ZfpFieldMetadata};
use zfp_rs::types::{ZfpMetadataError, ZfpScalarType};

#[test]
fn a_zero_first_extent_before_a_nonzero_one_is_too_large() {
    let m = ZfpFieldMetadata { scalar_type: ZfpScalarType::Float, dims: [0, 5, 0, 0] };
    assert_eq!(m.to_bits(), Err(ZfpMetadataError::DimensionTooLarge));
    let m = ZfpFieldMetadata { scalar_type: ZfpScalarType::Int64, dims: [0, 0, 3, 0] };
    assert_eq!(m.to_bits(), Err(ZfpMetadataError::DimensionTooLarge));
    let bytes = vec![0u8; 40];
    let field = ZfpField::new(&bytes, ZfpScalarType::Double, [0usize, 5, 0, 0]);
    assert_eq!(field.metadata(), Err(ZfpMetadataError::DimensionTooLarge));
}

#[test]
fn all_zero_extents_have_no_metadata() {
    let m = ZfpFieldMetadata { scalar_type: ZfpScalarType::Int32, dims: [0, 0, 0, 0] };
    assert_eq!(m.to_bits(), Err(ZfpMetadataError::Null));
}
