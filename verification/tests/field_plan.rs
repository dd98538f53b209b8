use zfp_rs::field::ZfpField;
use zfp_rs::field_plan::FieldPlan;
use zfp_rs::types::{ZfpDimensionality, ZfpScalarType};

fn imin_by_hand(dims: [usize; 4], strides: [isize; 4], dim_count: usize) -> isize {
    let mut lo: isize = 0;
    for (s, sz) in strides.iter().zip(dims.iter()).take(dim_count) {
        if *s < 0 {
            lo += s * (*sz as isize - 1);
        }
    }
    lo
}

#[test]
fn field_index_span_matches_the_inline_imin() {
    let cases: [([usize; 4], [isize; 4], usize); 9] = [
        ([8, 0, 0, 0], [1, 0, 0, 0], 1),
        ([8, 0, 0, 0], [-1, 0, 0, 0], 1),
        ([8, 5, 0, 0], [1, 8, 0, 0], 2),
        ([8, 5, 0, 0], [-1, -8, 0, 0], 2),
        ([8, 5, 0, 0], [1, -8, 0, 0], 2),
        ([4, 3, 2, 0], [1, -4, 12, 0], 3),
        ([4, 3, 2, 2], [-1, 4, -12, 24], 4),
        ([4, 3, 2, 2], [-1, -4, -12, -24], 4),
        // Dims past `dim_count` must not shift the origin.
        ([5, 0, 5, 0], [1, 0, -100, 0], 1),
    ];
    for (dims, strides, dim_count) in cases {
        assert_eq!(
            ZfpField::field_index_span_static(&dims, &strides).0,
            imin_by_hand(dims, strides, dim_count),
            "dims {dims:?} strides {strides:?}"
        );
    }
}

fn may_alias(dims: [usize; 4], strides: [isize; 4], dims_enum: ZfpDimensionality) -> bool {
    FieldPlan { num_blocks: 0, bx: 0, by: 0, bz: 0, imin: 0, strides, dims, dims_enum, scalar_type: ZfpScalarType::Float }
        .strides_may_alias()
}

#[test]
fn aliasing_strides_are_detected() {
    assert!(!may_alias([8, 8, 0, 0], [1, 8, 0, 0], ZfpDimensionality::D2));
    assert!(!may_alias([8, 8, 0, 0], [-1, 8, 0, 0], ZfpDimensionality::D2));
    assert!(!may_alias([8, 8, 0, 0], [8, 1, 0, 0], ZfpDimensionality::D2));
    assert!(!may_alias([8, 0, 0, 0], [1, 0, 0, 0], ZfpDimensionality::D1));
    // Both axes step by one element.
    assert!(may_alias([8, 8, 0, 0], [1, 1, 0, 0], ZfpDimensionality::D2));
    // A stride that lands inside the span of a smaller one.
    assert!(may_alias([8, 8, 0, 0], [1, 4, 0, 0], ZfpDimensionality::D2));
    // A zero stride repeats the same element.
    assert!(may_alias([8, 8, 0, 0], [1, 0, 0, 0], ZfpDimensionality::D2));
    // An axis outside `dim_count` does not count.
    assert!(!may_alias([8, 8, 0, 0], [1, 1, 0, 0], ZfpDimensionality::D1));
}
