use zfp_rs::config::{ZfpConfig, ZfpStreamAlignment};
use zfp_rs::types::{ZfpMode, ZfpScalarType, ZFP_MAX_BITS, ZFP_MAX_PREC, ZFP_MIN_BITS, ZFP_MIN_EXP};

#[test]
fn new_is_expert_mode() {
    let config = ZfpConfig::new();
    assert_eq!(config.compression_mode(), ZfpMode::Expert);
    assert_eq!(config, ZfpConfig::expert(ZFP_MIN_BITS, ZFP_MAX_BITS, ZFP_MAX_PREC, ZFP_MIN_EXP));
}

#[test]
fn fixed_rate_creates_fixed_rate_stream() {
    for zfp_type in [ZfpScalarType::Int32, ZfpScalarType::Int64, ZfpScalarType::Float, ZfpScalarType::Double] {
        // A rate of 8 bits per value, for blocks of 4, 16, 64 and 256 values.
        for block_values in [4u32, 16, 64, 256] {
            let config = ZfpConfig::fixed_rate_bits(8 * block_values, zfp_type, ZfpStreamAlignment::Packed);
            assert_eq!(config.compression_mode(), ZfpMode::FixedRate, "type={zfp_type:?} values={block_values}");
        }
    }
}

#[test]
fn fixed_rate_with_align_rounds_to_word_boundary() {
    // Rate 8 over 64 values.
    let config = ZfpConfig::fixed_rate_bits(512, ZfpScalarType::Double, ZfpStreamAlignment::WordAligned);
    assert_eq!(config.max_bits(), 512);

    // Rate 5 over 64 values.
    let config = ZfpConfig::fixed_rate_bits(320, ZfpScalarType::Double, ZfpStreamAlignment::WordAligned);
    assert_eq!(config.max_bits(), 320);
}

#[test]
fn fixed_rate_min_bits_enforcement() {
    // Rate 0.1 over 4 values rounds to no bits at all.
    let config = ZfpConfig::fixed_rate_bits(0, ZfpScalarType::Float, ZfpStreamAlignment::Packed);
    assert_eq!(config.min_bits(), 9);
    assert_eq!(config.max_bits(), 9);

    let config = ZfpConfig::fixed_rate_bits(0, ZfpScalarType::Double, ZfpStreamAlignment::Packed);
    assert_eq!(config.min_bits(), 12);
    assert_eq!(config.max_bits(), 12);
}

#[test]
fn fixed_precision_creates_fixed_precision_stream() {
    for prec in 1..ZFP_MAX_PREC {
        let config = ZfpConfig::fixed_precision(prec);
        assert_eq!(config.compression_mode(), ZfpMode::FixedPrecision, "prec={prec}");
        assert_eq!(config.precision(), prec);
    }
}

#[test]
fn reversible_creates_reversible_stream() {
    let config = ZfpConfig::reversible();
    assert_eq!(config.compression_mode(), ZfpMode::Reversible);
}

#[test]
fn expert_sets_custom_params() {
    let config = ZfpConfig::expert(10, 100, 50, -500);
    assert_eq!(config.compression_mode(), ZfpMode::Expert);
}

#[test]
fn copy_clone() {
    let config = ZfpConfig::fixed_rate_bits(512, ZfpScalarType::Double, ZfpStreamAlignment::Packed);
    let cloned = config;
    assert_eq!(config, cloned);
}

#[test]
fn mode_word_round_trips_through_from_mode() {
    for config in [
        ZfpConfig::fixed_rate_bits(64, ZfpScalarType::Double, ZfpStreamAlignment::Packed),
        ZfpConfig::fixed_precision(17),
        ZfpConfig::fixed_accuracy_exponent(-20),
        ZfpConfig::reversible(),
        ZfpConfig::expert(10, 100, 50, -500),
    ] {
        assert_eq!(ZfpConfig::from_mode(config.mode_bits()), Some(config));
    }
}

#[test]
fn fixed_accuracy_exponent_is_fixed_accuracy_mode() {
    let config = ZfpConfig::fixed_accuracy_exponent(-20);
    assert_eq!(config.compression_mode(), ZfpMode::FixedAccuracy);
    assert_eq!(config.min_exp(), -20);
}
