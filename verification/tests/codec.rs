use light_r::codec::{decode, encode, is_nan, is_positive, NAN_BITS};

#[test]
fn nan_sentinel_is_the_quiet_nan() {
    assert_eq!(NAN_BITS, f64::NAN.to_bits());
    assert!(f64::from_bits(NAN_BITS).is_nan());
    assert!(is_nan(NAN_BITS));
}

#[test]
fn encode_then_decode_gives_the_bits_back() {
    let mut buf = vec![0u8; 24];
    encode(&mut buf, 8, 1.5f64.to_bits());
    assert_eq!(decode(&buf, 8), 1.5f64.to_bits());
    assert_eq!(&buf[8..16], &1.5f64.to_le_bytes());
    assert_eq!(&buf[0..8], &[0u8; 8]);
    assert_eq!(&buf[16..24], &[0u8; 8]);
}

#[test]
fn is_positive_agrees_with_float_comparison() {
    let samples = [
        0.0f64,
        -0.0,
        1.0,
        -1.0,
        100.0,
        -5.0,
        f64::MIN_POSITIVE,
        5e-324,
        f64::MAX,
        f64::MIN,
        f64::INFINITY,
        f64::NEG_INFINITY,
        f64::NAN,
        -f64::NAN,
    ];
    for v in samples {
        assert_eq!(is_positive(v.to_bits()), v > 0.0);
        assert_eq!(is_nan(v.to_bits()), v.is_nan());
    }
}
