use callvad::decoder::{calculate_amplitude, mulaw_to_pcm};

#[test]
fn byte_ff_decodes_to_smallest_positive_value() {
    assert_eq!(mulaw_to_pcm(0xFF), 99);
}

#[test]
fn byte_00_decodes_to_largest_negative_value() {
    assert_eq!(mulaw_to_pcm(0x00), -32223);
}

#[test]
fn sign_bit_of_inverted_byte_selects_sign() {
    assert_eq!(mulaw_to_pcm(0x7F), -99);
    assert_eq!(mulaw_to_pcm(0x80), 32223);
}

#[test]
fn decoding_is_deterministic() {
    for b in 0..=255u8 {
        assert_eq!(mulaw_to_pcm(b), mulaw_to_pcm(b));
    }
}

#[test]
fn decoded_magnitudes_stay_in_range() {
    for b in 0..=255u8 {
        let v = mulaw_to_pcm(b) as i32;
        assert!(v.abs() >= 99 && v.abs() <= 32223);
    }
}

#[test]
fn mid_range_byte_decodes_exactly() {
    // inverted 0xD3: exponent 5, mantissa 3, negative
    assert_eq!(mulaw_to_pcm(0x2C), -4959);
}

#[test]
fn empty_frame_has_zero_amplitude() {
    assert_eq!(calculate_amplitude(&[]), 0);
}

#[test]
fn amplitude_is_largest_absolute_sample() {
    assert_eq!(calculate_amplitude(&[0xFF, 0x00, 0x7F]), 32223);
    assert_eq!(calculate_amplitude(&[0xFF, 0x7F]), 99);
    assert_eq!(calculate_amplitude(&[0xFF, 0x2C]), 4959);
}
