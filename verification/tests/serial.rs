use ws2812_core::bit::BitValue;
use ws2812_core::color::Color;
use ws2812_core::frame::Frame;
use ws2812_core::serial::{
    decode_bytes, decode_pattern, encode_byte, encode_color, frame_bytes, pattern, write_byte,
    write_color, CLOCK_KHZ, DATA_BYTES, DMA_BYTES, FRAME_BYTES, RESET_BYTES,
};
use ws2812_core::timing::RESET_MIN_US;

#[test]
fn byte_a5_maps_pair_by_pair_from_the_top() {
    // 0xA5 is 10 10 01 01.
    assert_eq!(
        encode_byte(0xa5),
        [0b1110_1000, 0b1110_1000, 0b1000_1110, 0b1000_1110]
    );
}

#[test]
fn each_pair_has_its_pattern() {
    assert_eq!(encode_byte(0b00_01_10_11), [0b1000_1000, 0b1000_1110, 0b1110_1000, 0b1110_1110]);
    assert_eq!(encode_byte(0x00), [0x88; 4]);
    assert_eq!(encode_byte(0xff), [0xee; 4]);
    assert_eq!(encode_byte(0x08), [0x88, 0x88, 0xe8, 0x88]);
}

#[test]
fn pattern_carries_two_bits_as_nibbles() {
    let (one, zero) = (BitValue::One, BitValue::Zero);
    assert_eq!(pattern(zero, zero), 0x88);
    assert_eq!(pattern(zero, one), 0x8e);
    assert_eq!(pattern(one, zero), 0xe8);
    assert_eq!(pattern(one, one), 0xee);
    for byte in 0..=255u8 {
        match byte {
            0x88 => assert_eq!(decode_pattern(byte), Some((zero, zero))),
            0x8e => assert_eq!(decode_pattern(byte), Some((zero, one))),
            0xe8 => assert_eq!(decode_pattern(byte), Some((one, zero))),
            0xee => assert_eq!(decode_pattern(byte), Some((one, one))),
            _ => assert_eq!(decode_pattern(byte), None),
        }
    }
}

#[test]
fn write_byte_goes_on_with_zero_pairs() {
    let mut buf = [0u8; 6];
    write_byte(&mut buf, 0xff);
    assert_eq!(buf, [0xee, 0xee, 0xee, 0xee, 0x88, 0x88]);

    let mut short = [0u8; 2];
    write_byte(&mut short, 0b01_10_11_00);
    assert_eq!(short, [0x8e, 0xe8]);

    let mut none: [u8; 0] = [];
    write_byte(&mut none, 0xff);
}

#[test]
fn frame_sizes() {
    assert_eq!(DATA_BYTES, 12);
    assert_eq!(RESET_BYTES, 21);
    assert_eq!(FRAME_BYTES, DATA_BYTES + RESET_BYTES);
    assert_eq!(DMA_BYTES, 48);
}

#[test]
fn reset_run_is_just_long_enough() {
    assert_eq!(CLOCK_KHZ, 3_333);
    let ticks = 8 * RESET_BYTES as u64;
    assert!(ticks * 1_000 >= RESET_MIN_US as u64 * CLOCK_KHZ as u64);
    assert!((ticks - 8) * 1_000 < RESET_MIN_US as u64 * CLOCK_KHZ as u64);
}

#[test]
fn red_5_frame_bytes() {
    let bytes = encode_color(Color::new(5, 0, 0));
    let mut expected = [0u8; 33];
    expected[..12].copy_from_slice(&[
        0x88, 0x88, 0x88, 0x88, // green 0
        0x88, 0x88, 0x8e, 0x8e, // red 5
        0x88, 0x88, 0x88, 0x88, // blue 0
    ]);
    assert_eq!(bytes, expected);
    assert!(bytes[12..].iter().all(|byte| *byte == 0));
    assert_eq!(bytes[12..].len(), 21);
}

#[test]
fn frame_bytes_are_the_encoded_channel_bytes() {
    for value in 0..=255u8 {
        let color = Color::new(value, value.rotate_left(3), value ^ 0xc3);
        let bytes = frame_bytes(&Frame::build(color));
        assert_eq!(bytes[0..4], encode_byte(color.g));
        assert_eq!(bytes[4..8], encode_byte(color.r));
        assert_eq!(bytes[8..12], encode_byte(color.b));
        assert_eq!(bytes[12..], [0u8; 21]);
        assert_eq!(bytes, encode_color(color));
    }
}

#[test]
fn write_color_fills_the_start_of_the_buffer() {
    let mut buf = [0u8; 48];
    write_color(&mut buf, 16, 0, 0);
    assert_eq!(buf[0..4], [0x88; 4]);
    assert_eq!(buf[4..8], [0x88, 0x8e, 0x88, 0x88]);
    assert_eq!(buf[8..12], [0x88; 4]);
    assert_eq!(buf[12..], [0u8; 36]);
    assert_eq!(decode_bytes(&buf), Some(Frame::build(Color::new(16, 0, 0))));

    // A second colour overwrites the first.
    write_color(&mut buf, 0, 16, 0);
    assert_eq!(decode_bytes(&buf), Some(Frame::build(Color::new(0, 16, 0))));
}

#[test]
fn write_color_leaves_the_rest_alone() {
    let mut buf = [0x55u8; 48];
    write_color(&mut buf, 1, 2, 3);
    assert_eq!(buf[0..4], encode_byte(2));
    assert_eq!(buf[4..8], encode_byte(1));
    assert_eq!(buf[8..12], encode_byte(3));
    assert_eq!(buf[12..], [0x55u8; 36]);
    assert_eq!(decode_bytes(&buf), None);
}

#[test]
fn bytes_decode_to_the_colour() {
    for value in 0..=255u8 {
        let color = Color::new(!value, value, value.wrapping_add(77));
        let bytes = encode_color(color);
        let frame = decode_bytes(&bytes).expect("a frame");
        assert_eq!(frame.color(), color);
    }
}

#[test]
fn a_longer_reset_is_accepted() {
    let mut bytes = encode_color(Color::new(9, 8, 7)).to_vec();
    bytes.extend([0u8; 256]);
    assert_eq!(decode_bytes(&bytes), Some(Frame::build(Color::new(9, 8, 7))));
}

#[test]
fn other_bytes_are_no_frame() {
    let good = encode_color(Color::new(9, 8, 7));
    assert!(decode_bytes(&good).is_some());
    // One zero byte short of the reset.
    assert_eq!(decode_bytes(&good[..32]), None);
    assert_eq!(decode_bytes(&[]), None);

    let mut bad_pattern = good;
    bad_pattern[3] = 0x80;
    assert_eq!(decode_bytes(&bad_pattern), None);

    let mut high_in_reset = good;
    high_in_reset[20] = 0x01;
    assert_eq!(decode_bytes(&high_in_reset), None);

    let mut high_at_end = good.to_vec();
    high_at_end.push(0x88);
    assert_eq!(decode_bytes(&high_at_end), None);
}
