use ws2812_core::bit::{bits_byte, byte_bits, BitValue};
use ws2812_core::color::Color;
use ws2812_core::frame::{Frame, Unit, DATA_UNITS, FRAME_UNITS};

fn bits(frame: &Frame) -> Vec<BitValue> {
    frame
        .units()
        .iter()
        .filter_map(|unit| match unit {
            Unit::Bit(bit) => Some(*bit),
            Unit::Reset => None,
        })
        .collect()
}

#[test]
fn black_is_24_zero_units_then_reset() {
    let frame = Frame::build(Color::new(0, 0, 0));
    let units = frame.units();
    for i in 0..24 {
        assert_eq!(units[i], Unit::Bit(BitValue::Zero));
    }
    assert_eq!(units[24], Unit::Reset);
    assert_eq!(frame, Frame::build(Color::off()));
}

#[test]
fn white_is_24_one_units_then_reset() {
    let frame = Frame::build(Color::new(255, 255, 255));
    let units = frame.units();
    for i in 0..24 {
        assert_eq!(units[i], Unit::Bit(BitValue::One));
    }
    assert_eq!(units[24], Unit::Reset);
}

#[test]
fn every_frame_has_25_units() {
    assert_eq!(DATA_UNITS, 24);
    assert_eq!(FRAME_UNITS, 25);
    for value in [0u8, 1, 5, 8, 16, 64, 127, 128, 200, 255] {
        for color in [
            Color::new(value, 0, 0),
            Color::new(0, value, 0),
            Color::new(0, 0, value),
            Color::new(value, value, value),
        ] {
            let frame = Frame::build(color);
            assert_eq!(frame.len(), 25);
            assert_eq!(frame.units().len(), 25);
            assert_eq!(bits(&frame).len(), 24);
            assert_eq!(frame.units()[24], Unit::Reset);
        }
    }
}

#[test]
fn red_top_bit_goes_first_in_the_red_channel() {
    let frame = Frame::build(Color::new(0b1000_0000, 0, 0));
    let units = frame.units();
    // Green comes first and is dark.
    for i in 0..8 {
        assert_eq!(units[i], Unit::Bit(BitValue::Zero));
    }
    // Red follows: its top bit is position 0 of its channel.
    assert_eq!(units[8], Unit::Bit(BitValue::One));
    for i in 9..16 {
        assert_eq!(units[i], Unit::Bit(BitValue::Zero));
    }
    for i in 16..24 {
        assert_eq!(units[i], Unit::Bit(BitValue::Zero));
    }
}

#[test]
fn lowest_bit_goes_last_in_its_channel() {
    let frame = Frame::build(Color::new(0, 0, 1));
    let units = frame.units();
    for i in 0..23 {
        assert_eq!(units[i], Unit::Bit(BitValue::Zero));
    }
    assert_eq!(units[23], Unit::Bit(BitValue::One));
}

#[test]
fn channels_go_out_green_red_blue() {
    let color = Color::new(0x0f, 0xf0, 0xaa);
    assert_eq!(color.to_wire(), [0xf0, 0x0f, 0xaa]);
    assert_eq!(Color::from_wire([0xf0, 0x0f, 0xaa]), color);
    let frame = Frame::build(color);
    let bits = bits(&frame);
    let byte = |from: usize| -> u8 {
        let mut group = [BitValue::Zero; 8];
        group.copy_from_slice(&bits[from..from + 8]);
        bits_byte(&group)
    };
    assert_eq!(byte(0), 0xf0);
    assert_eq!(byte(8), 0x0f);
    assert_eq!(byte(16), 0xaa);
}

#[test]
fn byte_splits_most_significant_bit_first() {
    let (i, o) = (BitValue::One, BitValue::Zero);
    assert_eq!(byte_bits(0b1010_0101), [i, o, i, o, o, i, o, i]);
    assert_eq!(byte_bits(0x01), [o, o, o, o, o, o, o, i]);
    assert_eq!(byte_bits(0x80), [i, o, o, o, o, o, o, o]);
    assert_eq!(bits_byte(&[i, o, o, o, o, o, i, i]), 0x83);
}

#[test]
fn every_byte_survives_splitting_and_grouping() {
    for byte in 0..=255u8 {
        assert_eq!(bits_byte(&byte_bits(byte)), byte);
    }
}

#[test]
fn every_channel_value_survives_the_frame() {
    for value in 0..=255u8 {
        for color in [
            Color::new(value, 0, 0),
            Color::new(0, value, 0),
            Color::new(0, 0, value),
            Color::new(value, 255 - value, value ^ 0x5a),
        ] {
            assert_eq!(Frame::build(color).color(), color);
        }
    }
}

#[test]
fn units_of_another_shape_are_no_frame() {
    let good = Frame::build(Color::new(1, 2, 3)).units();
    assert_eq!(Frame::from_units(good), Some(Frame::build(Color::new(1, 2, 3))));

    let mut early_reset = good;
    early_reset[3] = Unit::Reset;
    assert_eq!(Frame::from_units(early_reset), None);

    let mut no_reset = good;
    no_reset[24] = Unit::Bit(BitValue::Zero);
    assert_eq!(Frame::from_units(no_reset), None);
}
