//! Frames for a serial output: the waveform of each protocol bit is emulated
//! by four bits shifted out at a fixed clock, so one output byte carries two
//! protocol bits, and a run of zero bytes makes the reset.

use crate::bit::{bit_at, BitValue};
use crate::color::Color;
use crate::frame::{color_of, frame_units, lemma_decode_encode, lemma_frame_shape, well_formed, Frame, Unit};
use crate::timing::{lasts_at_least_us, RESET_MIN_US};
use vstd::prelude::*;

verus! {

/// Clock of the serial output, in kHz: one output bit takes 300 ns.
pub const CLOCK_KHZ: u32 = 3_333;

/// Output bytes that carry the 24 data bits of a frame.
pub const DATA_BYTES: usize = 12;

/// Zero bytes that follow the data and hold the line low for the reset.
pub const RESET_BYTES: usize = 21;

/// Bytes of a whole frame: the data and the reset.
pub const FRAME_BYTES: usize = 33;

/// Size of the transfer buffer that is handed to the DMA engine.
pub const DMA_BYTES: usize = 48;

/// The four output bits for one protocol bit: a one is high for three of
/// them and low for one, a zero is high for one and low for three.
pub open spec fn nibble_of(bit: BitValue) -> u8 {
    match bit {
        BitValue::One => 0b1110,
        BitValue::Zero => 0b1000,
    }
}

/// The output byte that carries two protocol bits, the first in its high half.
pub open spec fn pattern_of(first: BitValue, second: BitValue) -> u8 {
    (16 * nibble_of(first) + nibble_of(second)) as u8
}

/// The output byte for each value of a two-bit window.
pub open spec fn table(pair: int) -> u8 {
    if pair == 0 {
        0b1000_1000
    } else if pair == 1 {
        0b1000_1110
    } else if pair == 2 {
        0b1110_1000
    } else {
        0b1110_1110
    }
}

/// The two-bit window that is on top of `byte` after `step` extractions,
/// each of which shifts the byte left by two: the most significant pair
/// comes first, and nothing but zeros are left after the fourth.
pub open spec fn window(byte: u8, step: int) -> int {
    if step == 0 {
        byte as int / 64
    } else if step == 1 {
        (byte as int / 16) % 4
    } else if step == 2 {
        (byte as int / 4) % 4
    } else if step == 3 {
        byte as int % 4
    } else {
        0
    }
}

/// The four output bytes for one channel byte.
pub open spec fn encoded_byte(byte: u8) -> Seq<u8> {
    Seq::new(4, |i: int| table(window(byte, i)))
}

/// The output bytes of a frame are `bytes`: twelve bytes that carry the
/// data bits two by two, then nothing but zero bytes, at least as many as
/// the reset takes.
pub open spec fn carries(bytes: Seq<u8>, units: Seq<Unit>) -> bool {
    &&& bytes.len() >= 33
    &&& forall|j: int|
        0 <= j < 12 ==> #[trigger] bytes[j] == pattern_of(units[2 * j]->Bit_0, units[2 * j + 1]->Bit_0)
    &&& forall|j: int| 12 <= j < bytes.len() ==> #[trigger] bytes[j] == 0
}

/// The output bytes of a frame with the shortest reset.
pub open spec fn serial_image(units: Seq<Unit>) -> Seq<u8> {
    Seq::new(
        33,
        |j: int|
            if j < 12 {
                pattern_of(units[2 * j]->Bit_0, units[2 * j + 1]->Bit_0)
            } else {
                0u8
            },
    )
}

/// The byte of the table for a two-bit window carries the two bits of the window.
pub proof fn lemma_table_carries_bits(byte: u8, step: int)
    requires
        0 <= step < 4,
    ensures
        0 <= window(byte, step) < 4,
        table(window(byte, step)) == pattern_of(bit_at(byte, 2 * step), bit_at(byte, 2 * step + 1)),
{
    lemma_window_bits(byte);
}

/// The run of zero bytes at the end of a frame holds the line low for the
/// reset period, and one byte less would not.
pub proof fn lemma_reset_timing()
    ensures
        lasts_at_least_us(8 * RESET_BYTES, CLOCK_KHZ as int, RESET_MIN_US as int),
        !lasts_at_least_us(8 * (RESET_BYTES - 1), CLOCK_KHZ as int, RESET_MIN_US as int),
{
}

/// Whatever carries a frame ends in a run of zero bytes that holds the
/// line low for at least the reset period.
pub proof fn lemma_carried_reset(bytes: Seq<u8>, units: Seq<Unit>)
    requires
        carries(bytes, units),
    ensures
        bytes.len() - DATA_BYTES >= RESET_BYTES,
        forall|j: int| DATA_BYTES <= j < bytes.len() ==> bytes[j] == 0,
        lasts_at_least_us(8 * (bytes.len() - DATA_BYTES), CLOCK_KHZ as int, RESET_MIN_US as int),
{
}

/// The frame with the shortest reset is a frame's output, and it ends in
/// the whole run of zero bytes.
pub proof fn lemma_image_carries(units: Seq<Unit>)
    ensures
        carries(serial_image(units), units),
        serial_image(units).len() == DATA_BYTES + RESET_BYTES,
        forall|j: int| DATA_BYTES <= j < DATA_BYTES + RESET_BYTES ==> serial_image(units)[j] == 0,
{
}

/// The output bytes of a colour's frame are the encoded green, red and
/// blue byte, then the reset.
pub proof fn lemma_image_of_color(color: Color)
    ensures
        serial_image(frame_units(color)).subrange(0, 4) == encoded_byte(color.g),
        serial_image(frame_units(color)).subrange(4, 8) == encoded_byte(color.r),
        serial_image(frame_units(color)).subrange(8, 12) == encoded_byte(color.b),
{
    let image = serial_image(frame_units(color));
    assert forall|channel: int, i: int| 0 <= channel < 3 && 0 <= i < 4 implies #[trigger] image[4
        * channel + i] == encoded_byte(color.wire_bytes()[channel])[i] by {
        let j = 4 * channel + i;
        lemma_table_carries_bits(color.wire_bytes()[channel], i);
        assert((2 * j) / 8 == channel && (2 * j) % 8 == 2 * i);
        assert((2 * j + 1) / 8 == channel && (2 * j + 1) % 8 == 2 * i + 1);
    }
    assert forall|i: int| 0 <= i < 4 implies image.subrange(0, 4)[i] == encoded_byte(color.g)[i] by {
        assert(image[4 * 0 + i] == encoded_byte(color.wire_bytes()[0])[i]);
    }
    assert forall|i: int| 0 <= i < 4 implies image.subrange(4, 8)[i] == encoded_byte(color.r)[i] by {
        assert(image[4 * 1 + i] == encoded_byte(color.wire_bytes()[1])[i]);
    }
    assert forall|i: int| 0 <= i < 4 implies image.subrange(8, 12)[i] == encoded_byte(color.b)[i] by {
        assert(image[4 * 2 + i] == encoded_byte(color.wire_bytes()[2])[i]);
    }
    assert(image.subrange(0, 4) =~= encoded_byte(color.g));
    assert(image.subrange(4, 8) =~= encoded_byte(color.r));
    assert(image.subrange(8, 12) =~= encoded_byte(color.b));
}

/// What is left of `byte` after `step` extractions.
spec fn shifted(byte: u8, step: int) -> u8 {
    if step == 0 {
        byte
    } else if step == 1 {
        byte << 2
    } else if step == 2 {
        byte << 4
    } else if step == 3 {
        byte << 6
    } else {
        0
    }
}

/// Fills `buf` with the output bytes for `byte`: each step takes the two
/// bits on top of the byte, stores the table's byte for them and shifts the
/// byte left by two.
pub fn write_byte(buf: &mut [u8], byte: u8)
    ensures
        final(buf)@.len() == old(buf)@.len(),
        forall|i: int| 0 <= i < final(buf)@.len() ==> final(buf)[i] == table(window(byte, i)),
{
    let patterns: [u8; 4] = [0b1000_1000, 0b1000_1110, 0b1110_1000, 0b1110_1110];
    let n: usize = buf.len();
    let mut b: u8 = byte;
    let mut k: usize = 0;
    while k < n
        invariant
            k <= n,
            n == buf@.len(),
            buf@.len() == old(buf)@.len(),
            b == shifted(byte, k as int),
            patterns[0] == table(0),
            patterns[1] == table(1),
            patterns[2] == table(2),
            patterns[3] == table(3),
            forall|i: int| 0 <= i < k ==> buf[i] == table(window(byte, i)),
        decreases n - k,
    {
        proof {
            lemma_extraction(byte);
        }
        let bits: u8 = (b & 0b1100_0000) >> 6;
        buf[k] = patterns[bits as usize];
        b <<= 2;
        k += 1;
    }
}

/// The four output bytes for one channel byte.
pub fn encode_byte(byte: u8) -> (out: [u8; 4])
    ensures
        out@ == encoded_byte(byte),
        forall|i: int| 0 <= i < 4 ==> out[i] == pattern_of(bit_at(byte, 2 * i), bit_at(byte, 2 * i + 1)),
{
    let mut out: [u8; 4] = [0; 4];
    write_byte(&mut out, byte);
    assert(out@ =~= encoded_byte(byte));
    proof {
        lemma_table_carries_bits(byte, 0);
        lemma_table_carries_bits(byte, 1);
        lemma_table_carries_bits(byte, 2);
        lemma_table_carries_bits(byte, 3);
    }
    out
}

/// Writes the data bytes of a colour update at the start of the transfer
/// buffer, green byte first, and leaves the rest of the buffer as it is. A
/// buffer that was zero from byte 12 on then holds a whole frame.
pub fn write_color(buf: &mut [u8; 48], r: u8, g: u8, b: u8)
    ensures
        final(buf)@.subrange(0, 4) == encoded_byte(g),
        final(buf)@.subrange(4, 8) == encoded_byte(r),
        final(buf)@.subrange(8, 12) == encoded_byte(b),
        final(buf)@.subrange(12, 48) == old(buf)@.subrange(12, 48),
        (forall|j: int| 12 <= j < 48 ==> old(buf)[j] == 0) ==> carries(
            final(buf)@,
            frame_units(Color { r, g, b }),
        ),
{
    let wire: [u8; 3] = [g, r, b];
    let mut channel: usize = 0;
    while channel < 3
        invariant
            channel <= 3,
            wire[0] == g && wire[1] == r && wire[2] == b,
            forall|j: int| 0 <= j < 4 * channel ==> buf[j] == encoded_byte(wire[j / 4])[j % 4],
            forall|j: int| 12 <= j < 48 ==> buf[j] == old(buf)[j],
        decreases 3 - channel,
    {
        let encoded: [u8; 4] = encode_byte(wire[channel]);
        let mut i: usize = 0;
        while i < 4
            invariant
                i <= 4,
                channel < 3,
                encoded@ == encoded_byte(wire[channel as int]),
                forall|j: int| 0 <= j < 4 * channel + i ==> buf[j] == encoded_byte(wire[j / 4])[j % 4],
                forall|j: int| 12 <= j < 48 ==> buf[j] == old(buf)[j],
            decreases 4 - i,
        {
            let at: usize = 4 * channel + i;
            assert(at / 4 == channel && at % 4 == i);
            buf[at] = encoded[i];
            i += 1;
        }
        channel += 1;
    }
    proof {
        let color = Color { r, g, b };
        lemma_image_of_color(color);
        let image = serial_image(frame_units(color));
        assert forall|j: int| 0 <= j < 12 implies buf[j] == image[j] by {
            if j < 4 {
                assert(image.subrange(0, 4)[j] == image[j]);
            } else if j < 8 {
                assert(image.subrange(4, 8)[j - 4] == image[j]);
            } else {
                assert(image.subrange(8, 12)[j - 8] == image[j]);
            }
        }
        assert(buf@.subrange(0, 4) =~= encoded_byte(g));
        assert(buf@.subrange(4, 8) =~= encoded_byte(r));
        assert(buf@.subrange(8, 12) =~= encoded_byte(b));
        assert(buf@.subrange(12, 48) =~= old(buf)@.subrange(12, 48));
    }
}

/// The output byte that carries two protocol bits.
pub fn pattern(first: BitValue, second: BitValue) -> (out: u8)
    ensures
        out == pattern_of(first, second),
{
    match (first, second) {
        (BitValue::Zero, BitValue::Zero) => 0b1000_1000,
        (BitValue::Zero, BitValue::One) => 0b1000_1110,
        (BitValue::One, BitValue::Zero) => 0b1110_1000,
        (BitValue::One, BitValue::One) => 0b1110_1110,
    }
}

/// The two protocol bits that an output byte carries; `None` for a byte
/// that is not in the table.
pub fn decode_pattern(byte: u8) -> (bits: Option<(BitValue, BitValue)>)
    ensures
        match bits {
            Some((first, second)) => byte == pattern_of(first, second),
            None => forall|first: BitValue, second: BitValue| byte != pattern_of(first, second),
        },
{
    if byte == 0b1000_1000 {
        Some((BitValue::Zero, BitValue::Zero))
    } else if byte == 0b1000_1110 {
        Some((BitValue::Zero, BitValue::One))
    } else if byte == 0b1110_1000 {
        Some((BitValue::One, BitValue::Zero))
    } else if byte == 0b1110_1110 {
        Some((BitValue::One, BitValue::One))
    } else {
        None
    }
}

/// The bytes to shift out for a frame: its data, then the reset.
pub fn frame_bytes(frame: &Frame) -> (bytes: [u8; 33])
    ensures
        bytes@ == serial_image(frame@),
        carries(bytes@, frame@),
{
    let units: [Unit; 25] = frame.units();
    let mut bytes: [u8; 33] = [0; 33];
    let mut j: usize = 0;
    while j < 12
        invariant
            j <= 12,
            well_formed(units@),
            forall|i: int| 0 <= i < j ==> bytes[i] == pattern_of(units[2 * i]->Bit_0, units[2 * i + 1]->Bit_0),
            forall|i: int| 12 <= i < 33 ==> bytes[i] == 0,
        decreases 12 - j,
    {
        let first: Unit = units[2 * j];
        let second: Unit = units[2 * j + 1];
        assert(units[2 * j as int] is Bit && units[2 * j + 1] is Bit);
        bytes[j] = match (first, second) {
            (Unit::Bit(first), Unit::Bit(second)) => pattern(first, second),
            _ => 0,
        };
        j += 1;
    }
    assert(bytes@ =~= serial_image(units@));
    bytes
}

/// The bytes that update an LED to `color`: the encoded green, red and
/// blue byte, then the reset.
pub fn encode_color(color: Color) -> (bytes: [u8; 33])
    ensures
        bytes@ == serial_image(frame_units(color)),
        carries(bytes@, frame_units(color)),
{
    let frame = Frame::build(color);
    frame_bytes(&frame)
}

/// Reads back the frame that output bytes carry. The result is `None`
/// exactly when the bytes are no frame's output: when they are fewer than a
/// frame, when one of the first twelve is not in the table, or when a later
/// one is not zero.
pub fn decode_bytes(bytes: &[u8]) -> (frame: Option<Frame>)
    ensures
        match frame {
            Some(f) => carries(bytes@, f@),
            None => forall|units: Seq<Unit>| well_formed(units) ==> !carries(bytes@, units),
        },
{
    let n: usize = bytes.len();
    if n < 33 {
        return None;
    }
    let mut units: [Unit; 25] = [Unit::Reset; 25];
    let mut j: usize = 0;
    while j < 12
        invariant
            j <= 12,
            n == bytes@.len(),
            n >= 33,
            units[24] == Unit::Reset,
            forall|i: int| 0 <= i < 2 * j ==> #[trigger] units[i] is Bit,
            forall|i: int|
                0 <= i < j ==> #[trigger] bytes[i] == pattern_of(units[2 * i]->Bit_0, units[2 * i + 1]->Bit_0),
        decreases 12 - j,
    {
        match decode_pattern(bytes[j]) {
            Some((first, second)) => {
                units[2 * j] = Unit::Bit(first);
                units[2 * j + 1] = Unit::Bit(second);
            },
            None => {
                assert forall|other: Seq<Unit>| well_formed(other) implies !carries(bytes@, other) by {
                    if carries(bytes@, other) {
                        assert(bytes[j as int] == pattern_of(
                            other[2 * j]->Bit_0,
                            other[2 * j + 1]->Bit_0,
                        ));
                    }
                }
                return None;
            },
        }
        j += 1;
    }
    let mut k: usize = 12;
    while k < n
        invariant
            12 <= k <= n,
            n == bytes@.len(),
            forall|i: int| 12 <= i < k ==> bytes[i] == 0,
        decreases n - k,
    {
        if bytes[k] != 0 {
            assert forall|other: Seq<Unit>| well_formed(other) implies !carries(bytes@, other) by {
                if carries(bytes@, other) {
                    assert(bytes[k as int] == 0);
                }
            }
            return None;
        }
        k += 1;
    }
    assert(well_formed(units@));
    assert(carries(bytes@, units@));
    Frame::from_units(units)
}

/// Output bytes carry at most one frame.
pub proof fn lemma_carries_one_frame(bytes: Seq<u8>, a: Seq<Unit>, b: Seq<Unit>)
    requires
        well_formed(a),
        well_formed(b),
        carries(bytes, a),
        carries(bytes, b),
    ensures
        a == b,
{
    assert forall|i: int| 0 <= i < 25 implies a[i] == b[i] by {
        if i < 24 {
            let j = i / 2;
            assert(bytes[j] == pattern_of(a[2 * j]->Bit_0, a[2 * j + 1]->Bit_0));
            assert(bytes[j] == pattern_of(b[2 * j]->Bit_0, b[2 * j + 1]->Bit_0));
            assert(a[2 * j] is Bit && a[2 * j + 1] is Bit);
            assert(b[2 * j] is Bit && b[2 * j + 1] is Bit);
            assert(i == 2 * j || i == 2 * j + 1);
        }
    }
    assert(a =~= b);
}

/// The output bytes of a colour's frame decode to that colour and to no other.
pub proof fn lemma_round_trip(color: Color, bytes: Seq<u8>, units: Seq<Unit>)
    requires
        carries(bytes, frame_units(color)),
        well_formed(units),
        carries(bytes, units),
    ensures
        units == frame_units(color),
        color_of(units) == color,
{
    lemma_frame_shape(color);
    lemma_carries_one_frame(bytes, units, frame_units(color));
    lemma_decode_encode(color);
}

proof fn lemma_extraction(byte: u8)
    by (bit_vector)
    ensures
        (byte & 0b1100_0000) >> 6 == byte / 64,
        ((byte << 2) & 0b1100_0000) >> 6 == (byte / 16) % 4,
        ((byte << 4) & 0b1100_0000) >> 6 == (byte / 4) % 4,
        ((byte << 6) & 0b1100_0000) >> 6 == byte % 4,
        (0u8 & 0b1100_0000) >> 6 == 0,
        (byte << 2) << 2 == byte << 4,
        (byte << 4) << 2 == byte << 6,
        (byte << 6) << 2 == 0,
        0u8 << 2 == 0,
{
}

proof fn lemma_window_bits(byte: u8)
    by (bit_vector)
    ensures
        byte / 64 == 2 * ((byte >> 7u8) & 1) + ((byte >> 6u8) & 1),
        (byte / 16) % 4 == 2 * ((byte >> 5u8) & 1) + ((byte >> 4u8) & 1),
        (byte / 4) % 4 == 2 * ((byte >> 3u8) & 1) + ((byte >> 2u8) & 1),
        byte % 4 == 2 * ((byte >> 1u8) & 1) + ((byte >> 0u8) & 1),
        (byte >> 7u8) & 1 <= 1,
        (byte >> 6u8) & 1 <= 1,
        (byte >> 5u8) & 1 <= 1,
        (byte >> 4u8) & 1 <= 1,
        (byte >> 3u8) & 1 <= 1,
        (byte >> 2u8) & 1 <= 1,
        (byte >> 1u8) & 1 <= 1,
        (byte >> 0u8) & 1 <= 1,
{
}

} // verus!
