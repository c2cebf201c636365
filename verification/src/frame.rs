//! The logical frame of one colour update: 24 data bits and the reset marker.

use crate::bit::{
    bit_at, bits_byte, bits_of, byte_bits, byte_of, lemma_bit_weight, lemma_bits_of_byte,
    lemma_byte_of_bits, weight, BitValue,
};
use crate::color::Color;
use vstd::prelude::*;

verus! {

/// One logical unit of a frame.
#[derive(Clone, Copy, Debug, PartialEq, Eq, Structural)]
pub enum Unit {
    /// One data bit.
    Bit(BitValue),
    /// The sustained low level that ends a frame and latches the colour.
    Reset,
}

/// Number of data bits in a frame: eight for each of the three channels.
pub const DATA_UNITS: usize = 24;

/// Number of units in a frame: the data bits and the reset marker.
pub const FRAME_UNITS: usize = 25;

/// The units that update an LED to `color`: the bits of the green, red and
/// blue byte, each most significant bit first, then the reset marker.
pub open spec fn frame_units(color: Color) -> Seq<Unit> {
    Seq::new(
        25,
        |i: int|
            if i < 24 {
                Unit::Bit(bit_at(color.wire_bytes()[i / 8], i % 8))
            } else {
                Unit::Reset
            },
    )
}

/// A sequence of units has the shape of a frame: 24 data bits, then the reset.
pub open spec fn well_formed(units: Seq<Unit>) -> bool {
    &&& units.len() == 25
    &&& forall|i: int| 0 <= i < 24 ==> #[trigger] units[i] is Bit
    &&& units[24] == Unit::Reset
}

/// The eight data bits of channel `channel` (0, 1 or 2 in wire order).
pub open spec fn channel_bits(units: Seq<Unit>, channel: int) -> Seq<BitValue> {
    Seq::new(8, |k: int| units[8 * channel + k]->Bit_0)
}

/// The colour that a frame's data bits stand for, grouping them into the
/// green, red and blue byte.
pub open spec fn color_of(units: Seq<Unit>) -> Color {
    Color {
        g: byte_of(channel_bits(units, 0)) as u8,
        r: byte_of(channel_bits(units, 1)) as u8,
        b: byte_of(channel_bits(units, 2)) as u8,
    }
}

/// Every colour gives a frame of 24 data bits followed by the reset marker.
pub proof fn lemma_frame_shape(color: Color)
    ensures
        well_formed(frame_units(color)),
        frame_units(color).len() == 25,
{
}

/// Within each channel the most significant bit goes first: unit `k` of
/// channel `channel` is a one exactly when the channel's byte holds an odd
/// number of the weight of position `k`.
pub proof fn lemma_msb_first(color: Color, channel: int, k: int)
    requires
        0 <= channel < 3,
        0 <= k < 8,
    ensures
        frame_units(color)[8 * channel + k] == Unit::Bit(bit_at(color.wire_bytes()[channel], k)),
        frame_units(color)[8 * channel + k] == Unit::Bit(BitValue::One) <==> (
        color.wire_bytes()[channel] as int / weight(k)) % 2 == 1,
{
    lemma_bit_weight(color.wire_bytes()[channel], k);
    let i = 8 * channel + k;
    assert(i / 8 == channel && i % 8 == k);
}

/// The channel `channel` of a colour's frame holds the bits of that channel's byte.
pub proof fn lemma_channel_bits(color: Color, channel: int)
    requires
        0 <= channel < 3,
    ensures
        channel_bits(frame_units(color), channel) == bits_of(color.wire_bytes()[channel]),
{
    let units = frame_units(color);
    assert forall|k: int| 0 <= k < 8 implies channel_bits(units, channel)[k] == bits_of(
        color.wire_bytes()[channel],
    )[k] by {
        let i = 8 * channel + k;
        assert(i / 8 == channel && i % 8 == k);
        assert(units[i] == Unit::Bit(bit_at(color.wire_bytes()[channel], k)));
    }
    assert(channel_bits(units, channel) =~= bits_of(color.wire_bytes()[channel]));
}

/// Decoding the frame of a colour gives the colour back.
pub proof fn lemma_decode_encode(color: Color)
    ensures
        color_of(frame_units(color)) == color,
{
    lemma_channel_bits(color, 0);
    lemma_channel_bits(color, 1);
    lemma_channel_bits(color, 2);
    lemma_byte_of_bits(color.g);
    lemma_byte_of_bits(color.r);
    lemma_byte_of_bits(color.b);
}

/// Every well-formed frame is the frame of the colour it decodes to.
pub proof fn lemma_encode_decode(units: Seq<Unit>)
    requires
        well_formed(units),
    ensures
        frame_units(color_of(units)) == units,
{
    let color = color_of(units);
    lemma_bits_of_byte(channel_bits(units, 0));
    lemma_bits_of_byte(channel_bits(units, 1));
    lemma_bits_of_byte(channel_bits(units, 2));
    assert forall|i: int| 0 <= i < 25 implies frame_units(color)[i] == units[i] by {
        if i < 24 {
            let channel = i / 8;
            let k = i % 8;
            assert(i == 8 * channel + k);
            assert(units[i] is Bit);
            assert(channel_bits(units, channel)[k] == units[i]->Bit_0);
            assert(bits_of(color.wire_bytes()[channel])[k] == bit_at(color.wire_bytes()[channel], k));
        }
    }
    assert(frame_units(color) =~= units);
}

/// Two colours with the same frame are the same colour.
pub proof fn lemma_frames_distinct(a: Color, b: Color)
    requires
        frame_units(a) == frame_units(b),
    ensures
        a == b,
{
    lemma_decode_encode(a);
    lemma_decode_encode(b);
}

/// One complete colour update, ready to be handed to a transport.
#[derive(Clone, Copy, Debug, PartialEq, Eq)]
pub struct Frame {
    units: [Unit; 25],
}

impl View for Frame {
    type V = Seq<Unit>;

    closed spec fn view(&self) -> Seq<Unit> {
        self.units@
    }
}

impl Frame {
    #[verifier::type_invariant]
    spec fn shape(self) -> bool {
        well_formed(self.units@)
    }

    /// Builds the frame that updates an LED to `color`.
    pub fn build(color: Color) -> (frame: Frame)
        ensures
            frame@ == frame_units(color),
    {
        let wire: [u8; 3] = color.to_wire();
        let mut units: [Unit; 25] = [Unit::Reset; 25];
        let mut channel: usize = 0;
        while channel < 3
            invariant
                channel <= 3,
                wire@ == color.wire_bytes(),
                units[24] == Unit::Reset,
                forall|i: int| 0 <= i < 8 * channel ==> units[i] == frame_units(color)[i],
            decreases 3 - channel,
        {
            let bits: [BitValue; 8] = byte_bits(wire[channel]);
            let mut k: usize = 0;
            while k < 8
                invariant
                    k <= 8,
                    channel < 3,
                    wire@ == color.wire_bytes(),
                    bits@ == bits_of(wire[channel as int]),
                    units[24] == Unit::Reset,
                    forall|i: int| 0 <= i < 8 * channel + k ==> units[i] == frame_units(color)[i],
                decreases 8 - k,
            {
                let at: usize = 8 * channel + k;
                assert(at / 8 == channel && at % 8 == k);
                assert(bits@[k as int] == bit_at(wire[channel as int], k as int));
                units[at] = Unit::Bit(bits[k]);
                k += 1;
            }
            channel += 1;
        }
        assert(units@ =~= frame_units(color));
        Frame { units }
    }

    /// The frame with the given units, if they have the shape of a frame:
    /// 24 data bits followed by the reset marker.
    pub fn from_units(units: [Unit; 25]) -> (frame: Option<Frame>)
        ensures
            frame is Some <==> well_formed(units@),
            frame matches Some(f) ==> f@ == units@,
    {
        let mut i: usize = 0;
        while i < 24
            invariant
                i <= 24,
                forall|j: int| 0 <= j < i ==> #[trigger] units[j] is Bit,
            decreases 24 - i,
        {
            if matches!(units[i], Unit::Reset) {
                return None;
            }
            i += 1;
        }
        if !matches!(units[24], Unit::Reset) {
            return None;
        }
        Some(Frame { units })
    }

    /// The units of the frame, in the order they are sent.
    pub fn units(&self) -> (units: [Unit; 25])
        ensures
            units@ == self@,
            well_formed(self@),
    {
        proof {
            use_type_invariant(self);
        }
        self.units
    }

    /// Number of units in the frame.
    pub fn len(&self) -> (n: usize)
        ensures
            n == self@.len(),
            n == 25,
    {
        proof {
            use_type_invariant(self);
        }
        25
    }

    /// The colour that the frame updates an LED to.
    pub fn color(&self) -> (color: Color)
        ensures
            color == color_of(self@),
            frame_units(color) == self@,
    {
        proof {
            use_type_invariant(self);
            lemma_encode_decode(self@);
        }
        let mut wire: [u8; 3] = [0; 3];
        let mut channel: usize = 0;
        while channel < 3
            invariant
                channel <= 3,
                well_formed(self.units@),
                forall|c: int| 0 <= c < channel ==> wire[c] == byte_of(channel_bits(self.units@, c)),
            decreases 3 - channel,
        {
            let mut bits: [BitValue; 8] = [BitValue::Zero; 8];
            let mut k: usize = 0;
            while k < 8
                invariant
                    k <= 8,
                    channel < 3,
                    well_formed(self.units@),
                    forall|j: int| 0 <= j < k ==> bits[j] == channel_bits(self.units@, channel as int)[j],
                decreases 8 - k,
            {
                let unit: Unit = self.units[8 * channel + k];
                assert(unit is Bit);
                bits[k] = match unit {
                    Unit::Bit(bit) => bit,
                    Unit::Reset => BitValue::Zero,
                };
                k += 1;
            }
            assert(bits@ =~= channel_bits(self.units@, channel as int));
            wire[channel] = bits_byte(&bits);
            channel += 1;
        }
        Color::from_wire(wire)
    }
}

} // verus!
