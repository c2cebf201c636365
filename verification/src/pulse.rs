//! Frames for the pulse generator: each unit is one two-phase pulse code,
//! with its lengths counted in cycles of the generator's clock.

use crate::bit::{bit_at, byte_bits, BitValue};
use crate::color::Color;
use crate::frame::{color_of, frame_units, lemma_decode_encode, well_formed, Frame, Unit};
use crate::timing::{lasts_at_least_us, lasts_exactly_ns, LONG_NS, RESET_MIN_US, SHORT_NS};
use vstd::prelude::*;

verus! {

/// Clock of the pulse generator, in kHz.
pub const CLOCK_KHZ: u32 = 80_000;

/// Cycles of the short phase of a data bit.
pub const SHORT: u16 = 32;

/// Cycles of the long phase of a data bit.
pub const LONG: u16 = 68;

/// Cycles of low level that make the reset.
pub const RESET: u16 = 4000;

/// Largest length that fits the 15-bit field of a pulse code.
pub const MAX_LENGTH: u16 = 0x7fff;

/// A waveform of two phases, each with a level and a length in clock cycles.
#[derive(Clone, Copy, Debug, PartialEq, Eq, Structural)]
pub struct PulseCode {
    /// Output level during the first phase.
    pub level1: bool,
    /// Length of the first phase, in clock cycles.
    pub length1: u16,
    /// Output level during the second phase.
    pub level2: bool,
    /// Length of the second phase, in clock cycles.
    pub length2: u16,
}

/// The pulse code that stands for a unit: a one is high for the long and low
/// for the short duration, a zero the other way round, a reset is low throughout.
pub open spec fn pulse_of(unit: Unit) -> PulseCode {
    match unit {
        Unit::Bit(BitValue::One) => PulseCode { level1: true, length1: LONG, level2: false, length2: SHORT },
        Unit::Bit(BitValue::Zero) => PulseCode { level1: true, length1: SHORT, level2: false, length2: LONG },
        Unit::Reset => PulseCode { level1: false, length1: 0, level2: false, length2: RESET },
    }
}

/// The unit that a pulse code stands for, if it stands for one.
pub open spec fn unit_of(code: PulseCode) -> Option<Unit> {
    if code == pulse_of(Unit::Bit(BitValue::One)) {
        Some(Unit::Bit(BitValue::One))
    } else if code == pulse_of(Unit::Bit(BitValue::Zero)) {
        Some(Unit::Bit(BitValue::Zero))
    } else if code == pulse_of(Unit::Reset) {
        Some(Unit::Reset)
    } else {
        None
    }
}

/// The 32-bit entry of the generator's memory that holds a pulse code: the
/// first length in bits 0 to 14 and its level in bit 15, the second length
/// from bit 16 on and its level in bit 31. A second length that does not fit
/// its 15 bits spills into bit 31.
pub open spec fn word_of(code: PulseCode) -> u32 {
    ((code.length1 % 0x8000) + (if code.level1 {
        0x8000int
    } else {
        0
    }) + 0x1_0000 * (code.length2 % 0x8000) + (if code.level2 || code.length2 >= 0x8000 {
        0x8000_0000int
    } else {
        0
    })) as u32
}

/// The pulse code that an entry of the generator's memory holds.
pub open spec fn code_of(word: u32) -> PulseCode {
    PulseCode {
        level1: (word / 0x8000) % 2 == 1,
        length1: (word % 0x8000) as u16,
        level2: word >= 0x8000_0000,
        length2: ((word / 0x1_0000) % 0x8000) as u16,
    }
}

/// The entries that the generator is given for a sequence of units.
pub open spec fn pulse_image(units: Seq<Unit>) -> Seq<u32> {
    Seq::new(units.len(), |i: int| word_of(pulse_of(units[i])))
}

/// A pulse code stands for the unit it was made for, and for no other.
pub proof fn lemma_unit_of_pulse(unit: Unit)
    ensures
        unit_of(pulse_of(unit)) == Some(unit),
{
}

/// A pulse code whose lengths fit their fields is read back unchanged from its entry.
pub proof fn lemma_code_of_word(code: PulseCode)
    requires
        code.length1 <= MAX_LENGTH,
        code.length2 <= MAX_LENGTH,
    ensures
        code_of(word_of(code)) == code,
{
    let level1: u32 = if code.level1 {
        1
    } else {
        0
    };
    let level2: u32 = if code.level2 {
        1
    } else {
        0
    };
    let sum = code.length1 + 0x8000 * level1 + 0x1_0000 * code.length2 + 0x8000_0000 * level2;
    assert(code.length1 as int % 0x8000 == code.length1);
    assert(code.length2 as int % 0x8000 == code.length2);
    assert(word_of(code) == sum);
    lemma_fields(sum as u32, code.length1 as u32, level1, code.length2 as u32, level2);
}

/// Every entry is the entry of the pulse code that it holds.
pub proof fn lemma_word_of_code(word: u32)
    ensures
        word_of(code_of(word)) == word,
        code_of(word).length1 <= MAX_LENGTH,
        code_of(word).length2 <= MAX_LENGTH,
{
    lemma_sum_of_fields(word);
    let code = code_of(word);
    assert(code.length1 as int % 0x8000 == code.length1);
    assert(code.length2 as int % 0x8000 == code.length2);
}

/// A data bit is high first and low after, for the durations of the
/// datasheet: long then short for a one, short then long for a zero.
pub proof fn lemma_bit_timing(bit: BitValue)
    ensures
        pulse_of(Unit::Bit(bit)).level1,
        !pulse_of(Unit::Bit(bit)).level2,
        bit == BitValue::One ==> lasts_exactly_ns(
            pulse_of(Unit::Bit(bit)).length1 as int,
            CLOCK_KHZ as int,
            LONG_NS as int,
        ) && lasts_exactly_ns(pulse_of(Unit::Bit(bit)).length2 as int, CLOCK_KHZ as int, SHORT_NS as int),
        bit == BitValue::Zero ==> lasts_exactly_ns(
            pulse_of(Unit::Bit(bit)).length1 as int,
            CLOCK_KHZ as int,
            SHORT_NS as int,
        ) && lasts_exactly_ns(pulse_of(Unit::Bit(bit)).length2 as int, CLOCK_KHZ as int, LONG_NS as int),
{
}

/// The reset is low in both phases, for at least the reset period.
pub proof fn lemma_reset_timing()
    ensures
        !pulse_of(Unit::Reset).level1,
        !pulse_of(Unit::Reset).level2,
        lasts_at_least_us(
            pulse_of(Unit::Reset).length1 + pulse_of(Unit::Reset).length2,
            CLOCK_KHZ as int,
            RESET_MIN_US as int,
        ),
{
}

impl PulseCode {
    /// Packs the pulse code into an entry of the generator's memory.
    pub fn to_word(self) -> (word: u32)
        ensures
            word == word_of(self),
    {
        let mut entry: u32 = self.length1 as u32;
        if self.level1 {
            entry |= 1 << 15;
        } else {
            entry &= !(1 << 15);
        }
        if self.level2 {
            entry |= 1 << 31;
        } else {
            entry &= !(1 << 31);
        }
        entry |= (self.length2 as u32) << 16;
        proof {
            lemma_packing(self.length1, self.length2);
        }
        entry
    }

    /// Reads the pulse code that an entry of the generator's memory holds.
    pub fn from_word(word: u32) -> (code: PulseCode)
        ensures
            code == code_of(word),
    {
        proof {
            lemma_unpacking(word);
        }
        PulseCode {
            level1: word & (1 << 15) != 0,
            length1: (word & 0b111_1111_1111_1111) as u16,
            level2: word & (1 << 31) != 0,
            length2: ((word >> 16) & 0b111_1111_1111_1111) as u16,
        }
    }
}

/// The pulse code for one unit of a frame.
pub fn encode_unit(unit: Unit) -> (code: PulseCode)
    ensures
        code == pulse_of(unit),
{
    match unit {
        Unit::Bit(BitValue::One) => PulseCode { level1: true, length1: LONG, level2: false, length2: SHORT },
        Unit::Bit(BitValue::Zero) => PulseCode { level1: true, length1: SHORT, level2: false, length2: LONG },
        Unit::Reset => PulseCode { level1: false, length1: 0, level2: false, length2: RESET },
    }
}

/// The unit that a pulse code stands for; `None` for any other waveform.
pub fn decode_unit(code: PulseCode) -> (unit: Option<Unit>)
    ensures
        unit == unit_of(code),
{
    if code.level2 {
        None
    } else if code.level1 && code.length1 == LONG && code.length2 == SHORT {
        Some(Unit::Bit(BitValue::One))
    } else if code.level1 && code.length1 == SHORT && code.length2 == LONG {
        Some(Unit::Bit(BitValue::Zero))
    } else if !code.level1 && code.length1 == 0 && code.length2 == RESET {
        Some(Unit::Reset)
    } else {
        None
    }
}

/// The bit on top of `byte` after `step` shifts to the left: bit `step` of
/// the byte, and zero once the whole byte is shifted out.
pub open spec fn shifted_bit(byte: u8, step: int) -> BitValue {
    if 0 <= step < 8 {
        bit_at(byte, step)
    } else {
        BitValue::Zero
    }
}

/// Fills `out` with the entries for the bits of `byte`, the most
/// significant bit first.
pub fn write_byte(out: &mut [u32], byte: u8)
    ensures
        final(out)@.len() == old(out)@.len(),
        forall|i: int|
            0 <= i < final(out)@.len() ==> final(out)[i] == word_of(
                pulse_of(Unit::Bit(shifted_bit(byte, i))),
            ),
{
    let bits: [BitValue; 8] = byte_bits(byte);
    let n: usize = out.len();
    let mut k: usize = 0;
    while k < n
        invariant
            k <= n,
            n == out@.len(),
            out@.len() == old(out)@.len(),
            forall|i: int| 0 <= i < 8 ==> bits[i] == bit_at(byte, i),
            forall|i: int| 0 <= i < k ==> out[i] == word_of(pulse_of(Unit::Bit(shifted_bit(byte, i)))),
        decreases n - k,
    {
        let bit: BitValue = if k < 8 {
            bits[k]
        } else {
            BitValue::Zero
        };
        out[k] = encode_unit(Unit::Bit(bit)).to_word();
        k += 1;
    }
}

/// The entries to hand to the pulse generator for a frame.
pub fn frame_words(frame: &Frame) -> (words: [u32; 25])
    ensures
        words@ == pulse_image(frame@),
{
    let units: [Unit; 25] = frame.units();
    let mut words: [u32; 25] = [0; 25];
    let mut i: usize = 0;
    while i < 25
        invariant
            i <= 25,
            forall|j: int| 0 <= j < i ==> words[j] == word_of(pulse_of(units[j])),
        decreases 25 - i,
    {
        words[i] = encode_unit(units[i]).to_word();
        i += 1;
    }
    assert(words@ =~= pulse_image(units@));
    words
}

/// The entries that update an LED to `color`: 24 data pulses, green byte
/// first and each byte most significant bit first, then the reset.
pub fn encode_color(color: Color) -> (words: [u32; 25])
    ensures
        words@ == pulse_image(frame_units(color)),
{
    let frame = Frame::build(color);
    frame_words(&frame)
}

/// Reads back the frame that a sequence of entries was made from. The
/// result is `None` exactly when no frame gives these entries.
pub fn decode_words(words: &[u32]) -> (frame: Option<Frame>)
    ensures
        match frame {
            Some(f) => pulse_image(f@) == words@,
            None => forall|units: Seq<Unit>| well_formed(units) ==> pulse_image(units) != words@,
        },
{
    if words.len() != 25 {
        return None;
    }
    let mut units: [Unit; 25] = [Unit::Reset; 25];
    let mut i: usize = 0;
    while i < 25
        invariant
            i <= 25,
            words@.len() == 25,
            forall|j: int| 0 <= j < i ==> words[j] == word_of(pulse_of(#[trigger] units[j])),
            forall|j: int| 0 <= j < i ==> ((#[trigger] units[j]) is Bit <==> j < 24),
            forall|j: int| i <= j < 25 ==> units[j] == Unit::Reset,
        decreases 25 - i,
    {
        let word: u32 = words[i];
        let code: PulseCode = PulseCode::from_word(word);
        let found: Option<Unit> = decode_unit(code);
        let unit: Unit = match found {
            Some(unit) => unit,
            None => {
                proof {
                    lemma_no_unit(words@, i as int);
                }
                return None;
            },
        };
        if matches!(unit, Unit::Reset) != (i == 24) {
            proof {
                lemma_word_of_code(word);
                lemma_misplaced_unit(words@, i as int, unit);
            }
            return None;
        }
        proof {
            lemma_word_of_code(word);
        }
        units[i] = unit;
        i += 1;
    }
    assert(units@[24] == Unit::Reset);
    assert(well_formed(units@));
    assert(pulse_image(units@) =~= words@);
    Frame::from_units(units)
}

/// The entries of a frame are read back as that frame's units.
pub proof fn lemma_unit_of_word(unit: Unit)
    ensures
        unit_of(code_of(word_of(pulse_of(unit)))) == Some(unit),
{
    lemma_code_of_word(pulse_of(unit));
}

/// Frames with the same entries are the same frame.
pub proof fn lemma_pulse_image_injective(a: Seq<Unit>, b: Seq<Unit>)
    requires
        pulse_image(a) == pulse_image(b),
    ensures
        a == b,
{
    assert(a.len() == pulse_image(a).len());
    assert(b.len() == pulse_image(b).len());
    assert forall|i: int| 0 <= i < a.len() implies a[i] == b[i] by {
        lemma_unit_of_word(a[i]);
        lemma_unit_of_word(b[i]);
        assert(pulse_image(a)[i] == word_of(pulse_of(a[i])));
        assert(pulse_image(b)[i] == word_of(pulse_of(b[i])));
    }
    assert(a =~= b);
}

/// The entries of a colour's frame decode to that colour and to no other.
pub proof fn lemma_round_trip(color: Color, units: Seq<Unit>)
    requires
        pulse_image(units) == pulse_image(frame_units(color)),
    ensures
        units == frame_units(color),
        color_of(units) == color,
{
    lemma_pulse_image_injective(units, frame_units(color));
    lemma_decode_encode(color);
}

/// The last entry of every frame is the reset: low in both phases for at
/// least the reset period.
pub proof fn lemma_frame_ends_in_reset(units: Seq<Unit>)
    requires
        well_formed(units),
    ensures
        pulse_image(units).len() == 25,
        code_of(pulse_image(units)[24]) == pulse_of(Unit::Reset),
        !code_of(pulse_image(units)[24]).level1,
        !code_of(pulse_image(units)[24]).level2,
        lasts_at_least_us(
            code_of(pulse_image(units)[24]).length1 + code_of(pulse_image(units)[24]).length2,
            CLOCK_KHZ as int,
            RESET_MIN_US as int,
        ),
{
    lemma_code_of_word(pulse_of(Unit::Reset));
}

proof fn lemma_no_unit(words: Seq<u32>, i: int)
    requires
        0 <= i < words.len(),
        unit_of(code_of(words[i])) is None,
    ensures
        forall|units: Seq<Unit>| well_formed(units) ==> pulse_image(units) != words,
{
    assert forall|units: Seq<Unit>| well_formed(units) implies pulse_image(units) != words by {
        if pulse_image(units) == words {
            assert(pulse_image(units)[i] == word_of(pulse_of(units[i])));
            lemma_unit_of_word(units[i]);
        }
    }
}

proof fn lemma_misplaced_unit(words: Seq<u32>, i: int, unit: Unit)
    requires
        0 <= i < 25,
        words.len() == 25,
        unit_of(code_of(words[i])) == Some(unit),
        (unit == Unit::Reset) != (i == 24),
    ensures
        forall|units: Seq<Unit>| well_formed(units) ==> pulse_image(units) != words,
{
    assert forall|units: Seq<Unit>| well_formed(units) implies pulse_image(units) != words by {
        if pulse_image(units) == words {
            assert(pulse_image(units)[i] == word_of(pulse_of(units[i])));
            lemma_unit_of_word(units[i]);
            assert(units[i] == unit);
            assert(units[i] is Bit <==> i < 24);
        }
    }
}

proof fn lemma_fields(word: u32, length1: u32, level1: u32, length2: u32, level2: u32)
    by (bit_vector)
    requires
        length1 < 0x8000,
        level1 <= 1,
        length2 < 0x8000,
        level2 <= 1,
        word == length1 + 0x8000 * level1 + 0x1_0000 * length2 + 0x8000_0000 * level2,
    ensures
        word % 0x8000 == length1,
        (word / 0x8000) % 2 == level1,
        (word / 0x1_0000) % 0x8000 == length2,
        (word >= 0x8000_0000u32) == (level2 == 1),
{
}

proof fn lemma_sum_of_fields(word: u32)
    by (bit_vector)
    ensures
        word == (word % 0x8000) + 0x8000 * ((word / 0x8000) % 2) + 0x1_0000 * ((word / 0x1_0000)
            % 0x8000) + (if word >= 0x8000_0000u32 {
            0x8000_0000u32
        } else {
            0u32
        }),
        word % 0x8000 < 0x8000,
        (word / 0x8000) % 2 <= 1,
        (word / 0x1_0000) % 0x8000 < 0x8000,
{
}

proof fn lemma_packing(length1: u16, length2: u16)
    by (bit_vector)
    ensures
        (((length1 as u32) | (1u32 << 15)) | (1u32 << 31)) | ((length2 as u32) << 16) == (length1
            % 0x8000) + 0x8000 + 0x1_0000 * (length2 % 0x8000) + 0x8000_0000,
        (((length1 as u32) & !(1u32 << 15)) | (1u32 << 31)) | ((length2 as u32) << 16) == (length1
            % 0x8000) + 0x1_0000 * (length2 % 0x8000) + 0x8000_0000,
        (((length1 as u32) | (1u32 << 15)) & !(1u32 << 31)) | ((length2 as u32) << 16) == (length1
            % 0x8000) + 0x8000 + 0x1_0000 * (length2 % 0x8000) + (if length2 >= 0x8000 {
            0x8000_0000u32
        } else {
            0u32
        }),
        (((length1 as u32) & !(1u32 << 15)) & !(1u32 << 31)) | ((length2 as u32) << 16) == (length1
            % 0x8000) + 0x1_0000 * (length2 % 0x8000) + (if length2 >= 0x8000 {
            0x8000_0000u32
        } else {
            0u32
        }),
{
}

proof fn lemma_unpacking(word: u32)
    by (bit_vector)
    ensures
        (word & (1u32 << 15) != 0) == ((word / 0x8000) % 2 == 1),
        word & 0b111_1111_1111_1111u32 == word % 0x8000,
        (word & (1u32 << 31) != 0) == (word >= 0x8000_0000u32),
        (word >> 16u32) & 0b111_1111_1111_1111u32 == (word / 0x1_0000) % 0x8000,
{
}

} // verus!
