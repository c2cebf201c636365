//! Protocol bits and the most-significant-bit-first order of a channel byte.

use vstd::prelude::*;

verus! {

/// The logical value of one protocol bit.
#[derive(Clone, Copy, Debug, PartialEq, Eq, Structural)]
pub enum BitValue {
    Zero,
    One,
}

impl BitValue {
    /// The bit as a number, 0 or 1.
    pub open spec fn digit(self) -> int {
        match self {
            BitValue::Zero => 0,
            BitValue::One => 1,
        }
    }
}

/// Bit `i` of `byte`, where position 0 is the most significant bit.
pub open spec fn bit_at(byte: u8, i: int) -> BitValue {
    if (byte >> ((7 - i) as u8)) & 1 == 1 {
        BitValue::One
    } else {
        BitValue::Zero
    }
}

/// The weight of bit `i` in its byte: 128 for position 0, 1 for position 7.
pub open spec fn weight(i: int) -> int {
    if i == 0 {
        128
    } else if i == 1 {
        64
    } else if i == 2 {
        32
    } else if i == 3 {
        16
    } else if i == 4 {
        8
    } else if i == 5 {
        4
    } else if i == 6 {
        2
    } else {
        1
    }
}

/// Positions count from the most significant bit: bit `i` is a one exactly
/// when the byte holds an odd number of the weight of position `i`.
pub proof fn lemma_bit_weight(byte: u8, i: int)
    requires
        0 <= i < 8,
    ensures
        bit_at(byte, i).digit() == (byte as int / weight(i)) % 2,
{
    assert({
        &&& (byte >> 7u8) & 1 == (byte / 128) % 2
        &&& (byte >> 6u8) & 1 == (byte / 64) % 2
        &&& (byte >> 5u8) & 1 == (byte / 32) % 2
        &&& (byte >> 4u8) & 1 == (byte / 16) % 2
        &&& (byte >> 3u8) & 1 == (byte / 8) % 2
        &&& (byte >> 2u8) & 1 == (byte / 4) % 2
        &&& (byte >> 1u8) & 1 == (byte / 2) % 2
        &&& (byte >> 0u8) & 1 == (byte / 1) % 2
    }) by (bit_vector);
}

/// The eight bits of `byte` in the order they go out on the wire.
pub open spec fn bits_of(byte: u8) -> Seq<BitValue> {
    Seq::new(8, |i: int| bit_at(byte, i))
}

/// The byte whose bits, most significant first, are `bits`.
pub open spec fn byte_of(bits: Seq<BitValue>) -> int
    recommends
        bits.len() == 8,
{
    128 * bits[0].digit() + 64 * bits[1].digit() + 32 * bits[2].digit() + 16 * bits[3].digit()
        + 8 * bits[4].digit() + 4 * bits[5].digit() + 2 * bits[6].digit() + bits[7].digit()
}

/// Grouping the bits of a byte back together gives the byte.
pub proof fn lemma_byte_of_bits(byte: u8)
    ensures
        byte_of(bits_of(byte)) == byte,
{
    assert({
        &&& byte == 128 * ((byte >> 7u8) & 1) + 64 * ((byte >> 6u8) & 1) + 32 * ((byte >> 5u8) & 1)
            + 16 * ((byte >> 4u8) & 1) + 8 * ((byte >> 3u8) & 1) + 4 * ((byte >> 2u8) & 1) + 2 * ((
        byte >> 1u8) & 1) + ((byte >> 0u8) & 1)
        &&& (byte >> 7u8) & 1 <= 1
        &&& (byte >> 6u8) & 1 <= 1
        &&& (byte >> 5u8) & 1 <= 1
        &&& (byte >> 4u8) & 1 <= 1
        &&& (byte >> 3u8) & 1 <= 1
        &&& (byte >> 2u8) & 1 <= 1
        &&& (byte >> 1u8) & 1 <= 1
        &&& (byte >> 0u8) & 1 <= 1
    }) by (bit_vector);
    let bits = bits_of(byte);
    assert(bits[0].digit() == (byte >> 7u8) & 1);
    assert(bits[1].digit() == (byte >> 6u8) & 1);
    assert(bits[2].digit() == (byte >> 5u8) & 1);
    assert(bits[3].digit() == (byte >> 4u8) & 1);
    assert(bits[4].digit() == (byte >> 3u8) & 1);
    assert(bits[5].digit() == (byte >> 2u8) & 1);
    assert(bits[6].digit() == (byte >> 1u8) & 1);
    assert(bits[7].digit() == (byte >> 0u8) & 1);
}

/// Splits a byte into its bits, most significant first.
pub fn byte_bits(byte: u8) -> (bits: [BitValue; 8])
    ensures
        bits@ == bits_of(byte),
{
    let mut bits: [BitValue; 8] = [BitValue::Zero; 8];
    let mut b: u8 = byte;
    let mut k: usize = 0;
    assert(byte == byte << 0u8) by (bit_vector);
    while k < 8
        invariant
            k <= 8,
            b == byte << (k as u8),
            forall|i: int| 0 <= i < k ==> bits[i] == bit_at(byte, i),
        decreases 8 - k,
    {
        let top: u8 = b & 0b1000_0000;
        let ghost s: u8 = (7 - k) as u8;
        assert((top != 0) == ((byte >> s) & 1 == 1)) by (bit_vector)
            requires
                k < 8,
                s == 7 - k,
                b == byte << (k as u8),
                top == b & 0b1000_0000u8,
        ;
        bits[k] = if top != 0 {
            BitValue::One
        } else {
            BitValue::Zero
        };
        assert(b << 1u8 == byte << ((k + 1) as u8)) by (bit_vector)
            requires
                k < 8,
                b == byte << (k as u8),
        ;
        b <<= 1;
        k += 1;
    }
    assert(bits@ =~= bits_of(byte));
    bits
}

/// The number 0 or 1 that a bit stands for.
pub fn bit_digit(bit: BitValue) -> (d: u8)
    ensures
        d == bit.digit(),
{
    match bit {
        BitValue::Zero => 0,
        BitValue::One => 1,
    }
}

/// Groups eight bits, most significant first, back into a byte.
pub fn bits_byte(bits: &[BitValue; 8]) -> (byte: u8)
    ensures
        byte == byte_of(bits@),
        bits_of(byte) == bits@,
{
    let byte: u8 = 128 * bit_digit(bits[0]) + 64 * bit_digit(bits[1]) + 32 * bit_digit(bits[2]) + 16
        * bit_digit(bits[3]) + 8 * bit_digit(bits[4]) + 4 * bit_digit(bits[5]) + 2 * bit_digit(
        bits[6],
    ) + bit_digit(bits[7]);
    proof {
        lemma_bits_of_byte(bits@);
    }
    byte
}

/// Splitting the byte that eight bits stand for gives the same eight bits.
pub proof fn lemma_bits_of_byte(bits: Seq<BitValue>)
    requires
        bits.len() == 8,
    ensures
        0 <= byte_of(bits) < 256,
        bits_of(byte_of(bits) as u8) == bits,
{
    let d0: u8 = bits[0].digit() as u8;
    let d1: u8 = bits[1].digit() as u8;
    let d2: u8 = bits[2].digit() as u8;
    let d3: u8 = bits[3].digit() as u8;
    let d4: u8 = bits[4].digit() as u8;
    let d5: u8 = bits[5].digit() as u8;
    let d6: u8 = bits[6].digit() as u8;
    let d7: u8 = bits[7].digit() as u8;
    let v: u8 = byte_of(bits) as u8;
    assert({
        &&& (v >> 7u8) & 1 == d0
        &&& (v >> 6u8) & 1 == d1
        &&& (v >> 5u8) & 1 == d2
        &&& (v >> 4u8) & 1 == d3
        &&& (v >> 3u8) & 1 == d4
        &&& (v >> 2u8) & 1 == d5
        &&& (v >> 1u8) & 1 == d6
        &&& (v >> 0u8) & 1 == d7
    }) by (bit_vector)
        requires
            d0 <= 1,
            d1 <= 1,
            d2 <= 1,
            d3 <= 1,
            d4 <= 1,
            d5 <= 1,
            d6 <= 1,
            d7 <= 1,
            v == 128 * d0 + 64 * d1 + 32 * d2 + 16 * d3 + 8 * d4 + 4 * d5 + 2 * d6 + d7,
    ;
    assert(bit_at(v, 0) == bits[0]);
    assert(bit_at(v, 1) == bits[1]);
    assert(bit_at(v, 2) == bits[2]);
    assert(bit_at(v, 3) == bits[3]);
    assert(bit_at(v, 4) == bits[4]);
    assert(bit_at(v, 5) == bits[5]);
    assert(bit_at(v, 6) == bits[6]);
    assert(bit_at(v, 7) == bits[7]);
    assert(bits_of(v) =~= bits);
}

} // verus!
