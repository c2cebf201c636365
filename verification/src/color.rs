//! RGB colour values and the order in which their channels go out on the wire.

use vstd::prelude::*;

verus! {

/// One RGB colour value, eight bits per channel.
#[derive(Clone, Copy, Debug, PartialEq, Eq, Structural)]
pub struct Color {
    pub r: u8,
    pub g: u8,
    pub b: u8,
}

impl Color {
    /// The channel bytes in wire order: green first, then red, then blue.
    pub open spec fn wire_bytes(self) -> Seq<u8> {
        seq![self.g, self.r, self.b]
    }

    /// The colour whose channel bytes in wire order are `bytes`.
    pub open spec fn of_wire_bytes(bytes: Seq<u8>) -> Color
        recommends
            bytes.len() == 3,
    {
        Color { r: bytes[1], g: bytes[0], b: bytes[2] }
    }

    /// Builds a colour from its red, green and blue channel values.
    pub fn new(r: u8, g: u8, b: u8) -> (c: Color)
        ensures
            c == (Color { r, g, b }),
    {
        Color { r, g, b }
    }

    /// The colour with every channel dark.
    pub fn off() -> (c: Color)
        ensures
            c == (Color { r: 0, g: 0, b: 0 }),
    {
        Color { r: 0, g: 0, b: 0 }
    }

    /// The channel bytes in the order the protocol sends them.
    pub fn to_wire(self) -> (bytes: [u8; 3])
        ensures
            bytes@ == self.wire_bytes(),
    {
        let bytes: [u8; 3] = [self.g, self.r, self.b];
        assert(bytes@ =~= self.wire_bytes());
        bytes
    }

    /// Reads a colour back from its channel bytes in wire order.
    pub fn from_wire(bytes: [u8; 3]) -> (c: Color)
        ensures
            c == Color::of_wire_bytes(bytes@),
            c.wire_bytes() == bytes@,
    {
        let c = Color { r: bytes[1], g: bytes[0], b: bytes[2] };
        assert(c.wire_bytes() =~= bytes@);
        c
    }
}

} // verus!
