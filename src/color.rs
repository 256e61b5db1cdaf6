use vstd::prelude::*;

verus! {

/// One pixel: four independent 8-bit channels.
#[derive(Clone, Copy, Debug, PartialEq, Eq, Structural)]
pub struct Color {
    pub red: u8,
    pub green: u8,
    pub blue: u8,
    pub alpha: u8,
}

/// The canonical packing: alpha, red, green, blue from the most to the least
/// significant byte.
pub open spec fn pack(alpha: u8, red: u8, green: u8, blue: u8) -> u32 {
    (alpha as u32) << 24u32 | (red as u32) << 16u32 | (green as u32) << 8u32 | (blue as u32)
}

/// The byte of `value` that starts `shift` bits above the least significant one.
pub open spec fn byte_at(value: u32, shift: u32) -> u8 {
    ((value >> shift) & 0xffu32) as u8
}

impl Color {
    pub open spec fn packed(self) -> u32 {
        pack(self.alpha, self.red, self.green, self.blue)
    }

    pub open spec fn unpacked(value: u32) -> Color {
        Color {
            alpha: byte_at(value, 24),
            red: byte_at(value, 16),
            green: byte_at(value, 8),
            blue: byte_at(value, 0),
        }
    }

    /// A fully transparent black.
    pub fn new() -> (r: Color)
        ensures
            r.alpha == 0 && r.red == 0 && r.green == 0 && r.blue == 0,
    {
        Color { alpha: 0, red: 0, green: 0, blue: 0 }
    }

    /// Splits a packed value into its channels.
    pub fn from(color: u32) -> (r: Color)
        ensures
            r == Color::unpacked(color),
    {
        Color {
            alpha: ((color >> 24u32) & 0xffu32) as u8,
            red: ((color >> 16u32) & 0xffu32) as u8,
            green: ((color >> 8u32) & 0xffu32) as u8,
            blue: ((color >> 0u32) & 0xffu32) as u8,
        }
    }

    /// Packs the channels into one value.
    pub fn to(&self) -> (r: u32)
        ensures
            r == self.packed(),
    {
        (self.alpha as u32) << 24u32 | (self.red as u32) << 16u32 | (self.green as u32) << 8u32
            | (self.blue as u32)
    }
}

/// Unpacking a packed color gives back the same channels.
pub proof fn lemma_unpack_pack(c: Color)
    ensures
        Color::unpacked(c.packed()) == c,
{
    let (a, r, g, b) = (c.alpha, c.red, c.green, c.blue);
    assert(byte_at(pack(a, r, g, b), 24) == a
        && byte_at(pack(a, r, g, b), 16) == r
        && byte_at(pack(a, r, g, b), 8) == g
        && byte_at(pack(a, r, g, b), 0) == b) by (bit_vector);
}

/// Packing the channels of a value gives back the same value.
pub proof fn lemma_pack_unpack(v: u32)
    ensures
        Color::unpacked(v).packed() == v,
{
    assert(pack(byte_at(v, 24), byte_at(v, 16), byte_at(v, 8), byte_at(v, 0)) == v) by (bit_vector);
}

} // verus!
