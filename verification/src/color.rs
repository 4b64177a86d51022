//! Colors and the roles a color can play in a subtitle bitmap.

use vstd::prelude::*;
use vstd::std_specs::convert::FromSpecImpl;

verus! {

/// A color with four 8-bit channels: red, green, blue and alpha.
#[derive(Clone, Copy, Debug, PartialEq, Eq, Hash, Structural)]
pub struct Color {
    pub r: u8,
    pub g: u8,
    pub b: u8,
    pub a: u8,
}

impl Color {
    /// A color is transparent as soon as its alpha is below full opacity.
    pub open spec fn spec_is_transparent(&self) -> bool {
        self.a < 0xff
    }

    /// The channels packed into one number, red in the highest byte.
    pub open spec fn spec_to_hex(&self) -> u32 {
        (self.r as int * 0x100_0000 + self.g as int * 0x1_0000 + self.b as int * 0x100
            + self.a as int) as u32
    }

    /// The color whose packed form is `hex`.
    pub open spec fn spec_from_hex(hex: u32) -> Color {
        Color {
            r: (hex as int / 0x100_0000) as u8,
            g: (hex as int / 0x1_0000 % 0x100) as u8,
            b: (hex as int / 0x100 % 0x100) as u8,
            a: (hex as int % 0x100) as u8,
        }
    }

    /// Is this color transparent or partially transparent?
    #[verifier::when_used_as_spec(spec_is_transparent)]
    pub fn is_transparent(&self) -> (t: bool)
        ensures
            t == self.spec_is_transparent(),
    {
        self.a < 0xff
    }

    /// Packs the channels as `0xRRGGBBAA`.
    #[verifier::when_used_as_spec(spec_to_hex)]
    pub fn to_hex(&self) -> (hex: u32)
        ensures
            hex == self.spec_to_hex(),
            Color::spec_from_hex(hex) == *self,
    {
        let r: u32 = self.r as u32;
        let g: u32 = self.g as u32;
        let b: u32 = self.b as u32;
        let a: u32 = self.a as u32;
        let hex: u32 = r * 0x100_0000 + g * 0x1_0000 + b * 0x100 + a;
        proof {
            let low: int = g * 0x1_0000 + b * 0x100 + a;
            assert(hex as int == r * 0x100_0000 + low && 0 <= low < 0x100_0000);
            assert(hex as int / 0x100_0000 == r as int);
            let mid: int = r * 0x100 + g;
            assert(hex as int == mid * 0x1_0000 + (b * 0x100 + a));
            assert(hex as int / 0x1_0000 == mid);
            assert(mid % 0x100 == g as int);
            let high: int = mid * 0x100 + b;
            assert(hex as int == high * 0x100 + a);
            assert(hex as int / 0x100 == high);
            assert(high % 0x100 == b as int);
            assert(hex as int % 0x100 == a as int);
        }
        hex
    }

    /// Unpacks a color written as `0xRRGGBBAA`.
    #[verifier::when_used_as_spec(spec_from_hex)]
    pub fn from_hex(hex: u32) -> (c: Color)
        ensures
            c == Color::spec_from_hex(hex),
            c.spec_to_hex() == hex,
    {
        Color {
            r: (hex / 0x100_0000) as u8,
            g: (hex / 0x1_0000 % 0x100) as u8,
            b: (hex / 0x100 % 0x100) as u8,
            a: (hex % 0x100) as u8,
        }
    }
}

/// Packing is one-to-one: two colors with the same packed form are the same
/// color.
pub proof fn lemma_hex_injective(c: Color, d: Color)
    requires
        c.spec_to_hex() == d.spec_to_hex(),
    ensures
        c == d,
{
}

/// Different kinds of colors we might find in a bitmap.
#[derive(Clone, Copy, Debug, PartialEq, Eq, Structural)]
pub enum ColorType {
    /// This color is transparent.
    Transparent,
    /// This color appears to be a shadow color, which is treated as
    /// transparent to make it easier to separate letters.
    Shadow,
    /// This color is opaque, and is used to recognize letters.
    Opaque,
}

impl ColorType {
    /// The position of this role in a table of per-role counters.
    pub open spec fn spec_index(self) -> usize {
        match self {
            ColorType::Transparent => 0,
            ColorType::Shadow => 1,
            ColorType::Opaque => 2,
        }
    }

    /// The role a color has from its alpha channel alone.
    pub open spec fn spec_of_alpha(c: Color) -> ColorType {
        if c.spec_is_transparent() {
            ColorType::Transparent
        } else {
            ColorType::Opaque
        }
    }

    /// The role a color has from its alpha channel alone: transparent for any
    /// amount of transparency, opaque otherwise.
    #[verifier::when_used_as_spec(spec_of_alpha)]
    pub fn of_alpha(c: Color) -> (role: ColorType)
        ensures
            role == ColorType::spec_of_alpha(c),
    {
        if c.is_transparent() {
            ColorType::Transparent
        } else {
            ColorType::Opaque
        }
    }
}

impl From<ColorType> for usize {
    /// Map a `ColorType` to something that can index a table of three
    /// counters.
    fn from(ct: ColorType) -> (i: usize) {
        match ct {
            ColorType::Transparent => 0,
            ColorType::Shadow => 1,
            ColorType::Opaque => 2,
        }
    }
}

impl FromSpecImpl<ColorType> for usize {
    open spec fn obeys_from_spec() -> bool {
        true
    }

    open spec fn from_spec(ct: ColorType) -> usize {
        ct.spec_index()
    }
}

} // verus!
