//! RGBA colour with one byte per channel, packable as `0xRRGGBBAA`.
use vstd::prelude::*;

verus! {

/// 8-bit RGBA colour, stored as red, green, blue, alpha.
#[derive(Copy, Clone, Debug, PartialEq, Eq, Structural, Hash)]
pub struct Color {
    r: u8,
    g: u8,
    b: u8,
    a: u8,
}

/// The packed `0xRRGGBBAA` value of four channels.
pub open spec fn pack(r: u8, g: u8, b: u8, a: u8) -> int {
    r * 0x1000000 + g * 0x10000 + b * 0x100 + a
}

impl Color {
    pub closed spec fn spec_red(self) -> u8 {
        self.r
    }

    pub closed spec fn spec_green(self) -> u8 {
        self.g
    }

    pub closed spec fn spec_blue(self) -> u8 {
        self.b
    }

    pub closed spec fn spec_alpha(self) -> u8 {
        self.a
    }

    /// The colour whose packed `0xRRGGBBAA` value is `v`.
    pub closed spec fn unpacked(v: u32) -> Color {
        Color {
            r: (v / 0x1000000) as u8,
            g: ((v / 0x10000) % 0x100) as u8,
            b: ((v / 0x100) % 0x100) as u8,
            a: (v % 0x100) as u8,
        }
    }

    /// Channels of [`Color::unpacked`].
    pub proof fn lemma_unpacked(v: u32)
        ensures
            Color::unpacked(v).spec_red() == v / 0x1000000,
            Color::unpacked(v).spec_green() == (v / 0x10000) % 0x100,
            Color::unpacked(v).spec_blue() == (v / 0x100) % 0x100,
            Color::unpacked(v).spec_alpha() == v % 0x100,
    {
        assert(v / 0x1000000 < 0x100) by (bit_vector);
    }

    /// The packed `0xRRGGBBAA` value.
    pub open spec fn packed(self) -> int {
        pack(self.spec_red(), self.spec_green(), self.spec_blue(), self.spec_alpha())
    }

    /// Two colours are equal exactly when their channels are.
    pub proof fn lemma_eq_channels(c: Color, d: Color)
        ensures
            (c == d) <==> (c.spec_red() == d.spec_red() && c.spec_green() == d.spec_green() && c.spec_blue()
                == d.spec_blue() && c.spec_alpha() == d.spec_alpha()),
    {
    }

    /// A colour from its four channels.
    pub fn rgba(r: u8, g: u8, b: u8, a: u8) -> (c: Self)
        ensures
            c.spec_red() == r,
            c.spec_green() == g,
            c.spec_blue() == b,
            c.spec_alpha() == a,
    {
        Color { r, g, b, a }
    }

    /// An opaque colour (alpha 255).
    pub fn rgb(r: u8, g: u8, b: u8) -> (c: Self)
        ensures
            c.spec_red() == r,
            c.spec_green() == g,
            c.spec_blue() == b,
            c.spec_alpha() == 255,
    {
        Color { r, g, b, a: 255 }
    }

    /// The colour packed as `0xRRGGBBAA` in `v`.
    pub fn from_u32(v: u32) -> (c: Self)
        ensures
            c.spec_red() == v / 0x1000000,
            c.spec_green() == (v / 0x10000) % 0x100,
            c.spec_blue() == (v / 0x100) % 0x100,
            c.spec_alpha() == v % 0x100,
            c.packed() == v,
            c == Color::unpacked(v),
    {
        assert((v >> 24u32) == v / 0x1000000 && ((v >> 16u32) & 0xffu32) == (v / 0x10000) % 0x100 && ((v
            >> 8u32) & 0xffu32) == (v / 0x100) % 0x100 && (v & 0xffu32) == v % 0x100 && v / 0x1000000 < 0x100)
            by (bit_vector);
        let r = (v >> 24u32) as u8;
        let g = ((v >> 16u32) & 0xffu32) as u8;
        let b = ((v >> 8u32) & 0xffu32) as u8;
        let a = (v & 0xffu32) as u8;
        assert(v == (v / 0x1000000) * 0x1000000 + ((v / 0x10000) % 0x100) * 0x10000 + ((v / 0x100) % 0x100)
            * 0x100 + v % 0x100) by (bit_vector);
        Color { r, g, b, a }
    }

    /// The colour packed as `0xRRGGBBAA`.
    pub fn to_u32(self) -> (v: u32)
        ensures
            v == self.packed(),
    {
        let r = self.r as u32;
        let g = self.g as u32;
        let b = self.b as u32;
        let a = self.a as u32;
        let v = (r << 24u32) | (g << 16u32) | (b << 8u32) | a;
        assert(r < 256 && g < 256 && b < 256 && a < 256 ==> (r << 24u32) | (g << 16u32) | (b << 8u32) | a
            == r * 0x1000000 + g * 0x10000 + b * 0x100 + a) by (bit_vector);
        v
    }

    /// The packed `0xRRGGBBAA` value handed to the renderer (the same as
    /// [`Color::to_u32`]).
    pub fn to_srgb_u32(self) -> (v: u32)
        ensures
            v == self.packed(),
    {
        self.to_u32()
    }

    /// Alpha channel.
    pub fn alpha(self) -> (v: u8)
        ensures
            v == self.spec_alpha(),
    {
        self.a
    }

    /// Red channel.
    pub fn red(self) -> (v: u8)
        ensures
            v == self.spec_red(),
    {
        self.r
    }

    /// Green channel.
    pub fn green(self) -> (v: u8)
        ensures
            v == self.spec_green(),
    {
        self.g
    }

    /// Blue channel.
    pub fn blue(self) -> (v: u8)
        ensures
            v == self.spec_blue(),
    {
        self.b
    }

    /// Fully transparent (all channels zero).
    pub fn transparent() -> (c: Color)
        ensures
            c.spec_red() == 0 && c.spec_green() == 0 && c.spec_blue() == 0 && c.spec_alpha() == 0,
    {
        Color { r: 0, g: 0, b: 0, a: 0 }
    }

    /// Opaque black.
    pub fn black() -> (c: Color)
        ensures
            c.spec_red() == 0 && c.spec_green() == 0 && c.spec_blue() == 0 && c.spec_alpha() == 255,
    {
        Color { r: 0, g: 0, b: 0, a: 255 }
    }

    /// Opaque white.
    pub fn white() -> (c: Color)
        ensures
            c.spec_red() == 255 && c.spec_green() == 255 && c.spec_blue() == 255 && c.spec_alpha() == 255,
    {
        Color { r: 255, g: 255, b: 255, a: 255 }
    }

    /// Opaque light grey.
    pub fn light_gray() -> (c: Color)
        ensures
            c.spec_red() == 230 && c.spec_green() == 230 && c.spec_blue() == 230 && c.spec_alpha() == 255,
    {
        Color { r: 230, g: 230, b: 230, a: 255 }
    }

    /// Opaque mid grey.
    pub fn gray() -> (c: Color)
        ensures
            c.spec_red() == 128 && c.spec_green() == 128 && c.spec_blue() == 128 && c.spec_alpha() == 255,
    {
        Color { r: 128, g: 128, b: 128, a: 255 }
    }

    /// Opaque dark grey.
    pub fn dark_gray() -> (c: Color)
        ensures
            c.spec_red() == 64 && c.spec_green() == 64 && c.spec_blue() == 64 && c.spec_alpha() == 255,
    {
        Color { r: 64, g: 64, b: 64, a: 255 }
    }

    /// Opaque red.
    pub fn opaque_red() -> (c: Color)
        ensures
            c.spec_red() == 255 && c.spec_green() == 0 && c.spec_blue() == 0 && c.spec_alpha() == 255,
    {
        Color { r: 255, g: 0, b: 0, a: 255 }
    }

    /// Opaque green.
    pub fn opaque_green() -> (c: Color)
        ensures
            c.spec_red() == 0 && c.spec_green() == 128 && c.spec_blue() == 0 && c.spec_alpha() == 255,
    {
        Color { r: 0, g: 128, b: 0, a: 255 }
    }

    /// Opaque blue.
    pub fn opaque_blue() -> (c: Color)
        ensures
            c.spec_red() == 0 && c.spec_green() == 0 && c.spec_blue() == 255 && c.spec_alpha() == 255,
    {
        Color { r: 0, g: 0, b: 255, a: 255 }
    }

    /// Opaque cyan.
    pub fn cyan() -> (c: Color)
        ensures
            c.spec_red() == 0 && c.spec_green() == 255 && c.spec_blue() == 255 && c.spec_alpha() == 255,
    {
        Color { r: 0, g: 255, b: 255, a: 255 }
    }

    /// Opaque magenta.
    pub fn magenta() -> (c: Color)
        ensures
            c.spec_red() == 255 && c.spec_green() == 0 && c.spec_blue() == 255 && c.spec_alpha() == 255,
    {
        Color { r: 255, g: 0, b: 255, a: 255 }
    }

    /// Opaque yellow.
    pub fn yellow() -> (c: Color)
        ensures
            c.spec_red() == 255 && c.spec_green() == 255 && c.spec_blue() == 0 && c.spec_alpha() == 255,
    {
        Color { r: 255, g: 255, b: 0, a: 255 }
    }
}

impl From<u32> for Color {
    fn from(v: u32) -> (c: Color) {
        Color::from_u32(v)
    }
}

impl vstd::std_specs::convert::FromSpecImpl<u32> for Color {
    open spec fn obeys_from_spec() -> bool {
        true
    }

    open spec fn from_spec(v: u32) -> Color {
        Color::unpacked(v)
    }
}

impl From<Color> for u32 {
    fn from(c: Color) -> (v: u32) {
        c.to_u32()
    }
}

impl vstd::std_specs::convert::FromSpecImpl<Color> for u32 {
    open spec fn obeys_from_spec() -> bool {
        true
    }

    open spec fn from_spec(c: Color) -> u32 {
        c.packed() as u32
    }
}

/// Law: unpacking a packed colour gives the colour back.
pub proof fn law_pack_unpack(c: Color)
    ensures
        c.packed() < 0x1_0000_0000,
        (c.packed() / 0x1000000) == c.spec_red(),
        ((c.packed() / 0x10000) % 0x100) == c.spec_green(),
        ((c.packed() / 0x100) % 0x100) == c.spec_blue(),
        (c.packed() % 0x100) == c.spec_alpha(),
{
    let r = c.spec_red();
    let g = c.spec_green();
    let b = c.spec_blue();
    let a = c.spec_alpha();
    assert(r * 0x1000000 + g * 0x10000 + b * 0x100 + a < 0x1_0000_0000 && (r * 0x1000000 + g * 0x10000 + b
        * 0x100 + a) / 0x1000000 == r && ((r * 0x1000000 + g * 0x10000 + b * 0x100 + a) / 0x10000) % 0x100 == g
        && ((r * 0x1000000 + g * 0x10000 + b * 0x100 + a) / 0x100) % 0x100 == b && (r * 0x1000000 + g * 0x10000
        + b * 0x100 + a) % 0x100 == a) by (bit_vector);
}

} // verus!
