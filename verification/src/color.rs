//! Simple color structure.

use vstd::prelude::*;
use crate::utils;

verus! {

#[derive(Debug, Default, Copy, Clone)]
pub struct Color {
    pub r: u8,
    pub g: u8,
    pub b: u8,
    pub a: u8,
}

impl Color {
    pub fn new(r: u8, g: u8, b: u8, a: u8) -> (c: Color)
        ensures
            c.r == r,
            c.g == g,
            c.b == b,
            c.a == a,
    {
        Color { r, g, b, a }
    }

    /// u32 value with color bits in order alpha, red, green, blue,
    /// alpha in the top byte.
    pub fn bgra(&self) -> (v: u32)
        ensures
            v == utils::spec_tup8_to_32((self.a, self.r, self.g, self.b)),
    {
        utils::tup8_to_32((self.a, self.r, self.g, self.b))
    }

    /// Same packing with red and blue exchanged: alpha, blue, green, red.
    pub fn rgba(&self) -> (v: u32)
        ensures
            v == utils::spec_tup8_to_32((self.a, self.b, self.g, self.r)),
    {
        utils::tup8_to_32((self.a, self.b, self.g, self.r))
    }

    pub fn white() -> (c: Color)
        ensures
            c.r == 255 && c.g == 255 && c.b == 255 && c.a == 255,
    {
        Color { r: 255, g: 255, b: 255, a: 255 }
    }

    pub fn black() -> (c: Color)
        ensures
            c.r == 0 && c.g == 0 && c.b == 0 && c.a == 255,
    {
        Color { r: 0, g: 0, b: 0, a: 255 }
    }

    pub fn red() -> (c: Color)
        ensures
            c.r == 255 && c.g == 0 && c.b == 0 && c.a == 255,
    {
        Color { r: 255, g: 0, b: 0, a: 255 }
    }

    pub fn green() -> (c: Color)
        ensures
            c.r == 0 && c.g == 255 && c.b == 0 && c.a == 255,
    {
        Color { r: 0, g: 255, b: 0, a: 255 }
    }

    pub fn blue() -> (c: Color)
        ensures
            c.r == 0 && c.g == 0 && c.b == 255 && c.a == 255,
    {
        Color { r: 0, g: 0, b: 255, a: 255 }
    }

    pub fn transparent() -> (c: Color)
        ensures
            c.r == 0 && c.g == 0 && c.b == 0 && c.a == 0,
    {
        Color { r: 0, g: 0, b: 0, a: 0 }
    }
}

/// Packing a color and unpacking the word's bytes gives the color back:
/// alpha from bits 31..24, red from 23..16, green from 15..8, blue from 7..0.
pub proof fn lemma_color_pack_roundtrip(c: Color)
    ensures
        ((utils::spec_tup8_to_32((c.a, c.r, c.g, c.b)) >> 24) & 0xff) as u8 == c.a,
        ((utils::spec_tup8_to_32((c.a, c.r, c.g, c.b)) >> 16) & 0xff) as u8 == c.r,
        ((utils::spec_tup8_to_32((c.a, c.r, c.g, c.b)) >> 8) & 0xff) as u8 == c.g,
        (utils::spec_tup8_to_32((c.a, c.r, c.g, c.b)) & 0xff) as u8 == c.b,
{
    utils::lemma_tup8_to_32_roundtrip((c.a, c.r, c.g, c.b));
}

} // verus!
