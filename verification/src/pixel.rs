use vstd::prelude::*;

verus! {

/// 8-bit sRGB truecolour.
#[derive(Debug, Clone, Copy, PartialEq, Eq, Structural)]
pub struct Srgb8 {
    /// Red.
    pub r: u8,
    /// Green.
    pub g: u8,
    /// Blue.
    pub b: u8,
}

/// 8-bit sRGB truecolour with an alpha channel.
#[derive(Debug, Clone, Copy, PartialEq, Eq, Structural)]
pub struct Srgba8 {
    /// Red.
    pub r: u8,
    /// Green.
    pub g: u8,
    /// Blue.
    pub b: u8,
    /// Opacity: 0 is transparent, 255 is opaque.
    pub a: u8,
}

/// 8-bit sRGB luminance.
#[derive(Debug, Clone, Copy, PartialEq, Eq, Structural)]
pub struct SrgbMono8 {
    /// Luminance.
    pub v: u8,
}

/// 16-bit sRGB luminance.
#[derive(Debug, Clone, Copy, PartialEq, Eq, Structural)]
pub struct SrgbMono16 {
    /// Luminance.
    pub v: u16,
}

/// An 8-bit index into a palette.
#[derive(Debug, Clone, Copy, PartialEq, Eq, Structural)]
pub struct Indexed8(pub u8);

impl Srgb8 {
    /// The pixel with the given channels.
    pub fn new(r: u8, g: u8, b: u8) -> (p: Self)
        ensures
            p == (Srgb8 { r, g, b }),
    {
        Srgb8 { r, g, b }
    }
}

impl Srgba8 {
    /// The pixel with the given channels.
    pub fn new(r: u8, g: u8, b: u8, a: u8) -> (p: Self)
        ensures
            p == (Srgba8 { r, g, b, a }),
    {
        Srgba8 { r, g, b, a }
    }
}

impl SrgbMono8 {
    /// The pixel with the given luminance.
    pub fn new(v: u8) -> (p: Self)
        ensures
            p == (SrgbMono8 { v }),
    {
        SrgbMono8 { v }
    }
}

impl SrgbMono16 {
    /// The pixel with the given luminance.
    pub fn new(v: u16) -> (p: Self)
        ensures
            p == (SrgbMono16 { v }),
    {
        SrgbMono16 { v }
    }
}

} // verus!
