use vstd::prelude::*;

verus! {

/// An RGB color with 8-bit channels.
#[derive(Copy, Clone, Debug, PartialEq, Eq, Structural)]
pub struct Color {
    pub r: u8,
    pub g: u8,
    pub b: u8,
}

/// Perceptual product of two 8-bit channels: `(a * b) / 255`, truncating.
pub open spec fn blend_channel(a: nat, b: nat) -> nat {
    (a * b) / 255
}

/// One channel of the perceptual color product.
pub fn mult_u8(a: u8, b: u8) -> (r: u8)
    ensures
        r == blend_channel(a as nat, b as nat),
{
    proof {
        assert((a as u32) * (b as u32) <= 255 * 255) by (nonlinear_arith)
            requires
                a <= 255,
                b <= 255,
        ;
    }
    ((a as u32) * (b as u32) / 255) as u8
}

impl Color {
    /// Component-wise perceptual multiply: each channel is `(a * b) / 255`.
    pub fn mul(self, other: Color) -> (r: Color)
        ensures
            r.r == blend_channel(self.r as nat, other.r as nat),
            r.g == blend_channel(self.g as nat, other.g as nat),
            r.b == blend_channel(self.b as nat, other.b as nat),
    {
        Color { r: mult_u8(self.r, other.r), g: mult_u8(self.g, other.g), b: mult_u8(self.b, other.b) }
    }

    /// Component-wise sum. Each channel wraps modulo 256; callers that need
    /// the plain sum must keep every channel sum below 256.
    pub fn add(self, other: Color) -> (r: Color)
        ensures
            r.r == (self.r + other.r) % 256,
            r.g == (self.g + other.g) % 256,
            r.b == (self.b + other.b) % 256,
    {
        Color {
            r: self.r.wrapping_add(other.r),
            g: self.g.wrapping_add(other.g),
            b: self.b.wrapping_add(other.b),
        }
    }
}

/// The fixed background color substituted for rays that escape the scene.
pub fn sky_color() -> (r: Color)
    ensures
        r == (Color { r: 0x99, g: 0xCC, b: 0xFF }),
{
    Color { r: 0x99, g: 0xCC, b: 0xFF }
}

/// The final color of a pixel: the resolved ray color when the ray hit
/// something, the sky color when it did not.
pub fn resolve_pixel(resolved: Option<Color>) -> (r: Color)
    ensures
        resolved is Some ==> r == resolved->0,
        resolved is None ==> r == (Color { r: 0x99, g: 0xCC, b: 0xFF }),
{
    match resolved {
        Some(c) => c,
        None => sky_color(),
    }
}

} // verus!
