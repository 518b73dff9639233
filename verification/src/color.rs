use vstd::prelude::*;

verus! {

/// An opaque-free RGB triple; the render collaborator turns it into
/// whatever its console expects.
#[derive(Debug, Clone, Copy, PartialEq, Eq, Structural)]
pub struct Rgb {
    pub r: u8,
    pub g: u8,
    pub b: u8,
}

/// A scaled channel product stays inside one byte.
proof fn lemma_channel_mul_bounds(a: int, b: int)
    requires
        0 <= a <= 255,
        0 <= b <= 255,
    ensures
        0 <= a * b <= 255 * 255,
        0 <= (a * b) / 255 <= 255,
{
    assert(0 <= a * b <= 255 * 255) by (nonlinear_arith)
        requires
            0 <= a <= 255,
            0 <= b <= 255,
    ;
    assert(0 <= (a * b) / 255 <= 255) by (nonlinear_arith)
        requires
            0 <= a * b <= 255 * 255,
    ;
}

impl Rgb {
    /// Channel-wise multiplication, scaled so that 255 acts as identity.
    pub open spec fn spec_mul(self, o: Rgb) -> Rgb {
        Rgb {
            r: ((self.r * o.r) / 255) as u8,
            g: ((self.g * o.g) / 255) as u8,
            b: ((self.b * o.b) / 255) as u8,
        }
    }

    /// Tint one color by another; white leaves the color unchanged.
    pub fn mul(self, o: Rgb) -> (c: Rgb)
        ensures
            c == self.spec_mul(o),
    {
        proof {
            lemma_channel_mul_bounds(self.r as int, o.r as int);
            lemma_channel_mul_bounds(self.g as int, o.g as int);
            lemma_channel_mul_bounds(self.b as int, o.b as int);
        }
        Rgb {
            r: ((self.r as u32 * o.r as u32) / 255) as u8,
            g: ((self.g as u32 * o.g as u32) / 255) as u8,
            b: ((self.b as u32 * o.b as u32) / 255) as u8,
        }
    }
}

pub fn white() -> (c: Rgb)
    ensures
        c == (Rgb { r: 255, g: 255, b: 255 }),
{
    Rgb { r: 255, g: 255, b: 255 }
}

pub fn yellow() -> (c: Rgb)
    ensures
        c == (Rgb { r: 255, g: 255, b: 0 }),
{
    Rgb { r: 255, g: 255, b: 0 }
}

pub fn dark_grey() -> (c: Rgb)
    ensures
        c == (Rgb { r: 95, g: 95, b: 95 }),
{
    Rgb { r: 95, g: 95, b: 95 }
}

pub fn lighter_grey() -> (c: Rgb)
    ensures
        c == (Rgb { r: 223, g: 223, b: 223 }),
{
    Rgb { r: 223, g: 223, b: 223 }
}

pub fn dark_red() -> (c: Rgb)
    ensures
        c == (Rgb { r: 191, g: 0, b: 0 }),
{
    Rgb { r: 191, g: 0, b: 0 }
}

} // verus!
