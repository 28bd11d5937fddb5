use vstd::prelude::*;

verus! {

/// One pixel: three 8-bit channels, red, green and blue, no alpha.
#[derive(Clone, Copy, Debug, PartialEq, Eq, Structural)]
pub struct Pixl {
    pub r: u8,
    pub g: u8,
    pub b: u8,
}

/// The reserved marker color: filters and glyphs draw with it, and
/// `set_color` replaces it at export time.
pub open spec fn marker() -> Pixl {
    Pixl { r: 0, g: 0, b: 0 }
}

/// The background color every canvas starts from.
pub open spec fn background() -> Pixl {
    Pixl { r: 255, g: 255, b: 255 }
}

/// The channel-wise inversion of a pixel.
pub open spec fn inverted(p: Pixl) -> Pixl {
    Pixl { r: (255 - p.r) as u8, g: (255 - p.g) as u8, b: (255 - p.b) as u8 }
}

impl Pixl {
    pub fn new(r: u8, g: u8, b: u8) -> (p: Pixl)
        ensures
            p == (Pixl { r, g, b }),
    {
        Pixl { r, g, b }
    }

    pub fn black() -> (p: Pixl)
        ensures
            p == marker(),
    {
        Pixl { r: 0, g: 0, b: 0 }
    }

    pub fn red() -> (p: Pixl)
        ensures
            p == (Pixl { r: 255, g: 0, b: 0 }),
    {
        Pixl { r: 255, g: 0, b: 0 }
    }

    pub fn white() -> (p: Pixl)
        ensures
            p == background(),
    {
        Pixl { r: 255, g: 255, b: 255 }
    }

    /// Replaces each channel `v` by `255 - v`.
    pub fn invert(&mut self)
        ensures
            *final(self) == inverted(*old(self)),
    {
        self.r = 255 - self.r;
        self.g = 255 - self.g;
        self.b = 255 - self.b;
    }
}

/// Inverting a pixel twice gives the pixel back.
pub proof fn lemma_invert_involutive(p: Pixl)
    ensures
        inverted(inverted(p)) == p,
{
}

} // verus!
