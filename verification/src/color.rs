//! Colours: accumulated light as four numbers, and the eight-bit colour that
//! is shown.

use vstd::prelude::*;
use crate::scalar::Scalar;

verus! {

/// Light in red, green, blue and alpha, one number each. Sums of samples are
/// kept in this form.
#[derive(Clone, Copy, Debug, PartialEq, Eq, Structural)]
pub struct Colorf32 {
    pub r: Scalar,
    pub g: Scalar,
    pub b: Scalar,
    pub a: Scalar,
}

impl Colorf32 {
    pub fn new(r: Scalar, g: Scalar, b: Scalar, a: Scalar) -> (c: Colorf32)
        ensures
            c == (Colorf32 { r, g, b, a }),
    {
        Colorf32 { r, g, b, a }
    }
}

impl Default for Colorf32 {
    /// Positive zero in every channel.
    fn default() -> (c: Colorf32)
        ensures
            c.r.bits == 0,
            c.g.bits == 0,
            c.b.bits == 0,
            c.a.bits == 0,
    {
        Colorf32 { r: Scalar::zero(), g: Scalar::zero(), b: Scalar::zero(), a: Scalar::zero() }
    }
}

/// A colour quantised to eight bits per channel.
#[derive(Clone, Copy, Debug, PartialEq, Eq, Structural)]
pub struct Coloru8 {
    pub r: u8,
    pub g: u8,
    pub b: u8,
    pub a: u8,
}

impl Coloru8 {
    /// The colour as one number: alpha in the top byte, then red, green, and
    /// blue in the lowest.
    pub open spec fn packed(self) -> int {
        self.a * 0x100_0000 + self.r * 0x1_0000 + self.g * 0x100 + self.b
    }

    pub fn new(r: u8, g: u8, b: u8, a: u8) -> (c: Coloru8)
        ensures
            c == (Coloru8 { r, g, b, a }),
    {
        Coloru8 { r, g, b, a }
    }

    /// The four channels in the order alpha, red, green, blue.
    pub fn as_argb8888(&self) -> (c: (u8, u8, u8, u8))
        ensures
            c == (self.a, self.r, self.g, self.b),
    {
        (self.a, self.r, self.g, self.b)
    }
}

impl From<Coloru8> for u32 {
    /// Packs the colour into one number: see `Coloru8::packed`.
    fn from(color: Coloru8) -> (n: u32)
        ensures
            n == color.packed(),
    {
        let a: u32 = color.a as u32;
        let r: u32 = color.r as u32;
        let g: u32 = color.g as u32;
        let b: u32 = color.b as u32;
        assert(((a << 24) | (r << 16) | (g << 8) | b) == a * 0x100_0000 + r * 0x1_0000 + g * 0x100
            + b) by (bit_vector)
            requires
                a < 256,
                r < 256,
                g < 256,
                b < 256,
        ;
        (a << 24) | (r << 16) | (g << 8) | b
    }
}

impl vstd::std_specs::convert::FromSpecImpl<Coloru8> for u32 {
    open spec fn obeys_from_spec() -> bool {
        true
    }

    open spec fn from_spec(color: Coloru8) -> u32 {
        color.packed() as u32
    }
}

/// Packing loses nothing: each channel can be read back from the number.
pub proof fn lemma_packed_channels(color: Coloru8)
    ensures
        0 <= color.packed() <= u32::MAX,
        color.packed() / 0x100_0000 == color.a,
        (color.packed() / 0x1_0000) % 0x100 == color.r,
        (color.packed() / 0x100) % 0x100 == color.g,
        color.packed() % 0x100 == color.b,
{
}

} // verus!
