//! What belongs to a pixel and to an object of the scene.

use vstd::prelude::*;
use crate::color::Colorf32;
use crate::scalar::Scalar;
use crate::vector::Vec3;

verus! {

/// A place in the image: column `x`, row `y`, the first row at the top.
#[derive(Clone, Copy, Debug, PartialEq, Eq, Structural)]
pub struct Vec2u {
    pub x: usize,
    pub y: usize,
}

impl Vec2u {
    pub fn new(x: usize, y: usize) -> (v: Vec2u)
        ensures
            v == (Vec2u { x, y }),
    {
        Vec2u { x, y }
    }
}

/// Where a pixel lies in the image.
#[derive(Clone, Copy, Debug, PartialEq, Eq, Structural)]
pub struct PixelPosition(pub Vec2u);

pub fn pixel_position(x: usize, y: usize) -> (p: PixelPosition)
    ensures
        p.0 == (Vec2u { x, y }),
{
    PixelPosition(Vec2u::new(x, y))
}

/// The light gathered by a pixel: the sum of its samples.
#[derive(Clone, Copy, Debug, PartialEq, Eq, Structural)]
pub struct PixelColor(pub Colorf32);

pub fn pixel_color(r: Scalar, g: Scalar, b: Scalar, a: Scalar) -> (c: PixelColor)
    ensures
        c.0 == (Colorf32 { r, g, b, a }),
{
    PixelColor(Colorf32::new(r, g, b, a))
}

/// How many samples a pixel has gathered.
#[derive(Clone, Copy, Debug, PartialEq, Eq, Structural)]
pub struct SampleCount(pub u64);

/// Where an object lies in space.
#[derive(Clone, Copy, Debug, PartialEq, Eq, Structural)]
pub struct Position(pub Vec3);

pub fn position(x: Scalar, y: Scalar, z: Scalar) -> (p: Position)
    ensures
        p.0 == (Vec3 { x, y, z }),
{
    Position(Vec3::new(x, y, z))
}

} // verus!
