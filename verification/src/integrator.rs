//! The path integrator's decisions: what a ray's light is made of, bounce
//! after bounce.
//!
//! A ray that strikes nothing sees the sky. A ray that strikes a surface
//! either goes on as the surface scatters it, its light tinted by the surface,
//! or ends in black: where the surface absorbs it, and where it has bounced as
//! often as a path may.

use vstd::prelude::*;
use crate::scalar::{Scalar, INFINITY_BITS};

verus! {

/// How often a path may bounce.
pub const MAX_DEPTH: u32 = 50;

/// The bit pattern of a thousandth, the least distance at which a strike
/// counts: nearer than that, a ray would strike the surface that it has just
/// left.
pub const MIN_DISTANCE_BITS: u32 = 0x3a83_126f;

/// What a ray contributes.
#[derive(Clone, Copy, Debug, PartialEq, Eq, Structural)]
pub enum Radiance {
    /// The colour of the sky in the ray's direction.
    Sky,
    /// Nothing.
    Black,
    /// What the scattered ray contributes, tinted by the surface; the
    /// scattered ray has the given number of bounces behind it.
    Follow { depth: u32 },
}

/// What a ray contributes, given how often the path has bounced before it,
/// whether the ray strikes anything, and whether what it strikes scatters it.
pub open spec fn radiance(depth: u32, struck: bool, scatters: bool) -> Radiance {
    if !struck {
        Radiance::Sky
    } else if depth < MAX_DEPTH && scatters {
        Radiance::Follow { depth: (depth + 1) as u32 }
    } else {
        Radiance::Black
    }
}

/// The interval of ray parameters in which strikes are looked for: from a
/// thousandth up, without an upper end.
pub fn search_interval() -> (bounds: (Scalar, Scalar))
    ensures
        bounds.0.bits == MIN_DISTANCE_BITS,
        bounds.1.bits == INFINITY_BITS,
        !bounds.0.is_nan(),
        !bounds.1.is_nan(),
        0 < bounds.0.rank() < bounds.1.rank(),
{
    (Scalar::from_bits(MIN_DISTANCE_BITS), Scalar::infinity())
}

/// Decides what a ray contributes: see `radiance`. A path is followed only
/// while it has bounced fewer than `MAX_DEPTH` times, so no ray has more than
/// that many bounces behind it.
pub fn color(depth: u32, struck: bool, scatters: bool) -> (out: Radiance)
    ensures
        out == radiance(depth, struck, scatters),
        out matches Radiance::Follow { depth: next } ==> next == depth + 1 && next <= MAX_DEPTH,
{
    if !struck {
        Radiance::Sky
    } else if depth < MAX_DEPTH && scatters {
        Radiance::Follow { depth: depth + 1 }
    } else {
        Radiance::Black
    }
}

} // verus!
