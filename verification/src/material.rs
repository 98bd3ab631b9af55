//! Surfaces: what becomes of a ray that strikes one.
//!
//! The directions in which a ray may go on, and the reflectance of a glass
//! surface, are arithmetic that the caller does. What is decided here is which
//! of them the ray takes, or that it is absorbed.

use vstd::prelude::*;
use crate::hitable::HitRecord;
use crate::ray::Ray;
use crate::scalar::Scalar;
use crate::vector::Vec3;

verus! {

/// The bit pattern of the number one.
pub const ONE_BITS: u32 = 0x3f80_0000;

/// A matt surface, which scatters light in all directions and tints it.
#[derive(Clone, Copy, Debug, PartialEq, Eq, Structural)]
pub struct Lambertian {
    pub albedo: Vec3,
}

/// A mirror, sharp with a `fuzz` of zero and the duller the nearer to one.
#[derive(Clone, Copy, Debug, PartialEq, Eq, Structural)]
pub struct Metal {
    pub albedo: Vec3,
    pub fuzz: Scalar,
}

/// Glass and the like, which lets light through and bends it.
#[derive(Clone, Copy, Debug, PartialEq, Eq, Structural)]
pub struct Dielectric {
    pub ref_idx: Scalar,
}

/// The surface of an object.
#[derive(Clone, Copy, Debug, PartialEq, Eq, Structural)]
pub enum Material {
    Dielectric(Dielectric),
    Lambertian(Lambertian),
    Metal(Metal),
}

pub fn lambertian(albedo: Vec3) -> (m: Material)
    ensures
        m == Material::Lambertian(Lambertian { albedo }),
{
    Material::Lambertian(Lambertian { albedo })
}

pub fn metal(albedo: Vec3, fuzz: Scalar) -> (m: Material)
    ensures
        m == Material::Metal(Metal { albedo, fuzz }),
{
    Material::Metal(Metal { albedo, fuzz })
}

pub fn dielectric(ref_idx: Scalar) -> (m: Material)
    ensures
        m == Material::Dielectric(Dielectric { ref_idx }),
{
    Material::Dielectric(Dielectric { ref_idx })
}

/// The ways on that the caller has worked out for a ray at a hit, by the kind
/// of surface.
#[derive(Clone, Copy, Debug, PartialEq, Eq, Structural)]
pub enum Scattering {
    /// For a matt surface: the normal plus a random point of the unit ball.
    Diffuse { direction: Vec3 },
    /// For a mirror: the reflection of the incoming direction, moved by `fuzz`
    /// times a random point of the unit ball, and the dot product of that
    /// direction with the normal.
    Specular { direction: Vec3, facing: Scalar },
    /// For glass: the reflection of the incoming direction; its refraction,
    /// which is `None` on total internal reflection; the reflectance of the
    /// surface at this angle; and a number drawn uniformly from zero to one.
    Refractive { reflected: Vec3, refracted: Option<Vec3>, reflectance: Scalar, draw: Scalar },
}

/// White: glass does not tint what passes.
pub open spec fn white() -> Vec3 {
    Vec3 {
        x: Scalar { bits: ONE_BITS },
        y: Scalar { bits: ONE_BITS },
        z: Scalar { bits: ONE_BITS },
    }
}

/// Of glass: the ray is reflected when it cannot be refracted, or when the
/// reflectance exceeds the number drawn; else it is refracted.
pub open spec fn glass_direction(
    reflected: Vec3,
    refracted: Option<Vec3>,
    reflectance: Scalar,
    draw: Scalar,
) -> Vec3 {
    match refracted {
        Some(through) => if draw.lt(reflectance) {
            reflected
        } else {
            through
        },
        None => reflected,
    }
}

/// The tint and the ray with which light goes on from a hit, or `None` where
/// it is absorbed.
///
/// A matt surface always scatters, with its albedo. A mirror scatters with its
/// albedo if the new direction points away from the surface (its dot product
/// with the normal is above zero), and absorbs otherwise. Glass always
/// scatters, untinted. A hit without a surface, or ways on that were worked
/// out for another kind of surface, give `None`.
pub open spec fn scattered(rec: HitRecord, ways: Scattering) -> Option<(Vec3, Ray)> {
    match (rec.material, ways) {
        (Some(Material::Lambertian(m)), Scattering::Diffuse { direction }) => Some(
            (m.albedo, Ray { origin: rec.p, direction }),
        ),
        (Some(Material::Metal(m)), Scattering::Specular { direction, facing }) => if !facing.is_nan()
            && facing.rank() > 0 {
            Some((m.albedo, Ray { origin: rec.p, direction }))
        } else {
            None
        },
        (
            Some(Material::Dielectric(_)),
            Scattering::Refractive { reflected, refracted, reflectance, draw },
        ) => Some(
            (
                white(),
                Ray {
                    origin: rec.p,
                    direction: glass_direction(reflected, refracted, reflectance, draw),
                },
            ),
        ),
        _ => None,
    }
}

/// Whether a ray that strikes glass is leaving the object: its direction has
/// a dot product above zero with the outward normal. A ray that is not
/// leaving is entering.
pub fn leaves_surface(direction_dot_normal: Scalar) -> (leaving: bool)
    ensures
        leaving == (!direction_dot_normal.is_nan() && direction_dot_normal.rank() > 0),
{
    direction_dot_normal.is_positive()
}

/// Whether a ray can pass through a glass surface at its angle: the
/// discriminant of the law of refraction is above zero. Where it is not, the
/// ray is reflected back inside.
pub fn refracts(discriminant: Scalar) -> (passes: bool)
    ensures
        passes == (!discriminant.is_nan() && discriminant.rank() > 0),
{
    discriminant.is_positive()
}

/// Whether a point lies inside the unit ball, or in the plane inside the unit
/// disk: the square of its length is below one. A random point of the ball is
/// had by drawing points of the cube about it until one lies inside.
pub fn in_unit_ball(length_squared: Scalar) -> (inside: bool)
    ensures
        inside == length_squared.lt(Scalar { bits: ONE_BITS }),
{
    length_squared.less(&Scalar::from_bits(ONE_BITS))
}

/// Decides how light goes on from a hit: see `scattered`.
pub fn scatter(rec: &HitRecord, ways: &Scattering) -> (out: Option<(Vec3, Ray)>)
    ensures
        out == scattered(*rec, *ways),
{
    match rec.material {
        Some(Material::Lambertian(m)) => match ways {
            Scattering::Diffuse { direction } => Some((m.albedo, Ray::new(rec.p, *direction))),
            _ => None,
        },
        Some(Material::Metal(m)) => match ways {
            Scattering::Specular { direction, facing } => {
                if facing.is_positive() {
                    Some((m.albedo, Ray::new(rec.p, *direction)))
                } else {
                    None
                }
            },
            _ => None,
        },
        Some(Material::Dielectric(_)) => match ways {
            Scattering::Refractive { reflected, refracted, reflectance, draw } => {
                let attenuation = Vec3::new(
                    Scalar::from_bits(ONE_BITS),
                    Scalar::from_bits(ONE_BITS),
                    Scalar::from_bits(ONE_BITS),
                );
                match refracted {
                    Some(through) => {
                        if reflectance.greater(draw) {
                            Some((attenuation, Ray::new(rec.p, *reflected)))
                        } else {
                            Some((attenuation, Ray::new(rec.p, *through)))
                        }
                    },
                    None => Some((attenuation, Ray::new(rec.p, *reflected))),
                }
            },
            _ => None,
        },
        None => None,
    }
}

} // verus!
