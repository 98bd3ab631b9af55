//! Objects a ray can strike, and the record of a strike.

use vstd::prelude::*;
use crate::material::Material;
use crate::scalar::Scalar;
use crate::vector::Vec3;

verus! {

/// Where and how a ray struck an object.
///
/// `t` is the ray parameter of the strike, `p` the point, `normal` the unit
/// normal of the surface there. The surface and the object's id are filled in
/// by whoever knows them.
#[derive(Clone, Copy, Debug, PartialEq, Eq, Structural)]
pub struct HitRecord {
    pub t: Scalar,
    pub p: Vec3,
    pub normal: Vec3,
    pub material: Option<Material>,
    pub entity: Option<u32>,
}

impl HitRecord {
    /// A record that names no object yet.
    pub fn new(t: Scalar, p: Vec3, normal: Vec3, material: Option<Material>) -> (rec: HitRecord)
        ensures
            rec == (HitRecord { t, p, normal, material, entity: None }),
    {
        HitRecord { t, p, normal, material, entity: None }
    }
}

/// A sphere about the position of the object that it belongs to.
///
/// A radius below zero gives a sphere whose normals point inwards, which makes
/// the inside of a hollow shell.
#[derive(Clone, Copy, Debug, PartialEq, Eq, Structural)]
pub struct Sphere {
    pub radius: Scalar,
}

/// The shape of an object.
#[derive(Clone, Copy, Debug, PartialEq, Eq, Structural)]
pub enum Hitable {
    Sphere(Sphere),
}

pub fn sphere(radius: Scalar) -> (h: Hitable)
    ensures
        h == Hitable::Sphere(Sphere { radius }),
{
    Hitable::Sphere(Sphere { radius })
}

/// A ray against a sphere, as far as arithmetic goes: a quarter of the
/// discriminant of the quadratic in the ray parameter, and its two roots,
/// `near` the smaller. Without a positive discriminant the roots mean nothing.
#[derive(Clone, Copy, Debug, PartialEq, Eq, Structural)]
pub struct SphereRoots {
    pub discriminant: Scalar,
    pub near: Scalar,
    pub far: Scalar,
}

/// `t` lies strictly between the two bounds.
pub open spec fn strictly_inside(t: Scalar, t_min: Scalar, t_max: Scalar) -> bool {
    t_min.lt(t) && t.lt(t_max)
}

/// The root at which the ray strikes: with a discriminant above zero, the
/// smaller root if it lies strictly inside the bounds, else the larger if that
/// one does; in every other case none.
pub open spec fn struck_at(roots: SphereRoots, t_min: Scalar, t_max: Scalar) -> Option<Scalar> {
    if !(!roots.discriminant.is_nan() && roots.discriminant.rank() > 0) {
        None
    } else if strictly_inside(roots.near, t_min, t_max) {
        Some(roots.near)
    } else if strictly_inside(roots.far, t_min, t_max) {
        Some(roots.far)
    } else {
        None
    }
}

/// The ray parameter at which a ray strikes a sphere within `(t_min, t_max)`,
/// if it does: see `struck_at`. A strike is never a NaN.
pub fn hit(roots: &SphereRoots, t_min: Scalar, t_max: Scalar) -> (t: Option<Scalar>)
    ensures
        t == struck_at(*roots, t_min, t_max),
        t matches Some(at) ==> !at.is_nan() && strictly_inside(at, t_min, t_max),
{
    if roots.discriminant.is_positive() {
        let temp = roots.near;
        if t_min.less(&temp) && temp.less(&t_max) {
            return Some(temp);
        }
        let temp = roots.far;
        if t_min.less(&temp) && temp.less(&t_max) {
            return Some(temp);
        }
    }
    None
}

} // verus!
