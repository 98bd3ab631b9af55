//! Axis-aligned bounding boxes: the slab test and the union of two boxes.

use vstd::prelude::*;
use crate::scalar::Scalar;
use crate::vector::Vec3;

verus! {

/// A box whose faces are perpendicular to the axes, given by its least and
/// greatest corner.
#[derive(Clone, Copy, Debug, PartialEq, Eq, Structural)]
pub struct AABB {
    pub min: Vec3,
    pub max: Vec3,
}

/// Where a ray meets the two planes that bound a box on one axis.
///
/// `t0` is the ray parameter at the plane through the least corner, `t1` the
/// one at the plane through the greatest corner, and `inv_d` the reciprocal of
/// the ray's direction on that axis. With a direction of zero the parameters
/// are infinite, or NaN where the origin lies on the plane.
#[derive(Clone, Copy, Debug, PartialEq, Eq, Structural)]
pub struct Slab {
    pub t0: Scalar,
    pub t1: Scalar,
    pub inv_d: Scalar,
}

impl Slab {
    /// The ray runs against the axis: the reciprocal direction is below zero.
    pub open spec fn reversed(self) -> bool {
        !self.inv_d.is_nan() && self.inv_d.rank() < 0
    }

    /// The parameter at which the ray enters the slab.
    pub open spec fn near(self) -> Scalar {
        if self.reversed() {
            self.t1
        } else {
            self.t0
        }
    }

    /// The parameter at which the ray leaves the slab.
    pub open spec fn far(self) -> Scalar {
        if self.reversed() {
            self.t0
        } else {
            self.t1
        }
    }

    /// The same crossing seen with the direction's sign flipped and the two
    /// planes exchanged.
    pub open spec fn mirrors(self, other: Slab) -> bool {
        &&& self.t0 == other.t1
        &&& self.t1 == other.t0
        &&& self.reversed() != other.reversed()
    }

    pub fn new(t0: Scalar, t1: Scalar, inv_d: Scalar) -> (s: Slab)
        ensures
            s.t0 == t0,
            s.t1 == t1,
            s.inv_d == inv_d,
    {
        Slab { t0, t1, inv_d }
    }
}

/// The interval `[lo, hi]` cut down to the part inside one slab.
pub open spec fn narrowed(lo: Scalar, hi: Scalar, slab: Slab) -> (Scalar, Scalar) {
    (lo.max_of(slab.near()), hi.min_of(slab.far()))
}

/// An interval is empty when its lower end is at or above its upper end.
pub open spec fn interval_empty(lo: Scalar, hi: Scalar) -> bool {
    hi.le(lo)
}

/// The slab test: a ray meets a box within `[t_min, t_max]` when the interval,
/// narrowed by the three slabs one after the other, is empty at no step.
pub open spec fn slabs_overlap(x: Slab, y: Slab, z: Slab, t_min: Scalar, t_max: Scalar) -> bool {
    let a = narrowed(t_min, t_max, x);
    let b = narrowed(a.0, a.1, y);
    let c = narrowed(b.0, b.1, z);
    !interval_empty(a.0, a.1) && !interval_empty(b.0, b.1) && !interval_empty(c.0, c.1)
}

impl AABB {
    /// No coordinate is a NaN, and on every axis the least corner is not
    /// above the greatest. A box with both corners equal is valid.
    pub open spec fn is_valid(self) -> bool {
        &&& self.min.is_numeric()
        &&& self.max.is_numeric()
        &&& self.min.x.rank() <= self.max.x.rank()
        &&& self.min.y.rank() <= self.max.y.rank()
        &&& self.min.z.rank() <= self.max.z.rank()
    }

    /// The point lies in the box: on every axis between the two corners.
    pub open spec fn contains(self, p: Vec3) -> bool {
        &&& self.min.x.le(p.x) && p.x.le(self.max.x)
        &&& self.min.y.le(p.y) && p.y.le(self.max.y)
        &&& self.min.z.le(p.z) && p.z.le(self.max.z)
    }

    /// Every point of `inner` lies in the box.
    pub open spec fn encloses(self, inner: AABB) -> bool {
        &&& self.min.x.rank() <= inner.min.x.rank() && inner.max.x.rank() <= self.max.x.rank()
        &&& self.min.y.rank() <= inner.min.y.rank() && inner.max.y.rank() <= self.max.y.rank()
        &&& self.min.z.rank() <= inner.min.z.rank() && inner.max.z.rank() <= self.max.z.rank()
    }

    /// The least box that holds both: on every axis the smaller of the least
    /// corners and the larger of the greatest.
    pub open spec fn union(self, other: AABB) -> AABB {
        AABB {
            min: Vec3 {
                x: self.min.x.min_of(other.min.x),
                y: self.min.y.min_of(other.min.y),
                z: self.min.z.min_of(other.min.z),
            },
            max: Vec3 {
                x: self.max.x.max_of(other.max.x),
                y: self.max.y.max_of(other.max.y),
                z: self.max.z.max_of(other.max.z),
            },
        }
    }

    pub fn new(x0: Scalar, y0: Scalar, z0: Scalar, x1: Scalar, y1: Scalar, z1: Scalar) -> (b: AABB)
        ensures
            b.min == (Vec3 { x: x0, y: y0, z: z0 }),
            b.max == (Vec3 { x: x1, y: y1, z: z1 }),
    {
        AABB { min: Vec3::new(x0, y0, z0), max: Vec3::new(x1, y1, z1) }
    }
}

impl Default for AABB {
    /// The box that is the single point at the origin.
    fn default() -> (b: AABB)
        ensures
            b.min == (Vec3 { x: Scalar { bits: 0 }, y: Scalar { bits: 0 }, z: Scalar { bits: 0 } }),
            b.max == b.min,
            b.is_valid(),
    {
        AABB { min: Vec3::zero(), max: Vec3::zero() }
    }
}

/// Narrows `[lo, hi]` by one slab.
fn narrow(lo: Scalar, hi: Scalar, slab: &Slab) -> (r: (Scalar, Scalar))
    ensures
        r == narrowed(lo, hi, *slab),
{
    let mut t0 = slab.t0;
    let mut t1 = slab.t1;
    if slab.inv_d.is_negative() {
        let temp = t0;
        t0 = t1;
        t1 = temp;
    }
    (lo.max(t0), hi.min(t1))
}

/// Whether a ray meets a box for some parameter in `[t_min, t_max]`, decided
/// from the ray's crossings of the box's three slabs, in the order x, y, z.
///
/// Each slab's crossings are put in order (exchanged where the ray runs
/// against the axis) and cut the interval down; the answer is no as soon as the
/// interval is empty. A direction of zero on an axis needs no special case: its
/// crossings are infinite, and a NaN crossing leaves the interval as it was.
pub fn hit_aabb(slabs: &[Slab; 3], t_min: Scalar, t_max: Scalar) -> (hit: bool)
    ensures
        hit == slabs_overlap(slabs@[0], slabs@[1], slabs@[2], t_min, t_max),
{
    let mut lo = t_min;
    let mut hi = t_max;
    let mut a: usize = 0;
    while a < 3
        invariant
            a <= 3,
            a == 0 ==> lo == t_min && hi == t_max,
            a == 1 ==> (lo, hi) == narrowed(t_min, t_max, slabs@[0]),
            a == 2 ==> (lo, hi) == narrowed(
                narrowed(t_min, t_max, slabs@[0]).0,
                narrowed(t_min, t_max, slabs@[0]).1,
                slabs@[1],
            ),
            a >= 1 ==> !interval_empty(
                narrowed(t_min, t_max, slabs@[0]).0,
                narrowed(t_min, t_max, slabs@[0]).1,
            ),
            a >= 2 ==> !interval_empty(lo, hi),
            a == 3 ==> slabs_overlap(slabs@[0], slabs@[1], slabs@[2], t_min, t_max),
        decreases 3 - a,
    {
        let (l, h) = narrow(lo, hi, &slabs[a]);
        if h.less_eq(&l) {
            return false;
        }
        lo = l;
        hi = h;
        a = a + 1;
    }
    true
}

/// The least box that holds both boxes.
pub fn surrounding_box(box0: &AABB, box1: &AABB) -> (b: AABB)
    ensures
        b == box0.union(*box1),
{
    AABB::new(
        box0.min.x.min(box1.min.x),
        box0.min.y.min(box1.min.y),
        box0.min.z.min(box1.min.z),
        box0.max.x.max(box1.max.x),
        box0.max.y.max(box1.max.y),
        box0.max.z.max(box1.max.z),
    )
}

/// The slab test does not depend on the side from which a slab is seen: with
/// the sign of the direction flipped and the two planes exchanged, on any of
/// the axes, the answer is the same.
pub proof fn lemma_hit_mirror_symmetric(
    x: Slab,
    y: Slab,
    z: Slab,
    mx: Slab,
    my: Slab,
    mz: Slab,
    t_min: Scalar,
    t_max: Scalar,
)
    requires
        mx == x || mx.mirrors(x),
        my == y || my.mirrors(y),
        mz == z || mz.mirrors(z),
    ensures
        slabs_overlap(mx, my, mz, t_min, t_max) == slabs_overlap(x, y, z, t_min, t_max),
{
    assert(narrowed(t_min, t_max, mx) == narrowed(t_min, t_max, x));
    let a = narrowed(t_min, t_max, x);
    assert(narrowed(a.0, a.1, my) == narrowed(a.0, a.1, y));
    let b = narrowed(a.0, a.1, y);
    assert(narrowed(b.0, b.1, mz) == narrowed(b.0, b.1, z));
}

/// The union of two valid boxes is valid, encloses both, and so contains
/// every point that either of them contains.
pub proof fn lemma_union_contains(a: AABB, b: AABB, p: Vec3)
    requires
        a.is_valid(),
        b.is_valid(),
    ensures
        a.union(b).is_valid(),
        a.union(b).encloses(a),
        a.union(b).encloses(b),
        a.contains(p) || b.contains(p) ==> a.union(b).contains(p),
{
}

/// Enclosure is transitive, and a valid box encloses itself.
pub proof fn lemma_encloses_transitive(a: AABB, b: AABB, c: AABB)
    ensures
        a.encloses(a),
        a.encloses(b) && b.encloses(c) ==> a.encloses(c),
{
}

} // verus!
