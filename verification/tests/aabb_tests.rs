use partyarty::aabb::{hit_aabb, surrounding_box, Slab, AABB};
use partyarty::scalar::Scalar;

fn s(x: f32) -> Scalar {
    Scalar::from_bits(x.to_bits())
}

fn f(x: Scalar) -> f32 {
    f32::from_bits(x.to_bits())
}

fn boxed(min: [f32; 3], max: [f32; 3]) -> AABB {
    AABB::new(s(min[0]), s(min[1]), s(min[2]), s(max[0]), s(max[1]), s(max[2]))
}

fn slabs(min: [f32; 3], max: [f32; 3], origin: [f32; 3], direction: [f32; 3]) -> [Slab; 3] {
    let mut out = [Slab::new(s(0.0), s(0.0), s(0.0)); 3];
    for a in 0..3 {
        let inv_d = 1.0 / direction[a];
        let t0 = (min[a] - origin[a]) * inv_d;
        let t1 = (max[a] - origin[a]) * inv_d;
        out[a] = Slab::new(s(t0), s(t1), s(inv_d));
    }
    out
}

#[test]
fn ray_against_the_axis_hits_the_unit_box() {
    let sl = slabs([0.0; 3], [1.0; 3], [2.0, 0.5, 0.5], [-1.0, 0.0, 0.0]);
    assert!(hit_aabb(&sl, s(0.0), s(10.0)));
}

#[test]
fn mirrored_ray_along_the_axis_hits_the_unit_box() {
    let sl = slabs([0.0; 3], [1.0; 3], [-1.0, 0.5, 0.5], [1.0, 0.0, 0.0]);
    assert!(hit_aabb(&sl, s(0.0), s(10.0)));
}

#[test]
fn exchanged_planes_with_flipped_sign_give_the_same_answer() {
    let cases: Vec<([f32; 3], [f32; 3])> = vec![
        ([2.0, 0.5, 0.5], [-1.0, 0.0, 0.0]),
        ([2.0, 0.5, 0.5], [1.0, 0.0, 0.0]),
        ([-3.0, -3.0, -3.0], [1.0, 1.0, 1.0]),
        ([0.5, 0.5, 5.0], [0.1, -0.2, -1.0]),
        ([0.5, 5.0, 0.5], [0.0, 1.0, 0.0]),
    ];
    for (origin, direction) in cases {
        let sl = slabs([0.0; 3], [1.0; 3], origin, direction);
        let mut mirrored = sl;
        for a in 0..3 {
            let flipped = if f(sl[a].inv_d) < 0.0 { 1.0 } else { -1.0 };
            mirrored[a] = Slab::new(sl[a].t1, sl[a].t0, s(flipped));
        }
        assert_eq!(hit_aabb(&sl, s(0.0), s(10.0)), hit_aabb(&mirrored, s(0.0), s(10.0)));
    }
}

#[test]
fn ray_pointing_away_misses() {
    let sl = slabs([0.0; 3], [1.0; 3], [2.0, 0.5, 0.5], [1.0, 0.0, 0.0]);
    assert!(!hit_aabb(&sl, s(0.0), s(10.0)));
}

#[test]
fn ray_beside_the_box_misses() {
    let sl = slabs([0.0; 3], [1.0; 3], [2.0, 1.5, 0.5], [-1.0, 0.0, 0.0]);
    assert!(!hit_aabb(&sl, s(0.0), s(10.0)));
}

#[test]
fn box_beyond_the_interval_is_missed() {
    let sl = slabs([0.0; 3], [1.0; 3], [2.0, 0.5, 0.5], [-1.0, 0.0, 0.0]);
    assert!(!hit_aabb(&sl, s(0.0), s(0.5)));
    assert!(!hit_aabb(&sl, s(2.5), s(10.0)));
    assert!(hit_aabb(&sl, s(1.5), s(10.0)));
}

#[test]
fn interval_is_narrowed_from_axis_to_axis() {
    // On x the ray is inside for t in [0, 1], on y for t in [2, 3]: never in
    // both, though each axis alone overlaps [0, 10].
    let sl = [
        Slab::new(s(0.0), s(1.0), s(1.0)),
        Slab::new(s(2.0), s(3.0), s(1.0)),
        Slab::new(s(f32::NEG_INFINITY), s(f32::INFINITY), s(f32::INFINITY)),
    ];
    assert!(!hit_aabb(&sl, s(0.0), s(10.0)));
}

#[test]
fn zero_direction_on_a_face_is_tolerated() {
    // The origin lies on the plane y = 0 and the direction has no y part:
    // the crossing is 0 * infinity, a NaN, which leaves the interval alone.
    let sl = slabs([0.0; 3], [1.0; 3], [2.0, 0.0, 0.5], [-1.0, 0.0, 0.0]);
    assert!(f(sl[1].t0).is_nan());
    assert!(hit_aabb(&sl, s(0.0), s(10.0)));
}

#[test]
fn touching_interval_counts_as_empty() {
    let sl = [
        Slab::new(s(1.0), s(1.0), s(1.0)),
        Slab::new(s(0.0), s(5.0), s(1.0)),
        Slab::new(s(0.0), s(5.0), s(1.0)),
    ];
    assert!(!hit_aabb(&sl, s(0.0), s(10.0)));
}

#[test]
fn union_takes_least_and_greatest_corner() {
    let a = boxed([0.0, -1.0, 2.0], [1.0, 1.0, 3.0]);
    let b = boxed([-2.0, 0.0, 2.5], [0.5, 4.0, 2.75]);
    let u = surrounding_box(&a, &b);
    assert_eq!(u, boxed([-2.0, -1.0, 2.0], [1.0, 4.0, 3.0]));
}

#[test]
fn union_contains_sampled_points_of_both() {
    let a = boxed([0.0, -1.0, 2.0], [1.0, 1.0, 3.0]);
    let b = boxed([-2.0, 0.0, 2.5], [0.5, 4.0, 2.75]);
    let u = surrounding_box(&a, &b);
    for which in [a, b].iter() {
        for i in 0..=4 {
            for j in 0..=4 {
                for k in 0..=4 {
                    let p = [
                        f(which.min.x) + (f(which.max.x) - f(which.min.x)) * (i as f32) / 4.0,
                        f(which.min.y) + (f(which.max.y) - f(which.min.y)) * (j as f32) / 4.0,
                        f(which.min.z) + (f(which.max.z) - f(which.min.z)) * (k as f32) / 4.0,
                    ];
                    assert!(f(u.min.x) <= p[0] && p[0] <= f(u.max.x));
                    assert!(f(u.min.y) <= p[1] && p[1] <= f(u.max.y));
                    assert!(f(u.min.z) <= p[2] && p[2] <= f(u.max.z));
                }
            }
        }
    }
}

#[test]
fn default_box_is_the_origin() {
    let d = AABB::default();
    assert_eq!(d, boxed([0.0; 3], [0.0; 3]));
}
