use partyarty::aabb::{hit_aabb, Slab, AABB};
use partyarty::bvh::{build_bvh, bvh_node, BVHTree};
use partyarty::color::{Colorf32, Coloru8};
use partyarty::components::{position, Vec2u};
use partyarty::hitable::{hit, sphere, HitRecord, Hitable, SphereRoots};
use partyarty::integrator::{color, search_interval, Radiance};
use partyarty::material::{lambertian, scatter, Material, Scattering};
use partyarty::ray::Ray;
use partyarty::scalar::Scalar;
use partyarty::scene::{Entity, Scene};
use partyarty::systems::{PathTrace, PixelSample};
use partyarty::traversal::{hit_bvh_node, Probe, Reply, Traversal};
use partyarty::vector::Vec3;
use rand::rngs::StdRng;
use rand::{Rng, SeedableRng};

type V = [f32; 3];

fn s(x: f32) -> Scalar {
    Scalar::from_bits(x.to_bits())
}

fn f(x: Scalar) -> f32 {
    f32::from_bits(x.to_bits())
}

fn pack(p: V) -> Vec3 {
    Vec3::new(s(p[0]), s(p[1]), s(p[2]))
}

fn unpack(p: Vec3) -> V {
    [f(p.x), f(p.y), f(p.z)]
}

fn add(a: V, b: V) -> V {
    [a[0] + b[0], a[1] + b[1], a[2] + b[2]]
}

fn sub(a: V, b: V) -> V {
    [a[0] - b[0], a[1] - b[1], a[2] - b[2]]
}

fn scale(a: V, k: f32) -> V {
    [a[0] * k, a[1] * k, a[2] * k]
}

fn dot(a: V, b: V) -> f32 {
    a[0] * b[0] + a[1] * b[1] + a[2] * b[2]
}

fn unit(a: V) -> V {
    scale(a, 1.0 / dot(a, a).sqrt())
}

fn random_in_unit_sphere(rng: &mut StdRng) -> V {
    loop {
        let p = [
            2.0 * rng.gen::<f32>() - 1.0,
            2.0 * rng.gen::<f32>() - 1.0,
            2.0 * rng.gen::<f32>() - 1.0,
        ];
        if dot(p, p) < 1.0 {
            return p;
        }
    }
}

fn slabs(b: &AABB, r: &Ray) -> [Slab; 3] {
    let min = unpack(b.min);
    let max = unpack(b.max);
    let o = unpack(r.origin);
    let d = unpack(r.direction);
    let mut out = [Slab::new(s(0.0), s(0.0), s(0.0)); 3];
    for a in 0..3 {
        let inv_d = 1.0 / d[a];
        out[a] = Slab::new(s((min[a] - o[a]) * inv_d), s((max[a] - o[a]) * inv_d), s(inv_d));
    }
    out
}

fn strike(entity: &Entity, r: &Ray, t_min: Scalar, t_max: Scalar) -> Option<HitRecord> {
    let center = unpack(entity.position.unwrap().0);
    let Hitable::Sphere(shape) = entity.hitable.unwrap();
    let radius = f(shape.radius);
    let o = unpack(r.origin);
    let d = unpack(r.direction);
    let oc = sub(o, center);
    let a = dot(d, d);
    let b = dot(oc, d);
    let c = dot(oc, oc) - radius * radius;
    let disc = b * b - a * c;
    let roots = SphereRoots {
        discriminant: s(disc),
        near: s((-b - disc.sqrt()) / a),
        far: s((-b + disc.sqrt()) / a),
    };
    hit(&roots, t_min, t_max).map(|t| {
        let p = add(o, scale(d, f(t)));
        HitRecord::new(t, pack(p), pack(scale(sub(p, center), 1.0 / radius)), entity.material)
    })
}

struct World {
    scene: Scene,
    tree: BVHTree,
    root: usize,
}

fn nearest(world: &World, r: &Ray) -> Option<HitRecord> {
    let (t_min, t_max) = search_interval();
    let mut state = Traversal::start(world.root);
    let mut probe = state.probe;
    loop {
        let reply = match probe {
            Probe::Bounds(k) => {
                Reply::Bounds(hit_aabb(&slabs(&world.tree.nodes[k].aabb, r), t_min, t_max))
            }
            Probe::Object(k) => {
                let id = world.tree.nodes[k].entity.unwrap();
                Reply::Object(strike(&world.scene.get(id).unwrap(), r, t_min, t_max))
            }
            Probe::Finished => break,
        };
        probe = hit_bvh_node(&world.tree, &mut state, reply);
    }
    state.result()
}

fn sky(direction: V) -> V {
    let t = 0.5 * (unit(direction)[1] + 1.0);
    add(scale([1.0, 1.0, 1.0], 1.0 - t), scale([0.5, 0.7, 1.0], t))
}

fn ways(rec: &HitRecord, rng: &mut StdRng) -> Scattering {
    match rec.material {
        Some(Material::Lambertian(_)) => Scattering::Diffuse {
            direction: pack(add(unpack(rec.normal), random_in_unit_sphere(rng))),
        },
        _ => panic!("only matt surfaces here"),
    }
}

/// The light along a ray; the path is followed in a loop, its tint gathered
/// on the way.
fn radiance(world: &World, first: Ray, rng: &mut StdRng) -> V {
    let mut ray = first;
    let mut depth = 0;
    let mut tint = [1.0f32, 1.0, 1.0];
    loop {
        let found = nearest(world, &ray);
        let scattered = match &found {
            Some(rec) => scatter(rec, &ways(rec, rng)),
            None => None,
        };
        match color(depth, found.is_some(), scattered.is_some()) {
            Radiance::Sky => {
                let c = sky(unpack(ray.direction));
                return [tint[0] * c[0], tint[1] * c[1], tint[2] * c[2]];
            }
            Radiance::Black => return [0.0, 0.0, 0.0],
            Radiance::Follow { depth: next } => {
                let (attenuation, onward) = scattered.unwrap();
                let a = unpack(attenuation);
                tint = [tint[0] * a[0], tint[1] * a[1], tint[2] * a[2]];
                ray = onward;
                depth = next;
            }
        }
    }
}

fn luminance(sum: Colorf32, samples: u64) -> f32 {
    let n = samples as f32;
    0.2126 * f(sum.r) / n + 0.7152 * f(sum.g) / n + 0.0722 * f(sum.b) / n
}

fn shown(sum: V, samples: u64) -> Coloru8 {
    let n = samples as f32;
    Coloru8::new(
        (255.99 * (sum[0] / n).sqrt()) as u8,
        (255.99 * (sum[1] / n).sqrt()) as u8,
        (255.99 * (sum[2] / n).sqrt()) as u8,
        255,
    )
}

#[test]
fn matt_sphere_is_darker_than_the_sky_and_settles() {
    let width = 20usize;
    let height = 10usize;
    let mut scene = Scene::new();
    let ball = Entity::new(
        position(s(0.0), s(0.0), s(-1.0)),
        sphere(s(0.5)),
        lambertian(pack([0.5, 0.5, 0.5])),
    );
    assert_eq!(scene.create(ball), Some(0));
    let mut tree = BVHTree::default();
    for id in scene.renderable() {
        tree.nodes.push(bvh_node(
            AABB::new(s(-0.5), s(-0.5), s(-1.5), s(0.5), s(0.5), s(-0.5)),
            Some(id),
        ));
    }
    let n = tree.nodes.len();
    let root = build_bvh(&mut tree, 0, n).unwrap();
    let world = World { scene, tree, root };

    let mut places = Vec::new();
    for y in 0..height {
        for x in 0..width {
            places.push(Vec2u::new(x, y));
        }
    }
    let pixels = (width * height) as u64;
    let center = (5 * width + 10) as u32;
    let corner = 0u32;
    // A budget of a little over ten sweeps a frame, which stays as it is:
    // every frame is reported to have taken 99 hundredths of its time.
    let mut sched = PathTrace::new(width, height, &places, 10 * pixels + 11).unwrap();
    let mut rng = StdRng::seed_from_u64(1);
    let mut at_100 = None;
    let mut at_200 = None;
    let mut frames = 0;
    while at_200.is_none() {
        frames += 1;
        assert!(frames < 1_000);
        sched.begin_frame(100, Some(99));
        loop {
            let batch = sched.next_batch();
            if batch.is_empty() {
                break;
            }
            let mut results = Vec::new();
            for id in batch.iter() {
                let item = sched.pixel(*id).unwrap();
                let place = sched.plane_position(*id).unwrap();
                let u = (place.x as f32 + rng.gen::<f32>()) / width as f32;
                let v = (place.y as f32 + rng.gen::<f32>()) / height as f32;
                let direction = add(add([-2.0, -1.0, -1.0], scale([4.0, 0.0, 0.0], u)), scale([0.0, 2.0, 0.0], v));
                let ray = Ray::new(pack([0.0, 0.0, 0.0]), pack(direction));
                let light = radiance(&world, ray, &mut rng);
                let sum = [
                    f(item.color.r) + light[0],
                    f(item.color.g) + light[1],
                    f(item.color.b) + light[2],
                ];
                results.push(PixelSample {
                    color: Colorf32::new(s(sum[0]), s(sum[1]), s(sum[2]), s(f(item.color.a) + 1.0)),
                    shown: shown(sum, item.samples + 1),
                });
            }
            assert!(sched.finish_batch(&results));
            let here = sched.pixel(center).unwrap();
            if here.samples == 100 && at_100.is_none() {
                at_100 = Some(luminance(here.color, here.samples));
            }
            if here.samples == 200 && at_200.is_none() {
                at_200 = Some(luminance(here.color, here.samples));
            }
        }
    }
    let ball_100 = at_100.unwrap();
    let ball_200 = at_200.unwrap();
    let sky_item = sched.pixel(corner).unwrap();
    assert!(sky_item.samples >= 100);
    let sky_lum = luminance(sky_item.color, sky_item.samples);
    assert!(ball_200 < sky_lum, "ball {} sky {}", ball_200, sky_lum);
    assert!(ball_100 < sky_lum);
    assert!(
        (ball_200 - ball_100).abs() < 0.01 * ball_100,
        "after 100 samples {}, after 200 samples {}",
        ball_100,
        ball_200
    );
    // What is shown is the mean, gamma corrected: brighter at the corner.
    let buffer = sched.buffer();
    let center_at = ((5 * width + 10) * 4) as usize;
    assert!(buffer[center_at] < buffer[0]);
    assert_eq!(buffer[center_at + 3], 255);
}
