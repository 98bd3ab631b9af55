use partyarty::aabb::{hit_aabb, surrounding_box, Slab, AABB};
use partyarty::bvh::{build_bvh, bvh_node, sort_by_axis, BVHNode, BVHTree};
use partyarty::hitable::{hit, HitRecord, SphereRoots};
use partyarty::scalar::Scalar;
use partyarty::traversal::{closer_hit, hit_bvh_node, search_tested, Probe, Reply, Traversal};
use partyarty::vector::Vec3;
use rand::rngs::StdRng;
use rand::{Rng, SeedableRng};

fn s(x: f32) -> Scalar {
    Scalar::from_bits(x.to_bits())
}

fn f(x: Scalar) -> f32 {
    f32::from_bits(x.to_bits())
}

fn v(p: [f32; 3]) -> Vec3 {
    Vec3::new(s(p[0]), s(p[1]), s(p[2]))
}

fn boxed(min: [f32; 3], max: [f32; 3]) -> AABB {
    AABB::new(s(min[0]), s(min[1]), s(min[2]), s(max[0]), s(max[1]), s(max[2]))
}

fn sphere_box(center: [f32; 3], radius: f32) -> AABB {
    let r = radius.abs();
    boxed(
        [center[0] - r, center[1] - r, center[2] - r],
        [center[0] + r, center[1] + r, center[2] + r],
    )
}

fn corners(b: &AABB) -> ([f32; 3], [f32; 3]) {
    ([f(b.min.x), f(b.min.y), f(b.min.z)], [f(b.max.x), f(b.max.y), f(b.max.z)])
}

fn slabs(b: &AABB, origin: [f32; 3], direction: [f32; 3]) -> [Slab; 3] {
    let (min, max) = corners(b);
    let mut out = [Slab::new(s(0.0), s(0.0), s(0.0)); 3];
    for a in 0..3 {
        let inv_d = 1.0 / direction[a];
        out[a] = Slab::new(
            s((min[a] - origin[a]) * inv_d),
            s((max[a] - origin[a]) * inv_d),
            s(inv_d),
        );
    }
    out
}

fn dot(a: [f32; 3], b: [f32; 3]) -> f32 {
    a[0] * b[0] + a[1] * b[1] + a[2] * b[2]
}

fn sphere_hit(
    center: [f32; 3],
    radius: f32,
    origin: [f32; 3],
    direction: [f32; 3],
    t_min: f32,
    t_max: f32,
) -> Option<HitRecord> {
    let oc = [origin[0] - center[0], origin[1] - center[1], origin[2] - center[2]];
    let a = dot(direction, direction);
    let b = dot(oc, direction);
    let c = dot(oc, oc) - radius * radius;
    let disc = b * b - a * c;
    let roots = SphereRoots {
        discriminant: s(disc),
        near: s((-b - disc.sqrt()) / a),
        far: s((-b + disc.sqrt()) / a),
    };
    match hit(&roots, s(t_min), s(t_max)) {
        Some(t) => {
            let tt = f(t);
            let p = [
                origin[0] + direction[0] * tt,
                origin[1] + direction[1] * tt,
                origin[2] + direction[2] * tt,
            ];
            let n = [
                (p[0] - center[0]) / radius,
                (p[1] - center[1]) / radius,
                (p[2] - center[2]) / radius,
            ];
            Some(HitRecord::new(t, v(p), v(n), None))
        }
        None => None,
    }
}

fn leaves(spheres: &[([f32; 3], f32)]) -> BVHTree {
    let mut tree = BVHTree::default();
    for (i, (c, r)) in spheres.iter().enumerate() {
        tree.nodes.push(bvh_node(sphere_box(*c, *r), Some(i as u32)));
    }
    tree
}

fn below(tree: &BVHTree, k: usize, out: &mut Vec<usize>) {
    let node = tree.nodes[k];
    match (node.left, node.right) {
        (Some(l), Some(r)) if l < k && r < k => {
            below(tree, l, out);
            below(tree, r, out);
        }
        _ => out.push(k),
    }
}

fn inner_count(n: usize) -> usize {
    if n <= 2 {
        1
    } else {
        inner_count(n / 2) + inner_count(n - n / 2) + 1
    }
}

fn check_built(spheres: &[([f32; 3], f32)]) {
    let n = spheres.len();
    let mut tree = leaves(spheres);
    let root = build_bvh(&mut tree, 0, n);
    assert_eq!(root, Some(tree.nodes.len() - 1));
    assert_eq!(tree.nodes.len(), n + inner_count(n));
    // The leaves are the old leaves, each once.
    let mut seen = vec![false; n];
    for k in 0..n {
        let node = tree.nodes[k];
        assert!(node.left.is_none() && node.right.is_none());
        let e = node.entity.unwrap() as usize;
        assert!(!seen[e]);
        seen[e] = true;
        assert_eq!(node.aabb, sphere_box(spheres[e].0, spheres[e].1));
    }
    // The nodes appended are inner nodes over earlier nodes.
    for k in n..tree.nodes.len() {
        let node = tree.nodes[k];
        assert!(node.entity.is_none());
        let l = node.left.unwrap();
        let r = node.right.unwrap();
        assert!(l < k && r < k);
        assert_eq!(node.aabb, surrounding_box(&tree.nodes[l].aabb, &tree.nodes[r].aabb));
    }
    // Below the root lie all the leaves.
    let mut under = Vec::new();
    below(&tree, root.unwrap(), &mut under);
    under.sort();
    under.dedup();
    assert_eq!(under, (0..n).collect::<Vec<usize>>());
    // Along some axis the first half does not lie after the second.
    let mut split = false;
    for axis in 0..3 {
        let key = |b: &AABB| [f(b.min.x), f(b.min.y), f(b.min.z)][axis];
        let mut holds = true;
        for i in 0..n / 2 {
            for j in n / 2..n {
                if key(&tree.nodes[i].aabb) > key(&tree.nodes[j].aabb) {
                    holds = false;
                }
            }
        }
        split = split || holds;
    }
    assert!(split);
}

fn random_spheres(rng: &mut StdRng, n: usize) -> Vec<([f32; 3], f32)> {
    let mut out = Vec::new();
    for _ in 0..n {
        let c = [
            rng.gen::<f32>() * 10.0 - 5.0,
            rng.gen::<f32>() * 10.0 - 5.0,
            rng.gen::<f32>() * 10.0 - 5.0,
        ];
        out.push((c, 0.1 + 0.5 * rng.gen::<f32>()));
    }
    out
}

#[test]
fn one_leaf_gets_a_root_with_the_leaf_twice() {
    let spheres = vec![([0.0, 0.0, -1.0], 0.5)];
    let mut tree = leaves(&spheres);
    let root = build_bvh(&mut tree, 0, 1);
    assert_eq!(root, Some(1));
    assert_eq!(tree.nodes.len(), 2);
    assert_eq!(tree.nodes[1].left, Some(0));
    assert_eq!(tree.nodes[1].right, Some(0));
    assert_eq!(tree.nodes[1].aabb, tree.nodes[0].aabb);
    assert_eq!(tree.nodes[1].entity, None);
}

#[test]
fn two_leaves_become_the_children_of_the_root() {
    let spheres = vec![([3.0, 4.0, 5.0], 0.5), ([-3.0, -4.0, -5.0], 1.0)];
    let mut tree = leaves(&spheres);
    let root = build_bvh(&mut tree, 0, 2);
    assert_eq!(root, Some(2));
    assert_eq!(tree.nodes[2].left, Some(0));
    assert_eq!(tree.nodes[2].right, Some(1));
    // Whatever the axis, the second sphere lies first.
    assert_eq!(tree.nodes[0].entity, Some(1));
    assert_eq!(tree.nodes[1].entity, Some(0));
    assert_eq!(tree.nodes[2].aabb, boxed([-4.0, -5.0, -6.0], [3.5, 4.5, 5.5]));
}

#[test]
fn three_leaves_split_one_and_two() {
    let spheres = vec![([0.0, 0.0, 0.0], 1.0), ([5.0, 5.0, 5.0], 1.0), ([9.0, 9.0, 9.0], 1.0)];
    let mut tree = leaves(&spheres);
    let root = build_bvh(&mut tree, 0, 3);
    assert_eq!(root, Some(5));
    assert_eq!(tree.nodes.len(), 6);
    assert_eq!((tree.nodes[3].left, tree.nodes[3].right), (Some(0), Some(0)));
    assert_eq!((tree.nodes[4].left, tree.nodes[4].right), (Some(1), Some(2)));
    assert_eq!((tree.nodes[5].left, tree.nodes[5].right), (Some(3), Some(4)));
    assert_eq!(tree.nodes[0].entity, Some(0));
    assert_eq!(tree.nodes[5].aabb, boxed([-1.0; 3], [10.0; 3]));
}

#[test]
fn built_hierarchies_are_well_formed() {
    let mut rng = StdRng::seed_from_u64(7);
    for n in [1usize, 2, 3, 4, 5, 6, 7, 8, 13, 32, 100].iter() {
        let spheres = random_spheres(&mut rng, *n);
        check_built(&spheres);
    }
}

#[test]
fn building_a_range_leaves_the_rest_alone() {
    let mut rng = StdRng::seed_from_u64(11);
    let spheres = random_spheres(&mut rng, 10);
    let mut tree = leaves(&spheres);
    let before: Vec<BVHNode> = tree.nodes.clone();
    let root = build_bvh(&mut tree, 3, 4);
    assert_eq!(root, Some(tree.nodes.len() - 1));
    assert_eq!(tree.nodes.len(), 10 + 3);
    for k in (0..3).chain(7..10) {
        assert_eq!(tree.nodes[k], before[k]);
    }
    let mut inside: Vec<u32> = (3..7).map(|k| tree.nodes[k].entity.unwrap()).collect();
    inside.sort();
    assert_eq!(inside, vec![3, 4, 5, 6]);
    let mut under = Vec::new();
    below(&tree, root.unwrap(), &mut under);
    under.sort();
    assert_eq!(under, vec![3, 4, 5, 6]);
}

#[test]
fn sorting_orders_a_range_along_each_axis() {
    let mut rng = StdRng::seed_from_u64(3);
    let spheres = random_spheres(&mut rng, 40);
    for axis in 0..3usize {
        let mut tree = leaves(&spheres);
        let before: Vec<BVHNode> = tree.nodes.clone();
        sort_by_axis(&mut tree.nodes, 5, 30, axis);
        for k in (0..5).chain(35..40) {
            assert_eq!(tree.nodes[k], before[k]);
        }
        let key = |b: &AABB| [f(b.min.x), f(b.min.y), f(b.min.z)][axis];
        for k in 5..34 {
            assert!(key(&tree.nodes[k].aabb) <= key(&tree.nodes[k + 1].aabb));
        }
        let mut inside: Vec<u32> = (5..35).map(|k| tree.nodes[k].entity.unwrap()).collect();
        inside.sort();
        assert_eq!(inside, (5..35).collect::<Vec<u32>>());
    }
}

#[test]
fn sorting_puts_negative_numbers_first() {
    let mut tree = BVHTree::default();
    for (i, x) in [3.0f32, -1.0, 0.0, -7.5, 2.0].iter().enumerate() {
        tree.nodes.push(bvh_node(boxed([*x, 0.0, 0.0], [*x + 1.0, 1.0, 1.0]), Some(i as u32)));
    }
    sort_by_axis(&mut tree.nodes, 0, 5, 0);
    let order: Vec<u32> = tree.nodes.iter().map(|n| n.entity.unwrap()).collect();
    assert_eq!(order, vec![3, 1, 2, 4, 0]);
}

fn search(
    tree: &BVHTree,
    root: usize,
    spheres: &[([f32; 3], f32)],
    origin: [f32; 3],
    direction: [f32; 3],
    t_min: f32,
    t_max: f32,
) -> (Option<HitRecord>, usize) {
    let mut state = Traversal::start(root);
    let mut probe = state.probe;
    let mut steps = 0;
    loop {
        let reply = match probe {
            Probe::Bounds(k) => Reply::Bounds(hit_aabb(
                &slabs(&tree.nodes[k].aabb, origin, direction),
                s(t_min),
                s(t_max),
            )),
            Probe::Object(k) => {
                let e = tree.nodes[k].entity.unwrap() as usize;
                Reply::Object(sphere_hit(spheres[e].0, spheres[e].1, origin, direction, t_min, t_max))
            }
            Probe::Finished => break,
        };
        probe = hit_bvh_node(tree, &mut state, reply);
        steps += 1;
    }
    (state.result(), steps)
}

#[test]
fn traversal_finds_what_testing_every_sphere_finds() {
    let mut rng = StdRng::seed_from_u64(2020);
    let spheres = random_spheres(&mut rng, 60);
    let mut tree = leaves(&spheres);
    let root = build_bvh(&mut tree, 0, spheres.len()).unwrap();
    let mut struck = 0;
    for _ in 0..1000 {
        let origin = [
            rng.gen::<f32>() * 16.0 - 8.0,
            rng.gen::<f32>() * 16.0 - 8.0,
            rng.gen::<f32>() * 16.0 - 8.0,
        ];
        let direction = [
            rng.gen::<f32>() * 2.0 - 1.0,
            rng.gen::<f32>() * 2.0 - 1.0,
            rng.gen::<f32>() * 2.0 - 1.0,
        ];
        let mut nearest: Option<(f32, usize)> = None;
        for (e, (c, r)) in spheres.iter().enumerate() {
            if let Some(rec) = sphere_hit(*c, *r, origin, direction, 0.001, f32::INFINITY) {
                let t = f(rec.t);
                if nearest.map_or(true, |(best, _)| t < best) {
                    nearest = Some((t, e));
                }
            }
        }
        let (found, _) = search(&tree, root, &spheres, origin, direction, 0.001, f32::INFINITY);
        match (nearest, found) {
            (None, None) => {}
            (Some((t, e)), Some(rec)) => {
                struck += 1;
                assert!((f(rec.t) - t).abs() <= 1.0e-4 * t.abs().max(1.0));
                assert_eq!(rec.entity, Some(e as u32));
            }
            (a, b) => panic!("brute force {:?}, traversal {:?}", a, b),
        }
    }
    assert!(struck > 50);
}

#[test]
fn missed_root_ends_the_search_in_one_step() {
    let spheres = vec![([0.0, 0.0, -1.0], 0.5), ([2.0, 0.0, -1.0], 0.5), ([4.0, 0.0, -1.0], 0.5)];
    let mut tree = leaves(&spheres);
    let root = build_bvh(&mut tree, 0, 3).unwrap();
    let (found, steps) =
        search(&tree, root, &spheres, [0.0, 10.0, 0.0], [0.0, 1.0, 0.0], 0.001, f32::INFINITY);
    assert!(found.is_none());
    assert_eq!(steps, 1);
}

#[test]
fn search_names_the_nearest_of_three_in_a_row() {
    let spheres = vec![([0.0, 0.0, -5.0], 0.5), ([0.0, 0.0, -1.0], 0.5), ([0.0, 0.0, -3.0], 0.5)];
    let mut tree = leaves(&spheres);
    let root = build_bvh(&mut tree, 0, 3).unwrap();
    let (found, _) =
        search(&tree, root, &spheres, [0.0; 3], [0.0, 0.0, -1.0], 0.001, f32::INFINITY);
    let rec = found.unwrap();
    assert_eq!(rec.entity, Some(1));
    assert_eq!(f(rec.t), 0.5);
    assert_eq!(rec.p, v([0.0, 0.0, -0.5]));
    assert_eq!(f(rec.normal.z), 1.0);
}

#[test]
fn step_by_step_through_a_small_hierarchy() {
    let spheres = vec![([0.0, 0.0, -1.0], 0.5), ([0.0, 0.0, -3.0], 0.5)];
    let mut tree = leaves(&spheres);
    let root = build_bvh(&mut tree, 0, 2).unwrap();
    assert_eq!(root, 2);
    let far = tree.nodes[0].entity.unwrap();
    let mut state = Traversal::start(root);
    assert_eq!(state.probe, Probe::Bounds(2));
    assert_eq!(hit_bvh_node(&tree, &mut state, Reply::Bounds(true)), Probe::Bounds(0));
    assert_eq!(state.pending, vec![1]);
    // A reply of the wrong kind changes nothing.
    assert_eq!(hit_bvh_node(&tree, &mut state, Reply::Object(None)), Probe::Bounds(0));
    assert_eq!(state.pending, vec![1]);
    assert_eq!(hit_bvh_node(&tree, &mut state, Reply::Bounds(true)), Probe::Object(0));
    let first = HitRecord::new(s(2.5), v([0.0, 0.0, -2.5]), v([0.0, 0.0, 1.0]), None);
    assert_eq!(hit_bvh_node(&tree, &mut state, Reply::Object(Some(first))), Probe::Bounds(1));
    assert_eq!(state.result().unwrap().entity, Some(far));
    assert_eq!(hit_bvh_node(&tree, &mut state, Reply::Bounds(true)), Probe::Object(1));
    let second = HitRecord::new(s(0.5), v([0.0, 0.0, -0.5]), v([0.0, 0.0, 1.0]), None);
    assert_eq!(hit_bvh_node(&tree, &mut state, Reply::Object(Some(second))), Probe::Finished);
    let best = state.result().unwrap();
    assert_eq!(f(best.t), 0.5);
    assert_eq!(best.entity, tree.nodes[1].entity);
    // A finished search stays finished.
    assert_eq!(hit_bvh_node(&tree, &mut state, Reply::Bounds(true)), Probe::Finished);
    assert_eq!(f(state.result().unwrap().t), 0.5);
}

#[test]
fn index_without_a_node_ends_the_visit() {
    let tree = BVHTree::default();
    let mut state = Traversal::start(5);
    assert_eq!(hit_bvh_node(&tree, &mut state, Reply::Bounds(true)), Probe::Finished);
    assert!(state.result().is_none());
}

#[test]
fn of_equally_near_strikes_the_later_is_kept() {
    let a = HitRecord::new(s(1.0), v([1.0, 0.0, 0.0]), v([1.0, 0.0, 0.0]), None);
    let b = HitRecord::new(s(1.0), v([2.0, 0.0, 0.0]), v([1.0, 0.0, 0.0]), None);
    let c = HitRecord::new(s(0.5), v([3.0, 0.0, 0.0]), v([1.0, 0.0, 0.0]), None);
    assert_eq!(closer_hit(Some(a), Some(b)), Some(b));
    assert_eq!(closer_hit(Some(b), Some(a)), Some(a));
    assert_eq!(closer_hit(Some(a), Some(c)), Some(c));
    assert_eq!(closer_hit(Some(c), Some(a)), Some(c));
    assert_eq!(closer_hit(Some(a), None), Some(a));
    assert_eq!(closer_hit(None, Some(a)), Some(a));
    assert_eq!(closer_hit(None, None), None);
}

#[test]
fn sphere_strike_lies_on_the_sphere() {
    let mut rng = StdRng::seed_from_u64(99);
    let mut struck = 0;
    for _ in 0..500 {
        let center = [rng.gen::<f32>() * 4.0 - 2.0, rng.gen::<f32>() * 4.0 - 2.0, -3.0];
        let direction = [rng.gen::<f32>() - 0.5, rng.gen::<f32>() - 0.5, -1.0];
        if let Some(rec) = sphere_hit(center, 1.0, [0.0; 3], direction, 0.001, f32::INFINITY) {
            struck += 1;
            let d = [f(rec.p.x) - center[0], f(rec.p.y) - center[1], f(rec.p.z) - center[2]];
            assert!((dot(d, d).sqrt() - 1.0).abs() < 1.0e-4);
            let n = [f(rec.normal.x), f(rec.normal.y), f(rec.normal.z)];
            assert!((dot(n, n).sqrt() - 1.0).abs() < 1.0e-4);
            assert!((dot(n, d) - dot(d, d).sqrt()).abs() < 1.0e-4);
        }
    }
    assert!(struck > 20);
}

#[test]
fn nothing_is_built_over_no_objects() {
    assert!(BVHTree::build(&Vec::new()).is_none());
}

#[test]
fn hierarchy_over_objects_has_a_leaf_for_each() {
    let mut rng = StdRng::seed_from_u64(5);
    let spheres = random_spheres(&mut rng, 17);
    let objects: Vec<(u32, AABB)> = spheres
        .iter()
        .enumerate()
        .map(|(i, (c, r))| (100 + i as u32, sphere_box(*c, *r)))
        .collect();
    let (tree, root) = BVHTree::build(&objects).unwrap();
    assert_eq!(root, tree.nodes.len() - 1);
    assert_eq!(tree.nodes.len(), 17 + inner_count(17));
    let mut named: Vec<(u32, usize)> =
        (0..17).map(|k| (tree.nodes[k].entity.unwrap(), k)).collect();
    named.sort();
    for (i, (entity, k)) in named.iter().enumerate() {
        assert_eq!(*entity, 100 + i as u32);
        assert_eq!(tree.nodes[*k].aabb, objects[i].1);
        assert!(tree.nodes[*k].left.is_none() && tree.nodes[*k].right.is_none());
    }
    let mut under = Vec::new();
    below(&tree, root, &mut under);
    under.sort();
    under.dedup();
    assert_eq!(under, (0..17).collect::<Vec<usize>>());
    assert!(steps_down(&tree, root) <= 5);
}

fn steps_down(tree: &BVHTree, k: usize) -> usize {
    let node = tree.nodes[k];
    match (node.left, node.right) {
        (Some(l), Some(r)) if l < k && r < k => 1 + steps_down(tree, l).max(steps_down(tree, r)),
        _ => 0,
    }
}

#[test]
fn hierarchies_are_no_higher_than_the_logarithm_allows() {
    let mut rng = StdRng::seed_from_u64(8);
    // Over n leaves: one step for up to two, one more for each doubling.
    for (n, bound) in [(1usize, 1usize), (2, 1), (3, 2), (4, 2), (5, 3), (8, 3), (9, 4), (64, 6), (65, 7)].iter() {
        let spheres = random_spheres(&mut rng, *n);
        let mut tree = leaves(&spheres);
        let root = build_bvh(&mut tree, 0, *n).unwrap();
        assert!(steps_down(&tree, root) <= *bound);
        assert!(steps_down(&tree, root) >= 1);
    }
}

#[test]
fn search_on_tests_made_beforehand_agrees_with_the_search_step_by_step() {
    let mut rng = StdRng::seed_from_u64(77);
    let spheres = random_spheres(&mut rng, 25);
    let mut tree = leaves(&spheres);
    let root = build_bvh(&mut tree, 0, spheres.len()).unwrap();
    let mut struck = 0;
    for _ in 0..500 {
        let origin = [rng.gen::<f32>() * 10.0 - 5.0, rng.gen::<f32>() * 10.0 - 5.0, 9.0];
        let direction = [0.2 * (rng.gen::<f32>() - 0.5), 0.2 * (rng.gen::<f32>() - 0.5), -1.0];
        let bounds: Vec<bool> = tree
            .nodes
            .iter()
            .map(|n| hit_aabb(&slabs(&n.aabb, origin, direction), s(0.001), s(f32::INFINITY)))
            .collect();
        let strikes: Vec<Option<HitRecord>> = tree
            .nodes
            .iter()
            .map(|n| match n.entity {
                Some(e) => {
                    let (c, r) = spheres[e as usize];
                    sphere_hit(c, r, origin, direction, 0.001, f32::INFINITY)
                }
                None => None,
            })
            .collect();
        let found = search_tested(&tree, root, &bounds, &strikes);
        let (stepwise, _) = search(&tree, root, &spheres, origin, direction, 0.001, f32::INFINITY);
        assert_eq!(found, stepwise);
        if found.is_some() {
            struck += 1;
        }
    }
    assert!(struck > 5);
}

#[test]
fn search_on_short_lists_takes_the_rest_as_missed() {
    let spheres = vec![([0.0, 0.0, -1.0], 0.5), ([0.0, 0.0, -3.0], 0.5)];
    let mut tree = leaves(&spheres);
    let root = build_bvh(&mut tree, 0, 2).unwrap();
    let near = HitRecord::new(s(0.5), v([0.0, 0.0, -0.5]), v([0.0, 0.0, 1.0]), None);
    let far = HitRecord::new(s(2.5), v([0.0, 0.0, -2.5]), v([0.0, 0.0, 1.0]), None);
    let all = vec![true, true, true];
    let strikes = vec![Some(far), Some(near)];
    let found = search_tested(&tree, root, &all, &strikes).unwrap();
    assert_eq!(f(found.t), 0.5);
    assert_eq!(found.entity, tree.nodes[1].entity);
    // The root's box is not in the list: nothing below it is looked at.
    assert_eq!(search_tested(&tree, root, &vec![true, true], &strikes), None);
    // The second leaf's box is missed: the first leaf's strike is all there is.
    let found = search_tested(&tree, root, &vec![true, false, true], &strikes).unwrap();
    assert_eq!(f(found.t), 2.5);
    assert_eq!(search_tested(&tree, root, &all, &Vec::new()), None);
    assert_eq!(search_tested(&tree, 9, &all, &strikes), None);
}
