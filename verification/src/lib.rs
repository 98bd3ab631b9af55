//! The core of a progressive path tracer: a hierarchy of bounding boxes over
//! the objects of a scene, the search for the nearest strike of a ray in it,
//! the decisions of scattering and of the path integrator, and the scheduler
//! that deals out samples to pixels frame by frame.
//!
//! The renderer's arithmetic is done in single precision by its caller. The
//! library holds such numbers by their bit patterns (see `scalar`) and
//! decides on them: which crossing of a slab comes first, which root of a
//! quadratic counts, which of two strikes is nearer, whether a ray is
//! reflected. What it decides is stated and proved over the order of the
//! numbers.

pub mod aabb;
pub mod budget;
pub mod bvh;
pub mod color;
pub mod components;
pub mod hitable;
pub mod integrator;
pub mod material;
pub mod pixels;
pub mod ray;
pub mod resources;
pub mod save_image;
pub mod scalar;
pub mod scene;
pub mod systems;
pub mod timers;
pub mod traversal;
pub mod vector;

pub use crate::aabb::{hit_aabb, surrounding_box, Slab, AABB};
pub use crate::budget::sample_budget;
pub use crate::bvh::{build_bvh, bvh_node, sort_by_axis, BVHNode, BVHTree};
pub use crate::color::{Colorf32, Coloru8};
pub use crate::components::{
    pixel_color, pixel_position, position, PixelColor, PixelPosition, Position, SampleCount, Vec2u,
};
pub use crate::hitable::{hit, sphere, HitRecord, Hitable, Sphere, SphereRoots};
pub use crate::integrator::{search_interval, Radiance};
pub use crate::material::{
    dielectric, lambertian, metal, scatter, Dielectric, Lambertian, Material, Metal, Scattering,
};
pub use crate::pixels::{pixel_grid, shuffled_grid};
pub use crate::ray::Ray;
pub use crate::resources::{
    BufferOutput, FrameCount, Height, ImageFilePrefix, PixelsToProcess, Samples, Width,
};
pub use crate::save_image::SaveImage;
pub use crate::scalar::Scalar;
pub use crate::scene::{Entity, Scene};
pub use crate::systems::{PathTrace, PixelSample, PixelWorkItem};
pub use crate::timers::{SlidingAverage, Timer, Timers};
pub use crate::traversal::{hit_bvh_node, Probe, Reply, Traversal};
pub use crate::vector::Vec3;
