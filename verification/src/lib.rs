//! A small verified ray tracer: fixed-point scalar algebra, vectors, rays,
//! sphere intersection, a scene aggregate, a camera, and a render driver
//! that produces pixel rows in raster order.

pub mod camera;
pub mod fixed;
pub mod hitrecord;
pub mod hittable;
pub mod hittables;
pub mod random;
pub mod ray;
pub mod render;
pub mod sphere;
pub mod vec3;
