//! A recursive ray tracer over exact fixed-point arithmetic.
//!
//! The engine renders a static scene of spheres and triangles lit by a
//! single point light into a buffer of colors: primary rays are cast from
//! the eye through a virtual image plane, intersected against every
//! object, shaded with an ambient/diffuse/specular model gated by a shadow
//! test, and continued recursively along mirror reflections until an
//! importance threshold or a fixed depth bound cuts the recursion off.
//!
//! Every scalar is a Q16.16 fixed-point number held in an `i64`: the raw
//! value `v` stands for the real number `v / 65536`. All arithmetic is
//! defined exactly over the mathematical integers (saturating at a
//! generous bound), so every geometric and shading computation here has an
//! exact contract, and a render is a pure function of its inputs.
//!
//! The modules, leaves first: [`fixed`] holds the scalar arithmetic,
//! [`vec3`] the vectors, [`geometry`] rays and the intersectable shapes,
//! [`scene`] materials and the camera-derived scene record, [`parse`] the
//! scene-description text format, [`kernel`] the intersector, shader and
//! recursive tracer with the per-invocation compute entry point,
//! [`render`] the antialiased pixel scheduler, and [`ppm`] the binary
//! image encoding.

pub mod fixed;
pub mod vec3;
pub mod geometry;
pub mod scene;
pub mod parse;
pub mod kernel;
pub mod render;
pub mod ppm;
