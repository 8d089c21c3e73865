//! The rules of a stochastic ray tracer.
//!
//! A ray tracer decides and computes. It decides which hit is the nearest,
//! which root of a quadratic counts, whether a ray is absorbed, when a path is
//! given up, which worker renders which rows; it computes dot products,
//! square roots and sines. This library is the deciding half, with its proofs.
//! The numbers of the renderer are held as [`scalar::Scalar`], an integer that
//! orders exactly as the single-precision number it stands for, so that every
//! comparison is one of integers; the arithmetic is asked of the caller
//! through function values, and what a function returns is stated for
//! whatever these may answer.
//!
//! - [`scalar`], [`vector`], [`ray`]: numbers, triples of them, rays.
//! - [`aabb`]: bounding boxes, their union and the slab test.
//! - [`hitable`]: hits, the capability of being hit, the list and its sweep.
//! - [`sphere`], [`triangle`], [`plane`]: where a ray hits a shape.
//! - [`quad`], [`pyramid`]: shapes made of triangles.
//! - [`bvh`]: the bounding volume hierarchy and its construction.
//! - [`nearest`], [`search`]: that the sweep and the search find the nearest
//!   hit.
//! - [`texture`], [`material`]: colours and scattering.
//! - [`raytracer`]: the path integrator, the bands of rows and the image.
//! - [`randomutil`], [`timeutil`]: the random source, and spans of time.
pub mod scalar;
pub mod vector;
pub mod ray;
pub mod aabb;
pub mod hitable;
pub mod nearest;
pub mod sphere;
pub mod triangle;
pub mod plane;
pub mod quad;
pub mod pyramid;
pub mod bvh;
pub mod search;
pub mod texture;
pub mod material;
pub mod randomutil;
pub mod raytracer;
pub mod timeutil;
