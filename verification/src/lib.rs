//! A software triangle rasterizer over exact fixed-point arithmetic.
//!
//! Geometry is expressed in normalized device coordinates stored as
//! fixed-point scalars ([`fx::Fx`], 1/65536 steps).  Per-pixel coverage,
//! barycentric interpolation and the depth test are computed exactly in
//! integer arithmetic, so every step of the pipeline has a precise
//! mathematical description.

pub mod export;
pub mod fx;
pub mod laws;
pub mod render;
pub mod vector;
