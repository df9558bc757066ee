//! A software triangle rasterizer: canonical vertex ordering, scanline
//! coverage, perspective-correct attribute interpolation and depth-tested
//! compositing, over exact integer arithmetic.
pub mod compositor;
pub mod flat;
pub mod mesh;
pub mod perspective;
pub mod pipeline;
pub mod point;
pub mod ramp;
pub mod random;
pub mod projection;
pub mod raster;
pub mod scan;
