//! Integer core of a ray-tracing renderer: colors, the shading rule and
//! the assembly of supersampled pixels into an RGB raster.

pub mod color;
pub mod shading;
pub mod raster;
