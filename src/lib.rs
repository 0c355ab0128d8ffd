//! Integer and structural core of a Monte-Carlo path tracer: axis
//! bookkeeping, per-scanline random streams, bounding volume hierarchy
//! construction, Perlin lattice tables, texel lookup, PPM encoding,
//! progress reporting and the parsing of an aspect ratio.
pub mod aarects;
pub mod bhv;
pub mod image_texture;
pub mod params;
pub mod raytrace;
pub mod rngator;
pub mod shapes;
pub mod textures;
pub mod transforms;
