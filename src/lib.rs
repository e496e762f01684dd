//! Discrete core of a Monte Carlo path tracer: the bounding-volume
//! hierarchy layout, mesh index buffers, the integrator's bounce
//! decisions, image-texture lookup, the order in which pixels are handed
//! out, and the assembly of rendered pixels into an image or a stream. The floating-point geometry and shading that drive
//! these parts live with the program that uses the library.

pub mod assembly;
pub mod bvh;
pub mod integrator;
pub mod mesh;
pub mod random;
pub mod raster;
pub mod stream;
pub mod texture;
