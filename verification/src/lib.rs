//! Escape-time fractal rasterization: the host-side logic shared by the
//! sequential, band-parallel and GPU rendering back ends.
//!
//! The floating-point escape-time arithmetic itself lives with the back ends;
//! this crate holds everything that can be stated and proved exactly: command
//! token parsing, the iteration-count-to-intensity mapping, row-major buffer
//! indexing, the band decomposition used by the parallel back end, and the
//! host/device marshalling used by the GPU back end.

pub mod bands;
pub mod gpu;
pub mod parse;
pub mod raster;

pub use parse::parse_pair;
pub use raster::shade;
