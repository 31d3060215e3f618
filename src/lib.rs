//! A ray tracer's exact core: reading meshes, scheduling a pass over the
//! image among workers, walking stratified samples, the pixel buffer, and the
//! boolean and checkerboard decisions of its shapes. Geometry and light
//! transport, which are floating point, are evaluated by the application.

pub mod image;
pub mod obj;
pub mod renderers;
pub mod schedule;
pub mod shapes;
pub mod stratified;
pub mod texture;
