//! The integrators. What they compute per ray is evaluated by the application;
//! a pass over the image is scheduled by `crate::schedule`.
use vstd::prelude::*;

verus! {

/// Colors each pixel with the material of the nearest surface, lights ignored.
#[derive(Clone, Copy, Debug, PartialEq, Eq, Structural)]
pub struct NoLightRenderer {}

/// Direct lighting: each point light that no surface hides adds its share.
#[derive(Clone, Copy, Debug, PartialEq, Eq, Structural)]
pub struct WhittedRayTracer {}

} // verus!
