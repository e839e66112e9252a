//! Sprint analysis over inertial sensor traces, in fixed-point integer units:
//! time in microseconds, acceleration in micro-g (or micrometres per second
//! squared), velocity in micrometres per second, distance in micrometres.
use vstd::prelude::*;

pub mod numeric;
pub mod types;
pub mod rolling;
pub mod detection;
pub mod filters;
pub mod splits;
pub mod velocity;
pub mod analysis;
pub mod kalman;
pub mod piecewise;

verus! {

} // verus!
