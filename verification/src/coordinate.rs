//! Geographic coordinates in fixed-point form.
use vstd::prelude::*;

verus! {

/// A geographic coordinate: latitude and longitude in units of 10^-7 degrees
/// (so `501109000` is 50.1109 degrees).
#[derive(Clone, Copy, Debug, PartialEq, Eq, Structural)]
pub struct Coordinate {
    /// The latitude, in 10^-7 degrees.
    pub lat: i64,
    /// The longitude, in 10^-7 degrees.
    pub lon: i64,
}

} // verus!
