use vstd::prelude::*;

verus! {

/// The hue, saturation and value colour space (hue in degrees, saturation and value in
/// percent). Its conversions work on floating-point components and are not part of this
/// library.
#[derive(Debug, Clone, Copy, PartialEq, Eq, Structural)]
pub struct Hsv;

} // verus!
