//! Lengths and rectangles on the stage.

use crate::number::Number;
use vstd::prelude::*;

verus! {

/// A length in twips, of which a pixel has 20.
#[derive(Clone, Copy, Debug, PartialEq, Eq, Structural)]
pub struct Twips(pub i32);

impl Twips {
    /// How many twips a pixel has.
    pub const TWIPS_PER_PIXEL: i32 = 20;

    pub fn new(twips: i32) -> (r: Twips)
        ensures
            r.0 == twips,
    {
        Twips(twips)
    }

    pub fn get(self) -> (r: i32)
        ensures
            r == self.0,
    {
        self.0
    }

    /// The length of a number of pixels: the number times 20, rounded
    /// toward zero and held to the range of 32-bit integers.
    pub fn from_pixels(pixels: Number) -> (r: Twips)
        ensures
            r.0 == pixels.to_twips_spec(),
    {
        Twips(pixels.to_twips())
    }
}

/// A rectangle. One that is not valid bounds nothing.
#[derive(Clone, Copy, Debug, PartialEq, Eq, Structural)]
pub struct BoundingBox {
    pub x_min: Twips,
    pub y_min: Twips,
    pub x_max: Twips,
    pub y_max: Twips,
    pub valid: bool,
}

impl BoundingBox {
    /// The rectangle that bounds nothing.
    pub open spec fn none() -> BoundingBox {
        BoundingBox {
            x_min: Twips(0),
            y_min: Twips(0),
            x_max: Twips(0),
            y_max: Twips(0),
            valid: false,
        }
    }

    /// Whether two valid rectangles have a point in common.
    pub open spec fn intersects_spec(self, other: BoundingBox) -> bool {
        self.valid && other.valid && self.x_min.0 <= other.x_max.0 && other.x_min.0 <= self.x_max.0
            && self.y_min.0 <= other.y_max.0 && other.y_min.0 <= self.y_max.0
    }

    pub fn intersects(&self, other: &BoundingBox) -> (r: bool)
        ensures
            r == self.intersects_spec(*other),
    {
        self.valid && other.valid && self.x_min.0 <= other.x_max.0 && other.x_min.0 <= self.x_max.0
            && self.y_min.0 <= other.y_max.0 && other.y_min.0 <= self.y_max.0
    }
}

} // verus!
