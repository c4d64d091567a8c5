//! An immutable rectangle.
use vstd::prelude::*;

verus! {

/// A rectangle with whole-number sides.
#[derive(Debug, Clone, Copy, PartialEq, Eq)]
pub struct Rectangle {
    pub width: u32,
    pub length: u32,
}

impl Rectangle {
    /// A rectangle with these sides.
    pub fn new(width: u32, length: u32) -> (r: Rectangle)
        ensures
            r.width == width,
            r.length == length,
    {
        Rectangle { width, length }
    }

    /// The area, which must fit in a `u32`.
    pub fn area(&self) -> (r: u32)
        requires
            self.width * self.length <= u32::MAX,
        ensures
            r == self.width * self.length,
    {
        self.width * self.length
    }
}

} // verus!
