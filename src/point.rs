use vstd::prelude::*;

verus! {

/// One of the two axes of an image.
#[derive(Clone, Copy, Debug, PartialEq, Eq, Structural)]
pub enum Axis {
    X,
    Y,
}

/// A pair of coordinates, or a width and a height.
#[derive(Clone, Copy, Debug, PartialEq)]
pub struct Point<Type> {
    pub x: Type,
    pub y: Type,
}

} // verus!
