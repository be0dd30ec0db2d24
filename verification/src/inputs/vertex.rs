use vstd::prelude::*;

verus! {

/// A two-dimensional point with exact integer coordinates.
#[derive(Debug, Clone, Copy, PartialEq, Eq, Structural)]
pub struct Coords {
    /// The horizontal coordinate
    pub x: i32,
    /// The vertical coordinate
    pub y: i32,
}

/// The sweep order of points: by `y`, then by `x`.
pub open spec fn coords_lt(a: Coords, b: Coords) -> bool {
    a.y < b.y || (a.y == b.y && a.x < b.x)
}

impl Coords {
    /// The point `(x, y)`.
    pub fn new(x: i32, y: i32) -> (r: Self)
        ensures
            r.x == x,
            r.y == y,
    {
        Coords { x, y }
    }

    /// The horizontal coordinate
    pub fn x(&self) -> (r: i32)
        ensures
            r == self.x,
    {
        self.x
    }

    /// The vertical coordinate
    pub fn y(&self) -> (r: i32)
        ensures
            r == self.y,
    {
        self.y
    }

    /// The origin
    pub fn zero() -> (r: Self)
        ensures
            r.x == 0,
            r.y == 0,
    {
        Coords { x: 0, y: 0 }
    }

    /// Whether `self` comes strictly before `other` in the sweep order (by
    /// `y`, then by `x`).
    pub fn lt(&self, other: &Coords) -> (r: bool)
        ensures
            r == coords_lt(*self, *other),
    {
        self.y < other.y || (self.y == other.y && self.x < other.x)
    }

    /// Whether `self` comes before `other` in the sweep order or equals it.
    pub fn le(&self, other: &Coords) -> (r: bool)
        ensures
            r == (coords_lt(*self, *other) || *self == *other),
    {
        self.lt(other) || (self.x == other.x && self.y == other.y)
    }
}

/// The sweep order is a strict total order on points.
pub proof fn lemma_coords_order(a: Coords, b: Coords, c: Coords)
    ensures
        !coords_lt(a, a),
        coords_lt(a, b) ==> !coords_lt(b, a),
        coords_lt(a, b) && coords_lt(b, c) ==> coords_lt(a, c),
        a != b ==> coords_lt(a, b) || coords_lt(b, a),
{
}

} // verus!
