//! Positions of cells in a grid, and arithmetic on them.

use vstd::prelude::*;

verus! {

/// The position of a cell: column `x`, row `y`.
///
/// Positions are ordered by `x` first, then by `y`.
#[derive(Debug, Default, Copy, Clone, Ord, PartialOrd, Eq, PartialEq, Structural, Hash)]
pub struct Coordinates {
    pub x: u16,
    pub y: u16,
}

/// One component moved by a signed step.
///
/// The sum is taken over the integers. A sum that leaves the range of `u16`
/// on either side becomes `u16::MAX`: no grid has a column or a row of that
/// index, so such a component is outside every grid.
pub open spec fn shifted(v: u16, d: i8) -> u16 {
    if 0 <= v + d <= u16::MAX {
        (v + d) as u16
    } else {
        u16::MAX
    }
}

/// A component minus another, stopping at zero.
pub open spec fn reduced(v: u16, d: u16) -> u16 {
    if v >= d {
        (v - d) as u16
    } else {
        0
    }
}

fn shift(v: u16, d: i8) -> (r: u16)
    ensures
        r == shifted(v, d),
{
    let wide: i32 = v as i32 + d as i32;
    if wide < 0 || wide > 0xffff {
        u16::MAX
    } else {
        wide as u16
    }
}

impl Coordinates {
    pub fn new(x: u16, y: u16) -> (c: Coordinates)
        ensures
            c.x == x,
            c.y == y,
    {
        Coordinates { x, y }
    }

    /// The position `(dx, dy)` away from this one.
    pub open spec fn spec_offset(self, dx: i8, dy: i8) -> Coordinates {
        Coordinates { x: shifted(self.x, dx), y: shifted(self.y, dy) }
    }

    /// Moves the position by a signed step in each direction. A component that
    /// would leave the range of `u16` becomes `u16::MAX` and is never clamped
    /// back into a grid.
    pub fn offset(self, dx: i8, dy: i8) -> (c: Coordinates)
        ensures
            c == self.spec_offset(dx, dy),
    {
        Coordinates { x: shift(self.x, dx), y: shift(self.y, dy) }
    }

    /// Component-wise sum of two positions.
    pub fn plus(self, rhs: Coordinates) -> (c: Coordinates)
        requires
            self.x + rhs.x <= u16::MAX,
            self.y + rhs.y <= u16::MAX,
        ensures
            c.x == self.x + rhs.x,
            c.y == self.y + rhs.y,
    {
        Coordinates { x: self.x + rhs.x, y: self.y + rhs.y }
    }

    /// Component-wise difference of two positions, each component stopping at
    /// zero.
    pub fn minus(self, rhs: Coordinates) -> (c: Coordinates)
        ensures
            c.x == reduced(self.x, rhs.x),
            c.y == reduced(self.y, rhs.y),
    {
        let x: u16 = if self.x >= rhs.x { self.x - rhs.x } else { 0 };
        let y: u16 = if self.y >= rhs.y { self.y - rhs.y } else { 0 };
        Coordinates { x, y }
    }

    /// Whether this position comes before `other`: by `x`, then by `y`.
    pub open spec fn spec_precedes(self, other: Coordinates) -> bool {
        self.x < other.x || (self.x == other.x && self.y < other.y)
    }

    /// Whether this position comes before `other` in the order of positions.
    pub fn precedes(&self, other: &Coordinates) -> (r: bool)
        ensures
            r == self.spec_precedes(*other),
    {
        self.x < other.x || (self.x == other.x && self.y < other.y)
    }
}

/// The order of positions is a strict total order.
pub proof fn lemma_order_is_total(a: Coordinates, b: Coordinates, c: Coordinates)
    ensures
        !a.spec_precedes(a),
        a.spec_precedes(b) || b.spec_precedes(a) || a == b,
        a.spec_precedes(b) && b.spec_precedes(c) ==> a.spec_precedes(c),
        !(a.spec_precedes(b) && b.spec_precedes(a)),
{
}

/// A step of one cell from a position lands on column `x + dx` and row
/// `y + dy` exactly when both are below `u16::MAX`; a step below zero lands
/// on `u16::MAX`.
pub proof fn lemma_offset_unit(c: Coordinates, dx: i8, dy: i8)
    requires
        -1 <= dx <= 1,
        -1 <= dy <= 1,
    ensures
        c.x + dx < 0 ==> c.spec_offset(dx, dy).x == u16::MAX,
        c.y + dy < 0 ==> c.spec_offset(dx, dy).y == u16::MAX,
        0 <= c.x + dx <= u16::MAX ==> c.spec_offset(dx, dy).x == c.x + dx,
        0 <= c.y + dy <= u16::MAX ==> c.spec_offset(dx, dy).y == c.y + dy,
{
}

} // verus!
