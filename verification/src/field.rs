//! The mathematical model of a mine field: its dimensions and the set of
//! positions that hold a bomb. What every cell shows follows from these.

use vstd::prelude::*;
use crate::coordinates::Coordinates;

verus! {

/// What a cell of the field holds: a bomb, the number of bombs around it, or
/// nothing at all.
#[derive(Debug, Copy, Clone, Eq, PartialEq, Structural)]
pub enum Cell {
    Bomb,
    BombNeighbor(u8),
    Empty,
}

impl Cell {
    /// Returns true if the cell is a bomb.
    pub fn is_bomb(&self) -> (r: bool)
        ensures
            r == (*self is Bomb),
    {
        match self {
            Cell::Bomb => true,
            _ => false,
        }
    }
}

/// The step from a cell to its `i`-th neighbour, for `i` from 0 to 7: the
/// row above from left to right, the cells left and right, the row below
/// from left to right.
pub open spec fn neighbor_offset(i: int) -> (i8, i8) {
    if i == 0 {
        (-1i8, 1i8)
    } else if i == 1 {
        (0i8, 1i8)
    } else if i == 2 {
        (1i8, 1i8)
    } else if i == 3 {
        (-1i8, 0i8)
    } else if i == 4 {
        (1i8, 0i8)
    } else if i == 5 {
        (-1i8, -1i8)
    } else if i == 6 {
        (0i8, -1i8)
    } else {
        (1i8, -1i8)
    }
}

/// The `i`-th of the eight positions around `c`. A position beside the edge
/// of the number range has neighbours with a component `u16::MAX`, which no
/// field contains.
pub open spec fn neighbor(c: Coordinates, i: int) -> Coordinates {
    c.spec_offset(neighbor_offset(i).0, neighbor_offset(i).1)
}

/// The eight positions around `c`, in the order of `neighbor_offset`.
pub open spec fn neighbors(c: Coordinates) -> Seq<Coordinates> {
    Seq::new(8, |i: int| neighbor(c, i))
}

/// Whether `n` is one of the eight positions around `c`.
pub open spec fn adjacent(c: Coordinates, n: Coordinates) -> bool {
    exists|i: int| 0 <= i < 8 && n == #[trigger] neighbor(c, i)
}

/// A mine field: `width` columns, `height` rows, and the positions of its
/// bombs.
pub struct Field {
    pub width: u16,
    pub height: u16,
    pub bombs: Set<Coordinates>,
}

impl Field {
    /// Whether `c` names a cell of the field.
    pub open spec fn in_bounds(self, c: Coordinates) -> bool {
        c.x < self.width && c.y < self.height
    }

    /// The number of cells.
    pub open spec fn cell_count(self) -> nat {
        (self.width as nat) * (self.height as nat)
    }

    /// The bombs lie inside the field and are finitely many.
    pub open spec fn wf(self) -> bool {
        &&& self.bombs.finite()
        &&& forall|c: Coordinates| self.bombs.contains(c) ==> self.in_bounds(c)
    }

    /// A field that a game can be played on: it has cells, and fewer bombs
    /// than cells.
    pub open spec fn playable(self) -> bool {
        &&& self.wf()
        &&& self.width > 0
        &&& self.height > 0
        &&& self.bombs.len() < self.cell_count()
    }

    /// Whether the cell at `c` holds a bomb. Outside the field nothing does.
    pub open spec fn is_bomb_at(self, c: Coordinates) -> bool {
        self.in_bounds(c) && self.bombs.contains(c)
    }

    /// How many of the first `n` neighbours of `c` hold a bomb.
    pub open spec fn bombs_among(self, c: Coordinates, n: nat) -> nat
        decreases n,
    {
        if n == 0 {
            0
        } else {
            self.bombs_among(c, (n - 1) as nat) + if self.is_bomb_at(neighbor(c, n - 1)) {
                1nat
            } else {
                0nat
            }
        }
    }

    /// How many of the eight positions around `c` hold a bomb.
    pub open spec fn adjacent_bombs(self, c: Coordinates) -> nat {
        self.bombs_among(c, 8)
    }

    /// The number that the cell at `c` carries: the bombs around it, and 0
    /// where the cell is itself a bomb.
    pub open spec fn count_bomb_neighbors(self, c: Coordinates) -> nat {
        if self.is_bomb_at(c) {
            0
        } else {
            self.adjacent_bombs(c)
        }
    }

    /// What the cell at `c` shows.
    pub open spec fn cell(self, c: Coordinates) -> Cell {
        if self.is_bomb_at(c) {
            Cell::Bomb
        } else if self.adjacent_bombs(c) == 0 {
            Cell::Empty
        } else {
            Cell::BombNeighbor(self.adjacent_bombs(c) as u8)
        }
    }

    /// Whether the cell at `c` is inside the field and shows nothing.
    pub open spec fn is_empty_at(self, c: Coordinates) -> bool {
        self.in_bounds(c) && self.cell(c) is Empty
    }
}

impl Field {
    /// Whether column `x` of row `y`, taken as integers, is a cell of the
    /// field with a bomb.
    pub open spec fn bomb_at(self, x: int, y: int) -> bool {
        &&& 0 <= x < self.width
        &&& 0 <= y < self.height
        &&& self.bombs.contains(Coordinates { x: x as u16, y: y as u16 })
    }

    /// 1 for a bomb at column `x` of row `y`, else 0.
    pub open spec fn weight(self, x: int, y: int) -> nat {
        if self.bomb_at(x, y) {
            1
        } else {
            0
        }
    }

    /// The number of bombs on the up to eight cells of the field that touch
    /// the cell at `c`.
    pub open spec fn bombs_around(self, c: Coordinates) -> nat {
        self.weight(c.x - 1, c.y + 1) + self.weight(c.x as int, c.y + 1) + self.weight(c.x + 1, c.y + 1)
            + self.weight(c.x - 1, c.y as int) + self.weight(c.x + 1, c.y as int) + self.weight(
            c.x - 1,
            c.y - 1,
        ) + self.weight(c.x as int, c.y - 1) + self.weight(c.x + 1, c.y - 1)
    }
}

/// Among the first `n` neighbours of a cell at most `n` hold a bomb.
pub proof fn lemma_bombs_among_bound(f: Field, c: Coordinates, n: nat)
    ensures
        f.bombs_among(c, n) <= n,
    decreases n,
{
    if n > 0 {
        lemma_bombs_among_bound(f, c, (n - 1) as nat);
    }
}

/// A count of zero among the first `n` neighbours means that none of them
/// holds a bomb, and the other way round.
pub proof fn lemma_bombs_among_zero(f: Field, c: Coordinates, n: nat)
    ensures
        f.bombs_among(c, n) == 0 <==> (forall|i: int| 0 <= i < n ==> !f.is_bomb_at(#[trigger] neighbor(c, i))),
    decreases n,
{
    if n > 0 {
        lemma_bombs_among_zero(f, c, (n - 1) as nat);
        if f.bombs_among(c, n) == 0 {
            assert forall|i: int| 0 <= i < n implies !f.is_bomb_at(#[trigger] neighbor(c, i)) by {
                if i < n - 1 {
                } else {
                    assert(i == n - 1);
                }
            }
        } else if f.bombs_among(c, (n - 1) as nat) == 0 {
            assert(f.is_bomb_at(neighbor(c, n - 1)));
        }
    }
}

} // verus!
