//! Numbers, cells and positions as text.

use vstd::prelude::*;
use vstd::string::StringExecFns;
use crate::coordinates::Coordinates;
use crate::field::{Cell, Field};

verus! {

/// The character of a decimal digit.
pub open spec fn digit_char(d: nat) -> char {
    if d == 0 {
        '0'
    } else if d == 1 {
        '1'
    } else if d == 2 {
        '2'
    } else if d == 3 {
        '3'
    } else if d == 4 {
        '4'
    } else if d == 5 {
        '5'
    } else if d == 6 {
        '6'
    } else if d == 7 {
        '7'
    } else if d == 8 {
        '8'
    } else {
        '9'
    }
}

/// A number in decimal digits, without leading zeros.
pub open spec fn decimal(n: nat) -> Seq<char>
    decreases n,
{
    if n < 10 {
        seq![digit_char(n)]
    } else {
        decimal(n / 10).push(digit_char(n % 10))
    }
}

/// The text of a cell: a blank for an empty cell, a star for a bomb, and
/// for a cell with bombs around it their number.
pub open spec fn cell_text(cell: Cell) -> Seq<char> {
    match cell {
        Cell::Empty => seq![' '],
        Cell::Bomb => seq!['*'],
        Cell::BombNeighbor(v) => decimal(v as nat),
    }
}

/// The text of a position: `(x, y)`.
pub open spec fn coordinates_text(c: Coordinates) -> Seq<char> {
    seq!['('] + decimal(c.x as nat) + seq![',', ' '] + decimal(c.y as nat) + seq![')']
}

/// A line of `n` dashes.
pub open spec fn dashes(n: nat) -> Seq<char> {
    Seq::new(n, |i: int| '-')
}

/// The text of the first `upto` cells of row `y`.
pub open spec fn row_text(f: Field, y: u16, upto: nat) -> Seq<char>
    decreases upto,
{
    if upto == 0 {
        Seq::empty()
    } else {
        row_text(f, y, (upto - 1) as nat) + cell_text(f.cell(Coordinates { x: (upto - 1) as u16, y }))
    }
}

/// The text of the rows below row `below`, the highest of them first, each
/// between two bars and on a line of its own.
pub open spec fn rows_text(f: Field, below: nat) -> Seq<char>
    decreases below,
{
    if below == 0 {
        Seq::empty()
    } else {
        seq!['|'] + row_text(f, (below - 1) as u16, f.width as nat) + seq!['|', '\n'] + rows_text(
            f,
            (below - 1) as nat,
        )
    }
}

/// The first line of the text of a field.
pub open spec fn title_text(f: Field) -> Seq<char> {
    "Map ("@ + decimal(f.width as nat) + ", "@ + decimal(f.height as nat) + ") with "@ + decimal(
        f.bombs.len(),
    ) + " bombs:\n"@
}

/// The text of a field: a title, then the rows from the last to the first
/// between two lines of dashes. The last line has no line break.
pub open spec fn field_text(f: Field) -> Seq<char> {
    title_text(f) + dashes((f.width + 2) as nat) + seq!['\n'] + rows_text(f, f.height as nat) + dashes(
        (f.width + 2) as nat,
    )
}

/// Writes a line of `n` dashes.
pub fn dashes_text(n: usize) -> (text: String)
    ensures
        text@ == dashes(n as nat),
{
    proof {
        reveal_strlit("-");
    }
    let mut text = String::new();
    let mut i: usize = 0;
    while i < n
        invariant
            i <= n,
            text@ == dashes(i as nat),
            "-"@ == seq!['-'],
        decreases n - i,
    {
        text.append("-");
        assert(text@ =~= dashes((i + 1) as nat));
        i = i + 1;
    }
    text
}

fn digit_text(d: u16) -> (text: &'static str)
    requires
        d < 10,
    ensures
        text@ == seq![digit_char(d as nat)],
{
    proof {
        reveal_strlit("0");
        reveal_strlit("1");
        reveal_strlit("2");
        reveal_strlit("3");
        reveal_strlit("4");
        reveal_strlit("5");
        reveal_strlit("6");
        reveal_strlit("7");
        reveal_strlit("8");
        reveal_strlit("9");
    }
    let text = if d == 0 {
        "0"
    } else if d == 1 {
        "1"
    } else if d == 2 {
        "2"
    } else if d == 3 {
        "3"
    } else if d == 4 {
        "4"
    } else if d == 5 {
        "5"
    } else if d == 6 {
        "6"
    } else if d == 7 {
        "7"
    } else if d == 8 {
        "8"
    } else {
        "9"
    };
    assert(text@ =~= seq![digit_char(d as nat)]);
    text
}

/// Writes a number in decimal digits.
pub fn decimal_text(n: u16) -> (text: String)
    ensures
        text@ == decimal(n as nat),
    decreases n,
{
    if n < 10 {
        String::from_str(digit_text(n))
    } else {
        let mut text = decimal_text(n / 10);
        text.append(digit_text(n % 10));
        assert(text@ =~= decimal(n as nat));
        text
    }
}

impl Cell {
    /// Returns an ASCII representation of the cell.
    pub fn console_output(&self) -> (text: String)
        ensures
            text@ == cell_text(*self),
    {
        proof {
            reveal_strlit(" ");
            reveal_strlit("*");
        }
        match self {
            Cell::Empty => {
                let text = String::from_str(" ");
                assert(text@ =~= seq![' ']);
                text
            },
            Cell::Bomb => {
                let text = String::from_str("*");
                assert(text@ =~= seq!['*']);
                text
            },
            Cell::BombNeighbor(v) => decimal_text(*v as u16),
        }
    }
}

impl Coordinates {
    /// The position as text: `(x, y)`.
    pub fn to_text(&self) -> (text: String)
        ensures
            text@ == coordinates_text(*self),
    {
        proof {
            reveal_strlit("(");
            reveal_strlit(", ");
            reveal_strlit(")");
        }
        let mut text = String::from_str("(");
        text.append(decimal_text(self.x).as_str());
        text.append(", ");
        text.append(decimal_text(self.y).as_str());
        text.append(")");
        assert(text@ =~= coordinates_text(*self));
        text
    }
}

} // verus!
