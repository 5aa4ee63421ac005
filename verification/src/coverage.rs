//! Which cells of a field are still covered, and which of them carry a flag.

use vstd::prelude::*;
use vstd::set_lib::lemma_map_size;
use crate::coordinates::Coordinates;
use crate::covered::CoveredCells;

verus! {

/// What the player sees of a field of `width` by `height` cells: the cells
/// that are still covered, and those of them that carry a flag.
pub struct Coverage {
    pub width: u16,
    pub height: u16,
    pub covered: Set<Coordinates>,
    pub flagged: Set<Coordinates>,
}

impl Coverage {
    /// Whether `c` names a cell of the field.
    pub open spec fn in_bounds(self, c: Coordinates) -> bool {
        c.x < self.width && c.y < self.height
    }

    /// The covered cells lie inside the field and are finitely many, and only
    /// covered cells carry a flag.
    pub open spec fn wf(self) -> bool {
        &&& self.covered.finite()
        &&& forall|c: Coordinates| self.covered.contains(c) ==> self.in_bounds(c)
        &&& forall|c: Coordinates| self.flagged.contains(c) ==> self.covered.contains(c)
    }

    /// The state at the start of a game: every cell covered, none flagged.
    pub open spec fn fresh(width: u16, height: u16) -> Coverage {
        Coverage {
            width,
            height,
            covered: Set::new(|c: Coordinates| c.x < width && c.y < height),
            flagged: Set::empty(),
        }
    }

    /// The state after the cell at `c` was uncovered: it is neither covered
    /// nor flagged, and nothing else has changed.
    pub open spec fn uncover(self, c: Coordinates) -> Coverage {
        Coverage { covered: self.covered.remove(c), flagged: self.flagged.remove(c), ..self }
    }

    /// The state after the flag of the cell at `c` was toggled: a covered
    /// cell gains or loses its flag, and nothing else changes.
    pub open spec fn toggle_flag(self, c: Coordinates) -> Coverage {
        if !self.covered.contains(c) {
            self
        } else if self.flagged.contains(c) {
            Coverage { flagged: self.flagged.remove(c), ..self }
        } else {
            Coverage { flagged: self.flagged.insert(c), ..self }
        }
    }
}

/// The key under which the table holds the cell at `c`.
pub open spec fn key_of(c: Coordinates) -> (u16, u16) {
    (c.x, c.y)
}

/// The positions that a table of covered cells holds.
pub open spec fn covered_of(entries: Map<(u16, u16), bool>) -> Set<Coordinates> {
    Set::new(|c: Coordinates| entries.dom().contains(key_of(c)))
}

/// The positions that a table of covered cells holds with a flag.
pub open spec fn flagged_of(entries: Map<(u16, u16), bool>) -> Set<Coordinates> {
    Set::new(|c: Coordinates| entries.dom().contains(key_of(c)) && entries[key_of(c)])
}

/// A finite table holds finitely many positions, as many as it has entries.
pub proof fn lemma_covered_of_len(entries: Map<(u16, u16), bool>)
    requires
        entries.dom().finite(),
    ensures
        covered_of(entries).finite(),
        covered_of(entries).len() == entries.dom().len(),
{
    let f = |k: (u16, u16)| Coordinates { x: k.0, y: k.1 };
    assert(entries.dom().map(f) =~= covered_of(entries)) by {
        assert forall|c: Coordinates| entries.dom().map(f).contains(c) == covered_of(entries).contains(
            c,
        ) by {
            if covered_of(entries).contains(c) {
                assert(entries.dom().contains(key_of(c)) && c == f(key_of(c)));
            }
        }
    }
    assert(vstd::relations::injective_on(f, entries.dom()));
    lemma_map_size(entries.dom(), covered_of(entries), f);
}

/// The covered and the flagged cells of one session.
///
/// At the start every cell of the field is covered and none is flagged.
/// Uncovering a cell is for good.
pub struct CoverageState {
    width: u16,
    height: u16,
    cells: CoveredCells,
}

impl View for CoverageState {
    type V = Coverage;

    closed spec fn view(&self) -> Coverage {
        Coverage {
            width: self.width,
            height: self.height,
            covered: covered_of(self.cells@),
            flagged: flagged_of(self.cells@),
        }
    }
}

impl CoverageState {
    /// What holds of every coverage state that `new` has made and the
    /// methods below have changed: the table is finite and holds cells of
    /// the field only.
    pub closed spec fn wf(&self) -> bool {
        &&& self.cells@.dom().finite()
        &&& forall|k: (u16, u16)| self.cells@.dom().contains(k) ==> k.0 < self.width && k.1 < self.height
    }

    /// A valid coverage state has a valid view.
    pub proof fn lemma_wf(&self)
        requires
            self.wf(),
        ensures
            self@.wf(),
    {
        lemma_covered_of_len(self.cells@);
        assert forall|c: Coordinates| self@.covered.contains(c) implies self@.in_bounds(c) by {
            assert(self.cells@.dom().contains(key_of(c)));
        }
    }

    /// The state at the start of a game on a field of `width` by `height`
    /// cells: every cell covered, none flagged.
    pub fn new(width: u16, height: u16) -> (state: CoverageState)
        ensures
            state.wf(),
            state@ == Coverage::fresh(width, height),
            state@.covered.len() == (width as nat) * (height as nat),
    {
        let mut cells = CoveredCells::new();
        let mut y: u16 = 0;
        assert((width as nat) * 0 == 0);
        while y < height
            invariant
                y <= height,
                cells@.dom().finite(),
                cells@.dom().len() == (width as nat) * (y as nat),
                forall|k: (u16, u16)| cells@.dom().contains(k) <==> (k.0 < width && k.1 < y),
                forall|k: (u16, u16)| cells@.dom().contains(k) ==> !cells@[k],
            decreases height - y,
        {
            let mut x: u16 = 0;
            while x < width
                invariant
                    x <= width,
                    y < height,
                    cells@.dom().finite(),
                    cells@.dom().len() == (width as nat) * (y as nat) + x,
                    forall|k: (u16, u16)|
                        cells@.dom().contains(k) <==> (k.0 < width && (k.1 < y || (k.1 == y && k.0 < x))),
                    forall|k: (u16, u16)| cells@.dom().contains(k) ==> !cells@[k],
                decreases width - x,
            {
                assert(!cells@.dom().contains((x, y)));
                cells.insert((x, y), false);
                x = x + 1;
            }
            assert((width as nat) * (y as nat) + width == (width as nat) * ((y + 1) as nat))
                by (nonlinear_arith);
            y = y + 1;
        }
        proof {
            lemma_covered_of_len(cells@);
            assert(covered_of(cells@) =~= Coverage::fresh(width, height).covered);
            assert(flagged_of(cells@) =~= Coverage::fresh(width, height).flagged);
        }
        CoverageState { width, height, cells }
    }

    pub fn width(&self) -> (w: u16)
        ensures
            w == self@.width,
    {
        self.width
    }

    pub fn height(&self) -> (h: u16)
        ensures
            h == self@.height,
    {
        self.height
    }

    /// Whether the cell at `coord` is still covered. No position outside the
    /// field is.
    pub fn is_covered(&self, coord: Coordinates) -> (r: bool)
        requires
            self.wf(),
        ensures
            r == self@.covered.contains(coord),
            !self@.in_bounds(coord) ==> !r,
    {
        self.cells.get((coord.x, coord.y)).is_some()
    }

    /// Whether the cell at `coord` carries a flag.
    pub fn is_flagged(&self, coord: Coordinates) -> (r: bool)
        ensures
            r == self@.flagged.contains(coord),
    {
        match self.cells.get((coord.x, coord.y)) {
            Some(flagged) => flagged,
            None => false,
        }
    }

    /// The number of cells that are still covered.
    pub fn covered_count(&self) -> (n: usize)
        requires
            self.wf(),
        ensures
            n == self@.covered.len(),
    {
        proof {
            lemma_covered_of_len(self.cells@);
        }
        self.cells.len()
    }

    /// Uncovers the cell at `coord`, and tells whether it was covered. The
    /// cell loses its flag with its cover. Where the cell is not covered, or
    /// `coord` is outside the field, nothing changes.
    pub fn uncover(&mut self, coord: Coordinates) -> (was_covered: bool)
        requires
            old(self).wf(),
        ensures
            final(self).wf(),
            final(self)@ == old(self)@.uncover(coord),
            was_covered == old(self)@.covered.contains(coord),
            !was_covered ==> final(self)@ == old(self)@,
    {
        let ghost before = self.cells@;
        let previous = self.cells.remove((coord.x, coord.y));
        proof {
            assert(covered_of(self.cells@) =~= covered_of(before).remove(coord));
            assert(flagged_of(self.cells@) =~= flagged_of(before).remove(coord));
            if previous is None {
                assert(covered_of(before).remove(coord) =~= covered_of(before));
                assert(flagged_of(before).remove(coord) =~= flagged_of(before));
            }
        }
        previous.is_some()
    }

    /// Toggles the flag of the cell at `coord`: a covered cell without a flag
    /// gains one, a flagged cell loses it. Returns whether the cell carries a
    /// flag afterwards, or `None` where the cell is not covered and nothing
    /// has changed.
    pub fn toggle_flag(&mut self, coord: Coordinates) -> (now_flagged: Option<bool>)
        requires
            old(self).wf(),
        ensures
            final(self).wf(),
            final(self)@ == old(self)@.toggle_flag(coord),
            now_flagged == (if old(self)@.covered.contains(coord) {
                Some(!old(self)@.flagged.contains(coord))
            } else {
                None
            }),
    {
        let ghost before = self.cells@;
        match self.cells.get((coord.x, coord.y)) {
            Some(flagged) => {
                self.cells.insert((coord.x, coord.y), !flagged);
                proof {
                    assert(self.cells@.dom() =~= before.dom());
                    assert(covered_of(self.cells@) =~= covered_of(before));
                    if flagged {
                        assert(flagged_of(self.cells@) =~= flagged_of(before).remove(coord));
                    } else {
                        assert(flagged_of(self.cells@) =~= flagged_of(before).insert(coord));
                    }
                }
                Some(!flagged)
            },
            None => None,
        }
    }
}

} // verus!
