//! What a reveal uncovers, as a statement about paths through the field.

use vstd::prelude::*;
use crate::coordinates::Coordinates;
use crate::coverage::Coverage;
use crate::field::{adjacent, lemma_bombs_among_zero, neighbor, Field};

verus! {

/// How a reveal can end a game.
#[derive(Debug, Copy, Clone, Eq, PartialEq, Structural)]
pub enum Signal {
    /// A bomb was uncovered.
    Exploded,
    /// Only the bombs are still covered.
    Cleared,
}

/// A way that a cascade can take: a run of covered cells, each next to the
/// one before it, all of them empty but possibly the last.
pub open spec fn cascade_path(field: Field, covered: Set<Coordinates>, path: Seq<Coordinates>) -> bool {
    &&& path.len() > 0
    &&& forall|i: int| 0 <= i < path.len() ==> covered.contains(#[trigger] path[i])
    &&& forall|i: int|
        0 <= i < path.len() - 1 ==> field.cell(#[trigger] path[i]) is Empty && adjacent(
            path[i],
            path[i + 1],
        )
}

/// Whether a cascade that starts at `target` gets to `c`.
pub open spec fn reaches(field: Field, covered: Set<Coordinates>, target: Coordinates, c: Coordinates) -> bool {
    exists|path: Seq<Coordinates>|
        #[trigger] cascade_path(field, covered, path) && path[0] == target && path.last() == c
}

/// The cells that a reveal of `target` uncovers: the covered cells that a
/// cascade from `target` gets to.
pub open spec fn cascade(field: Field, covered: Set<Coordinates>, target: Coordinates) -> Set<Coordinates> {
    Set::new(|c: Coordinates| reaches(field, covered, target, c))
}

impl Coverage {
    /// The state after a reveal of `target`: the cells of the cascade are
    /// neither covered nor flagged, and nothing else has changed.
    pub open spec fn after_reveal(self, field: Field, target: Coordinates) -> Coverage {
        Coverage {
            covered: self.covered.difference(cascade(field, self.covered, target)),
            flagged: self.flagged.difference(cascade(field, self.covered, target)),
            ..self
        }
    }

    /// How a reveal of `target` ends the game, if it does: with an explosion
    /// where `target` is a covered bomb; else with a cleared field where
    /// afterwards as many cells are covered as there are bombs.
    pub open spec fn signal(self, field: Field, target: Coordinates) -> Option<Signal> {
        if self.covered.contains(target) && field.is_bomb_at(target) {
            Some(Signal::Exploded)
        } else if self.after_reveal(field, target).covered.len() == field.bombs.len() {
            Some(Signal::Cleared)
        } else {
            None
        }
    }
}

/// A cascade starts at its target: the target is in it exactly when it is
/// covered, and nothing is in it when the target is not.
pub proof fn lemma_cascade_start(field: Field, covered: Set<Coordinates>, target: Coordinates)
    ensures
        cascade(field, covered, target).contains(target) == covered.contains(target),
        !covered.contains(target) ==> cascade(field, covered, target) == Set::<Coordinates>::empty(),
        cascade(field, covered, target).subset_of(covered),
{
    if covered.contains(target) {
        let path = seq![target];
        assert(cascade_path(field, covered, path));
        assert(path[0] == target && path.last() == target);
        assert(reaches(field, covered, target, target));
    }
    assert forall|c: Coordinates| cascade(field, covered, target).contains(c) implies covered.contains(c)
        && covered.contains(target) by {
        let path = choose|path: Seq<Coordinates>|
            #[trigger] cascade_path(field, covered, path) && path[0] == target && path.last() == c;
        assert(covered.contains(path[0]));
        assert(covered.contains(path[path.len() - 1]));
    }
    if !covered.contains(target) {
        assert(cascade(field, covered, target) =~= Set::<Coordinates>::empty());
    }
}

/// A cascade does not go on from a cell that is not empty: from such a
/// target it uncovers the target alone.
pub proof fn lemma_cascade_stops(field: Field, covered: Set<Coordinates>, target: Coordinates)
    requires
        covered.contains(target),
        !(field.cell(target) is Empty),
    ensures
        cascade(field, covered, target) == set![target],
{
    lemma_cascade_start(field, covered, target);
    assert forall|c: Coordinates| cascade(field, covered, target).contains(c) implies c == target by {
        let path = choose|path: Seq<Coordinates>|
            #[trigger] cascade_path(field, covered, path) && path[0] == target && path.last() == c;
        if path.len() > 1 {
            assert(field.cell(path[0]) is Empty);
        }
    }
    assert(cascade(field, covered, target) =~= set![target]);
}

/// A cascade goes one cell further from an empty cell that it has reached.
pub proof fn lemma_cascade_step(
    field: Field,
    covered: Set<Coordinates>,
    target: Coordinates,
    e: Coordinates,
    c: Coordinates,
)
    requires
        reaches(field, covered, target, e),
        field.cell(e) is Empty,
        adjacent(e, c),
        covered.contains(c),
    ensures
        reaches(field, covered, target, c),
{
    let path = choose|path: Seq<Coordinates>|
        #[trigger] cascade_path(field, covered, path) && path[0] == target && path.last() == e;
    let longer = path.push(c);
    assert forall|i: int| 0 <= i < longer.len() implies covered.contains(#[trigger] longer[i]) by {
        if i < path.len() {
            assert(longer[i] == path[i]);
        }
    }
    assert forall|i: int| 0 <= i < longer.len() - 1 implies field.cell(#[trigger] longer[i]) is Empty
        && adjacent(longer[i], longer[i + 1]) by {
        assert(longer[i] == path[i]);
        if i < path.len() - 1 {
            assert(longer[i + 1] == path[i + 1]);
            assert(field.cell(path[i]) is Empty && adjacent(path[i], path[i + 1]));
        }
    }
    assert(cascade_path(field, covered, longer));
    assert(longer[0] == target && longer.last() == c);
}

/// A set of cells that holds the target and, with every empty cell, the
/// covered cells around it, holds the whole cascade.
pub proof fn lemma_cascade_within(
    field: Field,
    covered: Set<Coordinates>,
    target: Coordinates,
    closed: Set<Coordinates>,
)
    requires
        covered.contains(target) ==> closed.contains(target),
        forall|e: Coordinates, i: int|
            closed.contains(e) && field.cell(e) is Empty && 0 <= i < 8 && covered.contains(
                #[trigger] neighbor(e, i),
            ) ==> closed.contains(neighbor(e, i)),
    ensures
        cascade(field, covered, target).subset_of(closed),
{
    assert forall|c: Coordinates| cascade(field, covered, target).contains(c) implies closed.contains(c) by {
        let path = choose|path: Seq<Coordinates>|
            #[trigger] cascade_path(field, covered, path) && path[0] == target && path.last() == c;
        lemma_path_within(field, covered, closed, path, path.len() - 1);
    }
}

proof fn lemma_path_within(
    field: Field,
    covered: Set<Coordinates>,
    closed: Set<Coordinates>,
    path: Seq<Coordinates>,
    upto: int,
)
    requires
        cascade_path(field, covered, path),
        0 <= upto < path.len(),
        closed.contains(path[0]),
        forall|e: Coordinates, i: int|
            closed.contains(e) && field.cell(e) is Empty && 0 <= i < 8 && covered.contains(
                #[trigger] neighbor(e, i),
            ) ==> closed.contains(neighbor(e, i)),
    ensures
        closed.contains(path[upto]),
    decreases upto,
{
    if upto > 0 {
        lemma_path_within(field, covered, closed, path, upto - 1);
        let e = path[upto - 1];
        assert(field.cell(e) is Empty && adjacent(e, path[upto - 1 + 1]));
        let i = choose|i: int| 0 <= i < 8 && path[upto] == #[trigger] neighbor(e, i);
        assert(covered.contains(path[upto]));
        assert(closed.contains(neighbor(e, i)));
    }
}

/// No bomb lies next to an empty cell.
pub proof fn lemma_empty_has_no_bomb_around(field: Field, e: Coordinates, c: Coordinates)
    requires
        field.cell(e) is Empty,
        adjacent(e, c),
    ensures
        !field.is_bomb_at(c),
{
    lemma_bombs_among_zero(field, e, 8);
    let i = choose|i: int| 0 <= i < 8 && c == #[trigger] neighbor(e, i);
    assert(!field.is_bomb_at(neighbor(e, i)));
}

} // verus!
