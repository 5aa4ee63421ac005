//! What holds of every field, every coverage and every session.

use vstd::prelude::*;
use crate::cascade::{
    cascade, cascade_path, lemma_cascade_start, lemma_empty_has_no_bomb_around, reaches, Signal,
};
use crate::coordinates::Coordinates;
use crate::coverage::Coverage;
use crate::field::{adjacent, lemma_bombs_among_bound, neighbor, neighbor_offset, Cell, Field};
use crate::session::{Phase, SessionState};

verus! {

/// A neighbour of a position is a cell of the field exactly when the
/// position moved by the neighbour's step, over the integers, is inside the
/// field: a step over the edge of the field or of the number range never
/// comes back in on the other side.
pub proof fn lemma_neighbor_in_bounds(f: Field, c: Coordinates, i: int)
    requires
        0 <= i < 8,
    ensures
        f.in_bounds(neighbor(c, i)) <==> (0 <= c.x + neighbor_offset(i).0 < f.width && 0 <= c.y
            + neighbor_offset(i).1 < f.height),
        f.in_bounds(neighbor(c, i)) ==> neighbor(c, i).x == c.x + neighbor_offset(i).0 && neighbor(c, i).y
            == c.y + neighbor_offset(i).1,
        f.in_bounds(c) ==> neighbor(c, i) != c,
{
}

/// The number of bombs that the eight neighbours of a position hold is the
/// number of bombs on the cells of the field that touch it.
pub proof fn lemma_adjacent_bombs(f: Field, c: Coordinates)
    ensures
        f.adjacent_bombs(c) == f.bombs_around(c),
        f.adjacent_bombs(c) <= 8,
{
    reveal_with_fuel(Field::bombs_among, 9);
    lemma_bombs_among_bound(f, c, 8);
    assert(f.is_bomb_at(neighbor(c, 0)) == f.bomb_at(c.x - 1, c.y + 1));
    assert(f.is_bomb_at(neighbor(c, 1)) == f.bomb_at(c.x as int, c.y + 1));
    assert(f.is_bomb_at(neighbor(c, 2)) == f.bomb_at(c.x + 1, c.y + 1));
    assert(f.is_bomb_at(neighbor(c, 3)) == f.bomb_at(c.x - 1, c.y as int));
    assert(f.is_bomb_at(neighbor(c, 4)) == f.bomb_at(c.x + 1, c.y as int));
    assert(f.is_bomb_at(neighbor(c, 5)) == f.bomb_at(c.x - 1, c.y - 1));
    assert(f.is_bomb_at(neighbor(c, 6)) == f.bomb_at(c.x as int, c.y - 1));
    assert(f.is_bomb_at(neighbor(c, 7)) == f.bomb_at(c.x + 1, c.y - 1));
}

/// The cells that show a bomb are the bombs of the field, so there are as
/// many of them as the field has bombs.
pub proof fn lemma_bomb_cells(f: Field)
    requires
        f.wf(),
    ensures
        Set::new(|c: Coordinates| f.in_bounds(c) && f.cell(c) is Bomb) == f.bombs,
        Set::new(|c: Coordinates| f.in_bounds(c) && f.cell(c) is Bomb).len() == f.bombs.len(),
{
    assert(Set::new(|c: Coordinates| f.in_bounds(c) && f.cell(c) is Bomb) =~= f.bombs);
}

/// A cell without a bomb shows the number of bombs on the cells of the
/// field that touch it: nothing where there is none, else that number,
/// which is between 1 and 8. No cell shows both a bomb and a number.
pub proof fn lemma_cell_shows_count(f: Field, c: Coordinates)
    requires
        f.wf(),
        f.in_bounds(c),
    ensures
        f.is_bomb_at(c) <==> f.cell(c) is Bomb,
        !f.is_bomb_at(c) ==> (match f.cell(c) {
            Cell::Empty => f.bombs_around(c) == 0,
            Cell::BombNeighbor(n) => n == f.bombs_around(c) && 1 <= n <= 8,
            Cell::Bomb => false,
        }),
        f.count_bomb_neighbors(c) == (if f.is_bomb_at(c) {
            0
        } else {
            f.bombs_around(c)
        }),
{
    lemma_adjacent_bombs(f, c);
}

/// No position outside the field holds a bomb.
pub proof fn lemma_no_bomb_outside(f: Field, c: Coordinates)
    requires
        c.x >= f.width || c.y >= f.height,
    ensures
        !f.is_bomb_at(c),
        f.count_bomb_neighbors(c) <= 8,
{
    lemma_adjacent_bombs(f, c);
}

/// A second reveal of the same cell changes nothing.
pub proof fn lemma_reveal_idempotent(s: Coverage, f: Field, target: Coordinates)
    ensures
        s.after_reveal(f, target).after_reveal(f, target) == s.after_reveal(f, target),
{
    let once = s.after_reveal(f, target);
    lemma_cascade_start(f, s.covered, target);
    lemma_cascade_start(f, once.covered, target);
    assert(!once.covered.contains(target));
    assert(once.covered.difference(cascade(f, once.covered, target)) =~= once.covered);
    assert(once.flagged.difference(cascade(f, once.covered, target)) =~= once.flagged);
}

/// A second reveal of the same cell leaves a session as the first has left
/// it.
pub proof fn lemma_session_reveal_idempotent(s: SessionState, target: Coordinates)
    ensures
        s.after_reveal(target).after_reveal(target) == s.after_reveal(target),
{
    let once = s.after_reveal(target);
    if s.phase == Phase::InGame && once.phase == Phase::InGame {
        lemma_reveal_idempotent(s.coverage, s.field, target);
        lemma_cascade_start(s.field, s.coverage.covered, target);
        assert(!once.coverage.covered.contains(target));
    }
}

/// A reveal signals a cleared field exactly when it has uncovered no bomb
/// and has left as many cells covered as the field has bombs; it signals an
/// explosion exactly when its target was a covered bomb.
pub proof fn lemma_signal(s: Coverage, f: Field, target: Coordinates)
    ensures
        s.signal(f, target) == Some(Signal::Exploded) <==> (s.covered.contains(target) && f.is_bomb_at(
            target,
        )),
        s.signal(f, target) == Some(Signal::Cleared) <==> (!(s.covered.contains(target) && f.is_bomb_at(
            target,
        )) && s.after_reveal(f, target).covered.len() == f.bombs.len()),
{
}

/// Toggling the flag of a cell twice gives back the state before; toggling
/// the flag of a cell that is not covered changes nothing.
pub proof fn lemma_toggle_flag_twice(s: Coverage, c: Coordinates)
    ensures
        s.toggle_flag(c).toggle_flag(c) == s,
        !s.covered.contains(c) ==> s.toggle_flag(c) == s,
        s.covered.contains(c) ==> (s.toggle_flag(c).flagged.contains(c) <==> !s.flagged.contains(c)),
{
    if s.covered.contains(c) {
        if s.flagged.contains(c) {
            assert(s.flagged.remove(c).insert(c) =~= s.flagged);
        } else {
            assert(s.flagged.insert(c).remove(c) =~= s.flagged);
        }
    }
}

/// Flags do not change what a reveal uncovers or how it ends.
pub proof fn lemma_flags_do_not_matter(s: Coverage, f: Field, c: Coordinates, target: Coordinates)
    ensures
        s.toggle_flag(c).after_reveal(f, target).covered == s.after_reveal(f, target).covered,
        s.toggle_flag(c).signal(f, target) == s.signal(f, target),
{
}

/// A run of empty cells of the field, each next to the one before it.
pub open spec fn empty_path(f: Field, path: Seq<Coordinates>) -> bool {
    &&& path.len() > 0
    &&& forall|i: int| 0 <= i < path.len() ==> f.is_empty_at(#[trigger] path[i])
    &&& forall|i: int| 0 <= i < path.len() - 1 ==> adjacent(#[trigger] path[i], path[i + 1])
}

/// Whether `c` belongs to the connected region of empty cells around
/// `target`.
pub open spec fn in_region(f: Field, target: Coordinates, c: Coordinates) -> bool {
    exists|path: Seq<Coordinates>| #[trigger] empty_path(f, path) && path[0] == target && path.last() == c
}

/// Whether `c` belongs to the ring around the region of `target`: it shows
/// a number and lies next to a cell of the region.
pub open spec fn in_ring(f: Field, target: Coordinates, c: Coordinates) -> bool {
    &&& f.in_bounds(c)
    &&& f.cell(c) is BombNeighbor
    &&& exists|e: Coordinates| #[trigger] in_region(f, target, e) && adjacent(e, c)
}

/// A reveal of an empty cell whose region is still covered uncovers that
/// region and the covered cells of the ring of numbers around it, nothing
/// else, and no bomb.
pub proof fn lemma_cascade_is_region_and_ring(
    f: Field,
    covered: Set<Coordinates>,
    target: Coordinates,
    c: Coordinates,
)
    requires
        f.wf(),
        forall|p: Coordinates| covered.contains(p) ==> f.in_bounds(p),
        f.is_empty_at(target),
        forall|p: Coordinates| in_region(f, target, p) ==> covered.contains(p),
    ensures
        cascade(f, covered, target).contains(c) <==> ((in_region(f, target, c) || in_ring(f, target, c))
            && covered.contains(c)),
        cascade(f, covered, target).contains(c) ==> !f.is_bomb_at(c),
{
    if cascade(f, covered, target).contains(c) {
        let path = choose|path: Seq<Coordinates>|
            #[trigger] cascade_path(f, covered, path) && path[0] == target && path.last() == c;
        assert(covered.contains(path[path.len() - 1]));
        if path.len() == 1 {
            assert(empty_path(f, path));
        } else {
            let front = path.drop_last();
            assert forall|i: int| 0 <= i < front.len() implies f.is_empty_at(#[trigger] front[i]) by {
                assert(front[i] == path[i]);
                assert(covered.contains(path[i]));
                assert(f.cell(path[i]) is Empty);
            }
            assert forall|i: int| 0 <= i < front.len() - 1 implies adjacent(
                #[trigger] front[i],
                front[i + 1],
            ) by {
                assert(front[i] == path[i] && front[i + 1] == path[i + 1]);
                assert(f.cell(path[i]) is Empty && adjacent(path[i], path[i + 1]));
            }
            assert(empty_path(f, front));
            let e = front.last();
            assert(front[0] == target);
            assert(in_region(f, target, e));
            assert(e == path[path.len() - 2]);
            assert(f.cell(path[path.len() - 2]) is Empty && adjacent(
                path[path.len() - 2],
                path[path.len() - 2 + 1],
            ));
            lemma_empty_has_no_bomb_around(f, e, c);
            if f.cell(c) is Empty {
                assert forall|i: int| 0 <= i < path.len() implies f.is_empty_at(#[trigger] path[i]) by {
                    assert(covered.contains(path[i]));
                    if i < path.len() - 1 {
                        assert(f.cell(path[i]) is Empty);
                    }
                }
                assert forall|i: int| 0 <= i < path.len() - 1 implies adjacent(
                    #[trigger] path[i],
                    path[i + 1],
                ) by {
                    assert(f.cell(path[i]) is Empty && adjacent(path[i], path[i + 1]));
                }
                assert(empty_path(f, path));
            } else {
                assert(in_ring(f, target, c));
            }
        }
        if f.is_bomb_at(c) {
            assert(!in_ring(f, target, c));
            let q = choose|q: Seq<Coordinates>| #[trigger] empty_path(f, q) && q[0] == target && q.last() == c;
            assert(f.is_empty_at(q[q.len() - 1]));
        }
    }
    if in_region(f, target, c) {
        lemma_region_reached(f, covered, target, c);
    }
    if in_ring(f, target, c) && covered.contains(c) {
        let e = choose|e: Coordinates| #[trigger] in_region(f, target, e) && adjacent(e, c);
        lemma_region_reached(f, covered, target, e);
        assert(f.is_empty_at(e)) by {
            let q = choose|q: Seq<Coordinates>| #[trigger] empty_path(f, q) && q[0] == target && q.last() == e;
            assert(f.is_empty_at(q[q.len() - 1]));
        }
        crate::cascade::lemma_cascade_step(f, covered, target, e, c);
    }
}

/// Where the region of empty cells around `target` is covered, a cascade
/// from `target` gets to each of its cells.
proof fn lemma_region_reached(f: Field, covered: Set<Coordinates>, target: Coordinates, c: Coordinates)
    requires
        in_region(f, target, c),
        forall|p: Coordinates| in_region(f, target, p) ==> covered.contains(p),
    ensures
        reaches(f, covered, target, c),
{
    let path = choose|path: Seq<Coordinates>| #[trigger] empty_path(f, path) && path[0] == target && path.last() == c;
    assert forall|i: int| 0 <= i < path.len() implies covered.contains(#[trigger] path[i]) by {
        let front = path.take(i + 1);
        assert forall|k: int| 0 <= k < front.len() implies f.is_empty_at(#[trigger] front[k]) by {
            assert(front[k] == path[k]);
        }
        assert forall|k: int| 0 <= k < front.len() - 1 implies adjacent(#[trigger] front[k], front[k + 1]) by {
            assert(front[k] == path[k] && front[k + 1] == path[k + 1]);
        }
        assert(empty_path(f, front));
        assert(front[0] == target && front.last() == path[i]);
        assert(in_region(f, target, path[i]));
    }
    assert forall|i: int| 0 <= i < path.len() - 1 implies f.cell(#[trigger] path[i]) is Empty && adjacent(
        path[i],
        path[i + 1],
    ) by {
        assert(f.is_empty_at(path[i]));
    }
    assert(cascade_path(f, covered, path));
}

/// Two cells of a field that lie next to each other do so both ways.
pub proof fn lemma_adjacent_symmetric(f: Field, a: Coordinates, b: Coordinates)
    requires
        f.in_bounds(a),
        f.in_bounds(b),
        adjacent(a, b),
    ensures
        adjacent(b, a),
{
    let i = choose|i: int| 0 <= i < 8 && b == #[trigger] neighbor(a, i);
    assert(a == neighbor(b, 7 - i));
}

impl Coverage {
    /// No cascade is left unfinished: around every uncovered empty cell of
    /// the field every cell is uncovered.
    pub open spec fn cascade_closed(self, f: Field) -> bool {
        forall|c: Coordinates, i: int|
            f.is_empty_at(c) && !self.covered.contains(c) && 0 <= i < 8 ==> !self.covered.contains(
                #[trigger] neighbor(c, i),
            )
    }
}

/// At the start of a game no cascade is left unfinished.
pub proof fn lemma_fresh_is_closed(f: Field)
    ensures
        Coverage::fresh(f.width, f.height).cascade_closed(f),
{
}

/// A reveal leaves no cascade unfinished, and neither does a flag.
pub proof fn lemma_closed_is_kept(s: Coverage, f: Field, target: Coordinates)
    requires
        s.cascade_closed(f),
    ensures
        s.after_reveal(f, target).cascade_closed(f),
        s.toggle_flag(target).cascade_closed(f),
{
    let after = s.after_reveal(f, target);
    assert forall|c: Coordinates, i: int|
        f.is_empty_at(c) && !after.covered.contains(c) && 0 <= i < 8 implies !after.covered.contains(
        #[trigger] neighbor(c, i),
    ) by {
        let n = neighbor(c, i);
        if s.covered.contains(c) {
            assert(reaches(f, s.covered, target, c));
            if s.covered.contains(n) {
                assert(adjacent(c, n));
                crate::cascade::lemma_cascade_step(f, s.covered, target, c, n);
            }
        } else {
            assert(!s.covered.contains(n));
        }
    }
}

/// Where no cascade is left unfinished, the region of empty cells around a
/// covered cell is covered as a whole.
pub proof fn lemma_closed_region_is_covered(s: Coverage, f: Field, target: Coordinates, c: Coordinates)
    requires
        s.cascade_closed(f),
        s.covered.contains(target),
        in_region(f, target, c),
    ensures
        s.covered.contains(c),
{
    let path = choose|path: Seq<Coordinates>| #[trigger] empty_path(f, path) && path[0] == target && path.last() == c;
    lemma_closed_path_is_covered(s, f, path, path.len() - 1);
}

proof fn lemma_closed_path_is_covered(s: Coverage, f: Field, path: Seq<Coordinates>, upto: int)
    requires
        s.cascade_closed(f),
        empty_path(f, path),
        s.covered.contains(path[0]),
        0 <= upto < path.len(),
    ensures
        s.covered.contains(path[upto]),
    decreases upto,
{
    if upto > 0 {
        lemma_closed_path_is_covered(s, f, path, upto - 1);
        let a = path[upto - 1];
        let b = path[upto];
        assert(f.is_empty_at(a) && f.is_empty_at(b));
        assert(adjacent(path[upto - 1], path[upto - 1 + 1]));
        lemma_adjacent_symmetric(f, a, b);
        if !s.covered.contains(b) {
            let j = choose|j: int| 0 <= j < 8 && a == #[trigger] neighbor(b, j);
            assert(!s.covered.contains(neighbor(b, j)));
        }
    }
}

/// In a game, a reveal of a covered empty cell uncovers the connected
/// region of empty cells around it and the ring of numbers around that
/// region, as far as the ring is still covered; it uncovers nothing else,
/// and no bomb. Afterwards the whole region and the whole ring are
/// uncovered.
pub proof fn lemma_session_cascade(s: SessionState, target: Coordinates, c: Coordinates)
    requires
        s.wf(),
        s.phase == Phase::InGame,
        s.field.is_empty_at(target),
        s.coverage.covered.contains(target),
    ensures
        (s.coverage.covered.contains(c) && !s.after_reveal(target).coverage.covered.contains(c)) <==> ((
        in_region(s.field, target, c) || in_ring(s.field, target, c)) && s.coverage.covered.contains(c)),
        in_region(s.field, target, c) || in_ring(s.field, target, c) ==> !s.after_reveal(
            target,
        ).coverage.covered.contains(c) && !s.field.is_bomb_at(c),
        in_region(s.field, target, c) ==> s.coverage.covered.contains(c),
{
    assert forall|p: Coordinates| in_region(s.field, target, p) implies s.coverage.covered.contains(p) by {
        lemma_closed_region_is_covered(s.coverage, s.field, target, p);
    }
    assert forall|p: Coordinates| s.coverage.covered.contains(p) implies s.field.in_bounds(p) by {
        assert(s.coverage.in_bounds(p));
    }
    lemma_cascade_is_region_and_ring(s.field, s.coverage.covered, target, c);
    if in_region(s.field, target, c) {
        let q = choose|q: Seq<Coordinates>| #[trigger] empty_path(s.field, q) && q[0] == target && q.last() == c;
        assert(s.field.is_empty_at(q[q.len() - 1]));
    }
}

} // verus!
