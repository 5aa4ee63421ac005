//! The cascade of a reveal, worked off from a queue.

use vstd::prelude::*;
use crate::cascade::{
    cascade, lemma_cascade_start, lemma_cascade_step, lemma_cascade_stops, lemma_cascade_within,
    lemma_empty_has_no_bomb_around, reaches, Signal,
};
use crate::coordinates::Coordinates;
use crate::coverage::CoverageState;
use crate::field::{adjacent, neighbor, Cell, Field};
use crate::grid::{neighbor_step, Grid};

verus! {

/// What a reveal has done: the cells that it has uncovered, in the order in
/// which it has uncovered them, and how it ends the game, if it does.
pub struct RevealOutcome {
    pub uncovered: Vec<Coordinates>,
    pub signal: Option<Signal>,
}

/// A cell of the queue other than the target lies next to an empty cell
/// that was uncovered.
spec fn pushed_from(f: Field, done: Seq<Coordinates>, q: Coordinates) -> bool {
    exists|e: Coordinates| #[trigger] done.contains(e) && f.cell(e) is Empty && adjacent(e, q)
}

/// The cell `n` needs no further work, or is still in the queue.
spec fn settled(start: Set<Coordinates>, done: Seq<Coordinates>, queue: Seq<Coordinates>, n: Coordinates) -> bool {
    done.contains(n) || queue.contains(n) || !start.contains(n)
}

/// The target and the cells around every uncovered empty cell are settled.
spec fn all_settled(
    f: Field,
    start: Set<Coordinates>,
    done: Seq<Coordinates>,
    queue: Seq<Coordinates>,
    target: Coordinates,
) -> bool {
    &&& settled(start, done, queue, target)
    &&& forall|e: Coordinates, i: int|
        done.contains(e) && f.cell(e) is Empty && 0 <= i < 8 ==> #[trigger] settled(
            start,
            done,
            queue,
            neighbor(e, i),
        )
}

proof fn lemma_push_contains(s: Seq<Coordinates>, x: Coordinates)
    ensures
        forall|q: Coordinates| #[trigger] s.push(x).contains(q) <==> (s.contains(q) || q == x),
{
    assert forall|q: Coordinates| #[trigger] s.push(x).contains(q) <==> (s.contains(q) || q == x) by {
        if s.push(x).contains(q) {
            let k = choose|k: int| 0 <= k < s.push(x).len() && s.push(x)[k] == q;
            if k < s.len() {
                assert(s[k] == q);
            }
        }
        if s.contains(q) {
            let k = choose|k: int| 0 <= k < s.len() && s[k] == q;
            assert(s.push(x)[k] == q);
        }
        if q == x {
            assert(s.push(x)[s.len() as int] == q);
        }
    }
}

/// Puts the eight cells around `c` on the queue.
fn push_neighbors(queue: &mut Vec<Coordinates>, c: Coordinates)
    ensures
        forall|q: Coordinates|
            #[trigger] final(queue)@.contains(q) <==> (old(queue)@.contains(q) || adjacent(c, q)),
        final(queue)@.len() == old(queue)@.len() + 8,
{
    let mut i: usize = 0;
    while i < 8
        invariant
            i <= 8,
            queue@.len() == old(queue)@.len() + i,
            forall|q: Coordinates|
                #[trigger] queue@.contains(q) <==> (old(queue)@.contains(q) || exists|k: int|
                    0 <= k < i && q == #[trigger] neighbor(c, k)),
        decreases 8 - i,
    {
        let step = neighbor_step(i);
        let n = c.offset(step.0, step.1);
        proof {
            lemma_push_contains(queue@, n);
            assert(n == neighbor(c, i as int));
        }
        let ghost before = queue@;
        queue.push(n);
        assert forall|q: Coordinates| #[trigger] queue@.contains(q) <==> (old(queue)@.contains(q) || exists|
            k: int,
        | 0 <= k < i + 1 && q == #[trigger] neighbor(c, k)) by {
            if queue@.contains(q) {
                if before.contains(q) {
                    if !old(queue)@.contains(q) {
                        let k = choose|k: int| 0 <= k < i && q == #[trigger] neighbor(c, k);
                        assert(0 <= k < i + 1 && q == neighbor(c, k));
                    }
                } else {
                    assert(q == neighbor(c, i as int));
                }
            }
            if exists|k: int| 0 <= k < i + 1 && q == #[trigger] neighbor(c, k) {
                let k = choose|k: int| 0 <= k < i + 1 && q == #[trigger] neighbor(c, k);
                if k < i {
                    assert(before.contains(q));
                }
            }
        }
        i = i + 1;
    }
}

/// Resolves a reveal of `target`: uncovers `target` if it is covered and,
/// from every empty cell that it uncovers, the covered cells around it, and
/// so on, until no cell is left to look at or a bomb was uncovered.
///
/// A cell that is not covered, or lies outside the field, is passed over.
/// Flags do not stop the cascade. Where no bomb was uncovered and only as
/// many cells stay covered as there are bombs, the field is cleared.
pub fn resolve_reveal(field: &Grid, coverage: &mut CoverageState, target: Coordinates) -> (outcome:
    RevealOutcome)
    requires
        old(coverage).wf(),
        old(coverage)@.width == field@.width,
        old(coverage)@.height == field@.height,
    ensures
        final(coverage).wf(),
        final(coverage)@ == old(coverage)@.after_reveal(field@, target),
        outcome.uncovered@.no_duplicates(),
        outcome.uncovered@.to_set() == cascade(field@, old(coverage)@.covered, target),
        outcome.signal == old(coverage)@.signal(field@, target),
{
    let ghost f = field@;
    let ghost start = coverage@;
    proof {
        coverage.lemma_wf();
    }
    let mut queue: Vec<Coordinates> = Vec::new();
    let mut uncovered: Vec<Coordinates> = Vec::new();
    let mut exploded = false;
    proof {
        lemma_push_contains(queue@, target);
    }
    queue.push(target);
    while queue.len() > 0 && !exploded
        invariant
            coverage.wf(),
            start.wf(),
            f == field@,
            coverage@.width == start.width,
            coverage@.height == start.height,
            start.width == f.width,
            start.height == f.height,
            forall|c: Coordinates|
                coverage@.covered.contains(c) <==> (start.covered.contains(c) && !uncovered@.contains(c)),
            forall|c: Coordinates|
                coverage@.flagged.contains(c) <==> (start.flagged.contains(c) && !uncovered@.contains(c)),
            uncovered@.no_duplicates(),
            forall|c: Coordinates| uncovered@.contains(c) ==> reaches(f, start.covered, target, c),
            uncovered@.len() > 0 ==> uncovered@.contains(target),
            forall|q: Coordinates| queue@.contains(q) ==> q == target || pushed_from(f, uncovered@, q),
            exploded ==> f.is_bomb_at(target) && start.covered.contains(target) && uncovered@ =~= seq![target],
            !exploded ==> all_settled(f, start.covered, uncovered@, queue@, target),
            !exploded ==> forall|c: Coordinates| uncovered@.contains(c) ==> !f.is_bomb_at(c),
        decreases coverage@.covered.len(), queue@.len(),
    {
        let ghost queue_before = queue@;
        let ghost done_before = uncovered@;
        let ghost covered_before = coverage@.covered;
        let c = queue.pop().unwrap();
        assert(queue_before =~= queue@.push(c));
        proof {
            lemma_push_contains(queue@, c);
            coverage.lemma_wf();
        }
        assert(queue_before.contains(c));
        let was_covered = coverage.uncover(c);
        if was_covered {
            proof {
                lemma_push_contains(uncovered@, c);
            }
            uncovered.push(c);
            assert(start.covered.contains(c) && !done_before.contains(c));
            assert(c == target || pushed_from(f, done_before, c));
            assert(done_before.len() == 0 ==> c == target) by {
                if done_before.len() == 0 && pushed_from(f, done_before, c) {
                    let e = choose|e: Coordinates| #[trigger]
                        done_before.contains(e) && f.cell(e) is Empty && adjacent(e, c);
                }
            }
            assert(reaches(f, start.covered, target, c)) by {
                if c == target {
                    lemma_cascade_start(f, start.covered, target);
                } else {
                    let e = choose|e: Coordinates| #[trigger]
                        done_before.contains(e) && f.cell(e) is Empty && adjacent(e, c);
                    lemma_cascade_step(f, start.covered, target, e, c);
                }
            }
            assert(f.is_bomb_at(c) ==> c == target && done_before.len() == 0) by {
                if f.is_bomb_at(c) {
                    if c != target {
                        let e = choose|e: Coordinates| #[trigger]
                            done_before.contains(e) && f.cell(e) is Empty && adjacent(e, c);
                        lemma_empty_has_no_bomb_around(f, e, c);
                    }
                }
            }
            assert(start.in_bounds(c));
            let cell = field.cell_at(c);
            assert(cell == Some(f.cell(c)));
            assert forall|q: Coordinates| queue@.contains(q) implies q == target || pushed_from(
                f,
                uncovered@,
                q,
            ) by {
                assert(queue@.push(c).contains(q));
                assert(queue_before.contains(q));
                if q != target {
                    assert(pushed_from(f, done_before, q));
                    let e = choose|e: Coordinates| #[trigger]
                        done_before.contains(e) && f.cell(e) is Empty && adjacent(e, q);
                    assert(uncovered@.contains(e));
                }
            }
            match cell {
                Some(Cell::Bomb) => {
                    exploded = true;
                    assert(uncovered@ =~= seq![target]);
                },
                Some(Cell::Empty) => {
                    let ghost queue_mid = queue@;
                    push_neighbors(&mut queue, c);
                    assert forall|q: Coordinates| queue@.contains(q) implies q == target || pushed_from(
                        f,
                        uncovered@,
                        q,
                    ) by {
                        if !queue_mid.contains(q) {
                            assert(uncovered@.contains(c) && f.cell(c) is Empty && adjacent(c, q));
                        }
                    }
                    assert(all_settled(f, start.covered, uncovered@, queue@, target)) by {
                        assert(settled(start.covered, done_before, queue_before, target));
                        assert forall|e: Coordinates, i: int|
                            uncovered@.contains(e) && f.cell(e) is Empty && 0 <= i < 8 implies #[trigger] settled(
                            start.covered,
                            uncovered@,
                            queue@,
                            neighbor(e, i),
                        ) by {
                            if e == c {
                                assert(adjacent(c, neighbor(c, i)));
                            } else {
                                assert(settled(start.covered, done_before, queue_before, neighbor(e, i)));
                            }
                        }
                    }
                },
                _ => {
                    assert(all_settled(f, start.covered, uncovered@, queue@, target)) by {
                        assert(settled(start.covered, done_before, queue_before, target));
                        assert forall|e: Coordinates, i: int|
                            uncovered@.contains(e) && f.cell(e) is Empty && 0 <= i < 8 implies #[trigger] settled(
                            start.covered,
                            uncovered@,
                            queue@,
                            neighbor(e, i),
                        ) by {
                            assert(e != c);
                            assert(settled(start.covered, done_before, queue_before, neighbor(e, i)));
                        }
                    }
                },
            }
        } else {
            assert forall|q: Coordinates| queue@.contains(q) implies q == target || pushed_from(
                f,
                uncovered@,
                q,
            ) by {
                assert(queue@.push(c).contains(q));
                assert(queue_before.contains(q));
            }
            assert(all_settled(f, start.covered, uncovered@, queue@, target)) by {
                assert(settled(start.covered, done_before, queue_before, target));
                assert forall|e: Coordinates, i: int|
                    uncovered@.contains(e) && f.cell(e) is Empty && 0 <= i < 8 implies #[trigger] settled(
                    start.covered,
                    uncovered@,
                    queue@,
                    neighbor(e, i),
                ) by {
                    assert(settled(start.covered, done_before, queue_before, neighbor(e, i)));
                }
            }
        }
    }
    let ghost all = cascade(f, start.covered, target);
    proof {
        lemma_cascade_start(f, start.covered, target);
        if exploded {
            lemma_cascade_stops(f, start.covered, target);
            assert(uncovered@[0] == target);
        } else {
            assert forall|e: Coordinates, i: int|
                uncovered@.to_set().contains(e) && f.cell(e) is Empty && 0 <= i < 8 && start.covered.contains(
                    #[trigger] neighbor(e, i),
                ) implies uncovered@.to_set().contains(neighbor(e, i)) by {
                assert(settled(start.covered, uncovered@, queue@, neighbor(e, i)));
            }
            assert(settled(start.covered, uncovered@, queue@, target));
            lemma_cascade_within(f, start.covered, target, uncovered@.to_set());
        }
        assert(uncovered@.to_set() =~= all);
        assert(coverage@.covered =~= start.covered.difference(all));
        assert(coverage@.flagged =~= start.flagged.difference(all));
    }
    let signal = if exploded {
        Some(Signal::Exploded)
    } else if coverage.covered_count() == field.bomb_count() as usize {
        Some(Signal::Cleared)
    } else {
        None
    };
    RevealOutcome { uncovered, signal }
}

} // verus!
