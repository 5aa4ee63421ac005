//! Drawing positions at random.

use vstd::prelude::*;
use rand::rngs::ThreadRng;
use rand::Rng;
use crate::coordinates::Coordinates;
use crate::grid::walked;

verus! {

/// The random number generator of the current thread, `rand::rngs::ThreadRng`.
/// Nothing is known of its state.
#[verifier::external_type_specification]
#[verifier::external_body]
pub struct ExThreadRng(ThreadRng);

/// `rand::thread_rng` hands out the generator of the current thread. Nothing
/// is claimed of it.
pub assume_specification[ rand::thread_rng ]() -> (rng: ThreadRng)
;

/// `Rng::gen_range` on the range `0..bound`: some number below `bound`. The
/// range must not be empty. Which number comes is left open, so two draws
/// may differ.
#[verifier::external_body]
fn random_below(rng: &mut ThreadRng, bound: usize) -> (drawn: usize)
    requires
        bound > 0,
    ensures
        drawn < bound,
{
    rng.gen_range(0..bound)
}

/// The place of a position in the walk through a grid of `width` columns,
/// row by row.
pub open spec fn place_in_walk(c: Coordinates, width: u16) -> int {
    c.y * width + c.x
}

/// A position that is walked before column `x` of row `y` has its place
/// before the place of that column.
proof fn lemma_place_before(c: Coordinates, width: u16, x: int, y: int)
    requires
        c.x < width,
        0 <= x <= width,
        0 <= y,
        walked(c, x, y),
    ensures
        0 <= place_in_walk(c, width) < y * width + x,
{
    if c.y < y {
        assert((c.y + 1) * width <= y * width) by (nonlinear_arith)
            requires
                c.y + 1 <= y,
                width >= 0,
        ;
        assert((c.y + 1) * width == c.y * width + width) by (nonlinear_arith);
    }
    assert(c.y * width >= 0) by (nonlinear_arith)
        requires
            c.y >= 0,
            width >= 0,
    ;
}

/// Every position of a grid of `width` by `height`, each once, row by row.
pub fn all_positions(width: u16, height: u16) -> (all: Vec<Coordinates>)
    ensures
        all@.len() == (width as nat) * (height as nat),
        all@.no_duplicates(),
        forall|c: Coordinates| all@.contains(c) <==> (c.x < width && c.y < height),
        forall|c: Coordinates| c.x < width && c.y < height ==> all@[#[trigger] place_in_walk(c, width)] == c,
{
    let mut all: Vec<Coordinates> = Vec::new();
    let mut y: u16 = 0;
    assert((width as nat) * 0 == 0);
    while y < height
        invariant
            y <= height,
            all@.len() == (width as nat) * (y as nat),
            all@.no_duplicates(),
            forall|c: Coordinates| all@.contains(c) <==> (c.x < width && c.y < y),
            forall|c: Coordinates| c.x < width && c.y < y ==> all@[#[trigger] place_in_walk(c, width)] == c,
        decreases height - y,
    {
        let mut x: u16 = 0;
        while x < width
            invariant
                x <= width,
                y < height,
                all@.len() == (width as nat) * (y as nat) + x,
                all@.no_duplicates(),
                forall|c: Coordinates| all@.contains(c) <==> (c.x < width && walked(c, x as int, y as int)),
                forall|c: Coordinates|
                    c.x < width && walked(c, x as int, y as int) ==> all@[#[trigger] place_in_walk(c, width)]
                        == c,
            decreases width - x,
        {
            let c = Coordinates { x, y };
            let ghost before = all@;
            all.push(c);
            assert(!before.contains(c));
            assert forall|p: Coordinates| all@.contains(p) <==> (p.x < width && walked(
                p,
                x + 1,
                y as int,
            )) by {
                if all@.contains(p) {
                    let k = choose|k: int| 0 <= k < all@.len() && all@[k] == p;
                    if k < before.len() {
                        assert(before[k] == p);
                        assert(before.contains(p));
                    }
                }
                if p.x < width && walked(p, x + 1, y as int) {
                    if p == c {
                        assert(all@[before.len() as int] == p);
                    } else {
                        assert(before.contains(p));
                        let k = choose|k: int| 0 <= k < before.len() && before[k] == p;
                        assert(all@[k] == p);
                    }
                }
            }
            assert forall|p: Coordinates| p.x < width && walked(p, x + 1, y as int) implies all@[#[trigger] place_in_walk(
                p,
                width,
            )] == p by {
                if p == c {
                    assert((width as nat) * (y as nat) == y * width) by (nonlinear_arith);
                } else {
                    lemma_place_before(p, width, x as int, y as int);
                    assert((width as nat) * (y as nat) == y * width) by (nonlinear_arith);
                    assert(before[place_in_walk(p, width)] == p);
                }
            }
            x = x + 1;
        }
        assert((width as nat) * (y as nat) + width == (width as nat) * ((y + 1) as nat))
            by (nonlinear_arith);
        y = y + 1;
    }
    all
}

/// Draws a position of a grid of `width` by `height`: a column, then a row.
pub fn draw_position(width: u16, height: u16, rng: &mut ThreadRng) -> (c: Coordinates)
    requires
        width > 0,
        height > 0,
    ensures
        c.x < width,
        c.y < height,
{
    let x = random_below(rng, width as usize);
    let y = random_below(rng, height as usize);
    Coordinates { x: x as u16, y: y as u16 }
}

/// Draws one of the positions of a list and takes it out of the list.
pub fn draw_from(list: &mut Vec<Coordinates>, rng: &mut ThreadRng) -> (c: Coordinates)
    requires
        old(list)@.len() > 0,
        old(list)@.no_duplicates(),
    ensures
        old(list)@.contains(c),
        final(list)@.no_duplicates(),
        final(list)@.len() == old(list)@.len() - 1,
        forall|p: Coordinates| #[trigger] final(list)@.contains(p) <==> (old(list)@.contains(p) && p != c),
{
    let ghost before = list@;
    let at = random_below(rng, list.len());
    let c = list.swap_remove(at);
    proof {
        assert(before[at as int] == c);
        assert forall|i: int, j: int| 0 <= i < list@.len() && 0 <= j < list@.len() && i != j implies list@[i]
            != list@[j] by {
            let si = if i == at { before.len() - 1 } else { i };
            let sj = if j == at { before.len() - 1 } else { j };
            assert(list@[i] == before[si]);
            assert(list@[j] == before[sj]);
        }
        assert forall|p: Coordinates| #[trigger] list@.contains(p) <==> (before.contains(p) && p != c) by {
            if list@.contains(p) {
                let k = choose|k: int| 0 <= k < list@.len() && list@[k] == p;
                let sk = if k == at { before.len() - 1 } else { k };
                assert(before[sk] == p);
                assert(sk != at);
            }
            if before.contains(p) && p != c {
                let k = choose|k: int| 0 <= k < before.len() && before[k] == p;
                if k == before.len() - 1 {
                    assert(list@[at as int] == p);
                } else {
                    assert(list@[k] == p);
                }
            }
        }
    }
    c
}

} // verus!
