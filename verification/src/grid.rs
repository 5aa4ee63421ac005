//! The grid of cells behind a mine field, and the queries on it.

use vstd::prelude::*;
use vstd::string::StringExecFns;
use rand::rngs::ThreadRng;
use crate::config::{refusal, ConfigurationError};
use crate::coordinates::Coordinates;
use crate::field::{neighbor, neighbor_offset, neighbors, Cell, Field};
use crate::random::{all_positions, draw_from, draw_position};
use crate::text::{decimal_text, dashes_text, field_text, row_text, rows_text, title_text};

verus! {

/// The steps from a cell to the eight cells around it.
pub const NEIGHBORS: [(i8, i8); 8] = [
    (-1, 1), (0, 1), (1, 1),
    (-1, 0), (1, 0),
    (-1, -1), (0, -1), (1, -1),
];

/// The step to the `i`-th neighbour.
pub fn neighbor_step(i: usize) -> (step: (i8, i8))
    requires
        i < 8,
    ensures
        step == neighbor_offset(i as int),
{
    NEIGHBORS[i]
}

/// Rows of cells: `height` rows of `width` cells each.
pub open spec fn shaped(rows: Seq<Vec<Cell>>, width: u16, height: u16) -> bool {
    &&& rows.len() == height
    &&& forall|y: int| 0 <= y < height ==> (#[trigger] rows[y])@.len() == width
}

/// The cell that rows of cells hold at `c`.
pub open spec fn cell_in(rows: Seq<Vec<Cell>>, c: Coordinates) -> Cell {
    rows[c.y as int]@[c.x as int]
}

/// The positions at which rows of cells hold a bomb.
pub open spec fn bombs_in(rows: Seq<Vec<Cell>>, width: u16, height: u16) -> Set<Coordinates> {
    Set::new(|c: Coordinates| c.x < width && c.y < height && cell_in(rows, c) is Bomb)
}

/// The field that rows of cells stand for.
pub open spec fn field_of(rows: Seq<Vec<Cell>>, width: u16, height: u16) -> Field {
    Field { width, height, bombs: bombs_in(rows, width, height) }
}

/// Every cell of the rows shows what the field of their bombs says it shows.
pub open spec fn classified(rows: Seq<Vec<Cell>>, width: u16, height: u16) -> bool {
    forall|c: Coordinates|
        c.x < width && c.y < height ==> #[trigger] cell_in(rows, c) == field_of(
            rows,
            width,
            height,
        ).cell(c)
}

/// A minesweeper grid of cells.
///
/// The cells are stored row by row. Every field is private; the grid is read
/// through its methods and through its view, the `Field` it stands for.
pub struct Grid {
    bomb_count: u16,
    height: u16,
    width: u16,
    grid: Vec<Vec<Cell>>,
}

impl View for Grid {
    type V = Field;

    closed spec fn view(&self) -> Field {
        field_of(self.grid@, self.width, self.height)
    }
}

fn bomb_in_rows(rows: &Vec<Vec<Cell>>, width: u16, height: u16, c: Coordinates) -> (r: bool)
    requires
        shaped(rows@, width, height),
    ensures
        r == field_of(rows@, width, height).is_bomb_at(c),
{
    if c.x >= width || c.y >= height {
        return false;
    }
    rows[c.y as usize][c.x as usize].is_bomb()
}

fn count_in_rows(rows: &Vec<Vec<Cell>>, width: u16, height: u16, c: Coordinates) -> (n: u8)
    requires
        shaped(rows@, width, height),
    ensures
        n == field_of(rows@, width, height).count_bomb_neighbors(c),
        n <= 8,
{
    if bomb_in_rows(rows, width, height, c) {
        return 0;
    }
    let ghost f = field_of(rows@, width, height);
    let mut n: u8 = 0;
    let mut i: usize = 0;
    while i < 8
        invariant
            i <= 8,
            n == f.bombs_among(c, i as nat),
            n <= i,
            shaped(rows@, width, height),
            f == field_of(rows@, width, height),
        decreases 8 - i,
    {
        let step = neighbor_step(i);
        if bomb_in_rows(rows, width, height, c.offset(step.0, step.1)) {
            n = n + 1;
        }
        i = i + 1;
    }
    n
}

/// Writes `cell` at `c` and leaves every other cell as it was.
fn set_cell(rows: &mut Vec<Vec<Cell>>, width: u16, height: u16, c: Coordinates, cell: Cell)
    requires
        shaped(old(rows)@, width, height),
        c.x < width,
        c.y < height,
    ensures
        shaped(final(rows)@, width, height),
        forall|p: Coordinates|
            p.x < width && p.y < height ==> #[trigger] cell_in(final(rows)@, p) == (if p == c {
                cell
            } else {
                cell_in(old(rows)@, p)
            }),
{
    rows[c.y as usize][c.x as usize] = cell;
}

/// Whether `c` comes before column `x` of row `y` when the cells are walked
/// row by row.
pub open spec fn walked(c: Coordinates, x: int, y: int) -> bool {
    c.y < y || (c.y == y && c.x < x)
}

/// The positions of a list that lie inside a grid of `width` by `height`.
pub open spec fn positions_within(list: Seq<Coordinates>, width: u16, height: u16) -> Set<
    Coordinates,
> {
    Set::new(|c: Coordinates| c.x < width && c.y < height && list.contains(c))
}

/// Rows of `width` empty cells, `height` of them.
fn blank_rows(width: u16, height: u16) -> (rows: Vec<Vec<Cell>>)
    ensures
        shaped(rows@, width, height),
        forall|c: Coordinates| c.x < width && c.y < height ==> #[trigger] cell_in(rows@, c) == Cell::Empty,
{
    let mut rows: Vec<Vec<Cell>> = Vec::new();
    let mut y: u16 = 0;
    while y < height
        invariant
            y <= height,
            rows@.len() == y,
            forall|k: int| 0 <= k < y ==> (#[trigger] rows@[k])@.len() == width,
            forall|c: Coordinates| c.x < width && c.y < y ==> #[trigger] cell_in(rows@, c) == Cell::Empty,
        decreases height - y,
    {
        let mut row: Vec<Cell> = Vec::new();
        let mut x: u16 = 0;
        while x < width
            invariant
                x <= width,
                row@.len() == x,
                forall|k: int| 0 <= k < x ==> row@[k] == Cell::Empty,
            decreases width - x,
        {
            row.push(Cell::Empty);
            x = x + 1;
        }
        let ghost before = rows@;
        rows.push(row);
        assert forall|c: Coordinates| c.x < width && c.y < y + 1 implies #[trigger] cell_in(
            rows@,
            c,
        ) == Cell::Empty by {
            if c.y < y {
                assert(cell_in(before, c) == Cell::Empty);
                assert(rows@[c.y as int] == before[c.y as int]);
            }
        }
        y = y + 1;
    }
    rows
}

/// Rows of cells with a bomb at each position of `picks` that lies inside
/// the grid, and empty cells elsewhere; with them the number of bombs.
fn lay(width: u16, height: u16, picks: &Vec<Coordinates>) -> (laid: (Vec<Vec<Cell>>, usize))
    ensures
        shaped(laid.0@, width, height),
        forall|c: Coordinates|
            c.x < width && c.y < height ==> #[trigger] cell_in(laid.0@, c) == (if picks@.contains(c) {
                Cell::Bomb
            } else {
                Cell::Empty
            }),
        bombs_in(laid.0@, width, height) == positions_within(picks@, width, height),
        bombs_in(laid.0@, width, height).finite(),
        bombs_in(laid.0@, width, height).len() == laid.1,
{
    let mut rows = blank_rows(width, height);
    let mut placed: usize = 0;
    let mut i: usize = 0;
    assert(bombs_in(rows@, width, height) =~= Set::<Coordinates>::empty());
    while i < picks.len()
        invariant
            i <= picks.len(),
            placed <= i,
            shaped(rows@, width, height),
            forall|c: Coordinates|
                c.x < width && c.y < height ==> #[trigger] cell_in(rows@, c) == (if picks@.take(
                    i as int,
                ).contains(c) {
                    Cell::Bomb
                } else {
                    Cell::Empty
                }),
            bombs_in(rows@, width, height).finite(),
            bombs_in(rows@, width, height).len() == placed,
        decreases picks.len() - i,
    {
        let c = picks[i];
        let ghost before = rows@;
        proof {
            lemma_take_next(picks@, i as int);
        }
        if c.x < width && c.y < height && !rows[c.y as usize][c.x as usize].is_bomb() {
            set_cell(&mut rows, width, height, c, Cell::Bomb);
            proof {
                lemma_bomb_added(before, rows@, width, height, c);
            }
            placed = placed + 1;
        }
        assert forall|p: Coordinates| p.x < width && p.y < height implies #[trigger] cell_in(rows@, p) == (
        if picks@.take(i + 1).contains(p) {
            Cell::Bomb
        } else {
            Cell::Empty
        }) by {
            assert(cell_in(before, p) == (if picks@.take(i as int).contains(p) {
                Cell::Bomb
            } else {
                Cell::Empty
            }));
        }
        i = i + 1;
    }
    assert(picks@.take(picks@.len() as int) =~= picks@);
    assert(bombs_in(rows@, width, height) =~= positions_within(picks@, width, height)) by {
        assert forall|p: Coordinates| bombs_in(rows@, width, height).contains(p) == positions_within(
            picks@,
            width,
            height,
        ).contains(p) by {
            if p.x < width && p.y < height {
                assert(cell_in(rows@, p) == (if picks@.contains(p) {
                    Cell::Bomb
                } else {
                    Cell::Empty
                }));
            }
        }
    }
    (rows, placed)
}

/// The first `i + 1` items of a list are its first `i` items and the item
/// at `i`.
proof fn lemma_take_next(list: Seq<Coordinates>, i: int)
    requires
        0 <= i < list.len(),
    ensures
        forall|p: Coordinates|
            #[trigger] list.take(i + 1).contains(p) <==> (list.take(i).contains(p) || p == list[i]),
        list.no_duplicates() ==> !list.take(i).contains(list[i]),
{
    let seen = list.take(i);
    let next = list.take(i + 1);
    assert forall|p: Coordinates| #[trigger] next.contains(p) <==> (seen.contains(p) || p == list[i]) by {
        if next.contains(p) {
            let k = choose|k: int| 0 <= k < next.len() && next[k] == p;
            if k < i {
                assert(seen[k] == p);
            }
        }
        if seen.contains(p) {
            let k = choose|k: int| 0 <= k < seen.len() && seen[k] == p;
            assert(next[k] == p);
        }
        if p == list[i] {
            assert(next[i] == p);
        }
    }
    if list.no_duplicates() && seen.contains(list[i]) {
        let k = choose|k: int| 0 <= k < seen.len() && seen[k] == list[i];
        assert(list[k] == list[i]);
    }
}

/// The positions of the grid that hold no bomb, each once.
fn free_positions(rows: &Vec<Vec<Cell>>, width: u16, height: u16) -> (free: Vec<Coordinates>)
    requires
        shaped(rows@, width, height),
    ensures
        free@.no_duplicates(),
        forall|c: Coordinates|
            free@.contains(c) <==> (c.x < width && c.y < height && !(cell_in(rows@, c) is Bomb)),
        bombs_in(rows@, width, height).finite(),
        free@.len() + bombs_in(rows@, width, height).len() == (width as nat) * (height as nat),
{
    let all = all_positions(width, height);
    let mut free: Vec<Coordinates> = Vec::new();
    let ghost mut bombs: Set<Coordinates> = Set::empty();
    let mut i: usize = 0;
    while i < all.len()
        invariant
            i <= all.len(),
            shaped(rows@, width, height),
            all@.no_duplicates(),
            forall|c: Coordinates| all@.contains(c) <==> (c.x < width && c.y < height),
            free@.no_duplicates(),
            forall|c: Coordinates|
                free@.contains(c) <==> (all@.take(i as int).contains(c) && !(cell_in(rows@, c) is Bomb)),
            bombs.finite(),
            forall|c: Coordinates|
                bombs.contains(c) <==> (all@.take(i as int).contains(c) && cell_in(rows@, c) is Bomb),
            free@.len() + bombs.len() == i,
        decreases all.len() - i,
    {
        let c = all[i];
        let ghost free_before = free@;
        let ghost bombs_before = bombs;
        proof {
            lemma_take_next(all@, i as int);
            assert(all@.contains(c));
        }
        if rows[c.y as usize][c.x as usize].is_bomb() {
            proof {
                bombs = bombs.insert(c);
            }
        } else {
            free.push(c);
            assert forall|p: Coordinates| free@.contains(p) <==> (free_before.contains(p) || p == c) by {
                if free@.contains(p) {
                    let k = choose|k: int| 0 <= k < free@.len() && free@[k] == p;
                    if k < free_before.len() {
                        assert(free_before[k] == p);
                    }
                }
                if free_before.contains(p) {
                    let k = choose|k: int| 0 <= k < free_before.len() && free_before[k] == p;
                    assert(free@[k] == p);
                }
                if p == c {
                    assert(free@[free_before.len() as int] == p);
                }
            }
            assert(!free_before.contains(c));
            assert(free@ =~= free_before.push(c));
            assert(free@.no_duplicates()) by {
                assert forall|a: int, b: int| 0 <= a < free@.len() && 0 <= b < free@.len() && a != b implies free@[a]
                    != free@[b] by {
                    if a < free_before.len() && b < free_before.len() {
                        assert(free_before[a] != free_before[b]);
                    } else if a < free_before.len() {
                        assert(free_before.contains(free_before[a]));
                    } else {
                        assert(free_before.contains(free_before[b]));
                    }
                }
            }
        }
        assert forall|p: Coordinates|
            free@.contains(p) <==> (all@.take(i + 1).contains(p) && !(cell_in(rows@, p) is Bomb)) by {
            assert(all@.take(i + 1).contains(p) <==> (all@.take(i as int).contains(p) || p == c));
            assert(free_before.contains(p) <==> (all@.take(i as int).contains(p) && !(cell_in(rows@, p) is Bomb)));
        }
        assert forall|p: Coordinates|
            bombs.contains(p) <==> (all@.take(i + 1).contains(p) && cell_in(rows@, p) is Bomb) by {
            assert(all@.take(i + 1).contains(p) <==> (all@.take(i as int).contains(p) || p == c));
            assert(bombs_before.contains(p) <==> (all@.take(i as int).contains(p) && cell_in(rows@, p) is Bomb));
        }
        i = i + 1;
    }
    proof {
        assert(all@.take(all@.len() as int) =~= all@);
        assert(bombs =~= bombs_in(rows@, width, height));
    }
    free
}

/// Rows of cells with `count` bombs at positions drawn at random, and empty
/// cells elsewhere.
///
/// A position of the grid is drawn and takes a bomb unless it holds one
/// already, again and again until all bombs are placed. After `tries` draws
/// the bombs that are still missing are drawn from among the free cells, so
/// that the work ends whatever is drawn.
fn lay_at_random(width: u16, height: u16, count: u16, tries: u64, rng: &mut ThreadRng) -> (rows: Vec<
    Vec<Cell>,
>)
    requires
        width > 0,
        height > 0,
        count < (width as nat) * (height as nat),
    ensures
        shaped(rows@, width, height),
        forall|c: Coordinates|
            c.x < width && c.y < height ==> #[trigger] cell_in(rows@, c) is Bomb || cell_in(rows@, c) is Empty,
        bombs_in(rows@, width, height).finite(),
        bombs_in(rows@, width, height).len() == count,
{
    let mut rows = blank_rows(width, height);
    let mut remaining: u16 = count;
    let mut budget: u64 = tries;
    assert(bombs_in(rows@, width, height) =~= Set::<Coordinates>::empty());
    while remaining > 0 && budget > 0
        invariant
            remaining <= count,
            width > 0,
            height > 0,
            shaped(rows@, width, height),
            forall|c: Coordinates|
                c.x < width && c.y < height ==> #[trigger] cell_in(rows@, c) is Bomb || cell_in(rows@, c) is Empty,
            bombs_in(rows@, width, height).finite(),
            bombs_in(rows@, width, height).len() == count - remaining,
        decreases budget,
    {
        let c = draw_position(width, height, rng);
        if !rows[c.y as usize][c.x as usize].is_bomb() {
            let ghost before = rows@;
            set_cell(&mut rows, width, height, c, Cell::Bomb);
            proof {
                lemma_bomb_added(before, rows@, width, height, c);
            }
            remaining = remaining - 1;
        }
        budget = budget - 1;
    }
    if remaining > 0 {
        let mut free = free_positions(&rows, width, height);
        while remaining > 0
            invariant
                remaining <= count,
                count < (width as nat) * (height as nat),
                shaped(rows@, width, height),
                forall|c: Coordinates|
                    c.x < width && c.y < height ==> #[trigger] cell_in(rows@, c) is Bomb || cell_in(rows@, c) is Empty,
                bombs_in(rows@, width, height).finite(),
                bombs_in(rows@, width, height).len() == count - remaining,
                free@.no_duplicates(),
                forall|c: Coordinates|
                    free@.contains(c) <==> (c.x < width && c.y < height && !(cell_in(rows@, c) is Bomb)),
                free@.len() + bombs_in(rows@, width, height).len() == (width as nat) * (height as nat),
            decreases remaining,
        {
            let ghost before = rows@;
            let ghost free_before = free@;
            let c = draw_from(&mut free, rng);
            assert(free_before.contains(c));
            set_cell(&mut rows, width, height, c, Cell::Bomb);
            proof {
                lemma_bomb_added(before, rows@, width, height, c);
                assert forall|p: Coordinates|
                    free@.contains(p) <==> (p.x < width && p.y < height && !(cell_in(rows@, p) is Bomb)) by {
                    if p.x < width && p.y < height {
                        assert(cell_in(rows@, p) == (if p == c {
                            Cell::Bomb
                        } else {
                            cell_in(before, p)
                        }));
                    }
                    assert(free@.contains(p) <==> (free_before.contains(p) && p != c));
                }
            }
            remaining = remaining - 1;
        }
    }
    rows
}

/// Rows that have gained a bomb on a cell that had none have one bomb more.
proof fn lemma_bomb_added(before: Seq<Vec<Cell>>, after: Seq<Vec<Cell>>, width: u16, height: u16, c: Coordinates)
    requires
        c.x < width,
        c.y < height,
        !(cell_in(before, c) is Bomb),
        bombs_in(before, width, height).finite(),
        forall|p: Coordinates|
            p.x < width && p.y < height ==> #[trigger] cell_in(after, p) == (if p == c {
                Cell::Bomb
            } else {
                cell_in(before, p)
            }),
    ensures
        bombs_in(after, width, height) == bombs_in(before, width, height).insert(c),
        bombs_in(after, width, height).finite(),
        bombs_in(after, width, height).len() == bombs_in(before, width, height).len() + 1,
{
    assert forall|p: Coordinates| bombs_in(after, width, height).contains(p) == bombs_in(
        before,
        width,
        height,
    ).insert(c).contains(p) by {
        if p.x < width && p.y < height {
            assert(cell_in(after, p) == (if p == c {
                Cell::Bomb
            } else {
                cell_in(before, p)
            }));
        }
    }
    assert(bombs_in(after, width, height) =~= bombs_in(before, width, height).insert(c));
    assert(!bombs_in(before, width, height).contains(c));
}

impl Grid {
    /// What holds of every grid: the rows have the grid's dimensions, every
    /// cell shows what the bombs around it make it show, and the recorded
    /// number of bombs is the number of bombs.
    #[verifier::type_invariant]
    pub closed spec fn wf(&self) -> bool {
        &&& shaped(self.grid@, self.width, self.height)
        &&& classified(self.grid@, self.width, self.height)
        &&& self@.wf()
        &&& self@.bombs.len() == self.bomb_count
    }

    /// A valid grid stands for a valid field whose bombs a `u16` can count.
    pub proof fn lemma_wf(&self)
        requires
            self.wf(),
        ensures
            self@.wf(),
            self@.bombs.len() <= u16::MAX,
    {
    }

    /// In rows of bombs and empty cells, writes into every cell without a bomb
    /// the number of bombs around it, where there are any. The numbers are
    /// taken from the finished layout of the bombs, which does not change.
    fn update_neighbors(rows: &mut Vec<Vec<Cell>>, width: u16, height: u16)
        requires
            shaped(old(rows)@, width, height),
            forall|c: Coordinates|
                c.x < width && c.y < height ==> #[trigger] cell_in(old(rows)@, c) is Bomb || cell_in(
                    old(rows)@,
                    c,
                ) is Empty,
        ensures
            shaped(final(rows)@, width, height),
            bombs_in(final(rows)@, width, height) == bombs_in(old(rows)@, width, height),
            classified(final(rows)@, width, height),
    {
        let ghost bombs = bombs_in(rows@, width, height);
        let ghost f = Field { width, height, bombs };
        let mut y: u16 = 0;
        while y < height
            invariant
                y <= height,
                shaped(rows@, width, height),
                bombs_in(rows@, width, height) == bombs,
                f == field_of(rows@, width, height),
                forall|c: Coordinates|
                    c.x < width && c.y < height ==> #[trigger] cell_in(rows@, c) == (if walked(c, 0, y as int) {
                        f.cell(c)
                    } else if bombs.contains(c) {
                        Cell::Bomb
                    } else {
                        Cell::Empty
                    }),
            decreases height - y,
        {
            let mut x: u16 = 0;
            while x < width
                invariant
                    x <= width,
                    y < height,
                    shaped(rows@, width, height),
                    bombs_in(rows@, width, height) == bombs,
                    f == field_of(rows@, width, height),
                    forall|c: Coordinates|
                        c.x < width && c.y < height ==> #[trigger] cell_in(rows@, c) == (if walked(
                            c,
                            x as int,
                            y as int,
                        ) {
                            f.cell(c)
                        } else if bombs.contains(c) {
                            Cell::Bomb
                        } else {
                            Cell::Empty
                        }),
                decreases width - x,
            {
                let coords = Coordinates { x, y };
                let ghost before = rows@;
                assert(cell_in(before, coords) == (if bombs.contains(coords) {
                    Cell::Bomb
                } else {
                    Cell::Empty
                }));
                if !bomb_in_rows(rows, width, height, coords) {
                    let n = count_in_rows(rows, width, height, coords);
                    if n > 0 {
                        set_cell(rows, width, height, coords, Cell::BombNeighbor(n));
                        assert(bombs_in(rows@, width, height) =~= bombs) by {
                            assert forall|p: Coordinates| bombs_in(rows@, width, height).contains(p)
                                == bombs.contains(p) by {
                                if p.x < width && p.y < height {
                                    assert(cell_in(rows@, p) == (if p == coords {
                                        Cell::BombNeighbor(n)
                                    } else {
                                        cell_in(before, p)
                                    }));
                                    assert(bombs_in(before, width, height).contains(p) == (cell_in(before, p) is Bomb));
                                }
                            }
                        }
                    }
                }
                assert forall|c: Coordinates| c.x < width && c.y < height implies #[trigger] cell_in(
                    rows@,
                    c,
                ) == (if walked(c, x + 1, y as int) {
                    f.cell(c)
                } else if bombs.contains(c) {
                    Cell::Bomb
                } else {
                    Cell::Empty
                }) by {
                    if c != coords {
                        assert(cell_in(before, c) == (if walked(c, x as int, y as int) {
                            f.cell(c)
                        } else if bombs.contains(c) {
                            Cell::Bomb
                        } else {
                            Cell::Empty
                        }));
                    }
                }
                x = x + 1;
            }
            assert forall|c: Coordinates| c.x < width && c.y < height implies (walked(c, width as int, y as int)
                == walked(c, 0, y + 1)) by {}
            y = y + 1;
        }
    }

    /// Completes rows of bombs and empty cells into a grid: every cell
    /// without a bomb gets the number of bombs around it.
    fn assemble(width: u16, height: u16, rows: Vec<Vec<Cell>>, bomb_count: u16) -> (grid: Grid)
        requires
            shaped(rows@, width, height),
            forall|c: Coordinates|
                c.x < width && c.y < height ==> #[trigger] cell_in(rows@, c) is Bomb || cell_in(rows@, c) is Empty,
            bombs_in(rows@, width, height).finite(),
            bombs_in(rows@, width, height).len() == bomb_count,
        ensures
            grid.wf(),
            grid@ == (Field { width, height, bombs: bombs_in(rows@, width, height) }),
    {
        let mut rows = rows;
        Grid::update_neighbors(&mut rows, width, height);
        Grid { bomb_count, height, width, grid: rows }
    }

    /// Create an empty grid with no bomb.
    pub fn empty(width: u16, height: u16) -> (grid: Grid)
        ensures
            grid.wf(),
            grid@ == (Field { width, height, bombs: Set::empty() }),
    {
        let picks: Vec<Coordinates> = Vec::new();
        let (rows, _) = lay(width, height, &picks);
        assert(positions_within(picks@, width, height) =~= Set::<Coordinates>::empty());
        Grid::assemble(width, height, rows, 0)
    }

    /// The grid with a bomb at each of the given positions that lies inside
    /// it; a position given twice counts once. It is refused where the grid
    /// has no cell, where the bombs leave no cell free, and where they are
    /// more than `u16::MAX`.
    pub fn from_bombs(width: u16, height: u16, bombs: &Vec<Coordinates>) -> (built: Result<
        Grid,
        ConfigurationError,
    >)
        ensures
            positions_within(bombs@, width, height).finite(),
            match built {
                Ok(grid) => {
                    &&& refusal(width, height, positions_within(bombs@, width, height).len()) is None
                    &&& grid.wf()
                    &&& grid@ == (Field {
                        width,
                        height,
                        bombs: positions_within(bombs@, width, height),
                    })
                    &&& grid@.playable()
                },
                Err(e) => refusal(width, height, positions_within(bombs@, width, height).len())
                    == Some(e),
            },
    {
        let (rows, placed) = lay(width, height, bombs);
        if width == 0 || height == 0 {
            return Err(ConfigurationError::ZeroSized);
        }
        if placed > 0xffff || placed >= crate::config::area(width, height) as usize {
            return Err(ConfigurationError::TooManyBombs);
        }
        Ok(Grid::assemble(width, height, rows, placed as u16))
    }

    /// Lays out a field with settings that allow one.
    pub(crate) fn lay_out(width: u16, height: u16, bomb_count: u16, tries: u64, rng: &mut ThreadRng) -> (grid:
        Grid)
        requires
            refusal(width, height, bomb_count as nat) is None,
        ensures
            grid.wf(),
            grid@.width == width,
            grid@.height == height,
            grid@.bombs.len() == bomb_count,
            grid@.playable(),
    {
        let rows = lay_at_random(width, height, bomb_count, tries, rng);
        Grid::assemble(width, height, rows, bomb_count)
    }

    /// Lays out a field of `width` by `height` cells with `bomb_count` bombs
    /// and gives every other cell the number of bombs around it. It is
    /// refused where the grid has no cell, and where the bombs would leave
    /// no cell free.
    ///
    /// The bombs are placed by drawing a position from `rng` and placing a
    /// bomb there unless the cell holds one already, until `bomb_count`
    /// bombs are placed.
    pub fn generate(width: u16, height: u16, bomb_count: u16, rng: &mut ThreadRng) -> (built: Result<
        Grid,
        ConfigurationError,
    >)
        ensures
            match built {
                Ok(grid) => {
                    &&& refusal(width, height, bomb_count as nat) is None
                    &&& grid.wf()
                    &&& grid@.width == width
                    &&& grid@.height == height
                    &&& grid@.bombs.len() == bomb_count
                    &&& grid@.playable()
                },
                Err(e) => refusal(width, height, bomb_count as nat) == Some(e),
            },
    {
        Grid::generate_within(width, height, bomb_count, u64::MAX, rng)
    }

    /// Lays out a field as `generate` does, with a bound on the draws that
    /// may fall on a cell or a bomb alike: after `tries` of them each bomb
    /// that is still missing is drawn from among the cells without a bomb.
    pub fn generate_within(
        width: u16,
        height: u16,
        bomb_count: u16,
        tries: u64,
        rng: &mut ThreadRng,
    ) -> (built: Result<Grid, ConfigurationError>)
        ensures
            match built {
                Ok(grid) => {
                    &&& refusal(width, height, bomb_count as nat) is None
                    &&& grid.wf()
                    &&& grid@.width == width
                    &&& grid@.height == height
                    &&& grid@.bombs.len() == bomb_count
                    &&& grid@.playable()
                },
                Err(e) => refusal(width, height, bomb_count as nat) == Some(e),
            },
    {
        if width == 0 || height == 0 {
            return Err(ConfigurationError::ZeroSized);
        }
        if bomb_count as u32 >= crate::config::area(width, height) {
            return Err(ConfigurationError::TooManyBombs);
        }
        Ok(Grid::lay_out(width, height, bomb_count, tries, rng))
    }

    /// Spawns `count` bombs in the grid, at positions drawn at random, in
    /// place of those it had. A count that the grid cannot take is refused
    /// and leaves the grid as it was.
    pub fn set_bombs(&mut self, count: u16) -> (done: Result<(), ConfigurationError>)
        ensures
            final(self).wf(),
            match done {
                Ok(_) => {
                    &&& refusal(old(self)@.width, old(self)@.height, count as nat) is None
                    &&& final(self)@.width == old(self)@.width
                    &&& final(self)@.height == old(self)@.height
                    &&& final(self)@.bombs.len() == count
                    &&& final(self)@.playable()
                },
                Err(e) => {
                    &&& refusal(old(self)@.width, old(self)@.height, count as nat) == Some(e)
                    &&& *final(self) == *old(self)
                },
            },
    {
        proof {
            use_type_invariant(&*self);
        }
        let mut rng = rand::thread_rng();
        match Grid::generate(self.width, self.height, count, &mut rng) {
            Ok(grid) => {
                *self = grid;
                Ok(())
            },
            Err(e) => Err(e),
        }
    }

    pub fn width(&self) -> (w: u16)
        ensures
            w == self@.width,
    {
        self.width
    }

    pub fn height(&self) -> (h: u16)
        ensures
            h == self@.height,
    {
        self.height
    }

    pub fn bomb_count(&self) -> (n: u16)
        ensures
            n == self@.bombs.len(),
            self.wf(),
            self@.wf(),
    {
        proof {
            use_type_invariant(self);
        }
        self.bomb_count
    }

    /// Returns true if the cell at `coordinates` contains a bomb; false for
    /// every position outside the grid.
    pub fn is_bomb_at(&self, coordinates: Coordinates) -> (r: bool)
        ensures
            r == self@.is_bomb_at(coordinates),
            coordinates.x >= self@.width || coordinates.y >= self@.height ==> !r,
    {
        proof {
            use_type_invariant(self);
        }
        bomb_in_rows(&self.grid, self.width, self.height, coordinates)
    }

    /// The eight positions around `coordinates`. Those that fall off the
    /// number range come out with a component `u16::MAX`; none is clamped
    /// back into the grid.
    pub fn get_neighbors(&self, coordinates: Coordinates) -> (around: Vec<Coordinates>)
        ensures
            around@ == neighbors(coordinates),
    {
        let mut around: Vec<Coordinates> = Vec::new();
        let mut i: usize = 0;
        while i < 8
            invariant
                i <= 8,
                around@.len() == i,
                forall|k: int| 0 <= k < i ==> around@[k] == neighbor(coordinates, k),
            decreases 8 - i,
        {
            let step = neighbor_step(i);
            around.push(coordinates.offset(step.0, step.1));
            i = i + 1;
        }
        assert(around@ =~= neighbors(coordinates));
        around
    }

    /// The number of bombs among the eight positions around `coordinates`;
    /// 0 when the cell is itself a bomb.
    pub fn count_bomb_neighbors(&self, coordinates: Coordinates) -> (n: u8)
        ensures
            n == self@.count_bomb_neighbors(coordinates),
            n <= 8,
    {
        proof {
            use_type_invariant(self);
        }
        count_in_rows(&self.grid, self.width, self.height, coordinates)
    }

    /// What the cell at `coordinates` shows, or `None` outside the grid.
    pub fn cell_at(&self, coordinates: Coordinates) -> (cell: Option<Cell>)
        ensures
            cell == (if self@.in_bounds(coordinates) {
                Some(self@.cell(coordinates))
            } else {
                None
            }),
    {
        proof {
            use_type_invariant(self);
        }
        if coordinates.x >= self.width || coordinates.y >= self.height {
            return None;
        }
        let cell = self.grid[coordinates.y as usize][coordinates.x as usize];
        assert(cell == cell_in(self.grid@, coordinates));
        Some(cell)
    }

    /// Returns a String containing the grid's ASCII representation, for
    /// logging and debugging.
    pub fn console_output(&self) -> (text: String)
        ensures
            text@ == field_text(self@),
    {
        proof {
            use_type_invariant(self);
            reveal_strlit("|");
            reveal_strlit("|\n");
            reveal_strlit("\n");
        }
        let ghost f = self@;
        let mut buffer = String::from_str("Map (");
        buffer.append(decimal_text(self.width).as_str());
        buffer.append(", ");
        buffer.append(decimal_text(self.height).as_str());
        buffer.append(") with ");
        buffer.append(decimal_text(self.bomb_count).as_str());
        buffer.append(" bombs:\n");
        assert(buffer@ =~= title_text(f));
        let line = dashes_text(self.width as usize + 2);
        buffer.append(line.as_str());
        buffer.append("\n");
        let ghost head = buffer@;
        let mut y: u16 = self.height;
        assert(head + rows_text(f, y as nat) =~= head + rows_text(f, f.height as nat));
        assert(buffer@ + rows_text(f, y as nat) == head + rows_text(f, f.height as nat));
        while y > 0
            invariant
                y <= self.height,
                self.wf(),
                f == self@,
                "|"@ == seq!['|'],
                "|\n"@ == seq!['|', '\n'],
                buffer@ + rows_text(f, y as nat) == head + rows_text(f, f.height as nat),
            decreases y,
        {
            let ghost before = buffer@;
            y = y - 1;
            let mut row = String::new();
            let mut x: u16 = 0;
            while x < self.width
                invariant
                    x <= self.width,
                    y < self.height,
                    self.wf(),
                    f == self@,
                    row@ == row_text(f, y, x as nat),
                decreases self.width - x,
            {
                let cell = self.grid[y as usize][x as usize];
                assert(cell == cell_in(self.grid@, Coordinates { x, y }));
                row.append(cell.console_output().as_str());
                x = x + 1;
            }
            buffer.append("|");
            buffer.append(row.as_str());
            buffer.append("|\n");
            assert(buffer@ + rows_text(f, y as nat) =~= before + rows_text(f, (y + 1) as nat));
        }
        buffer.append(line.as_str());
        assert(buffer@ =~= field_text(f));
        buffer
    }
}

} // verus!
