use minesweeper_plugin::grid::neighbor_step;
use minesweeper_plugin::random::{all_positions, draw_from, draw_position};
use minesweeper_plugin::text::{dashes_text, decimal_text};
use minesweeper_plugin::{Cell, ConfigurationError, Coordinates, DifficultySettings, Grid, NEIGHBORS};

fn at(x: u16, y: u16) -> Coordinates {
    Coordinates::new(x, y)
}

fn corner_bomb() -> Grid {
    Grid::from_bombs(3, 3, &vec![at(2, 2)]).unwrap()
}

/// The bombs around a cell, counted over the integers.
fn bombs_around(grid: &Grid, x: u16, y: u16) -> u8 {
    let mut n = 0;
    for dy in -1i32..=1 {
        for dx in -1i32..=1 {
            if dx == 0 && dy == 0 {
                continue;
            }
            let nx = x as i32 + dx;
            let ny = y as i32 + dy;
            if nx >= 0 && ny >= 0 && nx < grid.width() as i32 && ny < grid.height() as i32 {
                if grid.cell_at(at(nx as u16, ny as u16)) == Some(Cell::Bomb) {
                    n += 1;
                }
            }
        }
    }
    n
}

fn count_bomb_cells(grid: &Grid) -> usize {
    let mut n = 0;
    for y in 0..grid.height() {
        for x in 0..grid.width() {
            if grid.cell_at(at(x, y)) == Some(Cell::Bomb) {
                n += 1;
            }
        }
    }
    n
}

fn assert_numbers_match(grid: &Grid) {
    for y in 0..grid.height() {
        for x in 0..grid.width() {
            let around = bombs_around(grid, x, y);
            match grid.cell_at(at(x, y)).unwrap() {
                Cell::Bomb => {
                    assert!(grid.is_bomb_at(at(x, y)));
                    assert_eq!(grid.count_bomb_neighbors(at(x, y)), 0);
                }
                Cell::Empty => {
                    assert_eq!(around, 0);
                    assert_eq!(grid.count_bomb_neighbors(at(x, y)), 0);
                }
                Cell::BombNeighbor(n) => {
                    assert!(n >= 1 && n <= 8);
                    assert_eq!(n, around);
                    assert_eq!(grid.count_bomb_neighbors(at(x, y)), around);
                }
            }
        }
    }
}

#[test]
fn coordinates_new_keeps_components() {
    let c = Coordinates::new(7, 11);
    assert_eq!(c.x, 7);
    assert_eq!(c.y, 11);
    assert_eq!(c, Coordinates { x: 7, y: 11 });
}

#[test]
fn offset_moves_inside_the_range() {
    assert_eq!(at(5, 9).offset(1, -1), at(6, 8));
    assert_eq!(at(5, 9).offset(-1, 1), at(4, 10));
    assert_eq!(at(5, 9).offset(0, 0), at(5, 9));
    assert_eq!(at(300, 300).offset(-128, 127), at(172, 427));
}

#[test]
fn offset_below_zero_is_not_clamped() {
    assert_eq!(at(0, 0).offset(-1, -1), at(u16::MAX, u16::MAX));
    assert_eq!(at(0, 4).offset(-1, 0), at(u16::MAX, 4));
    assert_eq!(at(3, 0).offset(0, -1), at(3, u16::MAX));
    assert_eq!(at(5, 5).offset(-6, 0), at(u16::MAX, 5));
}

#[test]
fn offset_above_the_range_does_not_wrap() {
    assert_eq!(at(u16::MAX, 2).offset(1, 0), at(u16::MAX, 2));
    assert_eq!(at(u16::MAX - 1, 2).offset(1, 0), at(u16::MAX, 2));
    assert_eq!(at(65500, 65500).offset(127, 127), at(u16::MAX, u16::MAX));
}

#[test]
fn plus_and_minus() {
    assert_eq!(at(3, 4).plus(at(10, 20)), at(13, 24));
    assert_eq!(at(13, 24).minus(at(10, 20)), at(3, 4));
    assert_eq!(at(3, 4).minus(at(10, 2)), at(0, 2));
    assert_eq!(at(3, 4).minus(at(3, 5)), at(0, 0));
}

#[test]
fn order_is_by_x_then_y() {
    assert!(at(1, 9).precedes(&at(2, 0)));
    assert!(at(1, 1).precedes(&at(1, 2)));
    assert!(!at(1, 2).precedes(&at(1, 2)));
    assert!(!at(2, 0).precedes(&at(1, 9)));
    assert!(at(1, 9) < at(2, 0));
    assert!(at(1, 1) < at(1, 2));
}

#[test]
fn neighbor_steps_are_the_eight_directions() {
    let expected: [(i8, i8); 8] =
        [(-1, 1), (0, 1), (1, 1), (-1, 0), (1, 0), (-1, -1), (0, -1), (1, -1)];
    assert_eq!(NEIGHBORS, expected);
    for i in 0..8 {
        assert_eq!(neighbor_step(i), expected[i]);
    }
}

#[test]
fn neighbors_of_an_inner_cell() {
    let grid = Grid::empty(3, 3);
    assert_eq!(
        grid.get_neighbors(at(1, 1)),
        vec![at(0, 2), at(1, 2), at(2, 2), at(0, 1), at(2, 1), at(0, 0), at(1, 0), at(2, 0)]
    );
}

#[test]
fn neighbors_of_a_corner_leave_the_grid() {
    let grid = Grid::empty(3, 3);
    let m = u16::MAX;
    assert_eq!(
        grid.get_neighbors(at(0, 0)),
        vec![at(m, 1), at(0, 1), at(1, 1), at(m, 0), at(1, 0), at(m, m), at(0, m), at(1, m)]
    );
    for n in grid.get_neighbors(at(0, 0)) {
        assert_ne!(n, at(0, 0));
    }
}

#[test]
fn empty_grid_has_no_bomb() {
    let grid = Grid::empty(4, 2);
    assert_eq!(grid.width(), 4);
    assert_eq!(grid.height(), 2);
    assert_eq!(grid.bomb_count(), 0);
    for y in 0..2 {
        for x in 0..4 {
            assert_eq!(grid.cell_at(at(x, y)), Some(Cell::Empty));
            assert!(!grid.is_bomb_at(at(x, y)));
        }
    }
    assert_eq!(grid.cell_at(at(4, 0)), None);
    assert_eq!(grid.cell_at(at(0, 2)), None);
}

#[test]
fn empty_grid_may_have_no_cells() {
    let grid = Grid::empty(0, 0);
    assert_eq!(grid.width(), 0);
    assert_eq!(grid.height(), 0);
    assert_eq!(grid.bomb_count(), 0);
    assert_eq!(grid.cell_at(at(0, 0)), None);
    assert!(!grid.is_bomb_at(at(0, 0)));
}

#[test]
fn cell_is_bomb() {
    assert!(Cell::Bomb.is_bomb());
    assert!(!Cell::Empty.is_bomb());
    assert!(!Cell::BombNeighbor(3).is_bomb());
}

#[test]
fn single_bomb_in_the_corner() {
    let grid = corner_bomb();
    assert_eq!(grid.bomb_count(), 1);
    assert_eq!(grid.cell_at(at(2, 2)), Some(Cell::Bomb));
    assert_eq!(grid.cell_at(at(1, 1)), Some(Cell::BombNeighbor(1)));
    assert_eq!(grid.cell_at(at(2, 1)), Some(Cell::BombNeighbor(1)));
    assert_eq!(grid.cell_at(at(1, 2)), Some(Cell::BombNeighbor(1)));
    for c in [at(0, 0), at(1, 0), at(2, 0), at(0, 1), at(0, 2)] {
        assert_eq!(grid.cell_at(c), Some(Cell::Empty));
    }
    assert_eq!(count_bomb_cells(&grid), 1);
    assert_numbers_match(&grid);
}

#[test]
fn numbers_count_every_bomb_around() {
    let bombs = vec![
        at(0, 0), at(1, 0), at(2, 0),
        at(0, 1), at(2, 1),
        at(0, 2), at(1, 2), at(2, 2),
    ];
    let grid = Grid::from_bombs(4, 3, &bombs).unwrap();
    assert_eq!(grid.bomb_count(), 8);
    assert_eq!(grid.cell_at(at(1, 1)), Some(Cell::BombNeighbor(8)));
    assert_eq!(grid.count_bomb_neighbors(at(1, 1)), 8);
    assert_eq!(grid.cell_at(at(3, 0)), Some(Cell::BombNeighbor(2)));
    assert_eq!(grid.cell_at(at(3, 1)), Some(Cell::BombNeighbor(3)));
    assert_eq!(grid.cell_at(at(3, 2)), Some(Cell::BombNeighbor(2)));
    assert_numbers_match(&grid);
}

#[test]
fn edge_cells_do_not_count_the_other_side() {
    // A bomb in the last column must not show up around the first column.
    let grid = Grid::from_bombs(3, 3, &vec![at(2, 0), at(2, 1), at(2, 2)]).unwrap();
    for y in 0..3 {
        assert_eq!(grid.cell_at(at(0, y)), Some(Cell::Empty));
        assert_eq!(grid.count_bomb_neighbors(at(0, y)), 0);
    }
    assert_eq!(grid.cell_at(at(1, 1)), Some(Cell::BombNeighbor(3)));
    let top = Grid::from_bombs(3, 3, &vec![at(0, 2), at(1, 2), at(2, 2)]).unwrap();
    for x in 0..3 {
        assert_eq!(top.cell_at(at(x, 0)), Some(Cell::Empty));
    }
}

#[test]
fn a_bomb_carries_no_number() {
    let grid = Grid::from_bombs(3, 3, &vec![at(1, 1), at(2, 2)]).unwrap();
    assert_eq!(grid.count_bomb_neighbors(at(1, 1)), 0);
    assert_eq!(grid.count_bomb_neighbors(at(2, 2)), 0);
    assert_eq!(grid.count_bomb_neighbors(at(2, 1)), 2);
}

#[test]
fn no_bomb_outside_the_grid() {
    let all = all_positions(3, 3);
    let grid = Grid::from_bombs(3, 4, &all).unwrap();
    assert_eq!(grid.bomb_count(), 9);
    for c in [at(3, 0), at(0, 4), at(3, 4), at(u16::MAX, 0), at(0, u16::MAX), at(u16::MAX, u16::MAX), at(100, 1)] {
        assert!(!grid.is_bomb_at(c));
    }
    assert!(grid.is_bomb_at(at(2, 2)));
    assert!(!grid.is_bomb_at(at(2, 3)));
}

#[test]
fn count_around_a_position_outside() {
    let grid = Grid::from_bombs(3, 3, &vec![at(0, 0), at(2, 2)]).unwrap();
    // Next to the grid on the right: only (2, 2) touches (3, 2).
    assert_eq!(grid.count_bomb_neighbors(at(3, 2)), 1);
    // At the end of the number range nothing wraps round to column 0.
    assert_eq!(grid.count_bomb_neighbors(at(u16::MAX, 0)), 0);
    assert_eq!(grid.count_bomb_neighbors(at(u16::MAX, u16::MAX)), 0);
}

#[test]
fn from_bombs_counts_a_position_once_and_skips_outsiders() {
    let grid = Grid::from_bombs(3, 3, &vec![at(1, 1), at(1, 1), at(7, 7), at(3, 0), at(1, 1)]).unwrap();
    assert_eq!(grid.bomb_count(), 1);
    assert_eq!(count_bomb_cells(&grid), 1);
    assert!(grid.is_bomb_at(at(1, 1)));
}

#[test]
fn from_bombs_refuses_a_grid_without_cells() {
    assert_eq!(Grid::from_bombs(0, 3, &vec![]).err(), Some(ConfigurationError::ZeroSized));
    assert_eq!(Grid::from_bombs(3, 0, &vec![at(0, 0)]).err(), Some(ConfigurationError::ZeroSized));
    assert_eq!(Grid::from_bombs(0, 0, &vec![]).err(), Some(ConfigurationError::ZeroSized));
}

#[test]
fn from_bombs_refuses_a_full_grid() {
    let all = all_positions(2, 2);
    assert_eq!(Grid::from_bombs(2, 2, &all).err(), Some(ConfigurationError::TooManyBombs));
    let three = vec![at(0, 0), at(1, 0), at(0, 1)];
    assert_eq!(Grid::from_bombs(2, 2, &three).unwrap().bomb_count(), 3);
    assert_eq!(Grid::from_bombs(1, 1, &vec![at(0, 0)]).err(), Some(ConfigurationError::TooManyBombs));
    assert_eq!(Grid::from_bombs(1, 1, &vec![]).unwrap().bomb_count(), 0);
}

#[test]
fn generated_fields_have_the_requested_bombs() {
    let mut rng = rand::thread_rng();
    for (w, h, b) in [(9u16, 9u16, 10u16), (16, 16, 40), (30, 16, 99), (1, 1, 0), (5, 1, 4), (2, 7, 13), (3, 3, 0)] {
        for _ in 0..5 {
            let grid = Grid::generate(w, h, b, &mut rng).unwrap();
            assert_eq!(grid.width(), w);
            assert_eq!(grid.height(), h);
            assert_eq!(grid.bomb_count(), b);
            assert_eq!(count_bomb_cells(&grid), b as usize);
        }
    }
}

#[test]
fn generated_fields_show_the_right_numbers() {
    let mut rng = rand::thread_rng();
    for (w, h, b) in [(9u16, 9u16, 10u16), (16, 16, 40), (30, 16, 99), (4, 4, 15), (6, 2, 5)] {
        for _ in 0..5 {
            let grid = Grid::generate(w, h, b, &mut rng).unwrap();
            assert_numbers_match(&grid);
        }
    }
}

#[test]
fn generate_refuses_bad_settings() {
    let mut rng = rand::thread_rng();
    assert_eq!(Grid::generate(0, 5, 0, &mut rng).err(), Some(ConfigurationError::ZeroSized));
    assert_eq!(Grid::generate(5, 0, 3, &mut rng).err(), Some(ConfigurationError::ZeroSized));
    assert_eq!(Grid::generate(0, 0, 0, &mut rng).err(), Some(ConfigurationError::ZeroSized));
    assert_eq!(Grid::generate(3, 3, 9, &mut rng).err(), Some(ConfigurationError::TooManyBombs));
    assert_eq!(Grid::generate(3, 3, 10, &mut rng).err(), Some(ConfigurationError::TooManyBombs));
    assert_eq!(Grid::generate(1, 1, 1, &mut rng).err(), Some(ConfigurationError::TooManyBombs));
    assert!(Grid::generate(3, 3, 8, &mut rng).is_ok());
}

#[test]
fn set_bombs_lays_bombs_on_an_empty_grid() {
    let mut grid = Grid::empty(9, 9);
    assert_eq!(grid.set_bombs(10), Ok(()));
    assert_eq!(grid.width(), 9);
    assert_eq!(grid.height(), 9);
    assert_eq!(grid.bomb_count(), 10);
    assert_eq!(count_bomb_cells(&grid), 10);
    assert_numbers_match(&grid);
    assert_eq!(grid.set_bombs(3), Ok(()));
    assert_eq!(grid.bomb_count(), 3);
    assert_eq!(count_bomb_cells(&grid), 3);
    assert_numbers_match(&grid);
}

#[test]
fn set_bombs_refuses_and_leaves_the_grid() {
    let mut grid = corner_bomb();
    assert_eq!(grid.set_bombs(9), Err(ConfigurationError::TooManyBombs));
    assert_eq!(grid.bomb_count(), 1);
    assert!(grid.is_bomb_at(at(2, 2)));
    assert_eq!(grid.cell_at(at(1, 1)), Some(Cell::BombNeighbor(1)));
    let mut none = Grid::empty(0, 4);
    assert_eq!(none.set_bombs(0), Err(ConfigurationError::ZeroSized));
    assert_eq!(none.width(), 0);
    assert_eq!(none.height(), 4);
}

#[test]
fn all_positions_walks_row_by_row() {
    assert_eq!(all_positions(2, 3), vec![at(0, 0), at(1, 0), at(0, 1), at(1, 1), at(0, 2), at(1, 2)]);
    assert_eq!(all_positions(0, 3), vec![]);
    assert_eq!(all_positions(3, 0), vec![]);
    assert_eq!(all_positions(30, 16).len(), 480);
}

#[test]
fn drawn_position_is_a_cell() {
    let mut rng = rand::thread_rng();
    for (w, h) in [(1u16, 1u16), (5, 4), (1, 9), (30, 16), (u16::MAX, 2)] {
        for _ in 0..200 {
            let c = draw_position(w, h, &mut rng);
            assert!(c.x < w && c.y < h);
        }
    }
    assert_eq!(draw_position(1, 1, &mut rng), at(0, 0));
}

#[test]
fn drawn_positions_reach_every_cell() {
    let mut rng = rand::thread_rng();
    let mut seen = vec![];
    for _ in 0..2000 {
        let c = draw_position(3, 2, &mut rng);
        if !seen.contains(&c) {
            seen.push(c);
        }
    }
    seen.sort();
    let mut all = all_positions(3, 2);
    all.sort();
    assert_eq!(seen, all);
}

#[test]
fn draw_from_takes_each_position_once() {
    let mut rng = rand::thread_rng();
    let mut list = all_positions(4, 3);
    let mut drawn = vec![];
    while !list.is_empty() {
        let before = list.clone();
        let c = draw_from(&mut list, &mut rng);
        assert!(before.contains(&c));
        assert!(!list.contains(&c));
        assert_eq!(list.len(), before.len() - 1);
        for p in &before {
            assert_eq!(list.contains(p), *p != c);
        }
        drawn.push(c);
    }
    drawn.sort();
    let mut all = all_positions(4, 3);
    all.sort();
    assert_eq!(drawn, all);
}

#[test]
fn generate_within_few_tries_still_places_every_bomb() {
    let mut rng = rand::thread_rng();
    for tries in [0u64, 1, 3, 10] {
        for (w, h, b) in [(9u16, 9u16, 10u16), (3, 3, 8), (5, 1, 4), (4, 4, 0), (1, 1, 0)] {
            let grid = Grid::generate_within(w, h, b, tries, &mut rng).unwrap();
            assert_eq!(grid.width(), w);
            assert_eq!(grid.height(), h);
            assert_eq!(grid.bomb_count(), b);
            assert_eq!(count_bomb_cells(&grid), b as usize);
            assert_numbers_match(&grid);
        }
    }
}

#[test]
fn generate_within_refuses_bad_settings() {
    let mut rng = rand::thread_rng();
    assert_eq!(Grid::generate_within(0, 5, 0, 0, &mut rng).err(), Some(ConfigurationError::ZeroSized));
    assert_eq!(Grid::generate_within(3, 3, 9, 7, &mut rng).err(), Some(ConfigurationError::TooManyBombs));
}

#[test]
fn a_nearly_full_field_is_generated() {
    let mut rng = rand::thread_rng();
    let grid = Grid::generate(6, 6, 35, &mut rng).unwrap();
    assert_eq!(count_bomb_cells(&grid), 35);
    assert_numbers_match(&grid);
}

#[test]
fn difficulty_presets() {
    let b = DifficultySettings::beginner();
    assert_eq!((b.grid_size.x, b.grid_size.y, b.bomb_count), (9, 9, 10));
    let i = DifficultySettings::intermediate();
    assert_eq!((i.grid_size.x, i.grid_size.y, i.bomb_count), (16, 16, 40));
    let e = DifficultySettings::expert();
    assert_eq!((e.grid_size.x, e.grid_size.y, e.bomb_count), (30, 16, 99));
    assert_eq!(DifficultySettings::default(), i);
    for s in [b, i, e] {
        assert_eq!(s.check(), Ok(()));
    }
}

#[test]
fn difficulty_check() {
    assert_eq!(DifficultySettings::custom(3, 3, 8).check(), Ok(()));
    assert_eq!(DifficultySettings::custom(3, 3, 9).check(), Err(ConfigurationError::TooManyBombs));
    assert_eq!(DifficultySettings::custom(0, 3, 0).check(), Err(ConfigurationError::ZeroSized));
    assert_eq!(DifficultySettings::custom(3, 0, 100).check(), Err(ConfigurationError::ZeroSized));
    assert_eq!(DifficultySettings::custom(u16::MAX, u16::MAX, u16::MAX).check(), Ok(()));
    assert_eq!(DifficultySettings::custom(255, 257, u16::MAX).check(), Err(ConfigurationError::TooManyBombs));
    assert_eq!(DifficultySettings::custom(256, 256, u16::MAX).check(), Ok(()));
    assert_eq!(minesweeper_plugin::config::area(u16::MAX, u16::MAX), 4294836225);
    assert_eq!(minesweeper_plugin::config::area(30, 16), 480);
}

#[test]
fn decimal_text_of_numbers() {
    assert_eq!(decimal_text(0), "0");
    assert_eq!(decimal_text(7), "7");
    assert_eq!(decimal_text(10), "10");
    assert_eq!(decimal_text(99), "99");
    assert_eq!(decimal_text(1234), "1234");
    assert_eq!(decimal_text(u16::MAX), "65535");
    for n in [0u16, 5, 42, 100, 1009, 40000] {
        assert_eq!(decimal_text(n), format!("{}", n));
    }
}

#[test]
fn dashes_text_has_the_length() {
    assert_eq!(dashes_text(0), "");
    assert_eq!(dashes_text(5), "-----");
}

#[test]
fn cell_console_output() {
    assert_eq!(Cell::Empty.console_output(), " ");
    assert_eq!(Cell::Bomb.console_output(), "*");
    assert_eq!(Cell::BombNeighbor(1).console_output(), "1");
    assert_eq!(Cell::BombNeighbor(8).console_output(), "8");
    assert_eq!(Cell::BombNeighbor(200).console_output(), "200");
}

#[test]
fn coordinates_to_text() {
    assert_eq!(at(3, 12).to_text(), "(3, 12)");
    assert_eq!(at(0, 0).to_text(), "(0, 0)");
    assert_eq!(at(u16::MAX, 1).to_text(), "(65535, 1)");
}

#[test]
fn grid_console_output() {
    let grid = corner_bomb();
    assert_eq!(grid.console_output(), "Map (3, 3) with 1 bombs:\n-----\n| 1*|\n| 11|\n|   |\n-----");
    let blank = Grid::empty(2, 1);
    assert_eq!(blank.console_output(), "Map (2, 1) with 0 bombs:\n----\n|  |\n----");
    let none = Grid::empty(0, 0);
    assert_eq!(none.console_output(), "Map (0, 0) with 0 bombs:\n--\n--");
}

#[test]
fn from_bombs_refuses_more_bombs_than_a_grid_records() {
    let all = all_positions(300, 300);
    let most: Vec<Coordinates> = all.iter().copied().take(u16::MAX as usize).collect();
    let grid = Grid::from_bombs(300, 300, &most).unwrap();
    assert_eq!(grid.bomb_count(), u16::MAX);
    let one_more: Vec<Coordinates> = all.iter().copied().take(u16::MAX as usize + 1).collect();
    assert_eq!(Grid::from_bombs(300, 300, &one_more).err(), Some(ConfigurationError::TooManyBombs));
}

#[test]
fn all_positions_has_each_position_at_its_place() {
    let all = all_positions(7, 5);
    for y in 0..5u16 {
        for x in 0..7u16 {
            assert_eq!(all[(y * 7 + x) as usize], at(x, y));
        }
    }
}
