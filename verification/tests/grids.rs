use markov_grid::{GenericGrid, Grid, Pattern, Point, Symbol};

fn lettered(width: usize, height: usize, text: &str) -> Grid {
    let cells: Vec<Symbol> = Symbol::from_string(text)
        .into_iter()
        .map(|cell| cell.unwrap())
        .collect();
    GenericGrid {
        width,
        height,
        grid: cells,
    }
}

#[test]
fn point_addition_is_componentwise() {
    let sum = Point { x: 2, y: 5 } + Point { x: 7, y: 11 };
    assert_eq!(sum, Point { x: 9, y: 16 });
    assert_eq!(Point::zero(), Point { x: 0, y: 0 });
    assert_eq!(Point::zero() + sum, sum);
}

#[test]
fn default_symbol_is_black() {
    assert_eq!(Symbol::default(), Symbol::Black);
}

#[test]
fn palette_indices_are_stable() {
    assert_eq!(Symbol::Black.palette_index(), 0);
    assert_eq!(Symbol::White.palette_index(), 1);
    assert_eq!(Symbol::Red.palette_index(), 2);
    assert_eq!(Symbol::Green.palette_index(), 3);
    assert_eq!(Symbol::Blue.palette_index(), 4);
    assert_eq!(Symbol::Emerald.palette_index(), 5);
    assert_eq!(Symbol::PALETTE.len(), 18);
    assert_eq!(&Symbol::PALETTE[6..9], &[0xff, 0x00, 0x4d]);
    assert_eq!(&Symbol::PALETTE[12..15], &[0x29, 0xad, 0xff]);
}

#[test]
fn symbols_are_read_letter_by_letter() {
    assert_eq!(
        Symbol::from_string("BWRGUE*"),
        vec![
            Some(Symbol::Black),
            Some(Symbol::White),
            Some(Symbol::Red),
            Some(Symbol::Green),
            Some(Symbol::Blue),
            Some(Symbol::Emerald),
            None,
        ]
    );
    assert_eq!(Symbol::from_string(""), vec![]);
}

#[test]
fn unknown_letters_are_not_read() {
    assert!(Symbol::can_read("BWRGUE*"));
    assert!(Symbol::can_read(""));
    assert!(!Symbol::can_read("BxW"));
    assert!(!Symbol::can_read("B/W"));
    assert!(!Symbol::can_read("b"));
    assert_eq!(Symbol::from_char('U'), Some(Some(Symbol::Blue)));
    assert_eq!(Symbol::from_char('*'), Some(None));
    assert_eq!(Symbol::from_char('?'), None);
}

#[test]
fn letters_name_their_symbols() {
    for symbol in [
        Symbol::Black,
        Symbol::White,
        Symbol::Red,
        Symbol::Green,
        Symbol::Blue,
        Symbol::Emerald,
    ] {
        assert_eq!(Symbol::from_char(symbol.letter()), Some(Some(symbol)));
    }
    assert_eq!(Symbol::Blue.letter(), 'U');
}

#[test]
fn new_grid_is_filled_with_the_default() {
    let grid = Grid::new(3, 2);
    assert_eq!(grid.width, 3);
    assert_eq!(grid.height, 2);
    assert_eq!(grid.grid, vec![Symbol::Black; 6]);
    assert!(grid.well_formed());
    let pattern = Pattern::new(2, 2);
    assert_eq!(pattern.grid, vec![None; 4]);
    let empty = Grid::new(0, 7);
    assert_eq!(empty.grid.len(), 0);
    assert!(empty.well_formed());
}

#[test]
fn from_string_makes_one_row() {
    let cells = Symbol::from_string("R*G");
    let row = Pattern::from_string(&cells);
    assert_eq!(row.width, 3);
    assert_eq!(row.height, 1);
    assert_eq!(row.grid, cells);
}

#[test]
fn positions_outside_the_grid_are_told_apart() {
    let grid = Grid::new(16, 4);
    assert!(grid.contains(Point { x: 0, y: 0 }));
    assert!(grid.contains(Point { x: 15, y: 3 }));
    assert!(!grid.contains(Point { x: 16, y: 3 }));
    assert!(!grid.contains(Point { x: 15, y: 4 }));
    assert!(!Grid::new(0, 3).contains(Point { x: 0, y: 0 }));
}

#[test]
fn offsets_are_row_major() {
    let grid = Grid::new(16, 4);
    assert_eq!(grid.find_offset(Point { x: 0, y: 0 }), 0);
    assert_eq!(grid.find_offset(Point { x: 2, y: 3 }), 50);
    assert_eq!(grid.find_offset(Point { x: 15, y: 3 }), 63);
}

#[test]
fn cells_are_read_and_written_by_position() {
    let mut grid = lettered(3, 2, "BWRGUE");
    assert_eq!(grid[Point { x: 0, y: 0 }], Symbol::Black);
    assert_eq!(grid[Point { x: 2, y: 0 }], Symbol::Red);
    assert_eq!(grid[Point { x: 1, y: 1 }], Symbol::Blue);
    assert_eq!(grid.get(Point { x: 2, y: 1 }), Symbol::Emerald);
    grid[Point { x: 1, y: 0 }] = Symbol::Green;
    grid.set(Point { x: 0, y: 1 }, Symbol::White);
    assert_eq!(grid, lettered(3, 2, "BGRWUE"));
}

#[test]
fn quarter_turn_is_clockwise() {
    // BWR      GB
    // GUE  ->  UW
    //          ER
    let grid = lettered(3, 2, "BWRGUE");
    let turned = grid.rotate_cw();
    assert_eq!(turned, lettered(2, 3, "GBUWER"));
    assert_eq!(grid, lettered(3, 2, "BWRGUE"));
    let twice = turned.rotate_cw();
    assert_eq!(twice, lettered(3, 2, "EUGRWB"));
}

#[test]
fn four_quarter_turns_are_the_identity() {
    let grid = lettered(3, 2, "BWRGUE");
    let back = grid.rotate_cw().rotate_cw().rotate_cw().rotate_cw();
    assert_eq!(back, grid);
    let pattern = Pattern::from_text("R*/GU/*E").unwrap();
    let back = pattern.rotate_cw().rotate_cw().rotate_cw().rotate_cw();
    assert_eq!(back, pattern);
    let row = lettered(5, 1, "BWRGU");
    assert_eq!(row.rotate_cw(), lettered(1, 5, "BWRGU"));
    assert_eq!(row.rotate_cw().rotate_cw(), lettered(5, 1, "UGRWB"));
}

#[test]
fn well_formed_counts_the_cells() {
    let mut grid = Grid::new(3, 2);
    assert!(grid.well_formed());
    grid.grid.pop();
    assert!(!grid.well_formed());
    grid.grid.push(Symbol::Red);
    grid.width = usize::MAX;
    assert!(!grid.well_formed());
}

#[test]
fn clone_is_an_equal_grid() {
    let grid = lettered(3, 2, "BWRGUE");
    let mut copy = grid.clone();
    assert_eq!(copy, grid);
    copy.set(Point { x: 0, y: 0 }, Symbol::Emerald);
    assert_eq!(grid[Point { x: 0, y: 0 }], Symbol::Black);
}
