use game_of_life::Cell::{Alive, Dead};
use game_of_life::{Cell, Universe};

#[test]
fn universe_displays_correctly() {
    let universe = Universe::from_cells(
        4,
        4,
        &[
            Cell::Dead,  Cell::Dead,  Cell::Dead,  Cell::Dead,
            Cell::Dead,  Cell::Dead,  Cell::Dead,  Cell::Alive,
            Cell::Dead,  Cell::Dead,  Cell::Alive, Cell::Alive,
            Cell::Dead,  Cell::Alive, Cell::Alive, Cell::Alive,
        ],
    );

    assert_eq!(
        universe.render(),
        "◻ ◻ ◻ ◻ \n\
         ◻ ◻ ◻ ◼ \n\
         ◻ ◻ ◼ ◼ \n\
         ◻ ◼ ◼ ◼ \n"
    );
}

fn assert_tick(w: u32, h: u32, before: &[Cell], after: &[Cell]) {
    assert_eq!(before.len(), after.len());
    assert_eq!(w as usize * h as usize, before.len());

    let mut universe = Universe::from_cells(w, h, &before);
    universe.tick();

    assert_eq!(&universe.to_cells()[..], after);
}

#[test]
fn tick_rule_1() {
    assert_tick(
        5,
        5,
        &[
            Dead, Dead, Dead,  Dead, Dead,
            Dead, Dead, Dead,  Dead, Dead,
            Dead, Dead, Alive, Dead, Dead,
            Dead, Dead, Dead,  Dead, Dead,
            Dead, Dead, Dead,  Dead, Dead,
        ],
        &[
            Dead, Dead, Dead, Dead, Dead,
            Dead, Dead, Dead, Dead, Dead,
            Dead, Dead, Dead, Dead, Dead,
            Dead, Dead, Dead, Dead, Dead,
            Dead, Dead, Dead, Dead, Dead,
        ],
    );
}

#[test]
fn tick_rule_2() {
    assert_tick(
        5,
        5,
        &[
            Dead, Dead,  Dead,  Dead, Dead,
            Dead, Dead,  Dead,  Dead, Dead,
            Dead, Alive, Alive, Dead, Dead,
            Dead, Alive, Alive, Dead, Dead,
            Dead, Dead,  Dead,  Dead, Dead,
        ],
        &[
            Dead, Dead,  Dead,  Dead, Dead,
            Dead, Dead,  Dead,  Dead, Dead,
            Dead, Alive, Alive, Dead, Dead,
            Dead, Alive, Alive, Dead, Dead,
            Dead, Dead,  Dead,  Dead, Dead,
        ],
    );
}

#[test]
fn tick_rules_3_and_4() {
    assert_tick(
        5,
        5,
        &[
            Dead, Dead,  Dead,  Dead,  Dead,
            Dead, Dead,  Alive, Dead,  Dead,
            Dead, Alive, Alive, Alive, Dead,
            Dead, Dead,  Alive, Dead,  Dead,
            Dead, Dead,  Dead,  Dead,  Dead,
        ],
        &[
            Dead, Dead,  Dead,  Dead,  Dead,
            Dead, Alive, Alive, Alive, Dead,
            Dead, Alive, Dead,  Alive, Dead,
            Dead, Alive, Alive, Alive, Dead,
            Dead, Dead,  Dead,  Dead,  Dead,
        ],
    );
}

#[test]
fn tick_cells_on_edge() {
    assert_tick(
        5,
        5,
        &[
            Dead,  Dead, Dead, Dead,  Dead,
            Dead,  Dead, Dead, Dead,  Dead,
            Alive, Dead, Dead, Alive, Alive,
            Dead,  Dead, Dead, Dead,  Dead,
            Dead,  Dead, Dead, Dead,  Dead,
        ],
        &[
            Dead, Dead, Dead, Dead, Dead,
            Dead, Dead, Dead, Dead, Alive,
            Dead, Dead, Dead, Dead, Alive,
            Dead, Dead, Dead, Dead, Alive,
            Dead, Dead, Dead, Dead, Dead,
        ],
    );
}

#[test]
fn round_trip_packing() {
    // Nine cells: the count is not a multiple of eight, so the last byte
    // is only partly used and its trailing bits must be discarded.
    let cells = [Alive, Dead, Dead, Alive, Alive, Alive, Dead, Alive, Alive];
    let universe = Universe::from_cells(3, 3, &cells);
    assert_eq!(&universe.to_cells()[..], &cells[..]);
}

#[test]
fn packed_buffer_layout() {
    let universe = Universe::from_cells(
        4,
        4,
        &[
            Dead, Dead,  Dead,  Dead,
            Dead, Dead,  Dead,  Alive,
            Dead, Dead,  Alive, Alive,
            Dead, Alive, Alive, Alive,
        ],
    );
    // Cell `i` sits at bit `i % 8` of byte `i / 8`: the one live cell of
    // the first eight is index 7, and of the second eight the live cells
    // are indices 10, 11, 13, 14 and 15.
    assert_eq!(universe.cells().as_slice(), &[0x80u8, 0xECu8]);
    assert_eq!(universe.width(), 4);
    assert_eq!(universe.height(), 4);
}

#[test]
fn all_dead_stays_dead() {
    let cells = vec![Dead; 21];
    let mut universe = Universe::from_cells(7, 3, &cells);
    universe.tick();
    assert_eq!(universe.to_cells(), cells);
}

#[test]
fn isolated_cell_dies() {
    // On a 3-by-3 torus every other cell sees the lone live cell exactly
    // once, so nothing is born and the live cell starves.
    assert_tick(
        3,
        3,
        &[
            Dead, Dead,  Dead,
            Dead, Alive, Dead,
            Dead, Dead,  Dead,
        ],
        &[
            Dead, Dead, Dead,
            Dead, Dead, Dead,
            Dead, Dead, Dead,
        ],
    );
}

#[test]
fn new_builds_from_random_bits() {
    let bits: Vec<bool> = (0..64 * 64).map(|i| i % 7 == 0).collect();
    let universe = Universe::new(&bits);
    assert_eq!(universe.width(), 64);
    assert_eq!(universe.height(), 64);
    let cells = universe.to_cells();
    assert_eq!(cells.len(), 64 * 64);
    for (i, &cell) in cells.iter().enumerate() {
        assert_eq!(cell, if i % 7 == 0 { Alive } else { Dead });
    }
}

#[test]
fn index_arithmetic() {
    let universe = Universe::from_cells(4, 3, &[Dead; 12]);
    assert_eq!(universe.get_index(2, 3), 11);
    assert_eq!(universe.get_row_column(11), (2, 3));
    assert_eq!(universe.get_row_column(0), (0, 0));
}

#[test]
fn get_cell_unpacks_bits() {
    let universe = Universe::from_cells(
        4,
        4,
        &[
            Dead, Dead,  Dead,  Dead,
            Dead, Dead,  Dead,  Alive,
            Dead, Dead,  Alive, Alive,
            Dead, Alive, Alive, Alive,
        ],
    );
    assert_eq!(universe.get_cell(0), Dead);
    assert_eq!(universe.get_cell(7), Alive);
    assert_eq!(universe.get_cell(10), Alive);
    assert_eq!(universe.get_cell(12), Dead);
}

#[test]
fn neighbor_count_wraps_around() {
    let universe = Universe::from_cells(
        5,
        5,
        &[
            Dead,  Dead, Dead, Dead,  Dead,
            Dead,  Dead, Dead, Dead,  Dead,
            Alive, Dead, Dead, Alive, Alive,
            Dead,  Dead, Dead, Dead,  Dead,
            Dead,  Dead, Dead, Dead,  Dead,
        ],
    );
    // The cell at row 2, column 4 touches column 0 across the edge.
    assert_eq!(universe.live_neighbor_count(2, 4), 2);
    // The cell at row 2, column 2 has one live neighbour, at column 3.
    assert_eq!(universe.live_neighbor_count(2, 2), 1);
}

#[test]
fn render_single_cell() {
    let universe = Universe::from_cells(1, 1, &[Alive]);
    assert_eq!(universe.render(), "◼ \n");
}
