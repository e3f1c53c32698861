use game_of_life::Cell;
use game_of_life::GridError;
use game_of_life::Universe;

#[test]
pub fn test_tick() {
    let width = 6;
    let height = 6;
    // set spaceship
    let spaceship_cells: [u32; 5] = [9, 13, 15, 20, 21];
    println!("input {:?}", spaceship_cells);
    let mut universe = Universe::new_with_state(width, height, &spaceship_cells).unwrap();
    universe.tick();
    let expected_spaceship_conf: [u32; 5] = [8, 15, 16, 20, 21];
    assert_eq!(&universe.get_live_cells(), &expected_spaceship_conf);
}

#[test]
fn count_matches_listing() {
    let universe = Universe::new_with_state(6, 6, &[9, 13, 15, 20, 21]).unwrap();
    assert_eq!(
        universe.get_live_cells_count() as usize,
        universe.get_live_cells().len()
    );
    let mut stepped = Universe::new_with_state(6, 6, &[9, 13, 15, 20, 21]).unwrap();
    stepped.tick();
    assert_eq!(
        stepped.get_live_cells_count() as usize,
        stepped.get_live_cells().len()
    );
}

#[test]
fn seed_round_trip_sorted_dedup() {
    let universe = Universe::new_with_state(4, 4, &[5, 2, 5, 7, 2]).unwrap();
    assert_eq!(&universe.get_live_cells(), &[2, 5, 7]);
    assert_eq!(universe.get_live_cells_count(), 3);
}

#[test]
fn empty_seed_gives_empty_grid() {
    let universe = Universe::new_with_state(5, 4, &[]).unwrap();
    assert_eq!(universe.get_live_cells(), Vec::<u32>::new());
    assert_eq!(universe.get_live_cells_count(), 0);
}

#[test]
fn corner_neighbor_wraps_around() {
    // Only the cell at index 0 (row 0, col 0) is alive on a 3x3 grid: the
    // bottom-right corner must see it as a neighbor across both edges.
    let universe = Universe::new_with_state(3, 3, &[0]).unwrap();
    assert_eq!(universe.live_neighbor_count(2, 2), 1);
    assert_eq!(universe.live_neighbor_count(1, 1), 1);
    assert_eq!(universe.live_neighbor_count(0, 0), 0);
}

#[test]
fn row_wraps_across_edges() {
    // A full top row on a 3x3 torus feeds three neighbors to every other
    // row, including the last row through the wrapped edge, so the whole
    // grid comes alive; one step later every cell has eight neighbors and
    // dies.
    let mut universe = Universe::new_with_state(3, 3, &[0, 1, 2]).unwrap();
    universe.tick();
    assert_eq!(&universe.get_live_cells(), &[0, 1, 2, 3, 4, 5, 6, 7, 8]);
    universe.tick();
    assert_eq!(universe.get_live_cells_count(), 0);
}

#[test]
fn empty_grid_stays_dead() {
    let mut universe = Universe::new_with_state(5, 4, &[]).unwrap();
    for _ in 0..5 {
        universe.tick();
        assert_eq!(universe.get_live_cells_count(), 0);
        assert_eq!(universe.get_live_cells(), Vec::<u32>::new());
    }
}

#[test]
fn identically_built_grids_stay_identical() {
    let seed: [u32; 5] = [9, 13, 15, 20, 21];
    let mut a = Universe::new_with_state(6, 6, &seed).unwrap();
    let mut b = Universe::new_with_state(6, 6, &seed).unwrap();
    for _ in 0..4 {
        a.tick();
        b.tick();
        assert_eq!(a.get_live_cells(), b.get_live_cells());
    }
}

#[test]
fn zero_width_is_invalid_dimensions() {
    match Universe::new_with_state(0, 5, &[]) {
        Err(e) => assert_eq!(e, GridError::InvalidDimensions),
        Ok(_) => panic!("width 0 must be rejected"),
    }
}

#[test]
fn zero_height_is_invalid_dimensions() {
    match Universe::new_with_state(5, 0, &[]) {
        Err(e) => assert_eq!(e, GridError::InvalidDimensions),
        Ok(_) => panic!("height 0 must be rejected"),
    }
    match Universe::new(4, 0, &[]) {
        Err(e) => assert_eq!(e, GridError::InvalidDimensions),
        Ok(_) => panic!("height 0 must be rejected"),
    }
}

#[test]
fn seed_index_out_of_range_is_rejected() {
    match Universe::new_with_state(2, 2, &[4]) {
        Err(e) => assert_eq!(e, GridError::IndexOutOfRange),
        Ok(_) => panic!("index 4 lies outside a 2x2 grid"),
    }
    match Universe::new_with_state(2, 2, &[0, 1, 17]) {
        Err(e) => assert_eq!(e, GridError::IndexOutOfRange),
        Ok(_) => panic!("index 17 lies outside a 2x2 grid"),
    }
}

#[test]
fn flips_construct_matching_cells() {
    let flips = [true, false, false, true];
    let universe = Universe::new(2, 2, &flips).unwrap();
    assert_eq!(&universe.get_live_cells(), &[0, 3]);
    assert_eq!(
        universe.cells(),
        vec![Cell::Alive, Cell::Dead, Cell::Dead, Cell::Alive]
    );
}

#[test]
fn dimensions_are_stored() {
    let universe = Universe::new_with_state(7, 3, &[]).unwrap();
    assert_eq!(universe.width(), 7);
    assert_eq!(universe.height(), 3);
}

#[test]
fn alive_cells_matches_get_live_cells() {
    let universe = Universe::new_with_state(4, 4, &[1, 6, 11]).unwrap();
    assert_eq!(universe.alive_cells(), universe.get_live_cells());
}

#[test]
fn render_lays_out_rows() {
    let universe = Universe::new_with_state(2, 2, &[0, 3]).unwrap();
    assert_eq!(universe.render(), "◼◻\n◻◼");
    let one_row = Universe::new_with_state(3, 1, &[1]).unwrap();
    assert_eq!(one_row.render(), "◻◼◻");
}

#[test]
fn tick_applies_all_four_rules() {
    // A lone pair dies of underpopulation.
    let mut lonely = Universe::new_with_state(5, 5, &[6, 7]).unwrap();
    lonely.tick();
    assert_eq!(lonely.get_live_cells_count(), 0);
    // A block is still life: every live cell has three live neighbors.
    let mut block = Universe::new_with_state(5, 5, &[6, 7, 11, 12]).unwrap();
    block.tick();
    assert_eq!(&block.get_live_cells(), &[6, 7, 11, 12]);
}
