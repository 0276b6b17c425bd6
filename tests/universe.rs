use game_of_life::{Cell, GridError, Universe};

fn dead_grid(width: u32, height: u32) -> Universe {
    let cells = vec![Cell::Dead; (width * height) as usize];
    Universe::from_cells(width, height, cells).unwrap()
}

fn grid_with(width: u32, height: u32, alive: &[(u32, u32)]) -> Universe {
    let mut u = dead_grid(width, height);
    u.set_cells(alive).unwrap();
    u
}

fn alive_coords(u: &Universe) -> Vec<(u32, u32)> {
    let mut out = Vec::new();
    for (i, c) in u.get_cells().iter().enumerate() {
        if *c == Cell::Alive {
            out.push((i as u32 / u.width(), i as u32 % u.width()));
        }
    }
    out
}

#[test]
fn tick_keeps_cell_count() {
    let mut u = Universe::new();
    u.tick();
    assert_eq!(u.get_cells().len(), (u.width() * u.height()) as usize);
    let mut v = grid_with(7, 3, &[(0, 0), (1, 1), (2, 6)]);
    v.tick();
    assert_eq!(v.get_cells().len(), 21);
}

#[test]
fn neighbor_count_wraps_to_opposite_corner() {
    // (0,0) has live neighbors (4,4), (0,1), (1,0) only through wraparound
    // for the first: three in all, so it is born.
    let mut u = grid_with(5, 5, &[(4, 4), (0, 1), (1, 0)]);
    u.tick();
    assert_eq!(u.get_cells()[0], Cell::Alive);
    // Without the corner cell it has two and stays dead.
    let mut v = grid_with(5, 5, &[(0, 1), (1, 0)]);
    v.tick();
    assert_eq!(v.get_cells()[0], Cell::Dead);
}

#[test]
fn block_is_still_life() {
    let mut u = grid_with(4, 4, &[(1, 1), (1, 2), (2, 1), (2, 2)]);
    let before = u.get_cells().to_vec();
    u.tick();
    assert_eq!(u.get_cells(), &before[..]);
    let mut v = grid_with(6, 5, &[(4, 5), (4, 0), (0, 5), (0, 0)]);
    let before = v.get_cells().to_vec();
    v.tick();
    v.tick();
    assert_eq!(v.get_cells(), &before[..]);
}

#[test]
fn blinker_has_period_two() {
    let horizontal = vec![(2, 1), (2, 2), (2, 3)];
    let mut u = grid_with(5, 5, &horizontal);
    u.tick();
    assert_eq!(alive_coords(&u), vec![(1, 2), (2, 2), (3, 2)]);
    u.tick();
    assert_eq!(alive_coords(&u), horizontal);
}

#[test]
fn vertical_blinker_on_three_by_three_fills_the_torus() {
    // On a 3 by 3 torus every cell neighbors all eight others, so each dead
    // cell sees three live ones and is born.
    let mut u = grid_with(3, 3, &[(0, 1), (1, 1), (2, 1)]);
    u.tick();
    assert!(u.get_cells().iter().all(|c| *c == Cell::Alive));
}

#[test]
fn vertical_blinker_turns_horizontal() {
    let mut u = grid_with(5, 5, &[(1, 2), (2, 2), (3, 2)]);
    u.tick();
    assert_eq!(alive_coords(&u), vec![(2, 1), (2, 2), (2, 3)]);
}

#[test]
fn pulsar_has_48_symmetric_cells() {
    let (w, h) = (17u32, 19u32);
    let (r, c) = (3u32, 15u32);
    let mut u = dead_grid(w, h);
    assert_eq!(u.create_pulsar(r, c), Ok(()));
    let alive = alive_coords(&u);
    assert_eq!(alive.len(), 48);
    for &(i, j) in &alive {
        let mi = ((2 * r as i64 - i as i64).rem_euclid(h as i64)) as u32;
        let mj = ((2 * c as i64 - j as i64).rem_euclid(w as i64)) as u32;
        assert!(alive.contains(&(mi, j)));
        assert!(alive.contains(&(i, mj)));
    }
    // The seed offset (6, 4) lands at (9, 19 mod 17).
    assert!(alive.contains(&(9, 2)));
    assert!(alive.contains(&(16, 11)));
    assert!(!alive.contains(&(r, c)));
}

#[test]
fn pulsar_keeps_live_cells() {
    let mut u = grid_with(20, 20, &[(10, 10), (0, 0)]);
    u.create_pulsar(10, 10).unwrap();
    let alive = alive_coords(&u);
    assert_eq!(alive.len(), 50);
    assert!(alive.contains(&(0, 0)));
}

#[test]
fn pulsar_off_grid_is_refused() {
    let mut u = grid_with(20, 20, &[(1, 1)]);
    let before = u.get_cells().to_vec();
    assert_eq!(u.create_pulsar(20, 0), Err(GridError::OutOfRange));
    assert_eq!(u.create_pulsar(0, 25), Err(GridError::OutOfRange));
    assert_eq!(u.get_cells(), &before[..]);
}

#[test]
fn kill_universe_leaves_all_dead() {
    let mut u = Universe::new();
    u.kill_universe();
    let cells = u.get_cells();
    assert_eq!(cells.len(), (u.width() * u.height()) as usize);
    assert!(cells.iter().all(|c| *c == Cell::Dead));
}

#[test]
fn toggle_twice_restores() {
    let mut u = Universe::new();
    let before = u.get_cells().to_vec();
    u.toggle_cell(3, 4).unwrap();
    assert_ne!(u.get_cells(), &before[..]);
    assert_eq!(u.get_cells()[3 * 100 + 4], Cell::Dead);
    u.toggle_cell(3, 4).unwrap();
    assert_eq!(u.get_cells(), &before[..]);
}

#[test]
fn toggle_off_grid_is_refused() {
    let mut u = dead_grid(4, 3);
    assert_eq!(u.toggle_cell(3, 0), Err(GridError::OutOfRange));
    assert_eq!(u.toggle_cell(0, 4), Err(GridError::OutOfRange));
    assert!(u.get_cells().iter().all(|c| *c == Cell::Dead));
}

#[test]
fn set_cells_off_grid_changes_nothing() {
    let mut u = dead_grid(4, 3);
    assert_eq!(u.set_cells(&[(0, 0), (3, 1)]), Err(GridError::OutOfRange));
    assert!(u.get_cells().iter().all(|c| *c == Cell::Dead));
    assert_eq!(u.set_cells(&[(2, 3), (0, 0), (2, 3)]), Ok(()));
    assert_eq!(alive_coords(&u), vec![(0, 0), (2, 3)]);
}

#[test]
fn resize_resets_to_dead() {
    let mut u = Universe::new();
    u.set_width(30);
    assert_eq!(u.width(), 30);
    assert_eq!(u.height(), 100);
    assert_eq!(u.get_cells().len(), 3000);
    assert!(u.get_cells().iter().all(|c| *c == Cell::Dead));
    u.toggle_cell(5, 5).unwrap();
    u.set_height(7);
    assert_eq!(u.height(), 7);
    assert_eq!(u.get_cells().len(), 210);
    assert!(u.get_cells().iter().all(|c| *c == Cell::Dead));
}

#[test]
fn zero_sized_grid_is_valid() {
    let mut u = Universe::new();
    u.set_width(0);
    assert_eq!(u.get_cells().len(), 0);
    u.tick();
    assert_eq!(u.get_cells().len(), 0);
    assert_eq!(u.toggle_cell(0, 0), Err(GridError::OutOfRange));
}

#[test]
fn from_cells_checks_dimensions() {
    assert_eq!(
        Universe::from_cells(3, 2, vec![Cell::Dead; 5]).err(),
        Some(GridError::InvalidDimension)
    );
    assert_eq!(
        Universe::from_cells(65536, 65536, Vec::new()).err(),
        Some(GridError::InvalidDimension)
    );
    let u = Universe::from_cells(3, 2, vec![Cell::Alive; 6]).unwrap();
    assert_eq!((u.width(), u.height()), (3, 2));
}

#[test]
fn new_follows_even_or_multiple_of_seven() {
    let u = Universe::new();
    assert_eq!((u.width(), u.height()), (100, 100));
    let cells = u.get_cells();
    assert_eq!(cells.len(), 10000);
    assert_eq!(cells[0], Cell::Alive);
    assert_eq!(cells[1], Cell::Dead);
    assert_eq!(cells[7], Cell::Alive);
    assert_eq!(cells[9], Cell::Dead);
    assert_eq!(cells[21], Cell::Alive);
    assert_eq!(cells[9998], Cell::Alive);
}

#[test]
fn random_universe_mixes_states() {
    let u = Universe::random_universe();
    assert_eq!((u.width(), u.height()), (100, 100));
    let cells = u.get_cells();
    assert_eq!(cells.len(), 10000);
    assert!(cells.iter().any(|c| *c == Cell::Alive));
    assert!(cells.iter().any(|c| *c == Cell::Dead));
}

#[test]
fn draw_zero_is_alive() {
    assert_eq!(Universe::cell_from_draw(0), Cell::Alive);
    assert_eq!(Universe::cell_from_draw(1), Cell::Dead);
}

#[test]
fn render_writes_rows() {
    let u = grid_with(3, 2, &[(0, 1), (1, 2)]);
    assert_eq!(u.render(), " \u{25fb} \u{25fc} \u{25fb}\n \u{25fb} \u{25fb} \u{25fc}\n");
}

#[test]
fn rules_on_single_cells() {
    // A lone live cell dies of underpopulation.
    let mut u = grid_with(5, 5, &[(2, 2)]);
    u.tick();
    assert!(u.get_cells().iter().all(|c| *c == Cell::Dead));
    // A live cell with four neighbors dies of overpopulation.
    let mut v = grid_with(5, 5, &[(2, 2), (1, 2), (3, 2), (2, 1), (2, 3)]);
    v.tick();
    assert_eq!(v.get_cells()[2 * 5 + 2], Cell::Dead);
}

#[test]
fn cell_toggle_flips() {
    let mut c = Cell::Dead;
    c.toggle();
    assert_eq!(c, Cell::Alive);
    c.toggle();
    assert_eq!(c, Cell::Dead);
    assert_eq!(Cell::Alive.weight(), 1);
}
