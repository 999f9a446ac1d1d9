use game_of_life::Universe;

fn alive(u: &Universe, row: u32, col: u32) -> bool {
    u.get_cells().contains((row * u.width() + col) as usize)
}

fn live_count(u: &Universe) -> usize {
    let mut n = 0;
    for row in 0..u.height() {
        for col in 0..u.width() {
            if alive(u, row, col) {
                n += 1;
            }
        }
    }
    n
}

#[test]
fn empty_universe_is_all_dead() {
    let u = Universe::new_empty(4, 5);
    assert_eq!(u.width(), 4);
    assert_eq!(u.height(), 5);
    assert_eq!(live_count(&u), 0);
}

#[test]
fn toggle_cell_flips_state_twice() {
    let mut u = Universe::new_empty(3, 3);
    u.toggle_cell(1, 2);
    assert!(alive(&u, 1, 2));
    assert_eq!(live_count(&u), 1);
    u.toggle_cell(1, 2);
    assert!(!alive(&u, 1, 2));
    assert_eq!(live_count(&u), 0);
}

#[test]
fn neighbor_count_wraps_around_edges() {
    let mut u = Universe::new_empty(3, 3);
    u.toggle_cell(0, 0);
    assert_eq!(u.live_neighbor_count(2, 2), 1);
    assert_eq!(u.live_neighbor_count(1, 1), 1);
    assert_eq!(u.live_neighbor_count(0, 1), 1);
    assert_eq!(u.live_neighbor_count(2, 0), 1);
}

#[test]
fn neighbor_count_sees_all_eight() {
    let mut u = Universe::new_empty(3, 3);
    for row in 0..3 {
        for col in 0..3 {
            if !(row == 1 && col == 1) {
                u.toggle_cell(row, col);
            }
        }
    }
    assert_eq!(u.live_neighbor_count(1, 1), 8);
}

#[test]
fn lone_cell_dies_of_underpopulation() {
    let mut u = Universe::new_empty(3, 3);
    u.toggle_cell(1, 1);
    u.tick();
    assert_eq!(live_count(&u), 0);
}

#[test]
fn crowded_cells_die_of_overpopulation() {
    let mut u = Universe::new_empty(3, 3);
    for row in 0..3 {
        for col in 0..3 {
            u.toggle_cell(row, col);
        }
    }
    u.tick();
    assert_eq!(live_count(&u), 0);
}

#[test]
fn dead_grid_stays_dead() {
    let mut u = Universe::new_empty(6, 4);
    u.tick();
    assert_eq!(live_count(&u), 0);
}

#[test]
fn block_is_a_still_life() {
    let mut u = Universe::new_empty(4, 4);
    u.set_cells(&[(1, 1), (1, 2), (2, 1), (2, 2)]);
    u.tick();
    assert_eq!(live_count(&u), 4);
    assert!(alive(&u, 1, 1));
    assert!(alive(&u, 1, 2));
    assert!(alive(&u, 2, 1));
    assert!(alive(&u, 2, 2));
}

#[test]
fn blinker_oscillates_with_period_two() {
    let mut u = Universe::new_empty(5, 5);
    u.set_cells(&[(2, 1), (2, 2), (2, 3)]);
    u.tick();
    assert_eq!(live_count(&u), 3);
    assert!(alive(&u, 1, 2));
    assert!(alive(&u, 2, 2));
    assert!(alive(&u, 3, 2));
    u.tick();
    assert_eq!(live_count(&u), 3);
    assert!(alive(&u, 2, 1));
    assert!(alive(&u, 2, 2));
    assert!(alive(&u, 2, 3));
}

#[test]
fn set_cells_wraps_signed_coordinates() {
    let mut u = Universe::new_empty(3, 3);
    u.set_cells(&[(-1, -1), (3, 4)]);
    assert!(alive(&u, 2, 2));
    assert!(alive(&u, 0, 1));
    assert_eq!(live_count(&u), 2);
}

#[test]
fn set_width_resets_all_cells() {
    let mut u = Universe::new_empty(4, 4);
    u.set_cells(&[(0, 0), (1, 1), (2, 2), (3, 3)]);
    u.set_width(7);
    assert_eq!(u.width(), 7);
    assert_eq!(u.height(), 4);
    assert_eq!(live_count(&u), 0);
}

#[test]
fn set_height_resets_all_cells() {
    let mut u = Universe::new_empty(4, 4);
    u.set_cells(&[(0, 0), (1, 1), (2, 2), (3, 3)]);
    u.set_height(2);
    assert_eq!(u.width(), 4);
    assert_eq!(u.height(), 2);
    assert_eq!(live_count(&u), 0);
}

#[test]
fn zero_sized_universe_is_valid() {
    let mut u = Universe::new_empty(0, 3);
    assert_eq!(u.width(), 0);
    assert_eq!(u.height(), 3);
    u.set_cells(&[(5, -7)]);
    u.tick();
    assert_eq!(live_count(&u), 0);
}
