use game_of_life::Universe;

fn alive(u: &Universe, row: u32, col: u32) -> bool {
    u.get_cells().contains((row * u.width() + col) as usize)
}

fn live_count(u: &Universe) -> usize {
    let mut n = 0;
    for row in 0..u.height() {
        for col in 0..u.width() {
            if alive(u, row, col) {
                n += 1;
            }
        }
    }
    n
}

#[test]
fn glider_has_five_cells() {
    let mut u = Universe::new_empty(20, 20);
    u.draw_glider(10, 10);
    assert_eq!(live_count(&u), 5);
    assert!(alive(&u, 10, 10));
    assert!(alive(&u, 9, 9));
    assert!(alive(&u, 10, 11));
    assert!(alive(&u, 11, 10));
    assert!(alive(&u, 11, 9));
}

#[test]
fn glider_ticks_to_its_next_phase() {
    let mut u = Universe::new_empty(20, 20);
    u.draw_glider(10, 10);
    u.tick();
    assert_eq!(live_count(&u), 5);
    assert!(alive(&u, 9, 10));
    assert!(alive(&u, 10, 11));
    assert!(alive(&u, 11, 9));
    assert!(alive(&u, 11, 10));
    assert!(alive(&u, 11, 11));
}

#[test]
fn glider_wraps_at_the_corner() {
    let mut u = Universe::new_empty(5, 5);
    u.draw_glider(0, 0);
    assert_eq!(live_count(&u), 5);
    assert!(alive(&u, 0, 0));
    assert!(alive(&u, 4, 4));
    assert!(alive(&u, 0, 1));
    assert!(alive(&u, 1, 0));
    assert!(alive(&u, 1, 4));
}

#[test]
fn pulsar_has_forty_eight_cells() {
    let mut u = Universe::new_empty(17, 17);
    u.draw_pulsar(8, 8);
    assert_eq!(live_count(&u), 48);
    assert!(alive(&u, 2, 4));
    assert!(alive(&u, 4, 2));
    assert!(alive(&u, 14, 12));
    assert!(!alive(&u, 8, 8));
}

#[test]
fn pulsar_oscillates_with_period_three() {
    let mut u = Universe::new_empty(17, 17);
    u.draw_pulsar(8, 8);
    let before: Vec<bool> = (0..17u32)
        .flat_map(|r| (0..17u32).map(move |c| (r, c)))
        .map(|(r, c)| alive(&u, r, c))
        .collect();
    u.tick();
    u.tick();
    u.tick();
    let after: Vec<bool> = (0..17u32)
        .flat_map(|r| (0..17u32).map(move |c| (r, c)))
        .map(|(r, c)| alive(&u, r, c))
        .collect();
    assert_eq!(before, after);
}

#[test]
fn copperhead_is_stamped_at_its_offset() {
    let u = Universe::new_copperhead(64, 64);
    assert_eq!(u.width(), 64);
    assert_eq!(u.height(), 64);
    assert_eq!(live_count(&u), 28);
    assert!(alive(&u, 33, 34));
    assert!(alive(&u, 33, 35));
    assert!(alive(&u, 36, 33));
    assert!(alive(&u, 44, 37));
    assert!(!alive(&u, 33, 33));
    assert!(!alive(&u, 38, 36));
}

#[test]
fn copperhead_on_empty_grid_has_no_cells() {
    let u = Universe::new_copperhead(0, 0);
    assert_eq!(u.width(), 0);
    assert_eq!(u.height(), 0);
    assert_eq!(live_count(&u), 0);
}
