use game_of_life::Universe;

#[test]
fn render_has_one_line_per_row_and_one_symbol_per_cell() {
    let u = Universe::new_empty(4, 3);
    let text = u.render();
    let lines: Vec<&str> = text.lines().collect();
    assert_eq!(lines.len(), 3);
    for line in lines {
        assert_eq!(line.chars().count(), 4);
    }
}

#[test]
fn render_marks_live_and_dead_cells() {
    let mut u = Universe::new_empty(2, 2);
    u.toggle_cell(0, 1);
    u.toggle_cell(1, 0);
    assert_eq!(u.render(), "◻◼\n◼◻\n");
}

#[test]
fn render_of_empty_universe_is_all_dead_symbols() {
    let u = Universe::new_empty(3, 1);
    assert_eq!(u.render(), "◻◻◻\n");
}

#[test]
fn render_of_zero_width_universe_is_bare_newlines() {
    let u = Universe::new_empty(0, 2);
    assert_eq!(u.render(), "\n\n");
}

#[test]
fn render_of_zero_height_universe_is_empty() {
    let u = Universe::new_empty(5, 0);
    assert_eq!(u.render(), "");
}
