use life_tui::app::{
    in_area, key_action, mouse_to_grid, Action, App, Key, MouseKind, Phase, DEFAULT_SPEED, MAX_SPEED,
    MIN_SPEED,
};
use life_tui::patterns::{centered_pattern, pattern_of, Pattern};
use life_tui::rle::decode;
use life_tui::ui::{cursor_cell, grid_glyphs, grid_size_for, half_block};
use life_tui::grid::Grid;

#[test]
fn new_app_starts_editing_at_origin() {
    let app = App::new();
    assert_eq!(app.phase(), Phase::Edit);
    assert_eq!((app.cursor().0, app.cursor().1), (0, 0));
    assert_eq!((app.grid().width(), app.grid().height()), (1, 2));
    assert!(!app.should_quit());
}

#[test]
fn quit_sets_the_flag() {
    let mut app = App::new();
    app.quit();
    assert!(app.should_quit());
}

#[test]
fn ensure_grid_size_has_minimum_and_clamps_cursor() {
    let mut app = App::new();
    app.ensure_grid_size(0, 0);
    assert_eq!((app.grid().width(), app.grid().height()), (1, 2));
    app.ensure_grid_size(10, 8);
    app.move_cursor(9, 7);
    assert_eq!(app.cursor(), (9, 7));
    app.toggle_at_cursor();
    assert!(app.grid().get(9, 7));
    app.ensure_grid_size(4, 5);
    assert_eq!((app.grid().width(), app.grid().height()), (4, 5));
    assert_eq!((app.cursor().0, app.cursor().1), (3, 4));
    assert_eq!(app.grid().living(), 0);
}

#[test]
fn move_cursor_wraps_both_ways() {
    let mut app = App::new();
    app.ensure_grid_size(5, 4);
    app.move_cursor(-1, 0);
    assert_eq!((app.cursor().0, app.cursor().1), (4, 0));
    app.move_cursor(1, -1);
    assert_eq!((app.cursor().0, app.cursor().1), (0, 3));
    app.move_cursor(12, 9);
    assert_eq!((app.cursor().0, app.cursor().1), (2, 0));
    app.move_cursor(-12, -9);
    assert_eq!((app.cursor().0, app.cursor().1), (0, 3));
}

#[test]
fn toggle_at_cursor_and_phases_keep_grid() {
    let mut app = App::new();
    app.ensure_grid_size(3, 3);
    app.move_cursor(1, 1);
    app.toggle_at_cursor();
    assert!(app.grid().get(1, 1));
    app.start_run();
    assert_eq!(app.phase(), Phase::Run);
    app.back_to_edit();
    assert_eq!(app.phase(), Phase::Edit);
    assert!(app.grid().get(1, 1));
    assert_eq!((app.cursor().0, app.cursor().1), (1, 1));
}

#[test]
fn center_cursor_halves_the_size() {
    let mut app = App::new();
    app.ensure_grid_size(9, 6);
    app.center_cursor();
    assert_eq!((app.cursor().0, app.cursor().1), (4, 3));
}

#[test]
fn key_bindings_by_phase() {
    let edit = |k| key_action(false, Phase::Edit, false, k);
    let run = |k| key_action(false, Phase::Run, false, k);
    assert_eq!(edit(Key::Char('q')), Action::Quit);
    assert_eq!(run(Key::Esc), Action::Quit);
    assert_eq!(edit(Key::Char('h')), Action::MoveCursor(-1, 0));
    assert_eq!(edit(Key::Down), Action::MoveCursor(0, 1));
    assert_eq!(run(Key::Down), Action::Nothing);
    assert_eq!(edit(Key::Char(' ')), Action::ToggleCell);
    assert_eq!(edit(Key::Enter), Action::StartRun);
    assert_eq!(run(Key::Char('e')), Action::BackToEdit);
    assert_eq!(edit(Key::Char('e')), Action::Nothing);
    assert_eq!(edit(Key::Char('w')), Action::SavePattern);
    assert_eq!(edit(Key::Char('L')), Action::LoadPattern);
    assert_eq!(edit(Key::Char('c')), Action::ClearGrid);
    assert_eq!(edit(Key::Char('r')), Action::RandomFill);
    assert_eq!(edit(Key::Char('1')), Action::Stamp(Pattern::Glider));
    assert_eq!(edit(Key::Char('2')), Action::Stamp(Pattern::Blinker));
    assert_eq!(edit(Key::Char('3')), Action::Stamp(Pattern::Pulsar));
    assert_eq!(edit(Key::Char('4')), Action::Stamp(Pattern::GosperGliderGun));
    assert_eq!(edit(Key::Char('5')), Action::Stamp(Pattern::Lwss));
    assert_eq!(run(Key::Char('1')), Action::Nothing);
    assert_eq!(run(Key::Char(' ')), Action::TogglePause);
    assert_eq!(run(Key::Char('+')), Action::Faster);
    assert_eq!(run(Key::Char('=')), Action::Faster);
    assert_eq!(run(Key::Char('-')), Action::Slower);
    assert_eq!(run(Key::Char('_')), Action::Slower);
    assert_eq!(edit(Key::Char('+')), Action::Nothing);
}

#[test]
fn step_key_only_while_paused() {
    assert_eq!(key_action(false, Phase::Run, false, Key::Char('s')), Action::Nothing);
    assert_eq!(key_action(false, Phase::Run, true, Key::Char('s')), Action::StepOnce);
    assert_eq!(key_action(false, Phase::Edit, true, Key::Char('s')), Action::Nothing);
}

#[test]
fn help_keys() {
    assert_eq!(key_action(false, Phase::Edit, false, Key::Char('?')), Action::ToggleHelp);
    assert_eq!(key_action(false, Phase::Run, true, Key::Char('?')), Action::ToggleHelp);
    assert_eq!(key_action(true, Phase::Edit, false, Key::Char('q')), Action::Quit);
    assert_eq!(key_action(true, Phase::Run, false, Key::Esc), Action::Quit);
    assert_eq!(key_action(true, Phase::Edit, false, Key::Char('?')), Action::CloseHelp);
    assert_eq!(key_action(true, Phase::Edit, false, Key::Left), Action::CloseHelp);
    assert_eq!(key_action(true, Phase::Run, false, Key::Char(' ')), Action::CloseHelp);
}

#[test]
fn mouse_geometry() {
    assert!(in_area(2, 3, 10, 4, 2, 3));
    assert!(in_area(2, 3, 10, 4, 11, 6));
    assert!(!in_area(2, 3, 10, 4, 12, 6));
    assert!(!in_area(2, 3, 10, 4, 5, 7));
    assert_eq!(mouse_to_grid(2, 3, 7, 5), (5, 4));
}

#[test]
fn mouse_press_flips_two_half_rows_and_drag_paints() {
    let mut app = App::new();
    app.ensure_grid_size(4, 6);
    // grid drawn at terminal (2, 3); terminal cell (3, 4) shows grid cells (1, 2) and (1, 3)
    app.handle_mouse(2, 3, 4, 3, MouseKind::Down, 3, 4);
    assert!(app.grid().get(1, 2) && app.grid().get(1, 3));
    assert_eq!((app.cursor().0, app.cursor().1), (1, 2));
    assert_eq!(app.paint_state(), Some(true));
    app.handle_mouse(2, 3, 4, 3, MouseKind::Drag, 4, 5);
    assert!(app.grid().get(2, 4) && app.grid().get(2, 5));
    assert_eq!((app.cursor().0, app.cursor().1), (2, 4));
    assert_eq!(app.grid().living(), 4);
    // outside the area nothing happens
    app.handle_mouse(2, 3, 4, 3, MouseKind::Drag, 6, 5);
    assert_eq!(app.grid().living(), 4);
    app.handle_mouse(2, 3, 4, 3, MouseKind::Up, 40, 40);
    assert_eq!(app.paint_state(), None);
    // a drag without a press paints nothing
    app.handle_mouse(2, 3, 4, 3, MouseKind::Drag, 2, 3);
    assert!(!app.grid().get(0, 0));
    // pressing on a live cell kills it and the one below
    app.handle_mouse(2, 3, 4, 3, MouseKind::Down, 3, 4);
    assert_eq!(app.paint_state(), Some(false));
    assert!(!app.grid().get(1, 2) && !app.grid().get(1, 3));
    assert_eq!(app.grid().living(), 2);
}

#[test]
fn mouse_is_ignored_while_running() {
    let mut app = App::new();
    app.ensure_grid_size(4, 6);
    app.start_run();
    app.handle_mouse(0, 0, 4, 3, MouseKind::Down, 1, 1);
    assert_eq!(app.grid().living(), 0);
    assert_eq!(app.paint_state(), None);
}

#[test]
fn press_on_last_row_paints_one_cell() {
    let mut app = App::new();
    app.ensure_grid_size(3, 5);
    app.handle_mouse(0, 0, 3, 3, MouseKind::Down, 1, 2);
    assert!(app.grid().get(1, 4));
    assert_eq!(app.grid().living(), 1);
}

#[test]
fn stamp_wraps_around_edges() {
    let mut app = App::new();
    app.ensure_grid_size(5, 4);
    app.move_cursor(3, 2);
    app.stamp_at_cursor(&vec![(0, 0), (1, 0), (2, 1), (-4, -3)]);
    assert!(app.grid().get(3, 2));
    assert!(app.grid().get(4, 2));
    assert!(app.grid().get(0, 3));
    assert!(app.grid().get(4, 3));
    assert_eq!(app.grid().living(), 4);
}

#[test]
fn clear_grid_empties() {
    let mut app = App::new();
    app.ensure_grid_size(3, 3);
    app.toggle_at_cursor();
    app.clear_grid();
    assert_eq!(app.grid().living(), 0);
}

#[test]
fn half_blocks() {
    assert_eq!(half_block(false, false), ' ');
    assert_eq!(half_block(true, false), '▀');
    assert_eq!(half_block(false, true), '▄');
    assert_eq!(half_block(true, true), '█');
}

#[test]
fn grid_size_for_doubles_rows() {
    assert_eq!(grid_size_for(80, 24), (80, 48));
}

#[test]
fn glyphs_follow_cells_and_area() {
    let mut g = Grid::new(3, 5);
    g.set(0, 0, true);
    g.set(0, 1, true);
    g.set(1, 1, true);
    g.set(2, 2, true);
    let rows = grid_glyphs(&g, 10, 10);
    assert_eq!(rows.len(), 3);
    assert_eq!(rows[0], vec!['█', '▄', ' ']);
    assert_eq!(rows[1], vec![' ', ' ', '▀']);
    assert_eq!(rows[2], vec![' ', ' ', ' ']);
    let clipped = grid_glyphs(&g, 2, 1);
    assert_eq!(clipped, vec![vec!['█', '▄']]);
}

#[test]
fn new_app_controls() {
    let app = App::new();
    assert!(!app.show_help());
    assert!(!app.paused());
    assert_eq!(app.generation(), 0);
    assert_eq!(app.speed(), DEFAULT_SPEED);
    assert_eq!(DEFAULT_SPEED, 10);
    assert_eq!(app.paint_state(), None);
    assert_eq!((app.last_stats().births, app.last_stats().deaths), (0, 0));
}

#[test]
fn help_and_pause_toggle() {
    let mut app = App::new();
    app.toggle_help();
    assert!(app.show_help());
    app.toggle_help();
    assert!(!app.show_help());
    app.toggle_help();
    app.close_help();
    assert!(!app.show_help());
    app.close_help();
    assert!(!app.show_help());
    app.toggle_pause();
    assert!(app.paused());
    app.toggle_pause();
    assert!(!app.paused());
}

#[test]
fn speed_stays_between_limits() {
    let mut app = App::new();
    for _ in 0..100 {
        app.faster();
    }
    assert_eq!(app.speed(), MAX_SPEED);
    assert_eq!(MAX_SPEED, 60);
    app.slower();
    assert_eq!(app.speed(), 59);
    for _ in 0..100 {
        app.slower();
    }
    assert_eq!(app.speed(), MIN_SPEED);
    assert_eq!(MIN_SPEED, 1);
    app.faster();
    assert_eq!(app.speed(), 2);
}

#[test]
fn step_once_counts_generations_and_changes() {
    let mut app = App::new();
    app.ensure_grid_size(5, 5);
    // a vertical blinker, the cursor being at the origin
    app.stamp_at_cursor(&vec![(2, 1), (2, 2), (2, 3)]);
    app.step_once();
    assert_eq!(app.generation(), 1);
    assert_eq!((app.last_stats().births, app.last_stats().deaths), (2, 2));
    assert!(app.grid().get(1, 2) && app.grid().get(3, 2));
    app.step_once();
    assert_eq!(app.generation(), 2);
    assert!(app.grid().get(2, 1) && app.grid().get(2, 3));
}

#[test]
fn tick_timing_follows_speed() {
    let mut app = App::new();
    assert_eq!(app.tick_interval_ms(), 100);
    assert_eq!(app.time_until_next_tick(30), 70);
    assert_eq!(app.time_until_next_tick(100), 0);
    assert_eq!(app.time_until_next_tick(250), 0);
    for _ in 0..50 {
        app.faster();
    }
    assert_eq!(app.tick_interval_ms(), 16);
    for _ in 0..100 {
        app.slower();
    }
    assert_eq!(app.tick_interval_ms(), 1000);
    app.faster();
    assert_eq!(app.tick_interval_ms(), 500);
}

#[test]
fn maybe_tick_only_when_running_unpaused_and_due() {
    let mut app = App::new();
    app.ensure_grid_size(5, 5);
    // a vertical blinker, the cursor being at the origin
    app.stamp_at_cursor(&vec![(2, 1), (2, 2), (2, 3)]);
    assert!(!app.maybe_tick(1000));
    assert_eq!(app.generation(), 0);
    app.start_run();
    assert!(!app.maybe_tick(99));
    assert_eq!(app.generation(), 0);
    assert!(app.maybe_tick(100));
    assert_eq!(app.generation(), 1);
    assert!(app.grid().get(1, 2));
    app.toggle_pause();
    assert!(!app.maybe_tick(5000));
    assert_eq!(app.generation(), 1);
    app.step_once();
    assert_eq!(app.generation(), 2);
    assert!(app.grid().get(2, 1));
}

#[test]
fn random_fill_takes_the_given_cells() {
    let mut app = App::new();
    app.ensure_grid_size(2, 2);
    app.random_fill(&vec![true, false, false, true]);
    assert!(app.grid().get(0, 0) && !app.grid().get(1, 0) && !app.grid().get(0, 1) && app.grid().get(1, 1));
    assert_eq!(app.grid().living(), 2);
}

#[test]
fn patterns_match_their_rle() {
    let cases = [
        (Pattern::Glider, "bo$2bo$3o!"),
        (Pattern::Blinker, "3o!"),
        (
            Pattern::Pulsar,
            "2b3o3b3o2b2$o4bobo4bo$o4bobo4bo$o4bobo4bo$2b3o3b3o2b2$2b3o3b3o2b$o4bobo4bo$o4bobo4bo$o4bobo4bo2$2b3o3b3o!",
        ),
        (
            Pattern::GosperGliderGun,
            "24bo$22bobo$12b2o6b2o12b2o$11bo3bo4b2o12b2o$2o8bo5bo3b2o$2o8bo3bob2o4bobo$10bo5bo7bo$11bo3bo$12b2o!",
        ),
        (Pattern::Lwss, "bo2bo$o4b$o3bo$4o!"),
    ];
    for (p, rle) in cases {
        assert_eq!(pattern_of(p), decode(rle).unwrap());
    }
    assert_eq!(pattern_of(Pattern::Pulsar).len(), 48);
    assert_eq!(pattern_of(Pattern::GosperGliderGun).len(), 36);
}

#[test]
fn stamp_pattern_centres_on_cursor() {
    assert_eq!(
        centered_pattern(Pattern::Glider),
        vec![(0, -1), (1, 0), (-1, 1), (0, 1), (1, 1)]
    );
    let mut app = App::new();
    app.ensure_grid_size(10, 10);
    app.center_cursor();
    app.stamp_pattern(Pattern::Glider);
    for (x, y) in [(5, 4), (6, 5), (4, 6), (5, 6), (6, 6)] {
        assert!(app.grid().get(x, y));
    }
    assert_eq!(app.grid().living(), 5);
    // near the corner the pattern wraps around
    let mut app = App::new();
    app.ensure_grid_size(6, 6);
    app.stamp_pattern(Pattern::Blinker);
    assert!(app.grid().get(5, 0) && app.grid().get(0, 0) && app.grid().get(1, 0));
    assert_eq!(app.grid().living(), 3);
}

#[test]
fn last_row_of_odd_height_grid_is_drawn() {
    let mut g = Grid::new(1, 3);
    g.set(0, 2, true);
    let rows = grid_glyphs(&g, 1, 2);
    assert_eq!(rows, vec![vec![' '], vec!['▀']]);
    assert_eq!(grid_glyphs(&g, 1, 1), vec![vec![' ']]);
}

#[test]
fn handle_key_applies_the_binding() {
    let mut app = App::new();
    app.ensure_grid_size(10, 10);
    app.center_cursor();
    assert_eq!(app.handle_key(Key::Char('1')), Action::Stamp(Pattern::Glider));
    assert_eq!(app.grid().living(), 5);
    assert_eq!(app.handle_key(Key::Left), Action::MoveCursor(-1, 0));
    assert_eq!(app.cursor(), (4, 5));
    assert_eq!(app.handle_key(Key::Char(' ')), Action::ToggleCell);
    assert!(app.grid().get(4, 5));
    assert_eq!(app.handle_key(Key::Char('w')), Action::SavePattern);
    assert_eq!(app.handle_key(Key::Char('r')), Action::RandomFill);
    assert_eq!(app.grid().living(), 6);
    assert_eq!(app.handle_key(Key::Enter), Action::StartRun);
    assert_eq!(app.phase(), Phase::Run);
    assert_eq!(app.handle_key(Key::Char(' ')), Action::TogglePause);
    assert!(app.paused());
    assert_eq!(app.handle_key(Key::Char('s')), Action::StepOnce);
    assert_eq!(app.generation(), 1);
    assert_eq!(app.handle_key(Key::Char('+')), Action::Faster);
    assert_eq!(app.speed(), 11);
    assert_eq!(app.handle_key(Key::Char('?')), Action::ToggleHelp);
    assert!(app.show_help());
    assert_eq!(app.handle_key(Key::Char('e')), Action::CloseHelp);
    assert!(!app.show_help());
    assert_eq!(app.phase(), Phase::Run);
    assert_eq!(app.handle_key(Key::Char('e')), Action::BackToEdit);
    assert_eq!(app.handle_key(Key::Char('c')), Action::ClearGrid);
    assert_eq!(app.grid().living(), 0);
    assert!(!app.should_quit());
    assert_eq!(app.handle_key(Key::Esc), Action::Quit);
    assert!(app.should_quit());
}

#[test]
fn quit_flag_stays_set() {
    let mut app = App::new();
    app.ensure_grid_size(4, 4);
    app.quit();
    app.handle_key(Key::Enter);
    app.handle_key(Key::Char('?'));
    app.handle_key(Key::Char('x'));
    app.step_once();
    app.handle_mouse(0, 0, 4, 2, MouseKind::Down, 1, 1);
    app.ensure_grid_size(6, 6);
    assert!(app.should_quit());
}

#[test]
fn accessors_report_the_state() {
    let mut app = App::new();
    app.ensure_grid_size(3, 4);
    app.move_cursor(2, 3);
    assert_eq!(app.cursor(), (2, 3));
    assert_eq!(app.phase(), Phase::Edit);
    assert!(!app.show_help() && !app.paused());
    assert_eq!((app.grid().width(), app.grid().height()), (3, 4));
}

#[test]
fn area_test_computes_sums_only_when_reached() {
    // left of the area: the right edge is never computed
    assert!(!in_area(65530, 0, 10, 1, 5, 0));
    // inside the columns, above the rows: the lower edge is never computed
    assert!(!in_area(0, 65530, 10, 10, 3, 2));
    let mut app = App::new();
    app.handle_mouse(65530, 0, 10, 1, MouseKind::Down, 5, 0);
    assert_eq!(app.grid().living(), 0);
}

#[test]
fn cursor_cell_places_and_reads_the_cursor() {
    let mut g = Grid::new(4, 5);
    g.set(2, 3, true);
    assert_eq!(cursor_cell(&g, 10, 20, 2, 3), Some((12, 21, true)));
    assert_eq!(cursor_cell(&g, 10, 20, 1, 4), Some((11, 22, false)));
    assert_eq!(cursor_cell(&g, 10, 20, 4, 0), None);
    assert_eq!(cursor_cell(&g, 65534, 0, 3, 0), None);
}

#[test]
fn stamping_off_grid_cursor_wraps() {
    let mut app = App::new();
    app.ensure_grid_size(5, 4);
    // a press paints (1, 0) and (1, 1); dragging onto the far row of the
    // area puts the cursor below the grid
    app.handle_mouse(0, 0, 5, 3, MouseKind::Down, 1, 0);
    app.handle_mouse(0, 0, 5, 3, MouseKind::Drag, 1, 2);
    assert_eq!(app.cursor(), (1, 4));
    assert_eq!(app.grid().living(), 2);
    app.stamp_at_cursor(&vec![(0, 0), (-3, 1)]);
    // (1, 4) wraps to (1, 0); (-2, 5) wraps to (3, 1)
    assert!(app.grid().get(1, 0) && app.grid().get(3, 1));
    assert_eq!(app.grid().living(), 3);
}

#[test]
fn quitting_changes_nothing_else() {
    let run = |with_quit: bool| {
        let mut app = App::new();
        app.ensure_grid_size(6, 6);
        app.handle_key(Key::Char('1'));
        if with_quit {
            app.handle_key(Key::Char('q'));
        }
        app.handle_key(Key::Right);
        app.handle_key(Key::Enter);
        app.step_once();
        app
    };
    let (a, b) = (run(true), run(false));
    assert!(a.should_quit() && !b.should_quit());
    assert_eq!(a.cursor(), b.cursor());
    assert_eq!(a.phase(), b.phase());
    assert_eq!(a.generation(), b.generation());
    for y in 0..6 {
        for x in 0..6 {
            assert_eq!(a.grid().get(x, y), b.grid().get(x, y));
        }
    }
}
