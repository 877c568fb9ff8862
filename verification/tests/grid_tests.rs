use life_tui::grid::{Grid, StepStats};

#[test]
fn blinker_oscillates() {
    let mut g = Grid::new(5, 5);
    // vertical bar at (2,1),(2,2),(2,3)
    g.set(2, 1, true);
    g.set(2, 2, true);
    g.set(2, 3, true);
    let s = g.step();
    assert_eq!(s.births, 2);
    assert_eq!(s.deaths, 2);
    // now horizontal: (1,2),(2,2),(3,2)
    assert!(g.get(1, 2));
    assert!(g.get(2, 2));
    assert!(g.get(3, 2));
    assert!(!g.get(2, 1));
    assert!(!g.get(2, 3));
    g.step();
    assert!(g.get(2, 1));
    assert!(g.get(2, 2));
    assert!(g.get(2, 3));
}

#[test]
fn glider_translates_after_four_steps() {
    let mut g = Grid::new(20, 20);
    // glider, top-left at (1,1)
    for &(x, y) in &[(2, 1), (3, 2), (1, 3), (2, 3), (3, 3)] {
        g.set(x, y, true);
    }
    for _ in 0..4 {
        g.step();
    }
    // glider has shifted by (1,1)
    assert_eq!(g.living(), 5);
    for &(x, y) in &[(3, 2), (4, 3), (2, 4), (3, 4), (4, 4)] {
        assert!(g.get(x, y), "expected alive at {x},{y}");
    }
}

#[test]
fn toroidal_wrap() {
    let mut g = Grid::new(4, 4);
    // single cell at corner has neighbors via wrap
    g.set(0, 0, true);
    g.set(3, 0, true);
    g.set(0, 3, true);
    g.step();
    assert!(g.living() <= 9);
}

#[test]
fn block_is_stable() {
    let mut g = Grid::new(6, 6);
    for &(x, y) in &[(2, 2), (3, 2), (2, 3), (3, 3)] {
        g.set(x, y, true);
    }
    g.step();
    assert_eq!(g.living(), 4);
    for &(x, y) in &[(2, 2), (3, 2), (2, 3), (3, 3)] {
        assert!(g.get(x, y));
    }
}

fn alive_cells(g: &Grid) -> Vec<(usize, usize)> {
    let mut v = Vec::new();
    for y in 0..g.height() {
        for x in 0..g.width() {
            if g.get(x, y) {
                v.push((x, y));
            }
        }
    }
    v
}

#[test]
fn new_grid_is_dead_and_sized() {
    let g = Grid::new(7, 3);
    assert_eq!(g.width(), 7);
    assert_eq!(g.height(), 3);
    assert_eq!(g.living(), 0);
}

#[test]
fn get_after_set_reads_back_and_leaves_others() {
    let mut g = Grid::new(4, 3);
    g.set(1, 2, true);
    assert!(g.get(1, 2));
    assert_eq!(alive_cells(&g), vec![(1, 2)]);
    g.set(1, 2, false);
    assert!(!g.get(1, 2));
    assert_eq!(g.living(), 0);
}

#[test]
fn set_and_toggle_out_of_bounds_do_nothing() {
    let mut g = Grid::new(3, 3);
    g.set(3, 0, true);
    g.set(0, 3, true);
    g.toggle(5, 5);
    assert_eq!(g.living(), 0);
}

#[test]
fn toggle_twice_restores() {
    let mut g = Grid::new(3, 3);
    g.set(0, 0, true);
    g.toggle(2, 1);
    assert!(g.get(2, 1));
    g.toggle(2, 1);
    assert!(!g.get(2, 1));
    assert_eq!(alive_cells(&g), vec![(0, 0)]);
}

#[test]
fn clear_kills_everything_keeps_size() {
    let mut g = Grid::new(5, 4);
    g.set(1, 1, true);
    g.set(4, 3, true);
    g.clear();
    assert_eq!(g.living(), 0);
    assert_eq!((g.width(), g.height()), (5, 4));
}

#[test]
fn resize_keeps_overlap_and_kills_new_cells() {
    let mut g = Grid::new(4, 4);
    g.set(1, 1, true);
    g.set(3, 3, true);
    g.resize(2, 6);
    assert_eq!((g.width(), g.height()), (2, 6));
    assert_eq!(alive_cells(&g), vec![(1, 1)]);
    g.resize(5, 5);
    assert_eq!(alive_cells(&g), vec![(1, 1)]);
}

#[test]
fn resize_to_same_size_changes_nothing() {
    let mut g = Grid::new(3, 2);
    g.set(2, 1, true);
    g.resize(3, 2);
    assert_eq!(alive_cells(&g), vec![(2, 1)]);
}

#[test]
fn step_population_balances_births_and_deaths() {
    let mut g = Grid::new(8, 8);
    for &(x, y) in &[(1, 1), (2, 1), (3, 1), (5, 5), (6, 5), (5, 6), (0, 7)] {
        g.set(x, y, true);
    }
    let before = g.living();
    let s = g.step();
    assert_eq!(g.living() + s.deaths as usize, before + s.births as usize);
}

#[test]
fn lone_cell_dies_and_three_neighbours_give_birth() {
    let mut g = Grid::new(5, 5);
    g.set(2, 2, true);
    let s = g.step();
    assert_eq!((s.births, s.deaths), (0, 1));
    assert_eq!(g.living(), 0);

    let mut g = Grid::new(5, 5);
    g.set(1, 1, true);
    g.set(3, 1, true);
    g.set(2, 3, true);
    g.step();
    assert!(g.get(2, 2));
}

#[test]
fn step_commutes_with_wrapping_shift() {
    // A glider near the top-left corner, and the same glider shifted so it
    // straddles the corner of the torus, evolve the same way.
    let cells = [(1usize, 0usize), (2, 1), (0, 2), (1, 2), (2, 2)];
    let (w, h) = (7usize, 6usize);
    let (dx, dy) = (5usize, 4usize);
    let mut a = Grid::new(w, h);
    let mut b = Grid::new(w, h);
    for &(x, y) in &cells {
        a.set(x, y, true);
        b.set((x + dx) % w, (y + dy) % h, true);
    }
    for _ in 0..3 {
        a.step();
        b.step();
    }
    let shifted: Vec<(usize, usize)> = {
        let mut v: Vec<(usize, usize)> =
            alive_cells(&a).into_iter().map(|(x, y)| ((x + dx) % w, (y + dy) % h)).collect();
        v.sort_by_key(|&(x, y)| (y, x));
        v
    };
    assert_eq!(alive_cells(&b), shifted);
}

#[test]
fn width_one_grid_counts_itself_as_neighbour() {
    // On a one-column torus the left and right neighbours are the cell itself.
    let mut g = Grid::new(1, 3);
    g.set(0, 0, true);
    g.set(0, 1, true);
    let s = g.step();
    // (0,0): neighbours (0,2)x3 dead, (0,1)x3 alive, self twice -> 5: dies
    // (0,1): (0,0)x3 + (0,2)x3 dead + self twice -> 5: dies
    // (0,2): (0,1)x3 + (0,0)x3 -> 6: stays dead
    assert_eq!((s.births, s.deaths), (0, 2));
    assert_eq!(g.living(), 0);
}

#[test]
fn empty_grid_steps_to_empty() {
    let mut g = Grid::new(0, 0);
    let s = g.step();
    assert_eq!((s.births, s.deaths), (0, 0));
    assert_eq!(g.living(), 0);
}

#[test]
fn step_stats_default_is_zero() {
    let s = StepStats::default();
    assert_eq!(s, StepStats { births: 0, deaths: 0 });
}

#[test]
fn clone_keeps_cells_and_is_independent() {
    let mut g = Grid::new(3, 4);
    g.set(1, 2, true);
    g.set(2, 0, true);
    let mut c = g.clone();
    assert_eq!(c.width(), 3);
    assert_eq!(c.height(), 4);
    for y in 0..4 {
        for x in 0..3 {
            assert_eq!(c.get(x, y), g.get(x, y));
        }
    }
    c.toggle(1, 2);
    assert!(g.get(1, 2));
    assert!(!c.get(1, 2));
}

#[test]
fn get_reads_row_major_position() {
    let mut g = Grid::new(4, 3);
    g.set(1, 1, true);
    // position 1 * 4 + 1 = 5 is also reached as (5, 0)
    assert!(g.get(5, 0));
    assert!(!g.get(4, 0));
}

#[test]
fn changes_match_the_step() {
    let mut g = Grid::new(5, 5);
    g.set(2, 1, true);
    g.set(2, 2, true);
    g.set(2, 3, true);
    assert_eq!(g.changes(), (2, 2));
    let s = g.step();
    assert_eq!((s.births, s.deaths), (2, 2));
    let mut lone = Grid::new(3, 3);
    lone.set(1, 1, true);
    assert_eq!(lone.changes(), (0, 1));
}

#[test]
fn shifted_glider_has_the_same_changes() {
    let cells = [(2, 1), (3, 2), (1, 3), (2, 3), (3, 3)];
    let mut a = Grid::new(8, 6);
    let mut b = Grid::new(8, 6);
    for &(x, y) in &cells {
        a.set(x, y, true);
        // moved by (6, 4) around the torus
        b.set((x + 6) % 8, (y + 4) % 6, true);
    }
    for _ in 0..6 {
        assert_eq!(a.changes(), b.changes());
        let sa = a.step();
        let sb = b.step();
        assert_eq!(sa, sb);
        for y in 0..6 {
            for x in 0..8 {
                assert_eq!(a.get(x, y), b.get((x + 6) % 8, (y + 4) % 6));
            }
        }
    }
}

#[test]
fn resizing_never_adds_live_cells() {
    let mut g = Grid::new(6, 6);
    for &(x, y) in &[(0, 0), (5, 5), (2, 3), (4, 1)] {
        g.set(x, y, true);
    }
    let mut smaller = g.clone();
    smaller.resize(3, 4);
    assert_eq!(smaller.living(), 2);
    let mut larger = g.clone();
    larger.resize(9, 7);
    assert_eq!(larger.living(), 4);
    let mut mixed = g.clone();
    mixed.resize(10, 2);
    assert_eq!(mixed.living(), 2);
}
