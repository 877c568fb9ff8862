//! The state of the program: the grid, the phase, the cursor, the run
//! controls, and what keys and the mouse do to them.
use vstd::prelude::*;
use crate::grid::{Grid, GridModel, StepStats};
use crate::patterns::{centered, centered_pattern, pattern_cells, pattern_size, Pattern};

verus! {

/// Whether the user is designing the seed or watching it evolve.
#[derive(Clone, Copy, Debug, PartialEq, Eq, Structural)]
pub enum Phase {
    Edit,
    Run,
}

/// The slowest speed, in generations per second.
pub const MIN_SPEED: u32 = 1;

/// The fastest speed, in generations per second.
pub const MAX_SPEED: u32 = 60;

/// The speed a new application starts with, in generations per second.
pub const DEFAULT_SPEED: u32 = 10;

/// The application: a grid, the current phase, the cursor used in the
/// edit phase, whether the help is shown, the run controls (pause, speed,
/// generation count, what the last generation changed) and the state a
/// mouse drag paints with.
pub struct App {
    grid: Grid,
    phase: Phase,
    cursor_x: usize,
    cursor_y: usize,
    show_help: bool,
    paused: bool,
    generation: u64,
    speed: u32,
    paint_state: Option<bool>,
    last_stats: StepStats,
    quit: bool,
}

/// The abstract value of an [`App`].
pub struct AppModel {
    pub grid: GridModel,
    pub phase: Phase,
    pub cursor_x: nat,
    pub cursor_y: nat,
    pub show_help: bool,
    pub paused: bool,
    pub generation: nat,
    pub speed: nat,
    pub paint_state: Option<bool>,
    pub last_stats: StepStats,
    pub quitting: bool,
}

impl View for App {
    type V = AppModel;

    closed spec fn view(&self) -> AppModel {
        AppModel {
            grid: self.grid@,
            phase: self.phase,
            cursor_x: self.cursor_x as nat,
            cursor_y: self.cursor_y as nat,
            show_help: self.show_help,
            paused: self.paused,
            generation: self.generation as nat,
            speed: self.speed as nat,
            paint_state: self.paint_state,
            last_stats: self.last_stats,
            quitting: self.quit,
        }
    }
}

/// `c + d` wrapped around a ring of `n` positions.
pub open spec fn wrap_move(c: int, d: int, n: int) -> int {
    (c + d) % n
}

/// A key the application reacts to.
#[derive(Clone, Copy, Debug, PartialEq, Eq, Structural)]
pub enum Key {
    Char(char),
    Left,
    Right,
    Up,
    Down,
    Enter,
    Esc,
    Other,
}

/// What a key press asks for.
#[derive(Clone, Copy, Debug, PartialEq, Eq, Structural)]
pub enum Action {
    Nothing,
    Quit,
    CloseHelp,
    ToggleHelp,
    MoveCursor(i32, i32),
    ToggleCell,
    ClearGrid,
    RandomFill,
    Stamp(Pattern),
    SavePattern,
    LoadPattern,
    StartRun,
    BackToEdit,
    TogglePause,
    StepOnce,
    Faster,
    Slower,
}

/// The key bindings. While the help is shown, `q` and Esc quit and any other
/// key closes it; otherwise `?` opens it. `q` and Esc quit in both phases.
/// In the edit phase arrows or `hjkl` move the cursor, space toggles the
/// cell under it, `c` clears the grid, `r` fills it at random, `1` to `5`
/// stamp a glider, a blinker, a pulsar, a Gosper glider gun and a
/// lightweight spaceship, `w` saves and `L` loads a pattern, Enter starts
/// the run. In the run phase space pauses or resumes, `s` steps once while
/// paused, `+` or `=` and `-` or `_` change the speed, `e` goes back to
/// editing.
pub open spec fn binding(show_help: bool, phase: Phase, paused: bool, key: Key) -> Action {
    if show_help {
        if key == Key::Char('q') || key == Key::Esc {
            Action::Quit
        } else {
            Action::CloseHelp
        }
    } else if key == Key::Char('?') {
        Action::ToggleHelp
    } else {
        match (phase, key) {
            (_, Key::Esc) | (_, Key::Char('q')) => Action::Quit,
            (Phase::Edit, Key::Left) | (Phase::Edit, Key::Char('h')) => Action::MoveCursor(-1i32, 0i32),
            (Phase::Edit, Key::Right) | (Phase::Edit, Key::Char('l')) => Action::MoveCursor(1i32, 0i32),
            (Phase::Edit, Key::Up) | (Phase::Edit, Key::Char('k')) => Action::MoveCursor(0i32, -1i32),
            (Phase::Edit, Key::Down) | (Phase::Edit, Key::Char('j')) => Action::MoveCursor(0i32, 1i32),
            (Phase::Edit, Key::Char(' ')) => Action::ToggleCell,
            (Phase::Edit, Key::Char('c')) => Action::ClearGrid,
            (Phase::Edit, Key::Char('r')) => Action::RandomFill,
            (Phase::Edit, Key::Char('1')) => Action::Stamp(Pattern::Glider),
            (Phase::Edit, Key::Char('2')) => Action::Stamp(Pattern::Blinker),
            (Phase::Edit, Key::Char('3')) => Action::Stamp(Pattern::Pulsar),
            (Phase::Edit, Key::Char('4')) => Action::Stamp(Pattern::GosperGliderGun),
            (Phase::Edit, Key::Char('5')) => Action::Stamp(Pattern::Lwss),
            (Phase::Edit, Key::Char('w')) => Action::SavePattern,
            (Phase::Edit, Key::Char('L')) => Action::LoadPattern,
            (Phase::Edit, Key::Enter) => Action::StartRun,
            (Phase::Run, Key::Char('e')) => Action::BackToEdit,
            (Phase::Run, Key::Char(' ')) => Action::TogglePause,
            (Phase::Run, Key::Char('s')) => if paused {
                Action::StepOnce
            } else {
                Action::Nothing
            },
            (Phase::Run, Key::Char('+')) | (Phase::Run, Key::Char('=')) => Action::Faster,
            (Phase::Run, Key::Char('-')) | (Phase::Run, Key::Char('_')) => Action::Slower,
            _ => Action::Nothing,
        }
    }
}

/// What pressing `key` asks for, given whether the help is shown, the phase,
/// and whether the run is paused.
pub fn key_action(show_help: bool, phase: Phase, paused: bool, key: Key) -> (a: Action)
    ensures
        a == binding(show_help, phase, paused, key),
{
    if show_help {
        return match key {
            Key::Char('q') | Key::Esc => Action::Quit,
            _ => Action::CloseHelp,
        };
    }
    if let Key::Char('?') = key {
        return Action::ToggleHelp;
    }
    match (phase, key) {
        (_, Key::Esc) | (_, Key::Char('q')) => Action::Quit,
        (Phase::Edit, Key::Left) | (Phase::Edit, Key::Char('h')) => Action::MoveCursor(-1, 0),
        (Phase::Edit, Key::Right) | (Phase::Edit, Key::Char('l')) => Action::MoveCursor(1, 0),
        (Phase::Edit, Key::Up) | (Phase::Edit, Key::Char('k')) => Action::MoveCursor(0, -1),
        (Phase::Edit, Key::Down) | (Phase::Edit, Key::Char('j')) => Action::MoveCursor(0, 1),
        (Phase::Edit, Key::Char(' ')) => Action::ToggleCell,
        (Phase::Edit, Key::Char('c')) => Action::ClearGrid,
        (Phase::Edit, Key::Char('r')) => Action::RandomFill,
        (Phase::Edit, Key::Char('1')) => Action::Stamp(Pattern::Glider),
        (Phase::Edit, Key::Char('2')) => Action::Stamp(Pattern::Blinker),
        (Phase::Edit, Key::Char('3')) => Action::Stamp(Pattern::Pulsar),
        (Phase::Edit, Key::Char('4')) => Action::Stamp(Pattern::GosperGliderGun),
        (Phase::Edit, Key::Char('5')) => Action::Stamp(Pattern::Lwss),
        (Phase::Edit, Key::Char('w')) => Action::SavePattern,
        (Phase::Edit, Key::Char('L')) => Action::LoadPattern,
        (Phase::Edit, Key::Enter) => Action::StartRun,
        (Phase::Run, Key::Char('e')) => Action::BackToEdit,
        (Phase::Run, Key::Char(' ')) => Action::TogglePause,
        (Phase::Run, Key::Char('s')) => if paused {
            Action::StepOnce
        } else {
            Action::Nothing
        },
        (Phase::Run, Key::Char('+')) | (Phase::Run, Key::Char('=')) => Action::Faster,
        (Phase::Run, Key::Char('-')) | (Phase::Run, Key::Char('_')) => Action::Slower,
        _ => Action::Nothing,
    }
}

/// Whether terminal cell `(col, row)` lies in the area at `(x, y)` of
/// `width` x `height` cells.
pub open spec fn inside(x: u16, y: u16, width: u16, height: u16, col: u16, row: u16) -> bool {
    x <= col < x + width && y <= row < y + height
}

/// Whether the `u16` sums that [`in_area`] computes, from left to right
/// and only as far as the earlier tests pass, fit: `x + width` once
/// `col >= x`, and `y + height` once also `col < x + width` and `row >= y`.
pub open spec fn area_sums_fit(x: u16, y: u16, width: u16, height: u16, col: u16, row: u16) -> bool {
    &&& col >= x ==> x + width <= u16::MAX
    &&& (col >= x && col < x + width && row >= y) ==> y + height <= u16::MAX
}

/// Whether terminal cell `(col, row)` lies in the area at `(x, y)` of
/// `width` x `height` cells.
pub fn in_area(x: u16, y: u16, width: u16, height: u16, col: u16, row: u16) -> (r: bool)
    requires
        area_sums_fit(x, y, width, height, col, row),
    ensures
        r == inside(x, y, width, height, col, row),
{
    col >= x && col < x + width && row >= y && row < y + height
}

/// The grid cell under terminal cell `(col, row)` of the area at `(x, y)`:
/// its column, and the upper of the two grid rows the terminal row shows.
pub fn mouse_to_grid(x: u16, y: u16, col: u16, row: u16) -> (cell: (usize, usize))
    requires
        x <= col,
        y <= row,
    ensures
        cell.0 == col - x,
        cell.1 == 2 * (row - y),
{
    ((col - x) as usize, ((row - y) as usize) * 2)
}

/// What the left mouse button does.
#[derive(Clone, Copy, Debug, PartialEq, Eq, Structural)]
pub enum MouseKind {
    Down,
    Drag,
    Up,
    Other,
}

/// The grid after stamping live cells at the given offsets from `(cx, cy)`,
/// wrapping around the edges.
pub open spec fn stamped(m: GridModel, cells: Seq<(i32, i32)>, cx: int, cy: int) -> GridModel
    decreases cells.len(),
{
    if cells.len() == 0 {
        m
    } else {
        stamped(m, cells.drop_last(), cx, cy).set(
            wrap_move(cx, cells.last().0 as int, m.width as int),
            wrap_move(cy, cells.last().1 as int, m.height as int),
            true,
        )
    }
}

/// The grid after painting the two grid cells that terminal row shows:
/// `(x, y)` and, when it exists, `(x, y + 1)`.
pub open spec fn painted(m: GridModel, x: int, y: int, alive: bool) -> GridModel {
    let upper = m.set(x, y, alive);
    if y + 1 < m.height {
        upper.set(x, y + 1, alive)
    } else {
        upper
    }
}

/// What the mouse does to the application: only in the edit phase and
/// inside the grid's area at `(x, y)` of `width` x `height` terminal cells.
/// A press flips the cell under the pointer, paints the cell below it with
/// the same state, moves the cursor there and remembers the state; a drag
/// paints with the remembered state, if there is one; a release forgets it.
pub open spec fn after_mouse(
    m: AppModel,
    x: u16,
    y: u16,
    width: u16,
    height: u16,
    kind: MouseKind,
    col: u16,
    row: u16,
) -> AppModel {
    let in_grid = inside(x, y, width, height, col, row);
    let gx = col - x;
    let gy = 2 * (row - y);
    if m.phase != Phase::Edit {
        m
    } else {
        match kind {
            MouseKind::Down => if in_grid {
                let state = !m.grid.alive(gx, gy);
                AppModel {
                    grid: painted(m.grid, gx, gy, state),
                    cursor_x: gx as nat,
                    cursor_y: gy as nat,
                    paint_state: Some(state),
                    ..m
                }
            } else {
                m
            },
            MouseKind::Drag => if in_grid && m.paint_state is Some {
                AppModel {
                    grid: painted(m.grid, gx, gy, m.paint_state->0),
                    cursor_x: gx as nat,
                    cursor_y: gy as nat,
                    ..m
                }
            } else {
                m
            },
            MouseKind::Up => AppModel { paint_state: None, ..m },
            MouseKind::Other => m,
        }
    }
}

/// The cursor moved by `(dx, dy)` as `i32` arithmetic does it: the grid's
/// sizes and the cursor are taken as `i32` (truncated), and the new position
/// is the Euclidean remainder of the sum by the size taken so; nothing moves
/// when either size is 0 as an `i32`.
pub open spec fn moved(m: AppModel, dx: i32, dy: i32) -> AppModel {
    let w = m.grid.width as i32;
    let h = m.grid.height as i32;
    if w == 0 || h == 0 {
        m
    } else {
        AppModel {
            cursor_x: wrap_move(m.cursor_x as i32 as int, dx as int, w as int) as nat,
            cursor_y: wrap_move(m.cursor_y as i32 as int, dy as int, h as int) as nat,
            ..m
        }
    }
}

/// Whether `i32` arithmetic can move the cursor by `(dx, dy)`: the sums
/// stay in range, and no remainder of `i32::MIN` by -1 is asked for.
pub open spec fn move_ok(m: AppModel, dx: i32, dy: i32) -> bool {
    let w = m.grid.width as i32;
    let h = m.grid.height as i32;
    let vx = m.cursor_x as i32 + dx;
    let vy = m.cursor_y as i32 + dy;
    ||| w == 0
    ||| h == 0
    ||| {
        &&& i32::MIN <= vx <= i32::MAX
        &&& i32::MIN <= vy <= i32::MAX
        &&& !(vx == i32::MIN && w == -1)
        &&& !(vy == i32::MIN && h == -1)
    }
}

/// What a well-formed application keeps: a well-formed grid with a cell
/// at least, and a speed between [`MIN_SPEED`] and [`MAX_SPEED`].
pub open spec fn app_wf(m: AppModel) -> bool {
    &&& m.grid.wf()
    &&& m.grid.width >= 1
    &&& m.grid.height >= 1
    &&& MIN_SPEED <= m.speed <= MAX_SPEED
}

/// The grid with pattern `p` stamped centred on the cursor.
pub open spec fn pattern_stamped(m: AppModel, p: Pattern) -> GridModel {
    stamped(
        m.grid,
        centered(pattern_cells(p), pattern_size(p)),
        m.cursor_x as int,
        m.cursor_y as int,
    )
}

/// What an action of the key bindings does to the application. Random
/// fills, saving and loading need the outside world and are left to the
/// caller: they change nothing here.
pub open spec fn applied(m: AppModel, a: Action) -> AppModel {
    match a {
        Action::Nothing | Action::RandomFill | Action::SavePattern | Action::LoadPattern => m,
        Action::Quit => AppModel { quitting: true, ..m },
        Action::CloseHelp => AppModel { show_help: false, ..m },
        Action::ToggleHelp => AppModel { show_help: !m.show_help, ..m },
        Action::MoveCursor(dx, dy) => moved(m, dx, dy),
        Action::ToggleCell => AppModel {
            grid: m.grid.toggle(m.cursor_x as int, m.cursor_y as int),
            ..m
        },
        Action::ClearGrid => AppModel { grid: m.grid.cleared(), ..m },
        Action::Stamp(p) => AppModel { grid: pattern_stamped(m, p), ..m },
        Action::StartRun => AppModel { phase: Phase::Run, ..m },
        Action::BackToEdit => AppModel { phase: Phase::Edit, ..m },
        Action::TogglePause => AppModel { paused: !m.paused, ..m },
        Action::StepOnce => after_step(m),
        Action::Faster => AppModel { speed: faster_speed(m.speed), ..m },
        Action::Slower => AppModel { speed: slower_speed(m.speed), ..m },
    }
}

/// Whether an action can be applied without leaving the range of the
/// machine integers it computes with.
pub open spec fn action_ok(m: AppModel, a: Action) -> bool {
    match a {
        Action::MoveCursor(dx, dy) => move_ok(m, dx, dy),
        Action::StepOnce => step_fits(m),
        _ => true,
    }
}

/// The smaller of two sizes.
pub open spec fn min_nat(a: nat, b: nat) -> nat {
    if a <= b {
        a
    } else {
        b
    }
}

/// One generation per second more, up to [`MAX_SPEED`].
pub open spec fn faster_speed(speed: nat) -> nat {
    if speed < MAX_SPEED {
        speed + 1
    } else {
        speed
    }
}

/// One generation per second less, down to [`MIN_SPEED`].
pub open spec fn slower_speed(speed: nat) -> nat {
    if speed > MIN_SPEED {
        (speed - 1) as nat
    } else {
        speed
    }
}

/// The time between two generations at `speed` generations per second, in
/// milliseconds.
pub open spec fn tick_interval(speed: nat) -> nat {
    1000nat / speed
}

/// Whether a generation is due after `elapsed` milliseconds: only while
/// running and not paused.
pub open spec fn tick_due(m: AppModel, elapsed: nat) -> bool {
    m.phase == Phase::Run && !m.paused && elapsed >= tick_interval(m.speed)
}

/// Whether one more generation can be computed and counted: its births and
/// deaths fit in a `u32` (as they do on any grid of at most `u32::MAX`
/// cells) and the generation count in a `u64`.
pub open spec fn step_fits(m: AppModel) -> bool {
    m.grid.births() <= u32::MAX && m.grid.deaths() <= u32::MAX && m.generation < u64::MAX
}

/// The application one generation later: the grid stepped, the generation
/// counted, and the births and deaths of that step recorded.
pub open spec fn after_step(m: AppModel) -> AppModel {
    AppModel {
        grid: m.grid.stepped(),
        generation: m.generation + 1,
        last_stats: StepStats { births: m.grid.births() as u32, deaths: m.grid.deaths() as u32 },
        ..m
    }
}

/// The application after making the grid at least 1 x 2 cells and
/// `width` x `height` otherwise, keeping the cells that fit, with the
/// cursor moved inside it.
pub open spec fn sized(m: AppModel, width: nat, height: nat) -> AppModel {
    let w = if width < 1 { 1 } else { width };
    let h = if height < 2 { 2 } else { height };
    AppModel {
        grid: m.grid.resized(w, h),
        cursor_x: min_nat(m.cursor_x, (w - 1) as nat),
        cursor_y: min_nat(m.cursor_y, (h - 1) as nat),
        ..m
    }
}

/// The application with the cursor in the middle of the grid.
pub open spec fn cursor_centred(m: AppModel) -> AppModel {
    AppModel { cursor_x: m.grid.width / 2, cursor_y: m.grid.height / 2, ..m }
}

/// The application with its cells replaced by `cells`, row by row.
pub open spec fn filled(m: AppModel, cells: Seq<bool>) -> AppModel {
    AppModel { grid: GridModel { cells, ..m.grid }, ..m }
}

/// The application with live cells stamped at the given offsets from the
/// cursor, wrapping around the edges.
pub open spec fn cells_stamped(m: AppModel, cells: Seq<(i32, i32)>) -> AppModel {
    AppModel { grid: stamped(m.grid, cells, m.cursor_x as int, m.cursor_y as int), ..m }
}

/// The application `elapsed` milliseconds after the last generation: one
/// generation later when one is due, unchanged otherwise.
pub open spec fn after_wait(m: AppModel, elapsed: nat) -> AppModel {
    if tick_due(m, elapsed) {
        after_step(m)
    } else {
        m
    }
}

/// `v mod n` for a positive `n`.
fn rem_positive(v: i64, n: i64) -> (r: i64)
    requires
        n > 0,
        -0x1_0000_0000 <= v <= 0x1_0000_0000,
        n <= 0x8000_0000,
    ensures
        r == v % n,
        0 <= r < n,
{
    if v >= 0 {
        let r = ((v as u64) % (n as u64)) as i64;
        r
    } else {
        let a: u64 = (0 - v) as u64;
        let m: u64 = a % (n as u64);
        proof {
            let q = (a as int) / (n as int);
            vstd::arithmetic::div_mod::lemma_fundamental_div_mod(a as int, n as int);
            vstd::arithmetic::div_mod::lemma_mod_bound(a as int, n as int);
            if m == 0 {
                assert(v == (-q) * n + 0) by (nonlinear_arith)
                    requires
                        a == n * q + 0,
                        v == -a,
                ;
                vstd::arithmetic::div_mod::lemma_fundamental_div_mod_converse(v as int, n as int, -q, 0);
            } else {
                assert(v == (-q - 1) * n + (n - m)) by (nonlinear_arith)
                    requires
                        a == n * q + m,
                        v == -a,
                ;
                vstd::arithmetic::div_mod::lemma_fundamental_div_mod_converse(
                    v as int,
                    n as int,
                    -q - 1,
                    n - m,
                );
            }
        }
        if m == 0 {
            0
        } else {
            n - (m as i64)
        }
    }
}

/// The Euclidean remainder depends only on the size of the divisor.
proof fn lemma_mod_negated_divisor(v: int, n: int)
    requires
        n < 0,
    ensures
        v % n == v % (-n),
{
    let r = v % (-n);
    let q = v / (-n);
    vstd::arithmetic::div_mod::lemma_fundamental_div_mod(v, -n);
    vstd::arithmetic::div_mod::lemma_mod_bound(v, -n);
    let r2 = v % n;
    let q2 = v / n;
    vstd::arithmetic::div_mod::lemma_fundamental_div_mod(v, n);
    assert(0 <= r2 < -n) by (nonlinear_arith)
        requires
            n < 0,
            r2 == v % n,
    ;
    assert(r2 == r) by (nonlinear_arith)
        requires
            v == (-n) * q + r,
            0 <= r < -n,
            v == n * q2 + r2,
            0 <= r2 < -n,
    ;
}

/// `v mod n` for a nonzero `n`, as `i32::rem_euclid` computes it: the
/// remainder lies between 0 and the size of `n`.
fn rem_euclid(v: i64, n: i64) -> (r: i64)
    requires
        n != 0,
        -0x8000_0000 <= n <= i32::MAX,
        -0x1_0000_0000 <= v <= 0x1_0000_0000,
    ensures
        r == v % n,
        0 <= r,
        r < n || r < -n,
{
    if n > 0 {
        rem_positive(v, n)
    } else {
        proof {
            lemma_mod_negated_divisor(v as int, n as int);
        }
        rem_positive(v, 0 - n)
    }
}

/// `c + d` wrapped around a ring of `n` positions, computed without leaving
/// the range of `usize`.
fn wrap_coord(c: usize, d: i32, n: usize) -> (r: usize)
    requires
        n > 0,
    ensures
        r == wrap_move(c as int, d as int, n as int),
        r < n,
{
    let base = c % n;
    proof {
        vstd::arithmetic::div_mod::lemma_mod_bound(c as int, n as int);
    }
    if d >= 0 {
        let dm = (d as usize) % n;
        proof {
            vstd::arithmetic::div_mod::lemma_add_mod_noop(c as int, d as int, n as int);
            vstd::arithmetic::div_mod::lemma_mod_bound(d as int, n as int);
        }
        if dm >= n - base {
            let r = dm - (n - base);
            proof {
                vstd::arithmetic::div_mod::lemma_fundamental_div_mod_converse(
                    base + dm,
                    n as int,
                    1,
                    r as int,
                );
            }
            r
        } else {
            proof {
                vstd::arithmetic::div_mod::lemma_fundamental_div_mod_converse(
                    base + dm,
                    n as int,
                    0,
                    base + dm,
                );
            }
            base + dm
        }
    } else {
        let du = (0 - (d as i64)) as usize;
        let dm = du % n;
        proof {
            vstd::arithmetic::div_mod::lemma_sub_mod_noop(c as int, du as int, n as int);
            vstd::arithmetic::div_mod::lemma_mod_bound(du as int, n as int);
            assert(c + d == c - du);
        }
        if dm <= base {
            proof {
                vstd::arithmetic::div_mod::lemma_fundamental_div_mod_converse(
                    base - dm,
                    n as int,
                    0,
                    base - dm,
                );
            }
            base - dm
        } else {
            let r = n - (dm - base);
            proof {
                vstd::arithmetic::div_mod::lemma_fundamental_div_mod_converse(
                    base - dm,
                    n as int,
                    -1,
                    r as int,
                );
            }
            r
        }
    }
}

impl App {
    /// The invariant of the application: its grid is well formed and has a
    /// cell at least, and its speed lies between [`MIN_SPEED`] and
    /// [`MAX_SPEED`].
    pub closed spec fn wf(&self) -> bool {
        &&& self.grid.wf()
        &&& app_wf(self@)
    }

    /// A 1 x 2 grid of dead cells, in the edit phase, cursor at the origin,
    /// help hidden, not paused, generation 0, at [`DEFAULT_SPEED`].
    pub fn new() -> (app: App)
        ensures
            app.wf(),
            app@ == (AppModel {
                grid: GridModel { width: 1, height: 2, cells: Seq::new(2, |i: int| false) },
                phase: Phase::Edit,
                cursor_x: 0,
                cursor_y: 0,
                show_help: false,
                paused: false,
                generation: 0,
                speed: DEFAULT_SPEED as nat,
                paint_state: None,
                last_stats: StepStats { births: 0, deaths: 0 },
                quitting: false,
            }),
    {
        App {
            grid: Grid::new(1, 2),
            phase: Phase::Edit,
            cursor_x: 0,
            cursor_y: 0,
            show_help: false,
            paused: false,
            generation: 0,
            speed: DEFAULT_SPEED,
            paint_state: None,
            last_stats: StepStats { births: 0, deaths: 0 },
            quit: false,
        }
    }

    /// What a well-formed application lets its callers rely on.
    pub proof fn lemma_wf(&self)
        requires
            self.wf(),
        ensures
            app_wf(self@),
    {
    }

    /// The grid.
    pub fn grid(&self) -> (g: &Grid)
        ensures
            g@ == self@.grid,
            self.wf() ==> g.wf(),
    {
        &self.grid
    }

    /// The current phase.
    pub fn phase(&self) -> (p: Phase)
        ensures
            p == self@.phase,
    {
        self.phase
    }

    /// The cursor's column and row.
    pub fn cursor(&self) -> (c: (usize, usize))
        ensures
            c.0 == self@.cursor_x,
            c.1 == self@.cursor_y,
    {
        (self.cursor_x, self.cursor_y)
    }

    /// Whether the help is shown.
    pub fn show_help(&self) -> (shown: bool)
        ensures
            shown == self@.show_help,
    {
        self.show_help
    }

    /// Whether the run is paused.
    pub fn paused(&self) -> (p: bool)
        ensures
            p == self@.paused,
    {
        self.paused
    }

    /// How many generations have been computed.
    pub fn generation(&self) -> (g: u64)
        ensures
            g == self@.generation,
    {
        self.generation
    }

    /// The speed, in generations per second.
    pub fn speed(&self) -> (s: u32)
        ensures
            s == self@.speed,
    {
        self.speed
    }

    /// The state a mouse drag paints with, if a press started one.
    pub fn paint_state(&self) -> (p: Option<bool>)
        ensures
            p == self@.paint_state,
    {
        self.paint_state
    }

    /// The births and deaths of the last generation computed.
    pub fn last_stats(&self) -> (st: StepStats)
        ensures
            st == self@.last_stats,
    {
        self.last_stats
    }

    /// Reacts to a key press: finds its action with [`binding`] and applies
    /// it as [`applied`] says; the action is returned, so that the caller
    /// can do what needs the outside world (random fill, save, load).
    pub fn handle_key(&mut self, key: Key) -> (a: Action)
        requires
            old(self).wf(),
            action_ok(old(self)@, binding(old(self)@.show_help, old(self)@.phase, old(self)@.paused, key)),
        ensures
            final(self).wf(),
            a == binding(old(self)@.show_help, old(self)@.phase, old(self)@.paused, key),
            final(self)@ == applied(old(self)@, a),
    {
        let a = key_action(self.show_help, self.phase, self.paused, key);
        match a {
            Action::Nothing | Action::RandomFill | Action::SavePattern | Action::LoadPattern => {},
            Action::Quit => self.quit(),
            Action::CloseHelp => self.close_help(),
            Action::ToggleHelp => self.toggle_help(),
            Action::MoveCursor(dx, dy) => self.move_cursor(dx, dy),
            Action::ToggleCell => self.toggle_at_cursor(),
            Action::ClearGrid => self.clear_grid(),
            Action::Stamp(p) => self.stamp_pattern(p),
            Action::StartRun => self.start_run(),
            Action::BackToEdit => self.back_to_edit(),
            Action::TogglePause => self.toggle_pause(),
            Action::StepOnce => self.step_once(),
            Action::Faster => self.faster(),
            Action::Slower => self.slower(),
        }
        a
    }

    pub fn should_quit(&self) -> (q: bool)
        ensures
            q == self@.quitting,
    {
        self.quit
    }

    /// Asks the application to quit; nothing else changes.
    pub fn quit(&mut self)
        requires
            old(self).wf(),
        ensures
            final(self).wf(),
            final(self)@ == (AppModel { quitting: true, ..old(self)@ }),
    {
        self.quit = true;
    }

    /// Resizes the grid to at least 1 x 2 cells, keeping the cells that fit,
    /// and moves the cursor inside it.
    pub fn ensure_grid_size(&mut self, width: usize, height: usize)
        requires
            old(self).wf(),
            (if width < 1 { 1 } else { width }) * (if height < 2 { 2 } else { height }) <= usize::MAX,
        ensures
            final(self).wf(),
            final(self)@ == sized(old(self)@, width as nat, height as nat),
    {
        let w = if width < 1 { 1 } else { width };
        let h = if height < 2 { 2 } else { height };
        self.grid.resize(w, h);
        if self.cursor_x > w - 1 {
            self.cursor_x = w - 1;
        }
        if self.cursor_y > h - 1 {
            self.cursor_y = h - 1;
        }
    }

    /// Moves the cursor by `(dx, dy)`, wrapping around the edges of the grid;
    /// does nothing on a grid without cells.
    pub fn move_cursor(&mut self, dx: i32, dy: i32)
        requires
            old(self).wf(),
            move_ok(old(self)@, dx, dy),
        ensures
            final(self).wf(),
            final(self)@ == moved(old(self)@, dx, dy),
    {
        let w = self.grid.width() as i32;
        let h = self.grid.height() as i32;
        if w == 0 || h == 0 {
            return;
        }
        let vx = self.cursor_x as i32 as i64 + dx as i64;
        let vy = self.cursor_y as i32 as i64 + dy as i64;
        let nx = rem_euclid(vx, w as i64);
        let ny = rem_euclid(vy, h as i64);
        self.cursor_x = nx as usize;
        self.cursor_y = ny as usize;
    }

    /// Flips the cell under the cursor.
    pub fn toggle_at_cursor(&mut self)
        requires
            old(self).wf(),
        ensures
            final(self).wf(),
            final(self)@ == (AppModel {
                grid: old(self)@.grid.toggle(old(self)@.cursor_x as int, old(self)@.cursor_y as int),
                ..old(self)@
            }),
    {
        self.grid.toggle(self.cursor_x, self.cursor_y);
    }

    /// Enters the run phase; everything else is kept.
    pub fn start_run(&mut self)
        requires
            old(self).wf(),
        ensures
            final(self).wf(),
            final(self)@ == (AppModel { phase: Phase::Run, ..old(self)@ }),
    {
        self.phase = Phase::Run;
    }

    /// Returns to the edit phase; everything else is kept.
    pub fn back_to_edit(&mut self)
        requires
            old(self).wf(),
        ensures
            final(self).wf(),
            final(self)@ == (AppModel { phase: Phase::Edit, ..old(self)@ }),
    {
        self.phase = Phase::Edit;
    }

    /// Puts the cursor in the middle of the grid.
    pub fn center_cursor(&mut self)
        requires
            old(self).wf(),
        ensures
            final(self).wf(),
            final(self)@ == cursor_centred(old(self)@),
    {
        self.cursor_x = self.grid.width() / 2;
        self.cursor_y = self.grid.height() / 2;
    }

    /// Shows the help if it is hidden, hides it if it is shown.
    pub fn toggle_help(&mut self)
        requires
            old(self).wf(),
        ensures
            final(self).wf(),
            final(self)@ == (AppModel { show_help: !old(self)@.show_help, ..old(self)@ }),
    {
        self.show_help = !self.show_help;
    }

    /// Hides the help.
    pub fn close_help(&mut self)
        requires
            old(self).wf(),
        ensures
            final(self).wf(),
            final(self)@ == (AppModel { show_help: false, ..old(self)@ }),
    {
        self.show_help = false;
    }

    /// Pauses a running simulation, or resumes a paused one.
    pub fn toggle_pause(&mut self)
        requires
            old(self).wf(),
        ensures
            final(self).wf(),
            final(self)@ == (AppModel { paused: !old(self)@.paused, ..old(self)@ }),
    {
        self.paused = !self.paused;
    }

    /// One generation per second more, up to [`MAX_SPEED`].
    pub fn faster(&mut self)
        requires
            old(self).wf(),
        ensures
            final(self).wf(),
            final(self)@ == (AppModel { speed: faster_speed(old(self)@.speed), ..old(self)@ }),
    {
        if self.speed < MAX_SPEED {
            self.speed = self.speed + 1;
        }
    }

    /// One generation per second less, down to [`MIN_SPEED`].
    pub fn slower(&mut self)
        requires
            old(self).wf(),
        ensures
            final(self).wf(),
            final(self)@ == (AppModel { speed: slower_speed(old(self)@.speed), ..old(self)@ }),
    {
        if self.speed > MIN_SPEED {
            self.speed = self.speed - 1;
        }
    }

    /// Kills every cell.
    pub fn clear_grid(&mut self)
        requires
            old(self).wf(),
        ensures
            final(self).wf(),
            final(self)@ == (AppModel { grid: old(self)@.grid.cleared(), ..old(self)@ }),
    {
        self.grid.clear();
    }

    /// Fills the grid with the given cell states, drawn at random by the
    /// caller: position `i` of the row-major cell vector takes `alive[i]`.
    pub fn random_fill(&mut self, alive: &Vec<bool>)
        requires
            old(self).wf(),
            alive@.len() == old(self)@.grid.cells.len(),
        ensures
            final(self).wf(),
            final(self)@ == filled(old(self)@, alive@),
    {
        self.grid.fill(alive);
    }

    /// Brings cells to life at the given offsets from the cursor, wrapping
    /// around the edges.
    pub fn stamp_at_cursor(&mut self, cells: &Vec<(i32, i32)>)
        requires
            old(self).wf(),
        ensures
            final(self).wf(),
            final(self)@ == cells_stamped(old(self)@, cells@),
    {
        let ghost start = self@;
        let ghost m = self@.grid;
        let w = self.grid.width();
        let h = self.grid.height();
        let cx = self.cursor_x;
        let cy = self.cursor_y;
        let n = cells.len();
        let mut i: usize = 0;
        assert(cells@.take(0) =~= Seq::<(i32, i32)>::empty());
        while i < n
            invariant
                self.wf(),
                n == cells@.len(),
                i <= n,
                w == m.width,
                h == m.height,
                w >= 1,
                h >= 1,
                cx == start.cursor_x,
                cy == start.cursor_y,
                self@ == (AppModel { grid: stamped(m, cells@.take(i as int), cx as int, cy as int), ..start }),
            decreases n - i,
        {
            let (dx, dy) = cells[i];
            let x = wrap_coord(cx, dx, w);
            let y = wrap_coord(cy, dy, h);
            proof {
                assert(cells@.take(i + 1).drop_last() =~= cells@.take(i as int));
                assert(cells@.take(i + 1).last() == (dx, dy));
            }
            self.grid.set(x, y, true);
            i = i + 1;
        }
        assert(cells@.take(n as int) =~= cells@);
    }

    /// Stamps a pattern of the library centred on the cursor, wrapping
    /// around the edges.
    pub fn stamp_pattern(&mut self, p: Pattern)
        requires
            old(self).wf(),
        ensures
            final(self).wf(),
            final(self)@ == (AppModel { grid: pattern_stamped(old(self)@, p), ..old(self)@ }),
    {
        let cells = centered_pattern(p);
        self.stamp_at_cursor(&cells);
    }

    /// Computes one generation, counts it, and records its births and deaths.
    pub fn step_once(&mut self)
        requires
            old(self).wf(),
            step_fits(old(self)@),
        ensures
            final(self).wf(),
            final(self)@ == after_step(old(self)@),
    {
        let stats = self.grid.step();
        self.generation = self.generation + 1;
        self.last_stats = stats;
    }

    /// The time between two generations at the current speed, in milliseconds.
    pub fn tick_interval_ms(&self) -> (ms: u64)
        requires
            self.wf(),
        ensures
            ms == tick_interval(self@.speed),
    {
        1000 / (self.speed as u64)
    }

    /// How long, `elapsed` milliseconds after the last generation, until the
    /// next one is due at the current speed; 0 when it is due.
    pub fn time_until_next_tick(&self, elapsed: u64) -> (ms: u64)
        requires
            self.wf(),
        ensures
            ms == if elapsed >= tick_interval(self@.speed) {
                0
            } else {
                tick_interval(self@.speed) - elapsed
            },
    {
        let interval = self.tick_interval_ms();
        if elapsed >= interval {
            0
        } else {
            interval - elapsed
        }
    }

    /// Computes the next generation when one is due, `elapsed` milliseconds
    /// after the last: only while running and not paused. Returns whether it
    /// did.
    pub fn maybe_tick(&mut self, elapsed: u64) -> (ticked: bool)
        requires
            old(self).wf(),
            tick_due(old(self)@, elapsed as nat) ==> step_fits(old(self)@),
        ensures
            final(self).wf(),
            ticked == tick_due(old(self)@, elapsed as nat),
            final(self)@ == after_wait(old(self)@, elapsed as nat),
    {
        if self.phase == Phase::Run && !self.paused && elapsed >= self.tick_interval_ms() {
            self.step_once();
            true
        } else {
            false
        }
    }

    /// Paints the cell under the mouse and the one below it (one terminal
    /// cell shows both) and puts the cursor there.
    fn paint(&mut self, x: usize, y: usize, alive: bool)
        requires
            old(self).wf(),
            y < usize::MAX,
        ensures
            final(self).wf(),
            final(self)@ == (AppModel {
                grid: painted(old(self)@.grid, x as int, y as int, alive),
                cursor_x: x as nat,
                cursor_y: y as nat,
                ..old(self)@
            }),
    {
        self.grid.set(x, y, alive);
        if y + 1 < self.grid.height() {
            self.grid.set(x, y + 1, alive);
        }
        self.cursor_x = x;
        self.cursor_y = y;
    }

    /// What the left mouse button does at terminal cell `(col, row)`, the
    /// grid being drawn in the area at `(x, y)` of `width` x `height`
    /// terminal cells: see [`after_mouse`].
    pub fn handle_mouse(
        &mut self,
        x: u16,
        y: u16,
        width: u16,
        height: u16,
        kind: MouseKind,
        col: u16,
        row: u16,
    )
        requires
            old(self).wf(),
            old(self)@.phase == Phase::Edit ==> area_sums_fit(x, y, width, height, col, row),
            old(self)@.phase == Phase::Edit && kind == MouseKind::Down && inside(x, y, width, height, col, row)
                ==> old(self)@.grid.index(col - x, 2 * (row - y)) < old(self)@.grid.cells.len(),
        ensures
            final(self).wf(),
            final(self)@ == after_mouse(old(self)@, x, y, width, height, kind, col, row),
    {
        if self.phase != Phase::Edit {
            return;
        }
        let in_grid = in_area(x, y, width, height, col, row);
        match kind {
            MouseKind::Down => {
                if !in_grid {
                    return;
                }
                let (gx, gy) = mouse_to_grid(x, y, col, row);
                let state = !self.grid.get(gx, gy);
                self.paint(gx, gy, state);
                self.paint_state = Some(state);
            },
            MouseKind::Drag => {
                if !in_grid {
                    return;
                }
                match self.paint_state {
                    Some(state) => {
                        let (gx, gy) = mouse_to_grid(x, y, col, row);
                        self.paint(gx, gy, state);
                    },
                    None => {},
                }
            },
            MouseKind::Up => {
                self.paint_state = None;
            },
            MouseKind::Other => {},
        }
    }
}

/// Moving the cursor keeps it on the grid.
pub proof fn law_move_stays_inside(c: int, d: int, n: int)
    requires
        n > 0,
    ensures
        0 <= wrap_move(c, d, n) < n,
{
    vstd::arithmetic::div_mod::lemma_mod_bound(c + d, n);
}

/// Moving the cursor back by the same amount returns it to where it was.
pub proof fn law_move_back(c: int, d: int, n: int)
    requires
        0 <= c < n,
    ensures
        wrap_move(wrap_move(c, d, n), -d, n) == c,
{
    vstd::arithmetic::div_mod::lemma_add_mod_noop_right(-d, c + d, n);
    assert(-d + (c + d) == c);
    vstd::arithmetic::div_mod::lemma_small_mod(c as nat, n as nat);
}

/// The speed stays between [`MIN_SPEED`] and [`MAX_SPEED`] whatever is
/// pressed, and one step faster then one step slower comes back to the same
/// speed below the top (one step slower then faster, above the bottom).
pub proof fn law_speed_limits(speed: nat)
    requires
        MIN_SPEED <= speed <= MAX_SPEED,
    ensures
        MIN_SPEED <= faster_speed(speed) <= MAX_SPEED,
        MIN_SPEED <= slower_speed(speed) <= MAX_SPEED,
        speed < MAX_SPEED ==> slower_speed(faster_speed(speed)) == speed,
        speed > MIN_SPEED ==> faster_speed(slower_speed(speed)) == speed,
{
}

/// Going from the edit phase to the run phase and back, with nothing in
/// between, gives back the same state.
pub proof fn law_run_then_edit(m: AppModel)
    requires
        m.phase == Phase::Edit,
    ensures
        (AppModel { phase: Phase::Edit, ..(AppModel { phase: Phase::Run, ..m }) }) == m,
{
}

/// No generation is ever due while the simulation is paused or in the edit
/// phase, however long it waits.
pub proof fn law_no_tick_unless_running(m: AppModel, elapsed: nat)
    requires
        m.paused || m.phase == Phase::Edit,
    ensures
        !tick_due(m, elapsed),
{
}

/// Once the application is quitting it stays so: no action of the key
/// bindings, no mouse event and no generation clears the flag, and of the
/// actions only `Quit` sets it.
pub proof fn law_quit_is_kept(
    m: AppModel,
    a: Action,
    x: u16,
    y: u16,
    width: u16,
    height: u16,
    kind: MouseKind,
    col: u16,
    row: u16,
)
    ensures
        applied(m, a).quitting == (m.quitting || a == Action::Quit),
        after_mouse(m, x, y, width, height, kind, col, row).quitting == m.quitting,
        after_step(m).quitting == m.quitting,
{
}

/// A call that changes an application, as its effect on the state: a key
/// action ([`App::handle_key`], [`App::quit`] and the method of each
/// action), a mouse event ([`App::handle_mouse`]), a wait of some
/// milliseconds ([`App::maybe_tick`]), a resize ([`App::ensure_grid_size`]),
/// centring the cursor ([`App::center_cursor`]), a fill
/// ([`App::random_fill`]) or a stamp at the cursor ([`App::stamp_at_cursor`]).
pub enum Event {
    Key(Action),
    Mouse(u16, u16, u16, u16, MouseKind, u16, u16),
    Wait(nat),
    Resize(nat, nat),
    CenterCursor,
    Fill(Seq<bool>),
    StampCells(Seq<(i32, i32)>),
}

/// What one call does to the application.
pub open spec fn after_event(m: AppModel, e: Event) -> AppModel {
    match e {
        Event::Key(a) => applied(m, a),
        Event::Mouse(x, y, width, height, kind, col, row) => after_mouse(
            m,
            x,
            y,
            width,
            height,
            kind,
            col,
            row,
        ),
        Event::Wait(elapsed) => after_wait(m, elapsed),
        Event::Resize(width, height) => sized(m, width, height),
        Event::CenterCursor => cursor_centred(m),
        Event::Fill(cells) => filled(m, cells),
        Event::StampCells(cells) => cells_stamped(m, cells),
    }
}

/// What a sequence of calls does to the application, in order.
pub open spec fn after_events(m: AppModel, es: Seq<Event>) -> AppModel
    decreases es.len(),
{
    if es.len() == 0 {
        m
    } else {
        after_event(after_events(m, es.drop_last()), es.last())
    }
}

/// The calls of a sequence that are not the quit action, in order.
pub open spec fn without_quit(es: Seq<Event>) -> Seq<Event>
    decreases es.len(),
{
    if es.len() == 0 {
        es
    } else if es.last() == Event::Key(Action::Quit) {
        without_quit(es.drop_last())
    } else {
        without_quit(es.drop_last()).push(es.last())
    }
}

/// The state without the quit flag.
pub open spec fn but_quitting(m: AppModel) -> AppModel {
    AppModel { quitting: false, ..m }
}

/// No call but quitting reads or changes the quit flag.
proof fn lemma_event_ignores_quitting(m1: AppModel, m2: AppModel, e: Event)
    requires
        but_quitting(m1) == but_quitting(m2),
    ensures
        e != Event::Key(Action::Quit) ==> but_quitting(after_event(m1, e)) == but_quitting(
            after_event(m2, e),
        ),
        e != Event::Key(Action::Quit) ==> after_event(m1, e).quitting == m1.quitting,
        e == Event::Key(Action::Quit) ==> but_quitting(after_event(m1, e)) == but_quitting(m1),
        e == Event::Key(Action::Quit) ==> after_event(m1, e).quitting,
{
    assert(m1.grid == m2.grid);
}

/// The quit flag, once set, stays set, and is set by the quit action alone;
/// quitting changes nothing else: after any sequence of calls the state is,
/// but for the flag, what the same calls without the quit actions give.
pub proof fn law_quit_over_calls(m: AppModel, es: Seq<Event>)
    ensures
        after_events(m, es).quitting == (m.quitting || es.contains(Event::Key(Action::Quit))),
        but_quitting(after_events(m, es)) == but_quitting(after_events(m, without_quit(es))),
    decreases es.len(),
{
    let q = Event::Key(Action::Quit);
    if es.len() > 0 {
        let init = es.drop_last();
        law_quit_over_calls(m, init);
        let before = after_events(m, init);
        let before_nq = after_events(m, without_quit(init));
        lemma_event_ignores_quitting(before, before_nq, es.last());
        if es.last() != q {
            assert(without_quit(es).drop_last() == without_quit(init));
            assert(without_quit(es).last() == es.last());
        }
        if es.contains(q) {
            let k = choose|k: int| 0 <= k < es.len() && es[k] == q;
            if k < es.len() - 1 {
                assert(init[k] == q);
            }
        }
        if init.contains(q) {
            let k = choose|k: int| 0 <= k < init.len() && init[k] == q;
            assert(es[k] == q);
        }
        if es.last() == q {
            assert(es[es.len() - 1] == q);
        }
    } else {
        assert(!es.contains(q));
    }
}

/// Stamping keeps the grid's size and shape.
proof fn lemma_stamped_wf(m: GridModel, cells: Seq<(i32, i32)>, cx: int, cy: int)
    requires
        m.wf(),
    ensures
        stamped(m, cells, cx, cy).wf(),
        stamped(m, cells, cx, cy).width == m.width,
        stamped(m, cells, cx, cy).height == m.height,
    decreases cells.len(),
{
    if cells.len() > 0 {
        lemma_stamped_wf(m, cells.drop_last(), cx, cy);
        let prev = stamped(m, cells.drop_last(), cx, cy);
        let x = wrap_move(cx, cells.last().0 as int, m.width as int);
        let y = wrap_move(cy, cells.last().1 as int, m.height as int);
        if prev.in_bounds(x, y) {
            crate::grid::lemma_index_in_range(x, y, m.width as int, m.height as int);
        }
    }
}

/// Every cell of a stamped pattern is alive afterwards, at its offset from
/// `(cx, cy)` wrapped around the edges.
pub proof fn law_stamp_cells_alive(m: GridModel, cells: Seq<(i32, i32)>, cx: int, cy: int, k: int)
    requires
        m.wf(),
        m.width > 0,
        m.height > 0,
        0 <= k < cells.len(),
    ensures
        stamped(m, cells, cx, cy).alive(
            wrap_move(cx, cells[k].0 as int, m.width as int),
            wrap_move(cy, cells[k].1 as int, m.height as int),
        ),
    decreases cells.len(),
{
    let w = m.width as int;
    let h = m.height as int;
    let prev = stamped(m, cells.drop_last(), cx, cy);
    let last = cells.last();
    let lx = wrap_move(cx, last.0 as int, w);
    let ly = wrap_move(cy, last.1 as int, h);
    let x = wrap_move(cx, cells[k].0 as int, w);
    let y = wrap_move(cy, cells[k].1 as int, h);
    lemma_stamped_wf(m, cells.drop_last(), cx, cy);
    law_move_stays_inside(cx, last.0 as int, w);
    law_move_stays_inside(cy, last.1 as int, h);
    law_move_stays_inside(cx, cells[k].0 as int, w);
    law_move_stays_inside(cy, cells[k].1 as int, h);
    crate::grid::law_get_after_set(prev, lx, ly, true, x, y);
    if k < cells.len() - 1 {
        law_stamp_cells_alive(m, cells.drop_last(), cx, cy, k);
        assert(cells.drop_last()[k] == cells[k]);
    }
}

/// Stamping leaves alone every cell that no offset of the pattern lands on.
pub proof fn law_stamp_keeps_other_cells(
    m: GridModel,
    cells: Seq<(i32, i32)>,
    cx: int,
    cy: int,
    x: int,
    y: int,
)
    requires
        m.wf(),
        m.in_bounds(x, y),
        forall|k: int|
            0 <= k < cells.len() ==> !(wrap_move(cx, #[trigger] cells[k].0 as int, m.width as int) == x
                && wrap_move(cy, cells[k].1 as int, m.height as int) == y),
    ensures
        stamped(m, cells, cx, cy).alive(x, y) == m.alive(x, y),
    decreases cells.len(),
{
    if cells.len() > 0 {
        let w = m.width as int;
        let h = m.height as int;
        let prev = stamped(m, cells.drop_last(), cx, cy);
        let last = cells.last();
        let lx = wrap_move(cx, last.0 as int, w);
        let ly = wrap_move(cy, last.1 as int, h);
        assert forall|k: int| 0 <= k < cells.drop_last().len() implies !(wrap_move(
            cx,
            #[trigger] cells.drop_last()[k].0 as int,
            m.width as int,
        ) == x && wrap_move(cy, cells.drop_last()[k].1 as int, m.height as int) == y) by {
            assert(cells.drop_last()[k] == cells[k]);
        }
        law_stamp_keeps_other_cells(m, cells.drop_last(), cx, cy, x, y);
        lemma_stamped_wf(m, cells.drop_last(), cx, cy);
        assert(cells[cells.len() - 1] == last);
        if prev.in_bounds(lx, ly) {
            crate::grid::law_get_after_set(prev, lx, ly, true, x, y);
        }
    }
}

/// A generation records what it changed: its births are the cells dead
/// before and alive after it, its deaths the cells alive before and dead
/// after it, so that the live cells after it plus its deaths equal the live
/// cells before it plus its births; and it counts one generation more.
pub proof fn law_step_records_changes(m: AppModel)
    requires
        app_wf(m),
        step_fits(m),
    ensures
        after_step(m).last_stats.births == crate::grid::count_births(
            m.grid.cells,
            after_step(m).grid.cells,
            m.grid.cells.len() as int,
        ),
        after_step(m).last_stats.deaths == crate::grid::count_deaths(
            m.grid.cells,
            after_step(m).grid.cells,
            m.grid.cells.len() as int,
        ),
        after_step(m).grid.living() + after_step(m).last_stats.deaths == m.grid.living()
            + after_step(m).last_stats.births,
        after_step(m).generation == m.generation + 1,
{
    crate::grid::law_step_population(m.grid);
}

/// Painting with the mouse in the edit phase, at the grid cell `(gx, gy)`
/// under the pointer: a press turns that cell and the one below it (if
/// the grid has it) to the opposite of the pressed cell's state and
/// remembers that state; a drag turns both to the remembered state, when
/// there is one; a release forgets it. The cursor follows the pointer.
pub proof fn law_mouse_paints(
    m: AppModel,
    x: u16,
    y: u16,
    width: u16,
    height: u16,
    col: u16,
    row: u16,
)
    requires
        app_wf(m),
        m.phase == Phase::Edit,
        inside(x, y, width, height, col, row),
        m.grid.in_bounds(col - x, 2 * (row - y)),
    ensures
        ({
            let gx = col - x;
            let gy = 2 * (row - y);
            let was = m.grid.alive(gx, gy);
            let pressed = after_mouse(m, x, y, width, height, MouseKind::Down, col, row);
            let dragged = after_mouse(m, x, y, width, height, MouseKind::Drag, col, row);
            &&& pressed.grid.alive(gx, gy) == !was
            &&& gy + 1 < m.grid.height ==> pressed.grid.alive(gx, gy + 1) == !was
            &&& pressed.paint_state == Some(!was)
            &&& pressed.cursor_x == gx && pressed.cursor_y == gy
            &&& (m.paint_state matches Some(s) ==> {
                &&& dragged.grid.alive(gx, gy) == s
                &&& gy + 1 < m.grid.height ==> dragged.grid.alive(gx, gy + 1) == s
                &&& dragged.paint_state == Some(s)
            })
            &&& m.paint_state is None ==> dragged == m
            &&& after_mouse(m, x, y, width, height, MouseKind::Up, col, row).paint_state is None
        }),
{
    let gx = col - x;
    let gy = 2 * (row - y);
    let was = m.grid.alive(gx, gy);
    crate::grid::law_get_after_set(m.grid, gx, gy, !was, gx, gy);
    let upper = m.grid.set(gx, gy, !was);
    if gy + 1 < m.grid.height {
        crate::grid::law_get_after_set(upper, gx, gy + 1, !was, gx, gy + 1);
        crate::grid::law_get_after_set(upper, gx, gy + 1, !was, gx, gy);
    }
    if let Some(s) = m.paint_state {
        crate::grid::law_get_after_set(m.grid, gx, gy, s, gx, gy);
        let up2 = m.grid.set(gx, gy, s);
        if gy + 1 < m.grid.height {
            crate::grid::law_get_after_set(up2, gx, gy + 1, s, gx, gy + 1);
            crate::grid::law_get_after_set(up2, gx, gy + 1, s, gx, gy);
        }
    }
}

/// The direction keys of the edit phase: with the help hidden, Up or `k`
/// moves the cursor one row up, Down or `j` one row down, Left or `h` one
/// column left, Right or `l` one column right, wrapping at the edges, and
/// change nothing else.
pub proof fn law_direction_keys(m: AppModel, key: Key)
    requires
        app_wf(m),
        m.phase == Phase::Edit,
        !m.show_help,
        m.grid.width <= i32::MAX,
        m.grid.height <= i32::MAX,
        m.grid.in_bounds(m.cursor_x as int, m.cursor_y as int),
    ensures
        ({
            let after = applied(m, binding(false, Phase::Edit, m.paused, key));
            let w = m.grid.width as int;
            let h = m.grid.height as int;
            let cx = m.cursor_x as int;
            let cy = m.cursor_y as int;
            &&& key == Key::Up || key == Key::Char('k') ==> after == (AppModel {
                cursor_y: (if cy == 0 { h - 1 } else { cy - 1 }) as nat,
                ..m
            })
            &&& key == Key::Down || key == Key::Char('j') ==> after == (AppModel {
                cursor_y: (if cy + 1 == h { 0 } else { cy + 1 }) as nat,
                ..m
            })
            &&& key == Key::Left || key == Key::Char('h') ==> after == (AppModel {
                cursor_x: (if cx == 0 { w - 1 } else { cx - 1 }) as nat,
                ..m
            })
            &&& key == Key::Right || key == Key::Char('l') ==> after == (AppModel {
                cursor_x: (if cx + 1 == w { 0 } else { cx + 1 }) as nat,
                ..m
            })
        }),
{
    let w = m.grid.width as int;
    let h = m.grid.height as int;
    let cx = m.cursor_x as int;
    let cy = m.cursor_y as int;
    assert(m.grid.width as i32 == w);
    assert(m.grid.height as i32 == h);
    assert(m.cursor_x as i32 == cx);
    assert(m.cursor_y as i32 == cy);
    crate::grid::lemma_wrap(cx, w);
    crate::grid::lemma_wrap(cy, h);
}

/// The whole key table, key by key. While the help is shown, `q` and Esc
/// quit and every other key closes it. Otherwise `?` opens the help, `q`
/// and Esc quit; in the edit phase space toggles the cell, `c` clears, `r`
/// fills at random, `1` to `5` stamp the glider, blinker, pulsar, Gosper
/// gun and lightweight spaceship, `w` saves, `L` loads, Enter runs; in the
/// run phase `e` edits, space pauses or resumes, `s` steps only while
/// paused, `+`/`=` speed up and `-`/`_` slow down. Keys of the other phase
/// do nothing.
pub proof fn law_key_table(phase: Phase, paused: bool, key: Key)
    ensures
        (key == Key::Char('q') || key == Key::Esc) ==> binding(true, phase, paused, key) == Action::Quit,
        !(key == Key::Char('q') || key == Key::Esc) ==> binding(true, phase, paused, key) == Action::CloseHelp,
        binding(false, phase, paused, Key::Char('?')) == Action::ToggleHelp,
        binding(false, phase, paused, Key::Char('q')) == Action::Quit,
        binding(false, phase, paused, Key::Esc) == Action::Quit,
        binding(false, Phase::Edit, paused, Key::Char(' ')) == Action::ToggleCell,
        binding(false, Phase::Edit, paused, Key::Char('c')) == Action::ClearGrid,
        binding(false, Phase::Edit, paused, Key::Char('r')) == Action::RandomFill,
        binding(false, Phase::Edit, paused, Key::Char('1')) == Action::Stamp(Pattern::Glider),
        binding(false, Phase::Edit, paused, Key::Char('2')) == Action::Stamp(Pattern::Blinker),
        binding(false, Phase::Edit, paused, Key::Char('3')) == Action::Stamp(Pattern::Pulsar),
        binding(false, Phase::Edit, paused, Key::Char('4')) == Action::Stamp(Pattern::GosperGliderGun),
        binding(false, Phase::Edit, paused, Key::Char('5')) == Action::Stamp(Pattern::Lwss),
        binding(false, Phase::Edit, paused, Key::Char('w')) == Action::SavePattern,
        binding(false, Phase::Edit, paused, Key::Char('L')) == Action::LoadPattern,
        binding(false, Phase::Edit, paused, Key::Enter) == Action::StartRun,
        binding(false, Phase::Edit, paused, Key::Up) == Action::MoveCursor(0i32, -1i32),
        binding(false, Phase::Edit, paused, Key::Char('k')) == Action::MoveCursor(0i32, -1i32),
        binding(false, Phase::Edit, paused, Key::Down) == Action::MoveCursor(0i32, 1i32),
        binding(false, Phase::Edit, paused, Key::Char('j')) == Action::MoveCursor(0i32, 1i32),
        binding(false, Phase::Edit, paused, Key::Left) == Action::MoveCursor(-1i32, 0i32),
        binding(false, Phase::Edit, paused, Key::Char('h')) == Action::MoveCursor(-1i32, 0i32),
        binding(false, Phase::Edit, paused, Key::Right) == Action::MoveCursor(1i32, 0i32),
        binding(false, Phase::Edit, paused, Key::Char('l')) == Action::MoveCursor(1i32, 0i32),
        binding(false, Phase::Edit, paused, Key::Char('e')) == Action::Nothing,
        binding(false, Phase::Edit, paused, Key::Char('s')) == Action::Nothing,
        binding(false, Phase::Edit, paused, Key::Char('+')) == Action::Nothing,
        binding(false, Phase::Run, paused, Key::Char('e')) == Action::BackToEdit,
        binding(false, Phase::Run, paused, Key::Char(' ')) == Action::TogglePause,
        binding(false, Phase::Run, true, Key::Char('s')) == Action::StepOnce,
        binding(false, Phase::Run, false, Key::Char('s')) == Action::Nothing,
        binding(false, Phase::Run, paused, Key::Char('+')) == Action::Faster,
        binding(false, Phase::Run, paused, Key::Char('=')) == Action::Faster,
        binding(false, Phase::Run, paused, Key::Char('-')) == Action::Slower,
        binding(false, Phase::Run, paused, Key::Char('_')) == Action::Slower,
        binding(false, Phase::Run, paused, Key::Up) == Action::Nothing,
        binding(false, Phase::Run, paused, Key::Char('c')) == Action::Nothing,
        binding(false, Phase::Run, paused, Key::Char('1')) == Action::Nothing,
        binding(false, Phase::Run, paused, Key::Enter) == Action::Nothing,
{
}

/// At `speed` generations per second the wait between two generations is
/// the whole number of milliseconds that `speed` of them fit in a second:
/// `speed` waits take at most 1000 ms, and one millisecond more each would
/// take longer.
pub proof fn law_tick_interval(speed: nat)
    requires
        MIN_SPEED <= speed <= MAX_SPEED,
    ensures
        tick_interval(speed) * speed <= 1000 < (tick_interval(speed) + 1) * speed,
{
    let t = tick_interval(speed) as int;
    let d = speed as int;
    let r = 1000int % d;
    vstd::arithmetic::div_mod::lemma_fundamental_div_mod(1000int, d);
    vstd::arithmetic::div_mod::lemma_mod_bound(1000int, d);
    assert(t == 1000int / d);
    assert(t * d <= 1000 < (t + 1) * d) by (nonlinear_arith)
        requires
            1000 == d * t + r,
            0 <= r < d,
    ;
}

} // verus!
