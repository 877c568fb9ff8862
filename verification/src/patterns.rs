//! The built-in patterns: well-known shapes from the Game of Life canon,
//! each given by its live cells relative to the top-left corner of its box.
use vstd::prelude::*;

verus! {

/// A pattern of the built-in library.
#[derive(Clone, Copy, Debug, PartialEq, Eq, Structural)]
pub enum Pattern {
    /// The small spaceship that travels diagonally.
    Glider,
    /// The period-2 oscillator of three cells in a row.
    Blinker,
    /// The period-3 oscillator with four-fold symmetry.
    Pulsar,
    /// Gosper's gun, which emits a glider every 30 generations.
    GosperGliderGun,
    /// The lightweight spaceship, which travels horizontally.
    Lwss,
}

/// The live cells of a pattern, `(x, y)` from the top-left corner of its
/// box, row by row.
pub open spec fn pattern_cells(p: Pattern) -> Seq<(i32, i32)> {
    match p {
        Pattern::Glider => seq![(1i32, 0i32), (2, 1), (0, 2), (1, 2), (2, 2)],
        Pattern::Blinker => seq![(0i32, 0i32), (1, 0), (2, 0)],
        Pattern::Pulsar => seq![
            (2i32, 0i32), (3, 0), (4, 0), (8, 0), (9, 0), (10, 0),
            (0, 2), (5, 2), (7, 2), (12, 2),
            (0, 3), (5, 3), (7, 3), (12, 3),
            (0, 4), (5, 4), (7, 4), (12, 4),
            (2, 5), (3, 5), (4, 5), (8, 5), (9, 5), (10, 5),
            (2, 7), (3, 7), (4, 7), (8, 7), (9, 7), (10, 7),
            (0, 8), (5, 8), (7, 8), (12, 8),
            (0, 9), (5, 9), (7, 9), (12, 9),
            (0, 10), (5, 10), (7, 10), (12, 10),
            (2, 12), (3, 12), (4, 12), (8, 12), (9, 12), (10, 12),
        ],
        Pattern::GosperGliderGun => seq![
            (24i32, 0i32),
            (22, 1), (24, 1),
            (12, 2), (13, 2), (20, 2), (21, 2), (34, 2), (35, 2),
            (11, 3), (15, 3), (20, 3), (21, 3), (34, 3), (35, 3),
            (0, 4), (1, 4), (10, 4), (16, 4), (20, 4), (21, 4),
            (0, 5), (1, 5), (10, 5), (14, 5), (16, 5), (17, 5), (22, 5), (24, 5),
            (10, 6), (16, 6), (24, 6),
            (11, 7), (15, 7),
            (12, 8), (13, 8),
        ],
        Pattern::Lwss => seq![
            (1i32, 0i32), (4, 0),
            (0, 1),
            (0, 2), (4, 2),
            (0, 3), (1, 3), (2, 3), (3, 3),
        ],
    }
}

/// The width and height of a pattern's box.
pub open spec fn pattern_size(p: Pattern) -> (int, int) {
    match p {
        Pattern::Glider => (3, 3),
        Pattern::Blinker => (3, 1),
        Pattern::Pulsar => (13, 13),
        Pattern::GosperGliderGun => (36, 9),
        Pattern::Lwss => (5, 4),
    }
}

/// The cells of a pattern as offsets from the middle of its box, the box
/// being `size.0` x `size.1`: the cell at `(x, y)` of the box is at
/// `(x - size.0 / 2, y - size.1 / 2)`.
pub open spec fn centered(cells: Seq<(i32, i32)>, size: (int, int)) -> Seq<(i32, i32)> {
    cells.map_values(|c: (i32, i32)| ((c.0 - size.0 / 2) as i32, (c.1 - size.1 / 2) as i32))
}

/// The live cells of a pattern.
pub fn pattern_of(p: Pattern) -> (v: Vec<(i32, i32)>)
    ensures
        v@ == pattern_cells(p),
{
    match p {
        Pattern::Glider => vec![(1, 0), (2, 1), (0, 2), (1, 2), (2, 2)],
        Pattern::Blinker => vec![(0, 0), (1, 0), (2, 0)],
        Pattern::Pulsar => vec![
            (2, 0), (3, 0), (4, 0), (8, 0), (9, 0), (10, 0),
            (0, 2), (5, 2), (7, 2), (12, 2),
            (0, 3), (5, 3), (7, 3), (12, 3),
            (0, 4), (5, 4), (7, 4), (12, 4),
            (2, 5), (3, 5), (4, 5), (8, 5), (9, 5), (10, 5),
            (2, 7), (3, 7), (4, 7), (8, 7), (9, 7), (10, 7),
            (0, 8), (5, 8), (7, 8), (12, 8),
            (0, 9), (5, 9), (7, 9), (12, 9),
            (0, 10), (5, 10), (7, 10), (12, 10),
            (2, 12), (3, 12), (4, 12), (8, 12), (9, 12), (10, 12),
        ],
        Pattern::GosperGliderGun => vec![
            (24, 0),
            (22, 1), (24, 1),
            (12, 2), (13, 2), (20, 2), (21, 2), (34, 2), (35, 2),
            (11, 3), (15, 3), (20, 3), (21, 3), (34, 3), (35, 3),
            (0, 4), (1, 4), (10, 4), (16, 4), (20, 4), (21, 4),
            (0, 5), (1, 5), (10, 5), (14, 5), (16, 5), (17, 5), (22, 5), (24, 5),
            (10, 6), (16, 6), (24, 6),
            (11, 7), (15, 7),
            (12, 8), (13, 8),
        ],
        Pattern::Lwss => vec![
            (1, 0), (4, 0),
            (0, 1),
            (0, 2), (4, 2),
            (0, 3), (1, 3), (2, 3), (3, 3),
        ],
    }
}

/// The width and height of a pattern's box.
pub fn size_of_pattern(p: Pattern) -> (size: (i32, i32))
    ensures
        size.0 == pattern_size(p).0,
        size.1 == pattern_size(p).1,
{
    match p {
        Pattern::Glider => (3, 3),
        Pattern::Blinker => (3, 1),
        Pattern::Pulsar => (13, 13),
        Pattern::GosperGliderGun => (36, 9),
        Pattern::Lwss => (5, 4),
    }
}

/// The cells of pattern `p` as offsets from the middle of its box.
pub fn centered_pattern(p: Pattern) -> (v: Vec<(i32, i32)>)
    ensures
        v@ == centered(pattern_cells(p), pattern_size(p)),
{
    let cells = pattern_of(p);
    let (w, h) = size_of_pattern(p);
    let hw = w / 2;
    let hh = h / 2;
    let mut out: Vec<(i32, i32)> = Vec::new();
    let n = cells.len();
    let mut i: usize = 0;
    while i < n
        invariant
            n == cells@.len(),
            cells@ == pattern_cells(p),
            hw == pattern_size(p).0 / 2,
            hh == pattern_size(p).1 / 2,
            i <= n,
            out@ == centered(pattern_cells(p), pattern_size(p)).take(i as int),
        decreases n - i,
    {
        let (x, y) = cells[i];
        let dx = (x as i64 - hw as i64) as i32;
        let dy = (y as i64 - hh as i64) as i32;
        out.push((dx, dy));
        proof {
            assert(centered(pattern_cells(p), pattern_size(p)).take(i + 1) =~= centered(
                pattern_cells(p),
                pattern_size(p),
            ).take(i as int).push((dx, dy)));
        }
        i = i + 1;
    }
    proof {
        assert(centered(pattern_cells(p), pattern_size(p)).take(n as int) =~= centered(
            pattern_cells(p),
            pattern_size(p),
        ));
    }
    out
}

/// The largest column among the first `k` cells (`i32::MIN` when none).
pub open spec fn max_col(cells: Seq<(i32, i32)>, k: int) -> int
    decreases k,
{
    if k <= 0 {
        i32::MIN as int
    } else {
        let rest = max_col(cells, k - 1);
        if cells[k - 1].0 > rest { cells[k - 1].0 as int } else { rest }
    }
}

/// The largest row among the first `k` cells (`i32::MIN` when none).
pub open spec fn max_row(cells: Seq<(i32, i32)>, k: int) -> int
    decreases k,
{
    if k <= 0 {
        i32::MIN as int
    } else {
        let rest = max_row(cells, k - 1);
        if cells[k - 1].1 > rest { cells[k - 1].1 as int } else { rest }
    }
}

/// The smallest column among the first `k` cells (`i32::MAX` when none).
pub open spec fn min_col(cells: Seq<(i32, i32)>, k: int) -> int
    decreases k,
{
    if k <= 0 {
        i32::MAX as int
    } else {
        let rest = min_col(cells, k - 1);
        if cells[k - 1].0 < rest { cells[k - 1].0 as int } else { rest }
    }
}

/// The smallest row among the first `k` cells (`i32::MAX` when none).
pub open spec fn min_row(cells: Seq<(i32, i32)>, k: int) -> int
    decreases k,
{
    if k <= 0 {
        i32::MAX as int
    } else {
        let rest = min_row(cells, k - 1);
        if cells[k - 1].1 < rest { cells[k - 1].1 as int } else { rest }
    }
}

proof fn lemma_extremes_bound(cells: Seq<(i32, i32)>, n: int, k: int)
    requires
        0 <= k < n <= cells.len(),
    ensures
        min_col(cells, n) <= cells[k].0 <= max_col(cells, n),
        min_row(cells, n) <= cells[k].1 <= max_row(cells, n),
    decreases n,
{
    if k < n - 1 {
        lemma_extremes_bound(cells, n - 1, k);
    }
}

/// The size a pattern is centred by is the size of the box its cells fill:
/// its cells reach column 0 and row 0 and no further left or up, the width
/// is the largest column plus one and the height the largest row plus one.
/// So every cell lies in the box, and the centred offsets lie on both sides
/// of the cursor.
pub proof fn law_pattern_size_is_its_box(p: Pattern)
    ensures
        min_col(pattern_cells(p), pattern_cells(p).len() as int) == 0,
        min_row(pattern_cells(p), pattern_cells(p).len() as int) == 0,
        pattern_size(p).0 == max_col(pattern_cells(p), pattern_cells(p).len() as int) + 1,
        pattern_size(p).1 == max_row(pattern_cells(p), pattern_cells(p).len() as int) + 1,
        forall|k: int|
            0 <= k < pattern_cells(p).len() ==> 0 <= #[trigger] pattern_cells(p)[k].0 < pattern_size(p).0
                && 0 <= pattern_cells(p)[k].1 < pattern_size(p).1,
{
    let c = pattern_cells(p);
    let n = c.len() as int;
    reveal_with_fuel(max_col, 50);
    reveal_with_fuel(max_row, 50);
    reveal_with_fuel(min_col, 50);
    reveal_with_fuel(min_row, 50);
    match p {
        Pattern::Glider => {
            assert(max_col(c, n) == 2 && max_row(c, n) == 2);
            assert(min_col(c, n) == 0 && min_row(c, n) == 0);
        },
        Pattern::Blinker => {
            assert(max_col(c, n) == 2 && max_row(c, n) == 0);
            assert(min_col(c, n) == 0 && min_row(c, n) == 0);
        },
        Pattern::Pulsar => {
            assert(max_col(c, n) == 12 && max_row(c, n) == 12);
            assert(min_col(c, n) == 0 && min_row(c, n) == 0);
        },
        Pattern::GosperGliderGun => {
            assert(max_col(c, n) == 35 && max_row(c, n) == 8);
            assert(min_col(c, n) == 0 && min_row(c, n) == 0);
        },
        Pattern::Lwss => {
            assert(max_col(c, n) == 4 && max_row(c, n) == 3);
            assert(min_col(c, n) == 0 && min_row(c, n) == 0);
        },
    }
    assert forall|k: int| 0 <= k < n implies 0 <= #[trigger] c[k].0 < pattern_size(p).0 && 0 <= c[k].1
        < pattern_size(p).1 by {
        lemma_extremes_bound(c, n, k);
    }
}

proof fn lemma_extremes_shift(c: Seq<(i32, i32)>, cc: Seq<(i32, i32)>, n: int, dx: int, dy: int)
    requires
        1 <= n <= c.len(),
        cc.len() == c.len(),
        forall|k: int| 0 <= k < c.len() ==> (#[trigger] cc[k]).0 == c[k].0 - dx && cc[k].1 == c[k].1 - dy,
        forall|k: int|
            0 <= k < c.len() ==> i32::MIN < (#[trigger] cc[k]).0 < i32::MAX && i32::MIN < cc[k].1 < i32::MAX
                && i32::MIN < c[k].0 < i32::MAX && i32::MIN < c[k].1 < i32::MAX,
    ensures
        max_col(cc, n) == max_col(c, n) - dx,
        min_col(cc, n) == min_col(c, n) - dx,
        max_row(cc, n) == max_row(c, n) - dy,
        min_row(cc, n) == min_row(c, n) - dy,
    decreases n,
{
    assert(cc[n - 1].0 == c[n - 1].0 - dx && cc[n - 1].1 == c[n - 1].1 - dy);
    if n > 1 {
        lemma_extremes_shift(c, cc, n - 1, dx, dy);
    } else {
        assert(max_col(cc, 0) == i32::MIN && max_col(c, 0) == i32::MIN);
        assert(min_col(cc, 0) == i32::MAX && min_col(c, 0) == i32::MAX);
        assert(max_row(cc, 0) == i32::MIN && max_row(c, 0) == i32::MIN);
        assert(min_row(cc, 0) == i32::MAX && min_row(c, 0) == i32::MAX);
    }
}

/// A stamped pattern is centred on the cursor: its offsets from the cursor
/// span as many columns and rows as its box, reach both sides of 0, and
/// lie evenly around it (to one cell, the extra one on the left or above
/// when the side is even).
pub proof fn law_centred_on_cursor(p: Pattern)
    ensures
        ({
            let cc = centered(pattern_cells(p), pattern_size(p));
            let n = cc.len() as int;
            &&& n == pattern_cells(p).len()
            &&& max_col(cc, n) - min_col(cc, n) == pattern_size(p).0 - 1
            &&& max_row(cc, n) - min_row(cc, n) == pattern_size(p).1 - 1
            &&& min_col(cc, n) <= 0 <= max_col(cc, n)
            &&& min_row(cc, n) <= 0 <= max_row(cc, n)
            &&& (min_col(cc, n) + max_col(cc, n) == 0 || min_col(cc, n) + max_col(cc, n) == -1)
            &&& (min_row(cc, n) + max_row(cc, n) == 0 || min_row(cc, n) + max_row(cc, n) == -1)
        }),
{
    let c = pattern_cells(p);
    let size = pattern_size(p);
    let cc = centered(c, size);
    let n = c.len() as int;
    law_pattern_size_is_its_box(p);
    assert(n >= 1) by {
        reveal_with_fuel(min_col, 1);
    }
    assert forall|k: int| 0 <= k < c.len() implies (#[trigger] cc[k]).0 == c[k].0 - size.0 / 2 && cc[k].1
        == c[k].1 - size.1 / 2 by {
        assert(0 <= c[k].0 < size.0 && 0 <= c[k].1 < size.1);
    }
    assert forall|k: int| 0 <= k < c.len() implies i32::MIN < (#[trigger] cc[k]).0 < i32::MAX && i32::MIN
        < cc[k].1 < i32::MAX && i32::MIN < c[k].0 < i32::MAX && i32::MIN < c[k].1 < i32::MAX by {
        assert(0 <= c[k].0 < size.0 && 0 <= c[k].1 < size.1);
        assert(size.0 <= 36 && size.1 <= 13);
    }
    lemma_extremes_shift(c, cc, n, size.0 / 2, size.1 / 2);
}

} // verus!
