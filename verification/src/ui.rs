//! What the terminal shows of a grid: each character cell holds two grid
//! rows, drawn with half-block characters.
use vstd::prelude::*;
use crate::grid::Grid;

verus! {

/// The character for a terminal cell whose upper half shows `top` and whose
/// lower half shows `bottom`.
pub open spec fn glyph(top: bool, bottom: bool) -> char {
    if top && bottom {
        '\u{2588}'
    } else if top {
        '\u{2580}'
    } else if bottom {
        '\u{2584}'
    } else {
        ' '
    }
}

/// ' ', '▀', '▄' or '█' for the two grid cells of a terminal cell.
pub fn half_block(top: bool, bottom: bool) -> (c: char)
    ensures
        c == glyph(top, bottom),
{
    match (top, bottom) {
        (false, false) => ' ',
        (true, false) => '\u{2580}',
        (false, true) => '\u{2584}',
        (true, true) => '\u{2588}',
    }
}

/// The grid size, in cells, that fills a `width` x `height` terminal area:
/// one column per terminal column, two rows per terminal row.
pub fn grid_size_for(width: u16, height: u16) -> (size: (usize, usize))
    ensures
        size.0 == width,
        size.1 == 2 * height,
{
    (width as usize, (height as usize) * 2)
}

/// Where the terminal shows grid cell `(x, y)` of a grid drawn with its
/// top-left corner at terminal cell `(area_x, area_y)`, and whether that
/// cell is alive: `None` when `(x, y)` is off the grid or its terminal cell
/// lies beyond the range of `u16`.
pub fn cursor_cell(grid: &Grid, area_x: u16, area_y: u16, x: usize, y: usize) -> (r: Option<(u16, u16, bool)>)
    requires
        grid.wf(),
    ensures
        match r {
            None => !grid@.in_bounds(x as int, y as int) || area_x + x > u16::MAX || area_y + y / 2 > u16::MAX,
            Some(c) => {
                &&& grid@.in_bounds(x as int, y as int)
                &&& c.0 == area_x + x
                &&& c.1 == area_y + y / 2
                &&& c.2 == grid@.alive(x as int, y as int)
            },
        },
{
    if x >= grid.width() || y >= grid.height() {
        return None;
    }
    if x > 65535 || (area_x as usize) + x > 65535 || (area_y as usize) + y / 2 > 65535 {
        return None;
    }
    proof {
        crate::grid::lemma_index_in_range(x as int, y as int, grid@.width as int, grid@.height as int);
    }
    let alive = grid.get(x, y);
    Some(((area_x as usize + x) as u16, (area_y as usize + y / 2) as u16, alive))
}

/// The characters that draw `grid` into an area of `area_width` x
/// `area_height` terminal cells, row by row: as many columns as both the
/// area and the grid have (the grid's width taken as a `u16`), and as many
/// rows as both the area has and the grid needs at two grid rows per
/// terminal row (half its height, rounded up, taken as a `u16`); terminal
/// cell `(tx, ty)` shows grid cells `(tx, 2 ty)` and, where the grid has it,
/// `(tx, 2 ty + 1)`.
pub fn grid_glyphs(grid: &Grid, area_width: u16, area_height: u16) -> (rows: Vec<Vec<char>>)
    requires
        grid.wf(),
    ensures
        rows.len() == if area_height < ((grid@.height + 1) / 2) as u16 {
            area_height
        } else {
            ((grid@.height + 1) / 2) as u16
        },
        forall|ty: int|
            0 <= ty < rows.len() ==> #[trigger] rows[ty]@.len() == if area_width < grid@.width as u16 {
                area_width
            } else {
                grid@.width as u16
            },
        forall|ty: int, tx: int|
            0 <= ty < rows.len() && 0 <= tx < rows[ty]@.len() ==> #[trigger] rows[ty]@[tx] == glyph(
                grid@.alive(tx, 2 * ty),
                2 * ty + 1 < grid@.height && grid@.alive(tx, 2 * ty + 1),
            ),
{
    let w = grid.width();
    let h = grid.height();
    let gw = w as u16;
    let rows_needed = h / 2 + h % 2;
    let gh = rows_needed as u16;
    proof {
        assert(gw as usize <= w) by (bit_vector)
            requires
                gw == w as u16,
        ;
        assert(gh as usize <= rows_needed) by (bit_vector)
            requires
                gh == rows_needed as u16,
        ;
        assert(rows_needed == (h + 1) / 2);
    }
    let cols = if area_width < gw { area_width } else { gw };
    let n_rows = if area_height < gh { area_height } else { gh };
    let mut rows: Vec<Vec<char>> = Vec::new();
    let mut ty: u16 = 0;
    while ty < n_rows
        invariant
            grid.wf(),
            w == grid@.width,
            h == grid@.height,
            cols <= w,
            n_rows <= (h + 1) / 2,
            ty <= n_rows,
            rows.len() == ty,
            forall|r: int| 0 <= r < rows.len() ==> #[trigger] rows[r]@.len() == cols,
            forall|r: int, tx: int|
                0 <= r < rows.len() && 0 <= tx < rows[r]@.len() ==> #[trigger] rows[r]@[tx] == glyph(
                    grid@.alive(tx, 2 * r),
                    2 * r + 1 < grid@.height && grid@.alive(tx, 2 * r + 1),
                ),
        decreases n_rows - ty,
    {
        let gy_top = (ty as usize) * 2;
        let gy_bot = gy_top + 1;
        let mut line: Vec<char> = Vec::new();
        let mut tx: u16 = 0;
        while tx < cols
            invariant
                grid.wf(),
                w == grid@.width,
                h == grid@.height,
                cols <= w,
                gy_top < h,
                gy_top == 2 * ty,
                gy_bot == gy_top + 1,
                tx <= cols,
                line.len() == tx,
                forall|x: int| 0 <= x < line.len() ==> #[trigger] line@[x] == glyph(
                    grid@.alive(x, gy_top as int),
                    gy_bot < grid@.height && grid@.alive(x, gy_bot as int),
                ),
            decreases cols - tx,
        {
            let x = tx as usize;
            proof {
                crate::grid::lemma_index_in_range(x as int, gy_top as int, w as int, h as int);
            }
            let top = grid.get(x, gy_top);
            let bot = if gy_bot < h {
                proof {
                    crate::grid::lemma_index_in_range(x as int, gy_bot as int, w as int, h as int);
                }
                grid.get(x, gy_bot)
            } else {
                false
            };
            line.push(half_block(top, bot));
            tx = tx + 1;
        }
        rows.push(line);
        ty = ty + 1;
    }
    rows
}

} // verus!
