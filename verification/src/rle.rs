//! Reading and writing patterns in the Run Length Encoded (RLE) format of
//! the Game of Life community.
use vstd::prelude::*;
use crate::grid::{Grid, GridModel};
use crate::text::{
    chars_of, decimal, digit_value, digits_value, is_digit, is_digit_char, is_white_space,
    is_white_space_char, push_decimal, string_from_chars,
};

verus! {

// ---------------------------------------------------------------------------
// Lines of a document
// ---------------------------------------------------------------------------

/// A line without the `'\r'` of a `"\r\n"` ending.
pub open spec fn strip_cr(line: Seq<char>) -> Seq<char> {
    if line.len() > 0 && line.last() == '\r' {
        line.drop_last()
    } else {
        line
    }
}

/// The lines of `rest`, the first of them continuing `cur`: lines end at
/// `'\n'` or `"\r\n"`, and a final line ending is optional.
pub open spec fn lines_from(cur: Seq<char>, rest: Seq<char>) -> Seq<Seq<char>>
    decreases rest.len(),
{
    if rest.len() == 0 {
        if cur.len() == 0 {
            seq![]
        } else {
            seq![cur]
        }
    } else if rest[0] == '\n' {
        seq![strip_cr(cur)] + lines_from(seq![], rest.drop_first())
    } else {
        lines_from(cur.push(rest[0]), rest.drop_first())
    }
}

/// The lines of a document, as `str::lines` gives them.
pub open spec fn text_lines(s: Seq<char>) -> Seq<Seq<char>> {
    lines_from(seq![], s)
}

/// A line with its leading white space removed.
pub open spec fn trim_start(line: Seq<char>) -> Seq<char>
    decreases line.len(),
{
    if line.len() > 0 && is_white_space(line[0]) {
        trim_start(line.drop_first())
    } else {
        line
    }
}

/// A comment line starts with `'#'`.
pub open spec fn is_comment(line: Seq<char>) -> bool {
    line.len() > 0 && line[0] == '#'
}

/// A header line starts with `'x'` once leading white space is removed.
pub open spec fn is_header(line: Seq<char>) -> bool {
    let t = trim_start(line);
    t.len() > 0 && t[0] == 'x'
}

/// The pattern data of a document given as lines: comment lines are
/// dropped, then the header lines before the first other line, and the
/// remaining lines are joined without separators.
pub open spec fn body_of(lines: Seq<Seq<char>>, in_header: bool) -> Seq<char>
    decreases lines.len(),
{
    if lines.len() == 0 {
        seq![]
    } else if is_comment(lines[0]) {
        body_of(lines.drop_first(), in_header)
    } else if in_header && is_header(lines[0]) {
        body_of(lines.drop_first(), true)
    } else {
        lines[0] + body_of(lines.drop_first(), false)
    }
}

/// The pattern data of an RLE document.
pub open spec fn rle_body(s: Seq<char>) -> Seq<char> {
    body_of(text_lines(s), true)
}

fn is_header_line(line: &Vec<char>) -> (r: bool)
    ensures
        r == is_header(line@),
{
    let n = line.len();
    let mut i: usize = 0;
    assert(line@.skip(0) =~= line@);
    while i < n && is_white_space_char(line[i])
        invariant
            n == line@.len(),
            i <= n,
            trim_start(line@) == trim_start(line@.skip(i as int)),
        decreases n - i,
    {
        proof {
            assert(line@.skip(i as int).drop_first() =~= line@.skip(i + 1));
        }
        i = i + 1;
    }
    i < n && line[i] == 'x'
}

/// What one line adds to the body, and whether header lines may still
/// follow it.
pub open spec fn line_step(line: Seq<char>, in_header: bool) -> (Seq<char>, bool) {
    if is_comment(line) {
        (seq![], in_header)
    } else if in_header && is_header(line) {
        (seq![], true)
    } else {
        (line, false)
    }
}

pub proof fn lemma_body_of_cons(line: Seq<char>, more: Seq<Seq<char>>, in_header: bool)
    ensures
        body_of(seq![line] + more, in_header) == line_step(line, in_header).0 + body_of(
            more,
            line_step(line, in_header).1,
        ),
{
    assert((seq![line] + more).drop_first() =~= more);
    assert((seq![line] + more)[0] == line);
    if is_comment(line) || (in_header && is_header(line)) {
        assert(seq![] + body_of(more, line_step(line, in_header).1) =~= body_of(more, line_step(line, in_header).1));
    }
}

/// Adds one finished line to the body being built.
fn take_line(body: &mut Vec<char>, line: &Vec<char>, in_header: &mut bool)
    ensures
        final(body)@ == old(body)@ + line_step(line@, *old(in_header)).0,
        *final(in_header) == line_step(line@, *old(in_header)).1,
{
    if line.len() > 0 && line[0] == '#' {
        assert(old(body)@ + seq![] =~= old(body)@);
        return;
    }
    if *in_header && is_header_line(line) {
        assert(old(body)@ + seq![] =~= old(body)@);
        return;
    }
    *in_header = false;
    let n = line.len();
    let ghost start = body@;
    let mut i: usize = 0;
    while i < n
        invariant
            n == line@.len(),
            i <= n,
            body@ == start + line@.take(i as int),
        decreases n - i,
    {
        body.push(line[i]);
        proof {
            assert(line@.take(i + 1) =~= line@.take(i as int).push(line@[i as int]));
        }
        i = i + 1;
    }
    proof {
        assert(line@.take(n as int) =~= line@);
    }
}

/// The pattern data of the RLE document `s`.
fn document_body(s: &Vec<char>) -> (body: Vec<char>)
    ensures
        body@ == rle_body(s@),
{
    let mut body: Vec<char> = Vec::new();
    let mut cur: Vec<char> = Vec::new();
    let mut in_header = true;
    let n = s.len();
    let mut i: usize = 0;
    assert(s@.skip(0) =~= s@);
    assert(body@ + rle_body(s@) =~= rle_body(s@));
    while i < n
        invariant
            n == s@.len(),
            i <= n,
            rle_body(s@) == body@ + body_of(lines_from(cur@, s@.skip(i as int)), in_header),
        decreases n - i,
    {
        let c = s[i];
        let ghost rest = s@.skip(i as int);
        proof {
            assert(rest.drop_first() =~= s@.skip(i + 1));
            assert(rest[0] == c);
        }
        if c == '\n' {
            let ghost more = lines_from(seq![], rest.drop_first());
            if cur.len() > 0 && cur[cur.len() - 1] == '\r' {
                cur.pop();
            }
            let ghost old_body = body@;
            let ghost old_h = in_header;
            take_line(&mut body, &cur, &mut in_header);
            proof {
                lemma_body_of_cons(cur@, more, old_h);
                assert(old_body + (line_step(cur@, old_h).0 + body_of(more, in_header)) =~= body@
                    + body_of(more, in_header));
            }
            cur = Vec::new();
        } else {
            cur.push(c);
        }
        i = i + 1;
    }
    proof {
        assert(s@.skip(n as int) =~= Seq::<char>::empty());
    }
    if cur.len() > 0 {
        let ghost old_body = body@;
        let ghost old_h = in_header;
        take_line(&mut body, &cur, &mut in_header);
        proof {
            lemma_body_of_cons(cur@, seq![], old_h);
            assert(seq![cur@] + Seq::<Seq<char>>::empty() =~= seq![cur@]);
            assert(body_of(Seq::<Seq<char>>::empty(), in_header) =~= Seq::<char>::empty());
            assert(old_body + (line_step(cur@, old_h).0 + Seq::<char>::empty()) =~= body@);
        }
    } else {
        proof {
            assert(body@ + Seq::<char>::empty() =~= body@);
        }
    }
    body
}

// ---------------------------------------------------------------------------
// Decoding
// ---------------------------------------------------------------------------

/// Why an RLE document cannot be read.
#[derive(Debug, PartialEq, Eq)]
pub enum RleError {
    /// Nothing is left once comments and the header are removed.
    NoBody,
    /// A run length (the digits given) does not fit in an `i32`.
    BadRunLength(String),
    /// A character that is no digit, tag, `'$'`, `'!'` or white space.
    UnexpectedChar(char),
}

/// The state of the decoder between two characters of the pattern data:
/// the position of the next cell, the digits of a pending run length, and
/// the live cells found so far.
pub struct DecodeState {
    pub x: int,
    pub y: int,
    pub digits: Seq<char>,
    pub cells: Seq<(i32, i32)>,
}

/// What decoding a document results in.
pub enum DecodeOutcome {
    /// The live cells, in the order the document lists them.
    Cells(Seq<(i32, i32)>),
    NoBody,
    BadRunLength(Seq<char>),
    UnexpectedChar(char),
    /// A position leaves the range of `i32`.
    Overflow,
}

/// The decoder after some characters: still reading, stopped at `'!'`, or
/// stopped by an error.
pub enum Decoding {
    Running(DecodeState),
    Done(DecodeState),
    Stopped(DecodeOutcome),
}

pub open spec fn start_state() -> DecodeState {
    DecodeState { x: 0, y: 0, digits: seq![], cells: seq![] }
}

/// The `n` cells of a run of live cells starting at `(x, y)`.
pub open spec fn run_cells(x: int, y: int, n: int) -> Seq<(i32, i32)> {
    Seq::new(n as nat, |k: int| ((x + k) as i32, y as i32))
}

/// One character of pattern data: digits build a run length (1 if none is
/// given); `b` skips dead cells, `o` adds live ones, `$` ends rows, `!`
/// ends the pattern, white space is ignored.
pub open spec fn decode_char(st: DecodeState, c: char) -> Decoding {
    if is_digit(c) {
        Decoding::Running(DecodeState { digits: st.digits.push(c), ..st })
    } else if st.digits.len() > 0 && digits_value(st.digits) > i32::MAX {
        Decoding::Stopped(DecodeOutcome::BadRunLength(st.digits))
    } else {
        let n = if st.digits.len() == 0 {
            1
        } else {
            digits_value(st.digits)
        };
        let next = DecodeState { digits: seq![], ..st };
        if c == 'b' {
            if st.x + n > i32::MAX {
                Decoding::Stopped(DecodeOutcome::Overflow)
            } else {
                Decoding::Running(DecodeState { x: st.x + n, ..next })
            }
        } else if c == 'o' {
            if st.x + n > i32::MAX {
                Decoding::Stopped(DecodeOutcome::Overflow)
            } else {
                Decoding::Running(
                    DecodeState { x: st.x + n, cells: st.cells + run_cells(st.x, st.y, n), ..next },
                )
            }
        } else if c == '$' {
            if st.y + n > i32::MAX {
                Decoding::Stopped(DecodeOutcome::Overflow)
            } else {
                Decoding::Running(DecodeState { x: 0, y: st.y + n, ..next })
            }
        } else if c == '!' {
            Decoding::Done(next)
        } else if is_white_space(c) {
            Decoding::Running(next)
        } else {
            Decoding::Stopped(DecodeOutcome::UnexpectedChar(c))
        }
    }
}

/// Decoding the characters `s` from state `st`.
pub open spec fn decode_run(st: DecodeState, s: Seq<char>) -> Decoding
    decreases s.len(),
{
    if s.len() == 0 {
        Decoding::Running(st)
    } else {
        match decode_char(st, s[0]) {
            Decoding::Running(next) => decode_run(next, s.drop_first()),
            other => other,
        }
    }
}

/// What reading the RLE document `s` gives.
pub open spec fn decode_spec(s: Seq<char>) -> DecodeOutcome {
    let body = rle_body(s);
    if body.len() == 0 {
        DecodeOutcome::NoBody
    } else {
        match decode_run(start_state(), body) {
            Decoding::Running(st) => DecodeOutcome::Cells(st.cells),
            Decoding::Done(st) => DecodeOutcome::Cells(st.cells),
            Decoding::Stopped(outcome) => outcome,
        }
    }
}

/// The outcome that a result of [`decode`] stands for.
pub open spec fn outcome_of(r: Result<Vec<(i32, i32)>, RleError>) -> DecodeOutcome {
    match r {
        Ok(v) => DecodeOutcome::Cells(v@),
        Err(RleError::NoBody) => DecodeOutcome::NoBody,
        Err(RleError::BadRunLength(s)) => DecodeOutcome::BadRunLength(s@),
        Err(RleError::UnexpectedChar(c)) => DecodeOutcome::UnexpectedChar(c),
    }
}

fn digit_of(c: char) -> (d: u64)
    requires
        is_digit(c),
    ensures
        d == digit_value(c),
{
    (c as u32 - '0' as u32) as u64
}

/// The value of a run length, or `None` when it does not fit in an `i32`.
fn parse_count(ds: &Vec<char>) -> (r: Option<i32>)
    requires
        forall|i: int| 0 <= i < ds@.len() ==> is_digit(#[trigger] ds@[i]),
    ensures
        match r {
            Some(v) => 0 <= v && digits_value(ds@) <= i32::MAX && v == digits_value(ds@),
            None => digits_value(ds@) > i32::MAX,
        },
{
    let n = ds.len();
    let mut acc: u64 = 0;
    let mut i: usize = 0;
    assert(ds@.take(0) =~= Seq::<char>::empty());
    while i < n
        invariant
            n == ds@.len(),
            i <= n,
            forall|j: int| 0 <= j < ds@.len() ==> is_digit(#[trigger] ds@[j]),
            digits_value(ds@.take(i as int)) >= 0,
            acc == if digits_value(ds@.take(i as int)) <= i32::MAX {
                digits_value(ds@.take(i as int))
            } else {
                i32::MAX + 1
            },
        decreases n - i,
    {
        let d = digit_of(ds[i]);
        proof {
            assert(ds@.take(i + 1).drop_last() =~= ds@.take(i as int));
            assert(ds@.take(i + 1).last() == ds@[i as int]);
        }
        if acc <= 2147483647 {
            acc = acc * 10 + d;
            if acc > 2147483648 {
                acc = 2147483648;
            }
        }
        i = i + 1;
    }
    assert(ds@.take(n as int) =~= ds@);
    if acc <= 2147483647 {
        Some(acc as i32)
    } else {
        None
    }
}

/// Reads an RLE document into the live cells it lists, as `(x, y)` offsets
/// from the pattern's top-left corner; `None` when a position would leave
/// the range of `i32`.
pub fn decode_checked(rle: &str) -> (r: Option<Result<Vec<(i32, i32)>, RleError>>)
    ensures
        match r {
            None => decode_spec(rle@) == DecodeOutcome::Overflow,
            Some(res) => outcome_of(res) == decode_spec(rle@),
        },
{
    let text = chars_of(rle);
    let body = document_body(&text);
    if body.len() == 0 {
        return Some(Err(RleError::NoBody));
    }
    let mut cells: Vec<(i32, i32)> = Vec::new();
    let mut x: i32 = 0;
    let mut y: i32 = 0;
    let mut count: Vec<char> = Vec::new();
    let n = body.len();
    let mut i: usize = 0;
    proof {
        assert(body@.skip(0) =~= body@);
    }
    while i < n
        invariant
            n == body@.len(),
            n > 0,
            body@ == rle_body(rle@),
            i <= n,
            0 <= x,
            0 <= y,
            forall|j: int| 0 <= j < count@.len() ==> is_digit(#[trigger] count@[j]),
            decode_run(start_state(), body@) == decode_run(
                DecodeState { x: x as int, y: y as int, digits: count@, cells: cells@ },
                body@.skip(i as int),
            ),
        decreases n - i,
    {
        let c = body[i];
        let ghost st = DecodeState { x: x as int, y: y as int, digits: count@, cells: cells@ };
        let ghost rest = body@.skip(i as int);
        proof {
            assert(rest.drop_first() =~= body@.skip(i + 1));
            assert(rest[0] == c);
        }
        if is_digit_char(c) {
            count.push(c);
        } else {
            let len: i32 = if count.len() == 0 {
                1
            } else {
                match parse_count(&count) {
                    Some(v) => v,
                    None => {
                        return Some(Err(RleError::BadRunLength(string_from_chars(count))));
                    },
                }
            };
            count = Vec::new();
            if c == 'b' {
                if x as i64 + len as i64 > 2147483647 {
                    return None;
                }
                x = x + len;
            } else if c == 'o' {
                if x as i64 + len as i64 > 2147483647 {
                    return None;
                }
                let ghost x0 = x as int;
                let ghost before = cells@;
                let mut k: i32 = 0;
                while k < len
                    invariant
                        0 <= k <= len,
                        x0 + len <= i32::MAX,
                        x == x0 + k,
                        y >= 0,
                        cells@ == before + run_cells(x0, y as int, k as int),
                    decreases len - k,
                {
                    cells.push((x, y));
                    proof {
                        assert(before + run_cells(x0, y as int, k + 1) =~= (before + run_cells(
                            x0,
                            y as int,
                            k as int,
                        )).push((x, y)));
                    }
                    x = x + 1;
                    k = k + 1;
                }
            } else if c == '$' {
                if y as i64 + len as i64 > 2147483647 {
                    return None;
                }
                y = y + len;
                x = 0;
            } else if c == '!' {
                return Some(Ok(cells));
            } else if is_white_space_char(c) {
            } else {
                return Some(Err(RleError::UnexpectedChar(c)));
            }
        }
        i = i + 1;
    }
    proof {
        assert(body@.skip(n as int) =~= Seq::<char>::empty());
    }
    Some(Ok(cells))
}

/// Reads an RLE document into the live cells it lists, as `(x, y)` offsets
/// from the pattern's top-left corner.
pub fn decode(rle: &str) -> (r: Result<Vec<(i32, i32)>, RleError>)
    requires
        decode_spec(rle@) != DecodeOutcome::Overflow,
    ensures
        outcome_of(r) == decode_spec(rle@),
{
    match decode_checked(rle) {
        Some(r) => r,
        None => {
            proof {
                assert(false);
            }
            Err(RleError::NoBody)
        },
    }
}

// ---------------------------------------------------------------------------
// Bounding box
// ---------------------------------------------------------------------------

/// Whether the grid has a live cell.
pub open spec fn has_live(m: GridModel) -> bool {
    exists|x: int, y: int| m.in_bounds(x, y) && m.alive(x, y)
}

/// `(min_x, min_y, max_x, max_y)` is the smallest box holding every live
/// cell: every live cell lies inside it and a live cell lies on each of
/// its four edges.
pub open spec fn is_bounding_box(m: GridModel, b: (int, int, int, int)) -> bool {
    &&& forall|x: int, y: int|
        m.in_bounds(x, y) && m.alive(x, y) ==> b.0 <= x <= b.2 && b.1 <= y <= b.3
    &&& exists|y: int| m.in_bounds(b.0, y) && m.alive(b.0, y)
    &&& exists|x: int| m.in_bounds(x, b.1) && m.alive(x, b.1)
    &&& exists|y: int| m.in_bounds(b.2, y) && m.alive(b.2, y)
    &&& exists|x: int| m.in_bounds(x, b.3) && m.alive(x, b.3)
}

/// The bounding box of the live cells, if there are any.
pub open spec fn bounds(m: GridModel) -> Option<(int, int, int, int)> {
    if has_live(m) {
        Some(choose|b: (int, int, int, int)| is_bounding_box(m, b))
    } else {
        None
    }
}

/// A grid has at most one bounding box.
pub proof fn lemma_bounding_box_unique(m: GridModel, b1: (int, int, int, int), b2: (int, int, int, int))
    requires
        is_bounding_box(m, b1),
        is_bounding_box(m, b2),
    ensures
        b1 == b2,
{
    let y1 = choose|y: int| m.in_bounds(b1.0, y) && m.alive(b1.0, y);
    let y2 = choose|y: int| m.in_bounds(b2.0, y) && m.alive(b2.0, y);
    let x1 = choose|x: int| m.in_bounds(x, b1.1) && m.alive(x, b1.1);
    let x2 = choose|x: int| m.in_bounds(x, b2.1) && m.alive(x, b2.1);
    let y3 = choose|y: int| m.in_bounds(b1.2, y) && m.alive(b1.2, y);
    let y4 = choose|y: int| m.in_bounds(b2.2, y) && m.alive(b2.2, y);
    let x3 = choose|x: int| m.in_bounds(x, b1.3) && m.alive(x, b1.3);
    let x4 = choose|x: int| m.in_bounds(x, b2.3) && m.alive(x, b2.3);
    assert(b1.0 <= b2.0 && b2.0 <= b1.0) by {
        assert(m.in_bounds(b2.0, y2) && m.alive(b2.0, y2));
        assert(m.in_bounds(b1.0, y1) && m.alive(b1.0, y1));
    }
    assert(b1.1 <= b2.1 && b2.1 <= b1.1) by {
        assert(m.in_bounds(x2, b2.1) && m.alive(x2, b2.1));
        assert(m.in_bounds(x1, b1.1) && m.alive(x1, b1.1));
    }
    assert(b1.2 <= b2.2 && b2.2 <= b1.2) by {
        assert(m.in_bounds(b2.2, y4) && m.alive(b2.2, y4));
        assert(m.in_bounds(b1.2, y3) && m.alive(b1.2, y3));
    }
    assert(b1.3 <= b2.3 && b2.3 <= b1.3) by {
        assert(m.in_bounds(x4, b2.3) && m.alive(x4, b2.3));
        assert(m.in_bounds(x3, b1.3) && m.alive(x3, b1.3));
    }
}

/// The bounding box of the live cells, `(min_x, min_y, max_x, max_y)`, or
/// `None` when no cell is alive.
pub fn bounding_box(grid: &Grid) -> (r: Option<(usize, usize, usize, usize)>)
    requires
        grid.wf(),
    ensures
        match r {
            None => bounds(grid@) is None,
            Some(b) => {
                &&& bounds(grid@) == Some((b.0 as int, b.1 as int, b.2 as int, b.3 as int))
                &&& b.0 <= b.2 < grid@.width
                &&& b.1 <= b.3 < grid@.height
            },
        },
{
    let ghost m = grid@;
    let w = grid.width();
    let h = grid.height();
    let mut found = false;
    let mut min_x: usize = usize::MAX;
    let mut min_y: usize = usize::MAX;
    let mut max_x: usize = 0;
    let mut max_y: usize = 0;
    let ghost mut wx0: (int, int) = (0, 0);
    let ghost mut wy0: (int, int) = (0, 0);
    let ghost mut wx1: (int, int) = (0, 0);
    let ghost mut wy1: (int, int) = (0, 0);
    let mut y: usize = 0;
    while y < h
        invariant
            grid.wf(),
            grid@ == m,
            w == m.width,
            h == m.height,
            y <= h,
            found <==> exists|a: int, b: int| 0 <= a < w && 0 <= b < y && m.alive(a, b),
            found ==> {
                &&& forall|a: int, b: int|
                    0 <= a < w && 0 <= b < y && m.alive(a, b) ==> min_x <= a <= max_x && min_y <= b
                        <= max_y
                &&& m.in_bounds(wx0.0, wx0.1) && m.alive(wx0.0, wx0.1) && wx0.0 == min_x
                &&& m.in_bounds(wy0.0, wy0.1) && m.alive(wy0.0, wy0.1) && wy0.1 == min_y
                &&& m.in_bounds(wx1.0, wx1.1) && m.alive(wx1.0, wx1.1) && wx1.0 == max_x
                &&& m.in_bounds(wy1.0, wy1.1) && m.alive(wy1.0, wy1.1) && wy1.1 == max_y
            },
        decreases h - y,
    {
        let mut x: usize = 0;
        while x < w
            invariant
                grid.wf(),
                grid@ == m,
                w == m.width,
                h == m.height,
                y < h,
                x <= w,
                found <==> exists|a: int, b: int|
                    0 <= a < w && (0 <= b < y || (b == y && a < x)) && m.alive(a, b),
                found ==> {
                    &&& forall|a: int, b: int|
                        0 <= a < w && (0 <= b < y || (b == y && a < x)) && m.alive(a, b) ==> min_x
                            <= a <= max_x && min_y <= b <= max_y
                    &&& m.in_bounds(wx0.0, wx0.1) && m.alive(wx0.0, wx0.1) && wx0.0 == min_x
                    &&& m.in_bounds(wy0.0, wy0.1) && m.alive(wy0.0, wy0.1) && wy0.1 == min_y
                    &&& m.in_bounds(wx1.0, wx1.1) && m.alive(wx1.0, wx1.1) && wx1.0 == max_x
                    &&& m.in_bounds(wy1.0, wy1.1) && m.alive(wy1.0, wy1.1) && wy1.1 == max_y
                },
            decreases w - x,
        {
            proof {
                crate::grid::lemma_index_in_range(x as int, y as int, w as int, h as int);
            }
            if grid.get(x, y) {
                if !found {
                    min_x = x;
                    min_y = y;
                    max_x = x;
                    max_y = y;
                    proof {
                        wx0 = (x as int, y as int);
                        wy0 = (x as int, y as int);
                        wx1 = (x as int, y as int);
                        wy1 = (x as int, y as int);
                    }
                } else {
                    if x < min_x {
                        min_x = x;
                        proof {
                            wx0 = (x as int, y as int);
                        }
                    }
                    if y < min_y {
                        min_y = y;
                        proof {
                            wy0 = (x as int, y as int);
                        }
                    }
                    if x > max_x {
                        max_x = x;
                        proof {
                            wx1 = (x as int, y as int);
                        }
                    }
                    if y > max_y {
                        max_y = y;
                        proof {
                            wy1 = (x as int, y as int);
                        }
                    }
                }
                found = true;
                assert(0 <= x < w && (0 <= y < y || (y == y && x < x + 1)) && m.alive(x as int, y as int));
            }
            x = x + 1;
        }
        y = y + 1;
    }
    if found {
        let ghost b = (min_x as int, min_y as int, max_x as int, max_y as int);
        proof {
            assert(is_bounding_box(m, b)) by {
                assert(m.in_bounds(b.0, wx0.1) && m.alive(b.0, wx0.1));
                assert(m.in_bounds(wy0.0, b.1) && m.alive(wy0.0, b.1));
                assert(m.in_bounds(b.2, wx1.1) && m.alive(b.2, wx1.1));
                assert(m.in_bounds(wy1.0, b.3) && m.alive(wy1.0, b.3));
            }
            assert(has_live(m)) by {
                assert(m.in_bounds(wx0.0, wx0.1) && m.alive(wx0.0, wx0.1));
            }
            let c = choose|b: (int, int, int, int)| is_bounding_box(m, b);
            lemma_bounding_box_unique(m, b, c);
        }
        Some((min_x, min_y, max_x, max_y))
    } else {
        proof {
            assert(!has_live(m)) by {
                if has_live(m) {
                    let (a, b) = choose|a: int, b: int| m.in_bounds(a, b) && m.alive(a, b);
                    assert(0 <= a < w && 0 <= b < y && m.alive(a, b));
                }
            }
        }
        None
    }
}

// ---------------------------------------------------------------------------
// Encoding
// ---------------------------------------------------------------------------

/// `'o'` for a live cell, `'b'` for a dead one.
pub open spec fn cell_char(alive: bool) -> char {
    if alive {
        'o'
    } else {
        'b'
    }
}

/// The runs of equal characters in `cs`, as `(length, character)`, in order.
pub open spec fn runs(cs: Seq<char>) -> Seq<(nat, char)>
    decreases cs.len(),
{
    if cs.len() == 0 {
        seq![]
    } else {
        let r = runs(cs.drop_last());
        if r.len() > 0 && r.last().1 == cs.last() {
            r.update(r.len() - 1, ((r.last().0 + 1) as nat, cs.last()))
        } else {
            r.push((1nat, cs.last()))
        }
    }
}

/// `ts` without the tokens of character `c` at its end.
pub open spec fn strip_trailing(ts: Seq<(nat, char)>, c: char) -> Seq<(nat, char)>
    decreases ts.len(),
{
    if ts.len() > 0 && ts.last().1 == c {
        strip_trailing(ts.drop_last(), c)
    } else {
        ts
    }
}

/// The cells of row `y` from column `x0` on, `w` of them, as characters.
pub open spec fn row_chars(m: GridModel, x0: int, y: int, w: int) -> Seq<char> {
    Seq::new(w as nat, |i: int| cell_char(m.alive(x0 + i, y)))
}

/// The tokens of a row: its runs without the dead run at its end, then `$`.
pub open spec fn row_tokens(m: GridModel, x0: int, y: int, w: int) -> Seq<(nat, char)> {
    strip_trailing(runs(row_chars(m, x0, y, w)), 'b').push((1nat, '$'))
}

/// The tokens of the first `rows` rows of the box at `(x0, y0)`, `w` wide.
pub open spec fn rows_tokens(m: GridModel, x0: int, y0: int, w: int, rows: int) -> Seq<(nat, char)>
    decreases rows,
{
    if rows <= 0 {
        seq![]
    } else {
        rows_tokens(m, x0, y0, w, rows - 1) + row_tokens(m, x0, y0 + rows - 1, w)
    }
}

/// The tokens of a pattern: those of its rows, without the row ends at its
/// end, then `!`.
pub open spec fn pattern_tokens(m: GridModel, b: (int, int, int, int)) -> Seq<(nat, char)> {
    strip_trailing(rows_tokens(m, b.0, b.1, b.2 - b.0 + 1, b.3 - b.1 + 1), '$').push((1nat, '!'))
}

/// A token as text: its character, after its length unless that is 1.
pub open spec fn token_text(t: (nat, char)) -> Seq<char> {
    if t.0 == 1 {
        seq![t.1]
    } else {
        decimal(t.0) + seq![t.1]
    }
}

/// The most characters a line of pattern data holds unless one token is longer.
pub const LINE_LIMIT: usize = 70;

/// The tokens as text, a line break before each token that would make the
/// line, already `line_len` long, exceed [`LINE_LIMIT`].
pub open spec fn wrap_tokens(ts: Seq<(nat, char)>, line_len: int) -> Seq<char>
    decreases ts.len(),
{
    if ts.len() == 0 {
        seq![]
    } else {
        let t = token_text(ts[0]);
        if line_len + t.len() > LINE_LIMIT {
            seq!['\n'] + t + wrap_tokens(ts.drop_first(), t.len() as int)
        } else {
            t + wrap_tokens(ts.drop_first(), line_len + t.len())
        }
    }
}

/// The header line `x = <w>, y = <h>, rule = B3/S23` and its line break.
pub open spec fn header(w: nat, h: nat) -> Seq<char> {
    seq!['x', ' ', '=', ' '] + decimal(w) + seq![',', ' ', 'y', ' ', '=', ' '] + decimal(h) + seq![
        ',',
        ' ',
        'r',
        'u',
        'l',
        'e',
        ' ',
        '=',
        ' ',
        'B',
        '3',
        '/',
        'S',
        '2',
        '3',
        '\n',
    ]
}

/// The RLE document of a grid: the header with the size of the bounding box
/// of the live cells, then the pattern data of that box and a line break.
/// A grid without live cells is written as an empty 0 x 0 pattern.
pub open spec fn encode_spec(m: GridModel) -> Seq<char> {
    match bounds(m) {
        None => header(0, 0) + seq!['!', '\n'],
        Some(b) => header((b.2 - b.0 + 1) as nat, (b.3 - b.1 + 1) as nat) + wrap_tokens(
            pattern_tokens(m, b),
            0,
        ) + seq!['\n'],
    }
}

/// Tokens held with machine-sized lengths, seen as tokens.
pub open spec fn tokens_view(v: Seq<(usize, char)>) -> Seq<(nat, char)> {
    v.map_values(|t: (usize, char)| (t.0 as nat, t.1))
}

fn push_chars(v: &mut Vec<char>, s: &[char])
    ensures
        final(v)@ == old(v)@ + s@,
{
    let n = s.len();
    let mut i: usize = 0;
    while i < n
        invariant
            n == s@.len(),
            i <= n,
            v@ == old(v)@ + s@.take(i as int),
        decreases n - i,
    {
        v.push(s[i]);
        proof {
            assert(s@.take(i + 1) =~= s@.take(i as int).push(s@[i as int]));
        }
        i = i + 1;
    }
    assert(s@.take(n as int) =~= s@);
}

fn push_header(v: &mut Vec<char>, w: usize, h: usize)
    ensures
        final(v)@ == old(v)@ + header(w as nat, h as nat),
{
    push_chars(v, &['x', ' ', '=', ' ']);
    push_decimal(v, w);
    push_chars(v, &[',', ' ', 'y', ' ', '=', ' ']);
    push_decimal(v, h);
    push_chars(
        v,
        &[',', ' ', 'r', 'u', 'l', 'e', ' ', '=', ' ', 'B', '3', '/', 'S', '2', '3', '\n'],
    );
    proof {
        assert(v@ =~= old(v)@ + header(w as nat, h as nat));
    }
}

fn token_chars(n: usize, c: char) -> (t: Vec<char>)
    ensures
        t@ == token_text((n as nat, c)),
{
    let mut t: Vec<char> = Vec::new();
    if n != 1 {
        push_decimal(&mut t, n);
    }
    t.push(c);
    proof {
        assert(t@ =~= token_text((n as nat, c)));
    }
    t
}

/// Appends the tokens of row `y` of the box that starts at column `x0` and
/// is `w` wide.
fn push_row_tokens(grid: &Grid, out: &mut Vec<(usize, char)>, x0: usize, y: usize, w: usize)
    requires
        grid.wf(),
        w > 0,
        x0 + w <= grid@.width,
        y < grid@.height,
    ensures
        tokens_view(final(out)@) == tokens_view(old(out)@) + row_tokens(grid@, x0 as int, y as int, w as int),
{
    let ghost m = grid@;
    let ghost row = row_chars(m, x0 as int, y as int, w as int);
    let mut found: Vec<(usize, char)> = Vec::new();
    let mut current: char = ' ';
    let mut run: usize = 0;
    let mut i: usize = 0;
    proof {
        assert(row.take(0) =~= Seq::<char>::empty());
        assert(tokens_view(found@) =~= Seq::<(nat, char)>::empty());
    }
    while i < w
        invariant
            grid.wf(),
            grid@ == m,
            row == row_chars(m, x0 as int, y as int, w as int),
            x0 + w <= m.width,
            y < m.height,
            i <= w,
            run <= i,
            run == 0 <==> i == 0,
            runs(row.take(i as int)) == if run == 0 {
                tokens_view(found@)
            } else {
                tokens_view(found@).push((run as nat, current))
            },
        decreases w - i,
    {
        proof {
            crate::grid::lemma_index_in_range(x0 + i, y as int, m.width as int, m.height as int);
        }
        let ch = if grid.get(x0 + i, y) {
            'o'
        } else {
            'b'
        };
        proof {
            assert(row.take(i + 1).drop_last() =~= row.take(i as int));
            assert(row.take(i + 1).last() == ch);
        }
        if run == 0 || ch != current {
            if run > 0 {
                found.push((run, current));
                proof {
                    assert(tokens_view(found@) =~= tokens_view(found@.drop_last()).push((run as nat, current)));
                }
            }
            current = ch;
            run = 1;
            proof {
                assert(runs(row.take(i + 1)) =~= tokens_view(found@).push((run as nat, current)));
            }
        } else {
            run = run + 1;
            proof {
                assert(runs(row.take(i + 1)) =~= tokens_view(found@).push((run as nat, current)));
            }
        }
        i = i + 1;
    }
    found.push((run, current));
    proof {
        assert(row.take(w as int) =~= row);
        assert(tokens_view(found@) =~= tokens_view(found@.drop_last()).push((run as nat, current)));
        assert(runs(row) == tokens_view(found@));
    }
    while found.len() > 0 && found[found.len() - 1].1 == 'b'
        invariant
            strip_trailing(runs(row), 'b') == strip_trailing(tokens_view(found@), 'b'),
        decreases found.len(),
    {
        proof {
            assert(tokens_view(found@).drop_last() =~= tokens_view(found@.drop_last()));
        }
        found.pop();
    }
    proof {
        assert(strip_trailing(tokens_view(found@), 'b') == tokens_view(found@));
    }
    let n = found.len();
    let ghost start = tokens_view(out@);
    let mut k: usize = 0;
    while k < n
        invariant
            n == found@.len(),
            k <= n,
            tokens_view(out@) == start + tokens_view(found@).take(k as int),
        decreases n - k,
    {
        let ghost prev = out@;
        out.push(found[k]);
        proof {
            assert(tokens_view(out@) =~= tokens_view(prev).push((found@[k as int].0 as nat, found@[k as int].1)));
            assert(tokens_view(found@).take(k + 1) =~= tokens_view(found@).take(k as int).push(
                tokens_view(found@)[k as int],
            ));
        }
        k = k + 1;
    }
    let ghost prev = out@;
    out.push((1, '$'));
    proof {
        assert(tokens_view(found@).take(n as int) =~= tokens_view(found@));
        assert(tokens_view(out@) =~= tokens_view(prev).push((1nat, '$')));
        assert(tokens_view(out@) =~= start + row_tokens(m, x0 as int, y as int, w as int));
    }
}

/// Encodes the bounding box of the live cells as a complete RLE document,
/// header line included.
pub fn encode_grid(grid: &Grid) -> (s: String)
    requires
        grid.wf(),
    ensures
        s@ == encode_spec(grid@),
{
    let ghost m = grid@;
    let mut out: Vec<char> = Vec::new();
    let (min_x, min_y, max_x, max_y) = match bounding_box(grid) {
        None => {
            push_header(&mut out, 0, 0);
            out.push('!');
            out.push('\n');
            proof {
                assert(out@ =~= encode_spec(m));
            }
            return string_from_chars(out);
        },
        Some(b) => b,
    };
    let ghost b = (min_x as int, min_y as int, max_x as int, max_y as int);
    let w = max_x - min_x + 1;
    let h = max_y - min_y + 1;
    let mut toks: Vec<(usize, char)> = Vec::new();
    let mut r: usize = 0;
    proof {
        assert(tokens_view(toks@) =~= rows_tokens(m, b.0, b.1, w as int, 0));
    }
    while r < h
        invariant
            grid.wf(),
            grid@ == m,
            w == max_x - min_x + 1,
            h == max_y - min_y + 1,
            min_x <= max_x < m.width,
            min_y <= max_y < m.height,
            b == (min_x as int, min_y as int, max_x as int, max_y as int),
            r <= h,
            tokens_view(toks@) == rows_tokens(m, b.0, b.1, w as int, r as int),
        decreases h - r,
    {
        push_row_tokens(grid, &mut toks, min_x, min_y + r, w);
        r = r + 1;
    }
    while toks.len() > 0 && toks[toks.len() - 1].1 == '$'
        invariant
            strip_trailing(rows_tokens(m, b.0, b.1, w as int, h as int), '$') == strip_trailing(
                tokens_view(toks@),
                '$',
            ),
        decreases toks.len(),
    {
        proof {
            assert(tokens_view(toks@).drop_last() =~= tokens_view(toks@.drop_last()));
        }
        toks.pop();
    }
    proof {
        assert(strip_trailing(tokens_view(toks@), '$') == tokens_view(toks@));
    }
    toks.push((1, '!'));
    let ghost all = pattern_tokens(m, b);
    proof {
        assert(tokens_view(toks@) =~= tokens_view(toks@.drop_last()).push((1nat, '!')));
        assert(tokens_view(toks@) == all);
    }
    push_header(&mut out, w, h);
    let ghost head = out@;
    let n = toks.len();
    let mut line_len: usize = 0;
    let mut i: usize = 0;
    proof {
        assert(tokens_view(toks@).skip(0) =~= tokens_view(toks@));
        assert(out@ + wrap_tokens(all, 0) =~= head + wrap_tokens(all, 0));
    }
    while i < n
        invariant
            n == toks@.len(),
            i <= n,
            tokens_view(toks@) == all,
            head + wrap_tokens(all, 0) == out@ + wrap_tokens(all.skip(i as int), line_len as int),
        decreases n - i,
    {
        let (count, c) = toks[i];
        let t = token_chars(count, c);
        let tl = t.len();
        let ghost rest = all.skip(i as int);
        proof {
            assert(rest[0] == (count as nat, c));
            assert(rest.drop_first() =~= all.skip(i + 1));
        }
        if tl > LINE_LIMIT || line_len > LINE_LIMIT - tl {
            let ghost before = out@;
            out.push('\n');
            push_chars(&mut out, t.as_slice());
            line_len = tl;
            proof {
                assert(out@ + wrap_tokens(all.skip(i + 1), line_len as int) =~= before + (seq!['\n']
                    + t@ + wrap_tokens(all.skip(i + 1), line_len as int)));
            }
        } else {
            let ghost before = out@;
            push_chars(&mut out, t.as_slice());
            line_len = line_len + tl;
            proof {
                assert(out@ + wrap_tokens(all.skip(i + 1), line_len as int) =~= before + (t@
                    + wrap_tokens(all.skip(i + 1), line_len as int)));
            }
        }
        i = i + 1;
    }
    out.push('\n');
    proof {
        assert(all.skip(n as int) =~= Seq::<(nat, char)>::empty());
        assert(out@ =~= head + wrap_tokens(all, 0) + seq!['\n']);
        assert(bounds(m) == Some(b));
    }
    string_from_chars(out)
}

} // verus!
