//! Reading back what was written: decoding the RLE document of a grid gives
//! the live cells of its bounding box.
use vstd::prelude::*;
use crate::grid::GridModel;
use crate::rle::{
    body_of, bounds, cell_char, decode_char, decode_run, decode_spec, encode_spec, header,
    is_bounding_box, is_comment, is_header, lines_from, line_step, pattern_tokens, row_chars,
    row_tokens, rows_tokens, run_cells, runs, start_state, strip_cr, strip_trailing, text_lines,
    token_text, trim_start, wrap_tokens, DecodeOutcome, DecodeState, Decoding,
};
use crate::text::{decimal, digits_value, is_digit, is_white_space, lemma_decimal_value};

verus! {

/// The live cells of a row given as characters, as cells of row `y`, in order.
pub open spec fn row_cells(cs: Seq<char>, y: int) -> Seq<(i32, i32)>
    decreases cs.len(),
{
    if cs.len() == 0 {
        seq![]
    } else {
        row_cells(cs.drop_last(), y) + if cs.last() == 'o' {
            seq![((cs.len() - 1) as i32, y as i32)]
        } else {
            seq![]
        }
    }
}

/// The live cells of the first `rows` rows of box `b`, relative to its
/// top-left corner, row by row.
pub open spec fn box_cells(m: GridModel, b: (int, int, int, int), rows: int) -> Seq<(i32, i32)>
    decreases rows,
{
    if rows <= 0 {
        seq![]
    } else {
        box_cells(m, b, rows - 1) + row_cells(row_chars(m, b.0, b.1 + rows - 1, b.2 - b.0 + 1), rows - 1)
    }
}

/// The live cells of a grid relative to the top-left corner of their
/// bounding box, row by row and left to right.
pub open spec fn live_cells(m: GridModel) -> Seq<(i32, i32)> {
    match bounds(m) {
        None => seq![],
        Some(b) => box_cells(m, b, b.3 - b.1 + 1),
    }
}

spec fn repeat(c: char, n: nat) -> Seq<char> {
    Seq::new(n, |i: int| c)
}

/// The characters that a list of runs stands for.
spec fn expand(rs: Seq<(nat, char)>) -> Seq<char>
    decreases rs.len(),
{
    if rs.len() == 0 {
        seq![]
    } else {
        expand(rs.drop_last()) + repeat(rs.last().1, rs.last().0)
    }
}

/// Tokens as text, without line breaks.
spec fn tokens_text(ts: Seq<(nat, char)>) -> Seq<char>
    decreases ts.len(),
{
    if ts.len() == 0 {
        seq![]
    } else {
        tokens_text(ts.drop_last()) + token_text(ts.last())
    }
}

spec fn without_newlines(s: Seq<char>) -> Seq<char>
    decreases s.len(),
{
    if s.len() == 0 {
        seq![]
    } else if s[0] == '\n' {
        without_newlines(s.drop_first())
    } else {
        seq![s[0]] + without_newlines(s.drop_first())
    }
}

spec fn is_token_char(c: char) -> bool {
    is_digit(c) || c == 'o' || c == 'b' || c == '$' || c == '!'
}

spec fn all_token_chars(s: Seq<char>) -> bool {
    forall|i: int| 0 <= i < s.len() ==> is_token_char(#[trigger] s[i])
}

/// The state after one token, when decoding it succeeds.
spec fn apply_token(st: DecodeState, t: (nat, char)) -> DecodeState {
    if t.1 == 'o' {
        DecodeState { x: st.x + t.0, cells: st.cells + run_cells(st.x, st.y, t.0 as int), digits: seq![], ..st }
    } else if t.1 == 'b' {
        DecodeState { x: st.x + t.0, digits: seq![], ..st }
    } else {
        DecodeState { x: 0, y: st.y + t.0, digits: seq![], ..st }
    }
}

// ---------------------------------------------------------------------------
// Decoding, piece by piece
// ---------------------------------------------------------------------------

pub(crate) proof fn lemma_decode_append(st: DecodeState, a: Seq<char>, b: Seq<char>)
    ensures
        decode_run(st, a + b) == match decode_run(st, a) {
            Decoding::Running(s2) => decode_run(s2, b),
            other => other,
        },
    decreases a.len(),
{
    if a.len() == 0 {
        assert(a + b =~= b);
    } else {
        assert((a + b).drop_first() =~= a.drop_first() + b);
        assert((a + b)[0] == a[0]);
        match decode_char(st, a[0]) {
            Decoding::Running(next) => {
                lemma_decode_append(next, a.drop_first(), b);
            },
            _ => {},
        }
    }
}

proof fn lemma_decode_digits(st: DecodeState, ds: Seq<char>)
    requires
        forall|i: int| 0 <= i < ds.len() ==> is_digit(#[trigger] ds[i]),
    ensures
        decode_run(st, ds) == Decoding::Running(DecodeState { digits: st.digits + ds, ..st }),
    decreases ds.len(),
{
    if ds.len() == 0 {
        assert(st.digits + ds =~= st.digits);
    } else {
        assert(is_digit(ds[0]));
        let next = DecodeState { digits: st.digits.push(ds[0]), ..st };
        lemma_decode_digits(next, ds.drop_first());
        assert(next.digits + ds.drop_first() =~= st.digits + ds);
    }
}

proof fn lemma_decode_token(st: DecodeState, t: (nat, char))
    requires
        st.digits.len() == 0,
        t.1 == 'o' || t.1 == 'b' || t.1 == '$',
        t.0 <= i32::MAX,
        t.1 == 'o' || t.1 == 'b' ==> st.x + t.0 <= i32::MAX,
        t.1 == '$' ==> st.y + t.0 <= i32::MAX,
    ensures
        decode_run(st, token_text(t)) == Decoding::Running(apply_token(st, t)),
{
    let c = t.1;
    if t.0 == 1 {
        assert(token_text(t).drop_first() =~= Seq::<char>::empty());
        assert(decode_run(apply_token(st, t), Seq::<char>::empty()) == Decoding::Running(apply_token(st, t)));
        assert(decode_char(st, c) == Decoding::Running(apply_token(st, t)));
    } else {
        let ds = decimal(t.0);
        lemma_decimal_value(t.0);
        lemma_decode_append(st, ds, seq![c]);
        lemma_decode_digits(st, ds);
        let s2 = DecodeState { digits: st.digits + ds, ..st };
        assert(st.digits + ds =~= ds);
        assert(seq![c].drop_first() =~= Seq::<char>::empty());
        assert(decode_char(s2, c) == Decoding::Running(apply_token(st, t)));
    }
}

proof fn lemma_tokens_text_append(a: Seq<(nat, char)>, b: Seq<(nat, char)>)
    ensures
        tokens_text(a + b) == tokens_text(a) + tokens_text(b),
    decreases b.len(),
{
    if b.len() == 0 {
        assert(a + b =~= a);
        assert(tokens_text(a) + tokens_text(b) =~= tokens_text(a));
    } else {
        lemma_tokens_text_append(a, b.drop_last());
        assert((a + b).drop_last() =~= a + b.drop_last());
        assert((a + b).last() == b.last());
        assert(tokens_text(a + b) =~= tokens_text(a) + tokens_text(b));
    }
}

proof fn lemma_row_cells_live_run(e: Seq<char>, y: int, n: nat)
    ensures
        row_cells(e + repeat('o', n), y) == row_cells(e, y) + run_cells(e.len() as int, y, n as int),
    decreases n,
{
    if n == 0 {
        assert(e + repeat('o', 0) =~= e);
        assert(row_cells(e, y) + run_cells(e.len() as int, y, 0) =~= row_cells(e, y));
    } else {
        lemma_row_cells_live_run(e, y, (n - 1) as nat);
        let s = e + repeat('o', n);
        assert(s.drop_last() =~= e + repeat('o', (n - 1) as nat));
        assert(s.last() == 'o');
        assert(row_cells(e, y) + run_cells(e.len() as int, y, n as int) =~= row_cells(e, y)
            + run_cells(e.len() as int, y, n - 1) + seq![((s.len() - 1) as i32, y as i32)]);
    }
}

proof fn lemma_row_cells_dead_run(e: Seq<char>, y: int, n: nat)
    ensures
        row_cells(e + repeat('b', n), y) == row_cells(e, y),
    decreases n,
{
    if n == 0 {
        assert(e + repeat('b', 0) =~= e);
    } else {
        lemma_row_cells_dead_run(e, y, (n - 1) as nat);
        let s = e + repeat('b', n);
        assert(s.drop_last() =~= e + repeat('b', (n - 1) as nat));
        assert(row_cells(s, y) =~= row_cells(s.drop_last(), y));
    }
}

spec fn runs_of_cells(rs: Seq<(nat, char)>) -> bool {
    forall|i: int| 0 <= i < rs.len() ==> (#[trigger] rs[i]).1 == 'o' || rs[i].1 == 'b'
}

/// Decoding the runs of a row from its start reaches the end of the runs
/// and adds the row's live cells.
proof fn lemma_decode_runs(rs: Seq<(nat, char)>, y: int, cells: Seq<(i32, i32)>)
    requires
        runs_of_cells(rs),
        expand(rs).len() <= i32::MAX,
        0 <= y,
    ensures
        decode_run(DecodeState { x: 0, y, digits: seq![], cells }, tokens_text(rs)) == Decoding::Running(
            DecodeState { x: expand(rs).len() as int, y, digits: seq![], cells: cells + row_cells(expand(rs), y) },
        ),
    decreases rs.len(),
{
    let st = DecodeState { x: 0, y, digits: seq![], cells };
    if rs.len() == 0 {
        assert(cells + row_cells(expand(rs), y) =~= cells);
    } else {
        let prev = rs.drop_last();
        let t = rs.last();
        assert(runs_of_cells(prev));
        assert(t == rs[rs.len() - 1]);
        let e = expand(prev);
        assert(expand(rs) == e + repeat(t.1, t.0));
        lemma_decode_runs(prev, y, cells);
        lemma_decode_append(st, tokens_text(prev), token_text(t));
        let mid = DecodeState { x: e.len() as int, y, digits: seq![], cells: cells + row_cells(e, y) };
        lemma_decode_token(mid, t);
        if t.1 == 'o' {
            lemma_row_cells_live_run(e, y, t.0);
            assert(cells + row_cells(expand(rs), y) =~= cells + row_cells(e, y) + run_cells(
                e.len() as int,
                y,
                t.0 as int,
            ));
        } else {
            lemma_row_cells_dead_run(e, y, t.0);
        }
    }
}

proof fn lemma_expand_runs(cs: Seq<char>)
    ensures
        expand(runs(cs)) == cs,
        forall|i: int|
            0 <= i < runs(cs).len() ==> exists|j: int| 0 <= j < cs.len() && cs[j] == (#[trigger] runs(cs)[i]).1,
    decreases cs.len(),
{
    if cs.len() > 0 {
        let p = cs.drop_last();
        let c = cs.last();
        let r = runs(p);
        lemma_expand_runs(p);
        if r.len() > 0 && r.last().1 == c {
            let k = r.last().0;
            let u = r.update(r.len() - 1, ((k + 1) as nat, c));
            assert(u.drop_last() =~= r.drop_last());
            assert(repeat(c, (k + 1) as nat) =~= repeat(c, k).push(c));
            assert(u.last() == ((k + 1) as nat, c));
            assert(expand(r) == expand(r.drop_last()) + repeat(c, k));
            assert(expand(u) == expand(r.drop_last()) + repeat(c, (k + 1) as nat));
            assert(cs =~= p.push(c));
            assert(expand(u) =~= cs);
            assert forall|i: int| 0 <= i < u.len() implies exists|j: int|
                0 <= j < cs.len() && cs[j] == (#[trigger] u[i]).1 by {
                if i == u.len() - 1 {
                    assert(cs[cs.len() - 1] == u[i].1);
                } else {
                    let j = choose|j: int| 0 <= j < p.len() && p[j] == r[i].1;
                    assert(cs[j] == u[i].1);
                }
            }
        } else {
            let u = r.push((1nat, c));
            assert(u.drop_last() =~= r);
            assert(repeat(c, 1) =~= seq![c]);
            assert(expand(u) =~= cs);
            assert forall|i: int| 0 <= i < u.len() implies exists|j: int|
                0 <= j < cs.len() && cs[j] == (#[trigger] u[i]).1 by {
                if i == u.len() - 1 {
                    assert(cs[cs.len() - 1] == u[i].1);
                } else {
                    let j = choose|j: int| 0 <= j < p.len() && p[j] == r[i].1;
                    assert(cs[j] == u[i].1);
                }
            }
        }
    } else {
        assert(expand(runs(cs)) =~= cs);
    }
}

/// Removing the dead run at the end keeps the live cells.
proof fn lemma_strip_dead(rs: Seq<(nat, char)>, y: int)
    requires
        runs_of_cells(rs),
    ensures
        runs_of_cells(strip_trailing(rs, 'b')),
        row_cells(expand(strip_trailing(rs, 'b')), y) == row_cells(expand(rs), y),
        expand(strip_trailing(rs, 'b')).len() <= expand(rs).len(),
    decreases rs.len(),
{
    if rs.len() > 0 && rs.last().1 == 'b' {
        let p = rs.drop_last();
        assert(runs_of_cells(p));
        lemma_strip_dead(p, y);
        lemma_row_cells_dead_run(expand(p), y, rs.last().0);
    }
}

proof fn lemma_row_chars_cells(m: GridModel, x0: int, y: int, w: int)
    requires
        w >= 0,
    ensures
        runs_of_cells(runs(row_chars(m, x0, y, w))),
        row_chars(m, x0, y, w).len() == w,
{
    let cs = row_chars(m, x0, y, w);
    lemma_expand_runs(cs);
    assert forall|i: int| 0 <= i < runs(cs).len() implies (#[trigger] runs(cs)[i]).1 == 'o' || runs(
        cs,
    )[i].1 == 'b' by {
        let j = choose|j: int| 0 <= j < cs.len() && cs[j] == runs(cs)[i].1;
    }
}

/// Decoding the tokens of one row moves to the start of the next row and
/// adds the row's live cells.
proof fn lemma_decode_row(m: GridModel, x0: int, y0: int, w: int, r: int, cells: Seq<(i32, i32)>)
    requires
        0 <= w <= i32::MAX,
        0 <= r,
        r + 1 <= i32::MAX,
    ensures
        decode_run(DecodeState { x: 0, y: r, digits: seq![], cells }, tokens_text(row_tokens(m, x0, y0 + r, w)))
            == Decoding::Running(
            DecodeState {
                x: 0,
                y: r + 1,
                digits: seq![],
                cells: cells + row_cells(row_chars(m, x0, y0 + r, w), r),
            },
        ),
{
    let cs = row_chars(m, x0, y0 + r, w);
    lemma_row_chars_cells(m, x0, y0 + r, w);
    lemma_expand_runs(cs);
    let rs = strip_trailing(runs(cs), 'b');
    lemma_strip_dead(runs(cs), r);
    lemma_decode_runs(rs, r, cells);
    let st = DecodeState { x: 0, y: r, digits: seq![], cells };
    let toks = row_tokens(m, x0, y0 + r, w);
    assert(toks.drop_last() =~= rs);
    lemma_decode_append(st, tokens_text(rs), token_text((1nat, '$')));
    let mid = DecodeState {
        x: expand(rs).len() as int,
        y: r,
        digits: seq![],
        cells: cells + row_cells(expand(rs), r),
    };
    lemma_decode_token(mid, (1nat, '$'));
}

proof fn lemma_decode_rows(m: GridModel, b: (int, int, int, int), k: int)
    requires
        0 <= b.2 - b.0 + 1 <= i32::MAX,
        0 <= k <= i32::MAX,
    ensures
        decode_run(start_state(), tokens_text(rows_tokens(m, b.0, b.1, b.2 - b.0 + 1, k))) == Decoding::Running(
            DecodeState { x: 0, y: k, digits: seq![], cells: box_cells(m, b, k) },
        ),
    decreases k,
{
    let w = b.2 - b.0 + 1;
    if k <= 0 {
        assert(tokens_text(rows_tokens(m, b.0, b.1, w, k)) =~= Seq::<char>::empty());
        assert(start_state() == DecodeState { x: 0, y: k, digits: seq![], cells: box_cells(m, b, k) });
    } else {
        lemma_decode_rows(m, b, k - 1);
        lemma_tokens_text_append(rows_tokens(m, b.0, b.1, w, k - 1), row_tokens(m, b.0, b.1 + k - 1, w));
        lemma_decode_append(
            start_state(),
            tokens_text(rows_tokens(m, b.0, b.1, w, k - 1)),
            tokens_text(row_tokens(m, b.0, b.1 + k - 1, w)),
        );
        lemma_decode_row(m, b.0, b.1, w, k - 1, box_cells(m, b, k - 1));
        assert(b.1 + (k - 1) == b.1 + k - 1);
    }
}

spec fn tokens_of_rows(ts: Seq<(nat, char)>) -> bool {
    forall|i: int| 0 <= i < ts.len() ==> (#[trigger] ts[i]).1 == 'o' || ts[i].1 == 'b' || ts[i].1 == '$'
}

proof fn lemma_rows_tokens_chars(m: GridModel, x0: int, y0: int, w: int, k: int)
    requires
        w >= 0,
    ensures
        tokens_of_rows(rows_tokens(m, x0, y0, w, k)),
    decreases k,
{
    if k > 0 {
        lemma_rows_tokens_chars(m, x0, y0, w, k - 1);
        let y = y0 + k - 1;
        lemma_row_chars_cells(m, x0, y, w);
        lemma_strip_dead(runs(row_chars(m, x0, y, w)), 0);
        let a = rows_tokens(m, x0, y0, w, k - 1);
        let r = row_tokens(m, x0, y, w);
        assert forall|i: int| 0 <= i < (a + r).len() implies (#[trigger] (a + r)[i]).1 == 'o' || (a
            + r)[i].1 == 'b' || (a + r)[i].1 == '$' by {
            if i < a.len() {
                assert((a + r)[i] == a[i]);
            } else {
                assert((a + r)[i] == r[i - a.len()]);
            }
        }
    }
}

proof fn lemma_strip_split(ts: Seq<(nat, char)>, c: char)
    ensures
        strip_trailing(ts, c) == ts.take(strip_trailing(ts, c).len() as int),
        strip_trailing(ts, c).len() <= ts.len(),
        forall|i: int| strip_trailing(ts, c).len() <= i < ts.len() ==> (#[trigger] ts[i]).1 == c,
        strip_trailing(ts, c).len() > 0 ==> strip_trailing(ts, c).last().1 != c,
    decreases ts.len(),
{
    if ts.len() > 0 && ts.last().1 == c {
        lemma_strip_split(ts.drop_last(), c);
        let k = strip_trailing(ts, c).len() as int;
        assert(ts.drop_last().take(k) =~= ts.take(k));
        assert forall|i: int| k <= i < ts.len() implies (#[trigger] ts[i]).1 == c by {
            if i < ts.len() - 1 {
                assert(ts[i] == ts.drop_last()[i]);
            }
        }
    } else {
        assert(ts.take(ts.len() as int) =~= ts);
    }
}

proof fn lemma_text_of_row_ends(d: Seq<(nat, char)>)
    requires
        forall|i: int| 0 <= i < d.len() ==> (#[trigger] d[i]).1 == '$',
    ensures
        forall|i: int| 0 <= i < tokens_text(d).len() ==> #[trigger] tokens_text(d)[i] != 'o',
    decreases d.len(),
{
    if d.len() > 0 {
        let p = d.drop_last();
        lemma_text_of_row_ends(p);
        let t = d.last();
        assert(t == d[d.len() - 1]);
        lemma_decimal_value(t.0);
        let a = tokens_text(p);
        let b = token_text(t);
        assert forall|i: int| 0 <= i < (a + b).len() implies #[trigger] (a + b)[i] != 'o' by {
            if i < a.len() {
                assert((a + b)[i] == a[i]);
            } else {
                let j = i - a.len();
                assert((a + b)[i] == b[j]);
                if t.0 != 1 && j < decimal(t.0).len() {
                    assert(b[j] == decimal(t.0)[j]);
                }
            }
        }
    }
}

proof fn lemma_decode_keeps_cells(st: DecodeState, s: Seq<char>)
    requires
        forall|i: int| 0 <= i < s.len() ==> #[trigger] s[i] != 'o',
        decode_run(st, s) is Running,
    ensures
        decode_run(st, s)->Running_0.cells == st.cells,
    decreases s.len(),
{
    if s.len() > 0 {
        assert(s[0] != 'o');
        match decode_char(st, s[0]) {
            Decoding::Running(next) => {
                assert(next.cells == st.cells);
                lemma_decode_keeps_cells(next, s.drop_first());
            },
            _ => {},
        }
    }
}

proof fn lemma_decode_clears_digits(st: DecodeState, s: Seq<char>)
    requires
        s.len() > 0,
        !is_digit(s.last()),
        decode_run(st, s) is Running,
    ensures
        decode_run(st, s)->Running_0.digits.len() == 0,
{
    let p = s.drop_last();
    assert(p + seq![s.last()] =~= s);
    lemma_decode_append(st, p, seq![s.last()]);
    assert(seq![s.last()].drop_first() =~= Seq::<char>::empty());
    assert(seq![s.last()][0] == s.last());
    match decode_run(st, p) {
        Decoding::Running(s1) => {
            match decode_char(s1, s.last()) {
                Decoding::Running(n) => {
                    assert(decode_run(n, Seq::<char>::empty()) == Decoding::Running(n));
                    assert(n.digits.len() == 0);
                },
                _ => {},
            }
        },
        _ => {},
    }
}

/// Decoding the pattern data of a box stops at `!` with the box's live cells.
proof fn lemma_decode_pattern(m: GridModel, b: (int, int, int, int))
    requires
        0 <= b.2 - b.0 + 1 <= i32::MAX,
        0 <= b.3 - b.1 + 1 <= i32::MAX,
    ensures
        decode_run(start_state(), tokens_text(pattern_tokens(m, b))) is Done,
        decode_run(start_state(), tokens_text(pattern_tokens(m, b)))->Done_0.cells == box_cells(
            m,
            b,
            b.3 - b.1 + 1,
        ),
{
    let w = b.2 - b.0 + 1;
    let h = b.3 - b.1 + 1;
    let all = rows_tokens(m, b.0, b.1, w, h);
    let p = strip_trailing(all, '$');
    let k = p.len() as int;
    let d = all.skip(k);
    lemma_strip_split(all, '$');
    lemma_rows_tokens_chars(m, b.0, b.1, w, h);
    assert(all =~= p + d);
    assert forall|i: int| 0 <= i < d.len() implies (#[trigger] d[i]).1 == '$' by {
        assert(d[i] == all[i + k]);
    }
    lemma_decode_rows(m, b, h);
    lemma_tokens_text_append(p, d);
    lemma_decode_append(start_state(), tokens_text(p), tokens_text(d));
    let sp = decode_run(start_state(), tokens_text(p))->Running_0;
    lemma_text_of_row_ends(d);
    lemma_decode_keeps_cells(sp, tokens_text(d));
    assert(sp.cells == box_cells(m, b, h));
    if k > 0 {
        assert(p.last() == all[k - 1]);
        let lt = p.last();
        assert(tokens_text(p) == tokens_text(p.drop_last()) + token_text(lt));
        assert(token_text(lt).last() == lt.1);
        assert(tokens_text(p).last() == lt.1);
        lemma_decode_clears_digits(start_state(), tokens_text(p));
    } else {
        assert(tokens_text(p) =~= Seq::<char>::empty());
    }
    let pt = pattern_tokens(m, b);
    assert(pt.drop_last() =~= p);
    lemma_decode_append(start_state(), tokens_text(p), token_text((1nat, '!')));
    assert(token_text((1nat, '!')) =~= seq!['!']);
}

// ---------------------------------------------------------------------------
// From the document to its pattern data
// ---------------------------------------------------------------------------

proof fn lemma_lines_line_end(cur: Seq<char>, a: Seq<char>, rest: Seq<char>)
    requires
        forall|i: int| 0 <= i < a.len() ==> #[trigger] a[i] != '\n',
    ensures
        lines_from(cur, a + seq!['\n'] + rest) == seq![strip_cr(cur + a)] + lines_from(seq![], rest),
    decreases a.len(),
{
    let t = a + seq!['\n'] + rest;
    if a.len() == 0 {
        assert(t.drop_first() =~= rest);
        assert(t[0] == '\n');
        assert(cur + a =~= cur);
    } else {
        assert(t[0] == a[0]);
        assert(a[0] != '\n');
        assert(t.drop_first() =~= a.drop_first() + seq!['\n'] + rest);
        lemma_lines_line_end(cur.push(a[0]), a.drop_first(), rest);
        assert(cur.push(a[0]) + a.drop_first() =~= cur + a);
    }
}

spec fn text_chars(s: Seq<char>) -> bool {
    forall|i: int| 0 <= i < s.len() ==> is_token_char(#[trigger] s[i]) || s[i] == '\n'
}

proof fn lemma_token_line(line: Seq<char>)
    requires
        all_token_chars(line),
    ensures
        line_step(line, true) == (line, false),
        line_step(line, false) == (line, false),
        strip_cr(line) == line,
{
    if line.len() > 0 {
        assert(is_token_char(line[0]));
        assert(is_token_char(line.last()));
        assert(trim_start(line) == line);
    } else {
        assert(trim_start(line) == line);
    }
}

/// Lines made of token characters are all pattern data, whatever came before.
proof fn lemma_body_of_token_text(cur: Seq<char>, t: Seq<char>, in_header: bool)
    requires
        all_token_chars(cur),
        text_chars(t),
    ensures
        body_of(lines_from(cur, t), in_header) == cur + without_newlines(t),
    decreases t.len(),
{
    lemma_token_line(cur);
    if t.len() == 0 {
        if cur.len() == 0 {
            assert(cur + without_newlines(t) =~= Seq::<char>::empty());
        } else {
            crate::rle::lemma_body_of_cons(cur, seq![], in_header);
            assert(seq![cur] + Seq::<Seq<char>>::empty() =~= seq![cur]);
            assert(cur + without_newlines(t) =~= cur);
            assert(cur + body_of(Seq::<Seq<char>>::empty(), false) =~= cur);
        }
    } else {
        let rest = t.drop_first();
        assert(text_chars(rest)) by {
            assert forall|i: int| 0 <= i < rest.len() implies is_token_char(#[trigger] rest[i]) || rest[i]
                == '\n' by {
                assert(rest[i] == t[i + 1]);
            }
        }
        assert(is_token_char(t[0]) || t[0] == '\n');
        if t[0] == '\n' {
            lemma_body_of_token_text(seq![], rest, false);
            crate::rle::lemma_body_of_cons(cur, lines_from(seq![], rest), in_header);
            assert(cur + without_newlines(t) =~= cur + (Seq::<char>::empty() + without_newlines(rest)));
        } else {
            let c2 = cur.push(t[0]);
            assert(all_token_chars(c2)) by {
                assert forall|i: int| 0 <= i < c2.len() implies is_token_char(#[trigger] c2[i]) by {
                    if i < cur.len() {
                        assert(c2[i] == cur[i]);
                    }
                }
            }
            lemma_body_of_token_text(c2, rest, in_header);
            assert(c2 + without_newlines(rest) =~= cur + without_newlines(t));
        }
    }
}

proof fn lemma_without_newlines_append(a: Seq<char>, b: Seq<char>)
    ensures
        without_newlines(a + b) == without_newlines(a) + without_newlines(b),
    decreases a.len(),
{
    if a.len() == 0 {
        assert(a + b =~= b);
        assert(without_newlines(a) + without_newlines(b) =~= without_newlines(b));
    } else {
        lemma_without_newlines_append(a.drop_first(), b);
        assert((a + b).drop_first() =~= a.drop_first() + b);
        assert((a + b)[0] == a[0]);
        if a[0] != '\n' {
            assert(seq![a[0]] + (without_newlines(a.drop_first()) + without_newlines(b)) =~= seq![a[0]]
                + without_newlines(a.drop_first()) + without_newlines(b));
        }
    }
}

proof fn lemma_newline_only()
    ensures
        without_newlines(seq!['\n']) == Seq::<char>::empty(),
{
    assert(seq!['\n'].drop_first() =~= Seq::<char>::empty());
    assert(seq!['\n'][0] == '\n');
    assert(without_newlines(Seq::<char>::empty()) == Seq::<char>::empty());
}

proof fn lemma_without_newlines_tokens(s: Seq<char>)
    requires
        all_token_chars(s),
    ensures
        without_newlines(s) == s,
    decreases s.len(),
{
    if s.len() > 0 {
        assert(is_token_char(s[0]));
        assert(all_token_chars(s.drop_first())) by {
            assert forall|i: int| 0 <= i < s.drop_first().len() implies is_token_char(
                #[trigger] s.drop_first()[i],
            ) by {
                assert(s.drop_first()[i] == s[i + 1]);
            }
        }
        lemma_without_newlines_tokens(s.drop_first());
        assert(seq![s[0]] + s.drop_first() =~= s);
    }
}

spec fn pattern_token_chars(ts: Seq<(nat, char)>) -> bool {
    forall|i: int|
        0 <= i < ts.len() ==> (#[trigger] ts[i]).1 == 'o' || ts[i].1 == 'b' || ts[i].1 == '$' || ts[i].1
            == '!'
}

proof fn lemma_token_text_chars(t: (nat, char))
    requires
        t.1 == 'o' || t.1 == 'b' || t.1 == '$' || t.1 == '!',
    ensures
        all_token_chars(token_text(t)),
        token_text(t).len() > 0,
        token_text(t).last() == t.1,
{
    lemma_decimal_value(t.0);
    let tt = token_text(t);
    assert forall|i: int| 0 <= i < tt.len() implies is_token_char(#[trigger] tt[i]) by {
        if t.0 != 1 && i < decimal(t.0).len() {
            assert(tt[i] == decimal(t.0)[i]);
        }
    }
}

proof fn lemma_wrap_tokens(ts: Seq<(nat, char)>, line_len: int)
    requires
        pattern_token_chars(ts),
    ensures
        text_chars(wrap_tokens(ts, line_len)),
        without_newlines(wrap_tokens(ts, line_len)) == tokens_text(ts),
    decreases ts.len(),
{
    if ts.len() == 0 {
        assert(tokens_text(ts) =~= Seq::<char>::empty());
    } else {
        let t = ts[0];
        let rest = ts.drop_first();
        let tt = token_text(t);
        assert(pattern_token_chars(rest)) by {
            assert forall|i: int| 0 <= i < rest.len() implies (#[trigger] rest[i]).1 == 'o' || rest[i].1
                == 'b' || rest[i].1 == '$' || rest[i].1 == '!' by {
                assert(rest[i] == ts[i + 1]);
            }
        }
        lemma_token_text_chars(t);
        lemma_without_newlines_tokens(tt);
        let next_len = if line_len + tt.len() > 70 {
            tt.len() as int
        } else {
            line_len + tt.len()
        };
        lemma_wrap_tokens(rest, next_len);
        let wr = wrap_tokens(rest, next_len);
        assert(ts =~= seq![t] + rest);
        lemma_tokens_text_append(seq![t], rest);
        assert(seq![t].drop_last() =~= Seq::<(nat, char)>::empty());
        assert(seq![t].last() == t);
        assert(tokens_text(Seq::<(nat, char)>::empty()) =~= Seq::<char>::empty());
        assert(tokens_text(seq![t]) =~= tt);
        lemma_without_newlines_append(tt, wr);
        if line_len + tt.len() > 70 {
            lemma_without_newlines_append(seq!['\n'], tt + wr);
            assert(seq!['\n'] + tt + wr =~= seq!['\n'] + (tt + wr));
            lemma_newline_only();
            assert(without_newlines(seq!['\n']) + (tt + without_newlines(wr)) =~= tt + without_newlines(wr));
        }
        let all = wrap_tokens(ts, line_len);
        assert forall|i: int| 0 <= i < all.len() implies is_token_char(#[trigger] all[i]) || all[i] == '\n' by {
            if line_len + tt.len() > 70 {
                if i == 0 {
                } else if i < 1 + tt.len() {
                    assert(all[i] == tt[i - 1]);
                } else {
                    assert(all[i] == wr[i - 1 - tt.len()]);
                }
            } else {
                if i < tt.len() {
                    assert(all[i] == tt[i]);
                } else {
                    assert(all[i] == wr[i - tt.len()]);
                }
            }
        }
    }
}

proof fn lemma_header_line(w: nat, h: nat)
    ensures
        header(w, h) == header(w, h).drop_last() + seq!['\n'],
        forall|i: int| 0 <= i < header(w, h).drop_last().len() ==> #[trigger] header(w, h).drop_last()[i] != '\n',
        is_header(header(w, h).drop_last()),
        !is_comment(header(w, h).drop_last()),
        strip_cr(header(w, h).drop_last()) == header(w, h).drop_last(),
{
    let hd = header(w, h);
    let hl = hd.drop_last();
    lemma_decimal_value(w);
    lemma_decimal_value(h);
    assert(hd =~= hl + seq!['\n']);
    let dw = decimal(w);
    let dh = decimal(h);
    assert forall|i: int| 0 <= i < hl.len() implies #[trigger] hl[i] != '\n' by {
        let a: int = 4;
        let b: int = a + dw.len();
        let c: int = b + 6;
        let d: int = c + dh.len();
        if a <= i < b {
            assert(hl[i] == dw[i - a]);
        } else if c <= i < d {
            assert(hl[i] == dh[i - c]);
        }
    }
    assert(hl[0] == 'x');
    assert(!is_white_space('x'));
    assert(trim_start(hl) == hl);
}

/// The pattern data read back from a written document are the tokens
/// written, as text.
proof fn lemma_document_body(w: nat, h: nat, ts: Seq<(nat, char)>)
    requires
        pattern_token_chars(ts),
    ensures
        crate::rle::rle_body(header(w, h) + wrap_tokens(ts, 0) + seq!['\n']) == tokens_text(ts),
{
    let hl = header(w, h).drop_last();
    lemma_header_line(w, h);
    let wr = wrap_tokens(ts, 0);
    let r = wr + seq!['\n'];
    let doc = header(w, h) + wr + seq!['\n'];
    assert(doc =~= hl + seq!['\n'] + r);
    lemma_lines_line_end(seq![], hl, r);
    assert(Seq::<char>::empty() + hl =~= hl);
    assert(text_lines(doc) == seq![hl] + lines_from(seq![], r));
    crate::rle::lemma_body_of_cons(hl, lines_from(seq![], r), true);
    lemma_wrap_tokens(ts, 0);
    assert(text_chars(r)) by {
        assert forall|i: int| 0 <= i < r.len() implies is_token_char(#[trigger] r[i]) || r[i] == '\n' by {
            if i < wr.len() {
                assert(r[i] == wr[i]);
            }
        }
    }
    assert(all_token_chars(Seq::<char>::empty()));
    lemma_body_of_token_text(seq![], r, true);
    lemma_without_newlines_append(wr, seq!['\n']);
    lemma_newline_only();
    assert(Seq::<char>::empty() + without_newlines(r) =~= tokens_text(ts));
    assert(Seq::<char>::empty() + body_of(lines_from(seq![], r), true) =~= body_of(lines_from(seq![], r), true));
}

// ---------------------------------------------------------------------------
// The bounding box exists
// ---------------------------------------------------------------------------

proof fn lemma_least(p: spec_fn(int) -> bool, n: int) -> (k: int)
    requires
        exists|i: int| 0 <= i < n && #[trigger] p(i),
    ensures
        0 <= k < n,
        p(k),
        forall|j: int| 0 <= j < k ==> !#[trigger] p(j),
    decreases n,
{
    if exists|i: int| 0 <= i < n - 1 && #[trigger] p(i) {
        lemma_least(p, n - 1)
    } else {
        let i = choose|i: int| 0 <= i < n && #[trigger] p(i);
        assert(i == n - 1);
        n - 1
    }
}

proof fn lemma_greatest(p: spec_fn(int) -> bool, n: int) -> (k: int)
    requires
        exists|i: int| 0 <= i < n && #[trigger] p(i),
    ensures
        0 <= k < n,
        p(k),
        forall|j: int| k < j < n ==> !#[trigger] p(j),
    decreases n,
{
    if p(n - 1) {
        n - 1
    } else {
        lemma_greatest(p, n - 1)
    }
}

/// A grid with a live cell has a bounding box, inside the grid.
pub proof fn lemma_bounding_box_exists(m: GridModel)
    requires
        crate::rle::has_live(m),
    ensures
        bounds(m) is Some,
        is_bounding_box(m, bounds(m)->Some_0),
        0 <= bounds(m)->Some_0.0 <= bounds(m)->Some_0.2 < m.width,
        0 <= bounds(m)->Some_0.1 <= bounds(m)->Some_0.3 < m.height,
{
    let (x, y) = choose|x: int, y: int| m.in_bounds(x, y) && m.alive(x, y);
    let col = |a: int| exists|b: int| m.in_bounds(a, b) && m.alive(a, b);
    let row = |b: int| exists|a: int| m.in_bounds(a, b) && m.alive(a, b);
    assert(col(x));
    assert(row(y));
    let x0 = lemma_least(col, m.width as int);
    let x1 = lemma_greatest(col, m.width as int);
    let y0 = lemma_least(row, m.height as int);
    let y1 = lemma_greatest(row, m.height as int);
    let bb = (x0, y0, x1, y1);
    assert forall|a: int, b: int| m.in_bounds(a, b) && m.alive(a, b) implies bb.0 <= a <= bb.2 && bb.1 <= b
        <= bb.3 by {
        assert(col(a));
        assert(row(b));
    }
    assert(is_bounding_box(m, bb));
    let c = choose|b: (int, int, int, int)| is_bounding_box(m, b);
    crate::rle::lemma_bounding_box_unique(m, bb, c);
}

// ---------------------------------------------------------------------------
// The laws
// ---------------------------------------------------------------------------

/// Decoding the RLE document written for a grid gives the grid's live cells,
/// relative to the top-left corner of their bounding box, row by row and
/// left to right (none for a grid without live cells). Positions are `i32`,
/// so the grid's sides are at most `i32::MAX`.
pub proof fn law_decode_encode(m: GridModel)
    requires
        m.wf(),
        m.width <= i32::MAX,
        m.height <= i32::MAX,
    ensures
        decode_spec(encode_spec(m)) == DecodeOutcome::Cells(live_cells(m)),
{
    if crate::rle::has_live(m) {
        lemma_bounding_box_exists(m);
        let b = bounds(m)->Some_0;
        let w = b.2 - b.0 + 1;
        let h = b.3 - b.1 + 1;
        let ts = pattern_tokens(m, b);
        let all = rows_tokens(m, b.0, b.1, w, h);
        lemma_rows_tokens_chars(m, b.0, b.1, w, h);
        lemma_strip_split(all, '$');
        let p = strip_trailing(all, '$');
        assert(pattern_token_chars(ts)) by {
            assert forall|i: int| 0 <= i < ts.len() implies (#[trigger] ts[i]).1 == 'o' || ts[i].1 == 'b'
                || ts[i].1 == '$' || ts[i].1 == '!' by {
                if i < p.len() {
                    assert(ts[i] == p[i]);
                    assert(p[i] == all[i]);
                }
            }
        }
        lemma_document_body(w as nat, h as nat, ts);
        lemma_decode_pattern(m, b);
        assert(ts.drop_last() =~= p);
        assert(ts.last() == (1nat, '!'));
        lemma_token_text_chars((1nat, '!'));
        assert(tokens_text(ts).len() > 0);
    } else {
        let ts = seq![(1nat, '!')];
        assert(wrap_tokens(ts, 0) =~= seq!['!']) by {
            assert(ts.drop_first() =~= Seq::<(nat, char)>::empty());
            assert(token_text(ts[0]) =~= seq!['!']);
            assert(wrap_tokens(Seq::<(nat, char)>::empty(), 1) =~= Seq::<char>::empty());
            assert(seq!['!'] + Seq::<char>::empty() =~= seq!['!']);
        }
        assert(encode_spec(m) =~= header(0, 0) + wrap_tokens(ts, 0) + seq!['\n']);
        assert(pattern_token_chars(ts));
        lemma_document_body(0, 0, ts);
        assert(ts.drop_last() =~= Seq::<(nat, char)>::empty());
        assert(tokens_text(Seq::<(nat, char)>::empty()) =~= Seq::<char>::empty());
        assert(tokens_text(ts) =~= seq!['!']);
        assert(seq!['!'].drop_first() =~= Seq::<char>::empty());
        assert(seq!['!'][0] == '!');
        assert(decode_run(start_state(), seq!['!']) is Done);
    }
}

proof fn lemma_row_cells_contains(cs: Seq<char>, y: int, p: (i32, i32))
    requires
        cs.len() <= i32::MAX,
        0 <= y <= i32::MAX,
    ensures
        row_cells(cs, y).contains(p) <==> (p.1 == y && 0 <= p.0 < cs.len() && cs[p.0 as int] == 'o'),
    decreases cs.len(),
{
    if cs.len() > 0 {
        let q = cs.drop_last();
        lemma_row_cells_contains(q, y, p);
        let last = if cs.last() == 'o' {
            seq![((cs.len() - 1) as i32, y as i32)]
        } else {
            seq![]
        };
        let r = row_cells(q, y) + last;
        if r.contains(p) {
            let i = choose|i: int| 0 <= i < r.len() && r[i] == p;
            if i >= row_cells(q, y).len() {
                assert(r[i] == last[i - row_cells(q, y).len()]);
            } else {
                assert(r[i] == row_cells(q, y)[i]);
                assert(row_cells(q, y).contains(p));
            }
        }
        if p.1 == y && 0 <= p.0 < cs.len() && cs[p.0 as int] == 'o' {
            if p.0 < q.len() {
                assert(q[p.0 as int] == cs[p.0 as int]);
                let i = choose|i: int| 0 <= i < row_cells(q, y).len() && row_cells(q, y)[i] == p;
                assert(r[i] == p);
            } else {
                assert(r[row_cells(q, y).len() as int] == p);
            }
        }
    }
}

proof fn lemma_box_cells_contains(m: GridModel, b: (int, int, int, int), k: int, p: (i32, i32))
    requires
        0 <= b.2 - b.0 + 1 <= i32::MAX,
        0 <= k <= i32::MAX,
    ensures
        box_cells(m, b, k).contains(p) <==> (0 <= p.1 < k && 0 <= p.0 < b.2 - b.0 + 1 && m.alive(
            b.0 + p.0,
            b.1 + p.1,
        )),
    decreases k,
{
    if k > 0 {
        let w = b.2 - b.0 + 1;
        let prev = box_cells(m, b, k - 1);
        let cs = row_chars(m, b.0, b.1 + k - 1, w);
        let rc = row_cells(cs, k - 1);
        lemma_box_cells_contains(m, b, k - 1, p);
        lemma_row_cells_contains(cs, k - 1, p);
        let all = prev + rc;
        if all.contains(p) {
            let i = choose|i: int| 0 <= i < all.len() && all[i] == p;
            if i < prev.len() {
                assert(all[i] == prev[i]);
                assert(prev.contains(p));
            } else {
                assert(all[i] == rc[i - prev.len()]);
                assert(rc.contains(p));
            }
        }
        if prev.contains(p) {
            let i = choose|i: int| 0 <= i < prev.len() && prev[i] == p;
            assert(all[i] == p);
        }
        if rc.contains(p) {
            let i = choose|i: int| 0 <= i < rc.len() && rc[i] == p;
            assert(all[prev.len() + i] == p);
        }
        if 0 <= p.1 < k && 0 <= p.0 < w {
            assert(cs[p.0 as int] == cell_char(m.alive(b.0 + p.0, b.1 + k - 1 + 0)));
        }
    }
}

/// The cells read back are exactly the live cells, moved so that the
/// bounding box starts at `(0, 0)`.
pub proof fn law_decoded_cells(m: GridModel, p: (i32, i32))
    requires
        m.wf(),
        m.width <= i32::MAX,
        m.height <= i32::MAX,
    ensures
        live_cells(m).contains(p) <==> match bounds(m) {
            None => false,
            Some(b) => 0 <= p.0 && 0 <= p.1 && m.in_bounds(b.0 + p.0, b.1 + p.1) && m.alive(
                b.0 + p.0,
                b.1 + p.1,
            ),
        },
{
    if crate::rle::has_live(m) {
        lemma_bounding_box_exists(m);
        let b = bounds(m)->Some_0;
        let h = b.3 - b.1 + 1;
        lemma_box_cells_contains(m, b, h, p);
        if 0 <= p.0 && 0 <= p.1 && m.in_bounds(b.0 + p.0, b.1 + p.1) && m.alive(b.0 + p.0, b.1 + p.1) {
            assert(b.0 <= b.0 + p.0 <= b.2);
            assert(b.1 <= b.1 + p.1 <= b.3);
        }
    }
}

} // verus!
