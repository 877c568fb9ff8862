//! Laws of the RLE format: what a document's pattern data ends with, and
//! what of a grid its encoding depends on.
use vstd::prelude::*;
use crate::grid::GridModel;
use crate::rle::{
    body_of, bounds, decode_char, decode_run, decode_spec, encode_spec, has_live,
    is_bounding_box, lemma_body_of_cons, lines_from, line_step, pattern_tokens, row_chars,
    row_tokens, rows_tokens, rle_body, start_state, text_lines, DecodeState, Decoding,
};
use crate::roundtrip::{lemma_bounding_box_exists, lemma_decode_append};

verus! {

/// Whether the lines still may be header lines after reading `lines`.
spec fn header_after(lines: Seq<Seq<char>>, in_header: bool) -> bool
    decreases lines.len(),
{
    if lines.len() == 0 {
        in_header
    } else {
        header_after(lines.drop_first(), line_step(lines[0], in_header).1)
    }
}

/// The pattern data of two runs of lines is that of the first followed by
/// that of the second, read in the state the first leaves.
proof fn lemma_body_of_append(l1: Seq<Seq<char>>, l2: Seq<Seq<char>>, in_header: bool)
    ensures
        body_of(l1 + l2, in_header) == body_of(l1, in_header) + body_of(l2, header_after(l1, in_header)),
    decreases l1.len(),
{
    if l1.len() == 0 {
        assert(l1 + l2 =~= l2);
        assert(body_of(l1, in_header) =~= Seq::<char>::empty());
        assert(Seq::<char>::empty() + body_of(l2, in_header) =~= body_of(l2, in_header));
    } else {
        let line = l1[0];
        let more = l1.drop_first();
        let next = line_step(line, in_header);
        assert(l1 =~= seq![line] + more);
        assert(l1 + l2 =~= seq![line] + (more + l2));
        lemma_body_of_cons(line, more + l2, in_header);
        lemma_body_of_cons(line, more, in_header);
        lemma_body_of_append(more, l2, next.1);
        assert(next.0 + (body_of(more, next.1) + body_of(l2, header_after(more, next.1))) =~= (next.0
            + body_of(more, next.1)) + body_of(l2, header_after(more, next.1)));
    }
}

/// A document that ends with a line break splits into its lines and those
/// of whatever follows it.
proof fn lemma_lines_append(cur: Seq<char>, a: Seq<char>, b: Seq<char>)
    requires
        a.len() > 0,
        a.last() == '\n',
    ensures
        lines_from(cur, a + b) == lines_from(cur, a) + lines_from(seq![], b),
    decreases a.len(),
{
    let t = a + b;
    assert(t[0] == a[0]);
    assert(t.drop_first() =~= a.drop_first() + b);
    if a[0] == '\n' {
        if a.len() == 1 {
            assert(a.drop_first() + b =~= b);
            assert(a.drop_first() =~= Seq::<char>::empty());
            assert(lines_from(seq![], a.drop_first()) =~= Seq::<Seq<char>>::empty());
        } else {
            lemma_lines_append(seq![], a.drop_first(), b);
        }
        let first = seq![crate::rle::strip_cr(cur)];
        assert(first + (lines_from(seq![], a.drop_first()) + lines_from(seq![], b)) =~= (first
            + lines_from(seq![], a.drop_first())) + lines_from(seq![], b));
    } else {
        assert(a.drop_first().len() > 0);
        assert(a.drop_first().last() == '\n');
        lemma_lines_append(cur.push(a[0]), a.drop_first(), b);
    }
}

/// Decoding stops, one way or another, at the first `'!'`.
proof fn lemma_decode_stops_at_end(st: DecodeState, s: Seq<char>, k: int)
    requires
        0 <= k < s.len(),
        s[k] == '!',
    ensures
        !(decode_run(st, s) is Running),
    decreases s.len(),
{
    match decode_char(st, s[0]) {
        Decoding::Running(next) => {
            assert(k > 0);
            assert(s.drop_first()[k - 1] == '!');
            lemma_decode_stops_at_end(next, s.drop_first(), k - 1);
        },
        _ => {},
    }
}

/// Whatever follows the line that ends the pattern data with `'!'` is
/// ignored: decoding the document with more text after it gives the same.
pub proof fn law_decode_ignores_what_follows(s: Seq<char>, t: Seq<char>, k: int)
    requires
        s.len() > 0,
        s.last() == '\n',
        0 <= k < rle_body(s).len(),
        rle_body(s)[k] == '!',
    ensures
        decode_spec(s + t) == decode_spec(s),
{
    lemma_lines_append(seq![], s, t);
    let l1 = text_lines(s);
    let l2 = lines_from(seq![], t);
    assert(text_lines(s + t) == l1 + l2);
    lemma_body_of_append(l1, l2, true);
    let body = rle_body(s);
    let more = body_of(l2, header_after(l1, true));
    assert(rle_body(s + t) == body + more);
    lemma_decode_append(start_state(), body, more);
    lemma_decode_stops_at_end(start_state(), body, k);
    assert((body + more)[k] == '!');
}

/// The row of characters of a box, moved by `(a, b)` together with the
/// grid's live cells, is the same row.
proof fn lemma_rows_tokens_moved(
    g1: GridModel,
    g2: GridModel,
    a: int,
    b: int,
    b1: (int, int, int, int),
    rows: int,
)
    requires
        0 <= rows <= b1.3 - b1.1 + 1,
        0 <= b1.0 <= b1.2 < g1.width,
        0 <= b1.1 <= b1.3 < g1.height,
        0 <= b1.0 + a,
        b1.2 + a < g2.width,
        0 <= b1.1 + b,
        b1.3 + b < g2.height,
        forall|x: int, y: int|
            g1.in_bounds(x, y) && g1.alive(x, y) ==> g2.in_bounds(x + a, y + b) && g2.alive(x + a, y + b),
        forall|x: int, y: int|
            g2.in_bounds(x, y) && g2.alive(x, y) ==> g1.in_bounds(x - a, y - b) && g1.alive(x - a, y - b),
    ensures
        rows_tokens(g1, b1.0, b1.1, b1.2 - b1.0 + 1, rows) == rows_tokens(
            g2,
            b1.0 + a,
            b1.1 + b,
            b1.2 - b1.0 + 1,
            rows,
        ),
    decreases rows,
{
    if rows > 0 {
        lemma_rows_tokens_moved(g1, g2, a, b, b1, rows - 1);
        let w = b1.2 - b1.0 + 1;
        let y = b1.1 + rows - 1;
        let c1 = row_chars(g1, b1.0, y, w);
        let c2 = row_chars(g2, b1.0 + a, y + b, w);
        assert forall|i: int| 0 <= i < w implies #[trigger] c1[i] == c2[i] by {
            let x = b1.0 + i;
            assert(g1.in_bounds(x, y));
            assert(g2.in_bounds(x + a, y + b));
            if g1.alive(x, y) {
                assert(g2.alive(x + a, y + b));
            }
            if g2.alive(x + a, y + b) {
                assert(g1.alive(x + a - a, y + b - b));
                assert(x + a - a == x && y + b - b == y);
            }
            assert(b1.0 + a + i == x + a);
            assert(y + b == b1.1 + b + rows - 1);
        }
        assert(c1 =~= c2);
        assert(row_tokens(g1, b1.0, y, w) == row_tokens(g2, b1.0 + a, y + b, w));
        assert(b1.1 + b + rows - 1 == y + b);
    }
}

/// The encoding of a grid depends only on its live cells relative to their
/// bounding box: two grids, of any sizes, whose live cells are the same
/// cells moved by `(a, b)` are written as the same document.
pub proof fn law_encode_depends_on_shape_only(g1: GridModel, g2: GridModel, a: int, b: int)
    requires
        g1.wf(),
        g2.wf(),
        forall|x: int, y: int|
            g1.in_bounds(x, y) && g1.alive(x, y) ==> g2.in_bounds(x + a, y + b) && g2.alive(x + a, y + b),
        forall|x: int, y: int|
            g2.in_bounds(x, y) && g2.alive(x, y) ==> g1.in_bounds(x - a, y - b) && g1.alive(x - a, y - b),
    ensures
        encode_spec(g1) == encode_spec(g2),
{
    if has_live(g1) {
        let (x, y) = choose|x: int, y: int| g1.in_bounds(x, y) && g1.alive(x, y);
        assert(g2.in_bounds(x + a, y + b) && g2.alive(x + a, y + b));
        lemma_bounding_box_exists(g1);
        lemma_bounding_box_exists(g2);
        let b1 = bounds(g1)->Some_0;
        let bb2 = (b1.0 + a, b1.1 + b, b1.2 + a, b1.3 + b);
        assert(is_bounding_box(g2, bb2)) by {
            let y0 = choose|y: int| g1.in_bounds(b1.0, y) && g1.alive(b1.0, y);
            let x0 = choose|x: int| g1.in_bounds(x, b1.1) && g1.alive(x, b1.1);
            let y1 = choose|y: int| g1.in_bounds(b1.2, y) && g1.alive(b1.2, y);
            let x1 = choose|x: int| g1.in_bounds(x, b1.3) && g1.alive(x, b1.3);
            assert(g2.in_bounds(bb2.0, y0 + b) && g2.alive(bb2.0, y0 + b));
            assert(g2.in_bounds(x0 + a, bb2.1) && g2.alive(x0 + a, bb2.1));
            assert(g2.in_bounds(bb2.2, y1 + b) && g2.alive(bb2.2, y1 + b));
            assert(g2.in_bounds(x1 + a, bb2.3) && g2.alive(x1 + a, bb2.3));
            assert forall|p: int, q: int| g2.in_bounds(p, q) && g2.alive(p, q) implies bb2.0 <= p <= bb2.2
                && bb2.1 <= q <= bb2.3 by {
                assert(g1.in_bounds(p - a, q - b) && g1.alive(p - a, q - b));
            }
        }
        crate::rle::lemma_bounding_box_unique(g2, bb2, bounds(g2)->Some_0);
        lemma_rows_tokens_moved(g1, g2, a, b, b1, b1.3 - b1.1 + 1);
        assert(pattern_tokens(g1, b1) == pattern_tokens(g2, bb2));
    } else {
        assert(!has_live(g2)) by {
            if has_live(g2) {
                let (x, y) = choose|x: int, y: int| g2.in_bounds(x, y) && g2.alive(x, y);
                assert(g1.in_bounds(x - a, y - b) && g1.alive(x - a, y - b));
            }
        }
    }
}

} // verus!
