use life_tui::grid::Grid;
use life_tui::rle::{bounding_box, decode, decode_checked, encode_grid, RleError};

#[test]
fn roundtrip_glider() {
    let mut g = Grid::new(10, 10);
    for &(x, y) in &[(2, 1), (3, 2), (1, 3), (2, 3), (3, 3)] {
        g.set(x, y, true);
    }
    let rle = encode_grid(&g);
    let cells = decode(&rle).expect("decode");
    // The cells are relative to the bounding-box origin (1, 1).
    let normalized: std::collections::BTreeSet<_> = cells.into_iter().collect();
    let expected: std::collections::BTreeSet<_> =
        [(1, 0), (2, 1), (0, 2), (1, 2), (2, 2)].into_iter().collect();
    assert_eq!(normalized, expected);
}

#[test]
fn decode_blinker() {
    let cells = decode("x = 3, y = 1, rule = B3/S23\n3o!\n").unwrap();
    assert_eq!(cells, vec![(0, 0), (1, 0), (2, 0)]);
}

#[test]
fn decode_skips_comments() {
    let rle = "#N glider\n#C generated\nx = 3, y = 3\nbo$2bo$3o!\n";
    let cells = decode(rle).unwrap();
    let set: std::collections::BTreeSet<_> = cells.into_iter().collect();
    let expected: std::collections::BTreeSet<_> =
        [(1, 0), (2, 1), (0, 2), (1, 2), (2, 2)].into_iter().collect();
    assert_eq!(set, expected);
}

#[test]
fn encode_empty_grid() {
    let g = Grid::new(4, 4);
    assert_eq!(encode_grid(&g), "x = 0, y = 0, rule = B3/S23\n!\n");
    assert_eq!(decode(&encode_grid(&g)).unwrap(), vec![]);
}

#[test]
fn encode_glider_exact_text() {
    let mut g = Grid::new(10, 10);
    for &(x, y) in &[(2, 1), (3, 2), (1, 3), (2, 3), (3, 3)] {
        g.set(x, y, true);
    }
    assert_eq!(encode_grid(&g), "x = 3, y = 3, rule = B3/S23\nbo$2bo$3o!\n");
}

#[test]
fn encode_keeps_empty_rows_inside_box() {
    let mut g = Grid::new(12, 12);
    g.set(10, 2, true);
    g.set(11, 5, true);
    // rows 3 and 4 are empty: each still ends with '$'
    assert_eq!(encode_grid(&g), "x = 2, y = 4, rule = B3/S23\no$$$bo!\n");
    assert_eq!(decode(&encode_grid(&g)).unwrap(), vec![(0, 0), (1, 3)]);
}

#[test]
fn encode_wraps_long_lines() {
    let mut g = Grid::new(200, 1);
    for x in (0..200).step_by(2) {
        g.set(x, 0, true);
    }
    let rle = encode_grid(&g);
    let mut lines = rle.lines();
    assert_eq!(lines.next(), Some("x = 199, y = 1, rule = B3/S23"));
    let body: Vec<&str> = lines.collect();
    assert!(body.len() > 1);
    assert!(body.iter().all(|l| l.len() <= 70));
    assert_eq!(body.concat().len(), 200);
    let cells = decode(&rle).unwrap();
    let expected: Vec<(i32, i32)> = (0..100).map(|i| (2 * i, 0)).collect();
    assert_eq!(cells, expected);
}

#[test]
fn roundtrip_random_like_pattern() {
    let mut g = Grid::new(30, 17);
    let mut seed: u32 = 12345;
    for y in 0..17 {
        for x in 0..30 {
            seed = seed.wrapping_mul(1103515245).wrapping_add(12345);
            if (seed >> 16) % 3 == 0 {
                g.set(x, y, true);
            }
        }
    }
    let (x0, y0, _, _) = bounding_box(&g).unwrap();
    let mut expected = Vec::new();
    for y in 0..17 {
        for x in 0..30 {
            if g.get(x, y) {
                expected.push(((x - x0) as i32, (y - y0) as i32));
            }
        }
    }
    assert_eq!(decode(&encode_grid(&g)).unwrap(), expected);
}

#[test]
fn bounding_box_is_tight() {
    let mut g = Grid::new(9, 9);
    assert_eq!(bounding_box(&g), None);
    g.set(4, 2, true);
    g.set(1, 6, true);
    g.set(7, 3, true);
    assert_eq!(bounding_box(&g), Some((1, 2, 7, 6)));
}

#[test]
fn decode_without_body_is_an_error() {
    assert_eq!(decode(""), Err(RleError::NoBody));
    assert_eq!(decode("#C just a comment\n"), Err(RleError::NoBody));
    assert_eq!(decode("x = 1, y = 1\n  x second header\n"), Err(RleError::NoBody));
}

#[test]
fn decode_unexpected_char() {
    assert_eq!(decode("2o3q!"), Err(RleError::UnexpectedChar('q')));
}

#[test]
fn decode_run_length_too_large() {
    assert_eq!(
        decode("x = 1\n99999999999o!\n"),
        Err(RleError::BadRunLength("99999999999".to_string()))
    );
}

#[test]
fn decode_ignores_whitespace_crlf_and_text_after_bang() {
    let cells = decode("x = 3, y = 2\r\n2o $\r\n b o!junk\r\n").unwrap();
    assert_eq!(cells, vec![(0, 0), (1, 0), (1, 1)]);
}

#[test]
fn decode_without_bang_reads_to_the_end() {
    assert_eq!(decode("o2$3bo").unwrap(), vec![(0, 0), (3, 2)]);
}

#[test]
fn decode_zero_run_and_leading_zeros() {
    assert_eq!(decode("0o002o!").unwrap(), vec![(0, 0), (1, 0)]);
}

#[test]
fn decode_checked_reports_position_overflow() {
    assert_eq!(decode_checked("2147483647b2o!"), None);
    assert_eq!(decode_checked("2147483646bo!"), Some(Ok(vec![(2147483646, 0)])));
    assert_eq!(decode_checked("2147483647$o!"), Some(Ok(vec![(0, 2147483647)])));
}

#[test]
fn header_lines_after_data_are_pattern_data() {
    // Only leading header lines are skipped; a later 'x' is an error.
    assert_eq!(decode("x = 1\no$\nx\n"), Err(RleError::UnexpectedChar('x')));
}

#[test]
fn text_after_the_end_is_ignored() {
    let doc = "x = 3, y = 1\n3o!\n";
    let expected = decode(doc).unwrap();
    for tail in ["", "garbage$$%", "#comment\n5b2o!\n", "x = 9\n99999999999o\n"] {
        let whole = format!("{doc}{tail}");
        assert_eq!(decode(&whole).unwrap(), expected);
    }
    let bad = "x = 2\n2o$z!\n";
    assert_eq!(decode(bad), Err(RleError::UnexpectedChar('z')));
    assert_eq!(decode(&format!("{bad}3o!\n")), Err(RleError::UnexpectedChar('z')));
}

#[test]
fn encoding_depends_only_on_the_shape() {
    let cells = [(1, 0), (2, 1), (0, 2), (1, 2), (2, 2)];
    let mut a = Grid::new(5, 5);
    let mut b = Grid::new(12, 7);
    for &(x, y) in &cells {
        a.set(x, y, true);
        b.set(x + 8, y + 3, true);
    }
    assert_eq!(encode_grid(&a), encode_grid(&b));
    assert_eq!(encode_grid(&Grid::new(2, 2)), encode_grid(&Grid::new(7, 3)));
}
