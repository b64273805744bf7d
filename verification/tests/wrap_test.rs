use goose_cli_tui::content_layout::{
    build_row, compute_content_rows, row_placements, wrap_line, wrap_lines, Alignment, Placement,
    RowsCache, Wrapped,
};
use goose_cli_tui::content_render::{MdBlock, MdColor, MdSpan, SpanStyle};

fn spans(parts: &[&str]) -> Vec<String> {
    parts.iter().map(|p| p.to_string()).collect()
}

fn lines_of(w: Wrapped) -> Vec<String> {
    match w {
        Wrapped::Lines(ls) => ls,
        other => panic!("expected wrapped lines, got {:?}", other),
    }
}

fn cells(ps: &[Placement]) -> Vec<(usize, usize, String)> {
    ps.iter().map(|p| (p.col, p.span, p.symbol.clone())).collect()
}

#[test]
fn zero_width_shows_nothing() {
    assert!(matches!(wrap_line(&spans(&["hello"]), 0), Wrapped::NoRoom));
}

#[test]
fn line_that_fits_is_kept() {
    assert!(matches!(wrap_line(&spans(&["hello ", "world"]), 11), Wrapped::Fits));
    assert!(matches!(wrap_line(&spans(&[]), 1), Wrapped::Fits));
}

#[test]
fn long_line_wraps_at_spaces() {
    let ls = lines_of(wrap_line(&spans(&["the quick ", "brown fox jumps"]), 10));
    assert_eq!(ls, vec!["the quick", "brown fox", "jumps"]);
}

#[test]
fn white_space_runs_collapse_when_wrapping() {
    let ls = lines_of(wrap_line(&spans(&["aa   bb\tcc  dd"]), 5));
    assert_eq!(ls, vec!["aa bb", "cc dd"]);
}

#[test]
fn word_wider_than_the_line_is_cut() {
    let ls = lines_of(wrap_line(&spans(&["ab abcdefgh cd"]), 4));
    assert_eq!(ls, vec!["ab", "abcd", "cd"]);
}

#[test]
fn wide_characters_count_two_columns() {
    // Each of these characters takes two columns.
    let ls = lines_of(wrap_line(&spans(&["世界世界世"]), 4));
    assert_eq!(ls, vec!["世界"]);
}

#[test]
fn only_spaces_wrap_to_one_empty_line() {
    let ls = lines_of(wrap_line(&spans(&["      "]), 3));
    assert_eq!(ls, vec![""]);
}

#[test]
fn left_aligned_row() {
    let ps = row_placements(&spans(&["ab", "c"]), Alignment::Left, 5);
    assert_eq!(
        cells(&ps),
        vec![(0, 0, "a".to_string()), (1, 0, "b".to_string()), (2, 1, "c".to_string())]
    );
}

#[test]
fn centered_and_right_aligned_rows() {
    let c = row_placements(&spans(&["ab"]), Alignment::Center, 7);
    assert_eq!(cells(&c), vec![(2, 0, "a".to_string()), (3, 0, "b".to_string())]);
    let r = row_placements(&spans(&["ab"]), Alignment::Right, 7);
    assert_eq!(cells(&r), vec![(5, 0, "a".to_string()), (6, 0, "b".to_string())]);
}

#[test]
fn row_stops_at_its_width() {
    let ps = row_placements(&spans(&["abcdef", "gh"]), Alignment::Left, 3);
    assert_eq!(
        cells(&ps),
        vec![(0, 0, "a".to_string()), (1, 0, "b".to_string()), (2, 0, "c".to_string())]
    );
    let right = row_placements(&spans(&["abcdef"]), Alignment::Right, 3);
    assert_eq!(right.len(), 3);
    assert_eq!(right[0].col, 0);
}

#[test]
fn wide_and_control_clusters() {
    let ps = row_placements(&spans(&["世\tx"]), Alignment::Left, 10);
    assert_eq!(cells(&ps), vec![(0, 0, "世".to_string()), (2, 0, "x".to_string())]);
    assert!(row_placements(&spans(&["abc"]), Alignment::Left, 0).is_empty());
}

#[test]
fn wrapping_keeps_every_word_in_order() {
    let text = "alpha  beta gamma\tdelta epsilon zeta";
    let ls = lines_of(wrap_line(&spans(&[text]), 11));
    assert!(ls.len() > 1);
    let words: Vec<&str> = text.split_whitespace().collect();
    assert_eq!(ls.join(" "), words.join(" "));
}

fn red() -> SpanStyle {
    SpanStyle { fg: Some(MdColor::Red), bold: false, italic: false, underlined: false, dim: false }
}

fn blue() -> SpanStyle {
    SpanStyle { fg: Some(MdColor::LightBlue), bold: false, italic: false, underlined: false, dim: false }
}

fn block(parts: &[(&str, SpanStyle)], alignment: Alignment) -> MdBlock {
    MdBlock::Line {
        spans: parts.iter().map(|(t, s)| MdSpan { text: t.to_string(), style: *s }).collect(),
        alignment,
    }
}

#[test]
fn wrapped_blocks_take_the_first_span_style() {
    let blocks = vec![block(&[("aaa bbb ", red()), ("ccc", blue())], Alignment::Right), MdBlock::Blank];
    let ls = wrap_lines(&blocks, 7);
    assert_eq!(ls.len(), 3);
    assert_eq!(ls[0].spans.len(), 1);
    assert_eq!(ls[0].spans[0].text, "aaa bbb");
    assert_eq!(ls[0].spans[0].style, red());
    assert_eq!(ls[1].spans[0].text, "ccc");
    assert_eq!(ls[1].spans[0].style, red());
    assert_eq!(ls[1].alignment, Alignment::Right);
    assert!(ls[2].spans.is_empty());
    assert!(wrap_lines(&blocks, 0).is_empty());
}

#[test]
fn rows_carry_span_styles_and_are_cached() {
    let blocks = vec![block(&[("ab", red()), ("c", blue())], Alignment::Left)];
    let row = build_row(&wrap_lines(&blocks, 5)[0], 5);
    let cells: Vec<(usize, String, SpanStyle)> =
        row.iter().map(|c| (c.col, c.symbol.clone(), c.style)).collect();
    assert_eq!(
        cells,
        vec![(0, "a".to_string(), red()), (1, "b".to_string(), red()), (2, "c".to_string(), blue())]
    );
    let mut cache = RowsCache::new();
    let rows = compute_content_rows(&mut cache, &blocks, 5, 42);
    assert_eq!(rows.len(), 1);
    assert_eq!(rows[0].len(), 3);
    // Same key and width: the cached rows come back even for other lines.
    let other = vec![block(&[("zzzz", blue())], Alignment::Left)];
    let again = compute_content_rows(&mut cache, &other, 5, 42);
    assert_eq!(again[0].len(), 3);
    assert_eq!(again[0][0].symbol, "a");
    // A new key recomputes.
    let fresh = compute_content_rows(&mut cache, &other, 5, 43);
    assert_eq!(fresh[0].len(), 4);
    assert!(compute_content_rows(&mut cache, &other, 0, 43).is_empty());
}
