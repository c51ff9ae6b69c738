use typhoondsl_outliner::location::{location_after, LineColumn, Position, SourceLocation};

fn lc(line: usize, column: usize) -> Position {
    Position::LineBased(LineColumn { line, column })
}

#[test]
fn location_after_counts_lines_and_bytes() {
    let start = SourceLocation { start: lc(1, 5), end: None };
    let text: Vec<char> = "ab\ncd".chars().collect();
    assert_eq!(location_after(&text, start), SourceLocation { start: lc(2, 2), end: None });
    let wide: Vec<char> = "\u{e9}\u{3000}".chars().collect();
    assert_eq!(location_after(&wide, start), SourceLocation { start: lc(1, 10), end: None });
    let empty: Vec<char> = Vec::new();
    assert_eq!(location_after(&empty, start), start);
}

#[test]
fn location_after_starts_from_the_end_of_a_span() {
    let span = SourceLocation { start: lc(1, 0), end: Some(lc(4, 2)) };
    let text: Vec<char> = "xy".chars().collect();
    assert_eq!(location_after(&text, span), SourceLocation { start: lc(4, 4), end: None });
}

#[test]
fn location_after_composes() {
    let start = SourceLocation { start: lc(3, 1), end: None };
    let a: Vec<char> = "ab\n c".chars().collect();
    let b: Vec<char> = "d\n\nef".chars().collect();
    let ab: Vec<char> = "ab\n cd\n\nef".chars().collect();
    assert_eq!(location_after(&ab, start), location_after(&b, location_after(&a, start)));
    assert_eq!(location_after(&ab, start), SourceLocation { start: lc(6, 2), end: None });
}

#[test]
fn location_after_matches_byte_counting() {
    let start = SourceLocation { start: lc(3, 7), end: None };
    for s in ["", "abc", "a\u{e9}\n\u{3000}x", "\n\n", "\u{1F600}\nz\u{e9}", "no line feed \u{e9}"] {
        let bytes = s.as_bytes();
        let line = 3 + bytes.iter().filter(|&&b| b == b'\n').count();
        let column = match bytes.iter().rposition(|&b| b == b'\n') {
            Some(k) => bytes.len() - k - 1,
            None => 7 + bytes.len(),
        };
        let text: Vec<char> = s.chars().collect();
        assert_eq!(location_after(&text, start), SourceLocation { start: lc(line, column), end: None });
    }
}
