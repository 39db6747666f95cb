use telos::span::{LineIndex, Span};

#[test]
fn single_line() {
    let idx = LineIndex::new("abc");
    assert_eq!(idx.span_at(0), Span { line: 1, col: 1 });
    assert_eq!(idx.span_at(2), Span { line: 1, col: 3 });
}

#[test]
fn multi_line() {
    let idx = LineIndex::new("ab\ncd\nef");
    assert_eq!(idx.span_at(0), Span { line: 1, col: 1 });
    assert_eq!(idx.span_at(3), Span { line: 2, col: 1 });
    assert_eq!(idx.span_at(4), Span { line: 2, col: 2 });
    assert_eq!(idx.span_at(6), Span { line: 3, col: 1 });
}

#[test]
fn offset_at_end_of_source() {
    let idx = LineIndex::new("ab\ncd");
    // Offset 5 is one past the last char ('d' at offset 4); the Eof token
    // in the lexer sits here.
    assert_eq!(idx.span_at(5), Span { line: 2, col: 3 });
}

#[test]
fn line_col_pairs() {
    let idx = LineIndex::new("ab\ncd\nef");
    assert_eq!(idx.line_col(0), (1, 1));
    assert_eq!(idx.line_col(3), (2, 1));
    assert_eq!(idx.line_col(6), (3, 1));
}
