//! Tests of the string-backed resolver: line queries, character counting,
//! text extraction and origin formatting.

use retort::{SourceSpan, SpanResolver, SpannedLine, SubSpanIterator};

#[test]
fn sub_span_iterator() {
    let source = "\
one
two
three
four
five
six";
    let span = SourceSpan { start: 0, end: source.len(), origin: "example" };
    let line = source.first_line_of(span);
    assert_eq!(
        line,
        SpannedLine { line_num: 1, char_count: 3, span: SourceSpan { start: 0, end: 3, origin: "example" } }
    );
    let line = source.next_line_of(span, line);
    assert_eq!(
        line,
        Some(SpannedLine { line_num: 2, char_count: 3, span: SourceSpan { start: 4, end: 7, origin: "example" } })
    );
    let line = source.next_line_of(span, line.unwrap());
    assert_eq!(
        line,
        Some(SpannedLine { line_num: 3, char_count: 5, span: SourceSpan { start: 8, end: 13, origin: "example" } })
    );
    let line = source.next_line_of(span, line.unwrap());
    assert_eq!(
        line,
        Some(SpannedLine { line_num: 4, char_count: 4, span: SourceSpan { start: 14, end: 18, origin: "example" } })
    );
    let line = source.next_line_of(span, line.unwrap());
    assert_eq!(
        line,
        Some(SpannedLine { line_num: 5, char_count: 4, span: SourceSpan { start: 19, end: 23, origin: "example" } })
    );
    let line = source.next_line_of(span, line.unwrap());
    assert_eq!(
        line,
        Some(SpannedLine { line_num: 6, char_count: 3, span: SourceSpan { start: 24, end: 27, origin: "example" } })
    );
    let line = source.next_line_of(span, line.unwrap());
    assert_eq!(line, None);
}

#[test]
fn sub_span_iterator_walks_lines() {
    let source = "one\ntwo\nthree";
    let span = SourceSpan { start: 0, end: source.len(), origin: "example" };
    let mut it = SubSpanIterator::new(source, span);
    assert_eq!(it.next(), Some((1, SourceSpan { start: 0, end: 3, origin: "example" })));
    assert_eq!(it.next(), Some((2, SourceSpan { start: 4, end: 7, origin: "example" })));
    assert_eq!(it.next(), Some((3, SourceSpan { start: 8, end: 13, origin: "example" })));
    assert_eq!(it.next(), None);
    assert_eq!(it.next(), None);
}

#[test]
fn first_line_of_empty_span_is_its_line() {
    let source = "one\ntwo";
    let span = SourceSpan { start: 5, end: 5, origin: "f" };
    let line = source.first_line_of(span);
    assert_eq!(
        line,
        SpannedLine { line_num: 2, char_count: 3, span: SourceSpan { start: 4, end: 7, origin: "f" } }
    );
}

#[test]
fn next_line_stops_at_span_end() {
    let source = "one\ntwo\nthree";
    // The span ends right at the start of the second line, so no line after
    // the first is yielded.
    let span = SourceSpan { start: 0, end: 4, origin: "f" };
    let first = source.first_line_of(span);
    assert_eq!(first.span, SourceSpan { start: 0, end: 3, origin: "f" });
    assert_eq!(source.next_line_of(span, first), None);
}

#[test]
fn count_chars_counts_code_points() {
    let source = "a\u{3b1}\u{3b2}\nb";
    // Positions are code-point offsets: the Greek letters take one each.
    let span = SourceSpan { start: 0, end: 3, origin: "f" };
    assert_eq!(source.count_chars(span), 3);
    let line = source.first_line_of(SourceSpan { start: 4, end: 5, origin: "f" });
    assert_eq!(line.line_num, 2);
    assert_eq!(line.char_count, 1);
    assert_eq!(line.span, SourceSpan { start: 4, end: 5, origin: "f" });
}

#[test]
fn write_span_extracts_verbatim() {
    let source = "one\ntwo\nthree";
    let mut out = String::new();
    source.write_span(&mut out, SourceSpan { start: 4, end: 7, origin: "f" });
    assert_eq!(out, "two");
    source.write_span(&mut out, SourceSpan { start: 8, end: 13, origin: "f" });
    assert_eq!(out, "twothree");
}

#[test]
fn write_origin_is_one_based() {
    let source = "one\ntwo\nthree";
    let mut out = String::new();
    source.write_origin(&mut out, SourceSpan { start: 0, end: 3, origin: "example" });
    assert_eq!(out, "example:1:1");
    let mut out = String::new();
    source.write_origin(&mut out, SourceSpan { start: 9, end: 10, origin: "example" });
    assert_eq!(out, "example:3:2");
}
