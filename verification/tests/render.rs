//! Tests of the classifier, the normalization pass, the writer, and the
//! value types: the scenarios a diagnostics renderer must get right.

use retort::digits::log10usize;
use retort::render::{line_num_width, normalize, render_lines};
use retort::writer::{render, rendered_text};
use retort::{
    Annotation, Diagnostic, Level, Mark, MarkKind, RenderError, RenderLine, Rustc, SourceSpan,
};

fn ann<'a>(start: usize, end: usize, origin: &'a str, level: Level, message: &str) -> Annotation<SourceSpan<'a>> {
    Annotation {
        span: SourceSpan { start, end, origin },
        level,
        message: String::from(message),
    }
}

#[test]
fn scenario_single_line_no_secondary() {
    let source = "hello";
    let d = Diagnostic {
        primary: ann(0, 5, "file.rs", Level::Error, "oops"),
        code: Some(String::from("E01")),
        secondary: Vec::new(),
        level: None,
    };
    let lines = render_lines(&d, &source).unwrap();
    assert_eq!(lines.len(), 5);
    assert!(matches!(&lines[0], RenderLine::Title { level: Level::Error, .. }));
    assert!(matches!(&lines[1], RenderLine::Origin { .. }));
    assert!(matches!(&lines[2], RenderLine::Blank));
    match &lines[3] {
        RenderLine::Source { line_num, marks, content } => {
            assert_eq!(*line_num, Some(1));
            assert!(marks.is_empty());
            assert_eq!(*content, SourceSpan { start: 0, end: 5, origin: "file.rs" });
        }
        other => panic!("expected a source line, got {:?}", other),
    }
    match &lines[4] {
        RenderLine::AnnotationText { marks, underline_start, underline_end, level, message } => {
            assert!(marks.is_empty());
            assert_eq!((*underline_start, *underline_end), (0, 5));
            assert_eq!(*level, Level::Error);
            assert_eq!(message, "oops");
        }
        other => panic!("expected the primary's underline, got {:?}", other),
    }
}

#[test]
fn renders_single_line_error() {
    let source = "hello";
    let d = Diagnostic {
        primary: ann(0, 5, "file.rs", Level::Error, "oops"),
        code: Some(String::from("E01")),
        secondary: Vec::new(),
        level: None,
    };
    let segments = render(&d, &source, &Rustc).unwrap();
    assert_eq!(
        rendered_text(&segments),
        "error[E01]: oops\n file.rs:1:1\n\n1 | hello\n  |^^^^^ oops\n"
    );
}

#[test]
fn scenario_secondary_inside_first_line() {
    let source = "ab\ncd";
    let d = Diagnostic {
        primary: ann(0, 5, "f", Level::Error, "t"),
        code: None,
        secondary: vec![ann(0, 2, "f", Level::Info, "here")],
        level: None,
    };
    let lines = render_lines(&d, &source).unwrap();
    assert_eq!(lines.len(), 6);
    match &lines[3] {
        RenderLine::Source { line_num, marks, .. } => {
            assert_eq!(*line_num, Some(1));
            assert!(marks.is_empty());
        }
        other => panic!("expected the first source line, got {:?}", other),
    }
    match &lines[4] {
        RenderLine::AnnotationText { marks, underline_start, underline_end, level, message } => {
            assert!(marks.is_empty());
            assert_eq!((*underline_start, *underline_end), (0, 2));
            assert_eq!(*level, Level::Info);
            assert_eq!(message, "here");
        }
        other => panic!("expected the annotation under line one, got {:?}", other),
    }
    match &lines[5] {
        RenderLine::Source { line_num, marks, .. } => {
            assert_eq!(*line_num, Some(2));
            assert!(marks.is_empty());
        }
        other => panic!("expected the second source line with an empty gutter, got {:?}", other),
    }
}

#[test]
fn scenario_secondary_spanning_three_lines() {
    let source = "ab\ncd\nef";
    let d = Diagnostic {
        primary: ann(0, 8, "f", Level::Error, "t"),
        code: None,
        secondary: vec![ann(0, 7, "f", Level::Warning, "spans")],
        level: None,
    };
    let lines = render_lines(&d, &source).unwrap();
    assert_eq!(lines.len(), 7);
    match &lines[3] {
        RenderLine::Source { marks, .. } => assert_eq!(marks.as_slice(), &[Mark::Start]),
        other => panic!("expected line one, got {:?}", other),
    }
    match &lines[4] {
        RenderLine::Source { marks, .. } => assert_eq!(marks.as_slice(), &[Mark::Continue]),
        other => panic!("expected line two, got {:?}", other),
    }
    match &lines[5] {
        RenderLine::Source { marks, .. } => assert_eq!(marks.as_slice(), &[Mark::Continue]),
        other => panic!("expected line three, got {:?}", other),
    }
    match &lines[6] {
        RenderLine::AnnotationText { marks, underline_start, underline_end, message, .. } => {
            assert_eq!(marks.as_slice(), &[Mark::End]);
            assert_eq!((*underline_start, *underline_end), (0, 1));
            assert_eq!(message, "spans");
        }
        other => panic!("expected the annotation right after line three, got {:?}", other),
    }
}

#[test]
fn scenario_foreign_origin_fails_without_output() {
    let source = "ab";
    let d = Diagnostic {
        primary: ann(0, 2, "a.rs", Level::Error, "t"),
        code: None,
        secondary: vec![ann(0, 1, "b.rs", Level::Info, "elsewhere")],
        level: None,
    };
    let r = render(&d, &source, &Rustc);
    assert!(matches!(r, Err(RenderError::ContractViolation { index: 0 })));
}

#[test]
fn first_invalid_secondary_is_reported() {
    let source = "ab";
    let d = Diagnostic {
        primary: ann(0, 2, "f", Level::Error, "t"),
        code: None,
        secondary: vec![
            ann(0, 1, "f", Level::Info, "fine"),
            ann(0, 3, "f", Level::Info, "past the end"),
        ],
        level: None,
    };
    let r = render_lines(&d, &source);
    assert!(matches!(r, Err(RenderError::ContractViolation { index: 1 })));
}

#[test]
fn unplaced_annotation_is_an_inconsistency() {
    // The primary span ends inside the line break after the first line, so
    // the walk stops after line one and the secondary ending there is never
    // placed.
    let source = "ab\ncd";
    let d = Diagnostic {
        primary: ann(0, 3, "f", Level::Error, "t"),
        code: None,
        secondary: vec![ann(0, 3, "f", Level::Info, "dangling")],
        level: None,
    };
    let r = render_lines(&d, &source);
    assert!(matches!(r, Err(RenderError::Inconsistency { unresolved: 1 })));
}

#[test]
fn exact_line_cover_is_contained() {
    let source = "ab\ncd";
    let d = Diagnostic {
        primary: ann(0, 5, "f", Level::Error, "t"),
        code: None,
        secondary: vec![ann(3, 5, "f", Level::Info, "exact")],
        level: None,
    };
    let lines = render_lines(&d, &source).unwrap();
    // Contained on line two: no gutter mark anywhere, message under line two.
    assert_eq!(lines.len(), 6);
    match &lines[4] {
        RenderLine::Source { line_num, marks, .. } => {
            assert_eq!(*line_num, Some(2));
            assert!(marks.is_empty());
        }
        other => panic!("expected line two, got {:?}", other),
    }
    match &lines[5] {
        RenderLine::AnnotationText { marks, underline_start, underline_end, .. } => {
            assert!(marks.is_empty());
            assert_eq!((*underline_start, *underline_end), (0, 2));
        }
        other => panic!("expected the annotation under line two, got {:?}", other),
    }
}

#[test]
fn zero_length_annotation_is_contained() {
    let source = "ab\ncd";
    let d = Diagnostic {
        primary: ann(0, 5, "f", Level::Error, "t"),
        code: None,
        secondary: vec![ann(1, 1, "f", Level::Hint, "right here")],
        level: None,
    };
    let lines = render_lines(&d, &source).unwrap();
    assert_eq!(lines.len(), 6);
    match &lines[4] {
        RenderLine::AnnotationText { marks, underline_start, underline_end, .. } => {
            assert!(marks.is_empty());
            assert_eq!((*underline_start, *underline_end), (1, 1));
        }
        other => panic!("expected a zero-width annotation under line one, got {:?}", other),
    }
}

#[test]
fn nested_annotations_keep_their_columns() {
    let source = "ab\ncd\nef";
    let d = Diagnostic {
        primary: ann(0, 8, "f", Level::Error, "t"),
        code: None,
        secondary: vec![
            ann(3, 8, "f", Level::Info, "inner"),
            ann(0, 8, "f", Level::Warning, "outer"),
        ],
        level: None,
    };
    let lines = normalize(&render_lines(&d, &source).unwrap());
    // The outer annotation keeps column one on every line it marks, the
    // inner one keeps column zero.
    let marks_of = |i: usize| match &lines[i] {
        RenderLine::Source { marks, .. } => marks.clone(),
        RenderLine::AnnotationText { marks, .. } => marks.clone(),
        other => panic!("expected a marked line, got {:?}", other),
    };
    assert_eq!(marks_of(3).as_slice(), &[Mark::Empty, Mark::Start]);
    assert_eq!(marks_of(4).as_slice(), &[Mark::Start, Mark::Continue]);
    assert_eq!(marks_of(5).as_slice(), &[Mark::Continue, Mark::Continue]);
    // After normalization every gutter holds exactly the common width.
    for i in 3..lines.len() {
        assert_eq!(marks_of(i).len(), 2);
    }
}

#[test]
fn line_number_width_follows_digit_count() {
    let nine = vec!["a"; 9].join("\n");
    let ten = vec!["a"; 10].join("\n");
    let d9 = Diagnostic {
        primary: ann(0, nine.len(), "f", Level::Error, "t"),
        code: None,
        secondary: Vec::new(),
        level: None,
    };
    let d10 = Diagnostic {
        primary: ann(0, ten.len(), "f", Level::Error, "t"),
        code: None,
        secondary: Vec::new(),
        level: None,
    };
    let lines9 = normalize(&render_lines(&d9, &nine.as_str()).unwrap());
    let lines10 = normalize(&render_lines(&d10, &ten.as_str()).unwrap());
    assert_eq!(line_num_width(&lines9), 1);
    assert_eq!(line_num_width(&lines10), 2);
}

#[test]
fn renders_info_underline_and_origin() {
    let source = "ab\ncd";
    let d = Diagnostic {
        primary: ann(0, 5, "f", Level::Error, "t"),
        code: None,
        secondary: vec![ann(3, 5, "f", Level::Info, "msg")],
        level: None,
    };
    let segments = render(&d, &source, &Rustc).unwrap();
    assert_eq!(
        rendered_text(&segments),
        "error: t\n f:1:1\n\n1 | ab\n2 | cd\n  |-- msg\n"
    );
}

#[test]
fn builders_assemble_the_diagnostic() {
    let span = SourceSpan { start: 1, end: 4, origin: "f" };
    let a = Annotation::build().span(span).message(String::from("m")).level(Level::Warning).build();
    assert_eq!(a.span, span);
    assert_eq!(a.message, "m");
    assert_eq!(a.level, Level::Warning);
    let defaulted: Annotation<SourceSpan<'_>> = Annotation::build().span(span).build();
    assert_eq!(defaulted.level, Level::Error);
    assert_eq!(defaulted.message, "");
    let d = Diagnostic::build()
        .primary(ann(0, 5, "f", Level::Error, "p"))
        .code(String::from("E7"))
        .secondary(ann(1, 2, "f", Level::Info, "s1"))
        .secondary(ann(2, 3, "f", Level::Hint, "s2"))
        .level(Level::Warning)
        .build();
    assert_eq!(d.primary.message, "p");
    assert_eq!(d.code.as_deref(), Some("E7"));
    assert_eq!(d.secondary.len(), 2);
    assert_eq!(d.secondary[0].message, "s1");
    assert_eq!(d.secondary[1].message, "s2");
    assert_eq!(d.level, Some(Level::Warning));
}

#[test]
fn level_labels_are_canonical() {
    assert_eq!(Level::Error.label(), "error");
    assert_eq!(Level::Warning.label(), "warning");
    assert_eq!(Level::Info.label(), "info");
    assert_eq!(Level::Hint.label(), "note");
}

#[test]
fn mark_kind_glyphs() {
    assert_eq!(MarkKind::DownRight.as_ascii(), '\\');
    assert_eq!(MarkKind::UpRight.as_ascii(), '/');
    assert_eq!(MarkKind::DoubleVertical.as_ascii(), '|');
    assert_eq!(MarkKind::VerticalHorizontal.as_ascii(), '+');
    assert_eq!(MarkKind::DownRight.as_box_drawing(), '┌');
    assert_eq!(MarkKind::DoubleUpLeft.as_box_drawing(), '╝');
    assert_eq!(MarkKind::Vertical.as_box_drawing(), '│');
}

#[test]
fn digit_width_of_common_values() {
    assert_eq!(log10usize(0), 0);
    assert_eq!(log10usize(1), 1);
    assert_eq!(log10usize(9), 1);
    assert_eq!(log10usize(10), 2);
    assert_eq!(log10usize(99), 2);
    assert_eq!(log10usize(100), 3);
    assert_eq!(log10usize(1000), 4);
}

#[test]
fn renders_two_digit_line_numbers() {
    let twelve = vec!["xy"; 12].join("\n");
    let d = Diagnostic {
        primary: ann(33, 35, "f", Level::Error, "t"),
        code: None,
        secondary: Vec::new(),
        level: None,
    };
    let segments = render(&d, &twelve.as_str(), &Rustc).unwrap();
    assert_eq!(rendered_text(&segments), "error: t\n  f:12:1\n\n12 | xy\n   |^^ t\n");
}

#[test]
fn renders_empty_source_line() {
    let source = "";
    let d = Diagnostic {
        primary: ann(0, 0, "f", Level::Error, "m"),
        code: None,
        secondary: Vec::new(),
        level: None,
    };
    let segments = render(&d, &source, &Rustc).unwrap();
    assert_eq!(rendered_text(&segments), "error: m\n f:1:1\n\n1 | \n  | m\n");
}

#[test]
fn secondary_covering_whole_primary_ends_on_last_line() {
    let source = "ab\ncd";
    let d = Diagnostic {
        primary: ann(0, 5, "f", Level::Error, "t"),
        code: None,
        secondary: vec![ann(0, 5, "f", Level::Warning, "all of it")],
        level: None,
    };
    let lines = render_lines(&d, &source).unwrap();
    assert_eq!(lines.len(), 6);
    match &lines[3] {
        RenderLine::Source { marks, .. } => assert_eq!(marks.as_slice(), &[Mark::Start]),
        other => panic!("expected line one, got {:?}", other),
    }
    match &lines[4] {
        RenderLine::Source { marks, .. } => assert_eq!(marks.as_slice(), &[Mark::Continue]),
        other => panic!("expected line two, got {:?}", other),
    }
    match &lines[5] {
        RenderLine::AnnotationText { marks, underline_start, underline_end, .. } => {
            assert_eq!(marks.as_slice(), &[Mark::End]);
            assert_eq!((*underline_start, *underline_end), (0, 2));
        }
        other => panic!("expected the annotation after line two, got {:?}", other),
    }
}

#[test]
fn rendering_is_deterministic() {
    let source = "ab\ncd\nef";
    let build = || Diagnostic {
        primary: ann(0, 8, "f", Level::Error, "t"),
        code: Some(String::from("E2")),
        secondary: vec![
            ann(0, 2, "f", Level::Info, "first"),
            ann(3, 8, "f", Level::Warning, "rest"),
        ],
        level: None,
    };
    let first = render(&build(), &source, &Rustc).unwrap();
    let second = render(&build(), &source, &Rustc).unwrap();
    assert_eq!(first.len(), second.len());
    assert_eq!(rendered_text(&first), rendered_text(&second));
}

#[test]
fn primary_shares_its_line_with_a_secondary() {
    let source = "hello";
    let d = Diagnostic {
        primary: ann(0, 5, "f", Level::Error, "p"),
        code: None,
        secondary: vec![ann(1, 3, "f", Level::Info, "s")],
        level: None,
    };
    let lines = render_lines(&d, &source).unwrap();
    // The primary's underline comes first, then the secondary's, in the
    // seeding order.
    assert_eq!(lines.len(), 6);
    match &lines[4] {
        RenderLine::AnnotationText { underline_start, underline_end, level, message, .. } => {
            assert_eq!((*underline_start, *underline_end), (0, 5));
            assert_eq!(*level, Level::Error);
            assert_eq!(message, "p");
        }
        other => panic!("expected the primary's underline first, got {:?}", other),
    }
    match &lines[5] {
        RenderLine::AnnotationText { underline_start, underline_end, level, message, .. } => {
            assert_eq!((*underline_start, *underline_end), (1, 3));
            assert_eq!(*level, Level::Info);
            assert_eq!(message, "s");
        }
        other => panic!("expected the secondary's underline second, got {:?}", other),
    }
}

#[test]
fn identical_spans_render_as_separate_lines() {
    // Annotations identical in span but different in severity each keep
    // their own message line, in the order they were given.
    let source = "ab";
    let d = Diagnostic {
        primary: ann(0, 2, "f", Level::Error, "p"),
        code: None,
        secondary: vec![
            ann(0, 2, "f", Level::Info, "one"),
            ann(0, 2, "f", Level::Warning, "two"),
        ],
        level: None,
    };
    let lines = render_lines(&d, &source).unwrap();
    assert_eq!(lines.len(), 7);
    let message_of = |i: usize| match &lines[i] {
        RenderLine::AnnotationText { message, .. } => message.clone(),
        other => panic!("expected a message line, got {:?}", other),
    };
    assert_eq!(message_of(4), "p");
    assert_eq!(message_of(5), "one");
    assert_eq!(message_of(6), "two");
}
