use cargo_scout_lib::clippy::{candidate_lines, is_reportable, reportable_lints, Lint, Linter, Message, Span};

fn lint_with_spans(spans: Vec<Span>) -> Lint {
    Lint {
        package_id: "cargo-scout".to_string(),
        src_path: Some("test/foo/bar.rs".to_string()),
        message: Some(Message {
            rendered: "this is a test lint".to_string(),
            spans,
        }),
    }
}

fn span(file_name: &str, line_start: i32, line_end: i32) -> Span {
    Span {
        file_name: file_name.to_string(),
        line_start,
        line_end,
    }
}

#[test]
fn clippy_test_set_verbose() {
    let mut linter = Linter::new();
    assert_eq!(false, linter.verbose());

    let l2 = linter.set_verbose(true);
    assert_eq!(true, l2.verbose());

    let l3 = l2.set_verbose(false);
    assert_eq!(false, l3.verbose());
}

#[test]
fn only_brace_lines_are_records() {
    let output = "Compiling foo\n{\"a\": 1}\n   {\"indented\": 2}\n\n{\"b\": 2}\r\n{";
    assert_eq!(
        vec!["{\"a\": 1}".to_string(), "{\"b\": 2}".to_string(), "{".to_string()],
        candidate_lines(output)
    );
    assert!(candidate_lines("").is_empty());
}

#[test]
fn records_without_spans_are_dropped() {
    let spanned = lint_with_spans(vec![span("test/foo/baz.rs", 10, 12)]);
    let empty = lint_with_spans(vec![]);
    let bare = Lint {
        package_id: "p".to_string(),
        src_path: None,
        message: None,
    };
    assert!(is_reportable(&spanned));
    assert!(!is_reportable(&empty));
    assert!(!is_reportable(&bare));
    assert_eq!(
        vec![spanned.clone()],
        reportable_lints(vec![empty, spanned, bare])
    );
}

#[test]
fn one_finding_per_span() {
    let lint = lint_with_spans(vec![
        span("a.rs", 10, 12),
        span("b.rs", -1, 3),
        span("c.rs", 4, 4),
    ]);
    let found = lint.findings();
    assert_eq!(2, found.len());
    assert_eq!("a.rs", found[0].location.path);
    assert_eq!([10, 12], found[0].location.lines);
    assert_eq!("this is a test lint", found[0].message);
    assert_eq!("c.rs", found[1].location.path);
    assert_eq!([4, 4], found[1].location.lines);
}
