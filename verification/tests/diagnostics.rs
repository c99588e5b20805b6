use php_checker::analyzer::diagnostic::{Diagnostic, Severity};
use php_checker::analyzer::rules::helpers::{line_at, newline_for_source};
use php_checker::analyzer::syntax::{Position, Span};

fn sample() -> Diagnostic {
    let span = Span {
        start: Position { row: 1, column: 2 },
        end: Position { row: 1, column: 5 },
    };
    Diagnostic::with_span(
        "example.php".into(),
        Severity::Warning,
        "example message".into(),
        span,
        Some("before".into()),
        Some("line".into()),
        Some("after".into()),
        Some(4),
        3,
    )
}

#[test]
fn diagnostic_to_json_includes_span_and_snippets() {
    let diag = sample();

    let json = diag.to_json();

    assert_eq!(json.file, b"example.php");
    assert_eq!(json.severity, Severity::Warning);
    let span_json = json.span.as_ref().expect("span should be set");
    assert_eq!(span_json.start.row, 1);
    assert_eq!(span_json.start.column, 2);
    assert_eq!(span_json.end.column, 5);
    assert_eq!(json.snippet_before.as_deref(), Some(&b"before"[..]));
    assert_eq!(json.snippet_line.as_deref(), Some(&b"line"[..]));
    assert_eq!(json.snippet_after.as_deref(), Some(&b"after"[..]));
    assert_eq!(json.caret_col, Some(4));
    assert_eq!(json.caret_len, 3);
}

#[test]
fn rendering_shows_the_line_with_carets_under_the_finding() {
    let mut diag = sample();
    diag.rule_name = Some("cleanup/unused_use".into());
    let rendered = String::from_utf8(diag.render()).unwrap();
    let expected = [
        "\x1b[1;33mwarning\x1b[0m [cleanup/unused_use]: example message\n",
        " --> example.php:2:3\n",
        "\x1b[34m    |\x1b[0m\n",
        "\x1b[34m  1\x1b[0m \x1b[34m|\x1b[0m \x1b[2mbefore\x1b[0m\n",
        "\x1b[34m  2\x1b[0m \x1b[34m|\x1b[0m line\n",
        "\x1b[34m    |\x1b[0m     \x1b[1;33m^^^\x1b[0m\n",
        "\x1b[34m  3\x1b[0m \x1b[34m|\x1b[0m \x1b[2mafter\x1b[0m\n",
    ]
    .concat();
    assert_eq!(rendered, expected);
}

#[test]
fn rendering_without_a_span_names_the_file_only() {
    let diag = Diagnostic::new("dir/file.php".into(), Severity::Error, "broken".into());
    assert_eq!(diag.caret_len, 1);
    assert_eq!(
        String::from_utf8(diag.render()).unwrap(),
        "\x1b[1;31merror\x1b[0m: broken\n --> dir/file.php\n"
    );
    assert_eq!(diag.summary(), b"error: broken");
    assert_eq!(Severity::Info.label(), "info");
    let copy = diag.duplicate();
    assert_eq!(copy.message, diag.message);
    assert_eq!(copy.file, diag.file);
}

#[test]
fn a_caret_is_at_least_one_column_wide() {
    let span = Span {
        start: Position { row: 1234, column: 0 },
        end: Position { row: 1234, column: 0 },
    };
    let diag = Diagnostic::with_span(
        "a.php".into(),
        Severity::Info,
        "note".into(),
        span,
        None,
        Some("x".into()),
        None,
        None,
        0,
    );
    assert_eq!(diag.caret_len, 1);
    let rendered = String::from_utf8(diag.render()).unwrap();
    assert!(rendered.contains(" --> a.php:1235:1\n"));
    assert!(rendered.contains("\x1b[34m1235\x1b[0m \x1b[34m|\x1b[0m x\n"));
    assert!(rendered.contains("\x1b[34m    |\x1b[0m \x1b[1;31m^\x1b[0m\n"));
}

#[test]
fn lines_are_found_by_row() {
    let source = "first\r\nsecond\n\nlast";
    assert_eq!(line_at(source, 0), Some(b"first".to_vec()));
    assert_eq!(line_at(source, 1), Some(b"second".to_vec()));
    assert_eq!(line_at(source, 2), Some(Vec::new()));
    assert_eq!(line_at(source, 3), Some(b"last".to_vec()));
    assert_eq!(line_at(source, 4), None);
    assert_eq!(line_at("one\n", 1), None);
    assert_eq!(line_at("", 0), None);
    assert_eq!(newline_for_source(source), "\r\n");
    assert_eq!(newline_for_source("a\nb\r"), "\n");
}
