use php_checker::analyzer::diagnostic::Diagnostic;
use php_checker::analyzer::parser::{ParsedSource, TreeSitterPhpParser};
use php_checker::analyzer::project::ProjectContext;
use php_checker::analyzer::rules::{DiagnosticRule, UndefinedVariableRule};

fn parse_php_with_path(source: &str, path: &str) -> ParsedSource {
    let mut parser = TreeSitterPhpParser::new().expect("failed to load tree-sitter-php language");
    parser
        .parse_source(path, source)
        .expect("failed to parse PHP source")
}

fn parse_php(source: &str) -> ParsedSource {
    parse_php_with_path(source, "test.php")
}

fn run_rule<R: DiagnosticRule>(rule: &R, parsed: &ParsedSource) -> Vec<Diagnostic> {
    let context = ProjectContext::new();
    rule.run(parsed, &context)
}

fn run_rule_with_context<R: DiagnosticRule>(rule: &R, source: &str) -> Vec<Diagnostic> {
    let parsed_for_context = parse_php(source);
    let parsed_for_rule = parse_php(source);
    let mut context = ProjectContext::new();
    context.insert(parsed_for_context);
    rule.run(&parsed_for_rule, &context)
}

fn text(bytes: &[u8]) -> String {
    String::from_utf8(bytes.to_vec()).expect("text is UTF-8")
}

fn summaries(diagnostics: &[Diagnostic]) -> Vec<String> {
    diagnostics.iter().map(|d| text(&d.summary())).collect()
}

fn assert_no_diagnostics(diagnostics: &[Diagnostic]) {
    let lines = summaries(diagnostics);
    assert!(lines.is_empty(), "expected no diagnostics, but got: {lines:?}");
}

fn assert_diagnostics_exact(diagnostics: &[Diagnostic], expected_lines: &[&str]) {
    let actual_lines = summaries(diagnostics);
    assert_eq!(
        actual_lines.len(),
        expected_lines.len(),
        "expected {expected_lines:?}, got {actual_lines:?}"
    );
    for (i, expected_line) in expected_lines.iter().enumerate() {
        let expected_parts: Vec<&str> = expected_line.splitn(2, ':').collect();
        if expected_parts.len() != 2 {
            continue;
        }
        let expected_severity = expected_parts[0].trim();
        let expected_msg = expected_parts[1].trim();
        assert_eq!(diagnostics[i].severity.label(), expected_severity);
        let actual_msg = text(&diagnostics[i].message);
        if actual_msg != expected_msg {
            let expected_core = expected_msg.rsplitn(2, " at ").nth(1).unwrap_or(expected_msg);
            let actual_core = actual_msg.rsplitn(2, " at ").nth(1).unwrap_or(&actual_msg);
            assert!(
                actual_core.trim() == expected_core.trim()
                    || actual_msg.contains(expected_core.trim()),
                "diagnostic {}: expected {expected_msg:?}, got {actual_msg:?}",
                i + 1
            );
        }
    }
}

#[test]
fn test_undefined_variable() {
    let source = r#"<?php

function divide(int $a, int $b): int
{
    if ($b === 0) {
        return 0;
    }

    return $a / $c;
}

echo divide(10, 2);

"#;

    let parsed = parse_php(source);
    let rule = UndefinedVariableRule::new();
    let diagnostics = run_rule(&rule, &parsed);

    assert_diagnostics_exact(&diagnostics, &["error: undefined variable $c at 11:17"]);
}

#[test]
fn test_undefined_variable_valid() {
    let source = r#"<?php
function divide(int $a, int $b): int
{
    if ($b === 0) {
        return 0;
    }

    return $a / $b;
}

echo divide(10, 2);
"#;

    let parsed = parse_php(source);
    let rule = UndefinedVariableRule::new();
    let diagnostics = run_rule(&rule, &parsed);

    assert_no_diagnostics(&diagnostics);
}

#[test]
fn undefined_variable_is_reported_where_it_is_read() {
    let source = "<?php\nfunction f($a) {\n    return $a + $b;\n}\n$x = 1;\necho $x, $y, $_GET;\n";
    let parsed = parse_php(source);
    let diagnostics = run_rule(&UndefinedVariableRule::new(), &parsed);
    let lines = summaries(&diagnostics);
    assert_eq!(
        lines,
        vec![
            "error: undefined variable $b at 3:17".to_string(),
            "error: undefined variable $y at 6:10".to_string(),
        ]
    );
    let first = &diagnostics[0];
    assert_eq!(first.file, b"test.php".to_vec());
    assert_eq!(first.snippet_before.as_deref(), Some(&b"function f($a) {"[..]));
    assert_eq!(first.snippet_line.as_deref(), Some(&b"    return $a + $b;"[..]));
    assert_eq!(first.snippet_after.as_deref(), Some(&b"}"[..]));
    assert_eq!(first.caret_col, Some(16));
    assert_eq!(first.caret_len, 2);
    assert!(first.rule_name.is_none());
}

#[test]
fn function_scopes_do_not_leak() {
    let source = "<?php\nfunction f() {\n    $inner = 1;\n    return $inner;\n}\necho $inner;\n$outer = 2;\nfunction g() {\n    return $outer;\n}\n";
    let parsed = parse_php(source);
    let diagnostics = run_rule(&UndefinedVariableRule::new(), &parsed);
    let lines = summaries(&diagnostics);
    assert_eq!(
        lines,
        vec![
            "error: undefined variable $inner at 6:6".to_string(),
        ]
    );
}
