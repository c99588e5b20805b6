use php_checker::analyzer::diagnostic::Diagnostic;
use php_checker::analyzer::parser::{ParsedSource, TreeSitterPhpParser};
use php_checker::analyzer::project::ProjectContext;
use php_checker::analyzer::rules::{DeprecatedApiRule, DiagnosticRule};

fn parse_php_with_path(source: &str, path: &str) -> ParsedSource {
    let mut parser = TreeSitterPhpParser::new().expect("failed to load tree-sitter-php language");
    parser
        .parse_source(path, source)
        .expect("failed to parse PHP source")
}

fn parse_php(source: &str) -> ParsedSource {
    parse_php_with_path(source, "test.php")
}

fn run_rule<R: DiagnosticRule>(rule: &R, parsed: &ParsedSource) -> Vec<Diagnostic> {
    let context = ProjectContext::new();
    rule.run(parsed, &context)
}

fn run_rule_with_context<R: DiagnosticRule>(rule: &R, source: &str) -> Vec<Diagnostic> {
    let parsed_for_context = parse_php(source);
    let parsed_for_rule = parse_php(source);
    let mut context = ProjectContext::new();
    context.insert(parsed_for_context);
    rule.run(&parsed_for_rule, &context)
}

fn text(bytes: &[u8]) -> String {
    String::from_utf8(bytes.to_vec()).expect("text is UTF-8")
}

fn summaries(diagnostics: &[Diagnostic]) -> Vec<String> {
    diagnostics.iter().map(|d| text(&d.summary())).collect()
}

fn assert_no_diagnostics(diagnostics: &[Diagnostic]) {
    let lines = summaries(diagnostics);
    assert!(lines.is_empty(), "expected no diagnostics, but got: {lines:?}");
}

fn assert_diagnostics_exact(diagnostics: &[Diagnostic], expected_lines: &[&str]) {
    let actual_lines = summaries(diagnostics);
    assert_eq!(
        actual_lines.len(),
        expected_lines.len(),
        "expected {expected_lines:?}, got {actual_lines:?}"
    );
    for (i, expected_line) in expected_lines.iter().enumerate() {
        let expected_parts: Vec<&str> = expected_line.splitn(2, ':').collect();
        if expected_parts.len() != 2 {
            continue;
        }
        let expected_severity = expected_parts[0].trim();
        let expected_msg = expected_parts[1].trim();
        assert_eq!(diagnostics[i].severity.label(), expected_severity);
        let actual_msg = text(&diagnostics[i].message);
        if actual_msg != expected_msg {
            let expected_core = expected_msg.rsplitn(2, " at ").nth(1).unwrap_or(expected_msg);
            let actual_core = actual_msg.rsplitn(2, " at ").nth(1).unwrap_or(&actual_msg);
            assert!(
                actual_core.trim() == expected_core.trim()
                    || actual_msg.contains(expected_core.trim()),
                "diagnostic {}: expected {expected_msg:?}, got {actual_msg:?}",
                i + 1
            );
        }
    }
}

#[test]
fn test_deprecated_api() {
    let source = r#"<?php

mysql_connect('localhost', 'user', 'pass');
create_function('$a', 'return $a;');

"#;

    let parsed = parse_php(source);
    let rule = DeprecatedApiRule::new();
    let diagnostics = run_rule(&rule, &parsed);

    assert_diagnostics_exact(&diagnostics, &[
        "warning: mysql_connect is deprecated; use modern alternatives",
        "warning: create_function is deprecated; use modern alternatives",
    ]);
}

#[test]
fn test_deprecated_api_valid() {
    let source = r#"<?php
mysqli_connect('localhost', 'user', 'pass');
$func = function($a) { return $a; };
"#;

    let parsed = parse_php(source);
    let rule = DeprecatedApiRule::new();
    let diagnostics = run_rule(&rule, &parsed);

    assert_no_diagnostics(&diagnostics);
}

#[test]
fn deprecated_call_points_at_the_function_name() {
    let parsed = parse_php("<?php\n$r = each($list);\n");
    let diagnostics = run_rule_with_context(&DeprecatedApiRule::new(), "<?php\n$r = each($list);\n");
    assert_eq!(
        summaries(&diagnostics),
        vec!["warning: each is deprecated; use modern alternatives".to_string()]
    );
    let span = diagnostics[0].span.expect("the finding has a span");
    assert_eq!((span.start.row, span.start.column), (1, 5));
    assert_eq!((span.end.row, span.end.column), (1, 9));
    assert_eq!(diagnostics[0].caret_len, 4);
    assert_eq!(DeprecatedApiRule::new().name(), "api/deprecated_api");
    assert!(DeprecatedApiRule::new().fix(&parsed, &ProjectContext::new()).is_empty());
}
