use php_checker::analyzer::diagnostic::Diagnostic;
use php_checker::analyzer::parser::{ParsedSource, TreeSitterPhpParser};
use php_checker::analyzer::project::ProjectContext;
use php_checker::analyzer::fix::try_apply_text_edits;
use php_checker::analyzer::rules::{DiagnosticRule, UnusedUseRule};

fn parse_php_with_path(source: &str, path: &str) -> ParsedSource {
    let mut parser = TreeSitterPhpParser::new().expect("failed to load tree-sitter-php language");
    parser
        .parse_source(path, source)
        .expect("failed to parse PHP source")
}

fn parse_php(source: &str) -> ParsedSource {
    parse_php_with_path(source, "test.php")
}

fn run_rule<R: DiagnosticRule>(rule: &R, parsed: &ParsedSource) -> Vec<Diagnostic> {
    let context = ProjectContext::new();
    rule.run(parsed, &context)
}

fn run_rule_with_context<R: DiagnosticRule>(rule: &R, source: &str) -> Vec<Diagnostic> {
    let parsed_for_context = parse_php(source);
    let parsed_for_rule = parse_php(source);
    let mut context = ProjectContext::new();
    context.insert(parsed_for_context);
    rule.run(&parsed_for_rule, &context)
}

fn text(bytes: &[u8]) -> String {
    String::from_utf8(bytes.to_vec()).expect("text is UTF-8")
}

fn summaries(diagnostics: &[Diagnostic]) -> Vec<String> {
    diagnostics.iter().map(|d| text(&d.summary())).collect()
}

fn assert_no_diagnostics(diagnostics: &[Diagnostic]) {
    let lines = summaries(diagnostics);
    assert!(lines.is_empty(), "expected no diagnostics, but got: {lines:?}");
}

fn assert_diagnostics_exact(diagnostics: &[Diagnostic], expected_lines: &[&str]) {
    let actual_lines = summaries(diagnostics);
    assert_eq!(
        actual_lines.len(),
        expected_lines.len(),
        "expected {expected_lines:?}, got {actual_lines:?}"
    );
    for (i, expected_line) in expected_lines.iter().enumerate() {
        let expected_parts: Vec<&str> = expected_line.splitn(2, ':').collect();
        if expected_parts.len() != 2 {
            continue;
        }
        let expected_severity = expected_parts[0].trim();
        let expected_msg = expected_parts[1].trim();
        assert_eq!(diagnostics[i].severity.label(), expected_severity);
        let actual_msg = text(&diagnostics[i].message);
        if actual_msg != expected_msg {
            let expected_core = expected_msg.rsplitn(2, " at ").nth(1).unwrap_or(expected_msg);
            let actual_core = actual_msg.rsplitn(2, " at ").nth(1).unwrap_or(&actual_msg);
            assert!(
                actual_core.trim() == expected_core.trim()
                    || actual_msg.contains(expected_core.trim()),
                "diagnostic {}: expected {expected_msg:?}, got {actual_msg:?}",
                i + 1
            );
        }
    }
}

fn assert_fix_with_context<R: DiagnosticRule>(rule: &R, input: &str, expected: &str) {
    let parsed_for_context = parse_php(input);
    let parsed_for_rule = parse_php(input);
    let mut context = ProjectContext::new();
    context.insert(parsed_for_context);
    let edits = rule.fix(&parsed_for_rule, &context);
    let actual = try_apply_text_edits(input, &edits).expect("edits do not overlap");
    assert_eq!(text(&actual), expected);
}

#[test]
fn test_unused_use() {
    let source = r#"<?php

use Multi\Service as Svc;
use Multi\Client;

Svc\takesTwo(1);

"#;

    let rule = UnusedUseRule::new();
    let diagnostics = run_rule_with_context(&rule, source);

    assert_diagnostics_exact(&diagnostics, &["warning: unused import alias `Client`"]);
}

#[test]
fn test_unused_use_fix() {
    let input = r#"<?php

use Multi\Service as Svc;
use Multi\Client;

Svc\takesTwo(1);

"#;

    let expected = r#"<?php

use Multi\Service as Svc;

Svc\takesTwo(1);

"#;

    let rule = UnusedUseRule::new();
    assert_fix_with_context(&rule, input, expected);
}

#[test]
fn test_unused_use_valid() {
    let source = r#"<?php

use Multi\Service as Svc;

Svc\takesTwo(1);
"#;

    let parsed = parse_php(source);
    let rule = UnusedUseRule::new();
    let diagnostics = run_rule(&rule, &parsed);

    assert_no_diagnostics(&diagnostics);
}

#[test]
fn clauses_that_share_a_declaration_are_reported_but_not_removed() {
    let source = "<?php\nuse A\\First, A\\Second;\nuse B\\_Hidden;\nFirst\\run();\n";
    let diagnostics = run_rule_with_context(&UnusedUseRule::new(), source);
    assert_eq!(
        summaries(&diagnostics),
        vec!["warning: unused import alias `Second`".to_string()]
    );
    assert_fix_with_context(&UnusedUseRule::new(), source, source);
}
