use php_checker::analyzer::diagnostic::Diagnostic;
use php_checker::analyzer::parser::{ParsedSource, TreeSitterPhpParser};
use php_checker::analyzer::project::ProjectContext;
use php_checker::analyzer::rules::{
    DiagnosticRule, DuplicateSwitchCaseRule, FallthroughRule, ImpossibleComparisonRule,
    RedundantConditionRule, UnreachableCodeRule, UnreachableStatementRule,
};

fn parse_php_with_path(source: &str, path: &str) -> ParsedSource {
    let mut parser = TreeSitterPhpParser::new().expect("failed to load tree-sitter-php language");
    parser
        .parse_source(path, source)
        .expect("failed to parse PHP source")
}

fn parse_php(source: &str) -> ParsedSource {
    parse_php_with_path(source, "test.php")
}

fn run_rule<R: DiagnosticRule>(rule: &R, parsed: &ParsedSource) -> Vec<Diagnostic> {
    let context = ProjectContext::new();
    rule.run(parsed, &context)
}

fn run_rule_with_context<R: DiagnosticRule>(rule: &R, source: &str) -> Vec<Diagnostic> {
    let parsed_for_context = parse_php(source);
    let parsed_for_rule = parse_php(source);
    let mut context = ProjectContext::new();
    context.insert(parsed_for_context);
    rule.run(&parsed_for_rule, &context)
}

fn text(bytes: &[u8]) -> String {
    String::from_utf8(bytes.to_vec()).expect("text is UTF-8")
}

fn summaries(diagnostics: &[Diagnostic]) -> Vec<String> {
    diagnostics.iter().map(|d| text(&d.summary())).collect()
}

fn assert_no_diagnostics(diagnostics: &[Diagnostic]) {
    let lines = summaries(diagnostics);
    assert!(lines.is_empty(), "expected no diagnostics, but got: {lines:?}");
}

fn assert_diagnostics_exact(diagnostics: &[Diagnostic], expected_lines: &[&str]) {
    let actual_lines = summaries(diagnostics);
    assert_eq!(
        actual_lines.len(),
        expected_lines.len(),
        "expected {expected_lines:?}, got {actual_lines:?}"
    );
    for (i, expected_line) in expected_lines.iter().enumerate() {
        let expected_parts: Vec<&str> = expected_line.splitn(2, ':').collect();
        if expected_parts.len() != 2 {
            continue;
        }
        let expected_severity = expected_parts[0].trim();
        let expected_msg = expected_parts[1].trim();
        assert_eq!(diagnostics[i].severity.label(), expected_severity);
        let actual_msg = text(&diagnostics[i].message);
        if actual_msg != expected_msg {
            let expected_core = expected_msg.rsplitn(2, " at ").nth(1).unwrap_or(expected_msg);
            let actual_core = actual_msg.rsplitn(2, " at ").nth(1).unwrap_or(&actual_msg);
            assert!(
                actual_core.trim() == expected_core.trim()
                    || actual_msg.contains(expected_core.trim()),
                "diagnostic {}: expected {expected_msg:?}, got {actual_msg:?}",
                i + 1
            );
        }
    }
}

#[test]
fn test_duplicate_switch_case() {
    let source = r#"<?php

$value = 'alpha';

switch ($value) {
    case 'alpha':
        echo 'first alpha';
        break;
    case 'beta':
        echo 'beta';
        break;
    case 'alpha':
        echo 'duplicate alpha';
        break;
    case 1:
        break;
    case 1:
        break;
}

"#;

    let parsed = parse_php(source);
    let rule = DuplicateSwitchCaseRule::new();
    let diagnostics = run_rule(&rule, &parsed);

    assert_diagnostics_exact(&diagnostics, &[
        "warning: duplicate switch case 'alpha'",
        "warning: duplicate switch case 1",
    ]);
}

#[test]
fn test_duplicate_switch_case_valid() {
    let source = r#"<?php
$value = 'alpha';

switch ($value) {
    case 'alpha':
        echo 'alpha';
        break;
    case 'beta':
        echo 'beta';
        break;
}
"#;

    let parsed = parse_php(source);
    let rule = DuplicateSwitchCaseRule::new();
    let diagnostics = run_rule(&rule, &parsed);

    assert_no_diagnostics(&diagnostics);
}

#[test]
fn test_impossible_comparison() {
    let source = r#"<?php

$flag = true;

if ($flag === 5) {
    echo "never happens";
}

"#;

    let parsed = parse_php(source);
    let rule = ImpossibleComparisonRule::new();
    let diagnostics = run_rule(&rule, &parsed);

    assert_diagnostics_exact(&diagnostics, &["error: comparison \"$flag === 5\" is always false due to type difference"]);
}

#[test]
fn test_impossible_comparison_valid() {
    let source = r#"<?php
$flag = true;

if ($flag === true) {
    echo "happens";
}
"#;

    let parsed = parse_php(source);
    let rule = ImpossibleComparisonRule::new();
    let diagnostics = run_rule(&rule, &parsed);

    assert_no_diagnostics(&diagnostics);
}

#[test]
fn test_unreachable() {
    let source = r#"<?php

function alwaysReturnEarly(): void
{
    return;
    echo "this line is unreachable";
}

alwaysReturnEarly();

"#;

    let parsed = parse_php(source);
    let rule = UnreachableCodeRule::new();
    let diagnostics = run_rule(&rule, &parsed);

    assert_diagnostics_exact(&diagnostics, &["warning: unreachable code after return at 6:5"]);
}

#[test]
fn test_unreachable_valid() {
    let source = r#"<?php
function normalFunction(): void
{
    echo "this line is reachable";
    return;
}
"#;

    let parsed = parse_php(source);
    let rule = UnreachableCodeRule::new();
    let diagnostics = run_rule(&rule, &parsed);

    assert_no_diagnostics(&diagnostics);
}

#[test]
fn test_unreachable_statement() {
    let source = r#"<?php

function test_impossible_break(): void {
    $value = 1;
    switch ($value) {
        case 1:
            echo "one";
            break;
            break;
        case 2:
            echo "two";
            return;
            break;
    }
}

function test_impossible_return(): void {
    $value = 1;
    switch ($value) {
        case 1:
            echo "one";
            return;
            return;
        case 2:
            echo "two";
            return;
    }
}

"#;

    let parsed = parse_php(source);
    let rule = UnreachableStatementRule::new();
    let diagnostics = run_rule(&rule, &parsed);

    assert_diagnostics_exact(&diagnostics, &[
        "warning: unreachable break statement",
        "warning: unreachable break statement",
        "warning: unreachable return statement",
    ]);
}

#[test]
fn test_unreachable_statement_valid() {
    let source = r#"<?php
function test_valid(): void {
    $value = 1;
    switch ($value) {
        case 1:
            echo "one";
            break;
        case 2:
            echo "two";
            return;
    }
}
"#;

    let parsed = parse_php(source);
    let rule = UnreachableStatementRule::new();
    let diagnostics = run_rule(&rule, &parsed);

    assert_no_diagnostics(&diagnostics);
}

#[test]
fn a_case_without_a_jump_falls_through() {
    let source = "<?php\nswitch ($x) {\n    case 1:\n        echo 1;\n    case 2:\n        echo 2;\n        break;\n    case 3:\n        echo 3;\n    default:\n        echo 4;\n}\n";
    let diagnostics = run_rule(&FallthroughRule::new(), &parse_php(source));
    assert_eq!(
        summaries(&diagnostics),
        vec!["warning: case falls through to next case without explicit comment".to_string()]
    );
    assert_eq!(diagnostics[0].span.unwrap().start.row, 2);
    let ignored = format!("{source}// php-checker-ignore: control_flow/fallthrough\n");
    assert_no_diagnostics(&run_rule(&FallthroughRule::new(), &parse_php(&ignored)));
}

#[test]
fn a_repeated_guard_under_one_parent_is_redundant() {
    let source = "<?php\nif ($a > 1) { echo 1; }\nif ($b) { echo 2; }\nif ($a > 1) { echo 3; }\nfunction f($a) {\n    if ($a > 1) { echo 4; }\n}\n";
    let diagnostics = run_rule(&RedundantConditionRule::new(), &parse_php(source));
    assert_eq!(
        summaries(&diagnostics),
        vec!["error: redundant condition \"$a > 1\" repeats an earlier guard".to_string()]
    );
    let span = diagnostics[0].span.unwrap();
    assert_eq!((span.start.row, span.start.column), (3, 4));
}

#[test]
fn findings_of_a_block_come_before_those_of_the_blocks_inside_it() {
    let source = "<?php\nfunction f() {\n    return 1;\n    if (true) {\n        return 2;\n        echo 'inner';\n    }\n    echo 'outer';\n}\n";
    let diagnostics = run_rule(&UnreachableCodeRule::new(), &parse_php(source));
    assert_eq!(
        summaries(&diagnostics),
        vec![
            "warning: unreachable code after return at 4:5".to_string(),
            "warning: unreachable code after return at 8:5".to_string(),
            "warning: unreachable code after return at 6:9".to_string(),
        ]
    );
}
