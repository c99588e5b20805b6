use php_checker::analyzer::diagnostic::Diagnostic;
use php_checker::analyzer::parser::{ParsedSource, TreeSitterPhpParser};
use php_checker::analyzer::project::ProjectContext;
use php_checker::analyzer::fix::try_apply_text_edits;
use php_checker::analyzer::rules::{
    DiagnosticRule, MissingArgumentRule, MissingReturnRule, StrictTypesRule,
};

fn parse_php_with_path(source: &str, path: &str) -> ParsedSource {
    let mut parser = TreeSitterPhpParser::new().expect("failed to load tree-sitter-php language");
    parser
        .parse_source(path, source)
        .expect("failed to parse PHP source")
}

fn parse_php(source: &str) -> ParsedSource {
    parse_php_with_path(source, "test.php")
}

fn run_rule<R: DiagnosticRule>(rule: &R, parsed: &ParsedSource) -> Vec<Diagnostic> {
    let context = ProjectContext::new();
    rule.run(parsed, &context)
}

fn run_rule_with_context<R: DiagnosticRule>(rule: &R, source: &str) -> Vec<Diagnostic> {
    let parsed_for_context = parse_php(source);
    let parsed_for_rule = parse_php(source);
    let mut context = ProjectContext::new();
    context.insert(parsed_for_context);
    rule.run(&parsed_for_rule, &context)
}

fn text(bytes: &[u8]) -> String {
    String::from_utf8(bytes.to_vec()).expect("text is UTF-8")
}

fn summaries(diagnostics: &[Diagnostic]) -> Vec<String> {
    diagnostics.iter().map(|d| text(&d.summary())).collect()
}

fn assert_no_diagnostics(diagnostics: &[Diagnostic]) {
    let lines = summaries(diagnostics);
    assert!(lines.is_empty(), "expected no diagnostics, but got: {lines:?}");
}

fn assert_diagnostics_exact(diagnostics: &[Diagnostic], expected_lines: &[&str]) {
    let actual_lines = summaries(diagnostics);
    assert_eq!(
        actual_lines.len(),
        expected_lines.len(),
        "expected {expected_lines:?}, got {actual_lines:?}"
    );
    for (i, expected_line) in expected_lines.iter().enumerate() {
        let expected_parts: Vec<&str> = expected_line.splitn(2, ':').collect();
        if expected_parts.len() != 2 {
            continue;
        }
        let expected_severity = expected_parts[0].trim();
        let expected_msg = expected_parts[1].trim();
        assert_eq!(diagnostics[i].severity.label(), expected_severity);
        let actual_msg = text(&diagnostics[i].message);
        if actual_msg != expected_msg {
            let expected_core = expected_msg.rsplitn(2, " at ").nth(1).unwrap_or(expected_msg);
            let actual_core = actual_msg.rsplitn(2, " at ").nth(1).unwrap_or(&actual_msg);
            assert!(
                actual_core.trim() == expected_core.trim()
                    || actual_msg.contains(expected_core.trim()),
                "diagnostic {}: expected {expected_msg:?}, got {actual_msg:?}",
                i + 1
            );
        }
    }
}

fn assert_fix<R: DiagnosticRule>(rule: &R, parsed: &ParsedSource, input: &str, expected: &str) {
    let context = ProjectContext::new();
    let edits = rule.fix(parsed, &context);
    let actual = try_apply_text_edits(input, &edits).expect("edits do not overlap");
    assert_eq!(text(&actual), expected);
}

fn assert_fix_with_path<R: DiagnosticRule>(rule: &R, input: &str, expected: &str, path: &str) {
    let parsed = parse_php_with_path(input, path);
    assert_fix(rule, &parsed, input, expected);
}

fn assert_fix_with_context<R: DiagnosticRule>(rule: &R, input: &str, expected: &str) {
    let parsed_for_context = parse_php(input);
    let parsed_for_rule = parse_php(input);
    let mut context = ProjectContext::new();
    context.insert(parsed_for_context);
    let edits = rule.fix(&parsed_for_rule, &context);
    let actual = try_apply_text_edits(input, &edits).expect("edits do not overlap");
    assert_eq!(text(&actual), expected);
}

#[test]
fn test_missing_argument_file() {
    let source = r#"<?php

function takesTwo(int $a, int $b): void
{
}

takesTwo(1);

"#;

    let rule = MissingArgumentRule::new();
    let diagnostics = run_rule_with_context(&rule, source);

    assert_diagnostics_exact(&diagnostics, &["error: missing required argument 2 for takesTwo"]);
}

#[test]
fn test_missing_argument_valid() {
    let source = r#"<?php
function takesTwo(int $a, int $b): void
{
}

function takesOne(int $a): void
{
}

function takesNone(): void
{
}

// All arguments provided - should be OK
takesTwo(1, 2);
takesOne(1);
takesNone();
"#;

    let rule = MissingArgumentRule::new();
    let diagnostics = run_rule_with_context(&rule, source);

    assert_no_diagnostics(&diagnostics);
}

#[test]
fn defaulted_and_variadic_parameters_are_not_required() {
    let source = "<?php\nfunction f(int $a, int $b = 2, ...$rest): void {}\nf(1);\nf();\n";
    let diagnostics = run_rule_with_context(&MissingArgumentRule::new(), source);
    assert_eq!(
        summaries(&diagnostics),
        vec!["error: missing required argument 1 for f".to_string()]
    );
}

#[test]
fn missing_argument_resolves_through_namespace_and_alias() {
    let library = parse_php_with_path(
        "<?php\nnamespace Multi\\Service;\nfunction takesTwo(int $a, int $b): void {}\n",
        "lib.php",
    );
    let caller_source = "<?php\nuse Multi\\Service as Svc;\nSvc\\takesTwo(1);\n\\Multi\\Service\\takesTwo();\ntakesTwo();\n";
    let mut context = ProjectContext::new();
    context.insert(library);
    context.insert(parse_php_with_path(caller_source, "caller.php"));
    let caller = parse_php_with_path(caller_source, "caller.php");
    let diagnostics = MissingArgumentRule::new().run(&caller, &context);
    assert_eq!(
        summaries(&diagnostics),
        vec![
            "error: missing required argument 2 for Svc\\takesTwo".to_string(),
            "error: missing required argument 1 for \\Multi\\Service\\takesTwo".to_string(),
        ]
    );
}

#[test]
fn test_missing_return_file() {
    let source = r#"<?php

function maybeString(bool $flag)
{
    if ($flag) {
        return 'ok';
    }

    // Missing return for the `false` branch.
}

maybeString(false);

"#;

    let parsed = parse_php(source);
    let rule = MissingReturnRule::new();
    let diagnostics = run_rule(&rule, &parsed);

    assert_diagnostics_exact(&diagnostics, &["error: function maybeString is missing a return on some paths at 3:10"]);
}

#[test]
fn test_missing_return_valid() {
    let source = r#"<?php
// Function with return on all paths - should be OK
function alwaysReturns(bool $flag): string {
    if ($flag) {
        return 'ok';
    } else {
        return 'not ok';
    }
}

// Function with single return - should be OK
function singleReturn(): string {
    return 'single';
}

// Function with void return type - should be OK (no return needed)
function voidFunction(): void {
    // no return needed
}

// Function with early return - should be OK
function earlyReturn(bool $flag): string {
    if ($flag) {
        return 'early';
    }
    return 'late';
}
"#;

    let parsed = parse_php(source);
    let rule = MissingReturnRule::new();
    let diagnostics = run_rule(&rule, &parsed);

    assert_no_diagnostics(&diagnostics);
}

#[test]
fn missing_return_names_row_and_column_of_the_function_name() {
    let source = "<?php\n\nfunction maybeString(bool $flag)\n{\n    if ($flag) {\n        return 'ok';\n    }\n}\n";
    let diagnostics = run_rule(&MissingReturnRule::new(), &parse_php(source));
    assert_eq!(
        summaries(&diagnostics),
        vec!["error: function maybeString is missing a return on some paths at 3:10".to_string()]
    );
}

#[test]
fn an_elseif_without_a_return_is_a_missing_return() {
    let covered = "<?php\nfunction f($a) {\n    if ($a == 1) {\n        return 1;\n    } elseif ($a == 2) {\n        return 2;\n    } else {\n        return 3;\n    }\n}\n";
    assert_no_diagnostics(&run_rule(&MissingReturnRule::new(), &parse_php(covered)));
    let open = "<?php\nfunction f($a) {\n    if ($a == 1) {\n        return 1;\n    } elseif ($a == 2) {\n        $a = 3;\n    } else {\n        return 3;\n    }\n}\n";
    assert_eq!(
        summaries(&run_rule(&MissingReturnRule::new(), &parse_php(open))),
        vec!["error: function f is missing a return on some paths at 2:10".to_string()]
    );
}

#[test]
fn test_strict_missing_file() {
    let source = r#"<?php

namespace StrictMissing;

function example(): void
{
}

"#;

    let parsed = parse_php_with_path(source, "strict_missing.php");
    let rule = StrictTypesRule::new();
    let diagnostics = run_rule(&rule, &parsed);

    assert_diagnostics_exact(&diagnostics, &["warning: file missing `declare(strict_types=1)`"]);
}

#[test]
fn test_strict_types_valid() {
    let source = r#"<?php

declare(strict_types=1);

namespace StrictMissing;

function example(): void
{
}
"#;

    let parsed = parse_php(source);
    let rule = StrictTypesRule::new();
    let diagnostics = run_rule(&rule, &parsed);

    assert_no_diagnostics(&diagnostics);
}

#[test]
fn test_strict_missing_fix() {
    let input = r#"<?php

namespace StrictMissing;

function example(): void
{
}

"#;

    let expected = r#"<?php

declare(strict_types=1);

namespace StrictMissing;

function example(): void
{
}

"#;

    let rule = StrictTypesRule::new();
    assert_fix_with_path(&rule, input, expected, "strict_missing.php");
}

#[test]
fn strict_types_fix_keeps_the_line_ending_of_the_file() {
    let input = "<?php\r\nfunction example(): void {}\r\n";
    let expected = "<?php\r\ndeclare(strict_types=1);\r\n\r\nfunction example(): void {}\r\n";
    assert_fix_with_path(&StrictTypesRule::new(), input, expected, "dir/Strict_Missing_case.php");
    let untouched = "<?php\nfunction example() {}\n";
    assert_fix_with_path(&StrictTypesRule::new(), untouched, untouched, "strict_missing.php");
}
