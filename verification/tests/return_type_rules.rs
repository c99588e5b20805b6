use php_checker::analyzer::diagnostic::Diagnostic;
use php_checker::analyzer::parser::{ParsedSource, TreeSitterPhpParser};
use php_checker::analyzer::project::ProjectContext;
use php_checker::analyzer::rules::{
    ConsistentReturnRule, DiagnosticRule, ForceReturnTypeRule, TypeMismatchRule,
};

fn parse_php_with_path(source: &str, path: &str) -> ParsedSource {
    let mut parser = TreeSitterPhpParser::new().expect("failed to load tree-sitter-php language");
    parser
        .parse_source(path, source)
        .expect("failed to parse PHP source")
}

fn parse_php(source: &str) -> ParsedSource {
    parse_php_with_path(source, "test.php")
}

fn run_rule<R: DiagnosticRule>(rule: &R, parsed: &ParsedSource) -> Vec<Diagnostic> {
    let context = ProjectContext::new();
    rule.run(parsed, &context)
}

fn run_rule_with_context<R: DiagnosticRule>(rule: &R, source: &str) -> Vec<Diagnostic> {
    let parsed_for_context = parse_php(source);
    let parsed_for_rule = parse_php(source);
    let mut context = ProjectContext::new();
    context.insert(parsed_for_context);
    rule.run(&parsed_for_rule, &context)
}

fn text(bytes: &[u8]) -> String {
    String::from_utf8(bytes.to_vec()).expect("text is UTF-8")
}

fn summaries(diagnostics: &[Diagnostic]) -> Vec<String> {
    diagnostics.iter().map(|d| text(&d.summary())).collect()
}

fn assert_no_diagnostics(diagnostics: &[Diagnostic]) {
    let lines = summaries(diagnostics);
    assert!(lines.is_empty(), "expected no diagnostics, but got: {lines:?}");
}

fn assert_diagnostics_exact(diagnostics: &[Diagnostic], expected_lines: &[&str]) {
    let actual_lines = summaries(diagnostics);
    assert_eq!(
        actual_lines.len(),
        expected_lines.len(),
        "expected {expected_lines:?}, got {actual_lines:?}"
    );
    for (i, expected_line) in expected_lines.iter().enumerate() {
        let expected_parts: Vec<&str> = expected_line.splitn(2, ':').collect();
        if expected_parts.len() != 2 {
            continue;
        }
        let expected_severity = expected_parts[0].trim();
        let expected_msg = expected_parts[1].trim();
        assert_eq!(diagnostics[i].severity.label(), expected_severity);
        let actual_msg = text(&diagnostics[i].message);
        if actual_msg != expected_msg {
            let expected_core = expected_msg.rsplitn(2, " at ").nth(1).unwrap_or(expected_msg);
            let actual_core = actual_msg.rsplitn(2, " at ").nth(1).unwrap_or(&actual_msg);
            assert!(
                actual_core.trim() == expected_core.trim()
                    || actual_msg.contains(expected_core.trim()),
                "diagnostic {}: expected {expected_msg:?}, got {actual_msg:?}",
                i + 1
            );
        }
    }
}

#[test]
fn test_force_return_type_file() {
    let source = r#"<?php

// Function without return type - should trigger warning
function noReturnType() {
    return 42;
}

// Function with void return type - should be OK
function withVoidReturnType(): void {
    // no return needed
}

// Function with int return type - should be OK
function withIntReturnType(): int {
    return 42;
}

// Function with string return type - should be OK
function withStringReturnType(): string {
    return "hello";
}

noReturnType();
withVoidReturnType();
withIntReturnType();
withStringReturnType();
"#;

    let parsed = parse_php(source);
    let rule = ForceReturnTypeRule::new();
    let diagnostics = run_rule(&rule, &parsed);

    assert_diagnostics_exact(&diagnostics, &["warning: function noReturnType should have an explicit return type at 4:10"]);
}

#[test]
fn test_force_return_type_valid() {
    let source = r#"<?php
// Function with void return type - should be OK
function withVoidReturnType(): void {
    // no return needed
}

// Function with int return type - should be OK
function withIntReturnType(): int {
    return 42;
}

// Function with string return type - should be OK
function withStringReturnType(): string {
    return "hello";
}

// Function with bool return type - should be OK
function withBoolReturnType(): bool {
    return true;
}
"#;

    let parsed = parse_php(source);
    let rule = ForceReturnTypeRule::new();
    let diagnostics = run_rule(&rule, &parsed);

    assert_no_diagnostics(&diagnostics);
}

#[test]
fn test_inconsistent_return_types() {
    let source = r#"<?php
function test() {
    return 1;
    return "string";
}
"#;

    let parsed = parse_php(source);
    let rule = ConsistentReturnRule::new();
    let diagnostics = run_rule(&rule, &parsed);

    assert!(!diagnostics.is_empty());
    assert!(text(&diagnostics[0].message).contains("inconsistent return type"));
}

#[test]
fn test_consistent_return_file() {
    let source = r#"<?php

// php-checker-ignore: strict_typing/force_return_type,strict_typing/missing_return,control_flow/unreachable

// Function with inconsistent return types - should trigger error
function inconsistentReturns(bool $flag) {
    if ($flag) {
        return 42;  // returns int
    } else {
        return "hello";  // returns string - inconsistent!
    }
}

// Function with consistent return types - should be OK
function consistentReturns(bool $flag) {
    if ($flag) {
        return 42;
    } else {
        return 24;
    }
}

// Function with mixed types including void - should trigger error
function mixedVoidReturns(bool $flag) {
    if ($flag) {
        return 42;  // returns int
    }
    // implicit void return - inconsistent!
}

// Function with only void returns - should be OK
function voidReturns(bool $flag) {
    if ($flag) {
        return;  // explicit void
    }
    // implicit void return
}

// Function with only one return - should be OK
function singleReturn() {
    return "single";
}

// Function with boolean returns - should be OK
function booleanReturns(bool $flag) {
    if ($flag) {
        return true;
    } else {
        return false;
    }
}

inconsistentReturns(true);
consistentReturns(true);
mixedVoidReturns(true);
voidReturns(true);
singleReturn();
booleanReturns(true);
"#;

    let parsed = parse_php(source);
    let rule = ConsistentReturnRule::new();
    let diagnostics = run_rule(&rule, &parsed);

    assert_diagnostics_exact(&diagnostics, &["error: inconsistent return type: expected int, found string at 10:9"]);
}

#[test]
fn test_consistent_return_types_valid() {
    // Test valid cases - consistent return types should not trigger errors
    let source = r#"<?php
// Function with consistent return types - should be OK
function consistentReturns(bool $flag) {
    if ($flag) {
        return 42;
    } else {
        return 24;
    }
}

// Function with only void returns - should be OK
function voidReturns(bool $flag) {
    if ($flag) {
        return;  // explicit void
    }
    // implicit void return
}

// Function with only one return - should be OK
function singleReturn() {
    return "single";
}

// Function with boolean returns - should be OK
function booleanReturns(bool $flag) {
    if ($flag) {
        return true;
    } else {
        return false;
    }
}
"#;

    let parsed = parse_php(source);
    let rule = ConsistentReturnRule::new();
    let diagnostics = run_rule(&rule, &parsed);

    assert_no_diagnostics(&diagnostics);
}

#[test]
fn test_type_mismatch_file() {
    let source = r#"<?php

function takesInt(int $value): void
{
}

takesInt('not-int');

"#;

    let parsed = parse_php(source);
    let rule = TypeMismatchRule::new();
    let diagnostics = run_rule(&rule, &parsed);

    assert_diagnostics_exact(&diagnostics, &["error: type mismatch: argument 1 of takesInt expects int but got string literal at 7:10"]);
}

#[test]
fn test_type_mismatch_valid() {
    // Test valid cases - correct types should not trigger errors
    let source = r#"<?php

function takesInt(int $value): void
{
}

function takesString(string $value): void
{
}

// Correct types - should be OK
takesInt(42);
takesString('hello');
"#;

    let parsed = parse_php(source);
    let rule = TypeMismatchRule::new();
    let diagnostics = run_rule(&rule, &parsed);

    assert_no_diagnostics(&diagnostics);
}

#[test]
fn later_returns_are_held_against_the_first() {
    let source = "<?php\nfunction f($a) {\n    if ($a) {\n        return 1;\n    }\n    if ($a > 1) {\n        return;\n    }\n    return 'text';\n}\n";
    let diagnostics = run_rule(&ConsistentReturnRule::new(), &parse_php(source));
    assert_eq!(
        summaries(&diagnostics),
        vec![
            "error: inconsistent return type: expected int, found void at 7:9".to_string(),
            "error: inconsistent return type: expected int, found string at 9:5".to_string(),
        ]
    );
}

#[test]
fn string_literals_for_int_parameters_are_mismatches() {
    let source = "<?php\nfunction f(int $a, string $b, ?int $c, int ...$d) {}\nf('1', '2', '3', '4', '5');\nf(1, 2);\ng('x');\n";
    let diagnostics = run_rule(&TypeMismatchRule::new(), &parse_php(source));
    assert_eq!(
        summaries(&diagnostics),
        vec![
            "error: type mismatch: argument 1 of f expects int but got string literal at 3:3".to_string(),
            "error: type mismatch: argument 4 of f expects int but got string literal at 3:18".to_string(),
        ]
    );
}
