use php_checker::analyzer::diagnostic::{Diagnostic, Severity};
use php_checker::analyzer::fix::try_apply_text_edits;
use php_checker::analyzer::parser::{ParsedSource, TreeSitterPhpParser};
use php_checker::analyzer::project::ProjectContext;
use php_checker::analyzer::rules::{DiagnosticRule, MutatingLiteralRule};
use php_checker::analyzer::Analyzer;

fn parse_php_with_path(source: &str, path: &str) -> ParsedSource {
    let mut parser = TreeSitterPhpParser::new().expect("failed to load tree-sitter-php language");
    parser
        .parse_source(path, source)
        .expect("failed to parse PHP source")
}

fn parse_php(source: &str) -> ParsedSource {
    parse_php_with_path(source, "test.php")
}

fn run_rule<R: DiagnosticRule>(rule: &R, parsed: &ParsedSource) -> Vec<Diagnostic> {
    let context = ProjectContext::new();
    rule.run(parsed, &context)
}

fn text(bytes: &[u8]) -> String {
    String::from_utf8(bytes.to_vec()).expect("text is UTF-8")
}

fn assert_fix<R: DiagnosticRule>(rule: &R, parsed: &ParsedSource, input: &str, expected: &str) {
    let context = ProjectContext::new();
    let edits = rule.fix(parsed, &context);
    let actual = try_apply_text_edits(input, &edits).expect("edits do not overlap");
    assert_eq!(text(&actual), expected);
}

#[test]
fn mutating_literal_flags_array_literal_argument() {
    let parsed = parse_php("<?php\nsort([3, 1, 2]);\n");
    let found = run_rule(&MutatingLiteralRule::new(), &parsed);
    assert_eq!(found.len(), 1);
    assert_eq!(found[0].severity, Severity::Warning);
    assert_eq!(
        text(&found[0].message),
        "sort modifies its argument in place; avoid passing literals"
    );
    assert_eq!(found[0].span.unwrap().start.row, 1);
    assert_eq!(found[0].span.unwrap().start.column, 5);
}

#[test]
fn mutating_literal_accepts_variables_and_other_functions() {
    let parsed = parse_php("<?php\n$a = [3, 1];\nsort($a);\ncount([1, 2]);\n");
    let found = run_rule(&MutatingLiteralRule::new(), &parsed);
    assert!(found.is_empty());
}

#[test]
fn mutating_literal_reports_each_literal_of_a_call() {
    let parsed = parse_php("<?php\narray_push([1], [2]);\n");
    let found = run_rule(&MutatingLiteralRule::new(), &parsed);
    assert_eq!(found.len(), 2);
    assert_eq!(found[0].span.unwrap().start.column, 11);
    assert_eq!(found[1].span.unwrap().start.column, 16);
    assert_eq!(
        text(&found[1].message),
        "array_push modifies its argument in place; avoid passing literals"
    );
}

#[test]
fn mutating_literal_fix_moves_literal_into_variable() {
    let input = "<?php\nsort([3, 1, 2]);\n";
    let parsed = parse_php(input);
    assert_fix(
        &MutatingLiteralRule::new(),
        &parsed,
        input,
        "<?php\n$_php_checker_literal_1 = [3, 1, 2];\nsort($_php_checker_literal_1);\n",
    );
}

#[test]
fn mutating_literal_fix_numbers_literals_across_statements() {
    let input = "<?php\narray_push([1], [2]);\nrsort([9]);\n";
    let parsed = parse_php(input);
    assert_fix(
        &MutatingLiteralRule::new(),
        &parsed,
        input,
        "<?php\n$_php_checker_literal_1 = [1];\n$_php_checker_literal_2 = [2];\narray_push($_php_checker_literal_1, $_php_checker_literal_2);\n$_php_checker_literal_3 = [9];\nrsort($_php_checker_literal_3);\n",
    );
}

#[test]
fn mutating_literal_fix_orders_literals_by_position() {
    let input = "<?php\nsort(array_pop([1]), [2]);\n";
    let parsed = parse_php(input);
    assert_fix(
        &MutatingLiteralRule::new(),
        &parsed,
        input,
        "<?php\n$_php_checker_literal_1 = [1];\n$_php_checker_literal_2 = [2];\nsort(array_pop($_php_checker_literal_1), $_php_checker_literal_2);\n",
    );
}

#[test]
fn mutating_literal_fix_keeps_carriage_returns() {
    let input = "<?php\r\nksort([1]);\r\n";
    let parsed = parse_php(input);
    assert_fix(
        &MutatingLiteralRule::new(),
        &parsed,
        input,
        "<?php\r\n$_php_checker_literal_1 = [1];\r\nksort($_php_checker_literal_1);\r\n",
    );
}

#[test]
fn mutating_literal_fix_leaves_clean_source_alone() {
    let input = "<?php\n$a = [1];\nsort($a);\n";
    let parsed = parse_php(input);
    let edits = MutatingLiteralRule::new().fix(&parsed, &ProjectContext::new());
    assert!(edits.is_empty());
    assert_eq!(text(&try_apply_text_edits(input, &edits).unwrap()), input);
}

#[test]
fn analyzer_runs_mutating_literal_rule() {
    let mut analyzer = Analyzer::new(None).expect("analyzer");
    let source = "<?php\n// php-checker-test: only-rules=security/mutating_literal\nasort([2, 1]);\n";
    let found: Vec<Diagnostic> = analyzer.analyse_file("test.php", source).expect("parses");
    assert_eq!(found.len(), 1);
    assert_eq!(text(found[0].rule_name.as_ref().expect("tagged")), "security/mutating_literal");
}
