use php_checker::analyzer::diagnostic::Diagnostic;
use php_checker::analyzer::parser::{ParsedSource, TreeSitterPhpParser};
use php_checker::analyzer::project::ProjectContext;
use php_checker::analyzer::phpdoc::{extract_phpdoc_for_node, find_preceding_comment, TypeExpression};
use php_checker::analyzer::rules::{DiagnosticRule, PhpDocReturnCheckRule};

fn parse_php_with_path(source: &str, path: &str) -> ParsedSource {
    let mut parser = TreeSitterPhpParser::new().expect("failed to load tree-sitter-php language");
    parser
        .parse_source(path, source)
        .expect("failed to parse PHP source")
}

fn parse_php(source: &str) -> ParsedSource {
    parse_php_with_path(source, "test.php")
}

fn run_rule<R: DiagnosticRule>(rule: &R, parsed: &ParsedSource) -> Vec<Diagnostic> {
    let context = ProjectContext::new();
    rule.run(parsed, &context)
}

fn run_rule_with_context<R: DiagnosticRule>(rule: &R, source: &str) -> Vec<Diagnostic> {
    let parsed_for_context = parse_php(source);
    let parsed_for_rule = parse_php(source);
    let mut context = ProjectContext::new();
    context.insert(parsed_for_context);
    rule.run(&parsed_for_rule, &context)
}

fn text(bytes: &[u8]) -> String {
    String::from_utf8(bytes.to_vec()).expect("text is UTF-8")
}

fn summaries(diagnostics: &[Diagnostic]) -> Vec<String> {
    diagnostics.iter().map(|d| text(&d.summary())).collect()
}

fn assert_no_diagnostics(diagnostics: &[Diagnostic]) {
    let lines = summaries(diagnostics);
    assert!(lines.is_empty(), "expected no diagnostics, but got: {lines:?}");
}

fn assert_diagnostics_exact(diagnostics: &[Diagnostic], expected_lines: &[&str]) {
    let actual_lines = summaries(diagnostics);
    assert_eq!(
        actual_lines.len(),
        expected_lines.len(),
        "expected {expected_lines:?}, got {actual_lines:?}"
    );
    for (i, expected_line) in expected_lines.iter().enumerate() {
        let expected_parts: Vec<&str> = expected_line.splitn(2, ':').collect();
        if expected_parts.len() != 2 {
            continue;
        }
        let expected_severity = expected_parts[0].trim();
        let expected_msg = expected_parts[1].trim();
        assert_eq!(diagnostics[i].severity.label(), expected_severity);
        let actual_msg = text(&diagnostics[i].message);
        if actual_msg != expected_msg {
            let expected_core = expected_msg.rsplitn(2, " at ").nth(1).unwrap_or(expected_msg);
            let actual_core = actual_msg.rsplitn(2, " at ").nth(1).unwrap_or(&actual_msg);
            assert!(
                actual_core.trim() == expected_core.trim()
                    || actual_msg.contains(expected_core.trim()),
                "diagnostic {}: expected {expected_msg:?}, got {actual_msg:?}",
                i + 1
            );
        }
    }
}

fn first_of_kind(parsed: &ParsedSource, kind: &str) -> usize {
    (0..parsed.tree.len())
        .find(|&i| parsed.tree.is_kind(i, kind))
        .expect("the tree holds a node of that kind")
}

#[test]
fn test_extract_phpdoc_from_function() {
    let php_code = r#"<?php
/**
 * @param int $value
 * @return string
 */
function test($value) {
    return "test";
}
"#;

    let parsed = parse_php(php_code);
    let function_node = first_of_kind(&parsed, "function_definition");
    let phpdoc = extract_phpdoc_for_node(&parsed, function_node);

    assert!(phpdoc.is_some());
    let doc = phpdoc.unwrap();
    assert_eq!(doc.params.len(), 1);
    assert!(doc.return_tag.is_some());
}

#[test]
fn the_comment_in_front_of_a_node_is_found() {
    let parsed = parse_php("<?php\n// plain\n/** @var int $x */\n$x = 1;\n$y = 2;\n");
    let first = first_of_kind(&parsed, "expression_statement");
    let doc = extract_phpdoc_for_node(&parsed, first).expect("the statement is documented");
    let var_tag = doc.var_tag.expect("the comment holds a @var tag");
    assert_eq!(var_tag.name, Some(b"x".to_vec()));
    assert_eq!(var_tag.type_expr, TypeExpression::Simple(b"int".to_vec()));
    let comment = find_preceding_comment(&parsed, first).expect("a comment stands in front");
    assert!(parsed.tree.is_kind(comment, "comment"));
    assert_eq!(parsed.tree.nodes[comment].start.row, 1);
    assert_eq!(find_preceding_comment(&parsed, 0), None);
    assert!(extract_phpdoc_for_node(&parsed, 0).is_none());
}

#[test]
fn test_return_type_conflict() {
    let source = r#"<?php
/**
 * @return string
 */
function test(): int {
    return 42;
}
"#;

    let parsed = parse_php(source);
    let context = ProjectContext::new();

    let rule = PhpDocReturnCheckRule::new();
    let diagnostics = rule.run(&parsed, &context);

    assert_eq!(diagnostics.len(), 1);
    assert!(
        text(&diagnostics[0].message)
            .contains("@return type 'string' conflicts with native return type hint 'int'")
    );
}

#[test]
fn test_return_type_matches() {
    let source = r#"<?php
/**
 * @return int
 */
function test(): int {
    return 42;
}
"#;

    let parsed = parse_php(source);
    let context = ProjectContext::new();

    let rule = PhpDocReturnCheckRule::new();
    let diagnostics = rule.run(&parsed, &context);

    assert_eq!(diagnostics.len(), 0);
}

#[test]
fn test_method_return_type_conflict() {
    let source = r#"<?php
class Test {
    /**
     * @return bool
     */
    public function check(): int {
        return 1;
    }
}
"#;

    let parsed = parse_php(source);
    let context = ProjectContext::new();

    let rule = PhpDocReturnCheckRule::new();
    let diagnostics = rule.run(&parsed, &context);

    assert_eq!(diagnostics.len(), 1);
    assert!(text(&diagnostics[0].message).contains("@return type 'bool'"));
}

#[test]
fn return_conflict_is_anchored_at_the_native_type() {
    let source = "<?php\n/**\n * @return string\n */\nfunction test(): int {\n    return 42;\n}\n";
    let diagnostics = run_rule(&PhpDocReturnCheckRule::new(), &parse_php(source));
    assert_eq!(
        summaries(&diagnostics),
        vec!["error: @return type 'string' conflicts with native return type hint 'int'".to_string()]
    );
    let span = diagnostics[0].span.expect("the finding has a span");
    assert_eq!((span.start.row, span.start.column), (4, 17));
    assert_eq!((span.end.row, span.end.column), (4, 20));
}

#[test]
fn nullable_and_union_return_types_are_reconciled() {
    let agreeing = "<?php\n/** @return string */\nfunction a(): ?string {}\n/** @return int|string */\nfunction b(): int {}\n/** @return mixed */\nfunction e(): int {}\n/** @return User */\nfunction f(): User {}\n/** @return ?int */\nfunction g(): int {}\n";
    assert_no_diagnostics(&run_rule(&PhpDocReturnCheckRule::new(), &parse_php(agreeing)));
    let conflicting = "<?php\n/** @return ?int */\nfunction a(): ?string {}\n/** @return int|bool */\nfunction b(): int|string {}\n/** @return int[] */\nfunction c(): int {}\n/** @return array<string, int> */\nfunction d(): array {}\n";
    assert_eq!(
        summaries(&run_rule(&PhpDocReturnCheckRule::new(), &parse_php(conflicting))),
        vec![
            "error: @return type '?int' conflicts with native return type hint '?string'".to_string(),
            "error: @return type 'int|bool' conflicts with native return type hint 'int|string'".to_string(),
            "error: @return type 'int[]' conflicts with native return type hint 'int'".to_string(),
            "error: @return type 'array<string,' conflicts with native return type hint 'array'".to_string(),
        ]
    );
}
