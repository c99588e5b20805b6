use php_checker::analyzer::diagnostic::Diagnostic;
use php_checker::analyzer::parser::{ParsedSource, TreeSitterPhpParser};
use php_checker::analyzer::project::ProjectContext;
use php_checker::analyzer::fix::try_apply_text_edits;
use php_checker::analyzer::rules::{
    ArrayKeyNotDefinedRule, DiagnosticRule, HardCodedKeysRule, PhpDocParamCheckRule,
    PhpDocReturnValueCheckRule, PhpDocVarCheckRule, UnusedVariableRule,
};

fn parse_php_with_path(source: &str, path: &str) -> ParsedSource {
    let mut parser = TreeSitterPhpParser::new().expect("failed to load tree-sitter-php language");
    parser
        .parse_source(path, source)
        .expect("failed to parse PHP source")
}

fn parse_php(source: &str) -> ParsedSource {
    parse_php_with_path(source, "test.php")
}

fn run_rule<R: DiagnosticRule>(rule: &R, parsed: &ParsedSource) -> Vec<Diagnostic> {
    let context = ProjectContext::new();
    rule.run(parsed, &context)
}

fn run_rule_with_context<R: DiagnosticRule>(rule: &R, source: &str) -> Vec<Diagnostic> {
    let parsed_for_context = parse_php(source);
    let parsed_for_rule = parse_php(source);
    let mut context = ProjectContext::new();
    context.insert(parsed_for_context);
    rule.run(&parsed_for_rule, &context)
}

fn text(bytes: &[u8]) -> String {
    String::from_utf8(bytes.to_vec()).expect("text is UTF-8")
}

fn summaries(diagnostics: &[Diagnostic]) -> Vec<String> {
    diagnostics.iter().map(|d| text(&d.summary())).collect()
}

fn assert_no_diagnostics(diagnostics: &[Diagnostic]) {
    let lines = summaries(diagnostics);
    assert!(lines.is_empty(), "expected no diagnostics, but got: {lines:?}");
}

fn assert_diagnostics_exact(diagnostics: &[Diagnostic], expected_lines: &[&str]) {
    let actual_lines = summaries(diagnostics);
    assert_eq!(
        actual_lines.len(),
        expected_lines.len(),
        "expected {expected_lines:?}, got {actual_lines:?}"
    );
    for (i, expected_line) in expected_lines.iter().enumerate() {
        let expected_parts: Vec<&str> = expected_line.splitn(2, ':').collect();
        if expected_parts.len() != 2 {
            continue;
        }
        let expected_severity = expected_parts[0].trim();
        let expected_msg = expected_parts[1].trim();
        assert_eq!(diagnostics[i].severity.label(), expected_severity);
        let actual_msg = text(&diagnostics[i].message);
        if actual_msg != expected_msg {
            let expected_core = expected_msg.rsplitn(2, " at ").nth(1).unwrap_or(expected_msg);
            let actual_core = actual_msg.rsplitn(2, " at ").nth(1).unwrap_or(&actual_msg);
            assert!(
                actual_core.trim() == expected_core.trim()
                    || actual_msg.contains(expected_core.trim()),
                "diagnostic {}: expected {expected_msg:?}, got {actual_msg:?}",
                i + 1
            );
        }
    }
}

fn assert_fix<R: DiagnosticRule>(rule: &R, parsed: &ParsedSource, input: &str, expected: &str) {
    let context = ProjectContext::new();
    let edits = rule.fix(parsed, &context);
    let actual = try_apply_text_edits(input, &edits).expect("edits do not overlap");
    assert_eq!(text(&actual), expected);
}

fn assert_fix_with_path<R: DiagnosticRule>(rule: &R, input: &str, expected: &str, path: &str) {
    let parsed = parse_php_with_path(input, path);
    assert_fix(rule, &parsed, input, expected);
}

fn assert_fix_with_context<R: DiagnosticRule>(rule: &R, input: &str, expected: &str) {
    let parsed_for_context = parse_php(input);
    let parsed_for_rule = parse_php(input);
    let mut context = ProjectContext::new();
    context.insert(parsed_for_context);
    let edits = rule.fix(&parsed_for_rule, &context);
    let actual = try_apply_text_edits(input, &edits).expect("edits do not overlap");
    assert_eq!(text(&actual), expected);
}

#[test]
fn a_variable_that_is_never_read_is_unused() {
    let source = "<?php\n$kept = 1;\n$dropped = 2;\n$dropped = 3;\n$_ignored = 4;\necho $kept;\nfunction f($param) {\n    $local = $param;\n}\n";
    let diagnostics = run_rule(&UnusedVariableRule::new(), &parse_php(source));
    assert_eq!(
        summaries(&diagnostics),
        vec![
            "error: unused variable $dropped".to_string(),
            "error: unused variable $local".to_string(),
        ]
    );
    assert_eq!(diagnostics[0].span.unwrap().start.row, 2);
}

#[test]
fn the_statement_of_an_unused_variable_is_removed() {
    let input = "<?php\n$kept = 1;\n$dropped = 2;\necho $kept;\n";
    let expected = "<?php\n$kept = 1;\necho $kept;\n";
    assert_fix(&UnusedVariableRule::new(), &parse_php(input), input, expected);
    let clean = "<?php\n$kept = 1;\necho $kept;\n";
    assert_fix(&UnusedVariableRule::new(), &parse_php(clean), clean, clean);
}

#[test]
fn a_key_that_the_array_literal_lacks_is_undefined() {
    let source = "<?php\n$user = ['name' => 'Ann', \"age\" => 30];\necho $user['name'];\necho $user['email'];\n$user = load();\necho $user['email'];\n$other['x'] = 1;\n";
    let diagnostics = run_rule(&ArrayKeyNotDefinedRule::new(), &parse_php(source));
    assert_eq!(
        summaries(&diagnostics),
        vec!["error: undefined array key 'email' at 4:12".to_string()]
    );
}

#[test]
fn long_random_strings_look_like_keys() {
    let source = "<?php\n$a = 'short';\n$b = 'my_api_key_value';\n$c = 'hello world with spaces';\n$d = \"0123456789abcdef0123456789abcdef\";\n$e = 'plainlowercaseletters';\n";
    let diagnostics = run_rule(&HardCodedKeysRule::new(), &parse_php(source));
    assert_eq!(
        summaries(&diagnostics),
        vec![
            "error: potential hard-coded encryption key detected, consider using environment variables or secure key management".to_string(),
        ]
    );
    assert_eq!(diagnostics[0].span.unwrap().start.row, 2);
}

#[test]
fn a_documented_parameter_type_must_fit_the_native_one() {
    let source = "<?php\n/**\n * @param string $id\n * @param int $count\n * @param User|null $user\n * @param int $name\n * @param string $name\n */\nfunction f(int $id, int $count, ?User $user, string $name, $untyped) {}\n";
    let diagnostics = run_rule(&PhpDocParamCheckRule::new(), &parse_php(source));
    assert_eq!(
        summaries(&diagnostics),
        vec![
            "error: @param type 'string' conflicts with native type hint 'int' for parameter $id".to_string(),
            "error: @param type 'User|null' conflicts with native type hint '?User' for parameter $user".to_string(),
        ]
    );
    let span = diagnostics[0].span.unwrap();
    assert_eq!((span.start.row, span.start.column), (8, 11));
}

#[test]
fn returned_values_are_held_against_the_return_tag() {
    let source = "<?php\n/**\n * @return int\n */\nfunction a($x) {\n    if ($x) {\n        return 'text';\n    }\n    return $unknown;\n}\n/**\n * @return int[]\n */\nfunction b() {\n    return [1, 'two', $what];\n}\n/**\n * @return string\n */\nfunction c() {\n    /** @var string $s */\n    $s = load();\n    return $s;\n}\n";
    let diagnostics = run_rule(&PhpDocReturnValueCheckRule::new(), &parse_php(source));
    assert_eq!(
        summaries(&diagnostics),
        vec![
            "error: Return value type 'string' conflicts with @return type 'int'".to_string(),
            "error: Cannot infer type of return value; expected @return type 'int'".to_string(),
            "error: Array element type 'string' conflicts with expected element type 'int' for @return type 'int[]'".to_string(),
            "error: Cannot infer type of array element; expected element type 'int' for @return type 'int[]'".to_string(),
        ]
    );
}

#[test]
fn assigned_values_are_held_against_the_var_tag() {
    let source = "<?php\nclass Box {\n    /** @var int */\n    public $size = 'big';\n    /** @var string[] */\n    public $tags = ['a', 2];\n}\n/** @var int $count */\n$count = 'many';\n/** @var int $other */\n$count = 'ignored';\n/** @var array{name: string, age: int} $person */\n$person = ['name' => 1, 'extra' => 2];\n";
    let diagnostics = run_rule(&PhpDocVarCheckRule::new(), &parse_php(source));
    assert_eq!(
        summaries(&diagnostics),
        vec![
            "error: @var type 'int' conflicts with assigned value type 'string'".to_string(),
            "error: Array element type 'int' conflicts with expected element type 'string' for string[]".to_string(),
            "error: @var type 'int' conflicts with assigned value type 'string'".to_string(),
            "error: Field 'name' has type 'int' but expected type 'string' in array{name: string, age: int}".to_string(),
            "error: Missing required field 'age' in array{name: string, age: int}".to_string(),
            "error: Unexpected field 'extra' in array{name: string, age: int}".to_string(),
        ]
    );
}
