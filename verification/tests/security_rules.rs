use php_checker::analyzer::diagnostic::Diagnostic;
use php_checker::analyzer::parser::{ParsedSource, TreeSitterPhpParser};
use php_checker::analyzer::project::ProjectContext;
use php_checker::analyzer::rules::{
    DiagnosticRule, HardCodedCredentialsRule, IncludeUserInputRule, WeakHashingRule,
};

fn parse_php_with_path(source: &str, path: &str) -> ParsedSource {
    let mut parser = TreeSitterPhpParser::new().expect("failed to load tree-sitter-php language");
    parser
        .parse_source(path, source)
        .expect("failed to parse PHP source")
}

fn parse_php(source: &str) -> ParsedSource {
    parse_php_with_path(source, "test.php")
}

fn run_rule<R: DiagnosticRule>(rule: &R, parsed: &ParsedSource) -> Vec<Diagnostic> {
    let context = ProjectContext::new();
    rule.run(parsed, &context)
}

fn run_rule_with_context<R: DiagnosticRule>(rule: &R, source: &str) -> Vec<Diagnostic> {
    let parsed_for_context = parse_php(source);
    let parsed_for_rule = parse_php(source);
    let mut context = ProjectContext::new();
    context.insert(parsed_for_context);
    rule.run(&parsed_for_rule, &context)
}

fn text(bytes: &[u8]) -> String {
    String::from_utf8(bytes.to_vec()).expect("text is UTF-8")
}

fn summaries(diagnostics: &[Diagnostic]) -> Vec<String> {
    diagnostics.iter().map(|d| text(&d.summary())).collect()
}

fn assert_no_diagnostics(diagnostics: &[Diagnostic]) {
    let lines = summaries(diagnostics);
    assert!(lines.is_empty(), "expected no diagnostics, but got: {lines:?}");
}

fn assert_diagnostics_exact(diagnostics: &[Diagnostic], expected_lines: &[&str]) {
    let actual_lines = summaries(diagnostics);
    assert_eq!(
        actual_lines.len(),
        expected_lines.len(),
        "expected {expected_lines:?}, got {actual_lines:?}"
    );
    for (i, expected_line) in expected_lines.iter().enumerate() {
        let expected_parts: Vec<&str> = expected_line.splitn(2, ':').collect();
        if expected_parts.len() != 2 {
            continue;
        }
        let expected_severity = expected_parts[0].trim();
        let expected_msg = expected_parts[1].trim();
        assert_eq!(diagnostics[i].severity.label(), expected_severity);
        let actual_msg = text(&diagnostics[i].message);
        if actual_msg != expected_msg {
            let expected_core = expected_msg.rsplitn(2, " at ").nth(1).unwrap_or(expected_msg);
            let actual_core = actual_msg.rsplitn(2, " at ").nth(1).unwrap_or(&actual_msg);
            assert!(
                actual_core.trim() == expected_core.trim()
                    || actual_msg.contains(expected_core.trim()),
                "diagnostic {}: expected {expected_msg:?}, got {actual_msg:?}",
                i + 1
            );
        }
    }
}

#[test]
fn test_hard_credentials_file() {
    let source = r#"<?php

db_connect('super-secret-password');
call_api('token', 'my-api-key');

"#;

    let parsed = parse_php(source);
    let rule = HardCodedCredentialsRule::new();
    let diagnostics = run_rule(&rule, &parsed);

    assert_diagnostics_exact(&diagnostics, &[
        "warning: hard-coded credential or token detected",
        "warning: hard-coded credential or token detected",
    ]);
}

#[test]
fn test_include_user_input_file() {
    let source = r#"<?php

$page = $_GET['page'];
include $page;
<?php

include $_GET['file'];

"#;

    let parsed = parse_php(source);
    let rule = IncludeUserInputRule::new();
    let diagnostics = run_rule(&rule, &parsed);

    assert_diagnostics_exact(&diagnostics, &["warning: including user input is dangerous"]);
}

#[test]
fn test_weak_hashing_file() {
    let source = r#"<?php

// Weak hashing used for password - should trigger warning
$password = md5("secret");

// Weak hashing assigned to password variable - should trigger warning
$userPassword = sha1($input);

// Weak hashing in password context - should trigger warning
$hashedPassword = md5($userInput);

// OK - md5 used for non-password purposes
$checksum = md5($fileContent);

// OK - sha1 used for non-password purposes
$fileHash = sha1($fileData);

// OK - using secure password hashing
$secureHash = password_hash("secret", PASSWORD_DEFAULT);

// OK - md5 with password in variable name but not used for hashing
$somePassword = "secret";
$hash = hash('sha256', $somePassword);

$passwordHash = md5("test"); // Should trigger warning
$passwd = sha1("test"); // Should trigger warning

// OK - not password related
$dataHash = md5("data");
$contentSha1 = sha1("content");
"#;

    let parsed = parse_php(source);
    let rule = WeakHashingRule::new();
    let diagnostics = run_rule(&rule, &parsed);

    assert_diagnostics_exact(&diagnostics, &[
        "warning: weak hashing function 'md5' used for password hashing, consider using password_hash() or similar secure alternatives",
        "warning: weak hashing function 'sha1' used for password hashing, consider using password_hash() or similar secure alternatives",
        "warning: weak hashing function 'md5' used for password hashing, consider using password_hash() or similar secure alternatives",
        "warning: weak hashing function 'md5' used for password hashing, consider using password_hash() or similar secure alternatives",
        "warning: weak hashing function 'sha1' used for password hashing, consider using password_hash() or similar secure alternatives",
    ]);
}

#[test]
fn test_weak_hashing_valid() {
    let source = r#"<?php
// OK - md5 used for non-password purposes
$checksum = md5($fileContent);

// OK - sha1 used for non-password purposes
$fileHash = sha1($fileData);

// OK - using secure password hashing
$secureHash = password_hash("secret", PASSWORD_DEFAULT);

// OK - not password related
$dataHash = md5("data");
$contentSha1 = sha1("content");

// OK - hash() function (not weak)
$hash = hash('sha256', $data);
"#;

    let parsed = parse_php(source);
    let rule = WeakHashingRule::new();
    let diagnostics = run_rule(&rule, &parsed);

    assert_no_diagnostics(&diagnostics);
}
