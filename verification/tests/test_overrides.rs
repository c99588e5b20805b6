use php_checker::analyzer::test_config::TestConfig;

#[test]
fn test_parse_only_rules() {
    let source = r#"<?php
// php-checker-test: only-rules=strict_typing/phpdoc_var_check

class Test {}
"#;
    let config = TestConfig::from_source(source);
    assert!(config.only_rules.is_some());
    assert_eq!(
        config.only_rules.unwrap(),
        vec![b"strict_typing/phpdoc_var_check".to_vec()]
    );
}

#[test]
fn test_parse_multiple_only_rules() {
    let source = r#"<?php
// php-checker-test: only-rules=strict_typing/phpdoc_var_check,strict_typing/phpdoc_param_check

class Test {}
"#;
    let config = TestConfig::from_source(source);
    assert!(config.only_rules.is_some());
    let rules = config.only_rules.unwrap();
    assert_eq!(rules.len(), 2);
    assert!(rules.contains(&b"strict_typing/phpdoc_var_check".to_vec()));
    assert!(rules.contains(&b"strict_typing/phpdoc_param_check".to_vec()));
}

#[test]
fn test_parse_skip_rules() {
    let source = r#"<?php
// php-checker-test: skip-rules=sanity/undefined_variable,cleanup/unused_variable

class Test {}
"#;
    let config = TestConfig::from_source(source);
    assert_eq!(config.skip_rules.len(), 2);
    assert!(
        config
            .skip_rules
            .contains(&b"sanity/undefined_variable".to_vec())
    );
}

#[test]
fn test_should_run_rule_with_only_rules() {
    let source = r#"<?php
// php-checker-test: only-rules=strict_typing/phpdoc_var_check

class Test {}
"#;
    let config = TestConfig::from_source(source);

    assert!(config.should_run_rule("strict_typing/phpdoc_var_check"));
    assert!(!config.should_run_rule("sanity/undefined_variable"));
    assert!(!config.should_run_rule("cleanup/unused_variable"));
}

#[test]
fn test_should_run_rule_with_skip_rules() {
    let source = r#"<?php
// php-checker-test: skip-rules=sanity/undefined_variable

class Test {}
"#;
    let config = TestConfig::from_source(source);

    assert!(!config.should_run_rule("sanity/undefined_variable"));
    assert!(config.should_run_rule("strict_typing/phpdoc_var_check"));
    assert!(config.should_run_rule("cleanup/unused_variable"));
}

#[test]
fn test_no_config() {
    let source = r#"<?php

class Test {}
"#;
    let config = TestConfig::from_source(source);

    assert!(!config.is_test_file());
    assert!(config.should_run_rule("sanity/undefined_variable"));
    assert!(config.should_run_rule("strict_typing/phpdoc_var_check"));
}

#[test]
fn skip_wins_over_only_for_the_same_rule() {
    let source = "<?php\n// php-checker-test: only-rules=a/one, a/two\n  // php-checker-test: skip-rules= a/two ,,\n";
    let config = TestConfig::from_source(source);
    assert!(config.is_test_file());
    assert_eq!(config.only_rules, Some(vec![b"a/one".to_vec(), b"a/two".to_vec()]));
    assert_eq!(config.skip_rules, vec![b"a/two".to_vec()]);
    assert!(config.should_run_rule("a/one"));
    assert!(!config.should_run_rule("a/two"));
    assert!(!config.should_run_rule("a/three"));
}

#[test]
fn only_the_first_twenty_lines_are_read() {
    let mut source = String::from("<?php\n");
    for _ in 0..18 {
        source.push_str("// filler\n");
    }
    let on_line_twenty = format!("{source}// php-checker-test: skip-rules=a/b\n");
    assert!(TestConfig::from_source(&on_line_twenty).is_test_file());
    let on_line_twenty_one = format!("{source}// filler\n// php-checker-test: skip-rules=a/b\n");
    assert!(!TestConfig::from_source(&on_line_twenty_one).is_test_file());
}

#[test]
fn an_only_list_without_names_changes_nothing() {
    let config = TestConfig::from_source("// php-checker-test: only-rules= , \n");
    assert!(config.only_rules.is_none());
    assert!(!config.is_test_file());
}

#[test]
fn marker_counts_behind_code_on_the_same_line() {
    let config = TestConfig::from_source(
        "<?php // php-checker-test: skip-rules=sanity/undefined_variable\n",
    );
    assert_eq!(config.skip_rules, vec![b"sanity/undefined_variable".to_vec()]);
    assert!(config.only_rules.is_none());
    assert!(config.is_test_file());
    assert!(!config.should_run_rule("sanity/undefined_variable"));
    assert!(config.should_run_rule("cleanup/unused_use"));
}

#[test]
fn marker_counts_behind_other_words_of_a_comment() {
    let config = TestConfig::from_source(
        "<?php\n# fixture, php-checker-test: only-rules=cleanup/unused_use , api/invalid_this\n",
    );
    assert_eq!(
        config.only_rules,
        Some(vec![b"cleanup/unused_use".to_vec(), b"api/invalid_this".to_vec()])
    );
    assert!(config.skip_rules.is_empty());
}

#[test]
fn the_first_marker_of_a_line_decides() {
    let config = TestConfig::from_source(
        "// php-checker-test: skip-rules=a // php-checker-test: skip-rules=b\n",
    );
    assert_eq!(
        config.skip_rules,
        vec![b"a // php-checker-test: skip-rules=b".to_vec()]
    );
}

#[test]
fn a_line_without_the_marker_declares_nothing() {
    let config = TestConfig::from_source("<?php // php-checker-tests skip-rules=a\n");
    assert!(!config.is_test_file());
    assert!(config.skip_rules.is_empty());
    assert!(config.only_rules.is_none());
}

#[test]
fn the_default_override_declares_nothing() {
    let config = TestConfig::default();
    assert!(!config.is_test_file());
    assert!(config.only_rules.is_none());
    assert!(config.skip_rules.is_empty());
    assert!(config.should_run_rule("sanity/undefined_variable"));
    let copy = TestConfig::from_source("// php-checker-test: skip-rules=a\n").clone();
    assert_eq!(copy.skip_rules, vec![b"a".to_vec()]);
}
