use php_checker::analyzer::ignore::IgnoreState;

#[test]
fn ignores_file_when_directive_has_no_tokens() {
    let source = "// php-checker-ignore\n";
    let state = IgnoreState::from_source(source);
    assert!(state.ignores_everything());
}

#[test]
fn ignores_file_when_directive_is_file_alias() {
    let source = "/* php-checker-ignore-file */";
    let state = IgnoreState::from_source(source);
    assert!(state.ignores_everything());
}

#[test]
fn parses_rule_and_group_tokens() {
    let source = "
            // php-checker-ignore: cleanup/unused_use cleanup
            // php-checker-ignore strict_typing/missing_argument
        ";

    let state = IgnoreState::from_source(source);
    assert!(state.should_ignore("cleanup/unused_use"));
    assert!(state.should_ignore("cleanup/unused_variable"));
    assert!(state.should_ignore("strict_typing/missing_argument"));
    assert!(!state.should_ignore("strict_typing/missing_return"));
}

#[test]
fn stops_parsing_at_inline_comment_end() {
    let source = "// php-checker-ignore: cleanup // extra notes";
    let state = IgnoreState::from_source(source);
    assert!(state.should_ignore("cleanup/unused_use"));
    assert!(!state.should_ignore("strict_typing/missing_argument"));
}

#[test]
fn ignores_group_from_block_comment_without_hitting_wildcard() {
    let source = "/* php-checker-ignore: cleanup */";
    let state = IgnoreState::from_source(source);
    assert!(!state.ignores_everything());
    assert!(state.should_ignore("cleanup/unused_use"));
    assert!(!state.should_ignore("strict_typing/missing_argument"));
}

#[test]
fn group_suppression_stops_at_the_slash() {
    let state = IgnoreState::from_source("// php-checker-ignore: cleanup");
    assert_eq!(state.patterns, vec![b"cleanup".to_vec()]);
    assert!(state.should_ignore("cleanup/unused_use"));
    assert!(state.should_ignore("CLEANUP/unused_use"));
    assert!(!state.should_ignore("cleanupish/other"));
    assert!(!state.should_ignore("cleanu"));
}

#[test]
fn tokens_are_unquoted_lowercased_and_lose_trailing_slashes() {
    let state = IgnoreState::from_source("# php-checker-ignore: \"Cleanup/\", 'psr4/' `x`\n");
    assert!(!state.ignores_everything());
    assert_eq!(
        state.patterns,
        vec![b"cleanup".to_vec(), b"psr4".to_vec(), b"x".to_vec()]
    );
}

#[test]
fn wildcard_tokens_ignore_the_file() {
    for token in ["*", "all", "file", "ALL"] {
        let source = format!("// php-checker-ignore: cleanup, {token}\n");
        let state = IgnoreState::from_source(&source);
        assert!(state.ignores_everything());
        assert!(state.should_ignore("anything/at_all"));
    }
}

#[test]
fn file_marker_on_a_later_line_still_ignores_everything() {
    let source = "<?php\n// php-checker-ignore: cleanup\n$x = 1;\n// php-checker-ignore-file: cleanup\n";
    let state = IgnoreState::from_source(source);
    assert!(state.ignores_everything());
}

#[test]
fn the_default_state_ignores_nothing() {
    let state = IgnoreState::default();
    assert!(!state.ignores_everything());
    assert!(state.patterns.is_empty());
    assert!(!state.should_ignore("cleanup/unused_use"));
    let copy = IgnoreState::from_source("// php-checker-ignore: cleanup\n").clone();
    assert!(copy.should_ignore("cleanup/unused_use"));
}
