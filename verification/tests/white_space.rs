use php_checker::analyzer::ignore::IgnoreState;
use php_checker::analyzer::phpdoc::PhpDocParser;
use php_checker::analyzer::test_config::TestConfig;
use php_checker::analyzer::text::{
    space_len_at, space_len_before, trim_bytes, trim_end_bytes, trim_start_bytes,
};

const WHITE_SPACE: [char; 25] = [
    '\u{0009}', '\u{000A}', '\u{000B}', '\u{000C}', '\u{000D}', '\u{0020}', '\u{0085}',
    '\u{00A0}', '\u{1680}', '\u{2000}', '\u{2001}', '\u{2002}', '\u{2003}', '\u{2004}',
    '\u{2005}', '\u{2006}', '\u{2007}', '\u{2008}', '\u{2009}', '\u{200A}', '\u{2028}',
    '\u{2029}', '\u{202F}', '\u{205F}', '\u{3000}',
];

#[test]
fn every_white_space_character_is_known_by_its_bytes() {
    for c in WHITE_SPACE {
        assert!(c.is_whitespace());
        let text = format!("{c}x");
        assert_eq!(space_len_at(text.as_bytes(), 0), c.len_utf8(), "{:?}", c);
        let text = format!("x{c}");
        assert_eq!(space_len_before(text.as_bytes(), text.len()), c.len_utf8(), "{:?}", c);
    }
}

#[test]
fn what_is_trimmed_is_what_the_standard_library_trims() {
    let mut samples: Vec<String> = vec![
        String::new(),
        "plain".to_string(),
        " a b ".to_string(),
        "\u{00A0}".to_string(),
        "\u{200B}zero width is no space\u{200B}".to_string(),
        "\u{00A1}inverted\u{00A1}".to_string(),
        "é\u{2003}".to_string(),
        "\u{3000}全角\u{3000}".to_string(),
        "\u{2060}word joiner".to_string(),
        "\u{180E}mongolian vowel separator".to_string(),
    ];
    for c in WHITE_SPACE {
        samples.push(format!("{c}\t middle{c}part \r\n{c}"));
        samples.push(format!("{c}"));
        samples.push(format!("x{c}{c}"));
        samples.push(format!("{c}{c}x"));
    }
    for text in samples {
        assert_eq!(trim_start_bytes(text.as_bytes()), text.trim_start().as_bytes(), "{text:?}");
        assert_eq!(trim_end_bytes(text.as_bytes()), text.trim_end().as_bytes(), "{text:?}");
        assert_eq!(trim_bytes(text.as_bytes()), text.trim().as_bytes(), "{text:?}");
    }
}

#[test]
fn bytes_that_only_look_like_white_space_are_kept() {
    assert_eq!(space_len_at(&[0xC2], 0), 0);
    assert_eq!(space_len_at(&[0xC2, 0xA1], 0), 0);
    assert_eq!(space_len_at(&[0xE2, 0x80], 0), 0);
    assert_eq!(space_len_at(&[0xE2, 0x80, 0x8B], 0), 0);
    assert_eq!(space_len_at(&[0x20], 1), 0);
    assert_eq!(space_len_before(&[0xA0], 1), 0);
    assert_eq!(space_len_before(&[0x80, 0x80], 2), 0);
    assert_eq!(space_len_before(&[0x20], 0), 0);
    assert_eq!(space_len_before(&[0x20], 2), 0);
}

#[test]
fn a_directive_followed_by_a_no_break_space_ignores_the_file() {
    let state = IgnoreState::from_source("// php-checker-ignore:\u{00A0}\n");
    assert!(state.ignores_everything());
    assert!(state.patterns.is_empty());
}

#[test]
fn tokens_are_split_on_every_white_space_character() {
    let state = IgnoreState::from_source(
        "// php-checker-ignore:\u{00A0}cleanup/unused_use\u{2003}sanity\u{3000},\u{2028}api/invalid_this\n",
    );
    assert!(!state.ignores_everything());
    assert_eq!(
        state.patterns,
        vec![b"cleanup/unused_use".to_vec(), b"sanity".to_vec(), b"api/invalid_this".to_vec()]
    );
}

#[test]
fn rule_names_of_an_override_are_trimmed_of_every_white_space_character() {
    let config = TestConfig::from_source(
        "// php-checker-test:\u{00A0}skip-rules=\u{2003}sanity/undefined_variable\u{00A0},\u{3000}api/invalid_this\n",
    );
    assert_eq!(
        config.skip_rules,
        vec![b"sanity/undefined_variable".to_vec(), b"api/invalid_this".to_vec()]
    );
}

#[test]
fn words_of_a_tag_end_at_every_white_space_character() {
    let doc = PhpDocParser::parse("/**\n * @return\u{00A0}int\u{2003}the count\n */")
        .expect("a documentation comment");
    let tag = doc.return_tag.expect("a return tag");
    assert_eq!(tag.type_expr.to_text(), b"int".to_vec());
}
