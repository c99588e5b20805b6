use php_checker::analyzer::config::AnalyzerConfig;
use php_checker::analyzer::fix::try_apply_text_edits;
use php_checker::analyzer::parser::{ParsedSource, ParserError, TreeSitterPhpParser};
use php_checker::analyzer::project::ProjectContext;
use php_checker::analyzer::rules::psr4::run_namespace_checks;
use php_checker::analyzer::rules::{DiagnosticRule, MissingArgumentRule, UndefinedVariableRule};
use php_checker::analyzer::{
    collect_diagnostics_with_rules, parse_files, Analyzer, Diagnostic, Rule, Severity, SourceFile,
};

fn parse(path: &str, source: &str) -> ParsedSource {
    let mut parser = TreeSitterPhpParser::new().expect("failed to load tree-sitter-php language");
    parser.parse_source(path, source).expect("failed to parse PHP source")
}

fn text(bytes: &[u8]) -> String {
    String::from_utf8(bytes.to_vec()).expect("text is UTF-8")
}

fn lines(diagnostics: &[Diagnostic]) -> Vec<String> {
    diagnostics
        .iter()
        .map(|d| {
            let rule = d.rule_name.as_deref().map(text).unwrap_or_default();
            format!("[{rule}] {}", text(&d.summary()))
        })
        .collect()
}

fn file(path: &str, source: &str) -> SourceFile {
    SourceFile { path: path.to_string(), text: source.to_string() }
}

const DIVIDE: &str = "<?php\n// php-checker-test: only-rules=sanity/undefined_variable\n\n\nfunction divide(int $a, int $b): int\n{\n    if ($b === 0) {\n        return 0;\n    }\n\n    return $a / $c;\n}\n\necho divide(10, 2);\n";

#[test]
fn an_undefined_variable_yields_exactly_one_diagnostic() {
    let mut analyzer = Analyzer::new(None).unwrap();
    let diagnostics = analyzer.analyse_file("divide.php", DIVIDE).unwrap();
    assert_eq!(
        lines(&diagnostics),
        vec!["[sanity/undefined_variable] error: undefined variable $c at 11:17".to_string()]
    );
    assert_eq!(diagnostics[0].file, b"divide.php");
}

#[test]
fn a_missing_argument_yields_exactly_one_diagnostic() {
    let source = "<?php\nfunction takesTwo(int $a, int $b): void {}\ntakesTwo(1);\n";
    let mut analyzer = Analyzer::new(None).unwrap();
    let diagnostics = analyzer.analyse_file("call.php", source).unwrap();
    assert_eq!(
        lines(&diagnostics),
        vec!["[strict_typing/missing_argument] error: missing required argument 2 for takesTwo".to_string()]
    );
}

#[test]
fn an_unused_import_is_reported_and_removed() {
    let source = "<?php\n\nuse Multi\\Service as Svc;\nuse Multi\\Client;\n\nSvc\\takesTwo(1);\n";
    let mut analyzer = Analyzer::new(None).unwrap();
    let diagnostics = analyzer.analyse_file("imports.php", source).unwrap();
    assert_eq!(
        lines(&diagnostics),
        vec!["[cleanup/unused_use] warning: unused import alias `Client`".to_string()]
    );
    let fixes = analyzer.fix_files(&vec![file("imports.php", source)]);
    assert_eq!(fixes.len(), 1);
    assert_eq!(fixes[0].path, b"imports.php");
    let patched = try_apply_text_edits(source, &fixes[0].edits).unwrap();
    assert_eq!(
        text(&patched),
        "<?php\n\nuse Multi\\Service as Svc;\n\nSvc\\takesTwo(1);\n"
    );
}

#[test]
fn a_documented_return_type_that_contradicts_the_native_one_is_reported() {
    let source = "<?php\n// php-checker-test: only-rules=strict_typing/phpdoc_return_check\n/**\n * @return string\n */\nfunction test(): int {\n    return 42;\n}\n";
    let mut analyzer = Analyzer::new(None).unwrap();
    let diagnostics = analyzer.analyse_file("doc.php", source).unwrap();
    assert_eq!(diagnostics.len(), 1);
    let message = text(&diagnostics[0].message);
    assert!(message.contains("string") && message.contains("int"));
    assert_eq!(diagnostics[0].rule_name, Some(b"strict_typing/phpdoc_return_check".to_vec()));
    let span = diagnostics[0].span.unwrap();
    assert_eq!((span.start.row, span.start.column), (5, 17));
}

#[test]
fn the_file_level_ignore_marker_is_absolute() {
    let marked = format!("{DIVIDE}// php-checker-ignore-file\n");
    let mut analyzer = Analyzer::new(None).unwrap();
    assert!(analyzer.analyse_file("divide.php", &marked).unwrap().is_empty());
    let bare = format!("{DIVIDE}// php-checker-ignore\n");
    assert!(analyzer.analyse_file("divide.php", &bare).unwrap().is_empty());
    let only_marker = "<?php // php-checker-ignore-file\n";
    assert!(analyzer.analyse_file("empty.php", only_marker).unwrap().is_empty());
}

#[test]
fn ignored_rules_and_groups_are_filtered_out() {
    let source = "<?php\n// php-checker-ignore: sanity\nfunction takesTwo(int $a, int $b): void {}\ntakesTwo($x);\n";
    let mut analyzer = Analyzer::new(None).unwrap();
    assert_eq!(
        lines(&analyzer.analyse_file("a.php", source).unwrap()),
        vec!["[strict_typing/missing_argument] error: missing required argument 2 for takesTwo".to_string()]
    );
    let both = source.replace("sanity", "sanity strict_typing/missing_argument");
    assert!(analyzer.analyse_file("a.php", &both).unwrap().is_empty());
}

#[test]
fn test_overrides_select_the_rules_that_run() {
    let source = "<?php\n// php-checker-test: only-rules=sanity/undefined_variable\nfunction takesTwo(int $a, int $b): void {}\ntakesTwo($x);\n";
    let mut analyzer = Analyzer::new(None).unwrap();
    assert_eq!(
        lines(&analyzer.analyse_file("a.php", source).unwrap()),
        vec!["[sanity/undefined_variable] error: undefined variable $x at 4:10".to_string()]
    );
    let skipping = source.replace("only-rules", "skip-rules");
    assert_eq!(
        lines(&analyzer.analyse_file("a.php", &skipping).unwrap()),
        vec!["[strict_typing/missing_argument] error: missing required argument 2 for takesTwo".to_string()]
    );
}

#[test]
fn diagnostics_follow_the_order_of_the_rules() {
    let source = "<?php\nfunction takesTwo(int $a, int $b): void {}\ntakesTwo($x);\n";
    let parsed = parse("a.php", source);
    let mut context = ProjectContext::new();
    context.insert(parse("a.php", source));
    let rules = vec![
        Rule::MissingArgument(MissingArgumentRule::new()),
        Rule::UndefinedVariable(UndefinedVariableRule::new()),
    ];
    assert_eq!(
        lines(&collect_diagnostics_with_rules(&rules, &parsed, &context)),
        vec![
            "[strict_typing/missing_argument] error: missing required argument 2 for takesTwo".to_string(),
            "[sanity/undefined_variable] error: undefined variable $x at 3:10".to_string(),
        ]
    );
}

#[test]
fn the_configuration_switches_rules_off() {
    let mut config = AnalyzerConfig::new();
    config.set_rule("sanity", false);
    config.set_rule("strict_typing/missing_return", false);
    let analyzer = Analyzer::new(Some(config)).unwrap();
    let names: Vec<&str> = analyzer.rules.iter().map(|r| r.name()).collect();
    assert!(!names.contains(&"sanity/undefined_variable"));
    assert!(!names.contains(&"strict_typing/missing_return"));
    assert!(names.contains(&"strict_typing/missing_argument"));
    let all = Analyzer::new(None).unwrap();
    assert_eq!(all.rules[0].name(), "sanity/undefined_variable");
    assert!(all.rules.len() > names.len());
}

#[test]
fn files_of_one_project_see_each_other() {
    let files = vec![
        file("/srv/app/src/Multi/Service/lib.php", "<?php\nnamespace Multi\\Service;\nfunction takesTwo(int $a, int $b): void {}\n"),
        file("/srv/app/src/caller.php", "<?php\nuse Multi\\Service as Svc;\nSvc\\takesTwo(1);\n"),
    ];
    let mut analyzer = Analyzer::new(None).unwrap();
    let diagnostics = analyzer.analyse_files(&files, "/srv/app/src");
    assert_eq!(
        lines(&diagnostics),
        vec!["[strict_typing/missing_argument] error: missing required argument 2 for Svc\\takesTwo".to_string()]
    );
    assert!(analyzer.analyse_files(&Vec::new(), "/srv/app/src").is_empty());
    assert!(analyzer.fix_files(&files).is_empty());
}

#[test]
fn psr4_compares_the_namespace_with_the_directory() {
    let mut context = ProjectContext::new();
    context.insert(parse("/srv/app/src/Multi/Service/lib.php", "<?php\nnamespace Multi\\Service;\n"));
    context.insert(parse("/srv/app/src/Multi/wrong.php", "<?php\nnamespace Other;\n"));
    context.insert(parse("/srv/app/src/top.php", "<?php\nnamespace Top;\n"));
    context.insert(parse("/srv/app/src/Multi/none.php", "<?php\necho 1;\n"));
    context.insert(parse("/srv/elsewhere/file.php", "<?php\nnamespace Elsewhere;\n"));

    let mut config = AnalyzerConfig::new();
    assert!(run_namespace_checks("/srv/app/src", &context, &config).is_empty());
    config.psr4.enabled = true;
    let diagnostics = run_namespace_checks("/srv/app/src", &context, &config);
    assert_eq!(
        lines(&diagnostics),
        vec![
            "[psr4/namespace] warning: namespace `Other` does not match PSR-4 directory \"Multi\" (expected namespace `Multi`)".to_string(),
            "[psr4/namespace] warning: namespace `Top` does not match PSR-4 directory \".\" (expected no namespace)".to_string(),
            "[psr4/namespace] warning: no namespace does not match PSR-4 directory \"Multi\" (expected namespace `Multi`)".to_string(),
        ]
    );
    assert_eq!(diagnostics[0].file, b"/srv/app/src/Multi/wrong.php");
    assert!(diagnostics[0].span.is_none());

    config.strictness = php_checker::analyzer::config::StrictnessLevel::Strict;
    config.psr4.namespace_root = Some(b"Multi".to_vec());
    let strict = run_namespace_checks("/srv/app/src", &context, &config);
    assert_eq!(
        lines(&strict),
        vec![
            "[psr4/namespace] error: namespace `Multi\\Service` does not match PSR-4 directory \"Service\" (expected namespace `Service`)".to_string(),
            "[psr4/namespace] error: namespace `Other` does not match PSR-4 directory \".\" (expected no namespace)".to_string(),
        ]
    );
    assert_eq!(strict[0].severity, Severity::Error);

    config.set_rule("psr4/namespace", false);
    assert!(run_namespace_checks("/srv/app/src", &context, &config).is_empty());
}

#[test]
fn the_project_context_resolves_functions() {
    let mut context = ProjectContext::new();
    context.insert(parse("lib.php", "<?php\nnamespace Lib\\Tools;\nfunction helper($a, $b = 1, ...$c) {}\nfunction helper($x) {}\n"));
    context.insert(parse("main.php", "<?php\nnamespace App;\nuse Lib\\Tools as L;\nuse Lib\\Tools\\helper;\nuse Other\\Thing as L;\nuse Plain;\nfunction run() {}\n"));
    assert_eq!(context.len(), 2);
    assert_eq!(context.iter().len(), 2);
    let main = parse("main.php", "<?php\n");
    let lib = parse("lib.php", "<?php\n");
    let unknown = parse("unknown.php", "<?php\n");

    let scope = context.scope_for(b"main.php").unwrap();
    assert_eq!(scope.namespace, Some(b"App".to_vec()));
    let aliases: Vec<(String, String)> = scope.uses.iter().map(|(a, info)| (text(a), text(&info.target))).collect();
    assert_eq!(
        aliases,
        vec![
            ("L".to_string(), "Lib\\Tools".to_string()),
            ("helper".to_string(), "Lib\\Tools\\helper".to_string()),
        ]
    );
    assert!(!scope.uses[0].1.declaration_has_multiple_clauses);

    let symbol = context.resolve_function_symbol(b"L\\helper", &main).unwrap();
    assert_eq!(symbol.fq_name, b"Lib\\Tools\\helper");
    assert_eq!(symbol.name, b"helper");
    assert_eq!(symbol.file, b"lib.php");
    assert_eq!(symbol.required_params, 1);
    assert_eq!((symbol.span.start.row, symbol.span.start.column), (2, 0));
    assert_eq!(context.resolve_function_symbol(b"helper", &main).unwrap().fq_name, b"Lib\\Tools\\helper");
    assert_eq!(context.resolve_function_symbol(b"run", &main).unwrap().fq_name, b"App\\run");
    assert_eq!(context.resolve_function_symbol(b"\\App\\run", &lib).unwrap().fq_name, b"App\\run");
    assert!(context.resolve_function_symbol(b"\\run", &main).is_none());
    assert!(context.resolve_function_symbol(b"run", &lib).is_none());
    assert!(context.resolve_function_symbol(b"helper", &unknown).is_none());
    assert_eq!(context.function_symbols().len(), 3);
    assert!(context.get(b"lib.php").is_some());
    assert!(context.get(b"unknown.php").is_none());
}

#[test]
fn every_file_that_parses_is_in_the_context() {
    let files = vec![
        file("a.php", "<?php\nfunction one() {}\n"),
        file("b.php", "<?php\nfunction two() {}\n"),
        file("a.php", "<?php\nfunction three() {}\n"),
    ];
    let mut parser = TreeSitterPhpParser::new().unwrap();
    let outcome = parse_files(&mut parser, &files);
    assert!(outcome.failures.is_empty());
    assert_eq!(outcome.context.len(), 2);
    let first = outcome.context.get(b"a.php").expect("a.php is there");
    assert_eq!(first.source, b"<?php\nfunction three() {}\n".to_vec());
    assert!(outcome.context.get(b"b.php").is_some());
    assert!(outcome.context.get(b"c.php").is_none());
}

#[test]
fn parser_errors_describe_themselves() {
    assert_eq!(ParserError::Language.message(), "failed to load tree-sitter-php language");
    assert_eq!(ParserError::Syntax.message(), "tree-sitter failed to parse PHP source");
    assert_eq!(
        ParserError::Tree.message(),
        "tree-sitter gave a tree that does not fit the source"
    );
}

#[test]
fn a_scope_holds_what_its_file_declares() {
    let mut context = ProjectContext::new();
    context.insert(parse(
        "src/a.php",
        "<?php\nnamespace App\\One;\nuse Lib\\Tool as T;\nuse Other\\Tool as T;\nfunction first(int $a, $b = 1) {}\n",
    ));
    context.insert(parse("src/b.php", "<?php\nfunction second() {}\n"));
    let scope = context.scope_for(b"src/a.php").expect("the file has a scope");
    assert_eq!(scope.namespace, Some(b"App\\One".to_vec()));
    assert_eq!(scope.uses.len(), 1);
    assert_eq!(scope.uses[0].0, b"T".to_vec());
    assert_eq!(scope.uses[0].1.target, b"Lib\\Tool".to_vec());
    assert_eq!(scope.functions.len(), 1);
    assert_eq!(scope.functions[0].fq_name, b"App\\One\\first".to_vec());
    assert_eq!(scope.functions[0].required_params, 1);
    let other = context.scope_for(b"src/b.php").expect("the file has a scope");
    assert_eq!(other.namespace, None);
    assert!(other.uses.is_empty());
    assert_eq!(other.functions[0].fq_name, b"second".to_vec());
    let names: Vec<Vec<u8>> =
        context.function_symbols().iter().map(|s| s.fq_name.clone()).collect();
    assert_eq!(names, vec![b"App\\One\\first".to_vec(), b"second".to_vec()]);
}

#[test]
fn a_later_file_under_the_same_path_takes_the_place_of_the_earlier() {
    let mut context = ProjectContext::new();
    context.insert(parse("src/a.php", "<?php\nnamespace One;\nfunction first() {}\n"));
    context.insert(parse("src/b.php", "<?php\nfunction other() {}\n"));
    context.insert(parse("src/a.php", "<?php\nnamespace Two;\nfunction second() {}\n"));
    assert_eq!(context.len(), 2);
    let scope = context.scope_for(b"src/a.php").expect("the file has a scope");
    assert_eq!(scope.namespace, Some(b"Two".to_vec()));
    assert_eq!(scope.functions.len(), 1);
    assert_eq!(scope.functions[0].fq_name, b"Two\\second".to_vec());
    let paths: Vec<Vec<u8>> = context.iter().iter().map(|p| p.path.clone()).collect();
    assert_eq!(paths, vec![b"src/a.php".to_vec(), b"src/b.php".to_vec()]);
}
