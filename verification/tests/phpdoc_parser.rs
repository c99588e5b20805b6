use php_checker::analyzer::phpdoc::{PhpDocParser, TypeExpression};

fn names(list: &[&str]) -> Vec<Vec<u8>> {
    list.iter().map(|s| s.as_bytes().to_vec()).collect()
}

fn simple(name: &str) -> TypeExpression {
    TypeExpression::Simple(name.as_bytes().to_vec())
}

#[test]
fn test_parse_simple_type() {
    let expr = PhpDocParser::parse_type_expression("int").unwrap();
    assert!(matches!(expr, TypeExpression::Simple(s) if s == b"int"));
}

#[test]
fn test_parse_nullable_type() {
    let expr = PhpDocParser::parse_type_expression("?string").unwrap();
    assert!(matches!(expr, TypeExpression::Nullable(_)));
}

#[test]
fn test_parse_array_type() {
    let expr = PhpDocParser::parse_type_expression("int[]").unwrap();
    assert!(matches!(expr, TypeExpression::Array(_)));
}

#[test]
fn test_parse_union_type() {
    let expr = PhpDocParser::parse_type_expression("int|string").unwrap();
    match expr {
        TypeExpression::Union(types) => assert_eq!(types.len(), 2),
        _ => panic!("Expected union type"),
    }
}

#[test]
fn test_parse_generic_type() {
    let expr = PhpDocParser::parse_type_expression("array<string, int>").unwrap();
    match expr {
        TypeExpression::Generic { base, params } => {
            assert_eq!(base, b"array");
            assert_eq!(params.len(), 2);
        }
        _ => panic!("Expected generic type"),
    }
}

#[test]
fn test_parse_param_tag() {
    let param = PhpDocParser::parse_param_tag("int $value Some description").unwrap();
    assert_eq!(param.name, b"value");
    assert!(matches!(param.type_expr, TypeExpression::Simple(s) if s == b"int"));
}

#[test]
fn test_parse_phpdoc_comment() {
    let comment = r#"/**
         * @param int $id
         * @param string $name
         * @return bool
         */"#;

    let doc = PhpDocParser::parse(comment).unwrap();
    assert_eq!(doc.params.len(), 2);
    assert!(doc.return_tag.is_some());
}

#[test]
fn test_split_params_with_nesting() {
    // Simple case
    let params = PhpDocParser::split_params("int, string");
    assert_eq!(params, names(&["int", "string"]));

    // Nested braces
    let params = PhpDocParser::split_params("int, array{name: string, age: int}");
    assert_eq!(params, names(&["int", "array{name: string, age: int}"]));

    // Nested angle brackets
    let params = PhpDocParser::split_params("string, array<int, User>");
    assert_eq!(params, names(&["string", "array<int, User>"]));

    // Complex nesting
    let params = PhpDocParser::split_params("int, array<string, array{id: int, data: string}>");
    assert_eq!(params, names(&["int", "array<string, array{id: int, data: string}>"]));
}

#[test]
fn test_parse_var_tag_with_generic_array() {
    let comment = r#"/**
         * @var array<string, int>
         */"#;

    let doc = PhpDocParser::parse(comment).unwrap();
    assert!(doc.var_tag.is_some());
    let var_tag = doc.var_tag.unwrap();
    match var_tag.type_expr {
        TypeExpression::Generic { base, params } => {
            assert_eq!(base, b"array");
            assert_eq!(params.len(), 2);
            assert!(matches!(params[0], TypeExpression::Simple(ref s) if s == b"string"));
            assert!(matches!(params[1], TypeExpression::Simple(ref s) if s == b"int"));
        }
        _ => panic!("Expected Generic type for array<string, int>"),
    }
}

#[test]
fn type_expressions_parse_to_their_exact_shape() {
    assert_eq!(
        PhpDocParser::parse_type_expression("  ?int[] "),
        Some(TypeExpression::Nullable(Box::new(TypeExpression::Array(Box::new(simple("int"))))))
    );
    assert_eq!(
        PhpDocParser::parse_type_expression("int | null|User"),
        Some(TypeExpression::Union(vec![simple("int"), simple("null"), simple("User")]))
    );
    assert_eq!(
        PhpDocParser::parse_type_expression("array{name: string, tags: string[]}"),
        Some(TypeExpression::ShapedArray(vec![
            (b"name".to_vec(), simple("string")),
            (b"tags".to_vec(), TypeExpression::Array(Box::new(simple("string")))),
        ]))
    );
    assert_eq!(
        PhpDocParser::parse_type_expression("Collection<User>"),
        Some(TypeExpression::Generic { base: b"Collection".to_vec(), params: vec![simple("User")] })
    );
    assert_eq!(PhpDocParser::parse_type_expression("mixed"), Some(TypeExpression::Mixed));
    assert_eq!(PhpDocParser::parse_type_expression("void"), Some(TypeExpression::Void));
    assert_eq!(PhpDocParser::parse_type_expression("never"), Some(TypeExpression::Never));
    assert_eq!(PhpDocParser::parse_type_expression(""), Some(simple("")));
}

#[test]
fn a_shaped_array_with_a_field_without_colon_denotes_nothing() {
    assert_eq!(PhpDocParser::parse_type_expression("array{name}"), None);
    assert_eq!(PhpDocParser::parse_type_expression("?array{name}"), None);
    assert_eq!(PhpDocParser::parse_type_expression("int|array{name}"), None);
    assert_eq!(PhpDocParser::parse_type_expression("array{name}[]"), None);
    assert_eq!(
        PhpDocParser::parse_type_expression("Box<array{name}>"),
        Some(simple("Box<array{name}>"))
    );
}

#[test]
fn text_that_is_no_documentation_comment_is_rejected() {
    assert!(PhpDocParser::parse("// @param int $a").is_none());
    assert!(PhpDocParser::parse("/* @param int $a */").is_none());
    assert!(PhpDocParser::parse("  /** @return int */").is_some());
}

#[test]
fn tags_are_read_line_by_line() {
    let comment = "/**\n * Summary.\n * @phpstan-param array<int,string> $rows all rows\n * @param ?User $$user\n * @return int the count\n * @return string|null\n * @var int $count\n * @throws RuntimeException when it fails\n * @throws LogicException\n * @deprecated\n */";
    let doc = PhpDocParser::parse(comment).unwrap();
    assert_eq!(doc.params.len(), 2);
    assert_eq!(doc.params[0].name, b"rows");
    assert_eq!(
        doc.params[0].type_expr,
        TypeExpression::Generic { base: b"array".to_vec(), params: vec![simple("int"), simple("string")] }
    );
    assert_eq!(doc.params[1].name, b"user");
    assert_eq!(doc.params[1].type_expr, TypeExpression::Nullable(Box::new(simple("User"))));
    assert_eq!(
        doc.return_tag.unwrap().type_expr,
        TypeExpression::Union(vec![simple("string"), simple("null")])
    );
    let var_tag = doc.var_tag.unwrap();
    assert_eq!(var_tag.name, Some(b"count".to_vec()));
    assert_eq!(var_tag.type_expr, simple("int"));
    assert_eq!(doc.throws.len(), 2);
    assert_eq!(doc.throws[0].exception_type, b"RuntimeException");
    assert_eq!(doc.throws[0].description, Some(b"when it fails".to_vec()));
    assert_eq!(doc.throws[1].exception_type, b"LogicException");
    assert_eq!(doc.throws[1].description, None);
    assert!(doc.properties.is_empty());
    assert!(doc.methods.is_empty());
}

#[test]
fn nullable_and_contained_types() {
    let nullable = PhpDocParser::parse_type_expression("?string").unwrap();
    assert!(nullable.is_nullable());
    assert_eq!(nullable.unwrap_nullable(), &simple("string"));
    assert!(nullable.contains_type("string"));
    assert!(!nullable.contains_type("int"));

    let union = PhpDocParser::parse_type_expression("int|null").unwrap();
    assert!(union.is_nullable());
    assert_eq!(union.unwrap_nullable(), &union);

    let generic = PhpDocParser::parse_type_expression("array<string, User[]>").unwrap();
    assert!(!generic.is_nullable());
    assert!(generic.contains_type("User"));
    assert!(!generic.contains_type("array"));

    let shaped = PhpDocParser::parse_type_expression("array{id: int}").unwrap();
    assert!(!shaped.contains_type("int"));
    assert!(!TypeExpression::Mixed.contains_type("mixed"));
}

#[test]
fn the_default_comment_has_no_tags() {
    let doc = php_checker::analyzer::phpdoc::PhpDocComment::default();
    assert!(doc.params.is_empty());
    assert!(doc.return_tag.is_none());
    assert!(doc.var_tag.is_none());
    assert!(doc.throws.is_empty());
    assert!(doc.properties.is_empty());
    assert!(doc.methods.is_empty());
}

#[test]
fn a_clone_of_a_comment_keeps_its_tags() {
    let doc = PhpDocParser::parse("/**\n * @param array{id: int, tags: string[]} $row\n * @return ?User\n */")
        .expect("a documentation comment");
    let copy = doc.clone();
    assert_eq!(copy.params.len(), 1);
    assert_eq!(copy.params[0].name, doc.params[0].name);
    assert_eq!(copy.params[0].type_expr, doc.params[0].type_expr);
    assert_eq!(
        copy.return_tag.expect("a return tag").type_expr,
        doc.return_tag.expect("a return tag").type_expr
    );
}
