use php_checker::analyzer::parser::{ParsedSource, TreeSitterPhpParser};
use php_checker::analyzer::rules::helpers::{
    collect_function_signatures, find_descendant_by_kind, walk_node, TypeHint,
};

fn parse_php(source: &str) -> ParsedSource {
    let mut parser = TreeSitterPhpParser::new().expect("failed to load tree-sitter-php language");
    parser.parse_source("test.php", source).expect("failed to parse PHP source")
}

#[test]
fn walk_from_the_root_visits_every_node_once() {
    let parsed = parse_php("<?php\nfunction f($a) { return $a; }\nf(1);\n");
    let visited = walk_node(&parsed, 0);
    let expected: Vec<usize> = (0..parsed.tree.nodes.len()).collect();
    assert_eq!(visited, expected);
    assert_eq!(parsed.tree.nodes[0].kind, "program");
}

#[test]
fn walk_from_a_node_stays_below_it() {
    let parsed = parse_php("<?php\nfunction f($a) { return $a; }\nf(1);\n");
    let call = find_descendant_by_kind(&parsed, 0, "function_call_expression").expect("a call");
    let visited = walk_node(&parsed, call);
    assert_eq!(visited[0], call);
    assert!(visited.len() > 1);
    for (k, node) in visited.iter().enumerate() {
        assert_eq!(*node, call + k);
        let mut up = *node;
        while up != call {
            up = parsed.tree.nodes[up].parent.expect("a node below the call has a parent");
        }
    }
    let last = *visited.last().unwrap();
    if last + 1 < parsed.tree.nodes.len() {
        let mut up = last + 1;
        let mut below = false;
        while let Some(parent) = parsed.tree.nodes[up].parent {
            if parent == call {
                below = true;
            }
            up = parent;
        }
        assert!(!below);
    }
}

#[test]
fn walk_from_a_leaf_visits_the_leaf_alone() {
    let parsed = parse_php("<?php\n$a;\n");
    let leaf = parsed.tree.nodes.len() - 1;
    assert_eq!(walk_node(&parsed, leaf), vec![leaf]);
}

#[test]
fn signatures_are_collected_in_document_order() {
    let parsed = parse_php(
        "<?php\nfunction first(int $a, string $b) {}\nfunction second() {}\nfunction third(?bool $c, $d) {}\n",
    );
    let found = collect_function_signatures(&parsed);
    let names: Vec<String> = found
        .iter()
        .map(|(name, _)| String::from_utf8(name.clone()).unwrap())
        .collect();
    assert_eq!(names, vec!["first", "second", "third"]);
    assert_eq!(found[0].1.params, vec![TypeHint::Int, TypeHint::String]);
    assert!(found[1].1.params.is_empty());
    assert_eq!(
        found[2].1.params,
        vec![TypeHint::Nullable(Box::new(TypeHint::Bool)), TypeHint::Unknown]
    );
}
