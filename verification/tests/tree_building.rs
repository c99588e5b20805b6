use php_checker::analyzer::parser::{
    attach_child, attach_sibling, close_node, node_from, take_step, NodeReading, ParsedSource,
    ParserError, Step, TreeSitterPhpParser,
};
use php_checker::analyzer::syntax::{Position, SyntaxNode, SyntaxTree};
use php_checker::analyzer::Analyzer;

fn reading(kind: &'static str, start_byte: usize, end_byte: usize) -> NodeReading {
    NodeReading {
        kind,
        named: true,
        field: None,
        start_byte,
        end_byte,
        start: Position { row: 0, column: start_byte },
        end: Position { row: 0, column: end_byte },
    }
}

fn node(kind: &'static str, index: usize, parent: Option<usize>) -> SyntaxNode {
    node_from(reading(kind, 0, 4), index, parent, 10).expect("the reading fits")
}

#[test]
fn a_reading_becomes_a_node_without_links() {
    let made = node_from(
        NodeReading { field: Some("left"), named: false, ..reading("name", 2, 6) },
        3,
        Some(1),
        6,
    )
    .expect("the reading fits");
    assert_eq!(made.kind, "name");
    assert!(!made.named);
    assert_eq!(made.field, Some("left"));
    assert_eq!((made.start_byte, made.end_byte), (2, 6));
    assert_eq!(made.start, Position { row: 0, column: 2 });
    assert_eq!(made.end, Position { row: 0, column: 6 });
    assert_eq!(made.parent, Some(1));
    assert_eq!(made.first_child, None);
    assert_eq!(made.next_sibling, None);
    assert_eq!(made.subtree_end, 4);
}

#[test]
fn a_reading_that_does_not_fit_gives_no_node() {
    assert!(node_from(reading("name", 5, 4), 0, None, 10).is_none());
    assert!(node_from(reading("name", 2, 11), 0, None, 10).is_none());
    assert!(node_from(reading("name", 2, 4), usize::MAX, None, 10).is_none());
    assert!(node_from(reading("name", 4, 4), 0, None, 4).is_some());
}

#[test]
fn a_child_is_linked_to_the_node_above() {
    let mut nodes = vec![node("program", 0, None)];
    attach_child(&mut nodes, 0, node("text", 1, Some(0)));
    assert_eq!(nodes.len(), 2);
    assert_eq!(nodes[0].first_child, Some(1));
    assert_eq!(nodes[0].subtree_end, 2);
    assert_eq!(nodes[0].kind, "program");
    assert_eq!(nodes[1].kind, "text");
    assert_eq!(nodes[1].parent, Some(0));
}

#[test]
fn a_sibling_is_linked_to_the_node_before() {
    let mut nodes = vec![node("program", 0, None)];
    attach_child(&mut nodes, 0, node("first", 1, Some(0)));
    attach_sibling(&mut nodes, 1, node("second", 2, Some(0)));
    assert_eq!(nodes.len(), 3);
    assert_eq!(nodes[1].next_sibling, Some(2));
    assert_eq!(nodes[1].subtree_end, 2);
    assert_eq!(nodes[1].first_child, None);
    assert_eq!(nodes[2].kind, "second");
    assert_eq!(nodes[0].first_child, Some(1));
}

#[test]
fn closing_a_node_ends_its_subtree_at_the_end() {
    let mut nodes = vec![node("program", 0, None)];
    attach_child(&mut nodes, 0, node("first", 1, Some(0)));
    attach_sibling(&mut nodes, 1, node("second", 2, Some(0)));
    close_node(&mut nodes, 0);
    assert_eq!(nodes[0].subtree_end, 3);
    assert_eq!(nodes[0].first_child, Some(1));
    assert_eq!(nodes.len(), 3);
}

#[test]
fn a_parsed_file_is_put_together_from_its_parts() {
    let tree = SyntaxTree { nodes: vec![node("program", 0, None)] };
    let parsed = ParsedSource::assemble("a.php", "<?php", Some(tree)).expect("there is a tree");
    assert_eq!(parsed.path, b"a.php".to_vec());
    assert_eq!(parsed.source, b"<?php".to_vec());
    assert_eq!(parsed.tree.nodes.len(), 1);
    assert_eq!(parsed.tree.nodes[0].kind, "program");
}

#[test]
fn without_a_tree_there_is_no_parsed_file() {
    let outcome = ParsedSource::assemble("a.php", "<?php", None);
    assert_eq!(outcome.err(), Some(ParserError::Tree));
}

#[test]
fn an_analyzer_is_made_around_a_parser() {
    let parser = TreeSitterPhpParser::new().expect("the grammar loads");
    let analyzer = Analyzer::with_parser(parser, None);
    assert_eq!(analyzer.rules.len(), 28);
    assert!(!analyzer.config.psr4.enabled);
    assert!(analyzer.config.rules.is_empty());
}

#[test]
fn a_parsed_file_is_analysed_on_its_own() {
    let mut parser = TreeSitterPhpParser::new().expect("the grammar loads");
    let parsed = parser
        .parse_source(
            "test.php",
            "<?php\n// php-checker-test: only-rules=sanity/undefined_variable\necho $missing;\n",
        )
        .expect("the source parses");
    let analyzer = Analyzer::new(None).expect("the grammar loads");
    let found = analyzer.analyse_parsed(parsed);
    assert_eq!(found.len(), 1);
    assert_eq!(found[0].rule_name, Some(b"sanity/undefined_variable".to_vec()));
    assert_eq!(found[0].file, b"test.php".to_vec());
}

fn kinds(nodes: &[SyntaxNode]) -> Vec<&'static str> {
    nodes.iter().map(|n| n.kind).collect()
}

#[test]
fn steps_build_the_arena_in_document_order() {
    let mut nodes = vec![node("program", 0, None)];
    let at = take_step(&mut nodes, 0, Step::Down(reading("first", 0, 2)), 10).unwrap();
    assert_eq!(at, 1);
    let at = take_step(&mut nodes, at, Step::Down(reading("inner", 0, 1)), 10).unwrap();
    assert_eq!(at, 2);
    let at = take_step(&mut nodes, at, Step::Up, 10).unwrap();
    assert_eq!(at, 1);
    let at = take_step(&mut nodes, at, Step::Across(reading("second", 2, 4)), 10).unwrap();
    assert_eq!(at, 3);
    let at = take_step(&mut nodes, at, Step::Up, 10).unwrap();
    assert_eq!(at, 0);
    let at = take_step(&mut nodes, at, Step::End, 10).unwrap();
    assert_eq!(at, 0);

    assert_eq!(kinds(&nodes), vec!["program", "first", "inner", "second"]);
    assert_eq!(nodes[0].subtree_end, 4);
    assert_eq!(nodes[1].subtree_end, 3);
    assert_eq!(nodes[2].subtree_end, 3);
    assert_eq!(nodes[3].subtree_end, 4);
    assert_eq!(nodes[0].first_child, Some(1));
    assert_eq!(nodes[1].first_child, Some(2));
    assert_eq!(nodes[1].next_sibling, Some(3));
    assert_eq!(nodes[2].parent, Some(1));
    assert_eq!(nodes[3].parent, Some(0));
    assert_eq!(nodes[3].next_sibling, None);
    let tree = SyntaxTree { nodes };
    assert_eq!(tree.children_of(0), vec![1, 3]);
    assert_eq!(tree.children_of(1), vec![2]);
}

#[test]
fn a_step_that_cannot_be_taken_leaves_the_arena_alone() {
    let mut nodes = vec![node("program", 0, None)];
    assert_eq!(take_step(&mut nodes, 0, Step::Across(reading("stray", 0, 1)), 10), None);
    assert_eq!(take_step(&mut nodes, 0, Step::Up, 10), None);
    assert_eq!(take_step(&mut nodes, 0, Step::Down(reading("long", 0, 11)), 10), None);
    assert_eq!(take_step(&mut nodes, 0, Step::Down(reading("reversed", 3, 2)), 10), None);
    assert_eq!(nodes.len(), 1);
    assert_eq!(nodes[0].first_child, None);
    assert_eq!(nodes[0].next_sibling, None);
    assert_eq!(nodes[0].subtree_end, 1);

    let at = take_step(&mut nodes, 0, Step::Down(reading("child", 0, 1)), 10).unwrap();
    assert_eq!(take_step(&mut nodes, at, Step::End, 10), None);
    assert_eq!(nodes.len(), 2);
    assert_eq!(nodes[1].subtree_end, 2);
}
