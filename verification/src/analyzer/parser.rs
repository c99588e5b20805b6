//! Parsing: PHP source text is handed to tree-sitter, and the tree that comes
//! back is copied into the analyzer's own arena.

use vstd::prelude::*;
use crate::analyzer::syntax::{node_ok, Position, SyntaxNode, SyntaxTree};
use vstd::string::StringSliceAdditionalSpecFns;
use crate::analyzer::text::to_vec;

verus! {

/// `tree_sitter::Parser`, the parser of the outside library. Nothing of its
/// state is visible here.
#[verifier::external_type_specification]
#[verifier::external_body]
pub struct ExParser(tree_sitter::Parser);

/// `tree_sitter::Tree`, the tree that the outside parser hands out. It is
/// read through a cursor only.
#[verifier::external_type_specification]
#[verifier::external_body]
pub struct ExTree(tree_sitter::Tree);

/// `tree_sitter::TreeCursor`, a position in a tree that can be moved.
#[verifier::external_type_specification]
#[verifier::external_body]
pub struct ExTreeCursor<'a>(tree_sitter::TreeCursor<'a>);

/// `tree_sitter::Node`, one node of a tree.
#[verifier::external_type_specification]
#[verifier::external_body]
pub struct ExNode<'a>(tree_sitter::Node<'a>);

/// `tree_sitter::Language`, a grammar.
#[verifier::external_type_specification]
#[verifier::external_body]
pub struct ExLanguage(tree_sitter::Language);

/// `tree_sitter::LanguageError`, the failure to assign a grammar.
#[verifier::external_type_specification]
#[verifier::external_body]
pub struct ExLanguageError(tree_sitter::LanguageError);

/// `tree_sitter::Point`, a row and a column, both counted from zero. Its two
/// fields are read as they are.
#[verifier::external_type_specification]
pub struct ExPoint(tree_sitter::Point);

/// `tree_sitter::Parser::new` makes a parser that has no language yet.
/// Nothing is claimed of it.
pub assume_specification[ tree_sitter::Parser::new ]() -> tree_sitter::Parser;

/// `tree_sitter_php::language` hands out the PHP grammar. Nothing is claimed
/// of it.
pub assume_specification[ tree_sitter_php::language ]() -> tree_sitter::Language;

/// `tree_sitter::Parser::set_language` assigns a grammar, or fails when the
/// grammar's version does not fit the library. Nothing is claimed of which.
pub assume_specification[ tree_sitter::Parser::set_language ](
    parser: &mut tree_sitter::Parser,
    language: tree_sitter::Language,
) -> Result<(), tree_sitter::LanguageError>;

/// `tree_sitter::Tree::walk` makes a cursor that stands on the root node.
pub assume_specification[ tree_sitter::Tree::walk ](
    tree: &tree_sitter::Tree,
) -> tree_sitter::TreeCursor<'_>;

/// `tree_sitter::TreeCursor::node` is the node under the cursor.
pub assume_specification<'a>[ tree_sitter::TreeCursor::<'a>::node ](
    cursor: &tree_sitter::TreeCursor<'a>,
) -> tree_sitter::Node<'a>;

/// `tree_sitter::TreeCursor::field_name` is the field that the node under the
/// cursor fills in its parent.
pub assume_specification<'a>[ tree_sitter::TreeCursor::<'a>::field_name ](
    cursor: &tree_sitter::TreeCursor<'a>,
) -> Option<&'static str>;

/// `tree_sitter::TreeCursor::goto_first_child` moves to the first child and
/// says whether there was one.
pub assume_specification<'a>[ tree_sitter::TreeCursor::<'a>::goto_first_child ](
    cursor: &mut tree_sitter::TreeCursor<'a>,
) -> bool;

/// `tree_sitter::TreeCursor::goto_next_sibling` moves to the next sibling and
/// says whether there was one.
pub assume_specification<'a>[ tree_sitter::TreeCursor::<'a>::goto_next_sibling ](
    cursor: &mut tree_sitter::TreeCursor<'a>,
) -> bool;

/// `tree_sitter::TreeCursor::goto_parent` moves to the parent and says
/// whether there was one.
pub assume_specification<'a>[ tree_sitter::TreeCursor::<'a>::goto_parent ](
    cursor: &mut tree_sitter::TreeCursor<'a>,
) -> bool;

/// `tree_sitter::Node::kind` is the node's kind tag.
pub assume_specification<'a>[ tree_sitter::Node::<'a>::kind ](
    node: &tree_sitter::Node<'a>,
) -> &'static str;

/// `tree_sitter::Node::is_named` says whether the node stands for a named
/// rule of the grammar.
pub assume_specification<'a>[ tree_sitter::Node::<'a>::is_named ](
    node: &tree_sitter::Node<'a>,
) -> bool;

/// `tree_sitter::Node::start_byte` is the offset at which the node starts.
pub assume_specification<'a>[ tree_sitter::Node::<'a>::start_byte ](
    node: &tree_sitter::Node<'a>,
) -> usize;

/// `tree_sitter::Node::end_byte` is the offset at which the node ends.
pub assume_specification<'a>[ tree_sitter::Node::<'a>::end_byte ](
    node: &tree_sitter::Node<'a>,
) -> usize;

/// `tree_sitter::Node::start_position` is the row and column at which the
/// node starts.
pub assume_specification<'a>[ tree_sitter::Node::<'a>::start_position ](
    node: &tree_sitter::Node<'a>,
) -> tree_sitter::Point;

/// `tree_sitter::Node::end_position` is the row and column at which the node
/// ends.
pub assume_specification<'a>[ tree_sitter::Node::<'a>::end_position ](
    node: &tree_sitter::Node<'a>,
) -> tree_sitter::Point;

/// Calls `tree_sitter::Parser::parse` on `text`, without an earlier tree.
/// The call yields no tree when the parser has no language. Nothing is
/// claimed of the tree.
#[verifier::external_body]
fn parse_bytes(parser: &mut tree_sitter::Parser, text: &[u8]) -> (tree: Option<tree_sitter::Tree>) {
    parser.parse(text, None)
}

/// Why a source could not be parsed.
#[derive(Clone, Copy, Debug, PartialEq, Eq, Structural)]
pub enum ParserError {
    /// The PHP grammar could not be loaded into the parser.
    Language,
    /// The parser gave no tree for the source.
    Syntax,
    /// The tree that the parser gave does not fit the source.
    Tree,
}

impl ParserError {
    /// The description of the failure.
    pub open spec fn description(self) -> &'static str {
        match self {
            ParserError::Language => "failed to load tree-sitter-php language",
            ParserError::Syntax => "tree-sitter failed to parse PHP source",
            ParserError::Tree => "tree-sitter gave a tree that does not fit the source",
        }
    }

    /// A description of the failure.
    pub fn message(&self) -> (text: &'static str)
        ensures
            text == self.description(),
    {
        match self {
            ParserError::Language => "failed to load tree-sitter-php language",
            ParserError::Syntax => "tree-sitter failed to parse PHP source",
            ParserError::Tree => "tree-sitter gave a tree that does not fit the source",
        }
    }
}

/// Parsed contents of a source file.
#[derive(Debug)]
pub struct ParsedSource {
    pub path: Vec<u8>,
    pub source: Vec<u8>,
    pub tree: SyntaxTree,
}

impl ParsedSource {
    /// The tree is well formed and every node lies inside the source.
    pub open spec fn wf(&self) -> bool {
        &&& self.tree.wf()
        &&& forall|i: int|
            0 <= i < self.tree.nodes.len() ==> (#[trigger] self.tree.nodes[i]).end_byte
                <= self.source.len()
    }
}

/// What the parser tells of one node: its kind, whether it is named, the
/// field that it fills, and where it starts and ends.
#[derive(Clone, Copy, Debug)]
pub struct NodeReading {
    pub kind: &'static str,
    pub named: bool,
    pub field: Option<&'static str>,
    pub start_byte: usize,
    pub end_byte: usize,
    pub start: Position,
    pub end: Position,
}

/// The arena node for `reading`, to stand at `index` below `parent`: a node
/// without children or siblings yet. There is none when the byte range of
/// the reading is reversed or reaches past `limit`, or when the arena has no
/// room for it.
pub open spec fn node_of(
    reading: NodeReading,
    index: usize,
    parent: Option<usize>,
    limit: usize,
) -> Option<SyntaxNode> {
    if reading.start_byte <= reading.end_byte && reading.end_byte <= limit && index < usize::MAX {
        Some(
            SyntaxNode {
                kind: reading.kind,
                named: reading.named,
                field: reading.field,
                start_byte: reading.start_byte,
                end_byte: reading.end_byte,
                start: reading.start,
                end: reading.end,
                parent,
                first_child: None,
                next_sibling: None,
                subtree_end: (index + 1) as usize,
            },
        )
    } else {
        None
    }
}

/// Makes the arena node for `reading`, to stand at `index` below `parent`.
pub fn node_from(reading: NodeReading, index: usize, parent: Option<usize>, limit: usize) -> (r:
    Option<SyntaxNode>)
    ensures
        r == node_of(reading, index, parent, limit),
{
    if reading.start_byte > reading.end_byte || reading.end_byte > limit || index == usize::MAX {
        return None;
    }
    Some(
        SyntaxNode {
            kind: reading.kind,
            named: reading.named,
            field: reading.field,
            start_byte: reading.start_byte,
            end_byte: reading.end_byte,
            start: reading.start,
            end: reading.end,
            parent,
            first_child: None,
            next_sibling: None,
            subtree_end: index + 1,
        },
    )
}

/// `nodes` with `child` put behind them as the first child of node
/// `current`.
pub open spec fn with_child(nodes: Seq<SyntaxNode>, current: int, child: SyntaxNode) -> Seq<
    SyntaxNode,
> {
    nodes.update(
        current,
        SyntaxNode {
            first_child: Some(nodes.len() as usize),
            subtree_end: (nodes.len() + 1) as usize,
            ..nodes[current]
        },
    ).push(child)
}

/// `nodes` with `sibling` put behind them as the next sibling of node
/// `current`, whose subtree ends there.
pub open spec fn with_sibling(nodes: Seq<SyntaxNode>, current: int, sibling: SyntaxNode) -> Seq<
    SyntaxNode,
> {
    nodes.update(
        current,
        SyntaxNode {
            next_sibling: Some(nodes.len() as usize),
            subtree_end: nodes.len() as usize,
            ..nodes[current]
        },
    ).push(sibling)
}

/// `nodes` with the subtree of node `current` ending at their end.
pub open spec fn closed_at(nodes: Seq<SyntaxNode>, current: int) -> Seq<SyntaxNode> {
    nodes.update(current, SyntaxNode { subtree_end: nodes.len() as usize, ..nodes[current] })
}

/// Puts `child` behind `nodes` as the first child of node `current`.
pub fn attach_child(nodes: &mut Vec<SyntaxNode>, current: usize, child: SyntaxNode)
    requires
        current < old(nodes).len(),
        old(nodes).len() < usize::MAX,
    ensures
        final(nodes)@ == with_child(old(nodes)@, current as int, child),
{
    let index = nodes.len();
    let mut above = nodes[current];
    above.first_child = Some(index);
    above.subtree_end = index + 1;
    nodes.set(current, above);
    nodes.push(child);
}

/// Puts `sibling` behind `nodes` as the next sibling of node `current`.
pub fn attach_sibling(nodes: &mut Vec<SyntaxNode>, current: usize, sibling: SyntaxNode)
    requires
        current < old(nodes).len(),
    ensures
        final(nodes)@ == with_sibling(old(nodes)@, current as int, sibling),
{
    let index = nodes.len();
    let mut before = nodes[current];
    before.next_sibling = Some(index);
    before.subtree_end = index;
    nodes.set(current, before);
    nodes.push(sibling);
}

/// Ends the subtree of node `current` at the end of `nodes`.
pub fn close_node(nodes: &mut Vec<SyntaxNode>, current: usize)
    requires
        current < old(nodes).len(),
    ensures
        final(nodes)@ == closed_at(old(nodes)@, current as int),
{
    let index = nodes.len();
    let mut done = nodes[current];
    done.subtree_end = index;
    nodes.set(current, done);
}

/// A child attached to a soundly linked arena leaves it soundly linked.
pub proof fn lemma_with_child_ok(
    nodes: Seq<SyntaxNode>,
    current: int,
    reading: NodeReading,
    child: SyntaxNode,
    limit: usize,
)
    requires
        0 <= current < nodes.len(),
        forall|i: int| 0 <= i < nodes.len() ==> node_ok(nodes, i),
        node_of(reading, nodes.len() as usize, Some(current as usize), limit) == Some(child),
        nodes.len() <= usize::MAX,
    ensures
        forall|i: int|
            0 <= i <= nodes.len() ==> #[trigger] node_ok(with_child(nodes, current, child), i),
{
    let next = with_child(nodes, current, child);
    assert forall|i: int| 0 <= i <= nodes.len() implies #[trigger] node_ok(next, i) by {
        if i < nodes.len() {
            assert(node_ok(nodes, i));
        }
    }
}

/// A sibling attached to a soundly linked arena leaves it soundly linked.
pub proof fn lemma_with_sibling_ok(
    nodes: Seq<SyntaxNode>,
    current: int,
    reading: NodeReading,
    sibling: SyntaxNode,
    limit: usize,
)
    requires
        0 <= current < nodes.len(),
        forall|i: int| 0 <= i < nodes.len() ==> node_ok(nodes, i),
        nodes[current].parent.is_some(),
        node_of(reading, nodes.len() as usize, nodes[current].parent, limit) == Some(sibling),
        nodes.len() <= usize::MAX,
    ensures
        forall|i: int|
            0 <= i <= nodes.len() ==> #[trigger] node_ok(with_sibling(nodes, current, sibling), i),
{
    let next = with_sibling(nodes, current, sibling);
    assert(node_ok(nodes, current));
    assert forall|i: int| 0 <= i <= nodes.len() implies #[trigger] node_ok(next, i) by {
        if i < nodes.len() {
            assert(node_ok(nodes, i));
        }
    }
}

/// A subtree closed in a soundly linked arena leaves it soundly linked.
pub proof fn lemma_closed_ok(nodes: Seq<SyntaxNode>, current: int)
    requires
        0 <= current < nodes.len(),
        forall|i: int| 0 <= i < nodes.len() ==> node_ok(nodes, i),
        nodes.len() <= usize::MAX,
    ensures
        forall|i: int| 0 <= i < nodes.len() ==> #[trigger] node_ok(closed_at(nodes, current), i),
{
    let next = closed_at(nodes, current);
    assert forall|i: int| 0 <= i < nodes.len() implies #[trigger] node_ok(next, i) by {
        assert(node_ok(nodes, i));
    }
}

/// One move of a walk over a tree in document order, with what the walk
/// reads where it arrives.
#[derive(Clone, Copy, Debug)]
pub enum Step {
    /// To the first child of the current node.
    Down(NodeReading),
    /// To the next sibling of the current node.
    Across(NodeReading),
    /// Back to the parent of the current node, which has no sibling left.
    Up,
    /// The walk is over: the current node has neither sibling nor parent.
    End,
}

/// The arena and the current node after `step` is taken from node `current`.
/// A step down or across puts the node that was read behind the arena and
/// goes there; a step up ends the subtree of the current node and goes to
/// its parent; the end of the walk ends the subtree of the root. There is
/// no next state when the node that was read does not fit (see `node_of`),
/// when a step leads across or up from a node without a parent, or when the
/// walk ends on another node than the root.
pub open spec fn stepped(nodes: Seq<SyntaxNode>, current: int, step: Step, limit: usize) -> Option<
    (Seq<SyntaxNode>, int),
> {
    match step {
        Step::Down(reading) => match node_of(
            reading,
            nodes.len() as usize,
            Some(current as usize),
            limit,
        ) {
            Some(child) => Some((with_child(nodes, current, child), nodes.len() as int)),
            None => None,
        },
        Step::Across(reading) => match nodes[current].parent {
            Some(p) => match node_of(reading, nodes.len() as usize, Some(p), limit) {
                Some(sibling) => Some(
                    (with_sibling(nodes, current, sibling), nodes.len() as int),
                ),
                None => None,
            },
            None => None,
        },
        Step::Up => match nodes[current].parent {
            Some(p) => Some((closed_at(nodes, current), p as int)),
            None => None,
        },
        Step::End => if current == 0 {
            Some((closed_at(nodes, 0), 0))
        } else {
            None
        },
    }
}

/// Takes `step` from node `current`: changes the arena as the step asks and
/// gives the node at which the walk then stands, or leaves the arena as it
/// is and gives `None` where the step cannot be taken.
pub fn take_step(nodes: &mut Vec<SyntaxNode>, current: usize, step: Step, limit: usize) -> (r:
    Option<usize>)
    requires
        current < old(nodes).len(),
    ensures
        match stepped(old(nodes)@, current as int, step, limit) {
            Some((next, at)) => r == Some(at as usize) && final(nodes)@ == next,
            None => r.is_none() && final(nodes)@ == old(nodes)@,
        },
{
    let index = nodes.len();
    match step {
        Step::Down(reading) => match node_from(reading, index, Some(current), limit) {
            Some(child) => {
                attach_child(nodes, current, child);
                Some(index)
            },
            None => None,
        },
        Step::Across(reading) => match nodes[current].parent {
            Some(p) => match node_from(reading, index, Some(p), limit) {
                Some(sibling) => {
                    attach_sibling(nodes, current, sibling);
                    Some(index)
                },
                None => None,
            },
            None => None,
        },
        Step::Up => match nodes[current].parent {
            Some(p) => {
                close_node(nodes, current);
                Some(p)
            },
            None => None,
        },
        Step::End => {
            if current == 0 {
                close_node(nodes, 0);
                Some(0)
            } else {
                None
            }
        },
    }
}

/// A step that can be taken from a soundly linked arena whose nodes lie
/// inside the source leaves such an arena, and leads to a node of it. A step
/// down or across adds one node; a step up adds none and leads to an earlier
/// node.
pub proof fn lemma_step_ok(nodes: Seq<SyntaxNode>, current: int, step: Step, limit: usize)
    requires
        0 <= current < nodes.len() <= usize::MAX,
        forall|i: int| 0 <= i < nodes.len() ==> node_ok(nodes, i),
        forall|i: int| 0 <= i < nodes.len() ==> (#[trigger] nodes[i]).end_byte <= limit,
        stepped(nodes, current, step, limit).is_some(),
    ensures
        ({
            let next = stepped(nodes, current, step, limit).unwrap().0;
            let at = stepped(nodes, current, step, limit).unwrap().1;
            &&& 0 <= at < next.len()
            &&& forall|i: int| 0 <= i < next.len() ==> node_ok(next, i)
            &&& forall|i: int| 0 <= i < next.len() ==> (#[trigger] next[i]).end_byte <= limit
            &&& match step {
                Step::Down(_) => next.len() == nodes.len() + 1,
                Step::Across(_) => next.len() == nodes.len() + 1,
                Step::Up => next.len() == nodes.len() && at < current,
                Step::End => next.len() == nodes.len() && at == 0,
            }
        }),
{
    let next = stepped(nodes, current, step, limit).unwrap().0;
    assert(node_ok(nodes, current));
    match step {
        Step::Down(reading) => {
            let child = node_of(reading, nodes.len() as usize, Some(current as usize), limit).unwrap();
            lemma_with_child_ok(nodes, current, reading, child, limit);
            assert forall|i: int| 0 <= i < next.len() implies (#[trigger] next[i]).end_byte
                <= limit by {
                if i < nodes.len() {
                    assert(nodes[i].end_byte <= limit);
                }
            }
        },
        Step::Across(reading) => {
            let sibling = node_of(reading, nodes.len() as usize, nodes[current].parent, limit).unwrap();
            lemma_with_sibling_ok(nodes, current, reading, sibling, limit);
            assert forall|i: int| 0 <= i < next.len() implies (#[trigger] next[i]).end_byte
                <= limit by {
                if i < nodes.len() {
                    assert(nodes[i].end_byte <= limit);
                }
            }
        },
        Step::Up => {
            lemma_closed_ok(nodes, current);
            assert forall|i: int| 0 <= i < next.len() implies (#[trigger] next[i]).end_byte
                <= limit by {
                assert(nodes[i].end_byte <= limit);
            }
        },
        Step::End => {
            lemma_closed_ok(nodes, 0);
            assert forall|i: int| 0 <= i < next.len() implies (#[trigger] next[i]).end_byte
                <= limit by {
                assert(nodes[i].end_byte <= limit);
            }
        },
    }
}

/// Reads what the parser tells of the node under the cursor.
fn reading_under(cursor: &tree_sitter::TreeCursor<'_>) -> NodeReading {
    let node = cursor.node();
    let start = node.start_position();
    let end = node.end_position();
    NodeReading {
        kind: node.kind(),
        named: node.is_named(),
        field: cursor.field_name(),
        start_byte: node.start_byte(),
        end_byte: node.end_byte(),
        start: Position { row: start.row, column: start.column },
        end: Position { row: end.row, column: end.column },
    }
}

/// Reads the node under the cursor and makes the arena node for it, to
/// stand at `index` below `parent`. What the cursor yields decides whether
/// there is one.
fn read_node(
    cursor: &tree_sitter::TreeCursor<'_>,
    index: usize,
    parent: Option<usize>,
    limit: usize,
) -> (r: Option<SyntaxNode>)
    ensures
        exists|reading: NodeReading| r == #[trigger] node_of(reading, index, parent, limit),
{
    let reading = reading_under(cursor);
    node_from(reading, index, parent, limit)
}

/// Moves the cursor on in document order and says which step that was:
/// down to the first child where `descend` allows it and there is one, else
/// across to the next sibling, else up to the parent, else the walk is over.
fn next_step(cursor: &mut tree_sitter::TreeCursor<'_>, descend: bool) -> Step {
    if descend && cursor.goto_first_child() {
        Step::Down(reading_under(cursor))
    } else if cursor.goto_next_sibling() {
        Step::Across(reading_under(cursor))
    } else if cursor.goto_parent() {
        Step::Up
    } else {
        Step::End
    }
}

/// Copies the tree under `tree` into an arena, in document order: the
/// cursor is moved, and each of its moves is taken as a step on the arena.
/// `None` when a step cannot be taken.
fn copy_tree(tree: &tree_sitter::Tree, limit: usize) -> (r: Option<SyntaxTree>)
    ensures
        match r {
            Some(t) => t.wf() && forall|i: int|
                0 <= i < t.nodes.len() ==> (#[trigger] t.nodes[i]).end_byte <= limit,
            None => true,
        },
{
    let mut cursor = tree.walk();
    let mut nodes: Vec<SyntaxNode> = Vec::new();
    match read_node(&cursor, 0, None, limit) {
        Some(root) => {
            nodes.push(root);
        },
        None => {
            return None;
        },
    }
    let mut current: usize = 0;
    let mut descend = true;
    loop
        invariant
            0 < nodes.len(),
            current < nodes.len(),
            forall|i: int| 0 <= i < nodes.len() ==> node_ok(nodes@, i),
            forall|i: int| 0 <= i < nodes.len() ==> (#[trigger] nodes[i]).end_byte <= limit,
        decreases usize::MAX - nodes.len(), current,
    {
        let step = next_step(&mut cursor, descend);
        let ghost before = nodes@;
        match take_step(&mut nodes, current, step, limit) {
            Some(at) => {
                proof {
                    lemma_step_ok(before, current as int, step, limit);
                }
                match step {
                    Step::End => {
                        return Some(SyntaxTree { nodes });
                    },
                    Step::Up => {
                        descend = false;
                    },
                    _ => {
                        descend = true;
                    },
                }
                current = at;
            },
            None => {
                return None;
            },
        }
    }
}

/// Parser wrapper that uses tree-sitter-php as the backend.
pub struct TreeSitterPhpParser {
    parser: tree_sitter::Parser,
}

impl ParsedSource {
    /// Puts a parsed file together from its path, its text and the copy of
    /// its tree. Without a copy of the tree the file counts as one whose
    /// tree does not fit.
    pub fn assemble(path: &str, source: &str, copied: Option<SyntaxTree>) -> (r: Result<
        ParsedSource,
        ParserError,
    >)
        ensures
            match copied {
                Some(tree) => {
                    &&& r.is_ok()
                    &&& r.unwrap().path@ == path.spec_bytes()
                    &&& r.unwrap().source@ == source.spec_bytes()
                    &&& r.unwrap().tree == tree
                },
                None => r == Err::<ParsedSource, ParserError>(ParserError::Tree),
            },
    {
        match copied {
            Some(tree) => Ok(
                ParsedSource { path: to_vec(path.as_bytes()), source: to_vec(source.as_bytes()), tree },
            ),
            None => Err(ParserError::Tree),
        }
    }
}

impl TreeSitterPhpParser {
    /// The PHP parser around `parser`, if the grammar was assigned to it.
    fn from_assignment(
        parser: tree_sitter::Parser,
        assigned: Result<(), tree_sitter::LanguageError>,
    ) -> (r: Result<Self, ParserError>)
        ensures
            match assigned {
                Ok(_) => r.is_ok() && r.unwrap().parser == parser,
                Err(_) => r == Err::<Self, ParserError>(ParserError::Language),
            },
    {
        match assigned {
            Ok(_) => Ok(TreeSitterPhpParser { parser }),
            Err(_) => Err(ParserError::Language),
        }
    }

    /// Makes a parser for PHP. Fails when the grammar does not fit the
    /// parsing library.
    pub fn new() -> (r: Result<Self, ParserError>)
        ensures
            r.is_err() ==> r == Err::<Self, ParserError>(ParserError::Language),
    {
        let mut parser = tree_sitter::Parser::new();
        let language = tree_sitter_php::language();
        let assigned = parser.set_language(language);
        TreeSitterPhpParser::from_assignment(parser, assigned)
    }

    /// Parses `source`, the text of the file at `path`. What comes back is
    /// well formed, and holds the path and the text as they were given.
    pub fn parse_source(&mut self, path: &str, source: &str) -> (r: Result<
        ParsedSource,
        ParserError,
    >)
        ensures
            match r {
                Ok(parsed) => {
                    &&& parsed.wf()
                    &&& parsed.path@ == path.spec_bytes()
                    &&& parsed.source@ == source.spec_bytes()
                },
                Err(e) => e == ParserError::Syntax || e == ParserError::Tree,
            },
    {
        let text = source.as_bytes();
        match parse_bytes(&mut self.parser, text) {
            Some(tree) => ParsedSource::assemble(path, source, copy_tree(&tree, text.len())),
            None => Err(ParserError::Syntax),
        }
    }
}

} // verus!
