//! Finds the documentation comment that belongs to a node.

use vstd::prelude::*;
use vstd::slice::slice_subrange;
use vstd::string::StringSliceAdditionalSpecFns;
use crate::analyzer::parser::ParsedSource;
use crate::analyzer::phpdoc::parser::{parse_doc, Doc, PhpDocComment, PhpDocParser};
use crate::analyzer::syntax::node_ok;

verus! {

/// The text that node `i` covers, as it stands in the source.
pub open spec fn raw_text_of(parsed: &ParsedSource, i: int) -> Seq<u8> {
    parsed.source@.subrange(
        parsed.tree.nodes[i].start_byte as int,
        parsed.tree.nodes[i].end_byte as int,
    )
}

/// Whether node `i` is a comment.
pub open spec fn is_comment(parsed: &ParsedSource, i: int) -> bool {
    parsed.tree.kind_of(i) == "comment".spec_bytes()
}

/// The index of the first of `list`, from index `from` on, that is `node`.
pub open spec fn position_from(list: Seq<usize>, node: usize, from: int) -> Option<int>
    decreases list.len() - from,
{
    if from < 0 || from >= list.len() {
        None
    } else if list[from] == node {
        Some(from)
    } else {
        position_from(list, node, from + 1)
    }
}

/// The index of the first of `list` that is `node`.
pub open spec fn position_in(list: Seq<usize>, node: usize) -> Option<int> {
    position_from(list, node, 0)
}

/// The first comment among `kids`, from index `from` on and in front of
/// `node`.
pub open spec fn comment_before(
    parsed: &ParsedSource,
    kids: Seq<usize>,
    node: usize,
    from: int,
) -> Option<usize>
    decreases kids.len() - from,
{
    if from < 0 || from >= kids.len() || kids[from] == node {
        None
    } else if is_comment(parsed, kids[from] as int) {
        Some(kids[from])
    } else {
        comment_before(parsed, kids, node, from + 1)
    }
}

/// What the first documentation comment among `kids`, from index `from` on
/// and in front of `node`, declares.
pub open spec fn doc_before(parsed: &ParsedSource, kids: Seq<usize>, node: usize, from: int) -> Option<
    Doc,
>
    decreases kids.len() - from,
{
    if from < 0 || from >= kids.len() || kids[from] == node {
        None
    } else if is_comment(parsed, kids[from] as int) && parse_doc(
        raw_text_of(parsed, kids[from] as int),
    ).is_some() {
        parse_doc(raw_text_of(parsed, kids[from] as int))
    } else {
        doc_before(parsed, kids, node, from + 1)
    }
}

/// What the documentation comment of node `node` declares: if the named
/// sibling right in front of the node is a comment, what that comment
/// declares; else what the first documentation comment among the siblings
/// in front of the node declares. Nothing for a node that is not a named
/// child of a parent.
pub open spec fn doc_for(parsed: &ParsedSource, node: int) -> Option<Doc> {
    match parsed.tree.nodes[node].parent {
        Some(p) => {
            let named = parsed.tree.named_children(p as int);
            match position_in(named, node as usize) {
                Some(k) => if k > 0 && is_comment(parsed, named[k - 1] as int) {
                    parse_doc(raw_text_of(parsed, named[k - 1] as int))
                } else {
                    doc_before(parsed, parsed.tree.children(p as int), node as usize, 0)
                },
                None => None,
            }
        },
        None => None,
    }
}

fn raw_text<'a>(parsed: &'a ParsedSource, i: usize) -> (r: &'a [u8])
    requires
        parsed.wf(),
        i < parsed.tree.nodes.len(),
    ensures
        r@ == raw_text_of(parsed, i as int),
{
    assert(node_ok(parsed.tree.nodes@, i as int));
    let n = &parsed.tree.nodes[i];
    slice_subrange(parsed.source.as_slice(), n.start_byte, n.end_byte)
}

fn position_of(list: &Vec<usize>, node: usize) -> (r: Option<usize>)
    ensures
        match r {
            Some(k) => position_in(list@, node) == Some(k as int) && k < list@.len(),
            None => position_in(list@, node).is_none(),
        },
{
    let mut k: usize = 0;
    while k < list.len()
        invariant
            k <= list.len(),
            position_in(list@, node) == position_from(list@, node, k as int),
        decreases list.len() - k,
    {
        if list[k] == node {
            return Some(k);
        }
        k += 1;
    }
    None
}

/// Extract PHPDoc comment that precedes a node.
#[verifier::loop_isolation(false)]
pub fn extract_phpdoc_for_node(parsed: &ParsedSource, node: usize) -> (r: Option<PhpDocComment>)
    requires
        parsed.wf(),
        node < parsed.tree.nodes.len(),
    ensures
        match r {
            Some(doc) => doc_for(parsed, node as int) == Some(doc@),
            None => doc_for(parsed, node as int).is_none(),
        },
{
    let parent = match parsed.tree.parent(node) {
        Some(p) => p,
        None => {
            return None;
        },
    };
    let named = parsed.tree.named_children_of(parent);
    let k = match position_of(&named, node) {
        Some(k) => k,
        None => {
            return None;
        },
    };
    if k > 0 && parsed.tree.is_kind(named[k - 1], "comment") {
        return PhpDocParser::parse_bytes(raw_text(parsed, named[k - 1]));
    }
    let kids = parsed.tree.children_of(parent);
    let mut i: usize = 0;
    while i < kids.len()
        invariant
            parsed.wf(),
            i <= kids.len(),
            forall|m: int| 0 <= m < kids@.len() ==> #[trigger] kids@[m] < parsed.tree.nodes.len(),
            doc_before(parsed, kids@, node, 0) == doc_before(parsed, kids@, node, i as int),
        decreases kids.len() - i,
    {
        let c = kids[i];
        if c == node {
            return None;
        }
        if parsed.tree.is_kind(c, "comment") {
            match PhpDocParser::parse_bytes(raw_text(parsed, c)) {
                Some(doc) => {
                    return Some(doc);
                },
                None => {},
            }
        }
        i += 1;
    }
    None
}

/// Find the first comment among the siblings in front of a node.
#[verifier::loop_isolation(false)]
pub fn find_preceding_comment(parsed: &ParsedSource, node: usize) -> (r: Option<usize>)
    requires
        parsed.wf(),
        node < parsed.tree.nodes.len(),
    ensures
        r == (match parsed.tree.nodes[node as int].parent {
            Some(p) => comment_before(parsed, parsed.tree.children(p as int), node, 0),
            None => None,
        }),
        r.is_some() ==> r.unwrap() < parsed.tree.nodes.len(),
{
    let parent = match parsed.tree.parent(node) {
        Some(p) => p,
        None => {
            return None;
        },
    };
    let kids = parsed.tree.children_of(parent);
    let mut i: usize = 0;
    while i < kids.len()
        invariant
            parsed.wf(),
            i <= kids.len(),
            forall|m: int| 0 <= m < kids@.len() ==> #[trigger] kids@[m] < parsed.tree.nodes.len(),
            comment_before(parsed, kids@, node, 0) == comment_before(parsed, kids@, node, i as int),
        decreases kids.len() - i,
    {
        let c = kids[i];
        if c == node {
            return None;
        }
        if parsed.tree.is_kind(c, "comment") {
            return Some(c);
        }
        i += 1;
    }
    None
}

} // verus!
