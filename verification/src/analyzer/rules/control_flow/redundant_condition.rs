//! Flags an `if` whose condition repeats that of an earlier `if` under the
//! same parent.

use vstd::prelude::*;
use vstd::string::StringSliceAdditionalSpecFns;
use crate::analyzer::diagnostic::{Diag, Diagnostic, Severity};
use crate::analyzer::fix::{edits_of, Edit, TextEdit};
use crate::analyzer::parser::ParsedSource;
use crate::analyzer::project::ProjectContext;
use crate::analyzer::rules::helpers::{
    diagnostic_at, diagnostic_for_node, node_text, node_text_of, span_at,
};
use crate::analyzer::rules::{check_nodes, node_findings, DiagnosticRule, NodeCheck};
use crate::analyzer::text::{bytes_eq, push_all};

verus! {

/// The node of the condition of the `if` at node `j`: the second child of
/// its parenthesized expression.
pub open spec fn guard_of(parsed: &ParsedSource, j: int) -> Option<usize> {
    if 0 <= j < parsed.tree.nodes.len() && parsed.tree.kind_of(j) == "if_statement".spec_bytes() {
        match parsed.tree.first_of_kind(
            parsed.tree.named_children(j),
            "parenthesized_expression".spec_bytes(),
        ) {
            Some(p) => if parsed.tree.children(p as int).len() > 1 {
                Some(parsed.tree.children(p as int)[1])
            } else {
                None
            },
            None => None,
        }
    } else {
        None
    }
}

/// Whether the `if` at node `e` guards with the text `text` under the same
/// parent as node `j`, in front of it.
pub open spec fn is_earlier_guard(parsed: &ParsedSource, j: int, text: Seq<u8>, e: int) -> bool {
    &&& 0 <= e < j
    &&& parsed.tree.nodes[e].parent == parsed.tree.nodes[j].parent
    &&& match guard_of(parsed, e) {
        Some(g) => node_text_of(parsed, g as int) == text,
        None => false,
    }
}

/// Whether an earlier `if` under the same parent guards with `text`.
pub open spec fn repeats(parsed: &ParsedSource, j: int, text: Seq<u8>) -> bool {
    exists|e: int| #[trigger] is_earlier_guard(parsed, j, text, e)
}

/// The message of a finding.
pub open spec fn redundant_message(text: Seq<u8>) -> Seq<u8> {
    "redundant condition \"".spec_bytes() + text + "\" repeats an earlier guard".spec_bytes()
}

/// What the rule reports for node `j`: an error at the condition, if the
/// node is an `if` whose condition repeats an earlier guard.
pub open spec fn redundant_at(parsed: &ParsedSource, j: int) -> Seq<Diag> {
    match guard_of(parsed, j) {
        Some(g) => if repeats(parsed, j, node_text_of(parsed, g as int)) {
            seq![
                diagnostic_at(
                    parsed.path@,
                    parsed.source@,
                    span_at(parsed, g as int),
                    Severity::Error,
                    redundant_message(node_text_of(parsed, g as int)),
                ),
            ]
        } else {
            Seq::empty()
        },
        None => Seq::empty(),
    }
}

fn guard(parsed: &ParsedSource, j: usize) -> (r: Option<usize>)
    requires
        parsed.wf(),
        j < parsed.tree.nodes.len(),
    ensures
        r == guard_of(parsed, j as int),
        r.is_some() ==> r.unwrap() < parsed.tree.nodes.len(),
{
    if !parsed.tree.is_kind(j, "if_statement") {
        return None;
    }
    match parsed.tree.child_by_kind(j, "parenthesized_expression") {
        Some(p) => {
            let kids = parsed.tree.children_of(p);
            if kids.len() > 1 {
                Some(kids[1])
            } else {
                None
            }
        },
        None => None,
    }
}

fn has_earlier_guard(parsed: &ParsedSource, j: usize, text: &[u8]) -> (r: bool)
    requires
        parsed.wf(),
        j < parsed.tree.nodes.len(),
    ensures
        r == repeats(parsed, j as int, text@),
{
    let parent = parsed.tree.nodes[j].parent;
    let mut e: usize = 0;
    while e < j
        invariant
            parsed.wf(),
            e <= j < parsed.tree.nodes.len(),
            parent == parsed.tree.nodes[j as int].parent,
            forall|m: int| 0 <= m < e ==> !is_earlier_guard(parsed, j as int, text@, m),
        decreases j - e,
    {
        if parsed.tree.nodes[e].parent == parent {
            let hit = match guard(parsed, e) {
                Some(g) => bytes_eq(node_text(parsed, g), text),
                None => false,
            };
            if hit {
                assert(is_earlier_guard(parsed, j as int, text@, e as int));
                return true;
            }
        }
        e += 1;
    }
    false
}

/// The rule `redundant-condition`.
#[derive(Clone, Copy, Debug)]
pub struct RedundantConditionRule;

impl RedundantConditionRule {
    pub fn new() -> Self {
        RedundantConditionRule
    }
}

impl NodeCheck for RedundantConditionRule {
    open spec fn finding(&self, parsed: &ParsedSource, context: &ProjectContext, j: int) -> Seq<
        Diag,
    > {
        redundant_at(parsed, j)
    }

    fn inspect(&self, parsed: &ParsedSource, context: &ProjectContext, j: usize) -> (r: Option<
        Diagnostic,
    >) {
        match guard(parsed, j) {
            Some(g) => {
                let text = node_text(parsed, g);
                if has_earlier_guard(parsed, j, text) {
                    let mut message: Vec<u8> = Vec::new();
                    push_all(&mut message, "redundant condition \"".as_bytes());
                    push_all(&mut message, text);
                    push_all(&mut message, "\" repeats an earlier guard".as_bytes());
                    assert(message@ =~= redundant_message(text@));
                    Some(diagnostic_for_node(parsed, g, Severity::Error, message))
                } else {
                    None
                }
            },
            None => None,
        }
    }
}

impl DiagnosticRule for RedundantConditionRule {
    open spec fn rule_name(&self) -> Seq<u8> {
        "redundant-condition".spec_bytes()
    }

    open spec fn findings(&self, parsed: &ParsedSource, context: &ProjectContext) -> Seq<Diag> {
        node_findings(self, parsed, context)
    }

    open spec fn edits(&self, parsed: &ParsedSource, context: &ProjectContext) -> Seq<Edit> {
        Seq::empty()
    }

    fn name(&self) -> (r: &'static str) {
        "redundant-condition"
    }

    fn run(&self, parsed: &ParsedSource, context: &ProjectContext) -> (r: Vec<Diagnostic>) {
        check_nodes(self, parsed, context)
    }

    fn fix(&self, parsed: &ParsedSource, context: &ProjectContext) -> (r: Vec<TextEdit>) {
        let out: Vec<TextEdit> = Vec::new();
        assert(edits_of(out@) =~= Seq::empty());
        out
    }
}

} // verus!
