//! Flags a function that is declared again under the same name.

use vstd::prelude::*;
use vstd::string::StringSliceAdditionalSpecFns;
use crate::analyzer::diagnostic::{Diag, Diagnostic, Severity};
use crate::analyzer::fix::{edits_of, Edit, TextEdit};
use crate::analyzer::parser::ParsedSource;
use crate::analyzer::project::ProjectContext;
use crate::analyzer::rules::helpers::{
    diagnostic_at, diagnostic_for_node, node_text, node_text_of, span_at,
};
use crate::analyzer::rules::{check_nodes, node_findings, DiagnosticRule, NodeCheck};
use crate::analyzer::text::{bytes_eq, push_all};

verus! {

/// The node that names the function at node `j`, if the node is a function
/// definition with a name.
pub open spec fn declared_name(parsed: &ParsedSource, j: int) -> Option<usize> {
    if 0 <= j < parsed.tree.nodes.len() && parsed.tree.kind_of(j)
        == "function_definition".spec_bytes() {
        parsed.tree.first_of_kind(parsed.tree.named_children(j), "name".spec_bytes())
    } else {
        None
    }
}

/// Whether node `e`, in front of node `j`, declares a function named `name`.
pub open spec fn declares_before(parsed: &ParsedSource, j: int, name: Seq<u8>, e: int) -> bool {
    &&& 0 <= e < j
    &&& match declared_name(parsed, e) {
        Some(n) => node_text_of(parsed, n as int) == name,
        None => false,
    }
}

/// Whether a function named `name` is declared in front of node `j`.
pub open spec fn declared_earlier(parsed: &ParsedSource, j: int, name: Seq<u8>) -> bool {
    exists|e: int| #[trigger] declares_before(parsed, j, name, e)
}

/// The message of a finding.
pub open spec fn duplicate_message(name: Seq<u8>) -> Seq<u8> {
    "duplicate declaration of \"".spec_bytes() + name + "\"".spec_bytes()
}

/// What the rule reports for node `j`: an error at the name, if the node
/// declares a function under a name that an earlier function has.
pub open spec fn duplicate_at(parsed: &ParsedSource, j: int) -> Seq<Diag> {
    match declared_name(parsed, j) {
        Some(n) => if declared_earlier(parsed, j, node_text_of(parsed, n as int)) {
            seq![
                diagnostic_at(
                    parsed.path@,
                    parsed.source@,
                    span_at(parsed, n as int),
                    Severity::Error,
                    duplicate_message(node_text_of(parsed, n as int)),
                ),
            ]
        } else {
            Seq::empty()
        },
        None => Seq::empty(),
    }
}

fn name_node(parsed: &ParsedSource, j: usize) -> (r: Option<usize>)
    requires
        parsed.wf(),
        j < parsed.tree.nodes.len(),
    ensures
        r == declared_name(parsed, j as int),
        r.is_some() ==> r.unwrap() < parsed.tree.nodes.len(),
{
    if parsed.tree.is_kind(j, "function_definition") {
        parsed.tree.child_by_kind(j, "name")
    } else {
        None
    }
}

fn seen_before(parsed: &ParsedSource, j: usize, name: &[u8]) -> (r: bool)
    requires
        parsed.wf(),
        j < parsed.tree.nodes.len(),
    ensures
        r == declared_earlier(parsed, j as int, name@),
{
    let mut e: usize = 0;
    while e < j
        invariant
            parsed.wf(),
            e <= j < parsed.tree.nodes.len(),
            forall|m: int| 0 <= m < e ==> !declares_before(parsed, j as int, name@, m),
        decreases j - e,
    {
        let hit = match name_node(parsed, e) {
            Some(n) => bytes_eq(node_text(parsed, n), name),
            None => false,
        };
        if hit {
            assert(declares_before(parsed, j as int, name@, e as int));
            return true;
        }
        e += 1;
    }
    false
}

/// The rule `sanity/duplicate_declaration`.
#[derive(Clone, Copy, Debug)]
pub struct DuplicateDeclarationRule;

impl DuplicateDeclarationRule {
    pub fn new() -> Self {
        DuplicateDeclarationRule
    }
}

impl NodeCheck for DuplicateDeclarationRule {
    open spec fn finding(&self, parsed: &ParsedSource, context: &ProjectContext, j: int) -> Seq<
        Diag,
    > {
        duplicate_at(parsed, j)
    }

    fn inspect(&self, parsed: &ParsedSource, context: &ProjectContext, j: usize) -> (r: Option<
        Diagnostic,
    >) {
        match name_node(parsed, j) {
            Some(n) => {
                let name = node_text(parsed, n);
                if seen_before(parsed, j, name) {
                    let mut message: Vec<u8> = Vec::new();
                    push_all(&mut message, "duplicate declaration of \"".as_bytes());
                    push_all(&mut message, name);
                    push_all(&mut message, "\"".as_bytes());
                    assert(message@ =~= duplicate_message(name@));
                    Some(diagnostic_for_node(parsed, n, Severity::Error, message))
                } else {
                    None
                }
            },
            None => None,
        }
    }
}

impl DiagnosticRule for DuplicateDeclarationRule {
    open spec fn rule_name(&self) -> Seq<u8> {
        "sanity/duplicate_declaration".spec_bytes()
    }

    open spec fn findings(&self, parsed: &ParsedSource, context: &ProjectContext) -> Seq<Diag> {
        node_findings(self, parsed, context)
    }

    open spec fn edits(&self, parsed: &ParsedSource, context: &ProjectContext) -> Seq<Edit> {
        Seq::empty()
    }

    fn name(&self) -> (r: &'static str) {
        "sanity/duplicate_declaration"
    }

    fn run(&self, parsed: &ParsedSource, context: &ProjectContext) -> (r: Vec<Diagnostic>) {
        check_nodes(self, parsed, context)
    }

    fn fix(&self, parsed: &ParsedSource, context: &ProjectContext) -> (r: Vec<TextEdit>) {
        let out: Vec<TextEdit> = Vec::new();
        assert(edits_of(out@) =~= Seq::empty());
        out
    }
}

} // verus!
