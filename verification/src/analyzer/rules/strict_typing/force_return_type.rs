//! Asks every function to declare its return type.

use vstd::prelude::*;
use vstd::string::StringSliceAdditionalSpecFns;
use crate::analyzer::diagnostic::{Diag, Diagnostic, Severity};
use crate::analyzer::fix::{edits_of, Edit, TextEdit};
use crate::analyzer::parser::ParsedSource;
use crate::analyzer::project::ProjectContext;
use crate::analyzer::rules::helpers::{
    diagnostic_at, diagnostic_for_node, node_text, node_text_of, span_at,
};
use crate::analyzer::rules::{check_nodes, node_findings, DiagnosticRule, NodeCheck};
use crate::analyzer::rules::strict_typing::missing_return::anchor;
use crate::analyzer::text::{decimal, push_all, push_decimal};

verus! {

/// The message for the function `name` whose name starts at `row`, `column`.
pub open spec fn untyped_message(name: Seq<u8>, row: usize, column: usize) -> Seq<u8> {
    "function ".spec_bytes() + name + " should have an explicit return type at ".spec_bytes()
        + decimal((row + 1) as nat) + ":".spec_bytes() + decimal((column + 1) as nat)
}

/// What the rule reports for node `j`: a warning at the name, if the node is
/// a function definition without a return type.
pub open spec fn untyped_at(parsed: &ParsedSource, j: int) -> Seq<Diag> {
    if parsed.tree.kind_of(j) == "function_definition".spec_bytes() && parsed.tree.first_of_kind(
        parsed.tree.named_children(j),
        "union_type".spec_bytes(),
    ).is_none() {
        seq![
            diagnostic_at(
                parsed.path@,
                parsed.source@,
                span_at(parsed, anchor(parsed, j)),
                Severity::Warning,
                untyped_message(
                    node_text_of(parsed, anchor(parsed, j)),
                    parsed.tree.nodes[anchor(parsed, j)].start.row,
                    parsed.tree.nodes[anchor(parsed, j)].start.column,
                ),
            ),
        ]
    } else {
        Seq::empty()
    }
}

/// The rule `strict_typing/force_return_type`.
#[derive(Clone, Copy, Debug)]
pub struct ForceReturnTypeRule;

impl ForceReturnTypeRule {
    pub fn new() -> Self {
        ForceReturnTypeRule
    }
}

impl NodeCheck for ForceReturnTypeRule {
    open spec fn finding(&self, parsed: &ParsedSource, context: &ProjectContext, j: int) -> Seq<
        Diag,
    > {
        untyped_at(parsed, j)
    }

    fn inspect(&self, parsed: &ParsedSource, context: &ProjectContext, j: usize) -> (r: Option<
        Diagnostic,
    >) {
        if !parsed.tree.is_kind(j, "function_definition") {
            return None;
        }
        if parsed.tree.child_by_kind(j, "union_type").is_some() {
            return None;
        }
        let name_node = match parsed.tree.child_by_field(j, "name") {
            Some(n) => n,
            None => j,
        };
        let name = node_text(parsed, name_node);
        let start = parsed.tree.nodes[name_node].start;
        let mut message: Vec<u8> = Vec::new();
        push_all(&mut message, "function ".as_bytes());
        push_all(&mut message, name);
        push_all(&mut message, " should have an explicit return type at ".as_bytes());
        push_decimal(&mut message, start.row as u128 + 1);
        push_all(&mut message, ":".as_bytes());
        push_decimal(&mut message, start.column as u128 + 1);
        assert(message@ =~= untyped_message(name@, start.row, start.column));
        Some(diagnostic_for_node(parsed, name_node, Severity::Warning, message))
    }
}

impl DiagnosticRule for ForceReturnTypeRule {
    open spec fn rule_name(&self) -> Seq<u8> {
        "strict_typing/force_return_type".spec_bytes()
    }

    open spec fn findings(&self, parsed: &ParsedSource, context: &ProjectContext) -> Seq<Diag> {
        node_findings(self, parsed, context)
    }

    open spec fn edits(&self, parsed: &ParsedSource, context: &ProjectContext) -> Seq<Edit> {
        Seq::empty()
    }

    fn name(&self) -> (r: &'static str) {
        "strict_typing/force_return_type"
    }

    fn run(&self, parsed: &ParsedSource, context: &ProjectContext) -> (r: Vec<Diagnostic>) {
        check_nodes(self, parsed, context)
    }

    fn fix(&self, parsed: &ParsedSource, context: &ProjectContext) -> (r: Vec<TextEdit>) {
        let out: Vec<TextEdit> = Vec::new();
        assert(edits_of(out@) =~= Seq::empty());
        out
    }
}

} // verus!
