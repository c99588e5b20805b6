//! Flags calls that give a function fewer arguments than it requires.

use vstd::prelude::*;
use vstd::string::StringSliceAdditionalSpecFns;
use crate::analyzer::diagnostic::{Diag, Diagnostic, Severity};
use crate::analyzer::fix::{edits_of, Edit, TextEdit};
use crate::analyzer::parser::ParsedSource;
use crate::analyzer::project::{symbols_of, ProjectContext};
use crate::analyzer::rules::helpers::{
    diagnostic_at, diagnostic_for_node, node_text, node_text_of, span_at,
};
use crate::analyzer::rules::{check_nodes, node_findings, DiagnosticRule, NodeCheck};
use crate::analyzer::text::{decimal, push_all, push_decimal};

verus! {

/// The node that names the function that the call at node `j` calls: its
/// first plain name, or else its first qualified name.
pub open spec fn callee(parsed: &ParsedSource, j: int) -> Option<usize> {
    match parsed.tree.first_of_kind(parsed.tree.named_children(j), "name".spec_bytes()) {
        Some(n) => Some(n),
        None => parsed.tree.first_of_kind(
            parsed.tree.named_children(j),
            "qualified_name".spec_bytes(),
        ),
    }
}

/// How many arguments the argument list at node `a` holds.
pub open spec fn argument_count(parsed: &ParsedSource, a: int) -> nat {
    parsed.tree.named_children_of_kind(a, "argument".spec_bytes()).len()
}

/// The message for a call of `name` with `given` arguments.
pub open spec fn missing_message(name: Seq<u8>, given: nat) -> Seq<u8> {
    "missing required argument ".spec_bytes() + decimal(given + 1) + " for ".spec_bytes() + name
}

/// What the rule reports for node `j`: an error at the name of the called
/// function, if the node is a call of a function that the project declares
/// and the call gives fewer arguments than the function requires.
pub open spec fn missing_argument_at(
    parsed: &ParsedSource,
    context: &ProjectContext,
    j: int,
) -> Seq<Diag> {
    if parsed.tree.kind_of(j) == "function_call_expression".spec_bytes() {
        match callee(parsed, j) {
            Some(n) => match context.resolution(node_text_of(parsed, n as int), parsed.path@) {
                Some(k) => match parsed.tree.first_of_kind(
                    parsed.tree.named_children(j),
                    "arguments".spec_bytes(),
                ) {
                    Some(a) => if argument_count(parsed, a as int) < symbols_of(
                        context.function_symbols@,
                    )[k].required_params {
                        seq![
                            diagnostic_at(
                                parsed.path@,
                                parsed.source@,
                                span_at(parsed, n as int),
                                Severity::Error,
                                missing_message(
                                    node_text_of(parsed, n as int),
                                    argument_count(parsed, a as int),
                                ),
                            ),
                        ]
                    } else {
                        Seq::empty()
                    },
                    None => Seq::empty(),
                },
                None => Seq::empty(),
            },
            None => Seq::empty(),
        }
    } else {
        Seq::empty()
    }
}

fn count_arguments(parsed: &ParsedSource, a: usize) -> (r: usize)
    requires
        parsed.wf(),
        a < parsed.tree.nodes.len(),
    ensures
        r == argument_count(parsed, a as int),
{
    parsed.tree.children_by_kind(a, "argument").len()
}

/// The rule `strict_typing/missing_argument`.
#[derive(Clone, Copy, Debug)]
pub struct MissingArgumentRule;

impl MissingArgumentRule {
    pub fn new() -> Self {
        MissingArgumentRule
    }
}

impl NodeCheck for MissingArgumentRule {
    open spec fn finding(&self, parsed: &ParsedSource, context: &ProjectContext, j: int) -> Seq<
        Diag,
    > {
        missing_argument_at(parsed, context, j)
    }

    fn inspect(&self, parsed: &ParsedSource, context: &ProjectContext, j: usize) -> (r: Option<
        Diagnostic,
    >) {
        if !parsed.tree.is_kind(j, "function_call_expression") {
            return None;
        }
        let name_node = match parsed.tree.child_by_kind(j, "name") {
            Some(n) => n,
            None => match parsed.tree.child_by_kind(j, "qualified_name") {
                Some(n) => n,
                None => {
                    return None;
                },
            },
        };
        let name = node_text(parsed, name_node);
        let symbol = match context.resolve_function_symbol(name, parsed) {
            Some(symbol) => symbol,
            None => {
                return None;
            },
        };
        let arguments = match parsed.tree.child_by_kind(j, "arguments") {
            Some(a) => a,
            None => {
                return None;
            },
        };
        let count = count_arguments(parsed, arguments);
        if count < symbol.required_params {
            let mut message: Vec<u8> = Vec::new();
            push_all(&mut message, "missing required argument ".as_bytes());
            push_decimal(&mut message, count as u128 + 1);
            push_all(&mut message, " for ".as_bytes());
            push_all(&mut message, name);
            assert(message@ =~= missing_message(name@, count as nat));
            Some(diagnostic_for_node(parsed, name_node, Severity::Error, message))
        } else {
            None
        }
    }
}

impl DiagnosticRule for MissingArgumentRule {
    open spec fn rule_name(&self) -> Seq<u8> {
        "strict_typing/missing_argument".spec_bytes()
    }

    open spec fn findings(&self, parsed: &ParsedSource, context: &ProjectContext) -> Seq<Diag> {
        node_findings(self, parsed, context)
    }

    open spec fn edits(&self, parsed: &ParsedSource, context: &ProjectContext) -> Seq<Edit> {
        Seq::empty()
    }

    fn name(&self) -> (r: &'static str) {
        "strict_typing/missing_argument"
    }

    fn run(&self, parsed: &ParsedSource, context: &ProjectContext) -> (r: Vec<Diagnostic>) {
        check_nodes(self, parsed, context)
    }

    fn fix(&self, parsed: &ParsedSource, context: &ProjectContext) -> (r: Vec<TextEdit>) {
        let out: Vec<TextEdit> = Vec::new();
        assert(edits_of(out@) =~= Seq::empty());
        out
    }
}

} // verus!
