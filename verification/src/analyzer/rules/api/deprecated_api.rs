//! Flags calls of functions that PHP has deprecated or removed.

use vstd::prelude::*;
use vstd::string::StringSliceAdditionalSpecFns;
use crate::analyzer::diagnostic::{Diag, Diagnostic, Severity};
use crate::analyzer::fix::{edits_of, Edit, TextEdit};
use crate::analyzer::parser::ParsedSource;
use crate::analyzer::project::ProjectContext;
use crate::analyzer::rules::helpers::{
    diagnostic_at, diagnostic_for_node, node_text, node_text_of, span_at,
};
use crate::analyzer::rules::{check_nodes, node_findings, DiagnosticRule, NodeCheck};
use crate::analyzer::text::{bytes_eq, push_all};

verus! {

/// The functions that the rule flags.
pub open spec fn is_deprecated(name: Seq<u8>) -> bool {
    ||| name == "mysql_query".spec_bytes()
    ||| name == "mysql_connect".spec_bytes()
    ||| name == "mysql_pconnect".spec_bytes()
    ||| name == "each".spec_bytes()
    ||| name == "create_function".spec_bytes()
}

/// The message for a call of `name`.
pub open spec fn deprecated_message(name: Seq<u8>) -> Seq<u8> {
    name + " is deprecated; use modern alternatives".spec_bytes()
}

/// What the rule reports for node `j`: a warning at the name of the called
/// function, if the node is a call of a flagged function by its plain name.
pub open spec fn deprecated_call_at(parsed: &ParsedSource, j: int) -> Seq<Diag> {
    if parsed.tree.kind_of(j) == "function_call_expression".spec_bytes() {
        match parsed.tree.first_of_kind(parsed.tree.named_children(j), "name".spec_bytes()) {
            Some(n) => if is_deprecated(node_text_of(parsed, n as int)) {
                seq![
                    diagnostic_at(
                        parsed.path@,
                        parsed.source@,
                        span_at(parsed, n as int),
                        Severity::Warning,
                        deprecated_message(node_text_of(parsed, n as int)),
                    ),
                ]
            } else {
                Seq::empty()
            },
            None => Seq::empty(),
        }
    } else {
        Seq::empty()
    }
}

fn is_deprecated_name(name: &[u8]) -> (r: bool)
    ensures
        r == is_deprecated(name@),
{
    bytes_eq(name, "mysql_query".as_bytes()) || bytes_eq(name, "mysql_connect".as_bytes())
        || bytes_eq(name, "mysql_pconnect".as_bytes()) || bytes_eq(name, "each".as_bytes())
        || bytes_eq(name, "create_function".as_bytes())
}

/// The rule `api/deprecated_api`.
#[derive(Clone, Copy, Debug)]
pub struct DeprecatedApiRule;

impl DeprecatedApiRule {
    pub fn new() -> Self {
        DeprecatedApiRule
    }
}

impl NodeCheck for DeprecatedApiRule {
    open spec fn finding(&self, parsed: &ParsedSource, context: &ProjectContext, j: int) -> Seq<
        Diag,
    > {
        deprecated_call_at(parsed, j)
    }

    fn inspect(&self, parsed: &ParsedSource, context: &ProjectContext, j: usize) -> (r: Option<
        Diagnostic,
    >) {
        if !parsed.tree.is_kind(j, "function_call_expression") {
            return None;
        }
        match parsed.tree.child_by_kind(j, "name") {
            Some(n) => {
                let name = node_text(parsed, n);
                if is_deprecated_name(name) {
                    let mut message: Vec<u8> = Vec::new();
                    push_all(&mut message, name);
                    push_all(&mut message, " is deprecated; use modern alternatives".as_bytes());
                    assert(message@ =~= deprecated_message(name@));
                    Some(diagnostic_for_node(parsed, n, Severity::Warning, message))
                } else {
                    None
                }
            },
            None => None,
        }
    }
}

impl DiagnosticRule for DeprecatedApiRule {
    open spec fn rule_name(&self) -> Seq<u8> {
        "api/deprecated_api".spec_bytes()
    }

    open spec fn findings(&self, parsed: &ParsedSource, context: &ProjectContext) -> Seq<Diag> {
        node_findings(self, parsed, context)
    }

    open spec fn edits(&self, parsed: &ParsedSource, context: &ProjectContext) -> Seq<Edit> {
        Seq::empty()
    }

    fn name(&self) -> (r: &'static str) {
        "api/deprecated_api"
    }

    fn run(&self, parsed: &ParsedSource, context: &ProjectContext) -> (r: Vec<Diagnostic>) {
        check_nodes(self, parsed, context)
    }

    fn fix(&self, parsed: &ParsedSource, context: &ProjectContext) -> (r: Vec<TextEdit>) {
        let out: Vec<TextEdit> = Vec::new();
        assert(edits_of(out@) =~= Seq::empty());
        out
    }
}

} // verus!
