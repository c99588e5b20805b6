//! Flags includes whose path comes from request data.

use vstd::prelude::*;
use vstd::string::StringSliceAdditionalSpecFns;
use crate::analyzer::diagnostic::{Diag, Diagnostic, Severity};
use crate::analyzer::fix::{edits_of, Edit, TextEdit};
use crate::analyzer::parser::ParsedSource;
use crate::analyzer::project::ProjectContext;
use crate::analyzer::rules::helpers::{
    diagnostic_at, diagnostic_for_node, node_text, node_text_of, span_at,
};
use crate::analyzer::rules::{check_nodes, node_findings, DiagnosticRule, NodeCheck};
use crate::analyzer::text::{bytes_eq, to_vec};

verus! {

/// The variables that hold request data.
pub open spec fn is_request_variable(text: Seq<u8>) -> bool {
    ||| text == "$_GET".spec_bytes()
    ||| text == "$_POST".spec_bytes()
    ||| text == "$_REQUEST".spec_bytes()
    ||| text == "$_SERVER".spec_bytes()
    ||| text == "$_COOKIE".spec_bytes()
    ||| text == "$_FILES".spec_bytes()
    ||| text == "$_ENV".spec_bytes()
}

/// The kinds of the expressions that include a file.
pub open spec fn is_include_kind(kind: Seq<u8>) -> bool {
    ||| kind == "include_expression".spec_bytes()
    ||| kind == "require_expression".spec_bytes()
    ||| kind == "include_once_expression".spec_bytes()
    ||| kind == "require_once_expression".spec_bytes()
}

/// Whether node `k` is a request variable in the subtree of node `j`.
pub open spec fn is_request_use(parsed: &ParsedSource, j: int, k: int) -> bool {
    &&& parsed.tree.in_subtree(j, k)
    &&& parsed.tree.kind_of(k) == "variable_name".spec_bytes()
    &&& is_request_variable(node_text_of(parsed, k))
}

/// Whether the subtree of node `j` reads a request variable.
pub open spec fn reads_request(parsed: &ParsedSource, j: int) -> bool {
    exists|k: int| #[trigger] is_request_use(parsed, j, k)
}

/// The message of a finding.
pub open spec fn include_message() -> Seq<u8> {
    "including user input is dangerous".spec_bytes()
}

/// What the rule reports for node `j`: a warning, if the node includes a
/// file and reads a request variable.
pub open spec fn include_at(parsed: &ParsedSource, j: int) -> Seq<Diag> {
    if is_include_kind(parsed.tree.kind_of(j)) && reads_request(parsed, j) {
        seq![
            diagnostic_at(
                parsed.path@,
                parsed.source@,
                span_at(parsed, j),
                Severity::Warning,
                include_message(),
            ),
        ]
    } else {
        Seq::empty()
    }
}

fn is_request_name(text: &[u8]) -> (r: bool)
    ensures
        r == is_request_variable(text@),
{
    bytes_eq(text, "$_GET".as_bytes()) || bytes_eq(text, "$_POST".as_bytes()) || bytes_eq(
        text,
        "$_REQUEST".as_bytes(),
    ) || bytes_eq(text, "$_SERVER".as_bytes()) || bytes_eq(text, "$_COOKIE".as_bytes())
        || bytes_eq(text, "$_FILES".as_bytes()) || bytes_eq(text, "$_ENV".as_bytes())
}

fn is_include(kind: &str) -> (r: bool)
    ensures
        r == is_include_kind(kind.spec_bytes()),
{
    let k = kind.as_bytes();
    bytes_eq(k, "include_expression".as_bytes()) || bytes_eq(k, "require_expression".as_bytes())
        || bytes_eq(k, "include_once_expression".as_bytes()) || bytes_eq(
        k,
        "require_once_expression".as_bytes(),
    )
}

/// Whether the subtree of node `j` reads a request variable.
pub fn contains_superglobal(parsed: &ParsedSource, j: usize) -> (r: bool)
    requires
        parsed.wf(),
        j < parsed.tree.nodes.len(),
    ensures
        r == reads_request(parsed, j as int),
{
    let end = parsed.tree.subtree_end(j);
    let mut k: usize = j;
    while k < end
        invariant
            parsed.wf(),
            j <= k <= end,
            end == parsed.tree.nodes[j as int].subtree_end,
            end <= parsed.tree.nodes.len(),
            forall|m: int| j <= m < k ==> !is_request_use(parsed, j as int, m),
        decreases end - k,
    {
        if parsed.tree.is_kind(k, "variable_name") && is_request_name(node_text(parsed, k)) {
            assert(is_request_use(parsed, j as int, k as int));
            return true;
        }
        k += 1;
    }
    false
}

/// The rule `security/include_user_input`.
#[derive(Clone, Copy, Debug)]
pub struct IncludeUserInputRule;

impl IncludeUserInputRule {
    pub fn new() -> Self {
        IncludeUserInputRule
    }
}

impl NodeCheck for IncludeUserInputRule {
    open spec fn finding(&self, parsed: &ParsedSource, context: &ProjectContext, j: int) -> Seq<
        Diag,
    > {
        include_at(parsed, j)
    }

    fn inspect(&self, parsed: &ParsedSource, context: &ProjectContext, j: usize) -> (r: Option<
        Diagnostic,
    >) {
        if is_include(parsed.tree.nodes[j].kind) && contains_superglobal(parsed, j) {
            let message = to_vec("including user input is dangerous".as_bytes());
            Some(diagnostic_for_node(parsed, j, Severity::Warning, message))
        } else {
            None
        }
    }
}

impl DiagnosticRule for IncludeUserInputRule {
    open spec fn rule_name(&self) -> Seq<u8> {
        "security/include_user_input".spec_bytes()
    }

    open spec fn findings(&self, parsed: &ParsedSource, context: &ProjectContext) -> Seq<Diag> {
        node_findings(self, parsed, context)
    }

    open spec fn edits(&self, parsed: &ParsedSource, context: &ProjectContext) -> Seq<Edit> {
        Seq::empty()
    }

    fn name(&self) -> (r: &'static str) {
        "security/include_user_input"
    }

    fn run(&self, parsed: &ParsedSource, context: &ProjectContext) -> (r: Vec<Diagnostic>) {
        check_nodes(self, parsed, context)
    }

    fn fix(&self, parsed: &ParsedSource, context: &ProjectContext) -> (r: Vec<TextEdit>) {
        let out: Vec<TextEdit> = Vec::new();
        assert(edits_of(out@) =~= Seq::empty());
        out
    }
}

} // verus!
