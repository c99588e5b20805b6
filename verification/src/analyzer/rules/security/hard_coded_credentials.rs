//! Flags string literals that look like credentials.

use vstd::prelude::*;
use vstd::string::StringSliceAdditionalSpecFns;
use crate::analyzer::diagnostic::{Diag, Diagnostic, Severity};
use crate::analyzer::fix::{edits_of, Edit, TextEdit};
use crate::analyzer::parser::ParsedSource;
use crate::analyzer::project::ProjectContext;
use crate::analyzer::rules::helpers::{
    diagnostic_at, diagnostic_for_node, node_text, node_text_of, span_at,
};
use crate::analyzer::rules::{check_nodes, node_findings, DiagnosticRule, NodeCheck};
use crate::analyzer::text::{contains_bytes, find, to_lower, to_lower_bytes, to_vec};

verus! {

/// Whether `text` holds a word that marks a credential.
pub open spec fn is_sensitive(text: Seq<u8>) -> bool {
    let lowered = to_lower(text);
    ||| find(lowered, "password".spec_bytes()).is_some()
    ||| find(lowered, "passwd".spec_bytes()).is_some()
    ||| find(lowered, "token".spec_bytes()).is_some()
    ||| find(lowered, "api_key".spec_bytes()).is_some()
    ||| find(lowered, "secret".spec_bytes()).is_some()
}

/// The message of a finding.
pub open spec fn credential_message() -> Seq<u8> {
    "hard-coded credential or token detected".spec_bytes()
}

/// What the rule reports for node `j`: a warning, if the node is a string
/// literal whose text holds a word that marks a credential.
pub open spec fn credential_at(parsed: &ParsedSource, j: int) -> Seq<Diag> {
    if parsed.tree.kind_of(j) == "string".spec_bytes() && is_sensitive(node_text_of(parsed, j)) {
        seq![
            diagnostic_at(
                parsed.path@,
                parsed.source@,
                span_at(parsed, j),
                Severity::Warning,
                credential_message(),
            ),
        ]
    } else {
        Seq::empty()
    }
}

fn looks_sensitive(text: &[u8]) -> (r: bool)
    ensures
        r == is_sensitive(text@),
{
    let lowered = to_lower_bytes(text);
    let l = lowered.as_slice();
    contains_bytes(l, "password".as_bytes()) || contains_bytes(l, "passwd".as_bytes())
        || contains_bytes(l, "token".as_bytes()) || contains_bytes(l, "api_key".as_bytes())
        || contains_bytes(l, "secret".as_bytes())
}

/// The rule `security/hard_coded_credentials`.
#[derive(Clone, Copy, Debug)]
pub struct HardCodedCredentialsRule;

impl HardCodedCredentialsRule {
    pub fn new() -> Self {
        HardCodedCredentialsRule
    }
}

impl NodeCheck for HardCodedCredentialsRule {
    open spec fn finding(&self, parsed: &ParsedSource, context: &ProjectContext, j: int) -> Seq<
        Diag,
    > {
        credential_at(parsed, j)
    }

    fn inspect(&self, parsed: &ParsedSource, context: &ProjectContext, j: usize) -> (r: Option<
        Diagnostic,
    >) {
        if parsed.tree.is_kind(j, "string") && looks_sensitive(node_text(parsed, j)) {
            let message = to_vec("hard-coded credential or token detected".as_bytes());
            Some(diagnostic_for_node(parsed, j, Severity::Warning, message))
        } else {
            None
        }
    }
}

impl DiagnosticRule for HardCodedCredentialsRule {
    open spec fn rule_name(&self) -> Seq<u8> {
        "security/hard_coded_credentials".spec_bytes()
    }

    open spec fn findings(&self, parsed: &ParsedSource, context: &ProjectContext) -> Seq<Diag> {
        node_findings(self, parsed, context)
    }

    open spec fn edits(&self, parsed: &ParsedSource, context: &ProjectContext) -> Seq<Edit> {
        Seq::empty()
    }

    fn name(&self) -> (r: &'static str) {
        "security/hard_coded_credentials"
    }

    fn run(&self, parsed: &ParsedSource, context: &ProjectContext) -> (r: Vec<Diagnostic>) {
        check_nodes(self, parsed, context)
    }

    fn fix(&self, parsed: &ParsedSource, context: &ProjectContext) -> (r: Vec<TextEdit>) {
        let out: Vec<TextEdit> = Vec::new();
        assert(edits_of(out@) =~= Seq::empty());
        out
    }
}

} // verus!
