//! Flags variables that are assigned and never read, and removes the
//! statement that assigns them.

use vstd::prelude::*;
use vstd::string::StringSliceAdditionalSpecFns;
use crate::analyzer::diagnostic::{Diag, Diagnostic, Severity};
use crate::analyzer::fix::{
    covering_lines, edits_of, lemma_edits_push, line_end_of, line_start_of, Edit, TextEdit,
};
use crate::analyzer::parser::ParsedSource;
use crate::analyzer::project::ProjectContext;
use crate::analyzer::rules::helpers::{diagnostic_at, diagnostic_for_node, span_at};
use crate::analyzer::rules::{check_nodes, node_findings, DiagnosticRule, NodeCheck};
use crate::analyzer::rules::helpers::{
    enclosing_expression_statement, enclosing_statement, is_assigned, is_assignment_target,
    is_definition, is_parameter_name, variable_name_of, variable_name_text,
};
use crate::analyzer::syntax::{gather, lemma_gather_step};
use crate::analyzer::text::{bytes_eq, push_all};

verus! {

/// Whether node `j` is a variable.
pub open spec fn is_variable(parsed: &ParsedSource, j: int) -> bool {
    0 <= j < parsed.tree.nodes.len() && parsed.tree.kind_of(j) == "variable_name".spec_bytes()
}

/// Whether node `j` reads the variable `name`: it is that variable, and is
/// neither the target of an assignment nor a parameter.
pub open spec fn reads(parsed: &ParsedSource, name: Seq<u8>, j: int) -> bool {
    &&& is_variable(parsed, j)
    &&& !is_assignment_target(parsed, j)
    &&& !is_parameter_name(parsed, j)
    &&& variable_name_of(parsed, j) == name
}

/// Whether the file reads the variable `name` anywhere.
pub open spec fn is_read(parsed: &ParsedSource, name: Seq<u8>) -> bool {
    exists|j: int| #[trigger] reads(parsed, name, j)
}

/// Whether node `e`, in front of node `j`, assigns the variable `name`.
pub open spec fn writes_before(parsed: &ParsedSource, name: Seq<u8>, j: int, e: int) -> bool {
    &&& e < j
    &&& is_variable(parsed, e)
    &&& is_assignment_target(parsed, e)
    &&& variable_name_of(parsed, e) == name
}

/// Whether the variable `name` is assigned in front of node `j`.
pub open spec fn written_before(parsed: &ParsedSource, name: Seq<u8>, j: int) -> bool {
    exists|e: int| #[trigger] writes_before(parsed, name, j, e)
}

/// Whether node `j` is the first assignment of a variable that the file
/// never reads and whose name does not start with an underscore.
pub open spec fn is_unused_definition(parsed: &ParsedSource, j: int) -> bool {
    let name = variable_name_of(parsed, j);
    &&& is_variable(parsed, j)
    &&& is_assignment_target(parsed, j)
    &&& !written_before(parsed, name, j)
    &&& !is_read(parsed, name)
    &&& !(name.len() > 0 && name[0] == 95)
}

/// The message for the variable `name`.
pub open spec fn unused_variable_message(name: Seq<u8>) -> Seq<u8> {
    "unused variable $".spec_bytes() + name
}

/// What the rule reports for node `j`: an error, if the node is an unused
/// definition.
pub open spec fn unused_variable_at(parsed: &ParsedSource, j: int) -> Seq<Diag> {
    if is_unused_definition(parsed, j) {
        seq![
            diagnostic_at(
                parsed.path@,
                parsed.source@,
                span_at(parsed, j),
                Severity::Error,
                unused_variable_message(variable_name_of(parsed, j)),
            ),
        ]
    } else {
        Seq::empty()
    }
}

/// The edit for node `j`: if the node is an unused definition, the lines of
/// the statement around it are removed.
pub open spec fn removal_at(parsed: &ParsedSource, j: int) -> Seq<Edit> {
    let statement = enclosing_statement(parsed, j);
    let start = line_start_of(parsed.source@, parsed.tree.nodes[statement].start_byte as int);
    let end = line_end_of(parsed.source@, parsed.tree.nodes[statement].end_byte as int);
    if is_unused_definition(parsed, j) && start <= end {
        seq![Edit { start: start as usize, end: end as usize, replacement: Seq::empty() }]
    } else {
        Seq::empty()
    }
}

pub open spec fn removal_gatherer(parsed: &ParsedSource) -> spec_fn(int) -> Seq<Edit> {
    |j: int| removal_at(parsed, j)
}

/// The edits of the rule: the removals for all nodes, in document order.
pub open spec fn removals(parsed: &ParsedSource) -> Seq<Edit> {
    gather(removal_gatherer(parsed), 0, parsed.tree.nodes.len() as int)
}

#[verifier::loop_isolation(false)]
fn variable_is_read(parsed: &ParsedSource, name: &[u8]) -> (r: bool)
    requires
        parsed.wf(),
    ensures
        r == is_read(parsed, name@),
{
    let n = parsed.tree.nodes.len();
    let mut j: usize = 0;
    while j < n
        invariant
            j <= n,
            forall|k: int| 0 <= k < j ==> !reads(parsed, name@, k),
        decreases n - j,
    {
        if parsed.tree.is_kind(j, "variable_name") && !is_definition(parsed, j) && bytes_eq(
            variable_name_text(parsed, j),
            name,
        ) {
            assert(reads(parsed, name@, j as int));
            return true;
        }
        j += 1;
    }
    false
}

#[verifier::loop_isolation(false)]
fn variable_written_before(parsed: &ParsedSource, name: &[u8], j: usize) -> (r: bool)
    requires
        parsed.wf(),
        j < parsed.tree.nodes.len(),
    ensures
        r == written_before(parsed, name@, j as int),
{
    let mut e: usize = 0;
    while e < j
        invariant
            e <= j,
            forall|k: int| 0 <= k < e ==> !writes_before(parsed, name@, j as int, k),
        decreases j - e,
    {
        if parsed.tree.is_kind(e, "variable_name") && is_assigned(parsed, e) && bytes_eq(
            variable_name_text(parsed, e),
            name,
        ) {
            assert(writes_before(parsed, name@, j as int, e as int));
            return true;
        }
        e += 1;
    }
    proof {
        assert forall|k: int| !writes_before(parsed, name@, j as int, k) by {
            if writes_before(parsed, name@, j as int, k) {
                assert(0 <= k < e);
            }
        }
    }
    false
}

fn unused_definition(parsed: &ParsedSource, j: usize) -> (r: bool)
    requires
        parsed.wf(),
        j < parsed.tree.nodes.len(),
    ensures
        r == is_unused_definition(parsed, j as int),
{
    if !parsed.tree.is_kind(j, "variable_name") || !is_assigned(parsed, j) {
        return false;
    }
    let name = variable_name_text(parsed, j);
    if name.len() > 0 && name[0] == 95 {
        return false;
    }
    !variable_written_before(parsed, name, j) && !variable_is_read(parsed, name)
}

/// The rule `cleanup/unused_variable`.
#[derive(Clone, Copy, Debug)]
pub struct UnusedVariableRule;

impl UnusedVariableRule {
    pub fn new() -> Self {
        UnusedVariableRule
    }
}

impl NodeCheck for UnusedVariableRule {
    open spec fn finding(&self, parsed: &ParsedSource, context: &ProjectContext, j: int) -> Seq<
        Diag,
    > {
        unused_variable_at(parsed, j)
    }

    fn inspect(&self, parsed: &ParsedSource, context: &ProjectContext, j: usize) -> (r: Option<
        Diagnostic,
    >) {
        if unused_definition(parsed, j) {
            let mut message: Vec<u8> = Vec::new();
            push_all(&mut message, "unused variable $".as_bytes());
            push_all(&mut message, variable_name_text(parsed, j));
            assert(message@ =~= unused_variable_message(variable_name_of(parsed, j as int)));
            Some(diagnostic_for_node(parsed, j, Severity::Error, message))
        } else {
            None
        }
    }
}

impl DiagnosticRule for UnusedVariableRule {
    open spec fn rule_name(&self) -> Seq<u8> {
        "cleanup/unused_variable".spec_bytes()
    }

    open spec fn findings(&self, parsed: &ParsedSource, context: &ProjectContext) -> Seq<Diag> {
        node_findings(self, parsed, context)
    }

    open spec fn edits(&self, parsed: &ParsedSource, context: &ProjectContext) -> Seq<Edit> {
        removals(parsed)
    }

    fn name(&self) -> (r: &'static str) {
        "cleanup/unused_variable"
    }

    fn run(&self, parsed: &ParsedSource, context: &ProjectContext) -> (r: Vec<Diagnostic>) {
        check_nodes(self, parsed, context)
    }

    #[verifier::loop_isolation(false)]
    fn fix(&self, parsed: &ParsedSource, context: &ProjectContext) -> (r: Vec<TextEdit>) {
        let ghost f = removal_gatherer(parsed);
        let n = parsed.tree.nodes.len();
        let mut out: Vec<TextEdit> = Vec::new();
        let mut j: usize = 0;
        proof {
            assert(edits_of(out@) + gather(f, 0, n as int) =~= gather(f, 0, n as int));
        }
        while j < n
            invariant
                j <= n,
                gather(f, 0, n as int) == edits_of(out@) + gather(f, j as int, n as int),
            decreases n - j,
        {
            proof {
                lemma_gather_step(f, edits_of(out@), j as int, n as int);
            }
            let ghost before = out@;
            let mut added = false;
            if unused_definition(parsed, j) {
                let statement = enclosing_expression_statement(parsed, j);
                let range = covering_lines(
                    parsed.source.as_slice(),
                    parsed.tree.nodes[statement].start_byte,
                    parsed.tree.nodes[statement].end_byte,
                );
                if range.0 <= range.1 {
                    let e = TextEdit { start: range.0, end: range.1, replacement: Vec::new() };
                    proof {
                        lemma_edits_push(before, e);
                        assert(e@.replacement =~= Seq::empty());
                    }
                    out.push(e);
                    assert(edits_of(out@) =~= edits_of(before) + f(j as int));
                    added = true;
                }
            }
            if !added {
                assert(edits_of(before) + f(j as int) =~= edits_of(before));
            }
            j += 1;
        }
        proof {
            assert(edits_of(out@) + gather(f, n as int, n as int) =~= edits_of(out@));
        }
        out
    }
}

} // verus!
