//! Flags strict comparisons of a variable with a literal of another type
//! than the literal it was assigned.

use vstd::prelude::*;
use vstd::string::StringSliceAdditionalSpecFns;
use crate::analyzer::diagnostic::{Diag, Diagnostic, Severity};
use crate::analyzer::fix::{edits_of, Edit, TextEdit};
use crate::analyzer::parser::ParsedSource;
use crate::analyzer::project::ProjectContext;
use crate::analyzer::rules::helpers::{
    diagnostic_at, diagnostic_for_node, node_text, node_text_of, span_at,
};
use crate::analyzer::rules::{check_nodes, node_findings, DiagnosticRule, NodeCheck};
use crate::analyzer::rules::helpers::{
    literal_ty, literal_type, same_type, variable_name_of, variable_name_text, Ty, TypeHint,
};
use crate::analyzer::text::{bytes_eq, push_all};

verus! {

/// The type of the literal that the assignment at node `e` gives the
/// variable `name`, if the node is such an assignment.
pub open spec fn assigned_type(parsed: &ParsedSource, name: Seq<u8>, e: int) -> Option<Ty> {
    let kids = parsed.tree.children(e);
    if 0 <= e < parsed.tree.nodes.len() && parsed.tree.kind_of(e)
        == "assignment_expression".spec_bytes() && kids.len() > 2 && variable_name_of(
        parsed,
        kids[0] as int,
    ) == name {
        literal_ty(parsed.tree.kind_of(kids[2] as int))
    } else {
        None
    }
}

/// The type of the literal that the last assignment in front of node `upto`
/// gives the variable `name`.
pub open spec fn known_type(parsed: &ParsedSource, name: Seq<u8>, upto: int) -> Option<Ty>
    decreases upto,
{
    if upto <= 0 {
        None
    } else {
        match assigned_type(parsed, name, upto - 1) {
            Some(t) => Some(t),
            None => known_type(parsed, name, upto - 1),
        }
    }
}

/// The message of a finding.
pub open spec fn impossible_message(expression: Seq<u8>) -> Seq<u8> {
    "comparison \"".spec_bytes() + expression
        + "\" is always false due to type difference".spec_bytes()
}

/// What the rule reports for node `j`: an error, if the node compares with
/// `===` a variable, whose last literal assignment has one type, with a
/// literal of another type.
pub open spec fn impossible_at(parsed: &ParsedSource, j: int) -> Seq<Diag> {
    let kids = parsed.tree.children(j);
    if parsed.tree.kind_of(j) == "binary_expression".spec_bytes() && kids.len() > 2
        && parsed.tree.kind_of(kids[1] as int) == "===".spec_bytes() {
        match (
            known_type(parsed, variable_name_of(parsed, kids[0] as int), j),
            literal_ty(parsed.tree.kind_of(kids[2] as int)),
        ) {
            (Some(left), Some(right)) => if left != right {
                seq![
                    diagnostic_at(
                        parsed.path@,
                        parsed.source@,
                        span_at(parsed, j),
                        Severity::Error,
                        impossible_message(node_text_of(parsed, j)),
                    ),
                ]
            } else {
                Seq::empty()
            },
            _ => Seq::empty(),
        }
    } else {
        Seq::empty()
    }
}

fn assignment_type(parsed: &ParsedSource, name: &[u8], e: usize) -> (r: Option<TypeHint>)
    requires
        parsed.wf(),
        e < parsed.tree.nodes.len(),
    ensures
        match r {
            Some(h) => assigned_type(parsed, name@, e as int) == Some(h@),
            None => assigned_type(parsed, name@, e as int).is_none(),
        },
{
    if !parsed.tree.is_kind(e, "assignment_expression") {
        return None;
    }
    let kids = parsed.tree.children_of(e);
    if kids.len() > 2 && bytes_eq(variable_name_text(parsed, kids[0]), name) {
        literal_type(parsed, kids[2])
    } else {
        None
    }
}

fn type_known(parsed: &ParsedSource, name: &[u8], j: usize) -> (r: Option<TypeHint>)
    requires
        parsed.wf(),
        j < parsed.tree.nodes.len(),
    ensures
        match r {
            Some(h) => known_type(parsed, name@, j as int) == Some(h@),
            None => known_type(parsed, name@, j as int).is_none(),
        },
{
    let mut upto: usize = j;
    while upto > 0
        invariant
            parsed.wf(),
            upto <= j < parsed.tree.nodes.len(),
            known_type(parsed, name@, j as int) == known_type(parsed, name@, upto as int),
        decreases upto,
    {
        match assignment_type(parsed, name, upto - 1) {
            Some(h) => {
                return Some(h);
            },
            None => {},
        }
        upto -= 1;
    }
    None
}

/// The rule `control_flow/impossible_comparison`.
#[derive(Clone, Copy, Debug)]
pub struct ImpossibleComparisonRule;

impl ImpossibleComparisonRule {
    pub fn new() -> Self {
        ImpossibleComparisonRule
    }
}

impl NodeCheck for ImpossibleComparisonRule {
    open spec fn finding(&self, parsed: &ParsedSource, context: &ProjectContext, j: int) -> Seq<
        Diag,
    > {
        impossible_at(parsed, j)
    }

    fn inspect(&self, parsed: &ParsedSource, context: &ProjectContext, j: usize) -> (r: Option<
        Diagnostic,
    >) {
        if !parsed.tree.is_kind(j, "binary_expression") {
            return None;
        }
        let kids = parsed.tree.children_of(j);
        if kids.len() <= 2 || !parsed.tree.is_kind(kids[1], "===") {
            return None;
        }
        let left = match type_known(parsed, variable_name_text(parsed, kids[0]), j) {
            Some(h) => h,
            None => {
                return None;
            },
        };
        let right = match literal_type(parsed, kids[2]) {
            Some(h) => h,
            None => {
                return None;
            },
        };
        if same_type(&left, &right) {
            return None;
        }
        let mut message: Vec<u8> = Vec::new();
        push_all(&mut message, "comparison \"".as_bytes());
        push_all(&mut message, node_text(parsed, j));
        push_all(&mut message, "\" is always false due to type difference".as_bytes());
        assert(message@ =~= impossible_message(node_text_of(parsed, j as int)));
        Some(diagnostic_for_node(parsed, j, Severity::Error, message))
    }
}

impl DiagnosticRule for ImpossibleComparisonRule {
    open spec fn rule_name(&self) -> Seq<u8> {
        "control_flow/impossible_comparison".spec_bytes()
    }

    open spec fn findings(&self, parsed: &ParsedSource, context: &ProjectContext) -> Seq<Diag> {
        node_findings(self, parsed, context)
    }

    open spec fn edits(&self, parsed: &ParsedSource, context: &ProjectContext) -> Seq<Edit> {
        Seq::empty()
    }

    fn name(&self) -> (r: &'static str) {
        "control_flow/impossible_comparison"
    }

    fn run(&self, parsed: &ParsedSource, context: &ProjectContext) -> (r: Vec<Diagnostic>) {
        check_nodes(self, parsed, context)
    }

    fn fix(&self, parsed: &ParsedSource, context: &ProjectContext) -> (r: Vec<TextEdit>) {
        let out: Vec<TextEdit> = Vec::new();
        assert(edits_of(out@) =~= Seq::empty());
        out
    }
}

} // verus!
