//! Flags `$this` outside a class and in static methods.

use vstd::prelude::*;
use vstd::string::StringSliceAdditionalSpecFns;
use crate::analyzer::diagnostic::{Diag, Diagnostic, Severity};
use crate::analyzer::fix::{edits_of, Edit, TextEdit};
use crate::analyzer::parser::ParsedSource;
use crate::analyzer::project::ProjectContext;
use crate::analyzer::rules::helpers::{diagnostic_at, diagnostic_for_node, span_at};
use crate::analyzer::rules::{check_nodes, node_findings, DiagnosticRule, NodeCheck};
use crate::analyzer::rules::helpers::{variable_name_of, variable_name_text};
use crate::analyzer::syntax::node_ok;
use crate::analyzer::text::{bytes_eq, to_vec};

verus! {

/// Whether `kind` is the kind of a declaration that has a `$this`.
pub open spec fn is_class_kind(kind: Seq<u8>) -> bool {
    kind == "class_declaration".spec_bytes() || kind == "enum_declaration".spec_bytes()
}

/// Whether node `p` is a static method.
pub open spec fn is_static_method(parsed: &ParsedSource, p: int) -> bool {
    parsed.tree.kind_of(p) == "method_declaration".spec_bytes() && parsed.tree.first_of_kind(
        parsed.tree.named_children(p),
        "static_modifier".spec_bytes(),
    ).is_some()
}

/// Whether node `j` stands inside a class or an enum.
pub open spec fn inside_class(parsed: &ParsedSource, j: int) -> bool
    decreases j,
{
    if j < 0 || j >= parsed.tree.nodes.len() {
        false
    } else {
        match parsed.tree.nodes[j].parent {
            Some(p) => if p >= j {
                false
            } else if is_class_kind(parsed.tree.kind_of(p as int)) {
                true
            } else {
                inside_class(parsed, p as int)
            },
            None => false,
        }
    }
}

/// Whether a static method stands between node `j` and the class around it.
pub open spec fn inside_static(parsed: &ParsedSource, j: int) -> bool
    decreases j,
{
    if j < 0 || j >= parsed.tree.nodes.len() {
        false
    } else {
        match parsed.tree.nodes[j].parent {
            Some(p) => if p >= j || is_class_kind(parsed.tree.kind_of(p as int)) {
                false
            } else {
                is_static_method(parsed, p as int) || inside_static(parsed, p as int)
            },
            None => false,
        }
    }
}

/// The message for `$this` outside a class.
pub open spec fn outside_message() -> Seq<u8> {
    "$this is not allowed outside of class scope".spec_bytes()
}

/// The message for `$this` in a static method.
pub open spec fn static_message() -> Seq<u8> {
    "$this cannot be used in static context".spec_bytes()
}

/// What the rule reports for node `j`: an error, if the node is the
/// variable `$this` and stands outside every class or inside a static
/// method.
pub open spec fn invalid_this_at(parsed: &ParsedSource, j: int) -> Seq<Diag> {
    if parsed.tree.kind_of(j) == "variable_name".spec_bytes() && variable_name_of(parsed, j)
        == "this".spec_bytes() {
        if !inside_class(parsed, j) {
            seq![
                diagnostic_at(
                    parsed.path@,
                    parsed.source@,
                    span_at(parsed, j),
                    Severity::Error,
                    outside_message(),
                ),
            ]
        } else if inside_static(parsed, j) {
            seq![
                diagnostic_at(
                    parsed.path@,
                    parsed.source@,
                    span_at(parsed, j),
                    Severity::Error,
                    static_message(),
                ),
            ]
        } else {
            Seq::empty()
        }
    } else {
        Seq::empty()
    }
}

fn is_class(parsed: &ParsedSource, p: usize) -> (r: bool)
    requires
        p < parsed.tree.nodes.len(),
    ensures
        r == is_class_kind(parsed.tree.kind_of(p as int)),
{
    parsed.tree.is_kind(p, "class_declaration") || parsed.tree.is_kind(p, "enum_declaration")
}

fn scope_of(parsed: &ParsedSource, j: usize) -> (r: (bool, bool))
    requires
        parsed.wf(),
        j < parsed.tree.nodes.len(),
    ensures
        r.0 == inside_class(parsed, j as int),
        r.1 == inside_static(parsed, j as int),
{
    let mut current = j;
    let mut in_static = false;
    loop
        invariant
            parsed.wf(),
            current < parsed.tree.nodes.len(),
            inside_class(parsed, j as int) == inside_class(parsed, current as int),
            inside_static(parsed, j as int) == (in_static || inside_static(parsed, current as int)),
        decreases current,
    {
        assert(node_ok(parsed.tree.nodes@, current as int));
        match parsed.tree.nodes[current].parent {
            Some(p) => {
                if is_class(parsed, p) {
                    return (true, in_static);
                }
                if parsed.tree.is_kind(p, "method_declaration") && parsed.tree.child_by_kind(
                    p,
                    "static_modifier",
                ).is_some() {
                    in_static = true;
                }
                current = p;
            },
            None => {
                return (false, in_static);
            },
        }
    }
}

/// The rule `api/invalid_this`.
#[derive(Clone, Copy, Debug)]
pub struct InvalidThisRule;

impl InvalidThisRule {
    pub fn new() -> Self {
        InvalidThisRule
    }
}

impl NodeCheck for InvalidThisRule {
    open spec fn finding(&self, parsed: &ParsedSource, context: &ProjectContext, j: int) -> Seq<
        Diag,
    > {
        invalid_this_at(parsed, j)
    }

    fn inspect(&self, parsed: &ParsedSource, context: &ProjectContext, j: usize) -> (r: Option<
        Diagnostic,
    >) {
        if !parsed.tree.is_kind(j, "variable_name") || !bytes_eq(
            variable_name_text(parsed, j),
            "this".as_bytes(),
        ) {
            return None;
        }
        let scope = scope_of(parsed, j);
        if !scope.0 {
            let message = to_vec("$this is not allowed outside of class scope".as_bytes());
            Some(diagnostic_for_node(parsed, j, Severity::Error, message))
        } else if scope.1 {
            let message = to_vec("$this cannot be used in static context".as_bytes());
            Some(diagnostic_for_node(parsed, j, Severity::Error, message))
        } else {
            None
        }
    }
}

impl DiagnosticRule for InvalidThisRule {
    open spec fn rule_name(&self) -> Seq<u8> {
        "api/invalid_this".spec_bytes()
    }

    open spec fn findings(&self, parsed: &ParsedSource, context: &ProjectContext) -> Seq<Diag> {
        node_findings(self, parsed, context)
    }

    open spec fn edits(&self, parsed: &ParsedSource, context: &ProjectContext) -> Seq<Edit> {
        Seq::empty()
    }

    fn name(&self) -> (r: &'static str) {
        "api/invalid_this"
    }

    fn run(&self, parsed: &ParsedSource, context: &ProjectContext) -> (r: Vec<Diagnostic>) {
        check_nodes(self, parsed, context)
    }

    fn fix(&self, parsed: &ParsedSource, context: &ProjectContext) -> (r: Vec<TextEdit>) {
        let out: Vec<TextEdit> = Vec::new();
        assert(edits_of(out@) =~= Seq::empty());
        out
    }
}

} // verus!
