//! Holds what a property or a variable is given against its `@var` tag.

use vstd::prelude::*;
use vstd::string::StringSliceAdditionalSpecFns;
use crate::analyzer::diagnostic::{diags, Diag, Diagnostic, Severity};
use crate::analyzer::fix::{edits_of, Edit, TextEdit};
use crate::analyzer::parser::ParsedSource;
use crate::analyzer::project::ProjectContext;
use crate::analyzer::rules::helpers::{diagnostic_at, diagnostic_for_node, span_at};
use crate::analyzer::rules::DiagnosticRule;
use crate::analyzer::syntax::{gather, lemma_gather_step};
use crate::analyzer::phpdoc::extractor::{doc_for, extract_phpdoc_for_node};
use crate::analyzer::phpdoc::parser::bytes_of;
use crate::analyzer::phpdoc::types::{written, TypeExpr, TypeExpression, VarTag};
use crate::analyzer::rules::helpers::{
    compatible, converted, is_type_compatible, literal_ty, literal_type, shown,
    type_expression_to_hint, type_hint_to_string, variable_name_of, variable_name_text, Ty,
};
use crate::analyzer::rules::strict_typing::array_checks::{
    array_findings, check_array_elements, Subject,
};
use crate::analyzer::text::{bytes_eq, push_all};

verus! {

/// The message for a value of the wrong type.
pub open spec fn var_conflict_message(doc: TypeExpr, actual: Ty) -> Seq<u8> {
    "@var type '".spec_bytes() + written(doc)
        + "' conflicts with assigned value type '".spec_bytes() + shown(actual)
        + "'".spec_bytes()
}

/// The findings for the value at node `v` under the documented type `doc`:
/// those for its elements, if it is an array literal; else an error, if it
/// is a literal whose type is not compatible with the documented type.
/// Nothing where the documented type does not convert.
pub open spec fn assigned_value(parsed: &ParsedSource, doc: TypeExpr, v: int) -> Seq<Diag> {
    match converted(doc) {
        Some(expected) => if parsed.tree.kind_of(v) == "array_creation_expression".spec_bytes() {
            array_findings(parsed, Subject::Variable, written(doc), v, expected)
        } else {
            match literal_ty(parsed.tree.kind_of(v)) {
                Some(t) => if !compatible(t, expected) {
                    seq![
                        diagnostic_at(
                            parsed.path@,
                            parsed.source@,
                            span_at(parsed, v),
                            Severity::Error,
                            var_conflict_message(doc, t),
                        ),
                    ]
                } else {
                    Seq::empty()
                },
                None => Seq::empty(),
            }
        },
        None => Seq::empty(),
    }
}

/// The node of the value that the property element at node `c` is
/// initialized with.
pub open spec fn initial_value(parsed: &ParsedSource, c: int) -> Option<usize> {
    if parsed.tree.kind_of(c) == "property_element".spec_bytes() {
        match parsed.tree.first_of_kind(
            parsed.tree.named_children(c),
            "property_initializer".spec_bytes(),
        ) {
            Some(i) => if parsed.tree.named_children(i as int).len() > 0 {
                Some(parsed.tree.named_children(i as int)[0])
            } else {
                None
            },
            None => None,
        }
    } else {
        None
    }
}

/// The findings for child number `k` of a property declaration.
pub open spec fn property_value(parsed: &ParsedSource, doc: TypeExpr, kids: Seq<usize>, k: int) -> Seq<
    Diag,
> {
    match initial_value(parsed, kids[k] as int) {
        Some(v) => assigned_value(parsed, doc, v as int),
        None => Seq::empty(),
    }
}

pub open spec fn property_gatherer(parsed: &ParsedSource, doc: TypeExpr, kids: Seq<usize>) -> spec_fn(
    int,
) -> Seq<Diag> {
    |k: int| property_value(parsed, doc, kids, k)
}

/// The findings for node `j` as a property declaration: those for the
/// initial values of its properties, if its comment has a `@var` tag.
pub open spec fn property_findings(parsed: &ParsedSource, j: int) -> Seq<Diag> {
    if parsed.tree.kind_of(j) == "property_declaration".spec_bytes() {
        match doc_for(parsed, j) {
            Some(doc) => match doc.var {
                Some(tag) => gather(
                    property_gatherer(parsed, tag.1, parsed.tree.named_children(j)),
                    0,
                    parsed.tree.named_children(j).len() as int,
                ),
                None => Seq::empty(),
            },
            None => Seq::empty(),
        }
    } else {
        Seq::empty()
    }
}

/// Whether the assignment at node `a` is the one that the tag documents:
/// the tag names no variable, or the variable that the assignment writes.
pub open spec fn tag_applies(parsed: &ParsedSource, tag: (Option<Seq<u8>>, TypeExpr), a: int) -> bool {
    match tag.0 {
        Some(name) => match parsed.tree.first_in_field(
            parsed.tree.children(a),
            "left".spec_bytes(),
        ) {
            Some(l) => variable_name_of(parsed, l as int) == name,
            None => false,
        },
        None => true,
    }
}

/// The findings for node `j` as a statement: those for the value that its
/// assignment assigns, if its comment has a `@var` tag that applies.
pub open spec fn statement_findings(parsed: &ParsedSource, j: int) -> Seq<Diag> {
    if parsed.tree.kind_of(j) == "expression_statement".spec_bytes() {
        match doc_for(parsed, j) {
            Some(doc) => match doc.var {
                Some(tag) => match parsed.tree.first_of_kind(
                    parsed.tree.named_children(j),
                    "assignment_expression".spec_bytes(),
                ) {
                    Some(a) => match parsed.tree.first_in_field(
                        parsed.tree.children(a as int),
                        "right".spec_bytes(),
                    ) {
                        Some(v) => if converted(tag.1).is_some() && tag_applies(
                            parsed,
                            tag,
                            a as int,
                        ) {
                            assigned_value(parsed, tag.1, v as int)
                        } else {
                            Seq::empty()
                        },
                        None => Seq::empty(),
                    },
                    None => Seq::empty(),
                },
                None => Seq::empty(),
            },
            None => Seq::empty(),
        }
    } else {
        Seq::empty()
    }
}

pub open spec fn properties_gatherer(parsed: &ParsedSource) -> spec_fn(int) -> Seq<Diag> {
    |j: int| property_findings(parsed, j)
}

pub open spec fn statements_gatherer(parsed: &ParsedSource) -> spec_fn(int) -> Seq<Diag> {
    |j: int| statement_findings(parsed, j)
}

/// The findings of the rule: those for the property declarations of the
/// file, in document order, and then those for its statements.
pub open spec fn var_findings(parsed: &ParsedSource) -> Seq<Diag> {
    gather(properties_gatherer(parsed), 0, parsed.tree.nodes.len() as int) + gather(
        statements_gatherer(parsed),
        0,
        parsed.tree.nodes.len() as int,
    )
}

fn check_assigned_value(parsed: &ParsedSource, doc: &TypeExpression, v: usize) -> (r: Vec<
    Diagnostic,
>)
    requires
        parsed.wf(),
        v < parsed.tree.nodes.len(),
    ensures
        diags(r@) == assigned_value(parsed, doc@, v as int),
{
    let mut out: Vec<Diagnostic> = Vec::new();
    proof {
        assert(diags(out@) =~= Seq::empty());
    }
    let expected = match type_expression_to_hint(doc) {
        Some(h) => h,
        None => {
            return out;
        },
    };
    if parsed.tree.is_kind(v, "array_creation_expression") {
        return check_array_elements(
            parsed,
            Subject::Variable,
            doc.to_text().as_slice(),
            v,
            &expected,
        );
    }
    match literal_type(parsed, v) {
        Some(t) => {
            if !is_type_compatible(&t, &expected) {
                let mut message: Vec<u8> = Vec::new();
                push_all(&mut message, "@var type '".as_bytes());
                push_all(&mut message, doc.to_text().as_slice());
                push_all(&mut message, "' conflicts with assigned value type '".as_bytes());
                push_all(&mut message, type_hint_to_string(&t).as_slice());
                push_all(&mut message, "'".as_bytes());
                assert(message@ =~= var_conflict_message(doc@, t@));
                let d = diagnostic_for_node(parsed, v, Severity::Error, message);
                out.push(d);
                assert(diags(out@) =~= seq![d@]);
            }
        },
        None => {},
    }
    out
}

fn initial_value_of(parsed: &ParsedSource, c: usize) -> (r: Option<usize>)
    requires
        parsed.wf(),
        c < parsed.tree.nodes.len(),
    ensures
        r == initial_value(parsed, c as int),
        r.is_some() ==> r.unwrap() < parsed.tree.nodes.len(),
{
    if !parsed.tree.is_kind(c, "property_element") {
        return None;
    }
    match parsed.tree.child_by_kind(c, "property_initializer") {
        Some(i) => {
            let kids = parsed.tree.named_children_of(i);
            if kids.len() > 0 {
                Some(kids[0])
            } else {
                None
            }
        },
        None => None,
    }
}

#[verifier::loop_isolation(false)]
fn check_property(parsed: &ParsedSource, j: usize) -> (r: Vec<Diagnostic>)
    requires
        parsed.wf(),
        j < parsed.tree.nodes.len(),
    ensures
        diags(r@) == property_findings(parsed, j as int),
{
    let mut out: Vec<Diagnostic> = Vec::new();
    proof {
        assert(diags(out@) =~= Seq::empty());
    }
    if !parsed.tree.is_kind(j, "property_declaration") {
        return out;
    }
    let doc = match extract_phpdoc_for_node(parsed, j) {
        Some(doc) => doc,
        None => {
            return out;
        },
    };
    let tag = match &doc.var_tag {
        Some(tag) => tag,
        None => {
            return out;
        },
    };
    let kids = parsed.tree.named_children_of(j);
    let ghost f = property_gatherer(parsed, tag.type_expr@, kids@);
    let n = kids.len();
    let mut k: usize = 0;
    proof {
        assert(diags(out@) + gather(f, 0, n as int) =~= gather(f, 0, n as int));
    }
    while k < n
        invariant
            k <= n,
            gather(f, 0, n as int) == diags(out@) + gather(f, k as int, n as int),
        decreases n - k,
    {
        proof {
            lemma_gather_step(f, diags(out@), k as int, n as int);
        }
        let ghost before = out@;
        match initial_value_of(parsed, kids[k]) {
            Some(v) => {
                let mut found = check_assigned_value(parsed, &tag.type_expr, v);
                let ghost more = found@;
                out.append(&mut found);
                assert(diags(out@) =~= diags(before) + diags(more));
            },
            None => {
                assert(diags(before) + f(k as int) =~= diags(before));
            },
        }
        k += 1;
    }
    proof {
        assert(diags(out@) + gather(f, n as int, n as int) =~= diags(out@));
    }
    out
}

fn applies(parsed: &ParsedSource, tag: &VarTag, a: usize) -> (r: bool)
    requires
        parsed.wf(),
        a < parsed.tree.nodes.len(),
    ensures
        r == tag_applies(parsed, (bytes_of(tag.name), tag.type_expr@), a as int),
{
    match &tag.name {
        Some(name) => match parsed.tree.child_by_field(a, "left") {
            Some(l) => bytes_eq(variable_name_text(parsed, l), name.as_slice()),
            None => false,
        },
        None => true,
    }
}

fn check_statement(parsed: &ParsedSource, j: usize) -> (r: Vec<Diagnostic>)
    requires
        parsed.wf(),
        j < parsed.tree.nodes.len(),
    ensures
        diags(r@) == statement_findings(parsed, j as int),
{
    let out: Vec<Diagnostic> = Vec::new();
    proof {
        assert(diags(out@) =~= Seq::empty());
    }
    if !parsed.tree.is_kind(j, "expression_statement") {
        return out;
    }
    let doc = match extract_phpdoc_for_node(parsed, j) {
        Some(doc) => doc,
        None => {
            return out;
        },
    };
    let tag = match &doc.var_tag {
        Some(tag) => tag,
        None => {
            return out;
        },
    };
    let assign = match parsed.tree.child_by_kind(j, "assignment_expression") {
        Some(a) => a,
        None => {
            return out;
        },
    };
    let value = match parsed.tree.child_by_field(assign, "right") {
        Some(v) => v,
        None => {
            return out;
        },
    };
    if type_expression_to_hint(&tag.type_expr).is_some() && applies(parsed, tag, assign) {
        check_assigned_value(parsed, &tag.type_expr, value)
    } else {
        out
    }
}

/// The rule `strict_typing/phpdoc_var_check`.
#[derive(Clone, Copy, Debug)]
pub struct PhpDocVarCheckRule;

impl PhpDocVarCheckRule {
    pub fn new() -> Self {
        PhpDocVarCheckRule
    }
}

impl DiagnosticRule for PhpDocVarCheckRule {
    open spec fn rule_name(&self) -> Seq<u8> {
        "strict_typing/phpdoc_var_check".spec_bytes()
    }

    open spec fn findings(&self, parsed: &ParsedSource, context: &ProjectContext) -> Seq<Diag> {
        var_findings(parsed)
    }

    open spec fn edits(&self, parsed: &ParsedSource, context: &ProjectContext) -> Seq<Edit> {
        Seq::empty()
    }

    fn name(&self) -> (r: &'static str) {
        "strict_typing/phpdoc_var_check"
    }

    #[verifier::loop_isolation(false)]
    fn run(&self, parsed: &ParsedSource, context: &ProjectContext) -> (r: Vec<Diagnostic>) {
        let n = parsed.tree.nodes.len();
        let ghost f = properties_gatherer(parsed);
        let mut out: Vec<Diagnostic> = Vec::new();
        let mut j: usize = 0;
        proof {
            assert(diags(out@) + gather(f, 0, n as int) =~= gather(f, 0, n as int));
        }
        while j < n
            invariant
                j <= n,
                gather(f, 0, n as int) == diags(out@) + gather(f, j as int, n as int),
            decreases n - j,
        {
            proof {
                lemma_gather_step(f, diags(out@), j as int, n as int);
            }
            let ghost before = out@;
            let mut found = check_property(parsed, j);
            let ghost more = found@;
            out.append(&mut found);
            assert(diags(out@) =~= diags(before) + diags(more));
            j += 1;
        }
        proof {
            assert(diags(out@) + gather(f, n as int, n as int) =~= diags(out@));
        }
        let ghost first = diags(out@);
        let ghost g = statements_gatherer(parsed);
        let mut k: usize = 0;
        proof {
            assert(diags(out@) + gather(g, 0, n as int) =~= first + gather(g, 0, n as int));
        }
        while k < n
            invariant
                k <= n,
                first + gather(g, 0, n as int) == diags(out@) + gather(g, k as int, n as int),
            decreases n - k,
        {
            proof {
                lemma_gather_step(g, diags(out@), k as int, n as int);
            }
            let ghost before = out@;
            let mut found = check_statement(parsed, k);
            let ghost more = found@;
            out.append(&mut found);
            assert(diags(out@) =~= diags(before) + diags(more));
            k += 1;
        }
        proof {
            assert(diags(out@) + gather(g, n as int, n as int) =~= diags(out@));
        }
        out
    }

    fn fix(&self, parsed: &ParsedSource, context: &ProjectContext) -> (r: Vec<TextEdit>) {
        let out: Vec<TextEdit> = Vec::new();
        assert(edits_of(out@) =~= Seq::empty());
        out
    }
}

} // verus!
