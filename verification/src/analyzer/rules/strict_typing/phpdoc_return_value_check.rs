//! Holds what a function returns against its `@return` tag.

use vstd::prelude::*;
use vstd::string::StringSliceAdditionalSpecFns;
use crate::analyzer::diagnostic::{diags, Diag, Diagnostic, Severity};
use crate::analyzer::fix::{edits_of, Edit, TextEdit};
use crate::analyzer::parser::ParsedSource;
use crate::analyzer::project::ProjectContext;
use crate::analyzer::rules::helpers::{diagnostic_at, diagnostic_for_node, span_at};
use crate::analyzer::rules::{sweep_findings, sweep_nodes, DiagnosticRule, NodeSweep};
use crate::analyzer::syntax::{gather, lemma_gather_step};
use crate::analyzer::phpdoc::extractor::{doc_for, extract_phpdoc_for_node};
use crate::analyzer::phpdoc::types::{written, TypeExpr, TypeExpression};
use crate::analyzer::rules::helpers::{
    compatible, converted, infer_type, inferred, is_type_compatible, same_type, shown,
    type_expression_to_hint, type_hint_to_string, Ty, TypeHint,
};
use crate::analyzer::rules::strict_typing::array_checks::{
    array_findings, check_array_elements, Subject,
};
use crate::analyzer::rules::strict_typing::missing_return::{block_of, is_return};
use crate::analyzer::rules::strict_typing::phpdoc_return_check::is_function_like;
use crate::analyzer::text::push_all;

verus! {

/// The message for a returned value whose type cannot be inferred.
pub open spec fn unknown_return_message(doc: TypeExpr) -> Seq<u8> {
    "Cannot infer type of return value; expected @return type '".spec_bytes() + written(doc)
        + "'".spec_bytes()
}

/// The message for a returned value of the wrong type.
pub open spec fn return_value_message(actual: Ty, doc: TypeExpr) -> Seq<u8> {
    "Return value type '".spec_bytes() + shown(actual)
        + "' conflicts with @return type '".spec_bytes() + written(doc) + "'".spec_bytes()
}

/// Whether a type is an array type or a generic array type.
pub open spec fn is_array_type(t: Ty) -> bool {
    t is Array || t is GenericArray
}

/// The findings for the value at node `v` that a function returns: those
/// for its elements, if it is an array literal and the documented type is
/// an array type; else an error if its type is unknown, and an error if
/// its type is not compatible with the documented type.
pub open spec fn returned_value(parsed: &ParsedSource, doc: TypeExpr, expected: Ty, v: int) -> Seq<
    Diag,
> {
    if parsed.tree.kind_of(v) == "array_creation_expression".spec_bytes() && is_array_type(
        expected,
    ) {
        array_findings(parsed, Subject::ReturnValue, written(doc), v, expected)
    } else {
        match inferred(parsed, v) {
            Some(t) => if t == Ty::Unknown {
                seq![
                    diagnostic_at(
                        parsed.path@,
                        parsed.source@,
                        span_at(parsed, v),
                        Severity::Error,
                        unknown_return_message(doc),
                    ),
                ]
            } else if !compatible(t, expected) {
                seq![
                    diagnostic_at(
                        parsed.path@,
                        parsed.source@,
                        span_at(parsed, v),
                        Severity::Error,
                        return_value_message(t, doc),
                    ),
                ]
            } else {
                Seq::empty()
            },
            None => Seq::empty(),
        }
    }
}

/// The findings for node `k` of the body: those for the value that the
/// node returns, if it is a return statement with a value.
pub open spec fn return_at(
    parsed: &ParsedSource,
    doc: TypeExpr,
    expected: Ty,
    body: int,
    k: int,
) -> Seq<Diag> {
    if is_return(parsed, body, k) && parsed.tree.named_children(k).len() > 0 {
        returned_value(parsed, doc, expected, parsed.tree.named_children(k)[0] as int)
    } else {
        Seq::empty()
    }
}

pub open spec fn value_gatherer(
    parsed: &ParsedSource,
    doc: TypeExpr,
    expected: Ty,
    body: int,
) -> spec_fn(int) -> Seq<Diag> {
    |k: int| return_at(parsed, doc, expected, body, k)
}

/// What the rule reports for node `f`: if the node is a function or a
/// method with a body and a documented return type that converts, the
/// findings for the return statements of the body, in document order.
pub open spec fn return_values_in(parsed: &ParsedSource, f: int) -> Seq<Diag> {
    if is_function_like(parsed.tree.kind_of(f)) {
        match doc_for(parsed, f) {
            Some(doc) => match doc.return_type {
                Some(documented) => match converted(documented) {
                    Some(expected) => match block_of(parsed, f) {
                        Some(body) => gather(
                            value_gatherer(parsed, documented, expected, body as int),
                            body as int,
                            parsed.tree.nodes[body as int].subtree_end as int,
                        ),
                        None => Seq::empty(),
                    },
                    None => Seq::empty(),
                },
                None => Seq::empty(),
            },
            None => Seq::empty(),
        }
    } else {
        Seq::empty()
    }
}

fn check_returned_value(
    parsed: &ParsedSource,
    doc: &TypeExpression,
    expected: &TypeHint,
    v: usize,
) -> (r: Vec<Diagnostic>)
    requires
        parsed.wf(),
        v < parsed.tree.nodes.len(),
    ensures
        diags(r@) == returned_value(parsed, doc@, expected@, v as int),
{
    let array_type = match expected {
        TypeHint::Array(_) => true,
        TypeHint::GenericArray { key, value } => true,
        _ => false,
    };
    if parsed.tree.is_kind(v, "array_creation_expression") && array_type {
        return check_array_elements(
            parsed,
            Subject::ReturnValue,
            doc.to_text().as_slice(),
            v,
            expected,
        );
    }
    let mut out: Vec<Diagnostic> = Vec::new();
    proof {
        assert(diags(out@) =~= Seq::empty());
    }
    match infer_type(parsed, v) {
        Some(t) => {
            if same_type(&t, &TypeHint::Unknown) {
                let mut message: Vec<u8> = Vec::new();
                push_all(
                    &mut message,
                    "Cannot infer type of return value; expected @return type '".as_bytes(),
                );
                push_all(&mut message, doc.to_text().as_slice());
                push_all(&mut message, "'".as_bytes());
                assert(message@ =~= unknown_return_message(doc@));
                let d = diagnostic_for_node(parsed, v, Severity::Error, message);
                out.push(d);
                assert(diags(out@) =~= seq![d@]);
            } else if !is_type_compatible(&t, expected) {
                let mut message: Vec<u8> = Vec::new();
                push_all(&mut message, "Return value type '".as_bytes());
                push_all(&mut message, type_hint_to_string(&t).as_slice());
                push_all(&mut message, "' conflicts with @return type '".as_bytes());
                push_all(&mut message, doc.to_text().as_slice());
                push_all(&mut message, "'".as_bytes());
                assert(message@ =~= return_value_message(t@, doc@));
                let d = diagnostic_for_node(parsed, v, Severity::Error, message);
                out.push(d);
                assert(diags(out@) =~= seq![d@]);
            }
        },
        None => {},
    }
    out
}

/// The rule `strict_typing/phpdoc_return_value_check`.
#[derive(Clone, Copy, Debug)]
pub struct PhpDocReturnValueCheckRule;

impl PhpDocReturnValueCheckRule {
    pub fn new() -> Self {
        PhpDocReturnValueCheckRule
    }
}

impl NodeSweep for PhpDocReturnValueCheckRule {
    open spec fn sweep(&self, parsed: &ParsedSource, context: &ProjectContext, j: int) -> Seq<
        Diag,
    > {
        return_values_in(parsed, j)
    }

    #[verifier::loop_isolation(false)]
    fn inspect_all(&self, parsed: &ParsedSource, context: &ProjectContext, j: usize) -> (r: Vec<
        Diagnostic,
    >) {
        let mut out: Vec<Diagnostic> = Vec::new();
        proof {
            assert(diags(out@) =~= Seq::empty());
        }
        if !parsed.tree.is_kind(j, "function_definition") && !parsed.tree.is_kind(
            j,
            "method_declaration",
        ) {
            return out;
        }
        let doc = match extract_phpdoc_for_node(parsed, j) {
            Some(doc) => doc,
            None => {
                return out;
            },
        };
        let tag = match &doc.return_tag {
            Some(tag) => tag,
            None => {
                return out;
            },
        };
        let expected = match type_expression_to_hint(&tag.type_expr) {
            Some(h) => h,
            None => {
                return out;
            },
        };
        let body = match parsed.tree.child_by_kind(j, "compound_statement") {
            Some(body) => body,
            None => {
                return out;
            },
        };
        let end = parsed.tree.subtree_end(body);
        let ghost f = value_gatherer(parsed, tag.type_expr@, expected@, body as int);
        let mut k: usize = body;
        proof {
            assert(diags(out@) + gather(f, body as int, end as int) =~= gather(
                f,
                body as int,
                end as int,
            ));
        }
        while k < end
            invariant
                body <= k <= end,
                gather(f, body as int, end as int) == diags(out@) + gather(f, k as int, end as int),
            decreases end - k,
        {
            proof {
                lemma_gather_step(f, diags(out@), k as int, end as int);
            }
            let ghost before = out@;
            let mut added = false;
            if parsed.tree.is_kind(k, "return_statement") {
                let kids = parsed.tree.named_children_of(k);
                if kids.len() > 0 {
                    let mut found = check_returned_value(parsed, &tag.type_expr, &expected, kids[0]);
                    let ghost more = found@;
                    out.append(&mut found);
                    assert(diags(out@) =~= diags(before) + diags(more));
                    added = true;
                }
            }
            if !added {
                assert(diags(before) + f(k as int) =~= diags(before));
            }
            k += 1;
        }
        proof {
            assert(diags(out@) + gather(f, end as int, end as int) =~= diags(out@));
        }
        out
    }
}

impl DiagnosticRule for PhpDocReturnValueCheckRule {
    open spec fn rule_name(&self) -> Seq<u8> {
        "strict_typing/phpdoc_return_value_check".spec_bytes()
    }

    open spec fn findings(&self, parsed: &ParsedSource, context: &ProjectContext) -> Seq<Diag> {
        sweep_findings(self, parsed, context)
    }

    open spec fn edits(&self, parsed: &ParsedSource, context: &ProjectContext) -> Seq<Edit> {
        Seq::empty()
    }

    fn name(&self) -> (r: &'static str) {
        "strict_typing/phpdoc_return_value_check"
    }

    fn run(&self, parsed: &ParsedSource, context: &ProjectContext) -> (r: Vec<Diagnostic>) {
        sweep_nodes(self, parsed, context)
    }

    fn fix(&self, parsed: &ParsedSource, context: &ProjectContext) -> (r: Vec<TextEdit>) {
        let out: Vec<TextEdit> = Vec::new();
        assert(edits_of(out@) =~= Seq::empty());
        out
    }
}

} // verus!
