//! Flags `@return` tags that contradict the native return type.

use vstd::prelude::*;
use vstd::string::StringSliceAdditionalSpecFns;
use crate::analyzer::diagnostic::{Diag, Diagnostic, Severity};
use crate::analyzer::fix::{edits_of, Edit, TextEdit};
use crate::analyzer::parser::ParsedSource;
use crate::analyzer::phpdoc::extractor::{doc_for, extract_phpdoc_for_node};
use crate::analyzer::phpdoc::types::{written, TypeExpr, TypeExpression};
use crate::analyzer::project::ProjectContext;
use crate::analyzer::rules::helpers::{
    compatible, converted, diagnostic_at, diagnostic_for_node, is_type_compatible, lemma_union_model,
    models, node_text, node_text_of, shown, span_at, type_expression_to_hint,
    type_hint_to_string, Ty, TypeHint,
};
use crate::analyzer::rules::{check_nodes, node_findings, DiagnosticRule, NodeCheck};
use crate::analyzer::text::{bytes_eq, push_all, to_vec};

verus! {

/// The type that the text of a native type stands for.
pub open spec fn text_hint(text: Seq<u8>) -> Ty {
    if text == "int".spec_bytes() {
        Ty::Int
    } else if text == "string".spec_bytes() {
        Ty::String
    } else if text == "bool".spec_bytes() || text == "boolean".spec_bytes() {
        Ty::Bool
    } else if text == "float".spec_bytes() || text == "double".spec_bytes() {
        Ty::Float
    } else {
        Ty::Object(text)
    }
}

/// The types of the first `upto` of the children `kids` of node `i`, those
/// left out that have none.
pub open spec fn member_hints(parsed: &ParsedSource, i: int, kids: Seq<usize>, upto: int) -> Seq<
    Ty,
>
    decreases parsed.tree.nodes.len() - i, 0nat, upto,
{
    if upto <= 0 || upto > kids.len() {
        Seq::empty()
    } else {
        let rest = member_hints(parsed, i, kids, upto - 1);
        let c = kids[upto - 1] as int;
        if i < c < parsed.tree.nodes.len() {
            match native_hint(parsed, c) {
                Some(h) => rest.push(h),
                None => rest,
            }
        } else {
            rest
        }
    }
}

/// The type of the first of the children `kids` of node `i`, from index
/// `from` on, that has one.
pub open spec fn first_hint(parsed: &ParsedSource, i: int, kids: Seq<usize>, from: int) -> Option<
    Ty,
>
    decreases parsed.tree.nodes.len() - i, 0nat, kids.len() - from,
{
    if from < 0 || from >= kids.len() {
        None
    } else {
        let c = kids[from] as int;
        let here = if i < c < parsed.tree.nodes.len() {
            native_hint(parsed, c)
        } else {
            None
        };
        match here {
            Some(h) => Some(h),
            None => first_hint(parsed, i, kids, from + 1),
        }
    }
}

/// The type that the native type at node `i` denotes: a primitive or named
/// type is what its text says; an optional type is the nullable form of its
/// first child with a type; a union type is the union of its children with
/// a type, if there are any.
pub open spec fn native_hint(parsed: &ParsedSource, i: int) -> Option<Ty>
    decreases parsed.tree.nodes.len() - i, 1nat, 0nat,
{
    if i < 0 || i >= parsed.tree.nodes.len() {
        None
    } else {
        let kind = parsed.tree.kind_of(i);
        let kids = parsed.tree.named_children(i);
        if kind == "union_type".spec_bytes() {
            let members = member_hints(parsed, i, kids, kids.len() as int);
            if members.len() == 0 {
                None
            } else {
                Some(Ty::Union(members))
            }
        } else if kind == "optional_type".spec_bytes() {
            match first_hint(parsed, i, kids, 0) {
                Some(h) => Some(Ty::Nullable(Box::new(h))),
                None => None,
            }
        } else if kind == "primitive_type".spec_bytes() || kind == "named_type".spec_bytes() {
            Some(text_hint(node_text_of(parsed, i)))
        } else {
            None
        }
    }
}

/// Whether the documented type `doc` and the native type `native` agree:
/// each documented array form agrees with the native `array`; apart from
/// that the two agree when the documented type converts and one of the two
/// is compatible with the other.
pub open spec fn agree(native: Ty, doc: TypeExpr) -> bool {
    let array_form = native == Ty::Object("array".spec_bytes()) && match doc {
        TypeExpr::Generic { base, params } => base == "array".spec_bytes(),
        TypeExpr::Array(_) => true,
        TypeExpr::Simple(name) => name == "array".spec_bytes(),
        _ => false,
    };
    array_form || match converted(doc) {
        Some(h) => compatible(native, h) || compatible(h, native),
        None => false,
    }
}

/// Whether `kind` is the kind of a function or of a method.
pub open spec fn is_function_like(kind: Seq<u8>) -> bool {
    kind == "function_definition".spec_bytes() || kind == "method_declaration".spec_bytes()
}

/// The node of the native return type of the function at node `f`.
pub open spec fn return_type_node(parsed: &ParsedSource, f: int) -> Option<usize> {
    match parsed.tree.first_in_field(parsed.tree.children(f), "return_type".spec_bytes()) {
        Some(n) => Some(n),
        None => match parsed.tree.first_of_kind(
            parsed.tree.named_children(f),
            "union_type".spec_bytes(),
        ) {
            Some(n) => Some(n),
            None => parsed.tree.first_of_kind(
                parsed.tree.named_children(f),
                "intersection_type".spec_bytes(),
            ),
        },
    }
}

/// The message of a finding.
pub open spec fn conflict_message(doc: TypeExpr, native: Ty) -> Seq<u8> {
    "@return type '".spec_bytes() + written(doc)
        + "' conflicts with native return type hint '".spec_bytes() + shown(native)
        + "'".spec_bytes()
}

/// What the rule reports for node `f`: an error at the native return type,
/// if the node is a function or a method with a documented return type that
/// converts, and with a native return type that does not agree with it.
pub open spec fn return_conflict_at(parsed: &ParsedSource, f: int) -> Seq<Diag> {
    if is_function_like(parsed.tree.kind_of(f)) {
        match doc_for(parsed, f) {
            Some(doc) => match doc.return_type {
                Some(documented) => match return_type_node(parsed, f) {
                    Some(n) => match native_hint(parsed, n as int) {
                        Some(native) => if converted(documented).is_some() && !agree(
                            native,
                            documented,
                        ) {
                            seq![
                                diagnostic_at(
                                    parsed.path@,
                                    parsed.source@,
                                    span_at(parsed, n as int),
                                    Severity::Error,
                                    conflict_message(documented, native),
                                ),
                            ]
                        } else {
                            Seq::empty()
                        },
                        None => Seq::empty(),
                    },
                    None => Seq::empty(),
                },
                None => Seq::empty(),
            },
            None => Seq::empty(),
        }
    } else {
        Seq::empty()
    }
}

/// The type that the text of a native type stands for.
pub fn text_to_type_hint(text: &[u8]) -> (r: TypeHint)
    ensures
        r@ == text_hint(text@),
{
    if bytes_eq(text, "int".as_bytes()) {
        TypeHint::Int
    } else if bytes_eq(text, "string".as_bytes()) {
        TypeHint::String
    } else if bytes_eq(text, "bool".as_bytes()) || bytes_eq(text, "boolean".as_bytes()) {
        TypeHint::Bool
    } else if bytes_eq(text, "float".as_bytes()) || bytes_eq(text, "double".as_bytes()) {
        TypeHint::Float
    } else {
        TypeHint::Object(to_vec(text))
    }
}

/// The type that the native type at node `i` denotes.
#[verifier::loop_isolation(false)]
pub fn parse_native_type_hint(parsed: &ParsedSource, i: usize) -> (r: Option<TypeHint>)
    requires
        parsed.wf(),
        i < parsed.tree.nodes.len(),
    ensures
        match r {
            Some(h) => native_hint(parsed, i as int) == Some(h@),
            None => native_hint(parsed, i as int).is_none(),
        },
    decreases parsed.tree.nodes.len() - i,
{
    if parsed.tree.is_kind(i, "union_type") {
        let kids = parsed.tree.named_children_of(i);
        let mut types: Vec<TypeHint> = Vec::new();
        let mut k: usize = 0;
        proof {
            assert(models(types@) =~= member_hints(parsed, i as int, kids@, 0));
        }
        while k < kids.len()
            invariant
                k <= kids.len(),
                models(types@) == member_hints(parsed, i as int, kids@, k as int),
            decreases kids.len() - k,
        {
            let ghost before = types@;
            match parse_native_type_hint(parsed, kids[k]) {
                Some(h) => {
                    types.push(h);
                    assert(models(types@) =~= models(before).push(h@));
                },
                None => {},
            }
            k += 1;
        }
        if types.len() == 0 {
            None
        } else {
            proof {
                lemma_union_model(types);
            }
            Some(TypeHint::Union(types))
        }
    } else if parsed.tree.is_kind(i, "optional_type") {
        let kids = parsed.tree.named_children_of(i);
        let mut k: usize = 0;
        while k < kids.len()
            invariant
                k <= kids.len(),
                first_hint(parsed, i as int, kids@, 0) == first_hint(
                    parsed,
                    i as int,
                    kids@,
                    k as int,
                ),
            decreases kids.len() - k,
        {
            match parse_native_type_hint(parsed, kids[k]) {
                Some(h) => {
                    return Some(TypeHint::Nullable(Box::new(h)));
                },
                None => {},
            }
            k += 1;
        }
        None
    } else if parsed.tree.is_kind(i, "primitive_type") || parsed.tree.is_kind(i, "named_type") {
        Some(text_to_type_hint(node_text(parsed, i)))
    } else {
        None
    }
}

/// Whether the documented type and the native type agree.
pub fn is_compatible_return(native: &TypeHint, phpdoc_expr: &TypeExpression) -> (r: bool)
    ensures
        r == agree(native@, phpdoc_expr@),
{
    let native_is_array = match native {
        TypeHint::Object(name) => bytes_eq(name.as_slice(), "array".as_bytes()),
        _ => false,
    };
    if native_is_array {
        let array_form = match phpdoc_expr {
            TypeExpression::Generic { base, params } => bytes_eq(
                base.as_slice(),
                "array".as_bytes(),
            ),
            TypeExpression::Array(_) => true,
            TypeExpression::Simple(name) => bytes_eq(name.as_slice(), "array".as_bytes()),
            _ => false,
        };
        if array_form {
            return true;
        }
    }
    match type_expression_to_hint(phpdoc_expr) {
        Some(h) => is_type_compatible(native, &h) || is_type_compatible(&h, native),
        None => false,
    }
}

fn native_return_type(parsed: &ParsedSource, f: usize) -> (r: Option<usize>)
    requires
        parsed.wf(),
        f < parsed.tree.nodes.len(),
    ensures
        r == return_type_node(parsed, f as int),
        r.is_some() ==> r.unwrap() < parsed.tree.nodes.len(),
{
    match parsed.tree.child_by_field(f, "return_type") {
        Some(n) => Some(n),
        None => match parsed.tree.child_by_kind(f, "union_type") {
            Some(n) => Some(n),
            None => parsed.tree.child_by_kind(f, "intersection_type"),
        },
    }
}

/// The rule `strict_typing/phpdoc_return_check`.
#[derive(Clone, Copy, Debug)]
pub struct PhpDocReturnCheckRule;

impl PhpDocReturnCheckRule {
    pub fn new() -> Self {
        PhpDocReturnCheckRule
    }
}

impl NodeCheck for PhpDocReturnCheckRule {
    open spec fn finding(&self, parsed: &ParsedSource, context: &ProjectContext, j: int) -> Seq<
        Diag,
    > {
        return_conflict_at(parsed, j)
    }

    fn inspect(&self, parsed: &ParsedSource, context: &ProjectContext, j: usize) -> (r: Option<
        Diagnostic,
    >) {
        if !parsed.tree.is_kind(j, "function_definition") && !parsed.tree.is_kind(
            j,
            "method_declaration",
        ) {
            return None;
        }
        let doc = match extract_phpdoc_for_node(parsed, j) {
            Some(doc) => doc,
            None => {
                return None;
            },
        };
        let tag = match &doc.return_tag {
            Some(tag) => tag,
            None => {
                return None;
            },
        };
        let type_node = match native_return_type(parsed, j) {
            Some(n) => n,
            None => {
                return None;
            },
        };
        let native = match parse_native_type_hint(parsed, type_node) {
            Some(h) => h,
            None => {
                return None;
            },
        };
        if type_expression_to_hint(&tag.type_expr).is_some() && !is_compatible_return(
            &native,
            &tag.type_expr,
        ) {
            let mut message: Vec<u8> = Vec::new();
            push_all(&mut message, "@return type '".as_bytes());
            push_all(&mut message, tag.type_expr.to_text().as_slice());
            push_all(&mut message, "' conflicts with native return type hint '".as_bytes());
            push_all(&mut message, type_hint_to_string(&native).as_slice());
            push_all(&mut message, "'".as_bytes());
            assert(message@ =~= conflict_message(tag.type_expr@, native@));
            Some(diagnostic_for_node(parsed, type_node, Severity::Error, message))
        } else {
            None
        }
    }
}

impl DiagnosticRule for PhpDocReturnCheckRule {
    open spec fn rule_name(&self) -> Seq<u8> {
        "strict_typing/phpdoc_return_check".spec_bytes()
    }

    open spec fn findings(&self, parsed: &ParsedSource, context: &ProjectContext) -> Seq<Diag> {
        node_findings(self, parsed, context)
    }

    open spec fn edits(&self, parsed: &ParsedSource, context: &ProjectContext) -> Seq<Edit> {
        Seq::empty()
    }

    fn name(&self) -> (r: &'static str) {
        "strict_typing/phpdoc_return_check"
    }

    fn run(&self, parsed: &ParsedSource, context: &ProjectContext) -> (r: Vec<Diagnostic>) {
        check_nodes(self, parsed, context)
    }

    fn fix(&self, parsed: &ParsedSource, context: &ProjectContext) -> (r: Vec<TextEdit>) {
        let out: Vec<TextEdit> = Vec::new();
        assert(edits_of(out@) =~= Seq::empty());
        out
    }
}

} // verus!
