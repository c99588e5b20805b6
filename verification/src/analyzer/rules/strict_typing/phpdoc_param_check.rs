//! Flags `@param` tags that contradict the native type of their parameter.

use vstd::prelude::*;
use vstd::string::StringSliceAdditionalSpecFns;
use crate::analyzer::diagnostic::{diags, Diag, Diagnostic, Severity};
use crate::analyzer::fix::{edits_of, Edit, TextEdit};
use crate::analyzer::parser::ParsedSource;
use crate::analyzer::project::ProjectContext;
use crate::analyzer::rules::helpers::{diagnostic_at, diagnostic_for_node, span_at};
use crate::analyzer::diagnostic::lemma_diags_push;
use crate::analyzer::rules::{sweep_findings, sweep_nodes, DiagnosticRule, NodeSweep};
use crate::analyzer::syntax::{gather, lemma_gather_step};
use crate::analyzer::phpdoc::extractor::{doc_for, extract_phpdoc_for_node};
use crate::analyzer::phpdoc::parser::params_of;
use crate::analyzer::phpdoc::types::{written, ParamTag, TypeExpr, TypeExpression};
use crate::analyzer::rules::helpers::{
    compatible, converted, is_type_compatible, parameter_hint, same_type, shown,
    type_expression_to_hint, type_hint_from_parameter, type_hint_to_string, variable_name_of,
    variable_name_text, Ty, TypeHint,
};
use crate::analyzer::rules::strict_typing::phpdoc_return_check::is_function_like;
use crate::analyzer::text::{bytes_eq, push_all};

verus! {

/// The type that the last of the first `upto` tags documents for the
/// parameter `name`.
pub open spec fn documented(tags: Seq<(Seq<u8>, TypeExpr)>, name: Seq<u8>, upto: int) -> Option<
    TypeExpr,
>
    decreases upto,
{
    if upto <= 0 || upto > tags.len() {
        None
    } else if tags[upto - 1].0 == name {
        Some(tags[upto - 1].1)
    } else {
        documented(tags, name, upto - 1)
    }
}

/// Whether `kind` is the kind of a parameter.
pub open spec fn is_parameter_kind(kind: Seq<u8>) -> bool {
    ||| kind == "simple_parameter".spec_bytes()
    ||| kind == "variadic_parameter".spec_bytes()
    ||| kind == "property_promotion_parameter".spec_bytes()
}

/// The name of the parameter at node `p`: that of its first variable.
pub open spec fn parameter_name(parsed: &ParsedSource, p: int) -> Option<Seq<u8>> {
    match parsed.tree.first_of_kind(parsed.tree.named_children(p), "variable_name".spec_bytes()) {
        Some(v) => Some(variable_name_of(parsed, v as int)),
        None => None,
    }
}

/// The node at which a finding for the parameter at node `p` points: its
/// primitive type, else its named type, else the parameter.
pub open spec fn type_anchor(parsed: &ParsedSource, p: int) -> int {
    match parsed.tree.first_of_kind(parsed.tree.named_children(p), "primitive_type".spec_bytes()) {
        Some(t) => t as int,
        None => match parsed.tree.first_of_kind(
            parsed.tree.named_children(p),
            "named_type".spec_bytes(),
        ) {
            Some(t) => t as int,
            None => p,
        },
    }
}

/// The message of a finding.
pub open spec fn param_conflict_message(doc: TypeExpr, native: Ty, name: Seq<u8>) -> Seq<u8> {
    "@param type '".spec_bytes() + written(doc)
        + "' conflicts with native type hint '".spec_bytes() + shown(native)
        + "' for parameter $".spec_bytes() + name
}

/// The finding for child number `k` of a parameter list: an error at the
/// type of the parameter, if the child is a parameter with a known native
/// type and a documented type that converts, and neither of the two types
/// is compatible with the other.
pub open spec fn param_conflict(
    parsed: &ParsedSource,
    tags: Seq<(Seq<u8>, TypeExpr)>,
    kids: Seq<usize>,
    k: int,
) -> Seq<Diag> {
    let p = kids[k] as int;
    if is_parameter_kind(parsed.tree.kind_of(p)) {
        match parameter_name(parsed, p) {
            Some(name) => match documented(tags, name, tags.len() as int) {
                Some(doc) => match converted(doc) {
                    Some(h) => if parameter_hint(parsed, p) != Ty::Unknown && !compatible(
                        parameter_hint(parsed, p),
                        h,
                    ) && !compatible(h, parameter_hint(parsed, p)) {
                        seq![
                            diagnostic_at(
                                parsed.path@,
                                parsed.source@,
                                span_at(parsed, type_anchor(parsed, p)),
                                Severity::Error,
                                param_conflict_message(doc, parameter_hint(parsed, p), name),
                            ),
                        ]
                    } else {
                        Seq::empty()
                    },
                    None => Seq::empty(),
                },
                None => Seq::empty(),
            },
            None => Seq::empty(),
        }
    } else {
        Seq::empty()
    }
}

pub open spec fn param_gatherer(
    parsed: &ParsedSource,
    tags: Seq<(Seq<u8>, TypeExpr)>,
    kids: Seq<usize>,
) -> spec_fn(int) -> Seq<Diag> {
    |k: int| param_conflict(parsed, tags, kids, k)
}

/// What the rule reports for node `f`: if the node is a function or a
/// method with documented parameters, the findings for its parameters, in
/// order.
pub open spec fn param_conflicts_in(parsed: &ParsedSource, f: int) -> Seq<Diag> {
    if is_function_like(parsed.tree.kind_of(f)) {
        match doc_for(parsed, f) {
            Some(doc) => if doc.params.len() > 0 {
                match parsed.tree.first_of_kind(
                    parsed.tree.named_children(f),
                    "formal_parameters".spec_bytes(),
                ) {
                    Some(formal) => gather(
                        param_gatherer(
                            parsed,
                            doc.params,
                            parsed.tree.named_children(formal as int),
                        ),
                        0,
                        parsed.tree.named_children(formal as int).len() as int,
                    ),
                    None => Seq::empty(),
                }
            } else {
                Seq::empty()
            },
            None => Seq::empty(),
        }
    } else {
        Seq::empty()
    }
}

#[verifier::loop_isolation(false)]
fn documented_type<'a>(tags: &'a Vec<ParamTag>, name: &[u8]) -> (r: Option<&'a TypeExpression>)
    ensures
        match r {
            Some(t) => documented(params_of(tags@), name@, tags@.len() as int) == Some(t@),
            None => documented(params_of(tags@), name@, tags@.len() as int).is_none(),
        },
{
    let mut upto: usize = tags.len();
    while upto > 0
        invariant
            upto <= tags.len(),
            documented(params_of(tags@), name@, tags@.len() as int) == documented(
                params_of(tags@),
                name@,
                upto as int,
            ),
        decreases upto,
    {
        if bytes_eq(tags[upto - 1].name.as_slice(), name) {
            return Some(&tags[upto - 1].type_expr);
        }
        upto -= 1;
    }
    None
}

/// The name of the parameter at node `p`.
pub fn get_param_name<'a>(parsed: &'a ParsedSource, p: usize) -> (r: Option<&'a [u8]>)
    requires
        parsed.wf(),
        p < parsed.tree.nodes.len(),
    ensures
        match r {
            Some(name) => parameter_name(parsed, p as int) == Some(name@),
            None => parameter_name(parsed, p as int).is_none(),
        },
{
    match parsed.tree.child_by_kind(p, "variable_name") {
        Some(v) => Some(variable_name_text(parsed, v)),
        None => None,
    }
}

fn is_parameter(parsed: &ParsedSource, p: usize) -> (r: bool)
    requires
        p < parsed.tree.nodes.len(),
    ensures
        r == is_parameter_kind(parsed.tree.kind_of(p as int)),
{
    parsed.tree.is_kind(p, "simple_parameter") || parsed.tree.is_kind(p, "variadic_parameter")
        || parsed.tree.is_kind(p, "property_promotion_parameter")
}

fn check_parameter(parsed: &ParsedSource, tags: &Vec<ParamTag>, kids: &Vec<usize>, k: usize) -> (r:
    Option<Diagnostic>)
    requires
        parsed.wf(),
        k < kids@.len(),
        forall|m: int| 0 <= m < kids@.len() ==> #[trigger] kids@[m] < parsed.tree.nodes.len(),
    ensures
        match r {
            Some(d) => param_conflict(parsed, params_of(tags@), kids@, k as int) == seq![d@],
            None => param_conflict(parsed, params_of(tags@), kids@, k as int) == Seq::<
                Diag,
            >::empty(),
        },
{
    let p = kids[k];
    if !is_parameter(parsed, p) {
        return None;
    }
    let name = match get_param_name(parsed, p) {
        Some(name) => name,
        None => {
            return None;
        },
    };
    let doc = match documented_type(tags, name) {
        Some(doc) => doc,
        None => {
            return None;
        },
    };
    let native = type_hint_from_parameter(parsed, p);
    if same_type(&native, &TypeHint::Unknown) {
        return None;
    }
    let hint = match type_expression_to_hint(doc) {
        Some(h) => h,
        None => {
            return None;
        },
    };
    if is_type_compatible(&native, &hint) || is_type_compatible(&hint, &native) {
        return None;
    }
    let type_node = match parsed.tree.child_by_kind(p, "primitive_type") {
        Some(t) => t,
        None => match parsed.tree.child_by_kind(p, "named_type") {
            Some(t) => t,
            None => p,
        },
    };
    let mut message: Vec<u8> = Vec::new();
    push_all(&mut message, "@param type '".as_bytes());
    push_all(&mut message, doc.to_text().as_slice());
    push_all(&mut message, "' conflicts with native type hint '".as_bytes());
    push_all(&mut message, type_hint_to_string(&native).as_slice());
    push_all(&mut message, "' for parameter $".as_bytes());
    push_all(&mut message, name);
    assert(message@ =~= param_conflict_message(doc@, native@, name@));
    Some(diagnostic_for_node(parsed, type_node, Severity::Error, message))
}

/// The rule `strict_typing/phpdoc_param_check`.
#[derive(Clone, Copy, Debug)]
pub struct PhpDocParamCheckRule;

impl PhpDocParamCheckRule {
    pub fn new() -> Self {
        PhpDocParamCheckRule
    }
}

impl NodeSweep for PhpDocParamCheckRule {
    open spec fn sweep(&self, parsed: &ParsedSource, context: &ProjectContext, j: int) -> Seq<
        Diag,
    > {
        param_conflicts_in(parsed, j)
    }

    #[verifier::loop_isolation(false)]
    fn inspect_all(&self, parsed: &ParsedSource, context: &ProjectContext, j: usize) -> (r: Vec<
        Diagnostic,
    >) {
        let mut out: Vec<Diagnostic> = Vec::new();
        proof {
            assert(diags(out@) =~= Seq::empty());
        }
        if !parsed.tree.is_kind(j, "function_definition") && !parsed.tree.is_kind(
            j,
            "method_declaration",
        ) {
            return out;
        }
        let doc = match extract_phpdoc_for_node(parsed, j) {
            Some(doc) => doc,
            None => {
                return out;
            },
        };
        if doc.params.len() == 0 {
            return out;
        }
        let formal = match parsed.tree.child_by_kind(j, "formal_parameters") {
            Some(formal) => formal,
            None => {
                return out;
            },
        };
        let kids = parsed.tree.named_children_of(formal);
        let ghost f = param_gatherer(parsed, params_of(doc.params@), kids@);
        let n = kids.len();
        let mut k: usize = 0;
        proof {
            assert(diags(out@) + gather(f, 0, n as int) =~= gather(f, 0, n as int));
        }
        while k < n
            invariant
                k <= n,
                gather(f, 0, n as int) == diags(out@) + gather(f, k as int, n as int),
            decreases n - k,
        {
            proof {
                lemma_gather_step(f, diags(out@), k as int, n as int);
            }
            let ghost before = out@;
            match check_parameter(parsed, &doc.params, &kids, k) {
                Some(d) => {
                    proof {
                        lemma_diags_push(before, d);
                    }
                    out.push(d);
                    assert(diags(out@) =~= diags(before) + f(k as int));
                },
                None => {
                    assert(diags(before) + f(k as int) =~= diags(before));
                },
            }
            k += 1;
        }
        proof {
            assert(diags(out@) + gather(f, n as int, n as int) =~= diags(out@));
        }
        out
    }
}

impl DiagnosticRule for PhpDocParamCheckRule {
    open spec fn rule_name(&self) -> Seq<u8> {
        "strict_typing/phpdoc_param_check".spec_bytes()
    }

    open spec fn findings(&self, parsed: &ParsedSource, context: &ProjectContext) -> Seq<Diag> {
        sweep_findings(self, parsed, context)
    }

    open spec fn edits(&self, parsed: &ParsedSource, context: &ProjectContext) -> Seq<Edit> {
        Seq::empty()
    }

    fn name(&self) -> (r: &'static str) {
        "strict_typing/phpdoc_param_check"
    }

    fn run(&self, parsed: &ParsedSource, context: &ProjectContext) -> (r: Vec<Diagnostic>) {
        sweep_nodes(self, parsed, context)
    }

    fn fix(&self, parsed: &ParsedSource, context: &ProjectContext) -> (r: Vec<TextEdit>) {
        let out: Vec<TextEdit> = Vec::new();
        assert(edits_of(out@) =~= Seq::empty());
        out
    }
}

} // verus!
