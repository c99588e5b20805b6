//! Flags functions whose return statements return literals of different
//! types.

use vstd::prelude::*;
use vstd::string::StringSliceAdditionalSpecFns;
use crate::analyzer::diagnostic::{diags, Diag, Diagnostic, Severity};
use crate::analyzer::fix::{edits_of, Edit, TextEdit};
use crate::analyzer::parser::ParsedSource;
use crate::analyzer::project::ProjectContext;
use crate::analyzer::rules::helpers::{diagnostic_at, diagnostic_for_node, span_at};
use crate::analyzer::diagnostic::lemma_diags_push;
use crate::analyzer::rules::{sweep_findings, sweep_nodes, DiagnosticRule, NodeSweep};
use crate::analyzer::syntax::{gather, lemma_gather_step};
use crate::analyzer::rules::helpers::{
    literal_ty, literal_type, same_type, shown, type_hint_to_string, Ty, TypeHint,
};
use crate::analyzer::rules::strict_typing::missing_return::{block_of, is_return};
use crate::analyzer::text::{decimal, push_all, push_decimal};

verus! {

/// The type of the first literal among `kids`, from index `from` on.
pub open spec fn first_literal_ty(parsed: &ParsedSource, kids: Seq<usize>, from: int) -> Option<
    Ty,
>
    decreases kids.len() - from,
{
    if from < 0 || from >= kids.len() {
        None
    } else {
        match literal_ty(parsed.tree.kind_of(kids[from] as int)) {
            Some(t) => Some(t),
            None => first_literal_ty(parsed, kids, from + 1),
        }
    }
}

/// What the return statement at node `r` returns: the type of the literal
/// that it returns, or nothing when it returns no literal.
pub open spec fn returned(parsed: &ParsedSource, r: int) -> Option<Ty> {
    first_literal_ty(parsed, parsed.tree.named_children(r), 0)
}

/// The first return statement of the body at node `body`, from node `from`
/// on.
pub open spec fn first_return(parsed: &ParsedSource, body: int, from: int) -> Option<int>
    decreases parsed.tree.nodes.len() - from,
{
    if from < 0 || from >= parsed.tree.nodes.len() || !parsed.tree.in_subtree(body, from) {
        None
    } else if is_return(parsed, body, from) {
        Some(from)
    } else {
        first_return(parsed, body, from + 1)
    }
}

/// How what a return statement returns is written.
pub open spec fn described(t: Option<Ty>) -> Seq<u8> {
    match t {
        Some(hint) => shown(hint),
        None => "void".spec_bytes(),
    }
}

/// The message for a return statement that starts at `row`, `column`.
pub open spec fn inconsistent_message(
    expected: Option<Ty>,
    found: Option<Ty>,
    row: usize,
    column: usize,
) -> Seq<u8> {
    "inconsistent return type: expected ".spec_bytes() + described(expected)
        + ", found ".spec_bytes() + described(found) + " at ".spec_bytes() + decimal(
        (row + 1) as nat,
    ) + ":".spec_bytes() + decimal((column + 1) as nat)
}

/// The finding for node `k` of the body: an error, if the node is a return
/// statement behind the first one and returns something else than the first.
pub open spec fn inconsistent_at(parsed: &ParsedSource, body: int, first: int, k: int) -> Seq<Diag> {
    if is_return(parsed, body, k) && k != first && returned(parsed, k) != returned(parsed, first) {
        seq![
            diagnostic_at(
                parsed.path@,
                parsed.source@,
                span_at(parsed, k),
                Severity::Error,
                inconsistent_message(
                    returned(parsed, first),
                    returned(parsed, k),
                    parsed.tree.nodes[k].start.row,
                    parsed.tree.nodes[k].start.column,
                ),
            ),
        ]
    } else {
        Seq::empty()
    }
}

pub open spec fn return_gatherer(parsed: &ParsedSource, body: int, first: int) -> spec_fn(int) -> Seq<
    Diag,
> {
    |k: int| inconsistent_at(parsed, body, first, k)
}

/// What the rule reports for node `j`: if the node is a function
/// definition with a body, the findings for the return statements of the
/// body, in document order.
pub open spec fn inconsistent_in(parsed: &ParsedSource, j: int) -> Seq<Diag> {
    if parsed.tree.kind_of(j) == "function_definition".spec_bytes() {
        match block_of(parsed, j) {
            Some(body) => match first_return(parsed, body as int, body as int) {
                Some(first) => gather(
                    return_gatherer(parsed, body as int, first),
                    body as int,
                    parsed.tree.nodes[body as int].subtree_end as int,
                ),
                None => Seq::empty(),
            },
            None => Seq::empty(),
        }
    } else {
        Seq::empty()
    }
}

/// What the return statement at node `r` returns.
#[verifier::loop_isolation(false)]
pub fn analyze_return_type(parsed: &ParsedSource, r: usize) -> (t: Option<TypeHint>)
    requires
        parsed.wf(),
        r < parsed.tree.nodes.len(),
    ensures
        match t {
            Some(h) => returned(parsed, r as int) == Some(h@),
            None => returned(parsed, r as int).is_none(),
        },
{
    let kids = parsed.tree.named_children_of(r);
    let mut k: usize = 0;
    while k < kids.len()
        invariant
            k <= kids.len(),
            first_literal_ty(parsed, kids@, 0) == first_literal_ty(parsed, kids@, k as int),
        decreases kids.len() - k,
    {
        match literal_type(parsed, kids[k]) {
            Some(h) => {
                return Some(h);
            },
            None => {},
        }
        k += 1;
    }
    None
}

/// Whether two return statements return the same.
pub fn types_compatible(a: &Option<TypeHint>, b: &Option<TypeHint>) -> (r: bool)
    ensures
        r == ((match a {
            Some(h) => Some(h@),
            None => None,
        }) == (match b {
            Some(h) => Some(h@),
            None => None,
        })),
{
    match (a, b) {
        (None, None) => true,
        (Some(x), Some(y)) => same_type(x, y),
        _ => false,
    }
}

/// How what a return statement returns is written.
pub fn type_description(t: &Option<TypeHint>) -> (r: Vec<u8>)
    ensures
        r@ == described(
            match t {
                Some(h) => Some(h@),
                None => None,
            },
        ),
{
    match t {
        Some(h) => type_hint_to_string(h),
        None => {
            let mut out: Vec<u8> = Vec::new();
            push_all(&mut out, "void".as_bytes());
            assert(out@ =~= "void".spec_bytes());
            out
        },
    }
}

/// The rule `strict_typing/consistent_return`.
#[derive(Clone, Copy, Debug)]
pub struct ConsistentReturnRule;

impl ConsistentReturnRule {
    pub fn new() -> Self {
        ConsistentReturnRule
    }
}

impl NodeSweep for ConsistentReturnRule {
    open spec fn sweep(&self, parsed: &ParsedSource, context: &ProjectContext, j: int) -> Seq<
        Diag,
    > {
        inconsistent_in(parsed, j)
    }

    #[verifier::loop_isolation(false)]
    fn inspect_all(&self, parsed: &ParsedSource, context: &ProjectContext, j: usize) -> (r: Vec<
        Diagnostic,
    >) {
        let mut out: Vec<Diagnostic> = Vec::new();
        proof {
            assert(diags(out@) =~= Seq::empty());
        }
        if !parsed.tree.is_kind(j, "function_definition") {
            return out;
        }
        let body = match parsed.tree.child_by_kind(j, "compound_statement") {
            Some(body) => body,
            None => {
                return out;
            },
        };
        let end = parsed.tree.subtree_end(body);
        let mut first: usize = body;
        while first < end && !parsed.tree.is_kind(first, "return_statement")
            invariant
                body <= first <= end,
                first_return(parsed, body as int, body as int) == first_return(
                    parsed,
                    body as int,
                    first as int,
                ),
            decreases end - first,
        {
            first += 1;
        }
        if first >= end {
            return out;
        }
        let expected = analyze_return_type(parsed, first);
        let ghost f = return_gatherer(parsed, body as int, first as int);
        let mut k: usize = body;
        proof {
            assert(diags(out@) + gather(f, body as int, end as int) =~= gather(
                f,
                body as int,
                end as int,
            ));
        }
        while k < end
            invariant
                body <= k <= end,
                gather(f, body as int, end as int) == diags(out@) + gather(f, k as int, end as int),
            decreases end - k,
        {
            proof {
                lemma_gather_step(f, diags(out@), k as int, end as int);
            }
            let ghost before = out@;
            let mut added = false;
            if k != first && parsed.tree.is_kind(k, "return_statement") {
                let found = analyze_return_type(parsed, k);
                if !types_compatible(&expected, &found) {
                    let start = parsed.tree.nodes[k].start;
                    let mut message: Vec<u8> = Vec::new();
                    push_all(&mut message, "inconsistent return type: expected ".as_bytes());
                    push_all(&mut message, type_description(&expected).as_slice());
                    push_all(&mut message, ", found ".as_bytes());
                    push_all(&mut message, type_description(&found).as_slice());
                    push_all(&mut message, " at ".as_bytes());
                    push_decimal(&mut message, start.row as u128 + 1);
                    push_all(&mut message, ":".as_bytes());
                    push_decimal(&mut message, start.column as u128 + 1);
                    assert(message@ =~= inconsistent_message(
                        returned(parsed, first as int),
                        returned(parsed, k as int),
                        start.row,
                        start.column,
                    ));
                    let d = diagnostic_for_node(parsed, k, Severity::Error, message);
                    proof {
                        lemma_diags_push(before, d);
                    }
                    out.push(d);
                    assert(diags(out@) =~= diags(before) + f(k as int));
                    added = true;
                }
            }
            if !added {
                assert(diags(before) + f(k as int) =~= diags(before));
            }
            k += 1;
        }
        proof {
            assert(diags(out@) + gather(f, end as int, end as int) =~= diags(out@));
        }
        out
    }
}

impl DiagnosticRule for ConsistentReturnRule {
    open spec fn rule_name(&self) -> Seq<u8> {
        "strict_typing/consistent_return".spec_bytes()
    }

    open spec fn findings(&self, parsed: &ParsedSource, context: &ProjectContext) -> Seq<Diag> {
        sweep_findings(self, parsed, context)
    }

    open spec fn edits(&self, parsed: &ParsedSource, context: &ProjectContext) -> Seq<Edit> {
        Seq::empty()
    }

    fn name(&self) -> (r: &'static str) {
        "strict_typing/consistent_return"
    }

    fn run(&self, parsed: &ParsedSource, context: &ProjectContext) -> (r: Vec<Diagnostic>) {
        sweep_nodes(self, parsed, context)
    }

    fn fix(&self, parsed: &ParsedSource, context: &ProjectContext) -> (r: Vec<TextEdit>) {
        let out: Vec<TextEdit> = Vec::new();
        assert(edits_of(out@) =~= Seq::empty());
        out
    }
}

} // verus!
