//! Flags string literals that are passed where a function declares `int`.

use vstd::prelude::*;
use vstd::string::StringSliceAdditionalSpecFns;
use crate::analyzer::diagnostic::{diags, Diag, Diagnostic, Severity};
use crate::analyzer::fix::{edits_of, Edit, TextEdit};
use crate::analyzer::parser::ParsedSource;
use crate::analyzer::project::ProjectContext;
use crate::analyzer::rules::helpers::{
    diagnostic_at, diagnostic_for_node, node_text, node_text_of, span_at,
};
use crate::analyzer::diagnostic::lemma_diags_push;
use crate::analyzer::rules::{sweep_findings, sweep_nodes, DiagnosticRule, NodeSweep};
use crate::analyzer::syntax::{gather, lemma_gather_step};
use crate::analyzer::rules::helpers::{
    argument_literal, argument_literal_kind, models, same_type, signature_for, signature_of,
    LiteralKind, Ty, TypeHint,
};
use crate::analyzer::text::{decimal, push_all, push_decimal};

verus! {

/// The message for argument number `index`, counted from one, of a call of
/// `name`, when the literal starts at `row`, `column`.
pub open spec fn mismatch_message(index: nat, name: Seq<u8>, row: usize, column: usize) -> Seq<u8> {
    "type mismatch: argument ".spec_bytes() + decimal(index) + " of ".spec_bytes() + name
        + " expects int but got string literal at ".spec_bytes() + decimal((row + 1) as nat)
        + ":".spec_bytes() + decimal((column + 1) as nat)
}

/// The finding for argument number `k` of a call of `name`: an error at the
/// literal, if the function declares `int` for that parameter and the
/// argument passes a string literal.
pub open spec fn mismatch_item(
    parsed: &ParsedSource,
    name: Seq<u8>,
    params: Seq<Ty>,
    args: Seq<usize>,
    k: int,
) -> Seq<Diag> {
    if k < params.len() && params[k] == Ty::Int {
        match argument_literal(parsed, args[k] as int) {
            Some(found) => if found.0 == LiteralKind::String {
                seq![
                    diagnostic_at(
                        parsed.path@,
                        parsed.source@,
                        span_at(parsed, found.1 as int),
                        Severity::Error,
                        mismatch_message(
                            (k + 1) as nat,
                            name,
                            parsed.tree.nodes[found.1 as int].start.row,
                            parsed.tree.nodes[found.1 as int].start.column,
                        ),
                    ),
                ]
            } else {
                Seq::empty()
            },
            None => Seq::empty(),
        }
    } else {
        Seq::empty()
    }
}

pub open spec fn mismatch_gatherer(
    parsed: &ParsedSource,
    name: Seq<u8>,
    params: Seq<Ty>,
    args: Seq<usize>,
) -> spec_fn(int) -> Seq<Diag> {
    |k: int| mismatch_item(parsed, name, params, args, k)
}

/// What the rule reports for node `j`: if the node calls, by its plain
/// name, a function that the file declares, the findings for the arguments
/// of the call, in order.
pub open spec fn mismatches_in(parsed: &ParsedSource, j: int) -> Seq<Diag> {
    if parsed.tree.kind_of(j) == "function_call_expression".spec_bytes() {
        match parsed.tree.first_of_kind(parsed.tree.named_children(j), "name".spec_bytes()) {
            Some(n) => match signature_of(
                parsed,
                node_text_of(parsed, n as int),
                parsed.tree.nodes.len() as int,
            ) {
                Some(params) => match parsed.tree.first_of_kind(
                    parsed.tree.named_children(j),
                    "arguments".spec_bytes(),
                ) {
                    Some(a) => gather(
                        mismatch_gatherer(
                            parsed,
                            node_text_of(parsed, n as int),
                            params,
                            parsed.tree.named_children_of_kind(a as int, "argument".spec_bytes()),
                        ),
                        0,
                        parsed.tree.named_children_of_kind(
                            a as int,
                            "argument".spec_bytes(),
                        ).len() as int,
                    ),
                    None => Seq::empty(),
                },
                None => Seq::empty(),
            },
            None => Seq::empty(),
        }
    } else {
        Seq::empty()
    }
}

/// The rule `strict_typing/type_mismatch`.
#[derive(Clone, Copy, Debug)]
pub struct TypeMismatchRule;

impl TypeMismatchRule {
    pub fn new() -> Self {
        TypeMismatchRule
    }
}

impl NodeSweep for TypeMismatchRule {
    open spec fn sweep(&self, parsed: &ParsedSource, context: &ProjectContext, j: int) -> Seq<
        Diag,
    > {
        mismatches_in(parsed, j)
    }

    #[verifier::loop_isolation(false)]
    fn inspect_all(&self, parsed: &ParsedSource, context: &ProjectContext, j: usize) -> (r: Vec<
        Diagnostic,
    >) {
        let mut out: Vec<Diagnostic> = Vec::new();
        proof {
            assert(diags(out@) =~= Seq::empty());
        }
        if !parsed.tree.is_kind(j, "function_call_expression") {
            return out;
        }
        let name_node = match parsed.tree.child_by_kind(j, "name") {
            Some(n) => n,
            None => {
                return out;
            },
        };
        let name = node_text(parsed, name_node);
        let signature = match signature_for(parsed, name) {
            Some(signature) => signature,
            None => {
                return out;
            },
        };
        let arguments = match parsed.tree.child_by_kind(j, "arguments") {
            Some(a) => a,
            None => {
                return out;
            },
        };
        let args = parsed.tree.children_by_kind(arguments, "argument");
        let ghost f = mismatch_gatherer(parsed, name@, models(signature.params@), args@);
        let n = args.len();
        let mut k: usize = 0;
        proof {
            assert(diags(out@) + gather(f, 0, n as int) =~= gather(f, 0, n as int));
        }
        while k < n
            invariant
                k <= n,
                gather(f, 0, n as int) == diags(out@) + gather(f, k as int, n as int),
            decreases n - k,
        {
            proof {
                lemma_gather_step(f, diags(out@), k as int, n as int);
            }
            let ghost before = out@;
            let mut added = false;
            if k < signature.params.len() && same_type(&signature.params[k], &TypeHint::Int) {
                match argument_literal_kind(parsed, args[k]) {
                    Some(found) => {
                        if found.0 == LiteralKind::String {
                            let start = parsed.tree.nodes[found.1].start;
                            let mut message: Vec<u8> = Vec::new();
                            push_all(&mut message, "type mismatch: argument ".as_bytes());
                            push_decimal(&mut message, k as u128 + 1);
                            push_all(&mut message, " of ".as_bytes());
                            push_all(&mut message, name);
                            push_all(
                                &mut message,
                                " expects int but got string literal at ".as_bytes(),
                            );
                            push_decimal(&mut message, start.row as u128 + 1);
                            push_all(&mut message, ":".as_bytes());
                            push_decimal(&mut message, start.column as u128 + 1);
                            assert(message@ =~= mismatch_message(
                                (k + 1) as nat,
                                name@,
                                start.row,
                                start.column,
                            ));
                            let d = diagnostic_for_node(parsed, found.1, Severity::Error, message);
                            proof {
                                lemma_diags_push(before, d);
                            }
                            out.push(d);
                            assert(diags(out@) =~= diags(before) + f(k as int));
                            added = true;
                        }
                    },
                    None => {},
                }
            }
            if !added {
                assert(diags(before) + f(k as int) =~= diags(before));
            }
            k += 1;
        }
        proof {
            assert(diags(out@) + gather(f, n as int, n as int) =~= diags(out@));
        }
        out
    }
}

impl DiagnosticRule for TypeMismatchRule {
    open spec fn rule_name(&self) -> Seq<u8> {
        "strict_typing/type_mismatch".spec_bytes()
    }

    open spec fn findings(&self, parsed: &ParsedSource, context: &ProjectContext) -> Seq<Diag> {
        sweep_findings(self, parsed, context)
    }

    open spec fn edits(&self, parsed: &ParsedSource, context: &ProjectContext) -> Seq<Edit> {
        Seq::empty()
    }

    fn name(&self) -> (r: &'static str) {
        "strict_typing/type_mismatch"
    }

    fn run(&self, parsed: &ParsedSource, context: &ProjectContext) -> (r: Vec<Diagnostic>) {
        sweep_nodes(self, parsed, context)
    }

    fn fix(&self, parsed: &ParsedSource, context: &ProjectContext) -> (r: Vec<TextEdit>) {
        let out: Vec<TextEdit> = Vec::new();
        assert(edits_of(out@) =~= Seq::empty());
        out
    }
}

} // verus!
