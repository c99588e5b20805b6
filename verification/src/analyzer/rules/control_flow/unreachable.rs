//! Flags statements that follow a `return` or a `throw` in the same block.

use vstd::prelude::*;
use vstd::string::StringSliceAdditionalSpecFns;
use crate::analyzer::diagnostic::{diags, Diag, Diagnostic, Severity};
use crate::analyzer::fix::{edits_of, Edit, TextEdit};
use crate::analyzer::parser::ParsedSource;
use crate::analyzer::project::ProjectContext;
use crate::analyzer::rules::helpers::{diagnostic_at, diagnostic_for_node, span_at};
use crate::analyzer::diagnostic::lemma_diags_push;
use crate::analyzer::rules::{sweep_findings, sweep_nodes, DiagnosticRule, NodeSweep};
use crate::analyzer::syntax::{gather, lemma_gather_step};
use crate::analyzer::text::{decimal, push_all, push_decimal};

verus! {

/// Whether a statement of the kind `kind` leaves its block.
pub open spec fn is_exit_kind(kind: Seq<u8>) -> bool {
    kind == "return_statement".spec_bytes() || kind == "throw_statement".spec_bytes()
}

/// Whether child number `m` of the block is a statement that leaves the
/// block and stands in front of child number `k`.
pub open spec fn is_exit_before(parsed: &ParsedSource, kids: Seq<usize>, k: int, m: int) -> bool {
    &&& 0 <= m < k
    &&& parsed.tree.nodes[kids[m] as int].named
    &&& is_exit_kind(parsed.tree.kind_of(kids[m] as int))
}

/// Whether a statement that leaves the block stands in front of child
/// number `k`.
pub open spec fn exit_before(parsed: &ParsedSource, kids: Seq<usize>, k: int) -> bool {
    exists|m: int| #[trigger] is_exit_before(parsed, kids, k, m)
}

/// The message for a statement that starts at `row`, `column`.
pub open spec fn unreachable_message(row: usize, column: usize) -> Seq<u8> {
    "unreachable code after return at ".spec_bytes() + decimal((row + 1) as nat)
        + ":".spec_bytes() + decimal((column + 1) as nat)
}

/// The finding for child number `k` of the block: a warning, if the child
/// is named and follows a statement that leaves the block.
pub open spec fn dead_child(parsed: &ParsedSource, kids: Seq<usize>, k: int) -> Seq<Diag> {
    if parsed.tree.nodes[kids[k] as int].named && exit_before(parsed, kids, k) {
        seq![
            diagnostic_at(
                parsed.path@,
                parsed.source@,
                span_at(parsed, kids[k] as int),
                Severity::Warning,
                unreachable_message(
                    parsed.tree.nodes[kids[k] as int].start.row,
                    parsed.tree.nodes[kids[k] as int].start.column,
                ),
            ),
        ]
    } else {
        Seq::empty()
    }
}

pub open spec fn dead_gatherer(parsed: &ParsedSource, kids: Seq<usize>) -> spec_fn(int) -> Seq<
    Diag,
> {
    |k: int| dead_child(parsed, kids, k)
}

/// What the rule reports for node `j`: if the node is a block, the findings
/// for its children, in order.
pub open spec fn unreachable_in(parsed: &ParsedSource, j: int) -> Seq<Diag> {
    if parsed.tree.kind_of(j) == "compound_statement".spec_bytes() {
        gather(
            dead_gatherer(parsed, parsed.tree.children(j)),
            0,
            parsed.tree.children(j).len() as int,
        )
    } else {
        Seq::empty()
    }
}

/// The rule `control_flow/unreachable`.
#[derive(Clone, Copy, Debug)]
pub struct UnreachableCodeRule;

impl UnreachableCodeRule {
    pub fn new() -> Self {
        UnreachableCodeRule
    }
}

impl NodeSweep for UnreachableCodeRule {
    open spec fn sweep(&self, parsed: &ParsedSource, context: &ProjectContext, j: int) -> Seq<
        Diag,
    > {
        unreachable_in(parsed, j)
    }

    #[verifier::loop_isolation(false)]
    fn inspect_all(&self, parsed: &ParsedSource, context: &ProjectContext, j: usize) -> (r: Vec<
        Diagnostic,
    >) {
        let mut out: Vec<Diagnostic> = Vec::new();
        if !parsed.tree.is_kind(j, "compound_statement") {
            assert(diags(out@) =~= Seq::empty());
            return out;
        }
        let kids = parsed.tree.children_of(j);
        let ghost f = dead_gatherer(parsed, kids@);
        let n = kids.len();
        let mut reachable = true;
        let mut k: usize = 0;
        proof {
            assert(diags(out@) + gather(f, 0, n as int) =~= gather(f, 0, n as int));
        }
        while k < n
            invariant
                k <= n,
                reachable == !exit_before(parsed, kids@, k as int),
                gather(f, 0, n as int) == diags(out@) + gather(f, k as int, n as int),
            decreases n - k,
        {
            proof {
                lemma_gather_step(f, diags(out@), k as int, n as int);
            }
            let ghost before = out@;
            let child = kids[k];
            let node = &parsed.tree.nodes[child];
            if node.named && !reachable {
                let mut message: Vec<u8> = Vec::new();
                push_all(&mut message, "unreachable code after return at ".as_bytes());
                push_decimal(&mut message, node.start.row as u128 + 1);
                push_all(&mut message, ":".as_bytes());
                push_decimal(&mut message, node.start.column as u128 + 1);
                assert(message@ =~= unreachable_message(node.start.row, node.start.column));
                let d = diagnostic_for_node(parsed, child, Severity::Warning, message);
                proof {
                    lemma_diags_push(before, d);
                }
                out.push(d);
                assert(diags(out@) =~= diags(before) + f(k as int));
            } else {
                assert(diags(before) + f(k as int) =~= diags(before));
            }
            let leaves = node.named && (parsed.tree.is_kind(child, "return_statement")
                || parsed.tree.is_kind(child, "throw_statement"));
            proof {
                let next = k + 1;
                if leaves {
                    assert(is_exit_before(parsed, kids@, next, k as int));
                } else if !reachable {
                    let m = choose|m: int| is_exit_before(parsed, kids@, k as int, m);
                    assert(is_exit_before(parsed, kids@, next, m));
                } else {
                    assert forall|m: int| !(#[trigger] is_exit_before(parsed, kids@, next, m)) by {
                        if is_exit_before(parsed, kids@, next, m) {
                            assert(is_exit_before(parsed, kids@, k as int, m));
                        }
                    }
                }
            }
            if leaves {
                reachable = false;
            }
            k += 1;
        }
        proof {
            assert(diags(out@) + gather(f, n as int, n as int) =~= diags(out@));
        }
        out
    }
}

impl DiagnosticRule for UnreachableCodeRule {
    open spec fn rule_name(&self) -> Seq<u8> {
        "control_flow/unreachable".spec_bytes()
    }

    open spec fn findings(&self, parsed: &ParsedSource, context: &ProjectContext) -> Seq<Diag> {
        sweep_findings(self, parsed, context)
    }

    open spec fn edits(&self, parsed: &ParsedSource, context: &ProjectContext) -> Seq<Edit> {
        Seq::empty()
    }

    fn name(&self) -> (r: &'static str) {
        "control_flow/unreachable"
    }

    fn run(&self, parsed: &ParsedSource, context: &ProjectContext) -> (r: Vec<Diagnostic>) {
        sweep_nodes(self, parsed, context)
    }

    fn fix(&self, parsed: &ParsedSource, context: &ProjectContext) -> (r: Vec<TextEdit>) {
        let out: Vec<TextEdit> = Vec::new();
        assert(edits_of(out@) =~= Seq::empty());
        out
    }
}

} // verus!
