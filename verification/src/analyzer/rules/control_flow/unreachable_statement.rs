//! Flags jump statements in a `case` that follow another jump statement of
//! the same `case`.

use vstd::prelude::*;
use vstd::string::StringSliceAdditionalSpecFns;
use crate::analyzer::diagnostic::{diags, Diag, Diagnostic, Severity};
use crate::analyzer::fix::{edits_of, Edit, TextEdit};
use crate::analyzer::parser::ParsedSource;
use crate::analyzer::project::ProjectContext;
use crate::analyzer::rules::helpers::{diagnostic_at, diagnostic_for_node, span_at};
use crate::analyzer::diagnostic::lemma_diags_push;
use crate::analyzer::rules::{sweep_findings, sweep_nodes, DiagnosticRule, NodeSweep};
use crate::analyzer::syntax::{gather, lemma_gather_step};
use crate::analyzer::text::push_all;

verus! {

/// The block of the `switch` at node `j`, if the node is a `switch`.
pub open spec fn switch_body(parsed: &ParsedSource, j: int) -> Option<usize> {
    if parsed.tree.kind_of(j) == "switch_statement".spec_bytes() {
        parsed.tree.first_of_kind(parsed.tree.named_children(j), "switch_block".spec_bytes())
    } else {
        None
    }
}

/// Whether a statement of the kind `kind` jumps away.
pub open spec fn is_jump_kind(kind: Seq<u8>) -> bool {
    ||| kind == "break_statement".spec_bytes()
    ||| kind == "return_statement".spec_bytes()
    ||| kind == "continue_statement".spec_bytes()
    ||| kind == "throw_statement".spec_bytes()
    ||| kind == "goto_statement".spec_bytes()
}

/// The keyword of a jump statement of the kind `kind`.
pub open spec fn jump_word(kind: Seq<u8>) -> Seq<u8> {
    if kind == "break_statement".spec_bytes() {
        "break".spec_bytes()
    } else if kind == "return_statement".spec_bytes() {
        "return".spec_bytes()
    } else if kind == "continue_statement".spec_bytes() {
        "continue".spec_bytes()
    } else if kind == "throw_statement".spec_bytes() {
        "throw".spec_bytes()
    } else if kind == "goto_statement".spec_bytes() {
        "goto".spec_bytes()
    } else {
        "statement".spec_bytes()
    }
}

/// Whether child number `m` is a jump statement in front of child number
/// `k`.
pub open spec fn is_jump_before(parsed: &ParsedSource, kids: Seq<usize>, k: int, m: int) -> bool {
    0 <= m < k && is_jump_kind(parsed.tree.kind_of(kids[m] as int))
}

/// Whether a jump statement stands in front of child number `k`.
pub open spec fn jump_before(parsed: &ParsedSource, kids: Seq<usize>, k: int) -> bool {
    exists|m: int| #[trigger] is_jump_before(parsed, kids, k, m)
}

/// The message for a jump statement of the kind `kind`.
pub open spec fn dead_jump_message(kind: Seq<u8>) -> Seq<u8> {
    "unreachable ".spec_bytes() + jump_word(kind) + " statement".spec_bytes()
}

/// The finding for child number `k` of a `case`: a warning, if the child is
/// a jump statement that follows another one.
pub open spec fn dead_jump(parsed: &ParsedSource, kids: Seq<usize>, k: int) -> Seq<Diag> {
    if is_jump_kind(parsed.tree.kind_of(kids[k] as int)) && jump_before(parsed, kids, k) {
        seq![
            diagnostic_at(
                parsed.path@,
                parsed.source@,
                span_at(parsed, kids[k] as int),
                Severity::Warning,
                dead_jump_message(parsed.tree.kind_of(kids[k] as int)),
            ),
        ]
    } else {
        Seq::empty()
    }
}

pub open spec fn jump_gatherer(parsed: &ParsedSource, kids: Seq<usize>) -> spec_fn(int) -> Seq<
    Diag,
> {
    |k: int| dead_jump(parsed, kids, k)
}

/// The findings for the `case` at node `c`.
pub open spec fn case_findings(parsed: &ParsedSource, c: int) -> Seq<Diag> {
    gather(
        jump_gatherer(parsed, parsed.tree.children(c)),
        0,
        parsed.tree.children(c).len() as int,
    )
}

/// The findings for child number `k` of a `switch` block: those of the
/// child, if it is a `case`.
pub open spec fn block_child(parsed: &ParsedSource, kids: Seq<usize>, k: int) -> Seq<Diag> {
    if parsed.tree.kind_of(kids[k] as int) == "case_statement".spec_bytes() {
        case_findings(parsed, kids[k] as int)
    } else {
        Seq::empty()
    }
}

pub open spec fn block_gatherer(parsed: &ParsedSource, kids: Seq<usize>) -> spec_fn(int) -> Seq<
    Diag,
> {
    |k: int| block_child(parsed, kids, k)
}

/// What the rule reports for node `j`: if the node is a `switch`, the
/// findings for the cases of its block, in order.
pub open spec fn dead_jumps_in(parsed: &ParsedSource, j: int) -> Seq<Diag> {
    match switch_body(parsed, j) {
        Some(b) => gather(
            block_gatherer(parsed, parsed.tree.children(b as int)),
            0,
            parsed.tree.children(b as int).len() as int,
        ),
        None => Seq::empty(),
    }
}

/// The block of the `switch` at node `j`.
pub fn switch_block_of(parsed: &ParsedSource, j: usize) -> (r: Option<usize>)
    requires
        parsed.wf(),
        j < parsed.tree.nodes.len(),
    ensures
        r == switch_body(parsed, j as int),
        r.is_some() ==> r.unwrap() < parsed.tree.nodes.len(),
{
    if parsed.tree.is_kind(j, "switch_statement") {
        parsed.tree.child_by_kind(j, "switch_block")
    } else {
        None
    }
}

/// Whether the statement at node `c` jumps away.
pub fn is_jump(parsed: &ParsedSource, c: usize) -> (r: bool)
    requires
        c < parsed.tree.nodes.len(),
    ensures
        r == is_jump_kind(parsed.tree.kind_of(c as int)),
{
    parsed.tree.is_kind(c, "break_statement") || parsed.tree.is_kind(c, "return_statement")
        || parsed.tree.is_kind(c, "continue_statement") || parsed.tree.is_kind(
        c,
        "throw_statement",
    ) || parsed.tree.is_kind(c, "goto_statement")
}

fn jump_word_of(parsed: &ParsedSource, c: usize) -> (r: &'static str)
    requires
        c < parsed.tree.nodes.len(),
    ensures
        r.spec_bytes() == jump_word(parsed.tree.kind_of(c as int)),
{
    if parsed.tree.is_kind(c, "break_statement") {
        "break"
    } else if parsed.tree.is_kind(c, "return_statement") {
        "return"
    } else if parsed.tree.is_kind(c, "continue_statement") {
        "continue"
    } else if parsed.tree.is_kind(c, "throw_statement") {
        "throw"
    } else if parsed.tree.is_kind(c, "goto_statement") {
        "goto"
    } else {
        "statement"
    }
}

/// The findings for the `case` at node `c`.
#[verifier::loop_isolation(false)]
fn check_unreachable_statements(parsed: &ParsedSource, c: usize) -> (r: Vec<Diagnostic>)
    requires
        parsed.wf(),
        c < parsed.tree.nodes.len(),
    ensures
        diags(r@) == case_findings(parsed, c as int),
{
    let mut out: Vec<Diagnostic> = Vec::new();
    let kids = parsed.tree.children_of(c);
    let ghost f = jump_gatherer(parsed, kids@);
    let n = kids.len();
    let mut seen = false;
    let mut k: usize = 0;
    proof {
        assert(diags(out@) + gather(f, 0, n as int) =~= gather(f, 0, n as int));
    }
    while k < n
        invariant
            k <= n,
            seen == jump_before(parsed, kids@, k as int),
            gather(f, 0, n as int) == diags(out@) + gather(f, k as int, n as int),
        decreases n - k,
    {
        proof {
            lemma_gather_step(f, diags(out@), k as int, n as int);
        }
        let ghost before = out@;
        let child = kids[k];
        let jumps = is_jump(parsed, child);
        if jumps && seen {
            let mut message: Vec<u8> = Vec::new();
            push_all(&mut message, "unreachable ".as_bytes());
            push_all(&mut message, jump_word_of(parsed, child).as_bytes());
            push_all(&mut message, " statement".as_bytes());
            assert(message@ =~= dead_jump_message(parsed.tree.kind_of(child as int)));
            let d = diagnostic_for_node(parsed, child, Severity::Warning, message);
            proof {
                lemma_diags_push(before, d);
            }
            out.push(d);
            assert(diags(out@) =~= diags(before) + f(k as int));
        } else {
            assert(diags(before) + f(k as int) =~= diags(before));
        }
        proof {
            let next = k + 1;
            if jumps {
                assert(is_jump_before(parsed, kids@, next, k as int));
            } else if seen {
                let m = choose|m: int| is_jump_before(parsed, kids@, k as int, m);
                assert(is_jump_before(parsed, kids@, next, m));
            } else {
                assert forall|m: int| !(#[trigger] is_jump_before(parsed, kids@, next, m)) by {
                    if is_jump_before(parsed, kids@, next, m) {
                        assert(is_jump_before(parsed, kids@, k as int, m));
                    }
                }
            }
        }
        if jumps {
            seen = true;
        }
        k += 1;
    }
    proof {
        assert(diags(out@) + gather(f, n as int, n as int) =~= diags(out@));
    }
    out
}

/// The rule `control_flow/unreachable_statement`.
#[derive(Clone, Copy, Debug)]
pub struct UnreachableStatementRule;

impl UnreachableStatementRule {
    pub fn new() -> Self {
        UnreachableStatementRule
    }
}

impl NodeSweep for UnreachableStatementRule {
    open spec fn sweep(&self, parsed: &ParsedSource, context: &ProjectContext, j: int) -> Seq<
        Diag,
    > {
        dead_jumps_in(parsed, j)
    }

    #[verifier::loop_isolation(false)]
    fn inspect_all(&self, parsed: &ParsedSource, context: &ProjectContext, j: usize) -> (r: Vec<
        Diagnostic,
    >) {
        let mut out: Vec<Diagnostic> = Vec::new();
        let block = match switch_block_of(parsed, j) {
            Some(b) => b,
            None => {
                assert(diags(out@) =~= Seq::empty());
                return out;
            },
        };
        let kids = parsed.tree.children_of(block);
        let ghost f = block_gatherer(parsed, kids@);
        let n = kids.len();
        let mut k: usize = 0;
        proof {
            assert(diags(out@) + gather(f, 0, n as int) =~= gather(f, 0, n as int));
        }
        while k < n
            invariant
                k <= n,
                gather(f, 0, n as int) == diags(out@) + gather(f, k as int, n as int),
            decreases n - k,
        {
            proof {
                lemma_gather_step(f, diags(out@), k as int, n as int);
            }
            let ghost before = out@;
            if parsed.tree.is_kind(kids[k], "case_statement") {
                let mut found = check_unreachable_statements(parsed, kids[k]);
                let ghost added = found@;
                out.append(&mut found);
                assert(diags(out@) =~= diags(before) + diags(added));
            } else {
                assert(diags(before) + f(k as int) =~= diags(before));
            }
            k += 1;
        }
        proof {
            assert(diags(out@) + gather(f, n as int, n as int) =~= diags(out@));
        }
        out
    }
}

impl DiagnosticRule for UnreachableStatementRule {
    open spec fn rule_name(&self) -> Seq<u8> {
        "control_flow/unreachable_statement".spec_bytes()
    }

    open spec fn findings(&self, parsed: &ParsedSource, context: &ProjectContext) -> Seq<Diag> {
        sweep_findings(self, parsed, context)
    }

    open spec fn edits(&self, parsed: &ParsedSource, context: &ProjectContext) -> Seq<Edit> {
        Seq::empty()
    }

    fn name(&self) -> (r: &'static str) {
        "control_flow/unreachable_statement"
    }

    fn run(&self, parsed: &ParsedSource, context: &ProjectContext) -> (r: Vec<Diagnostic>) {
        sweep_nodes(self, parsed, context)
    }

    fn fix(&self, parsed: &ParsedSource, context: &ProjectContext) -> (r: Vec<TextEdit>) {
        let out: Vec<TextEdit> = Vec::new();
        assert(edits_of(out@) =~= Seq::empty());
        out
    }
}

} // verus!
