//! Flags a `case` that runs on into the next one.

use vstd::prelude::*;
use vstd::string::StringSliceAdditionalSpecFns;
use crate::analyzer::diagnostic::{diags, Diag, Diagnostic, Severity};
use crate::analyzer::fix::{edits_of, Edit, TextEdit};
use crate::analyzer::parser::ParsedSource;
use crate::analyzer::project::ProjectContext;
use crate::analyzer::rules::helpers::{diagnostic_at, diagnostic_for_node, span_at};
use crate::analyzer::diagnostic::lemma_diags_push;
use crate::analyzer::rules::{sweep_findings, sweep_nodes, DiagnosticRule, NodeSweep};
use crate::analyzer::syntax::{gather, lemma_gather_step};
use crate::analyzer::ignore::{ignore_state, suppressed, IgnoreState};
use crate::analyzer::rules::control_flow::unreachable_statement::{
    is_jump, is_jump_kind, switch_block_of, switch_body,
};
use crate::analyzer::text::to_vec;

verus! {

/// Whether `kind` is the kind of a part of the label of a `case`.
pub open spec fn is_label_part(kind: Seq<u8>) -> bool {
    kind == "case".spec_bytes() || kind == ":".spec_bytes()
}

/// The last of the first `upto` of `kids` that is no part of the label.
pub open spec fn last_statement(parsed: &ParsedSource, kids: Seq<usize>, upto: int) -> Option<
    usize,
>
    decreases upto,
{
    if upto <= 0 || upto > kids.len() {
        None
    } else if !is_label_part(parsed.tree.kind_of(kids[upto - 1] as int)) {
        Some(kids[upto - 1])
    } else {
        last_statement(parsed, kids, upto - 1)
    }
}

/// Whether the `case` at node `c` ends with a jump statement.
pub open spec fn ends_with_jump(parsed: &ParsedSource, c: int) -> bool {
    match last_statement(parsed, parsed.tree.children(c), parsed.tree.children(c).len() as int) {
        Some(s) => is_jump_kind(parsed.tree.kind_of(s as int)),
        None => false,
    }
}

/// Whether child number `m` is a `case` behind child number `k`.
pub open spec fn is_later_case(parsed: &ParsedSource, kids: Seq<usize>, k: int, m: int) -> bool {
    k < m < kids.len() && parsed.tree.kind_of(kids[m] as int) == "case_statement".spec_bytes()
}

/// Whether a `case` follows child number `k`.
pub open spec fn case_follows(parsed: &ParsedSource, kids: Seq<usize>, k: int) -> bool {
    exists|m: int| #[trigger] is_later_case(parsed, kids, k, m)
}

/// Whether the file switches the rule off.
pub open spec fn fallthrough_ignored(parsed: &ParsedSource) -> bool {
    suppressed(ignore_state(parsed.source@), "control_flow/fallthrough".spec_bytes())
}

/// The message of a finding.
pub open spec fn fallthrough_message() -> Seq<u8> {
    "case falls through to next case without explicit comment".spec_bytes()
}

/// The finding for child number `k` of a `switch` block: a warning, if the
/// child is a `case` that another `case` follows, does not end with a jump
/// statement, and the file does not switch the rule off.
pub open spec fn falls_through(parsed: &ParsedSource, kids: Seq<usize>, k: int) -> Seq<Diag> {
    if parsed.tree.kind_of(kids[k] as int) == "case_statement".spec_bytes() && case_follows(
        parsed,
        kids,
        k,
    ) && !ends_with_jump(parsed, kids[k] as int) && !fallthrough_ignored(parsed) {
        seq![
            diagnostic_at(
                parsed.path@,
                parsed.source@,
                span_at(parsed, kids[k] as int),
                Severity::Warning,
                fallthrough_message(),
            ),
        ]
    } else {
        Seq::empty()
    }
}

pub open spec fn fall_gatherer(parsed: &ParsedSource, kids: Seq<usize>) -> spec_fn(int) -> Seq<
    Diag,
> {
    |k: int| falls_through(parsed, kids, k)
}

/// What the rule reports for node `j`: if the node is a `switch`, the
/// findings for the children of its block, in order.
pub open spec fn fallthroughs_in(parsed: &ParsedSource, j: int) -> Seq<Diag> {
    match switch_body(parsed, j) {
        Some(b) => gather(
            fall_gatherer(parsed, parsed.tree.children(b as int)),
            0,
            parsed.tree.children(b as int).len() as int,
        ),
        None => Seq::empty(),
    }
}

/// Whether the `case` at node `c` ends with a jump statement.
#[verifier::loop_isolation(false)]
pub fn case_ends_with_control_flow(parsed: &ParsedSource, c: usize) -> (r: bool)
    requires
        parsed.wf(),
        c < parsed.tree.nodes.len(),
    ensures
        r == ends_with_jump(parsed, c as int),
{
    let kids = parsed.tree.children_of(c);
    let mut upto: usize = kids.len();
    while upto > 0
        invariant
            upto <= kids.len(),
            last_statement(parsed, kids@, kids@.len() as int) == last_statement(
                parsed,
                kids@,
                upto as int,
            ),
        decreases upto,
    {
        let child = kids[upto - 1];
        if !parsed.tree.is_kind(child, "case") && !parsed.tree.is_kind(child, ":") {
            return is_jump(parsed, child);
        }
        upto -= 1;
    }
    false
}

/// Whether the file switches the rule off.
pub fn case_has_ignore_comment(parsed: &ParsedSource) -> (r: bool)
    ensures
        r == fallthrough_ignored(parsed),
{
    let state = IgnoreState::from_bytes(parsed.source.as_slice());
    state.should_ignore("control_flow/fallthrough")
}

/// The index of the last `case` among `kids`.
#[verifier::loop_isolation(false)]
fn last_case(parsed: &ParsedSource, kids: &Vec<usize>) -> (r: usize)
    requires
        forall|m: int| 0 <= m < kids@.len() ==> #[trigger] kids@[m] < parsed.tree.nodes.len(),
    ensures
        r <= kids@.len(),
        forall|k: int| 0 <= k < kids@.len() ==> (case_follows(parsed, kids@, k) <==> k < r - 1),
{
    let mut upto: usize = kids.len();
    while upto > 0
        invariant
            upto <= kids.len(),
            forall|m: int|
                upto <= m < kids@.len() ==> parsed.tree.kind_of(kids@[m] as int)
                    != "case_statement".spec_bytes(),
        decreases upto,
    {
        if parsed.tree.is_kind(kids[upto - 1], "case_statement") {
            proof {
                assert forall|k: int| 0 <= k < kids@.len() implies (case_follows(parsed, kids@, k)
                    <==> k < upto - 1) by {
                    if k < upto - 1 {
                        assert(is_later_case(parsed, kids@, k, upto - 1));
                    } else if case_follows(parsed, kids@, k) {
                        let m = choose|m: int| is_later_case(parsed, kids@, k, m);
                        assert(false);
                    }
                }
            }
            return upto;
        }
        upto -= 1;
    }
    proof {
        assert forall|k: int| 0 <= k < kids@.len() implies !case_follows(parsed, kids@, k) by {
            if case_follows(parsed, kids@, k) {
                let m = choose|m: int| is_later_case(parsed, kids@, k, m);
                assert(false);
            }
        }
    }
    0
}

/// The rule `control_flow/fallthrough`.
#[derive(Clone, Copy, Debug)]
pub struct FallthroughRule;

impl FallthroughRule {
    pub fn new() -> Self {
        FallthroughRule
    }
}

impl NodeSweep for FallthroughRule {
    open spec fn sweep(&self, parsed: &ParsedSource, context: &ProjectContext, j: int) -> Seq<
        Diag,
    > {
        fallthroughs_in(parsed, j)
    }

    #[verifier::loop_isolation(false)]
    fn inspect_all(&self, parsed: &ParsedSource, context: &ProjectContext, j: usize) -> (r: Vec<
        Diagnostic,
    >) {
        let mut out: Vec<Diagnostic> = Vec::new();
        let block = match switch_block_of(parsed, j) {
            Some(b) => b,
            None => {
                assert(diags(out@) =~= Seq::empty());
                return out;
            },
        };
        let kids = parsed.tree.children_of(block);
        let ghost f = fall_gatherer(parsed, kids@);
        let n = kids.len();
        let behind = last_case(parsed, &kids);
        let mut k: usize = 0;
        proof {
            assert(diags(out@) + gather(f, 0, n as int) =~= gather(f, 0, n as int));
        }
        while k < n
            invariant
                k <= n,
                gather(f, 0, n as int) == diags(out@) + gather(f, k as int, n as int),
            decreases n - k,
        {
            proof {
                lemma_gather_step(f, diags(out@), k as int, n as int);
            }
            let ghost before = out@;
            let child = kids[k];
            if parsed.tree.is_kind(child, "case_statement") && k + 1 < behind
                && !case_ends_with_control_flow(parsed, child) && !case_has_ignore_comment(parsed) {
                let message = to_vec(
                    "case falls through to next case without explicit comment".as_bytes(),
                );
                let d = diagnostic_for_node(parsed, child, Severity::Warning, message);
                proof {
                    lemma_diags_push(before, d);
                }
                out.push(d);
                assert(diags(out@) =~= diags(before) + f(k as int));
            } else {
                assert(diags(before) + f(k as int) =~= diags(before));
            }
            k += 1;
        }
        proof {
            assert(diags(out@) + gather(f, n as int, n as int) =~= diags(out@));
        }
        out
    }
}

impl DiagnosticRule for FallthroughRule {
    open spec fn rule_name(&self) -> Seq<u8> {
        "control_flow/fallthrough".spec_bytes()
    }

    open spec fn findings(&self, parsed: &ParsedSource, context: &ProjectContext) -> Seq<Diag> {
        sweep_findings(self, parsed, context)
    }

    open spec fn edits(&self, parsed: &ParsedSource, context: &ProjectContext) -> Seq<Edit> {
        Seq::empty()
    }

    fn name(&self) -> (r: &'static str) {
        "control_flow/fallthrough"
    }

    fn run(&self, parsed: &ParsedSource, context: &ProjectContext) -> (r: Vec<Diagnostic>) {
        sweep_nodes(self, parsed, context)
    }

    fn fix(&self, parsed: &ParsedSource, context: &ProjectContext) -> (r: Vec<TextEdit>) {
        let out: Vec<TextEdit> = Vec::new();
        assert(edits_of(out@) =~= Seq::empty());
        out
    }
}

} // verus!
