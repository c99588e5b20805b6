//! Flags a `case` whose label repeats that of an earlier `case` of the same
//! `switch`.

use vstd::prelude::*;
use vstd::string::StringSliceAdditionalSpecFns;
use crate::analyzer::diagnostic::{diags, Diag, Diagnostic, Severity};
use crate::analyzer::fix::{edits_of, Edit, TextEdit};
use crate::analyzer::parser::ParsedSource;
use crate::analyzer::project::ProjectContext;
use crate::analyzer::rules::helpers::{
    diagnostic_at, diagnostic_for_node, node_text, node_text_of, span_at,
};
use crate::analyzer::diagnostic::lemma_diags_push;
use crate::analyzer::rules::{sweep_findings, sweep_nodes, DiagnosticRule, NodeSweep};
use crate::analyzer::syntax::{gather, lemma_gather_step};
use crate::analyzer::rules::control_flow::unreachable_statement::{switch_block_of, switch_body};
use crate::analyzer::text::{bytes_eq, push_all};
use vstd::slice::slice_subrange;

verus! {

/// Whether a node of the kind `kind` is a literal label.
pub open spec fn is_label_kind(kind: Seq<u8>) -> bool {
    ||| kind == "string".spec_bytes()
    ||| kind == "encapsed_string".spec_bytes()
    ||| kind == "integer".spec_bytes()
}

/// The first literal among `kids`, from index `from` on.
pub open spec fn first_label(parsed: &ParsedSource, kids: Seq<usize>, from: int) -> Option<usize>
    decreases kids.len() - from,
{
    if from < 0 || from >= kids.len() {
        None
    } else if is_label_kind(parsed.tree.kind_of(kids[from] as int)) {
        Some(kids[from])
    } else {
        first_label(parsed, kids, from + 1)
    }
}

/// The label of the `case` at node `c`: its first named child that is a
/// literal.
pub open spec fn case_label(parsed: &ParsedSource, c: int) -> Option<usize> {
    first_label(parsed, parsed.tree.named_children(c), 0)
}

/// Whether `b` is a single or a double quote.
pub open spec fn is_quote_mark(b: u8) -> bool {
    b == 39 || b == 34
}

/// `s` without leading quotes.
pub open spec fn unquoted_start(s: Seq<u8>) -> Seq<u8>
    decreases s.len(),
{
    if s.len() > 0 && is_quote_mark(s[0]) {
        unquoted_start(s.drop_first())
    } else {
        s
    }
}

/// `s` without trailing quotes.
pub open spec fn unquoted_end(s: Seq<u8>) -> Seq<u8>
    decreases s.len(),
{
    if s.len() > 0 && is_quote_mark(s.last()) {
        unquoted_end(s.drop_last())
    } else {
        s
    }
}

/// The value of the label at node `l`: the text of an integer, and what
/// stands between the quotes of a string.
pub open spec fn label_value(parsed: &ParsedSource, l: int) -> Seq<u8> {
    if parsed.tree.kind_of(l) == "integer".spec_bytes() {
        node_text_of(parsed, l)
    } else {
        unquoted_end(unquoted_start(node_text_of(parsed, l)))
    }
}

/// The key under which the label at node `l` is compared: its value, marked
/// as integer or as string.
pub open spec fn label_key(parsed: &ParsedSource, l: int) -> Seq<u8> {
    if parsed.tree.kind_of(l) == "integer".spec_bytes() {
        "int:".spec_bytes() + label_value(parsed, l)
    } else {
        "str:".spec_bytes() + label_value(parsed, l)
    }
}

/// How the label at node `l` is shown: an integer as it is, a string
/// between single quotes.
pub open spec fn label_display(parsed: &ParsedSource, l: int) -> Seq<u8> {
    if parsed.tree.kind_of(l) == "integer".spec_bytes() {
        label_value(parsed, l)
    } else {
        "'".spec_bytes() + label_value(parsed, l) + "'".spec_bytes()
    }
}

/// Whether child number `m` is a `case` in front of child number `k` with
/// a label of the key `key`.
pub open spec fn is_same_label(
    parsed: &ParsedSource,
    kids: Seq<usize>,
    k: int,
    key: Seq<u8>,
    m: int,
) -> bool {
    &&& 0 <= m < k
    &&& parsed.tree.kind_of(kids[m] as int) == "case_statement".spec_bytes()
    &&& match case_label(parsed, kids[m] as int) {
        Some(l) => label_key(parsed, l as int) == key,
        None => false,
    }
}

/// Whether an earlier `case` has a label of the key `key`.
pub open spec fn labelled_before(parsed: &ParsedSource, kids: Seq<usize>, k: int, key: Seq<u8>) -> bool {
    exists|m: int| #[trigger] is_same_label(parsed, kids, k, key, m)
}

/// The message of a finding.
pub open spec fn duplicate_case_message(display: Seq<u8>) -> Seq<u8> {
    "duplicate switch case ".spec_bytes() + display
}

/// The finding for child number `k` of a `switch` block: a warning at the
/// label, if the child is a `case` whose label repeats an earlier one.
pub open spec fn repeated_case(parsed: &ParsedSource, kids: Seq<usize>, k: int) -> Seq<Diag> {
    if parsed.tree.kind_of(kids[k] as int) == "case_statement".spec_bytes() {
        match case_label(parsed, kids[k] as int) {
            Some(l) => if labelled_before(parsed, kids, k, label_key(parsed, l as int)) {
                seq![
                    diagnostic_at(
                        parsed.path@,
                        parsed.source@,
                        span_at(parsed, l as int),
                        Severity::Warning,
                        duplicate_case_message(label_display(parsed, l as int)),
                    ),
                ]
            } else {
                Seq::empty()
            },
            None => Seq::empty(),
        }
    } else {
        Seq::empty()
    }
}

pub open spec fn repeat_gatherer(parsed: &ParsedSource, kids: Seq<usize>) -> spec_fn(int) -> Seq<
    Diag,
> {
    |k: int| repeated_case(parsed, kids, k)
}

/// What the rule reports for node `j`: if the node is a `switch`, the
/// findings for the children of its block, in order.
pub open spec fn repeated_cases_in(parsed: &ParsedSource, j: int) -> Seq<Diag> {
    match switch_body(parsed, j) {
        Some(b) => gather(
            repeat_gatherer(parsed, parsed.tree.children(b as int)),
            0,
            parsed.tree.children(b as int).len() as int,
        ),
        None => Seq::empty(),
    }
}

fn is_label(parsed: &ParsedSource, c: usize) -> (r: bool)
    requires
        c < parsed.tree.nodes.len(),
    ensures
        r == is_label_kind(parsed.tree.kind_of(c as int)),
{
    parsed.tree.is_kind(c, "string") || parsed.tree.is_kind(c, "encapsed_string")
        || parsed.tree.is_kind(c, "integer")
}

#[verifier::loop_isolation(false)]
fn label_of(parsed: &ParsedSource, c: usize) -> (r: Option<usize>)
    requires
        parsed.wf(),
        c < parsed.tree.nodes.len(),
    ensures
        r == case_label(parsed, c as int),
        r.is_some() ==> r.unwrap() < parsed.tree.nodes.len(),
{
    let kids = parsed.tree.named_children_of(c);
    let mut k: usize = 0;
    while k < kids.len()
        invariant
            k <= kids.len(),
            first_label(parsed, kids@, 0) == first_label(parsed, kids@, k as int),
        decreases kids.len() - k,
    {
        if is_label(parsed, kids[k]) {
            return Some(kids[k]);
        }
        k += 1;
    }
    None
}

/// Removes single and double quotes from both ends of `s`.
pub fn strip_quote_marks<'a>(s: &'a [u8]) -> (r: &'a [u8])
    ensures
        r@ == unquoted_end(unquoted_start(s@)),
{
    let mut i: usize = 0;
    proof {
        assert(s@.subrange(0, s@.len() as int) =~= s@);
    }
    while i < s.len() && (s[i] == 39 || s[i] == 34)
        invariant
            i <= s.len(),
            unquoted_start(s@) == unquoted_start(s@.subrange(i as int, s@.len() as int)),
        decreases s.len() - i,
    {
        proof {
            let cur = s@.subrange(i as int, s@.len() as int);
            assert(cur.drop_first() =~= s@.subrange(i + 1, s@.len() as int));
        }
        i += 1;
    }
    let t = slice_subrange(s, i, s.len());
    let mut j: usize = t.len();
    proof {
        assert(t@.subrange(0, t@.len() as int) =~= t@);
    }
    while j > 0 && (t[j - 1] == 39 || t[j - 1] == 34)
        invariant
            j <= t.len(),
            unquoted_end(t@) == unquoted_end(t@.subrange(0, j as int)),
        decreases j,
    {
        proof {
            let cur = t@.subrange(0, j as int);
            assert(cur.drop_last() =~= t@.subrange(0, j - 1));
        }
        j -= 1;
    }
    slice_subrange(t, 0, j)
}

/// The key and the display form of the label at node `l`.
pub fn literal_case_value(parsed: &ParsedSource, l: usize) -> (r: (Vec<u8>, Vec<u8>))
    requires
        parsed.wf(),
        l < parsed.tree.nodes.len(),
    ensures
        r.0@ == label_key(parsed, l as int),
        r.1@ == label_display(parsed, l as int),
{
    let text = node_text(parsed, l);
    let mut key: Vec<u8> = Vec::new();
    let mut display: Vec<u8> = Vec::new();
    if parsed.tree.is_kind(l, "integer") {
        push_all(&mut key, "int:".as_bytes());
        push_all(&mut key, text);
        push_all(&mut display, text);
        assert(key@ =~= label_key(parsed, l as int));
        assert(display@ =~= label_display(parsed, l as int));
    } else {
        let value = strip_quote_marks(text);
        push_all(&mut key, "str:".as_bytes());
        push_all(&mut key, value);
        push_all(&mut display, "'".as_bytes());
        push_all(&mut display, value);
        push_all(&mut display, "'".as_bytes());
        assert(key@ =~= label_key(parsed, l as int));
        assert(display@ =~= label_display(parsed, l as int));
    }
    (key, display)
}

#[verifier::loop_isolation(false)]
fn seen_label(parsed: &ParsedSource, kids: &Vec<usize>, k: usize, key: &[u8]) -> (r: bool)
    requires
        parsed.wf(),
        k <= kids@.len(),
        forall|m: int| 0 <= m < kids@.len() ==> #[trigger] kids@[m] < parsed.tree.nodes.len(),
    ensures
        r == labelled_before(parsed, kids@, k as int, key@),
{
    let mut m: usize = 0;
    while m < k
        invariant
            m <= k,
            forall|e: int| 0 <= e < m ==> !is_same_label(parsed, kids@, k as int, key@, e),
        decreases k - m,
    {
        if parsed.tree.is_kind(kids[m], "case_statement") {
            let hit = match label_of(parsed, kids[m]) {
                Some(l) => {
                    let value = literal_case_value(parsed, l);
                    bytes_eq(value.0.as_slice(), key)
                },
                None => false,
            };
            if hit {
                assert(is_same_label(parsed, kids@, k as int, key@, m as int));
                return true;
            }
        }
        m += 1;
    }
    false
}

/// The rule `control_flow/duplicate_switch_case`.
#[derive(Clone, Copy, Debug)]
pub struct DuplicateSwitchCaseRule;

impl DuplicateSwitchCaseRule {
    pub fn new() -> Self {
        DuplicateSwitchCaseRule
    }
}

impl NodeSweep for DuplicateSwitchCaseRule {
    open spec fn sweep(&self, parsed: &ParsedSource, context: &ProjectContext, j: int) -> Seq<
        Diag,
    > {
        repeated_cases_in(parsed, j)
    }

    #[verifier::loop_isolation(false)]
    fn inspect_all(&self, parsed: &ParsedSource, context: &ProjectContext, j: usize) -> (r: Vec<
        Diagnostic,
    >) {
        let mut out: Vec<Diagnostic> = Vec::new();
        let block = match switch_block_of(parsed, j) {
            Some(b) => b,
            None => {
                assert(diags(out@) =~= Seq::empty());
                return out;
            },
        };
        let kids = parsed.tree.children_of(block);
        let ghost f = repeat_gatherer(parsed, kids@);
        let n = kids.len();
        let mut k: usize = 0;
        proof {
            assert(diags(out@) + gather(f, 0, n as int) =~= gather(f, 0, n as int));
        }
        while k < n
            invariant
                k <= n,
                gather(f, 0, n as int) == diags(out@) + gather(f, k as int, n as int),
            decreases n - k,
        {
            proof {
                lemma_gather_step(f, diags(out@), k as int, n as int);
            }
            let ghost before = out@;
            let mut added = false;
            if parsed.tree.is_kind(kids[k], "case_statement") {
                match label_of(parsed, kids[k]) {
                    Some(l) => {
                        let value = literal_case_value(parsed, l);
                        if seen_label(parsed, &kids, k, value.0.as_slice()) {
                            let mut message: Vec<u8> = Vec::new();
                            push_all(&mut message, "duplicate switch case ".as_bytes());
                            push_all(&mut message, value.1.as_slice());
                            assert(message@ =~= duplicate_case_message(
                                label_display(parsed, l as int),
                            ));
                            let d = diagnostic_for_node(parsed, l, Severity::Warning, message);
                            proof {
                                lemma_diags_push(before, d);
                            }
                            out.push(d);
                            assert(diags(out@) =~= diags(before) + f(k as int));
                            added = true;
                        }
                    },
                    None => {},
                }
            }
            if !added {
                assert(diags(before) + f(k as int) =~= diags(before));
            }
            k += 1;
        }
        proof {
            assert(diags(out@) + gather(f, n as int, n as int) =~= diags(out@));
        }
        out
    }
}

impl DiagnosticRule for DuplicateSwitchCaseRule {
    open spec fn rule_name(&self) -> Seq<u8> {
        "control_flow/duplicate_switch_case".spec_bytes()
    }

    open spec fn findings(&self, parsed: &ParsedSource, context: &ProjectContext) -> Seq<Diag> {
        sweep_findings(self, parsed, context)
    }

    open spec fn edits(&self, parsed: &ParsedSource, context: &ProjectContext) -> Seq<Edit> {
        Seq::empty()
    }

    fn name(&self) -> (r: &'static str) {
        "control_flow/duplicate_switch_case"
    }

    fn run(&self, parsed: &ParsedSource, context: &ProjectContext) -> (r: Vec<Diagnostic>) {
        sweep_nodes(self, parsed, context)
    }

    fn fix(&self, parsed: &ParsedSource, context: &ProjectContext) -> (r: Vec<TextEdit>) {
        let out: Vec<TextEdit> = Vec::new();
        assert(edits_of(out@) =~= Seq::empty());
        out
    }
}

} // verus!
