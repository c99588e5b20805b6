//! Flags functions that return a value on some paths and fall off the end
//! on others.

use vstd::prelude::*;
use vstd::string::StringSliceAdditionalSpecFns;
use crate::analyzer::diagnostic::{Diag, Diagnostic, Severity};
use crate::analyzer::fix::{edits_of, Edit, TextEdit};
use crate::analyzer::parser::ParsedSource;
use crate::analyzer::project::ProjectContext;
use crate::analyzer::rules::helpers::{
    diagnostic_at, diagnostic_for_node, node_text, node_text_of, span_at,
};
use crate::analyzer::rules::{check_nodes, node_findings, DiagnosticRule, NodeCheck};
use crate::analyzer::text::{decimal, push_all, push_decimal};

verus! {

/// Whether node `j` is a return statement in the body at node `body`.
pub open spec fn is_return(parsed: &ParsedSource, body: int, j: int) -> bool {
    parsed.tree.in_subtree(body, j) && parsed.tree.kind_of(j) == "return_statement".spec_bytes()
}

/// Whether the body holds a return statement.
pub open spec fn has_return(parsed: &ParsedSource, body: int) -> bool {
    exists|j: int| #[trigger] is_return(parsed, body, j)
}

/// Whether node `j` is a return statement of the body that no branching
/// construct inside the body stands above.
pub open spec fn is_plain_return(parsed: &ParsedSource, body: int, j: int) -> bool {
    is_return(parsed, body, j) && !parsed.tree.conditional_above(j, body)
}

/// Whether the body holds an unconditional return.
pub open spec fn has_plain_return(parsed: &ParsedSource, body: int) -> bool {
    exists|j: int| #[trigger] is_plain_return(parsed, body, j)
}

/// Whether node `j` is a return statement of the body that lies within the
/// bytes of the block at node `block`.
pub open spec fn is_return_within(parsed: &ParsedSource, body: int, block: int, j: int) -> bool {
    &&& is_return(parsed, body, j)
    &&& parsed.tree.nodes[j].start_byte >= parsed.tree.nodes[block].start_byte
    &&& parsed.tree.nodes[j].end_byte <= parsed.tree.nodes[block].end_byte
}

/// Whether a return statement of the body lies within the block.
pub open spec fn returns_in(parsed: &ParsedSource, body: int, block: int) -> bool {
    exists|j: int| #[trigger] is_return_within(parsed, body, block, j)
}

/// The block of the construct at node `owner`: its first compound statement.
pub open spec fn block_of(parsed: &ParsedSource, owner: int) -> Option<usize> {
    parsed.tree.first_of_kind(parsed.tree.named_children(owner), "compound_statement".spec_bytes())
}

/// What the clauses of an `if` say about its branches.
pub ghost struct Branches {
    /// There is an `else`.
    pub has_else: bool,
    /// The block of the `else` holds a return.
    pub else_returns: bool,
    /// Some `elseif` has a block without a return.
    pub broken: bool,
}

/// What the first `upto` of the children `kids` of an `if` say about its
/// branches.
pub open spec fn branches(parsed: &ParsedSource, body: int, kids: Seq<usize>, upto: int) -> Branches
    decreases upto,
{
    if upto <= 0 {
        Branches { has_else: false, else_returns: false, broken: false }
    } else {
        let before = branches(parsed, body, kids, upto - 1);
        let c = kids[upto - 1] as int;
        if parsed.tree.kind_of(c) == "else_clause".spec_bytes() {
            Branches {
                has_else: true,
                else_returns: match block_of(parsed, c) {
                    Some(b) => returns_in(parsed, body, b as int),
                    None => before.else_returns,
                },
                broken: before.broken,
            }
        } else if parsed.tree.kind_of(c) == "else_if_clause".spec_bytes() {
            Branches {
                has_else: before.has_else,
                else_returns: before.else_returns,
                broken: before.broken || match block_of(parsed, c) {
                    Some(b) => !returns_in(parsed, body, b as int),
                    None => false,
                },
            }
        } else {
            before
        }
    }
}

/// Whether every branch of the `if` at node `i` returns: it has an `else`,
/// its own block and the block of the `else` hold a return, and so does the
/// block of every `elseif`.
pub open spec fn if_covered(parsed: &ParsedSource, body: int, i: int) -> bool {
    let kids = parsed.tree.named_children(i);
    let clauses = branches(parsed, body, kids, kids.len() as int);
    &&& !clauses.broken
    &&& clauses.has_else
    &&& clauses.else_returns
    &&& match block_of(parsed, i) {
        Some(b) => returns_in(parsed, body, b as int),
        None => false,
    }
}

/// Whether node `i` is an `if` statement in the body.
pub open spec fn is_if(parsed: &ParsedSource, body: int, i: int) -> bool {
    parsed.tree.in_subtree(body, i) && parsed.tree.kind_of(i) == "if_statement".spec_bytes()
}

/// Whether the body branches, and every `if` in it returns on every branch.
pub open spec fn all_branches_return(parsed: &ParsedSource, body: int) -> bool {
    &&& exists|i: int| #[trigger] is_if(parsed, body, i)
    &&& forall|i: int| #[trigger] is_if(parsed, body, i) ==> if_covered(parsed, body, i)
}

/// The node at which a finding for the function at node `f` points: its
/// name, or the function itself where it has none.
pub open spec fn anchor(parsed: &ParsedSource, f: int) -> int {
    match parsed.tree.first_in_field(parsed.tree.children(f), "name".spec_bytes()) {
        Some(n) => n as int,
        None => f,
    }
}

/// The message for the function `name` whose name starts at `row`, `column`.
pub open spec fn missing_return_message(name: Seq<u8>, row: usize, column: usize) -> Seq<u8> {
    "function ".spec_bytes() + name + " is missing a return on some paths at ".spec_bytes()
        + decimal((row + 1) as nat) + ":".spec_bytes() + decimal((column + 1) as nat)
}

/// What the rule reports for node `f`: an error at the name of the function,
/// if the node is a function definition whose body holds a return, holds no
/// unconditional return, and does not return on every branch.
pub open spec fn missing_return_at(parsed: &ParsedSource, f: int) -> Seq<Diag> {
    if parsed.tree.kind_of(f) == "function_definition".spec_bytes() {
        match block_of(parsed, f) {
            Some(body) => if has_return(parsed, body as int) && !has_plain_return(
                parsed,
                body as int,
            ) && !all_branches_return(parsed, body as int) {
                seq![
                    diagnostic_at(
                        parsed.path@,
                        parsed.source@,
                        span_at(parsed, anchor(parsed, f)),
                        Severity::Error,
                        missing_return_message(
                            node_text_of(parsed, anchor(parsed, f)),
                            parsed.tree.nodes[anchor(parsed, f)].start.row,
                            parsed.tree.nodes[anchor(parsed, f)].start.column,
                        ),
                    ),
                ]
            } else {
                Seq::empty()
            },
            None => Seq::empty(),
        }
    } else {
        Seq::empty()
    }
}

fn body_has_return(parsed: &ParsedSource, body: usize) -> (r: bool)
    requires
        parsed.wf(),
        body < parsed.tree.nodes.len(),
    ensures
        r == has_return(parsed, body as int),
{
    let end = parsed.tree.subtree_end(body);
    let mut j: usize = body;
    while j < end
        invariant
            parsed.wf(),
            body <= j <= end,
            end == parsed.tree.nodes[body as int].subtree_end,
            end <= parsed.tree.nodes.len(),
            forall|k: int| body <= k < j ==> !is_return(parsed, body as int, k),
        decreases end - j,
    {
        if parsed.tree.is_kind(j, "return_statement") {
            assert(is_return(parsed, body as int, j as int));
            return true;
        }
        j += 1;
    }
    false
}

fn body_has_plain_return(parsed: &ParsedSource, body: usize) -> (r: bool)
    requires
        parsed.wf(),
        body < parsed.tree.nodes.len(),
    ensures
        r == has_plain_return(parsed, body as int),
{
    let end = parsed.tree.subtree_end(body);
    let mut j: usize = body;
    while j < end
        invariant
            parsed.wf(),
            body <= j <= end,
            end == parsed.tree.nodes[body as int].subtree_end,
            end <= parsed.tree.nodes.len(),
            forall|k: int| body <= k < j ==> !is_plain_return(parsed, body as int, k),
        decreases end - j,
    {
        if parsed.tree.is_kind(j, "return_statement") && !parsed.tree.has_conditional_ancestor(
            j,
            body,
        ) {
            assert(is_plain_return(parsed, body as int, j as int));
            return true;
        }
        j += 1;
    }
    false
}

fn block_has_return(parsed: &ParsedSource, body: usize, block: usize) -> (r: bool)
    requires
        parsed.wf(),
        body < parsed.tree.nodes.len(),
        block < parsed.tree.nodes.len(),
    ensures
        r == returns_in(parsed, body as int, block as int),
{
    let end = parsed.tree.subtree_end(body);
    let from = parsed.tree.nodes[block].start_byte;
    let to = parsed.tree.nodes[block].end_byte;
    let mut j: usize = body;
    while j < end
        invariant
            parsed.wf(),
            body <= j <= end,
            end == parsed.tree.nodes[body as int].subtree_end,
            end <= parsed.tree.nodes.len(),
            block < parsed.tree.nodes.len(),
            from == parsed.tree.nodes[block as int].start_byte,
            to == parsed.tree.nodes[block as int].end_byte,
            forall|k: int|
                body <= k < j ==> !is_return_within(parsed, body as int, block as int, k),
        decreases end - j,
    {
        if parsed.tree.is_kind(j, "return_statement") && parsed.tree.nodes[j].start_byte >= from
            && parsed.tree.nodes[j].end_byte <= to {
            assert(is_return_within(parsed, body as int, block as int, j as int));
            return true;
        }
        j += 1;
    }
    false
}

fn owner_returns(parsed: &ParsedSource, body: usize, owner: usize) -> (r: Option<bool>)
    requires
        parsed.wf(),
        body < parsed.tree.nodes.len(),
        owner < parsed.tree.nodes.len(),
    ensures
        r == (match block_of(parsed, owner as int) {
            Some(b) => Some(returns_in(parsed, body as int, b as int)),
            None => None,
        }),
{
    match parsed.tree.child_by_kind(owner, "compound_statement") {
        Some(b) => Some(block_has_return(parsed, body, b)),
        None => None,
    }
}

fn if_is_covered(parsed: &ParsedSource, body: usize, i: usize) -> (r: bool)
    requires
        parsed.wf(),
        body < parsed.tree.nodes.len(),
        i < parsed.tree.nodes.len(),
    ensures
        r == if_covered(parsed, body as int, i as int),
{
    let kids = parsed.tree.named_children_of(i);
    let mut has_else = false;
    let mut else_returns = false;
    let mut broken = false;
    let mut k: usize = 0;
    while k < kids.len()
        invariant
            parsed.wf(),
            body < parsed.tree.nodes.len(),
            k <= kids.len(),
            kids@ == parsed.tree.named_children(i as int),
            forall|m: int| 0 <= m < kids@.len() ==> #[trigger] kids@[m] < parsed.tree.nodes.len(),
            branches(parsed, body as int, kids@, k as int) == (Branches {
                has_else,
                else_returns,
                broken,
            }),
        decreases kids.len() - k,
    {
        let c = kids[k];
        if parsed.tree.is_kind(c, "else_clause") {
            has_else = true;
            match owner_returns(parsed, body, c) {
                Some(found) => {
                    else_returns = found;
                },
                None => {},
            }
        } else if parsed.tree.is_kind(c, "else_if_clause") {
            match owner_returns(parsed, body, c) {
                Some(found) => {
                    if !found {
                        broken = true;
                    }
                },
                None => {},
            }
        }
        k += 1;
    }
    let own = match owner_returns(parsed, body, i) {
        Some(found) => found,
        None => false,
    };
    !broken && has_else && else_returns && own
}

fn body_branches_return(parsed: &ParsedSource, body: usize) -> (r: bool)
    requires
        parsed.wf(),
        body < parsed.tree.nodes.len(),
    ensures
        r == all_branches_return(parsed, body as int),
{
    let end = parsed.tree.subtree_end(body);
    let mut seen = false;
    let mut j: usize = body;
    while j < end
        invariant
            parsed.wf(),
            body <= j <= end,
            end == parsed.tree.nodes[body as int].subtree_end,
            end <= parsed.tree.nodes.len(),
            seen == (exists|k: int| body <= k < j && #[trigger] is_if(parsed, body as int, k)),
            forall|k: int|
                body <= k < j && #[trigger] is_if(parsed, body as int, k) ==> if_covered(
                    parsed,
                    body as int,
                    k,
                ),
        decreases end - j,
    {
        if parsed.tree.is_kind(j, "if_statement") {
            assert(is_if(parsed, body as int, j as int));
            if !if_is_covered(parsed, body, j) {
                return false;
            }
            seen = true;
        }
        j += 1;
    }
    proof {
        if seen {
            let k = choose|k: int| body <= k < j && #[trigger] is_if(parsed, body as int, k);
            assert(is_if(parsed, body as int, k));
        }
    }
    seen
}

/// The rule `strict_typing/missing_return`.
#[derive(Clone, Copy, Debug)]
pub struct MissingReturnRule;

impl MissingReturnRule {
    pub fn new() -> Self {
        MissingReturnRule
    }
}

impl NodeCheck for MissingReturnRule {
    open spec fn finding(&self, parsed: &ParsedSource, context: &ProjectContext, j: int) -> Seq<
        Diag,
    > {
        missing_return_at(parsed, j)
    }

    fn inspect(&self, parsed: &ParsedSource, context: &ProjectContext, j: usize) -> (r: Option<
        Diagnostic,
    >) {
        if !parsed.tree.is_kind(j, "function_definition") {
            return None;
        }
        let body = match parsed.tree.child_by_kind(j, "compound_statement") {
            Some(body) => body,
            None => {
                return None;
            },
        };
        if !body_has_return(parsed, body) || body_has_plain_return(parsed, body)
            || body_branches_return(parsed, body) {
            return None;
        }
        let name_node = match parsed.tree.child_by_field(j, "name") {
            Some(n) => n,
            None => j,
        };
        let name = node_text(parsed, name_node);
        let start = parsed.tree.nodes[name_node].start;
        let mut message: Vec<u8> = Vec::new();
        push_all(&mut message, "function ".as_bytes());
        push_all(&mut message, name);
        push_all(&mut message, " is missing a return on some paths at ".as_bytes());
        push_decimal(&mut message, start.row as u128 + 1);
        push_all(&mut message, ":".as_bytes());
        push_decimal(&mut message, start.column as u128 + 1);
        assert(message@ =~= missing_return_message(name@, start.row, start.column));
        Some(diagnostic_for_node(parsed, name_node, Severity::Error, message))
    }
}

impl DiagnosticRule for MissingReturnRule {
    open spec fn rule_name(&self) -> Seq<u8> {
        "strict_typing/missing_return".spec_bytes()
    }

    open spec fn findings(&self, parsed: &ParsedSource, context: &ProjectContext) -> Seq<Diag> {
        node_findings(self, parsed, context)
    }

    open spec fn edits(&self, parsed: &ParsedSource, context: &ProjectContext) -> Seq<Edit> {
        Seq::empty()
    }

    fn name(&self) -> (r: &'static str) {
        "strict_typing/missing_return"
    }

    fn run(&self, parsed: &ParsedSource, context: &ProjectContext) -> (r: Vec<Diagnostic>) {
        check_nodes(self, parsed, context)
    }

    fn fix(&self, parsed: &ParsedSource, context: &ProjectContext) -> (r: Vec<TextEdit>) {
        let out: Vec<TextEdit> = Vec::new();
        assert(edits_of(out@) =~= Seq::empty());
        out
    }
}

} // verus!
