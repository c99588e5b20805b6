//! Reports variables that are read before anything in reach defines them.

use vstd::prelude::*;
use vstd::string::StringSliceAdditionalSpecFns;
use crate::analyzer::diagnostic::{diags, lemma_diags_push, Diag, Diagnostic, Severity};
use crate::analyzer::fix::{edits_of, Edit, TextEdit};
use crate::analyzer::parser::ParsedSource;
use crate::analyzer::project::ProjectContext;
use crate::analyzer::rules::helpers::{
    diagnostic_at, diagnostic_for_node, span_at, variable_name_of, variable_name_text,
};
use crate::analyzer::rules::DiagnosticRule;
use crate::analyzer::syntax::node_ok;
use crate::analyzer::text::{
    bytes_eq, contains_row, decimal, lemma_rows_push, push_all, push_decimal, rows, to_vec,
};

verus! {

/// One scope: the names defined in it, and the index at which it ends.
pub ghost struct Frame {
    pub names: Seq<Seq<u8>>,
    pub end: int,
}

/// One scope of the walk.
pub struct Scope {
    pub names: Vec<Vec<u8>>,
    pub end: usize,
}

impl View for Scope {
    type V = Frame;

    open spec fn view(&self) -> Frame {
        Frame { names: rows(self.names@), end: self.end as int }
    }
}

/// The values of a stack of scopes.
pub open spec fn frames(stack: Seq<Scope>) -> Seq<Frame> {
    Seq::new(stack.len(), |i: int| stack[i]@)
}

/// Names that are defined everywhere.
pub open spec fn is_superglobal(name: Seq<u8>) -> bool {
    ||| name == "_GET".spec_bytes()
    ||| name == "_POST".spec_bytes()
    ||| name == "_REQUEST".spec_bytes()
    ||| name == "_COOKIE".spec_bytes()
    ||| name == "_FILES".spec_bytes()
    ||| name == "_SERVER".spec_bytes()
    ||| name == "_ENV".spec_bytes()
    ||| name == "argc".spec_bytes()
    ||| name == "argv".spec_bytes()
}

/// The kind of the parent of node `j`, if it has one.
pub open spec fn parent_kind(parsed: &ParsedSource, j: int) -> Option<Seq<u8>> {
    match parsed.tree.nodes[j].parent {
        Some(p) => Some(parsed.tree.kind_of(p as int)),
        None => None,
    }
}

/// Whether the variable at node `j` stands where a variable is defined: on
/// the left of an assignment, as a parameter or a property, as the binder of
/// a catch clause, or as a loop variable of a foreach, also as key or value
/// of a pair under one.
pub open spec fn defines(parsed: &ParsedSource, j: int) -> bool {
    match parsed.tree.nodes[j].parent {
        Some(p) => {
            let kind = parsed.tree.kind_of(p as int);
            if kind == "assignment_expression".spec_bytes() {
                parsed.tree.named_children(p as int).len() > 0 && parsed.tree.named_children(
                    p as int,
                )[0] == j
            } else if kind == "pair".spec_bytes() {
                parent_kind(parsed, p as int) == Some("foreach_statement".spec_bytes())
            } else {
                ||| kind == "simple_parameter".spec_bytes()
                ||| kind == "variadic_parameter".spec_bytes()
                ||| kind == "property_element".spec_bytes()
                ||| kind == "catch_clause".spec_bytes()
                ||| kind == "foreach_statement".spec_bytes()
            }
        },
        None => false,
    }
}

/// `stack` without the scopes on top of it that end at or before `j`. The
/// outermost scope always stays.
pub open spec fn live(stack: Seq<Frame>, j: int) -> Seq<Frame>
    decreases stack.len(),
{
    if stack.len() > 1 && stack.last().end <= j {
        live(stack.drop_last(), j)
    } else {
        stack
    }
}

/// `stack` with `name` defined in its innermost scope.
pub open spec fn define(stack: Seq<Frame>, name: Seq<u8>) -> Seq<Frame> {
    if stack.len() == 0 {
        stack
    } else {
        stack.drop_last().push(
            Frame { names: stack.last().names.push(name), end: stack.last().end },
        )
    }
}

/// Whether some scope of `stack` defines `name`.
pub open spec fn is_defined(stack: Seq<Frame>, name: Seq<u8>) -> bool {
    exists|k: int| 0 <= k < stack.len() && (#[trigger] stack[k]).names.contains(name)
}

/// The message of a finding: the name and where it is read, counted from
/// one.
pub open spec fn undefined_message(name: Seq<u8>, row: usize, column: usize) -> Seq<u8> {
    "undefined variable $".spec_bytes() + name + " at ".spec_bytes() + decimal((row + 1) as nat)
        + ":".spec_bytes() + decimal((column + 1) as nat)
}

/// The finding for the variable at node `j`.
pub open spec fn undefined_at(parsed: &ParsedSource, j: int) -> Diag {
    diagnostic_at(
        parsed.path@,
        parsed.source@,
        span_at(parsed, j),
        Severity::Error,
        undefined_message(
            variable_name_of(parsed, j),
            parsed.tree.nodes[j].start.row,
            parsed.tree.nodes[j].start.column,
        ),
    )
}

/// The index behind the subtree of node `j`.
pub open spec fn behind(parsed: &ParsedSource, j: int) -> int {
    if j < parsed.tree.nodes[j].subtree_end <= parsed.tree.nodes.len() {
        parsed.tree.nodes[j].subtree_end as int
    } else {
        j + 1
    }
}

/// The findings from node `j` on, in document order, when `stack` holds the
/// scopes that are open in front of node `j`.
///
/// A function definition opens a scope that ends with it. A variable named
/// `this` is skipped. A superglobal, and a variable under a promoted
/// constructor parameter, is defined where it stands. A variable in a
/// defining position is defined in the innermost scope. Any other variable
/// is a use, and a finding when no open scope defines it.
pub open spec fn undefined_from(parsed: &ParsedSource, j: int, stack: Seq<Frame>) -> Seq<Diag>
    decreases parsed.tree.nodes.len() - j,
{
    if j < 0 || j >= parsed.tree.nodes.len() {
        Seq::empty()
    } else {
        let open = live(stack, j);
        let kind = parsed.tree.kind_of(j);
        let name = variable_name_of(parsed, j);
        if kind == "function_definition".spec_bytes() {
            undefined_from(
                parsed,
                j + 1,
                open.push(Frame { names: Seq::empty(), end: behind(parsed, j) }),
            )
        } else if kind == "variable_name".spec_bytes() && name.len() > 0 {
            if name == "this".spec_bytes() {
                undefined_from(parsed, behind(parsed, j), open)
            } else if is_superglobal(name) || parent_kind(parsed, j) == Some(
                "property_promotion_parameter".spec_bytes(),
            ) {
                undefined_from(parsed, behind(parsed, j), define(open, name))
            } else if defines(parsed, j) {
                undefined_from(parsed, j + 1, define(open, name))
            } else if !is_defined(open, name) {
                seq![undefined_at(parsed, j)] + undefined_from(parsed, j + 1, open)
            } else {
                undefined_from(parsed, j + 1, open)
            }
        } else {
            undefined_from(parsed, j + 1, open)
        }
    }
}

/// The findings of the rule in a file: everything undefined, seen from an
/// outermost scope that spans the file.
pub open spec fn undefined_variables(parsed: &ParsedSource) -> Seq<Diag> {
    undefined_from(
        parsed,
        0,
        seq![Frame { names: Seq::empty(), end: parsed.tree.nodes.len() as int }],
    )
}

fn is_superglobal_name(name: &[u8]) -> (r: bool)
    ensures
        r == is_superglobal(name@),
{
    bytes_eq(name, "_GET".as_bytes()) || bytes_eq(name, "_POST".as_bytes()) || bytes_eq(
        name,
        "_REQUEST".as_bytes(),
    ) || bytes_eq(name, "_COOKIE".as_bytes()) || bytes_eq(name, "_FILES".as_bytes()) || bytes_eq(
        name,
        "_SERVER".as_bytes(),
    ) || bytes_eq(name, "_ENV".as_bytes()) || bytes_eq(name, "argc".as_bytes()) || bytes_eq(
        name,
        "argv".as_bytes(),
    )
}

fn parent_is(parsed: &ParsedSource, j: usize, kind: &str) -> (r: bool)
    requires
        parsed.wf(),
        j < parsed.tree.nodes.len(),
    ensures
        r == (parent_kind(parsed, j as int) == Some(kind.spec_bytes())),
{
    match parsed.tree.parent(j) {
        Some(p) => parsed.tree.is_kind(p, kind),
        None => false,
    }
}

fn is_definition(parsed: &ParsedSource, j: usize) -> (r: bool)
    requires
        parsed.wf(),
        j < parsed.tree.nodes.len(),
    ensures
        r == defines(parsed, j as int),
{
    match parsed.tree.parent(j) {
        Some(p) => {
            if parsed.tree.is_kind(p, "assignment_expression") {
                let kids = parsed.tree.named_children_of(p);
                kids.len() > 0 && kids[0] == j
            } else if parsed.tree.is_kind(p, "pair") {
                parent_is(parsed, p, "foreach_statement")
            } else {
                parsed.tree.is_kind(p, "simple_parameter") || parsed.tree.is_kind(
                    p,
                    "variadic_parameter",
                ) || parsed.tree.is_kind(p, "property_element") || parsed.tree.is_kind(
                    p,
                    "catch_clause",
                ) || parsed.tree.is_kind(p, "foreach_statement")
            }
        },
        None => false,
    }
}

fn drop_ended(stack: &mut Vec<Scope>, j: usize)
    requires
        old(stack)@.len() > 0,
    ensures
        frames(final(stack)@) == live(frames(old(stack)@), j as int),
        final(stack)@.len() > 0,
{
    while stack.len() > 1 && stack[stack.len() - 1].end <= j
        invariant
            stack@.len() > 0,
            live(frames(old(stack)@), j as int) == live(frames(stack@), j as int),
        decreases stack@.len(),
    {
        let ghost before = stack@;
        stack.pop();
        proof {
            assert(frames(stack@) =~= frames(before).drop_last());
        }
    }
}

fn define_variable(stack: &mut Vec<Scope>, name: &[u8])
    requires
        old(stack)@.len() > 0,
    ensures
        frames(final(stack)@) == define(frames(old(stack)@), name@),
        final(stack)@.len() > 0,
{
    let ghost before = stack@;
    match stack.pop() {
        Some(top) => {
            let Scope { names, end } = top;
            let mut names = names;
            let owned = to_vec(name);
            proof {
                lemma_rows_push(names@, owned);
            }
            names.push(owned);
            stack.push(Scope { names, end });
            proof {
                assert(frames(stack@) =~= define(frames(before), name@));
            }
        },
        None => {},
    }
}

fn defined_in(stack: &Vec<Scope>, name: &[u8]) -> (r: bool)
    ensures
        r == is_defined(frames(stack@), name@),
{
    let mut k: usize = 0;
    while k < stack.len()
        invariant
            k <= stack.len(),
            forall|m: int| 0 <= m < k ==> !(#[trigger] frames(stack@)[m]).names.contains(name@),
        decreases stack.len() - k,
    {
        if contains_row(&stack[k].names, name) {
            assert(frames(stack@)[k as int].names.contains(name@));
            return true;
        }
        k += 1;
    }
    false
}

fn message_for(name: &[u8], row: usize, column: usize) -> (r: Vec<u8>)
    ensures
        r@ == undefined_message(name@, row, column),
{
    let mut out: Vec<u8> = Vec::new();
    push_all(&mut out, "undefined variable $".as_bytes());
    push_all(&mut out, name);
    push_all(&mut out, " at ".as_bytes());
    push_decimal(&mut out, row as u128 + 1);
    push_all(&mut out, ":".as_bytes());
    push_decimal(&mut out, column as u128 + 1);
    assert(out@ =~= undefined_message(name@, row, column));
    out
}

/// The rule `sanity/undefined_variable`.
#[derive(Clone, Copy, Debug)]
pub struct UndefinedVariableRule;

impl UndefinedVariableRule {
    pub fn new() -> Self {
        UndefinedVariableRule
    }

    /// Walks the file and reports every use of a variable that no open
    /// scope defines.
    pub fn check(parsed: &ParsedSource) -> (r: Vec<Diagnostic>)
        requires
            parsed.wf(),
        ensures
            diags(r@) == undefined_variables(parsed),
    {
        let n = parsed.tree.nodes.len();
        let mut out: Vec<Diagnostic> = Vec::new();
        let mut stack: Vec<Scope> = Vec::new();
        let names: Vec<Vec<u8>> = Vec::new();
        assert(rows(names@) =~= Seq::<Seq<u8>>::empty());
        stack.push(Scope { names, end: n });
        let mut j: usize = 0;
        proof {
            assert(frames(stack@) =~= seq![
                Frame { names: Seq::empty(), end: parsed.tree.nodes.len() as int },
            ]);
            assert(diags(out@) + undefined_from(parsed, 0, frames(stack@)) =~= undefined_variables(
                parsed,
            ));
        }
        while j < n
            invariant
                parsed.wf(),
                n == parsed.tree.nodes.len(),
                j <= n,
                stack@.len() > 0,
                undefined_variables(parsed) == diags(out@) + undefined_from(
                    parsed,
                    j as int,
                    frames(stack@),
                ),
            decreases n - j,
        {
            assert(node_ok(parsed.tree.nodes@, j as int));
            let ghost before = frames(stack@);
            drop_ended(&mut stack, j);
            let ghost open = frames(stack@);
            let end = parsed.tree.subtree_end(j);
            if parsed.tree.is_kind(j, "function_definition") {
                let names: Vec<Vec<u8>> = Vec::new();
                assert(rows(names@) =~= Seq::<Seq<u8>>::empty());
                stack.push(Scope { names, end });
                proof {
                    assert(frames(stack@) =~= open.push(
                        Frame { names: Seq::empty(), end: behind(parsed, j as int) },
                    ));
                }
                j += 1;
            } else if parsed.tree.is_kind(j, "variable_name") {
                let name = variable_name_text(parsed, j);
                if name.len() == 0 {
                    j += 1;
                } else if bytes_eq(name, "this".as_bytes()) {
                    j = end;
                } else if is_superglobal_name(name) || parent_is(
                    parsed,
                    j,
                    "property_promotion_parameter",
                ) {
                    define_variable(&mut stack, name);
                    j = end;
                } else if is_definition(parsed, j) {
                    define_variable(&mut stack, name);
                    j += 1;
                } else if !defined_in(&stack, name) {
                    let node = &parsed.tree.nodes[j];
                    let message = message_for(name, node.start.row, node.start.column);
                    let d = diagnostic_for_node(parsed, j, Severity::Error, message);
                    proof {
                        lemma_diags_push(out@, d);
                        let rest = undefined_from(parsed, j + 1, open);
                        assert(diags(out@) + (seq![undefined_at(parsed, j as int)] + rest)
                            =~= diags(out@).push(d@) + rest);
                    }
                    out.push(d);
                    j += 1;
                } else {
                    j += 1;
                }
            } else {
                j += 1;
            }
        }
        proof {
            assert(diags(out@) + undefined_from(parsed, n as int, frames(stack@)) =~= diags(out@));
        }
        out
    }
}

impl DiagnosticRule for UndefinedVariableRule {
    open spec fn rule_name(&self) -> Seq<u8> {
        "sanity/undefined_variable".spec_bytes()
    }

    open spec fn findings(&self, parsed: &ParsedSource, context: &ProjectContext) -> Seq<Diag> {
        undefined_variables(parsed)
    }

    open spec fn edits(&self, parsed: &ParsedSource, context: &ProjectContext) -> Seq<Edit> {
        Seq::empty()
    }

    fn name(&self) -> (r: &'static str) {
        "sanity/undefined_variable"
    }

    fn run(&self, parsed: &ParsedSource, context: &ProjectContext) -> (r: Vec<Diagnostic>) {
        UndefinedVariableRule::check(parsed)
    }

    fn fix(&self, parsed: &ParsedSource, context: &ProjectContext) -> (r: Vec<TextEdit>) {
        let out: Vec<TextEdit> = Vec::new();
        assert(edits_of(out@) =~= Seq::empty());
        out
    }
}

} // verus!
