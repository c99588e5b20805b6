//! Flags array literals that are handed to a function which changes its
//! argument in place, and moves each such literal into a variable.

use vstd::prelude::*;
use vstd::slice::slice_subrange;
use vstd::string::StringSliceAdditionalSpecFns;
use crate::analyzer::diagnostic::{diags, lemma_diags_push, Diag, Diagnostic, Severity};
use crate::analyzer::fix::{edits_of, lemma_edits_push, Edit, TextEdit};
use crate::analyzer::parser::ParsedSource;
use crate::analyzer::project::ProjectContext;
use crate::analyzer::rules::helpers::{
    diagnostic_at, diagnostic_for_node, enclosing_expression_statement, enclosing_statement,
    node_text, node_text_of, span_at,
};
use crate::analyzer::rules::strict_typing::strict_types::{newline_bytes, newline_of};
use crate::analyzer::rules::{sweep_findings, sweep_nodes, DiagnosticRule, NodeSweep};
use crate::analyzer::syntax::{gather, lemma_gather_step};
use crate::analyzer::text::{bytes_eq, decimal, push_all, push_decimal};

verus! {

/// Whether `name` is a function that changes its argument in place.
pub open spec fn is_mutating(name: Seq<u8>) -> bool {
    ||| name == "array_pop".spec_bytes()
    ||| name == "array_shift".spec_bytes()
    ||| name == "array_push".spec_bytes()
    ||| name == "sort".spec_bytes()
    ||| name == "rsort".spec_bytes()
    ||| name == "asort".spec_bytes()
    ||| name == "ksort".spec_bytes()
}

/// The node that names the function called at node `j`, if that function
/// changes its argument in place.
pub open spec fn mutating_callee(parsed: &ParsedSource, j: int) -> Option<usize> {
    if 0 <= j < parsed.tree.nodes.len() && parsed.tree.kind_of(j)
        == "function_call_expression".spec_bytes() {
        match parsed.tree.first_of_kind(parsed.tree.named_children(j), "name".spec_bytes()) {
            Some(n) => if is_mutating(node_text_of(parsed, n as int)) {
                Some(n)
            } else {
                None
            },
            None => None,
        }
    } else {
        None
    }
}

/// The array literal of the argument at node `a`, as a list of none or one.
pub open spec fn literal_of(parsed: &ParsedSource, a: int) -> Seq<usize> {
    match parsed.tree.first_of_kind(
        parsed.tree.named_children(a),
        "array_creation_expression".spec_bytes(),
    ) {
        Some(l) => seq![l],
        None => Seq::empty(),
    }
}

pub open spec fn literal_gatherer(parsed: &ParsedSource, arguments: Seq<usize>) -> spec_fn(
    int,
) -> Seq<usize> {
    |k: int| literal_of(parsed, arguments[k] as int)
}

/// The array literals among the arguments of the call at node `j`, in the
/// order of the arguments; none unless the call is of a function that
/// changes its argument in place.
pub open spec fn literals_at(parsed: &ParsedSource, j: int) -> Seq<usize> {
    match mutating_callee(parsed, j) {
        Some(n) => match parsed.tree.first_of_kind(
            parsed.tree.named_children(j),
            "arguments".spec_bytes(),
        ) {
            Some(a) => {
                let arguments = parsed.tree.named_children(a as int);
                gather(literal_gatherer(parsed, arguments), 0, arguments.len() as int)
            },
            None => Seq::empty(),
        },
        None => Seq::empty(),
    }
}

/// The message for a literal handed to the function `name`.
pub open spec fn mutating_message(name: Seq<u8>) -> Seq<u8> {
    name + " modifies its argument in place; avoid passing literals".spec_bytes()
}

/// What the rule reports for node `j`: a warning at each array literal
/// among the arguments of a call that changes its argument in place.
pub open spec fn mutating_literals_at(parsed: &ParsedSource, j: int) -> Seq<Diag> {
    match mutating_callee(parsed, j) {
        Some(n) => Seq::new(
            literals_at(parsed, j).len(),
            |k: int|
                diagnostic_at(
                    parsed.path@,
                    parsed.source@,
                    span_at(parsed, literals_at(parsed, j)[k] as int),
                    Severity::Warning,
                    mutating_message(node_text_of(parsed, n as int)),
                ),
        ),
        None => Seq::empty(),
    }
}

/// Where a flagged literal stands: its own byte range and that of the
/// statement around it.
#[derive(Clone, Copy, Debug)]
pub struct LiteralUse {
    pub statement_start: usize,
    pub statement_end: usize,
    pub literal_start: usize,
    pub literal_end: usize,
}

/// The record for the literal at node `literal` in the statement at node
/// `statement`.
pub open spec fn use_of(parsed: &ParsedSource, statement: int, literal: int) -> LiteralUse {
    LiteralUse {
        statement_start: parsed.tree.nodes[statement].start_byte,
        statement_end: parsed.tree.nodes[statement].end_byte,
        literal_start: parsed.tree.nodes[literal].start_byte,
        literal_end: parsed.tree.nodes[literal].end_byte,
    }
}

/// The records for the literals flagged at node `j`.
pub open spec fn uses_at(parsed: &ParsedSource, j: int) -> Seq<LiteralUse> {
    Seq::new(
        literals_at(parsed, j).len(),
        |k: int| use_of(parsed, enclosing_statement(parsed, j), literals_at(parsed, j)[k] as int),
    )
}

pub open spec fn use_gatherer(parsed: &ParsedSource) -> spec_fn(int) -> Seq<LiteralUse> {
    |j: int| uses_at(parsed, j)
}

/// The records for all flagged literals of the file, call by call in
/// document order.
pub open spec fn all_uses(parsed: &ParsedSource) -> Seq<LiteralUse> {
    gather(use_gatherer(parsed), 0, parsed.tree.nodes.len() as int)
}

/// The order in which literals are replaced: by the start of their
/// statement, then by their own start. `a` may stay ahead of `b` when this
/// holds.
pub open spec fn replaced_before(a: LiteralUse, b: LiteralUse) -> bool {
    a.statement_start < b.statement_start || (a.statement_start == b.statement_start
        && a.literal_start <= b.literal_start)
}

/// `sorted` with `item` placed behind every record that need not come after
/// it.
pub open spec fn insert_use(sorted: Seq<LiteralUse>, item: LiteralUse) -> Seq<LiteralUse>
    decreases sorted.len(),
{
    if sorted.len() == 0 {
        seq![item]
    } else if replaced_before(sorted.last(), item) {
        sorted.push(item)
    } else {
        insert_use(sorted.drop_last(), item).push(sorted.last())
    }
}

/// `uses` in the order of replacement. Records that compare equal keep the
/// order in which they were given.
pub open spec fn sort_uses(uses: Seq<LiteralUse>) -> Seq<LiteralUse>
    decreases uses.len(),
{
    if uses.len() == 0 {
        Seq::empty()
    } else {
        insert_use(sort_uses(uses.drop_last()), uses.last())
    }
}

/// Where the run of records of the statement that starts at `key` ends,
/// looking from index `from` on.
pub open spec fn run_end(sorted: Seq<LiteralUse>, key: usize, from: int) -> int
    decreases sorted.len() - from,
{
    if from < 0 || from >= sorted.len() || sorted[from].statement_start != key {
        from
    } else {
        run_end(sorted, key, from + 1)
    }
}

/// The end of the statement that starts at `key`: that of the first record
/// from index `from` on with this start.
pub open spec fn statement_end_of(uses: Seq<LiteralUse>, key: usize, from: int) -> usize
    decreases uses.len() - from,
{
    if from < 0 || from >= uses.len() {
        key
    } else if uses[from].statement_start == key {
        uses[from].statement_end
    } else {
        statement_end_of(uses, key, from + 1)
    }
}

/// The variable that takes the place of the literal with the number `n`.
pub open spec fn placeholder(n: nat) -> Seq<u8> {
    "$_php_checker_literal_".spec_bytes() + decimal(n)
}

/// The text of `source` from `from` up to `to`; nothing where that is no
/// range of the source.
pub open spec fn between(source: Seq<u8>, from: int, to: int) -> Seq<u8> {
    if 0 <= from <= to <= source.len() {
        source.subrange(from, to)
    } else {
        Seq::empty()
    }
}

/// The assignment that gives the literal of record `item` the name with the
/// number `n`.
pub open spec fn assignment(source: Seq<u8>, newline: Seq<u8>, item: LiteralUse, n: nat) -> Seq<
    u8,
> {
    placeholder(n) + " = ".spec_bytes() + between(
        source,
        item.literal_start as int,
        item.literal_end as int,
    ) + ";".spec_bytes() + newline
}

/// The assignments for the records from `from` up to `to`, one per line.
/// The literal at index `k` gets the number `k + 1`.
pub open spec fn assignments(
    source: Seq<u8>,
    newline: Seq<u8>,
    sorted: Seq<LiteralUse>,
    from: int,
    to: int,
) -> Seq<u8>
    decreases to - from,
{
    if from >= to {
        Seq::empty()
    } else {
        assignment(source, newline, sorted[from], (from + 1) as nat) + assignments(
            source,
            newline,
            sorted,
            from + 1,
            to,
        )
    }
}

/// The statement from `cursor` up to `end`, with the literals of the
/// records from `from` up to `to` replaced by their variables.
pub open spec fn rewritten(
    source: Seq<u8>,
    sorted: Seq<LiteralUse>,
    cursor: int,
    from: int,
    to: int,
    end: int,
) -> Seq<u8>
    decreases to - from,
{
    if from >= to {
        between(source, cursor, end)
    } else {
        between(source, cursor, sorted[from].literal_start as int) + placeholder(
            (from + 1) as nat,
        ) + rewritten(source, sorted, sorted[from].literal_end as int, from + 1, to, end)
    }
}

/// The edit for the statement whose records stand from `from` up to `to`:
/// the statement is replaced by the assignments and the rewritten statement.
pub open spec fn statement_edit(
    source: Seq<u8>,
    uses: Seq<LiteralUse>,
    sorted: Seq<LiteralUse>,
    from: int,
    to: int,
) -> Seq<Edit> {
    let key = sorted[from].statement_start;
    let end = statement_end_of(uses, key, 0);
    if key <= end {
        seq![
            Edit {
                start: key,
                end,
                replacement: assignments(source, newline_of(source), sorted, from, to) + rewritten(
                    source,
                    sorted,
                    key as int,
                    from,
                    to,
                    end as int,
                ),
            },
        ]
    } else {
        Seq::empty()
    }
}

/// The edits for the statements whose records stand from index `from` on.
pub open spec fn edits_from(
    source: Seq<u8>,
    uses: Seq<LiteralUse>,
    sorted: Seq<LiteralUse>,
    from: int,
) -> Seq<Edit>
    decreases sorted.len() - from,
    via edits_from_terminates
{
    if from < 0 || from >= sorted.len() {
        Seq::empty()
    } else {
        let to = run_end(sorted, sorted[from].statement_start, from + 1);
        statement_edit(source, uses, sorted, from, to) + edits_from(source, uses, sorted, to)
    }
}

#[via_fn]
proof fn edits_from_terminates(
    source: Seq<u8>,
    uses: Seq<LiteralUse>,
    sorted: Seq<LiteralUse>,
    from: int,
) {
    if 0 <= from < sorted.len() {
        lemma_run_end_bounds(sorted, sorted[from].statement_start, from + 1);
    }
}

/// The edits of the rule: one for each statement that holds a flagged
/// literal, by the start of the statement.
pub open spec fn literal_edits(parsed: &ParsedSource) -> Seq<Edit> {
    edits_from(parsed.source@, all_uses(parsed), sort_uses(all_uses(parsed)), 0)
}

pub proof fn lemma_run_end_bounds(sorted: Seq<LiteralUse>, key: usize, from: int)
    requires
        0 <= from <= sorted.len(),
    ensures
        from <= run_end(sorted, key, from) <= sorted.len(),
    decreases sorted.len() - from,
{
    if from < sorted.len() && sorted[from].statement_start == key {
        lemma_run_end_bounds(sorted, key, from + 1);
    }
}

/// Where `insert_use` puts the new record: at `p`, when everything from `p`
/// on must come after it and the record before `p` need not.
pub proof fn lemma_insert_use_at(sorted: Seq<LiteralUse>, item: LiteralUse, p: int)
    requires
        0 <= p <= sorted.len(),
        forall|k: int| p <= k < sorted.len() ==> !replaced_before(sorted[k], item),
        p > 0 ==> replaced_before(sorted[p - 1], item),
    ensures
        insert_use(sorted, item) == sorted.insert(p, item),
    decreases sorted.len() - p,
{
    if sorted.len() == 0 {
        assert(sorted.insert(p, item) =~= seq![item]);
    } else if p == sorted.len() {
        assert(sorted.insert(p, item) =~= sorted.push(item));
    } else {
        let front = sorted.drop_last();
        lemma_insert_use_at(front, item, p);
        assert(front.insert(p, item).push(sorted.last()) =~= sorted.insert(p, item));
    }
}

fn is_mutating_name(name: &[u8]) -> (r: bool)
    ensures
        r == is_mutating(name@),
{
    bytes_eq(name, "array_pop".as_bytes()) || bytes_eq(name, "array_shift".as_bytes()) || bytes_eq(
        name,
        "array_push".as_bytes(),
    ) || bytes_eq(name, "sort".as_bytes()) || bytes_eq(name, "rsort".as_bytes()) || bytes_eq(
        name,
        "asort".as_bytes(),
    ) || bytes_eq(name, "ksort".as_bytes())
}

fn callee_of(parsed: &ParsedSource, j: usize) -> (r: Option<usize>)
    requires
        parsed.wf(),
        j < parsed.tree.nodes.len(),
    ensures
        r == mutating_callee(parsed, j as int),
        r.is_some() ==> r.unwrap() < parsed.tree.nodes.len(),
{
    if !parsed.tree.is_kind(j, "function_call_expression") {
        return None;
    }
    match parsed.tree.child_by_kind(j, "name") {
        Some(n) => if is_mutating_name(node_text(parsed, n)) {
            Some(n)
        } else {
            None
        },
        None => None,
    }
}

/// The array literals among the arguments of the call at node `j`.
#[verifier::loop_isolation(false)]
fn literals_of_call(parsed: &ParsedSource, j: usize) -> (r: Vec<usize>)
    requires
        parsed.wf(),
        j < parsed.tree.nodes.len(),
    ensures
        r@ == literals_at(parsed, j as int),
        forall|k: int| 0 <= k < r@.len() ==> #[trigger] r@[k] < parsed.tree.nodes.len(),
{
    let mut out: Vec<usize> = Vec::new();
    if callee_of(parsed, j).is_none() {
        return out;
    }
    let list = match parsed.tree.child_by_kind(j, "arguments") {
        Some(a) => a,
        None => {
            return out;
        },
    };
    let arguments = parsed.tree.named_children_of(list);
    let ghost f = literal_gatherer(parsed, arguments@);
    let n = arguments.len();
    let mut k: usize = 0;
    proof {
        assert(out@ + gather(f, 0, n as int) =~= gather(f, 0, n as int));
    }
    while k < n
        invariant
            k <= n,
            gather(f, 0, n as int) == out@ + gather(f, k as int, n as int),
            forall|i: int| 0 <= i < out@.len() ==> #[trigger] out@[i] < parsed.tree.nodes.len(),
        decreases n - k,
    {
        proof {
            lemma_gather_step(f, out@, k as int, n as int);
        }
        let ghost before = out@;
        match parsed.tree.child_by_kind(arguments[k], "array_creation_expression") {
            Some(l) => {
                out.push(l);
                assert(out@ =~= before + f(k as int));
            },
            None => {
                assert(before + f(k as int) =~= before);
            },
        }
        k += 1;
    }
    proof {
        assert(out@ + gather(f, n as int, n as int) =~= out@);
    }
    out
}

/// The records of all flagged literals of the file.
#[verifier::loop_isolation(false)]
fn collect_uses(parsed: &ParsedSource) -> (r: Vec<LiteralUse>)
    requires
        parsed.wf(),
    ensures
        r@ == all_uses(parsed),
{
    let ghost f = use_gatherer(parsed);
    let n = parsed.tree.nodes.len();
    let mut out: Vec<LiteralUse> = Vec::new();
    let mut j: usize = 0;
    proof {
        assert(out@ + gather(f, 0, n as int) =~= gather(f, 0, n as int));
    }
    while j < n
        invariant
            j <= n,
            gather(f, 0, n as int) == out@ + gather(f, j as int, n as int),
        decreases n - j,
    {
        proof {
            lemma_gather_step(f, out@, j as int, n as int);
        }
        let ghost before = out@;
        let literals = literals_of_call(parsed, j);
        if literals.len() > 0 {
            let statement = enclosing_expression_statement(parsed, j);
            let mut k: usize = 0;
            while k < literals.len()
                invariant
                    k <= literals.len(),
                    out@ == before + f(j as int).subrange(0, k as int),
                decreases literals.len() - k,
            {
                let item = LiteralUse {
                    statement_start: parsed.tree.nodes[statement].start_byte,
                    statement_end: parsed.tree.nodes[statement].end_byte,
                    literal_start: parsed.tree.nodes[literals[k]].start_byte,
                    literal_end: parsed.tree.nodes[literals[k]].end_byte,
                };
                out.push(item);
                assert(out@ =~= before + f(j as int).subrange(0, k + 1));
                k += 1;
            }
            assert(f(j as int).subrange(0, k as int) =~= f(j as int));
        } else {
            assert(before + f(j as int) =~= before);
        }
        j += 1;
    }
    proof {
        assert(out@ + gather(f, n as int, n as int) =~= out@);
    }
    out
}

fn use_replaced_before(a: &LiteralUse, b: &LiteralUse) -> (r: bool)
    ensures
        r == replaced_before(*a, *b),
{
    a.statement_start < b.statement_start || (a.statement_start == b.statement_start
        && a.literal_start <= b.literal_start)
}

/// The records in the order of replacement.
fn order_uses(uses: &Vec<LiteralUse>) -> (sorted: Vec<LiteralUse>)
    ensures
        sorted@ == sort_uses(uses@),
        sorted@.len() == uses@.len(),
{
    let mut sorted: Vec<LiteralUse> = Vec::new();
    let mut n: usize = 0;
    proof {
        assert(uses@.subrange(0, 0) =~= Seq::empty());
    }
    while n < uses.len()
        invariant
            n <= uses.len(),
            sorted@.len() == n,
            sorted@ == sort_uses(uses@.subrange(0, n as int)),
        decreases uses.len() - n,
    {
        let ghost before = sorted@;
        let item = uses[n];
        let mut p: usize = sorted.len();
        while p > 0 && !use_replaced_before(&sorted[p - 1], &item)
            invariant
                p <= sorted@.len(),
                before == sorted@,
                forall|k: int| p <= k < sorted@.len() ==> !replaced_before(before[k], item),
            decreases p,
        {
            p -= 1;
        }
        proof {
            lemma_insert_use_at(before, item, p as int);
        }
        sorted.insert(p, item);
        proof {
            let next = uses@.subrange(0, n + 1);
            assert(next.drop_last() =~= uses@.subrange(0, n as int));
            assert(next.last() == item);
        }
        n += 1;
    }
    proof {
        assert(uses@.subrange(0, uses@.len() as int) =~= uses@);
    }
    sorted
}

fn push_between(buf: &mut Vec<u8>, source: &[u8], from: usize, to: usize)
    ensures
        final(buf)@ == old(buf)@ + between(source@, from as int, to as int),
{
    if from <= to && to <= source.len() {
        push_all(buf, slice_subrange(source, from, to));
    } else {
        assert(buf@ + Seq::<u8>::empty() =~= buf@);
    }
}

fn push_placeholder(buf: &mut Vec<u8>, n: usize)
    ensures
        final(buf)@ == old(buf)@ + placeholder(n as nat),
{
    push_all(buf, "$_php_checker_literal_".as_bytes());
    push_decimal(buf, n as u128);
    assert(buf@ =~= old(buf)@ + placeholder(n as nat));
}

fn end_of_statement(uses: &Vec<LiteralUse>, key: usize) -> (r: usize)
    ensures
        r == statement_end_of(uses@, key, 0),
{
    let mut i: usize = 0;
    while i < uses.len()
        invariant
            i <= uses.len(),
            statement_end_of(uses@, key, 0) == statement_end_of(uses@, key, i as int),
        decreases uses.len() - i,
    {
        if uses[i].statement_start == key {
            return uses[i].statement_end;
        }
        i += 1;
    }
    key
}

/// The replacement for the statement whose records stand from `from` up to
/// `to`.
#[verifier::loop_isolation(false)]
fn replacement_for(
    source: &[u8],
    newline: &[u8],
    sorted: &Vec<LiteralUse>,
    from: usize,
    to: usize,
    end: usize,
) -> (r: Vec<u8>)
    requires
        from < to <= sorted@.len(),
    ensures
        r@ == assignments(source@, newline@, sorted@, from as int, to as int) + rewritten(
            source@,
            sorted@,
            sorted@[from as int].statement_start as int,
            from as int,
            to as int,
            end as int,
        ),
{
    let ghost whole_head = assignments(source@, newline@, sorted@, from as int, to as int);
    let ghost whole_body = rewritten(
        source@,
        sorted@,
        sorted@[from as int].statement_start as int,
        from as int,
        to as int,
        end as int,
    );
    let mut head: Vec<u8> = Vec::new();
    let mut body: Vec<u8> = Vec::new();
    let mut cursor: usize = sorted[from].statement_start;
    let mut k: usize = from;
    proof {
        assert(head@ + whole_head =~= whole_head);
        assert(body@ + whole_body =~= whole_body);
    }
    while k < to
        invariant
            from <= k <= to,
            whole_head == head@ + assignments(source@, newline@, sorted@, k as int, to as int),
            whole_body == body@ + rewritten(
                source@,
                sorted@,
                cursor as int,
                k as int,
                to as int,
                end as int,
            ),
        decreases to - k,
    {
        let ghost head_before = head@;
        let ghost body_before = body@;
        let item = sorted[k];
        push_placeholder(&mut head, k + 1);
        push_all(&mut head, " = ".as_bytes());
        push_between(&mut head, source, item.literal_start, item.literal_end);
        push_all(&mut head, ";".as_bytes());
        push_all(&mut head, newline);
        push_between(&mut body, source, cursor, item.literal_start);
        push_placeholder(&mut body, k + 1);
        proof {
            let rest_head = assignments(source@, newline@, sorted@, k + 1, to as int);
            let rest_body = rewritten(
                source@,
                sorted@,
                item.literal_end as int,
                k + 1,
                to as int,
                end as int,
            );
            assert(head@ =~= head_before + assignment(source@, newline@, item, (k + 1) as nat));
            assert(head_before + (assignment(source@, newline@, item, (k + 1) as nat) + rest_head)
                =~= head@ + rest_head);
            assert(body_before + (between(source@, cursor as int, item.literal_start as int)
                + placeholder((k + 1) as nat) + rest_body) =~= body@ + rest_body);
        }
        cursor = item.literal_end;
        k += 1;
    }
    push_between(&mut body, source, cursor, end);
    push_all(&mut head, body.as_slice());
    assert(head@ =~= whole_head + whole_body);
    head
}

/// The rule `security/mutating_literal`.
#[derive(Clone, Copy, Debug)]
pub struct MutatingLiteralRule;

impl MutatingLiteralRule {
    pub fn new() -> Self {
        MutatingLiteralRule
    }
}

impl NodeSweep for MutatingLiteralRule {
    open spec fn sweep(&self, parsed: &ParsedSource, context: &ProjectContext, j: int) -> Seq<
        Diag,
    > {
        mutating_literals_at(parsed, j)
    }

    #[verifier::loop_isolation(false)]
    fn inspect_all(&self, parsed: &ParsedSource, context: &ProjectContext, j: usize) -> (r: Vec<
        Diagnostic,
    >) {
        let mut out: Vec<Diagnostic> = Vec::new();
        let callee = match callee_of(parsed, j) {
            Some(n) => n,
            None => {
                assert(diags(out@) =~= Seq::empty());
                return out;
            },
        };
        let name = node_text(parsed, callee);
        let literals = literals_of_call(parsed, j);
        let ghost whole = mutating_literals_at(parsed, j as int);
        let mut k: usize = 0;
        proof {
            assert(diags(out@) =~= whole.subrange(0, 0));
        }
        while k < literals.len()
            invariant
                k <= literals.len(),
                diags(out@) == whole.subrange(0, k as int),
            decreases literals.len() - k,
        {
            let mut message: Vec<u8> = Vec::new();
            push_all(&mut message, name);
            push_all(
                &mut message,
                " modifies its argument in place; avoid passing literals".as_bytes(),
            );
            assert(message@ =~= mutating_message(name@));
            let d = diagnostic_for_node(parsed, literals[k], Severity::Warning, message);
            proof {
                lemma_diags_push(out@, d);
                assert(whole.subrange(0, k as int).push(d@) =~= whole.subrange(0, k + 1));
            }
            out.push(d);
            k += 1;
        }
        assert(whole.subrange(0, k as int) =~= whole);
        out
    }
}

impl DiagnosticRule for MutatingLiteralRule {
    open spec fn rule_name(&self) -> Seq<u8> {
        "security/mutating_literal".spec_bytes()
    }

    open spec fn findings(&self, parsed: &ParsedSource, context: &ProjectContext) -> Seq<Diag> {
        sweep_findings(self, parsed, context)
    }

    open spec fn edits(&self, parsed: &ParsedSource, context: &ProjectContext) -> Seq<Edit> {
        literal_edits(parsed)
    }

    fn name(&self) -> (r: &'static str) {
        "security/mutating_literal"
    }

    fn run(&self, parsed: &ParsedSource, context: &ProjectContext) -> (r: Vec<Diagnostic>) {
        sweep_nodes(self, parsed, context)
    }

    #[verifier::loop_isolation(false)]
    fn fix(&self, parsed: &ParsedSource, context: &ProjectContext) -> (r: Vec<TextEdit>) {
        let uses = collect_uses(parsed);
        let sorted = order_uses(&uses);
        let newline = newline_bytes(parsed.source.as_slice());
        let ghost source = parsed.source@;
        let ghost whole = literal_edits(parsed);
        let mut out: Vec<TextEdit> = Vec::new();
        let mut from: usize = 0;
        proof {
            assert(edits_of(out@) + whole =~= whole);
        }
        while from < sorted.len()
            invariant
                from <= sorted.len(),
                whole == edits_of(out@) + edits_from(source, uses@, sorted@, from as int),
            decreases sorted.len() - from,
        {
            let key = sorted[from].statement_start;
            let mut to: usize = from + 1;
            while to < sorted.len() && sorted[to].statement_start == key
                invariant
                    from < to <= sorted.len(),
                    run_end(sorted@, key, from + 1) == run_end(sorted@, key, to as int),
                decreases sorted.len() - to,
            {
                to += 1;
            }
            let end = end_of_statement(&uses, key);
            let ghost before = out@;
            let ghost step = statement_edit(source, uses@, sorted@, from as int, to as int);
            if key <= end {
                let replacement = replacement_for(
                    parsed.source.as_slice(),
                    newline,
                    &sorted,
                    from,
                    to,
                    end,
                );
                let e = TextEdit { start: key, end, replacement };
                proof {
                    lemma_edits_push(before, e);
                }
                out.push(e);
                assert(edits_of(out@) =~= edits_of(before) + step);
            } else {
                assert(edits_of(before) + step =~= edits_of(before));
            }
            proof {
                let rest = edits_from(source, uses@, sorted@, to as int);
                assert(edits_of(before) + (step + rest) =~= (edits_of(before) + step) + rest);
            }
            from = to;
        }
        out
    }
}

} // verus!
