//! Flags reads of an array key that the array literal last assigned to the
//! variable does not hold.

use vstd::prelude::*;
use vstd::string::StringSliceAdditionalSpecFns;
use crate::analyzer::diagnostic::{Diag, Diagnostic, Severity};
use crate::analyzer::fix::{edits_of, Edit, TextEdit};
use crate::analyzer::parser::ParsedSource;
use crate::analyzer::project::ProjectContext;
use crate::analyzer::rules::helpers::{
    diagnostic_at, diagnostic_for_node, node_text, node_text_of, span_at,
};
use crate::analyzer::rules::{check_nodes, node_findings, DiagnosticRule, NodeCheck};
use crate::analyzer::rules::control_flow::duplicate_switch_case::{
    strip_quote_marks, unquoted_end, unquoted_start,
};
use crate::analyzer::rules::helpers::{variable_name_of, variable_name_text};
use crate::analyzer::text::{
    bytes_eq, contains_row, decimal, lemma_rows_push, push_all, push_decimal, rows, to_vec,
};

verus! {

/// Whether a node of the kind `kind` is a string literal.
pub open spec fn is_string_kind(kind: Seq<u8>) -> bool {
    kind == "string".spec_bytes() || kind == "encapsed_string".spec_bytes()
}

/// The first string literal among `kids`, from index `from` on.
pub open spec fn first_string(parsed: &ParsedSource, kids: Seq<usize>, from: int) -> Option<usize>
    decreases kids.len() - from,
{
    if from < 0 || from >= kids.len() {
        None
    } else if is_string_kind(parsed.tree.kind_of(kids[from] as int)) {
        Some(kids[from])
    } else {
        first_string(parsed, kids, from + 1)
    }
}

/// The value of the string literal at node `l`: its text without the quotes
/// around it.
pub open spec fn string_value(parsed: &ParsedSource, l: int) -> Seq<u8> {
    unquoted_end(unquoted_start(node_text_of(parsed, l)))
}

/// The keys that the first `upto` of the children `kids` of an array
/// literal define: for each element, the value of its first string.
pub open spec fn element_keys(parsed: &ParsedSource, kids: Seq<usize>, upto: int) -> Seq<Seq<u8>>
    decreases upto,
{
    if upto <= 0 || upto > kids.len() {
        Seq::empty()
    } else {
        let rest = element_keys(parsed, kids, upto - 1);
        let c = kids[upto - 1] as int;
        if parsed.tree.kind_of(c) == "array_element_initializer".spec_bytes() {
            match first_string(parsed, parsed.tree.named_children(c), 0) {
                Some(l) => rest.push(string_value(parsed, l as int)),
                None => rest,
            }
        } else {
            rest
        }
    }
}

/// The keys that the array literal at node `a` defines.
pub open spec fn array_keys(parsed: &ParsedSource, a: int) -> Seq<Seq<u8>> {
    element_keys(parsed, parsed.tree.children(a), parsed.tree.children(a).len() as int)
}

/// What the assignment at node `e` says about the keys of the variable
/// `name`: nothing, if the node is no assignment that has that variable;
/// else the keys of the array literal that it has, or that the keys are
/// unknown if it has none.
pub open spec fn assigned_keys(parsed: &ParsedSource, name: Seq<u8>, e: int) -> Option<
    Option<Seq<Seq<u8>>>,
> {
    if 0 <= e < parsed.tree.nodes.len() && parsed.tree.kind_of(e)
        == "assignment_expression".spec_bytes() {
        match parsed.tree.first_of_kind(parsed.tree.named_children(e), "variable_name".spec_bytes()) {
            Some(v) => if variable_name_of(parsed, v as int) == name {
                match parsed.tree.first_of_kind(
                    parsed.tree.named_children(e),
                    "array_creation_expression".spec_bytes(),
                ) {
                    Some(a) => Some(Some(array_keys(parsed, a as int))),
                    None => Some(None),
                }
            } else {
                None
            },
            None => None,
        }
    } else {
        None
    }
}

/// The keys of the variable `name` in front of node `upto`: those of the
/// last assignment that has the variable, if that assigns an array literal.
pub open spec fn known_keys(parsed: &ParsedSource, name: Seq<u8>, upto: int) -> Option<
    Seq<Seq<u8>>,
>
    decreases upto,
{
    if upto <= 0 {
        None
    } else {
        match assigned_keys(parsed, name, upto - 1) {
            Some(keys) => keys,
            None => known_keys(parsed, name, upto - 1),
        }
    }
}

/// The message for the key `value` read at `row`, `column`.
pub open spec fn undefined_key_message(value: Seq<u8>, row: usize, column: usize) -> Seq<u8> {
    "undefined array key '".spec_bytes() + value + "' at ".spec_bytes() + decimal(
        (row + 1) as nat,
    ) + ":".spec_bytes() + decimal((column + 1) as nat)
}

/// What the rule reports for node `j`: an error at the key, if the node
/// reads, with a string literal as key, a variable whose keys are known
/// and do not hold that key.
pub open spec fn undefined_key_at(parsed: &ParsedSource, j: int) -> Seq<Diag> {
    if parsed.tree.kind_of(j) == "subscript_expression".spec_bytes() {
        match (
            parsed.tree.first_of_kind(parsed.tree.named_children(j), "variable_name".spec_bytes()),
            first_string(parsed, parsed.tree.named_children(j), 0),
        ) {
            (Some(v), Some(l)) => match known_keys(parsed, variable_name_of(parsed, v as int), j) {
                Some(keys) => if !keys.contains(string_value(parsed, l as int)) {
                    seq![
                        diagnostic_at(
                            parsed.path@,
                            parsed.source@,
                            span_at(parsed, l as int),
                            Severity::Error,
                            undefined_key_message(
                                string_value(parsed, l as int),
                                parsed.tree.nodes[l as int].start.row,
                                parsed.tree.nodes[l as int].start.column,
                            ),
                        ),
                    ]
                } else {
                    Seq::empty()
                },
                None => Seq::empty(),
            },
            _ => Seq::empty(),
        }
    } else {
        Seq::empty()
    }
}

#[verifier::loop_isolation(false)]
fn first_string_of(parsed: &ParsedSource, kids: &Vec<usize>) -> (r: Option<usize>)
    requires
        forall|m: int| 0 <= m < kids@.len() ==> #[trigger] kids@[m] < parsed.tree.nodes.len(),
    ensures
        r == first_string(parsed, kids@, 0),
        r.is_some() ==> r.unwrap() < parsed.tree.nodes.len(),
{
    let mut k: usize = 0;
    while k < kids.len()
        invariant
            k <= kids.len(),
            first_string(parsed, kids@, 0) == first_string(parsed, kids@, k as int),
        decreases kids.len() - k,
    {
        if parsed.tree.is_kind(kids[k], "string") || parsed.tree.is_kind(kids[k], "encapsed_string") {
            return Some(kids[k]);
        }
        k += 1;
    }
    None
}

/// The value of the string literal at node `l`.
pub fn literal_string_value<'a>(parsed: &'a ParsedSource, l: usize) -> (r: &'a [u8])
    requires
        parsed.wf(),
        l < parsed.tree.nodes.len(),
    ensures
        r@ == string_value(parsed, l as int),
{
    strip_quote_marks(node_text(parsed, l))
}

/// The keys that the array literal at node `a` defines.
#[verifier::loop_isolation(false)]
pub fn collect_array_keys(parsed: &ParsedSource, a: usize) -> (r: Vec<Vec<u8>>)
    requires
        parsed.wf(),
        a < parsed.tree.nodes.len(),
    ensures
        rows(r@) == array_keys(parsed, a as int),
{
    let kids = parsed.tree.children_of(a);
    let mut keys: Vec<Vec<u8>> = Vec::new();
    let mut k: usize = 0;
    proof {
        assert(rows(keys@) =~= element_keys(parsed, kids@, 0));
    }
    while k < kids.len()
        invariant
            k <= kids.len(),
            rows(keys@) == element_keys(parsed, kids@, k as int),
        decreases kids.len() - k,
    {
        let c = kids[k];
        if parsed.tree.is_kind(c, "array_element_initializer") {
            let inner = parsed.tree.named_children_of(c);
            match first_string_of(parsed, &inner) {
                Some(l) => {
                    let owned = to_vec(literal_string_value(parsed, l));
                    proof {
                        lemma_rows_push(keys@, owned);
                    }
                    keys.push(owned);
                },
                None => {},
            }
        }
        k += 1;
    }
    keys
}

/// What the known keys of a variable are.
enum Keys {
    Untold,
    Unknown,
    Known(Vec<Vec<u8>>),
}

fn keys_assigned(parsed: &ParsedSource, name: &[u8], e: usize) -> (r: Keys)
    requires
        parsed.wf(),
        e < parsed.tree.nodes.len(),
    ensures
        match r {
            Keys::Untold => assigned_keys(parsed, name@, e as int).is_none(),
            Keys::Unknown => assigned_keys(parsed, name@, e as int) == Some(
                None::<Seq<Seq<u8>>>,
            ),
            Keys::Known(keys) => assigned_keys(parsed, name@, e as int) == Some(
                Some(rows(keys@)),
            ),
        },
{
    if !parsed.tree.is_kind(e, "assignment_expression") {
        return Keys::Untold;
    }
    match parsed.tree.child_by_kind(e, "variable_name") {
        Some(v) => {
            if !bytes_eq(variable_name_text(parsed, v), name) {
                return Keys::Untold;
            }
        },
        None => {
            return Keys::Untold;
        },
    }
    match parsed.tree.child_by_kind(e, "array_creation_expression") {
        Some(a) => Keys::Known(collect_array_keys(parsed, a)),
        None => Keys::Unknown,
    }
}

#[verifier::loop_isolation(false)]
fn keys_known(parsed: &ParsedSource, name: &[u8], j: usize) -> (r: Option<Vec<Vec<u8>>>)
    requires
        parsed.wf(),
        j < parsed.tree.nodes.len(),
    ensures
        match r {
            Some(keys) => known_keys(parsed, name@, j as int) == Some(rows(keys@)),
            None => known_keys(parsed, name@, j as int).is_none(),
        },
{
    let mut upto: usize = j;
    while upto > 0
        invariant
            upto <= j,
            known_keys(parsed, name@, j as int) == known_keys(parsed, name@, upto as int),
        decreases upto,
    {
        match keys_assigned(parsed, name, upto - 1) {
            Keys::Known(keys) => {
                return Some(keys);
            },
            Keys::Unknown => {
                return None;
            },
            Keys::Untold => {},
        }
        upto -= 1;
    }
    None
}

/// The rule `array-key-not-defined`.
#[derive(Clone, Copy, Debug)]
pub struct ArrayKeyNotDefinedRule;

impl ArrayKeyNotDefinedRule {
    pub fn new() -> Self {
        ArrayKeyNotDefinedRule
    }
}

impl NodeCheck for ArrayKeyNotDefinedRule {
    open spec fn finding(&self, parsed: &ParsedSource, context: &ProjectContext, j: int) -> Seq<
        Diag,
    > {
        undefined_key_at(parsed, j)
    }

    fn inspect(&self, parsed: &ParsedSource, context: &ProjectContext, j: usize) -> (r: Option<
        Diagnostic,
    >) {
        if !parsed.tree.is_kind(j, "subscript_expression") {
            return None;
        }
        let kids = parsed.tree.named_children_of(j);
        let variable = match parsed.tree.first_with_kind(&kids, "variable_name") {
            Some(v) => v,
            None => {
                return None;
            },
        };
        let literal = match first_string_of(parsed, &kids) {
            Some(l) => l,
            None => {
                return None;
            },
        };
        let keys = match keys_known(parsed, variable_name_text(parsed, variable), j) {
            Some(keys) => keys,
            None => {
                return None;
            },
        };
        let value = literal_string_value(parsed, literal);
        if contains_row(&keys, value) {
            return None;
        }
        let start = parsed.tree.nodes[literal].start;
        let mut message: Vec<u8> = Vec::new();
        push_all(&mut message, "undefined array key '".as_bytes());
        push_all(&mut message, value);
        push_all(&mut message, "' at ".as_bytes());
        push_decimal(&mut message, start.row as u128 + 1);
        push_all(&mut message, ":".as_bytes());
        push_decimal(&mut message, start.column as u128 + 1);
        assert(message@ =~= undefined_key_message(value@, start.row, start.column));
        Some(diagnostic_for_node(parsed, literal, Severity::Error, message))
    }
}

impl DiagnosticRule for ArrayKeyNotDefinedRule {
    open spec fn rule_name(&self) -> Seq<u8> {
        "array-key-not-defined".spec_bytes()
    }

    open spec fn findings(&self, parsed: &ParsedSource, context: &ProjectContext) -> Seq<Diag> {
        node_findings(self, parsed, context)
    }

    open spec fn edits(&self, parsed: &ParsedSource, context: &ProjectContext) -> Seq<Edit> {
        Seq::empty()
    }

    fn name(&self) -> (r: &'static str) {
        "array-key-not-defined"
    }

    fn run(&self, parsed: &ParsedSource, context: &ProjectContext) -> (r: Vec<Diagnostic>) {
        check_nodes(self, parsed, context)
    }

    fn fix(&self, parsed: &ParsedSource, context: &ProjectContext) -> (r: Vec<TextEdit>) {
        let out: Vec<TextEdit> = Vec::new();
        assert(edits_of(out@) =~= Seq::empty());
        out
    }
}

} // verus!
