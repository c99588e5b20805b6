//! Flags weak hash functions whose result goes into a password.

use vstd::prelude::*;
use vstd::string::StringSliceAdditionalSpecFns;
use crate::analyzer::diagnostic::{Diag, Diagnostic, Severity};
use crate::analyzer::fix::{edits_of, Edit, TextEdit};
use crate::analyzer::parser::ParsedSource;
use crate::analyzer::project::ProjectContext;
use crate::analyzer::rules::helpers::{
    diagnostic_at, diagnostic_for_node, node_text, node_text_of, span_at,
};
use crate::analyzer::rules::{check_nodes, node_findings, DiagnosticRule, NodeCheck};
use crate::analyzer::text::{bytes_eq, contains_bytes, find, push_all, to_lower, to_lower_bytes};

verus! {

/// The hash functions that are too weak for passwords.
pub open spec fn is_weak_hash(name: Seq<u8>) -> bool {
    name == "md5".spec_bytes() || name == "sha1".spec_bytes()
}

/// Whether `text` names a password.
pub open spec fn is_password_like(text: Seq<u8>) -> bool {
    let lowered = to_lower(text);
    ||| find(lowered, "password".spec_bytes()).is_some()
    ||| find(lowered, "passwd".spec_bytes()).is_some()
    ||| find(lowered, "pwd".spec_bytes()).is_some()
    ||| find(lowered, "userpassword".spec_bytes()).is_some()
    ||| find(lowered, "hashedpassword".spec_bytes()).is_some()
}

/// The name that the assignment target at node `l` writes to: the text of a
/// variable, or of the member that a member access names.
pub open spec fn variable_text(parsed: &ParsedSource, l: int) -> Option<Seq<u8>> {
    if parsed.tree.kind_of(l) == "variable_name".spec_bytes() {
        Some(node_text_of(parsed, l))
    } else if parsed.tree.kind_of(l) == "member_access_expression".spec_bytes() {
        match parsed.tree.first_in_field(parsed.tree.children(l), "name".spec_bytes()) {
            Some(m) => Some(node_text_of(parsed, m as int)),
            None => None,
        }
    } else {
        None
    }
}

/// The name of the first parameter or property among `kids`, from index
/// `from` on, that has a name.
pub open spec fn declared_variable(parsed: &ParsedSource, kids: Seq<usize>, from: int) -> Option<
    Seq<u8>,
>
    decreases kids.len() - from,
{
    if from < 0 || from >= kids.len() {
        None
    } else {
        let c = kids[from] as int;
        let named = if parsed.tree.kind_of(c) == "simple_parameter".spec_bytes()
            || parsed.tree.kind_of(c) == "property_element".spec_bytes() {
            parsed.tree.first_in_field(parsed.tree.children(c), "name".spec_bytes())
        } else {
            None
        };
        match named {
            Some(v) => Some(node_text_of(parsed, v as int)),
            None => declared_variable(parsed, kids, from + 1),
        }
    }
}

/// The name that receives the result of the call at node `call`: the
/// target of the assignment, or the variable of the declaration, that the
/// call stands in.
pub open spec fn receiver(parsed: &ParsedSource, call: int) -> Option<Seq<u8>> {
    match parsed.tree.nodes[call].parent {
        Some(p) => if parsed.tree.kind_of(p as int) == "assignment_expression".spec_bytes() {
            match parsed.tree.first_in_field(parsed.tree.children(p as int), "left".spec_bytes()) {
                Some(l) => variable_text(parsed, l as int),
                None => None,
            }
        } else if parsed.tree.kind_of(p as int) == "variable_declaration".spec_bytes() {
            declared_variable(parsed, parsed.tree.named_children(p as int), 0)
        } else {
            None
        },
        None => None,
    }
}

/// Whether the result of the call at node `call` goes into a password.
pub open spec fn in_password_context(parsed: &ParsedSource, call: int) -> bool {
    match receiver(parsed, call) {
        Some(name) => is_password_like(name),
        None => false,
    }
}

/// The message for the function `name`.
pub open spec fn weak_hash_message(name: Seq<u8>) -> Seq<u8> {
    "weak hashing function '".spec_bytes() + name
        + "' used for password hashing, consider using password_hash() or similar secure alternatives".spec_bytes()
}

/// What the rule reports for node `j`: a warning at the name of the called
/// function, if the node calls a weak hash function and the result goes
/// into a password.
pub open spec fn weak_hash_at(parsed: &ParsedSource, j: int) -> Seq<Diag> {
    if parsed.tree.kind_of(j) == "function_call_expression".spec_bytes() {
        match parsed.tree.first_of_kind(parsed.tree.named_children(j), "name".spec_bytes()) {
            Some(n) => if is_weak_hash(node_text_of(parsed, n as int)) && in_password_context(
                parsed,
                j,
            ) {
                seq![
                    diagnostic_at(
                        parsed.path@,
                        parsed.source@,
                        span_at(parsed, n as int),
                        Severity::Warning,
                        weak_hash_message(node_text_of(parsed, n as int)),
                    ),
                ]
            } else {
                Seq::empty()
            },
            None => Seq::empty(),
        }
    } else {
        Seq::empty()
    }
}

fn names_password(text: &[u8]) -> (r: bool)
    ensures
        r == is_password_like(text@),
{
    let lowered = to_lower_bytes(text);
    let l = lowered.as_slice();
    contains_bytes(l, "password".as_bytes()) || contains_bytes(l, "passwd".as_bytes())
        || contains_bytes(l, "pwd".as_bytes()) || contains_bytes(l, "userpassword".as_bytes())
        || contains_bytes(l, "hashedpassword".as_bytes())
}

/// The name that the assignment target at node `l` writes to.
pub fn extract_variable_name<'a>(parsed: &'a ParsedSource, l: usize) -> (r: Option<&'a [u8]>)
    requires
        parsed.wf(),
        l < parsed.tree.nodes.len(),
    ensures
        match r {
            Some(t) => variable_text(parsed, l as int) == Some(t@),
            None => variable_text(parsed, l as int).is_none(),
        },
{
    if parsed.tree.is_kind(l, "variable_name") {
        Some(node_text(parsed, l))
    } else if parsed.tree.is_kind(l, "member_access_expression") {
        match parsed.tree.child_by_field(l, "name") {
            Some(m) => Some(node_text(parsed, m)),
            None => None,
        }
    } else {
        None
    }
}

/// The name of the first parameter or property under the declaration at
/// node `p` that has a name.
#[verifier::loop_isolation(false)]
pub fn extract_variable_name_from_declaration<'a>(parsed: &'a ParsedSource, p: usize) -> (r: Option<
    &'a [u8],
>)
    requires
        parsed.wf(),
        p < parsed.tree.nodes.len(),
    ensures
        match r {
            Some(t) => declared_variable(parsed, parsed.tree.named_children(p as int), 0) == Some(
                t@,
            ),
            None => declared_variable(parsed, parsed.tree.named_children(p as int), 0).is_none(),
        },
{
    let kids = parsed.tree.named_children_of(p);
    let mut k: usize = 0;
    while k < kids.len()
        invariant
            k <= kids.len(),
            declared_variable(parsed, kids@, 0) == declared_variable(parsed, kids@, k as int),
        decreases kids.len() - k,
    {
        let c = kids[k];
        if parsed.tree.is_kind(c, "simple_parameter") || parsed.tree.is_kind(c, "property_element") {
            match parsed.tree.child_by_field(c, "name") {
                Some(v) => {
                    return Some(node_text(parsed, v));
                },
                None => {},
            }
        }
        k += 1;
    }
    None
}

/// Whether the result of the call at node `call` goes into a password.
pub fn is_password_context(parsed: &ParsedSource, call: usize) -> (r: bool)
    requires
        parsed.wf(),
        call < parsed.tree.nodes.len(),
    ensures
        r == in_password_context(parsed, call as int),
{
    let parent = match parsed.tree.parent(call) {
        Some(p) => p,
        None => {
            return false;
        },
    };
    let name = if parsed.tree.is_kind(parent, "assignment_expression") {
        match parsed.tree.child_by_field(parent, "left") {
            Some(l) => extract_variable_name(parsed, l),
            None => None,
        }
    } else if parsed.tree.is_kind(parent, "variable_declaration") {
        extract_variable_name_from_declaration(parsed, parent)
    } else {
        None
    };
    match name {
        Some(text) => names_password(text),
        None => false,
    }
}

/// The rule `security/weak_hashing`.
#[derive(Clone, Copy, Debug)]
pub struct WeakHashingRule;

impl WeakHashingRule {
    pub fn new() -> Self {
        WeakHashingRule
    }
}

impl NodeCheck for WeakHashingRule {
    open spec fn finding(&self, parsed: &ParsedSource, context: &ProjectContext, j: int) -> Seq<
        Diag,
    > {
        weak_hash_at(parsed, j)
    }

    fn inspect(&self, parsed: &ParsedSource, context: &ProjectContext, j: usize) -> (r: Option<
        Diagnostic,
    >) {
        if !parsed.tree.is_kind(j, "function_call_expression") {
            return None;
        }
        let name_node = match parsed.tree.child_by_kind(j, "name") {
            Some(n) => n,
            None => {
                return None;
            },
        };
        let name = node_text(parsed, name_node);
        if !(bytes_eq(name, "md5".as_bytes()) || bytes_eq(name, "sha1".as_bytes())) {
            return None;
        }
        if !is_password_context(parsed, j) {
            return None;
        }
        let mut message: Vec<u8> = Vec::new();
        push_all(&mut message, "weak hashing function '".as_bytes());
        push_all(&mut message, name);
        push_all(
            &mut message,
            "' used for password hashing, consider using password_hash() or similar secure alternatives".as_bytes(),
        );
        assert(message@ =~= weak_hash_message(name@));
        Some(diagnostic_for_node(parsed, name_node, Severity::Warning, message))
    }
}

impl DiagnosticRule for WeakHashingRule {
    open spec fn rule_name(&self) -> Seq<u8> {
        "security/weak_hashing".spec_bytes()
    }

    open spec fn findings(&self, parsed: &ParsedSource, context: &ProjectContext) -> Seq<Diag> {
        node_findings(self, parsed, context)
    }

    open spec fn edits(&self, parsed: &ParsedSource, context: &ProjectContext) -> Seq<Edit> {
        Seq::empty()
    }

    fn name(&self) -> (r: &'static str) {
        "security/weak_hashing"
    }

    fn run(&self, parsed: &ParsedSource, context: &ProjectContext) -> (r: Vec<Diagnostic>) {
        check_nodes(self, parsed, context)
    }

    fn fix(&self, parsed: &ParsedSource, context: &ProjectContext) -> (r: Vec<TextEdit>) {
        let out: Vec<TextEdit> = Vec::new();
        assert(edits_of(out@) =~= Seq::empty());
        out
    }
}

} // verus!
