//! Holds the elements of an array literal against a documented array type.

use vstd::prelude::*;
use vstd::string::StringSliceAdditionalSpecFns;
use crate::analyzer::diagnostic::{diags, lemma_diags_push, Diag, Diagnostic, Severity};
use crate::analyzer::parser::ParsedSource;
use crate::analyzer::rules::helpers::{
    array_elements, array_pairs, compatible, diagnostic_at, diagnostic_for_node,
    extract_array_elements, extract_array_key_value_pairs, field_models, hint_of,
    is_type_compatible, lemma_shaped_model, node_text, node_text_of, pairs_of, same_type, shown,
    span_at, type_hint_to_string, ArrayPair, Element, Pair, Ty, TypeHint,
};
use crate::analyzer::syntax::{gather, lemma_gather_step};
use crate::analyzer::text::{
    bytes_eq, push_all, strip_leading, strip_leading_byte, strip_trailing, strip_trailing_byte,
};

verus! {

/// What a documented array type is documented for.
#[derive(Clone, Copy, Debug, PartialEq, Eq, Structural)]
pub enum Subject {
    /// A variable or a property, through a `@var` tag.
    Variable,
    /// What a function returns, through a `@return` tag.
    ReturnValue,
}

/// How the documented type `name` is referred to at the end of a message.
pub open spec fn named_for(subject: Subject, name: Seq<u8>) -> Seq<u8> {
    match subject {
        Subject::Variable => name,
        Subject::ReturnValue => "@return type '".spec_bytes() + name + "'".spec_bytes(),
    }
}

/// The message for a part (element, key or value) whose type cannot be
/// inferred.
pub open spec fn unknown_message(subject: Subject, part: Seq<u8>, name: Seq<u8>, expected: Ty) -> Seq<
    u8,
> {
    match subject {
        Subject::Variable => "Cannot infer type of array ".spec_bytes() + part
            + " for ".spec_bytes() + name + "; expected ".spec_bytes() + part
            + " type '".spec_bytes() + shown(expected) + "'".spec_bytes(),
        Subject::ReturnValue => "Cannot infer type of array ".spec_bytes() + part
            + "; expected ".spec_bytes() + part + " type '".spec_bytes() + shown(expected)
            + "' for ".spec_bytes() + named_for(subject, name),
    }
}

/// The message for a part whose type conflicts with the expected one.
pub open spec fn conflict_message(
    subject: Subject,
    part: Seq<u8>,
    name: Seq<u8>,
    actual: Ty,
    expected: Ty,
) -> Seq<u8> {
    "Array ".spec_bytes() + part + " type '".spec_bytes() + shown(actual)
        + "' conflicts with expected ".spec_bytes() + part + " type '".spec_bytes() + shown(
        expected,
    ) + "' for ".spec_bytes() + named_for(subject, name)
}

/// The finding for one part of an array literal at node `node` with the
/// type `ty`: an error if the type is unknown, and an error if it is not
/// compatible with the expected type. Nothing for a part without a type.
pub open spec fn checked(
    parsed: &ParsedSource,
    subject: Subject,
    part: Seq<u8>,
    name: Seq<u8>,
    node: int,
    ty: Option<Ty>,
    expected: Ty,
) -> Seq<Diag> {
    match ty {
        Some(t) => if t == Ty::Unknown {
            seq![
                diagnostic_at(
                    parsed.path@,
                    parsed.source@,
                    span_at(parsed, node),
                    Severity::Error,
                    unknown_message(subject, part, name, expected),
                ),
            ]
        } else if !compatible(t, expected) {
            seq![
                diagnostic_at(
                    parsed.path@,
                    parsed.source@,
                    span_at(parsed, node),
                    Severity::Error,
                    conflict_message(subject, part, name, t, expected),
                ),
            ]
        } else {
            Seq::empty()
        },
        None => Seq::empty(),
    }
}

pub open spec fn element_checker(
    parsed: &ParsedSource,
    subject: Subject,
    name: Seq<u8>,
    elements: Seq<Element>,
    expected: Ty,
) -> spec_fn(int) -> Seq<Diag> {
    |k: int|
        checked(
            parsed,
            subject,
            "element".spec_bytes(),
            name,
            elements[k].node as int,
            elements[k].ty,
            expected,
        )
}

/// The findings for the elements of the array literal at node `a` against
/// the element type `expected`.
pub open spec fn element_findings(
    parsed: &ParsedSource,
    subject: Subject,
    name: Seq<u8>,
    a: int,
    expected: Ty,
) -> Seq<Diag> {
    gather(
        element_checker(parsed, subject, name, array_elements(parsed, a), expected),
        0,
        array_elements(parsed, a).len() as int,
    )
}

/// The findings for one pair: for its key, if the key is written, and for
/// its value.
pub open spec fn pair_findings(
    parsed: &ParsedSource,
    subject: Subject,
    name: Seq<u8>,
    pair: Pair,
    key: Ty,
    value: Ty,
) -> Seq<Diag> {
    (match pair.key {
        Some(k) => checked(parsed, subject, "key".spec_bytes(), name, k as int, pair.key_ty, key),
        None => Seq::empty(),
    }) + checked(
        parsed,
        subject,
        "value".spec_bytes(),
        name,
        pair.value as int,
        pair.value_ty,
        value,
    )
}

pub open spec fn pair_checker(
    parsed: &ParsedSource,
    subject: Subject,
    name: Seq<u8>,
    pairs: Seq<Pair>,
    key: Ty,
    value: Ty,
) -> spec_fn(int) -> Seq<Diag> {
    |k: int| pair_findings(parsed, subject, name, pairs[k], key, value)
}

/// The findings for the pairs of the array literal at node `a` against the
/// key type `key` and the value type `value`.
pub open spec fn generic_findings(
    parsed: &ParsedSource,
    subject: Subject,
    name: Seq<u8>,
    a: int,
    key: Ty,
    value: Ty,
) -> Seq<Diag> {
    gather(
        pair_checker(parsed, subject, name, array_pairs(parsed, a), key, value),
        0,
        array_pairs(parsed, a).len() as int,
    )
}

/// The name of the field that the key at node `k` writes: its text without
/// the double quotes and then the single quotes around it.
pub open spec fn field_name(parsed: &ParsedSource, k: int) -> Seq<u8> {
    let inner = strip_trailing(strip_leading(node_text_of(parsed, k), 34), 34);
    strip_trailing(strip_leading(inner, 39), 39)
}

/// Whether the pair writes the field `name`.
pub open spec fn writes_field(parsed: &ParsedSource, pair: Pair, name: Seq<u8>) -> bool {
    match pair.key {
        Some(k) => field_name(parsed, k as int) == name,
        None => false,
    }
}

/// The last of the first `upto` pairs that writes the field `name`.
pub open spec fn last_field(parsed: &ParsedSource, pairs: Seq<Pair>, name: Seq<u8>, upto: int) -> Option<
    Pair,
>
    decreases upto,
{
    if upto <= 0 || upto > pairs.len() {
        None
    } else if writes_field(parsed, pairs[upto - 1], name) {
        Some(pairs[upto - 1])
    } else {
        last_field(parsed, pairs, name, upto - 1)
    }
}

/// The message for a field whose type cannot be inferred.
pub open spec fn unknown_field_message(field: Seq<u8>, name: Seq<u8>, expected: Ty) -> Seq<u8> {
    "Cannot infer type of field '".spec_bytes() + field + "' in ".spec_bytes() + name
        + "; expected type '".spec_bytes() + shown(expected) + "'".spec_bytes()
}

/// The message for a field of the wrong type.
pub open spec fn field_conflict_message(
    field: Seq<u8>,
    name: Seq<u8>,
    actual: Ty,
    expected: Ty,
) -> Seq<u8> {
    "Field '".spec_bytes() + field + "' has type '".spec_bytes() + shown(actual)
        + "' but expected type '".spec_bytes() + shown(expected) + "' in ".spec_bytes() + name
}

/// The message for a field that is not there.
pub open spec fn missing_field_message(field: Seq<u8>, name: Seq<u8>) -> Seq<u8> {
    "Missing required field '".spec_bytes() + field + "' in ".spec_bytes() + name
}

/// The message for a field that is not expected.
pub open spec fn unexpected_field_message(field: Seq<u8>, name: Seq<u8>) -> Seq<u8> {
    "Unexpected field '".spec_bytes() + field + "' in ".spec_bytes() + name
}

/// The finding for the expected field `field` of the type `expected`: an
/// error at the array if no pair writes the field; else an error at the
/// value that was written last, if its type is unknown or not compatible.
pub open spec fn expected_field(
    parsed: &ParsedSource,
    name: Seq<u8>,
    a: int,
    pairs: Seq<Pair>,
    field: Seq<u8>,
    expected: Ty,
) -> Seq<Diag> {
    match last_field(parsed, pairs, field, pairs.len() as int) {
        Some(pair) => match pair.value_ty {
            Some(t) => if t == Ty::Unknown {
                seq![
                    diagnostic_at(
                        parsed.path@,
                        parsed.source@,
                        span_at(parsed, pair.value as int),
                        Severity::Error,
                        unknown_field_message(field, name, expected),
                    ),
                ]
            } else if !compatible(t, expected) {
                seq![
                    diagnostic_at(
                        parsed.path@,
                        parsed.source@,
                        span_at(parsed, pair.value as int),
                        Severity::Error,
                        field_conflict_message(field, name, t, expected),
                    ),
                ]
            } else {
                Seq::empty()
            },
            None => Seq::empty(),
        },
        None => seq![
            diagnostic_at(
                parsed.path@,
                parsed.source@,
                span_at(parsed, a),
                Severity::Error,
                missing_field_message(field, name),
            ),
        ],
    }
}

pub open spec fn expected_checker(
    parsed: &ParsedSource,
    name: Seq<u8>,
    a: int,
    pairs: Seq<Pair>,
    fields: Seq<(Seq<u8>, Ty)>,
) -> spec_fn(int) -> Seq<Diag> {
    |i: int| expected_field(parsed, name, a, pairs, fields[i].0, fields[i].1)
}

/// Whether pair number `m`, behind pair number `k`, writes the field `name`.
pub open spec fn rewrites(parsed: &ParsedSource, pairs: Seq<Pair>, name: Seq<u8>, k: int, m: int) -> bool {
    k < m < pairs.len() && writes_field(parsed, pairs[m], name)
}

/// Whether the expected field number `i` has the name `name`.
pub open spec fn expects(fields: Seq<(Seq<u8>, Ty)>, name: Seq<u8>, i: int) -> bool {
    0 <= i < fields.len() && fields[i].0 == name
}

/// The finding for pair number `k`: an error at its value, if the pair
/// writes a field that is not expected and that no later pair writes.
pub open spec fn unexpected_field(
    parsed: &ParsedSource,
    name: Seq<u8>,
    pairs: Seq<Pair>,
    fields: Seq<(Seq<u8>, Ty)>,
    k: int,
) -> Seq<Diag> {
    match pairs[k].key {
        Some(key) => if !(exists|m: int|
            #[trigger] rewrites(parsed, pairs, field_name(parsed, key as int), k, m)) && !(
        exists|i: int| #[trigger] expects(fields, field_name(parsed, key as int), i)) {
            seq![
                diagnostic_at(
                    parsed.path@,
                    parsed.source@,
                    span_at(parsed, pairs[k].value as int),
                    Severity::Error,
                    unexpected_field_message(field_name(parsed, key as int), name),
                ),
            ]
        } else {
            Seq::empty()
        },
        None => Seq::empty(),
    }
}

pub open spec fn unexpected_checker(
    parsed: &ParsedSource,
    name: Seq<u8>,
    pairs: Seq<Pair>,
    fields: Seq<(Seq<u8>, Ty)>,
) -> spec_fn(int) -> Seq<Diag> {
    |k: int| unexpected_field(parsed, name, pairs, fields, k)
}

/// The findings for the array literal at node `a` against the fields of a
/// shaped array: those for the expected fields, in their order, and then
/// those for the fields that are not expected, in the order of the literal.
pub open spec fn shaped_findings(
    parsed: &ParsedSource,
    name: Seq<u8>,
    a: int,
    fields: Seq<(Seq<u8>, Ty)>,
) -> Seq<Diag> {
    gather(
        expected_checker(parsed, name, a, array_pairs(parsed, a), fields),
        0,
        fields.len() as int,
    ) + gather(
        unexpected_checker(parsed, name, array_pairs(parsed, a), fields),
        0,
        array_pairs(parsed, a).len() as int,
    )
}

/// The findings for the array literal at node `a` against the documented
/// type `expected`, written `name`: element by element for an array type,
/// pair by pair for a generic array type, and, for a variable, field by
/// field for a shaped array type. Nothing for any other type.
pub open spec fn array_findings(
    parsed: &ParsedSource,
    subject: Subject,
    name: Seq<u8>,
    a: int,
    expected: Ty,
) -> Seq<Diag> {
    match expected {
        Ty::ShapedArray(fields) => if subject == Subject::Variable {
            shaped_findings(parsed, name, a, fields)
        } else {
            Seq::empty()
        },
        Ty::GenericArray { key, value } => generic_findings(parsed, subject, name, a, *key, *value),
        Ty::Array(element) => element_findings(parsed, subject, name, a, *element),
        _ => Seq::empty(),
    }
}

fn push_named_for(out: &mut Vec<u8>, subject: Subject, name: &[u8])
    ensures
        final(out)@ == old(out)@ + named_for(subject, name@),
{
    match subject {
        Subject::Variable => {
            push_all(out, name);
        },
        Subject::ReturnValue => {
            push_all(out, "@return type '".as_bytes());
            push_all(out, name);
            push_all(out, "'".as_bytes());
            assert(out@ =~= old(out)@ + named_for(subject, name@));
        },
    }
}

fn unknown_text(subject: Subject, part: &str, name: &[u8], expected: &TypeHint) -> (r: Vec<u8>)
    ensures
        r@ == unknown_message(subject, part.spec_bytes(), name@, expected@),
{
    let mut out: Vec<u8> = Vec::new();
    push_all(&mut out, "Cannot infer type of array ".as_bytes());
    push_all(&mut out, part.as_bytes());
    match subject {
        Subject::Variable => {
            push_all(&mut out, " for ".as_bytes());
            push_all(&mut out, name);
            push_all(&mut out, "; expected ".as_bytes());
            push_all(&mut out, part.as_bytes());
            push_all(&mut out, " type '".as_bytes());
            push_all(&mut out, type_hint_to_string(expected).as_slice());
            push_all(&mut out, "'".as_bytes());
            assert(out@ =~= unknown_message(subject, part.spec_bytes(), name@, expected@));
        },
        Subject::ReturnValue => {
            push_all(&mut out, "; expected ".as_bytes());
            push_all(&mut out, part.as_bytes());
            push_all(&mut out, " type '".as_bytes());
            push_all(&mut out, type_hint_to_string(expected).as_slice());
            push_all(&mut out, "' for ".as_bytes());
            let ghost before = out@;
            push_named_for(&mut out, subject, name);
            assert(out@ =~= unknown_message(subject, part.spec_bytes(), name@, expected@));
        },
    }
    out
}

fn conflict_text(
    subject: Subject,
    part: &str,
    name: &[u8],
    actual: &TypeHint,
    expected: &TypeHint,
) -> (r: Vec<u8>)
    ensures
        r@ == conflict_message(subject, part.spec_bytes(), name@, actual@, expected@),
{
    let mut out: Vec<u8> = Vec::new();
    push_all(&mut out, "Array ".as_bytes());
    push_all(&mut out, part.as_bytes());
    push_all(&mut out, " type '".as_bytes());
    push_all(&mut out, type_hint_to_string(actual).as_slice());
    push_all(&mut out, "' conflicts with expected ".as_bytes());
    push_all(&mut out, part.as_bytes());
    push_all(&mut out, " type '".as_bytes());
    push_all(&mut out, type_hint_to_string(expected).as_slice());
    push_all(&mut out, "' for ".as_bytes());
    push_named_for(&mut out, subject, name);
    assert(out@ =~= conflict_message(subject, part.spec_bytes(), name@, actual@, expected@));
    out
}

/// Holds one part of an array literal against the expected type.
fn check_part(
    parsed: &ParsedSource,
    subject: Subject,
    part: &str,
    name: &[u8],
    node: usize,
    ty: &Option<TypeHint>,
    expected: &TypeHint,
) -> (r: Option<Diagnostic>)
    requires
        node < parsed.tree.nodes.len(),
    ensures
        match r {
            Some(d) => checked(
                parsed,
                subject,
                part.spec_bytes(),
                name@,
                node as int,
                hint_of(*ty),
                expected@,
            ) == seq![d@],
            None => checked(
                parsed,
                subject,
                part.spec_bytes(),
                name@,
                node as int,
                hint_of(*ty),
                expected@,
            ) == Seq::<Diag>::empty(),
        },
{
    match ty {
        Some(t) => {
            if same_type(t, &TypeHint::Unknown) {
                let message = unknown_text(subject, part, name, expected);
                Some(diagnostic_for_node(parsed, node, Severity::Error, message))
            } else if !is_type_compatible(t, expected) {
                let message = conflict_text(subject, part, name, t, expected);
                Some(diagnostic_for_node(parsed, node, Severity::Error, message))
            } else {
                None
            }
        },
        None => None,
    }
}

/// Holds the elements of the array literal at node `a` against the element
/// type `expected`.
#[verifier::loop_isolation(false)]
pub fn check_plain_array_elements(
    parsed: &ParsedSource,
    subject: Subject,
    name: &[u8],
    a: usize,
    expected: &TypeHint,
) -> (r: Vec<Diagnostic>)
    requires
        parsed.wf(),
        a < parsed.tree.nodes.len(),
    ensures
        diags(r@) == element_findings(parsed, subject, name@, a as int, expected@),
{
    let elements = extract_array_elements(parsed, a);
    let ghost f = element_checker(
        parsed,
        subject,
        name@,
        array_elements(parsed, a as int),
        expected@,
    );
    let n = elements.len();
    let mut out: Vec<Diagnostic> = Vec::new();
    let mut k: usize = 0;
    proof {
        assert(diags(out@) + gather(f, 0, n as int) =~= gather(f, 0, n as int));
    }
    while k < n
        invariant
            k <= n,
            gather(f, 0, n as int) == diags(out@) + gather(f, k as int, n as int),
        decreases n - k,
    {
        proof {
            lemma_gather_step(f, diags(out@), k as int, n as int);
            assert(array_elements(parsed, a as int)[k as int] == elements@[k as int]@);
        }
        let ghost before = out@;
        match check_part(parsed, subject, "element", name, elements[k].node, &elements[k].ty, expected) {
            Some(d) => {
                proof {
                    lemma_diags_push(before, d);
                }
                out.push(d);
                assert(diags(out@) =~= diags(before) + f(k as int));
            },
            None => {
                assert(diags(before) + f(k as int) =~= diags(before));
            },
        }
        k += 1;
    }
    proof {
        assert(diags(out@) + gather(f, n as int, n as int) =~= diags(out@));
    }
    out
}

fn check_pair(
    parsed: &ParsedSource,
    subject: Subject,
    name: &[u8],
    pair: &ArrayPair,
    key: &TypeHint,
    value: &TypeHint,
) -> (r: Vec<Diagnostic>)
    requires
        pair.value < parsed.tree.nodes.len(),
        pair.key.is_some() ==> pair.key.unwrap() < parsed.tree.nodes.len(),
    ensures
        diags(r@) == pair_findings(parsed, subject, name@, pair@, key@, value@),
{
    let mut out: Vec<Diagnostic> = Vec::new();
    let ghost first: Seq<Diag>;
    proof {
        assert(diags(out@) =~= Seq::empty());
        first = Seq::empty();
    }
    match pair.key {
        Some(k) => {
            match check_part(parsed, subject, "key", name, k, &pair.key_ty, key) {
                Some(d) => {
                    let ghost before = out@;
                    proof {
                        lemma_diags_push(before, d);
                    }
                    out.push(d);
                    proof {
                        first = seq![d@];
                        assert(diags(out@) =~= first);
                    }
                },
                None => {},
            }
        },
        None => {},
    }
    match check_part(parsed, subject, "value", name, pair.value, &pair.value_ty, value) {
        Some(d) => {
            let ghost before = out@;
            proof {
                lemma_diags_push(before, d);
            }
            out.push(d);
            assert(diags(out@) =~= first + seq![d@]);
        },
        None => {
            assert(diags(out@) =~= first + Seq::<Diag>::empty());
        },
    }
    out
}

/// Holds the pairs of the array literal at node `a` against the key type
/// and the value type of a generic array.
#[verifier::loop_isolation(false)]
pub fn check_generic_array_elements(
    parsed: &ParsedSource,
    subject: Subject,
    name: &[u8],
    a: usize,
    key: &TypeHint,
    value: &TypeHint,
) -> (r: Vec<Diagnostic>)
    requires
        parsed.wf(),
        a < parsed.tree.nodes.len(),
    ensures
        diags(r@) == generic_findings(parsed, subject, name@, a as int, key@, value@),
{
    let pairs = extract_array_key_value_pairs(parsed, a);
    let ghost f = pair_checker(parsed, subject, name@, array_pairs(parsed, a as int), key@, value@);
    let n = pairs.len();
    let mut out: Vec<Diagnostic> = Vec::new();
    let mut k: usize = 0;
    proof {
        assert(diags(out@) + gather(f, 0, n as int) =~= gather(f, 0, n as int));
    }
    while k < n
        invariant
            k <= n,
            gather(f, 0, n as int) == diags(out@) + gather(f, k as int, n as int),
        decreases n - k,
    {
        proof {
            lemma_gather_step(f, diags(out@), k as int, n as int);
            assert(array_pairs(parsed, a as int)[k as int] == pairs@[k as int]@);
        }
        let ghost before = out@;
        let mut found = check_pair(parsed, subject, name, &pairs[k], key, value);
        let ghost added = found@;
        out.append(&mut found);
        assert(diags(out@) =~= diags(before) + diags(added));
        k += 1;
    }
    proof {
        assert(diags(out@) + gather(f, n as int, n as int) =~= diags(out@));
    }
    out
}

fn field_name_of<'a>(parsed: &'a ParsedSource, k: usize) -> (r: &'a [u8])
    requires
        parsed.wf(),
        k < parsed.tree.nodes.len(),
    ensures
        r@ == field_name(parsed, k as int),
{
    let text = node_text(parsed, k);
    let inner = strip_trailing_byte(strip_leading_byte(text, 34), 34);
    strip_trailing_byte(strip_leading_byte(inner, 39), 39)
}

fn pair_writes(parsed: &ParsedSource, pair: &ArrayPair, name: &[u8]) -> (r: bool)
    requires
        parsed.wf(),
        pair.key.is_some() ==> pair.key.unwrap() < parsed.tree.nodes.len(),
    ensures
        r == writes_field(parsed, pair@, name@),
{
    match pair.key {
        Some(k) => bytes_eq(field_name_of(parsed, k), name),
        None => false,
    }
}

#[verifier::loop_isolation(false)]
fn find_field(parsed: &ParsedSource, pairs: &Vec<ArrayPair>, name: &[u8]) -> (r: Option<usize>)
    requires
        parsed.wf(),
        forall|k: int|
            0 <= k < pairs@.len() ==> ((#[trigger] pairs@[k]).key.is_some() ==> pairs@[k].key.unwrap()
                < parsed.tree.nodes.len()),
    ensures
        match r {
            Some(i) => i < pairs@.len() && last_field(
                parsed,
                pairs_of(pairs@),
                name@,
                pairs@.len() as int,
            ) == Some(pairs@[i as int]@),
            None => last_field(parsed, pairs_of(pairs@), name@, pairs@.len() as int).is_none(),
        },
{
    let ghost all = pairs_of(pairs@);
    let mut upto: usize = pairs.len();
    while upto > 0
        invariant
            upto <= pairs.len(),
            last_field(parsed, all, name@, pairs@.len() as int) == last_field(
                parsed,
                all,
                name@,
                upto as int,
            ),
        decreases upto,
    {
        assert(all[upto - 1] == pairs@[upto - 1]@);
        if pair_writes(parsed, &pairs[upto - 1], name) {
            return Some(upto - 1);
        }
        upto -= 1;
    }
    None
}

fn field_text(prefix: &str, field: &[u8], middle: &str, name: &[u8]) -> (r: Vec<u8>)
    ensures
        r@ == prefix.spec_bytes() + field@ + middle.spec_bytes() + name@,
{
    let mut out: Vec<u8> = Vec::new();
    push_all(&mut out, prefix.as_bytes());
    push_all(&mut out, field);
    push_all(&mut out, middle.as_bytes());
    push_all(&mut out, name);
    assert(out@ =~= prefix.spec_bytes() + field@ + middle.spec_bytes() + name@);
    out
}

fn check_expected_field(
    parsed: &ParsedSource,
    name: &[u8],
    a: usize,
    pairs: &Vec<ArrayPair>,
    field: &[u8],
    expected: &TypeHint,
) -> (r: Option<Diagnostic>)
    requires
        parsed.wf(),
        a < parsed.tree.nodes.len(),
        forall|k: int|
            0 <= k < pairs@.len() ==> (#[trigger] pairs@[k]).value < parsed.tree.nodes.len() && (
            pairs@[k].key.is_some() ==> pairs@[k].key.unwrap() < parsed.tree.nodes.len()),
    ensures
        match r {
            Some(d) => expected_field(parsed, name@, a as int, pairs_of(pairs@), field@, expected@)
                == seq![d@],
            None => expected_field(parsed, name@, a as int, pairs_of(pairs@), field@, expected@)
                == Seq::<Diag>::empty(),
        },
{
    match find_field(parsed, pairs, field) {
        Some(i) => {
            let pair = &pairs[i];
            match &pair.value_ty {
                Some(t) => {
                    if same_type(t, &TypeHint::Unknown) {
                        let mut message = field_text(
                            "Cannot infer type of field '",
                            field,
                            "' in ",
                            name,
                        );
                        push_all(&mut message, "; expected type '".as_bytes());
                        push_all(&mut message, type_hint_to_string(expected).as_slice());
                        push_all(&mut message, "'".as_bytes());
                        assert(message@ =~= unknown_field_message(field@, name@, expected@));
                        Some(diagnostic_for_node(parsed, pair.value, Severity::Error, message))
                    } else if !is_type_compatible(t, expected) {
                        let mut message: Vec<u8> = Vec::new();
                        push_all(&mut message, "Field '".as_bytes());
                        push_all(&mut message, field);
                        push_all(&mut message, "' has type '".as_bytes());
                        push_all(&mut message, type_hint_to_string(t).as_slice());
                        push_all(&mut message, "' but expected type '".as_bytes());
                        push_all(&mut message, type_hint_to_string(expected).as_slice());
                        push_all(&mut message, "' in ".as_bytes());
                        push_all(&mut message, name);
                        assert(message@ =~= field_conflict_message(field@, name@, t@, expected@));
                        Some(diagnostic_for_node(parsed, pair.value, Severity::Error, message))
                    } else {
                        None
                    }
                },
                None => None,
            }
        },
        None => {
            let message = field_text("Missing required field '", field, "' in ", name);
            Some(diagnostic_for_node(parsed, a, Severity::Error, message))
        },
    }
}

#[verifier::loop_isolation(false)]
fn written_later(parsed: &ParsedSource, pairs: &Vec<ArrayPair>, name: &[u8], k: usize) -> (r: bool)
    requires
        parsed.wf(),
        k < pairs@.len(),
        forall|m: int|
            0 <= m < pairs@.len() ==> ((#[trigger] pairs@[m]).key.is_some() ==> pairs@[m].key.unwrap()
                < parsed.tree.nodes.len()),
    ensures
        r == (exists|m: int| #[trigger] rewrites(parsed, pairs_of(pairs@), name@, k as int, m)),
{
    let ghost all = pairs_of(pairs@);
    let n = pairs.len();
    let mut m: usize = k + 1;
    while m < n
        invariant
            k < m <= n,
            forall|e: int| k < e < m ==> !rewrites(parsed, all, name@, k as int, e),
        decreases n - m,
    {
        assert(all[m as int] == pairs@[m as int]@);
        if pair_writes(parsed, &pairs[m], name) {
            assert(rewrites(parsed, all, name@, k as int, m as int));
            return true;
        }
        m += 1;
    }
    false
}

#[verifier::loop_isolation(false)]
fn is_expected(fields: &Vec<(Vec<u8>, TypeHint)>, name: &[u8]) -> (r: bool)
    ensures
        r == (exists|i: int| #[trigger] expects(field_models(fields@), name@, i)),
{
    let mut i: usize = 0;
    while i < fields.len()
        invariant
            i <= fields.len(),
            forall|e: int| 0 <= e < i ==> !expects(field_models(fields@), name@, e),
        decreases fields.len() - i,
    {
        if bytes_eq(fields[i].0.as_slice(), name) {
            assert(expects(field_models(fields@), name@, i as int));
            return true;
        }
        i += 1;
    }
    false
}

fn check_unexpected_field(
    parsed: &ParsedSource,
    name: &[u8],
    pairs: &Vec<ArrayPair>,
    fields: &Vec<(Vec<u8>, TypeHint)>,
    k: usize,
) -> (r: Option<Diagnostic>)
    requires
        parsed.wf(),
        k < pairs@.len(),
        forall|m: int|
            0 <= m < pairs@.len() ==> (#[trigger] pairs@[m]).value < parsed.tree.nodes.len() && (
            pairs@[m].key.is_some() ==> pairs@[m].key.unwrap() < parsed.tree.nodes.len()),
    ensures
        match r {
            Some(d) => unexpected_field(
                parsed,
                name@,
                pairs_of(pairs@),
                field_models(fields@),
                k as int,
            ) == seq![d@],
            None => unexpected_field(
                parsed,
                name@,
                pairs_of(pairs@),
                field_models(fields@),
                k as int,
            ) == Seq::<Diag>::empty(),
        },
{
    assert(pairs_of(pairs@)[k as int] == pairs@[k as int]@);
    match pairs[k].key {
        Some(key) => {
            let field = field_name_of(parsed, key);
            if !written_later(parsed, pairs, field, k) && !is_expected(fields, field) {
                let message = field_text("Unexpected field '", field, "' in ", name);
                Some(diagnostic_for_node(parsed, pairs[k].value, Severity::Error, message))
            } else {
                None
            }
        },
        None => None,
    }
}

/// Holds the pairs of the array literal at node `a` against the fields of
/// a shaped array.
#[verifier::loop_isolation(false)]
pub fn check_shaped_array_elements(
    parsed: &ParsedSource,
    name: &[u8],
    a: usize,
    fields: &Vec<(Vec<u8>, TypeHint)>,
) -> (r: Vec<Diagnostic>)
    requires
        parsed.wf(),
        a < parsed.tree.nodes.len(),
    ensures
        diags(r@) == shaped_findings(parsed, name@, a as int, field_models(fields@)),
{
    let pairs = extract_array_key_value_pairs(parsed, a);
    let ghost all = array_pairs(parsed, a as int);
    let ghost f = expected_checker(parsed, name@, a as int, all, field_models(fields@));
    let n = fields.len();
    let mut out: Vec<Diagnostic> = Vec::new();
    let mut i: usize = 0;
    proof {
        assert(diags(out@) + gather(f, 0, n as int) =~= gather(f, 0, n as int));
    }
    while i < n
        invariant
            i <= n,
            gather(f, 0, n as int) == diags(out@) + gather(f, i as int, n as int),
        decreases n - i,
    {
        proof {
            lemma_gather_step(f, diags(out@), i as int, n as int);
            assert(field_models(fields@)[i as int] == (fields@[i as int].0@, fields@[i as int].1@));
        }
        let ghost before = out@;
        match check_expected_field(parsed, name, a, &pairs, fields[i].0.as_slice(), &fields[i].1) {
            Some(d) => {
                proof {
                    lemma_diags_push(before, d);
                }
                out.push(d);
                assert(diags(out@) =~= diags(before) + f(i as int));
            },
            None => {
                assert(diags(before) + f(i as int) =~= diags(before));
            },
        }
        i += 1;
    }
    proof {
        assert(diags(out@) + gather(f, n as int, n as int) =~= diags(out@));
    }
    let ghost first = diags(out@);
    let ghost g = unexpected_checker(parsed, name@, all, field_models(fields@));
    let m = pairs.len();
    let mut k: usize = 0;
    proof {
        assert(diags(out@) + gather(g, 0, m as int) =~= first + gather(g, 0, m as int));
    }
    while k < m
        invariant
            k <= m,
            first + gather(g, 0, m as int) == diags(out@) + gather(g, k as int, m as int),
        decreases m - k,
    {
        proof {
            lemma_gather_step(g, diags(out@), k as int, m as int);
        }
        let ghost before = out@;
        match check_unexpected_field(parsed, name, &pairs, fields, k) {
            Some(d) => {
                proof {
                    lemma_diags_push(before, d);
                }
                out.push(d);
                assert(diags(out@) =~= diags(before) + g(k as int));
            },
            None => {
                assert(diags(before) + g(k as int) =~= diags(before));
            },
        }
        k += 1;
    }
    proof {
        assert(diags(out@) + gather(g, m as int, m as int) =~= diags(out@));
    }
    out
}

/// Holds the array literal at node `a` against the documented type
/// `expected`, written `name`.
pub fn check_array_elements(
    parsed: &ParsedSource,
    subject: Subject,
    name: &[u8],
    a: usize,
    expected: &TypeHint,
) -> (r: Vec<Diagnostic>)
    requires
        parsed.wf(),
        a < parsed.tree.nodes.len(),
    ensures
        diags(r@) == array_findings(parsed, subject, name@, a as int, expected@),
{
    match expected {
        TypeHint::ShapedArray(fields) => {
            proof {
                lemma_shaped_model(*fields);
            }
            if subject == Subject::Variable {
                check_shaped_array_elements(parsed, name, a, fields)
            } else {
                let out: Vec<Diagnostic> = Vec::new();
                assert(diags(out@) =~= Seq::empty());
                out
            }
        },
        TypeHint::GenericArray { key, value } => check_generic_array_elements(
            parsed,
            subject,
            name,
            a,
            key,
            value,
        ),
        TypeHint::Array(element) => check_plain_array_elements(parsed, subject, name, a, element),
        _ => {
            let out: Vec<Diagnostic> = Vec::new();
            assert(diags(out@) =~= Seq::empty());
            out
        },
    }
}

} // verus!
