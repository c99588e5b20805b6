//! The type model shared by the typing rules, and the compatibility relation
//! between an actual type and the type a position expects.

use vstd::prelude::*;
use vstd::slice::slice_subrange;
use vstd::string::StringSliceAdditionalSpecFns;
use crate::analyzer::diagnostic::{text_of, Diag, Diagnostic, Severity};
use crate::analyzer::parser::ParsedSource;
use crate::analyzer::phpdoc::extractor::{doc_for, extract_phpdoc_for_node};
use crate::analyzer::phpdoc::types::{exprs, field_exprs, TypeExpr, TypeExpression};
use crate::analyzer::syntax::first_some;
use crate::analyzer::syntax::{gather, lemma_gather_step, node_ok, Span, SyntaxTree};
use crate::analyzer::text::{
    bytes_eq, contains_bytes, find, line_at_bytes, nth_line, push_all, strip_leading,
    strip_leading_byte, to_vec, trim, trim_bytes,
};

verus! {

/// The mathematical value of a [`TypeHint`].
pub ghost enum Ty {
    Int,
    String,
    Bool,
    Float,
    Object(Seq<u8>),
    Nullable(Box<Ty>),
    Union(Seq<Ty>),
    Array(Box<Ty>),
    GenericArray { key: Box<Ty>, value: Box<Ty> },
    ShapedArray(Seq<(Seq<u8>, Ty)>),
    Unknown,
}

/// A type as the analyzer sees it, whether it was declared natively or in a
/// documentation comment.
#[derive(Debug, PartialEq, Eq)]
pub enum TypeHint {
    Int,
    String,
    Bool,
    Float,
    /// A class or interface, by name.
    Object(Vec<u8>),
    /// Another type, or null.
    Nullable(Box<TypeHint>),
    /// One of several types.
    Union(Vec<TypeHint>),
    /// A list whose elements have one type.
    Array(Box<TypeHint>),
    /// An associative array with a key type and a value type.
    GenericArray { key: Box<TypeHint>, value: Box<TypeHint> },
    /// A record with named fields, in the order in which they were written.
    ShapedArray(Vec<(Vec<u8>, TypeHint)>),
    /// A type that could not be determined.
    Unknown,
}

impl TypeHint {
    /// The mathematical value of this type.
    pub open spec fn model(&self) -> Ty
        decreases self,
    {
        match self {
            TypeHint::Int => Ty::Int,
            TypeHint::String => Ty::String,
            TypeHint::Bool => Ty::Bool,
            TypeHint::Float => Ty::Float,
            TypeHint::Object(name) => Ty::Object(name@),
            TypeHint::Nullable(inner) => Ty::Nullable(Box::new(inner.model())),
            TypeHint::Union(members) => Ty::Union(
                Seq::new(
                    members.len() as nat,
                    |i: int|
                        if 0 <= i < members.len() {
                            members[i].model()
                        } else {
                            Ty::Unknown
                        },
                ),
            ),
            TypeHint::Array(inner) => Ty::Array(Box::new(inner.model())),
            TypeHint::GenericArray { key, value } => Ty::GenericArray {
                key: Box::new(key.model()),
                value: Box::new(value.model()),
            },
            TypeHint::ShapedArray(fields) => Ty::ShapedArray(
                Seq::new(
                    fields.len() as nat,
                    |i: int|
                        if 0 <= i < fields.len() {
                            (fields[i].0@, fields[i].1.model())
                        } else {
                            (Seq::empty(), Ty::Unknown)
                        },
                ),
            ),
            TypeHint::Unknown => Ty::Unknown,
        }
    }
}

impl View for TypeHint {
    type V = Ty;

    open spec fn view(&self) -> Ty {
        self.model()
    }
}

/// Whether `actual` is compatible with at least one of `choices`.
pub open spec fn compatible_with_any(actual: Ty, choices: Seq<Ty>) -> bool
    decreases choices, actual,
{
    exists|i: int| 0 <= i < choices.len() && compatible(actual, #[trigger] choices[i])
}

/// Whether a value of type `actual` may flow into a position that expects
/// `expected`. `Unknown` is compatible with nothing, and nothing is
/// compatible with it; of the other types each is compatible with itself.
pub open spec fn compatible(actual: Ty, expected: Ty) -> bool
    decreases expected, actual,
{
    if actual is Unknown || expected is Unknown {
        false
    } else if actual == expected {
        true
    } else {
        match expected {
            Ty::Union(es) => {
                ||| compatible_with_any(actual, es)
                ||| actual is Union && forall|j: int|
                    0 <= j < actual->Union_0.len() ==> compatible_with_any(
                        #[trigger] actual->Union_0[j],
                        es,
                    )
            },
            Ty::Nullable(e) => {
                ||| compatible(actual, *e)
                ||| actual is Nullable && compatible(*actual->Nullable_0, *e)
            },
            Ty::Array(e) => actual is Array && compatible(*actual->Array_0, *e),
            Ty::GenericArray { key, value } => {
                &&& actual is GenericArray
                &&& compatible(*actual->key, *key)
                &&& compatible(*actual->value, *value)
            },
            _ => actual is Union && forall|j: int|
                0 <= j < actual->Union_0.len() ==> compatible(
                    #[trigger] actual->Union_0[j],
                    expected,
                ),
        }
    }
}

/// How many nullable wrappers stand around a type, looking through unions
/// at the deepest member.
pub open spec fn nullable_depth(t: Ty) -> nat
    decreases t, 0nat,
{
    match t {
        Ty::Nullable(inner) => 1 + nullable_depth(*inner),
        Ty::Union(members) => deepest(members, members.len()),
        _ => 0,
    }
}

/// The greatest nullable depth among the first `upto` of `members`.
pub open spec fn deepest(members: Seq<Ty>, upto: nat) -> nat
    decreases members, upto,
{
    if upto == 0 || upto > members.len() {
        0
    } else {
        let rest = deepest(members, (upto - 1) as nat);
        let here = nullable_depth(members[upto - 1]);
        if here > rest {
            here
        } else {
            rest
        }
    }
}

/// Compatibility is reflexive on every type that is known: each type other
/// than `Unknown` is compatible with itself.
pub proof fn lemma_compatible_reflexive(t: Ty)
    requires
        !(t is Unknown),
    ensures
        compatible(t, t),
{
}

proof fn lemma_deepest_covers(members: Seq<Ty>, upto: nat, j: int)
    requires
        0 <= j < upto <= members.len(),
    ensures
        nullable_depth(members[j]) <= deepest(members, upto),
    decreases upto,
{
    if j < upto - 1 {
        lemma_deepest_covers(members, (upto - 1) as nat, j);
    }
}

proof fn lemma_deepest_bounded(members: Seq<Ty>, upto: nat, bound: nat)
    requires
        upto <= members.len(),
        forall|j: int| 0 <= j < upto ==> nullable_depth(#[trigger] members[j]) <= bound,
    ensures
        deepest(members, upto) <= bound,
    decreases upto,
{
    if upto > 0 {
        lemma_deepest_bounded(members, (upto - 1) as nat, bound);
    }
}

/// A compatible actual type is never wrapped more deeply in nullables than
/// the expected type.
pub proof fn lemma_compatible_depth(actual: Ty, expected: Ty)
    requires
        compatible(actual, expected),
    ensures
        nullable_depth(actual) <= nullable_depth(expected),
    decreases expected, actual,
{
    if actual == expected {
        return ;
    }
    match expected {
        Ty::Union(es) => {
            if compatible_with_any(actual, es) {
                let i = choose|i: int| 0 <= i < es.len() && compatible(actual, #[trigger] es[i]);
                lemma_compatible_depth(actual, es[i]);
                lemma_deepest_covers(es, es.len(), i);
            } else {
                let members = actual->Union_0;
                assert forall|j: int| 0 <= j < members.len() implies nullable_depth(
                    #[trigger] members[j],
                ) <= deepest(es, es.len()) by {
                    assert(compatible_with_any(members[j], es));
                    let i = choose|i: int|
                        0 <= i < es.len() && compatible(members[j], #[trigger] es[i]);
                    lemma_compatible_depth(members[j], es[i]);
                    lemma_deepest_covers(es, es.len(), i);
                }
                lemma_deepest_bounded(members, members.len(), deepest(es, es.len()));
            }
        },
        Ty::Nullable(e) => {
            if compatible(actual, *e) {
                lemma_compatible_depth(actual, *e);
            } else {
                lemma_compatible_depth(*actual->Nullable_0, *e);
            }
        },
        Ty::Array(e) => {},
        Ty::GenericArray { key, value } => {},
        _ => {
            let members = actual->Union_0;
            assert forall|j: int| 0 <= j < members.len() implies nullable_depth(
                #[trigger] members[j],
            ) <= 0 by {
                lemma_compatible_depth(members[j], expected);
            }
            lemma_deepest_bounded(members, members.len(), 0);
        },
    }
}

/// Nullable absorption: a type that is known is compatible with its
/// nullable form, the nullable form is compatible with itself, and the
/// nullable form of a type is never compatible with the type itself.
pub proof fn lemma_nullable_absorption(t: Ty)
    ensures
        !(t is Unknown) ==> compatible(t, Ty::Nullable(Box::new(t))),
        compatible(Ty::Nullable(Box::new(t)), Ty::Nullable(Box::new(t))),
        !compatible(Ty::Nullable(Box::new(t)), t),
{
    if !(t is Unknown) {
        lemma_compatible_reflexive(t);
    }
    if compatible(Ty::Nullable(Box::new(t)), t) {
        lemma_compatible_depth(Ty::Nullable(Box::new(t)), t);
    }
}

/// Union containment: every member of a union that is known is compatible
/// with the union.
pub proof fn lemma_union_contains_member(members: Seq<Ty>, i: int)
    requires
        0 <= i < members.len(),
        !(members[i] is Unknown),
    ensures
        compatible(members[i], Ty::Union(members)),
{
    lemma_compatible_reflexive(members[i]);
    assert(compatible_with_any(members[i], members));
}

/// `Unknown` is compatible with no type, itself included.
pub proof fn lemma_unknown_as_actual(t: Ty)
    ensures
        !compatible(Ty::Unknown, t),
{
}

/// No type is compatible with `Unknown`, itself included.
pub proof fn lemma_unknown_as_expected(t: Ty)
    ensures
        !compatible(t, Ty::Unknown),
{
}

/// The mathematical values of a list of types.
pub open spec fn models(members: Seq<TypeHint>) -> Seq<Ty> {
    Seq::new(members.len(), |i: int| members[i].model())
}

/// The mathematical values of the fields of a shaped array.
pub open spec fn field_models(fields: Seq<(Vec<u8>, TypeHint)>) -> Seq<(Seq<u8>, Ty)> {
    Seq::new(fields.len(), |i: int| (fields[i].0@, fields[i].1.model()))
}

/// The value of a union is the union of its members' values.
pub proof fn lemma_union_model(members: Vec<TypeHint>)
    ensures
        TypeHint::Union(members).model() == Ty::Union(models(members@)),
{
    assert(TypeHint::Union(members).model()->Union_0 =~= models(members@));
}

/// The value of a shaped array lists its fields' values.
pub proof fn lemma_shaped_model(fields: Vec<(Vec<u8>, TypeHint)>)
    ensures
        TypeHint::ShapedArray(fields).model() == Ty::ShapedArray(field_models(fields@)),
{
    assert(TypeHint::ShapedArray(fields).model()->ShapedArray_0 =~= field_models(fields@));
}

impl TypeHint {
    /// A copy of the type.
    #[verifier::loop_isolation(false)]
    pub fn duplicate(&self) -> (r: Self)
        ensures
            r.model() == self.model(),
        decreases self,
    {
        match self {
            TypeHint::Int => TypeHint::Int,
            TypeHint::String => TypeHint::String,
            TypeHint::Bool => TypeHint::Bool,
            TypeHint::Float => TypeHint::Float,
            TypeHint::Unknown => TypeHint::Unknown,
            TypeHint::Object(name) => TypeHint::Object(to_vec(name.as_slice())),
            TypeHint::Nullable(inner) => TypeHint::Nullable(Box::new(inner.duplicate())),
            TypeHint::Array(inner) => TypeHint::Array(Box::new(inner.duplicate())),
            TypeHint::GenericArray { key, value } => TypeHint::GenericArray {
                key: Box::new(key.duplicate()),
                value: Box::new(value.duplicate()),
            },
            TypeHint::Union(members) => {
                let mut copies: Vec<TypeHint> = Vec::new();
                let mut i: usize = 0;
                while i < members.len()
                    invariant
                        i <= members.len(),
                        models(copies@) == models(members@).subrange(0, i as int),
                    decreases members.len() - i,
                {
                    let ghost before = copies@;
                    let copy = members[i].duplicate();
                    copies.push(copy);
                    assert(models(copies@) =~= models(members@).subrange(0, i + 1)) by {
                        assert(models(copies@) =~= models(before).push(copy.model()));
                    }
                    i += 1;
                }
                proof {
                    assert(models(members@).subrange(0, members@.len() as int) =~= models(
                        members@,
                    ));
                    lemma_union_model(*members);
                    lemma_union_model(copies);
                }
                TypeHint::Union(copies)
            },
            TypeHint::ShapedArray(fields) => {
                let mut copies: Vec<(Vec<u8>, TypeHint)> = Vec::new();
                let mut i: usize = 0;
                while i < fields.len()
                    invariant
                        i <= fields.len(),
                        field_models(copies@) == field_models(fields@).subrange(0, i as int),
                    decreases fields.len() - i,
                {
                    let ghost before = copies@;
                    let entry = (to_vec(fields[i].0.as_slice()), fields[i].1.duplicate());
                    copies.push(entry);
                    assert(field_models(copies@) =~= field_models(fields@).subrange(0, i + 1)) by {
                        assert(field_models(copies@) =~= field_models(before).push(
                            (entry.0@, entry.1.model()),
                        ));
                    }
                    i += 1;
                }
                proof {
                    assert(field_models(fields@).subrange(0, fields@.len() as int)
                        =~= field_models(fields@));
                    lemma_shaped_model(*fields);
                    lemma_shaped_model(copies);
                }
                TypeHint::ShapedArray(copies)
            },
        }
    }
}

impl Clone for TypeHint {
    fn clone(&self) -> (r: Self)
        ensures
            r.model() == self.model(),
    {
        self.duplicate()
    }
}

/// Whether two types are structurally equal.
#[verifier::loop_isolation(false)]
pub fn same_type(a: &TypeHint, b: &TypeHint) -> (r: bool)
    ensures
        r == (a@ == b@),
    decreases a,
{
    match (a, b) {
        (TypeHint::Int, TypeHint::Int) => true,
        (TypeHint::String, TypeHint::String) => true,
        (TypeHint::Bool, TypeHint::Bool) => true,
        (TypeHint::Float, TypeHint::Float) => true,
        (TypeHint::Unknown, TypeHint::Unknown) => true,
        (TypeHint::Object(x), TypeHint::Object(y)) => bytes_eq(x.as_slice(), y.as_slice()),
        (TypeHint::Nullable(x), TypeHint::Nullable(y)) => same_type(x, y),
        (TypeHint::Array(x), TypeHint::Array(y)) => same_type(x, y),
        (
            TypeHint::GenericArray { key: xk, value: xv },
            TypeHint::GenericArray { key: yk, value: yv },
        ) => same_type(xk, yk) && same_type(xv, yv),
        (TypeHint::Union(xs), TypeHint::Union(ys)) => {
            proof {
                lemma_union_model(*xs);
                lemma_union_model(*ys);
            }
            if xs.len() != ys.len() {
                assert(models(xs@).len() != models(ys@).len());
                return false;
            }
            let mut i: usize = 0;
            while i < xs.len()
                invariant
                    i <= xs.len(),
                    xs.len() == ys.len(),
                    forall|k: int| 0 <= k < i ==> xs[k].model() == ys[k].model(),
                decreases xs.len() - i,
            {
                if !same_type(&xs[i], &ys[i]) {
                    assert(models(xs@)[i as int] != models(ys@)[i as int]);
                    return false;
                }
                i += 1;
            }
            assert(models(xs@) =~= models(ys@));
            true
        },
        (TypeHint::ShapedArray(xs), TypeHint::ShapedArray(ys)) => {
            proof {
                lemma_shaped_model(*xs);
                lemma_shaped_model(*ys);
            }
            if xs.len() != ys.len() {
                assert(field_models(xs@).len() != field_models(ys@).len());
                return false;
            }
            let mut i: usize = 0;
            while i < xs.len()
                invariant
                    i <= xs.len(),
                    xs.len() == ys.len(),
                    forall|k: int|
                        0 <= k < i ==> xs[k].0@ == ys[k].0@ && xs[k].1.model() == ys[k].1.model(),
                decreases xs.len() - i,
            {
                let same_name = bytes_eq(xs[i].0.as_slice(), ys[i].0.as_slice());
                if !same_name || !same_type(&xs[i].1, &ys[i].1) {
                    assert(field_models(xs@)[i as int] != field_models(ys@)[i as int]);
                    return false;
                }
                i += 1;
            }
            assert(field_models(xs@) =~= field_models(ys@));
            true
        },
        _ => false,
    }
}

/// Whether `t` is `Unknown`.
fn is_unknown(t: &TypeHint) -> (r: bool)
    ensures
        r == (t@ is Unknown),
{
    match t {
        TypeHint::Unknown => true,
        _ => false,
    }
}

/// Whether `actual` is compatible with at least one of `choices`.
#[verifier::loop_isolation(false)]
fn is_compatible_with_any(actual: &TypeHint, choices: &Vec<TypeHint>) -> (r: bool)
    ensures
        r == compatible_with_any(actual@, models(choices@)),
    decreases choices, actual,
{
    let mut i: usize = 0;
    while i < choices.len()
        invariant
            i <= choices.len(),
            forall|k: int| 0 <= k < i ==> !compatible(actual@, #[trigger] models(choices@)[k]),
        decreases choices.len() - i,
    {
        if is_type_compatible(actual, &choices[i]) {
            assert(compatible(actual@, models(choices@)[i as int]));
            return true;
        }
        i += 1;
    }
    false
}

/// Checks whether `actual` is compatible with (a subset of) `expected`:
/// `int` with `int|string`, `string` with `?string`, and every known type
/// with itself. `Unknown` is compatible with nothing, and nothing with it.
#[verifier::loop_isolation(false)]
pub fn is_type_compatible(actual: &TypeHint, expected: &TypeHint) -> (r: bool)
    ensures
        r == compatible(actual@, expected@),
    decreases expected, actual,
{
    if is_unknown(actual) || is_unknown(expected) {
        return false;
    }
    if same_type(actual, expected) {
        return true;
    }
    match expected {
        TypeHint::Union(expected_types) => {
            proof {
                lemma_union_model(*expected_types);
            }
            if is_compatible_with_any(actual, expected_types) {
                return true;
            }
            match actual {
                TypeHint::Union(actual_types) => {
                    proof {
                        lemma_union_model(*actual_types);
                    }
                    let mut j: usize = 0;
                    while j < actual_types.len()
                        invariant
                            j <= actual_types.len(),
                            forall|k: int|
                                0 <= k < j ==> compatible_with_any(
                                    #[trigger] models(actual_types@)[k],
                                    models(expected_types@),
                                ),
                        decreases actual_types.len() - j,
                    {
                        if !is_compatible_with_any(&actual_types[j], expected_types) {
                            assert(!compatible_with_any(
                                models(actual_types@)[j as int],
                                models(expected_types@),
                            ));
                            assert(actual@->Union_0[j as int] == models(actual_types@)[j as int]);
                            return false;
                        }
                        j += 1;
                    }
                    true
                },
                _ => false,
            }
        },
        TypeHint::Nullable(expected_inner) => {
            if is_type_compatible(actual, expected_inner) {
                return true;
            }
            match actual {
                TypeHint::Nullable(actual_inner) => is_type_compatible(actual_inner, expected_inner),
                _ => false,
            }
        },
        TypeHint::Array(expected_elem) => {
            match actual {
                TypeHint::Array(actual_elem) => is_type_compatible(actual_elem, expected_elem),
                _ => false,
            }
        },
        TypeHint::GenericArray { key: expected_key, value: expected_value } => {
            match actual {
                TypeHint::GenericArray { key: actual_key, value: actual_value } => {
                    is_type_compatible(actual_key, expected_key) && is_type_compatible(
                        actual_value,
                        expected_value,
                    )
                },
                _ => false,
            }
        },
        _ => {
            match actual {
                TypeHint::Union(actual_types) => {
                    proof {
                        lemma_union_model(*actual_types);
                    }
                    let mut j: usize = 0;
                    while j < actual_types.len()
                        invariant
                            j <= actual_types.len(),
                            forall|k: int|
                                0 <= k < j ==> compatible(
                                    #[trigger] models(actual_types@)[k],
                                    expected@,
                                ),
                        decreases actual_types.len() - j,
                    {
                        if !is_type_compatible(&actual_types[j], expected) {
                            assert(!compatible(models(actual_types@)[j as int], expected@));
                            assert(actual@->Union_0[j as int] == models(actual_types@)[j as int]);
                            return false;
                        }
                        j += 1;
                    }
                    true
                },
                _ => false,
            }
        },
    }
}

/// The text that node `i` covers, without white space around it.
pub open spec fn node_text_of(parsed: &ParsedSource, i: int) -> Seq<u8> {
    trim(
        parsed.source@.subrange(
            parsed.tree.nodes[i].start_byte as int,
            parsed.tree.nodes[i].end_byte as int,
        ),
    )
}

/// The name of the variable at node `i`, without its `$`.
pub open spec fn variable_name_of(parsed: &ParsedSource, i: int) -> Seq<u8> {
    strip_leading(node_text_of(parsed, i), 36)
}

/// The span of node `i`.
pub open spec fn span_at(parsed: &ParsedSource, i: int) -> Span {
    Span { start: parsed.tree.nodes[i].start, end: parsed.tree.nodes[i].end }
}

/// The width of the caret under a finding: the width of the span when it
/// lies on one row, and at least one column.
pub open spec fn caret_width(span: Span) -> usize {
    if span.start.row == span.end.row && span.end.column > span.start.column {
        (span.end.column - span.start.column) as usize
    } else {
        1
    }
}

/// The diagnostic for a finding at `span` in the file `path` with the text
/// `source`: it shows the line of the finding and the lines around it, and
/// points at the start of the span.
pub open spec fn diagnostic_at(
    path: Seq<u8>,
    source: Seq<u8>,
    span: Span,
    severity: Severity,
    message: Seq<u8>,
) -> Diag {
    Diag {
        file: path,
        severity,
        message,
        rule_name: None,
        span: Some(span),
        snippet_before: if span.start.row > 0 {
            nth_line(source, (span.start.row - 1) as nat)
        } else {
            None
        },
        snippet_line: nth_line(source, span.start.row as nat),
        snippet_after: if span.start.row < usize::MAX {
            nth_line(source, (span.start.row + 1) as nat)
        } else {
            None
        },
        caret_col: Some(span.start.column),
        caret_len: caret_width(span),
    }
}

/// The text that node `node` covers, without white space around it.
pub fn node_text<'a>(parsed: &'a ParsedSource, node: usize) -> (r: &'a [u8])
    requires
        parsed.wf(),
        node < parsed.tree.nodes.len(),
    ensures
        r@ == node_text_of(parsed, node as int),
{
    assert(node_ok(parsed.tree.nodes@, node as int));
    let n = &parsed.tree.nodes[node];
    trim_bytes(slice_subrange(parsed.source.as_slice(), n.start_byte, n.end_byte))
}

/// The name of the variable at node `node`, without its `$`.
pub fn variable_name_text<'a>(parsed: &'a ParsedSource, node: usize) -> (r: &'a [u8])
    requires
        parsed.wf(),
        node < parsed.tree.nodes.len(),
    ensures
        r@ == variable_name_of(parsed, node as int),
{
    strip_leading_byte(node_text(parsed, node), 36)
}

/// The span of node `node`.
pub fn span_of(parsed: &ParsedSource, node: usize) -> (r: Span)
    requires
        node < parsed.tree.nodes.len(),
    ensures
        r == span_at(parsed, node as int),
{
    Span { start: parsed.tree.nodes[node].start, end: parsed.tree.nodes[node].end }
}

fn line_option(source: &[u8], row: usize) -> (r: Option<Vec<u8>>)
    ensures
        text_of(r) == nth_line(source@, row as nat),
{
    line_at_bytes(source, row)
}

/// A diagnostic for a finding at `span` of the parsed file.
pub fn diagnostic_for_span(
    parsed: &ParsedSource,
    span: Span,
    severity: Severity,
    message: Vec<u8>,
) -> (d: Diagnostic)
    ensures
        d@ == diagnostic_at(parsed.path@, parsed.source@, span, severity, message@),
{
    let source = parsed.source.as_slice();
    let snippet_before = if span.start.row > 0 {
        line_option(source, span.start.row - 1)
    } else {
        None
    };
    let snippet_line = line_option(source, span.start.row);
    let snippet_after = if span.start.row < usize::MAX {
        line_option(source, span.start.row + 1)
    } else {
        None
    };
    let caret_len = if span.start.row == span.end.row && span.end.column > span.start.column {
        span.end.column - span.start.column
    } else {
        1
    };
    let file = crate::analyzer::text::to_vec(parsed.path.as_slice());
    Diagnostic::with_span(
        file,
        severity,
        message,
        span,
        snippet_before,
        snippet_line,
        snippet_after,
        Some(span.start.column),
        caret_len,
    )
}

/// A diagnostic for a finding at node `node` of the parsed file.
pub fn diagnostic_for_node(
    parsed: &ParsedSource,
    node: usize,
    severity: Severity,
    message: Vec<u8>,
) -> (d: Diagnostic)
    requires
        node < parsed.tree.nodes.len(),
    ensures
        d@ == diagnostic_at(
            parsed.path@,
            parsed.source@,
            span_at(parsed, node as int),
            severity,
            message@,
        ),
{
    diagnostic_for_span(parsed, span_of(parsed, node), severity, message)
}

/// The text of line number `row` of `source`, counted from zero.
pub fn line_at(source: &str, row: usize) -> (r: Option<Vec<u8>>)
    ensures
        text_of(r) == nth_line(source.spec_bytes(), row as nat),
{
    line_at_bytes(source.as_bytes(), row)
}

/// The line ending that `source` uses: carriage return and line feed when
/// that pair occurs in it, a line feed otherwise.
pub fn newline_for_source(source: &str) -> (r: &'static str)
    ensures
        r == (if find(source.spec_bytes(), "\r\n".spec_bytes()).is_some() {
            "\r\n"
        } else {
            "\n"
        }),
{
    if contains_bytes(source.as_bytes(), "\r\n".as_bytes()) {
        "\r\n"
    } else {
        "\n"
    }
}

/// The kind of a literal argument.
#[derive(Debug, Clone, Copy, PartialEq, Eq, Structural)]
pub enum LiteralKind {
    Integer,
    String,
}

/// The parameter types of a function.
#[derive(Debug)]
pub struct FunctionSignature {
    pub params: Vec<TypeHint>,
}

/// Whether a type keeps the invariant of the type model: no union in it is
/// empty.
pub open spec fn well_formed(t: Ty) -> bool
    decreases t,
{
    match t {
        Ty::Nullable(inner) => well_formed(*inner),
        Ty::Union(members) => members.len() > 0 && forall|i: int|
            0 <= i < members.len() ==> well_formed(#[trigger] members[i]),
        Ty::Array(inner) => well_formed(*inner),
        Ty::GenericArray { key, value } => well_formed(*key) && well_formed(*value),
        Ty::ShapedArray(fields) => forall|i: int|
            0 <= i < fields.len() ==> well_formed((#[trigger] fields[i]).1),
        _ => true,
    }
}

/// The type that a simple name of a documentation comment stands for.
pub open spec fn named(name: Seq<u8>) -> Ty {
    if name == "int".spec_bytes() || name == "integer".spec_bytes() {
        Ty::Int
    } else if name == "string".spec_bytes() {
        Ty::String
    } else if name == "bool".spec_bytes() || name == "boolean".spec_bytes() {
        Ty::Bool
    } else if name == "float".spec_bytes() || name == "double".spec_bytes() {
        Ty::Float
    } else {
        Ty::Object(name)
    }
}

/// The types that `list` converts to, if every one of them converts.
pub open spec fn converted_all(list: Seq<TypeExpr>) -> Option<Seq<Ty>>
    decreases list,
{
    if forall|i: int| 0 <= i < list.len() ==> converted(#[trigger] list[i]).is_some() {
        Some(
            Seq::new(
                list.len(),
                |i: int|
                    if 0 <= i < list.len() {
                        converted(list[i]).unwrap()
                    } else {
                        Ty::Unknown
                    },
            ),
        )
    } else {
        None
    }
}

/// The fields that `list` converts to, if the type of every one converts.
pub open spec fn converted_fields(list: Seq<(Seq<u8>, TypeExpr)>) -> Option<Seq<(Seq<u8>, Ty)>>
    decreases list,
{
    if forall|i: int| 0 <= i < list.len() ==> converted((#[trigger] list[i]).1).is_some() {
        Some(
            Seq::new(
                list.len(),
                |i: int|
                    if 0 <= i < list.len() {
                        (list[i].0, converted(list[i].1).unwrap())
                    } else {
                        (Seq::empty(), Ty::Unknown)
                    },
            ),
        )
    } else {
        None
    }
}

/// The type that a documentation type expression converts to. Simple names
/// become primitives or objects; `?T`, `T[]` and shaped arrays convert part
/// by part; a union converts member by member, and not at all if a member
/// does not convert or there is none; of the generic types only `array`
/// with a key and a value converts. Nothing else converts.
pub open spec fn converted(e: TypeExpr) -> Option<Ty>
    decreases e,
{
    match e {
        TypeExpr::Simple(name) => Some(named(name)),
        TypeExpr::Nullable(inner) => match converted(*inner) {
            Some(t) => Some(Ty::Nullable(Box::new(t))),
            None => None,
        },
        TypeExpr::Union(members) => match converted_all(members) {
            Some(list) => if list.len() > 0 {
                Some(Ty::Union(list))
            } else {
                None
            },
            None => None,
        },
        TypeExpr::Array(inner) => match converted(*inner) {
            Some(t) => Some(Ty::Array(Box::new(t))),
            None => None,
        },
        TypeExpr::Generic { base, params } => if base == "array".spec_bytes() && params.len() == 2 {
            match (converted(params[0]), converted(params[1])) {
                (Some(key), Some(value)) => Some(
                    Ty::GenericArray { key: Box::new(key), value: Box::new(value) },
                ),
                _ => None,
            }
        } else {
            None
        },
        TypeExpr::ShapedArray(fields) => match converted_fields(fields) {
            Some(list) => Some(Ty::ShapedArray(list)),
            None => None,
        },
        _ => None,
    }
}

/// Conversion keeps the invariant of the type model: what a type expression
/// converts to holds no empty union.
pub proof fn lemma_converted_is_well_formed(e: TypeExpr)
    ensures
        converted(e).is_some() ==> well_formed(converted(e).unwrap()),
    decreases e,
{
    match e {
        TypeExpr::Nullable(inner) => {
            lemma_converted_is_well_formed(*inner);
        },
        TypeExpr::Array(inner) => {
            lemma_converted_is_well_formed(*inner);
        },
        TypeExpr::Union(members) => {
            if converted(e).is_some() {
                let list = converted_all(members).unwrap();
                assert forall|i: int| 0 <= i < list.len() implies well_formed(
                    #[trigger] list[i],
                ) by {
                    assert(converted(members[i]).is_some());
                    lemma_converted_is_well_formed(members[i]);
                }
            }
        },
        TypeExpr::Generic { base, params } => {
            if converted(e).is_some() {
                lemma_converted_is_well_formed(params[0]);
                lemma_converted_is_well_formed(params[1]);
            }
        },
        TypeExpr::ShapedArray(fields) => {
            if converted(e).is_some() {
                let list = converted_fields(fields).unwrap();
                assert forall|i: int| 0 <= i < list.len() implies well_formed(
                    (#[trigger] list[i]).1,
                ) by {
                    assert(converted(fields[i].1).is_some());
                    lemma_converted_is_well_formed(fields[i].1);
                }
            }
        },
        _ => {},
    }
}

/// The type that a simple name of a documentation comment stands for.
pub fn named_hint(name: &[u8]) -> (r: TypeHint)
    ensures
        r@ == named(name@),
{
    if bytes_eq(name, "int".as_bytes()) || bytes_eq(name, "integer".as_bytes()) {
        TypeHint::Int
    } else if bytes_eq(name, "string".as_bytes()) {
        TypeHint::String
    } else if bytes_eq(name, "bool".as_bytes()) || bytes_eq(name, "boolean".as_bytes()) {
        TypeHint::Bool
    } else if bytes_eq(name, "float".as_bytes()) || bytes_eq(name, "double".as_bytes()) {
        TypeHint::Float
    } else {
        TypeHint::Object(to_vec(name))
    }
}

#[verifier::loop_isolation(false)]
fn convert_all(list: &Vec<TypeExpression>) -> (r: Option<Vec<TypeHint>>)
    ensures
        match r {
            Some(hints) => converted_all(exprs(list@)) == Some(models(hints@)),
            None => converted_all(exprs(list@)).is_none(),
        },
    decreases list, 0nat,
{
    let mut out: Vec<TypeHint> = Vec::new();
    let mut i: usize = 0;
    while i < list.len()
        invariant
            i <= list.len(),
            out@.len() == i,
            forall|k: int|
                0 <= k < i ==> converted(#[trigger] exprs(list@)[k]) == Some(out@[k].model()),
        decreases list.len() - i,
    {
        match type_expression_to_hint(&list[i]) {
            Some(h) => {
                out.push(h);
            },
            None => {
                assert(converted(exprs(list@)[i as int]).is_none());
                return None;
            },
        }
        i += 1;
    }
    proof {
        let all = exprs(list@);
        assert forall|k: int| 0 <= k < all.len() implies converted(#[trigger] all[k]).is_some() by {
            assert(converted(exprs(list@)[k]) == Some(out@[k].model()));
        }
        assert(converted_all(all).unwrap() =~= models(out@));
    }
    Some(out)
}

#[verifier::loop_isolation(false)]
fn convert_fields(list: &Vec<(Vec<u8>, TypeExpression)>) -> (r: Option<Vec<(Vec<u8>, TypeHint)>>)
    ensures
        match r {
            Some(fields) => converted_fields(field_exprs(list@)) == Some(field_models(fields@)),
            None => converted_fields(field_exprs(list@)).is_none(),
        },
    decreases list, 0nat,
{
    let mut out: Vec<(Vec<u8>, TypeHint)> = Vec::new();
    let mut i: usize = 0;
    while i < list.len()
        invariant
            i <= list.len(),
            out@.len() == i,
            forall|k: int|
                0 <= k < i ==> converted((#[trigger] field_exprs(list@)[k]).1) == Some(
                    out@[k].1.model(),
                ) && out@[k].0@ == list@[k].0@,
        decreases list.len() - i,
    {
        match type_expression_to_hint(&list[i].1) {
            Some(h) => {
                out.push((to_vec(list[i].0.as_slice()), h));
            },
            None => {
                assert(converted(field_exprs(list@)[i as int].1).is_none());
                return None;
            },
        }
        i += 1;
    }
    proof {
        let all = field_exprs(list@);
        assert forall|k: int| 0 <= k < all.len() implies converted(
            (#[trigger] all[k]).1,
        ).is_some() by {
            assert(converted(field_exprs(list@)[k].1) == Some(out@[k].1.model()));
        }
        assert(converted_fields(all).unwrap() =~= field_models(out@));
    }
    Some(out)
}

/// Converts a documentation type expression to a type.
pub fn type_expression_to_hint(expr: &TypeExpression) -> (r: Option<TypeHint>)
    ensures
        match r {
            Some(hint) => converted(expr@) == Some(hint@),
            None => converted(expr@).is_none(),
        },
    decreases expr, 1nat,
{
    match expr {
        TypeExpression::Simple(name) => Some(named_hint(name.as_slice())),
        TypeExpression::Nullable(inner) => match type_expression_to_hint(inner) {
            Some(t) => Some(TypeHint::Nullable(Box::new(t))),
            None => None,
        },
        TypeExpression::Union(members) => {
            proof {
                TypeExpression::lemma_union_model(*members);
            }
            match convert_all(members) {
                Some(list) => {
                    if list.len() > 0 {
                        proof {
                            lemma_union_model(list);
                        }
                        Some(TypeHint::Union(list))
                    } else {
                        None
                    }
                },
                None => None,
            }
        },
        TypeExpression::Array(inner) => match type_expression_to_hint(inner) {
            Some(t) => Some(TypeHint::Array(Box::new(t))),
            None => None,
        },
        TypeExpression::Generic { base, params } => {
            proof {
                TypeExpression::lemma_generic_model(*base, *params);
            }
            if bytes_eq(base.as_slice(), "array".as_bytes()) && params.len() == 2 {
                match type_expression_to_hint(&params[0]) {
                    Some(key) => match type_expression_to_hint(&params[1]) {
                        Some(value) => Some(
                            TypeHint::GenericArray { key: Box::new(key), value: Box::new(value) },
                        ),
                        None => None,
                    },
                    None => None,
                }
            } else {
                None
            }
        },
        TypeExpression::ShapedArray(fields) => {
            proof {
                TypeExpression::lemma_shaped_model(*fields);
            }
            match convert_fields(fields) {
                Some(list) => {
                    proof {
                        lemma_shaped_model(list);
                    }
                    Some(TypeHint::ShapedArray(list))
                },
                None => None,
            }
        },
        _ => None,
    }
}

/// How a type is written in messages.
pub open spec fn shown(t: Ty) -> Seq<u8>
    decreases t, 0nat,
{
    match t {
        Ty::Int => "int".spec_bytes(),
        Ty::String => "string".spec_bytes(),
        Ty::Bool => "bool".spec_bytes(),
        Ty::Float => "float".spec_bytes(),
        Ty::Object(name) => name,
        Ty::Nullable(inner) => "?".spec_bytes() + shown(*inner),
        Ty::Union(members) => shown_members(members, members.len()),
        Ty::Array(inner) => shown(*inner) + "[]".spec_bytes(),
        Ty::GenericArray { key, value } => "array<".spec_bytes() + shown(*key) + ", ".spec_bytes()
            + shown(*value) + ">".spec_bytes(),
        Ty::ShapedArray(fields) => "array{".spec_bytes() + shown_fields(fields, fields.len())
            + "}".spec_bytes(),
        Ty::Unknown => "unknown".spec_bytes(),
    }
}

/// The first `upto` of `members`, joined by bars.
pub open spec fn shown_members(members: Seq<Ty>, upto: nat) -> Seq<u8>
    decreases members, upto,
{
    if upto == 0 || upto > members.len() {
        Seq::empty()
    } else if upto == 1 {
        shown(members[0])
    } else {
        shown_members(members, (upto - 1) as nat) + "|".spec_bytes() + shown(members[upto - 1])
    }
}

/// The first `upto` of `fields`, each as name, colon and type, joined by
/// commas.
pub open spec fn shown_fields(fields: Seq<(Seq<u8>, Ty)>, upto: nat) -> Seq<u8>
    decreases fields, upto,
{
    if upto == 0 || upto > fields.len() {
        Seq::empty()
    } else if upto == 1 {
        fields[0].0 + ": ".spec_bytes() + shown(fields[0].1)
    } else {
        shown_fields(fields, (upto - 1) as nat) + ", ".spec_bytes() + fields[upto - 1].0
            + ": ".spec_bytes() + shown(fields[upto - 1].1)
    }
}

/// Writes a type as it stands in messages.
#[verifier::loop_isolation(false)]
pub fn type_hint_to_string(hint: &TypeHint) -> (r: Vec<u8>)
    ensures
        r@ == shown(hint@),
    decreases hint,
{
    let mut out: Vec<u8> = Vec::new();
    match hint {
        TypeHint::Int => {
            push_all(&mut out, "int".as_bytes());
            assert(out@ =~= "int".spec_bytes());
        },
        TypeHint::String => {
            push_all(&mut out, "string".as_bytes());
            assert(out@ =~= "string".spec_bytes());
        },
        TypeHint::Bool => {
            push_all(&mut out, "bool".as_bytes());
            assert(out@ =~= "bool".spec_bytes());
        },
        TypeHint::Float => {
            push_all(&mut out, "float".as_bytes());
            assert(out@ =~= "float".spec_bytes());
        },
        TypeHint::Unknown => {
            push_all(&mut out, "unknown".as_bytes());
            assert(out@ =~= "unknown".spec_bytes());
        },
        TypeHint::Object(name) => {
            push_all(&mut out, name.as_slice());
            assert(out@ =~= name@);
        },
        TypeHint::Nullable(inner) => {
            push_all(&mut out, "?".as_bytes());
            let text = type_hint_to_string(inner);
            push_all(&mut out, text.as_slice());
            assert(out@ =~= "?".spec_bytes() + shown(inner.model()));
        },
        TypeHint::Array(inner) => {
            let text = type_hint_to_string(inner);
            push_all(&mut out, text.as_slice());
            push_all(&mut out, "[]".as_bytes());
            assert(out@ =~= shown(inner.model()) + "[]".spec_bytes());
        },
        TypeHint::GenericArray { key, value } => {
            push_all(&mut out, "array<".as_bytes());
            let k = type_hint_to_string(key);
            push_all(&mut out, k.as_slice());
            push_all(&mut out, ", ".as_bytes());
            let v = type_hint_to_string(value);
            push_all(&mut out, v.as_slice());
            push_all(&mut out, ">".as_bytes());
            assert(out@ =~= "array<".spec_bytes() + shown(key.model()) + ", ".spec_bytes() + shown(
                value.model(),
            ) + ">".spec_bytes());
        },
        TypeHint::Union(members) => {
            proof {
                lemma_union_model(*members);
            }
            let ghost all = models(members@);
            let mut i: usize = 0;
            while i < members.len()
                invariant
                    i <= members.len(),
                    out@ == shown_members(all, i as nat),
                decreases members.len() - i,
            {
                let ghost before = out@;
                if i > 0 {
                    push_all(&mut out, "|".as_bytes());
                }
                let text = type_hint_to_string(&members[i]);
                push_all(&mut out, text.as_slice());
                proof {
                    assert(all[i as int] == members@[i as int].model());
                    if i > 0 {
                        assert(out@ =~= before + "|".spec_bytes() + shown(all[i as int]));
                    } else {
                        assert(out@ =~= shown(all[0]));
                    }
                }
                i += 1;
            }
        },
        TypeHint::ShapedArray(fields) => {
            proof {
                lemma_shaped_model(*fields);
            }
            let ghost all = field_models(fields@);
            push_all(&mut out, "array{".as_bytes());
            let mut inner: Vec<u8> = Vec::new();
            let mut i: usize = 0;
            while i < fields.len()
                invariant
                    i <= fields.len(),
                    inner@ == shown_fields(all, i as nat),
                decreases fields.len() - i,
            {
                let ghost before = inner@;
                if i > 0 {
                    push_all(&mut inner, ", ".as_bytes());
                }
                push_all(&mut inner, fields[i].0.as_slice());
                push_all(&mut inner, ": ".as_bytes());
                let text = type_hint_to_string(&fields[i].1);
                push_all(&mut inner, text.as_slice());
                proof {
                    assert(all[i as int] == (fields@[i as int].0@, fields@[i as int].1.model()));
                    if i > 0 {
                        assert(inner@ =~= before + ", ".spec_bytes() + all[i as int].0
                            + ": ".spec_bytes() + shown(all[i as int].1));
                    } else {
                        assert(inner@ =~= all[0].0 + ": ".spec_bytes() + shown(all[0].1));
                    }
                }
                i += 1;
            }
            push_all(&mut out, inner.as_slice());
            push_all(&mut out, "}".as_bytes());
            assert(out@ =~= "array{".spec_bytes() + shown_fields(all, all.len()) + "}".spec_bytes());
        },
    }
    out
}

/// The type of a literal of the kind `kind`.
pub open spec fn literal_ty(kind: Seq<u8>) -> Option<Ty> {
    if kind == "string".spec_bytes() || kind == "encapsed_string".spec_bytes() {
        Some(Ty::String)
    } else if kind == "integer".spec_bytes() {
        Some(Ty::Int)
    } else if kind == "boolean".spec_bytes() {
        Some(Ty::Bool)
    } else if kind == "float".spec_bytes() {
        Some(Ty::Float)
    } else {
        None
    }
}

/// The type of the literal at node `node`, if the node is a literal.
pub fn literal_type(parsed: &ParsedSource, node: usize) -> (r: Option<TypeHint>)
    requires
        node < parsed.tree.nodes.len(),
    ensures
        match r {
            Some(h) => literal_ty(parsed.tree.kind_of(node as int)) == Some(h@),
            None => literal_ty(parsed.tree.kind_of(node as int)).is_none(),
        },
{
    if parsed.tree.is_kind(node, "string") || parsed.tree.is_kind(node, "encapsed_string") {
        Some(TypeHint::String)
    } else if parsed.tree.is_kind(node, "integer") {
        Some(TypeHint::Int)
    } else if parsed.tree.is_kind(node, "boolean") {
        Some(TypeHint::Bool)
    } else if parsed.tree.is_kind(node, "float") {
        Some(TypeHint::Float)
    } else {
        None
    }
}

/// The kind of literal that a node of the kind `kind` is.
pub open spec fn literal_kind_of(kind: Seq<u8>) -> Option<LiteralKind> {
    if kind == "string".spec_bytes() || kind == "encapsed_string".spec_bytes() {
        Some(LiteralKind::String)
    } else if kind == "integer".spec_bytes() {
        Some(LiteralKind::Integer)
    } else {
        None
    }
}

/// The kind of the literal at node `node`, if the node is a string or an
/// integer.
pub fn literal_kind(parsed: &ParsedSource, node: usize) -> (r: Option<LiteralKind>)
    requires
        node < parsed.tree.nodes.len(),
    ensures
        r == literal_kind_of(parsed.tree.kind_of(node as int)),
{
    if parsed.tree.is_kind(node, "string") || parsed.tree.is_kind(node, "encapsed_string") {
        Some(LiteralKind::String)
    } else if parsed.tree.is_kind(node, "integer") {
        Some(LiteralKind::Integer)
    } else {
        None
    }
}

/// The nodes that a walk from node `i` visits: the node itself and then
/// everything below it, in document order.
pub open spec fn walked(tree: &SyntaxTree, i: int) -> Seq<usize> {
    Seq::new((tree.nodes[i].subtree_end - i) as nat, |k: int| (i + k) as usize)
}

/// Walks the tree from node `i` down and gives the nodes in the order of
/// the visit.
pub fn walk_node(parsed: &ParsedSource, i: usize) -> (r: Vec<usize>)
    requires
        parsed.wf(),
        i < parsed.tree.nodes.len(),
    ensures
        r@ == walked(&parsed.tree, i as int),
        forall|k: int| 0 <= k < r@.len() ==> #[trigger] r@[k] < parsed.tree.nodes.len(),
{
    assert(node_ok(parsed.tree.nodes@, i as int));
    let end = parsed.tree.nodes[i].subtree_end;
    let mut out: Vec<usize> = Vec::new();
    let mut j: usize = i;
    while j < end
        invariant
            i <= j <= end <= parsed.tree.nodes.len(),
            out@ == Seq::new((j - i) as nat, |k: int| (i + k) as usize),
        decreases end - j,
    {
        out.push(j);
        j += 1;
        assert(out@ =~= Seq::new((j - i) as nat, |k: int| (i + k) as usize));
    }
    out
}

/// The first node of the kind `kind` that a search from node `i` meets,
/// when the search looks at a node before its children and at the children
/// from the last to the first.
pub open spec fn descendant(tree: &SyntaxTree, i: int, kind: Seq<u8>) -> Option<usize>
    decreases tree.nodes.len() - i, 1nat, 0nat,
{
    if i < 0 || i >= tree.nodes.len() {
        None
    } else if tree.kind_of(i) == kind {
        Some(i as usize)
    } else {
        descendant_below(tree, i, tree.children(i), tree.children(i).len() as int, kind)
    }
}

/// The first node of the kind `kind` that the search meets under the first
/// `upto` of the children `kids` of node `i`.
pub open spec fn descendant_below(
    tree: &SyntaxTree,
    i: int,
    kids: Seq<usize>,
    upto: int,
    kind: Seq<u8>,
) -> Option<usize>
    decreases tree.nodes.len() - i, 0nat, upto,
{
    if upto <= 0 || upto > kids.len() {
        None
    } else {
        let c = kids[upto - 1] as int;
        let here = if i < c < tree.nodes.len() {
            descendant(tree, c, kind)
        } else {
            None
        };
        match here {
            Some(x) => Some(x),
            None => descendant_below(tree, i, kids, upto - 1, kind),
        }
    }
}

/// Finds a node of the kind `kind` at or below node `i`, looking at the
/// children from the last to the first.
#[verifier::loop_isolation(false)]
pub fn find_descendant_by_kind(parsed: &ParsedSource, i: usize, kind: &str) -> (r: Option<usize>)
    requires
        parsed.wf(),
        i < parsed.tree.nodes.len(),
    ensures
        r == descendant(&parsed.tree, i as int, kind.spec_bytes()),
        r.is_some() ==> r.unwrap() < parsed.tree.nodes.len(),
    decreases parsed.tree.nodes.len() - i,
{
    if parsed.tree.is_kind(i, kind) {
        return Some(i);
    }
    let kids = parsed.tree.children_of(i);
    let mut upto: usize = kids.len();
    while upto > 0
        invariant
            upto <= kids.len(),
            descendant_below(&parsed.tree, i as int, kids@, kids@.len() as int, kind.spec_bytes())
                == descendant_below(&parsed.tree, i as int, kids@, upto as int, kind.spec_bytes()),
        decreases upto,
    {
        match find_descendant_by_kind(parsed, kids[upto - 1], kind) {
            Some(x) => {
                return Some(x);
            },
            None => {},
        }
        upto -= 1;
    }
    None
}

/// The type that the text of a primitive native type stands for.
pub open spec fn primitive(text: Seq<u8>) -> Ty {
    if text == "int".spec_bytes() {
        Ty::Int
    } else if text == "string".spec_bytes() {
        Ty::String
    } else if text == "bool".spec_bytes() || text == "boolean".spec_bytes() {
        Ty::Bool
    } else if text == "float".spec_bytes() || text == "double".spec_bytes() {
        Ty::Float
    } else {
        Ty::Unknown
    }
}

/// The type that the type node `c` denotes: a primitive type by its text, a
/// named type as an object; of any other node the type is unknown.
pub open spec fn node_hint(parsed: &ParsedSource, c: int) -> Ty {
    if parsed.tree.kind_of(c) == "primitive_type".spec_bytes() {
        primitive(node_text_of(parsed, c))
    } else if parsed.tree.kind_of(c) == "named_type".spec_bytes() {
        Ty::Object(node_text_of(parsed, c))
    } else {
        Ty::Unknown
    }
}

/// The type of the first of `kids`, from index `from` on, whose type is
/// known.
pub open spec fn first_known(parsed: &ParsedSource, kids: Seq<usize>, from: int) -> Option<Ty>
    decreases kids.len() - from,
{
    if from < 0 || from >= kids.len() {
        None
    } else if node_hint(parsed, kids[from] as int) != Ty::Unknown {
        Some(node_hint(parsed, kids[from] as int))
    } else {
        first_known(parsed, kids, from + 1)
    }
}

/// The declared type of the parameter at node `p`: the nullable form of the
/// type under its optional type, if there is one with a known type; else
/// its primitive type; else its named type, as an object; else unknown.
pub open spec fn parameter_hint(parsed: &ParsedSource, p: int) -> Ty {
    let wrapped = match descendant(&parsed.tree, p, "optional_type".spec_bytes()) {
        Some(o) => first_known(parsed, parsed.tree.named_children(o as int), 0),
        None => None,
    };
    match wrapped {
        Some(t) => Ty::Nullable(Box::new(t)),
        None => match descendant(&parsed.tree, p, "primitive_type".spec_bytes()) {
            Some(q) => primitive(node_text_of(parsed, q as int)),
            None => match descendant(&parsed.tree, p, "named_type".spec_bytes()) {
                Some(n) => Ty::Object(node_text_of(parsed, n as int)),
                None => Ty::Unknown,
            },
        },
    }
}

fn primitive_hint(text: &[u8]) -> (r: TypeHint)
    ensures
        r@ == primitive(text@),
{
    if bytes_eq(text, "int".as_bytes()) {
        TypeHint::Int
    } else if bytes_eq(text, "string".as_bytes()) {
        TypeHint::String
    } else if bytes_eq(text, "bool".as_bytes()) || bytes_eq(text, "boolean".as_bytes()) {
        TypeHint::Bool
    } else if bytes_eq(text, "float".as_bytes()) || bytes_eq(text, "double".as_bytes()) {
        TypeHint::Float
    } else {
        TypeHint::Unknown
    }
}

/// The type that the type node `c` denotes.
pub fn type_hint_from_node(parsed: &ParsedSource, c: usize) -> (r: TypeHint)
    requires
        parsed.wf(),
        c < parsed.tree.nodes.len(),
    ensures
        r@ == node_hint(parsed, c as int),
{
    if parsed.tree.is_kind(c, "primitive_type") {
        primitive_hint(node_text(parsed, c))
    } else if parsed.tree.is_kind(c, "named_type") {
        TypeHint::Object(to_vec(node_text(parsed, c)))
    } else {
        TypeHint::Unknown
    }
}

/// The declared type of the parameter at node `param`.
#[verifier::loop_isolation(false)]
pub fn type_hint_from_parameter(parsed: &ParsedSource, param: usize) -> (r: TypeHint)
    requires
        parsed.wf(),
        param < parsed.tree.nodes.len(),
    ensures
        r@ == parameter_hint(parsed, param as int),
{
    match find_descendant_by_kind(parsed, param, "optional_type") {
        Some(o) => {
            let kids = parsed.tree.named_children_of(o);
            let mut k: usize = 0;
            while k < kids.len()
                invariant
                    k <= kids.len(),
                    first_known(parsed, kids@, 0) == first_known(parsed, kids@, k as int),
                decreases kids.len() - k,
            {
                let inner = type_hint_from_node(parsed, kids[k]);
                if !same_type(&inner, &TypeHint::Unknown) {
                    return TypeHint::Nullable(Box::new(inner));
                }
                k += 1;
            }
        },
        None => {},
    }
    match find_descendant_by_kind(parsed, param, "primitive_type") {
        Some(q) => {
            return primitive_hint(node_text(parsed, q));
        },
        None => {},
    }
    match find_descendant_by_kind(parsed, param, "named_type") {
        Some(n) => TypeHint::Object(to_vec(node_text(parsed, n))),
        None => TypeHint::Unknown,
    }
}

/// The first literal among `kids`, from index `from` on, with its kind.
pub open spec fn first_literal(parsed: &ParsedSource, kids: Seq<usize>, from: int) -> Option<
    (LiteralKind, usize),
>
    decreases kids.len() - from,
{
    if from < 0 || from >= kids.len() {
        None
    } else {
        match literal_kind_of(parsed.tree.kind_of(kids[from] as int)) {
            Some(kind) => Some((kind, kids[from])),
            None => first_literal(parsed, kids, from + 1),
        }
    }
}

/// The literal that the argument at node `arg` passes: its first named
/// child that is a string or an integer, with its kind.
pub open spec fn argument_literal(parsed: &ParsedSource, arg: int) -> Option<(LiteralKind, usize)> {
    first_literal(parsed, parsed.tree.named_children(arg), 0)
}

/// The literal that the argument at node `arg` passes.
#[verifier::loop_isolation(false)]
pub fn argument_literal_kind(parsed: &ParsedSource, arg: usize) -> (r: Option<(LiteralKind, usize)>)
    requires
        parsed.wf(),
        arg < parsed.tree.nodes.len(),
    ensures
        r == argument_literal(parsed, arg as int),
        r.is_some() ==> r.unwrap().1 < parsed.tree.nodes.len(),
{
    let kids = parsed.tree.named_children_of(arg);
    let mut k: usize = 0;
    while k < kids.len()
        invariant
            k <= kids.len(),
            first_literal(parsed, kids@, 0) == first_literal(parsed, kids@, k as int),
        decreases kids.len() - k,
    {
        match literal_kind(parsed, kids[k]) {
            Some(kind) => {
                return Some((kind, kids[k]));
            },
            None => {},
        }
        k += 1;
    }
    None
}

/// The parameters among `kids` up to index `upto`: the plain and the
/// variadic ones, each with its declared type.
pub open spec fn parameter_hints(parsed: &ParsedSource, kids: Seq<usize>, upto: int) -> Seq<Ty>
    decreases upto,
{
    if upto <= 0 || upto > kids.len() {
        Seq::empty()
    } else {
        let rest = parameter_hints(parsed, kids, upto - 1);
        let c = kids[upto - 1] as int;
        if parsed.tree.kind_of(c) == "simple_parameter".spec_bytes() || parsed.tree.kind_of(c)
            == "variadic_parameter".spec_bytes() {
            rest.push(parameter_hint(parsed, c))
        } else {
            rest
        }
    }
}

/// The name and the parameter types that node `j` declares, if it is a
/// function definition with a name.
pub open spec fn signature_at(parsed: &ParsedSource, j: int) -> Option<(Seq<u8>, Seq<Ty>)> {
    if 0 <= j < parsed.tree.nodes.len() && parsed.tree.kind_of(j)
        == "function_definition".spec_bytes() {
        match parsed.tree.first_of_kind(parsed.tree.named_children(j), "name".spec_bytes()) {
            Some(n) => Some(
                (
                    node_text_of(parsed, n as int),
                    match parsed.tree.first_of_kind(
                        parsed.tree.named_children(j),
                        "formal_parameters".spec_bytes(),
                    ) {
                        Some(formal) => parameter_hints(
                            parsed,
                            parsed.tree.named_children(formal as int),
                            parsed.tree.named_children(formal as int).len() as int,
                        ),
                        None => Seq::empty(),
                    },
                ),
            ),
            None => None,
        }
    } else {
        None
    }
}

/// The parameter types of the last function named `name` that is declared
/// in front of node `upto`.
pub open spec fn signature_of(parsed: &ParsedSource, name: Seq<u8>, upto: int) -> Option<Seq<Ty>>
    decreases upto,
{
    if upto <= 0 {
        None
    } else {
        match signature_at(parsed, upto - 1) {
            Some(sig) => if sig.0 == name {
                Some(sig.1)
            } else {
                signature_of(parsed, name, upto - 1)
            },
            None => signature_of(parsed, name, upto - 1),
        }
    }
}

/// The name and the signature that node `j` declares.
#[verifier::loop_isolation(false)]
pub fn function_signature_at(parsed: &ParsedSource, j: usize) -> (r: Option<
    (Vec<u8>, FunctionSignature),
>)
    requires
        parsed.wf(),
        j < parsed.tree.nodes.len(),
    ensures
        match r {
            Some(sig) => signature_at(parsed, j as int) == Some((sig.0@, models(sig.1.params@))),
            None => signature_at(parsed, j as int).is_none(),
        },
{
    if !parsed.tree.is_kind(j, "function_definition") {
        return None;
    }
    let name_node = match parsed.tree.child_by_kind(j, "name") {
        Some(n) => n,
        None => {
            return None;
        },
    };
    let mut params: Vec<TypeHint> = Vec::new();
    match parsed.tree.child_by_kind(j, "formal_parameters") {
        Some(formal) => {
            let kids = parsed.tree.named_children_of(formal);
            let mut k: usize = 0;
            proof {
                assert(models(params@) =~= parameter_hints(parsed, kids@, 0));
            }
            while k < kids.len()
                invariant
                    k <= kids.len(),
                    models(params@) == parameter_hints(parsed, kids@, k as int),
                decreases kids.len() - k,
            {
                let ghost before = params@;
                let c = kids[k];
                if parsed.tree.is_kind(c, "simple_parameter") || parsed.tree.is_kind(
                    c,
                    "variadic_parameter",
                ) {
                    let hint = type_hint_from_parameter(parsed, c);
                    params.push(hint);
                    assert(models(params@) =~= models(before).push(hint@));
                }
                k += 1;
            }
        },
        None => {
            assert(models(params@) =~= Seq::empty());
        },
    }
    Some((to_vec(node_text(parsed, name_node)), FunctionSignature { params }))
}

/// The signature of the last function named `name` that the file declares.
#[verifier::loop_isolation(false)]
pub fn signature_for(parsed: &ParsedSource, name: &[u8]) -> (r: Option<FunctionSignature>)
    requires
        parsed.wf(),
    ensures
        match r {
            Some(sig) => signature_of(parsed, name@, parsed.tree.nodes.len() as int) == Some(
                models(sig.params@),
            ),
            None => signature_of(parsed, name@, parsed.tree.nodes.len() as int).is_none(),
        },
{
    let n = parsed.tree.nodes.len();
    let mut upto: usize = n;
    while upto > 0
        invariant
            upto <= n,
            signature_of(parsed, name@, n as int) == signature_of(parsed, name@, upto as int),
        decreases upto,
    {
        match function_signature_at(parsed, upto - 1) {
            Some(sig) => {
                if bytes_eq(sig.0.as_slice(), name) {
                    return Some(sig.1);
                }
            },
            None => {},
        }
        upto -= 1;
    }
    None
}

/// The values of a list of named signatures.
pub open spec fn signatures_of(list: Seq<(Vec<u8>, FunctionSignature)>) -> Seq<(Seq<u8>, Seq<Ty>)> {
    Seq::new(list.len(), |i: int| (list[i].0@, models(list[i].1.params@)))
}

/// What node `j` adds to the signatures of the file.
pub open spec fn signature_item(parsed: &ParsedSource, j: int) -> Seq<(Seq<u8>, Seq<Ty>)> {
    match signature_at(parsed, j) {
        Some(sig) => seq![sig],
        None => Seq::empty(),
    }
}

pub open spec fn signature_gatherer(parsed: &ParsedSource) -> spec_fn(int) -> Seq<
    (Seq<u8>, Seq<Ty>),
> {
    |j: int| signature_item(parsed, j)
}

/// The signatures of the functions that the file declares, in document
/// order, each with the name of its function.
pub open spec fn declared_signatures(parsed: &ParsedSource) -> Seq<(Seq<u8>, Seq<Ty>)> {
    gather(signature_gatherer(parsed), 0, parsed.tree.nodes.len() as int)
}

/// The signatures of the functions that the file declares, in document
/// order, each with the name of its function.
#[verifier::loop_isolation(false)]
pub fn collect_function_signatures(parsed: &ParsedSource) -> (r: Vec<(Vec<u8>, FunctionSignature)>)
    requires
        parsed.wf(),
    ensures
        signatures_of(r@) == declared_signatures(parsed),
{
    let ghost f = signature_gatherer(parsed);
    let n = parsed.tree.nodes.len();
    let mut out: Vec<(Vec<u8>, FunctionSignature)> = Vec::new();
    let mut j: usize = 0;
    proof {
        assert(signatures_of(out@) + gather(f, 0, n as int) =~= gather(f, 0, n as int));
    }
    while j < n
        invariant
            j <= n,
            gather(f, 0, n as int) == signatures_of(out@) + gather(f, j as int, n as int),
        decreases n - j,
    {
        proof {
            lemma_gather_step(f, signatures_of(out@), j as int, n as int);
        }
        let ghost before = out@;
        match function_signature_at(parsed, j) {
            Some(sig) => {
                out.push(sig);
                assert(signatures_of(out@) =~= signatures_of(before) + f(j as int));
            },
            None => {
                assert(signatures_of(before) + f(j as int) =~= signatures_of(before));
            },
        }
        j += 1;
    }
    proof {
        assert(signatures_of(out@) + gather(f, n as int, n as int) =~= signatures_of(out@));
    }
    out
}

/// Whether node `j` is the target of an assignment: the first named child
/// of an assignment expression.
pub open spec fn is_assignment_target(parsed: &ParsedSource, j: int) -> bool {
    match parsed.tree.nodes[j].parent {
        Some(p) => parsed.tree.kind_of(p as int) == "assignment_expression".spec_bytes()
            && parsed.tree.named_children(p as int).len() > 0 && parsed.tree.named_children(
            p as int,
        )[0] == j,
        None => false,
    }
}

/// Whether node `j` stands right under a parameter.
pub open spec fn is_parameter_name(parsed: &ParsedSource, j: int) -> bool {
    match parsed.tree.nodes[j].parent {
        Some(p) => {
            ||| parsed.tree.kind_of(p as int) == "simple_parameter".spec_bytes()
            ||| parsed.tree.kind_of(p as int) == "variadic_parameter".spec_bytes()
            ||| parsed.tree.kind_of(p as int) == "property_promotion_parameter".spec_bytes()
        },
        None => false,
    }
}

/// Whether the variable at node `node` is the target of an assignment.
pub fn is_assigned(parsed: &ParsedSource, node: usize) -> (r: bool)
    requires
        parsed.wf(),
        node < parsed.tree.nodes.len(),
    ensures
        r == is_assignment_target(parsed, node as int),
{
    match parsed.tree.parent(node) {
        Some(p) => {
            if parsed.tree.is_kind(p, "assignment_expression") {
                let kids = parsed.tree.named_children_of(p);
                kids.len() > 0 && kids[0] == node
            } else {
                false
            }
        },
        None => false,
    }
}

/// Whether the variable at node `node` names a parameter.
pub fn is_parameter_definition(parsed: &ParsedSource, node: usize) -> (r: bool)
    requires
        parsed.wf(),
        node < parsed.tree.nodes.len(),
    ensures
        r == is_parameter_name(parsed, node as int),
{
    match parsed.tree.parent(node) {
        Some(p) => parsed.tree.is_kind(p, "simple_parameter") || parsed.tree.is_kind(
            p,
            "variadic_parameter",
        ) || parsed.tree.is_kind(p, "property_promotion_parameter"),
        None => false,
    }
}

/// Whether the variable at node `node` stands where a variable is defined:
/// as the target of an assignment or as a parameter.
pub fn is_definition(parsed: &ParsedSource, node: usize) -> (r: bool)
    requires
        parsed.wf(),
        node < parsed.tree.nodes.len(),
    ensures
        r == (is_assignment_target(parsed, node as int) || is_parameter_name(parsed, node as int)),
{
    is_assigned(parsed, node) || is_parameter_definition(parsed, node)
}

/// The statement around node `j`: the nearest expression statement above
/// it, or, where there is none, the topmost node above it.
pub open spec fn enclosing_statement(parsed: &ParsedSource, j: int) -> int
    decreases j,
{
    if j < 0 || j >= parsed.tree.nodes.len() {
        j
    } else {
        match parsed.tree.nodes[j].parent {
            Some(p) => if p >= j {
                j
            } else if parsed.tree.kind_of(p as int) == "expression_statement".spec_bytes() {
                p as int
            } else {
                enclosing_statement(parsed, p as int)
            },
            None => j,
        }
    }
}

/// The statement around node `node`.
pub fn enclosing_expression_statement(parsed: &ParsedSource, node: usize) -> (r: usize)
    requires
        parsed.wf(),
        node < parsed.tree.nodes.len(),
    ensures
        r == enclosing_statement(parsed, node as int),
        r < parsed.tree.nodes.len(),
{
    let mut current = node;
    loop
        invariant
            parsed.wf(),
            current < parsed.tree.nodes.len(),
            enclosing_statement(parsed, node as int) == enclosing_statement(parsed, current as int),
        decreases current,
    {
        assert(node_ok(parsed.tree.nodes@, current as int));
        match parsed.tree.nodes[current].parent {
            Some(p) => {
                if parsed.tree.is_kind(p, "expression_statement") {
                    return p;
                }
                current = p;
            },
            None => {
                return current;
            },
        }
    }
}

/// The type that the statement at node `e` documents for the variable
/// `name`: that of the `@var` tag of its comment, if the node is an
/// expression statement, the tag names the variable, and the type converts.
pub open spec fn documented_variable(parsed: &ParsedSource, name: Seq<u8>, e: int) -> Option<Ty> {
    if parsed.tree.kind_of(e) == "expression_statement".spec_bytes() {
        match doc_for(parsed, e) {
            Some(doc) => match doc.var {
                Some(tag) => if tag.0 == Some(name) {
                    converted(tag.1)
                } else {
                    None
                },
                None => None,
            },
            None => None,
        }
    } else {
        None
    }
}

pub open spec fn documented_finder(parsed: &ParsedSource, name: Seq<u8>) -> spec_fn(int) -> Option<
    Ty,
> {
    |e: int| documented_variable(parsed, name, e)
}

/// The type of the literal that the assignment at node `e` gives the
/// variable `name`.
pub open spec fn assigned_literal(parsed: &ParsedSource, name: Seq<u8>, e: int) -> Option<Ty> {
    if parsed.tree.kind_of(e) == "assignment_expression".spec_bytes() {
        match (
            parsed.tree.first_in_field(parsed.tree.children(e), "left".spec_bytes()),
            parsed.tree.first_in_field(parsed.tree.children(e), "right".spec_bytes()),
        ) {
            (Some(l), Some(r)) => if parsed.tree.kind_of(l as int) == "variable_name".spec_bytes()
                && variable_name_of(parsed, l as int) == name {
                literal_ty(parsed.tree.kind_of(r as int))
            } else {
                None
            },
            _ => None,
        }
    } else {
        None
    }
}

pub open spec fn assigned_finder(parsed: &ParsedSource, name: Seq<u8>) -> spec_fn(int) -> Option<
    Ty,
> {
    |e: int| assigned_literal(parsed, name, e)
}

/// The type of the variable `name`, as far as the file tells: the first
/// type that a statement documents for it; else the type of the first
/// literal that an assignment gives it.
pub open spec fn variable_type(parsed: &ParsedSource, name: Seq<u8>) -> Option<Ty> {
    match first_some(documented_finder(parsed, name), 0, parsed.tree.nodes.len() as int) {
        Some(t) => Some(t),
        None => first_some(assigned_finder(parsed, name), 0, parsed.tree.nodes.len() as int),
    }
}

/// The type of the value at node `j`: that of a literal; the class of an
/// object creation; the type of a variable, as far as the file tells.
/// Where an object creation names no class, and where the file tells
/// nothing of a variable, the type is unknown. Of any other node there is
/// no type.
pub open spec fn inferred(parsed: &ParsedSource, j: int) -> Option<Ty> {
    let kind = parsed.tree.kind_of(j);
    match literal_ty(kind) {
        Some(t) => Some(t),
        None => if kind == "object_creation_expression".spec_bytes() {
            match parsed.tree.first_of_kind(parsed.tree.named_children(j), "name".spec_bytes()) {
                Some(n) => Some(Ty::Object(node_text_of(parsed, n as int))),
                None => match parsed.tree.first_of_kind(
                    parsed.tree.named_children(j),
                    "qualified_name".spec_bytes(),
                ) {
                    Some(n) => Some(Ty::Object(node_text_of(parsed, n as int))),
                    None => Some(Ty::Unknown),
                },
            }
        } else if kind == "variable_name".spec_bytes() {
            match variable_type(parsed, variable_name_of(parsed, j)) {
                Some(t) => Some(t),
                None => Some(Ty::Unknown),
            }
        } else {
            None
        },
    }
}

fn documented_for(parsed: &ParsedSource, name: &[u8], e: usize) -> (r: Option<TypeHint>)
    requires
        parsed.wf(),
        e < parsed.tree.nodes.len(),
    ensures
        match r {
            Some(h) => documented_variable(parsed, name@, e as int) == Some(h@),
            None => documented_variable(parsed, name@, e as int).is_none(),
        },
{
    if !parsed.tree.is_kind(e, "expression_statement") {
        return None;
    }
    let doc = match extract_phpdoc_for_node(parsed, e) {
        Some(doc) => doc,
        None => {
            return None;
        },
    };
    match &doc.var_tag {
        Some(tag) => {
            let named = match &tag.name {
                Some(n) => bytes_eq(n.as_slice(), name),
                None => false,
            };
            if named {
                type_expression_to_hint(&tag.type_expr)
            } else {
                None
            }
        },
        None => None,
    }
}

fn literal_assigned(parsed: &ParsedSource, name: &[u8], e: usize) -> (r: Option<TypeHint>)
    requires
        parsed.wf(),
        e < parsed.tree.nodes.len(),
    ensures
        match r {
            Some(h) => assigned_literal(parsed, name@, e as int) == Some(h@),
            None => assigned_literal(parsed, name@, e as int).is_none(),
        },
{
    if !parsed.tree.is_kind(e, "assignment_expression") {
        return None;
    }
    let left = match parsed.tree.child_by_field(e, "left") {
        Some(l) => l,
        None => {
            return None;
        },
    };
    let right = match parsed.tree.child_by_field(e, "right") {
        Some(r) => r,
        None => {
            return None;
        },
    };
    if parsed.tree.is_kind(left, "variable_name") && bytes_eq(
        variable_name_text(parsed, left),
        name,
    ) {
        literal_type(parsed, right)
    } else {
        None
    }
}

/// The type of the variable `name`, as far as the file tells.
#[verifier::loop_isolation(false)]
pub fn infer_variable_type(parsed: &ParsedSource, name: &[u8]) -> (r: Option<TypeHint>)
    requires
        parsed.wf(),
    ensures
        match r {
            Some(h) => variable_type(parsed, name@) == Some(h@),
            None => variable_type(parsed, name@).is_none(),
        },
{
    let n = parsed.tree.nodes.len();
    let ghost f = documented_finder(parsed, name@);
    let mut j: usize = 0;
    while j < n
        invariant
            j <= n,
            first_some(f, 0, n as int) == first_some(f, j as int, n as int),
        decreases n - j,
    {
        match documented_for(parsed, name, j) {
            Some(h) => {
                return Some(h);
            },
            None => {},
        }
        j += 1;
    }
    let ghost g = assigned_finder(parsed, name@);
    let mut k: usize = 0;
    while k < n
        invariant
            k <= n,
            first_some(g, 0, n as int) == first_some(g, k as int, n as int),
        decreases n - k,
    {
        match literal_assigned(parsed, name, k) {
            Some(h) => {
                return Some(h);
            },
            None => {},
        }
        k += 1;
    }
    None
}

/// The type of the value at node `node`.
pub fn infer_type(parsed: &ParsedSource, node: usize) -> (r: Option<TypeHint>)
    requires
        parsed.wf(),
        node < parsed.tree.nodes.len(),
    ensures
        match r {
            Some(h) => inferred(parsed, node as int) == Some(h@),
            None => inferred(parsed, node as int).is_none(),
        },
{
    match literal_type(parsed, node) {
        Some(h) => {
            return Some(h);
        },
        None => {},
    }
    if parsed.tree.is_kind(node, "object_creation_expression") {
        match parsed.tree.child_by_kind(node, "name") {
            Some(n) => {
                return Some(TypeHint::Object(to_vec(node_text(parsed, n))));
            },
            None => {},
        }
        match parsed.tree.child_by_kind(node, "qualified_name") {
            Some(n) => {
                return Some(TypeHint::Object(to_vec(node_text(parsed, n))));
            },
            None => {},
        }
        return Some(TypeHint::Unknown);
    }
    if parsed.tree.is_kind(node, "variable_name") {
        return match infer_variable_type(parsed, variable_name_text(parsed, node)) {
            Some(h) => Some(h),
            None => Some(TypeHint::Unknown),
        };
    }
    None
}

/// The value of an element of an array literal, with its type.
pub ghost struct Element {
    pub node: usize,
    pub ty: Option<Ty>,
}

/// The key and the value of an element of an array literal, with their
/// types. An element without a key has an integer as key.
pub ghost struct Pair {
    pub key: Option<usize>,
    pub key_ty: Option<Ty>,
    pub value: usize,
    pub value_ty: Option<Ty>,
}

/// The value of an element of an array literal, with its type.
#[derive(Debug)]
pub struct ArrayElement {
    pub node: usize,
    pub ty: Option<TypeHint>,
}

/// The key and the value of an element of an array literal, with their
/// types.
#[derive(Debug)]
pub struct ArrayPair {
    pub key: Option<usize>,
    pub key_ty: Option<TypeHint>,
    pub value: usize,
    pub value_ty: Option<TypeHint>,
}

/// The value of an optional type.
pub open spec fn hint_of(t: Option<TypeHint>) -> Option<Ty> {
    match t {
        Some(h) => Some(h@),
        None => None,
    }
}

impl View for ArrayElement {
    type V = Element;

    open spec fn view(&self) -> Element {
        Element { node: self.node, ty: hint_of(self.ty) }
    }
}

impl View for ArrayPair {
    type V = Pair;

    open spec fn view(&self) -> Pair {
        Pair {
            key: self.key,
            key_ty: hint_of(self.key_ty),
            value: self.value,
            value_ty: hint_of(self.value_ty),
        }
    }
}

/// The values of a list of elements.
pub open spec fn elements_of(list: Seq<ArrayElement>) -> Seq<Element> {
    Seq::new(list.len(), |i: int| list[i]@)
}

/// The values of a list of pairs.
pub open spec fn pairs_of(list: Seq<ArrayPair>) -> Seq<Pair> {
    Seq::new(list.len(), |i: int| list[i]@)
}

/// The node of the value of the element at node `c`: the second named
/// child of its pair, if it has one, else its first named child.
pub open spec fn element_value(parsed: &ParsedSource, c: int) -> Option<usize> {
    match parsed.tree.first_of_kind(parsed.tree.named_children(c), "pair".spec_bytes()) {
        Some(p) => if parsed.tree.named_children(p as int).len() > 1 {
            Some(parsed.tree.named_children(p as int)[1])
        } else {
            None
        },
        None => if parsed.tree.named_children(c).len() > 0 {
            Some(parsed.tree.named_children(c)[0])
        } else {
            None
        },
    }
}

/// What child `c` of an array literal adds to its elements.
pub open spec fn element_at(parsed: &ParsedSource, c: int) -> Seq<Element> {
    if parsed.tree.kind_of(c) == "array_element_initializer".spec_bytes() {
        match element_value(parsed, c) {
            Some(v) => seq![Element { node: v, ty: inferred(parsed, v as int) }],
            None => Seq::empty(),
        }
    } else {
        Seq::empty()
    }
}

pub open spec fn element_gatherer(parsed: &ParsedSource, kids: Seq<usize>) -> spec_fn(int) -> Seq<
    Element,
> {
    |k: int| element_at(parsed, kids[k] as int)
}

/// The elements of the array literal at node `a`, in order.
pub open spec fn array_elements(parsed: &ParsedSource, a: int) -> Seq<Element> {
    gather(
        element_gatherer(parsed, parsed.tree.children(a)),
        0,
        parsed.tree.children(a).len() as int,
    )
}

/// What child `c` of an array literal adds to its pairs: key and value of
/// an element with two named children; an integer key and the value of an
/// element with one.
pub open spec fn pair_at(parsed: &ParsedSource, c: int) -> Seq<Pair> {
    let kids = parsed.tree.named_children(c);
    if parsed.tree.kind_of(c) == "array_element_initializer".spec_bytes() {
        if kids.len() == 2 {
            seq![
                Pair {
                    key: Some(kids[0]),
                    key_ty: inferred(parsed, kids[0] as int),
                    value: kids[1],
                    value_ty: inferred(parsed, kids[1] as int),
                },
            ]
        } else if kids.len() == 1 {
            seq![
                Pair {
                    key: None,
                    key_ty: Some(Ty::Int),
                    value: kids[0],
                    value_ty: inferred(parsed, kids[0] as int),
                },
            ]
        } else {
            Seq::empty()
        }
    } else {
        Seq::empty()
    }
}

pub open spec fn pair_gatherer(parsed: &ParsedSource, kids: Seq<usize>) -> spec_fn(int) -> Seq<
    Pair,
> {
    |k: int| pair_at(parsed, kids[k] as int)
}

/// The pairs of the array literal at node `a`, in order.
pub open spec fn array_pairs(parsed: &ParsedSource, a: int) -> Seq<Pair> {
    gather(pair_gatherer(parsed, parsed.tree.children(a)), 0, parsed.tree.children(a).len() as int)
}

/// The elements of the array literal at node `a`, each with its type.
#[verifier::loop_isolation(false)]
pub fn extract_array_elements(parsed: &ParsedSource, a: usize) -> (r: Vec<ArrayElement>)
    requires
        parsed.wf(),
        a < parsed.tree.nodes.len(),
    ensures
        elements_of(r@) == array_elements(parsed, a as int),
        forall|k: int| 0 <= k < r@.len() ==> (#[trigger] r@[k]).node < parsed.tree.nodes.len(),
{
    let kids = parsed.tree.children_of(a);
    let ghost f = element_gatherer(parsed, kids@);
    let n = kids.len();
    let mut out: Vec<ArrayElement> = Vec::new();
    let mut k: usize = 0;
    proof {
        assert(elements_of(out@) + gather(f, 0, n as int) =~= gather(f, 0, n as int));
    }
    while k < n
        invariant
            k <= n,
            gather(f, 0, n as int) == elements_of(out@) + gather(f, k as int, n as int),
            forall|m: int| 0 <= m < out@.len() ==> (#[trigger] out@[m]).node < parsed.tree.nodes.len(),
        decreases n - k,
    {
        proof {
            lemma_gather_step(f, elements_of(out@), k as int, n as int);
        }
        let ghost before = out@;
        let c = kids[k];
        let mut added = false;
        if parsed.tree.is_kind(c, "array_element_initializer") {
            let value = match parsed.tree.child_by_kind(c, "pair") {
                Some(p) => {
                    let inner = parsed.tree.named_children_of(p);
                    if inner.len() > 1 {
                        Some(inner[1])
                    } else {
                        None
                    }
                },
                None => {
                    let inner = parsed.tree.named_children_of(c);
                    if inner.len() > 0 {
                        Some(inner[0])
                    } else {
                        None
                    }
                },
            };
            match value {
                Some(v) => {
                    let element = ArrayElement { node: v, ty: infer_type(parsed, v) };
                    out.push(element);
                    assert(elements_of(out@) =~= elements_of(before) + f(k as int));
                    added = true;
                },
                None => {},
            }
        }
        if !added {
            assert(elements_of(before) + f(k as int) =~= elements_of(before));
        }
        k += 1;
    }
    proof {
        assert(elements_of(out@) + gather(f, n as int, n as int) =~= elements_of(out@));
    }
    out
}

/// The pairs of the array literal at node `a`, each with the types of its
/// key and its value.
#[verifier::loop_isolation(false)]
pub fn extract_array_key_value_pairs(parsed: &ParsedSource, a: usize) -> (r: Vec<ArrayPair>)
    requires
        parsed.wf(),
        a < parsed.tree.nodes.len(),
    ensures
        pairs_of(r@) == array_pairs(parsed, a as int),
        forall|k: int|
            0 <= k < r@.len() ==> (#[trigger] r@[k]).value < parsed.tree.nodes.len() && (
            r@[k].key.is_some() ==> r@[k].key.unwrap() < parsed.tree.nodes.len()),
{
    let kids = parsed.tree.children_of(a);
    let ghost f = pair_gatherer(parsed, kids@);
    let n = kids.len();
    let mut out: Vec<ArrayPair> = Vec::new();
    let mut k: usize = 0;
    proof {
        assert(pairs_of(out@) + gather(f, 0, n as int) =~= gather(f, 0, n as int));
    }
    while k < n
        invariant
            k <= n,
            gather(f, 0, n as int) == pairs_of(out@) + gather(f, k as int, n as int),
            forall|m: int|
                0 <= m < out@.len() ==> (#[trigger] out@[m]).value < parsed.tree.nodes.len() && (
                out@[m].key.is_some() ==> out@[m].key.unwrap() < parsed.tree.nodes.len()),
        decreases n - k,
    {
        proof {
            lemma_gather_step(f, pairs_of(out@), k as int, n as int);
        }
        let ghost before = out@;
        let c = kids[k];
        let mut added = false;
        if parsed.tree.is_kind(c, "array_element_initializer") {
            let inner = parsed.tree.named_children_of(c);
            if inner.len() == 2 {
                let pair = ArrayPair {
                    key: Some(inner[0]),
                    key_ty: infer_type(parsed, inner[0]),
                    value: inner[1],
                    value_ty: infer_type(parsed, inner[1]),
                };
                out.push(pair);
                assert(pairs_of(out@) =~= pairs_of(before) + f(k as int));
                added = true;
            } else if inner.len() == 1 {
                let pair = ArrayPair {
                    key: None,
                    key_ty: Some(TypeHint::Int),
                    value: inner[0],
                    value_ty: infer_type(parsed, inner[0]),
                };
                out.push(pair);
                assert(pairs_of(out@) =~= pairs_of(before) + f(k as int));
                added = true;
            }
        }
        if !added {
            assert(pairs_of(before) + f(k as int) =~= pairs_of(before));
        }
        k += 1;
    }
    proof {
        assert(pairs_of(out@) + gather(f, n as int, n as int) =~= pairs_of(out@));
    }
    out
}

} // verus!
