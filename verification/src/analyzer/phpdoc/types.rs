//! The type expressions and tags of documentation comments.

use vstd::prelude::*;
use vstd::string::StringSliceAdditionalSpecFns;
use crate::analyzer::text::{bytes_eq, push_all, to_vec};

verus! {

/// The mathematical value of a [`TypeExpression`].
pub ghost enum TypeExpr {
    Simple(Seq<u8>),
    Array(Box<TypeExpr>),
    Generic { base: Seq<u8>, params: Seq<TypeExpr> },
    Union(Seq<TypeExpr>),
    Nullable(Box<TypeExpr>),
    ShapedArray(Seq<(Seq<u8>, TypeExpr)>),
    Mixed,
    Void,
    Never,
}

/// Represents a type expression from PHPDoc.
#[derive(Debug, PartialEq, Eq)]
pub enum TypeExpression {
    /// Simple type: `int`, `string`, `User`, etc.
    Simple(Vec<u8>),
    /// Array type: `User[]`, `int[]`.
    Array(Box<TypeExpression>),
    /// Generic type: `array<string, int>`, `Collection<User>`.
    Generic { base: Vec<u8>, params: Vec<TypeExpression> },
    /// Union type: `int|string|null`.
    Union(Vec<TypeExpression>),
    /// Nullable type: `?string`.
    Nullable(Box<TypeExpression>),
    /// Shaped array: `array{name: string, age: int}`.
    ShapedArray(Vec<(Vec<u8>, TypeExpression)>),
    /// Mixed type.
    Mixed,
    /// Void type.
    Void,
    /// Never type.
    Never,
}

/// The values of a list of type expressions.
pub open spec fn exprs(list: Seq<TypeExpression>) -> Seq<TypeExpr> {
    Seq::new(list.len(), |i: int| list[i].model())
}

/// The values of the fields of a shaped array.
pub open spec fn field_exprs(list: Seq<(Vec<u8>, TypeExpression)>) -> Seq<(Seq<u8>, TypeExpr)> {
    Seq::new(list.len(), |i: int| (list[i].0@, list[i].1.model()))
}

/// Whether `t` mentions the simple type `name`: as itself, as the element
/// of an array, as a parameter of a generic type, as a member of a union,
/// or under a nullable wrapper.
pub open spec fn mentions(t: TypeExpr, name: Seq<u8>) -> bool
    decreases t,
{
    match t {
        TypeExpr::Simple(s) => s == name,
        TypeExpr::Array(inner) => mentions(*inner, name),
        TypeExpr::Generic { base, params } => any_mentions(params, name),
        TypeExpr::Union(members) => any_mentions(members, name),
        TypeExpr::Nullable(inner) => mentions(*inner, name),
        _ => false,
    }
}

/// Whether one of `list` mentions the simple type `name`.
pub open spec fn any_mentions(list: Seq<TypeExpr>, name: Seq<u8>) -> bool
    decreases list,
{
    exists|i: int| 0 <= i < list.len() && mentions(#[trigger] list[i], name)
}

/// How a type expression is written.
pub open spec fn written(t: TypeExpr) -> Seq<u8>
    decreases t, 0nat,
{
    match t {
        TypeExpr::Simple(name) => name,
        TypeExpr::Array(inner) => written(*inner) + "[]".spec_bytes(),
        TypeExpr::Generic { base, params } => base + "<".spec_bytes() + written_list(
            params,
            params.len(),
            ", ".spec_bytes(),
        ) + ">".spec_bytes(),
        TypeExpr::Union(members) => written_list(members, members.len(), "|".spec_bytes()),
        TypeExpr::Nullable(inner) => "?".spec_bytes() + written(*inner),
        TypeExpr::ShapedArray(fields) => "array{".spec_bytes() + written_fields(
            fields,
            fields.len(),
        ) + "}".spec_bytes(),
        TypeExpr::Mixed => "mixed".spec_bytes(),
        TypeExpr::Void => "void".spec_bytes(),
        TypeExpr::Never => "never".spec_bytes(),
    }
}

/// The first `upto` of `list`, joined by `sep`.
pub open spec fn written_list(list: Seq<TypeExpr>, upto: nat, sep: Seq<u8>) -> Seq<u8>
    decreases list, upto,
{
    if upto == 0 || upto > list.len() {
        Seq::empty()
    } else if upto == 1 {
        written(list[0])
    } else {
        written_list(list, (upto - 1) as nat, sep) + sep + written(list[upto - 1])
    }
}

/// The first `upto` of `fields`, each as name, colon and type, joined by
/// commas.
pub open spec fn written_fields(fields: Seq<(Seq<u8>, TypeExpr)>, upto: nat) -> Seq<u8>
    decreases fields, upto,
{
    if upto == 0 || upto > fields.len() {
        Seq::empty()
    } else if upto == 1 {
        fields[0].0 + ": ".spec_bytes() + written(fields[0].1)
    } else {
        written_fields(fields, (upto - 1) as nat) + ", ".spec_bytes() + fields[upto - 1].0
            + ": ".spec_bytes() + written(fields[upto - 1].1)
    }
}

/// Whether `t` admits null: it is a nullable wrapper, or a union with the
/// member `null`.
pub open spec fn admits_null(t: TypeExpr) -> bool {
    match t {
        TypeExpr::Nullable(_) => true,
        TypeExpr::Union(members) => exists|i: int|
            0 <= i < members.len() && #[trigger] members[i] == TypeExpr::Simple(
                "null".spec_bytes(),
            ),
        _ => false,
    }
}

impl TypeExpression {
    /// The mathematical value of this type expression.
    pub open spec fn model(&self) -> TypeExpr
        decreases self,
    {
        match self {
            TypeExpression::Simple(name) => TypeExpr::Simple(name@),
            TypeExpression::Array(inner) => TypeExpr::Array(Box::new(inner.model())),
            TypeExpression::Generic { base, params } => TypeExpr::Generic {
                base: base@,
                params: Seq::new(
                    params.len() as nat,
                    |i: int|
                        if 0 <= i < params.len() {
                            params[i].model()
                        } else {
                            TypeExpr::Mixed
                        },
                ),
            },
            TypeExpression::Union(members) => TypeExpr::Union(
                Seq::new(
                    members.len() as nat,
                    |i: int|
                        if 0 <= i < members.len() {
                            members[i].model()
                        } else {
                            TypeExpr::Mixed
                        },
                ),
            ),
            TypeExpression::Nullable(inner) => TypeExpr::Nullable(Box::new(inner.model())),
            TypeExpression::ShapedArray(fields) => TypeExpr::ShapedArray(
                Seq::new(
                    fields.len() as nat,
                    |i: int|
                        if 0 <= i < fields.len() {
                            (fields[i].0@, fields[i].1.model())
                        } else {
                            (Seq::empty(), TypeExpr::Mixed)
                        },
                ),
            ),
            TypeExpression::Mixed => TypeExpr::Mixed,
            TypeExpression::Void => TypeExpr::Void,
            TypeExpression::Never => TypeExpr::Never,
        }
    }

    /// The value of a union lists its members' values.
    pub proof fn lemma_union_model(members: Vec<TypeExpression>)
        ensures
            TypeExpression::Union(members).model() == TypeExpr::Union(exprs(members@)),
    {
        assert(TypeExpression::Union(members).model()->Union_0 =~= exprs(members@));
    }

    /// The value of a generic type lists its parameters' values.
    pub proof fn lemma_generic_model(base: Vec<u8>, params: Vec<TypeExpression>)
        ensures
            (TypeExpression::Generic { base, params }).model() == (TypeExpr::Generic {
                base: base@,
                params: exprs(params@),
            }),
    {
        assert((TypeExpression::Generic { base, params }).model()->params =~= exprs(params@));
    }

    /// The value of a shaped array lists its fields' values.
    pub proof fn lemma_shaped_model(fields: Vec<(Vec<u8>, TypeExpression)>)
        ensures
            TypeExpression::ShapedArray(fields).model() == TypeExpr::ShapedArray(
                field_exprs(fields@),
            ),
    {
        assert(TypeExpression::ShapedArray(fields).model()->ShapedArray_0 =~= field_exprs(fields@));
    }

    #[verifier::loop_isolation(false)]
    fn list_to_text(list: &Vec<TypeExpression>, sep: &str) -> (r: Vec<u8>)
        ensures
            r@ == written_list(exprs(list@), list@.len(), sep.spec_bytes()),
        decreases list, 0nat,
    {
        let ghost all = exprs(list@);
        let mut out: Vec<u8> = Vec::new();
        let mut i: usize = 0;
        while i < list.len()
            invariant
                i <= list.len(),
                out@ == written_list(all, i as nat, sep.spec_bytes()),
            decreases list.len() - i,
        {
            let ghost before = out@;
            if i > 0 {
                push_all(&mut out, sep.as_bytes());
            }
            let text = list[i].to_text();
            push_all(&mut out, text.as_slice());
            proof {
                assert(all[i as int] == list@[i as int].model());
                if i > 0 {
                    assert(out@ =~= before + sep.spec_bytes() + written(all[i as int]));
                } else {
                    assert(out@ =~= written(all[0]));
                }
            }
            i += 1;
        }
        out
    }

    /// Writes the type expression as it stands in a comment.
    #[verifier::loop_isolation(false)]
    pub fn to_text(&self) -> (r: Vec<u8>)
        ensures
            r@ == written(self@),
        decreases self, 1nat,
    {
        let mut out: Vec<u8> = Vec::new();
        match self {
            TypeExpression::Simple(name) => {
                push_all(&mut out, name.as_slice());
                assert(out@ =~= name@);
            },
            TypeExpression::Array(inner) => {
                let text = inner.to_text();
                push_all(&mut out, text.as_slice());
                push_all(&mut out, "[]".as_bytes());
                assert(out@ =~= written(inner.model()) + "[]".spec_bytes());
            },
            TypeExpression::Generic { base, params } => {
                proof {
                    Self::lemma_generic_model(*base, *params);
                }
                push_all(&mut out, base.as_slice());
                push_all(&mut out, "<".as_bytes());
                let text = Self::list_to_text(params, ", ");
                push_all(&mut out, text.as_slice());
                push_all(&mut out, ">".as_bytes());
                assert(out@ =~= base@ + "<".spec_bytes() + written_list(
                    exprs(params@),
                    params@.len(),
                    ", ".spec_bytes(),
                ) + ">".spec_bytes());
            },
            TypeExpression::Union(members) => {
                proof {
                    Self::lemma_union_model(*members);
                }
                let text = Self::list_to_text(members, "|");
                push_all(&mut out, text.as_slice());
                assert(out@ =~= text@);
            },
            TypeExpression::Nullable(inner) => {
                push_all(&mut out, "?".as_bytes());
                let text = inner.to_text();
                push_all(&mut out, text.as_slice());
                assert(out@ =~= "?".spec_bytes() + written(inner.model()));
            },
            TypeExpression::ShapedArray(fields) => {
                proof {
                    Self::lemma_shaped_model(*fields);
                }
                let ghost all = field_exprs(fields@);
                push_all(&mut out, "array{".as_bytes());
                let mut inner: Vec<u8> = Vec::new();
                let mut i: usize = 0;
                while i < fields.len()
                    invariant
                        i <= fields.len(),
                        inner@ == written_fields(all, i as nat),
                    decreases fields.len() - i,
                {
                    let ghost before = inner@;
                    if i > 0 {
                        push_all(&mut inner, ", ".as_bytes());
                    }
                    push_all(&mut inner, fields[i].0.as_slice());
                    push_all(&mut inner, ": ".as_bytes());
                    let text = fields[i].1.to_text();
                    push_all(&mut inner, text.as_slice());
                    proof {
                        assert(all[i as int] == (fields@[i as int].0@, fields@[i as int].1.model()));
                        if i > 0 {
                            assert(inner@ =~= before + ", ".spec_bytes() + all[i as int].0
                                + ": ".spec_bytes() + written(all[i as int].1));
                        } else {
                            assert(inner@ =~= all[0].0 + ": ".spec_bytes() + written(all[0].1));
                        }
                    }
                    i += 1;
                }
                push_all(&mut out, inner.as_slice());
                push_all(&mut out, "}".as_bytes());
                assert(out@ =~= "array{".spec_bytes() + written_fields(all, all.len())
                    + "}".spec_bytes());
            },
            TypeExpression::Mixed => {
                push_all(&mut out, "mixed".as_bytes());
                assert(out@ =~= "mixed".spec_bytes());
            },
            TypeExpression::Void => {
                push_all(&mut out, "void".as_bytes());
                assert(out@ =~= "void".spec_bytes());
            },
            TypeExpression::Never => {
                push_all(&mut out, "never".as_bytes());
                assert(out@ =~= "never".spec_bytes());
            },
        }
        out
    }

    /// Check if this type is nullable.
    #[verifier::loop_isolation(false)]
    pub fn is_nullable(&self) -> (r: bool)
        ensures
            r == admits_null(self@),
    {
        match self {
            TypeExpression::Nullable(_) => true,
            TypeExpression::Union(types) => {
                proof {
                    Self::lemma_union_model(*types);
                }
                let mut i: usize = 0;
                while i < types.len()
                    invariant
                        i <= types.len(),
                        forall|k: int|
                            0 <= k < i ==> #[trigger] exprs(types@)[k] != TypeExpr::Simple(
                                "null".spec_bytes(),
                            ),
                    decreases types.len() - i,
                {
                    let hit = match &types[i] {
                        TypeExpression::Simple(s) => bytes_eq(s.as_slice(), "null".as_bytes()),
                        _ => false,
                    };
                    if hit {
                        assert(exprs(types@)[i as int] == TypeExpr::Simple("null".spec_bytes()));
                        return true;
                    }
                    i += 1;
                }
                false
            },
            _ => false,
        }
    }

    /// Get the inner type if this is nullable.
    pub fn unwrap_nullable(&self) -> (r: &TypeExpression)
        ensures
            r@ == (match self@ {
                TypeExpr::Nullable(inner) => *inner,
                other => other,
            }),
    {
        match self {
            TypeExpression::Nullable(inner) => inner,
            _ => self,
        }
    }

    fn any_contains(list: &Vec<TypeExpression>, name: &[u8]) -> (r: bool)
        ensures
            r == any_mentions(exprs(list@), name@),
        decreases list, 0nat,
    {
        let mut i: usize = 0;
        while i < list.len()
            invariant
                i <= list.len(),
                forall|k: int| 0 <= k < i ==> !mentions(#[trigger] exprs(list@)[k], name@),
            decreases list.len() - i,
        {
            if list[i].contains_bytes(name) {
                assert(mentions(exprs(list@)[i as int], name@));
                return true;
            }
            i += 1;
        }
        false
    }

    fn contains_bytes(&self, name: &[u8]) -> (r: bool)
        ensures
            r == mentions(self@, name@),
        decreases self, 1nat,
    {
        match self {
            TypeExpression::Simple(s) => bytes_eq(s.as_slice(), name),
            TypeExpression::Array(inner) => inner.contains_bytes(name),
            TypeExpression::Generic { base, params } => {
                proof {
                    Self::lemma_generic_model(*base, *params);
                }
                Self::any_contains(params, name)
            },
            TypeExpression::Union(types) => {
                proof {
                    Self::lemma_union_model(*types);
                }
                Self::any_contains(types, name)
            },
            TypeExpression::Nullable(inner) => inner.contains_bytes(name),
            _ => false,
        }
    }

    /// Check if this type expression contains a specific simple type.
    pub fn contains_type(&self, name: &str) -> (r: bool)
        ensures
            r == mentions(self@, name.spec_bytes()),
    {
        self.contains_bytes(name.as_bytes())
    }
}

impl View for TypeExpression {
    type V = TypeExpr;

    open spec fn view(&self) -> TypeExpr {
        self.model()
    }
}

impl TypeExpression {
    /// A copy of the type expression.
    #[verifier::loop_isolation(false)]
    pub fn duplicate(&self) -> (r: Self)
        ensures
            r.model() == self.model(),
        decreases self, 1nat,
    {
        match self {
            TypeExpression::Simple(name) => TypeExpression::Simple(to_vec(name.as_slice())),
            TypeExpression::Array(inner) => TypeExpression::Array(Box::new(inner.duplicate())),
            TypeExpression::Generic { base, params } => {
                let copies = Self::duplicate_all(params);
                proof {
                    Self::lemma_generic_model(*base, *params);
                                    }
                let r = TypeExpression::Generic { base: to_vec(base.as_slice()), params: copies };
                proof {
                    Self::lemma_generic_model(r->base, r->params);
                }
                r
            },
            TypeExpression::Union(members) => {
                let copies = Self::duplicate_all(members);
                proof {
                    Self::lemma_union_model(*members);
                    Self::lemma_union_model(copies);
                }
                TypeExpression::Union(copies)
            },
            TypeExpression::Nullable(inner) => TypeExpression::Nullable(
                Box::new(inner.duplicate()),
            ),
            TypeExpression::ShapedArray(fields) => {
                let mut copies: Vec<(Vec<u8>, TypeExpression)> = Vec::new();
                let mut i: usize = 0;
                while i < fields.len()
                    invariant
                        i <= fields.len(),
                        field_exprs(copies@) == field_exprs(fields@).subrange(0, i as int),
                    decreases fields.len() - i,
                {
                    let ghost before = copies@;
                    let entry = (to_vec(fields[i].0.as_slice()), fields[i].1.duplicate());
                    copies.push(entry);
                    assert(field_exprs(copies@) =~= field_exprs(fields@).subrange(0, i + 1)) by {
                        assert(field_exprs(copies@) =~= field_exprs(before).push(
                            (entry.0@, entry.1.model()),
                        ));
                    }
                    i += 1;
                }
                proof {
                    assert(field_exprs(fields@).subrange(0, fields@.len() as int) =~= field_exprs(
                        fields@,
                    ));
                    Self::lemma_shaped_model(*fields);
                    Self::lemma_shaped_model(copies);
                }
                TypeExpression::ShapedArray(copies)
            },
            TypeExpression::Mixed => TypeExpression::Mixed,
            TypeExpression::Void => TypeExpression::Void,
            TypeExpression::Never => TypeExpression::Never,
        }
    }

    /// Copies of the type expressions of `list`, in their order.
    #[verifier::loop_isolation(false)]
    fn duplicate_all(list: &Vec<TypeExpression>) -> (r: Vec<TypeExpression>)
        ensures
            exprs(r@) == exprs(list@),
        decreases list, 0nat,
    {
        let mut copies: Vec<TypeExpression> = Vec::new();
        let mut i: usize = 0;
        while i < list.len()
            invariant
                i <= list.len(),
                exprs(copies@) == exprs(list@).subrange(0, i as int),
            decreases list.len() - i,
        {
            let ghost before = copies@;
            let copy = list[i].duplicate();
            copies.push(copy);
            assert(exprs(copies@) =~= exprs(list@).subrange(0, i + 1)) by {
                assert(exprs(copies@) =~= exprs(before).push(copy.model()));
            }
            i += 1;
        }
        assert(exprs(list@).subrange(0, list@.len() as int) =~= exprs(list@));
        copies
    }
}

impl Clone for TypeExpression {
    fn clone(&self) -> (r: Self)
        ensures
            r.model() == self.model(),
    {
        self.duplicate()
    }
}

/// `@param` tag.
#[derive(Debug, Clone)]
pub struct ParamTag {
    pub name: Vec<u8>,
    pub type_expr: TypeExpression,
}

/// `@return` tag.
#[derive(Debug, Clone)]
pub struct ReturnTag {
    pub type_expr: TypeExpression,
}

/// `@var` tag.
#[derive(Debug, Clone)]
pub struct VarTag {
    pub name: Option<Vec<u8>>,
    pub type_expr: TypeExpression,
}

/// `@throws` tag.
#[derive(Debug, Clone)]
pub struct ThrowsTag {
    pub exception_type: Vec<u8>,
    pub description: Option<Vec<u8>>,
}

/// `@property` tag.
#[derive(Debug, Clone)]
pub struct PropertyTag {
    pub name: Vec<u8>,
    pub type_expr: TypeExpression,
    pub readonly: bool,
    pub writeonly: bool,
}

/// `@method` tag.
#[derive(Debug, Clone)]
pub struct MethodTag {
    pub name: Vec<u8>,
    pub params: Vec<ParamTag>,
    pub return_type: Option<TypeExpression>,
    pub is_static: bool,
}

} // verus!
