use php_checker::analyzer::rules::helpers::{is_type_compatible, same_type, TypeHint};

fn object(name: &str) -> TypeHint {
    TypeHint::Object(name.as_bytes().to_vec())
}

fn nullable(inner: TypeHint) -> TypeHint {
    TypeHint::Nullable(Box::new(inner))
}

fn array(inner: TypeHint) -> TypeHint {
    TypeHint::Array(Box::new(inner))
}

fn generic(key: TypeHint, value: TypeHint) -> TypeHint {
    TypeHint::GenericArray { key: Box::new(key), value: Box::new(value) }
}

fn samples() -> Vec<TypeHint> {
    vec![
        TypeHint::Int,
        TypeHint::String,
        TypeHint::Bool,
        TypeHint::Float,
        TypeHint::Unknown,
        object("User"),
        nullable(TypeHint::Int),
        nullable(nullable(object("User"))),
        TypeHint::Union(vec![TypeHint::Int, TypeHint::String]),
        TypeHint::Union(vec![nullable(TypeHint::Int), object("User")]),
        array(TypeHint::Int),
        array(TypeHint::Union(vec![TypeHint::Int, TypeHint::String])),
        generic(TypeHint::String, TypeHint::Int),
        TypeHint::ShapedArray(vec![(b"id".to_vec(), TypeHint::Int), (b"name".to_vec(), TypeHint::String)]),
    ]
}

fn is_unknown(t: &TypeHint) -> bool {
    same_type(t, &TypeHint::Unknown)
}

#[test]
fn compatibility_is_reflexive() {
    for t in samples() {
        assert_eq!(is_type_compatible(&t, &t), !is_unknown(&t), "{t:?}");
        assert!(same_type(&t, &t));
    }
}

#[test]
fn nullable_absorbs_its_inner_type() {
    for t in samples() {
        let wrapped = nullable(samples().into_iter().find(|s| same_type(s, &t)).unwrap());
        assert_eq!(is_type_compatible(&t, &wrapped), !is_unknown(&t), "{t:?}");
        assert!(is_type_compatible(&wrapped, &wrapped), "{t:?}");
        assert!(!is_type_compatible(&wrapped, &t), "{t:?}");
    }
}

#[test]
fn union_contains_its_members() {
    let union = TypeHint::Union(vec![TypeHint::Int, TypeHint::String]);
    assert!(is_type_compatible(&TypeHint::Int, &union));
    assert!(is_type_compatible(&TypeHint::String, &union));
    assert!(!is_type_compatible(&TypeHint::Float, &union));
    assert!(!is_type_compatible(&union, &TypeHint::Int));
    let wider = TypeHint::Union(vec![TypeHint::String, TypeHint::Bool, TypeHint::Int]);
    assert!(is_type_compatible(&union, &wider));
    assert!(!is_type_compatible(&wider, &union));
    assert!(is_type_compatible(&TypeHint::Union(vec![TypeHint::Int, TypeHint::Int]), &TypeHint::Int));
}

#[test]
fn unknown_is_compatible_with_no_type() {
    for t in samples() {
        assert!(!is_type_compatible(&TypeHint::Unknown, &t), "{t:?}");
        assert!(!is_type_compatible(&t, &TypeHint::Unknown), "{t:?}");
    }
    assert!(!is_type_compatible(&TypeHint::Unknown, &TypeHint::Unknown));
    assert!(!is_type_compatible(&TypeHint::Unknown, &nullable(TypeHint::Unknown)));
    assert!(!is_type_compatible(
        &TypeHint::Unknown,
        &TypeHint::Union(vec![TypeHint::Int, TypeHint::Unknown])
    ));
    assert!(!is_type_compatible(&TypeHint::Union(vec![TypeHint::Unknown]), &TypeHint::Unknown));
    assert!(!is_type_compatible(
        &TypeHint::Union(vec![TypeHint::Int, TypeHint::Unknown]),
        &TypeHint::Int
    ));
    assert!(is_type_compatible(
        &TypeHint::Int,
        &TypeHint::Union(vec![TypeHint::Int, TypeHint::Unknown])
    ));
}

#[test]
fn arrays_compare_element_by_element() {
    assert!(is_type_compatible(
        &array(TypeHint::Int),
        &array(TypeHint::Union(vec![TypeHint::Int, TypeHint::String]))
    ));
    assert!(!is_type_compatible(&array(TypeHint::Int), &array(TypeHint::String)));
    assert!(!is_type_compatible(&TypeHint::Int, &array(TypeHint::Int)));
    assert!(is_type_compatible(
        &generic(TypeHint::String, TypeHint::Int),
        &generic(TypeHint::String, nullable(TypeHint::Int))
    ));
    assert!(!is_type_compatible(
        &generic(TypeHint::Int, TypeHint::Int),
        &generic(TypeHint::String, TypeHint::Int)
    ));
    assert!(!is_type_compatible(&array(TypeHint::Int), &generic(TypeHint::Int, TypeHint::Int)));
}

#[test]
fn field_order_matters_for_equality() {
    let ab = TypeHint::ShapedArray(vec![(b"a".to_vec(), TypeHint::Int), (b"b".to_vec(), TypeHint::Int)]);
    let ba = TypeHint::ShapedArray(vec![(b"b".to_vec(), TypeHint::Int), (b"a".to_vec(), TypeHint::Int)]);
    assert!(!same_type(&ab, &ba));
    assert!(same_type(&object("User"), &object("User")));
    assert!(!same_type(&object("User"), &object("user")));
    assert!(!is_type_compatible(&object("User"), &object("Admin")));
}

#[test]
fn a_clone_of_a_type_is_the_same_type() {
    for t in samples() {
        let copy = t.clone();
        assert!(same_type(&copy, &t), "{t:?}");
        assert_eq!(copy, t);
        assert!(same_type(&t.duplicate(), &t), "{t:?}");
    }
}
