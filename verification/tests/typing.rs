use golden_alchemist::ids::SocketId;
use golden_alchemist::registry::ValueTypeRegistry;
use golden_alchemist::typing::{
    constraint_accepts, is_numeric, is_primitive, resolve_constraint, split_socket_component, TypeBinding,
    TypeBindingSource, TypeBindings, TypeConstraint, TypeVar,
};
use golden_alchemist::value::{FacetId, ValueComponent, ValueTypeId};

#[test]
fn socket_names_split_at_component_suffix() {
    assert_eq!(
        split_socket_component(&SocketId::new("value.x")),
        (SocketId::new("value"), Some(ValueComponent::X))
    );
    assert_eq!(
        split_socket_component(&SocketId::new("color.a")),
        (SocketId::new("color"), Some(ValueComponent::A))
    );
    assert_eq!(split_socket_component(&SocketId::new("value")), (SocketId::new("value"), None));
    assert_eq!(split_socket_component(&SocketId::new("value.w")), (SocketId::new("value.w"), None));
    assert_eq!(
        split_socket_component(&SocketId::new("a.b.z")),
        (SocketId::new("a.b"), Some(ValueComponent::Z))
    );
}

#[test]
fn component_names_parse() {
    assert_eq!(ValueComponent::parse("x"), Some(ValueComponent::X));
    assert_eq!(ValueComponent::parse("g"), Some(ValueComponent::G));
    assert_eq!(ValueComponent::parse("xy"), None);
}

#[test]
fn stronger_source_overrides_and_equal_source_conflicts() {
    let mut bindings = TypeBindings::new();
    let t = TypeVar::new("TNumeric");
    assert_eq!(bindings.bind(t.clone(), ValueTypeId::new("float"), TypeBindingSource::Default), Ok(true));
    assert_eq!(
        bindings.bind(t.clone(), ValueTypeId::new("vec3"), TypeBindingSource::InferredFromConnection),
        Ok(true)
    );
    assert_eq!(bindings.get(&t).unwrap().value_type, ValueTypeId::new("vec3"));
    assert_eq!(bindings.bind(t.clone(), ValueTypeId::new("int"), TypeBindingSource::Default), Ok(false));
    assert_eq!(
        bindings.bind(t.clone(), ValueTypeId::new("vec3"), TypeBindingSource::InferredFromConnection),
        Ok(false)
    );
    let conflict = bindings
        .bind(t.clone(), ValueTypeId::new("int"), TypeBindingSource::InferredFromConnection)
        .unwrap_err();
    assert_eq!(conflict.variable, t);
    assert_eq!(
        conflict.existing,
        TypeBinding { value_type: ValueTypeId::new("vec3"), source: TypeBindingSource::InferredFromConnection }
    );
    assert_eq!(bindings.get(&t).unwrap().value_type, ValueTypeId::new("vec3"));
    assert_eq!(bindings.len(), 1);
}

#[test]
fn merge_binds_in_order_and_stops_at_conflict() {
    let mut target = TypeBindings::new();
    target.insert(TypeVar::new("A"), ValueTypeId::new("float"), TypeBindingSource::ForcedByUser);
    let mut other = TypeBindings::new();
    other.insert(TypeVar::new("B"), ValueTypeId::new("int"), TypeBindingSource::Default);
    other.insert(TypeVar::new("A"), ValueTypeId::new("vec2"), TypeBindingSource::ForcedByUser);
    other.insert(TypeVar::new("C"), ValueTypeId::new("bool"), TypeBindingSource::Default);
    assert!(target.merge_from(&other).is_err());
    assert_eq!(target.len(), 2);
    assert!(target.get(&TypeVar::new("C")).is_none());

    let mut fresh = TypeBindings::new();
    assert_eq!(fresh.merge_from(&target), Ok(true));
    assert_eq!(fresh.len(), 2);
    assert_eq!(fresh.merge_from(&target), Ok(false));
    let copy = fresh.duplicate();
    assert_eq!(copy.entry_at(1).unwrap().0, &TypeVar::new("B"));
}

#[test]
fn constraints_accept_by_kind() {
    let registry = ValueTypeRegistry::with_primitives();
    let float = ValueTypeId::new("float");
    let string = ValueTypeId::new("string");
    assert!(constraint_accepts(&TypeConstraint::Any, &string, &registry));
    assert!(constraint_accepts(&TypeConstraint::NumericLike, &float, &registry));
    assert!(!constraint_accepts(&TypeConstraint::NumericLike, &string, &registry));
    assert!(constraint_accepts(&TypeConstraint::Exact(float.clone()), &ValueTypeId::new("int"), &registry));
    assert!(constraint_accepts(&TypeConstraint::Primitive, &string, &registry));
    assert!(!constraint_accepts(&TypeConstraint::Primitive, &ValueTypeId::new("example.x"), &registry));
    assert!(!constraint_accepts(&TypeConstraint::Facet(FacetId::new("command_target")), &float, &registry));
    assert!(constraint_accepts(
        &TypeConstraint::OneOf(vec![TypeConstraint::Exact(ValueTypeId::new("example.y")), TypeConstraint::NumericLike]),
        &float,
        &registry
    ));
    assert!(!constraint_accepts(&TypeConstraint::OneOf(Vec::new()), &float, &registry));
    assert!(is_primitive(&ValueTypeId::new("duration")));
    assert!(is_numeric(&ValueTypeId::new("color")));
    assert!(!is_numeric(&ValueTypeId::new("bool")));
}

#[test]
fn constraints_resolve_through_bindings() {
    let mut bindings = TypeBindings::new();
    bindings.insert(TypeVar::new("T"), ValueTypeId::new("vec2"), TypeBindingSource::Default);
    assert_eq!(
        resolve_constraint(&TypeConstraint::Generic(TypeVar::new("T")), &bindings, None),
        Some(ValueTypeId::new("vec2"))
    );
    assert_eq!(resolve_constraint(&TypeConstraint::Generic(TypeVar::new("U")), &bindings, None), None);
    assert_eq!(
        resolve_constraint(&TypeConstraint::Exact(ValueTypeId::new("int")), &bindings, None),
        Some(ValueTypeId::new("int"))
    );
    assert_eq!(
        resolve_constraint(&TypeConstraint::Any, &bindings, Some(&ValueTypeId::new("bool"))),
        Some(ValueTypeId::new("bool"))
    );
    assert_eq!(resolve_constraint(&TypeConstraint::Any, &bindings, None), None);
}
