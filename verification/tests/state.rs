use ditto::names::{Name, QualifiedName, Span};
use ditto::state::{merge_references, State, Supply, TypeError, ValueReferences};
use ditto::substitution::Substitution;
use ditto::types::{Kind, PrimType, Type};
use ditto::unify::{bind, occurs_check, unify, Constraint};

fn qn(s: &str) -> QualifiedName {
    QualifiedName { module_name: None, value: Name(s.to_string()) }
}

fn sp() -> Span {
    Span { start_offset: 0, end_offset: 0 }
}

fn var(v: usize) -> Type {
    Type::Variable { variable_kind: Kind::Type, var: v, source_name: None }
}

#[test]
fn it_merges_references_by_adding_counts() {
    let mut lhs = ValueReferences::new();
    lhs.register(&qn("a"));
    lhs.register(&qn("a"));
    lhs.register(&qn("b"));
    let mut rhs = ValueReferences::new();
    rhs.register(&qn("a"));
    rhs.register(&qn("c"));
    let merged = merge_references(lhs, rhs);
    assert_eq!(merged.get(&qn("a")), 3);
    assert_eq!(merged.get(&qn("b")), 1);
    assert_eq!(merged.get(&qn("c")), 1);
    assert_eq!(merged.get(&qn("d")), 0);
}

#[test]
fn it_supplies_fresh_variables() {
    let mut supply = Supply(0);
    assert_eq!(supply.fresh(), 0);
    assert_eq!(supply.fresh(), 1);
    assert_eq!(supply.peek(), 2);
    assert_eq!(supply.fresh_type().debug_render(), "$2");
}

#[test]
fn it_unifies_primitive_types() {
    let mut state = State::new(Supply(0));
    let ok = unify(&mut state, sp(), Constraint { expected: Type::PrimConstructor(PrimType::Int), actual: Type::PrimConstructor(PrimType::Int) });
    assert!(ok.is_ok());
    let err = unify(&mut state, sp(), Constraint { expected: Type::PrimConstructor(PrimType::Int), actual: Type::PrimConstructor(PrimType::Bool) });
    match err {
        Err(TypeError::TypesNotEqual { expected, actual, .. }) => {
            assert_eq!(expected.debug_render(), "Int");
            assert_eq!(actual.debug_render(), "Bool");
        }
        _ => panic!("expected TypesNotEqual"),
    }
    assert!(state.substitution.is_empty());
}

#[test]
fn it_binds_anonymous_variables() {
    let mut state = State::new(Supply(0));
    assert!(unify(&mut state, sp(), Constraint { expected: var(0), actual: Type::PrimConstructor(PrimType::String) }).is_ok());
    assert_eq!(state.substitution.apply(var(0)).debug_render(), "String");
    // Already bound: `$0` is `String`, which is no `Int`.
    assert!(unify(&mut state, sp(), Constraint { expected: var(0), actual: Type::PrimConstructor(PrimType::Int) }).is_err());
}

#[test]
fn it_refuses_infinite_types() {
    let t = Type::Function { parameters: vec![var(0)], return_type: Box::new(var(1)) };
    assert!(matches!(occurs_check(sp(), 0, &t), Err(TypeError::InfiniteType { var: 0, .. })));
    assert!(occurs_check(sp(), 2, &t).is_ok());
    let mut state = State::new(Supply(0));
    assert!(bind(&mut state, sp(), 0, var(0)).is_ok());
    assert!(state.substitution.is_empty());
    assert!(matches!(bind(&mut state, sp(), 0, t), Err(TypeError::InfiniteType { .. })));
}

#[test]
fn it_applies_substitutions_to_a_fixed_point() {
    let mut s = Substitution::new();
    s.insert(0, var(1));
    s.insert(1, Type::PrimConstructor(PrimType::Bool));
    let t = Type::Function { parameters: vec![var(0)], return_type: Box::new(var(2)) };
    assert_eq!(s.apply(t).debug_render(), "(Bool) -> $2");
}
