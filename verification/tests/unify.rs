use ditto::names::{Name, Span};
use ditto::state::{State, Supply, TypeError};
use ditto::types::{Kind, PrimType, Type};
use ditto::unify::{unify, Constraint};

fn sp() -> Span {
    Span { start_offset: 0, end_offset: 0 }
}

fn int_type() -> Type {
    Type::PrimConstructor(PrimType::Int)
}

fn boolean() -> Type {
    Type::PrimConstructor(PrimType::Bool)
}

fn var(v: usize, name: Option<&str>) -> Type {
    Type::Variable { variable_kind: Kind::Type, var: v, source_name: name.map(|n| Name(n.to_string())) }
}

#[test]
fn functions_of_different_arity_do_not_unify() {
    let mut state = State::new(Supply(0));
    let expected = Type::Function { parameters: vec![int_type(), int_type()], return_type: Box::new(boolean()) };
    let actual = Type::Function { parameters: vec![int_type()], return_type: Box::new(boolean()) };
    let r = unify(&mut state, sp(), Constraint { expected, actual });
    assert!(matches!(r, Err(TypeError::TypesNotEqual { .. })));
    assert!(state.substitution.is_empty());
}

#[test]
fn differently_named_variables_do_not_unify() {
    let mut state = State::new(Supply(0));
    let r = unify(&mut state, sp(), Constraint { expected: var(0, Some("a")), actual: var(1, Some("b")) });
    assert!(matches!(r, Err(TypeError::TypesNotEqual { .. })));
    assert!(state.substitution.is_empty());
}

#[test]
fn a_variable_is_not_bound_to_a_type_that_holds_it() {
    let mut state = State::new(Supply(0));
    let t = Type::Function { parameters: vec![var(0, None)], return_type: Box::new(int_type()) };
    let r = unify(&mut state, sp(), Constraint { expected: var(0, None), actual: t });
    assert!(matches!(r, Err(TypeError::InfiniteType { var: 0, .. })));
    assert!(state.substitution.is_empty());
}

#[test]
fn closed_records_with_other_labels_do_not_unify() {
    let mut state = State::new(Supply(0));
    let expected = Type::RecordClosed { closed_kind: Kind::Type, closed_row: vec![(Name("foo".to_string()), int_type())] };
    let actual = Type::RecordClosed { closed_kind: Kind::Type, closed_row: vec![(Name("bar".to_string()), int_type())] };
    let r = unify(&mut state, sp(), Constraint { expected, actual });
    assert!(matches!(r, Err(TypeError::TypesNotEqual { .. })));
}

#[test]
fn functions_unify_part_by_part() {
    let string = Type::PrimConstructor(PrimType::String);
    let mut state = State::new(Supply(0));
    let expected = Type::Function { parameters: vec![int_type()], return_type: Box::new(boolean()) };
    let actual = Type::Function { parameters: vec![string], return_type: Box::new(int_type()) };
    let r = unify(&mut state, sp(), Constraint { expected, actual });
    assert!(matches!(r, Err(TypeError::TypesNotEqual { .. })));
    assert!(state.substitution.is_empty());

    let mut state = State::new(Supply(0));
    let expected = Type::Function { parameters: vec![int_type()], return_type: Box::new(boolean()) };
    let actual = Type::Function { parameters: vec![int_type()], return_type: Box::new(boolean()) };
    assert!(unify(&mut state, sp(), Constraint { expected, actual }).is_ok());
    assert!(state.substitution.is_empty());
}
