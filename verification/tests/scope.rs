use ditto::checker::{close_scope, extend_env, LocalValue};
use ditto::env::Env;
use ditto::names::{Name, QualifiedName, Span};
use ditto::state::{State, Supply};
use ditto::types::{PrimType, Type};

fn qn(s: &str) -> QualifiedName {
    QualifiedName { module_name: None, value: Name(s.to_string()) }
}

fn at(offset: usize) -> Span {
    Span { start_offset: offset, end_offset: offset + 1 }
}

fn local(name: &str, offset: usize) -> LocalValue {
    LocalValue { span: at(offset), value_type: Type::PrimConstructor(PrimType::Int), name: Name(name.to_string()) }
}

#[test]
fn it_restores_shadowed_references_when_a_scope_closes() {
    let mut state = State::new(Supply(0));
    state.register_value_reference(&qn("x"));
    state.register_value_reference(&qn("x"));
    state.register_value_reference(&qn("y"));
    let scope = extend_env(&Env::new(), &mut state, vec![local("x", 10), local("z", 20)]);
    // Inside the scope the shadowed count is set aside.
    assert_eq!(state.value_references.get(&qn("x")), 0);
    assert_eq!(state.value_references.get(&qn("y")), 1);
    state.register_value_reference(&qn("x"));
    let unused = close_scope(&mut state, scope);
    assert_eq!(unused.len(), 1);
    assert_eq!(unused[0].start_offset, 20);
    assert_eq!(state.value_references.get(&qn("x")), 2);
    assert_eq!(state.value_references.get(&qn("y")), 1);
    assert_eq!(state.value_references.get(&qn("z")), 0);
}

#[test]
fn it_reports_every_unreferenced_name_of_a_scope() {
    let mut state = State::new(Supply(0));
    let scope = extend_env(&Env::new(), &mut state, vec![local("a", 1), local("b", 2), local("c", 3)]);
    let unused = close_scope(&mut state, scope);
    let offsets: Vec<usize> = unused.iter().map(|s| s.start_offset).collect();
    assert_eq!(offsets, vec![1, 2, 3]);
}
