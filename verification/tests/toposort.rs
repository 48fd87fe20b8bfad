use ditto::names::{Name, QualifiedName, Span};
use ditto::pre_ast::{Argument, Expression, FunctionBinder};
use ditto::toposort::{toposort_value_declarations, Scc, ValueDeclaration};

fn sp() -> Span {
    Span { start_offset: 0, end_offset: 0 }
}

fn var(s: &str) -> Expression {
    Expression::Variable { span: sp(), variable: QualifiedName { module_name: None, value: Name(s.to_string()) } }
}

fn decl(name: &str, expression: Expression) -> ValueDeclaration {
    ValueDeclaration { name: Name(name.to_string()), expression }
}

fn call(function: Expression, arguments: Vec<Expression>) -> Expression {
    Expression::Call {
        span: sp(),
        function: Box::new(function),
        arguments: arguments.into_iter().map(Argument::Expression).collect(),
    }
}

/// Each group as whether it is cyclic and the names of its declarations.
fn groups(sccs: Vec<Scc<ValueDeclaration>>) -> Vec<(bool, Vec<String>)> {
    sccs.into_iter()
        .map(|scc| match scc {
            Scc::Acyclic(d) => (false, vec![d.name.0]),
            Scc::Cyclic(ds) => (true, ds.into_iter().map(|d| d.name.0).collect()),
        })
        .collect()
}

fn acyclic(name: &str) -> (bool, Vec<String>) {
    (false, vec![name.to_string()])
}

fn cyclic(names: &[&str]) -> (bool, Vec<String>) {
    (true, names.iter().map(|n| n.to_string()).collect())
}

#[test]
fn it_toposorts_as_expected() {
    assert_eq!(
        groups(toposort_value_declarations(vec![
            decl("a", var("b")),
            decl("b", var("c")),
            decl("c", Expression::Array { span: sp(), elements: vec![] }),
        ])),
        vec![acyclic("c"), acyclic("b"), acyclic("a")]
    );
    assert_eq!(
        groups(toposort_value_declarations(vec![decl("a", var("b")), decl("b", var("a"))])),
        vec![cyclic(&["a", "b"])]
    );
    assert_eq!(groups(toposort_value_declarations(vec![decl("a", var("a"))])), vec![cyclic(&["a"])]);
    assert_eq!(
        groups(toposort_value_declarations(vec![
            decl("a", call(var("b"), vec![var("a")])),
            decl(
                "b",
                Expression::Function {
                    span: sp(),
                    binders: vec![FunctionBinder::Name { span: sp(), type_annotation: None, value: Name("x".to_string()) }],
                    return_type_annotation: None,
                    body: Box::new(var("x")),
                },
            ),
        ])),
        vec![acyclic("b"), cyclic(&["a"])]
    );
}

#[test]
fn it_handles_undefined_values() {
    assert_eq!(
        groups(toposort_value_declarations(vec![decl("fine", call(var("not"), vec![var("defined")]))])),
        vec![acyclic("fine")]
    );
}
