use ditto::checker::{typecheck, typecheck_with, Typechecked};
use ditto::env::Env;
use ditto::names::{Name, QualifiedName, Span, UnusedName};
use ditto::pre_ast::{pipe, strip_number_separators, Argument, Effect, Expression, FunctionBinder, Pattern};
use ditto::state::{Supply, TypeError, Warning};
use ditto::types::{Kind, PrimType, Type};

fn sp() -> Span {
    Span { start_offset: 0, end_offset: 0 }
}

fn name(s: &str) -> Name {
    Name(s.to_string())
}

fn lit_int(v: &str) -> Expression {
    Expression::Int { span: sp(), value: v.to_string() }
}

fn float(v: &str) -> Expression {
    Expression::Float { span: sp(), value: v.to_string() }
}

fn string(v: &str) -> Expression {
    Expression::String { span: sp(), value: v.to_string() }
}

fn t() -> Expression {
    Expression::True { span: sp() }
}

fn f() -> Expression {
    Expression::False { span: sp() }
}

fn unit() -> Expression {
    Expression::Unit { span: sp() }
}

fn array(elements: Vec<Expression>) -> Expression {
    Expression::Array { span: sp(), elements }
}

fn var(s: &str) -> Expression {
    Expression::Variable { span: sp(), variable: QualifiedName { module_name: None, value: name(s) } }
}

fn call(function: Expression, arguments: Vec<Expression>) -> Expression {
    Expression::Call {
        span: sp(),
        function: Box::new(function),
        arguments: arguments.into_iter().map(Argument::Expression).collect(),
    }
}

fn if_(c: Expression, a: Expression, b: Expression) -> Expression {
    Expression::If { span: sp(), condition: Box::new(c), true_clause: Box::new(a), false_clause: Box::new(b) }
}

fn b(s: &str) -> FunctionBinder {
    FunctionBinder::Name { span: sp(), type_annotation: None, value: name(s) }
}

fn bt(s: &str, t: Type) -> FunctionBinder {
    FunctionBinder::Name { span: sp(), type_annotation: Some(t), value: name(s) }
}

fn unused(s: &str) -> FunctionBinder {
    FunctionBinder::Unused { span: sp(), type_annotation: None, value: UnusedName(s.to_string()) }
}

fn func(binders: Vec<FunctionBinder>, ret: Option<Type>, body: Expression) -> Expression {
    Expression::Function { span: sp(), binders, return_type_annotation: ret, body: Box::new(body) }
}

fn effect(e: Effect) -> Expression {
    Expression::Effect { span: sp(), effect: e }
}

fn ret(e: Expression) -> Effect {
    Effect::Return { expression: Box::new(e) }
}

fn match_(e: Expression, arms: Vec<(Pattern, Expression)>) -> Expression {
    let mut arms = arms;
    let head = arms.remove(0);
    Expression::Match { span: sp(), expression: Box::new(e), head_arm: Box::new(head), tail_arms: arms }
}

fn pvar(s: &str) -> Pattern {
    Pattern::Variable { span: sp(), name: name(s) }
}

fn punused(s: &str) -> Pattern {
    Pattern::Unused { span: sp(), unused_name: UnusedName(s.to_string()) }
}

fn tprim(p: PrimType) -> Type {
    Type::PrimConstructor(p)
}

/// A type variable named in the source, as the annotation checker numbers it.
fn tv(s: &str, var: usize) -> Type {
    Type::Variable { variable_kind: Kind::Type, var, source_name: Some(name(s)) }
}

fn tfn(parameters: Vec<Type>, return_type: Type) -> Type {
    Type::Function { parameters, return_type: Box::new(return_type) }
}

/// Type checks with an empty environment, fresh variables starting at `supply`
/// (past those that the type annotations took).
fn check_from(supply: usize, e: &Expression) -> Result<Typechecked, TypeError> {
    typecheck_with(&Env::new(), Supply(supply), None, e)
}

fn assert_type_from(supply: usize, e: Expression, want: &str) -> Vec<Warning> {
    let result = check_from(supply, &e);
    assert!(result.is_ok(), "unexpected type error");
    let typechecked = result.ok().unwrap();
    assert_eq!(typechecked.expression_type.debug_render(), want);
    typechecked.warnings
}

fn assert_type(e: Expression, want: &str) -> Vec<Warning> {
    assert_type_from(0, e, want)
}

fn type_error_from(supply: usize, e: Expression) -> TypeError {
    let result = check_from(supply, &e);
    assert!(result.is_err(), "unexpected type check");
    match result {
        Err(err) => err,
        Ok(_) => unreachable!(),
    }
}

fn type_error(e: Expression) -> TypeError {
    type_error_from(0, e)
}

#[test]
fn array_it_typechecks_as_expected() {
    assert_type(array(vec![]), "Array($0)");
    assert_type(array(vec![string("x")]), "Array(String)");
    assert_type(array(vec![t(), f()]), "Array(Bool)");
    assert_type(array(vec![array(vec![])]), "Array(Array($0))");
    assert_type(array(vec![array(vec![]), array(vec![t()])]), "Array(Array(Bool))");
}

#[test]
fn array_it_errors_as_expected() {
    assert!(matches!(type_error(array(vec![string(""), f()])), TypeError::TypesNotEqual { .. }));
}

#[test]
fn bool_it_typechecks_as_expected() {
    assert_type(t(), "Bool");
    assert_type(f(), "Bool");
}

#[test]
fn call_it_typechecks_as_expected() {
    assert_type(call(func(vec![], None, lit_int("2")), vec![]), "Int");
    assert_type(call(func(vec![b("a")], None, var("a")), vec![float("2.0")]), "Float");
    assert_type(call(func(vec![b("a"), b("b")], None, var("b")), vec![float("2.0"), t()]), "Bool");
}

#[test]
fn call_it_errors_as_expected() {
    assert!(matches!(type_error(call(t(), vec![])), TypeError::NotAFunction { .. }));
    assert!(matches!(type_error(call(lit_int("2"), vec![])), TypeError::NotAFunction { .. }));

    assert!(matches!(
        type_error(call(func(vec![], None, lit_int("5")), vec![lit_int("6"), lit_int("7"), lit_int("8")])),
        TypeError::ArgumentLengthMismatch { .. }
    ));
    assert!(matches!(
        type_error(call(func(vec![b("a"), b("b"), b("c")], None, var("a")), vec![])),
        TypeError::ArgumentLengthMismatch { .. }
    ));

    assert!(matches!(
        type_error(func(vec![b("f")], None, call(var("f"), vec![float("5.0"), call(var("f"), vec![t()])]))),
        TypeError::TypesNotEqual { .. }
    ));
}

#[test]
fn cond_it_typechecks_as_expected() {
    assert_type(if_(t(), string("yea"), string("nay")), "String");
    assert_type(if_(f(), lit_int("0"), lit_int("1")), "Int");
    assert_type(if_(t(), f(), t()), "Bool");
    assert_type(if_(t(), array(vec![]), array(vec![])), "Array($1)");
}

#[test]
fn cond_it_errors_as_expected() {
    assert!(matches!(type_error(if_(t(), lit_int("1"), string("false"))), TypeError::TypesNotEqual { .. }));
    assert!(matches!(type_error(if_(string("true"), string("???"), string("what"))), TypeError::TypesNotEqual { .. }));
}

#[test]
fn effect_it_errors_as_expected() {
    assert!(matches!(
        type_error(effect(Effect::Expression { expression: Box::new(lit_int("5")), rest: None })),
        TypeError::TypesNotEqual { .. }
    ));
    assert!(matches!(
        type_error(effect(Effect::Bind {
            name: name("x"),
            name_span: sp(),
            expression: Box::new(lit_int("5")),
            rest: Box::new(ret(var("x"))),
        })),
        TypeError::TypesNotEqual { .. }
    ));
}

#[test]
fn float_it_typechecks_as_expected() {
    assert_type(float("5.0"), "Float");
    assert_type(float("5.0"), "Float");
    assert_type(float("50505050505050.55"), "Float");
    assert_type(float(&strip_number_separators("50_000_000.000_05".to_string())), "Float");
}

#[test]
fn float_it_errors_as_expected() {
    assert!(matches!(
        type_error(func(vec![], Some(tprim(PrimType::Float)), lit_int("5"))),
        TypeError::TypesNotEqual { .. }
    ));
    assert!(matches!(
        type_error(func(vec![], Some(tprim(PrimType::Int)), float("5.0"))),
        TypeError::TypesNotEqual { .. }
    ));
}

#[test]
fn function_it_typechecks_as_expected() {
    assert_type(func(vec![], None, lit_int("2")), "() -> Int");
    assert_type(func(vec![], None, func(vec![], None, lit_int("2"))), "() -> () -> Int");
    assert_type(func(vec![b("f"), b("a")], None, call(var("f"), vec![var("a")])), "(($1) -> $2, $1) -> $2");
    assert_type(
        func(vec![b("f"), b("a")], Some(tprim(PrimType::Int)), call(var("f"), vec![var("a")])),
        "(($1) -> Int, $1) -> Int",
    );

    assert_type(func(vec![b("x")], None, var("x")), "($0) -> $0");
    assert_type(func(vec![unused("_x")], None, lit_int("5")), "($0) -> Int");
    assert_type_from(1, func(vec![bt("x", tv("a", 0))], None, var("x")), "(a) -> a");
    assert_type_from(1, func(vec![b("x")], Some(tv("a", 0)), var("x")), "(a) -> a");
    assert_type_from(1, func(vec![bt("x", tv("a", 0))], Some(tv("a", 0)), var("x")), "(a) -> a");

    assert_type_from(
        3,
        func(
            vec![bt("f", tfn(vec![tv("a", 0), tv("b", 1)], tv("c", 2)))],
            None,
            func(vec![b("a")], None, func(vec![b("b")], None, call(var("f"), vec![var("a"), var("b")]))),
        ),
        "((a, b) -> c) -> (a) -> (b) -> c",
    );

    assert_type(func(vec![b("x")], None, func(vec![b("y")], None, var("y"))), "($0) -> ($1) -> $1");
    assert_type(func(vec![b("x")], None, func(vec![b("y"), b("z")], None, var("z"))), "($0) -> ($1, $2) -> $2");
    assert_type(
        func(vec![b("x")], None, func(vec![b("y"), b("z")], Some(tprim(PrimType::String)), var("z"))),
        "($0) -> ($1, String) -> String",
    );
    assert_type_from(
        2,
        func(
            vec![b("x")],
            Some(tfn(vec![tv("a", 0), tprim(PrimType::String)], tprim(PrimType::String))),
            func(vec![b("y"), b("z")], None, var("z")),
        ),
        "($2) -> (a, String) -> String",
    );

    assert_type_from(
        2,
        func(
            vec![bt("a", tv("a", 0))],
            None,
            call(func(vec![bt("b", tv("b", 1))], None, var("b")), vec![var("a")]),
        ),
        "(a) -> a",
    );

    assert_type_from(
        1,
        func(
            vec![bt("f", tfn(vec![tv("a", 0)], tv("a", 0)))],
            Some(tfn(vec![tv("a", 0)], tv("a", 0))),
            func(vec![b("x")], None, var("x")),
        ),
        "((a) -> a) -> (a) -> a",
    );
}

#[test]
fn function_it_errors_as_expected() {
    assert!(matches!(type_error_from(1, func(vec![], Some(tv("a", 0)), lit_int("5"))), TypeError::TypesNotEqual { .. }));
    assert!(matches!(
        type_error(func(vec![b("f")], None, call(var("f"), vec![var("f")]))),
        TypeError::InfiniteType { .. }
    ));
    assert!(matches!(
        type_error_from(2, func(vec![bt("x", tv("a", 0))], Some(tv("b", 1)), var("x"))),
        TypeError::TypesNotEqual { .. }
    ));
    assert!(matches!(
        type_error(func(vec![bt("x", tprim(PrimType::String))], Some(tprim(PrimType::Bool)), var("x"))),
        TypeError::TypesNotEqual { .. }
    ));
    assert!(matches!(
        type_error_from(
            1,
            func(
                vec![],
                Some(tfn(vec![tv("a", 0), tprim(PrimType::String)], tprim(PrimType::String))),
                func(vec![], None, f()),
            )
        ),
        TypeError::TypesNotEqual { .. }
    ));

    assert!(matches!(
        type_error(func(vec![b("a"), b("a")], None, var("a"))),
        TypeError::DuplicateFunctionBinder { .. }
    ));

    // scoped type variables
    assert!(matches!(
        type_error_from(
            2,
            func(vec![bt("a", tv("a", 0))], Some(tv("a", 0)), func(vec![], Some(tv("b", 1)), var("a")))
        ),
        TypeError::TypesNotEqual { .. }
    ));
    assert!(matches!(
        type_error_from(
            2,
            func(
                vec![bt("a", tv("a", 0))],
                Some(tv("a", 0)),
                func(vec![bt("b", tv("b", 1))], Some(tv("a", 0)), var("b")),
            )
        ),
        TypeError::TypesNotEqual { .. }
    ));

    assert!(matches!(
        type_error(call(
            func(
                vec![bt("f", tfn(vec![tprim(PrimType::Int), tprim(PrimType::Int)], tprim(PrimType::Bool)))],
                None,
                unit(),
            ),
            vec![func(vec![bt("lhs", tprim(PrimType::Int))], None, t())],
        )),
        TypeError::TypesNotEqual { .. }
    ));
}

#[test]
fn function_it_warns_as_expected() {
    let warnings = assert_type_from(
        2,
        func(vec![bt("a", tv("a", 0)), bt("b", tv("b", 1))], Some(tv("b", 1)), var("b")),
        "(a, b) -> b",
    );
    assert!(matches!(warnings.as_slice(), [Warning::UnusedFunctionBinder { .. }]));
}

#[test]
fn int_it_typechecks_as_expected() {
    assert_type(lit_int("5"), "Int");
    assert_type(lit_int("50505050505050"), "Int");
    assert_type(lit_int("5"), "Int");
    assert_type(lit_int(&strip_number_separators("5_50_500".to_string())), "Int");
}

#[test]
fn match_it_typechecks_as_expected() {
    assert_type(match_(lit_int("5"), vec![(pvar("x"), float("2.0"))]), "Float");
    assert_type(match_(t(), vec![(pvar("x"), var("x"))]), "Bool");
    assert_type(match_(t(), vec![(punused("_x"), unit()), (punused("_y"), unit())]), "Unit");
    assert_type_from(
        1,
        func(vec![bt("a", tv("a", 0))], Some(tv("a", 0)), match_(var("a"), vec![(pvar("x"), var("x"))])),
        "(a) -> a",
    );
}

#[test]
fn match_it_errors_as_expected() {
    assert!(matches!(
        type_error(match_(lit_int("5"), vec![(pvar("x"), unit()), (pvar("y"), t())])),
        TypeError::TypesNotEqual { .. }
    ));
}

#[test]
fn match_it_warns_as_expected() {
    let warnings = assert_type(match_(lit_int("5"), vec![(pvar("x"), unit())]), "Unit");
    assert!(matches!(warnings.as_slice(), [Warning::UnusedPatternBinder { .. }]));
}

#[test]
fn right_pipe_it_typechecks_as_expected() {
    assert_type(func(vec![b("f")], None, pipe(lit_int("5"), var("f"))), "((Int) -> $1) -> $1");
    assert_type(func(vec![b("f")], None, pipe(lit_int("5"), call(var("f"), vec![]))), "((Int) -> $1) -> $1");
    assert_type(
        func(vec![b("f"), b("g")], None, pipe(pipe(lit_int("5"), var("f")), var("g"))),
        "((Int) -> $2, ($2) -> $3) -> $3",
    );
    assert_type(pipe(lit_int("5"), func(vec![b("n")], None, var("n"))), "Int");
    assert_type(pipe(lit_int("5"), call(func(vec![b("n")], None, var("n")), vec![])), "Int");
}

#[test]
fn right_pipe_it_errors_as_expected() {
    assert!(matches!(type_error(pipe(lit_int("5"), lit_int("5"))), TypeError::NotAFunction { .. }));
    assert!(matches!(
        type_error(pipe(lit_int("5"), func(vec![], None, lit_int("5")))),
        TypeError::ArgumentLengthMismatch { .. }
    ));
}

#[test]
fn string_it_typechecks_as_expected() {
    assert_type(string(""), "String");
    assert_type(string("lorem ipsum"), "String");
    assert_type(string(""), "String");
}

#[test]
fn unit_it_typechecks_as_expected() {
    assert_type(unit(), "Unit");
}

#[test]
fn it_types_literals_in_the_empty_environment() {
    let r = typecheck(None, &lit_int("5")).ok().unwrap();
    assert_eq!(r.expression_type.debug_render(), "Int");
    assert!(r.warnings.is_empty());
    assert_eq!(r.supply.0, 0);
    let r = typecheck(None, &string("x")).ok().unwrap();
    assert_eq!(r.expression_type.debug_render(), "String");
    let r = typecheck(Some(Type::PrimConstructor(PrimType::Bool)), &t()).ok().unwrap();
    assert_eq!(r.expression_type.debug_render(), "Bool");
}

#[test]
fn arms_after_a_catch_all_are_each_redundant() {
    let warnings = assert_type(
        match_(t(), vec![(punused("_x"), unit()), (punused("_y"), unit()), (pvar("z"), unit())]),
        "Unit",
    );
    let redundant = warnings.iter().filter(|w| matches!(w, Warning::RedundantMatchPattern { .. })).count();
    assert_eq!(redundant, 2);
}

#[test]
fn calling_a_literal_is_not_a_function() {
    assert!(matches!(type_error(call(t(), vec![])), TypeError::NotAFunction { .. }));
}

fn access(target: Expression, label: &str) -> Expression {
    Expression::RecordAccess { span: sp(), target: Box::new(target), label: name(label) }
}

fn record(fields: Vec<(&str, Expression)>) -> Expression {
    Expression::Record { span: sp(), fields: fields.into_iter().map(|(l, e)| (name(l), e)).collect() }
}

#[test]
fn effect_blocks_typecheck() {
    assert_type(effect(Effect::Expression { expression: Box::new(effect(ret(unit()))), rest: None }), "Effect(Unit)");
    assert_type(
        effect(Effect::Bind {
            name: name("hi"),
            name_span: sp(),
            expression: Box::new(effect(ret(string("hi")))),
            rest: Box::new(ret(var("hi"))),
        }),
        "Effect(String)",
    );
    let effect_bool = Type::Call {
        function: Box::new(tprim(PrimType::Effect)),
        arguments: vec![tprim(PrimType::Bool)],
    };
    assert_type(
        func(
            vec![bt("get_bool", effect_bool)],
            None,
            effect(Effect::Bind {
                name: name("b"),
                name_span: sp(),
                expression: Box::new(var("get_bool")),
                rest: Box::new(ret(var("b"))),
            }),
        ),
        "(Effect(Bool)) -> Effect(Bool)",
    );
}

#[test]
fn record_access_typechecks() {
    assert_type(record(vec![("foo", t())]), "{ foo: Bool }");
    assert_type(record(vec![("foo", record(vec![])), ("bar", array(vec![]))]), "{ foo: {}, bar: Array($0) }");
    assert_type(func(vec![b("x")], None, access(var("x"), "foo")), "({ $1 | foo: $2 }) -> $2");
    assert_type(call(func(vec![b("r")], None, access(var("r"), "foo")), vec![record(vec![("foo", lit_int("5"))])]), "Int");
}
