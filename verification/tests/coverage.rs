use ditto::checker::typecheck_with;
use ditto::env::{Env, EnvConstructor, EnvValue, Scheme};
use ditto::names::{
    FullyQualifiedModuleName, FullyQualifiedProperName, ModuleName, Name, PackageName, ProperName, QualifiedName,
    QualifiedProperName, Span,
};
use ditto::pre_ast::{Argument, Expression, FunctionBinder, Pattern};
use ditto::state::{Supply, TypeError};
use ditto::types::{Kind, PrimType, Type};

fn sp() -> Span {
    Span { start_offset: 0, end_offset: 0 }
}

fn proper(s: &str) -> ProperName {
    ProperName(s.to_string())
}

fn module(package: Option<&str>, names: &[&str]) -> FullyQualifiedModuleName {
    FullyQualifiedModuleName {
        package_name: package.map(|p| PackageName(p.to_string())),
        module_name: ModuleName(names.iter().map(|n| proper(n)).collect()),
    }
}

/// A type constructor of a module, of `arity` type arguments.
fn type_constructor(m: &FullyQualifiedModuleName, name: &str, source: Option<&str>, arity: usize) -> Type {
    let kind = if arity == 0 {
        Kind::Type
    } else {
        Kind::Function { parameters: (0..arity).map(|_| Kind::Type).collect() }
    };
    Type::Constructor {
        constructor_kind: kind,
        canonical_value: FullyQualifiedProperName { module_name: m.copy(), value: proper(name) },
        source_value: Some(QualifiedProperName { module_name: source.map(proper), value: proper(name) }),
    }
}

fn tv(s: &str, var: usize) -> Type {
    Type::Variable { variable_kind: Kind::Type, var, source_name: Some(Name(s.to_string())) }
}

fn call(function: Type, arguments: Vec<Type>) -> Type {
    Type::Call { function: Box::new(function), arguments }
}

fn tfn(parameters: Vec<Type>, return_type: Type) -> Type {
    Type::Function { parameters, return_type: Box::new(return_type) }
}

fn local_ctor(env: &mut Env, name: &str, forall: Vec<usize>, signature: Type) {
    env.constructors.push((
        QualifiedProperName { module_name: None, value: proper(name) },
        EnvConstructor::ModuleConstructor { constructor_scheme: Scheme { forall, signature }, constructor: proper(name) },
    ));
}

fn imported_ctor(env: &mut Env, qualifier: Option<&str>, m: &FullyQualifiedModuleName, name: &str, forall: Vec<usize>, signature: Type) {
    env.constructors.push((
        QualifiedProperName { module_name: qualifier.map(proper), value: proper(name) },
        EnvConstructor::ImportedConstructor {
            constructor_scheme: Scheme { forall, signature },
            constructor: FullyQualifiedProperName { module_name: m.copy(), value: proper(name) },
        },
    ));
}

/// `type Maybe(a) = Just(a) | None;` of the module `Test`.
fn with_maybe(env: &mut Env) {
    let test = module(None, &["Test"]);
    let maybe_a = || call(type_constructor(&test, "Maybe", None, 1), vec![tv("a", 0)]);
    local_ctor(env, "Just", vec![0], tfn(vec![tv("a", 0)], maybe_a()));
    local_ctor(env, "None", vec![0], maybe_a());
}

/// `type Result(a, e) = Ok(a) | Err(e);` of the module `Test`.
fn with_result(env: &mut Env) {
    let test = module(None, &["Test"]);
    let result = || call(type_constructor(&test, "Result", None, 2), vec![tv("a", 0), tv("e", 1)]);
    local_ctor(env, "Ok", vec![0, 1], tfn(vec![tv("a", 0)], result()));
    local_ctor(env, "Err", vec![0, 1], tfn(vec![tv("e", 1)], result()));
}

fn pvar(s: &str) -> Pattern {
    Pattern::Variable { span: sp(), name: Name(s.to_string()) }
}

fn pctor(qualifier: Option<&str>, name: &str, arguments: Vec<Pattern>) -> Pattern {
    Pattern::Constructor {
        span: sp(),
        constructor: QualifiedProperName { module_name: qualifier.map(proper), value: proper(name) },
        arguments,
    }
}

fn var(s: &str) -> Expression {
    Expression::Variable { span: sp(), variable: QualifiedName { module_name: None, value: Name(s.to_string()) } }
}

fn lit_int(v: &str) -> Expression {
    Expression::Int { span: sp(), value: v.to_string() }
}

/// `(x: annotation) -> match x with | pattern -> arm_expression`.
fn match_function(binder: &str, annotation: Option<Type>, return_type: Option<Type>, pattern: Pattern, arm: Expression) -> Expression {
    Expression::Function {
        span: sp(),
        binders: vec![FunctionBinder::Name { span: sp(), type_annotation: annotation, value: Name(binder.to_string()) }],
        return_type_annotation: return_type,
        body: Box::new(Expression::Match {
            span: sp(),
            expression: Box::new(var(binder)),
            head_arm: Box::new((pattern, arm)),
            tail_arms: vec![],
        }),
    }
}

fn assert_ok(env: &Env, supply: usize, e: Expression) {
    assert!(typecheck_with(env, Supply(supply), None, &e).is_ok(), "unexpected type error");
}

fn assert_not_covered(env: &Env, supply: usize, e: Expression, want: &[&str]) {
    match typecheck_with(env, Supply(supply), None, &e) {
        Err(TypeError::MatchNotExhaustive { missing_patterns, .. }) => {
            assert_eq!(missing_patterns, want.iter().map(|s| s.to_string()).collect::<Vec<_>>());
        }
        Err(_) => panic!("unexpected type error"),
        Ok(_) => panic!("unexpected type check"),
    }
}

#[test]
fn it_doesnt_error_for_exhaustive_patterns() {
    // type Never = JustOneMore(Never);
    // never = (nah: Never): a -> match nah with | JustOneMore(naah) -> never(naah);
    let test = module(None, &["Test"]);
    let never_t = || type_constructor(&test, "Never", None, 0);
    let mut env = Env::new();
    local_ctor(&mut env, "JustOneMore", vec![], tfn(vec![never_t()], never_t()));
    env.values.push((
        QualifiedName { module_name: None, value: Name("never".to_string()) },
        EnvValue::ModuleValue {
            span: sp(),
            variable_scheme: Scheme { forall: vec![], signature: tfn(vec![never_t()], tv("a", 0)) },
            variable: Name("never".to_string()),
        },
    ));
    assert_ok(
        &env,
        1,
        match_function(
            "nah",
            Some(never_t()),
            Some(tv("a", 0)),
            pctor(None, "JustOneMore", vec![pvar("naah")]),
            Expression::Call {
                span: sp(),
                function: Box::new(var("never")),
                arguments: vec![Argument::Expression(var("naah"))],
            },
        ),
    );

    // type Five = Five;
    // five_to_int = (five: Five) -> match five with | Five -> 5;
    let five_t = || type_constructor(&test, "Five", None, 0);
    let mut env = Env::new();
    local_ctor(&mut env, "Five", vec![], five_t());
    assert_ok(&env, 0, match_function("five", Some(five_t()), None, pctor(None, "Five", vec![]), lit_int("5")));
}

#[test]
fn it_doesnt_error_for_exhaustive_imported_patterns() {
    let stuff = module(Some("test-stuff"), &["Data", "Stuff"]);
    // import Data.Stuff;
    // five_to_int = (five: Stuff.Five) -> match five with | Stuff.Five -> 5;
    let mut env = Env::new();
    imported_ctor(&mut env, Some("Stuff"), &stuff, "Five", vec![], type_constructor(&stuff, "Five", Some("Stuff"), 0));
    assert_ok(
        &env,
        0,
        match_function(
            "five",
            Some(type_constructor(&stuff, "Five", Some("Stuff"), 0)),
            None,
            pctor(Some("Stuff"), "Five", vec![]),
            lit_int("5"),
        ),
    );
    // import Data.Stuff (Five(..));
    // five_to_int = (five: Five) -> match five with | Five -> 5;
    let mut env = Env::new();
    imported_ctor(&mut env, None, &stuff, "Five", vec![], type_constructor(&stuff, "Five", None, 0));
    assert_ok(
        &env,
        0,
        match_function("five", Some(type_constructor(&stuff, "Five", None, 0)), None, pctor(None, "Five", vec![]), lit_int("5")),
    );
}

#[test]
fn it_errors_for_non_exhaustive_patterns() {
    let test = module(None, &["Test"]);

    // type Foo = A | B;
    // test = (x: Foo) -> match x with | A -> 5;
    let foo_t = || type_constructor(&test, "Foo", None, 0);
    let mut env = Env::new();
    local_ctor(&mut env, "A", vec![], foo_t());
    local_ctor(&mut env, "B", vec![], foo_t());
    assert_not_covered(&env, 0, match_function("x", Some(foo_t()), None, pctor(None, "A", vec![]), lit_int("5")), &["B"]);

    let mut env = Env::new();
    with_maybe(&mut env);
    let maybe = |t: Type| call(type_constructor(&test, "Maybe", None, 1), vec![t]);

    // test = (x: Maybe(a)) -> match x with | Just(a) -> a;
    assert_not_covered(
        &env,
        1,
        match_function("x", Some(maybe(tv("a", 0))), None, pctor(None, "Just", vec![pvar("a")]), var("a")),
        &["None"],
    );
    // test = (x: Maybe(Int)) -> match x with | None -> 2;
    assert_not_covered(
        &env,
        0,
        match_function("x", Some(maybe(Type::PrimConstructor(PrimType::Int))), None, pctor(None, "None", vec![]), lit_int("2")),
        &["Just(_)"],
    );
    // test = (x) -> match x with | Just(None) -> 2;
    assert_not_covered(
        &env,
        0,
        match_function("x", None, None, pctor(None, "Just", vec![pctor(None, "None", vec![])]), lit_int("2")),
        &["None", "Just(Just(_))"],
    );
    // test = (x) -> match x with | Just(Just(Just(None))) -> 2;
    assert_not_covered(
        &env,
        0,
        match_function(
            "x",
            None,
            None,
            pctor(None, "Just", vec![pctor(None, "Just", vec![pctor(None, "Just", vec![pctor(None, "None", vec![])])])]),
            lit_int("2"),
        ),
        &["None", "Just(None)", "Just(Just(None))", "Just(Just(Just(Just(_))))"],
    );

    let mut env = Env::new();
    with_maybe(&mut env);
    with_result(&mut env);
    let result_t = call(
        type_constructor(&test, "Result", None, 2),
        vec![maybe(maybe(Type::PrimConstructor(PrimType::Int))), Type::PrimConstructor(PrimType::String)],
    );
    // test = (x: Result(Maybe(Maybe(Int)), String)) -> match x with | Err(str) -> str;
    assert_not_covered(
        &env,
        0,
        match_function("x", Some(ditto::types::copy_type(&result_t)), None, pctor(None, "Err", vec![pvar("str")]), var("str")),
        &["Ok(_)"],
    );
    // test = (x: Result(Maybe(Maybe(Int)), String)) -> match x with | Ok(Just(None)) -> "noice";
    assert_not_covered(
        &env,
        0,
        match_function(
            "x",
            Some(result_t),
            None,
            pctor(None, "Ok", vec![pctor(None, "Just", vec![pctor(None, "None", vec![])])]),
            Expression::String { span: sp(), value: "noice".to_string() },
        ),
        &["Err(_)", "Ok(None)", "Ok(Just(Just(_)))"],
    );

    // import (test-stuff) Data.Stuff as A;
    // import Data.Stuff as B;
    // option_of_option = (oo) -> match oo with | A.Some(B.None) -> unit;
    let mut env = Env::new();
    for (q, package) in [("A", Some("test-stuff")), ("B", None)] {
        let stuff = module(package, &["Data", "Stuff"]);
        let option_a = || call(type_constructor(&stuff, "Option", Some(q), 1), vec![tv("a", 0)]);
        imported_ctor(&mut env, Some(q), &stuff, "Some", vec![0], tfn(vec![tv("a", 0)], option_a()));
        imported_ctor(&mut env, Some(q), &stuff, "None", vec![0], option_a());
    }
    assert_not_covered(
        &env,
        0,
        match_function(
            "oo",
            None,
            None,
            pctor(Some("A"), "Some", vec![pctor(Some("B"), "None", vec![])]),
            Expression::Unit { span: sp() },
        ),
        &["None", "Some(Some(_))"],
    );
}

#[test]
fn it_lists_the_constructors_of_a_type() {
    let mut env = Env::new();
    with_maybe(&mut env);
    with_result(&mut env);
    let test = module(None, &["Test"]);
    let maybe_int = call(type_constructor(&test, "Maybe", None, 1), vec![Type::PrimConstructor(PrimType::Int)]);
    let constructors = ditto::coverage::constructors_for_type(&maybe_int, &env.constructors);
    assert_eq!(constructors.len(), 2);
    assert_eq!(constructors[0].name.value.0, "Just");
    assert_eq!(constructors[0].arguments.len(), 1);
    assert!(ditto::coverage::type_eq(&constructors[0].arguments[0], &Type::PrimConstructor(PrimType::Int)));
    assert_eq!(constructors[1].name.value.0, "None");
    assert!(constructors[1].arguments.is_empty());
    let nothing = ditto::coverage::constructors_for_type(&Type::PrimConstructor(PrimType::Int), &env.constructors);
    assert!(nothing.is_empty());
}

#[test]
fn it_accepts_a_lone_catch_all_clause() {
    let mut env = Env::new();
    with_maybe(&mut env);
    let test = module(None, &["Test"]);
    let maybe_int = call(type_constructor(&test, "Maybe", None, 1), vec![Type::PrimConstructor(PrimType::Int)]);
    let catch_all = ditto::coverage::ClausePattern::Variable { span: sp(), var: "x".to_string() };
    assert!(ditto::coverage::is_exhaustive(&env.constructors, &maybe_int, vec![catch_all]).is_none());
    let first = ditto::coverage::ClausePattern::Variable { span: sp(), var: "x".to_string() };
    let second = ditto::coverage::ClausePattern::Constructor { span: sp(), constructor: proper("None"), arguments: vec![] };
    match ditto::coverage::is_exhaustive(&env.constructors, &maybe_int, vec![first, second]) {
        Some(ditto::coverage::Error::RedundantClauses(ps)) => assert_eq!(ps.len(), 1),
        _ => panic!("the clause after a catch-all is redundant"),
    }
}
