use ditto::js_ast::{ArrowFunctionBody, Block, Expression, Ident, ModuleStatement, Operator};
use ditto::js_render::{render_block, render_expression, render_ident, render_statement};

fn ident(s: &str) -> Ident {
    Ident(s.to_string())
}

fn expr(e: Expression) -> String {
    let mut accum = String::new();
    render_expression(&e, &mut accum);
    accum
}

fn number(s: &str) -> Expression {
    Expression::Number(s.to_string())
}

#[test]
fn it_renders_identifiers() {
    let mut accum = String::new();
    render_ident(&ident("foo"), &mut accum);
    assert_eq!(accum, "foo");
    let mut accum = String::new();
    render_ident(&ident("Bar"), &mut accum);
    assert_eq!(accum, "Bar");
}

#[test]
fn it_renders_expressions() {
    assert_eq!(expr(Expression::True), "true");
    assert_eq!(expr(Expression::False), "false");
    assert_eq!(expr(Expression::Undefined), "undefined");

    assert_eq!(expr(number("42")), "42");
    assert_eq!(expr(Expression::String("five".to_string())), "\"five\"");

    assert_eq!(expr(Expression::Variable(ident("foo"))), "foo");

    assert_eq!(
        expr(Expression::ArrowFunction {
            parameters: vec![],
            body: Box::new(ArrowFunctionBody::Expression(Expression::String("test".to_string()))),
        }),
        "() => \"test\""
    );
    assert_eq!(
        expr(Expression::ArrowFunction {
            parameters: vec![ident("a")],
            body: Box::new(ArrowFunctionBody::Block(Block::Return(Some(Expression::String("hello".to_string()))))),
        }),
        "(a) => {return \"hello\";}"
    );
    assert_eq!(
        expr(Expression::ArrowFunction {
            parameters: vec![ident("a"), ident("b"), ident("c")],
            body: Box::new(ArrowFunctionBody::Expression(Expression::ArrowFunction {
                parameters: vec![],
                body: Box::new(ArrowFunctionBody::Expression(number("5"))),
            })),
        }),
        "(a,b,c) => () => 5"
    );

    assert_eq!(
        expr(Expression::Call {
            function: Box::new(Expression::Variable(ident("f"))),
            arguments: vec![Expression::True, Expression::False],
        }),
        "f(true,false)"
    );
    assert_eq!(
        expr(Expression::Call {
            function: Box::new(Expression::ArrowFunction {
                parameters: vec![],
                body: Box::new(ArrowFunctionBody::Expression(Expression::True)),
            }),
            arguments: vec![],
        }),
        "(() => true)()"
    );

    assert_eq!(
        expr(Expression::Call {
            function: Box::new(Expression::Conditional {
                condition: Box::new(Expression::True),
                true_clause: Box::new(number("0")),
                false_clause: Box::new(number("1")),
            }),
            arguments: vec![],
        }),
        "(true?0:1)()"
    );

    assert_eq!(
        expr(Expression::Conditional {
            condition: Box::new(Expression::True),
            true_clause: Box::new(number("0")),
            false_clause: Box::new(number("1")),
        }),
        "true?0:1"
    );
    assert_eq!(
        expr(Expression::Conditional {
            condition: Box::new(Expression::Conditional {
                condition: Box::new(Expression::True),
                true_clause: Box::new(Expression::True),
                false_clause: Box::new(Expression::False),
            }),
            true_clause: Box::new(number("0")),
            false_clause: Box::new(number("1")),
        }),
        "(true?true:false)?0:1"
    );
    assert_eq!(
        expr(Expression::Conditional {
            condition: Box::new(Expression::Conditional {
                condition: Box::new(Expression::True),
                true_clause: Box::new(Expression::True),
                false_clause: Box::new(Expression::False),
            }),
            true_clause: Box::new(Expression::Conditional {
                condition: Box::new(Expression::False),
                true_clause: Box::new(number("0")),
                false_clause: Box::new(number("1")),
            }),
            false_clause: Box::new(Expression::Conditional {
                condition: Box::new(Expression::False),
                true_clause: Box::new(number("2")),
                false_clause: Box::new(number("3")),
            }),
        }),
        "(true?true:false)?false?0:1:false?2:3"
    );
    assert_eq!(
        expr(Expression::Operator {
            op: Operator::Equals,
            lhs: Box::new(Expression::Operator {
                op: Operator::And,
                lhs: Box::new(Expression::False),
                rhs: Box::new(Expression::True),
            }),
            rhs: Box::new(Expression::True),
        }),
        "((false && true) === true)"
    );

    assert_eq!(
        expr(Expression::IndexAccess {
            target: Box::new(Expression::IndexAccess {
                target: Box::new(Expression::Variable(ident("foo"))),
                index: Box::new(Expression::String(String::from("bar"))),
            }),
            index: Box::new(Expression::String(String::from("baz"))),
        }),
        r#"foo["bar"]["baz"]"#
    );
}

#[test]
fn it_renders_blocks() {
    let mut accum = String::new();
    render_block(&Block::Return(Some(Expression::True)), &mut accum);
    assert_eq!(accum, "{return true;}");
}

#[test]
fn it_renders_module_statements() {
    let render = |s: ModuleStatement| {
        let mut accum = String::new();
        render_statement(&s, &mut accum);
        accum
    };
    assert_eq!(
        render(ModuleStatement::Function {
            ident: ident("identity"),
            parameters: vec![ident("a")],
            body: Block::Return(Some(Expression::Variable(ident("a")))),
        }),
        "function identity(a){return a;}"
    );
    assert_eq!(
        render(ModuleStatement::ConstAssignment { ident: ident("yes"), value: Expression::True }),
        "const yes = true;"
    );
    assert_eq!(render(ModuleStatement::LetDeclaration { ident: ident("huh") }), "let huh;");
    assert_eq!(
        render(ModuleStatement::Assignment { ident: ident("huh"), value: number("42") }),
        "huh = 42;"
    );
}

#[test]
fn it_renders_objects_in_parens_as_arrow_bodies() {
    assert_eq!(
        expr(Expression::ArrowFunction {
            parameters: vec![],
            body: Box::new(ArrowFunctionBody::Expression(Expression::Object(vec![
                ("foo".to_string(), Expression::True),
                ("bar".to_string(), number("5")),
            ]))),
        }),
        "() => ({\"foo\":true,\"bar\":5})"
    );
}

#[test]
fn it_renders_throwing_and_branching_blocks() {
    let mut accum = String::new();
    render_block(
        &Block::If {
            condition: Expression::True,
            true_branch: Box::new(Block::Return(None)),
            false_branch: Box::new(Block::Throw("nope".to_string())),
        },
        &mut accum,
    );
    assert_eq!(accum, "{if (true){return;}throw new Error(\"nope\");}");
}
