use ditto::ast;
use ditto::js_ast::{Expression, Ident, ModuleStatement};
use ditto::js_convert::{
    codegen, convert_expression, convert_float, convert_int, convert_module, convert_module_constructors,
    expression_to_module_statement, ident_from_fully_qualified, mangle_reserved, mk_foreign_ident,
    name_string_to_ident_string, ImportedModuleIdents, ModuleConstructor, ModuleInput,
};
use ditto::js_render::{render_expression, render_module, render_statement};
use ditto::names::{FullyQualifiedModuleName, FullyQualifiedName, ModuleName, Name, PackageName, ProperName, Span};
use ditto::toposort::Scc;
use ditto::types::{PrimType, Type};

fn sp() -> Span {
    Span { start_offset: 0, end_offset: 0 }
}

fn render(e: &Expression) -> String {
    let mut accum = String::new();
    render_expression(e, &mut accum);
    accum
}

fn prim(p: PrimType) -> Type {
    Type::PrimConstructor(p)
}

fn module_name(package: Option<&str>, names: &[&str]) -> FullyQualifiedModuleName {
    FullyQualifiedModuleName {
        package_name: package.map(|p| PackageName(p.to_string())),
        module_name: ModuleName(names.iter().map(|n| ProperName(n.to_string())).collect()),
    }
}

#[test]
fn it_mangles_reserved_words() {
    assert_eq!(mangle_reserved("class".to_string()), "$class");
    assert_eq!(mangle_reserved("yield".to_string()), "$yield");
    assert_eq!(mangle_reserved("foo".to_string()), "foo");
    assert_eq!(name_string_to_ident_string("new".to_string()), "$new");
    assert_eq!(mk_foreign_ident("new".to_string()).0, "foreign$$new");
    assert_eq!(mk_foreign_ident("log".to_string()).0, "foreign$log");
}

#[test]
fn it_makes_identifiers_of_qualified_names() {
    let m = module_name(Some("test-stuff"), &["Data", "Stuff"]);
    assert_eq!(ident_from_fully_qualified(&m, "five".to_string()).0, "test_stuff$Data$Stuff$five");
    let m = module_name(None, &["Data"]);
    assert_eq!(ident_from_fully_qualified(&m, "do".to_string()).0, "Data$$do");
}

#[test]
fn it_converts_number_literals() {
    assert_eq!(convert_int(&"007".to_string()), "7");
    assert_eq!(convert_int(&"000".to_string()), "0");
    assert_eq!(convert_int(&"42".to_string()), "42");
    assert_eq!(convert_float(&"00.5".to_string()), "0.5");
    assert_eq!(convert_float(&"0.0".to_string()), "0.0");
    assert_eq!(convert_float(&"10.25".to_string()), "10.25");
}

#[test]
fn it_converts_constructors() {
    let constructors = vec![
        (ProperName("Nothing".to_string()), ModuleConstructor { fields: vec![] }),
        (ProperName("Just".to_string()), ModuleConstructor { fields: vec![prim(PrimType::Int)] }),
    ];
    let statements = convert_module_constructors(&constructors);
    let rendered: Vec<String> = statements
        .iter()
        .map(|s| {
            let mut accum = String::new();
            render_statement(s, &mut accum);
            accum
        })
        .collect();
    assert_eq!(rendered, vec!["function Just($0){return [\"Just\",$0];}", "const Nothing = [\"Nothing\"];"]);
}

#[test]
fn it_converts_functions_to_module_statements() {
    let f = Expression::ArrowFunction {
        parameters: vec![Ident("a".to_string())],
        body: Box::new(ditto::js_ast::ArrowFunctionBody::Expression(Expression::Variable(Ident("a".to_string())))),
    };
    let mut accum = String::new();
    render_statement(&expression_to_module_statement(Ident("identity".to_string()), f), &mut accum);
    assert_eq!(accum, "function identity(a){return a;}");
    assert!(matches!(
        expression_to_module_statement(Ident("five".to_string()), Expression::Number("5".to_string())),
        ModuleStatement::ConstAssignment { .. }
    ));
}

#[test]
fn it_converts_expressions() {
    let mut imported: ImportedModuleIdents = Vec::new();
    let e = ast::Expression::If {
        span: sp(),
        output_type: prim(PrimType::Int),
        condition: Box::new(ast::Expression::True { span: sp(), value_type: prim(PrimType::Bool) }),
        true_clause: Box::new(ast::Expression::Int { span: sp(), value: "05".to_string(), value_type: prim(PrimType::Int) }),
        false_clause: Box::new(ast::Expression::LocalVariable {
            span: sp(),
            variable_type: prim(PrimType::Int),
            variable: Name("default".to_string()),
        }),
    };
    assert_eq!(render(&convert_expression(&mut imported, &e)), "true?5:$default");
    assert!(imported.is_empty());

    let f = ast::Expression::ForeignVariable {
        span: sp(),
        variable_type: prim(PrimType::Unit),
        variable: Name("log".to_string()),
    };
    assert_eq!(render(&convert_expression(&mut imported, &f)), "foreign$log");
    assert_eq!(imported.len(), 1);
    assert_eq!(render(&convert_expression(&mut imported, &f)), "foreign$log");
    assert_eq!(imported.len(), 1);
    assert_eq!(imported[0].1.len(), 1);
}

#[test]
fn it_converts_matches() {
    let mut imported: ImportedModuleIdents = Vec::new();
    let scrutinee = ast::Expression::LocalVariable {
        span: sp(),
        variable_type: prim(PrimType::Int),
        variable: Name("m".to_string()),
    };
    let e = ast::Expression::Match {
        span: sp(),
        match_type: prim(PrimType::Int),
        expression: Box::new(scrutinee),
        arms: vec![
            (
                ast::Pattern::LocalConstructor {
                    span: sp(),
                    constructor: ProperName("Just".to_string()),
                    arguments: vec![ast::Pattern::Variable { span: sp(), name: Name("x".to_string()) }],
                },
                ast::Expression::LocalVariable { span: sp(), variable_type: prim(PrimType::Int), variable: Name("x".to_string()) },
            ),
            (
                ast::Pattern::Unused { span: sp(), unused_name: ditto::names::UnusedName("_".to_string()) },
                ast::Expression::Int { span: sp(), value: "0".to_string(), value_type: prim(PrimType::Int) },
            ),
        ],
    };
    assert_eq!(
        render(&convert_expression(&mut imported, &e)),
        "0"
    );
    let e2 = match e {
        ast::Expression::Match { span, match_type, expression, mut arms } => {
            arms.pop();
            ast::Expression::Match { span, match_type, expression, arms }
        }
        other => other,
    };
    assert_eq!(
        render(&convert_expression(&mut imported, &e2)),
        "(m[0] === \"Just\")?(() => {const x = m[1];return x;})():(() => {throw new Error(\"Pattern match error\");})()"
    );
}

#[test]
fn it_converts_modules() {
    let imported_five = ast::Expression::ImportedVariable {
        span: sp(),
        variable_type: prim(PrimType::Int),
        variable: FullyQualifiedName { module_name: module_name(Some("dep"), &["Data"]), value: Name("five".to_string()) },
    };
    let module = ModuleInput {
        constructors: vec![(ProperName("Unit".to_string()), ModuleConstructor { fields: vec![] })],
        values_toposorted: vec![Scc::Acyclic((Name("five".to_string()), imported_five))],
        exported_values: vec![Name("five".to_string())],
        exported_constructors: vec![ProperName("Unit".to_string())],
    };
    let js = convert_module(|m: &FullyQualifiedModuleName| format!("./{}.js", m.module_name.0.len()), &"./foreign.js".to_string(), &module);
    assert_eq!(
        render_module(&js),
        "import {five as dep$Data$five} from \"./1.js\";\nconst Unit = [\"Unit\"];\nconst five = dep$Data$five;\nexport {Unit,five};\n"
    );
}

#[test]
fn it_generates_module_code() {
    let module = ModuleInput {
        constructors: vec![
            (ProperName("Nothing".to_string()), ModuleConstructor { fields: vec![] }),
            (ProperName("Just".to_string()), ModuleConstructor { fields: vec![prim(PrimType::Int)] }),
        ],
        values_toposorted: vec![],
        exported_values: vec![],
        exported_constructors: vec![ProperName("Nothing".to_string()), ProperName("Just".to_string())],
    };
    let js = codegen(|_m: &FullyQualifiedModuleName| String::new(), &"./foreign.js".to_string(), &module);
    assert_eq!(
        js,
        "function Just($0){return [\"Just\",$0];}\nconst Nothing = [\"Nothing\"];\nexport {Just,Nothing};\n"
    );
}
