use ditto::names::{FullyQualifiedModuleName, FullyQualifiedProperName, ModuleName, Name, PackageName, ProperName};
use ditto::ts::{
    convert_type, generate_declarations, mk_type_variable_ident, module_name_to_ident, render_ts_type,
    ExportedConstructor, ExportedType, ExportedValue, ModuleExports, TsType, VariableMode,
};
use ditto::js_ast::Ident;
use ditto::types::{Kind, PrimType, Type};

fn module(names: &[&str]) -> ModuleName {
    ModuleName(names.iter().map(|n| ProperName(n.to_string())).collect())
}

fn qualified(package: Option<&str>, names: &[&str], value: &str) -> FullyQualifiedProperName {
    FullyQualifiedProperName {
        module_name: FullyQualifiedModuleName {
            package_name: package.map(|p| PackageName(p.to_string())),
            module_name: module(names),
        },
        value: ProperName(value.to_string()),
    }
}

fn var(v: usize) -> Type {
    Type::Variable { variable_kind: Kind::Type, var: v, source_name: None }
}

fn maybe_of(t: Type) -> Type {
    Type::Call {
        function: Box::new(Type::Constructor {
            constructor_kind: Kind::Function { parameters: vec![Kind::Type] },
            canonical_value: qualified(None, &["Data", "Maybe"], "Maybe"),
            source_value: None,
        }),
        arguments: vec![t],
    }
}

fn text(t: &Type) -> String {
    let (r, _referenced, _generics) = convert_type(t, &module(&["Data", "Maybe"]), VariableMode::Generic);
    let mut accum = String::new();
    render_ts_type(&r, &mut accum);
    accum
}

#[test]
fn it_renders_typescript_types() {
    let t = TsType::Function {
        parameters: vec![
            (Ident("$0".to_string()), TsType::Ident(Ident("number".to_string()))),
            (
                Ident("$1".to_string()),
                TsType::Tuple(vec![TsType::StringLiteral("Just".to_string()), TsType::Ident(Ident("T0".to_string()))]),
            ),
        ],
        return_type: Box::new(TsType::Apply {
            applied_type: Ident("Array".to_string()),
            arguments: vec![TsType::Ident(Ident("string".to_string()))],
        }),
    };
    let mut accum = String::new();
    render_ts_type(&t, &mut accum);
    assert_eq!(accum, "($0: number, $1: [\"Just\", T0]) => Array<string>");
}

#[test]
fn it_converts_types_to_typescript() {
    assert_eq!(text(&Type::PrimConstructor(PrimType::Int)), "number");
    assert_eq!(text(&Type::PrimConstructor(PrimType::Unit)), "undefined");
    assert_eq!(text(&Type::PrimConstructor(PrimType::Effect)), "any");
    assert_eq!(text(&var(2)), "T2");
    assert_eq!(
        text(&Type::Function {
            parameters: vec![Type::PrimConstructor(PrimType::Int), Type::PrimConstructor(PrimType::String)],
            return_type: Box::new(Type::PrimConstructor(PrimType::Bool)),
        }),
        "($0: number, $1: string) => boolean"
    );
    assert_eq!(text(&maybe_of(var(0))), "Maybe<T0>");
    assert_eq!(
        text(&Type::Call {
            function: Box::new(Type::PrimConstructor(PrimType::Array)),
            arguments: vec![Type::PrimConstructor(PrimType::Float)],
        }),
        "Array<number>"
    );
}

#[test]
fn it_names_type_variables_and_modules() {
    assert_eq!(mk_type_variable_ident(3).0, "T3");
    let m = FullyQualifiedModuleName {
        package_name: Some(PackageName("my-pkg".to_string())),
        module_name: module(&["Data", "Stuff"]),
    };
    assert_eq!(module_name_to_ident(&m).0, "my_pkg$Data$Stuff");
}

#[test]
fn it_generates_declarations() {
    let exports = ModuleExports {
        types: vec![(
            ProperName("Maybe".to_string()),
            ExportedType { kind: Kind::Function { parameters: vec![Kind::Type] } },
        )],
        constructors: vec![
            (
                ProperName("Nothing".to_string()),
                ExportedConstructor { constructor_type: maybe_of(var(0)), return_type_name: ProperName("Maybe".to_string()) },
            ),
            (
                ProperName("Just".to_string()),
                ExportedConstructor {
                    constructor_type: Type::Function { parameters: vec![var(0)], return_type: Box::new(maybe_of(var(0))) },
                    return_type_name: ProperName("Maybe".to_string()),
                },
            ),
        ],
        values: vec![
            (Name("five".to_string()), ExportedValue { value_type: Type::PrimConstructor(PrimType::Int) }),
            (
                Name("thing".to_string()),
                ExportedValue {
                    value_type: Type::Constructor {
                        constructor_kind: Kind::Type,
                        canonical_value: qualified(Some("pkg"), &["Other"], "Thing"),
                        source_value: None,
                    },
                },
            ),
        ],
    };
    let r = generate_declarations(|_m: &FullyQualifiedModuleName| "../pkg/Other.js".to_string(), &module(&["Data", "Maybe"]), &exports);
    assert_eq!(
        r,
        "import * as pkg$Other from \"../pkg/Other.js\";\n\
         export declare function Just<T0>($0: T0): Maybe<T0>;\n\
         export declare type Maybe<T0> = [\"Just\", T0] | [\"Nothing\"];\n\
         export declare const Nothing: Maybe<never>;\n\
         export declare const five: number;\n\
         export declare const thing: pkg$Other.Thing;\n"
    );
}

#[test]
fn it_collects_referenced_modules_and_variables() {
    let t = Type::Function {
        parameters: vec![
            var(1),
            Type::Constructor {
                constructor_kind: Kind::Type,
                canonical_value: qualified(Some("pkg"), &["Other"], "Thing"),
                source_value: None,
            },
        ],
        return_type: Box::new(maybe_of(var(0))),
    };
    let (_r, referenced, mut generics) = convert_type(&t, &module(&["Data", "Maybe"]), VariableMode::Generic);
    assert_eq!(referenced.len(), 1);
    assert_eq!(module_name_to_ident(&referenced[0]).0, "pkg$Other");
    generics.sort();
    generics.dedup();
    assert_eq!(generics, vec![0, 1]);
    let (r, _, _) = convert_type(&var(4), &module(&["Data", "Maybe"]), VariableMode::Never);
    let mut accum = String::new();
    render_ts_type(&r, &mut accum);
    assert_eq!(accum, "never");
}
