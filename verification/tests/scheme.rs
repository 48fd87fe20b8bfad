use ditto::env::{Env, Scheme};
use ditto::names::Name;
use ditto::state::Supply;
use ditto::types::{Kind, Type};

fn identity_type(name: Option<&str>) -> Type {
    let var = || Type::Variable { variable_kind: Kind::Type, var: 0, source_name: name.map(|n| Name(n.to_string())) };
    Type::Function { parameters: vec![var()], return_type: Box::new(var()) }
}

fn identity_scheme() -> Scheme {
    Scheme { forall: vec![0], signature: identity_type(None) }
}

#[test]
fn it_instantiates_as_expected() {
    let mut supply = Supply(0);

    assert_eq!(identity_type(Some("a")).debug_render(), "(a) -> a");
    assert_eq!(identity_scheme().instantiate(&mut supply).unwrap().debug_render(), "($1) -> $1");
    assert_eq!(identity_scheme().instantiate(&mut supply).unwrap().debug_render(), "($2) -> $2");
}

#[test]
fn it_generalizes_as_expected() {
    let empty_env = Env::new();
    assert_eq!(identity_type(Some("a")).debug_render_verbose(), "(a$0) -> a$0");
    assert_eq!(empty_env.generalize(identity_type(Some("a"))).debug_render(), "forall 0. (a$0) -> a$0");
}
