//! A verified core of the ditto compiler: the type model, substitution,
//! unification, pattern coverage checking and JavaScript code generation.
pub mod assoc;
pub mod names;
pub mod types;
pub mod typevars;
pub mod substitution;
pub mod state;
pub mod unify;
pub mod text;
pub mod render;
pub mod ast;
pub mod pre_ast;
pub mod env;
pub mod coverage;
pub mod checker;
pub mod apply_expr;
pub mod graph;
pub mod toposort;
pub mod config;
pub mod js_ast;
pub mod js_render;
pub mod js_convert;
pub mod version;
pub mod bootstrap;
pub mod make;
pub mod pkg;
pub mod ts;
