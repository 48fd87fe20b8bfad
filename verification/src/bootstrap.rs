//! What a new project starts with: its configuration, its first module, and
//! the files that version control should ignore.
use crate::config::{join_path, Config, Target};
use crate::names::{copy_string, PackageName};
use crate::text::push_str;
use convert_case::Casing;
use vstd::prelude::*;

verus! {

/// The kind of project to start.
#[derive(Clone, Copy, PartialEq, Eq, Structural)]
pub enum Flavour {
    /// Ditto alone.
    Bland,
    /// Ditto compiled to JavaScript for Node.js.
    JavaScript,
}

/// The configuration of a new project: the default one, with a Node.js target
/// for a JavaScript project.
pub fn new_config(package_name: PackageName, flavour: Flavour) -> (r: Config)
    ensures
        r.name@ == package_name@,
        r.required_ditto_version is None,
        r.targets@ == (if flavour == Flavour::JavaScript {
            seq![Target::Nodejs]
        } else {
            Seq::<Target>::empty()
        }),
        r.dependencies@.len() == 0,
        r.src_dir@ == "src"@,
        r.ditto_dir@ == ".ditto"@,
        r.codegen_js_config.dist_dir@ == "dist"@,
        r.codegen_js_config.packages_dir@ == "packages"@,
        r.codegen_js_config.package_json_additions is None,
        r.package_set.packages@.len() == 0,
{
    let mut config = Config::new(package_name);
    if flavour == Flavour::JavaScript {
        config.targets.push(Target::Nodejs);
        proof {
            assert(config.targets@ =~= seq![Target::Nodejs]);
        }
    }
    proof {
        if flavour != Flavour::JavaScript {
            assert(config.targets@ =~= Seq::<Target>::empty());
        }
    }
    config
}

/// The comment that opens a new configuration file, pointing at the
/// documentation of the revision `git_rev`.
pub open spec fn preamble(git_rev: Seq<char>) -> Seq<char> {
    "# Welcome to your new ditto project!\n#\n# Options for this file can be found at:\n# https://github.com/ditto-lang/ditto/tree/"@
        + git_rev + "/crates/ditto-config#readme"@
}

/// The comment that opens a new configuration file.
pub fn config_preamble(git_rev: &str) -> (r: String)
    ensures
        r@ == preamble(git_rev@),
{
    let mut out = "# Welcome to your new ditto project!\n#\n# Options for this file can be found at:\n# https://github.com/ditto-lang/ditto/tree/".to_owned();
    push_str(&mut out, git_rev);
    push_str(&mut out, "/crates/ditto-config#readme");
    out
}

/// The lines of a new project's `.gitignore`: the compiler's directory, and
/// for JavaScript the output directory and `node_modules`.
pub open spec fn gitignore(config: Config, flavour: Flavour) -> Seq<char> {
    if flavour == Flavour::JavaScript {
        config.ditto_dir@ + "\n"@ + config.codegen_js_config.dist_dir@ + "\n"@ + "node_modules"@
    } else {
        config.ditto_dir@
    }
}

/// The text of a new project's `.gitignore`.
pub fn gitignore_text(config: &Config, flavour: Flavour) -> (r: String)
    ensures
        r@ == gitignore(*config, flavour),
{
    let mut out = copy_string(&config.ditto_dir);
    if flavour == Flavour::JavaScript {
        push_str(&mut out, "\n");
        push_str(&mut out, config.codegen_js_config.dist_dir.as_str());
        push_str(&mut out, "\n");
        push_str(&mut out, "node_modules");
    }
    out
}

/// The workspaces of a new JavaScript project's `package.json`: every
/// directory under the packages directory.
pub fn package_json_workspace(config: &Config) -> (r: String)
    ensures
        r@ == config.codegen_js_config.packages_dir@ + "/*"@,
{
    let mut out = copy_string(&config.codegen_js_config.packages_dir);
    push_str(&mut out, "/*");
    out
}

/// What `convert_case` makes of a text in Pascal case: each word capitalised
/// and the words joined, words being split at hyphens, underscores, spaces,
/// case changes and digits.
pub uninterp spec fn pascal_case(s: Seq<char>) -> Seq<char>;

/// Converts `s` to Pascal case with `convert_case`'s `Casing::to_case`; the
/// result is named, not described.
#[verifier::external_body]
fn to_pascal_case(s: &str) -> (r: String)
    ensures
        r@ == pascal_case(s@),
{
    s.to_case(convert_case::Case::Pascal)
}

/// The module declaration of an empty module: `module Name exports (..);`.
pub fn empty_module_declaration(module_name: &str) -> (r: String)
    ensures
        r@ == "module "@ + module_name@ + " exports (..);"@,
{
    let mut out = "module ".to_owned();
    push_str(&mut out, module_name);
    push_str(&mut out, " exports (..);");
    out
}

/// The first module of a new project, named after the package in Pascal
/// case: where it goes under the source directory, and what it holds.
pub fn empty_module(config: &Config) -> (r: (String, String))
    ensures
        r.0@ == join_path(config.src_dir@, pascal_case(config.name@) + ".ditto"@),
        r.1@ == "module "@ + pascal_case(config.name@) + " exports (..);"@,
{
    let module_name = to_pascal_case(config.name.0.as_str());
    let mut file_name = copy_string(&module_name);
    push_str(&mut file_name, ".ditto");
    let path = crate::config::join_path_exec(&config.src_dir, &file_name);
    (path, empty_module_declaration(module_name.as_str()))
}

} // verus!
