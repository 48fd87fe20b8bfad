//! The ditto configuration: package names, code generation targets, package sets.
use crate::names::PackageName;
use crate::text::{sort_by_text, sorted_by_text, TextKey};
use std::collections::hash_map::DefaultHasher;
use std::hash::Hasher;
use vstd::prelude::*;
use vstd::string::*;

verus! {

/// The regular expression that package names match.
pub const PACKAGE_NAME_RE: &'static str = "^[a-z][a-z0-9-]*$";

/// What [PackageName::new] says when a name is refused.
pub const PACKAGE_NAME_ERROR: &'static str = "package name must start with a lowercase letter, and contain lower case letters, numbers and hyphens";

/// A lower case ASCII letter.
pub open spec fn is_lower(c: char) -> bool {
    'a' <= c <= 'z'
}

/// A character that may follow the first of a package name.
pub open spec fn is_name_char(c: char) -> bool {
    is_lower(c) || ('0' <= c <= '9') || c == '-'
}

/// What [PACKAGE_NAME_RE] matches: a lower case letter, then lower case
/// letters, digits and hyphens.
pub open spec fn is_package_name(s: Seq<char>) -> bool {
    s.len() > 0 && is_lower(s[0]) && forall|i: int| 1 <= i < s.len() ==> is_name_char(#[trigger] s[i])
}

/// Compiles `pattern` with `regex::Regex::new` and matches `haystack` against it
/// with `Regex::is_match`. For the package name pattern, whose syntax is valid,
/// the regex crate's documentation gives the meaning stated here: the anchors
/// `^` and `$` tie the match to the whole haystack, and the classes name the
/// characters allowed.
#[verifier::external_body]
fn regex_is_match(pattern: &str, haystack: &str) -> (r: bool)
    requires
        pattern@ == PACKAGE_NAME_RE@,
    ensures
        r == is_package_name(haystack@),
{
    match regex::Regex::new(pattern) {
        Ok(re) => re.is_match(haystack),
        Err(_) => false,
    }
}

impl PackageName {
    /// A package name, checked: it must start with a lower case letter, and
    /// hold only lower case letters, digits and hyphens.
    pub fn new(name: String) -> (r: Result<PackageName, String>)
        ensures
            match r {
                Ok(p) => p@ == name@ && is_package_name(name@),
                Err(message) => !is_package_name(name@) && message@ == PACKAGE_NAME_ERROR@,
            },
    {
        let ok = regex_is_match(PACKAGE_NAME_RE, name.as_str());
        PackageName::from_match(name, ok)
    }

    /// A package name from the outcome of matching it against [PACKAGE_NAME_RE].
    pub fn from_match(name: String, matched: bool) -> (r: Result<PackageName, String>)
        ensures
            match r {
                Ok(p) => p@ == name@ && matched,
                Err(message) => !matched && message@ == PACKAGE_NAME_ERROR@,
            },
    {
        if matched {
            Ok(PackageName(name))
        } else {
            Err(PACKAGE_NAME_ERROR.to_owned())
        }
    }

    /// A package name, unchecked. Use with care.
    pub fn new_unchecked(name: String) -> (r: PackageName)
        ensures
            r@ == name@,
    {
        PackageName(name)
    }

    /// The name, as a `String`.
    pub fn into_string(self) -> (r: String)
        ensures
            r@ == self@,
    {
        self.0
    }

    /// The name, as a `&str`.
    pub fn as_str(&self) -> (r: &str)
        ensures
            r@ == self@,
    {
        self.0.as_str()
    }
}

/// Code generation targets.
#[derive(Clone, Copy, Debug, PartialEq, Eq, Structural)]
pub enum Target {
    /// JavaScript for the browser.
    Web,
    /// JavaScript for NodeJS.
    Nodejs,
}

/// Where a package is found.
#[derive(Hash)]
pub enum PackageSpec {
    /// A local package, by its path.
    Path { path: String },
}

/// The packages available to a package, by name.
pub struct PackageSet {
    pub packages: Vec<(PackageName, PackageSpec)>,
}

impl PackageSet {
    /// No packages.
    pub fn new() -> (r: PackageSet)
        ensures
            r.packages@.len() == 0,
    {
        PackageSet { packages: Vec::new() }
    }

    /// Whether the set holds no package.
    pub fn is_empty(&self) -> (r: bool)
        ensures
            r == (self.packages@.len() == 0),
    {
        self.packages.len() == 0
    }
}

/// Configuration for JavaScript code generation.
pub struct CodegenJsConfig {
    /// Where this package's JavaScript goes.
    pub dist_dir: String,
    /// Where the JavaScript of dependencies goes.
    pub packages_dir: String,
    /// A JSON object, as text, whose fields are merged into the `package.json`
    /// made when this package is built as a dependency.
    pub package_json_additions: Option<String>,
}

/// `"src"`: where ditto source files are.
pub fn default_src() -> (r: String)
    ensures
        r@ == "src"@,
{
    "src".to_owned()
}

/// `".ditto"`: where compiler artifacts go.
pub fn default_ditto_dir() -> (r: String)
    ensures
        r@ == ".ditto"@,
{
    ".ditto".to_owned()
}

/// `"dist"`: where this package's JavaScript goes.
pub fn default_js_dist_dir() -> (r: String)
    ensures
        r@ == "dist"@,
{
    "dist".to_owned()
}

/// `"packages"`: where the JavaScript of dependencies goes.
pub fn default_js_packages_dir() -> (r: String)
    ensures
        r@ == "packages"@,
{
    "packages".to_owned()
}

impl CodegenJsConfig {
    /// The default JavaScript configuration.
    pub fn new() -> (r: CodegenJsConfig)
        ensures
            r.dist_dir@ == "dist"@,
            r.packages_dir@ == "packages"@,
            r.package_json_additions is None,
    {
        CodegenJsConfig {
            dist_dir: default_js_dist_dir(),
            packages_dir: default_js_packages_dir(),
            package_json_additions: None,
        }
    }

    /// Whether this is the default configuration.
    pub fn is_default(&self) -> (r: bool)
        ensures
            r == (self.dist_dir@ == "dist"@ && self.packages_dir@ == "packages"@ && self.package_json_additions is None),
    {
        let dist = default_js_dist_dir();
        let packages = default_js_packages_dir();
        crate::names::string_eq(&self.dist_dir, &dist) && crate::names::string_eq(&self.packages_dir, &packages)
            && self.package_json_additions.is_none()
    }
}

/// A ditto configuration.
pub struct Config {
    /// The ditto version required, as written.
    pub required_ditto_version: Option<String>,
    /// The name of the package.
    pub name: PackageName,
    /// Code generation targets, each once.
    pub targets: Vec<Target>,
    /// The packages depended on, each once.
    pub dependencies: Vec<PackageName>,
    /// Where ditto source files are.
    pub src_dir: String,
    /// Where compiler artifacts go.
    pub ditto_dir: String,
    /// JavaScript code generation settings.
    pub codegen_js_config: CodegenJsConfig,
    /// The packages available.
    pub package_set: PackageSet,
}

impl Config {
    /// The default configuration of a package called `name`.
    pub fn new(name: PackageName) -> (r: Config)
        ensures
            r.name@ == name@,
            r.required_ditto_version is None,
            r.targets@.len() == 0,
            r.dependencies@.len() == 0,
            r.src_dir@ == "src"@,
            r.ditto_dir@ == ".ditto"@,
            r.codegen_js_config.dist_dir@ == "dist"@,
            r.codegen_js_config.packages_dir@ == "packages"@,
            r.codegen_js_config.package_json_additions is None,
            r.package_set.packages@.len() == 0,
    {
        Config {
            required_ditto_version: None,
            name,
            targets: Vec::new(),
            dependencies: Vec::new(),
            src_dir: default_src(),
            ditto_dir: default_ditto_dir(),
            codegen_js_config: CodegenJsConfig::new(),
            package_set: PackageSet::new(),
        }
    }

    /// Whether the configuration includes a JavaScript target.
    pub fn targets_js(&self) -> (r: bool)
        ensures
            r == (self.targets@.contains(Target::Nodejs) || self.targets@.contains(Target::Web)),
    {
        let mut i: usize = 0;
        while i < self.targets.len()
            invariant
                i <= self.targets@.len(),
                forall|j: int| 0 <= j < i ==> self.targets@[j] != Target::Nodejs && self.targets@[j] != Target::Web,
            decreases self.targets@.len() - i,
        {
            let t = self.targets[i];
            if t == Target::Nodejs || t == Target::Web {
                proof {
                    assert(self.targets@[i as int] == t);
                }
                return true;
            }
            i = i + 1;
        }
        false
    }
}

impl Config {
    /// The packages available to this package: those of its package set.
    pub fn resolve_packages(&self) -> (r: &Vec<(PackageName, PackageSpec)>)
        ensures
            *r == self.package_set.packages,
    {
        &self.package_set.packages
    }
}

/// `path` with `name` appended as a further component: `name` alone where
/// `path` is empty, else joined by a `/` unless `path` ends in one.
pub open spec fn join_path(path: Seq<char>, name: Seq<char>) -> Seq<char> {
    if path.len() == 0 {
        name
    } else if path.last() == '/' {
        path + name
    } else {
        path + "/"@ + name
    }
}

/// `path` with `name` appended as a further component.
pub fn join_path_exec(path: &String, name: &String) -> (r: String)
    ensures
        r@ == join_path(path@, name@),
{
    let p = path.as_str();
    let n = p.unicode_len();
    let mut out = crate::names::copy_string(path);
    if n > 0 && p.get_char(n - 1) != '/' {
        crate::text::push_char(&mut out, '/');
    }
    crate::text::push_str(&mut out, name.as_str());
    proof {
        reveal_strlit("/");
    }
    out
}

/// Where installed packages go: `packages` under the compiler artifacts.
pub fn mk_packages_dir(config: &Config) -> (r: String)
    ensures
        r@ == join_path(config.ditto_dir@, "packages"@),
{
    join_path_exec(&config.ditto_dir, &"packages".to_owned())
}

/// The name of the file, among the installed packages, that holds the hash
/// of what they were installed from.
pub const HASH_FILE: &'static str = "_hash";

/// Where the hash of the installed packages' inputs is kept.
pub fn mk_hash_file(packages_dir: &String) -> (r: String)
    ensures
        r@ == join_path(packages_dir@, HASH_FILE@),
{
    join_path_exec(packages_dir, &HASH_FILE.to_owned())
}

impl TextKey for PackageName {
    open spec fn text_key(&self) -> Seq<char> {
        self@
    }

    fn key_str(&self) -> (r: &str) {
        self.0.as_str()
    }
}

/// Available packages sort by their names.
impl TextKey for (PackageName, PackageSpec) {
    open spec fn text_key(&self) -> Seq<char> {
        self.0@
    }

    fn key_str(&self) -> (r: &str) {
        self.0.0.as_str()
    }
}

/// The path of a package spec.
pub open spec fn spec_path(spec: PackageSpec) -> Seq<char> {
    match spec {
        PackageSpec::Path { path } => path@,
    }
}

impl PackageSpec {
    pub fn copy(&self) -> (r: PackageSpec)
        ensures
            spec_path(r) == spec_path(*self),
    {
        match self {
            PackageSpec::Path { path } => PackageSpec::Path { path: crate::names::copy_string(path) },
        }
    }
}

/// The inputs of the packages hash in an order that does not depend on the
/// order they came in: the dependencies, then the available packages, each
/// sorted by name.
pub fn sort_packages_inputs(dependencies: Vec<PackageName>, packages: Vec<(PackageName, PackageSpec)>) -> (r: (
    Vec<PackageName>,
    Vec<(PackageName, PackageSpec)>,
))
    ensures
        sorted_by_text(false, r.0@),
        r.0@.to_multiset() == dependencies@.to_multiset(),
        sorted_by_text(false, r.1@),
        r.1@.to_multiset() == packages@.to_multiset(),
{
    let mut dependencies = dependencies;
    let mut packages = packages;
    sort_by_text(false, &mut dependencies);
    sort_by_text(false, &mut packages);
    (dependencies, packages)
}

/// Feeds `inputs` to `hasher` by the standard library's `Hash::hash` for the
/// tuple. Which bytes that writes is not documented, so nothing is stated
/// of the hasher afterwards.
#[verifier::external_body]
fn hash_into(inputs: &(Vec<PackageName>, Vec<(PackageName, PackageSpec)>), hasher: &mut DefaultHasher) {
    std::hash::Hash::hash(inputs, hasher)
}

/// A hash of the dependencies and the available packages, taken in the
/// order of [sort_packages_inputs], with the standard library's
/// `DefaultHasher`.
pub fn hash_packages_inputs(dependencies: &Vec<PackageName>, packages: &Vec<(PackageName, PackageSpec)>) -> u64 {
    let mut deps: Vec<PackageName> = Vec::new();
    let mut i: usize = 0;
    while i < dependencies.len()
        invariant
            i <= dependencies@.len(),
            deps@.len() == i,
            forall|k: int| 0 <= k < i ==> (#[trigger] deps@[k])@ == dependencies@[k]@,
        decreases dependencies@.len() - i,
    {
        deps.push(dependencies[i].copy());
        i = i + 1;
    }
    let mut pkgs: Vec<(PackageName, PackageSpec)> = Vec::new();
    let mut j: usize = 0;
    while j < packages.len()
        invariant
            j <= packages@.len(),
            pkgs@.len() == j,
            forall|k: int|
                0 <= k < j ==> (#[trigger] pkgs@[k]).0@ == packages@[k].0@ && spec_path(pkgs@[k].1) == spec_path(
                    packages@[k].1,
                ),
        decreases packages@.len() - j,
    {
        pkgs.push((packages[j].0.copy(), packages[j].1.copy()));
        j = j + 1;
    }
    let inputs = sort_packages_inputs(deps, pkgs);
    let mut hasher = DefaultHasher::new();
    hash_into(&inputs, &mut hasher);
    hasher.finish()
}

} // verus!
