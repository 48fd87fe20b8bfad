//! Turning typed ditto into JavaScript.
use crate::ast;
use crate::js_ast::{iife, ArrowFunctionBody, Block, Expression, Ident, ImportStatement, Module, ModuleStatement, Operator};
use crate::names::{copy_string, string_eq, FullyQualifiedModuleName, FullyQualifiedName, FullyQualifiedProperName, Name, ProperName, UnusedName};
use crate::js_render::{
    is_arrow_or_conditional, join_idents, parens_if, render_body, render_entries, render_expr, render_exprs, render_statements,
};
use crate::text::{decimal, push_char, push_decimal, push_str};
use crate::toposort::Scc;
use crate::types::Type;
use vstd::prelude::*;
use vstd::string::*;

verus! {

/// The words that JavaScript reserves.
pub open spec fn js_reserved() -> Seq<Seq<char>> {
    seq![
        "break"@, "case"@, "catch"@, "class"@, "const"@, "continue"@, "debugger"@, "default"@, "delete"@,
        "do"@, "else"@, "export"@, "extends"@, "finally"@, "for"@, "function"@, "if"@, "import"@, "in"@,
        "instanceof"@, "new"@, "return"@, "super"@, "switch"@, "this"@, "throw"@, "try"@, "typeof"@,
        "var"@, "void"@, "while"@, "with"@, "yield"@,
    ]
}

fn reserved_words() -> (r: Vec<String>)
    ensures
        r@.len() == js_reserved().len(),
        forall|i: int| 0 <= i < r@.len() ==> #[trigger] r@[i]@ == js_reserved()[i],
{
    let mut v: Vec<String> = Vec::new();
    v.push("break".to_owned());
    v.push("case".to_owned());
    v.push("catch".to_owned());
    v.push("class".to_owned());
    v.push("const".to_owned());
    v.push("continue".to_owned());
    v.push("debugger".to_owned());
    v.push("default".to_owned());
    v.push("delete".to_owned());
    v.push("do".to_owned());
    v.push("else".to_owned());
    v.push("export".to_owned());
    v.push("extends".to_owned());
    v.push("finally".to_owned());
    v.push("for".to_owned());
    v.push("function".to_owned());
    v.push("if".to_owned());
    v.push("import".to_owned());
    v.push("in".to_owned());
    v.push("instanceof".to_owned());
    v.push("new".to_owned());
    v.push("return".to_owned());
    v.push("super".to_owned());
    v.push("switch".to_owned());
    v.push("this".to_owned());
    v.push("throw".to_owned());
    v.push("try".to_owned());
    v.push("typeof".to_owned());
    v.push("var".to_owned());
    v.push("void".to_owned());
    v.push("while".to_owned());
    v.push("with".to_owned());
    v.push("yield".to_owned());
    v
}

/// A name as a JavaScript identifier: reserved words get a `$` in front.
pub open spec fn mangled(s: Seq<char>) -> Seq<char> {
    if js_reserved().contains(s) {
        "$"@ + s
    } else {
        s
    }
}

/// Puts a `$` in front of a name that JavaScript reserves.
pub fn mangle_reserved(ident: String) -> (r: String)
    ensures
        r@ == mangled(ident@),
{
    let words = reserved_words();
    let mut i: usize = 0;
    while i < words.len()
        invariant
            words@.len() == js_reserved().len(),
            forall|k: int| 0 <= k < words@.len() ==> #[trigger] words@[k]@ == js_reserved()[k],
            i <= words@.len(),
            forall|k: int| 0 <= k < i ==> js_reserved()[k] != ident@,
        decreases words@.len() - i,
    {
        if string_eq(&words[i], &ident) {
            proof {
                assert(js_reserved()[i as int] == ident@);
                assert(js_reserved().contains(ident@));
            }
            let mut out = "$".to_owned();
            push_str(&mut out, ident.as_str());
            return out;
        }
        i = i + 1;
    }
    proof {
        assert(!js_reserved().contains(ident@));
    }
    ident
}

/// A ditto name as a JavaScript identifier.
pub fn name_string_to_ident_string(name_string: String) -> (r: String)
    ensures
        r@ == mangled(name_string@),
{
    mangle_reserved(name_string)
}

/// The identifier that a foreign value is imported under: `foreign$name`.
pub fn mk_foreign_ident(value: String) -> (r: Ident)
    ensures
        r.0@ == "foreign$"@ + mangled(value@),
{
    let mut s = "foreign$".to_owned();
    let m = name_string_to_ident_string(value);
    push_str(&mut s, m.as_str());
    Ident(s)
}

/// A string with each `-` replaced by `_`.
pub open spec fn hyphens_to_underscores(s: Seq<char>) -> Seq<char> {
    s.map_values(|c: char| if c == '-' {
        '_'
    } else {
        c
    })
}

/// The module names, each followed by `$`.
pub open spec fn module_prefix(names: Seq<Seq<char>>, n: nat) -> Seq<char>
    decreases n,
{
    if n == 0 || n > names.len() {
        Seq::empty()
    } else {
        module_prefix(names, (n - 1) as nat) + names[n - 1] + "$"@
    }
}

/// The identifier of a name qualified by its package and module:
/// `package_name$Module$Name$value`, with hyphens of the package as underscores.
pub open spec fn qualified_ident(module: (Option<Seq<char>>, Seq<Seq<char>>), value: Seq<char>) -> Seq<char> {
    (match module.0 {
        Some(p) => hyphens_to_underscores(p) + "$"@,
        None => Seq::empty(),
    }) + module_prefix(module.1, module.1.len()) + mangled(value)
}

/// The identifier of a name qualified by its package and module.
pub fn ident_from_fully_qualified(fully_qualified_module_name: &FullyQualifiedModuleName, value: String) -> (r: Ident)
    ensures
        r.0@ == qualified_ident(fully_qualified_module_name@, value@),
{
    let mut s = String::new();
    match &fully_qualified_module_name.package_name {
        Some(package_name) => {
            let p = package_name.0.as_str();
            let n = p.unicode_len();
            let mut i: usize = 0;
            while i < n
                invariant
                    n == p@.len(),
                    i <= n,
                    s@ == hyphens_to_underscores(p@.subrange(0, i as int)),
                decreases n - i,
            {
                let c = p.get_char(i);
                if c == '-' {
                    push_char(&mut s, '_');
                } else {
                    push_char(&mut s, c);
                }
                proof {
                    assert(s@ =~= hyphens_to_underscores(p@.subrange(0, i + 1)));
                }
                i = i + 1;
            }
            proof {
                assert(p@.subrange(0, n as int) =~= p@);
            }
            push_char(&mut s, '$');
            proof {
                reveal_strlit("$");
                assert(s@ =~= hyphens_to_underscores(p@) + "$"@);
            }
        },
        None => {},
    }
    let ghost start = s@;
    let names = &fully_qualified_module_name.module_name.0;
    let ghost nv = fully_qualified_module_name@.1;
    let mut i: usize = 0;
    while i < names.len()
        invariant
            nv == fully_qualified_module_name@.1,
            nv.len() == names@.len(),
            forall|k: int| 0 <= k < names@.len() ==> #[trigger] nv[k] == names@[k]@,
            i <= names@.len(),
            s@ == start + module_prefix(nv, i as nat),
        decreases names@.len() - i,
    {
        push_str(&mut s, names[i].0.as_str());
        push_char(&mut s, '$');
        proof {
            reveal_strlit("$");
            assert(s@ =~= start + module_prefix(nv, (i + 1) as nat));
        }
        i = i + 1;
    }
    let m = name_string_to_ident_string(value);
    push_str(&mut s, m.as_str());
    proof {
        assert(s@ =~= qualified_ident(fully_qualified_module_name@, value@));
    }
    Ident(s)
}

/// The identifier of a value name.
pub fn ident_from_name(name: &Name) -> (r: Ident)
    ensures
        r.0@ == mangled(name@),
{
    Ident(name_string_to_ident_string(copy_string(&name.0)))
}

/// The identifier of an unused name.
pub fn ident_from_unused_name(name: &UnusedName) -> (r: Ident)
    ensures
        r.0@ == mangled(name@),
{
    Ident(name_string_to_ident_string(copy_string(&name.0)))
}

/// The identifier of a proper name: the name itself.
pub fn ident_from_proper_name(name: &ProperName) -> (r: Ident)
    ensures
        r.0@ == name@,
{
    Ident(copy_string(&name.0))
}

/// Where an imported value comes from.
pub enum ImportedModule {
    ForeignModule,
    Module(FullyQualifiedModuleName),
}

/// The imports gathered so far: for each module, the names imported and the
/// identifiers they are imported under, each once.
pub type ImportedModuleIdents = Vec<(ImportedModule, Vec<(Ident, Ident)>)>;

/// Which module an import comes from: `None` for the foreign module.
pub open spec fn module_key(m: ImportedModule) -> Option<(Option<Seq<char>>, Seq<Seq<char>>)> {
    match m {
        ImportedModule::ForeignModule => None,
        ImportedModule::Module(n) => Some(n@),
    }
}

/// `name` is recorded as imported from the module `key`, under `ident`.
pub open spec fn has_import(
    imported: Seq<(ImportedModule, Vec<(Ident, Ident)>)>,
    key: Option<(Option<Seq<char>>, Seq<Seq<char>>)>,
    name: Seq<char>,
    ident: Seq<char>,
) -> bool {
    exists|i: int|
        0 <= i < imported.len() && module_key(imported[i].0) == key && #[trigger] pairs_hold(
            imported[i].1@,
            name,
            ident,
        )
}

/// One of the pairs is `(name, ident)`.
pub open spec fn pairs_hold(pairs: Seq<(Ident, Ident)>, name: Seq<char>, ident: Seq<char>) -> bool {
    exists|k: int| 0 <= k < pairs.len() && #[trigger] pairs[k].0.0@ == name && pairs[k].1.0@ == ident
}

/// Each module once, and under each module each pair once.
pub open spec fn imports_wf(imported: Seq<(ImportedModule, Vec<(Ident, Ident)>)>) -> bool {
    &&& forall|i: int, j: int|
        0 <= i < j < imported.len() ==> module_key(#[trigger] imported[i].0) != module_key(#[trigger] imported[j].0)
    &&& forall|i: int| 0 <= i < imported.len() ==> pairs_once(#[trigger] imported[i].1@)
}

/// No pair occurs twice.
pub open spec fn pairs_once(pairs: Seq<(Ident, Ident)>) -> bool {
    forall|a: int, b: int|
        0 <= a < b < pairs.len() ==> (#[trigger] pairs[a].0.0@ != #[trigger] pairs[b].0.0@ || pairs[a].1.0@
            != pairs[b].1.0@)
}

/// What was recorded in `before` is still recorded in `after`, and the
/// records stay well formed.
pub open spec fn imports_grow(
    before: Seq<(ImportedModule, Vec<(Ident, Ident)>)>,
    after: Seq<(ImportedModule, Vec<(Ident, Ident)>)>,
) -> bool {
    &&& forall|key: Option<(Option<Seq<char>>, Seq<Seq<char>>)>, name: Seq<char>, ident: Seq<char>|
        #[trigger] has_import(before, key, name, ident) ==> has_import(after, key, name, ident)
    &&& imports_wf(before) ==> imports_wf(after)
}

fn same_module(a: &ImportedModule, b: &ImportedModule) -> (r: bool)
    ensures
        r == (module_key(*a) == module_key(*b)),
{
    match (a, b) {
        (ImportedModule::ForeignModule, ImportedModule::ForeignModule) => true,
        (ImportedModule::Module(x), ImportedModule::Module(y)) => x.eq(y),
        _ => false,
    }
}

/// Records that `aliased` is imported from `module` as `ident`.
fn record_import(imported: &mut ImportedModuleIdents, module: ImportedModule, aliased: Ident, ident: &Ident)
    ensures
        forall|key: Option<(Option<Seq<char>>, Seq<Seq<char>>)>, name: Seq<char>, id: Seq<char>|
            #[trigger] has_import(final(imported)@, key, name, id) <==> (has_import(old(imported)@, key, name, id) || (
            key == module_key(module) && name == aliased.0@ && id == ident.0@)),
        imports_wf(old(imported)@) ==> imports_wf(final(imported)@),
{
    let ghost old_imported = imported@;
    let ghost key0 = module_key(module);
    let mut i: usize = 0;
    while i < imported.len()
        invariant
            i <= imported@.len(),
            imported@ == old_imported,
            old_imported == old(imported)@,
            forall|j: int| 0 <= j < i ==> module_key(#[trigger] imported@[j].0) != key0,
            key0 == module_key(module),
        decreases imported@.len() - i,
    {
        if same_module(&imported[i].0, &module) {
            let (m, mut idents) = imported.remove(i);
            let ghost pairs0 = idents@;
            let mut present = false;
            let mut k: usize = 0;
            while k < idents.len()
                invariant
                    k <= idents@.len(),
                    idents@ == pairs0,
                    present <==> exists|q: int|
                        0 <= q < k && #[trigger] idents@[q].0.0@ == aliased.0@ && idents@[q].1.0@ == ident.0@,
                decreases idents@.len() - k,
            {
                if string_eq(&idents[k].0.0, &aliased.0) && string_eq(&idents[k].1.0, &ident.0) {
                    present = true;
                }
                k = k + 1;
            }
            if !present {
                idents.push((aliased, ident.copy()));
            }
            let ghost pairs1 = idents@;
            imported.insert(i, (m, idents));
            proof {
                assert(imported@ =~= old_imported.update(i as int, (m, idents)));
                assert(module_key(m) == key0);
                assert forall|key: Option<(Option<Seq<char>>, Seq<Seq<char>>)>, name: Seq<char>, id: Seq<char>|
                    #[trigger] has_import(imported@, key, name, id) <==> (has_import(old_imported, key, name, id) || (
                    key == key0 && name == aliased.0@ && id == ident.0@)) by {
                    if has_import(imported@, key, name, id) {
                        let j = choose|j: int|
                            0 <= j < imported@.len() && module_key(imported@[j].0) == key && #[trigger] pairs_hold(
                                imported@[j].1@,
                                name,
                                id,
                            );
                        if j != i {
                            assert(imported@[j] == old_imported[j]);
                        } else {
                            let q = choose|q: int|
                                0 <= q < pairs1.len() && #[trigger] pairs1[q].0.0@ == name && pairs1[q].1.0@ == id;
                            if q < pairs0.len() {
                                assert(pairs1[q] == pairs0[q]);
                                assert(pairs_hold(old_imported[j].1@, name, id));
                            }
                        }
                    }
                    if has_import(old_imported, key, name, id) {
                        let j = choose|j: int|
                            0 <= j < old_imported.len() && module_key(old_imported[j].0) == key && #[trigger] pairs_hold(
                                old_imported[j].1@,
                                name,
                                id,
                            );
                        if j != i {
                            assert(imported@[j] == old_imported[j]);
                            assert(pairs_hold(imported@[j].1@, name, id));
                        } else {
                            let q = choose|q: int|
                                0 <= q < pairs0.len() && #[trigger] pairs0[q].0.0@ == name && pairs0[q].1.0@ == id;
                            assert(pairs1[q] == pairs0[q]);
                            assert(pairs_hold(imported@[j].1@, name, id));
                        }
                    }
                    if key == key0 && name == aliased.0@ && id == ident.0@ {
                        if present {
                            let q = choose|q: int|
                                0 <= q < pairs0.len() && #[trigger] pairs0[q].0.0@ == aliased.0@ && pairs0[q].1.0@
                                    == ident.0@;
                            assert(pairs1[q] == pairs0[q]);
                        } else {
                            assert(pairs1[pairs0.len() as int].0.0@ == name);
                        }
                        assert(pairs_hold(imported@[i as int].1@, name, id));
                    }
                }
                if imports_wf(old_imported) {
                    assert forall|j: int| 0 <= j < imported@.len() implies pairs_once(#[trigger] imported@[j].1@) by {
                        if j == i {
                            assert(pairs_once(old_imported[j].1@));
                            assert forall|a: int, b: int| 0 <= a < b < pairs1.len() implies (
                            #[trigger] pairs1[a].0.0@ != #[trigger] pairs1[b].0.0@ || pairs1[a].1.0@
                                != pairs1[b].1.0@) by {
                                if b == pairs0.len() && !present {
                                    assert(pairs1[a] == pairs0[a]);
                                } else {
                                    assert(pairs1[a] == pairs0[a]);
                                    assert(pairs1[b] == pairs0[b]);
                                }
                            }
                        } else {
                            assert(imported@[j] == old_imported[j]);
                        }
                    }
                    assert forall|a: int, b: int| 0 <= a < b < imported@.len() implies module_key(
                        #[trigger] imported@[a].0,
                    ) != module_key(#[trigger] imported@[b].0) by {
                        assert(module_key(imported@[a].0) == module_key(old_imported[a].0));
                        assert(module_key(imported@[b].0) == module_key(old_imported[b].0));
                    }
                }
            }
            return;
        }
        i = i + 1;
    }
    let mut idents: Vec<(Ident, Ident)> = Vec::new();
    idents.push((aliased, ident.copy()));
    imported.push((module, idents));
    proof {
        let n = old_imported.len() as int;
        assert(imported@ =~= old_imported.push((module, idents)));
        assert forall|key: Option<(Option<Seq<char>>, Seq<Seq<char>>)>, name: Seq<char>, id: Seq<char>|
            #[trigger] has_import(imported@, key, name, id) <==> (has_import(old_imported, key, name, id) || (key
            == key0 && name == aliased.0@ && id == ident.0@)) by {
            if has_import(imported@, key, name, id) {
                let j = choose|j: int|
                    0 <= j < imported@.len() && module_key(imported@[j].0) == key && #[trigger] pairs_hold(
                        imported@[j].1@,
                        name,
                        id,
                    );
                if j < n {
                    assert(imported@[j] == old_imported[j]);
                } else {
                    let q = choose|q: int|
                        0 <= q < idents@.len() && #[trigger] idents@[q].0.0@ == name && idents@[q].1.0@ == id;
                }
            }
            if has_import(old_imported, key, name, id) {
                let j = choose|j: int|
                    0 <= j < old_imported.len() && module_key(old_imported[j].0) == key && #[trigger] pairs_hold(
                        old_imported[j].1@,
                        name,
                        id,
                    );
                assert(imported@[j] == old_imported[j]);
                assert(pairs_hold(imported@[j].1@, name, id));
            }
            if key == key0 && name == aliased.0@ && id == ident.0@ {
                assert(idents@[0].0.0@ == name);
                assert(pairs_hold(imported@[n].1@, name, id));
            }
        }
        if imports_wf(old_imported) {
            assert forall|j: int| 0 <= j < imported@.len() implies pairs_once(#[trigger] imported@[j].1@) by {
                if j < n {
                    assert(imported@[j] == old_imported[j]);
                }
            }
            assert forall|a: int, b: int| 0 <= a < b < imported@.len() implies module_key(
                #[trigger] imported@[a].0,
            ) != module_key(#[trigger] imported@[b].0) by {
                assert(imported@[a] == old_imported[a]);
                if b < n {
                    assert(imported@[b] == old_imported[b]);
                }
            }
        }
    }
}

/// A string without its leading `0`s.
pub open spec fn trim_leading_zeros(s: Seq<char>) -> Seq<char>
    decreases s.len(),
{
    if s.len() > 0 && s[0] == '0' {
        trim_leading_zeros(s.drop_first())
    } else {
        s
    }
}

fn trim_zeros(value: &String) -> (r: String)
    ensures
        r@ == trim_leading_zeros(value@),
{
    let s = value.as_str();
    let n = s.unicode_len();
    let mut i: usize = 0;
    proof {
        assert(s@.subrange(0, n as int) =~= s@);
    }
    while i < n && s.get_char(i) == '0'
        invariant
            n == s@.len(),
            i <= n,
            trim_leading_zeros(s@) == trim_leading_zeros(s@.subrange(i as int, n as int)),
        decreases n - i,
    {
        proof {
            let rest = s@.subrange(i as int, n as int);
            assert(rest.drop_first() =~= s@.subrange(i + 1, n as int));
        }
        i = i + 1;
    }
    let mut out = String::new();
    let mut k: usize = i;
    while k < n
        invariant
            n == s@.len(),
            i <= k <= n,
            out@ == s@.subrange(i as int, k as int),
        decreases n - k,
    {
        push_char(&mut out, s.get_char(k));
        proof {
            assert(out@ =~= s@.subrange(i as int, k + 1));
        }
        k = k + 1;
    }
    proof {
        let rest = s@.subrange(i as int, n as int);
        assert(rest.len() == 0 || rest[0] != '0');
        assert(trim_leading_zeros(rest) == rest);
    }
    out
}

/// A float literal as JavaScript reads it: leading `0`s dropped (JavaScript
/// would read an octal literal), with one `0` put back before a `.`.
pub open spec fn js_float(value: Seq<char>) -> Seq<char> {
    let t = trim_leading_zeros(value);
    if t.len() > 0 && t[0] == '.' {
        "0"@ + t
    } else {
        t
    }
}

/// An int literal as JavaScript reads it: leading `0`s dropped, `0` if nothing is left.
pub open spec fn js_int(value: Seq<char>) -> Seq<char> {
    let t = trim_leading_zeros(value);
    if t.len() == 0 {
        "0"@
    } else {
        t
    }
}

/// The JavaScript number of a float literal.
pub fn convert_float(value: &String) -> (r: String)
    ensures
        r@ == js_float(value@),
{
    let t = trim_zeros(value);
    let ts = t.as_str();
    if ts.unicode_len() > 0 && ts.get_char(0) == '.' {
        let mut zero_value = "0".to_owned();
        push_str(&mut zero_value, ts);
        zero_value
    } else {
        t
    }
}

/// The JavaScript number of an int literal.
pub fn convert_int(value: &String) -> (r: String)
    ensures
        r@ == js_int(value@),
{
    let t = trim_zeros(value);
    if t.as_str().unicode_len() == 0 {
        "0".to_owned()
    } else {
        t
    }
}

/// The two expressions are of the same kind, as far as their rendering
/// tells them apart.
pub open spec fn same_kind(a: Expression, b: Expression) -> bool {
    &&& (a is ArrowFunction) == (b is ArrowFunction)
    &&& (a is Conditional) == (b is Conditional)
    &&& (a is Object) == (b is Object)
    &&& (a is Operator) == (b is Operator)
}

proof fn lemma_render_exprs_eq(a: Seq<Expression>, b: Seq<Expression>, n: nat)
    requires
        a.len() == b.len(),
        n <= a.len(),
        forall|j: int| 0 <= j < n ==> render_expr(#[trigger] a[j]) == render_expr(b[j]),
    ensures
        render_exprs(a, n) == render_exprs(b, n),
    decreases n,
{
    if n > 1 {
        lemma_render_exprs_eq(a, b, (n - 1) as nat);
    }
}

proof fn lemma_render_entries_eq(a: Seq<(String, Expression)>, b: Seq<(String, Expression)>, n: nat)
    requires
        a.len() == b.len(),
        n <= a.len(),
        forall|j: int| 0 <= j < n ==> (#[trigger] a[j]).0@ == b[j].0@ && render_expr(a[j].1) == render_expr(b[j].1),
    ensures
        render_entries(a, n) == render_entries(b, n),
    decreases n,
{
    if n > 1 {
        lemma_render_entries_eq(a, b, (n - 1) as nat);
    }
}

proof fn lemma_join_idents_eq(a: Seq<Ident>, b: Seq<Ident>, n: nat, sep: Seq<char>)
    requires
        a.len() == b.len(),
        n <= a.len(),
        forall|j: int| 0 <= j < n ==> (#[trigger] a[j]).0@ == b[j].0@,
    ensures
        join_idents(a, n, sep) == join_idents(b, n, sep),
    decreases n,
{
    if n > 1 {
        lemma_join_idents_eq(a, b, (n - 1) as nat, sep);
    }
}

/// Makes an independent copy of a JavaScript expression, which renders as
/// the expression does.
pub fn copy_expression(e: &Expression) -> (r: Expression)
    ensures
        render_expr(r) == render_expr(*e),
        same_kind(r, *e),
    decreases e, 1nat,
{
    match e {
        Expression::True => Expression::True,
        Expression::False => Expression::False,
        Expression::Undefined => Expression::Undefined,
        Expression::Variable(i) => Expression::Variable(i.copy()),
        Expression::Number(n) => Expression::Number(copy_string(n)),
        Expression::String(s) => Expression::String(copy_string(s)),
        Expression::ArrowFunction { parameters, body } => {
            let mut ps: Vec<Ident> = Vec::new();
            let mut i: usize = 0;
            while i < parameters.len()
                invariant
                    i <= parameters@.len(),
                    ps@.len() == i,
                    forall|j: int| 0 <= j < i ==> (#[trigger] ps@[j]).0@ == parameters@[j].0@,
                decreases parameters@.len() - i,
            {
                ps.push(parameters[i].copy());
                i = i + 1;
            }
            proof {
                lemma_join_idents_eq(ps@, parameters@, ps@.len(), ","@);
            }
            Expression::ArrowFunction { parameters: ps, body: Box::new(copy_body(body)) }
        },
        Expression::Call { function, arguments } => {
            let f = copy_expression(function);
            let a = copy_expressions(e, arguments);
            proof {
                lemma_render_exprs_eq(a@, arguments@, a@.len());
            }
            Expression::Call { function: Box::new(f), arguments: a }
        },
        Expression::Conditional { condition, true_clause, false_clause } => Expression::Conditional {
            condition: Box::new(copy_expression(condition)),
            true_clause: Box::new(copy_expression(true_clause)),
            false_clause: Box::new(copy_expression(false_clause)),
        },
        Expression::Array(elements) => {
            let a = copy_expressions(e, elements);
            proof {
                lemma_render_exprs_eq(a@, elements@, a@.len());
            }
            Expression::Array(a)
        },
        Expression::Operator { op, lhs, rhs } => Expression::Operator {
            op: *op,
            lhs: Box::new(copy_expression(lhs)),
            rhs: Box::new(copy_expression(rhs)),
        },
        Expression::IndexAccess { target, index } => Expression::IndexAccess {
            target: Box::new(copy_expression(target)),
            index: Box::new(copy_expression(index)),
        },
        Expression::Object(entries) => {
            let mut out: Vec<(String, Expression)> = Vec::new();
            let mut i: usize = 0;
            while i < entries.len()
                invariant
                    *e == Expression::Object(*entries),
                    i <= entries@.len(),
                    out@.len() == i,
                    forall|j: int|
                        0 <= j < i ==> (#[trigger] out@[j]).0@ == entries@[j].0@ && render_expr(out@[j].1)
                            == render_expr(entries@[j].1),
                decreases entries@.len() - i,
            {
                proof {
                    assert(decreases_to!(*e => (*e)->Object_0));
                    assert(decreases_to!(*entries => entries@));
                    assert(decreases_to!(entries@ => entries@[i as int]));
                    assert(decreases_to!(entries@[i as int] => entries@[i as int].1));
                }
                out.push((copy_string(&entries[i].0), copy_expression(&entries[i].1)));
                i = i + 1;
            }
            proof {
                lemma_render_entries_eq(out@, entries@, out@.len());
            }
            Expression::Object(out)
        },
    }
}

fn copy_expressions(parent: &Expression, es: &Vec<Expression>) -> (r: Vec<Expression>)
    requires
        decreases_to!(*parent => *es),
    ensures
        r@.len() == es@.len(),
        forall|j: int| 0 <= j < es@.len() ==> render_expr(#[trigger] r@[j]) == render_expr(es@[j]),
    decreases parent, 0nat,
{
    let mut out: Vec<Expression> = Vec::new();
    let mut i: usize = 0;
    while i < es.len()
        invariant
            decreases_to!(*parent => *es),
            i <= es@.len(),
            out@.len() == i,
            forall|j: int| 0 <= j < i ==> render_expr(#[trigger] out@[j]) == render_expr(es@[j]),
        decreases es@.len() - i,
    {
        proof {
            assert(decreases_to!(*es => es@));
            assert(decreases_to!(es@ => es@[i as int]));
        }
        out.push(copy_expression(&es[i]));
        i = i + 1;
    }
    out
}

fn copy_body(b: &ArrowFunctionBody) -> (r: ArrowFunctionBody)
    ensures
        render_body(r) == render_body(*b),
    decreases b, 0nat,
{
    match b {
        ArrowFunctionBody::Expression(e) => ArrowFunctionBody::Expression(copy_expression(e)),
        ArrowFunctionBody::Block(block) => ArrowFunctionBody::Block(copy_block(block)),
    }
}

fn copy_block(b: &Block) -> (r: Block)
    ensures
        render_statements(r) == render_statements(*b),
    decreases b, 0nat,
{
    match b {
        Block::ConstAssignment { ident, value, rest } => Block::ConstAssignment {
            ident: ident.copy(),
            value: copy_expression(value),
            rest: Box::new(copy_block(rest)),
        },
        Block::Expression { expression, rest } => Block::Expression {
            expression: copy_expression(expression),
            rest: Box::new(copy_block(rest)),
        },
        Block::Throw(message) => Block::Throw(copy_string(message)),
        Block::Return(None) => Block::Return(None),
        Block::Return(Some(e)) => Block::Return(Some(copy_expression(e))),
        Block::If { condition, true_branch, false_branch } => Block::If {
            condition: copy_expression(condition),
            true_branch: Box::new(copy_block(true_branch)),
            false_branch: Box::new(copy_block(false_branch)),
        },
    }
}

/// The text of `base` as the target of an index access: in parentheses where
/// it is a function, a conditional or an operator.
pub open spec fn target_text(base: Expression) -> Seq<char> {
    parens_if(is_arrow_or_conditional(base) || base is Operator, render_expr(base))
}

/// `[i]` for each index `i` of the path, in order.
pub open spec fn index_suffix(path: Seq<int>) -> Seq<char>
    decreases path.len(),
{
    if path.len() == 0 {
        Seq::empty()
    } else {
        "["@ + decimal(path[0] as nat) + "]"@ + index_suffix(path.drop_first())
    }
}

/// The text of `base` indexed by each index of `path` in turn.
pub open spec fn access_text(base: Expression, path: Seq<int>) -> Seq<char> {
    if path.len() == 0 {
        render_expr(base)
    } else {
        target_text(base) + index_suffix(path)
    }
}

/// The fields that a path of constructor arguments leads through: argument `k`
/// of a constructed value is its field `k + 1`, field 0 holding the
/// constructor's name.
pub open spec fn field_path(path: Seq<int>) -> Seq<int> {
    path.map_values(|k: int| k + 1)
}

/// The part of pattern `p` at `path`, each step the index of a constructor's
/// argument.
pub open spec fn pattern_at(p: ast::Pattern, path: Seq<int>) -> Option<ast::Pattern>
    decreases path.len(),
{
    if path.len() == 0 {
        Some(p)
    } else {
        match p {
            ast::Pattern::LocalConstructor { arguments, .. } => if 0 <= path[0] < arguments@.len() {
                pattern_at(arguments@[path[0]], path.drop_first())
            } else {
                None
            },
            ast::Pattern::ImportedConstructor { arguments, .. } => if 0 <= path[0] < arguments@.len() {
                pattern_at(arguments@[path[0]], path.drop_first())
            } else {
                None
            },
            _ => None,
        }
    }
}

/// The binding `a` is that of the variable at `path` of `p`: its identifier,
/// bound to `base` read at the fields that the path leads through.
pub open spec fn binds_at(p: ast::Pattern, base: Expression, path: Seq<int>, a: (Ident, Expression)) -> bool {
    match pattern_at(p, path) {
        Some(ast::Pattern::Variable { name, .. }) => a.0.0@ == mangled(name@) && render_expr(a.1) == access_text(
            base,
            field_path(path),
        ),
        _ => false,
    }
}

/// `c` tests that `base` read at the fields `fields` holds a value built by
/// the constructor `name`: `base...[0] === "name"`.
pub open spec fn is_tag_test(c: Expression, base: Expression, fields: Seq<int>, name: Seq<char>) -> bool {
    match c {
        Expression::Operator { op: Operator::Equals, lhs, rhs } => {
            &&& render_expr(*lhs) == access_text(base, fields.push(0))
            &&& match *rhs {
                Expression::String(s) => s@ == name,
                _ => false,
            }
        },
        _ => false,
    }
}

/// The condition `c` is the test of the constructor at `path` of `p`, on the
/// value of `base` at the fields that the path leads through.
pub open spec fn tests_at(p: ast::Pattern, base: Expression, path: Seq<int>, c: Expression) -> bool {
    match pattern_at(p, path) {
        Some(ast::Pattern::LocalConstructor { constructor, .. }) => is_tag_test(
            c,
            base,
            field_path(path),
            constructor@,
        ),
        Some(ast::Pattern::ImportedConstructor { constructor, .. }) => is_tag_test(
            c,
            base,
            field_path(path),
            constructor.value@,
        ),
        _ => false,
    }
}

/// `a` binds some variable of `p` (see [binds_at]).
pub open spec fn binding_of(p: ast::Pattern, base: Expression, a: (Ident, Expression)) -> bool {
    exists|path: Seq<int>| #[trigger] binds_at(p, base, path, a)
}

/// `c` tests some constructor of `p` (see [tests_at]).
pub open spec fn test_of(p: ast::Pattern, base: Expression, c: Expression) -> bool {
    exists|path: Seq<int>| #[trigger] tests_at(p, base, path, c)
}

/// Reading field `i + 1` of `base`, then the fields `fields`, reads `base` at
/// field `i + 1` followed by `fields`.
proof fn lemma_access_step(base: Expression, field: Expression, i: int, fields: Seq<int>)
    requires
        0 <= i,
        field is IndexAccess,
        render_expr(field) == target_text(base) + "["@ + decimal((i + 1) as nat) + "]"@,
    ensures
        access_text(field, fields) == access_text(base, seq![i + 1] + fields),
{
    let whole = seq![i + 1] + fields;
    assert(whole.drop_first() =~= fields);
    assert(whole[0] == i + 1);
    if fields.len() == 0 {
        assert(index_suffix(fields) =~= Seq::<char>::empty());
        assert(access_text(base, whole) =~= render_expr(field));
    } else {
        assert(target_text(field) == render_expr(field));
        assert(access_text(base, whole) =~= access_text(field, fields));
    }
}

/// The part of a constructor pattern at `i` followed by `path` is the part of
/// its argument `i` at `path`, and lies behind field `i + 1`.
proof fn lemma_path_step(p: ast::Pattern, arguments: Seq<ast::Pattern>, i: int, path: Seq<int>)
    requires
        p is LocalConstructor ==> arguments == p->LocalConstructor_arguments@,
        p is ImportedConstructor ==> arguments == p->ImportedConstructor_arguments@,
        p is LocalConstructor || p is ImportedConstructor,
        0 <= i < arguments.len(),
    ensures
        pattern_at(p, seq![i] + path) == pattern_at(arguments[i], path),
        field_path(seq![i] + path) == seq![i + 1] + field_path(path),
        field_path(seq![i] + path).push(0) == seq![i + 1] + field_path(path).push(0),
{
    let whole = seq![i] + path;
    assert(whole.drop_first() =~= path);
    assert(whole[0] == i);
    assert(field_path(whole) =~= seq![i + 1] + field_path(path));
    assert(field_path(whole).push(0) =~= seq![i + 1] + field_path(path).push(0));
}

/// A binding or a test made for argument `i` of a constructor pattern `p`,
/// against field `i + 1` of `base`, is one of `p` against `base`.
proof fn lemma_lift(
    p: ast::Pattern,
    arguments: Seq<ast::Pattern>,
    i: int,
    base: Expression,
    field: Expression,
    a: (Ident, Expression),
    c: Expression,
)
    requires
        p is LocalConstructor ==> arguments == p->LocalConstructor_arguments@,
        p is ImportedConstructor ==> arguments == p->ImportedConstructor_arguments@,
        p is LocalConstructor || p is ImportedConstructor,
        0 <= i < arguments.len(),
        field is IndexAccess,
        render_expr(field) == target_text(base) + "["@ + decimal((i + 1) as nat) + "]"@,
    ensures
        binding_of(arguments[i], field, a) ==> binding_of(p, base, a),
        test_of(arguments[i], field, c) ==> test_of(p, base, c),
{
    if binding_of(arguments[i], field, a) {
        let q = choose|q: Seq<int>| #[trigger] binds_at(arguments[i], field, q, a);
        lemma_lift_at(p, arguments, i, base, field, q, a, c);
    }
    if test_of(arguments[i], field, c) {
        let q = choose|q: Seq<int>| #[trigger] tests_at(arguments[i], field, q, c);
        lemma_lift_at(p, arguments, i, base, field, q, a, c);
    }
}

/// [lemma_lift] at a given path `q` of argument `i`: it becomes the path `i`
/// followed by `q` of `p`.
proof fn lemma_lift_at(
    p: ast::Pattern,
    arguments: Seq<ast::Pattern>,
    i: int,
    base: Expression,
    field: Expression,
    q: Seq<int>,
    a: (Ident, Expression),
    c: Expression,
)
    requires
        p is LocalConstructor ==> arguments == p->LocalConstructor_arguments@,
        p is ImportedConstructor ==> arguments == p->ImportedConstructor_arguments@,
        p is LocalConstructor || p is ImportedConstructor,
        0 <= i < arguments.len(),
        field is IndexAccess,
        render_expr(field) == target_text(base) + "["@ + decimal((i + 1) as nat) + "]"@,
    ensures
        binds_at(arguments[i], field, q, a) ==> binds_at(p, base, seq![i] + q, a),
        tests_at(arguments[i], field, q, c) ==> tests_at(p, base, seq![i] + q, c),
        var_at(p, seq![i] + q) == var_at(arguments[i], q),
        ctor_at(p, seq![i] + q) == ctor_at(arguments[i], q),
{
    lemma_path_step(p, arguments, i, q);
    lemma_access_step(base, field, i, field_path(q));
    lemma_access_step(base, field, i, field_path(q).push(0));
}

/// Whether the part of `p` at `path` is a variable.
pub open spec fn var_at(p: ast::Pattern, path: Seq<int>) -> bool {
    match pattern_at(p, path) {
        Some(ast::Pattern::Variable { .. }) => true,
        _ => false,
    }
}

/// Whether the part of `p` at `path` is a constructor.
pub open spec fn ctor_at(p: ast::Pattern, path: Seq<int>) -> bool {
    match pattern_at(p, path) {
        Some(ast::Pattern::LocalConstructor { .. }) => true,
        Some(ast::Pattern::ImportedConstructor { .. }) => true,
        _ => false,
    }
}

/// Some binding of `assigns` from index `from` on is that of the variable at
/// `path` of `p` (see [binds_at]).
pub open spec fn bound_in(
    p: ast::Pattern,
    base: Expression,
    path: Seq<int>,
    assigns: Seq<(Ident, Expression)>,
    from: int,
) -> bool {
    exists|j: int| from <= j < assigns.len() && binds_at(p, base, path, #[trigger] assigns[j])
}

/// Some condition of `conds` from index `from` on is the test of the
/// constructor at `path` of `p` (see [tests_at]).
pub open spec fn tested_in(p: ast::Pattern, base: Expression, path: Seq<int>, conds: Seq<Expression>, from: int) -> bool {
    exists|j: int| from <= j < conds.len() && tests_at(p, base, path, #[trigger] conds[j])
}

/// Every variable of `p` is bound by some binding of `assigns` from index `from` on.
pub open spec fn binds_every_variable(
    p: ast::Pattern,
    base: Expression,
    assigns: Seq<(Ident, Expression)>,
    from: int,
) -> bool {
    forall|path: Seq<int>| #[trigger] var_at(p, path) ==> bound_in(p, base, path, assigns, from)
}

/// Every constructor of `p` is tested by some condition of `conds` from index
/// `from` on.
pub open spec fn tests_every_constructor(p: ast::Pattern, base: Expression, conds: Seq<Expression>, from: int) -> bool {
    forall|path: Seq<int>| #[trigger] ctor_at(p, path) ==> tested_in(p, base, path, conds, from)
}

/// `target[index]`, the index a number.
fn index_access(target: &Expression, index: usize) -> (r: Expression)
    ensures
        r is IndexAccess,
        render_expr(r) == target_text(*target) + "["@ + decimal(index as nat) + "]"@,
{
    let t = copy_expression(target);
    let mut n = String::new();
    proof {
        assert(n@ =~= Seq::<char>::empty());
    }
    push_decimal(&mut n, index);
    proof {
        assert(n@ =~= decimal(index as nat));
    }
    let r = Expression::IndexAccess { target: Box::new(t), index: Box::new(Expression::Number(n)) };
    proof {
        assert(target_text(t) == target_text(*target));
        assert(render_expr(Expression::Number(n)) == decimal(index as nat));
        assert(render_expr(r) == target_text(t) + "["@ + render_expr(Expression::Number(n)) + "]"@);
    }
    r
}

/// `expression[0] === "Name"`: whether a constructed value is built by `Name`.
fn constructor_test(expression: &Expression, name: &ProperName) -> (r: Expression)
    ensures
        r matches Expression::Operator { op: Operator::Equals, .. },
        is_tag_test(r, *expression, Seq::empty(), name@),
{
    let lhs = index_access(expression, 0);
    proof {
        let fields = Seq::<int>::empty().push(0);
        assert(fields.drop_first() =~= Seq::<int>::empty());
        assert(fields[0] == 0);
        assert(index_suffix(Seq::<int>::empty()) == Seq::<char>::empty());
        assert(index_suffix(fields) == "["@ + decimal(0) + "]"@ + Seq::<char>::empty());
        assert(index_suffix(fields) =~= "["@ + decimal(0) + "]"@);
        assert(access_text(*expression, fields) =~= render_expr(lhs));
    }
    Expression::Operator {
        op: Operator::Equals,
        lhs: Box::new(lhs),
        rhs: Box::new(Expression::String(copy_string(&name.0))),
    }
}

/// The tests and variable bindings that matching `expression` against a pattern needs.
///
/// What was in `conditions` and `assignments` stays. Each test added is that
/// of a constructor of the pattern, on the value read at the fields that lead
/// to it (argument `k` of a constructor being field `k + 1`), and each binding
/// added is that of a variable of the pattern to the value read there.
pub fn convert_pattern_rec(
    expression: &Expression,
    pattern: &ast::Pattern,
    conditions: &mut Vec<Expression>,
    assignments: &mut Vec<(Ident, Expression)>,
)
    ensures
        match *pattern {
            ast::Pattern::Variable { .. } => final(conditions)@ == old(conditions)@ && final(assignments)@.len()
                == old(assignments)@.len() + 1,
            ast::Pattern::Unused { .. } => final(conditions)@ == old(conditions)@ && final(assignments)@
                == old(assignments)@,
            _ => final(conditions)@.len() > old(conditions)@.len() && tests_at(
                *pattern,
                *expression,
                Seq::empty(),
                final(conditions)@[old(conditions)@.len() as int],
            ),
        },
        final(conditions)@.len() >= old(conditions)@.len(),
        final(assignments)@.len() >= old(assignments)@.len(),
        final(conditions)@.take(old(conditions)@.len() as int) == old(conditions)@,
        final(assignments)@.take(old(assignments)@.len() as int) == old(assignments)@,
        forall|j: int|
            old(conditions)@.len() <= j < final(conditions)@.len() ==> test_of(
                *pattern,
                *expression,
                #[trigger] final(conditions)@[j],
            ),
        forall|j: int|
            old(assignments)@.len() <= j < final(assignments)@.len() ==> binding_of(
                *pattern,
                *expression,
                #[trigger] final(assignments)@[j],
            ),
        binds_every_variable(*pattern, *expression, final(assignments)@, old(assignments)@.len() as int),
        tests_every_constructor(*pattern, *expression, final(conditions)@, old(conditions)@.len() as int),
    decreases pattern,
{
    match pattern {
        ast::Pattern::Variable { name, .. } => {
            assignments.push((ident_from_name(name), copy_expression(expression)));
            proof {
                let a = assignments@.last();
                assert(field_path(Seq::<int>::empty()) =~= Seq::<int>::empty());
                assert(binds_at(*pattern, *expression, Seq::empty(), a));
                assert(assignments@.take(old(assignments)@.len() as int) =~= old(assignments)@);
                assert forall|path: Seq<int>| #[trigger] var_at(*pattern, path) implies bound_in(
                    *pattern,
                    *expression,
                    path,
                    assignments@,
                    old(assignments)@.len() as int,
                ) by {
                    assert(path =~= Seq::<int>::empty());
                    assert(binds_at(*pattern, *expression, path, assignments@[old(assignments)@.len() as int]));
                }
            }
        },
        ast::Pattern::Unused { .. } => {
            proof {
                assert(assignments@.take(old(assignments)@.len() as int) =~= old(assignments)@);
                assert(conditions@.take(old(conditions)@.len() as int) =~= old(conditions)@);
            }
        },
        ast::Pattern::LocalConstructor { constructor, arguments, .. } => {
            conditions.push(constructor_test(expression, constructor));
            proof {
                assert(field_path(Seq::<int>::empty()) =~= Seq::<int>::empty());
                assert(tests_at(*pattern, *expression, Seq::empty(), conditions@.last()));
                assert(conditions@.take(old(conditions)@.len() as int) =~= old(conditions)@);
                assert(assignments@.take(old(assignments)@.len() as int) =~= old(assignments)@);
            }
            let ghost after = conditions@.len();
            let ghost root_test = conditions@.last();
            let mut i: usize = 0;
            while i < arguments.len()
                invariant
                    *pattern == (ast::Pattern::LocalConstructor {
                        span: pattern.span_of(),
                        constructor: *constructor,
                        arguments: *arguments,
                    }),
                    i <= arguments@.len(),
                    after == old(conditions)@.len() + 1,
                    conditions@.len() >= after,
                    assignments@.len() >= old(assignments)@.len(),
                    conditions@.take(old(conditions)@.len() as int) == old(conditions)@,
                    conditions@[old(conditions)@.len() as int] == root_test,
                    tests_at(*pattern, *expression, Seq::empty(), root_test),
                    assignments@.take(old(assignments)@.len() as int) == old(assignments)@,
                    forall|j: int|
                        old(conditions)@.len() <= j < conditions@.len() ==> test_of(
                            *pattern,
                            *expression,
                            #[trigger] conditions@[j],
                        ),
                    forall|j: int|
                        old(assignments)@.len() <= j < assignments@.len() ==> binding_of(
                            *pattern,
                            *expression,
                            #[trigger] assignments@[j],
                        ),
                    forall|path: Seq<int>|
                        path.len() > 0 && path[0] < i && #[trigger] var_at(*pattern, path) ==> bound_in(
                            *pattern,
                            *expression,
                            path,
                            assignments@,
                            old(assignments)@.len() as int,
                        ),
                    forall|path: Seq<int>|
                        path.len() > 0 && path[0] < i && #[trigger] ctor_at(*pattern, path) ==> tested_in(
                            *pattern,
                            *expression,
                            path,
                            conditions@,
                            old(conditions)@.len() as int,
                        ),
                decreases arguments@.len() - i,
            {
                proof {
                    assert(decreases_to!(*pattern => (*pattern)->LocalConstructor_arguments));
                    assert(decreases_to!(*arguments => arguments@));
                    assert(decreases_to!(arguments@ => arguments@[i as int]));
                }
                if i < usize::MAX {
                    let field = index_access(expression, i + 1);
                    let ghost before_c = conditions@;
                    let ghost before_a = assignments@;
                    convert_pattern_rec(&field, &arguments[i], conditions, assignments);
                    proof {
                        lift_all(*pattern, arguments@, i as int, *expression, field, before_c, conditions@, before_a, assignments@, old(conditions)@.len() as int, old(assignments)@.len() as int);
                    }
                }
                i = i + 1;
            }
            proof {
                assert forall|path: Seq<int>| #[trigger] var_at(*pattern, path) implies bound_in(
                    *pattern,
                    *expression,
                    path,
                    assignments@,
                    old(assignments)@.len() as int,
                ) by {
                    assert(path.len() > 0);
                }
                assert forall|path: Seq<int>| #[trigger] ctor_at(*pattern, path) implies tested_in(
                    *pattern,
                    *expression,
                    path,
                    conditions@,
                    old(conditions)@.len() as int,
                ) by {
                    if path.len() == 0 {
                        assert(path =~= Seq::<int>::empty());
                        assert(tests_at(*pattern, *expression, path, conditions@[old(conditions)@.len() as int]));
                    }
                }
            }
        },
        ast::Pattern::ImportedConstructor { constructor, arguments, .. } => {
            conditions.push(constructor_test(expression, &constructor.value));
            proof {
                assert(field_path(Seq::<int>::empty()) =~= Seq::<int>::empty());
                assert(tests_at(*pattern, *expression, Seq::empty(), conditions@.last()));
                assert(conditions@.take(old(conditions)@.len() as int) =~= old(conditions)@);
                assert(assignments@.take(old(assignments)@.len() as int) =~= old(assignments)@);
            }
            let ghost after = conditions@.len();
            let ghost root_test = conditions@.last();
            let mut i: usize = 0;
            while i < arguments.len()
                invariant
                    *pattern == (ast::Pattern::ImportedConstructor {
                        span: pattern.span_of(),
                        constructor: *constructor,
                        arguments: *arguments,
                    }),
                    i <= arguments@.len(),
                    after == old(conditions)@.len() + 1,
                    conditions@.len() >= after,
                    assignments@.len() >= old(assignments)@.len(),
                    conditions@.take(old(conditions)@.len() as int) == old(conditions)@,
                    conditions@[old(conditions)@.len() as int] == root_test,
                    tests_at(*pattern, *expression, Seq::empty(), root_test),
                    assignments@.take(old(assignments)@.len() as int) == old(assignments)@,
                    forall|j: int|
                        old(conditions)@.len() <= j < conditions@.len() ==> test_of(
                            *pattern,
                            *expression,
                            #[trigger] conditions@[j],
                        ),
                    forall|j: int|
                        old(assignments)@.len() <= j < assignments@.len() ==> binding_of(
                            *pattern,
                            *expression,
                            #[trigger] assignments@[j],
                        ),
                    forall|path: Seq<int>|
                        path.len() > 0 && path[0] < i && #[trigger] var_at(*pattern, path) ==> bound_in(
                            *pattern,
                            *expression,
                            path,
                            assignments@,
                            old(assignments)@.len() as int,
                        ),
                    forall|path: Seq<int>|
                        path.len() > 0 && path[0] < i && #[trigger] ctor_at(*pattern, path) ==> tested_in(
                            *pattern,
                            *expression,
                            path,
                            conditions@,
                            old(conditions)@.len() as int,
                        ),
                decreases arguments@.len() - i,
            {
                proof {
                    assert(decreases_to!(*pattern => (*pattern)->ImportedConstructor_arguments));
                    assert(decreases_to!(*arguments => arguments@));
                    assert(decreases_to!(arguments@ => arguments@[i as int]));
                }
                if i < usize::MAX {
                    let field = index_access(expression, i + 1);
                    let ghost before_c = conditions@;
                    let ghost before_a = assignments@;
                    convert_pattern_rec(&field, &arguments[i], conditions, assignments);
                    proof {
                        lift_all(*pattern, arguments@, i as int, *expression, field, before_c, conditions@, before_a, assignments@, old(conditions)@.len() as int, old(assignments)@.len() as int);
                    }
                }
                i = i + 1;
            }
            proof {
                assert forall|path: Seq<int>| #[trigger] var_at(*pattern, path) implies bound_in(
                    *pattern,
                    *expression,
                    path,
                    assignments@,
                    old(assignments)@.len() as int,
                ) by {
                    assert(path.len() > 0);
                }
                assert forall|path: Seq<int>| #[trigger] ctor_at(*pattern, path) implies tested_in(
                    *pattern,
                    *expression,
                    path,
                    conditions@,
                    old(conditions)@.len() as int,
                ) by {
                    if path.len() == 0 {
                        assert(path =~= Seq::<int>::empty());
                        assert(tests_at(*pattern, *expression, path, conditions@[old(conditions)@.len() as int]));
                    }
                }
            }
        },
    }
}

/// What one argument's conversion adds to the tests and bindings keeps the
/// invariant of a constructor pattern's loop: earlier entries stay, and the
/// new ones are tests and bindings of the whole pattern.
proof fn lift_all(
    p: ast::Pattern,
    arguments: Seq<ast::Pattern>,
    i: int,
    base: Expression,
    field: Expression,
    c0: Seq<Expression>,
    c1: Seq<Expression>,
    a0: Seq<(Ident, Expression)>,
    a1: Seq<(Ident, Expression)>,
    cn: int,
    an: int,
)
    requires
        p is LocalConstructor ==> arguments == p->LocalConstructor_arguments@,
        p is ImportedConstructor ==> arguments == p->ImportedConstructor_arguments@,
        p is LocalConstructor || p is ImportedConstructor,
        0 <= i < arguments.len(),
        field is IndexAccess,
        render_expr(field) == target_text(base) + "["@ + decimal((i + 1) as nat) + "]"@,
        0 <= cn < c0.len(),
        0 <= an <= a0.len(),
        c1.len() >= c0.len(),
        a1.len() >= a0.len(),
        c1.take(c0.len() as int) == c0,
        a1.take(a0.len() as int) == a0,
        forall|j: int| cn <= j < c0.len() ==> test_of(p, base, #[trigger] c0[j]),
        forall|j: int| an <= j < a0.len() ==> binding_of(p, base, #[trigger] a0[j]),
        forall|j: int| c0.len() <= j < c1.len() ==> test_of(arguments[i], field, #[trigger] c1[j]),
        forall|j: int| a0.len() <= j < a1.len() ==> binding_of(arguments[i], field, #[trigger] a1[j]),
        binds_every_variable(arguments[i], field, a1, a0.len() as int),
        tests_every_constructor(arguments[i], field, c1, c0.len() as int),
        forall|path: Seq<int>|
            path.len() > 0 && path[0] < i && #[trigger] var_at(p, path) ==> bound_in(p, base, path, a0, an),
        forall|path: Seq<int>|
            path.len() > 0 && path[0] < i && #[trigger] ctor_at(p, path) ==> tested_in(p, base, path, c0, cn),
    ensures
        forall|path: Seq<int>|
            path.len() > 0 && path[0] < i + 1 && #[trigger] var_at(p, path) ==> bound_in(p, base, path, a1, an),
        forall|path: Seq<int>|
            path.len() > 0 && path[0] < i + 1 && #[trigger] ctor_at(p, path) ==> tested_in(p, base, path, c1, cn),
        forall|j: int| cn <= j < c1.len() ==> test_of(p, base, #[trigger] c1[j]),
        forall|j: int| an <= j < a1.len() ==> binding_of(p, base, #[trigger] a1[j]),
        c1.take(cn) == c0.take(cn),
        c1[cn] == c0[cn],
        a1.take(an) == a0.take(an),
{
    assert forall|j: int| cn <= j < c1.len() implies test_of(p, base, #[trigger] c1[j]) by {
        if j < c0.len() {
            assert(c1.take(c0.len() as int)[j] == c1[j]);
        } else {
            lemma_lift(p, arguments, i, base, field, a1[0], c1[j]);
        }
    }
    assert forall|j: int| an <= j < a1.len() implies binding_of(p, base, #[trigger] a1[j]) by {
        if j < a0.len() {
            assert(a1.take(a0.len() as int)[j] == a1[j]);
        } else {
            lemma_lift(p, arguments, i, base, field, a1[j], c1[0]);
        }
    }
    assert forall|path: Seq<int>|
        path.len() > 0 && path[0] < i + 1 && #[trigger] var_at(p, path) implies bound_in(p, base, path, a1, an) by {
        if path[0] < i {
            let j = choose|j: int| an <= j < a0.len() && binds_at(p, base, path, #[trigger] a0[j]);
            assert(a1.take(a0.len() as int)[j] == a1[j]);
        } else {
            let q = path.drop_first();
            assert(path =~= seq![i] + q);
            lemma_lift_at(p, arguments, i, base, field, q, a1[0], c1[0]);
            assert(var_at(arguments[i], q));
            let j = choose|j: int| a0.len() <= j < a1.len() && binds_at(arguments[i], field, q, #[trigger] a1[j]);
            lemma_lift_at(p, arguments, i, base, field, q, a1[j], c1[0]);
        }
    }
    assert forall|path: Seq<int>|
        path.len() > 0 && path[0] < i + 1 && #[trigger] ctor_at(p, path) implies tested_in(p, base, path, c1, cn) by {
        if path[0] < i {
            let j = choose|j: int| cn <= j < c0.len() && tests_at(p, base, path, #[trigger] c0[j]);
            assert(c1.take(c0.len() as int)[j] == c1[j]);
        } else {
            let q = path.drop_first();
            assert(path =~= seq![i] + q);
            lemma_lift_at(p, arguments, i, base, field, q, a1[0], c1[0]);
            assert(ctor_at(arguments[i], q));
            let j = choose|j: int| c0.len() <= j < c1.len() && tests_at(arguments[i], field, q, #[trigger] c1[j]);
            lemma_lift_at(p, arguments, i, base, field, q, a1[0], c1[j]);
        }
    }
    assert(c1.take(c0.len() as int)[cn] == c1[cn]);
    assert(c1.take(cn) =~= c0.take(cn)) by {
        assert forall|k: int| 0 <= k < cn implies c1.take(cn)[k] == c0.take(cn)[k] by {
            assert(c1.take(c0.len() as int)[k] == c1[k]);
        }
    }
    assert(a1.take(an) =~= a0.take(an)) by {
        assert forall|k: int| 0 <= k < an implies a1.take(an)[k] == a0.take(an)[k] by {
            assert(a1.take(a0.len() as int)[k] == a1[k]);
        }
    }
}

/// The test that matching `expression` against a pattern needs, if any (the
/// tests joined by `&&`), and the variable bindings it makes.
pub fn convert_pattern(expression: &Expression, pattern: &ast::Pattern) -> (r: (
    Option<Expression>,
    Vec<(Ident, Expression)>,
))
    ensures
        (pattern is Variable || pattern is Unused) ==> r.0 is None,
        (pattern is LocalConstructor || pattern is ImportedConstructor) ==> r.0 is Some,
        forall|j: int| 0 <= j < r.1@.len() ==> binding_of(*pattern, *expression, #[trigger] r.1@[j]),
        binds_every_variable(*pattern, *expression, r.1@, 0),
{
    let mut conditions: Vec<Expression> = Vec::new();
    let mut assignments: Vec<(Ident, Expression)> = Vec::new();
    convert_pattern_rec(expression, pattern, &mut conditions, &mut assignments);
    if conditions.len() == 0 {
        return (None, assignments);
    }
    let mut condition = conditions.remove(0);
    let mut i: usize = 0;
    while i < conditions.len()
        invariant
            i <= conditions@.len(),
        decreases conditions@.len() - i,
    {
        condition = Expression::Operator {
            op: Operator::And,
            lhs: Box::new(copy_expression(&conditions[i])),
            rhs: Box::new(condition),
        };
        i = i + 1;
    }
    (Some(condition), assignments)
}

/// The parameter that a function binder becomes.
pub open spec fn binder_ident(b: ast::FunctionBinder) -> Seq<char> {
    match b {
        ast::FunctionBinder::Name { value, .. } => mangled(value@),
        ast::FunctionBinder::Unused { value, .. } => mangled(value@),
    }
}

/// Whether `r` is the JavaScript that the typed expression `e` becomes: each
/// part of `e` converted into the matching part of `r`. (A match becomes
/// nested conditionals over its arms; of that nothing is said here.)
pub open spec fn converts(e: ast::Expression, r: Expression) -> bool
    decreases e, 1nat,
{
    match e {
        ast::Expression::True { .. } => r is True,
        ast::Expression::False { .. } => r is False,
        ast::Expression::Unit { .. } => r is Undefined,
        ast::Expression::String { value, .. } => r matches Expression::String(s) && s@ == value@,
        ast::Expression::Int { value, .. } => r matches Expression::Number(n) && n@ == js_int(value@),
        ast::Expression::Float { value, .. } => r matches Expression::Number(n) && n@ == js_float(value@),
        ast::Expression::LocalVariable { variable, .. } => r matches Expression::Variable(i) && i.0@ == mangled(
            variable@,
        ),
        ast::Expression::ForeignVariable { variable, .. } => r matches Expression::Variable(i) && i.0@ == "foreign$"@
            + mangled(variable@),
        ast::Expression::LocalConstructor { constructor, .. } => r matches Expression::Variable(i) && i.0@
            == constructor@,
        ast::Expression::ImportedVariable { variable, .. } => r matches Expression::Variable(i) && i.0@
            == qualified_ident(variable.module_name@, variable.value@),
        ast::Expression::ImportedConstructor { constructor, .. } => r matches Expression::Variable(i) && i.0@
            == qualified_ident(constructor.module_name@, constructor.value@),
        ast::Expression::Function { binders, body, .. } => match r {
            Expression::ArrowFunction { parameters, body: b } => {
                &&& parameters@.len() == binders@.len()
                &&& forall|k: int| 0 <= k < binders@.len() ==> (#[trigger] parameters@[k]).0@ == binder_ident(binders@[k])
                &&& match *b {
                    ArrowFunctionBody::Expression(x) => converts(*body, x),
                    _ => false,
                }
            },
            _ => false,
        },
        ast::Expression::Effect { effect, .. } => match r {
            Expression::ArrowFunction { parameters, body } => parameters@.len() == 0 && match *body {
                ArrowFunctionBody::Block(b) => effect_block(effect, b),
                _ => false,
            },
            _ => false,
        },
        ast::Expression::Call { function, arguments, .. } => match r {
            Expression::Call { function: f, arguments: converted } => {
                &&& converts(*function, *f)
                &&& converted@.len() == arguments@.len()
                &&& forall|k: int| 0 <= k < arguments@.len() ==> argument_converts(#[trigger] arguments@[k], converted@[k])
            },
            _ => false,
        },
        ast::Expression::If { condition, true_clause, false_clause, .. } => match r {
            Expression::Conditional { condition: c, true_clause: t, false_clause: f } => converts(*condition, *c)
                && converts(*true_clause, *t) && converts(*false_clause, *f),
            _ => false,
        },
        ast::Expression::Array { elements, .. } => match r {
            Expression::Array(converted) => {
                &&& converted@.len() == elements@.len()
                &&& forall|k: int| 0 <= k < elements@.len() ==> converts(#[trigger] elements@[k], converted@[k])
            },
            _ => false,
        },
        ast::Expression::Record { fields, .. } => match r {
            Expression::Object(entries) => {
                &&& entries@.len() == fields@.len()
                &&& forall|k: int|
                    0 <= k < fields@.len() ==> (#[trigger] entries@[k]).0@ == fields@[k].0@ && converts(
                        fields@[k].1,
                        entries@[k].1,
                    )
            },
            _ => false,
        },
        ast::Expression::RecordAccess { target, label, .. } => match r {
            Expression::IndexAccess { target: t, index } => converts(*target, *t) && match *index {
                Expression::String(l) => l@ == label@,
                _ => false,
            },
            _ => false,
        },
        ast::Expression::Match { .. } => true,
    }
}

/// [converts] for an argument of a call.
pub open spec fn argument_converts(a: ast::Argument, r: Expression) -> bool
    decreases a, 0nat,
{
    match a {
        ast::Argument::Expression(x) => converts(x, r),
    }
}

/// The JavaScript of a typed expression. Imported values are recorded in
/// `imported`, so that only what is needed is imported.
pub fn convert_expression(imported: &mut ImportedModuleIdents, e: &ast::Expression) -> (r: Expression)
    ensures
        imports_grow(old(imported)@, final(imported)@),
        match *e {
            ast::Expression::ForeignVariable { variable, .. } => has_import(
                final(imported)@,
                None,
                mangled(variable@),
                "foreign$"@ + mangled(variable@),
            ),
            ast::Expression::ImportedVariable { variable, .. } => has_import(
                final(imported)@,
                Some(variable.module_name@),
                mangled(variable.value@),
                qualified_ident(variable.module_name@, variable.value@),
            ),
            ast::Expression::ImportedConstructor { constructor, .. } => has_import(
                final(imported)@,
                Some(constructor.module_name@),
                constructor.value@,
                qualified_ident(constructor.module_name@, constructor.value@),
            ),
            _ => true,
        },
        converts(*e, r),
        match *e {
            ast::Expression::True { .. } | ast::Expression::False { .. } | ast::Expression::Unit { .. }
            | ast::Expression::String { .. } | ast::Expression::Int { .. } | ast::Expression::Float { .. }
            | ast::Expression::LocalVariable { .. } | ast::Expression::LocalConstructor { .. } => final(imported)@
                == old(imported)@,
            _ => true,
        },
    decreases e, 1nat,
{
    match e {
        ast::Expression::Function { binders, body, .. } => {
            let mut parameters: Vec<Ident> = Vec::new();
            let mut i: usize = 0;
            while i < binders.len()
                invariant
                    imports_grow(old(imported)@, imported@),
                    i <= binders@.len(),
                    parameters@.len() == i,
                    forall|k: int| 0 <= k < i ==> (#[trigger] parameters@[k]).0@ == binder_ident(binders@[k]),
                decreases binders@.len() - i,
            {
                match &binders[i] {
                    ast::FunctionBinder::Name { value, .. } => parameters.push(ident_from_name(value)),
                    ast::FunctionBinder::Unused { value, .. } => parameters.push(ident_from_unused_name(value)),
                }
                i = i + 1;
            }
            let body = convert_expression(imported, body);
            Expression::ArrowFunction { parameters, body: Box::new(ArrowFunctionBody::Expression(body)) }
        },
        ast::Expression::Call { function, arguments, .. } => {
            let function = convert_expression(imported, function);
            let mut out: Vec<Expression> = Vec::new();
            let mut i: usize = 0;
            while i < arguments.len()
                invariant
                    imports_grow(old(imported)@, imported@),
                    *e == (ast::Expression::Call {
                        span: e.span_of(),
                        call_type: (*e)->call_type,
                        function: (*e)->Call_function,
                        arguments: *arguments,
                    }),
                    i <= arguments@.len(),
                    out@.len() == i,
                    forall|k: int| 0 <= k < i ==> argument_converts(#[trigger] arguments@[k], out@[k]),
                decreases arguments@.len() - i,
            {
                proof {
                    assert(decreases_to!(*e => (*e)->Call_arguments));
                    assert(decreases_to!(*arguments => arguments@));
                    assert(decreases_to!(arguments@ => arguments@[i as int]));
                }
                match &arguments[i] {
                    ast::Argument::Expression(a) => {
                        proof {
                            assert(decreases_to!(arguments@[i as int] => *a));
                        }
                        out.push(convert_expression(imported, a));
                    },
                }
                i = i + 1;
            }
            Expression::Call { function: Box::new(function), arguments: out }
        },
        ast::Expression::If { condition, true_clause, false_clause, .. } => {
            let condition = convert_expression(imported, condition);
            let true_clause = convert_expression(imported, true_clause);
            let false_clause = convert_expression(imported, false_clause);
            Expression::Conditional {
                condition: Box::new(condition),
                true_clause: Box::new(true_clause),
                false_clause: Box::new(false_clause),
            }
        },
        ast::Expression::LocalVariable { variable, .. } => Expression::Variable(ident_from_name(variable)),
        ast::Expression::ForeignVariable { variable, .. } => {
            let aliased = ident_from_name(variable);
            let ident = mk_foreign_ident(copy_string(&variable.0));
            record_import(imported, ImportedModule::ForeignModule, aliased, &ident);
            Expression::Variable(ident)
        },
        ast::Expression::ImportedVariable { variable, .. } => {
            let aliased = ident_from_name(&variable.value);
            let ident = ident_from_fully_qualified(&variable.module_name, copy_string(&variable.value.0));
            record_import(imported, ImportedModule::Module(variable.module_name.copy()), aliased, &ident);
            Expression::Variable(ident)
        },
        ast::Expression::LocalConstructor { constructor, .. } => Expression::Variable(ident_from_proper_name(constructor)),
        ast::Expression::ImportedConstructor { constructor, .. } => {
            let aliased = ident_from_proper_name(&constructor.value);
            let ident = ident_from_fully_qualified(&constructor.module_name, copy_string(&constructor.value.0));
            record_import(imported, ImportedModule::Module(constructor.module_name.copy()), aliased, &ident);
            Expression::Variable(ident)
        },
        ast::Expression::String { value, .. } => Expression::String(copy_string(value)),
        ast::Expression::Float { value, .. } => Expression::Number(convert_float(value)),
        ast::Expression::Int { value, .. } => Expression::Number(convert_int(value)),
        ast::Expression::Array { elements, .. } => {
            let mut out: Vec<Expression> = Vec::new();
            let mut i: usize = 0;
            while i < elements.len()
                invariant
                    imports_grow(old(imported)@, imported@),
                    *e == (ast::Expression::Array {
                        span: e.span_of(),
                        element_type: (*e)->element_type,
                        elements: *elements,
                        value_type: (*e)->Array_value_type,
                    }),
                    i <= elements@.len(),
                    out@.len() == i,
                    forall|k: int| 0 <= k < i ==> converts(#[trigger] elements@[k], out@[k]),
                decreases elements@.len() - i,
            {
                proof {
                    assert(decreases_to!(*e => (*e)->elements));
                    assert(decreases_to!(*elements => elements@));
                    assert(decreases_to!(elements@ => elements@[i as int]));
                }
                out.push(convert_expression(imported, &elements[i]));
                i = i + 1;
            }
            Expression::Array(out)
        },
        ast::Expression::True { .. } => Expression::True,
        ast::Expression::False { .. } => Expression::False,
        ast::Expression::Unit { .. } => Expression::Undefined,
        ast::Expression::Match { expression, arms, .. } => {
            let scrutinee = convert_expression(imported, expression);
            let mut result = iife(Block::Throw("Pattern match error".to_owned()));
            let mut i: usize = 0;
            while i < arms.len()
                invariant
                    imports_grow(old(imported)@, imported@),
                    *e == (ast::Expression::Match {
                        span: e.span_of(),
                        match_type: (*e)->match_type,
                        expression: (*e)->Match_expression,
                        arms: *arms,
                    }),
                    i <= arms@.len(),
                decreases arms@.len() - i,
            {
                proof {
                    assert(decreases_to!(*e => (*e)->arms));
                    assert(decreases_to!(*arms => arms@));
                    assert(decreases_to!(arms@ => arms@[i as int]));
                    assert(decreases_to!(arms@[i as int] => arms@[i as int].1));
                }
                let (condition, assignments) = convert_pattern(&scrutinee, &arms[i].0);
                let arm_expression = convert_expression(imported, &arms[i].1);
                let expression = if assignments.len() == 0 {
                    arm_expression
                } else {
                    let mut block = Block::Return(Some(arm_expression));
                    let mut assignments = assignments;
                    while assignments.len() > 0
                        invariant
                            imports_grow(old(imported)@, imported@),
                        decreases assignments@.len(),
                    {
                        let (ident, value) = assignments.remove(0);
                        block = Block::ConstAssignment { ident, value, rest: Box::new(block) };
                    }
                    iife(block)
                };
                result = match condition {
                    Some(condition) => Expression::Conditional {
                        condition: Box::new(condition),
                        true_clause: Box::new(expression),
                        false_clause: Box::new(result),
                    },
                    None => expression,
                };
                i = i + 1;
            }
            result
        },
        ast::Expression::Effect { effect, .. } => {
            let block = convert_effect(imported, e, effect);
            Expression::ArrowFunction { parameters: Vec::new(), body: Box::new(ArrowFunctionBody::Block(block)) }
        },
        ast::Expression::Record { fields, .. } => {
            let mut entries: Vec<(String, Expression)> = Vec::new();
            let mut i: usize = 0;
            while i < fields.len()
                invariant
                    imports_grow(old(imported)@, imported@),
                    *e == (ast::Expression::Record { span: e.span_of(), fields: *fields }),
                    i <= fields@.len(),
                    entries@.len() == i,
                    forall|k: int|
                        0 <= k < i ==> (#[trigger] entries@[k]).0@ == fields@[k].0@ && converts(
                            fields@[k].1,
                            entries@[k].1,
                        ),
                decreases fields@.len() - i,
            {
                proof {
                    assert(decreases_to!(*e => (*e)->Record_fields));
                    assert(decreases_to!(*fields => fields@));
                    assert(decreases_to!(fields@ => fields@[i as int]));
                    assert(decreases_to!(fields@[i as int] => fields@[i as int].1));
                }
                let value = convert_expression(imported, &fields[i].1);
                entries.push((copy_string(&fields[i].0.0), value));
                i = i + 1;
            }
            Expression::Object(entries)
        },
        ast::Expression::RecordAccess { target, label, .. } => {
            let target = convert_expression(imported, target);
            Expression::IndexAccess {
                target: Box::new(target),
                index: Box::new(Expression::String(copy_string(&label.0))),
            }
        },
    }
}

/// Whether `x` runs the effect that `e` stands for: `e` converted, called
/// with no arguments.
pub open spec fn runs(e: ast::Expression, x: Expression) -> bool
    decreases e, 2nat,
{
    match x {
        Expression::Call { function, arguments } => arguments@.len() == 0 && converts(e, *function),
        _ => false,
    }
}

/// Whether `b` is the block an effect becomes: a `return` of the expression
/// that the effect returns; for each bound effect a constant of the binder's
/// name holding the effect run; for each other effect the effect run
/// as a statement, or returned where it is the last.
pub open spec fn effect_block(effect: ast::Effect, b: Block) -> bool
    decreases effect, 0nat,
{
    match effect {
        ast::Effect::Return { expression } => match b {
            Block::Return(Some(x)) => converts(*expression, x),
            _ => false,
        },
        ast::Effect::Bind { name, expression, rest } => match b {
            Block::ConstAssignment { ident, value, rest: br } => ident.0@ == mangled(name@) && runs(*expression, value)
                && effect_block(*rest, *br),
            _ => false,
        },
        ast::Effect::Expression { expression, rest } => match rest {
            Some(rest) => match b {
                Block::Expression { expression: x, rest: br } => runs(*expression, x) && effect_block(*rest, *br),
                _ => false,
            },
            None => match b {
                Block::Return(Some(x)) => runs(*expression, x),
                _ => false,
            },
        },
    }
}

/// The block of an effect: each bound effect run and named, the last one's result returned.
fn convert_effect(imported: &mut ImportedModuleIdents, parent: &ast::Expression, effect: &ast::Effect) -> (r: Block)
    requires
        decreases_to!(*parent => *effect),
    ensures
        imports_grow(old(imported)@, final(imported)@),
        effect_block(*effect, r),
    decreases parent, 0nat, effect,
{
    match effect {
        ast::Effect::Return { expression } => {
            proof {
                assert(decreases_to!(*effect => (*effect)->Return_expression));
            }
            let x = convert_expression(imported, expression);
            let r = Block::Return(Some(x));
            proof {
                assert(converts(**expression, x));
                assert(effect_block(*effect, r));
            }
            r
        },
        ast::Effect::Bind { name, expression, rest } => {
            proof {
                assert(decreases_to!(*effect => (*effect)->Bind_expression));
                assert(decreases_to!(*effect => (*effect)->Bind_rest));
            }
            let f = convert_expression(imported, expression);
            let value = Expression::Call { function: Box::new(f), arguments: Vec::new() };
            proof {
                assert(runs(**expression, value));
            }
            let rest = convert_effect(imported, parent, rest);
            let r = Block::ConstAssignment { ident: ident_from_name(name), value, rest: Box::new(rest) };
            proof {
                assert(effect_block(*effect, r));
            }
            r
        },
        ast::Effect::Expression { expression, rest } => {
            proof {
                assert(decreases_to!(*effect => (*effect)->Expression_expression));
            }
            let f = convert_expression(imported, expression);
            let ghost pe = **expression;
            let expression = Expression::Call { function: Box::new(f), arguments: Vec::new() };
            proof {
                assert(runs(pe, expression));
            }
            match rest {
                Some(rest) => {
                    proof {
                        assert(decreases_to!(*effect => (*effect)->Expression_rest));
                    }
                    let rest = convert_effect(imported, parent, rest);
                    Block::Expression { expression, rest: Box::new(rest) }
                },
                None => Block::Return(Some(expression)),
            }
        },
    }
}

/// The module statement that defines `ident` as `expression`: a function for an
/// arrow function, else a constant.
pub fn expression_to_module_statement(ident: Ident, expression: Expression) -> (r: ModuleStatement)
    ensures
        expression is ArrowFunction ==> r is Function,
        !(expression is ArrowFunction) ==> r == (ModuleStatement::ConstAssignment { ident, value: expression }),
{
    match expression {
        Expression::ArrowFunction { parameters, body } => {
            let body = match *body {
                ArrowFunctionBody::Expression(expression) => Block::Return(Some(expression)),
                ArrowFunctionBody::Block(block) => block,
            };
            ModuleStatement::Function { ident, parameters, body }
        },
        expression => ModuleStatement::ConstAssignment { ident, value: expression },
    }
}

/// A constructor of a module's type, with the types of its fields.
pub struct ModuleConstructor {
    pub fields: Vec<Type>,
}

/// `$0`, `$1`, ...: the parameters of a constructor function.
fn field_ident(i: usize) -> (r: Ident)
    ensures
        r.0@ == "$"@ + decimal(i as nat),
{
    let mut s = "$".to_owned();
    push_decimal(&mut s, i);
    Ident(s)
}

/// `$k`: the name of a constructor function's parameter.
pub open spec fn field_name(k: int) -> Seq<char> {
    "$"@ + decimal(k as nat)
}

/// Whether `statement` defines the constructor `name` with `n` fields: a
/// constant `["Nothing"]` without fields, else a function
/// `function Just($0) { return ["Just", $0]; }`.
pub open spec fn defines_constructor(statement: ModuleStatement, name: Seq<char>, n: nat) -> bool {
    if n == 0 {
        match statement {
            ModuleStatement::ConstAssignment { ident, value: Expression::Array(elements) } => {
                &&& ident.0@ == name
                &&& elements@.len() == 1
                &&& elements@[0] matches Expression::String(tag) && tag@ == name
            },
            _ => false,
        }
    } else {
        match statement {
            ModuleStatement::Function { ident, parameters, body: Block::Return(Some(Expression::Array(elements))) } => {
                &&& ident.0@ == name
                &&& parameters@.len() == n
                &&& forall|k: int| 0 <= k < n ==> (#[trigger] parameters@[k]).0@ == field_name(k)
                &&& elements@.len() == n + 1
                &&& elements@[0] matches Expression::String(tag) && tag@ == name
                &&& forall|k: int|
                    0 <= k < n ==> (#[trigger] elements@[k + 1] matches Expression::Variable(v) && v.0@ == field_name(k))
            },
            _ => false,
        }
    }
}

/// `statement` defines one of the constructors.
pub open spec fn defines_one_of(statement: ModuleStatement, constructors: Seq<(ProperName, ModuleConstructor)>) -> bool {
    exists|j: int|
        0 <= j < constructors.len() && #[trigger] defines_constructor(
            statement,
            constructors[j].0@,
            constructors[j].1.fields@.len(),
        )
}

/// The constructor `name` with `n` fields is defined by one of the statements.
pub open spec fn defined_by_one_of(statements: Seq<ModuleStatement>, name: Seq<char>, n: nat) -> bool {
    exists|i: int| 0 <= i < statements.len() && #[trigger] defines_constructor(statements[i], name, n)
}

fn constructor_statement(name: &ProperName, fields: &Vec<Type>) -> (r: ModuleStatement)
    ensures
        defines_constructor(r, name@, fields@.len()),
{
    if fields.len() == 0 {
        let mut elements: Vec<Expression> = Vec::new();
        elements.push(Expression::String(copy_string(&name.0)));
        ModuleStatement::ConstAssignment { ident: ident_from_proper_name(name), value: Expression::Array(elements) }
    } else {
        let mut parameters: Vec<Ident> = Vec::new();
        let mut elements: Vec<Expression> = Vec::new();
        elements.push(Expression::String(copy_string(&name.0)));
        let mut k: usize = 0;
        while k < fields.len()
            invariant
                k <= fields@.len(),
                parameters@.len() == k,
                elements@.len() == k + 1,
                elements@[0] matches Expression::String(tag) && tag@ == name@,
                forall|j: int| 0 <= j < k ==> (#[trigger] parameters@[j]).0@ == field_name(j),
                forall|j: int|
                    0 <= j < k ==> (#[trigger] elements@[j + 1] matches Expression::Variable(v) && v.0@ == field_name(j)),
            decreases fields@.len() - k,
        {
            parameters.push(field_ident(k));
            elements.push(Expression::Variable(field_ident(k)));
            proof {
                assert(elements@[k + 1] == Expression::Variable(elements@[k + 1]->Variable_0));
            }
            k = k + 1;
        }
        ModuleStatement::Function {
            ident: ident_from_proper_name(name),
            parameters,
            body: Block::Return(Some(Expression::Array(elements))),
        }
    }
}

/// The statements that define a module's constructors, sorted by name: one
/// for each constructor, as [defines_constructor] describes it.
pub fn convert_module_constructors(constructors: &Vec<(ProperName, ModuleConstructor)>) -> (r: Vec<ModuleStatement>)
    ensures
        r@.len() == constructors@.len(),
        crate::text::sorted_by_text(false, r@),
        forall|i: int| 0 <= i < r@.len() ==> defines_one_of(#[trigger] r@[i], constructors@),
        forall|j: int|
            0 <= j < constructors@.len() ==> defined_by_one_of(
                r@,
                (#[trigger] constructors@[j]).0@,
                constructors@[j].1.fields@.len(),
            ),
{
    let mut statements: Vec<ModuleStatement> = Vec::new();
    let mut i: usize = 0;
    while i < constructors.len()
        invariant
            i <= constructors@.len(),
            statements@.len() == i,
            forall|j: int|
                0 <= j < i ==> defines_constructor(
                    #[trigger] statements@[j],
                    constructors@[j].0@,
                    constructors@[j].1.fields@.len(),
                ),
        decreases constructors@.len() - i,
    {
        statements.push(constructor_statement(&constructors[i].0, &constructors[i].1.fields));
        i = i + 1;
    }
    let ghost unsorted = statements@;
    // Sort by name, for determinism.
    crate::text::sort_by_text(false, &mut statements);
    proof {
        let ghost sorted = statements@;
        let ghost cs = constructors@;
        assert forall|i: int| 0 <= i < sorted.len() implies defines_one_of(#[trigger] sorted[i], cs) by {
            vstd::seq_lib::to_multiset_contains(sorted, sorted[i]);
            vstd::seq_lib::to_multiset_contains(unsorted, sorted[i]);
            assert(sorted.contains(sorted[i]));
            let j = choose|j: int| 0 <= j < unsorted.len() && unsorted[j] == sorted[i];
            assert(defines_constructor(unsorted[j], cs[j].0@, cs[j].1.fields@.len()));
        }
        assert forall|j: int| 0 <= j < cs.len() implies defined_by_one_of(
            sorted,
            (#[trigger] cs[j]).0@,
            cs[j].1.fields@.len(),
        ) by {
            assert(defines_constructor(unsorted[j], cs[j].0@, cs[j].1.fields@.len()));
            vstd::seq_lib::to_multiset_contains(unsorted, unsorted[j]);
            vstd::seq_lib::to_multiset_contains(sorted, unsorted[j]);
            assert(unsorted.contains(unsorted[j]));
            let i = choose|i: int| 0 <= i < sorted.len() && sorted[i] == unsorted[j];
            assert(defines_constructor(sorted[i], cs[j].0@, cs[j].1.fields@.len()));
        }
    }
    statements
}

/// The texts of a module's exports: each exported value's identifier, then
/// each exported constructor's name.
pub open spec fn export_texts(values: Seq<Name>, constructors: Seq<ProperName>) -> Seq<Seq<char>> {
    values.map_values(|n: Name| mangled(n@)) + constructors.map_values(|c: ProperName| c@)
}

/// One of the identifiers is `text`.
pub open spec fn has_ident(idents: Seq<Ident>, text: Seq<char>) -> bool {
    exists|i: int| 0 <= i < idents.len() && #[trigger] idents[i].0@ == text
}

/// A module to generate JavaScript for.
pub struct ModuleInput {
    /// The module's constructors.
    pub constructors: Vec<(ProperName, ModuleConstructor)>,
    /// The module's values, in dependency order.
    pub values_toposorted: Vec<Scc<(Name, ast::Expression)>>,
    /// The names of the exported values.
    pub exported_values: Vec<Name>,
    /// The names of the exported constructors.
    pub exported_constructors: Vec<ProperName>,
}

/// What [convert_module] guarantees of the module `m` that it makes of
/// `input`: the constructors' statements first, sorted by name, one for each
/// constructor; the imports sorted by path; the exports sorted, one for each
/// exported value and constructor.
pub open spec fn converted_module(m: Module, input: ModuleInput) -> bool {
    let nc = input.constructors@.len();
    let texts = export_texts(input.exported_values@, input.exported_constructors@);
    &&& m.statements@.len() >= nc
    &&& crate::text::sorted_by_text(false, m.statements@.take(nc as int))
    &&& forall|i: int| 0 <= i < nc ==> defines_one_of(#[trigger] m.statements@[i], input.constructors@)
    &&& forall|j: int|
        0 <= j < nc ==> defined_by_one_of(
            m.statements@.take(nc as int),
            (#[trigger] input.constructors@[j]).0@,
            input.constructors@[j].1.fields@.len(),
        )
    &&& crate::text::sorted_by_text(false, m.imports@)
    &&& crate::text::sorted_by_text(false, m.exports@)
    &&& m.exports@.len() == texts.len()
    &&& forall|i: int| 0 <= i < m.exports@.len() ==> texts.contains((#[trigger] m.exports@[i]).0@)
    &&& forall|k: int| 0 <= k < texts.len() ==> has_ident(m.exports@, #[trigger] texts[k])
}

/// The JavaScript module of a typed module. Imports are sorted by path and
/// their names by name; exports are sorted by name.
pub fn convert_module<F: Fn(&FullyQualifiedModuleName) -> String>(
    module_name_to_path: F,
    foreign_module_path: &String,
    module: &ModuleInput,
) -> (r: Module)
    requires
        forall|m: &FullyQualifiedModuleName| call_requires(module_name_to_path, (m,)),
    ensures
        converted_module(r, *module),
{
    let mut statements = convert_module_constructors(&module.constructors);
    let ghost constructor_statements = statements@;
    let ghost nc = statements@.len();
    let mut imported: ImportedModuleIdents = Vec::new();
    let mut i: usize = 0;
    while i < module.values_toposorted.len()
        invariant
            i <= module.values_toposorted@.len(),
            nc == module.constructors@.len(),
            statements@.len() >= nc,
            statements@.take(nc as int) == constructor_statements,
        decreases module.values_toposorted@.len() - i,
    {
        match &module.values_toposorted[i] {
            Scc::Cyclic(cyclic_values) => {
                let mut converted: Vec<(Ident, Expression)> = Vec::new();
                let mut all_values_are_functions = true;
                let mut k: usize = 0;
                while k < cyclic_values.len()
                    invariant
                        k <= cyclic_values@.len(),
                    decreases cyclic_values@.len() - k,
                {
                    let js = convert_expression(&mut imported, &cyclic_values[k].1);
                    match &js {
                        Expression::ArrowFunction { .. } => {},
                        _ => {
                            all_values_are_functions = false;
                        },
                    }
                    converted.push((ident_from_name(&cyclic_values[k].0), js));
                    k = k + 1;
                }
                if all_values_are_functions {
                    while converted.len() > 0
                        invariant
                            statements@.len() >= nc,
                            statements@.take(nc as int) == constructor_statements,
                        decreases converted@.len(),
                    {
                        let (ident, expression) = converted.remove(0);
                        statements.push(expression_to_module_statement(ident, expression));
                    }
                } else {
                    // let a; let b; a = ...; b = ...;
                    let mut assignments: Vec<ModuleStatement> = Vec::new();
                    while converted.len() > 0
                        invariant
                            statements@.len() >= nc,
                            statements@.take(nc as int) == constructor_statements,
                        decreases converted@.len(),
                    {
                        let (ident, value) = converted.remove(0);
                        statements.push(ModuleStatement::LetDeclaration { ident: ident.copy() });
                        assignments.push(ModuleStatement::Assignment { ident, value });
                    }
                    statements.append(&mut assignments);
                }
            },
            Scc::Acyclic((name, expression)) => {
                let ident = ident_from_name(name);
                let expression = convert_expression(&mut imported, expression);
                statements.push(expression_to_module_statement(ident, expression));
            },
        }
        i = i + 1;
    }
    let mut imports: Vec<ImportStatement> = Vec::new();
    while imported.len() > 0
        invariant
            forall|m: &FullyQualifiedModuleName| call_requires(module_name_to_path, (m,)),
        decreases imported@.len(),
    {
        let (imported_module, idents) = imported.remove(0);
        let mut idents = idents;
        crate::text::sort_by_text(false, &mut idents);
        let path = match &imported_module {
            ImportedModule::Module(module_name) => module_name_to_path(module_name),
            ImportedModule::ForeignModule => copy_string(foreign_module_path),
        };
        imports.push(ImportStatement { path, idents });
    }
    // Sort import lines by path.
    crate::text::sort_by_text(false, &mut imports);
    let ghost texts = export_texts(module.exported_values@, module.exported_constructors@);
    let ghost nv = module.exported_values@.len();
    let mut exports: Vec<Ident> = Vec::new();
    let mut k: usize = 0;
    while k < module.exported_values.len()
        invariant
            k <= module.exported_values@.len(),
            nv == module.exported_values@.len(),
            texts == export_texts(module.exported_values@, module.exported_constructors@),
            exports@.len() == k,
            forall|j: int| 0 <= j < k ==> (#[trigger] exports@[j]).0@ == texts[j],
        decreases module.exported_values@.len() - k,
    {
        exports.push(ident_from_name(&module.exported_values[k]));
        k = k + 1;
    }
    let mut k: usize = 0;
    while k < module.exported_constructors.len()
        invariant
            k <= module.exported_constructors@.len(),
            nv == module.exported_values@.len(),
            texts == export_texts(module.exported_values@, module.exported_constructors@),
            exports@.len() == nv + k,
            forall|j: int| 0 <= j < nv + k ==> (#[trigger] exports@[j]).0@ == texts[j],
        decreases module.exported_constructors@.len() - k,
    {
        exports.push(ident_from_proper_name(&module.exported_constructors[k]));
        k = k + 1;
    }
    let ghost unsorted = exports@;
    crate::text::sort_by_text(false, &mut exports);
    proof {
        let ghost sorted = exports@;
        assert forall|i: int| 0 <= i < sorted.len() implies texts.contains((#[trigger] sorted[i]).0@) by {
            vstd::seq_lib::to_multiset_contains(sorted, sorted[i]);
            vstd::seq_lib::to_multiset_contains(unsorted, sorted[i]);
            assert(sorted.contains(sorted[i]));
            let j = choose|j: int| 0 <= j < unsorted.len() && unsorted[j] == sorted[i];
            assert(texts[j] == sorted[i].0@);
        }
        assert forall|k: int| 0 <= k < texts.len() implies has_ident(sorted, #[trigger] texts[k]) by {
            vstd::seq_lib::to_multiset_contains(unsorted, unsorted[k]);
            vstd::seq_lib::to_multiset_contains(sorted, unsorted[k]);
            assert(unsorted.contains(unsorted[k]));
            let i = choose|i: int| 0 <= i < sorted.len() && sorted[i] == unsorted[k];
            assert(sorted[i].0@ == texts[k]);
        }
        assert(statements@.take(nc as int) == constructor_statements);
        assert forall|i: int| 0 <= i < nc implies defines_one_of(#[trigger] statements@[i], module.constructors@) by {
            assert(statements@[i] == constructor_statements[i]);
        }
    }
    Module { imports, statements, exports }
}

/// The JavaScript text of a typed module: the module that [convert_module]
/// makes, rendered.
pub fn codegen<F: Fn(&FullyQualifiedModuleName) -> String>(
    module_name_to_path: F,
    foreign_module_path: &String,
    module: &ModuleInput,
) -> (r: String)
    requires
        forall|m: &FullyQualifiedModuleName| call_requires(module_name_to_path, (m,)),
    ensures
        exists|m: Module| converted_module(m, *module) && r@ == crate::js_render::module_text(m),
{
    let m = convert_module(module_name_to_path, foreign_module_path, module);
    crate::js_render::render_module(&m)
}

proof fn lemma_reserved_words_start_with_letters()
    ensures
        forall|i: int| 0 <= i < js_reserved().len() ==> js_reserved()[i].len() > 0 && js_reserved()[i][0] != '$',
{
    reveal_strlit("break");
    reveal_strlit("case");
    reveal_strlit("catch");
    reveal_strlit("class");
    reveal_strlit("const");
    reveal_strlit("continue");
    reveal_strlit("debugger");
    reveal_strlit("default");
    reveal_strlit("delete");
    reveal_strlit("do");
    reveal_strlit("else");
    reveal_strlit("export");
    reveal_strlit("extends");
    reveal_strlit("finally");
    reveal_strlit("for");
    reveal_strlit("function");
    reveal_strlit("if");
    reveal_strlit("import");
    reveal_strlit("in");
    reveal_strlit("instanceof");
    reveal_strlit("new");
    reveal_strlit("return");
    reveal_strlit("super");
    reveal_strlit("switch");
    reveal_strlit("this");
    reveal_strlit("throw");
    reveal_strlit("try");
    reveal_strlit("typeof");
    reveal_strlit("var");
    reveal_strlit("void");
    reveal_strlit("while");
    reveal_strlit("with");
    reveal_strlit("yield");
}

/// A mangled name is never a word that JavaScript reserves.
pub proof fn mangled_names_are_not_reserved(s: Seq<char>)
    ensures
        !js_reserved().contains(mangled(s)),
{
    lemma_reserved_words_start_with_letters();
    if js_reserved().contains(s) {
        reveal_strlit("$");
        let m = mangled(s);
        assert(m[0] == '$');
        if js_reserved().contains(m) {
            let k = choose|k: int| 0 <= k < js_reserved().len() && js_reserved()[k] == m;
            assert(js_reserved()[k][0] != '$');
        }
    }
}

} // verus!
