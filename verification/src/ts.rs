//! TypeScript declarations of a module's exports: the types of what a
//! compiled JavaScript module exports, as TypeScript can check them.
use crate::js_ast::Ident;
use crate::js_convert::{hyphens_to_underscores, ident_from_name, ident_from_proper_name, mangled};
use crate::names::{FullyQualifiedModuleName, ModuleName, Name, ProperName};
use crate::text::{decimal, push_char, push_decimal, push_str, TextKey};
use crate::types::{Kind, KindV, PrimType, Type, TypeV};
use vstd::prelude::*;
use vstd::string::*;

verus! {

/// A TypeScript type.
pub enum TsType {
    /// `"Just"`
    StringLiteral(String),
    /// `number`
    Ident(Ident),
    /// `Array<number>`
    Apply { applied_type: Ident, arguments: Vec<TsType> },
    /// `($0: number) => string`
    Function { parameters: Vec<(Ident, TsType)>, return_type: Box<TsType> },
    /// `["Just", number]`
    Tuple(Vec<TsType>),
}

/// The text of a TypeScript type.
pub open spec fn ts_text(t: TsType) -> Seq<char>
    decreases t, 1nat,
{
    match t {
        TsType::StringLiteral(s) => "\""@ + s@ + "\""@,
        TsType::Tuple(types) => "["@ + ts_list_text(types@, types@.len()) + "]"@,
        TsType::Ident(ident) => ident.0@,
        TsType::Apply { applied_type, arguments } => applied_type.0@ + "<"@ + ts_list_text(
            arguments@,
            arguments@.len(),
        ) + ">"@,
        TsType::Function { parameters, return_type } => "("@ + ts_params_text(parameters@, parameters@.len())
            + ") => "@ + ts_text(*return_type),
    }
}

/// The first `n` types, separated by commas.
pub open spec fn ts_list_text(ts: Seq<TsType>, n: nat) -> Seq<char>
    decreases ts, n,
{
    if n == 0 || n > ts.len() {
        Seq::empty()
    } else if n == 1 {
        ts_text(ts[0])
    } else {
        ts_list_text(ts, (n - 1) as nat) + ", "@ + ts_text(ts[n - 1])
    }
}

/// The first `n` parameters, each `name: type`, separated by commas.
pub open spec fn ts_params_text(ps: Seq<(Ident, TsType)>, n: nat) -> Seq<char>
    decreases ps, n,
{
    if n == 0 || n > ps.len() {
        Seq::empty()
    } else if n == 1 {
        ps[0].0.0@ + ": "@ + ts_text(ps[0].1)
    } else {
        ts_params_text(ps, (n - 1) as nat) + ", "@ + ps[n - 1].0.0@ + ": "@ + ts_text(ps[n - 1].1)
    }
}

/// A function type: `(params) => ret` as a type, `(params): ret` in a
/// function's declaration.
pub open spec fn ts_function_text(ps: Seq<(Ident, TsType)>, ret: TsType, arrow: bool) -> Seq<char> {
    "("@ + ts_params_text(ps, ps.len()) + (if arrow {
        ") => "@
    } else {
        "): "@
    }) + ts_text(ret)
}

/// Appends the text of a type.
pub fn render_ts_type(t: &TsType, accum: &mut String)
    ensures
        final(accum)@ == old(accum)@ + ts_text(*t),
    decreases t, 3nat,
{
    match t {
        TsType::StringLiteral(s) => {
            push_str(accum, "\"");
            push_str(accum, s.as_str());
            push_str(accum, "\"");
        },
        TsType::Tuple(types) => {
            push_str(accum, "[");
            render_ts_list(t, types, accum);
            push_str(accum, "]");
        },
        TsType::Ident(ident) => {
            push_str(accum, ident.0.as_str());
        },
        TsType::Apply { applied_type, arguments } => {
            push_str(accum, applied_type.0.as_str());
            push_str(accum, "<");
            render_ts_list(t, arguments, accum);
            push_str(accum, ">");
        },
        TsType::Function { parameters, return_type } => {
            proof {
                assert(decreases_to!(*t => (*t)->Function_parameters));
                assert(decreases_to!(*t => (*t)->Function_return_type));
            }
            render_function_type(t, parameters, return_type, accum, true);
        },
    }
}

fn render_ts_list(parent: &TsType, ts: &Vec<TsType>, accum: &mut String)
    requires
        decreases_to!(*parent => *ts),
    ensures
        final(accum)@ == old(accum)@ + ts_list_text(ts@, ts@.len()),
    decreases parent, 2nat,
{
    let ghost start = accum@;
    let mut i: usize = 0;
    while i < ts.len()
        invariant
            decreases_to!(*parent => *ts),
            i <= ts@.len(),
            accum@ == start + ts_list_text(ts@, i as nat),
        decreases ts@.len() - i,
    {
        proof {
            assert(decreases_to!(*ts => ts@));
            assert(decreases_to!(ts@ => ts@[i as int]));
        }
        if i > 0 {
            push_str(accum, ", ");
        }
        render_ts_type(&ts[i], accum);
        proof {
            assert(accum@ =~= start + ts_list_text(ts@, (i + 1) as nat));
        }
        i = i + 1;
    }
}

/// Appends a function type: `(params) => ret` where `arrow_return_type`,
/// else `(params): ret`.
fn render_function_type(
    parent: &TsType,
    parameters: &Vec<(Ident, TsType)>,
    return_type: &TsType,
    accum: &mut String,
    arrow_return_type: bool,
)
    requires
        decreases_to!(*parent => *parameters),
        decreases_to!(*parent => *return_type),
    ensures
        final(accum)@ == old(accum)@ + ts_function_text(parameters@, *return_type, arrow_return_type),
    decreases parent, 1nat,
{
    let ghost start = accum@;
    push_str(accum, "(");
    let mut i: usize = 0;
    while i < parameters.len()
        invariant
            decreases_to!(*parent => *parameters),
            i <= parameters@.len(),
            accum@ == start + "("@ + ts_params_text(parameters@, i as nat),
        decreases parameters@.len() - i,
    {
        proof {
            assert(decreases_to!(*parameters => parameters@));
            assert(decreases_to!(parameters@ => parameters@[i as int]));
            assert(decreases_to!(parameters@[i as int] => parameters@[i as int].1));
        }
        if i > 0 {
            push_str(accum, ", ");
        }
        push_str(accum, parameters[i].0.0.as_str());
        push_str(accum, ": ");
        render_ts_type(&parameters[i].1, accum);
        proof {
            assert(accum@ =~= start + "("@ + ts_params_text(parameters@, (i + 1) as nat));
        }
        i = i + 1;
    }
    if arrow_return_type {
        push_str(accum, ") => ");
    } else {
        push_str(accum, "): ");
    }
    render_ts_type(return_type, accum);
    proof {
        assert(accum@ =~= start + ts_function_text(parameters@, *return_type, arrow_return_type));
    }
}

/// What a type variable becomes in a declaration: a generic parameter `T0`,
/// `T1`, ..., or `never` where the declaration can have no parameters.
#[derive(Clone, Copy, PartialEq, Eq, Structural)]
pub enum VariableMode {
    Generic,
    Never,
}

/// The text of type variable `var`.
pub open spec fn variable_text(mode: VariableMode, var: usize) -> Seq<char> {
    match mode {
        VariableMode::Generic => "T"@ + decimal(var as nat),
        VariableMode::Never => "never"@,
    }
}

/// `T` and the number of a type variable: a generic parameter.
pub fn mk_type_variable_ident(i: usize) -> (r: Ident)
    ensures
        r.0@ == variable_text(VariableMode::Generic, i),
{
    let mut s = "T".to_owned();
    push_decimal(&mut s, i);
    Ident(s)
}

/// The module names joined by `$`.
pub open spec fn joined_names(names: Seq<Seq<char>>, n: nat) -> Seq<char>
    decreases n,
{
    if n == 0 || n > names.len() {
        Seq::empty()
    } else if n == 1 {
        names[0]
    } else {
        joined_names(names, (n - 1) as nat) + "$"@ + names[n - 1]
    }
}

/// The identifier that a module is imported as: its names joined by `$`,
/// after its package with hyphens as underscores.
pub open spec fn module_ident(m: (Option<Seq<char>>, Seq<Seq<char>>)) -> Seq<char> {
    match m.0 {
        Some(p) => hyphens_to_underscores(p) + "$"@ + joined_names(m.1, m.1.len()),
        None => joined_names(m.1, m.1.len()),
    }
}

/// The identifier that a module is imported as.
pub fn module_name_to_ident(module_name: &FullyQualifiedModuleName) -> (r: Ident)
    ensures
        r.0@ == module_ident(module_name@),
{
    let mut s = String::new();
    match &module_name.package_name {
        Some(package_name) => {
            let p = package_name.0.as_str();
            let n = p.unicode_len();
            let mut i: usize = 0;
            while i < n
                invariant
                    n == p@.len(),
                    i <= n,
                    s@ == hyphens_to_underscores(p@.subrange(0, i as int)),
                decreases n - i,
            {
                let c = p.get_char(i);
                if c == '-' {
                    push_char(&mut s, '_');
                } else {
                    push_char(&mut s, c);
                }
                proof {
                    assert(s@ =~= hyphens_to_underscores(p@.subrange(0, i + 1)));
                }
                i = i + 1;
            }
            proof {
                assert(p@.subrange(0, n as int) =~= p@);
            }
            push_str(&mut s, "$");
        },
        None => {},
    }
    let ghost start = s@;
    let names = &module_name.module_name.0;
    let ghost nv = module_name@.1;
    let mut i: usize = 0;
    while i < names.len()
        invariant
            nv == module_name@.1,
            nv.len() == names@.len(),
            forall|k: int| 0 <= k < names@.len() ==> #[trigger] nv[k] == names@[k]@,
            i <= names@.len(),
            s@ == start + joined_names(nv, i as nat),
        decreases names@.len() - i,
    {
        if i > 0 {
            push_str(&mut s, "$");
        }
        push_str(&mut s, names[i].0.as_str());
        proof {
            assert(s@ =~= start + joined_names(nv, (i + 1) as nat));
        }
        i = i + 1;
    }
    proof {
        assert(s@ =~= module_ident(module_name@));
    }
    Ident(s)
}

/// A type applied to arguments whose head TypeScript cannot name: a type
/// variable (TypeScript has no higher kinds) or an effect.
pub open spec fn head_is_any(f: TypeV) -> bool {
    f is Variable || f == TypeV::PrimConstructor(PrimType::Effect)
}

/// The TypeScript name of a primitive type. An array without arguments has
/// none where a type of kind `Type` is needed.
pub open spec fn prim_text(p: PrimType, need_kind_type: bool) -> Seq<char> {
    match p {
        PrimType::String => "string"@,
        PrimType::Float => "number"@,
        PrimType::Int => "number"@,
        PrimType::Array => if need_kind_type {
            "any"@
        } else {
            "Array"@
        },
        PrimType::Bool => "boolean"@,
        PrimType::Unit => "undefined"@,
        PrimType::Effect => "any"@,
    }
}

/// Whether a type constructor is declared in the current module.
pub open spec fn is_local(canonical: crate::types::FQProperNameV, current: Seq<Seq<char>>) -> bool {
    canonical.0.0 is None && canonical.0.1 == current
}

/// The TypeScript text of a ditto type, in the module `current`; records,
/// type aliases and effects, which have no counterpart here, are `any`.
pub open spec fn conv_text(t: TypeV, current: Seq<Seq<char>>, mode: VariableMode, need_kind_type: bool) -> Seq<char>
    decreases t, 1nat,
{
    match t {
        TypeV::PrimConstructor(p) => prim_text(p, need_kind_type),
        TypeV::Variable { variable_kind, var, .. } => match variable_kind {
            KindV::Type => variable_text(mode, var),
            KindV::Variable(_) => variable_text(mode, var),
            _ => "any"@,
        },
        TypeV::Constructor { constructor_kind, canonical_value, .. } => if need_kind_type && constructor_kind
            != KindV::Type {
            "any"@
        } else if is_local(canonical_value, current) {
            canonical_value.1
        } else {
            module_ident(canonical_value.0) + "."@ + canonical_value.1
        },
        TypeV::Call { function, arguments } => if head_is_any(*function) {
            "any"@
        } else {
            conv_text(*function, current, mode, false) + "<"@ + conv_list(arguments, arguments.len(), current, mode)
                + ">"@
        },
        TypeV::Function { parameters, return_type } => "("@ + conv_params(parameters, parameters.len(), current, mode)
            + ") => "@ + conv_text(*return_type, current, mode, true),
        _ => "any"@,
    }
}

/// The first `n` types converted, separated by commas.
pub open spec fn conv_list(ts: Seq<TypeV>, n: nat, current: Seq<Seq<char>>, mode: VariableMode) -> Seq<char>
    decreases ts, n,
{
    if n == 0 || n > ts.len() {
        Seq::empty()
    } else if n == 1 {
        conv_text(ts[0], current, mode, true)
    } else {
        conv_list(ts, (n - 1) as nat, current, mode) + ", "@ + conv_text(ts[n - 1], current, mode, true)
    }
}

/// The first `n` parameter types converted, as `$i: type`, separated by commas.
pub open spec fn conv_params(ts: Seq<TypeV>, n: nat, current: Seq<Seq<char>>, mode: VariableMode) -> Seq<char>
    decreases ts, n,
{
    if n == 0 || n > ts.len() {
        Seq::empty()
    } else if n == 1 {
        "$0: "@ + conv_text(ts[0], current, mode, true)
    } else {
        conv_params(ts, (n - 1) as nat, current, mode) + ", "@ + "$"@ + decimal((n - 1) as nat) + ": "@ + conv_text(
            ts[n - 1],
            current,
            mode,
            true,
        )
    }
}

/// Whether every applied type can be written: TypeScript applies only named
/// types, so the head of an application is named, or is one that TypeScript
/// cannot name at all.
pub open spec fn convertible(t: TypeV) -> bool
    decreases t,
{
    match t {
        TypeV::Call { function, arguments } => head_is_any(*function) || (!(*function is Call) && !(
        *function is Function) && convertible(*function) && forall|i: int|
            0 <= i < arguments.len() ==> convertible(#[trigger] arguments[i])),
        TypeV::Function { parameters, return_type } => convertible(*return_type) && forall|i: int|
            0 <= i < parameters.len() ==> convertible(#[trigger] parameters[i]),
        _ => true,
    }
}

/// The modules other than `current` whose types `t` names.
pub open spec fn referenced(t: TypeV, current: Seq<Seq<char>>, need_kind_type: bool) -> Set<
    (Option<Seq<char>>, Seq<Seq<char>>),
>
    decreases t, 1nat,
{
    match t {
        TypeV::Constructor { constructor_kind, canonical_value, .. } => if (need_kind_type && constructor_kind
            != KindV::Type) || is_local(canonical_value, current) {
            Set::empty()
        } else {
            set![canonical_value.0]
        },
        TypeV::Call { function, arguments } => if head_is_any(*function) {
            Set::empty()
        } else {
            referenced(*function, current, false) + referenced_all(arguments, arguments.len(), current)
        },
        TypeV::Function { parameters, return_type } => referenced_all(parameters, parameters.len(), current)
            + referenced(*return_type, current, true),
        _ => Set::empty(),
    }
}

/// The modules that the first `n` types name.
pub open spec fn referenced_all(ts: Seq<TypeV>, n: nat, current: Seq<Seq<char>>) -> Set<
    (Option<Seq<char>>, Seq<Seq<char>>),
>
    decreases ts, n,
{
    if n == 0 || n > ts.len() {
        Set::empty()
    } else {
        referenced_all(ts, (n - 1) as nat, current) + referenced(ts[n - 1], current, true)
    }
}

/// The type variables of `t` that become generic parameters.
pub open spec fn generic_vars(t: TypeV) -> Set<usize>
    decreases t, 1nat,
{
    match t {
        TypeV::Variable { variable_kind, var, .. } => match variable_kind {
            KindV::Type => set![var],
            KindV::Variable(_) => set![var],
            _ => Set::empty(),
        },
        TypeV::Call { function, arguments } => if head_is_any(*function) {
            Set::empty()
        } else {
            generic_vars(*function) + generic_vars_all(arguments, arguments.len())
        },
        TypeV::Function { parameters, return_type } => generic_vars_all(parameters, parameters.len()) + generic_vars(
            *return_type,
        ),
        _ => Set::empty(),
    }
}

/// The type variables of the first `n` types that become generic parameters.
pub open spec fn generic_vars_all(ts: Seq<TypeV>, n: nat) -> Set<usize>
    decreases ts, n,
{
    if n == 0 || n > ts.len() {
        Set::empty()
    } else {
        generic_vars_all(ts, (n - 1) as nat) + generic_vars(ts[n - 1])
    }
}

/// The module names that a list holds.
pub open spec fn module_set(v: Seq<FullyQualifiedModuleName>) -> Set<(Option<Seq<char>>, Seq<Seq<char>>)> {
    Set::new(|m: (Option<Seq<char>>, Seq<Seq<char>>)| exists|i: int| 0 <= i < v.len() && #[trigger] v[i]@ == m)
}

/// No module occurs twice in the list.
pub open spec fn modules_unique(v: Seq<FullyQualifiedModuleName>) -> bool {
    forall|i: int, j: int| 0 <= i < j < v.len() ==> (#[trigger] v[i])@ != (#[trigger] v[j])@
}

/// `a` is `b` with possibly more modules added at the end.
pub open spec fn modules_extend(b: Seq<FullyQualifiedModuleName>, a: Seq<FullyQualifiedModuleName>) -> bool {
    &&& a.len() >= b.len()
    &&& forall|k: int| 0 <= k < b.len() ==> #[trigger] a[k] == b[k]
}

fn add_module(v: &mut Vec<FullyQualifiedModuleName>, m: &FullyQualifiedModuleName)
    ensures
        module_set(final(v)@) == module_set(old(v)@).insert(m@),
        modules_extend(old(v)@, final(v)@),
        modules_unique(old(v)@) ==> modules_unique(final(v)@),
{
    let ghost before = v@;
    let mut i: usize = 0;
    while i < v.len()
        invariant
            v@ == before,
            i <= v@.len(),
            forall|j: int| 0 <= j < i ==> v@[j]@ != m@,
        decreases v@.len() - i,
    {
        if v[i].eq(m) {
            proof {
                assert(module_set(v@) =~= module_set(before).insert(m@));
            }
            return;
        }
        i = i + 1;
    }
    v.push(m.copy());
    proof {
        assert forall|x: (Option<Seq<char>>, Seq<Seq<char>>)| module_set(v@).contains(x) <==> module_set(
            before,
        ).insert(m@).contains(x) by {
            if module_set(v@).contains(x) && x != m@ {
                let k = choose|k: int| 0 <= k < v@.len() && #[trigger] v@[k]@ == x;
                assert(before[k]@ == x);
            }
            if module_set(before).contains(x) {
                let k = choose|k: int| 0 <= k < before.len() && #[trigger] before[k]@ == x;
                assert(v@[k]@ == x);
            }
            if x == m@ {
                assert(v@[before.len() as int]@ == x);
            }
        }
        assert(module_set(v@) =~= module_set(before).insert(m@));
    }
}

fn add_var(v: &mut Vec<usize>, x: usize)
    ensures
        final(v)@.to_set() == old(v)@.to_set().insert(x),
{
    let ghost before = v@;
    let mut i: usize = 0;
    while i < v.len()
        invariant
            v@ == before,
            i <= v@.len(),
            forall|j: int| 0 <= j < i ==> v@[j] != x,
        decreases v@.len() - i,
    {
        if v[i] == x {
            proof {
                assert(v@.to_set() =~= before.to_set().insert(x));
            }
            return;
        }
        i = i + 1;
    }
    v.push(x);
    proof {
        assert forall|y: usize| v@.to_set().contains(y) <==> before.to_set().insert(x).contains(y) by {
            if v@.contains(y) && y != x {
                let k = choose|k: int| 0 <= k < v@.len() && v@[k] == y;
                assert(before[k] == y);
            }
            if before.contains(y) {
                let k = choose|k: int| 0 <= k < before.len() && before[k] == y;
                assert(v@[k] == y);
            }
            if y == x {
                assert(v@[before.len() as int] == y);
            }
        }
        assert(v@.to_set() =~= before.to_set().insert(x));
    }
}

/// Converts a ditto type to TypeScript, in the module `current_module_name`,
/// where a type of kind `Type` is needed; with it, the other modules whose
/// types it names and the variables that it holds.
pub fn convert_type(ast_type: &Type, current_module_name: &ModuleName, mode: VariableMode) -> (r: (
    TsType,
    Vec<FullyQualifiedModuleName>,
    Vec<usize>,
))
    requires
        convertible(ast_type@),
    ensures
        ts_text(r.0) == conv_text(ast_type@, current_module_name@, mode, true),
        module_set(r.1@) == referenced(ast_type@, current_module_name@, true),
        modules_unique(r.1@),
        r.2@.to_set() == generic_vars(ast_type@),
{
    let mut referenced_modules: Vec<FullyQualifiedModuleName> = Vec::new();
    let mut generics: Vec<usize> = Vec::new();
    proof {
        assert(module_set(referenced_modules@) =~= Set::empty());
        assert(generics@.to_set() =~= Set::empty());
    }
    let converted = convert_type_rec(ast_type, current_module_name, mode, &mut referenced_modules, &mut generics, true);
    proof {
        assert(module_set(referenced_modules@) =~= referenced(ast_type@, current_module_name@, true));
        assert(generics@.to_set() =~= generic_vars(ast_type@));
    }
    (converted, referenced_modules, generics)
}

/// Converts a ditto type to TypeScript, in the module `current_module_name`,
/// adding the other modules whose types it names to `referenced_modules` and
/// the variables that become generic parameters to `generics`.
pub fn convert_type_rec(
    ast_type: &Type,
    current_module_name: &ModuleName,
    mode: VariableMode,
    referenced_modules: &mut Vec<FullyQualifiedModuleName>,
    generics: &mut Vec<usize>,
    need_kind_type: bool,
) -> (r: TsType)
    requires
        convertible(ast_type@),
    ensures
        ts_text(r) == conv_text(ast_type@, current_module_name@, mode, need_kind_type),
        match ast_type@ {
            TypeV::Function { parameters, return_type } => match r {
                TsType::Function { parameters: ps, return_type: rt } => ts_params_text(ps@, ps@.len())
                    == conv_params(parameters, parameters.len(), current_module_name@, mode) && ts_text(*rt)
                    == conv_text(*return_type, current_module_name@, mode, true),
                _ => false,
            },
            TypeV::Call { function, .. } => head_is_any(*function) || r is Apply,
            _ => r is Ident,
        },
        module_set(final(referenced_modules)@) == module_set(old(referenced_modules)@) + referenced(
            ast_type@,
            current_module_name@,
            need_kind_type,
        ),
        modules_extend(old(referenced_modules)@, final(referenced_modules)@),
        modules_unique(old(referenced_modules)@) ==> modules_unique(final(referenced_modules)@),
        final(generics)@.to_set() == old(generics)@.to_set() + generic_vars(ast_type@),
    decreases ast_type,
{
    let ghost cur = current_module_name@;
    let ghost m0 = module_set(referenced_modules@);
    let ghost g0 = generics@.to_set();
    match ast_type {
        Type::PrimConstructor(p) => {
            let name = match p {
                PrimType::String => "string",
                PrimType::Float => "number",
                PrimType::Int => "number",
                PrimType::Array => if need_kind_type {
                    "any"
                } else {
                    "Array"
                },
                PrimType::Bool => "boolean",
                PrimType::Unit => "undefined",
                PrimType::Effect => "any",
            };
            proof {
                assert(m0 + Set::empty() =~= m0);
                assert(g0 + Set::empty() =~= g0);
            }
            TsType::Ident(Ident(name.to_owned()))
        },
        Type::Variable { variable_kind, var, .. } => {
            let is_generic = match variable_kind {
                Kind::Type => true,
                Kind::Variable(_) => true,
                _ => false,
            };
            proof {
                assert(m0 + Set::empty() =~= m0);
            }
            if is_generic {
                add_var(generics, *var);
                proof {
                    assert(g0.insert(*var) =~= g0 + set![*var]);
                }
                match mode {
                    VariableMode::Generic => TsType::Ident(mk_type_variable_ident(*var)),
                    VariableMode::Never => TsType::Ident(Ident("never".to_owned())),
                }
            } else {
                proof {
                    assert(g0 + Set::empty() =~= g0);
                }
                TsType::Ident(Ident("any".to_owned()))
            }
        },
        Type::Constructor { constructor_kind, canonical_value, .. } => {
            proof {
                assert(g0 + Set::empty() =~= g0);
            }
            let kind_is_type = match constructor_kind {
                Kind::Type => true,
                _ => false,
            };
            if need_kind_type && !kind_is_type {
                proof {
                    assert(m0 + Set::empty() =~= m0);
                }
                return TsType::Ident(Ident("any".to_owned()));
            }
            if canonical_value.module_name.package_name.is_none() && canonical_value.module_name.module_name.eq(
                current_module_name,
            ) {
                proof {
                    assert(m0 + Set::empty() =~= m0);
                }
                TsType::Ident(Ident(crate::names::copy_string(&canonical_value.value.0)))
            } else {
                add_module(referenced_modules, &canonical_value.module_name);
                proof {
                    assert(m0.insert(canonical_value.module_name@) =~= m0 + set![canonical_value.module_name@]);
                }
                let mut s = module_name_to_ident(&canonical_value.module_name).0;
                push_str(&mut s, ".");
                push_str(&mut s, canonical_value.value.0.as_str());
                TsType::Ident(Ident(s))
            }
        },
        Type::Call { function, arguments } => {
            let any_head = match &**function {
                Type::Variable { .. } => true,
                Type::PrimConstructor(PrimType::Effect) => true,
                _ => false,
            };
            proof {
                assert(ast_type@->Call_function == (**function)@);
                assert(any_head == head_is_any((**function)@));
            }
            if any_head {
                proof {
                    assert(m0 + Set::empty() =~= m0);
                    assert(g0 + Set::empty() =~= g0);
                }
                return TsType::Ident(Ident("any".to_owned()));
            }
            let converted = convert_type_rec(function, current_module_name, mode, referenced_modules, generics, false);
            let ghost m1 = module_set(referenced_modules@);
            let ghost g1 = generics@.to_set();
            let applied_type = match converted {
                TsType::Ident(ident) => ident,
                _ => {
                    proof {
                        assert(false);
                    }
                    Ident(String::new())
                },
            };
            let ghost av = ast_type@->Call_arguments;
            let mut out: Vec<TsType> = Vec::new();
            let mut i: usize = 0;
            while i < arguments.len()
                invariant
                    *ast_type == (Type::Call { function: *function, arguments: *arguments }),
                    av == ast_type@->Call_arguments,
                    av.len() == arguments@.len(),
                    forall|k: int| 0 <= k < av.len() ==> #[trigger] av[k] == arguments@[k]@,
                    forall|k: int| 0 <= k < av.len() ==> convertible(#[trigger] av[k]),
                    cur == current_module_name@,
                    i <= arguments@.len(),
                    out@.len() == i,
                    ts_list_text(out@, i as nat) == conv_list(av, i as nat, cur, mode),
                    module_set(referenced_modules@) == m1 + referenced_all(av, i as nat, cur),
                    generics@.to_set() == g1 + generic_vars_all(av, i as nat),
                    modules_extend(old(referenced_modules)@, referenced_modules@),
                    modules_unique(old(referenced_modules)@) ==> modules_unique(referenced_modules@),
                decreases arguments@.len() - i,
            {
                proof {
                    assert(decreases_to!(*ast_type => (*ast_type)->Call_arguments));
                    assert(decreases_to!(*arguments => arguments@));
                    assert(decreases_to!(arguments@ => arguments@[i as int]));
                }
                let ghost old_out = out@;
                proof {
                    assert(convertible(av[i as int]));
                    assert(av[i as int] == arguments@[i as int]@);
                }
                let t = convert_type_rec(&arguments[i], current_module_name, mode, referenced_modules, generics, true);
                out.push(t);
                proof {
                    assert(out@.take(i as int) =~= old_out);
                    assert(module_set(referenced_modules@) =~= m1 + referenced_all(av, (i + 1) as nat, cur));
                    assert(generics@.to_set() =~= g1 + generic_vars_all(av, (i + 1) as nat));
                    if i > 0 {
                        assert(ts_list_text(out@, (i + 1) as nat) == ts_list_text(out@, i as nat) + ", "@ + ts_text(
                            out@[i as int],
                        ));
                        assert(ts_list_text(out@, i as nat) == ts_list_text(out@.take(i as int), i as nat)) by {
                            lemma_ts_list_prefix(out@, i as nat);
                        }
                    }
                }
                i = i + 1;
            }
            proof {
                assert(module_set(referenced_modules@) =~= m0 + referenced(ast_type@, cur, need_kind_type));
                assert(generics@.to_set() =~= g0 + generic_vars(ast_type@));
            }
            TsType::Apply { applied_type, arguments: out }
        },
        Type::Function { parameters, return_type } => {
            let ghost pv = ast_type@->Function_parameters;
            proof {
                assert(ast_type@->Function_return_type == (**return_type)@);
            }
            let mut out: Vec<(Ident, TsType)> = Vec::new();
            let mut i: usize = 0;
            while i < parameters.len()
                invariant
                    *ast_type == (Type::Function { parameters: *parameters, return_type: *return_type }),
                    pv == ast_type@->Function_parameters,
                    pv.len() == parameters@.len(),
                    forall|k: int| 0 <= k < pv.len() ==> #[trigger] pv[k] == parameters@[k]@,
                    forall|k: int| 0 <= k < pv.len() ==> convertible(#[trigger] pv[k]),
                    cur == current_module_name@,
                    i <= parameters@.len(),
                    out@.len() == i,
                    ts_params_text(out@, i as nat) == conv_params(pv, i as nat, cur, mode),
                    module_set(referenced_modules@) == m0 + referenced_all(pv, i as nat, cur),
                    generics@.to_set() == g0 + generic_vars_all(pv, i as nat),
                    modules_extend(old(referenced_modules)@, referenced_modules@),
                    modules_unique(old(referenced_modules)@) ==> modules_unique(referenced_modules@),
                decreases parameters@.len() - i,
            {
                proof {
                    assert(decreases_to!(*ast_type => (*ast_type)->Function_parameters));
                    assert(decreases_to!(*parameters => parameters@));
                    assert(decreases_to!(parameters@ => parameters@[i as int]));
                }
                let ghost old_out = out@;
                proof {
                    assert(convertible(pv[i as int]));
                    assert(pv[i as int] == parameters@[i as int]@);
                }
                let t = convert_type_rec(&parameters[i], current_module_name, mode, referenced_modules, generics, true);
                let mut name = "$".to_owned();
                push_decimal(&mut name, i);
                out.push((Ident(name), t));
                proof {
                    assert(out@.take(i as int) =~= old_out);
                    reveal_strlit("$");
                    assert(module_set(referenced_modules@) =~= m0 + referenced_all(pv, (i + 1) as nat, cur));
                    assert(generics@.to_set() =~= g0 + generic_vars_all(pv, (i + 1) as nat));
                    lemma_ts_params_prefix(out@, i as nat);
                    if i == 0 {
                        assert(decimal(0) =~= seq!['0']);
                        assert("$"@ + decimal(0) + ": "@ =~= "$0: "@) by {
                            reveal_strlit("$0: ");
                            reveal_strlit(": ");
                        }
                    }
                }
                i = i + 1;
            }
            let ghost mb = module_set(referenced_modules@);
            let ghost gb = generics@.to_set();
            let rt = convert_type_rec(return_type, current_module_name, mode, referenced_modules, generics, true);
            proof {
                assert(module_set(referenced_modules@) =~= m0 + referenced(ast_type@, cur, need_kind_type));
                assert(generics@.to_set() =~= g0 + generic_vars(ast_type@));
            }
            TsType::Function { parameters: out, return_type: Box::new(rt) }
        },
        _ => {
            proof {
                assert(m0 + Set::empty() =~= m0);
                assert(g0 + Set::empty() =~= g0);
            }
            TsType::Ident(Ident("any".to_owned()))
        },
    }
}

proof fn lemma_ts_list_prefix(ts: Seq<TsType>, n: nat)
    requires
        n <= ts.len(),
    ensures
        ts_list_text(ts, n) == ts_list_text(ts.take(n as int), n),
    decreases n,
{
    if n > 1 {
        lemma_ts_list_prefix(ts, (n - 1) as nat);
        lemma_ts_list_prefix(ts.take(n as int), (n - 1) as nat);
        assert(ts.take(n as int).take(n - 1) =~= ts.take(n - 1));
    }
}

proof fn lemma_ts_params_prefix(ps: Seq<(Ident, TsType)>, n: nat)
    requires
        n < ps.len(),
    ensures
        ts_params_text(ps, n) == ts_params_text(ps.take(n as int), n),
    decreases n,
{
    if n > 1 {
        lemma_ts_params_prefix(ps, (n - 1) as nat);
        lemma_ts_params_prefix(ps.take(n as int), (n - 1) as nat);
        assert(ps.take(n as int).take(n - 1) =~= ps.take(n - 1));
    }
}

/// A declaration of a module's TypeScript declarations.
pub enum ExportDeclaration {
    /// `export declare type Maybe<T0> = ["Just", T0] | ["Nothing"];`
    Type { type_ident: Ident, type_generics: Vec<Ident>, constructor_types: Vec<TsType> },
    /// `export declare const five: number;`
    Const { value_name: Ident, value_type: TsType },
    /// `export declare function identity<T0>($0: T0): T0;`
    Function { function_name: Ident, function_generics: Vec<Ident>, function_type: TsType },
}

impl ExportDeclaration {
    /// The name that this declaration declares.
    pub open spec fn name_of(&self) -> Ident {
        match *self {
            ExportDeclaration::Type { type_ident, .. } => type_ident,
            ExportDeclaration::Const { value_name, .. } => value_name,
            ExportDeclaration::Function { function_name, .. } => function_name,
        }
    }

    /// The name that this declaration declares.
    pub fn declaration_name(&self) -> (r: &Ident)
        ensures
            *r == self.name_of(),
    {
        match self {
            ExportDeclaration::Type { type_ident, .. } => type_ident,
            ExportDeclaration::Const { value_name, .. } => value_name,
            ExportDeclaration::Function { function_name, .. } => function_name,
        }
    }
}

/// Declarations sort by the names they declare.
impl TextKey for ExportDeclaration {
    open spec fn text_key(&self) -> Seq<char> {
        self.name_of().0@
    }

    fn key_str(&self) -> (r: &str) {
        self.declaration_name().0.as_str()
    }
}

/// Imports sort by the identifier that they import a module as.
impl TextKey for (Ident, String) {
    open spec fn text_key(&self) -> Seq<char> {
        self.0.0@
    }

    fn key_str(&self) -> (r: &str) {
        self.0.0.as_str()
    }
}

/// The first `n` identifiers, separated by `, `.
pub open spec fn idents_text(idents: Seq<Ident>, n: nat) -> Seq<char>
    decreases n,
{
    if n == 0 || n > idents.len() {
        Seq::empty()
    } else if n == 1 {
        idents[0].0@
    } else {
        idents_text(idents, (n - 1) as nat) + ", "@ + idents[n - 1].0@
    }
}

/// The generic parameters of a declaration: none, or `<T0, T1>`.
pub open spec fn generics_text(idents: Seq<Ident>) -> Seq<char> {
    if idents.len() == 0 {
        Seq::empty()
    } else {
        "<"@ + idents_text(idents, idents.len()) + ">"@
    }
}

/// The first `n` types, separated by ` | `.
pub open spec fn union_text(ts: Seq<TsType>, n: nat) -> Seq<char>
    decreases n,
{
    if n == 0 || n > ts.len() {
        Seq::empty()
    } else if n == 1 {
        ts_text(ts[0])
    } else {
        union_text(ts, (n - 1) as nat) + " | "@ + ts_text(ts[n - 1])
    }
}

/// The type of a declared function: `(params): ret`.
pub open spec fn declared_function_text(t: TsType) -> Seq<char> {
    match t {
        TsType::Function { parameters, return_type } => ts_function_text(parameters@, *return_type, false),
        _ => ts_text(t),
    }
}

/// The text of a declaration.
pub open spec fn declaration_text(d: ExportDeclaration) -> Seq<char> {
    match d {
        ExportDeclaration::Type { type_ident, type_generics, constructor_types } => "export declare type "@
            + type_ident.0@ + generics_text(type_generics@) + " = "@ + (if constructor_types@.len() == 0 {
            "any"@
        } else {
            union_text(constructor_types@, constructor_types@.len())
        }) + ";"@,
        ExportDeclaration::Const { value_name, value_type } => "export declare const "@ + value_name.0@ + ": "@
            + ts_text(value_type) + ";"@,
        ExportDeclaration::Function { function_name, function_generics, function_type } =>
            "export declare function "@ + function_name.0@ + generics_text(function_generics@)
            + declared_function_text(function_type) + ";"@,
    }
}

fn render_generics(idents: &Vec<Ident>, accum: &mut String)
    ensures
        final(accum)@ == old(accum)@ + generics_text(idents@),
{
    if idents.len() == 0 {
        return;
    }
    let ghost start = accum@;
    push_str(accum, "<");
    let mut i: usize = 0;
    while i < idents.len()
        invariant
            i <= idents@.len(),
            accum@ == start + "<"@ + idents_text(idents@, i as nat),
        decreases idents@.len() - i,
    {
        if i > 0 {
            push_str(accum, ", ");
        }
        push_str(accum, idents[i].0.as_str());
        proof {
            assert(accum@ =~= start + "<"@ + idents_text(idents@, (i + 1) as nat));
        }
        i = i + 1;
    }
    push_str(accum, ">");
}

/// Appends the text of a declaration.
pub fn render_declaration(d: &ExportDeclaration, accum: &mut String)
    ensures
        final(accum)@ == old(accum)@ + declaration_text(*d),
{
    let ghost start = accum@;
    match d {
        ExportDeclaration::Type { type_ident, type_generics, constructor_types } => {
            push_str(accum, "export declare type ");
            push_str(accum, type_ident.0.as_str());
            render_generics(type_generics, accum);
            push_str(accum, " = ");
            if constructor_types.len() == 0 {
                push_str(accum, "any");
            } else {
                let ghost mid = accum@;
                let mut i: usize = 0;
                while i < constructor_types.len()
                    invariant
                        i <= constructor_types@.len(),
                        accum@ == mid + union_text(constructor_types@, i as nat),
                    decreases constructor_types@.len() - i,
                {
                    if i > 0 {
                        push_str(accum, " | ");
                    }
                    render_ts_type(&constructor_types[i], accum);
                    proof {
                        assert(accum@ =~= mid + union_text(constructor_types@, (i + 1) as nat));
                    }
                    i = i + 1;
                }
            }
            push_str(accum, ";");
        },
        ExportDeclaration::Const { value_name, value_type } => {
            push_str(accum, "export declare const ");
            push_str(accum, value_name.0.as_str());
            push_str(accum, ": ");
            render_ts_type(value_type, accum);
            push_str(accum, ";");
        },
        ExportDeclaration::Function { function_name, function_generics, function_type } => {
            push_str(accum, "export declare function ");
            push_str(accum, function_name.0.as_str());
            render_generics(function_generics, accum);
            match function_type {
                TsType::Function { parameters, return_type } => {
                    render_function_type(function_type, parameters, return_type, accum, false);
                },
                other => {
                    // Not a function type after all: declared as it is.
                    render_ts_type(other, accum);
                },
            }
            push_str(accum, ";");
        },
    }
    proof {
        assert(accum@ =~= start + declaration_text(*d));
    }
}

/// The TypeScript declarations of a module.
pub struct DeclarationModule {
    /// Each module imported, as the identifier it is imported under and its path.
    pub imports: Vec<(Ident, String)>,
    pub declarations: Vec<ExportDeclaration>,
}

/// The first `n` import lines: `import * as ident from "path";`.
pub open spec fn import_lines_text(imports: Seq<(Ident, String)>, n: nat) -> Seq<char>
    decreases n,
{
    if n == 0 || n > imports.len() {
        Seq::empty()
    } else {
        import_lines_text(imports, (n - 1) as nat) + "import * as "@ + imports[n - 1].0.0@ + " from \""@
            + imports[n - 1].1@ + "\";\n"@
    }
}

/// The first `n` declarations, a line each.
pub open spec fn declaration_lines_text(ds: Seq<ExportDeclaration>, n: nat) -> Seq<char>
    decreases n,
{
    if n == 0 || n > ds.len() {
        Seq::empty()
    } else {
        declaration_lines_text(ds, (n - 1) as nat) + declaration_text(ds[n - 1]) + "\n"@
    }
}

/// The text of a module's declarations: its imports, then its declarations.
pub open spec fn declaration_module_text(m: DeclarationModule) -> Seq<char> {
    import_lines_text(m.imports@, m.imports@.len()) + declaration_lines_text(m.declarations@, m.declarations@.len())
}

/// Renders a module's declarations.
pub fn render_declaration_module(m: &DeclarationModule) -> (r: String)
    ensures
        r@ == declaration_module_text(*m),
{
    let mut accum = String::new();
    let mut i: usize = 0;
    while i < m.imports.len()
        invariant
            i <= m.imports@.len(),
            accum@ == import_lines_text(m.imports@, i as nat),
        decreases m.imports@.len() - i,
    {
        push_str(&mut accum, "import * as ");
        push_str(&mut accum, m.imports[i].0.0.as_str());
        push_str(&mut accum, " from \"");
        push_str(&mut accum, m.imports[i].1.as_str());
        push_str(&mut accum, "\";\n");
        proof {
            assert(accum@ =~= import_lines_text(m.imports@, (i + 1) as nat));
        }
        i = i + 1;
    }
    let ghost mid = accum@;
    let mut j: usize = 0;
    while j < m.declarations.len()
        invariant
            j <= m.declarations@.len(),
            accum@ == mid + declaration_lines_text(m.declarations@, j as nat),
        decreases m.declarations@.len() - j,
    {
        render_declaration(&m.declarations[j], &mut accum);
        push_str(&mut accum, "\n");
        proof {
            assert(accum@ =~= mid + declaration_lines_text(m.declarations@, (j + 1) as nat));
        }
        j = j + 1;
    }
    accum
}

/// An exported type, by its kind.
pub struct ExportedType {
    pub kind: Kind,
}

/// An exported constructor: its type, and the name of the type it builds.
pub struct ExportedConstructor {
    pub constructor_type: Type,
    pub return_type_name: ProperName,
}

/// An exported value, by its type.
pub struct ExportedValue {
    pub value_type: Type,
}

/// What a module exports.
pub struct ModuleExports {
    pub types: Vec<(ProperName, ExportedType)>,
    pub constructors: Vec<(ProperName, ExportedConstructor)>,
    pub values: Vec<(Name, ExportedValue)>,
}

/// `ident` names one of the generic parameters `vars`.
pub open spec fn names_a_generic(ident: Ident, vars: Set<usize>) -> bool {
    exists|v: usize| vars.contains(v) && ident.0@ == #[trigger] variable_text(VariableMode::Generic, v)
}

/// One of the identifiers names the generic parameter `v`.
pub open spec fn has_generic(idents: Seq<Ident>, v: usize) -> bool {
    exists|i: int| 0 <= i < idents.len() && #[trigger] idents[i].0@ == variable_text(VariableMode::Generic, v)
}

/// The identifiers are the generic parameters named in `vars`: each names one,
/// and each has one.
pub open spec fn names_generics(idents: Seq<Ident>, vars: Set<usize>) -> bool {
    &&& forall|i: int| 0 <= i < idents.len() ==> names_a_generic(#[trigger] idents[i], vars)
    &&& forall|v: usize| #[trigger] vars.contains(v) ==> has_generic(idents, v)
}

/// `d` declares the value `name` of type `t`: a function where `t` is a
/// function type, generic in its type variables; else a constant, whose type
/// variables are `never`.
pub open spec fn declares_value(d: ExportDeclaration, name: Seq<char>, t: TypeV, current: Seq<Seq<char>>) -> bool {
    match t {
        TypeV::Function { parameters, return_type } => match d {
            ExportDeclaration::Function { function_name, function_generics, function_type } => {
                &&& function_name.0@ == name
                &&& declared_function_text(function_type) == "("@ + conv_params(
                    parameters,
                    parameters.len(),
                    current,
                    VariableMode::Generic,
                ) + "): "@ + conv_text(*return_type, current, VariableMode::Generic, true)
                &&& names_generics(function_generics@, generic_vars(t))
                &&& crate::text::sorted_by_text(false, function_generics@)
            },
            _ => false,
        },
        _ => match d {
            ExportDeclaration::Const { value_name, value_type } => value_name.0@ == name && ts_text(value_type)
                == conv_text(t, current, VariableMode::Never, true),
            _ => false,
        },
    }
}

fn value_declaration(
    ident: Ident,
    t: &Type,
    current_module_name: &ModuleName,
    referenced_modules: &mut Vec<FullyQualifiedModuleName>,
) -> (r: ExportDeclaration)
    requires
        convertible(t@),
    ensures
        declares_value(r, ident.0@, t@, current_module_name@),
        module_set(final(referenced_modules)@) == module_set(old(referenced_modules)@) + referenced(
            t@,
            current_module_name@,
            true,
        ),
{
    match t {
        Type::Function { .. } => {
            let mut generics: Vec<usize> = Vec::new();
            let function_type = convert_type_rec(
                t,
                current_module_name,
                VariableMode::Generic,
                referenced_modules,
                &mut generics,
                true,
            );
            proof {
                assert(Seq::<usize>::empty().to_set() =~= Set::<usize>::empty());
                assert(generics@.to_set() =~= generic_vars(t@));
            }
            let mut function_generics: Vec<Ident> = Vec::new();
            let mut i: usize = 0;
            while i < generics.len()
                invariant
                    i <= generics@.len(),
                    function_generics@.len() == i,
                    forall|k: int|
                        0 <= k < i ==> (#[trigger] function_generics@[k]).0@ == variable_text(
                            VariableMode::Generic,
                            generics@[k],
                        ),
                decreases generics@.len() - i,
            {
                function_generics.push(mk_type_variable_ident(generics[i]));
                i = i + 1;
            }
            let ghost unsorted = function_generics@;
            crate::text::sort_by_text(false, &mut function_generics);
            proof {
                let gv = generic_vars(t@);
                let fg = function_generics@;
                assert forall|i: int| 0 <= i < fg.len() implies names_a_generic(#[trigger] fg[i], gv) by {
                    vstd::seq_lib::to_multiset_contains(fg, fg[i]);
                    vstd::seq_lib::to_multiset_contains(unsorted, fg[i]);
                    assert(fg.contains(fg[i]));
                    let k = choose|k: int| 0 <= k < unsorted.len() && unsorted[k] == fg[i];
                    assert(generics@.to_set().contains(generics@[k]));
                    assert(gv.contains(generics@[k]));
                    assert(fg[i].0@ == variable_text(VariableMode::Generic, generics@[k]));
                }
                assert forall|v: usize| #[trigger] gv.contains(v) implies has_generic(fg, v) by {
                    assert(generics@.to_set().contains(v));
                    let k = choose|k: int| 0 <= k < generics@.len() && generics@[k] == v;
                    vstd::seq_lib::to_multiset_contains(unsorted, unsorted[k]);
                    vstd::seq_lib::to_multiset_contains(fg, unsorted[k]);
                    assert(unsorted.contains(unsorted[k]));
                    let i = choose|i: int| 0 <= i < fg.len() && fg[i] == unsorted[k];
                    assert(fg[i].0@ == variable_text(VariableMode::Generic, v));
                }
                assert(names_generics(fg, gv));
            }
            let ghost ft = function_type;
            let r = ExportDeclaration::Function { function_name: ident, function_generics, function_type };
            proof {
                match t@ {
                    TypeV::Function { parameters, return_type } => {
                        match ft {
                            TsType::Function { parameters: ps, return_type: rt } => {
                                assert(declared_function_text(ft) == ts_function_text(ps@, *rt, false));
                            },
                            _ => {},
                        }
                        assert(names_generics(r->function_generics@, generic_vars(t@)));
                    },
                    _ => {
                        assert(false);
                    },
                }
            }
            r
        },
        _ => {
            let mut generics: Vec<usize> = Vec::new();
            let value_type = convert_type_rec(
                t,
                current_module_name,
                VariableMode::Never,
                referenced_modules,
                &mut generics,
                true,
            );
            ExportDeclaration::Const { value_name: ident, value_type }
        },
    }
}

/// How many type arguments a type of kind `kind` takes.
pub open spec fn kind_arity(kind: KindV) -> nat {
    match kind {
        KindV::Function { parameters } => parameters.len(),
        _ => 0,
    }
}

/// The type variables `0..n`.
pub open spec fn first_vars(n: nat) -> Set<usize> {
    Set::new(|v: usize| v < n)
}

/// The tuple type of the constructor `name` of type `t`: its name as a
/// string, then its fields, whose type variables are the type's parameters.
pub open spec fn constructor_tuple_text(name: Seq<char>, t: TypeV, current: Seq<Seq<char>>) -> Seq<char> {
    "["@ + "\""@ + name + "\""@ + (match t {
        TypeV::Function { parameters, .. } => if parameters.len() == 0 {
            Seq::empty()
        } else {
            ", "@ + conv_list(parameters, parameters.len(), current, VariableMode::Generic)
        },
        _ => Seq::empty(),
    }) + "]"@
}

/// `text` is the tuple type of one of the constructors of the type `name`.
pub open spec fn tuple_of_constructor(
    text: Seq<char>,
    name: Seq<char>,
    ctors: Seq<(ProperName, ExportedConstructor)>,
    current: Seq<Seq<char>>,
) -> bool {
    exists|k: int|
        0 <= k < ctors.len() && ctors[k].1.return_type_name@ == name && text == #[trigger] constructor_tuple_text(
            ctors[k].0@,
            ctors[k].1.constructor_type@,
            current,
        )
}

/// One of the types has the text `text`.
pub open spec fn has_tuple(ts: Seq<TsType>, text: Seq<char>) -> bool {
    exists|i: int| 0 <= i < ts.len() && #[trigger] ts_text(ts[i]) == text
}

/// `d` declares the type `name` of kind `kind`: generic in its parameters, a
/// union of the tuple types of its constructors.
pub open spec fn declares_type(
    d: ExportDeclaration,
    name: Seq<char>,
    kind: KindV,
    ctors: Seq<(ProperName, ExportedConstructor)>,
    current: Seq<Seq<char>>,
) -> bool {
    match d {
        ExportDeclaration::Type { type_ident, type_generics, constructor_types } => {
            &&& type_ident.0@ == name
            &&& names_generics(type_generics@, first_vars(kind_arity(kind)))
            &&& crate::text::sorted_by_text(false, type_generics@)
            &&& forall|i: int|
                0 <= i < constructor_types@.len() ==> tuple_of_constructor(
                    ts_text(#[trigger] constructor_types@[i]),
                    name,
                    ctors,
                    current,
                )
            &&& forall|k: int|
                0 <= k < ctors.len() && ctors[k].1.return_type_name@ == name ==> has_tuple(
                    constructor_types@,
                    #[trigger] constructor_tuple_text(ctors[k].0@, ctors[k].1.constructor_type@, current),
                )
        },
        _ => false,
    }
}

/// The modules that the types of the first `n` constructors name.
pub open spec fn constructor_refs(ctors: Seq<(ProperName, ExportedConstructor)>, n: nat, current: Seq<Seq<char>>) -> Set<
    (Option<Seq<char>>, Seq<Seq<char>>),
>
    decreases n,
{
    if n == 0 || n > ctors.len() {
        Set::empty()
    } else {
        constructor_refs(ctors, (n - 1) as nat, current) + referenced(ctors[n - 1].1.constructor_type@, current, true)
    }
}

proof fn lemma_referenced_all_has(ts: Seq<TypeV>, n: nat, i: int, current: Seq<Seq<char>>)
    requires
        0 <= i < n <= ts.len(),
    ensures
        referenced(ts[i], current, true).subset_of(referenced_all(ts, n, current)),
    decreases n,
{
    if i < n - 1 {
        lemma_referenced_all_has(ts, (n - 1) as nat, i, current);
    }
}

proof fn lemma_constructor_refs_has(ctors: Seq<(ProperName, ExportedConstructor)>, n: nat, k: int, current: Seq<Seq<char>>)
    requires
        0 <= k < n <= ctors.len(),
    ensures
        referenced(ctors[k].1.constructor_type@, current, true).subset_of(constructor_refs(ctors, n, current)),
    decreases n,
{
    if k < n - 1 {
        lemma_constructor_refs_has(ctors, (n - 1) as nat, k, current);
    }
}

/// The tuple type of a constructor.
fn constructor_tuple(
    name: &ProperName,
    t: &Type,
    current_module_name: &ModuleName,
    referenced_modules: &mut Vec<FullyQualifiedModuleName>,
) -> (r: TsType)
    requires
        convertible(t@),
    ensures
        ts_text(r) == constructor_tuple_text(name@, t@, current_module_name@),
        module_set(old(referenced_modules)@).subset_of(module_set(final(referenced_modules)@)),
        module_set(final(referenced_modules)@).subset_of(
            module_set(old(referenced_modules)@) + referenced(t@, current_module_name@, true),
        ),
{
    let ghost m0 = module_set(referenced_modules@);
    let ghost cur = current_module_name@;
    let mut types: Vec<TsType> = Vec::new();
    let literal = TsType::StringLiteral(crate::names::copy_string(&name.0));
    proof {
        assert(ts_text(literal) == "\""@ + name@ + "\""@);
    }
    types.push(literal);
    proof {
        assert(types@[0] == literal);
        assert(ts_list_text(types@, 1) == ts_text(types@[0]));
    }
    match t {
        Type::Function { parameters, .. } => {
            let ghost pv = t@->Function_parameters;
            let mut generics: Vec<usize> = Vec::new();
            let mut i: usize = 0;
            while i < parameters.len()
                invariant
                    *t == (Type::Function { parameters: *parameters, return_type: (*t)->Function_return_type }),
                    pv == t@->Function_parameters,
                    pv.len() == parameters@.len(),
                    forall|k: int| 0 <= k < pv.len() ==> #[trigger] pv[k] == parameters@[k]@,
                    forall|k: int| 0 <= k < pv.len() ==> convertible(#[trigger] pv[k]),
                    cur == current_module_name@,
                    i <= parameters@.len(),
                    types@.len() == i + 1,
                    ts_list_text(types@, (i + 1) as nat) == "\""@ + name@ + "\""@ + (if i == 0 {
                        Seq::empty()
                    } else {
                        ", "@ + conv_list(pv, i as nat, cur, VariableMode::Generic)
                    }),
                    m0.subset_of(module_set(referenced_modules@)),
                    module_set(referenced_modules@).subset_of(m0 + referenced_all(pv, parameters@.len(), cur)),
                decreases parameters@.len() - i,
            {
                proof {
                    assert(convertible(pv[i as int]));
                    assert(pv[i as int] == parameters@[i as int]@);
                }
                let ghost old_types = types@;
                let ghost mb = module_set(referenced_modules@);
                let converted = convert_type_rec(
                    &parameters[i],
                    current_module_name,
                    VariableMode::Generic,
                    referenced_modules,
                    &mut generics,
                    true,
                );
                types.push(converted);
                proof {
                    lemma_referenced_all_has(pv, parameters@.len() as nat, i as int, cur);
                    assert(types@.take(i + 1) =~= old_types);
                    lemma_ts_list_prefix(types@, (i + 1) as nat);
                    assert(ts_list_text(types@, (i + 2) as nat) == ts_list_text(types@, (i + 1) as nat) + ", "@
                        + ts_text(types@[i + 1]));
                    if i > 0 {
                        assert(conv_list(pv, (i + 1) as nat, cur, VariableMode::Generic) == conv_list(
                            pv,
                            i as nat,
                            cur,
                            VariableMode::Generic,
                        ) + ", "@ + conv_text(pv[i as int], cur, VariableMode::Generic, true));
                    }
                }
                i = i + 1;
            }
            proof {
                assert(referenced(t@, cur, true) == referenced_all(pv, pv.len(), cur) + referenced(
                    *t@->Function_return_type,
                    cur,
                    true,
                ));
            }
        },
        _ => {},
    }
    let ghost n = types@.len();
    proof {
        assert(ts_list_text(types@, n as nat) == "\""@ + name@ + "\""@ + (match t@ {
            TypeV::Function { parameters, .. } => if parameters.len() == 0 {
                Seq::empty()
            } else {
                ", "@ + conv_list(parameters, parameters.len(), cur, VariableMode::Generic)
            },
            _ => Seq::<char>::empty(),
        }));
    }
    let r = TsType::Tuple(types);
    proof {
        assert(ts_text(r) =~= constructor_tuple_text(name@, t@, cur));
    }
    r
}

/// Constructor tuples sort by the constructor's name.
impl TextKey for (Ident, TsType) {
    open spec fn text_key(&self) -> Seq<char> {
        self.0.0@
    }

    fn key_str(&self) -> (r: &str) {
        self.0.0.as_str()
    }
}

/// The generic parameters `T0`..`Tn-1`, in text order.
fn type_generics_of(n: usize) -> (r: Vec<Ident>)
    ensures
        names_generics(r@, first_vars(n as nat)),
        crate::text::sorted_by_text(false, r@),
{
    let mut generics: Vec<Ident> = Vec::new();
    let mut j: usize = 0;
    while j < n
        invariant
            j <= n,
            generics@.len() == j,
            forall|k: int| 0 <= k < j ==> (#[trigger] generics@[k]).0@ == variable_text(VariableMode::Generic, k as usize),
        decreases n - j,
    {
        generics.push(mk_type_variable_ident(j));
        j = j + 1;
    }
    let ghost unsorted = generics@;
    crate::text::sort_by_text(false, &mut generics);
    proof {
        let fg = generics@;
        let vars = first_vars(n as nat);
        assert forall|i: int| 0 <= i < fg.len() implies names_a_generic(#[trigger] fg[i], vars) by {
            vstd::seq_lib::to_multiset_contains(fg, fg[i]);
            vstd::seq_lib::to_multiset_contains(unsorted, fg[i]);
            assert(fg.contains(fg[i]));
            let k = choose|k: int| 0 <= k < unsorted.len() && unsorted[k] == fg[i];
            assert(vars.contains(k as usize));
            assert(fg[i].0@ == variable_text(VariableMode::Generic, k as usize));
        }
        assert forall|v: usize| #[trigger] vars.contains(v) implies has_generic(fg, v) by {
            let k = v as int;
            vstd::seq_lib::to_multiset_contains(unsorted, unsorted[k]);
            vstd::seq_lib::to_multiset_contains(fg, unsorted[k]);
            assert(unsorted.contains(unsorted[k]));
            let i = choose|i: int| 0 <= i < fg.len() && fg[i] == unsorted[k];
            assert(fg[i].0@ == variable_text(VariableMode::Generic, v));
        }
    }
    generics
}

/// The declaration of the exported type `name` of kind `kind`.
fn type_declaration(
    name: &ProperName,
    kind: &Kind,
    ctors: &Vec<(ProperName, ExportedConstructor)>,
    current_module_name: &ModuleName,
    referenced_modules: &mut Vec<FullyQualifiedModuleName>,
) -> (r: ExportDeclaration)
    requires
        forall|k: int| 0 <= k < ctors@.len() ==> convertible(#[trigger] ctors@[k].1.constructor_type@),
    ensures
        declares_type(r, name@, kind@, ctors@, current_module_name@),
        module_set(old(referenced_modules)@).subset_of(module_set(final(referenced_modules)@)),
        module_set(final(referenced_modules)@).subset_of(
            module_set(old(referenced_modules)@) + constructor_refs(ctors@, ctors@.len() as nat, current_module_name@),
        ),
{
    let ghost m0 = module_set(referenced_modules@);
    let ghost cur = current_module_name@;
    let arity = match kind {
        Kind::Function { parameters } => parameters.len(),
        _ => 0,
    };
    proof {
        assert(arity == kind_arity(kind@));
    }
    let type_generics = type_generics_of(arity);
    let mut tuples: Vec<(Ident, TsType)> = Vec::new();
    let ghost mut src: Seq<int> = Seq::empty();
    let mut k: usize = 0;
    while k < ctors.len()
        invariant
            k <= ctors@.len(),
            cur == current_module_name@,
            forall|j: int| 0 <= j < ctors@.len() ==> convertible(#[trigger] ctors@[j].1.constructor_type@),
            src.len() == tuples@.len(),
            forall|j: int|
                0 <= j < tuples@.len() ==> 0 <= #[trigger] src[j] < k && ctors@[src[j]].1.return_type_name@ == name@
                    && ts_text(tuples@[j].1) == constructor_tuple_text(
                    ctors@[src[j]].0@,
                    ctors@[src[j]].1.constructor_type@,
                    cur,
                ),
            forall|c: int|
                0 <= c < k && ctors@[c].1.return_type_name@ == name@ ==> exists|j: int|
                    0 <= j < src.len() && #[trigger] src[j] == c,
            m0.subset_of(module_set(referenced_modules@)),
            module_set(referenced_modules@).subset_of(m0 + constructor_refs(ctors@, ctors@.len() as nat, cur)),
        decreases ctors@.len() - k,
    {
        let ghost src_before = src;
        if ctors[k].1.return_type_name.eq(name) {
            let ghost mb = module_set(referenced_modules@);
            let tuple = constructor_tuple(&ctors[k].0, &ctors[k].1.constructor_type, current_module_name, referenced_modules);
            proof {
                lemma_constructor_refs_has(ctors@, ctors@.len() as nat, k as int, cur);
            }
            tuples.push((Ident(crate::names::copy_string(&ctors[k].0.0)), tuple));
            proof {
                src = src.push(k as int);
                assert(src[src.len() - 1] == k as int);
            }
        }
        proof {
            assert forall|c: int|
                0 <= c < k + 1 && ctors@[c].1.return_type_name@ == name@ implies exists|j: int|
                    0 <= j < src.len() && #[trigger] src[j] == c by {
                if c < k {
                    let j = choose|j: int| 0 <= j < src_before.len() && #[trigger] src_before[j] == c;
                    assert(src[j] == c);
                } else {
                    assert(src[src.len() - 1] == c);
                }
            }
        }
        k = k + 1;
    }
    let ghost unsorted = tuples@;
    crate::text::sort_by_text(false, &mut tuples);
    let ghost sorted = tuples@;
    let mut constructor_types: Vec<TsType> = Vec::new();
    let ghost n = tuples@.len();
    while tuples.len() > 0
        invariant
            constructor_types@.len() + tuples@.len() == n,
            sorted.len() == n,
            tuples@ == sorted.subrange(constructor_types@.len() as int, n as int),
            forall|i: int| 0 <= i < constructor_types@.len() ==> #[trigger] constructor_types@[i] == sorted[i].1,
        decreases tuples@.len(),
    {
        let (_, t) = tuples.remove(0);
        constructor_types.push(t);
    }
    proof {
        let ct = constructor_types@;
        assert forall|i: int| 0 <= i < ct.len() implies tuple_of_constructor(
            ts_text(#[trigger] ct[i]),
            name@,
            ctors@,
            cur,
        ) by {
            vstd::seq_lib::to_multiset_contains(sorted, sorted[i]);
            vstd::seq_lib::to_multiset_contains(unsorted, sorted[i]);
            assert(sorted.contains(sorted[i]));
            let j = choose|j: int| 0 <= j < unsorted.len() && unsorted[j] == sorted[i];
            let c = src[j];
            assert(ts_text(ct[i]) == constructor_tuple_text(ctors@[c].0@, ctors@[c].1.constructor_type@, cur));
        }
        assert forall|c: int| 0 <= c < ctors@.len() && ctors@[c].1.return_type_name@ == name@ implies has_tuple(
            ct,
            #[trigger] constructor_tuple_text(ctors@[c].0@, ctors@[c].1.constructor_type@, cur),
        ) by {
            let j = choose|j: int| 0 <= j < src.len() && #[trigger] src[j] == c;
            vstd::seq_lib::to_multiset_contains(unsorted, unsorted[j]);
            vstd::seq_lib::to_multiset_contains(sorted, unsorted[j]);
            assert(unsorted.contains(unsorted[j]));
            let i = choose|i: int| 0 <= i < sorted.len() && sorted[i] == unsorted[j];
            assert(ts_text(ct[i]) == constructor_tuple_text(ctors@[c].0@, ctors@[c].1.constructor_type@, cur));
        }
    }
    ExportDeclaration::Type { type_ident: Ident(crate::names::copy_string(&name.0)), type_generics, constructor_types }
}

/// The modules that the types of the first `n` values name.
pub open spec fn value_refs(values: Seq<(Name, ExportedValue)>, n: nat, current: Seq<Seq<char>>) -> Set<
    (Option<Seq<char>>, Seq<Seq<char>>),
>
    decreases n,
{
    if n == 0 || n > values.len() {
        Set::empty()
    } else {
        value_refs(values, (n - 1) as nat, current) + referenced(values[n - 1].1.value_type@, current, true)
    }
}

/// The modules that a module's exports name.
pub open spec fn export_refs(exports: ModuleExports, current: Seq<Seq<char>>) -> Set<(Option<Seq<char>>, Seq<Seq<char>>)> {
    constructor_refs(exports.constructors@, exports.constructors@.len(), current) + value_refs(
        exports.values@,
        exports.values@.len(),
        current,
    )
}

/// `d` declares one of the exports.
pub open spec fn declares_export(d: ExportDeclaration, exports: ModuleExports, current: Seq<Seq<char>>) -> bool {
    let types = exports.types@;
    let ctors = exports.constructors@;
    let values = exports.values@;
    ||| exists|k: int| 0 <= k < types.len() && #[trigger] declares_type(d, types[k].0@, types[k].1.kind@, ctors, current)
    ||| exists|k: int|
        0 <= k < ctors.len() && #[trigger] declares_value(d, ctors[k].0@, ctors[k].1.constructor_type@, current)
    ||| exists|k: int|
        0 <= k < values.len() && #[trigger] declares_value(
            d,
            mangled(values[k].0@),
            values[k].1.value_type@,
            current,
        )
}

/// The exported type `k` has a declaration.
pub open spec fn type_declared(ds: Seq<ExportDeclaration>, exports: ModuleExports, k: int, current: Seq<Seq<char>>) -> bool {
    exists|i: int|
        0 <= i < ds.len() && #[trigger] declares_type(
            ds[i],
            exports.types@[k].0@,
            exports.types@[k].1.kind@,
            exports.constructors@,
            current,
        )
}

/// The exported constructor `k` has a declaration.
pub open spec fn constructor_declared(ds: Seq<ExportDeclaration>, exports: ModuleExports, k: int, current: Seq<Seq<char>>) -> bool {
    exists|i: int|
        0 <= i < ds.len() && #[trigger] declares_value(
            ds[i],
            exports.constructors@[k].0@,
            exports.constructors@[k].1.constructor_type@,
            current,
        )
}

/// The exported value `k` has a declaration.
pub open spec fn value_declared(ds: Seq<ExportDeclaration>, exports: ModuleExports, k: int, current: Seq<Seq<char>>) -> bool {
    exists|i: int|
        0 <= i < ds.len() && #[trigger] declares_value(
            ds[i],
            mangled(exports.values@[k].0@),
            exports.values@[k].1.value_type@,
            current,
        )
}

/// An import brings in one of the modules named.
pub open spec fn imports_one_of(import: (Ident, String), modules: Set<(Option<Seq<char>>, Seq<Seq<char>>)>) -> bool {
    exists|m: (Option<Seq<char>>, Seq<Seq<char>>)| modules.contains(m) && import.0.0@ == #[trigger] module_ident(m)
}

/// One of the imports brings in the module `m`.
pub open spec fn imported(imports: Seq<(Ident, String)>, m: (Option<Seq<char>>, Seq<Seq<char>>)) -> bool {
    exists|i: int| 0 <= i < imports.len() && #[trigger] imports[i].0.0@ == module_ident(m)
}

/// What [convert_exports] guarantees of the declarations `m` of `exports` in
/// the module `current`: a declaration for each export and an export for each
/// declaration, in order of their names; an import, under a name of its own,
/// for each module named, in order of those names.
pub open spec fn converted_exports(m: DeclarationModule, exports: ModuleExports, current: Seq<Seq<char>>) -> bool {
    let ds = m.declarations@;
    let refs = export_refs(exports, current);
    &&& crate::text::sorted_by_text(false, ds)
    &&& ds.len() == exports.types@.len() + exports.constructors@.len() + exports.values@.len()
    &&& forall|i: int| 0 <= i < ds.len() ==> declares_export(#[trigger] ds[i], exports, current)
    &&& forall|k: int| 0 <= k < exports.types@.len() ==> #[trigger] type_declared(ds, exports, k, current)
    &&& forall|k: int| 0 <= k < exports.constructors@.len() ==> #[trigger] constructor_declared(ds, exports, k, current)
    &&& forall|k: int| 0 <= k < exports.values@.len() ==> #[trigger] value_declared(ds, exports, k, current)
    &&& crate::text::sorted_by_text(false, m.imports@)
    &&& forall|i: int, j: int| 0 <= i < j < m.imports@.len() ==> #[trigger] m.imports@[i].0.0@ != #[trigger] m.imports@[j].0.0@
    &&& forall|i: int| 0 <= i < m.imports@.len() ==> imports_one_of(#[trigger] m.imports@[i], refs)
    &&& forall|r: (Option<Seq<char>>, Seq<Seq<char>>)| #[trigger] refs.contains(r) ==> imported(m.imports@, r)
}

proof fn lemma_two_places(s: Seq<(Ident, String)>, i: int, j: int)
    requires
        0 <= i < j < s.len(),
        s[i] == s[j],
    ensures
        s.to_multiset().count(s[i]) >= 2,
{
    broadcast use vstd::seq_lib::group_to_multiset_ensures;
    broadcast use vstd::multiset::group_multiset_axioms;

    let r = s.remove(j);
    assert(r[i] == s[i]);
    assert(r.contains(s[i]));
    assert(r.to_multiset().count(s[i]) >= 1);
    assert(s.to_multiset().count(s[i]) == r.to_multiset().count(s[i]) + 1);
}

proof fn lemma_unique_keys_permuted(a: Seq<(Ident, String)>, b: Seq<(Ident, String)>)
    requires
        a.to_multiset() == b.to_multiset(),
        forall|i: int, j: int| 0 <= i < j < a.len() ==> #[trigger] a[i].0.0@ != #[trigger] a[j].0.0@,
    ensures
        forall|i: int, j: int| 0 <= i < j < b.len() ==> #[trigger] b[i].0.0@ != #[trigger] b[j].0.0@,
{
    broadcast use vstd::seq_lib::group_to_multiset_ensures;
    broadcast use vstd::multiset::group_multiset_axioms;

    assert forall|i: int, j: int| 0 <= i < j < b.len() implies #[trigger] b[i].0.0@ != #[trigger] b[j].0.0@ by {
        if b[i].0.0@ == b[j].0.0@ {
            vstd::seq_lib::to_multiset_contains(b, b[i]);
            vstd::seq_lib::to_multiset_contains(a, b[i]);
            vstd::seq_lib::to_multiset_contains(b, b[j]);
            vstd::seq_lib::to_multiset_contains(a, b[j]);
            assert(b.contains(b[i]));
            assert(b.contains(b[j]));
            assert(a.contains(b[i]));
            assert(a.contains(b[j]));
            let p = choose|p: int| 0 <= p < a.len() && a[p] == b[i];
            if b[i] == b[j] {
                lemma_two_places(b, i, j);
                assert(a.to_multiset().count(b[i]) >= 2);
                let ra = a.remove(p);
                vstd::seq_lib::to_multiset_remove(a, p);
                assert(ra.to_multiset().count(b[i]) >= 1);
                vstd::seq_lib::to_multiset_contains(ra, b[i]);
                assert(ra.contains(b[i]));
                let q0 = choose|q: int| 0 <= q < ra.len() && ra[q] == b[i];
                let q = if q0 < p {
                    q0
                } else {
                    q0 + 1
                };
                assert(a[q] == b[i]);
                if p < q {
                    assert(a[p].0.0@ != a[q].0.0@);
                } else {
                    assert(a[q].0.0@ != a[p].0.0@);
                }
            } else {
                let q = choose|q: int| 0 <= q < a.len() && a[q] == b[j];
                assert(p != q);
                if p < q {
                    assert(a[p].0.0@ != a[q].0.0@);
                } else {
                    assert(a[q].0.0@ != a[p].0.0@);
                }
            }
        }
    }
}

/// The TypeScript declarations of what the module `module_name` exports.
pub fn convert_exports<F: Fn(&FullyQualifiedModuleName) -> String>(
    module_name_to_path: F,
    module_name: &ModuleName,
    exports: &ModuleExports,
) -> (r: DeclarationModule)
    requires
        forall|m: &FullyQualifiedModuleName| call_requires(module_name_to_path, (m,)),
        forall|k: int| 0 <= k < exports.types@.len() ==> !(#[trigger] exports.types@[k].1.kind@ is Variable),
        forall|k: int|
            0 <= k < exports.constructors@.len() ==> convertible(#[trigger] exports.constructors@[k].1.constructor_type@),
        forall|k: int| 0 <= k < exports.values@.len() ==> convertible(#[trigger] exports.values@[k].1.value_type@),
    ensures
        converted_exports(r, *exports, module_name@),
{
    let ghost cur = module_name@;
    let ghost ex = *exports;
    let types = &exports.types;
    let ctors = &exports.constructors;
    let values = &exports.values;
    let ghost nt = types@.len();
    let ghost nc = ctors@.len();
    let ghost nv = values@.len();
    let ghost all_ctor_refs = constructor_refs(ctors@, nc as nat, cur);
    let mut referenced: Vec<FullyQualifiedModuleName> = Vec::new();
    let mut declarations: Vec<ExportDeclaration> = Vec::new();
    proof {
        assert(module_set(referenced@) =~= Set::empty());
    }
    let mut k: usize = 0;
    while k < types.len()
        invariant
            k <= types@.len(),
            cur == module_name@,
            forall|j: int| 0 <= j < ctors@.len() ==> convertible(#[trigger] ctors@[j].1.constructor_type@),
            declarations@.len() == k,
            forall|j: int|
                0 <= j < k ==> declares_type(
                    #[trigger] declarations@[j],
                    types@[j].0@,
                    types@[j].1.kind@,
                    ctors@,
                    cur,
                ),
            all_ctor_refs == constructor_refs(ctors@, ctors@.len() as nat, cur),
            module_set(referenced@).subset_of(all_ctor_refs),
        decreases types@.len() - k,
    {
        let d = type_declaration(&types[k].0, &types[k].1.kind, ctors, module_name, &mut referenced);
        declarations.push(d);
        k = k + 1;
    }
    let ghost t_set = module_set(referenced@);
    proof {
        assert(constructor_refs(ctors@, 0, cur) =~= Set::empty());
    }
    let mut k: usize = 0;
    while k < ctors.len()
        invariant
            k <= ctors@.len(),
            cur == module_name@,
            forall|j: int| 0 <= j < ctors@.len() ==> convertible(#[trigger] ctors@[j].1.constructor_type@),
            declarations@.len() == nt + k,
            nt == types@.len(),
            forall|j: int|
                0 <= j < nt ==> declares_type(
                    #[trigger] declarations@[j],
                    types@[j].0@,
                    types@[j].1.kind@,
                    ctors@,
                    cur,
                ),
            forall|j: int|
                0 <= j < k ==> declares_value(
                    #[trigger] declarations@[nt + j],
                    ctors@[j].0@,
                    ctors@[j].1.constructor_type@,
                    cur,
                ),
            t_set.subset_of(all_ctor_refs),
            module_set(referenced@) == t_set + constructor_refs(ctors@, k as nat, cur),
        decreases ctors@.len() - k,
    {
        let d = value_declaration(ident_from_proper_name(&ctors[k].0), &ctors[k].1.constructor_type, module_name, &mut referenced);
        declarations.push(d);
        proof {
            assert(module_set(referenced@) =~= t_set + constructor_refs(ctors@, (k + 1) as nat, cur));
        }
        k = k + 1;
    }
    proof {
        assert(module_set(referenced@) =~= all_ctor_refs);
        assert(value_refs(values@, 0, cur) =~= Set::empty());
    }
    let mut k: usize = 0;
    while k < values.len()
        invariant
            k <= values@.len(),
            cur == module_name@,
            forall|j: int| 0 <= j < values@.len() ==> convertible(#[trigger] values@[j].1.value_type@),
            declarations@.len() == nt + nc + k,
            nt == types@.len(),
            nc == ctors@.len(),
            forall|j: int|
                0 <= j < nt ==> declares_type(
                    #[trigger] declarations@[j],
                    types@[j].0@,
                    types@[j].1.kind@,
                    ctors@,
                    cur,
                ),
            forall|j: int|
                0 <= j < nc ==> declares_value(
                    #[trigger] declarations@[nt + j],
                    ctors@[j].0@,
                    ctors@[j].1.constructor_type@,
                    cur,
                ),
            forall|j: int|
                0 <= j < k ==> declares_value(
                    #[trigger] declarations@[nt + nc + j],
                    mangled(values@[j].0@),
                    values@[j].1.value_type@,
                    cur,
                ),
            module_set(referenced@) == all_ctor_refs + value_refs(values@, k as nat, cur),
        decreases values@.len() - k,
    {
        let d = value_declaration(ident_from_name(&values[k].0), &values[k].1.value_type, module_name, &mut referenced);
        declarations.push(d);
        proof {
            assert(module_set(referenced@) =~= all_ctor_refs + value_refs(values@, (k + 1) as nat, cur));
        }
        k = k + 1;
    }
    let ghost refs = export_refs(ex, cur);
    proof {
        assert(module_set(referenced@) == refs);
    }
    // One import for each identifier: a later module of the same identifier
    // takes the place of an earlier one.
    let mut imports: Vec<(Ident, String)> = Vec::new();
    let mut i: usize = 0;
    proof {
        assert(module_set(referenced@.take(0)) =~= Set::empty());
    }
    while i < referenced.len()
        invariant
            i <= referenced@.len(),
            forall|m: &FullyQualifiedModuleName| call_requires(module_name_to_path, (m,)),
            forall|a: int, b: int| 0 <= a < b < imports@.len() ==> #[trigger] imports@[a].0.0@ != #[trigger] imports@[b].0.0@,
            forall|a: int| 0 <= a < imports@.len() ==> imports_one_of(#[trigger] imports@[a], module_set(referenced@.take(i as int))),
            forall|r: (Option<Seq<char>>, Seq<Seq<char>>)|
                #[trigger] module_set(referenced@.take(i as int)).contains(r) ==> imported(imports@, r),
        decreases referenced@.len() - i,
    {
        let ghost before = imports@;
        let ghost set_before = module_set(referenced@.take(i as int));
        let ghost set_after = module_set(referenced@.take(i + 1));
        proof {
            assert(referenced@.take(i + 1) =~= referenced@.take(i as int).push(referenced@[i as int]));
            assert forall|x: (Option<Seq<char>>, Seq<Seq<char>>)| set_after.contains(x) <==> (set_before.contains(x)
                || x == referenced@[i as int]@) by {
                let t1 = referenced@.take(i + 1);
                let t0 = referenced@.take(i as int);
                if set_after.contains(x) {
                    let q = choose|q: int| 0 <= q < t1.len() && #[trigger] t1[q]@ == x;
                    if q < i {
                        assert(t0[q]@ == x);
                    }
                }
                if set_before.contains(x) {
                    let q = choose|q: int| 0 <= q < t0.len() && #[trigger] t0[q]@ == x;
                    assert(t1[q]@ == x);
                }
                if x == referenced@[i as int]@ {
                    assert(t1[i as int]@ == x);
                }
            }
        }
        let id = module_name_to_ident(&referenced[i]);
        let path = module_name_to_path(&referenced[i]);
        let mut pos: Option<usize> = None;
        let mut j: usize = 0;
        while j < imports.len()
            invariant
                j <= imports@.len(),
                match pos {
                    Some(p) => p < imports@.len() && imports@[p as int].0.0@ == id.0@,
                    None => forall|a: int| 0 <= a < j ==> imports@[a].0.0@ != id.0@,
                },
            decreases imports@.len() - j,
        {
            if pos.is_none() && crate::names::string_eq(&imports[j].0.0, &id.0) {
                pos = Some(j);
            }
            j = j + 1;
        }
        let ghost m = referenced@[i as int]@;
        match pos {
            Some(p) => {
                imports.set(p, (id, path));
                proof {
                    assert forall|a: int, b: int| 0 <= a < b < imports@.len() implies #[trigger] imports@[a].0.0@
                        != #[trigger] imports@[b].0.0@ by {
                        assert(imports@[a].0.0@ == before[a].0.0@);
                        assert(imports@[b].0.0@ == before[b].0.0@);
                    }
                    assert forall|a: int| 0 <= a < imports@.len() implies imports_one_of(
                        #[trigger] imports@[a],
                        set_after,
                    ) by {
                        if a == p {
                            assert(set_after.contains(m));
                            assert(imports@[a].0.0@ == module_ident(m));
                        } else {
                            assert(imports@[a] == before[a]);
                            assert(imports_one_of(before[a], set_before));
                            let w = choose|w: (Option<Seq<char>>, Seq<Seq<char>>)|
                                set_before.contains(w) && before[a].0.0@ == #[trigger] module_ident(w);
                            assert(set_after.contains(w));
                        }
                    }
                    assert forall|r: (Option<Seq<char>>, Seq<Seq<char>>)| #[trigger] set_after.contains(r) implies imported(
                        imports@,
                        r,
                    ) by {
                        if r == m {
                            assert(imports@[p as int].0.0@ == module_ident(r));
                        } else {
                            assert(set_before.contains(r));
                            assert(imported(before, r));
                            let a = choose|a: int| 0 <= a < before.len() && #[trigger] before[a].0.0@ == module_ident(r);
                            assert(imports@[a].0.0@ == before[a].0.0@);
                        }
                    }
                }
            },
            None => {
                imports.push((id, path));
                proof {
                    let n0 = before.len() as int;
                    assert forall|a: int, b: int| 0 <= a < b < imports@.len() implies #[trigger] imports@[a].0.0@
                        != #[trigger] imports@[b].0.0@ by {
                        if b == n0 {
                            assert(before[a].0.0@ != module_ident(m));
                        } else {
                            assert(imports@[a] == before[a]);
                            assert(imports@[b] == before[b]);
                        }
                    }
                    assert forall|a: int| 0 <= a < imports@.len() implies imports_one_of(
                        #[trigger] imports@[a],
                        set_after,
                    ) by {
                        if a == n0 {
                            assert(set_after.contains(m));
                            assert(imports@[a].0.0@ == module_ident(m));
                        } else {
                            assert(imports@[a] == before[a]);
                            assert(imports_one_of(before[a], set_before));
                            let w = choose|w: (Option<Seq<char>>, Seq<Seq<char>>)|
                                set_before.contains(w) && before[a].0.0@ == #[trigger] module_ident(w);
                            assert(set_after.contains(w));
                        }
                    }
                    assert forall|r: (Option<Seq<char>>, Seq<Seq<char>>)| #[trigger] set_after.contains(r) implies imported(
                        imports@,
                        r,
                    ) by {
                        if r == m {
                            assert(imports@[n0].0.0@ == module_ident(r));
                        } else {
                            assert(set_before.contains(r));
                            assert(imported(before, r));
                            let a = choose|a: int| 0 <= a < before.len() && #[trigger] before[a].0.0@ == module_ident(r);
                            assert(imports@[a] == before[a]);
                        }
                    }
                }
            },
        }
        i = i + 1;
    }
    proof {
        assert(referenced@.take(referenced@.len() as int) =~= referenced@);
    }
    let ghost unsorted_imports = imports@;
    crate::text::sort_by_text(false, &mut imports);
    let ghost unsorted = declarations@;
    crate::text::sort_by_text(false, &mut declarations);
    proof {
        let si = imports@;
        lemma_unique_keys_permuted(unsorted_imports, si);
        assert forall|a: int| 0 <= a < si.len() implies imports_one_of(#[trigger] si[a], refs) by {
            vstd::seq_lib::to_multiset_contains(si, si[a]);
            vstd::seq_lib::to_multiset_contains(unsorted_imports, si[a]);
            assert(si.contains(si[a]));
            let q = choose|q: int| 0 <= q < unsorted_imports.len() && unsorted_imports[q] == si[a];
            assert(imports_one_of(unsorted_imports[q], refs));
        }
        assert forall|r: (Option<Seq<char>>, Seq<Seq<char>>)| #[trigger] refs.contains(r) implies imported(si, r) by {
            assert(imported(unsorted_imports, r));
            let q = choose|q: int| 0 <= q < unsorted_imports.len() && #[trigger] unsorted_imports[q].0.0@ == module_ident(r);
            vstd::seq_lib::to_multiset_contains(unsorted_imports, unsorted_imports[q]);
            vstd::seq_lib::to_multiset_contains(si, unsorted_imports[q]);
            assert(unsorted_imports.contains(unsorted_imports[q]));
            let a = choose|a: int| 0 <= a < si.len() && si[a] == unsorted_imports[q];
            assert(si[a].0.0@ == module_ident(r));
        }
        let ds = declarations@;
        assert forall|a: int| 0 <= a < ds.len() implies declares_export(#[trigger] ds[a], ex, cur) by {
            vstd::seq_lib::to_multiset_contains(ds, ds[a]);
            vstd::seq_lib::to_multiset_contains(unsorted, ds[a]);
            assert(ds.contains(ds[a]));
            let q = choose|q: int| 0 <= q < unsorted.len() && unsorted[q] == ds[a];
            if q < nt {
                assert(declares_type(unsorted[q], types@[q].0@, types@[q].1.kind@, ctors@, cur));
            } else if q < nt + nc {
                assert(declares_value(unsorted[nt + (q - nt)], ctors@[q - nt].0@, ctors@[q - nt].1.constructor_type@, cur));
            } else {
                assert(declares_value(
                    unsorted[nt + nc + (q - nt - nc)],
                    mangled(values@[q - nt - nc].0@),
                    values@[q - nt - nc].1.value_type@,
                    cur,
                ));
            }
        }
        assert forall|k: int| 0 <= k < nt implies #[trigger] type_declared(ds, ex, k, cur) by {
            vstd::seq_lib::to_multiset_contains(unsorted, unsorted[k]);
            vstd::seq_lib::to_multiset_contains(ds, unsorted[k]);
            assert(unsorted.contains(unsorted[k]));
            let a = choose|a: int| 0 <= a < ds.len() && ds[a] == unsorted[k];
            assert(declares_type(ds[a], types@[k].0@, types@[k].1.kind@, ctors@, cur));
        }
        assert forall|k: int| 0 <= k < nc implies #[trigger] constructor_declared(ds, ex, k, cur) by {
            vstd::seq_lib::to_multiset_contains(unsorted, unsorted[nt + k]);
            vstd::seq_lib::to_multiset_contains(ds, unsorted[nt + k]);
            assert(unsorted.contains(unsorted[nt + k]));
            let a = choose|a: int| 0 <= a < ds.len() && ds[a] == unsorted[nt + k];
            assert(declares_value(ds[a], ctors@[k].0@, ctors@[k].1.constructor_type@, cur));
        }
        assert forall|k: int| 0 <= k < nv implies #[trigger] value_declared(ds, ex, k, cur) by {
            vstd::seq_lib::to_multiset_contains(unsorted, unsorted[nt + nc + k]);
            vstd::seq_lib::to_multiset_contains(ds, unsorted[nt + nc + k]);
            assert(unsorted.contains(unsorted[nt + nc + k]));
            let a = choose|a: int| 0 <= a < ds.len() && ds[a] == unsorted[nt + nc + k];
            assert(declares_value(ds[a], mangled(values@[k].0@), values@[k].1.value_type@, cur));
        }
    }
    DeclarationModule { imports, declarations }
}

/// The TypeScript declarations of what the module `module_name` exports, as text.
pub fn generate_declarations<F: Fn(&FullyQualifiedModuleName) -> String>(
    module_name_to_path: F,
    module_name: &ModuleName,
    exports: &ModuleExports,
) -> (r: String)
    requires
        forall|m: &FullyQualifiedModuleName| call_requires(module_name_to_path, (m,)),
        forall|k: int| 0 <= k < exports.types@.len() ==> !(#[trigger] exports.types@[k].1.kind@ is Variable),
        forall|k: int|
            0 <= k < exports.constructors@.len() ==> convertible(#[trigger] exports.constructors@[k].1.constructor_type@),
        forall|k: int| 0 <= k < exports.values@.len() ==> convertible(#[trigger] exports.values@[k].1.value_type@),
    ensures
        exists|m: DeclarationModule| converted_exports(m, *exports, module_name@) && r@ == declaration_module_text(m),
{
    let module = convert_exports(module_name_to_path, module_name, exports);
    render_declaration_module(&module)
}

} // verus!
