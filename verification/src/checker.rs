//! Bidirectional type checking of expressions: `infer` works a type out,
//! `check` holds an expression to an expected type.
use crate::ast::{self, array_type_view, effect_type_view, mk_array_type, mk_effect_type, type_of, Expression};
use crate::coverage;
use crate::env::{first_value, instance_start, instance_subst, use_typed, Env, EnvConstructor, EnvValue, Scheme};
use crate::names::{unqualified, Name, QualifiedName, QualifiedProperName, Span};
use crate::pre_ast as pre;
use crate::state::{References, State, TypeError, Warning};
use crate::substitution::{apply_seq, apply_spec, Substitution, APPLY_FUEL};
use crate::types::{anonymize, anonymize_spec, copy_type, Kind, PrimType, Type, TypeV};
use crate::unify::{bounded, ground, same_ground, subst_wf, unify, Constraint, UNIFY_FUEL};
use vstd::prelude::*;

verus! {

/// The invariant of the type checker's state.
pub open spec fn state_ok(s: State) -> bool {
    s.wf() && subst_wf(s.substitution@)
}

/// A value that a binder brings into scope.
pub struct LocalValue {
    pub span: Span,
    pub value_type: Type,
    pub name: Name,
}

impl LocalValue {
    /// The value that a function parameter brings into scope: none for an unused one.
    pub fn from_function_binder(binder: ast::FunctionBinder) -> (r: Option<LocalValue>)
        ensures
            match binder {
                ast::FunctionBinder::Name { span, binder_type, value } => r matches Some(lv) && lv.span == span
                    && lv.value_type == binder_type && lv.name == value,
                ast::FunctionBinder::Unused { .. } => r is None,
            },
    {
        match binder {
            ast::FunctionBinder::Name { span, binder_type, value } => Some(
                LocalValue { span, value_type: binder_type, name: value },
            ),
            ast::FunctionBinder::Unused { .. } => None,
        }
    }
}

/// What a scope opened by [extend_env] needs to be closed again.
pub struct Scope {
    pub env: Env,
    pub shadowed: References<QualifiedName>,
    pub names: Vec<(QualifiedName, Span)>,
}

/// The view of a scope's names.
pub open spec fn scope_names_view(names: Seq<(QualifiedName, Span)>) -> Seq<((Option<Seq<char>>, Seq<char>), Span)> {
    names.map_values(|p: (QualifiedName, Span)| (p.0@, p.1))
}

/// The keys among `names`.
pub open spec fn key_set(names: Seq<((Option<Seq<char>>, Seq<char>), Span)>) -> Set<(Option<Seq<char>>, Seq<char>)> {
    Set::new(|k: (Option<Seq<char>>, Seq<char>)| exists|i: int| 0 <= i < names.len() && #[trigger] names[i].0 == k)
}

/// The spans of the names of a scope that `counts` does not count, a name
/// counted once only being taken for its first occurrence.
pub open spec fn unused_spans(
    names: Seq<((Option<Seq<char>>, Seq<char>), Span)>,
    counts: Map<(Option<Seq<char>>, Seq<char>), nat>,
) -> Seq<Span>
    decreases names.len(),
{
    if names.len() == 0 {
        Seq::empty()
    } else {
        let prev = names.drop_last();
        let rest = unused_spans(prev, counts);
        if counts.remove_keys(key_set(prev)).contains_key(names.last().0) {
            rest
        } else {
            rest.push(names.last().1)
        }
    }
}

proof fn lemma_key_set_push(
    names: Seq<((Option<Seq<char>>, Seq<char>), Span)>,
    x: ((Option<Seq<char>>, Seq<char>), Span),
)
    ensures
        key_set(names.push(x)) == key_set(names).insert(x.0),
{
    let p = names.push(x);
    assert forall|k: (Option<Seq<char>>, Seq<char>)| key_set(p).contains(k) <==> key_set(names).contains(k) || k == x.0 by {
        if key_set(p).contains(k) {
            let i = choose|i: int| 0 <= i < p.len() && #[trigger] p[i].0 == k;
            if i < names.len() {
                assert(names[i].0 == k);
            }
        }
        if key_set(names).contains(k) {
            let i = choose|i: int| 0 <= i < names.len() && #[trigger] names[i].0 == k;
            assert(p[i].0 == k);
        }
        if k == x.0 {
            assert(p[names.len() as int].0 == k);
        }
    }
    assert(key_set(p) =~= key_set(names).insert(x.0));
}

/// Closing a scope that nothing in it referred to gives back the references
/// as they were before it was opened: those to the names it shadowed come
/// back, and the others were never touched.
pub proof fn closing_a_scope_restores_references(
    counts: Map<(Option<Seq<char>>, Seq<char>), nat>,
    keys: Set<(Option<Seq<char>>, Seq<char>)>,
)
    ensures
        counts.remove_keys(keys).remove_keys(keys).union_prefer_right(counts.restrict(keys)) == counts,
{
    assert(counts.remove_keys(keys).remove_keys(keys).union_prefer_right(counts.restrict(keys)) =~= counts);
}

/// Every name of a scope that nothing referred to is reported unused.
pub proof fn unreferenced_names_are_unused(
    names: Seq<((Option<Seq<char>>, Seq<char>), Span)>,
    counts: Map<(Option<Seq<char>>, Seq<char>), nat>,
)
    requires
        forall|i: int| 0 <= i < names.len() ==> !counts.contains_key(#[trigger] names[i].0),
    ensures
        unused_spans(names, counts) == names.map_values(|p: ((Option<Seq<char>>, Seq<char>), Span)| p.1),
    decreases names.len(),
{
    if names.len() > 0 {
        unreferenced_names_are_unused(names.drop_last(), counts);
        assert(!counts.contains_key(names[names.len() - 1].0));
        assert(names.map_values(|p: ((Option<Seq<char>>, Seq<char>), Span)| p.1) =~= names.drop_last().map_values(
            |p: ((Option<Seq<char>>, Seq<char>), Span)| p.1,
        ).push(names.last().1));
    }
}

/// Opens a scope: `env` with `values` in it, each taking the place of any value of
/// the same name. References counted so far to those names are set aside.
pub fn extend_env(env: &Env, state: &mut State, values: Vec<LocalValue>) -> (r: Scope)
    requires
        state_ok(*old(state)),
    ensures
        state_ok(*final(state)),
        r.shadowed.wf(),
        scope_names_view(r.names@) == values@.map_values(|v: LocalValue| ((None::<Seq<char>>, v.name@), v.span)),
        final(state).value_references.counts() == old(state).value_references.counts().remove_keys(
            key_set(scope_names_view(r.names@)),
        ),
        r.shadowed.counts() == old(state).value_references.counts().restrict(key_set(scope_names_view(r.names@))),
        final(state).substitution == old(state).substitution,
        final(state).supply == old(state).supply,
        final(state).warnings == old(state).warnings,
        final(state).constructor_references == old(state).constructor_references,
{
    let ghost c0 = state.value_references.counts();
    let ghost all = values@;
    let mut scope_env = env.copy();
    let mut shadowed: References<QualifiedName> = References::new();
    let mut names: Vec<(QualifiedName, Span)> = Vec::new();
    let mut values = values;
    let n = values.len();
    proof {
        assert(scope_names_view(names@) =~= Seq::empty());
        assert(key_set(scope_names_view(names@)) =~= Set::empty());
        assert(c0.remove_keys(Set::empty()) =~= c0);
        assert(c0.restrict(Set::empty()) =~= Map::empty());
    }
    while values.len() > 0
        invariant
            state_ok(*state),
            shadowed.wf(),
            state.substitution == old(state).substitution,
            state.supply == old(state).supply,
            state.warnings == old(state).warnings,
            state.constructor_references == old(state).constructor_references,
            names@.len() + values@.len() == n,
            all.len() == n,
            values@ == all.subrange(names@.len() as int, n as int),
            scope_names_view(names@) == all.take(names@.len() as int).map_values(
                |v: LocalValue| ((None::<Seq<char>>, v.name@), v.span),
            ),
            state.value_references.counts() == c0.remove_keys(key_set(scope_names_view(names@))),
            shadowed.counts() == c0.restrict(key_set(scope_names_view(names@))),
        decreases values@.len(),
    {
        let ghost before = scope_names_view(names@);
        let ghost counts_before = state.value_references.counts();
        let LocalValue { span, value_type, name } = values.remove(0);
        let unqualified_name = unqualified(name);
        names.push((unqualified_name.copy(), span));
        let ghost key = unqualified_name@;
        proof {
            assert(scope_names_view(names@) =~= before.push((key, span)));
            lemma_key_set_push(before, (key, span));
            assert(all.take(names@.len() as int) =~= all.take(names@.len() - 1).push(all[names@.len() - 1]));
        }
        proof {
            crate::state::lemma_entries_map_bounded(crate::state::entries_view(state.value_references.entries@));
        }
        match state.value_references.remove(&unqualified_name) {
            Some(count) => {
                shadowed.set(unqualified_name.copy(), count);
            },
            None => {},
        }
        proof {
            let ks = key_set(before);
            assert(state.value_references.counts() =~= c0.remove_keys(ks.insert(key)));
            assert(shadowed.counts() =~= c0.restrict(ks.insert(key)));
        }
        let variable = unqualified_name.value.copy();
        scope_env.insert_value(
            unqualified_name,
            EnvValue::ModuleValue {
                span,
                variable_scheme: Scheme { forall: Vec::new(), signature: value_type },
                variable,
            },
        );
    }
    proof {
        assert(all.take(n as int) =~= all);
    }
    Scope { env: scope_env, shadowed, names }
}

/// Closes a scope opened by [extend_env]: the spans of the names that were not
/// referenced in it, and the set-aside references restored.
pub fn close_scope(state: &mut State, scope: Scope) -> (r: Vec<Span>)
    requires
        state_ok(*old(state)),
        scope.shadowed.wf(),
    ensures
        state_ok(*final(state)),
        r@ == unused_spans(scope_names_view(scope.names@), old(state).value_references.counts()),
        final(state).value_references.counts() == old(state).value_references.counts().remove_keys(
            key_set(scope_names_view(scope.names@)),
        ).union_prefer_right(scope.shadowed.counts()),
        final(state).substitution == old(state).substitution,
        final(state).supply == old(state).supply,
        final(state).warnings == old(state).warnings,
        final(state).constructor_references == old(state).constructor_references,
{
    let ghost c0 = state.value_references.counts();
    let ghost nv = scope_names_view(scope.names@);
    let ghost sc = scope.shadowed.counts();
    let Scope { env: _, shadowed, names } = scope;
    let mut unused_spans_out: Vec<Span> = Vec::new();
    let mut i: usize = 0;
    proof {
        assert(nv.take(0) =~= Seq::empty());
        assert(key_set(nv.take(0)) =~= Set::empty());
        assert(c0.remove_keys(Set::empty()) =~= c0);
    }
    while i < names.len()
        invariant
            state_ok(*state),
            state.substitution == old(state).substitution,
            state.supply == old(state).supply,
            state.warnings == old(state).warnings,
            state.constructor_references == old(state).constructor_references,
            i <= names@.len(),
            nv == scope_names_view(names@),
            unused_spans_out@ == unused_spans(nv.take(i as int), c0),
            state.value_references.counts() == c0.remove_keys(key_set(nv.take(i as int))),
        decreases names@.len() - i,
    {
        let ghost prev = nv.take(i as int);
        proof {
            assert(nv.take(i + 1) =~= prev.push(nv[i as int]));
            assert(nv.take(i + 1).drop_last() =~= prev);
            lemma_key_set_push(prev, nv[i as int]);
        }
        match state.value_references.remove(&names[i].0) {
            Some(_) => {},
            None => {
                unused_spans_out.push(names[i].1);
            },
        }
        proof {
            assert(state.value_references.counts() =~= c0.remove_keys(key_set(prev).insert(nv[i as int].0)));
        }
        i = i + 1;
    }
    proof {
        assert(nv.take(names@.len() as int) =~= nv);
    }
    let ghost c1 = state.value_references.counts();
    let mut j: usize = 0;
    while j < shadowed.entries.len()
        invariant
            state_ok(*state),
            shadowed.wf(),
            sc == shadowed.counts(),
            state.substitution == old(state).substitution,
            state.supply == old(state).supply,
            state.warnings == old(state).warnings,
            state.constructor_references == old(state).constructor_references,
            j <= shadowed.entries@.len(),
            state.value_references.counts() == c1.union_prefer_right(
                crate::state::entries_map(crate::state::entries_view(shadowed.entries@.take(j as int))),
            ),
        decreases shadowed.entries@.len() - j,
    {
        let key = shadowed.entries[j].0.copy();
        state.value_references.set(key, shadowed.entries[j].1);
        proof {
            let ev = crate::state::entries_view(shadowed.entries@.take(j + 1));
            assert(ev.drop_last() =~= crate::state::entries_view(shadowed.entries@.take(j as int)));
            assert(state.value_references.counts() =~= c1.union_prefer_right(crate::state::entries_map(ev)));
        }
        j = j + 1;
    }
    proof {
        assert(shadowed.entries@.take(shadowed.entries@.len() as int) =~= shadowed.entries@);
    }
    unused_spans_out
}

fn too_deep<T>(span: Span) -> (r: Result<T, TypeError>)
    ensures
        r matches Err(TypeError::SubstitutionTooDeep { span: s }) && s == span,
{
    Err(TypeError::SubstitutionTooDeep { span })
}

/// The type of an expression, with the current substitution applied.
fn applied_type(state: &State, span: Span, t: &Type) -> (r: Result<Type, TypeError>)
    ensures
        match apply_spec(state.substitution@, t@, 0, APPLY_FUEL as nat) {
            Some(a) => r matches Ok(x) && x@ == a,
            None => r matches Err(TypeError::SubstitutionTooDeep { span: s }) && s == span,
        },
{
    match state.substitution.try_apply(t) {
        Some(t) => Ok(t),
        None => too_deep(span),
    }
}

fn prim(p: PrimType) -> (r: Type)
    ensures
        r@ == TypeV::PrimConstructor(p),
{
    Type::PrimConstructor(p)
}

/// For a conditional whose condition is a literal of some other type than
/// `Bool`: that it is one.
pub open spec fn if_cond_not_bool(e: pre::Expression) -> bool {
    match e {
        pre::Expression::If { condition, .. } => literal_type(*condition) is Some && literal_type(*condition) != Some(
            PrimType::Bool,
        ),
        _ => false,
    }
}

/// For a conditional on a `Bool` literal whose two clauses are literals: the
/// types of the two clauses.
pub open spec fn if_of_literals(e: pre::Expression) -> Option<(PrimType, PrimType)> {
    match e {
        pre::Expression::If { condition, true_clause, false_clause, .. } => match (
            literal_type(*condition),
            literal_type(*true_clause),
            literal_type(*false_clause),
        ) {
            (Some(PrimType::Bool), Some(p), Some(q)) => Some((p, q)),
            _ => None,
        },
        _ => None,
    }
}

/// Whether `e` calls a literal.
pub open spec fn calls_literal(e: pre::Expression) -> bool {
    match e {
        pre::Expression::Call { function, .. } => literal_type(*function) is Some,
        _ => false,
    }
}

/// Whether `e` is a function with two binders of the same name.
pub open spec fn duplicate_function_binders(e: pre::Expression) -> bool {
    match e {
        pre::Expression::Function { binders, .. } => duplicate_binders(binders@),
        _ => false,
    }
}

/// Whether every element is a literal.
pub open spec fn all_literals(es: Seq<pre::Expression>) -> bool {
    forall|i: int| 0 <= i < es.len() ==> literal_type(#[trigger] es[i]) is Some
}

/// Whether every element is a literal of the first one's type.
pub open spec fn same_literals(es: Seq<pre::Expression>) -> bool {
    forall|i: int| 0 <= i < es.len() ==> literal_type(#[trigger] es[i]) == literal_type(es[0])
}

/// Works out the type of an expression.
///
/// Literals need no work: `true` is a `Bool`, `5` an `Int`, `"five"` a `String`,
/// and the state stays as it was.
pub fn infer(env: &Env, state: &mut State, expr: &pre::Expression) -> (r: Result<Expression, TypeError>)
    requires
        state_ok(*old(state)),
    ensures
        state_ok(*final(state)),
        r is Ok ==> elaborates(*expr, r->Ok_0),
        if_cond_not_bool(*expr) ==> match r {
            Err(TypeError::TypesNotEqual { .. }) => true,
            _ => false,
        },
        match if_of_literals(*expr) {
            Some((p, q)) => match r {
                Ok(e) => p == q && type_of(e) == TypeV::PrimConstructor(p) && match e {
                    Expression::If { condition: c, true_clause: t, false_clause: f, .. } => type_of(*c)
                        == TypeV::PrimConstructor(PrimType::Bool) && type_of(*t) == TypeV::PrimConstructor(p) && type_of(
                        *f,
                    ) == TypeV::PrimConstructor(p),
                    _ => false,
                },
                Err(x) => p != q && x is TypesNotEqual,
            },
            None => true,
        },
        calls_literal(*expr) ==> match r {
            Err(TypeError::NotAFunction { .. }) => true,
            _ => false,
        },
        duplicate_function_binders(*expr) ==> match r {
            Err(TypeError::DuplicateFunctionBinder { .. }) => true,
            _ => false,
        },
        *expr is Effect ==> match r {
            Ok(e) => type_of(e) == effect_type_view(
                TypeV::Variable { variable_kind: crate::types::KindV::Type, var: old(state).supply.0, source_name: None },
            ),
            Err(_) => true,
        },
        match *expr {
            pre::Expression::RecordAccess { label, .. } => match r {
                Ok(e) => match e {
                    Expression::RecordAccess { field_type, label: l, .. } => l@ == label@ && (old(state).supply.0
                        < usize::MAX ==> field_type@ == (TypeV::Variable {
                        variable_kind: crate::types::KindV::Type,
                        var: (old(state).supply.0 + 1) as usize,
                        source_name: None,
                    })),
                    _ => false,
                },
                Err(_) => true,
            },
            _ => true,
        },
        match *expr {
            pre::Expression::True { span } => r matches Ok(e) && e is True && e.span_of() == span && type_of(e)
                == TypeV::PrimConstructor(PrimType::Bool) && *final(state) == *old(state),
            pre::Expression::False { span } => r matches Ok(e) && e is False && e.span_of() == span && type_of(e)
                == TypeV::PrimConstructor(PrimType::Bool) && *final(state) == *old(state),
            pre::Expression::Unit { span } => r matches Ok(e) && e is Unit && e.span_of() == span && type_of(e)
                == TypeV::PrimConstructor(PrimType::Unit) && *final(state) == *old(state),
            pre::Expression::String { span, .. } => r matches Ok(e) && e is String && e.span_of() == span && type_of(
                e,
            ) == TypeV::PrimConstructor(PrimType::String) && *final(state) == *old(state),
            pre::Expression::Int { span, .. } => r matches Ok(e) && e is Int && e.span_of() == span && type_of(e)
                == TypeV::PrimConstructor(PrimType::Int) && *final(state) == *old(state),
            pre::Expression::Float { span, .. } => r matches Ok(e) && e is Float && e.span_of() == span && type_of(e)
                == TypeV::PrimConstructor(PrimType::Float) && *final(state) == *old(state),
            pre::Expression::Variable { span, variable } => {
                &&& final(state).value_references.counts().contains_key(variable@)
                &&& (forall|i: int| 0 <= i < env.values@.len() ==> env.values@[i].0@ != variable@) ==> match r {
                    Err(TypeError::UnknownVariable { span: s, variable: v, .. }) => s == span && v@ == variable@,
                    _ => false,
                }
                &&& r is Ok ==> r->Ok_0.span_of() == span
                &&& forall|i: int| #[trigger] first_value(env.values@, variable@, i) ==> use_typed(
                    env.values@[i].1,
                    old(state).supply.0,
                    r,
                )
            },
            pre::Expression::Constructor { span, constructor } => {
                &&& final(state).constructor_references.counts().contains_key(constructor@)
                &&& (forall|i: int| 0 <= i < env.constructors@.len() ==> env.constructors@[i].0@ != constructor@)
                    ==> match r {
                    Err(TypeError::UnknownConstructor { span: s, constructor: c, .. }) => s == span && c@ == constructor@,
                    _ => false,
                }
                &&& r is Ok ==> r->Ok_0.span_of() == span
            },
            pre::Expression::Function { span, binders, return_type_annotation, body } => (binders@.len() == 0
                && return_type_annotation is None && literal_type(*body) is Some) ==> match r {
                Ok(e) => e is Function && e.span_of() == span && *final(state) == *old(state) && nullary_returning(
                    type_of(e),
                    literal_type(*body)->0,
                ),
                Err(_) => false,
            },
            pre::Expression::Array { span, elements } => {
                &&& elements@.len() == 0 ==> match r {
                    Ok(e) => e.span_of() == span && type_of(e) == crate::ast::array_type_view(
                        TypeV::Variable {
                            variable_kind: crate::types::KindV::Type,
                            var: old(state).supply.0,
                            source_name: None,
                        },
                    ),
                    Err(_) => false,
                }
                &&& match r {
                    Ok(Expression::Array { element_type, elements: es, value_type, .. }) => es@.len() > 0 ==> (
                    element_type@ == type_of(es@[0]) && value_type@ == array_type_view(element_type@)),
                    _ => true,
                }
                &&& (elements@.len() > 0 && all_literals(elements@)) ==> match r {
                    Ok(e) => same_literals(elements@) && type_of(e) == array_type_view(
                        TypeV::PrimConstructor(literal_type(elements@[0])->0),
                    ),
                    Err(x) => !same_literals(elements@) && x is TypesNotEqual,
                }
            },
            _ => true,
        },
    decreases expr, 2nat,
{
    match expr {
        pre::Expression::True { span } => Ok(Expression::True { span: *span, value_type: prim(PrimType::Bool) }),
        pre::Expression::False { span } => Ok(Expression::False { span: *span, value_type: prim(PrimType::Bool) }),
        pre::Expression::Unit { span } => Ok(Expression::Unit { span: *span, value_type: prim(PrimType::Unit) }),
        pre::Expression::String { span, value } => Ok(
            Expression::String { span: *span, value: value.clone(), value_type: prim(PrimType::String) },
        ),
        pre::Expression::Int { span, value } => Ok(
            Expression::Int { span: *span, value: value.clone(), value_type: prim(PrimType::Int) },
        ),
        pre::Expression::Float { span, value } => Ok(
            Expression::Float { span: *span, value: value.clone(), value_type: prim(PrimType::Float) },
        ),
        pre::Expression::Array { span, elements } => {
            if elements.len() > 0 {
                proof {
                    assert(decreases_to!(*expr => (*expr)->Array_elements));
                    assert(decreases_to!(*elements => elements@));
                    assert(decreases_to!(elements@ => elements@[0]));
                }
                let head = infer(env, state, &elements[0])?;
                let element_type = head.get_type();
                let mut out: Vec<Expression> = Vec::new();
                out.push(head);
                let mut i: usize = 1;
                while i < elements.len()
                    invariant
                        state_ok(*state),
                        *expr == (pre::Expression::Array { span: *span, elements: *elements }),
                        1 <= i <= elements@.len(),
                        out@.len() == i,
                        forall|j: int| 0 <= j < i ==> elaborates(#[trigger] elements@[j], out@[j]),
                        element_type@ == type_of(out@[0]),
                        all_literals(elements@) ==> element_type@ == TypeV::PrimConstructor(
                            literal_type(elements@[0])->0,
                        ),
                        all_literals(elements@) ==> forall|j: int|
                            0 <= j < i ==> literal_type(#[trigger] elements@[j]) == literal_type(elements@[0]),
                    decreases elements@.len() - i,
                {
                    proof {
                        assert(decreases_to!(*expr => (*expr)->Array_elements));
                        assert(decreases_to!(*elements => elements@));
                        assert(decreases_to!(elements@ => elements@[i as int]));
                    }
                    let element = check(env, state, copy_type(&element_type), &elements[i])?;
                    out.push(element);
                    i = i + 1;
                }
                let value_type = mk_array_type(copy_type(&element_type));
                Ok(Expression::Array { span: *span, element_type, elements: out, value_type })
            } else {
                let element_type = state.supply.fresh_type();
                let value_type = mk_array_type(copy_type(&element_type));
                Ok(Expression::Array { span: *span, element_type, elements: Vec::new(), value_type })
            }
        },
        pre::Expression::Variable { span, variable } => {
            state.register_value_reference(variable);
            match env.lookup_value(variable) {
                Some(value) => {
                    proof {
                        let k = choose|k: int| #[trigger] first_value(env.values@, variable@, k) && env.values@[k].1
                            == *value;
                        assert forall|i: int| #[trigger] first_value(env.values@, variable@, i) implies env.values@[i].1
                            == *value by {
                            if i < k {
                                assert(env.values@[i].0@ != variable@);
                            }
                            if k < i {
                                assert(env.values@[k].0@ != variable@);
                            }
                        }
                    }
                    match value.to_expression(*span, &mut state.supply) {
                        Some(e) => Ok(e),
                        None => too_deep(*span),
                    }
                },
                None => Err(
                    TypeError::UnknownVariable {
                        span: *span,
                        variable: variable.copy(),
                        names_in_scope: env.value_names(),
                    },
                ),
            }
        },
        pre::Expression::Constructor { span, constructor } => {
            state.register_constructor_reference(constructor);
            match env.lookup_constructor(constructor) {
                Some(c) => match c.to_expression(*span, &mut state.supply) {
                    Some(e) => Ok(e),
                    None => too_deep(*span),
                },
                None => Err(
                    TypeError::UnknownConstructor {
                        span: *span,
                        constructor: constructor.copy(),
                        ctors_in_scope: env.constructor_names(),
                    },
                ),
            }
        },
        pre::Expression::If { span, condition, true_clause, false_clause } => {
            let condition = check(env, state, prim(PrimType::Bool), condition)?;
            let true_clause = infer(env, state, true_clause)?;
            let tt = true_clause.get_type();
            proof {
                if let TypeV::PrimConstructor(_) = tt@ {
                    assert(apply_spec(state.substitution@, tt@, 0, APPLY_FUEL as nat) == Some(tt@));
                }
            }
            let true_type = applied_type(state, *span, &tt)?;
            let false_clause = check(env, state, copy_type(&true_type), false_clause)?;
            Ok(
                Expression::If {
                    span: *span,
                    output_type: true_type,
                    condition: Box::new(condition),
                    true_clause: Box::new(true_clause),
                    false_clause: Box::new(false_clause),
                },
            )
        },
        pre::Expression::Call { .. } => infer_or_check_call(env, state, None, expr),
        pre::Expression::Function { .. } => infer_function(env, state, expr),
        pre::Expression::Match { .. } => infer_or_check_match(env, state, expr, None),
        pre::Expression::Effect { span, effect } => {
            let return_type = state.supply.fresh_type();
            let effect = check_effect(env, state, copy_type(&return_type), effect)?;
            Ok(Expression::Effect { span: *span, return_type, effect })
        },
        pre::Expression::Record { span, fields } => {
            let mut out: Vec<(Name, Expression)> = Vec::new();
            let mut i: usize = 0;
            while i < fields.len()
                invariant
                    state_ok(*state),
                    *expr == (pre::Expression::Record { span: *span, fields: *fields }),
                    i <= fields@.len(),
                    out@.len() == i,
                    forall|j: int|
                        0 <= j < i ==> out@[j].0@ == (#[trigger] fields@[j]).0@ && elaborates(fields@[j].1, out@[j].1),
                decreases fields@.len() - i,
            {
                proof {
                    assert(decreases_to!(*expr => (*expr)->Record_fields));
                    assert(decreases_to!(*fields => fields@));
                    assert(decreases_to!(fields@ => fields@[i as int]));
                    assert(decreases_to!(fields@[i as int] => fields@[i as int].1));
                }
                let e = infer(env, state, &fields[i].1)?;
                out.push((fields[i].0.copy(), e));
                i = i + 1;
            }
            Ok(Expression::Record { span: *span, fields: out })
        },
        pre::Expression::RecordAccess { span, target, label } => {
            let var = state.supply.fresh();
            let field_type = state.supply.fresh_type();
            let mut row: Vec<(Name, Type)> = Vec::new();
            row.push((label.copy(), copy_type(&field_type)));
            let expected = Type::RecordOpen { open_kind: Kind::Type, open_var: var, open_source_name: None, open_row: row };
            let target = check(env, state, expected, target)?;
            Ok(Expression::RecordAccess { span: *span, field_type, target: Box::new(target), label: label.copy() })
        },
    }
}

/// Whether `t` is the type of a function of no parameters that returns the
/// primitive type `p`.
pub open spec fn nullary_returning(t: TypeV, p: PrimType) -> bool {
    match t {
        TypeV::Function { parameters, return_type } => parameters.len() == 0 && *return_type
            == TypeV::PrimConstructor(p),
        _ => false,
    }
}

/// Whether the typed binder `b` is the pre-binder `p` with its type: the
/// annotation where there is one, else an anonymous type variable.
pub open spec fn binder_typed(p: pre::FunctionBinder, b: ast::FunctionBinder) -> bool {
    let annotation = match p {
        pre::FunctionBinder::Name { type_annotation, .. } => type_annotation,
        pre::FunctionBinder::Unused { type_annotation, .. } => type_annotation,
    };
    match annotation {
        Some(t) => b.binder_type_view() == t@,
        None => b.binder_type_view() matches TypeV::Variable { source_name: None, .. },
    }
}

/// Whether the binders at `i` and `j` both name a value, and the same one.
pub open spec fn same_binder_name(bs: Seq<pre::FunctionBinder>, i: int, j: int) -> bool {
    &&& bs[i] is Name
    &&& bs[j] is Name
    &&& bs[i]->Name_value@ == bs[j]->Name_value@
}

/// Whether two binders of a function name the same value.
pub open spec fn duplicate_binders(bs: Seq<pre::FunctionBinder>) -> bool {
    exists|i: int, j: int| 0 <= i < j < bs.len() && #[trigger] same_binder_name(bs, i, j)
}

/// Works out the type of a function expression.
fn infer_function(env: &Env, state: &mut State, expr: &pre::Expression) -> (r: Result<Expression, TypeError>)
    requires
        state_ok(*old(state)),
        expr is Function,
    ensures
        state_ok(*final(state)),
        r is Ok ==> elaborates(*expr, r->Ok_0),
        match *expr {
            pre::Expression::Function { span, binders, return_type_annotation, body } => {
                &&& duplicate_binders(binders@) ==> match r {
                    Err(TypeError::DuplicateFunctionBinder { .. }) => true,
                    _ => false,
                }
                &&& (binders@.len() == 0 && return_type_annotation is None && literal_type(*body) is Some) ==> match r {
                    Ok(e) => e is Function && e.span_of() == span && *final(state) == *old(state) && nullary_returning(
                        type_of(e),
                        literal_type(*body)->0,
                    ),
                    Err(_) => false,
                }
                &&& match r {
                    Ok(Expression::Function { binders: bs, .. }) => bs@.len() == binders@.len() && forall|k: int|
                        0 <= k < binders@.len() ==> binder_typed(#[trigger] binders@[k], bs@[k]),
                    _ => true,
                }
            },
            _ => true,
        },
    decreases expr, 1nat,
{
    match expr {
        pre::Expression::Function { span, binders: pre_binders, return_type_annotation, body } => {
            if pre_binders.len() == 0 {
                let body = match return_type_annotation {
                    Some(expected) => check(env, state, copy_type(expected), body)?,
                    None => infer(env, state, body)?,
                };
                return Ok(Expression::Function { span: *span, binders: Vec::new(), body: Box::new(body) });
            }
            let mut binders: Vec<ast::FunctionBinder> = Vec::new();
            let mut i: usize = 0;
            while i < pre_binders.len()
                invariant
                    state_ok(*state),
                    i <= pre_binders@.len(),
                    binders@.len() == i,
                    forall|k: int|
                        0 <= k < i ==> ((#[trigger] binders@[k]) is Name) == (pre_binders@[k] is Name) && (
                        binders@[k] is Name ==> binders@[k]->Name_value@ == pre_binders@[k]->Name_value@),
                    forall|a: int, b: int| 0 <= a < b < i ==> !#[trigger] same_binder_name(pre_binders@, a, b),
                    (*expr)->Function_binders == *pre_binders,
                    forall|k: int| 0 <= k < i ==> binder_typed(#[trigger] pre_binders@[k], binders@[k]),
                decreases pre_binders@.len() - i,
            {
                match &pre_binders[i] {
                    pre::FunctionBinder::Name { span, type_annotation, value } => {
                        // A binder may not reuse the name of an earlier one.
                        let mut j: usize = 0;
                        while j < binders.len()
                            invariant
                                state_ok(*state),
                                j <= binders@.len(),
                                i < pre_binders@.len(),
                                (*expr)->Function_binders == *pre_binders,
                                forall|m: int|
                                    0 <= m < j ==> (#[trigger] binders@[m]) is Name ==> binders@[m]->Name_value@
                                        != value@,
                            decreases binders@.len() - j,
                        {
                            match &binders[j] {
                                ast::FunctionBinder::Name { span: found_span, value: found_value, .. } => {
                                    if value.eq(found_value) {
                                        return Err(
                                            TypeError::DuplicateFunctionBinder {
                                                previous_binder: *found_span,
                                                duplicate_binder: *span,
                                            },
                                        );
                                    }
                                },
                                _ => {},
                            }
                            j = j + 1;
                        }
                        let binder_type = match type_annotation {
                            Some(t) => copy_type(t),
                            None => state.supply.fresh_type(),
                        };
                        proof {
                            assert forall|a: int, b: int| 0 <= a < b < i + 1 implies !#[trigger] same_binder_name(
                                pre_binders@,
                                a,
                                b,
                            ) by {
                                if b == i {
                                    assert((binders@[a] is Name) == (pre_binders@[a] is Name));
                                }
                            }
                        }
                        binders.push(ast::FunctionBinder::Name { span: *span, binder_type, value: value.copy() });
                    },
                    pre::FunctionBinder::Unused { span, type_annotation, value } => {
                        let binder_type = match type_annotation {
                            Some(t) => copy_type(t),
                            None => state.supply.fresh_type(),
                        };
                        binders.push(ast::FunctionBinder::Unused { span: *span, binder_type, value: value.copy() });
                    },
                }
                i = i + 1;
            }
            let mut values: Vec<LocalValue> = Vec::new();
            let mut k: usize = 0;
            while k < binders.len()
                invariant
                    k <= binders@.len(),
                decreases binders@.len() - k,
            {
                match &binders[k] {
                    ast::FunctionBinder::Name { span, binder_type, value } => {
                        values.push(LocalValue { span: *span, value_type: copy_type(binder_type), name: value.copy() });
                    },
                    ast::FunctionBinder::Unused { .. } => {},
                }
                k = k + 1;
            }
            let (body, unused_spans) = if values.len() == 0 {
                let body = match return_type_annotation {
                    Some(expected) => check(env, state, copy_type(expected), body)?,
                    None => infer(env, state, body)?,
                };
                (body, Vec::new())
            } else {
                let scope = extend_env(env, state, values);
                let body = match return_type_annotation {
                    Some(expected) => check(&scope.env, state, copy_type(expected), body)?,
                    None => infer(&scope.env, state, body)?,
                };
                let unused_spans = close_scope(state, scope);
                (body, unused_spans)
            };
            let mut u: usize = 0;
            while u < unused_spans.len()
                invariant
                    state_ok(*state),
                    u <= unused_spans@.len(),
                decreases unused_spans@.len() - u,
            {
                state.warnings.push(Warning::UnusedFunctionBinder { span: unused_spans[u] });
                u = u + 1;
            }
            Ok(Expression::Function { span: *span, binders, body: Box::new(body) })
        },
        _ => too_deep(pre_span(expr)),
    }
}

/// Where a pre-expression is.
pub fn pre_span(expr: &pre::Expression) -> (r: Span)
    ensures
        r == expr.span_of(),
{
    match expr {
        pre::Expression::Function { span, .. } => *span,
        pre::Expression::Call { span, .. } => *span,
        pre::Expression::If { span, .. } => *span,
        pre::Expression::Constructor { span, .. } => *span,
        pre::Expression::Match { span, .. } => *span,
        pre::Expression::Effect { span, .. } => *span,
        pre::Expression::Variable { span, .. } => *span,
        pre::Expression::String { span, .. } => *span,
        pre::Expression::Int { span, .. } => *span,
        pre::Expression::Float { span, .. } => *span,
        pre::Expression::Array { span, .. } => *span,
        pre::Expression::Record { span, .. } => *span,
        pre::Expression::RecordAccess { span, .. } => *span,
        pre::Expression::True { span } => *span,
        pre::Expression::False { span } => *span,
        pre::Expression::Unit { span } => *span,
    }
}

/// Unifies `expected` with a literal's type and builds the literal at `expected`.
fn check_literal(state: &mut State, expected: Type, expr: &pre::Expression, p: PrimType) -> (r: Result<
    Expression,
    TypeError,
>)
    requires
        state_ok(*old(state)),
        literal_type(*expr) == Some(p),
    ensures
        state_ok(*final(state)),
        r is Ok ==> elaborates(*expr, r->Ok_0),
        literal_check(expected@, *expr, r),
        expected@ is PrimConstructor ==> final(state).substitution@ == old(state).substitution@,
{
    let span = pre_span(expr);
    proof {
        lemma_prim_applies(state.substitution@, TypeV::PrimConstructor(p));
        if expected@ is PrimConstructor {
            lemma_prim_applies(state.substitution@, expected@);
        }
    }
    unify(state, span, Constraint { expected: copy_type(&expected), actual: prim(p) })?;
    match expr {
        pre::Expression::True { span } => Ok(Expression::True { span: *span, value_type: expected }),
        pre::Expression::False { span } => Ok(Expression::False { span: *span, value_type: expected }),
        pre::Expression::Unit { span } => Ok(Expression::Unit { span: *span, value_type: expected }),
        pre::Expression::String { span, value } => Ok(
            Expression::String { span: *span, value: value.clone(), value_type: expected },
        ),
        pre::Expression::Int { span, value } => Ok(
            Expression::Int { span: *span, value: value.clone(), value_type: expected },
        ),
        pre::Expression::Float { span, value } => Ok(
            Expression::Float { span: *span, value: value.clone(), value_type: expected },
        ),
        _ => too_deep(span),
    }
}

/// Whether `t` is `Effect(a)` for some type `a`.
pub open spec fn is_effect_type(t: TypeV) -> bool {
    match t {
        TypeV::Call { function, arguments } => *function == TypeV::PrimConstructor(PrimType::Effect) && arguments.len()
            == 1,
        _ => false,
    }
}

/// Holds an expression to an expected type.
pub fn check(env: &Env, state: &mut State, expected: Type, expr: &pre::Expression) -> (r: Result<Expression, TypeError>)
    requires
        state_ok(*old(state)),
    ensures
        state_ok(*final(state)),
        r is Ok ==> elaborates(*expr, r->Ok_0),
        literal_check(expected@, *expr, r),
        literal_type(*expr) is Some && expected@ is PrimConstructor ==> final(state).substitution@ == old(
            state,
        ).substitution@,
        r is Ok && (*expr is If || *expr is Array || *expr is Match) ==> type_of(r->Ok_0) == expected@,
        r is Ok && *expr is Effect && is_effect_type(expected@) ==> type_of(r->Ok_0) == expected@,
    decreases expr, 3nat,
{
    match expr {
        pre::Expression::If { span, condition, true_clause, false_clause } => {
            let condition = check(env, state, prim(PrimType::Bool), condition)?;
            let true_clause = check(env, state, copy_type(&expected), true_clause)?;
            let false_clause = check(env, state, copy_type(&expected), false_clause)?;
            return Ok(
                Expression::If {
                    span: *span,
                    output_type: expected,
                    condition: Box::new(condition),
                    true_clause: Box::new(true_clause),
                    false_clause: Box::new(false_clause),
                },
            );
        },
        pre::Expression::Match { .. } => {
            return infer_or_check_match(env, state, expr, Some(expected));
        },
        pre::Expression::Call { .. } => {
            return infer_or_check_call(env, state, Some(expected), expr);
        },
        pre::Expression::Effect { span, effect } => {
            match &expected {
                Type::Call { function, arguments } => {
                    let ghost fv = (**function)@;
                    proof {
                        assert(expected@->Call_function == Box::new(fv));
                    }
                    match &**function {
                        Type::PrimConstructor(PrimType::Effect) => {
                            if arguments.len() == 1 {
                                let return_type = copy_type(&arguments[0]);
                                proof {
                                    assert(expected@->Call_arguments =~= seq![return_type@]);
                                    assert(effect_type_view(return_type@) =~= expected@);
                                }
                                let effect = check_effect(env, state, copy_type(&return_type), effect)?;
                                return Ok(Expression::Effect { span: *span, return_type, effect });
                            }
                        },
                        _ => {
                            proof {
                                assert(fv != TypeV::PrimConstructor(PrimType::Effect));
                            }
                        },
                    }
                    proof {
                        assert(!is_effect_type(expected@));
                    }
                },
                _ => {},
            }
            proof {
                assert(!is_effect_type(expected@));
            }
        },
        pre::Expression::Record { span, fields } => {
            match &expected {
                Type::RecordClosed { closed_row, .. } => {
                    if fields.len() == closed_row.len() && all_labels_in(fields, closed_row) {
                        let mut out: Vec<(Name, Expression)> = Vec::new();
                        let mut i: usize = 0;
                        while i < fields.len()
                            invariant
                                state_ok(*state),
                                *expr == (pre::Expression::Record { span: *span, fields: *fields }),
                                i <= fields@.len(),
                                out@.len() == i,
                                forall|j: int|
                                    0 <= j < i ==> out@[j].0@ == (#[trigger] fields@[j]).0@ && elaborates(
                                        fields@[j].1,
                                        out@[j].1,
                                    ),
                            decreases fields@.len() - i,
                        {
                            proof {
                                assert(decreases_to!(*expr => (*expr)->Record_fields));
                                assert(decreases_to!(*fields => fields@));
                                assert(decreases_to!(fields@ => fields@[i as int]));
                                assert(decreases_to!(fields@[i as int] => fields@[i as int].1));
                            }
                            let field_type = match row_lookup(closed_row, &fields[i].0) {
                                Some(t) => copy_type(t),
                                None => {
                                    return too_deep(*span);
                                },
                            };
                            let e = check(env, state, field_type, &fields[i].1)?;
                            out.push((fields[i].0.copy(), e));
                            i = i + 1;
                        }
                        return Ok(Expression::Record { span: *span, fields: out });
                    }
                },
                _ => {},
            }
        },
        pre::Expression::True { .. } => {
            return check_literal(state, expected, expr, PrimType::Bool);
        },
        pre::Expression::False { .. } => {
            return check_literal(state, expected, expr, PrimType::Bool);
        },
        pre::Expression::Unit { .. } => {
            return check_literal(state, expected, expr, PrimType::Unit);
        },
        pre::Expression::String { .. } => {
            return check_literal(state, expected, expr, PrimType::String);
        },
        pre::Expression::Int { .. } => {
            return check_literal(state, expected, expr, PrimType::Int);
        },
        pre::Expression::Float { .. } => {
            return check_literal(state, expected, expr, PrimType::Float);
        },
        _ => {},
    }
    // Otherwise: infer, then unify with what was expected.
    let expression = infer(env, state, expr)?;
    unify(
        state,
        expression.get_span(),
        Constraint { expected: copy_type(&expected), actual: expression.get_type() },
    )?;
    match expression {
        Expression::Array { element_type, elements, span, value_type: _ } => Ok(
            Expression::Array { element_type, elements, span, value_type: expected },
        ),
        expression => Ok(expression),
    }
}

/// Whether some entry of the row has label `label`.
pub open spec fn row_has_label(row: Seq<(Name, Type)>, label: Seq<char>) -> bool {
    exists|j: int| 0 <= j < row.len() && row[j].0@ == label
}

/// Whether every field's label is in the row.
fn all_labels_in(fields: &Vec<(Name, pre::Expression)>, row: &Vec<(Name, Type)>) -> (r: bool)
    ensures
        r <==> forall|i: int| 0 <= i < fields@.len() ==> row_has_label(row@, (#[trigger] fields@[i]).0@),
{
    let mut i: usize = 0;
    while i < fields.len()
        invariant
            i <= fields@.len(),
            forall|k: int| 0 <= k < i ==> row_has_label(row@, (#[trigger] fields@[k]).0@),
        decreases fields@.len() - i,
    {
        match row_lookup(row, &fields[i].0) {
            Some(_) => {},
            None => {
                return false;
            },
        }
        i = i + 1;
    }
    true
}

/// The type labelled `label` in a row.
fn row_lookup<'a>(row: &'a Vec<(Name, Type)>, label: &Name) -> (r: Option<&'a Type>)
    ensures
        match r {
            Some(t) => exists|i: int| 0 <= i < row@.len() && row@[i].0@ == label@ && row@[i].1 == *t,
            None => forall|i: int| 0 <= i < row@.len() ==> row@[i].0@ != label@,
        },
{
    let mut i: usize = 0;
    while i < row.len()
        invariant
            i <= row@.len(),
            forall|j: int| 0 <= j < i ==> row@[j].0@ != label@,
        decreases row@.len() - i,
    {
        if row[i].0.eq(label) {
            return Some(&row[i].1);
        }
        i = i + 1;
    }
    None
}

/// Types a call, against the expected type of its result if there is one.
fn infer_or_check_call(env: &Env, state: &mut State, expected_call_type: Option<Type>, expr: &pre::Expression) -> (r:
    Result<Expression, TypeError>)
    requires
        state_ok(*old(state)),
        expr is Call,
    ensures
        state_ok(*final(state)),
        r is Ok ==> elaborates(*expr, r->Ok_0),
        match *expr {
            pre::Expression::Call { function, arguments, .. } => {
                &&& literal_type(*function) is Some ==> match r {
                    Err(TypeError::NotAFunction { span: s, actual_type: t }) => s == function.span_of() && t@
                        == TypeV::PrimConstructor(literal_type(*function)->0),
                    _ => false,
                }
                &&& match *function {
                    pre::Expression::Function { binders, return_type_annotation, body, .. } => (binders@.len() == 0
                        && return_type_annotation is None && literal_type(*body) is Some && arguments@.len() == 0
                        && expected_call_type is None) ==> r is Ok,
                    _ => true,
                }
            },
            _ => true,
        },
    decreases expr, 1nat,
{
    match expr {
        pre::Expression::Call { span, function, arguments } => {
            let function = infer(env, state, function)?;
            let function_span = function.get_span();
            let ft = function.get_type();
            proof {
                let s = state.substitution@;
                let f = (APPLY_FUEL - 1) as nat;
                if let TypeV::PrimConstructor(_) = ft@ {
                    assert(apply_spec(s, ft@, 0, APPLY_FUEL as nat) == Some(ft@));
                }
                if let TypeV::Function { parameters, return_type } = ft@ {
                    if parameters.len() == 0 && (*return_type) is PrimConstructor {
                        assert(apply_seq(s, parameters, 0, 0, f) == Some(Seq::<TypeV>::empty()));
                        assert(apply_spec(s, *return_type, 0, f) == Some(*return_type));
                        assert(parameters =~= Seq::<TypeV>::empty());
                        assert(apply_spec(s, ft@, 0, APPLY_FUEL as nat) == Some(ft@));
                    }
                }
            }
            let mut function_type = applied_type(state, function_span, &ft)?;
            let ghost av = function_type@;
            match &function {
                // An immediately invoked function expression: its named type
                // variables must not stand in the way of its arguments' types.
                Expression::Function { .. } => {
                    function_type = anonymize(&function_type);
                },
                _ => {},
            }
            proof {
                let fe = (*expr)->Call_function;
                if literal_type(*fe) is Some {
                    assert(function_type@ == TypeV::PrimConstructor(literal_type(*fe)->0));
                }
                if let TypeV::Function { parameters, return_type } = ft@ {
                    if parameters.len() == 0 && (*return_type) is PrimConstructor && function is Function {
                        assert(av == ft@);
                        assert(function_type@ == anonymize_spec(av));
                        assert(function_type@ is Function && function_type@->Function_parameters.len() == 0);
                    }
                }
            }
            match function_type {
                Type::Function { parameters, return_type } => {
                    match expected_call_type {
                        Some(expected) => {
                            unify(
                                state,
                                function_span,
                                Constraint { expected, actual: copy_type(&return_type) },
                            )?;
                        },
                        None => {},
                    }
                    if arguments.len() != parameters.len() {
                        return Err(
                            TypeError::ArgumentLengthMismatch {
                                function_span,
                                wanted: parameters.len(),
                                got: arguments.len(),
                            },
                        );
                    }
                    let mut checked: Vec<ast::Argument> = Vec::new();
                    let mut i: usize = 0;
                    while i < arguments.len()
                        invariant
                            state_ok(*state),
                            *expr == (pre::Expression::Call { span: *span, function: (*expr)->Call_function, arguments: *arguments }),
                            literal_type(*(*expr)->Call_function) is None,
                            arguments@.len() == parameters@.len(),
                            i <= arguments@.len(),
                            checked@.len() == i,
                            forall|j: int| 0 <= j < i ==> argument_elaborates(#[trigger] arguments@[j], checked@[j]),
                        decreases arguments@.len() - i,
                    {
                        proof {
                            assert(decreases_to!(*expr => (*expr)->Call_arguments));
                            assert(decreases_to!(*arguments => arguments@));
                            assert(decreases_to!(arguments@ => arguments@[i as int]));
                        }
                        match &arguments[i] {
                            pre::Argument::Expression(e) => {
                                proof {
                                    assert(decreases_to!(arguments@[i as int] => *e));
                                }
                                let a = check(env, state, copy_type(&parameters[i]), e)?;
                                checked.push(ast::Argument::Expression(a));
                            },
                        }
                        i = i + 1;
                    }
                    Ok(
                        Expression::Call {
                            span: *span,
                            call_type: *return_type,
                            function: Box::new(function),
                            arguments: checked,
                        },
                    )
                },
                Type::Variable { variable_kind, var, source_name } => {
                    let type_variable = Type::Variable { variable_kind, var, source_name };
                    let mut checked: Vec<ast::Argument> = Vec::new();
                    let mut parameters: Vec<Type> = Vec::new();
                    let mut i: usize = 0;
                    while i < arguments.len()
                        invariant
                            state_ok(*state),
                            *expr == (pre::Expression::Call { span: *span, function: (*expr)->Call_function, arguments: *arguments }),
                            literal_type(*(*expr)->Call_function) is None,
                            i <= arguments@.len(),
                            checked@.len() == i,
                            forall|j: int| 0 <= j < i ==> argument_elaborates(#[trigger] arguments@[j], checked@[j]),
                        decreases arguments@.len() - i,
                    {
                        proof {
                            assert(decreases_to!(*expr => (*expr)->Call_arguments));
                            assert(decreases_to!(*arguments => arguments@));
                            assert(decreases_to!(arguments@ => arguments@[i as int]));
                        }
                        match &arguments[i] {
                            pre::Argument::Expression(e) => {
                                proof {
                                    assert(decreases_to!(arguments@[i as int] => *e));
                                }
                                let a = infer(env, state, e)?;
                                parameters.push(a.get_type());
                                checked.push(ast::Argument::Expression(a));
                            },
                        }
                        i = i + 1;
                    }
                    let call_type = match expected_call_type {
                        Some(t) => t,
                        None => state.supply.fresh_type(),
                    };
                    let constraint = Constraint {
                        expected: Type::Function { parameters, return_type: Box::new(copy_type(&call_type)) },
                        actual: type_variable,
                    };
                    unify(state, function_span, constraint)?;
                    Ok(Expression::Call { span: *span, call_type, function: Box::new(function), arguments: checked })
                },
                function_type => Err(TypeError::NotAFunction { span: function_span, actual_type: function_type }),
            }
        },
        _ => too_deep(pre_span(expr)),
    }
}

/// Holds the statements of an effect block to the type they return.
fn check_effect(env: &Env, state: &mut State, expected_return_type: Type, effect: &pre::Effect) -> (r: Result<
    ast::Effect,
    TypeError,
>)
    requires
        state_ok(*old(state)),
    ensures
        state_ok(*final(state)),
        r is Ok ==> effect_elaborates(*effect, r->Ok_0),
        match *effect {
            pre::Effect::Return { expression } => match (expected_return_type@, literal_type(*expression)) {
                (TypeV::PrimConstructor(q), Some(p)) => match r {
                    Ok(_) => p == q,
                    Err(TypeError::TypesNotEqual { span, expected, actual }) => p != q && span
                        == expression.span_of() && expected@ == expected_return_type@ && actual@
                        == TypeV::PrimConstructor(p),
                    Err(_) => false,
                },
                _ => true,
            },
            _ => true,
        },
    decreases effect, 0nat,
{
    match effect {
        pre::Effect::Return { expression } => {
            let expression = check(env, state, expected_return_type, expression)?;
            Ok(ast::Effect::Return { expression: Box::new(expression) })
        },
        pre::Effect::Expression { expression, rest: None } => {
            let expected_type = mk_effect_type(expected_return_type);
            let expression = check(env, state, expected_type, expression)?;
            Ok(ast::Effect::Expression { expression: Box::new(expression), rest: None })
        },
        pre::Effect::Expression { expression, rest: Some(rest) } => {
            let expected_type = mk_effect_type(state.supply.fresh_type());
            let expression = check(env, state, expected_type, expression)?;
            let rest = check_effect(env, state, expected_return_type, rest)?;
            Ok(ast::Effect::Expression { expression: Box::new(expression), rest: Some(Box::new(rest)) })
        },
        pre::Effect::Bind { name, name_span, expression, rest } => {
            // `name` is not in scope for `expression`.
            let value_type = state.supply.fresh_type();
            let expression = check(env, state, mk_effect_type(copy_type(&value_type)), expression)?;
            let mut values: Vec<LocalValue> = Vec::new();
            values.push(LocalValue { span: *name_span, value_type, name: name.copy() });
            let scope = extend_env(env, state, values);
            let rest = check_effect(&scope.env, state, expected_return_type, rest)?;
            let unused_spans = close_scope(state, scope);
            let mut u: usize = 0;
            while u < unused_spans.len()
                invariant
                    state_ok(*state),
                    u <= unused_spans@.len(),
                decreases unused_spans@.len() - u,
            {
                state.warnings.push(Warning::UnusedEffectBinder { span: unused_spans[u] });
                u = u + 1;
            }
            Ok(ast::Effect::Bind { name: name.copy(), expression: Box::new(expression), rest: Box::new(rest) })
        },
    }
}

/// Types one arm of a match: its pattern against the matched type, then its
/// expression in the scope of the pattern's variables.
fn check_arm(
    env: &Env,
    state: &mut State,
    expr: &pre::Expression,
    arm: &(pre::Pattern, pre::Expression),
    pattern_type: &Type,
    match_type: Option<Type>,
) -> (r: Result<(ast::Pattern, Expression, Type), TypeError>)
    requires
        state_ok(*old(state)),
        decreases_to!(*expr => arm.1),
    ensures
        state_ok(*final(state)),
        r is Ok ==> elaborates(arm.1, r->Ok_0.1),
        r is Ok && match_type is Some ==> r->Ok_0.2@ == match_type->0@,
        (arm.0 is Variable || arm.0 is Unused) && literal_type(arm.1) is Some && match_type is None ==> match r {
            Ok(x) => (arm.0 is Variable ==> x.0 is Variable) && (arm.0 is Unused ==> x.0 is Unused),
            Err(_) => false,
        },
    decreases expr, 0nat,
{
    let mut local_values: Vec<LocalValue> = Vec::new();
    let pattern = check_pattern(env, state, &mut local_values, copy_type(pattern_type), &arm.0)?;
    let (arm_expression, arm_type, unused_spans) = if local_values.len() == 0 {
        match match_type {
            Some(expected) => {
                let e = check(env, state, copy_type(&expected), &arm.1)?;
                (e, expected, Vec::new())
            },
            None => {
                let e = infer(env, state, &arm.1)?;
                let t = e.get_type();
                (e, t, Vec::new())
            },
        }
    } else {
        let scope = extend_env(env, state, local_values);
        let (e, t) = match match_type {
            Some(expected) => {
                let e = check(&scope.env, state, copy_type(&expected), &arm.1)?;
                (e, expected)
            },
            None => {
                let e = infer(&scope.env, state, &arm.1)?;
                let t = e.get_type();
                (e, t)
            },
        };
        let unused_spans = close_scope(state, scope);
        (e, t, unused_spans)
    };
    let mut u: usize = 0;
    while u < unused_spans.len()
        invariant
            state_ok(*state),
            u <= unused_spans@.len(),
        decreases unused_spans@.len() - u,
    {
        state.warnings.push(Warning::UnusedPatternBinder { span: unused_spans[u] });
        u = u + 1;
    }
    Ok((pattern, arm_expression, arm_type))
}

/// Types a match: every arm at the type of the first (or the expected type),
/// then checks that the patterns cover every value.
fn infer_or_check_match(env: &Env, state: &mut State, expr: &pre::Expression, match_type: Option<Type>) -> (r: Result<
    Expression,
    TypeError,
>)
    requires
        state_ok(*old(state)),
        expr is Match,
    ensures
        state_ok(*final(state)),
        r is Ok ==> elaborates(*expr, r->Ok_0),
        r is Ok && match_type is Some ==> type_of(r->Ok_0) == match_type->0@,
        match *expr {
            pre::Expression::Match { expression, head_arm, tail_arms, .. } => (match_type is None && tail_arms@.len()
                == 0 && (head_arm.0 is Variable || head_arm.0 is Unused) && literal_type(*expression) is Some
                && literal_type(head_arm.1) is Some) ==> r is Ok,
            _ => true,
        },
    decreases expr, 1nat,
{
    match expr {
        pre::Expression::Match { span, expression, head_arm, tail_arms } => {
            let expression = infer(env, state, expression)?;
            let pattern_type = expression.get_type();
            proof {
                assert(decreases_to!(*expr => (*expr)->head_arm));
                assert(decreases_to!((*expr)->head_arm => ((*expr)->head_arm).1));
            }
            let (head_pattern, head_expression, match_type) = check_arm(
                env,
                state,
                expr,
                head_arm,
                &pattern_type,
                match_type,
            )?;
            let mut arms: Vec<(ast::Pattern, Expression)> = Vec::new();
            arms.push((head_pattern, head_expression));
            let ghost p0 = arms@[0].0;
            let mut i: usize = 0;
            while i < tail_arms.len()
                invariant
                    state_ok(*state),
                    *expr == (pre::Expression::Match {
                        span: *span,
                        expression: (*expr)->Match_expression,
                        head_arm: *head_arm,
                        tail_arms: *tail_arms,
                    }),
                    i <= tail_arms@.len(),
                    arms@.len() == i + 1,
                    arms@[0].0 == p0,
                    elaborates(head_arm.1, arms@[0].1),
                    forall|j: int| 0 <= j < i ==> elaborates(#[trigger] tail_arms@[j].1, arms@[j + 1].1),
                decreases tail_arms@.len() - i,
            {
                proof {
                    assert(decreases_to!(*expr => (*expr)->tail_arms));
                    assert(decreases_to!(*tail_arms => tail_arms@));
                    assert(decreases_to!(tail_arms@ => tail_arms@[i as int]));
                    assert(decreases_to!(tail_arms@[i as int] => tail_arms@[i as int].1));
                }
                let (p, e, _) = check_arm(env, state, expr, &tail_arms[i], &pattern_type, Some(copy_type(&match_type)))?;
                arms.push((p, e));
                i = i + 1;
            }
            let applied = applied_type(state, *span, &pattern_type)?;
            check_exhaustiveness(env, state, *span, applied, &arms)?;
            Ok(Expression::Match { span: *span, match_type, expression: Box::new(expression), arms })
        },
        _ => too_deep(pre_span(expr)),
    }
}

/// Whether some arm of a match binds the whole value to a variable, or leaves
/// it unused: an arm that every value reaches.
pub open spec fn has_catch_all_arm(arms: Seq<(ast::Pattern, Expression)>) -> bool {
    exists|k: int| 0 <= k < arms.len() && ((#[trigger] arms[k]).0 is Variable || arms[k].0 is Unused)
}

/// Fails when the patterns of a match leave some value uncovered, naming the
/// missing patterns shortest first; warns of patterns that nothing reaches.
/// A match with an arm that every value reaches never fails.
pub fn check_exhaustiveness(
    env: &Env,
    state: &mut State,
    match_span: Span,
    pattern_type: Type,
    arms: &Vec<(ast::Pattern, Expression)>,
) -> (r: Result<(), TypeError>)
    requires
        state_ok(*old(state)),
    ensures
        state_ok(*final(state)),
        final(state).supply == old(state).supply,
        final(state).substitution == old(state).substitution,
        final(state).value_references == old(state).value_references,
        final(state).constructor_references == old(state).constructor_references,
        final(state).warnings@.len() >= old(state).warnings@.len(),
        final(state).warnings@.take(old(state).warnings@.len() as int) == old(state).warnings@,
        forall|i: int|
            old(state).warnings@.len() <= i < final(state).warnings@.len() ==> (#[trigger] final(state).warnings@[i]) is RedundantMatchPattern,
        match r {
            Ok(()) => true,
            Err(TypeError::MatchNotExhaustive { match_span: s, missing_patterns }) => s == match_span
                && crate::text::sorted_by_text(true, missing_patterns@) && missing_patterns@.len() > 0,
            Err(_) => false,
        },
        arms@.len() == 1 && (arms@[0].0 is Variable || arms@[0].0 is Unused) ==> r is Ok && final(state).warnings@
            == old(state).warnings@,
        arms@.len() > 1 && (arms@[0].0 is Variable || arms@[0].0 is Unused) ==> r is Ok && final(state).warnings@.len()
            == old(state).warnings@.len() + arms@.len() - 1,
        has_catch_all_arm(arms@) ==> r is Ok,
{
    let mut patterns: Vec<coverage::ClausePattern> = Vec::new();
    let mut i: usize = 0;
    while i < arms.len()
        invariant
            i <= arms@.len(),
            patterns@.len() == i,
            i > 0 && (arms@[0].0 is Variable || arms@[0].0 is Unused) ==> patterns@[0] is Variable,
            forall|k: int| 0 <= k < i ==> coverage::clause_of(#[trigger] arms@[k].0, patterns@[k]),
        decreases arms@.len() - i,
    {
        patterns.push(coverage::ClausePattern::from_pattern(&arms[i].0));
        i = i + 1;
    }
    proof {
        if has_catch_all_arm(arms@) {
            let k = choose|k: int| 0 <= k < arms@.len() && ((#[trigger] arms@[k]).0 is Variable || arms@[k].0 is Unused);
            assert(coverage::clause_of(arms@[k].0, patterns@[k]));
            assert(coverage::some_catch_all(patterns@));
        }
    }
    match coverage::is_exhaustive(&env.constructors, &pattern_type, patterns) {
        None => Ok(()),
        Some(coverage::Error::RedundantClauses(clause_patterns)) => {
            let ghost before = state.warnings@;
            let mut j: usize = 0;
            while j < clause_patterns.len()
                invariant
                    state_ok(*state),
                    j <= clause_patterns@.len(),
                    state.supply == old(state).supply,
                    state.substitution == old(state).substitution,
                    state.value_references == old(state).value_references,
                    state.constructor_references == old(state).constructor_references,
                    before == old(state).warnings@,
                    state.warnings@.len() == before.len() + j,
                    state.warnings@.take(before.len() as int) == before,
                    forall|k: int| before.len() <= k < state.warnings@.len() ==> state.warnings@[k] is RedundantMatchPattern,
                decreases clause_patterns@.len() - j,
            {
                state.warnings.push(Warning::RedundantMatchPattern { span: clause_patterns[j].get_span() });
                proof {
                    assert(state.warnings@.take(before.len() as int) =~= before);
                }
                j = j + 1;
            }
            Ok(())
        },
        Some(coverage::Error::NotCovered(ideal_patterns)) => {
            let mut missing_patterns: Vec<String> = Vec::new();
            let mut j: usize = 0;
            while j < ideal_patterns.len()
                invariant
                    j <= ideal_patterns@.len(),
                    missing_patterns@.len() == j,
                    forall|k: int|
                        0 <= k < j ==> (#[trigger] missing_patterns@[k])@ == coverage::render_ideal(ideal_patterns@[k]),
                decreases ideal_patterns@.len() - j,
            {
                missing_patterns.push(ideal_patterns[j].render());
                j = j + 1;
            }
            let ghost before = missing_patterns@;
            coverage::sort_by_length_then_text(&mut missing_patterns);
            proof {
                broadcast use vstd::seq_lib::group_to_multiset_ensures;

                assert(before.len() > 0);
                assert(missing_patterns@.to_multiset().len() == before.to_multiset().len());
            }
            Err(TypeError::MatchNotExhaustive { match_span, missing_patterns })
        },
        // Well-typed patterns are never malformed, and the search never runs
        // out of its allowance in practice: nothing to report.
        Some(_) => Ok(()),
    }
}

/// Checks a pattern against the type it must match, collecting the variables it binds.
/// Whether every argument of a constructor pattern is a variable.
pub open spec fn all_variables(arguments: Seq<pre::Pattern>) -> bool {
    forall|k: int| 0 <= k < arguments.len() ==> (#[trigger] arguments[k]) is Variable
}

/// The signature of constructor `c` with its quantified variables replaced by
/// fresh ones drawn from `next`, when the supply has room for them.
pub open spec fn instantiated_signature(c: EnvConstructor, next: usize) -> Option<TypeV> {
    let scheme = c.scheme_of();
    let start = instance_start(scheme.forall@, next);
    if start + scheme.forall@.len() <= usize::MAX {
        apply_spec(
            instance_subst(scheme.forall@, start, scheme.forall@.len()),
            scheme.signature@,
            0,
            APPLY_FUEL as nat,
        )
    } else {
        None
    }
}

/// The variables `arguments` of a constructor pattern are bound by position:
/// the `k`-th is the `k`-th local value after the first `base`, under its own
/// name, with the `k`-th parameter type of the signature `sig` as the
/// substitution `s` resolves it.
pub open spec fn binds_by_position(
    sig: TypeV,
    s: Map<usize, TypeV>,
    base: int,
    locals: Seq<LocalValue>,
    arguments: Seq<pre::Pattern>,
) -> bool {
    match apply_spec(s, sig, 0, APPLY_FUEL as nat) {
        Some(TypeV::Function { parameters, .. }) => {
            &&& parameters.len() == arguments.len()
            &&& locals.len() == base + arguments.len()
            &&& forall|k: int|
                0 <= k < arguments.len() ==> {
                    &&& (#[trigger] locals[base + k]).value_type@ == parameters[k]
                    &&& locals[base + k].name@ == arguments[k]->Variable_name@
                }
        },
        _ => false,
    }
}

/// Some constructor of `env` named `constructor`, instantiated from the supply
/// `next`, binds the variables `arguments` by position (see [binds_by_position]).
pub open spec fn constructor_binds_by_position(
    env: Env,
    constructor: QualifiedProperName,
    next: usize,
    s: Map<usize, TypeV>,
    base: int,
    locals: Seq<LocalValue>,
    arguments: Seq<pre::Pattern>,
) -> bool {
    exists|i: int|
        0 <= i < env.constructors@.len() && (#[trigger] env.constructors@[i]).0@ == constructor@ && match instantiated_signature(
            env.constructors@[i].1,
            next,
        ) {
            Some(sig) => binds_by_position(sig, s, base, locals, arguments),
            None => true,
        }
}

/// The type that a constructor's signature `sig` builds: its return type, or
/// the signature itself for a constructor without arguments.
pub open spec fn built_type(sig: TypeV) -> TypeV {
    match sig {
        TypeV::Function { return_type, .. } => *return_type,
        _ => sig,
    }
}

/// Some constructor of `env` named `constructor` builds, once instantiated
/// from the supply `next`, the type `expected` where both are ground (and
/// nested less deep than unification looks).
pub open spec fn constructor_builds(env: Env, constructor: QualifiedProperName, next: usize, expected: TypeV) -> bool {
    exists|i: int|
        0 <= i < env.constructors@.len() && (#[trigger] env.constructors@[i]).0@ == constructor@ && match instantiated_signature(
            env.constructors@[i].1,
            next,
        ) {
            Some(sig) => (ground(expected) && ground(built_type(sig)) && bounded(expected, UNIFY_FUEL as nat)
                && bounded(built_type(sig), UNIFY_FUEL as nat)) ==> same_ground(expected, built_type(sig)),
            None => true,
        }
}

/// Applying a substitution to a function type gives a function type with as
/// many parameters.
proof fn lemma_apply_function_shape(s: Map<usize, TypeV>, t: TypeV, r: TypeV)
    requires
        t is Function,
        apply_spec(s, t, 0, APPLY_FUEL as nat) == Some(r),
    ensures
        r is Function,
        r->Function_parameters.len() == t->Function_parameters.len(),
{
    let ps = t->Function_parameters;
    let f = (APPLY_FUEL - 1) as nat;
    let xs = apply_seq(s, ps, ps.len(), 0, f)->0;
    lemma_apply_seq_len(s, ps, ps.len(), 0, f, xs);
}

/// A list of types with a substitution applied is as long as the list.
proof fn lemma_apply_seq_len(s: Map<usize, TypeV>, ts: Seq<TypeV>, n: nat, d: nat, f: nat, xs: Seq<TypeV>)
    requires
        n <= ts.len(),
        apply_seq(s, ts, n, d, f) == Some(xs),
    ensures
        xs.len() == n,
    decreases n,
{
    if n > 0 {
        let init = apply_seq(s, ts, (n - 1) as nat, d, f)->0;
        lemma_apply_seq_len(s, ts, (n - 1) as nat, d, f, init);
    }
}

pub fn check_pattern(
    env: &Env,
    state: &mut State,
    local_values: &mut Vec<LocalValue>,
    expected: Type,
    pattern: &pre::Pattern,
) -> (r: Result<ast::Pattern, TypeError>)
    requires
        state_ok(*old(state)),
    ensures
        state_ok(*final(state)),
        r is Ok ==> r->Ok_0.span_of() == pattern.span_of(),
        match *pattern {
            pre::Pattern::Unused { span, unused_name } => {
                &&& match r {
                    Ok(ast::Pattern::Unused { span: s, unused_name: n }) => s == span && n@ == unused_name@,
                    _ => false,
                }
                &&& final(local_values)@ == old(local_values)@
                &&& *final(state) == *old(state)
            },
            pre::Pattern::Variable { span, name } => if forall|i: int|
                0 <= i < old(local_values)@.len() ==> (#[trigger] old(local_values)@[i]).name@ != name@ {
                &&& match r {
                    Ok(ast::Pattern::Variable { span: s, name: n }) => s == span && n@ == name@,
                    _ => false,
                }
                &&& final(local_values)@.len() == old(local_values)@.len() + 1
                &&& final(local_values)@.take(old(local_values)@.len() as int) == old(local_values)@
                &&& final(local_values)@.last().span == span
                &&& final(local_values)@.last().name@ == name@
                &&& final(local_values)@.last().value_type@ == expected@
                &&& *final(state) == *old(state)
            } else {
                match r {
                    Err(TypeError::DuplicatePatternBinder { duplicate_binder, .. }) => duplicate_binder == span,
                    _ => false,
                }
            },
            pre::Pattern::Constructor { span, constructor, arguments } => {
                &&& (forall|i: int|
                    0 <= i < env.constructors@.len() ==> env.constructors@[i].0@ != constructor@) ==> match r {
                    Err(TypeError::UnknownConstructor { span: s, constructor: c, .. }) => s == span && c@ == constructor@,
                    _ => false,
                }
                &&& r is Ok ==> constructor_builds(*env, constructor, old(state).supply.0, expected@)
                &&& (r is Ok && arguments@.len() > 0 && all_variables(arguments@)) ==> constructor_binds_by_position(
                    *env,
                    constructor,
                    old(state).supply.0,
                    final(state).substitution@,
                    old(local_values)@.len() as int,
                    final(local_values)@,
                    arguments@,
                )
            },
        },
    decreases pattern,
{
    match pattern {
        pre::Pattern::Constructor { span, constructor, arguments } => {
            state.register_constructor_reference(constructor);
            let env_constructor = match env.lookup_constructor(constructor) {
                Some(c) => c,
                None => {
                    return Err(
                        TypeError::UnknownConstructor {
                            span: *span,
                            constructor: constructor.copy(),
                            ctors_in_scope: env.constructor_names(),
                        },
                    );
                },
            };
            let constructor_type = match env_constructor.get_type(&mut state.supply) {
                Some(t) => t,
                None => {
                    return too_deep(*span);
                },
            };
            let arguments_len = arguments.len();
            let constraint = match &constructor_type {
                Type::Function { parameters, return_type } => {
                    if parameters.len() != arguments_len {
                        return Err(
                            TypeError::ArgumentLengthMismatch {
                                function_span: *span,
                                wanted: parameters.len(),
                                got: arguments_len,
                            },
                        );
                    }
                    Constraint { expected, actual: copy_type(return_type) }
                },
                actual => {
                    if arguments_len != 0 {
                        return Err(
                            TypeError::ArgumentLengthMismatch { function_span: *span, wanted: 0, got: arguments_len },
                        );
                    }
                    Constraint { expected, actual: copy_type(actual) }
                },
            };
            let ghost sig = instantiated_signature(*env_constructor, old(state).supply.0);
            proof {
                if sig is Some {
                    assert(constructor_type@ == sig->0);
                }
            }
            let ghost constraint_actual = constraint.actual@;
            let ghost expected_view = constraint.expected@;
            unify(state, *span, constraint)?;
            proof {
                let ci = choose|k: int|
                    0 <= k < env.constructors@.len() && env.constructors@[k].0@ == constructor@
                        && env.constructors@[k].1 == *env_constructor;
                if sig is Some {
                    assert(constraint_actual == built_type(sig->0));
                }
                assert(env.constructors@[ci].0@ == constructor@);
                assert(constructor_builds(*env, *constructor, old(state).supply.0, expected_view));
            }
            let applied = applied_type(state, *span, &constructor_type)?;
            let ghost base = local_values@.len() as int;
            let ghost s_mid = state.substitution@;
            proof {
                assert(local_values@ == old(local_values)@);
            }
            match applied {
                Type::Function { parameters, .. } => {
                    proof {
                        if constructor_type is Function {
                            lemma_apply_function_shape(s_mid, constructor_type@, applied@);
                        }
                    }
                    let mut checked: Vec<ast::Pattern> = Vec::new();
                    let mut i: usize = 0;
                    while i < parameters.len() && i < arguments.len()
                        invariant
                            state_ok(*state),
                            exists|k: int|
                                0 <= k < env.constructors@.len() && env.constructors@[k].0@ == constructor@,
                            *pattern == (pre::Pattern::Constructor { span: *span, constructor: *constructor, arguments: *arguments }),
                            i <= arguments@.len(),
                            base == old(local_values)@.len(),
                            all_variables(arguments@) ==> {
                                &&& state.substitution@ == s_mid
                                &&& local_values@.len() == base + i
                                &&& forall|k: int|
                                    0 <= k < i ==> {
                                        &&& (#[trigger] local_values@[base + k]).value_type@ == parameters@[k]@
                                        &&& local_values@[base + k].name@ == arguments@[k]->Variable_name@
                                    }
                            },
                        decreases arguments@.len() - i,
                    {
                        proof {
                            assert(decreases_to!(*pattern => (*pattern)->Constructor_arguments));
                            assert(decreases_to!(*arguments => arguments@));
                            assert(decreases_to!(arguments@ => arguments@[i as int]));
                        }
                        let ghost before = local_values@;
                        let p = check_pattern(env, state, local_values, copy_type(&parameters[i]), &arguments[i])?;
                        proof {
                            if all_variables(arguments@) {
                                assert(arguments@[i as int] is Variable);
                                assert(local_values@.len() == before.len() + 1);
                                assert(local_values@.last().value_type@ == parameters@[i as int]@);
                                assert(local_values@[base + i] == local_values@.last());
                                assert forall|k: int| 0 <= k < i + 1 implies {
                                    &&& (#[trigger] local_values@[base + k]).value_type@ == parameters@[k]@
                                    &&& local_values@[base + k].name@ == arguments@[k]->Variable_name@
                                } by {
                                    if k < i {
                                        assert(local_values@.take(before.len() as int) == before);
                                        assert(local_values@.take(before.len() as int)[base + k] == local_values@[base + k]);
                                        assert(before[base + k].value_type@ == parameters@[k]@);
                                    } else {
                                        assert(local_values@.last().name@ == arguments@[k]->Variable_name@);
                                    }
                                }
                            }
                        }
                        checked.push(p);
                        i = i + 1;
                    }
                    proof {
                        if arguments@.len() > 0 && all_variables(arguments@) {
                            let ci = choose|k: int|
                                0 <= k < env.constructors@.len() && env.constructors@[k].0@ == constructor@
                                    && env.constructors@[k].1 == *env_constructor;
                            assert(env.constructors@[ci].0@ == constructor@);
                        }
                    }
                    Ok(env_constructor.to_pattern(*span, checked))
                },
                _ => {
                    proof {
                        if constructor_type is Function {
                            lemma_apply_function_shape(s_mid, constructor_type@, applied@);
                        }
                    }
                    Ok(env_constructor.to_pattern(*span, Vec::new()))
                },
            }
        },
        pre::Pattern::Variable { span, name } => {
            let mut i: usize = 0;
            while i < local_values.len()
                invariant
                    state_ok(*state),
                    i <= local_values@.len(),
                    local_values@ == old(local_values)@,
                    *pattern == (pre::Pattern::Variable { span: *span, name: *name }),
                    forall|j: int| 0 <= j < i ==> (#[trigger] local_values@[j]).name@ != name@,
                decreases local_values@.len() - i,
            {
                if local_values[i].name.eq(name) {
                    proof {
                        assert(old(local_values)@[i as int].name@ == name@);
                    }
                    let previous = local_values.remove(i);
                    return Err(
                        TypeError::DuplicatePatternBinder { previous_binder: previous.span, duplicate_binder: *span },
                    );
                }
                i = i + 1;
            }
            local_values.push(LocalValue { span: *span, value_type: expected, name: name.copy() });
            proof {
                assert(local_values@.take(old(local_values)@.len() as int) =~= old(local_values)@);
            }
            Ok(ast::Pattern::Variable { span: *span, name: name.copy() })
        },
        pre::Pattern::Unused { span, unused_name } => Ok(
            ast::Pattern::Unused { span: *span, unused_name: unused_name.copy() },
        ),
    }
}

/// The type of a literal: `Bool` for `true` and `false`, `Unit` for `unit`,
/// and so on; none for the other expressions.
pub open spec fn literal_type(e: pre::Expression) -> Option<PrimType> {
    match e {
        pre::Expression::True { .. } => Some(PrimType::Bool),
        pre::Expression::False { .. } => Some(PrimType::Bool),
        pre::Expression::Unit { .. } => Some(PrimType::Unit),
        pre::Expression::String { .. } => Some(PrimType::String),
        pre::Expression::Int { .. } => Some(PrimType::Int),
        pre::Expression::Float { .. } => Some(PrimType::Float),
        _ => None,
    }
}

/// A typed expression stands where the pre-expression `p` stood: at its
/// span, as the same kind of expression, with the same literal values,
/// labels and number of binders, and each part standing where the part of
/// `p` stood. Type checking adds types and changes nothing else.
pub open spec fn elaborates(p: pre::Expression, e: Expression) -> bool
    decreases p, 1nat,
{
    &&& e.span_of() == p.span_of()
    &&& match p {
        pre::Expression::Function { binders, body, .. } => match e {
            Expression::Function { binders: bs, body: b, .. } => bs@.len() == binders@.len() && elaborates(*body, *b),
            _ => false,
        },
        pre::Expression::Call { function, arguments, .. } => match e {
            Expression::Call { function: f, arguments: args, .. } => {
                &&& elaborates(*function, *f)
                &&& args@.len() == arguments@.len()
                &&& forall|i: int| 0 <= i < arguments@.len() ==> argument_elaborates(#[trigger] arguments@[i], args@[i])
            },
            _ => false,
        },
        pre::Expression::If { condition, true_clause, false_clause, .. } => match e {
            Expression::If { condition: c, true_clause: t, false_clause: f, .. } => elaborates(*condition, *c)
                && elaborates(*true_clause, *t) && elaborates(*false_clause, *f),
            _ => false,
        },
        pre::Expression::Constructor { .. } => e is LocalConstructor || e is ImportedConstructor,
        pre::Expression::Match { expression, head_arm, tail_arms, .. } => match e {
            Expression::Match { expression: x, arms, .. } => {
                &&& elaborates(*expression, *x)
                &&& arms@.len() == tail_arms@.len() + 1
                &&& elaborates(head_arm.1, arms@[0].1)
                &&& forall|i: int| 0 <= i < tail_arms@.len() ==> elaborates(#[trigger] tail_arms@[i].1, arms@[i + 1].1)
            },
            _ => false,
        },
        pre::Expression::Effect { effect, .. } => match e {
            Expression::Effect { effect: ef, .. } => effect_elaborates(effect, ef),
            _ => false,
        },
        pre::Expression::Variable { .. } => e is LocalVariable || e is ForeignVariable || e is ImportedVariable,
        pre::Expression::String { value, .. } => match e {
            Expression::String { value: v, .. } => v@ == value@,
            _ => false,
        },
        pre::Expression::Int { value, .. } => match e {
            Expression::Int { value: v, .. } => v@ == value@,
            _ => false,
        },
        pre::Expression::Float { value, .. } => match e {
            Expression::Float { value: v, .. } => v@ == value@,
            _ => false,
        },
        pre::Expression::Array { elements, .. } => match e {
            Expression::Array { elements: es, .. } => {
                &&& es@.len() == elements@.len()
                &&& forall|i: int| 0 <= i < elements@.len() ==> elaborates(#[trigger] elements@[i], es@[i])
            },
            _ => false,
        },
        pre::Expression::Record { fields, .. } => match e {
            Expression::Record { fields: fs, .. } => {
                &&& fs@.len() == fields@.len()
                &&& forall|i: int|
                    0 <= i < fields@.len() ==> fs@[i].0@ == (#[trigger] fields@[i]).0@ && elaborates(fields@[i].1, fs@[i].1)
            },
            _ => false,
        },
        pre::Expression::RecordAccess { target, label, .. } => match e {
            Expression::RecordAccess { target: t, label: l, .. } => elaborates(*target, *t) && l@ == label@,
            _ => false,
        },
        pre::Expression::True { .. } => e is True,
        pre::Expression::False { .. } => e is False,
        pre::Expression::Unit { .. } => e is Unit,
    }
}

/// A typed argument stands where the argument `p` stood.
pub open spec fn argument_elaborates(p: pre::Argument, a: ast::Argument) -> bool
    decreases p, 0nat,
{
    match p {
        pre::Argument::Expression(x) => match a {
            ast::Argument::Expression(y) => elaborates(x, y),
        },
    }
}

/// A typed effect block stands where the block `p` stood: statement for
/// statement, with the same names bound.
pub open spec fn effect_elaborates(p: pre::Effect, e: ast::Effect) -> bool
    decreases p, 0nat,
{
    match p {
        pre::Effect::Return { expression } => match e {
            ast::Effect::Return { expression: x } => elaborates(*expression, *x),
            _ => false,
        },
        pre::Effect::Expression { expression, rest } => match e {
            ast::Effect::Expression { expression: x, rest: r } => elaborates(*expression, *x) && match rest {
                Some(pr) => match r {
                    Some(er) => effect_elaborates(*pr, *er),
                    None => false,
                },
                None => r is None,
            },
            _ => false,
        },
        pre::Effect::Bind { name, expression, rest, .. } => match e {
            ast::Effect::Bind { name: n, expression: x, rest: r } => n@ == name@ && elaborates(*expression, *x)
                && effect_elaborates(*rest, *r),
            _ => false,
        },
    }
}

/// What stands where a pre-expression stood still does, once its types
/// change: elaboration looks past types.
pub proof fn elaboration_ignores_types(p: pre::Expression, a: Expression, b: Expression)
    requires
        elaborates(p, a),
        crate::apply_expr::same_shape(a, b),
    ensures
        elaborates(p, b),
    decreases p, 1nat,
{
    match p {
        pre::Expression::Function { body, .. } => match (a, b) {
            (Expression::Function { body: ab, .. }, Expression::Function { body: bb, .. }) => {
                elaboration_ignores_types(*body, *ab, *bb);
            },
            _ => {},
        },
        pre::Expression::Call { function, arguments, .. } => match (a, b) {
            (
                Expression::Call { function: af, arguments: aa, .. },
                Expression::Call { function: bf, arguments: ba, .. },
            ) => {
                elaboration_ignores_types(*function, *af, *bf);
                assert forall|i: int| 0 <= i < arguments@.len() implies argument_elaborates(
                    #[trigger] arguments@[i],
                    ba@[i],
                ) by {
                    assert(argument_elaborates(arguments@[i], aa@[i]));
                    assert(crate::apply_expr::argument_same_shape(aa@[i], ba@[i]));
                    match arguments@[i] {
                        pre::Argument::Expression(x) => match (aa@[i], ba@[i]) {
                            (ast::Argument::Expression(y), ast::Argument::Expression(z)) => {
                                elaboration_ignores_types(x, y, z);
                            },
                        },
                    }
                }
            },
            _ => {},
        },
        pre::Expression::If { condition, true_clause, false_clause, .. } => match (a, b) {
            (
                Expression::If { condition: ac, true_clause: at, false_clause: af, .. },
                Expression::If { condition: bc, true_clause: bt, false_clause: bf, .. },
            ) => {
                elaboration_ignores_types(*condition, *ac, *bc);
                elaboration_ignores_types(*true_clause, *at, *bt);
                elaboration_ignores_types(*false_clause, *af, *bf);
            },
            _ => {},
        },
        pre::Expression::Match { expression, head_arm, tail_arms, .. } => match (a, b) {
            (Expression::Match { expression: ax, arms: aa, .. }, Expression::Match { expression: bx, arms: ba, .. }) => {
                elaboration_ignores_types(*expression, *ax, *bx);
                assert(crate::apply_expr::same_shape(aa@[0].1, ba@[0].1));
                elaboration_ignores_types(head_arm.1, aa@[0].1, ba@[0].1);
                assert forall|i: int| 0 <= i < tail_arms@.len() implies elaborates(
                    #[trigger] tail_arms@[i].1,
                    ba@[i + 1].1,
                ) by {
                    assert(crate::apply_expr::same_shape(aa@[i + 1].1, ba@[i + 1].1));
                    elaboration_ignores_types(tail_arms@[i].1, aa@[i + 1].1, ba@[i + 1].1);
                }
            },
            _ => {},
        },
        pre::Expression::Effect { effect, .. } => match (a, b) {
            (Expression::Effect { effect: ae, .. }, Expression::Effect { effect: be, .. }) => {
                effect_elaboration_ignores_types(effect, ae, be);
            },
            _ => {},
        },
        pre::Expression::Array { elements, .. } => match (a, b) {
            (Expression::Array { elements: ae, .. }, Expression::Array { elements: be, .. }) => {
                assert forall|i: int| 0 <= i < elements@.len() implies elaborates(#[trigger] elements@[i], be@[i]) by {
                    assert(crate::apply_expr::same_shape(ae@[i], be@[i]));
                    elaboration_ignores_types(elements@[i], ae@[i], be@[i]);
                }
            },
            _ => {},
        },
        pre::Expression::Record { fields, .. } => match (a, b) {
            (Expression::Record { fields: af, .. }, Expression::Record { fields: bf, .. }) => {
                assert forall|i: int| 0 <= i < fields@.len() implies bf@[i].0@ == (#[trigger] fields@[i]).0@
                    && elaborates(fields@[i].1, bf@[i].1) by {
                    assert(crate::apply_expr::same_shape(af@[i].1, bf@[i].1));
                    elaboration_ignores_types(fields@[i].1, af@[i].1, bf@[i].1);
                }
            },
            _ => {},
        },
        pre::Expression::RecordAccess { target, .. } => match (a, b) {
            (Expression::RecordAccess { target: at, .. }, Expression::RecordAccess { target: bt, .. }) => {
                elaboration_ignores_types(*target, *at, *bt);
            },
            _ => {},
        },
        _ => {},
    }
}

/// What stands where an effect block stood still does, once its types change.
pub proof fn effect_elaboration_ignores_types(p: pre::Effect, a: ast::Effect, b: ast::Effect)
    requires
        effect_elaborates(p, a),
        crate::apply_expr::effect_same_shape(a, b),
    ensures
        effect_elaborates(p, b),
    decreases p, 0nat,
{
    match p {
        pre::Effect::Return { expression } => match (a, b) {
            (ast::Effect::Return { expression: ax }, ast::Effect::Return { expression: bx }) => {
                elaboration_ignores_types(*expression, *ax, *bx);
            },
            _ => {},
        },
        pre::Effect::Expression { expression, rest } => match (a, b) {
            (
                ast::Effect::Expression { expression: ax, rest: ar },
                ast::Effect::Expression { expression: bx, rest: br },
            ) => {
                elaboration_ignores_types(*expression, *ax, *bx);
                match (rest, ar, br) {
                    (Some(pr), Some(ar), Some(br)) => {
                        effect_elaboration_ignores_types(*pr, *ar, *br);
                    },
                    _ => {},
                }
            },
            _ => {},
        },
        pre::Effect::Bind { expression, rest, .. } => match (a, b) {
            (
                ast::Effect::Bind { expression: ax, rest: ar, .. },
                ast::Effect::Bind { expression: bx, rest: br, .. },
            ) => {
                elaboration_ignores_types(*expression, *ax, *bx);
                effect_elaboration_ignores_types(*rest, *ar, *br);
            },
            _ => {},
        },
    }
}

/// What holding the literal `e` to the primitive type `expected` gives: the
/// literal at that type where it is the literal's type, else a mismatch
/// between the two.
pub open spec fn literal_check(expected: TypeV, e: pre::Expression, r: Result<Expression, TypeError>) -> bool {
    match (expected, literal_type(e)) {
        (TypeV::PrimConstructor(q), Some(p)) => match r {
            Ok(x) => p == q && type_of(x) == expected && x.span_of() == e.span_of(),
            Err(TypeError::TypesNotEqual { span, expected: t, actual: u }) => p != q && span == e.span_of()
                && t@ == expected && u@ == TypeV::PrimConstructor(p),
            Err(_) => false,
        },
        _ => true,
    }
}

/// What type checking without an annotation is known to give: a conditional
/// on a non-`Bool` literal fails with [TypeError::TypesNotEqual]; one on a
/// `Bool` literal between two literals has their type when they agree and fails
/// with [TypeError::TypesNotEqual] when they do not; calling a literal fails
/// with [TypeError::NotAFunction]; and a function with two binders of one name
/// fails with [TypeError::DuplicateFunctionBinder].
pub open spec fn typecheck_known(e: pre::Expression, r: Result<Typechecked, TypeError>) -> bool {
    &&& if_cond_not_bool(e) ==> match r {
        Err(TypeError::TypesNotEqual { .. }) => true,
        _ => false,
    }
    &&& match if_of_literals(e) {
        Some((p, q)) => match r {
            Ok(t) => p == q && t.expression_type@ == TypeV::PrimConstructor(p),
            Err(x) => p != q && x is TypesNotEqual,
        },
        None => true,
    }
    &&& calls_literal(e) ==> match r {
        Err(TypeError::NotAFunction { .. }) => true,
        _ => false,
    }
    &&& duplicate_function_binders(e) ==> match r {
        Err(TypeError::DuplicateFunctionBinder { .. }) => true,
        _ => false,
    }
}

/// Applying any substitution to a primitive type gives it back.
proof fn lemma_prim_applies(s: Map<usize, TypeV>, t: TypeV)
    requires
        t is PrimConstructor,
    ensures
        crate::apply_expr::applies(s, t),
        apply_spec(s, t, 0, APPLY_FUEL as nat) == Some(t),
{
}

/// A conditional between literals, typed with primitive types throughout,
/// keeps its types under any substitution.
proof fn lemma_literal_if_applies(sb: Map<usize, TypeV>, p: pre::Expression, e: Expression)
    requires
        if_of_literals(p) is Some,
        elaborates(p, e),
        type_of(e) is PrimConstructor,
        match e {
            Expression::If { condition: c, true_clause: t, false_clause: f, .. } => type_of(*c) is PrimConstructor
                && type_of(*t) is PrimConstructor && type_of(*f) is PrimConstructor,
            _ => false,
        },
    ensures
        crate::apply_expr::applies_throughout(sb, e),
{
    if let Expression::If { output_type, condition: c, true_clause: t, false_clause: f, .. } = e {
        if let pre::Expression::If { condition: pc, true_clause: pt, false_clause: pf, .. } = p {
            lemma_prim_applies(sb, output_type@);
            lemma_literal_applies(sb, *pc, *c);
            lemma_literal_applies(sb, *pt, *t);
            lemma_literal_applies(sb, *pf, *f);
        }
    }
}

/// A literal typed with a primitive type keeps it under any substitution.
proof fn lemma_literal_applies(sb: Map<usize, TypeV>, q: pre::Expression, x: Expression)
    requires
        literal_type(q) is Some,
        elaborates(q, x),
        type_of(x) is PrimConstructor,
    ensures
        crate::apply_expr::applies_throughout(sb, x),
{
    lemma_prim_applies(sb, type_of(x));
}

/// The outcome of type checking an expression.
pub struct Typechecked {
    /// The typed expression, with everything learnt applied to its types.
    pub expression: Expression,
    /// The type of the expression as inferred, with everything learnt applied.
    pub expression_type: Type,
    pub warnings: Vec<Warning>,
    pub value_references: References<QualifiedName>,
    pub constructor_references: References<crate::names::QualifiedProperName>,
    /// The supply, where type checking left it.
    pub supply: crate::state::Supply,
    /// The substitution that type checking arrived at.
    pub substitution: Substitution,
}

/// Type checks an expression in `env`, taking fresh type variables from `supply`,
/// against a type annotation if there is one.
///
/// The type returned is the expression's type with the final substitution applied.
pub fn typecheck_with(
    env: &Env,
    supply: crate::state::Supply,
    type_annotation: Option<Type>,
    expression: &pre::Expression,
) -> (r: Result<Typechecked, TypeError>)
    ensures
        match r {
            Ok(t) => (t.substitution@.dom().len() != 0 && crate::apply_expr::has_own_type(t.expression)) ==> type_of(
                t.expression,
            ) == t.expression_type@,
            Err(_) => true,
        },
        r is Ok ==> elaborates(*expression, r->Ok_0.expression),
        type_annotation is None ==> match literal_type(*expression) {
            Some(p) => r matches Ok(t) && t.expression_type@ == TypeV::PrimConstructor(p) && type_of(t.expression)
                == TypeV::PrimConstructor(p) && t.supply.0 == supply.0 && t.warnings@.len() == 0,
            None => true,
        },
        type_annotation is None ==> typecheck_known(*expression, r),
{
    let ghost pre_expression = *expression;
    let mut state = State::new(supply);
    let expression = match type_annotation {
        Some(expected) => check(env, &mut state, expected, expression)?,
        None => infer(env, &mut state, expression)?,
    };
    let span = expression.get_span();
    let t = expression.get_type();
    proof {
        if let TypeV::PrimConstructor(_) = t@ {
            assert(apply_spec(state.substitution@, t@, 0, APPLY_FUEL as nat) == Some(t@));
        }
    }
    let expression_type = match state.substitution.try_apply(&t) {
        Some(t) => t,
        None => {
            return too_deep(span);
        },
    };
    // Every type of the expression, with everything learnt applied.
    let ghost elaborated = expression;
    proof {
        if type_annotation is None && if_of_literals(pre_expression) is Some {
            lemma_literal_if_applies(state.substitution@, pre_expression, elaborated);
        }
    }
    let expression = match state.substitution.apply_expression(expression) {
        Some(e) => e,
        None => {
            return too_deep(span);
        },
    };
    proof {
        if state.substitution@.dom().len() != 0 {
            elaboration_ignores_types(pre_expression, elaborated, expression);
        }
    }
    let State { supply, substitution, warnings, value_references, constructor_references } = state;
    Ok(
        Typechecked {
            expression,
            expression_type,
            warnings,
            value_references,
            constructor_references,
            supply,
            substitution,
        },
    )
}

/// Type checks an expression in the empty environment, with the supply of
/// type variables starting at zero.
pub fn typecheck(type_annotation: Option<Type>, expression: &pre::Expression) -> (r: Result<Typechecked, TypeError>)
    ensures
        match r {
            Ok(t) => (t.substitution@.dom().len() != 0 && crate::apply_expr::has_own_type(t.expression)) ==> type_of(
                t.expression,
            ) == t.expression_type@,
            Err(_) => true,
        },
        r is Ok ==> elaborates(*expression, r->Ok_0.expression),
        type_annotation is None ==> match literal_type(*expression) {
            Some(p) => r matches Ok(t) && t.expression_type@ == TypeV::PrimConstructor(p) && type_of(t.expression)
                == TypeV::PrimConstructor(p) && t.supply.0 == 0 && t.warnings@.len() == 0,
            None => true,
        },
        type_annotation is None ==> typecheck_known(*expression, r),
{
    typecheck_with(&Env::new(), crate::state::Supply(0), type_annotation, expression)
}

} // verus!
