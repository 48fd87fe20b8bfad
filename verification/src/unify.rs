//! Unification of types: making two types equal by binding type variables.
use crate::assoc::{first_key, is_first_key, lemma_first_key, lemma_no_key};
use crate::names::{copy_string, Name, QualifiedName, QualifiedProperName, Span};
use crate::state::{State, TypeError};
use crate::substitution::{apply_seq, apply_spec, opt_type_view, row_insert_exec, Substitution, APPLY_FUEL, MAX_DEPTH};
use crate::typevars::{type_variables, type_variables_spec, vec_contains};
use crate::types::{copy_kind, copy_opt_name, copy_opt_qproper, copy_type, row_view, Kind, KindV, NameV, Type, TypeV};
use vstd::prelude::*;

verus! {

/// The recursion allowance that [unify] starts with.
pub const UNIFY_FUEL: u64 = 0xffff_ffff_ffff_ffff;

/// A wanted equality between two types.
pub struct Constraint {
    pub expected: Type,
    pub actual: Type,
}

/// No variable of the substitution is bound to a type that mentions it.
pub open spec fn subst_wf(s: Map<usize, TypeV>) -> bool {
    forall|v: usize| #[trigger] s.contains_key(v) ==> !type_variables_spec(s[v]).contains(v)
}

/// Whether a type is the type variable `var`.
pub open spec fn is_var(t: TypeV, var: usize) -> bool {
    match t {
        TypeV::Variable { var: v, .. } => v == var,
        _ => false,
    }
}

/// Whether a type is an alias, or an alias applied to arguments.
pub open spec fn is_alias_like(t: TypeV) -> bool {
    ||| t is ConstructorAlias
    ||| match t {
        TypeV::Call { function, .. } => *function is ConstructorAlias,
        _ => false,
    }
}

impl Substitution {
    /// Applies this substitution to both sides of a constraint.
    pub fn apply_constraint(&self, constraint: Constraint) -> (r: Constraint)
        requires
            apply_spec(self@, constraint.expected@, 0, APPLY_FUEL as nat) is Some,
            apply_spec(self@, constraint.actual@, 0, APPLY_FUEL as nat) is Some,
        ensures
            Some(r.expected@) == apply_spec(self@, constraint.expected@, 0, APPLY_FUEL as nat),
            Some(r.actual@) == apply_spec(self@, constraint.actual@, 0, APPLY_FUEL as nat),
    {
        Constraint { expected: self.apply(constraint.expected), actual: self.apply(constraint.actual) }
    }

    /// Applies this substitution to both sides of a constraint;
    /// `None` where either side has no result (see [apply_spec]).
    pub fn try_apply_constraint(&self, constraint: &Constraint) -> (r: Option<Constraint>)
        ensures
            match r {
                Some(c) => Some(c.expected@) == apply_spec(self@, constraint.expected@, 0, APPLY_FUEL as nat)
                    && Some(c.actual@) == apply_spec(self@, constraint.actual@, 0, APPLY_FUEL as nat),
                None => apply_spec(self@, constraint.expected@, 0, APPLY_FUEL as nat) is None
                    || apply_spec(self@, constraint.actual@, 0, APPLY_FUEL as nat) is None,
            },
    {
        match self.try_apply(&constraint.expected) {
            Some(expected) => match self.try_apply(&constraint.actual) {
                Some(actual) => Some(Constraint { expected, actual }),
                None => None,
            },
            None => None,
        }
    }
}

fn copy_qualified_names(v: &Vec<QualifiedName>) -> (r: Vec<QualifiedName>)
    ensures
        r@.len() == v@.len(),
{
    let mut out: Vec<QualifiedName> = Vec::new();
    let mut i: usize = 0;
    while i < v.len()
        invariant
            i <= v@.len(),
            out@.len() == i,
        decreases v@.len() - i,
    {
        out.push(v[i].copy());
        i = i + 1;
    }
    out
}

fn copy_qualified_proper_names(v: &Vec<QualifiedProperName>) -> (r: Vec<QualifiedProperName>)
    ensures
        r@.len() == v@.len(),
{
    let mut out: Vec<QualifiedProperName> = Vec::new();
    let mut i: usize = 0;
    while i < v.len()
        invariant
            i <= v@.len(),
            out@.len() == i,
        decreases v@.len() - i,
    {
        out.push(v[i].copy());
        i = i + 1;
    }
    out
}

fn copy_strings(v: &Vec<String>) -> (r: Vec<String>)
    ensures
        r@.len() == v@.len(),
{
    let mut out: Vec<String> = Vec::new();
    let mut i: usize = 0;
    while i < v.len()
        invariant
            i <= v@.len(),
            out@.len() == i,
        decreases v@.len() - i,
    {
        out.push(copy_string(&v[i]));
        i = i + 1;
    }
    out
}

/// Whether `r` is a copy of the type error `e`: the same variant, with the
/// same span and types where the variant has them.
pub open spec fn copies_error(e: TypeError, r: TypeError) -> bool {
    match (e, r) {
        (TypeError::TypesNotEqual { span: s1, expected: e1, actual: a1 }, TypeError::TypesNotEqual {
            span: s2,
            expected: e2,
            actual: a2,
        }) => s1 == s2 && e1@ == e2@ && a1@ == a2@,
        (TypeError::InfiniteType { span: s1, var: v1, infinite_type: t1 }, TypeError::InfiniteType {
            span: s2,
            var: v2,
            infinite_type: t2,
        }) => s1 == s2 && v1 == v2 && t1@ == t2@,
        (TypeError::UnknownVariable { .. }, TypeError::UnknownVariable { .. }) => true,
        (TypeError::UnknownConstructor { .. }, TypeError::UnknownConstructor { .. }) => true,
        (TypeError::DuplicateFunctionBinder { .. }, TypeError::DuplicateFunctionBinder { .. }) => e == r,
        (TypeError::DuplicatePatternBinder { .. }, TypeError::DuplicatePatternBinder { .. }) => e == r,
        (TypeError::ArgumentLengthMismatch { .. }, TypeError::ArgumentLengthMismatch { .. }) => e == r,
        (TypeError::NotAFunction { span: s1, actual_type: t1 }, TypeError::NotAFunction {
            span: s2,
            actual_type: t2,
        }) => s1 == s2 && t1@ == t2@,
        (TypeError::MatchNotExhaustive { .. }, TypeError::MatchNotExhaustive { .. }) => true,
        (TypeError::SubstitutionTooDeep { .. }, TypeError::SubstitutionTooDeep { .. }) => e == r,
        _ => false,
    }
}

/// Whether `x` is an error that unifying under the error `err` may report:
/// a copy of `err`, or one of the two errors that unification raises itself.
pub open spec fn reported(x: TypeError, err: TypeError) -> bool {
    ||| copies_error(err, x)
    ||| x is SubstitutionTooDeep
    ||| x is InfiniteType
}

/// A copy of a copy of a type error is a copy of it.
pub proof fn lemma_copies_error_trans(a: TypeError, b: TypeError, c: TypeError)
    requires
        copies_error(a, b),
        copies_error(b, c),
    ensures
        copies_error(a, c),
{
}

/// What may be reported under a copy of an error may be reported under it.
pub proof fn lemma_reported_copy(x: TypeError, a: TypeError, b: TypeError)
    requires
        copies_error(a, b),
        reported(x, b),
    ensures
        reported(x, a),
{
    if copies_error(b, x) {
        lemma_copies_error_trans(a, b, x);
    }
}

/// Makes an independent copy of a type error, of the same variant.
pub fn copy_type_error(e: &TypeError) -> (r: TypeError)
    ensures
        copies_error(*e, r),
{
    match e {
        TypeError::UnknownVariable { span, variable, names_in_scope } => TypeError::UnknownVariable {
            span: *span,
            variable: variable.copy(),
            names_in_scope: copy_qualified_names(names_in_scope),
        },
        TypeError::UnknownConstructor { span, constructor, ctors_in_scope } => TypeError::UnknownConstructor {
            span: *span,
            constructor: constructor.copy(),
            ctors_in_scope: copy_qualified_proper_names(ctors_in_scope),
        },
        TypeError::DuplicateFunctionBinder { previous_binder, duplicate_binder } =>
            TypeError::DuplicateFunctionBinder {
            previous_binder: *previous_binder,
            duplicate_binder: *duplicate_binder,
        },
        TypeError::DuplicatePatternBinder { previous_binder, duplicate_binder } =>
            TypeError::DuplicatePatternBinder {
            previous_binder: *previous_binder,
            duplicate_binder: *duplicate_binder,
        },
        TypeError::ArgumentLengthMismatch { function_span, wanted, got } => TypeError::ArgumentLengthMismatch {
            function_span: *function_span,
            wanted: *wanted,
            got: *got,
        },
        TypeError::NotAFunction { span, actual_type } => TypeError::NotAFunction {
            span: *span,
            actual_type: copy_type(actual_type),
        },
        TypeError::MatchNotExhaustive { match_span, missing_patterns } => TypeError::MatchNotExhaustive {
            match_span: *match_span,
            missing_patterns: copy_strings(missing_patterns),
        },
        TypeError::TypesNotEqual { span, expected, actual } => TypeError::TypesNotEqual {
            span: *span,
            expected: copy_type(expected),
            actual: copy_type(actual),
        },
        TypeError::InfiniteType { span, var, infinite_type } => TypeError::InfiniteType {
            span: *span,
            var: *var,
            infinite_type: copy_type(infinite_type),
        },
        TypeError::SubstitutionTooDeep { span } => TypeError::SubstitutionTooDeep { span: *span },
    }
}

/// Fails with [TypeError::InfiniteType] exactly when `t` mentions `var`.
pub fn occurs_check(span: Span, var: usize, t: &Type) -> (r: Result<(), TypeError>)
    ensures
        r is Ok <==> !type_variables_spec(t@).contains(var),
        match r {
            Err(TypeError::InfiniteType { span: s, var: v, infinite_type }) => s == span && v == var
                && infinite_type@ == t@,
            Err(_) => false,
            Ok(_) => true,
        },
{
    let tvs = type_variables(t);
    if vec_contains(&tvs, var) {
        return Err(TypeError::InfiniteType { span, var, infinite_type: copy_type(t) });
    }
    Ok(())
}

/// Binds `var` to `t`: nothing to do when `t` is that very variable,
/// an [TypeError::InfiniteType] when `t` mentions it, else a new binding.
pub fn bind(state: &mut State, span: Span, var: usize, t: Type) -> (r: Result<(), TypeError>)
    requires
        old(state).wf(),
        subst_wf(old(state).substitution@),
    ensures
        final(state).wf(),
        subst_wf(final(state).substitution@),
        final(state).supply == old(state).supply,
        final(state).warnings == old(state).warnings,
        final(state).value_references == old(state).value_references,
        final(state).constructor_references == old(state).constructor_references,
        is_var(t@, var) ==> r is Ok && final(state).substitution@ == old(state).substitution@,
        !is_var(t@, var) ==> {
            &&& (r is Ok <==> !type_variables_spec(t@).contains(var))
            &&& r is Ok ==> final(state).substitution@ == old(state).substitution@.insert(var, t@)
            &&& r is Err ==> final(state).substitution@ == old(state).substitution@
            &&& match r {
                Err(TypeError::InfiniteType { span: s, var: v, infinite_type }) => s == span && v == var
                    && infinite_type@ == t@,
                Err(_) => false,
                Ok(_) => true,
            }
        },
{
    match &t {
        Type::Variable { var: v, .. } => {
            if *v == var {
                return Ok(());
            }
        },
        _ => {},
    }
    match occurs_check(span, var, &t) {
        Ok(()) => {},
        Err(e) => {
            return Err(e);
        },
    }
    let ghost tv = t@;
    let ghost s0 = state.substitution@;
    state.substitution.insert(var, t);
    proof {
        assert forall|v: usize| #[trigger] state.substitution@.contains_key(v) implies !type_variables_spec(
            state.substitution@[v],
        ).contains(v) by {
            if v != var {
                assert(s0.contains_key(v));
            }
        }
    }
    Ok(())
}

/// Unifies the two sides of a constraint; see [unify_else].
pub fn unify(state: &mut State, span: Span, constraint: Constraint) -> (r: Result<(), TypeError>)
    requires
        old(state).wf(),
        subst_wf(old(state).substitution@),
    ensures
        unify_post(*old(state), *final(state), span, constraint, None, r, true),
        ground_law(
            old(state).substitution@,
            final(state).substitution@,
            constraint.expected@,
            constraint.actual@,
            UNIFY_FUEL as nat,
            r,
        ),
        bindings_kept(old(state).substitution@, final(state).substitution@, constraint.expected@, constraint.actual@),
        match (
            apply_spec(old(state).substitution@, constraint.expected@, 0, APPLY_FUEL as nat),
            apply_spec(old(state).substitution@, constraint.actual@, 0, APPLY_FUEL as nat),
        ) {
            (Some(e), Some(a)) => closed_fields_law(e, a, (UNIFY_FUEL - 1) as nat, r),
            _ => true,
        },
{
    unify_else(state, span, constraint, None, UNIFY_FUEL)
}

/// What unification promises, whichever way it goes.
///
/// The bookkeeping that unification does not touch stays as it was, and the
/// substitution stays free of self-mentioning bindings. When both sides, once
/// the substitution is applied, are primitive types, unification succeeds
/// exactly when they are the same, and changes nothing. When the expected side
/// is an anonymous type variable and the actual side is no alias, the variable
/// is bound to the actual side unless that mentions it. When neither of those
/// holds for lack of a result of [apply_spec], the error is
/// [TypeError::SubstitutionTooDeep].
pub open spec fn unify_post(
    old: State,
    new: State,
    span: Span,
    c: Constraint,
    err: Option<&TypeError>,
    r: Result<(), TypeError>,
    full: bool,
) -> bool {
    let s = old.substitution@;
    let ae = apply_spec(s, c.expected@, 0, APPLY_FUEL as nat);
    let aa = apply_spec(s, c.actual@, 0, APPLY_FUEL as nat);
    &&& new.wf()
    &&& subst_wf(new.substitution@)
    &&& new.warnings == old.warnings
    &&& new.value_references == old.value_references
    &&& new.constructor_references == old.constructor_references
    &&& r matches Err(x) ==> (x is SubstitutionTooDeep || x is InfiniteType || match (ae, aa) {
        (Some(e), Some(a)) => mismatch_error(x, err, span, e, a),
        _ => false,
    })
    &&& full ==> (ae is None || aa is None) ==> (match r {
        Err(TypeError::SubstitutionTooDeep { .. }) => true,
        _ => false,
    } && new.substitution@ == s)
    &&& full ==> match (ae, aa) {
        (Some(TypeV::PrimConstructor(p)), Some(TypeV::PrimConstructor(q))) => {
            &&& (r is Ok <==> p == q)
            &&& new.substitution@ == s
            &&& (err is None && r is Err) ==> match r {
                Err(TypeError::TypesNotEqual { span: es, expected, actual }) => es == span && Some(expected@) == ae
                    && Some(actual@) == aa,
                _ => false,
            }
        },
        _ => true,
    }
    &&& full ==> match (ae, aa) {
        (Some(e), Some(a)) => (!is_alias_like(e) && !is_alias_like(a)) ==> plain_post(
            s,
            new.substitution@,
            span,
            e,
            a,
            |x: TypeError| mismatch_error(x, err, span, e, a),
            r,
        ),
        _ => true,
    }
    &&& full ==> match (ae, aa) {
        (Some(TypeV::Variable { source_name: None, var: v, .. }), Some(t)) => !is_alias_like(t) ==> {
            if is_var(t, v) {
                r is Ok && new.substitution@ == s
            } else {
                &&& (r is Ok <==> !type_variables_spec(t).contains(v))
                &&& r is Ok ==> new.substitution@ == s.insert(v, t)
            }
        },
        _ => true,
    }
}

/// What binding `var` to `t` does, as [bind] says: nothing when `t` is that
/// variable; otherwise the binding is added, or, when `t` mentions `var`, the
/// substitution stays as it was and the error is [TypeError::InfiniteType].
pub open spec fn bind_outcome(
    s: Map<usize, TypeV>,
    n: Map<usize, TypeV>,
    span: Span,
    var: usize,
    t: TypeV,
    r: Result<(), TypeError>,
) -> bool {
    if is_var(t, var) {
        r is Ok && n == s
    } else {
        &&& (r is Ok <==> !type_variables_spec(t).contains(var))
        &&& r is Ok ==> n == s.insert(var, t)
        &&& r is Err ==> n == s && match r {
            Err(TypeError::InfiniteType { span: sp, var: v, infinite_type }) => sp == span && v == var
                && infinite_type@ == t,
            _ => false,
        }
    }
}

/// Whether two types (neither an alias) can never unify, whatever the
/// substitution: different primitive types, different constructors, type
/// variables of different source names, functions of different arities,
/// records open under different source names, or different kinds of type.
pub open spec fn head_clash(e: TypeV, a: TypeV) -> bool {
    match (e, a) {
        (TypeV::Variable { source_name: None, .. }, _) => false,
        (_, TypeV::Variable { source_name: None, .. }) => false,
        (TypeV::Variable { source_name: Some(n1), .. }, TypeV::Variable { source_name: Some(n2), .. }) => n1 != n2,
        (TypeV::Constructor { canonical_value: x, .. }, TypeV::Constructor { canonical_value: y, .. }) => x != y,
        (TypeV::PrimConstructor(p), TypeV::PrimConstructor(q)) => p != q,
        (TypeV::Call { .. }, TypeV::Call { .. }) => false,
        (TypeV::Function { parameters: ps, .. }, TypeV::Function { parameters: qs, .. }) => ps.len() != qs.len(),
        (TypeV::RecordClosed { .. }, TypeV::RecordClosed { .. }) => false,
        (TypeV::RecordClosed { .. }, TypeV::RecordOpen { .. }) => false,
        (TypeV::RecordOpen { open_source_name: None, .. }, TypeV::RecordClosed { .. }) => false,
        (
            TypeV::RecordOpen { open_source_name: Some(n1), .. },
            TypeV::RecordOpen { open_source_name: Some(n2), .. },
        ) => n1 != n2,
        (TypeV::RecordOpen { .. }, TypeV::RecordOpen { .. }) => false,
        _ => true,
    }
}

/// How unification ends for two types that are no aliases, as far as it is
/// decided by their outermost forms: type variables named alike unify, as do
/// equal constructors and equal primitive types, changing nothing; an anonymous
/// type variable on either side is bound to the other side (the expected side
/// first); and where the two can never unify ([head_clash]) the substitution
/// stays as it was and the error is one that `err_ok` accepts. Closed records
/// with different labels, and calls with different numbers of arguments, fail.
pub open spec fn plain_post(
    s: Map<usize, TypeV>,
    n: Map<usize, TypeV>,
    span: Span,
    e: TypeV,
    a: TypeV,
    err_ok: spec_fn(TypeError) -> bool,
    r: Result<(), TypeError>,
) -> bool {
    &&& match (e, a) {
        (TypeV::Variable { source_name: Some(n1), .. }, TypeV::Variable { source_name: Some(n2), .. }) => n1 == n2
            ==> r is Ok && n == s,
        (TypeV::Constructor { canonical_value: x, .. }, TypeV::Constructor { canonical_value: y, .. }) => x == y
            ==> r is Ok && n == s,
        (TypeV::PrimConstructor(p), TypeV::PrimConstructor(q)) => p == q ==> r is Ok && n == s,
        _ => true,
    }
    &&& match e {
        TypeV::Variable { source_name: None, var: v, .. } => bind_outcome(s, n, span, v, a, r),
        _ => match a {
            TypeV::Variable { source_name: None, var: v, .. } => bind_outcome(s, n, span, v, e, r),
            _ => true,
        },
    }
    &&& head_clash(e, a) ==> n == s && match r {
        Err(x) => err_ok(x),
        Ok(_) => false,
    }
    &&& match (e, a) {
        (TypeV::RecordClosed { closed_row: er, .. }, TypeV::RecordClosed { closed_row: ar, .. }) => !same_labels(
            er,
            ar,
        ) ==> r is Err,
        (TypeV::Call { arguments: xs, .. }, TypeV::Call { arguments: ys, .. }) => xs.len() != ys.len() ==> r is Err,
        _ => true,
    }
}

/// The error that unification reports for a mismatch of the constraint whose
/// sides, the substitution applied, are `ae` and `aa`: a copy of the caller's
/// `err`, or else [TypeError::TypesNotEqual] of those two sides.
pub open spec fn mismatch_error(x: TypeError, err: Option<&TypeError>, span: Span, ae: TypeV, aa: TypeV) -> bool {
    match err {
        Some(e) => copies_error(*e, x),
        None => match x {
            TypeError::TypesNotEqual { span: es, expected, actual } => es == span && expected@ == ae && actual@
                == aa,
            _ => false,
        },
    }
}

/// Whether a type holds no type variable, record or alias: it is built of
/// primitive types and constructors, applied and as functions.
pub open spec fn ground(t: TypeV) -> bool
    decreases t,
{
    match t {
        TypeV::PrimConstructor(_) => true,
        TypeV::Constructor { .. } => true,
        TypeV::Call { function, arguments } => {
            &&& !(*function is ConstructorAlias)
            &&& ground(*function)
            &&& forall|i: int| 0 <= i < arguments.len() ==> ground(#[trigger] arguments[i])
        },
        TypeV::Function { parameters, return_type } => {
            &&& forall|i: int| 0 <= i < parameters.len() ==> ground(#[trigger] parameters[i])
            &&& ground(*return_type)
        },
        _ => false,
    }
}

/// Whether a type is nested less than `h` deep.
pub open spec fn bounded(t: TypeV, h: nat) -> bool
    decreases t,
{
    &&& h > 0
    &&& match t {
        TypeV::Call { function, arguments } => {
            &&& bounded(*function, (h - 1) as nat)
            &&& forall|i: int| 0 <= i < arguments.len() ==> bounded(#[trigger] arguments[i], (h - 1) as nat)
        },
        TypeV::Function { parameters, return_type } => {
            &&& forall|i: int| 0 <= i < parameters.len() ==> bounded(#[trigger] parameters[i], (h - 1) as nat)
            &&& bounded(*return_type, (h - 1) as nat)
        },
        _ => true,
    }
}

/// Whether two types without type variables are the same, constructors
/// compared by their canonical names.
pub open spec fn same_ground(e: TypeV, a: TypeV) -> bool
    decreases e,
{
    match (e, a) {
        (TypeV::PrimConstructor(p), TypeV::PrimConstructor(q)) => p == q,
        (TypeV::Constructor { canonical_value: x, .. }, TypeV::Constructor { canonical_value: y, .. }) => x == y,
        (TypeV::Call { function: f1, arguments: a1 }, TypeV::Call { function: f2, arguments: a2 }) => {
            &&& same_ground(*f1, *f2)
            &&& a1.len() == a2.len()
            &&& forall|i: int| 0 <= i < a1.len() ==> same_ground(#[trigger] a1[i], a2[i])
        },
        (
            TypeV::Function { parameters: p1, return_type: r1 },
            TypeV::Function { parameters: p2, return_type: r2 },
        ) => {
            &&& p1.len() == p2.len()
            &&& forall|i: int| 0 <= i < p1.len() ==> same_ground(#[trigger] p1[i], p2[i])
            &&& same_ground(*r1, *r2)
        },
        _ => false,
    }
}

/// A bound on a type's depth holds of every larger bound.
pub proof fn lemma_bounded_mono(t: TypeV, h1: nat, h2: nat)
    requires
        bounded(t, h1),
        h1 <= h2,
    ensures
        bounded(t, h2),
    decreases t,
{
    match t {
        TypeV::Call { function, arguments } => {
            lemma_bounded_mono(*function, (h1 - 1) as nat, (h2 - 1) as nat);
            assert forall|i: int| 0 <= i < arguments.len() implies bounded(#[trigger] arguments[i], (h2 - 1) as nat) by {
                lemma_bounded_mono(arguments[i], (h1 - 1) as nat, (h2 - 1) as nat);
            }
        },
        TypeV::Function { parameters, return_type } => {
            lemma_bounded_mono(*return_type, (h1 - 1) as nat, (h2 - 1) as nat);
            assert forall|i: int| 0 <= i < parameters.len() implies bounded(#[trigger] parameters[i], (h2 - 1) as nat) by {
                lemma_bounded_mono(parameters[i], (h1 - 1) as nat, (h2 - 1) as nat);
            }
        },
        _ => {},
    }
}

/// Any substitution leaves a type without type variables as it is.
pub proof fn lemma_apply_ground(s: Map<usize, TypeV>, t: TypeV, d: nat, f: nat)
    requires
        ground(t),
        bounded(t, f),
        d <= MAX_DEPTH,
    ensures
        apply_spec(s, t, d, f) == Some(t),
    decreases t, 0nat,
{
    match t {
        TypeV::Call { function, arguments } => {
            lemma_apply_ground(s, *function, d, (f - 1) as nat);
            lemma_apply_seq_ground(s, arguments, arguments.len(), d, (f - 1) as nat);
            assert(arguments.take(arguments.len() as int) =~= arguments);
        },
        TypeV::Function { parameters, return_type } => {
            lemma_apply_ground(s, *return_type, d, (f - 1) as nat);
            lemma_apply_seq_ground(s, parameters, parameters.len(), d, (f - 1) as nat);
            assert(parameters.take(parameters.len() as int) =~= parameters);
        },
        _ => {},
    }
}

/// [lemma_apply_ground] for the first `n` types of a list.
pub proof fn lemma_apply_seq_ground(s: Map<usize, TypeV>, ts: Seq<TypeV>, n: nat, d: nat, f: nat)
    requires
        n <= ts.len(),
        forall|i: int| 0 <= i < ts.len() ==> ground(#[trigger] ts[i]) && bounded(ts[i], f),
        d <= MAX_DEPTH,
    ensures
        apply_seq(s, ts, n, d, f) == Some(ts.take(n as int)),
    decreases ts, n,
{
    if n == 0 {
        assert(ts.take(0) =~= Seq::<TypeV>::empty());
    } else {
        lemma_apply_seq_ground(s, ts, (n - 1) as nat, d, f);
        lemma_apply_ground(s, ts[n - 1], d, f);
        assert(ts.take(n - 1).push(ts[n - 1]) =~= ts.take(n as int));
    }
}

/// Whether every pair of types of the two lists is without type variables and
/// nested less than `f` deep.
pub open spec fn pairs_ground(es: Seq<Type>, xs: Seq<Type>, f: nat) -> bool {
    forall|k: int|
        0 <= k < es.len() ==> ground(#[trigger] es[k]@) && ground(xs[k]@) && bounded(es[k]@, f) && bounded(xs[k]@, f)
}

/// Whether the first `n` pairs of types of the two lists are the same.
pub open spec fn pairs_same(es: Seq<Type>, xs: Seq<Type>, n: int) -> bool {
    forall|k: int| 0 <= k < n ==> same_ground(#[trigger] es[k]@, xs[k]@)
}

/// Whether a type holds no record or alias: it is built of type variables,
/// primitive types and constructors, applied and as functions.
pub open spec fn plain(t: TypeV) -> bool
    decreases t,
{
    match t {
        TypeV::Variable { .. } => true,
        TypeV::PrimConstructor(_) => true,
        TypeV::Constructor { .. } => true,
        TypeV::Call { function, arguments } => {
            &&& !(*function is ConstructorAlias)
            &&& plain(*function)
            &&& forall|i: int| 0 <= i < arguments.len() ==> plain(#[trigger] arguments[i])
        },
        TypeV::Function { parameters, return_type } => {
            &&& forall|i: int| 0 <= i < parameters.len() ==> plain(#[trigger] parameters[i])
            &&& plain(*return_type)
        },
        _ => false,
    }
}

/// The empty substitution gives back a type without records or aliases as it
/// is (within the depth that the fuel allows).
pub proof fn lemma_apply_empty(t: TypeV, d: nat, f: nat)
    requires
        plain(t),
        bounded(t, f),
        d <= MAX_DEPTH,
    ensures
        apply_spec(Map::empty(), t, d, f) == Some(t),
    decreases t, 0nat,
{
    match t {
        TypeV::Call { function, arguments } => {
            lemma_apply_empty(*function, d, (f - 1) as nat);
            lemma_apply_seq_empty(arguments, arguments.len(), d, (f - 1) as nat);
            assert(arguments.take(arguments.len() as int) =~= arguments);
        },
        TypeV::Function { parameters, return_type } => {
            lemma_apply_empty(*return_type, d, (f - 1) as nat);
            lemma_apply_seq_empty(parameters, parameters.len(), d, (f - 1) as nat);
            assert(parameters.take(parameters.len() as int) =~= parameters);
        },
        _ => {},
    }
}

/// [lemma_apply_empty] for the first `n` types of a list.
pub proof fn lemma_apply_seq_empty(ts: Seq<TypeV>, n: nat, d: nat, f: nat)
    requires
        n <= ts.len(),
        forall|i: int| 0 <= i < ts.len() ==> plain(#[trigger] ts[i]) && bounded(ts[i], f),
        d <= MAX_DEPTH,
    ensures
        apply_seq(Map::empty(), ts, n, d, f) == Some(ts.take(n as int)),
    decreases ts, n,
{
    if n == 0 {
        assert(ts.take(0) =~= Seq::<TypeV>::empty());
    } else {
        lemma_apply_seq_empty(ts, (n - 1) as nat, d, f);
        lemma_apply_empty(ts[n - 1], d, f);
        assert(ts.take(n - 1).push(ts[n - 1]) =~= ts.take(n as int));
    }
}

/// Whether no type variable of `t` is bound by `s`.
pub open spec fn unbound_in(s: Map<usize, TypeV>, t: TypeV) -> bool
    decreases t,
{
    match t {
        TypeV::Variable { var, .. } => !s.contains_key(var),
        TypeV::Call { function, arguments } => {
            &&& unbound_in(s, *function)
            &&& forall|i: int| 0 <= i < arguments.len() ==> unbound_in(s, #[trigger] arguments[i])
        },
        TypeV::Function { parameters, return_type } => {
            &&& forall|i: int| 0 <= i < parameters.len() ==> unbound_in(s, #[trigger] parameters[i])
            &&& unbound_in(s, *return_type)
        },
        _ => true,
    }
}

/// Whether every type that `s` binds holds no record or alias.
pub open spec fn plain_subst(s: Map<usize, TypeV>) -> bool {
    forall|k: usize| #[trigger] s.contains_key(k) ==> plain(s[k])
}

/// A substitution gives back a type none of whose variables it binds.
pub proof fn lemma_apply_unbound(s: Map<usize, TypeV>, t: TypeV, d: nat, f: nat)
    requires
        plain(t),
        unbound_in(s, t),
        bounded(t, f),
        d <= MAX_DEPTH,
    ensures
        apply_spec(s, t, d, f) == Some(t),
    decreases t, 0nat,
{
    match t {
        TypeV::Call { function, arguments } => {
            lemma_apply_unbound(s, *function, d, (f - 1) as nat);
            lemma_apply_seq_unbound(s, arguments, arguments.len(), d, (f - 1) as nat);
            assert(arguments.take(arguments.len() as int) =~= arguments);
        },
        TypeV::Function { parameters, return_type } => {
            lemma_apply_unbound(s, *return_type, d, (f - 1) as nat);
            lemma_apply_seq_unbound(s, parameters, parameters.len(), d, (f - 1) as nat);
            assert(parameters.take(parameters.len() as int) =~= parameters);
        },
        _ => {},
    }
}

/// [lemma_apply_unbound] for the first `n` types of a list.
pub proof fn lemma_apply_seq_unbound(s: Map<usize, TypeV>, ts: Seq<TypeV>, n: nat, d: nat, f: nat)
    requires
        n <= ts.len(),
        forall|i: int| 0 <= i < ts.len() ==> plain(#[trigger] ts[i]) && unbound_in(s, ts[i]) && bounded(ts[i], f),
        d <= MAX_DEPTH,
    ensures
        apply_seq(s, ts, n, d, f) == Some(ts.take(n as int)),
    decreases ts, n,
{
    if n == 0 {
        assert(ts.take(0) =~= Seq::<TypeV>::empty());
    } else {
        lemma_apply_seq_unbound(s, ts, (n - 1) as nat, d, f);
        lemma_apply_unbound(s, ts[n - 1], d, f);
        assert(ts.take(n - 1).push(ts[n - 1]) =~= ts.take(n as int));
    }
}

/// What a substitution gives for a type without records or aliases, when it
/// binds only such types, has none either, and no variable that it binds.
pub proof fn lemma_apply_result(s: Map<usize, TypeV>, t: TypeV, d: nat, f: nat, r: TypeV)
    requires
        plain(t),
        plain_subst(s),
        apply_spec(s, t, d, f) == Some(r),
    ensures
        plain(r),
        unbound_in(s, r),
    decreases f, 0nat, 0nat,
{
    let g = (f - 1) as nat;
    match t {
        TypeV::Variable { var, .. } => {
            if s.contains_key(var) {
                lemma_apply_result(s, s[var], d + 1, g, r);
            }
        },
        TypeV::Call { function, arguments } => {
            let fr = apply_spec(s, *function, d, g)->0;
            let ar = apply_seq(s, arguments, arguments.len(), d, g)->0;
            lemma_apply_result(s, *function, d, g, fr);
            lemma_apply_seq_result(s, arguments, arguments.len(), d, g, ar);
        },
        TypeV::Function { parameters, return_type } => {
            let rr = apply_spec(s, *return_type, d, g)->0;
            let pr = apply_seq(s, parameters, parameters.len(), d, g)->0;
            lemma_apply_result(s, *return_type, d, g, rr);
            lemma_apply_seq_result(s, parameters, parameters.len(), d, g, pr);
        },
        _ => {},
    }
}

/// [lemma_apply_result] for the first `n` types of a list.
pub proof fn lemma_apply_seq_result(s: Map<usize, TypeV>, ts: Seq<TypeV>, n: nat, d: nat, f: nat, xs: Seq<TypeV>)
    requires
        n <= ts.len(),
        forall|i: int| 0 <= i < ts.len() ==> plain(#[trigger] ts[i]),
        plain_subst(s),
        apply_seq(s, ts, n, d, f) == Some(xs),
    ensures
        xs.len() == n,
        forall|i: int| 0 <= i < xs.len() ==> plain(#[trigger] xs[i]) && unbound_in(s, xs[i]),
    decreases f, 1nat, n,
{
    if n == 0 {
    } else {
        let init = apply_seq(s, ts, (n - 1) as nat, d, f)->0;
        let x = apply_spec(s, ts[n - 1], d, f)->0;
        lemma_apply_seq_result(s, ts, (n - 1) as nat, d, f, init);
        lemma_apply_result(s, ts[n - 1], d, f, x);
        assert(xs == init.push(x));
    }
}

/// Applying a substitution twice gives what applying it once gives (for types
/// and substitutions without records or aliases, within the depth that the
/// fuel allows).
pub proof fn lemma_apply_idempotent(s: Map<usize, TypeV>, t: TypeV, r: TypeV)
    requires
        plain(t),
        plain_subst(s),
        apply_spec(s, t, 0, APPLY_FUEL as nat) == Some(r),
        bounded(r, APPLY_FUEL as nat),
    ensures
        apply_spec(s, r, 0, APPLY_FUEL as nat) == Some(r),
{
    lemma_apply_result(s, t, 0, APPLY_FUEL as nat, r);
    lemma_apply_unbound(s, r, 0, APPLY_FUEL as nat);
}

/// For types and substitutions without records or aliases: unification only
/// adds bindings, of such types, and never changes or removes one, whether it
/// succeeds or fails.
pub open spec fn bindings_kept(s: Map<usize, TypeV>, n: Map<usize, TypeV>, e: TypeV, a: TypeV) -> bool {
    (plain(e) && plain(a) && plain_subst(s)) ==> s.submap_of(n) && plain_subst(n)
}

/// [bindings_kept] for two sides to which the substitution has been applied.
pub open spec fn applied_bindings_kept(s: Map<usize, TypeV>, n: Map<usize, TypeV>, e: TypeV, a: TypeV) -> bool {
    (plain(e) && plain(a) && unbound_in(s, e) && unbound_in(s, a) && plain_subst(s)) ==> s.submap_of(n)
        && plain_subst(n)
}

/// Whether every pair of types of the two lists holds no record or alias.
pub open spec fn pairs_plain(es: Seq<Type>, xs: Seq<Type>) -> bool {
    forall|k: int| 0 <= k < es.len() ==> plain(#[trigger] es[k]@) && plain(xs[k]@)
}

/// For two types without type variables: unification succeeds exactly when
/// they are the same, and binds nothing.
pub open spec fn ground_law(s: Map<usize, TypeV>, n: Map<usize, TypeV>, e: TypeV, a: TypeV, fuel: nat, r: Result<
    (),
    TypeError,
>) -> bool {
    (ground(e) && ground(a) && bounded(e, fuel) && bounded(a, fuel)) ==> {
        &&& (r is Ok <==> same_ground(e, a))
        &&& n == s
    }
}

/// What [unify_plain] promises of the simplest constraints: two primitive
/// types unify exactly when they are the same, changing nothing, and fail with
/// `err`; an anonymous type variable on the expected side is bound as [bind] says.
pub open spec fn leaf_post(
    old: State,
    new: State,
    expected: TypeV,
    actual: TypeV,
    err: TypeError,
    r: Result<(), TypeError>,
) -> bool {
    let s = old.substitution@;
    &&& match (expected, actual) {
        (TypeV::PrimConstructor(p), TypeV::PrimConstructor(q)) => {
            &&& (r is Ok <==> p == q)
            &&& new.substitution@ == s
            &&& r is Err ==> r == Err::<(), TypeError>(err)
        },
        _ => true,
    }
    &&& match expected {
        TypeV::Variable { source_name: None, var: v, .. } => !is_alias_like(actual) ==> {
            if is_var(actual, v) {
                r is Ok && new.substitution@ == s
            } else {
                &&& (r is Ok <==> !type_variables_spec(actual).contains(v))
                &&& r is Ok ==> new.substitution@ == s.insert(v, actual)
            }
        },
        _ => true,
    }
}

/// Removes the first entry labelled `label` from a row, returning its type.
fn row_remove(row: &mut Vec<(Name, Type)>, label: &Name) -> (r: Option<Type>)
    ensures
        match first_key(row_view(old(row)@), label@) {
            Some(i) => match r {
                Some(t) => t@ == old(row)@[i].1@ && final(row)@ == old(row)@.remove(i),
                None => false,
            },
            None => r is None && final(row)@ == old(row)@,
        },
{
    let mut i: usize = 0;
    while i < row.len()
        invariant
            i <= row@.len(),
            row@ == old(row)@,
            forall|j: int| 0 <= j < i ==> row_view(row@)[j].0 != label@,
        decreases row@.len() - i,
    {
        if row[i].0.eq(label) {
            proof {
                lemma_first_key(row_view(row@), label@, i as int);
            }
            let (_, t) = row.remove(i);
            return Some(t);
        }
        i = i + 1;
    }
    proof {
        lemma_no_key(row_view(row@), label@);
    }
    None
}

/// Looks up the type of the first entry labelled `label` in a row.
fn row_get<'a>(row: &'a Vec<(Name, Type)>, label: &Name) -> (r: Option<&'a Type>)
    ensures
        r == match first_key(row_view(row@), label@) {
            Some(i) => Some(&row@[i].1),
            None => None::<&Type>,
        },
{
    let mut i: usize = 0;
    while i < row.len()
        invariant
            i <= row@.len(),
            forall|j: int| 0 <= j < i ==> row_view(row@)[j].0 != label@,
        decreases row@.len() - i,
    {
        if row[i].0.eq(label) {
            proof {
                lemma_first_key(row_view(row@), label@, i as int);
            }
            return Some(&row[i].1);
        }
        i = i + 1;
    }
    proof {
        lemma_no_key(row_view(row@), label@);
    }
    None
}

fn copy_row(row: &Vec<(Name, Type)>) -> (r: Vec<(Name, Type)>)
    ensures
        row_view(r@) == row_view(row@),
{
    let mut out: Vec<(Name, Type)> = Vec::new();
    let mut i: usize = 0;
    while i < row.len()
        invariant
            i <= row@.len(),
            row_view(out@) =~= row_view(row@).subrange(0, i as int),
        decreases row@.len() - i,
    {
        let ghost prev = out@;
        out.push((row[i].0.copy(), copy_type(&row[i].1)));
        proof {
            assert(row_view(out@) =~= row_view(prev).push((row@[i as int].0@, row@[i as int].1@)));
        }
        i = i + 1;
    }
    proof {
        assert(row_view(row@).subrange(0, row@.len() as int) =~= row_view(row@));
    }
    out
}

fn err_or(err: &Option<TypeError>, fallback: TypeError) -> (r: TypeError)
    ensures
        match *err {
            Some(e) => copies_error(e, r),
            None => r == fallback,
        },
{
    match err {
        Some(e) => copy_type_error(e),
        None => fallback,
    }
}

/// `s` without its first entry labelled `label`, if it has one.
pub open spec fn row_without(s: Seq<(Name, Type)>, label: NameV) -> Seq<(Name, Type)> {
    match first_key(row_view(s), label) {
        Some(i) => s.remove(i),
        None => s,
    }
}

/// `other` without, for each entry of `row` in turn, its first entry of that label.
pub open spec fn row_strip(other: Seq<(Name, Type)>, row: Seq<(Name, Type)>) -> Seq<(Name, Type)>
    decreases row.len(),
{
    if row.len() == 0 {
        other
    } else {
        row_strip(row_without(other, row[0].0@), row.drop_first())
    }
}

/// Whether no label of `row` is that of an entry of `other`.
pub open spec fn no_shared_label(row: Seq<(Name, Type)>, other: Seq<(Name, Type)>) -> bool {
    forall|i: int| 0 <= i < row.len() ==> first_key(row_view(other), (#[trigger] row[i]).0@) is None
}

/// Unifies each pair of a row's types with those of the same labels in `other`,
/// taking the matched entries out of `other`.
///
/// On success `other` has lost, for each entry of `row`, its first entry of
/// that label. Where the rows share no label there is nothing to unify.
fn unify_rows(
    state: &mut State,
    span: Span,
    row: &Vec<(Name, Type)>,
    other: &mut Vec<(Name, Type)>,
    row_is_expected: bool,
    err: &TypeError,
    fuel: u64,
) -> (r: Result<(), TypeError>)
    requires
        old(state).wf(),
        subst_wf(old(state).substitution@),
    ensures
        final(state).wf(),
        subst_wf(final(state).substitution@),
        final(state).warnings == old(state).warnings,
        final(state).value_references == old(state).value_references,
        final(state).constructor_references == old(state).constructor_references,
        r is Ok ==> final(other)@ == row_strip(old(other)@, row@),
        r matches Err(x) ==> reported(x, *err),
        no_shared_label(row@, old(other)@) ==> {
            &&& r is Ok
            &&& final(other)@ == old(other)@
            &&& final(state).substitution@ == old(state).substitution@
        },
    decreases fuel, 1nat,
{
    let mut i: usize = 0;
    proof {
        assert(row@.subrange(0, row@.len() as int) =~= row@);
    }
    while i < row.len()
        invariant
            state.wf(),
            subst_wf(state.substitution@),
            state.warnings == old(state).warnings,
            state.value_references == old(state).value_references,
            state.constructor_references == old(state).constructor_references,
            i <= row@.len(),
            row_strip(other@, row@.subrange(i as int, row@.len() as int)) == row_strip(old(other)@, row@),
            no_shared_label(row@, old(other)@) ==> other@ == old(other)@ && state.substitution@ == old(
                state,
            ).substitution@,
        decreases row@.len() - i,
    {
        let ghost o = other@;
        let ghost rest = row@.subrange(i as int, row@.len() as int);
        proof {
            assert(rest[0] == row@[i as int]);
            assert(rest.drop_first() =~= row@.subrange(i + 1, row@.len() as int));
        }
        match row_remove(other, &row[i].0) {
            Some(t) => {
                proof {
                    assert(first_key(row_view(o), row@[i as int].0@) is Some);
                }
                let constraint = if row_is_expected {
                    Constraint { expected: copy_type(&row[i].1), actual: t }
                } else {
                    Constraint { expected: t, actual: copy_type(&row[i].1) }
                };
                let e = copy_type_error(err);
                match unify_else(state, span, constraint, Some(&e), fuel) {
                    Ok(()) => {},
                    Err(e) => {
                        return Err(e);
                    },
                }
            },
            None => {},
        }
        proof {
            assert(other@ == row_without(o, row@[i as int].0@));
        }
        i = i + 1;
    }
    proof {
        assert(row@.subrange(i as int, row@.len() as int).len() == 0);
    }
    Ok(())
}

/// Unifies two types, or fails with `err` (by default, [TypeError::TypesNotEqual]
/// of the two types as the substitution makes them).
///
/// Aliases are tried first by name, then by what they stand for; named type
/// variables unify only with the same name; anonymous type variables are bound;
/// records unify field by field, open records taking on the other side's fields.
#[verifier::rlimit(80)]
pub fn unify_else(state: &mut State, span: Span, constraint: Constraint, err: Option<&TypeError>, fuel: u64) -> (r:
    Result<(), TypeError>)
    requires
        old(state).wf(),
        subst_wf(old(state).substitution@),
    ensures
        unify_post(*old(state), *final(state), span, constraint, err, r, fuel > 0),
        ground_law(
            old(state).substitution@,
            final(state).substitution@,
            constraint.expected@,
            constraint.actual@,
            fuel as nat,
            r,
        ),
        bindings_kept(old(state).substitution@, final(state).substitution@, constraint.expected@, constraint.actual@),
        fuel > 0 ==> match (
            apply_spec(old(state).substitution@, constraint.expected@, 0, APPLY_FUEL as nat),
            apply_spec(old(state).substitution@, constraint.actual@, 0, APPLY_FUEL as nat),
        ) {
            (Some(e), Some(a)) => closed_fields_law(e, a, (fuel - 1) as nat, r),
            _ => true,
        },
    decreases fuel, 0nat,
{
    let ghost s0 = state.substitution@;
    let ghost ae = apply_spec(s0, constraint.expected@, 0, APPLY_FUEL as nat);
    let ghost aa = apply_spec(s0, constraint.actual@, 0, APPLY_FUEL as nat);
    proof {
        if ground(constraint.expected@) && bounded(constraint.expected@, fuel as nat) {
            lemma_bounded_mono(constraint.expected@, fuel as nat, APPLY_FUEL as nat);
            lemma_apply_ground(s0, constraint.expected@, 0, APPLY_FUEL as nat);
        }
        if ground(constraint.actual@) && bounded(constraint.actual@, fuel as nat) {
            lemma_bounded_mono(constraint.actual@, fuel as nat, APPLY_FUEL as nat);
            lemma_apply_ground(s0, constraint.actual@, 0, APPLY_FUEL as nat);
        }
        if plain(constraint.expected@) && plain_subst(s0) && ae is Some {
            lemma_apply_result(s0, constraint.expected@, 0, APPLY_FUEL as nat, ae->0);
        }
        if plain(constraint.actual@) && plain_subst(s0) && aa is Some {
            lemma_apply_result(s0, constraint.actual@, 0, APPLY_FUEL as nat, aa->0);
        }
    }
    if fuel == 0 {
        return Err(TypeError::SubstitutionTooDeep { span });
    }
    let f = fuel - 1;
    let c = match state.substitution.try_apply_constraint(&constraint) {
        Some(c) => c,
        None => {
            return Err(TypeError::SubstitutionTooDeep { span });
        },
    };
    let err: Option<TypeError> = match err {
        Some(e) => Some(copy_type_error(e)),
        None => None,
    };
    let fallback = TypeError::TypesNotEqual { span, expected: copy_type(&c.expected), actual: copy_type(&c.actual) };
    let err: TypeError = err_or(&err, fallback);
    let ghost ev = c.expected@;
    let Constraint { expected, actual } = c;

    // Recurse on type aliases.
    match expected {
        Type::ConstructorAlias {
            alias_kind,
            alias_canonical_value,
            alias_source_value,
            alias_variables: _,
            aliased_type,
        } => {
            let first = Constraint {
                expected: Type::Constructor {
                    constructor_kind: alias_kind,
                    canonical_value: alias_canonical_value,
                    source_value: alias_source_value,
                },
                actual: copy_type(&actual),
            };
            let e = copy_type_error(&err);
            match unify_else(state, span, first, Some(&e), f) {
                Ok(()) => {
                    return Ok(());
                },
                Err(_) => {
                    return unify_else(state, span, Constraint { expected: *aliased_type, actual }, Some(&err), f);
                },
            }
        },
        Type::Call { function, arguments } => {
            let ghost fv = (*function)@;
            proof {
                assert(*ev->Call_function == fv);
            }
            match *function {
                Type::ConstructorAlias {
                    alias_kind,
                    alias_canonical_value,
                    alias_source_value,
                    alias_variables: _,
                    aliased_type,
                } => {
                    proof {
                        assert(fv is ConstructorAlias);
                        assert(is_alias_like(ev));
                    }
                    let first = Constraint {
                        expected: Type::Call {
                            function: Box::new(
                                Type::Constructor {
                                    constructor_kind: alias_kind,
                                    canonical_value: alias_canonical_value,
                                    source_value: alias_source_value,
                                },
                            ),
                            arguments,
                        },
                        actual: copy_type(&actual),
                    };
                    let e = copy_type_error(&err);
                    match unify_else(state, span, first, Some(&e), f) {
                        Ok(()) => {
                            return Ok(());
                        },
                        Err(_) => {
                            return unify_else(
                                state,
                                span,
                                Constraint { expected: *aliased_type, actual },
                                Some(&err),
                                f,
                            );
                        },
                    }
                },
                function => {
                    let expected = Type::Call { function: Box::new(function), arguments };
                    return unify_not_expected_alias(state, span, expected, actual, err, f);
                },
            }
        },
        expected => {
            return unify_not_expected_alias(state, span, expected, actual, err, f);
        },
    }
}

/// [unify_else] once the expected side is known to be no alias.
#[verifier::rlimit(80)]
fn unify_not_expected_alias(
    state: &mut State,
    span: Span,
    expected: Type,
    actual: Type,
    err: TypeError,
    f: u64,
) -> (r: Result<(), TypeError>)
    requires
        old(state).wf(),
        subst_wf(old(state).substitution@),
    ensures
        final(state).wf(),
        subst_wf(final(state).substitution@),
        final(state).warnings == old(state).warnings,
        final(state).value_references == old(state).value_references,
        final(state).constructor_references == old(state).constructor_references,
        !is_alias_like(actual@) ==> leaf_post(*old(state), *final(state), expected@, actual@, err, r),
        !is_alias_like(actual@) ==> plain_post(
            old(state).substitution@,
            final(state).substitution@,
            span,
            expected@,
            actual@,
            |x: TypeError| x == err,
            r,
        ),
        r matches Err(x) ==> reported(x, err),
        ground_law(old(state).substitution@, final(state).substitution@, expected@, actual@, (f + 1) as nat, r),
        applied_bindings_kept(old(state).substitution@, final(state).substitution@, expected@, actual@),
        closed_fields_law(expected@, actual@, f as nat, r),
    decreases f, 3nat,
{
    let ghost av = actual@;
    let ghost ev = expected@;
    match actual {
        Type::ConstructorAlias {
            alias_kind,
            alias_canonical_value,
            alias_source_value,
            alias_variables: _,
            aliased_type,
        } => {
            proof {
                assert(is_alias_like(av));
            }
            let first = Constraint {
                expected: copy_type(&expected),
                actual: Type::Constructor {
                    constructor_kind: alias_kind,
                    canonical_value: alias_canonical_value,
                    source_value: alias_source_value,
                },
            };
            let e = copy_type_error(&err);
            match unify_else(state, span, first, Some(&e), f) {
                Ok(()) => Ok(()),
                Err(_) => unify_else(state, span, Constraint { expected, actual: *aliased_type }, Some(&err), f),
            }
        },
        Type::Call { function, arguments } => {
            let ghost fv = (*function)@;
            proof {
                assert(*av->Call_function == fv);
            }
            match *function {
                Type::ConstructorAlias {
                    alias_kind,
                    alias_canonical_value,
                    alias_source_value,
                    alias_variables: _,
                    aliased_type,
                } => {
                    proof {
                        assert(fv is ConstructorAlias);
                        assert(is_alias_like(av));
                    }
                    let first = Constraint {
                        expected: copy_type(&expected),
                        actual: Type::Call {
                            function: Box::new(
                                Type::Constructor {
                                    constructor_kind: alias_kind,
                                    canonical_value: alias_canonical_value,
                                    source_value: alias_source_value,
                                },
                            ),
                            arguments,
                        },
                    };
                    let e = copy_type_error(&err);
                    match unify_else(state, span, first, Some(&e), f) {
                        Ok(()) => Ok(()),
                        Err(_) => unify_else(
                            state,
                            span,
                            Constraint { expected, actual: *aliased_type },
                            Some(&err),
                            f,
                        ),
                    }
                },
                function => {
                    let actual = Type::Call { function: Box::new(function), arguments };
                    proof {
                        assert(actual@ == av);
                    }
                    let r = unify_plain(state, span, expected, actual, err, f);
                    proof {
                        assert(!is_alias_like(av) ==> leaf_post(*old(state), *state, ev, av, err, r));
                    }
                    r
                },
            }
        },
        actual => {
            proof {
                assert(actual@ == av);
            }
            unify_plain(state, span, expected, actual, err, f)
        },
    }
}

/// Whether some entry of the row has label `l`.
pub open spec fn has_label(row: Seq<(NameV, TypeV)>, l: NameV) -> bool {
    exists|k: int| 0 <= k < row.len() && row[k].0 == l
}

/// Whether the two rows have the same labels.
pub open spec fn same_labels(a: Seq<(NameV, TypeV)>, b: Seq<(NameV, TypeV)>) -> bool {
    forall|l: NameV| has_label(a, l) <==> has_label(b, l)
}

/// Whether `x` is an entry of the row.
pub open spec fn in_row(row: Seq<(NameV, TypeV)>, x: (NameV, TypeV)) -> bool {
    exists|j: int| 0 <= j < row.len() && row[j] == x
}

/// Whether no label occurs twice in the row.
pub open spec fn distinct_labels(row: Seq<(NameV, TypeV)>) -> bool {
    forall|j: int, k: int| 0 <= j < k < row.len() ==> row[j].0 != row[k].0
}

/// Two types that are both ground and nested less than `fuel` deep are the same.
pub open spec fn same_if_ground(x: TypeV, y: TypeV, fuel: nat) -> bool {
    (ground(x) && ground(y) && bounded(x, fuel) && bounded(y, fuel)) ==> same_ground(x, y)
}

/// The field types of each label shared by the rows `e` and `a` are the same,
/// wherever both are ground and nested less than `fuel` deep.
pub open spec fn fields_agree(e: Seq<(NameV, TypeV)>, a: Seq<(NameV, TypeV)>, fuel: nat) -> bool {
    forall|i: int, j: int|
        0 <= i < e.len() && 0 <= j < a.len() && e[i].0 == a[j].0 ==> same_if_ground(
            #[trigger] e[i].1,
            #[trigger] a[j].1,
            fuel,
        )
}

/// Two closed records unify only if, wherever the actual one names each label
/// once, the field types of each label are the same where both are ground and
/// nested less than `fuel` deep.
pub open spec fn closed_fields_law(e: TypeV, a: TypeV, fuel: nat, r: Result<(), TypeError>) -> bool {
    match (e, a) {
        (TypeV::RecordClosed { closed_row: er, .. }, TypeV::RecordClosed { closed_row: ar, .. }) => (r is Ok
            && distinct_labels(ar)) ==> fields_agree(er, ar, fuel),
        _ => true,
    }
}

proof fn lemma_row_view_remove(v: Seq<(Name, Type)>, i: int)
    requires
        0 <= i < v.len(),
    ensures
        row_view(v.remove(i)) == row_view(v).remove(i),
{
    assert(row_view(v.remove(i)) =~= row_view(v).remove(i));
}

/// Unifies two closed records: the type of each expected label with that of
/// the same label in `actual_row`, which must have no other labels.
///
/// Success takes the two rows to have the same labels.
fn unify_closed_rows(
    state: &mut State,
    span: Span,
    expected_row: &Vec<(Name, Type)>,
    actual_row: Vec<(Name, Type)>,
    err: TypeError,
    f: u64,
) -> (r: Result<(), TypeError>)
    requires
        old(state).wf(),
        subst_wf(old(state).substitution@),
    ensures
        final(state).wf(),
        subst_wf(final(state).substitution@),
        final(state).warnings == old(state).warnings,
        final(state).value_references == old(state).value_references,
        final(state).constructor_references == old(state).constructor_references,
        r is Ok ==> same_labels(row_view(expected_row@), row_view(actual_row@)),
        r is Ok && distinct_labels(row_view(actual_row@)) ==> fields_agree(
            row_view(expected_row@),
            row_view(actual_row@),
            f as nat,
        ),
        r matches Err(x) ==> reported(x, err),
    decreases f, 1nat,
{
    let ghost ea = row_view(expected_row@);
    let ghost aa = row_view(actual_row@);
    let mut actual_row = actual_row;
    let mut i: usize = 0;
    while i < expected_row.len()
        invariant
            state.wf(),
            subst_wf(state.substitution@),
            state.warnings == old(state).warnings,
            state.value_references == old(state).value_references,
            state.constructor_references == old(state).constructor_references,
            i <= expected_row@.len(),
            ea == row_view(expected_row@),
            forall|m: int| 0 <= m < actual_row@.len() ==> has_label(aa, #[trigger] row_view(actual_row@)[m].0),
            forall|l: NameV| has_label(aa, l) && !has_label(ea.take(i as int), l) ==> #[trigger] has_label(
                row_view(actual_row@),
                l,
            ),
            forall|j: int| 0 <= j < i ==> has_label(aa, (#[trigger] ea[j]).0),
            forall|m: int| 0 <= m < actual_row@.len() ==> in_row(aa, #[trigger] row_view(actual_row@)[m]),
            distinct_labels(aa) ==> forall|k: int, j: int|
                0 <= k < i && 0 <= j < aa.len() && ea[k].0 == aa[j].0 ==> same_if_ground(
                    #[trigger] ea[k].1,
                    #[trigger] aa[j].1,
                    f as nat,
                ),
        decreases expected_row@.len() - i,
    {
        let ghost cur = actual_row@;
        let ghost label = ea[i as int].0;
        match row_remove(&mut actual_row, &expected_row[i].0) {
            Some(actual_type) => {
                proof {
                    let idx = first_key(row_view(cur), label)->0;
                    assert(is_first_key(row_view(cur), label, idx)) by {
                        let c = choose|k: int| is_first_key(row_view(cur), label, k);
                        assert(is_first_key(row_view(cur), label, c));
                    }
                    lemma_row_view_remove(cur, idx);
                    assert(has_label(aa, row_view(cur)[idx].0));
                    assert forall|m: int| 0 <= m < actual_row@.len() implies has_label(
                        aa,
                        #[trigger] row_view(actual_row@)[m].0,
                    ) by {
                        if m < idx {
                            assert(row_view(actual_row@)[m] == row_view(cur)[m]);
                        } else {
                            assert(row_view(actual_row@)[m] == row_view(cur)[m + 1]);
                        }
                    }
                    assert forall|l: NameV| has_label(aa, l) && !has_label(ea.take(i + 1), l) implies #[trigger] has_label(
                        row_view(actual_row@),
                        l,
                    ) by {
                        assert(ea.take(i + 1)[i as int] == ea[i as int]);
                        assert(l != label);
                        assert forall|k: int| 0 <= k < i implies ea.take(i as int)[k] == ea.take(i + 1)[k] by {}
                        assert(!has_label(ea.take(i as int), l)) by {
                            if has_label(ea.take(i as int), l) {
                                let k = choose|k: int| 0 <= k < ea.take(i as int).len() && ea.take(i as int)[k].0 == l;
                                assert(ea.take(i + 1)[k].0 == l);
                            }
                        }
                        assert(has_label(row_view(cur), l));
                        let m = choose|m: int| 0 <= m < row_view(cur).len() && row_view(cur)[m].0 == l;
                        if m < idx {
                            assert(row_view(actual_row@)[m] == row_view(cur)[m]);
                        } else {
                            assert(m != idx);
                            assert(row_view(actual_row@)[m - 1] == row_view(cur)[m]);
                        }
                    }
                }
                let ghost found = row_view(cur)[first_key(row_view(cur), label)->0];
                proof {
                    let idx = first_key(row_view(cur), label)->0;
                    assert(in_row(aa, found));
                    assert forall|m: int| 0 <= m < actual_row@.len() implies in_row(
                        aa,
                        #[trigger] row_view(actual_row@)[m],
                    ) by {
                        if m < idx {
                            assert(row_view(actual_row@)[m] == row_view(cur)[m]);
                        } else {
                            assert(row_view(actual_row@)[m] == row_view(cur)[m + 1]);
                        }
                    }
                    assert(actual_type@ == found.1);
                    assert(found.0 == label);
                    if distinct_labels(aa) {
                        assert forall|j: int| 0 <= j < aa.len() && aa[j].0 == ea[i as int].0 implies #[trigger] aa[j].1
                            == actual_type@ by {
                            let j0 = choose|j0: int| 0 <= j0 < aa.len() && aa[j0] == found;
                            if j != j0 {
                                if j < j0 {
                                    assert(aa[j].0 != aa[j0].0);
                                } else {
                                    assert(aa[j0].0 != aa[j].0);
                                }
                            }
                        }
                    }
                }
                let e = copy_type_error(&err);
                let constraint = Constraint { expected: copy_type(&expected_row[i].1), actual: actual_type };
                match unify_else(state, span, constraint, Some(&e), f) {
                    Ok(()) => {},
                    Err(e2) => {
                        proof {
                            lemma_reported_copy(e2, err, e);
                        }
                        return Err(e2);
                    },
                }
            },
            None => {
                // An expected label is missing from the actual record.
                proof {
                    assert(copies_error(err, err));
                }
                return Err(err);
            },
        }
        i = i + 1;
    }
    if actual_row.len() != 0 {
        // Labels left over are not in both records.
        proof {
            assert(copies_error(err, err));
        }
        return Err(err);
    }
    proof {
        assert(ea.take(ea.len() as int) =~= ea);
        assert forall|l: NameV| has_label(ea, l) <==> has_label(aa, l) by {
            if has_label(ea, l) {
                let j = choose|j: int| 0 <= j < ea.len() && ea[j].0 == l;
                assert(has_label(aa, ea[j].0));
            }
            if has_label(aa, l) && !has_label(ea, l) {
                assert(has_label(row_view(actual_row@), l));
            }
        }
    }
    Ok(())
}

/// Binding a variable that is not yet bound, to a type without records or
/// aliases, keeps every binding and adds only such types.
proof fn lemma_insert_fresh(s: Map<usize, TypeV>, v: usize, t: TypeV)
    requires
        !s.contains_key(v),
        plain(t),
        plain_subst(s),
    ensures
        s.submap_of(s.insert(v, t)),
        plain_subst(s.insert(v, t)),
        s.submap_of(s),
{
    assert forall|k: usize| #[trigger] s.insert(v, t).contains_key(k) implies plain(s.insert(v, t)[k]) by {
        if k != v {
            assert(s.contains_key(k));
        }
    }
}

/// [unify_else] once neither side is an alias.
#[verifier::rlimit(100)]
#[verifier::loop_isolation(false)]
fn unify_plain(state: &mut State, span: Span, expected: Type, actual: Type, err: TypeError, f: u64) -> (r: Result<
    (),
    TypeError,
>)
    requires
        old(state).wf(),
        subst_wf(old(state).substitution@),
    ensures
        final(state).wf(),
        subst_wf(final(state).substitution@),
        final(state).warnings == old(state).warnings,
        final(state).value_references == old(state).value_references,
        final(state).constructor_references == old(state).constructor_references,
        leaf_post(*old(state), *final(state), expected@, actual@, err, r),
        plain_post(
            old(state).substitution@,
            final(state).substitution@,
            span,
            expected@,
            actual@,
            |x: TypeError| x == err,
            r,
        ),
        r matches Err(x) ==> reported(x, err),
        ground_law(old(state).substitution@, final(state).substitution@, expected@, actual@, (f + 1) as nat, r),
        applied_bindings_kept(old(state).substitution@, final(state).substitution@, expected@, actual@),
        closed_fields_law(expected@, actual@, f as nat, r),
    decreases f, 2nat,
{
    let ghost ev = expected@;
    let ghost av0 = actual@;
    // A type variable named in the source unifies with the same name.
    match (&expected, &actual) {
        (Type::Variable { source_name: Some(n1), .. }, Type::Variable { source_name: Some(n2), .. }) => {
            if n1.eq(n2) {
                return Ok(());
            }
        },
        _ => {},
    }
    // Anonymous variables are bound to the other side.
    let ghost hyp = plain(ev) && plain(av0) && unbound_in(state.substitution@, ev) && unbound_in(
        state.substitution@,
        av0,
    ) && plain_subst(state.substitution@);
    match &expected {
        Type::Variable { source_name: None, var, .. } => {
            let v = *var;
            let ghost s = state.substitution@;
            let r = bind(state, span, v, actual);
            proof {
                if hyp {
                    lemma_insert_fresh(s, v, av0);
                }
            }
            return r;
        },
        _ => {},
    }
    match &actual {
        Type::Variable { source_name: None, var, .. } => {
            let v = *var;
            let ghost s = state.substitution@;
            let r = bind(state, span, v, expected);
            proof {
                if hyp {
                    lemma_insert_fresh(s, v, ev);
                }
            }
            return r;
        },
        _ => {},
    }
    match (expected, actual) {
        (Type::Constructor { canonical_value: e, .. }, Type::Constructor { canonical_value: a, .. }) => {
            if e.eq(&a) {
                Ok(())
            } else {
                Err(err)
            }
        },
        (Type::PrimConstructor(e), Type::PrimConstructor(a)) => {
            if e == a {
                Ok(())
            } else {
                Err(err)
            }
        },
        (
            Type::Call { function: expected_function, arguments: expected_arguments },
            Type::Call { function: actual_function, arguments: actual_arguments },
        ) => {
            proof {
                assert(*ev->Call_function == (*expected_function)@);
                assert(*av0->Call_function == (*actual_function)@);
                assert forall|k: int| 0 <= k < expected_arguments@.len() implies ev->Call_arguments[k]
                    == (#[trigger] expected_arguments@[k])@ by {}
                assert forall|k: int| 0 <= k < actual_arguments@.len() implies av0->Call_arguments[k]
                    == (#[trigger] actual_arguments@[k])@ by {}
                if ground(ev) && ground(av0) && bounded(ev, (f + 1) as nat) && bounded(av0, (f + 1) as nat)
                    && expected_arguments@.len() == actual_arguments@.len() {
                    assert(pairs_ground(expected_arguments@, actual_arguments@, f as nat));
                }
            }
            let e = copy_type_error(&err);
            match unify_else(
                state,
                span,
                Constraint { expected: *expected_function, actual: *actual_function },
                Some(&e),
                f,
            ) {
                Ok(()) => {},
                Err(e) => {
                    return Err(e);
                },
            }
            if expected_arguments.len() != actual_arguments.len() {
                return Err(err);
            }
            let ghost s1 = state.substitution@;
            proof {
                if hyp {
                    assert(pairs_plain(expected_arguments@, actual_arguments@));
                }
            }
            let r = unify_pairs(state, span, &expected_arguments, &actual_arguments, &err, f);
            proof {
                if hyp {
                    vstd::map_lib::lemma_submap_of_trans(old(state).substitution@, s1, state.substitution@);
                }
            }
            r
        },
        (
            Type::Function { parameters: expected_parameters, return_type: expected_return_type },
            Type::Function { parameters: actual_parameters, return_type: actual_return_type },
        ) => {
            proof {
                assert(*ev->Function_return_type == (*expected_return_type)@);
                assert(*av0->Function_return_type == (*actual_return_type)@);
                assert forall|k: int| 0 <= k < expected_parameters@.len() implies ev->Function_parameters[k]
                    == (#[trigger] expected_parameters@[k])@ by {}
                assert forall|k: int| 0 <= k < actual_parameters@.len() implies av0->Function_parameters[k]
                    == (#[trigger] actual_parameters@[k])@ by {}
                if ground(ev) && ground(av0) && bounded(ev, (f + 1) as nat) && bounded(av0, (f + 1) as nat)
                    && expected_parameters@.len() == actual_parameters@.len() {
                    assert(pairs_ground(expected_parameters@, actual_parameters@, f as nat));
                }
            }
            if expected_parameters.len() != actual_parameters.len() {
                return Err(err);
            }
            proof {
                if hyp {
                    assert(pairs_plain(expected_parameters@, actual_parameters@));
                }
            }
            match unify_pairs(state, span, &expected_parameters, &actual_parameters, &err, f) {
                Ok(()) => {},
                Err(e) => {
                    return Err(e);
                },
            }
            let ghost s1 = state.substitution@;
            let r = unify_else(
                state,
                span,
                Constraint { expected: *expected_return_type, actual: *actual_return_type },
                Some(&err),
                f,
            );
            proof {
                if hyp {
                    vstd::map_lib::lemma_submap_of_trans(old(state).substitution@, s1, state.substitution@);
                }
            }
            r
        },
        (
            Type::RecordClosed { closed_row: expected_row, .. },
            Type::RecordClosed { closed_row: actual_row, .. },
        ) => {
            proof {
                assert(ev->closed_row =~= row_view(expected_row@));
                assert(av0->closed_row =~= row_view(actual_row@));
            }
            unify_closed_rows(state, span, &expected_row, actual_row, err, f)
        },
        (Type::RecordClosed { closed_row, .. }, Type::RecordOpen { open_var, open_row, .. }) => {
            let mut open_row = open_row;
            match unify_rows(state, span, &closed_row, &mut open_row, true, &err, f) {
                Ok(()) => {},
                Err(e) => {
                    return Err(e);
                },
            }
            if open_row.len() != 0 {
                return Err(err);
            }
            bind(state, span, open_var, Type::RecordClosed { closed_kind: Kind::Type, closed_row })
        },
        (
            Type::RecordOpen { open_var, open_row, open_source_name: None, .. },
            Type::RecordClosed { closed_row, .. },
        ) => {
            let mut open_row = open_row;
            match unify_rows(state, span, &closed_row, &mut open_row, false, &err, f) {
                Ok(()) => {},
                Err(e) => {
                    return Err(e);
                },
            }
            if open_row.len() != 0 {
                return Err(err);
            }
            bind(state, span, open_var, Type::RecordClosed { closed_kind: Kind::Type, closed_row })
        },
        (
            Type::RecordOpen { open_row: expected_row, open_source_name: Some(n1), .. },
            Type::RecordOpen { open_row: actual_row, open_source_name: Some(n2), .. },
        ) => {
            if !n1.eq(&n2) {
                return Err(err);
            }
            let mut actual_row = actual_row;
            match unify_rows(state, span, &expected_row, &mut actual_row, true, &err, f) {
                Ok(()) => {},
                Err(e) => {
                    return Err(e);
                },
            }
            if actual_row.len() != 0 {
                return Err(err);
            }
            Ok(())
        },
        (
            Type::RecordOpen { open_var: named_var, open_row: named_row, open_source_name: Some(name), .. },
            Type::RecordOpen { open_var: unnamed_var, open_row: unnamed_row, open_source_name: None, .. },
        ) => {
            let mut unnamed_row = unnamed_row;
            match unify_rows(state, span, &named_row, &mut unnamed_row, true, &err, f) {
                Ok(()) => {},
                Err(e) => {
                    return Err(e);
                },
            }
            if unnamed_row.len() != 0 {
                return Err(err);
            }
            let var = state.supply.fresh();
            let bound_type = Type::RecordOpen {
                open_kind: Kind::Type,
                open_var: var,
                open_source_name: Some(name),
                open_row: named_row,
            };
            match bind(state, span, unnamed_var, copy_type(&bound_type)) {
                Ok(()) => {},
                Err(e) => {
                    return Err(e);
                },
            }
            bind(state, span, named_var, bound_type)
        },
        (
            Type::RecordOpen { open_var: unnamed_var, open_row: unnamed_row, open_source_name: None, .. },
            Type::RecordOpen { open_var: named_var, open_row: named_row, open_source_name: Some(name), .. },
        ) => {
            let mut unnamed_row = unnamed_row;
            match unify_rows(state, span, &named_row, &mut unnamed_row, false, &err, f) {
                Ok(()) => {},
                Err(e) => {
                    return Err(e);
                },
            }
            if unnamed_row.len() != 0 {
                return Err(err);
            }
            let var = state.supply.fresh();
            let bound_type = Type::RecordOpen {
                open_kind: Kind::Type,
                open_var: var,
                open_source_name: Some(name),
                open_row: named_row,
            };
            match bind(state, span, unnamed_var, copy_type(&bound_type)) {
                Ok(()) => {},
                Err(e) => {
                    return Err(e);
                },
            }
            bind(state, span, named_var, bound_type)
        },
        (
            Type::RecordOpen { open_var: expected_var, open_row: expected_row, open_source_name: None, .. },
            Type::RecordOpen { open_var: actual_var, open_row: actual_row, open_source_name: None, .. },
        ) => {
            let mut row = copy_row(&actual_row);
            let mut i: usize = 0;
            while i < expected_row.len()
                invariant
                    ev is RecordOpen,
                    state.wf(),
                    subst_wf(state.substitution@),
                    state.warnings == old(state).warnings,
                    state.value_references == old(state).value_references,
                    state.constructor_references == old(state).constructor_references,
                    i <= expected_row@.len(),
                decreases expected_row@.len() - i,
            {
                match row_get(&actual_row, &expected_row[i].0) {
                    Some(actual_type) => {
                        let e = copy_type_error(&err);
                        let constraint = Constraint {
                            expected: copy_type(&expected_row[i].1),
                            actual: copy_type(actual_type),
                        };
                        match unify_else(state, span, constraint, Some(&e), f) {
                            Ok(()) => {},
                            Err(e) => {
                                return Err(e);
                            },
                        }
                    },
                    None => {},
                }
                row_insert_exec(&mut row, expected_row[i].0.copy(), copy_type(&expected_row[i].1));
                i = i + 1;
            }
            let var = state.supply.fresh();
            let bound_type = Type::RecordOpen {
                open_kind: Kind::Type,
                open_var: var,
                open_source_name: None,
                open_row: row,
            };
            match bind(state, span, expected_var, copy_type(&bound_type)) {
                Ok(()) => {},
                Err(e) => {
                    return Err(e);
                },
            }
            bind(state, span, actual_var, bound_type)
        },
        _ => Err(err),
    }
}

/// Unifies two equally long lists of types, pair by pair.
fn unify_pairs(
    state: &mut State,
    span: Span,
    expected: &Vec<Type>,
    actual: &Vec<Type>,
    err: &TypeError,
    f: u64,
) -> (r: Result<(), TypeError>)
    requires
        old(state).wf(),
        subst_wf(old(state).substitution@),
        expected@.len() == actual@.len(),
    ensures
        final(state).wf(),
        subst_wf(final(state).substitution@),
        final(state).warnings == old(state).warnings,
        final(state).value_references == old(state).value_references,
        final(state).constructor_references == old(state).constructor_references,
        expected@.len() == 0 ==> r is Ok && final(state).substitution@ == old(state).substitution@,
        r matches Err(x) ==> reported(x, *err),
        f > 0 && expected@.len() > 0 ==> match (
            apply_spec(old(state).substitution@, expected@[0]@, 0, APPLY_FUEL as nat),
            apply_spec(old(state).substitution@, actual@[0]@, 0, APPLY_FUEL as nat),
        ) {
            (Some(TypeV::PrimConstructor(p)), Some(TypeV::PrimConstructor(q))) => p != q ==> r is Err,
            _ => true,
        },
        pairs_ground(expected@, actual@, f as nat) ==> {
            &&& (r is Ok <==> pairs_same(expected@, actual@, expected@.len() as int))
            &&& final(state).substitution@ == old(state).substitution@
        },
        (pairs_plain(expected@, actual@) && plain_subst(old(state).substitution@)) ==> old(
            state,
        ).substitution@.submap_of(final(state).substitution@) && plain_subst(final(state).substitution@),
    decreases f, 1nat,
{
    let mut i: usize = 0;
    while i < expected.len()
        invariant
            state.wf(),
            subst_wf(state.substitution@),
            state.warnings == old(state).warnings,
            state.value_references == old(state).value_references,
            state.constructor_references == old(state).constructor_references,
            expected@.len() == actual@.len(),
            i <= expected@.len(),
            i == 0 ==> state.substitution@ == old(state).substitution@,
            pairs_ground(expected@, actual@, f as nat) ==> {
                &&& state.substitution@ == old(state).substitution@
                &&& pairs_same(expected@, actual@, i as int)
            },
            (pairs_plain(expected@, actual@) && plain_subst(old(state).substitution@)) ==> old(
                state,
            ).substitution@.submap_of(state.substitution@) && plain_subst(state.substitution@),
            f > 0 && i > 0 ==> match (
                apply_spec(old(state).substitution@, expected@[0]@, 0, APPLY_FUEL as nat),
                apply_spec(old(state).substitution@, actual@[0]@, 0, APPLY_FUEL as nat),
            ) {
                (Some(TypeV::PrimConstructor(p)), Some(TypeV::PrimConstructor(q))) => p == q,
                _ => true,
            },
        decreases expected@.len() - i,
    {
        let e = copy_type_error(err);
        let constraint = Constraint { expected: copy_type(&expected[i]), actual: copy_type(&actual[i]) };
        let ghost ev = expected@[i as int]@;
        let ghost avv = actual@[i as int]@;
        let ghost all_ground = pairs_ground(expected@, actual@, f as nat);
        let ghost all_plain = pairs_plain(expected@, actual@) && plain_subst(old(state).substitution@);
        let ghost sb = state.substitution@;
        proof {
            if all_ground {
                assert(ground(ev) && ground(avv) && bounded(ev, f as nat) && bounded(avv, f as nat));
            }
            if all_plain {
                assert(plain(ev) && plain(avv));
            }
        }
        let res = unify_else(state, span, constraint, Some(&e), f);
        proof {
            if all_plain {
                let o = old(state).substitution@;
                let n = state.substitution@;
                assert(o.submap_of(sb));
                assert(sb.submap_of(n));
                vstd::map_lib::lemma_submap_of_trans(o, sb, n);
            }
        }
        match res {
            Ok(()) => {},
            Err(e) => {
                proof {
                    if all_ground {
                        assert(!same_ground(ev, avv));
                        assert(!pairs_same(expected@, actual@, expected@.len() as int));
                    }
                }
                return Err(e);
            },
        }
        proof {
            if all_ground {
                assert(same_ground(ev, avv));
                assert forall|k: int| 0 <= k < i + 1 implies same_ground(#[trigger] expected@[k]@, actual@[k]@) by {
                    if k < i {
                        assert(pairs_same(expected@, actual@, i as int));
                    }
                }
            }
        }
        i = i + 1;
    }
    Ok(())
}

} // verus!
