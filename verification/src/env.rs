//! Type schemes and the typing environment: the values and constructors in scope.
use crate::ast::{type_of, Expression, Pattern};
use crate::names::{FullyQualifiedName, FullyQualifiedProperName, Name, ProperName, QualifiedName, QualifiedProperName, Span};
use crate::state::Supply;
use crate::substitution::{apply_spec, opt_type_view, Substitution, APPLY_FUEL};
use crate::typevars::{type_variables, type_variables_spec, vec_contains};
use crate::types::{copy_type, copy_usizes, KindV, Type, TypeV};
use vstd::prelude::*;

verus! {

/// Whether the `i`-th value of the environment is the first one named `name`.
pub open spec fn first_value(values: Seq<(QualifiedName, EnvValue)>, name: (Option<Seq<char>>, Seq<char>), i: int) -> bool {
    &&& 0 <= i < values.len()
    &&& values[i].0@ == name
    &&& forall|j: int| 0 <= j < i ==> values[j].0@ != name
}

/// The type of a use of the value `v` at `next` in the supply: its scheme
/// instantiated with fresh variables from there, or, where applying that has
/// no result, the error [crate::state::TypeError::SubstitutionTooDeep].
pub open spec fn use_typed(v: EnvValue, next: usize, r: Result<Expression, crate::state::TypeError>) -> bool {
    let sch = v.scheme_of();
    let start = instance_start(sch.forall@, next);
    let inst = apply_spec(instance_subst(sch.forall@, start, sch.forall@.len()), sch.signature@, 0, APPLY_FUEL as nat);
    start + sch.forall@.len() <= usize::MAX ==> match r {
        Ok(e) => Some(type_of(e)) == inst,
        Err(x) => inst is None && x is SubstitutionTooDeep,
    }
}

/// A polymorphic type: a type together with the variables it is generic over.
pub struct Scheme {
    /// The quantified variables, each once.
    pub forall: Vec<usize>,
    /// The enclosed type.
    pub signature: Type,
}

/// The largest element of a non-empty sequence.
pub open spec fn seq_max(s: Seq<usize>) -> usize
    decreases s.len(),
{
    if s.len() <= 1 {
        s[0]
    } else {
        let m = seq_max(s.drop_last());
        if s.last() > m {
            s.last()
        } else {
            m
        }
    }
}

/// Where fresh variables for an instance start: after every quantified variable
/// and no earlier than the supply.
pub open spec fn instance_start(forall: Seq<usize>, next: usize) -> int {
    if forall.len() > 0 && seq_max(forall) >= next {
        seq_max(forall) + 1
    } else {
        next as int
    }
}

/// The substitution of an instance: the first `n` quantified variables, in
/// order, each to a fresh anonymous variable numbered from `start`.
pub open spec fn instance_subst(forall: Seq<usize>, start: int, n: nat) -> Map<usize, TypeV>
    decreases n,
{
    if n == 0 || n > forall.len() {
        Map::empty()
    } else {
        instance_subst(forall, start, (n - 1) as nat).insert(
            forall[n - 1],
            TypeV::Variable { variable_kind: KindV::Type, var: (start + n - 1) as usize, source_name: None },
        )
    }
}

/// The type variables of `t` that `vars` does not hold, in order of first occurrence.
pub open spec fn tvs_without(t: TypeV, vars: Seq<usize>) -> Seq<usize> {
    type_variables_spec(t).filter(|v: usize| !vars.contains(v))
}

fn max_of(v: &Vec<usize>) -> (r: usize)
    requires
        v@.len() > 0,
    ensures
        r == seq_max(v@),
{
    let mut m = v[0];
    let mut i: usize = 1;
    while i < v.len()
        invariant
            1 <= i <= v@.len(),
            m == seq_max(v@.subrange(0, i as int)),
        decreases v@.len() - i,
    {
        proof {
            let pre = v@.subrange(0, i as int);
            let post = v@.subrange(0, i + 1);
            assert(post.drop_last() =~= pre);
        }
        if v[i] > m {
            m = v[i];
        }
        i = i + 1;
    }
    proof {
        assert(v@.subrange(0, v@.len() as int) =~= v@);
        assert(v@.subrange(0, 1).len() == 1);
    }
    m
}

/// The elements of `v` that `vars` does not hold, in order.
fn without(v: &Vec<usize>, vars: &Vec<usize>) -> (r: Vec<usize>)
    ensures
        r@ == v@.filter(|x: usize| !vars@.contains(x)),
{
    let mut out: Vec<usize> = Vec::new();
    let mut i: usize = 0;
    while i < v.len()
        invariant
            i <= v@.len(),
            out@ == v@.subrange(0, i as int).filter(|x: usize| !vars@.contains(x)),
        decreases v@.len() - i,
    {
        proof {
            let pre = v@.subrange(0, i as int);
            let post = v@.subrange(0, i + 1);
            assert(post.drop_last() =~= pre);
            reveal(Seq::filter);
        }
        if !vec_contains(vars, v[i]) {
            out.push(v[i]);
        }
        i = i + 1;
    }
    proof {
        assert(v@.subrange(0, v@.len() as int) =~= v@);
    }
    out
}

impl Scheme {
    /// Makes an independent copy of this scheme.
    pub fn copy(&self) -> (r: Scheme)
        ensures
            r.forall@ == self.forall@,
            r.signature@ == self.signature@,
    {
        Scheme { forall: copy_usizes(&self.forall), signature: copy_type(&self.signature) }
    }

    /// A scheme over all the type variables of `t`: use this where none of them
    /// occurs in the typing environment.
    pub fn from_type(t: Type) -> (r: Scheme)
        ensures
            r.forall@ == type_variables_spec(t@),
            r.signature@ == t@,
    {
        let forall = type_variables(&t);
        Scheme { forall, signature: t }
    }

    /// Turns this polymorphic type into a monomorphic one, each quantified variable
    /// replaced by a fresh one. Fresh variables start after the largest quantified
    /// variable where the supply is not already past it.
    ///
    /// `None` where applying the instance's substitution has no result (see [apply_spec]).
    pub fn instantiate(&self, supply: &mut Supply) -> (r: Option<Type>)
        ensures
            ({
                let start = instance_start(self.forall@, old(supply).0);
                start + self.forall@.len() <= usize::MAX ==> {
                    &&& final(supply).0 == start + self.forall@.len()
                    &&& opt_type_view(r) == apply_spec(
                        instance_subst(self.forall@, start, self.forall@.len()),
                        self.signature@,
                        0,
                        APPLY_FUEL as nat,
                    )
                }
            }),
    {
        let ghost start = instance_start(self.forall@, supply.0);
        if self.forall.len() > 0 {
            let max_var = max_of(&self.forall);
            if max_var >= supply.peek() {
                supply.update(max_var.wrapping_add(1));
            }
        }
        let mut subst = Substitution::new();
        let mut i: usize = 0;
        while i < self.forall.len()
            invariant
                i <= self.forall@.len(),
                start + self.forall@.len() <= usize::MAX ==> supply.0 == start + i,
                start + self.forall@.len() <= usize::MAX ==> subst@ == instance_subst(self.forall@, start, i as nat),
            decreases self.forall@.len() - i,
        {
            let ghost before = supply.0;
            let t = supply.fresh_type();
            proof {
                if start + self.forall@.len() <= usize::MAX {
                    assert(before == start + i);
                }
            }
            let ghost tv = t@;
            subst.insert(self.forall[i], t);
            proof {
                if start + self.forall@.len() <= usize::MAX {
                    assert(tv == TypeV::Variable {
                        variable_kind: KindV::Type,
                        var: (start + (i + 1) - 1) as usize,
                        source_name: None,
                    });
                }
            }
            i = i + 1;
        }
        subst.try_apply(&self.signature)
    }

    /// The variables of the signature that are not quantified, in order of first occurrence.
    pub fn free_type_variables(&self) -> (r: Vec<usize>)
        ensures
            r@ == tvs_without(self.signature@, self.forall@),
    {
        let tvs = type_variables(&self.signature);
        without(&tvs, &self.forall)
    }
}

/// A value in scope.
pub enum EnvValue {
    ModuleValue { span: Span, variable_scheme: Scheme, variable: Name },
    ForeignVariable { span: Span, variable_scheme: Scheme, variable: Name },
    ImportedVariable { span: Span, variable_scheme: Scheme, variable: FullyQualifiedName },
}

/// A constructor in scope.
pub enum EnvConstructor {
    ModuleConstructor { constructor_scheme: Scheme, constructor: ProperName },
    ImportedConstructor { constructor_scheme: Scheme, constructor: FullyQualifiedProperName },
}

impl EnvValue {
    pub open spec fn scheme_of(&self) -> Scheme {
        match *self {
            EnvValue::ModuleValue { variable_scheme, .. } => variable_scheme,
            EnvValue::ForeignVariable { variable_scheme, .. } => variable_scheme,
            EnvValue::ImportedVariable { variable_scheme, .. } => variable_scheme,
        }
    }

    pub fn get_scheme(&self) -> (r: &Scheme)
        ensures
            *r == self.scheme_of(),
    {
        match self {
            EnvValue::ModuleValue { variable_scheme, .. } => variable_scheme,
            EnvValue::ForeignVariable { variable_scheme, .. } => variable_scheme,
            EnvValue::ImportedVariable { variable_scheme, .. } => variable_scheme,
        }
    }

    pub fn copy(&self) -> (r: EnvValue)
        ensures
            r.scheme_of().forall@ == self.scheme_of().forall@,
            r.scheme_of().signature@ == self.scheme_of().signature@,
    {
        match self {
            EnvValue::ModuleValue { span, variable_scheme, variable } => EnvValue::ModuleValue {
                span: *span,
                variable_scheme: variable_scheme.copy(),
                variable: variable.copy(),
            },
            EnvValue::ForeignVariable { span, variable_scheme, variable } => EnvValue::ForeignVariable {
                span: *span,
                variable_scheme: variable_scheme.copy(),
                variable: variable.copy(),
            },
            EnvValue::ImportedVariable { span, variable_scheme, variable } => EnvValue::ImportedVariable {
                span: *span,
                variable_scheme: variable_scheme.copy(),
                variable: variable.copy(),
            },
        }
    }

    /// The expression that refers to this value at `span`, its scheme instantiated.
    pub fn to_expression(&self, span: Span, supply: &mut Supply) -> (r: Option<Expression>)
        ensures
            match r {
                Some(e) => e.span_of() == span && match (*self, e) {
                    (EnvValue::ModuleValue { variable: a, .. }, Expression::LocalVariable { variable: b, .. }) => a@
                        == b@,
                    (EnvValue::ForeignVariable { variable: a, .. }, Expression::ForeignVariable {
                        variable: b,
                        ..
                    }) => a@ == b@,
                    (EnvValue::ImportedVariable { variable: a, .. }, Expression::ImportedVariable {
                        variable: b,
                        ..
                    }) => a@ == b@,
                    _ => false,
                },
                None => true,
            },
            ({
                let sch = self.scheme_of();
                let start = instance_start(sch.forall@, old(supply).0);
                let inst = apply_spec(
                    instance_subst(sch.forall@, start, sch.forall@.len()),
                    sch.signature@,
                    0,
                    APPLY_FUEL as nat,
                );
                start + sch.forall@.len() <= usize::MAX ==> {
                    &&& final(supply).0 == start + sch.forall@.len()
                    &&& match r {
                        Some(e) => inst == Some(type_of(e)),
                        None => inst is None,
                    }
                }
            }),
    {
        match self {
            EnvValue::ModuleValue { variable_scheme, variable, .. } => match variable_scheme.instantiate(supply) {
                Some(variable_type) => Some(
                    Expression::LocalVariable { span, variable_type, variable: variable.copy() },
                ),
                None => None,
            },
            EnvValue::ForeignVariable { variable_scheme, variable, .. } => match variable_scheme.instantiate(
                supply,
            ) {
                Some(variable_type) => Some(
                    Expression::ForeignVariable { span, variable_type, variable: variable.copy() },
                ),
                None => None,
            },
            EnvValue::ImportedVariable { variable_scheme, variable, .. } => match variable_scheme.instantiate(
                supply,
            ) {
                Some(variable_type) => Some(
                    Expression::ImportedVariable { span, variable_type, variable: variable.copy() },
                ),
                None => None,
            },
        }
    }
}

impl EnvConstructor {
    pub open spec fn scheme_of(&self) -> Scheme {
        match *self {
            EnvConstructor::ModuleConstructor { constructor_scheme, .. } => constructor_scheme,
            EnvConstructor::ImportedConstructor { constructor_scheme, .. } => constructor_scheme,
        }
    }

    pub fn get_scheme(&self) -> (r: &Scheme)
        ensures
            *r == self.scheme_of(),
    {
        match self {
            EnvConstructor::ModuleConstructor { constructor_scheme, .. } => constructor_scheme,
            EnvConstructor::ImportedConstructor { constructor_scheme, .. } => constructor_scheme,
        }
    }

    pub fn copy(&self) -> (r: EnvConstructor)
        ensures
            r.scheme_of().forall@ == self.scheme_of().forall@,
            r.scheme_of().signature@ == self.scheme_of().signature@,
    {
        match self {
            EnvConstructor::ModuleConstructor { constructor_scheme, constructor } =>
                EnvConstructor::ModuleConstructor {
                constructor_scheme: constructor_scheme.copy(),
                constructor: constructor.copy(),
            },
            EnvConstructor::ImportedConstructor { constructor_scheme, constructor } =>
                EnvConstructor::ImportedConstructor {
                constructor_scheme: constructor_scheme.copy(),
                constructor: constructor.copy(),
            },
        }
    }

    /// The expression that refers to this constructor at `span`, its scheme instantiated.
    pub fn to_expression(&self, span: Span, supply: &mut Supply) -> (r: Option<Expression>)
        ensures
            match r {
                Some(e) => e.span_of() == span && match (*self, e) {
                    (EnvConstructor::ModuleConstructor { constructor: a, .. }, Expression::LocalConstructor {
                        constructor: b,
                        ..
                    }) => a@ == b@,
                    (EnvConstructor::ImportedConstructor { constructor: a, .. }, Expression::ImportedConstructor {
                        constructor: b,
                        ..
                    }) => a@ == b@,
                    _ => false,
                },
                None => true,
            },
            ({
                let sch = self.scheme_of();
                let start = instance_start(sch.forall@, old(supply).0);
                let inst = apply_spec(
                    instance_subst(sch.forall@, start, sch.forall@.len()),
                    sch.signature@,
                    0,
                    APPLY_FUEL as nat,
                );
                start + sch.forall@.len() <= usize::MAX ==> {
                    &&& final(supply).0 == start + sch.forall@.len()
                    &&& match r {
                        Some(e) => inst == Some(type_of(e)),
                        None => inst is None,
                    }
                }
            }),
    {
        match self {
            EnvConstructor::ModuleConstructor { constructor_scheme, constructor } => match constructor_scheme.instantiate(
                supply,
            ) {
                Some(constructor_type) => Some(
                    Expression::LocalConstructor { span, constructor_type, constructor: constructor.copy() },
                ),
                None => None,
            },
            EnvConstructor::ImportedConstructor { constructor_scheme, constructor } =>
                match constructor_scheme.instantiate(supply) {
                Some(constructor_type) => Some(
                    Expression::ImportedConstructor { span, constructor_type, constructor: constructor.copy() },
                ),
                None => None,
            },
        }
    }

    /// The pattern that matches this constructor at `span` with `arguments`.
    pub fn to_pattern(&self, span: Span, arguments: Vec<Pattern>) -> (r: Pattern)
        ensures
            r.span_of() == span,
            match (*self, r) {
                (EnvConstructor::ModuleConstructor { constructor, .. }, Pattern::LocalConstructor {
                    constructor: c,
                    arguments: a,
                    ..
                }) => c@ == constructor@ && a == arguments,
                (EnvConstructor::ImportedConstructor { .. }, Pattern::ImportedConstructor { arguments: a, .. }) => a
                    == arguments,
                _ => false,
            },
    {
        match self {
            EnvConstructor::ModuleConstructor { constructor, .. } => Pattern::LocalConstructor {
                span,
                constructor: constructor.copy(),
                arguments,
            },
            EnvConstructor::ImportedConstructor { constructor, .. } => Pattern::ImportedConstructor {
                span,
                constructor: constructor.copy(),
                arguments,
            },
        }
    }

    /// This constructor's type, its scheme instantiated (see [Scheme::instantiate]).
    pub fn get_type(&self, supply: &mut Supply) -> (r: Option<Type>)
        ensures
            ({
                let scheme = self.scheme_of();
                let start = instance_start(scheme.forall@, old(supply).0);
                start + scheme.forall@.len() <= usize::MAX ==> {
                    &&& final(supply).0 == start + scheme.forall@.len()
                    &&& opt_type_view(r) == apply_spec(
                        instance_subst(scheme.forall@, start, scheme.forall@.len()),
                        scheme.signature@,
                        0,
                        APPLY_FUEL as nat,
                    )
                }
            }),
    {
        self.get_scheme().instantiate(supply)
    }
}

/// The typing environment.
pub struct Env {
    pub constructors: Vec<(QualifiedProperName, EnvConstructor)>,
    pub values: Vec<(QualifiedName, EnvValue)>,
}

/// The variables that a list of schemes leaves free.
pub open spec fn free_in_schemes(schemes: Seq<Scheme>, v: usize) -> bool {
    exists|i: int| 0 <= i < schemes.len() && tvs_without(schemes[i].signature@, schemes[i].forall@).contains(v)
}

/// Appends every element of `b` to `a`.
fn append_all(a: &mut Vec<usize>, b: &Vec<usize>)
    ensures
        final(a)@ == old(a)@ + b@,
{
    let mut j: usize = 0;
    while j < b.len()
        invariant
            j <= b@.len(),
            a@ == old(a)@ + b@.subrange(0, j as int),
        decreases b@.len() - j,
    {
        a.push(b[j]);
        proof {
            assert(a@ =~= old(a)@ + b@.subrange(0, j + 1));
        }
        j = j + 1;
    }
    proof {
        assert(b@.subrange(0, b@.len() as int) =~= b@);
    }
}

proof fn lemma_concat_contains(a: Seq<usize>, b: Seq<usize>, v: usize)
    ensures
        (a + b).contains(v) <==> (a.contains(v) || b.contains(v)),
{
    if (a + b).contains(v) {
        let k = choose|k: int| 0 <= k < (a + b).len() && (a + b)[k] == v;
        if k < a.len() {
            assert(a[k] == v);
        } else {
            assert(b[k - a.len()] == v);
        }
    }
    if a.contains(v) {
        let k = choose|k: int| 0 <= k < a.len() && a[k] == v;
        assert((a + b)[k] == v);
    }
    if b.contains(v) {
        let k = choose|k: int| 0 <= k < b.len() && b[k] == v;
        assert((a + b)[a.len() + k] == v);
    }
}

proof fn lemma_free_step(schemes: Seq<Scheme>, i: int, before: Seq<usize>, free: Seq<usize>, after: Seq<usize>)
    requires
        0 <= i < schemes.len(),
        after == before + free,
        free == tvs_without(schemes[i].signature@, schemes[i].forall@),
        forall|v: usize| before.contains(v) <==> free_in_schemes(schemes.subrange(0, i), v),
    ensures
        forall|v: usize| after.contains(v) <==> free_in_schemes(schemes.subrange(0, i + 1), v),
{
    assert forall|v: usize| after.contains(v) <==> free_in_schemes(schemes.subrange(0, i + 1), v) by {
        lemma_concat_contains(before, free, v);
        let pre = schemes.subrange(0, i);
        let post = schemes.subrange(0, i + 1);
        if free_in_schemes(pre, v) {
            let k = choose|k: int| 0 <= k < pre.len() && tvs_without(pre[k].signature@, pre[k].forall@).contains(v);
            assert(post[k] == pre[k]);
        }
        if free_in_schemes(post, v) {
            let k = choose|k: int| 0 <= k < post.len() && tvs_without(post[k].signature@, post[k].forall@).contains(v);
            if k < i {
                assert(pre[k] == post[k]);
            }
        }
        if free.contains(v) {
            assert(post[i] == schemes[i]);
        }
    }
}

impl Env {
    /// An empty environment.
    pub fn new() -> (r: Env)
        ensures
            r.values@.len() == 0,
            r.constructors@.len() == 0,
    {
        Env { constructors: Vec::new(), values: Vec::new() }
    }

    /// The schemes of everything in scope.
    pub open spec fn schemes(&self) -> Seq<Scheme> {
        Seq::new(self.constructors@.len(), |i: int| self.constructors@[i].1.scheme_of()) + Seq::new(
            self.values@.len(),
            |i: int| self.values@[i].1.scheme_of(),
        )
    }

    /// The type variables that some scheme in scope leaves free.
    pub fn free_type_variables(&self) -> (r: Vec<usize>)
        ensures
            forall|v: usize| r@.contains(v) <==> free_in_schemes(self.schemes(), v),
    {
        let ghost schemes = self.schemes();
        let ghost nc = self.constructors@.len();
        let mut out: Vec<usize> = Vec::new();
        let mut i: usize = 0;
        while i < self.constructors.len()
            invariant
                schemes == self.schemes(),
                nc == self.constructors@.len(),
                schemes.len() == nc + self.values@.len(),
                i <= nc,
                forall|v: usize| out@.contains(v) <==> free_in_schemes(schemes.subrange(0, i as int), v),
            decreases nc - i,
        {
            let scheme = self.constructors[i].1.get_scheme();
            proof {
                assert(*scheme == schemes[i as int]);
            }
            let ghost before = out@;
            let free = scheme.free_type_variables();
            append_all(&mut out, &free);
            proof {
                lemma_free_step(schemes, i as int, before, free@, out@);
            }
            i = i + 1;
        }
        let mut k: usize = 0;
        while k < self.values.len()
            invariant
                schemes == self.schemes(),
                nc == self.constructors@.len(),
                schemes.len() == nc + self.values@.len(),
                k <= self.values@.len(),
                forall|v: usize| out@.contains(v) <==> free_in_schemes(schemes.subrange(0, nc + k), v),
            decreases self.values@.len() - k,
        {
            let scheme = self.values[k].1.get_scheme();
            proof {
                assert(*scheme == schemes[nc + k]);
            }
            let ghost before = out@;
            let free = scheme.free_type_variables();
            append_all(&mut out, &free);
            proof {
                lemma_free_step(schemes, nc + k, before, free@, out@);
            }
            k = k + 1;
        }
        proof {
            assert(schemes.subrange(0, schemes.len() as int) =~= schemes);
        }
        out
    }

    /// Abstracts a type over its variables that nothing in scope leaves free:
    /// the most general scheme of the type here.
    pub fn generalize(&self, t: Type) -> (r: Scheme)
        ensures
            r.signature@ == t@,
            r.forall@ == type_variables_spec(t@).filter(|v: usize| !free_in_schemes(self.schemes(), v)),
    {
        let free = self.free_type_variables();
        let tvs = type_variables(&t);
        let forall = without(&tvs, &free);
        proof {
            assert((|x: usize| !free@.contains(x)) =~= (|v: usize| !free_in_schemes(self.schemes(), v)));
        }
        Scheme { forall, signature: t }
    }

    /// The value in scope under `name`.
    pub fn lookup_value(&self, name: &QualifiedName) -> (r: Option<&EnvValue>)
        ensures
            match r {
                Some(v) => exists|i: int| #[trigger] first_value(self.values@, name@, i) && self.values@[i].1 == *v,
                None => forall|i: int| 0 <= i < self.values@.len() ==> self.values@[i].0@ != name@,
            },
    {
        let mut i: usize = 0;
        while i < self.values.len()
            invariant
                i <= self.values@.len(),
                forall|j: int| 0 <= j < i ==> self.values@[j].0@ != name@,
            decreases self.values@.len() - i,
        {
            if self.values[i].0.eq(name) {
                proof {
                    assert(first_value(self.values@, name@, i as int));
                }
                return Some(&self.values[i].1);
            }
            i = i + 1;
        }
        None
    }

    /// The constructor in scope under `name`.
    pub fn lookup_constructor(&self, name: &QualifiedProperName) -> (r: Option<&EnvConstructor>)
        ensures
            match r {
                Some(c) => exists|i: int|
                    0 <= i < self.constructors@.len() && self.constructors@[i].0@ == name@ && self.constructors@[i].1
                        == *c,
                None => forall|i: int| 0 <= i < self.constructors@.len() ==> self.constructors@[i].0@ != name@,
            },
    {
        let mut i: usize = 0;
        while i < self.constructors.len()
            invariant
                i <= self.constructors@.len(),
                forall|j: int| 0 <= j < i ==> self.constructors@[j].0@ != name@,
            decreases self.constructors@.len() - i,
        {
            if self.constructors[i].0.eq(name) {
                return Some(&self.constructors[i].1);
            }
            i = i + 1;
        }
        None
    }

    /// The names of the values in scope.
    pub fn value_names(&self) -> (r: Vec<QualifiedName>)
        ensures
            r@.len() == self.values@.len(),
            forall|i: int| 0 <= i < r@.len() ==> #[trigger] r@[i]@ == self.values@[i].0@,
    {
        let mut out: Vec<QualifiedName> = Vec::new();
        let mut i: usize = 0;
        while i < self.values.len()
            invariant
                i <= self.values@.len(),
                out@.len() == i,
                forall|j: int| 0 <= j < i ==> #[trigger] out@[j]@ == self.values@[j].0@,
            decreases self.values@.len() - i,
        {
            out.push(self.values[i].0.copy());
            i = i + 1;
        }
        out
    }

    /// The names of the constructors in scope.
    pub fn constructor_names(&self) -> (r: Vec<QualifiedProperName>)
        ensures
            r@.len() == self.constructors@.len(),
            forall|i: int| 0 <= i < r@.len() ==> #[trigger] r@[i]@ == self.constructors@[i].0@,
    {
        let mut out: Vec<QualifiedProperName> = Vec::new();
        let mut i: usize = 0;
        while i < self.constructors.len()
            invariant
                i <= self.constructors@.len(),
                out@.len() == i,
                forall|j: int| 0 <= j < i ==> #[trigger] out@[j]@ == self.constructors@[j].0@,
            decreases self.constructors@.len() - i,
        {
            out.push(self.constructors[i].0.copy());
            i = i + 1;
        }
        out
    }

    /// Makes an independent copy of this environment.
    pub fn copy(&self) -> (r: Env)
        ensures
            r.values@.len() == self.values@.len(),
            r.constructors@.len() == self.constructors@.len(),
            forall|i: int| 0 <= i < r.values@.len() ==> #[trigger] r.values@[i].0@ == self.values@[i].0@,
            forall|i: int|
                0 <= i < r.constructors@.len() ==> #[trigger] r.constructors@[i].0@ == self.constructors@[i].0@,
    {
        let mut values: Vec<(QualifiedName, EnvValue)> = Vec::new();
        let mut i: usize = 0;
        while i < self.values.len()
            invariant
                i <= self.values@.len(),
                values@.len() == i,
                forall|j: int| 0 <= j < i ==> #[trigger] values@[j].0@ == self.values@[j].0@,
            decreases self.values@.len() - i,
        {
            values.push((self.values[i].0.copy(), self.values[i].1.copy()));
            i = i + 1;
        }
        let mut constructors: Vec<(QualifiedProperName, EnvConstructor)> = Vec::new();
        let mut i: usize = 0;
        while i < self.constructors.len()
            invariant
                i <= self.constructors@.len(),
                constructors@.len() == i,
                forall|j: int| 0 <= j < i ==> #[trigger] constructors@[j].0@ == self.constructors@[j].0@,
            decreases self.constructors@.len() - i,
        {
            constructors.push((self.constructors[i].0.copy(), self.constructors[i].1.copy()));
            i = i + 1;
        }
        Env { constructors, values }
    }

    /// Puts `value` in scope under `name`, in place of anything there under that name.
    pub fn insert_value(&mut self, name: QualifiedName, value: EnvValue)
        ensures
            exists|i: int| 0 <= i < final(self).values@.len() && final(self).values@[i].0@ == name@ && final(self).values@[i].1 == value,
            final(self).constructors == old(self).constructors,
    {
        let mut i: usize = 0;
        while i < self.values.len()
            invariant
                i <= self.values@.len(),
                self.constructors == old(self).constructors,
            decreases self.values@.len() - i,
        {
            if self.values[i].0.eq(&name) {
                let ghost nv = name@;
                let ghost vv = value;
                self.values.set(i, (name, value));
                proof {
                    assert(self.values@[i as int].0@ == nv);
                    assert(self.values@[i as int].1 == vv);
                }
                return;
            }
            i = i + 1;
        }
        self.values.push((name, value));
        proof {
            assert(self.values@[self.values@.len() - 1].0@ == name@);
        }
    }
}

proof fn lemma_seq_max_bounds(s: Seq<usize>, i: int)
    requires
        0 <= i < s.len(),
    ensures
        s[i] <= seq_max(s),
    decreases s.len(),
{
    if s.len() > 1 && i < s.len() - 1 {
        lemma_seq_max_bounds(s.drop_last(), i);
    }
}

proof fn lemma_instance_subst_range(forall: Seq<usize>, start: int, n: nat, v: usize)
    requires
        n <= forall.len(),
        0 <= start,
        start + n <= usize::MAX,
        instance_subst(forall, start, n).contains_key(v),
    ensures
        exists|k: int| 0 <= k < n && #[trigger] forall[k] == v,
        match instance_subst(forall, start, n)[v] {
            TypeV::Variable { var: w, source_name: None, .. } => start <= w < start + n,
            _ => false,
        },
    decreases n,
{
    if n > 0 {
        if forall[n - 1] != v {
            lemma_instance_subst_range(forall, start, (n - 1) as nat, v);
        } else {
            assert(forall[n - 1] == v);
        }
    }
}

/// Instantiation never binds a quantified variable to itself: every fresh
/// variable comes after the supply and after every quantified variable, so
/// applying the instance's substitution ends.
pub proof fn instance_binds_fresh_variables(forall: Seq<usize>, next: usize, v: usize)
    requires
        instance_start(forall, next) + forall.len() <= usize::MAX,
        instance_subst(forall, instance_start(forall, next), forall.len()).contains_key(v),
    ensures
        match instance_subst(forall, instance_start(forall, next), forall.len())[v] {
            TypeV::Variable { var: w, .. } => w != v && w >= next,
            _ => false,
        },
{
    let start = instance_start(forall, next);
    lemma_instance_subst_range(forall, start, forall.len(), v);
    let k = choose|k: int| 0 <= k < forall.len() && #[trigger] forall[k] == v;
    lemma_seq_max_bounds(forall, k);
}

} // verus!
