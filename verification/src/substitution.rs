//! Substitutions of types for type variables, applied to a fixed point.
use crate::names::Name;
use crate::typevars::{type_variables, type_variables_spec, vec_contains};
use crate::types::{opt_name_view, copy_type, type_view, types_view, row_view, copy_kind, copy_opt_name, copy_usizes, copy_opt_qproper, Kind, KindV, NameV, Type, TypeV};
use std::collections::HashMap;
use vstd::prelude::*;

verus! {

broadcast use vstd::std_specs::hash::group_hash_axioms;

/// How deep a chain of variable look-ups may go before applying a substitution gives up.
pub const MAX_DEPTH: usize = 100;

/// The recursion allowance that [Substitution::apply] starts with.
pub const APPLY_FUEL: u64 = 0xffff_ffff_ffff_ffff;

/// The view of an optional type.
pub open spec fn opt_type_view(t: Option<Type>) -> Option<TypeV> {
    match t {
        Some(t) => Some(t@),
        None => None,
    }
}

/// The index of the first entry of `row`, from `i` on, labelled `label`; `-1` if none is.
pub open spec fn label_index_from(row: Seq<(NameV, TypeV)>, label: NameV, i: int) -> int
    decreases row.len() - i,
{
    if i < 0 || i >= row.len() {
        -1
    } else if row[i].0 == label {
        i
    } else {
        label_index_from(row, label, i + 1)
    }
}

/// Inserts a labelled type into a row, as an insertion-ordered map does:
/// an existing label keeps its place and takes the new type.
pub open spec fn row_insert(row: Seq<(NameV, TypeV)>, label: NameV, t: TypeV) -> Seq<(NameV, TypeV)> {
    let i = label_index_from(row, label, 0);
    if i < 0 {
        row.push((label, t))
    } else {
        row.update(i, (label, t))
    }
}

/// Collects labelled types into a row, in order, later duplicates replacing earlier ones.
pub open spec fn row_collect(entries: Seq<(NameV, TypeV)>) -> Seq<(NameV, TypeV)>
    decreases entries.len(),
{
    if entries.len() == 0 {
        Seq::empty()
    } else {
        let init = row_collect(entries.drop_last());
        row_insert(init, entries.last().0, entries.last().1)
    }
}

/// Extends a substitution with the first `n` alias variable bindings,
/// skipping any binding whose type mentions its own variable.
pub open spec fn extend_alias(s: Map<usize, TypeV>, vars: Seq<usize>, args: Seq<TypeV>, n: nat) -> Map<usize, TypeV>
    decreases n,
{
    if n == 0 || n > vars.len() || n > args.len() {
        s
    } else {
        let s1 = extend_alias(s, vars, args, (n - 1) as nat);
        if type_variables_spec(args[n - 1]).contains(vars[n - 1]) {
            s1
        } else {
            s1.insert(vars[n - 1], args[n - 1])
        }
    }
}

pub open spec fn min_nat(a: nat, b: nat) -> nat {
    if a <= b {
        a
    } else {
        b
    }
}

/// Applies a substitution to a type, following bound variables to a fixed point.
///
/// `None` when the chain of variable look-ups grows deeper than [MAX_DEPTH],
/// when an open record's variable is bound to a type that is no record and no variable,
/// or when the recursion allowance `fuel` runs out.
pub open spec fn apply_spec(s: Map<usize, TypeV>, t: TypeV, depth: nat, fuel: nat) -> Option<TypeV>
    decreases fuel, 0nat,
{
    if fuel == 0 || depth > MAX_DEPTH {
        None
    } else {
        let f = (fuel - 1) as nat;
        match t {
            TypeV::Variable { var, .. } => {
                if s.contains_key(var) {
                    apply_spec(s, s[var], depth + 1, f)
                } else {
                    Some(t)
                }
            },
            TypeV::RecordOpen { open_kind, open_var, open_source_name, open_row } => {
                if s.contains_key(open_var) {
                    match s[open_var] {
                        TypeV::RecordOpen { open_var: v2, open_source_name: n2, open_row: new_row, .. } => {
                            match apply_row(s, open_row + new_row, depth, f) {
                                Some(r) => apply_spec(
                                    s,
                                    TypeV::RecordOpen {
                                        open_kind: KindV::Type,
                                        open_var: v2,
                                        open_source_name: n2,
                                        open_row: r,
                                    },
                                    depth + 1,
                                    f,
                                ),
                                None => None,
                            }
                        },
                        TypeV::RecordClosed { closed_row: new_row, .. } => {
                            match apply_row(s, open_row + new_row, depth, f) {
                                Some(r) => Some(TypeV::RecordClosed { closed_kind: KindV::Type, closed_row: r }),
                                None => None,
                            }
                        },
                        TypeV::Variable { var: v2, source_name: n2, .. } => {
                            match apply_row(s, open_row, depth, f) {
                                Some(r) => apply_spec(
                                    s,
                                    TypeV::RecordOpen { open_kind, open_var: v2, open_source_name: n2, open_row: r },
                                    depth + 1,
                                    f,
                                ),
                                None => None,
                            }
                        },
                        _ => None,
                    }
                } else {
                    match apply_row(s, open_row, depth, f) {
                        Some(r) => Some(TypeV::RecordOpen { open_kind, open_var, open_source_name, open_row: r }),
                        None => None,
                    }
                }
            },
            TypeV::Call { function, arguments } => {
                match *function {
                    TypeV::ConstructorAlias {
                        alias_kind,
                        alias_canonical_value,
                        alias_source_value,
                        alias_variables,
                        aliased_type,
                    } => {
                        match apply_seq(s, arguments, arguments.len(), depth, f) {
                            Some(args) => {
                                let s2 = extend_alias(
                                    s,
                                    alias_variables,
                                    args,
                                    min_nat(alias_variables.len(), args.len()),
                                );
                                match apply_spec(s2, *aliased_type, depth, f) {
                                    Some(a) => Some(
                                        TypeV::Call {
                                            function: Box::new(
                                                TypeV::ConstructorAlias {
                                                    alias_kind,
                                                    alias_canonical_value,
                                                    alias_source_value,
                                                    alias_variables,
                                                    aliased_type: Box::new(a),
                                                },
                                            ),
                                            arguments: args,
                                        },
                                    ),
                                    None => None,
                                }
                            },
                            None => None,
                        }
                    },
                    _ => {
                        match (apply_spec(s, *function, depth, f), apply_seq(s, arguments, arguments.len(), depth, f)) {
                            (Some(g), Some(args)) => Some(TypeV::Call { function: Box::new(g), arguments: args }),
                            _ => None,
                        }
                    },
                }
            },
            TypeV::Function { parameters, return_type } => {
                match (apply_seq(s, parameters, parameters.len(), depth, f), apply_spec(s, *return_type, depth, f)) {
                    (Some(ps), Some(r)) => Some(TypeV::Function { parameters: ps, return_type: Box::new(r) }),
                    _ => None,
                }
            },
            TypeV::RecordClosed { closed_kind, closed_row } => {
                match apply_row(s, closed_row, depth, f) {
                    Some(r) => Some(TypeV::RecordClosed { closed_kind, closed_row: r }),
                    None => None,
                }
            },
            TypeV::ConstructorAlias {
                alias_kind,
                alias_canonical_value,
                alias_source_value,
                alias_variables,
                aliased_type,
            } => {
                match apply_spec(s, *aliased_type, depth, f) {
                    Some(a) => Some(
                        TypeV::ConstructorAlias {
                            alias_kind,
                            alias_canonical_value,
                            alias_source_value,
                            alias_variables,
                            aliased_type: Box::new(a),
                        },
                    ),
                    None => None,
                }
            },
            TypeV::Constructor { .. } => Some(t),
            TypeV::PrimConstructor(_) => Some(t),
        }
    }
}

/// Applies a substitution to each of the first `n` types of `ts`.
pub open spec fn apply_seq(s: Map<usize, TypeV>, ts: Seq<TypeV>, n: nat, depth: nat, fuel: nat) -> Option<Seq<TypeV>>
    decreases fuel, n + 1,
{
    if n == 0 || n > ts.len() {
        Some(Seq::empty())
    } else {
        match (apply_seq(s, ts, (n - 1) as nat, depth, fuel), apply_spec(s, ts[n - 1], depth, fuel)) {
            (Some(init), Some(x)) => Some(init.push(x)),
            _ => None,
        }
    }
}

/// Applies a substitution to the types of the first `n` entries of `row`.
pub open spec fn map_row(s: Map<usize, TypeV>, row: Seq<(NameV, TypeV)>, n: nat, depth: nat, fuel: nat) -> Option<
    Seq<(NameV, TypeV)>,
>
    decreases fuel, n + 1,
{
    if n == 0 || n > row.len() {
        Some(Seq::empty())
    } else {
        match (map_row(s, row, (n - 1) as nat, depth, fuel), apply_spec(s, row[n - 1].1, depth, fuel)) {
            (Some(init), Some(x)) => Some(init.push((row[n - 1].0, x))),
            _ => None,
        }
    }
}

/// Applies a substitution to the types of a row, then collects the row.
pub open spec fn apply_row(s: Map<usize, TypeV>, row: Seq<(NameV, TypeV)>, depth: nat, fuel: nat) -> Option<
    Seq<(NameV, TypeV)>,
>
    decreases fuel, row.len() + 2,
{
    match map_row(s, row, row.len(), depth, fuel) {
        Some(m) => Some(row_collect(m)),
        None => None,
    }
}

/// The view of a list of extra bindings.
pub open spec fn overlay_view(ov: Seq<(usize, Type)>) -> Seq<(usize, TypeV)> {
    Seq::new(ov.len(), |i: int| (ov[i].0, ov[i].1@))
}

/// A substitution extended, in order, by the first `n` extra bindings; later bindings win.
pub open spec fn with_overlay(s: Map<usize, TypeV>, ov: Seq<(usize, TypeV)>, n: nat) -> Map<usize, TypeV>
    decreases n,
{
    if n == 0 || n > ov.len() {
        s
    } else {
        with_overlay(s, ov, (n - 1) as nat).insert(ov[n - 1].0, ov[n - 1].1)
    }
}

pub open spec fn effective(s: Map<usize, TypeV>, ov: Seq<(usize, Type)>) -> Map<usize, TypeV> {
    with_overlay(s, overlay_view(ov), ov.len())
}

proof fn lemma_overlay_prefix(s: Map<usize, TypeV>, a: Seq<(usize, TypeV)>, b: Seq<(usize, TypeV)>, n: nat)
    requires
        n <= a.len(),
        n <= b.len(),
        forall|j: int| 0 <= j < n ==> a[j] == b[j],
    ensures
        with_overlay(s, a, n) == with_overlay(s, b, n),
    decreases n,
{
    if n > 0 {
        lemma_overlay_prefix(s, a, b, (n - 1) as nat);
    }
}

proof fn lemma_overlay_push(s: Map<usize, TypeV>, a: Seq<(usize, TypeV)>, x: (usize, TypeV))
    ensures
        with_overlay(s, a.push(x), a.len() + 1) == with_overlay(s, a, a.len()).insert(x.0, x.1),
{
    lemma_overlay_prefix(s, a.push(x), a, a.len());
}

proof fn lemma_overlay_skip(s: Map<usize, TypeV>, ov: Seq<(usize, TypeV)>, k: usize, i: nat, n: nat)
    requires
        i <= n <= ov.len(),
        forall|j: int| i <= j < n ==> ov[j].0 != k,
    ensures
        with_overlay(s, ov, n).contains_key(k) == with_overlay(s, ov, i).contains_key(k),
        with_overlay(s, ov, n).contains_key(k) ==> with_overlay(s, ov, n)[k] == with_overlay(s, ov, i)[k],
    decreases n - i,
{
    if i < n {
        lemma_overlay_skip(s, ov, k, i, (n - 1) as nat);
    }
}

/// The view of a map from type variables to types.
pub open spec fn subst_view(m: Map<usize, Type>) -> Map<usize, TypeV> {
    m.map_values(|t: Type| t@)
}

/// A substitution: a map from type variables to the types that replace them.
pub struct Substitution {
    pub map: HashMap<usize, Type>,
}

impl View for Substitution {
    type V = Map<usize, TypeV>;

    open spec fn view(&self) -> Map<usize, TypeV> {
        subst_view(self.map@)
    }
}

proof fn lemma_apply_seq_none(s: Map<usize, TypeV>, ts: Seq<TypeV>, i: nat, n: nat, depth: nat, fuel: nat)
    requires
        i <= n <= ts.len(),
        apply_seq(s, ts, i, depth, fuel) is None,
    ensures
        apply_seq(s, ts, n, depth, fuel) is None,
    decreases n - i,
{
    if i < n {
        lemma_apply_seq_none(s, ts, i, (n - 1) as nat, depth, fuel);
    }
}

proof fn lemma_map_row_none(s: Map<usize, TypeV>, row: Seq<(NameV, TypeV)>, i: nat, n: nat, depth: nat, fuel: nat)
    requires
        i <= n <= row.len(),
        map_row(s, row, i, depth, fuel) is None,
    ensures
        map_row(s, row, n, depth, fuel) is None,
    decreases n - i,
{
    if i < n {
        lemma_map_row_none(s, row, i, (n - 1) as nat, depth, fuel);
    }
}

/// Inserts a labelled type into a row in place, as [row_insert] says.
pub fn row_insert_exec(row: &mut Vec<(Name, Type)>, label: Name, t: Type)
    ensures
        row_view(final(row)@) == row_insert(row_view(old(row)@), label@, t@),
{
    let ghost rv = row_view(row@);
    let mut i: usize = 0;
    while i < row.len()
        invariant
            i <= row@.len(),
            row@ == old(row)@,
            rv == row_view(row@),
            label_index_from(rv, label@, 0) == label_index_from(rv, label@, i as int),
        decreases row@.len() - i,
    {
        if row[i].0.eq(&label) {
            proof {
                assert(rv[i as int].0 == label@);
            }
            row.set(i, (label, t));
            proof {
                assert(row_view(row@) =~= rv.update(i as int, (label@, t@)));
            }
            return;
        }
        i = i + 1;
    }
    row.push((label, t));
    proof {
        assert(row_view(row@) =~= rv.push((label@, t@)));
    }
}

impl Substitution {
    /// An empty substitution.
    pub fn new() -> (r: Substitution)
        ensures
            r@ == Map::<usize, TypeV>::empty(),
    {
        let r = Substitution { map: HashMap::new() };
        assert(r@ =~= Map::<usize, TypeV>::empty());
        r
    }

    /// Binds `var` to `ast_type`, replacing any earlier binding of `var`.
    pub fn insert(&mut self, var: usize, ast_type: Type)
        ensures
            final(self)@ == old(self)@.insert(var, ast_type@),
    {
        self.map.insert(var, ast_type);
        assert(self@ =~= old(self)@.insert(var, ast_type@));
    }

    /// Looks up the binding of `var`.
    pub fn get(&self, var: usize) -> (r: Option<&Type>)
        ensures
            match r {
                Some(t) => self@.contains_key(var) && self@[var] == t@,
                None => !self@.contains_key(var),
            },
    {
        self.map.get(&var)
    }

    /// Whether the substitution binds no variable.
    pub fn is_empty(&self) -> (r: bool)
        ensures
            r == (self@.dom().len() == 0),
    {
        assert(self@.dom() =~= self.map@.dom());
        self.map.is_empty()
    }

    /// Applies this substitution to a type; see [apply_spec].
    /// `None` exactly where [apply_spec] has no result.
    pub fn try_apply(&self, ast_type: &Type) -> (r: Option<Type>)
        ensures
            opt_type_view(r) == apply_spec(self@, ast_type@, 0, APPLY_FUEL as nat),
    {
        let ov: Vec<(usize, Type)> = Vec::new();
        proof {
            assert(effective(self@, ov@) == self@);
        }
        self.apply_rec(&ov, ast_type, 0, APPLY_FUEL)
    }

    /// Applies this substitution to a type, following bound variables to a fixed point.
    pub fn apply(&self, ast_type: Type) -> (r: Type)
        requires
            apply_spec(self@, ast_type@, 0, APPLY_FUEL as nat) is Some,
        ensures
            Some(r@) == apply_spec(self@, ast_type@, 0, APPLY_FUEL as nat),
    {
        match self.try_apply(&ast_type) {
            Some(t) => t,
            None => {
                proof {
                    assert(false);
                }
                ast_type
            },
        }
    }

    /// Looks `var` up in this substitution extended by `ov`.
    fn lookup<'a>(&'a self, ov: &'a Vec<(usize, Type)>, var: usize) -> (r: Option<&'a Type>)
        ensures
            match r {
                Some(t) => effective(self@, ov@).contains_key(var) && effective(self@, ov@)[var] == t@,
                None => !effective(self@, ov@).contains_key(var),
            },
    {
        let ghost ovv = overlay_view(ov@);
        let mut i: usize = ov.len();
        while i > 0
            invariant
                i <= ov@.len(),
                ovv == overlay_view(ov@),
                forall|j: int| i <= j < ov@.len() ==> ov@[j].0 != var,
            decreases i,
        {
            if ov[i - 1].0 == var {
                proof {
                    lemma_overlay_skip(self@, ovv, var, i as nat, ov@.len());
                }
                return Some(&ov[i - 1].1);
            }
            i = i - 1;
        }
        proof {
            lemma_overlay_skip(self@, ovv, var, 0, ov@.len());
        }
        self.map.get(&var)
    }

    fn apply_types(&self, ov: &Vec<(usize, Type)>, ts: &Vec<Type>, depth: usize, fuel: u64) -> (r: Option<Vec<Type>>)
        requires
            depth <= MAX_DEPTH + 1,
        ensures
            match r {
                Some(v) => apply_seq(effective(self@, ov@), types_view(ts@), ts@.len(), depth as nat, fuel as nat)
                    == Some(types_view(v@)),
                None => apply_seq(effective(self@, ov@), types_view(ts@), ts@.len(), depth as nat, fuel as nat) is None,
            },
        decreases fuel, 1nat,
    {
        let ghost s = effective(self@, ov@);
        let ghost tsv = types_view(ts@);
        let mut out: Vec<Type> = Vec::new();
        let mut i: usize = 0;
        while i < ts.len()
            invariant
                depth <= MAX_DEPTH + 1,
                s == effective(self@, ov@),
                tsv == types_view(ts@),
                i <= ts@.len(),
                apply_seq(s, tsv, i as nat, depth as nat, fuel as nat) == Some(types_view(out@)),
            decreases ts@.len() - i,
        {
            let ghost prev = out@;
            match self.apply_rec(ov, &ts[i], depth, fuel) {
                Some(x) => {
                    out.push(x);
                    proof {
                        assert(types_view(out@) =~= types_view(prev).push(x@));
                    }
                },
                None => {
                    proof {
                        lemma_apply_seq_none(s, tsv, (i + 1) as nat, ts@.len(), depth as nat, fuel as nat);
                    }
                    return None;
                },
            }
            i = i + 1;
        }
        Some(out)
    }

    fn apply_row_exec(
        &self,
        ov: &Vec<(usize, Type)>,
        rows: &Vec<(Name, Type)>,
        extra: Option<&Vec<(Name, Type)>>,
        depth: usize,
        fuel: u64,
    ) -> (r: Option<Vec<(Name, Type)>>)
        requires
            depth <= MAX_DEPTH + 1,
        ensures
            ({
                let entries = match extra {
                    Some(e) => row_view(rows@) + row_view(e@),
                    None => row_view(rows@),
                };
                match r {
                    Some(v) => apply_row(effective(self@, ov@), entries, depth as nat, fuel as nat) == Some(
                        row_view(v@),
                    ),
                    None => apply_row(effective(self@, ov@), entries, depth as nat, fuel as nat) is None,
                }
            }),
        decreases fuel, 1nat,
    {
        let ghost s = effective(self@, ov@);
        let ghost entries = match extra {
            Some(e) => row_view(rows@) + row_view(e@),
            None => row_view(rows@),
        };
        let ghost rv1 = row_view(rows@);
        let ghost rv2 = match extra {
            Some(e) => row_view(e@),
            None => Seq::<(NameV, TypeV)>::empty(),
        };
        proof {
            assert(entries =~= rv1 + rv2);
        }
        let mut mapped: Vec<(Name, Type)> = Vec::new();
        let mut i: usize = 0;
        while i < rows.len()
            invariant
                depth <= MAX_DEPTH + 1,
                s == effective(self@, ov@),
                rv1 == row_view(rows@),
                rv2 == (match extra {
                    Some(e) => row_view(e@),
                    None => Seq::<(NameV, TypeV)>::empty(),
                }),
                entries == (match extra {
                    Some(e) => row_view(rows@) + row_view(e@),
                    None => row_view(rows@),
                }),
                entries == rv1 + rv2,
                i <= rows@.len(),
                map_row(s, entries, i as nat, depth as nat, fuel as nat) == Some(row_view(mapped@)),
            decreases rows@.len() - i,
        {
            let entry = &rows[i];
            proof {
                assert(entries[i as int] == (entry.0@, entry.1@));
            }
            let ghost prev = mapped@;
            match self.apply_rec(ov, &entry.1, depth, fuel) {
                Some(x) => {
                    mapped.push((entry.0.copy(), x));
                    proof {
                        assert(row_view(mapped@) =~= row_view(prev).push((entry.0@, x@)));
                    }
                },
                None => {
                    proof {
                        lemma_map_row_none(s, entries, (i + 1) as nat, entries.len(), depth as nat, fuel as nat);
                        assert(apply_row(s, entries, depth as nat, fuel as nat) is None);
                    }
                    return None;
                },
            }
            i = i + 1;
        }
        match extra {
            Some(e) => {
                let mut j: usize = 0;
                while j < e.len()
                    invariant
                        depth <= MAX_DEPTH + 1,
                        s == effective(self@, ov@),
                        rv1 == row_view(rows@),
                        rv2 == row_view(e@),
                        extra == Some(e),
                        entries == row_view(rows@) + row_view(e@),
                        entries == rv1 + rv2,
                        j <= e@.len(),
                        map_row(s, entries, (rows@.len() + j) as nat, depth as nat, fuel as nat) == Some(
                            row_view(mapped@),
                        ),
                    decreases e@.len() - j,
                {
                    let entry = &e[j];
                    proof {
                        assert(entries[rows@.len() + j] == (entry.0@, entry.1@));
                    }
                    let ghost prev = mapped@;
                    match self.apply_rec(ov, &entry.1, depth, fuel) {
                        Some(x) => {
                            mapped.push((entry.0.copy(), x));
                            proof {
                                assert(row_view(mapped@) =~= row_view(prev).push((entry.0@, x@)));
                            }
                        },
                        None => {
                            proof {
                                lemma_map_row_none(
                                    s,
                                    entries,
                                    (rows@.len() + j + 1) as nat,
                                    entries.len(),
                                    depth as nat,
                                    fuel as nat,
                                );
                                assert(apply_row(s, entries, depth as nat, fuel as nat) is None);
                            }
                            return None;
                        },
                    }
                    j = j + 1;
                }
            },
            None => {},
        }
        proof {
            assert(entries.len() == rv1.len() + rv2.len());
        }
        let ghost m = row_view(mapped@);
        let mut out: Vec<(Name, Type)> = Vec::new();
        let mut j: usize = 0;
        while j < mapped.len()
            invariant
                m == row_view(mapped@),
                j <= mapped@.len(),
                row_view(out@) == row_collect(m.subrange(0, j as int)),
            decreases mapped@.len() - j,
        {
            let label = mapped[j].0.copy();
            let t = copy_type(&mapped[j].1);
            row_insert_exec(&mut out, label, t);
            proof {
                let sub = m.subrange(0, j + 1);
                assert(sub.drop_last() =~= m.subrange(0, j as int));
                assert(sub.last() == m[j as int]);
            }
            j = j + 1;
        }
        proof {
            assert(m.subrange(0, mapped@.len() as int) =~= m);
        }
        Some(out)
    }

    /// Applies this substitution, extended by `ov`, to an open record type.
    #[verifier::rlimit(40)]
    fn apply_open(&self, ov: &Vec<(usize, Type)>, ast_type: &Type, depth: usize, f: u64) -> (r: Option<Type>)
        requires
            depth <= MAX_DEPTH,
            f < u64::MAX,
            ast_type is RecordOpen,
        ensures
            opt_type_view(r) == apply_spec(effective(self@, ov@), ast_type@, depth as nat, (f + 1) as nat),
        decreases f, 2nat,
    {
        let ghost es = effective(self@, ov@);
        let ghost goal = apply_spec(es, ast_type@, depth as nat, (f + 1) as nat);
        match ast_type {
            Type::RecordOpen { open_kind, open_var, open_source_name, open_row } => {
                let ghost rv = row_view(open_row@);
                proof {
                    assert(rv =~= ast_type@->open_row);
                    assert(ast_type@ == TypeV::RecordOpen {
                        open_kind: open_kind@,
                        open_var: *open_var,
                        open_source_name: opt_name_view(*open_source_name),
                        open_row: rv,
                    });
                }
                match self.lookup(ov, *open_var) {
                    Some(Type::RecordOpen { open_var: v2, open_source_name: n2, open_row: new_row, .. }) => {
                        let ghost nv = row_view(new_row@);
                        proof {
                            assert(nv =~= es[*open_var]->open_row);
                            assert(goal == match apply_row(es, rv + nv, depth as nat, f as nat) {
                                Some(r) => apply_spec(
                                    es,
                                    TypeV::RecordOpen {
                                        open_kind: KindV::Type,
                                        open_var: *v2,
                                        open_source_name: opt_name_view(*n2),
                                        open_row: r,
                                    },
                                    (depth + 1) as nat,
                                    f as nat,
                                ),
                                None => None,
                            });
                        }
                        match self.apply_row_exec(ov, open_row, Some(new_row), depth, f) {
                            Some(r) => {
                                let ghost rr = row_view(r@);
                                let t = Type::RecordOpen {
                                    open_kind: Kind::Type,
                                    open_var: *v2,
                                    open_source_name: copy_opt_name(n2),
                                    open_row: r,
                                };
                                proof {
                                    assert(t@->open_row =~= rr);
                                    assert(t@ == TypeV::RecordOpen {
                                        open_kind: KindV::Type,
                                        open_var: *v2,
                                        open_source_name: opt_name_view(*n2),
                                        open_row: rr,
                                    });
                                }
                                self.apply_rec(ov, &t, depth + 1, f)
                            },
                            None => None,
                        }
                    },
                    Some(Type::RecordClosed { closed_row: new_row, .. }) => {
                        let ghost nv = row_view(new_row@);
                        proof {
                            assert(nv =~= es[*open_var]->closed_row);
                            assert(goal == match apply_row(es, rv + nv, depth as nat, f as nat) {
                                Some(r) => Some(TypeV::RecordClosed { closed_kind: KindV::Type, closed_row: r }),
                                None => None,
                            });
                        }
                        match self.apply_row_exec(ov, open_row, Some(new_row), depth, f) {
                            Some(r) => {
                                let ghost rr = row_view(r@);
                                let t = Type::RecordClosed { closed_kind: Kind::Type, closed_row: r };
                                proof {
                                    assert(t@->closed_row =~= rr);
                                }
                                Some(t)
                            },
                            None => None,
                        }
                    },
                    Some(Type::Variable { var: v2, source_name: n2, .. }) => {
                        proof {
                            assert(goal == match apply_row(es, rv, depth as nat, f as nat) {
                                Some(r) => apply_spec(
                                    es,
                                    TypeV::RecordOpen {
                                        open_kind: open_kind@,
                                        open_var: *v2,
                                        open_source_name: opt_name_view(*n2),
                                        open_row: r,
                                    },
                                    (depth + 1) as nat,
                                    f as nat,
                                ),
                                None => None,
                            });
                        }
                        match self.apply_row_exec(ov, open_row, None, depth, f) {
                            Some(r) => {
                                let ghost rr = row_view(r@);
                                let t = Type::RecordOpen {
                                    open_kind: copy_kind(open_kind),
                                    open_var: *v2,
                                    open_source_name: copy_opt_name(n2),
                                    open_row: r,
                                };
                                proof {
                                    assert(t@->open_row =~= rr);
                                    assert(t@ == TypeV::RecordOpen {
                                        open_kind: open_kind@,
                                        open_var: *v2,
                                        open_source_name: opt_name_view(*n2),
                                        open_row: rr,
                                    });
                                }
                                self.apply_rec(ov, &t, depth + 1, f)
                            },
                            None => None,
                        }
                    },
                    Some(_) => None,
                    None => {
                        proof {
                            assert(goal == match apply_row(es, rv, depth as nat, f as nat) {
                                Some(r) => Some(TypeV::RecordOpen {
                                    open_kind: open_kind@,
                                    open_var: *open_var,
                                    open_source_name: opt_name_view(*open_source_name),
                                    open_row: r,
                                }),
                                None => None,
                            });
                        }
                        match self.apply_row_exec(ov, open_row, None, depth, f) {
                            Some(r) => {
                                let ghost rr = row_view(r@);
                                let t = Type::RecordOpen {
                                    open_kind: copy_kind(open_kind),
                                    open_var: *open_var,
                                    open_source_name: copy_opt_name(open_source_name),
                                    open_row: r,
                                };
                                proof {
                                    assert(t@->open_row =~= rr);
                                }
                                Some(t)
                            },
                            None => None,
                        }
                    },
                }
            },
            _ => None,
        }
    }

    /// Applies this substitution, extended by `ov`, to a type call.
    #[verifier::rlimit(40)]
    fn apply_call(&self, ov: &Vec<(usize, Type)>, ast_type: &Type, depth: usize, f: u64) -> (r: Option<Type>)
        requires
            depth <= MAX_DEPTH,
            f < u64::MAX,
            ast_type is Call,
        ensures
            opt_type_view(r) == apply_spec(effective(self@, ov@), ast_type@, depth as nat, (f + 1) as nat),
        decreases f, 2nat,
    {
        let ghost es = effective(self@, ov@);
        let ghost goal = apply_spec(es, ast_type@, depth as nat, (f + 1) as nat);
        match ast_type {
            Type::Call { function, arguments } => {
                proof {
                    assert(types_view(arguments@) =~= ast_type@->Call_arguments);
                }
                let r = {
                    match &**function {
                        Type::ConstructorAlias {
                            alias_kind,
                            alias_canonical_value,
                            alias_source_value,
                            alias_variables,
                            aliased_type,
                        } => {
                            match self.apply_types(ov, arguments, depth, f) {
                                Some(args) => {
                                    let ghost s = effective(self@, ov@);
                                    let mut ov2: Vec<(usize, Type)> = Vec::new();
                                    let mut k: usize = 0;
                                    while k < ov.len()
                                        invariant
                                            k <= ov@.len(),
                                            overlay_view(ov2@) =~= overlay_view(ov@).subrange(0, k as int),
                                        decreases ov@.len() - k,
                                    {
                                        let ghost prev = ov2@;
                                        ov2.push((ov[k].0, copy_type(&ov[k].1)));
                                        proof {
                                            assert(overlay_view(ov2@) =~= overlay_view(prev).push((ov@[k as int].0, ov@[k as int].1@)));
                                        }
                                        k = k + 1;
                                    }
                                    proof {
                                        assert(overlay_view(ov2@) =~= overlay_view(ov@));
                                        assert(effective(self@, ov2@) == s);
                                    }
                                    let n = if alias_variables.len() <= args.len() {
                                        alias_variables.len()
                                    } else {
                                        args.len()
                                    };
                                    let ghost vars = alias_variables@;
                                    let ghost argsv = types_view(args@);
                                    let mut i: usize = 0;
                                    while i < n
                                        invariant
                                            n <= alias_variables@.len(),
                                            n <= args@.len(),
                                            vars == alias_variables@,
                                            argsv == types_view(args@),
                                            i <= n,
                                            effective(self@, ov2@) == extend_alias(s, vars, argsv, i as nat),
                                        decreases n - i,
                                    {
                                        let var = alias_variables[i];
                                        let tvs = type_variables(&args[i]);
                                        if !vec_contains(&tvs, var) {
                                            let ghost prev = ov2@;
                                            ov2.push((var, copy_type(&args[i])));
                                            proof {
                                                assert(overlay_view(ov2@) =~= overlay_view(prev).push((var, argsv[i as int])));
                                                lemma_overlay_push(self@, overlay_view(prev), (var, argsv[i as int]));
                                                assert(effective(self@, ov2@) == effective(self@, prev).insert(
                                                    var,
                                                    argsv[i as int],
                                                ));
                                            }
                                        }
                                        i = i + 1;
                                    }
                                    proof {
                                        assert(n as nat == min_nat(vars.len(), argsv.len()));
                                    }
                                    match self.apply_rec(&ov2, aliased_type, depth, f) {
                                        Some(a) => {
                                            let function = Type::ConstructorAlias {
                                                alias_kind: copy_kind(alias_kind),
                                                alias_canonical_value: alias_canonical_value.copy(),
                                                alias_source_value: copy_opt_qproper(alias_source_value),
                                                alias_variables: copy_usizes(alias_variables),
                                                aliased_type: Box::new(a),
                                            };
                                            let ghost av = types_view(args@);
                                            let ghost fv = function@;
                                            let t = Type::Call { function: Box::new(function), arguments: args };
                                            proof {
                                                assert(t@->Call_arguments =~= av);
                                                assert(t@ == TypeV::Call { function: Box::new(fv), arguments: av });
                                            }
                                            Some(t)
                                        },
                                        None => None,
                                    }
                                },
                                None => None,
                            }
                        },
                        _ => {
                            proof {
                                assert(!(function@ is ConstructorAlias));
                                assert(ast_type@ == TypeV::Call {
                                    function: Box::new(function@),
                                    arguments: types_view(arguments@),
                                });
                                assert(goal == match (
                                    apply_spec(es, function@, depth as nat, f as nat),
                                    apply_seq(es, types_view(arguments@), arguments@.len(), depth as nat, f as nat),
                                ) {
                                    (Some(g), Some(args)) => Some(TypeV::Call { function: Box::new(g), arguments: args }),
                                    _ => None,
                                });
                            }
                            let g = self.apply_rec(ov, function, depth, f);
                            let args = self.apply_types(ov, arguments, depth, f);
                            match (g, args) {
                                (Some(g), Some(args)) => {
                                    let ghost av = types_view(args@);
                                    let ghost gv = g@;
                                    let t = Type::Call { function: Box::new(g), arguments: args };
                                    proof {
                                        assert(t@->Call_arguments =~= av);
                                        assert(t@ == TypeV::Call { function: Box::new(gv), arguments: av });
                                    }
                                    Some(t)
                                },
                                _ => None,
                            }
                        },
                    }
                };
                proof {
                    assert(opt_type_view(r) == goal);
                }
                r
            },
            _ => None,
        }
    }

    /// Applies this substitution, extended by `ov`, to `ast_type`,
    /// with `depth` look-ups made so far.
    ///
    /// Past [MAX_DEPTH] look-ups (as with a binding that mentions its own
    /// variable further down), or when `fuel` runs out, there is no result:
    /// `None`, which the type checker reports as
    /// [crate::state::TypeError::SubstitutionTooDeep] rather than stopping.
    #[verifier::rlimit(60)]
    fn apply_rec(&self, ov: &Vec<(usize, Type)>, ast_type: &Type, depth: usize, fuel: u64) -> (r: Option<Type>)
        requires
            depth <= MAX_DEPTH + 1,
        ensures
            opt_type_view(r) == apply_spec(effective(self@, ov@), ast_type@, depth as nat, fuel as nat),
        decreases fuel, 0nat,
    {
        if fuel == 0 || depth > MAX_DEPTH {
            return None;
        }
        let f = fuel - 1;
        let ghost es = effective(self@, ov@);
        let ghost goal = apply_spec(es, ast_type@, depth as nat, fuel as nat);
        match ast_type {
            Type::Variable { var, .. } => {
                let r = match self.lookup(ov, *var) {
                    Some(t) => self.apply_rec(ov, t, depth + 1, f),
                    None => Some(copy_type(ast_type)),
                };
                proof {
                    assert(opt_type_view(r) == goal);
                }
                r
            },
            Type::RecordOpen { .. } => self.apply_open(ov, ast_type, depth, f),
            Type::Call { .. } => self.apply_call(ov, ast_type, depth, f),
            Type::Function { parameters, return_type } => {
                proof {
                    assert(types_view(parameters@) =~= ast_type@->Function_parameters);
                }
                let r = {
                    let ps = self.apply_types(ov, parameters, depth, f);
                    let r = self.apply_rec(ov, return_type, depth, f);
                    match (ps, r) {
                        (Some(ps), Some(r)) => {
                            let ghost pv = types_view(ps@);
                            let ghost rt = r@;
                            let t = Type::Function { parameters: ps, return_type: Box::new(r) };
                            proof {
                                assert(t@->Function_parameters =~= pv);
                                assert(t@ == TypeV::Function { parameters: pv, return_type: Box::new(rt) });
                            }
                            Some(t)
                        },
                        _ => None,
                    }
                };
                proof {
                    assert(opt_type_view(r) == goal);
                }
                r
            },
            Type::RecordClosed { closed_kind, closed_row } => {
                let ghost rv = row_view(closed_row@);
                proof {
                    assert(rv =~= ast_type@->closed_row);
                    assert(ast_type@ == TypeV::RecordClosed { closed_kind: closed_kind@, closed_row: rv });
                    assert(goal == match apply_row(es, rv, depth as nat, f as nat) {
                        Some(r) => Some(TypeV::RecordClosed { closed_kind: closed_kind@, closed_row: r }),
                        None => None,
                    });
                }
                let res = self.apply_row_exec(ov, closed_row, None, depth, f);
                match res {
                    Some(r) => {
                        let ghost rr = row_view(r@);
                        let k = copy_kind(closed_kind);
                        let t = Type::RecordClosed { closed_kind: k, closed_row: r };
                        proof {
                            assert(t@->closed_row =~= rr);
                        }
                        Some(t)
                    },
                    None => None,
                }
            },
            Type::ConstructorAlias {
                alias_kind,
                alias_canonical_value,
                alias_source_value,
                alias_variables,
                aliased_type,
            } => {
                match self.apply_rec(ov, aliased_type, depth, f) {
                    Some(a) => Some(
                        Type::ConstructorAlias {
                            alias_kind: copy_kind(alias_kind),
                            alias_canonical_value: alias_canonical_value.copy(),
                            alias_source_value: copy_opt_qproper(alias_source_value),
                            alias_variables: copy_usizes(alias_variables),
                            aliased_type: Box::new(a),
                        },
                    ),
                    None => None,
                }
            },
            Type::Constructor { .. } => Some(copy_type(ast_type)),
            Type::PrimConstructor(_) => Some(copy_type(ast_type)),
        }
    }
}

/// Applying a substitution follows bound variables to a fixed point: where
/// the result is a type variable, it is a variable that the substitution leaves
/// unbound, reached from a type variable.
pub proof fn apply_ends_at_unbound_variables(s: Map<usize, TypeV>, t: TypeV, depth: nat, fuel: nat)
    ensures
        match apply_spec(s, t, depth, fuel) {
            Some(TypeV::Variable { var: w, .. }) => !s.contains_key(w) && t is Variable,
            _ => true,
        },
    decreases fuel,
{
    if fuel > 0 && depth <= MAX_DEPTH {
        let f = (fuel - 1) as nat;
        match t {
            TypeV::Variable { var, .. } => {
                if s.contains_key(var) {
                    apply_ends_at_unbound_variables(s, s[var], depth + 1, f);
                }
            },
            TypeV::RecordOpen { open_kind, open_var, open_source_name, open_row } => {
                if s.contains_key(open_var) {
                    match s[open_var] {
                        TypeV::RecordOpen { open_var: v2, open_source_name: n2, open_row: new_row, .. } => {
                            match apply_row(s, open_row + new_row, depth, f) {
                                Some(r) => apply_ends_at_unbound_variables(
                                    s,
                                    TypeV::RecordOpen {
                                        open_kind: KindV::Type,
                                        open_var: v2,
                                        open_source_name: n2,
                                        open_row: r,
                                    },
                                    depth + 1,
                                    f,
                                ),
                                None => {},
                            }
                        },
                        TypeV::Variable { var: v2, source_name: n2, .. } => {
                            match apply_row(s, open_row, depth, f) {
                                Some(r) => apply_ends_at_unbound_variables(
                                    s,
                                    TypeV::RecordOpen { open_kind, open_var: v2, open_source_name: n2, open_row: r },
                                    depth + 1,
                                    f,
                                ),
                                None => {},
                            }
                        },
                        _ => {},
                    }
                }
            },
            _ => {},
        }
    }
}

} // verus!
