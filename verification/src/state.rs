//! The state threaded through type checking: a supply of fresh type variables,
//! the current substitution, the warnings so far and the names referenced so far.
use crate::names::{QualifiedName, QualifiedProperName, Span};
use crate::substitution::Substitution;
use crate::types::{Kind, Type, TypeV};
use vstd::prelude::*;

verus! {

/// A supply of fresh type variables.
pub struct Supply(pub usize);

impl Supply {
    /// Returns the next variable and advances the supply (wrapping at the top of `usize`).
    pub fn fresh(&mut self) -> (r: usize)
        ensures
            r == old(self).0,
            final(self).0 == (if old(self).0 == usize::MAX { 0 } else { (old(self).0 + 1) as usize }),
    {
        let r = self.0;
        self.0 = self.0.wrapping_add(1);
        r
    }

    /// A fresh, anonymous type variable of kind `Type`.
    pub fn fresh_type(&mut self) -> (r: Type)
        ensures
            r@ == (TypeV::Variable { variable_kind: crate::types::KindV::Type, var: old(self).0, source_name: None }),
            final(self).0 == (if old(self).0 == usize::MAX { 0 } else { (old(self).0 + 1) as usize }),
    {
        let var = self.fresh();
        Type::Variable { variable_kind: Kind::Type, var, source_name: None }
    }

    /// The next variable, without taking it.
    pub fn peek(&self) -> (r: usize)
        ensures
            r == self.0,
    {
        self.0
    }

    /// Moves the supply on to `next`.
    pub fn update(&mut self, next: usize)
        ensures
            final(self).0 == next,
    {
        self.0 = next;
    }
}

/// Keys that references are counted by: names that can be compared and copied.
pub trait ReferenceKey: View + Sized {
    fn same(&self, other: &Self) -> (r: bool)
        ensures
            r == (self@ == other@),
    ;

    fn duplicate(&self) -> (r: Self)
        ensures
            r@ == self@,
    ;
}

impl ReferenceKey for QualifiedName {
    fn same(&self, other: &Self) -> (r: bool) {
        self.eq(other)
    }

    fn duplicate(&self) -> (r: Self) {
        self.copy()
    }
}

impl ReferenceKey for QualifiedProperName {
    fn same(&self, other: &Self) -> (r: bool) {
        self.eq(other)
    }

    fn duplicate(&self) -> (r: Self) {
        self.copy()
    }
}

/// The views of the entries of a reference count table.
pub open spec fn entries_view<K: View>(v: Seq<(K, usize)>) -> Seq<(K::V, usize)> {
    Seq::new(v.len(), |i: int| (v[i].0@, v[i].1))
}

/// The map that a list of (key, count) entries stands for; later entries win.
pub open spec fn entries_map<V>(s: Seq<(V, usize)>) -> Map<V, nat>
    decreases s.len(),
{
    if s.len() == 0 {
        Map::empty()
    } else {
        entries_map(s.drop_last()).insert(s.last().0, s.last().1 as nat)
    }
}

/// Every count of an entry list fits in a `usize`.
pub proof fn lemma_entries_map_bounded<V>(s: Seq<(V, usize)>)
    ensures
        forall|k: V| #[trigger] entries_map(s).contains_key(k) ==> entries_map(s)[k] <= usize::MAX,
    decreases s.len(),
{
    if s.len() > 0 {
        lemma_entries_map_bounded(s.drop_last());
        let m = entries_map(s.drop_last());
        assert forall|k: V| #[trigger] entries_map(s).contains_key(k) implies entries_map(s)[k] <= usize::MAX by {
            if k != s.last().0 {
                assert(m.contains_key(k));
                assert(entries_map(s)[k] == m[k]);
            }
        }
    }
}

/// No key occurs twice.
pub open spec fn keys_unique<V>(s: Seq<(V, usize)>) -> bool {
    forall|i: int, j: int| 0 <= i < j < s.len() ==> s[i].0 != s[j].0
}

/// How often `k` is counted in `m`; zero when absent.
pub open spec fn count_of<V>(m: Map<V, nat>, k: V) -> nat {
    if m.contains_key(k) {
        m[k]
    } else {
        0
    }
}

proof fn lemma_entries_map_keys<V>(s: Seq<(V, usize)>, k: V)
    ensures
        entries_map(s).contains_key(k) <==> exists|i: int| 0 <= i < s.len() && s[i].0 == k,
    decreases s.len(),
{
    if s.len() > 0 {
        lemma_entries_map_keys(s.drop_last(), k);
        if entries_map(s.drop_last()).contains_key(k) {
            let i = choose|i: int| 0 <= i < s.drop_last().len() && s.drop_last()[i].0 == k;
            assert(s[i].0 == k);
        }
        if exists|i: int| 0 <= i < s.len() && s[i].0 == k {
            let i = choose|i: int| 0 <= i < s.len() && s[i].0 == k;
            if i < s.len() - 1 {
                assert(s.drop_last()[i].0 == k);
            }
        }
    }
}

proof fn lemma_entries_map_at<V>(s: Seq<(V, usize)>, i: int)
    requires
        keys_unique(s),
        0 <= i < s.len(),
    ensures
        entries_map(s).contains_key(s[i].0),
        entries_map(s)[s[i].0] == s[i].1 as nat,
    decreases s.len(),
{
    if i < s.len() - 1 {
        lemma_entries_map_at(s.drop_last(), i);
    }
}

proof fn lemma_entries_map_update<V>(s: Seq<(V, usize)>, i: int, c: usize)
    requires
        keys_unique(s),
        0 <= i < s.len(),
    ensures
        keys_unique(s.update(i, (s[i].0, c))),
        entries_map(s.update(i, (s[i].0, c))) == entries_map(s).insert(s[i].0, c as nat),
    decreases s.len(),
{
    let t = s.update(i, (s[i].0, c));
    if i == s.len() - 1 {
        assert(t.drop_last() =~= s.drop_last());
        assert(entries_map(s).insert(s[i].0, c as nat) =~= entries_map(s.drop_last()).insert(s[i].0, c as nat));
    } else {
        lemma_entries_map_update(s.drop_last(), i, c);
        assert(t.drop_last() =~= s.drop_last().update(i, (s[i].0, c)));
        assert(s.last().0 != s[i].0);
        assert(entries_map(t) =~= entries_map(s).insert(s[i].0, c as nat));
    }
}

/// How often each name was referenced.
pub struct References<K> {
    pub entries: Vec<(K, usize)>,
}

impl<K: ReferenceKey> References<K> {
    pub open spec fn wf(&self) -> bool {
        keys_unique(entries_view(self.entries@))
    }

    /// The counts, as a map from keys to how often they were referenced.
    pub open spec fn counts(&self) -> Map<K::V, nat> {
        entries_map(entries_view(self.entries@))
    }

    /// No references.
    pub fn new() -> (r: Self)
        ensures
            r.wf(),
            r.counts() == Map::<K::V, nat>::empty(),
    {
        let r = References { entries: Vec::new() };
        assert(entries_view(r.entries@) =~= Seq::<(K::V, usize)>::empty());
        r
    }

    /// Where `key` is counted.
    fn position(&self, key: &K) -> (r: Option<usize>)
        ensures
            match r {
                Some(i) => i < self.entries@.len() && self.entries@[i as int].0@ == key@,
                None => forall|i: int| 0 <= i < self.entries@.len() ==> self.entries@[i].0@ != key@,
            },
    {
        let mut i: usize = 0;
        while i < self.entries.len()
            invariant
                i <= self.entries@.len(),
                forall|j: int| 0 <= j < i ==> self.entries@[j].0@ != key@,
            decreases self.entries@.len() - i,
        {
            if self.entries[i].0.same(key) {
                return Some(i);
            }
            i = i + 1;
        }
        None
    }

    /// How often `key` was referenced.
    pub fn get(&self, key: &K) -> (r: usize)
        requires
            self.wf(),
        ensures
            r == count_of(self.counts(), key@),
    {
        let ghost ev = entries_view(self.entries@);
        proof {
            lemma_entries_map_keys(ev, key@);
        }
        match self.position(key) {
            Some(i) => {
                proof {
                    lemma_entries_map_at(ev, i as int);
                }
                self.entries[i].1
            },
            None => {
                proof {
                    if self.counts().contains_key(key@) {
                        let j = choose|j: int| 0 <= j < ev.len() && ev[j].0 == key@;
                        assert(self.entries@[j].0@ == key@);
                    }
                }
                0
            },
        }
    }

    /// Sets the count of `key` to `count`.
    pub fn set(&mut self, key: K, count: usize)
        requires
            old(self).wf(),
        ensures
            final(self).wf(),
            final(self).counts() == old(self).counts().insert(key@, count as nat),
    {
        let ghost ev = entries_view(self.entries@);
        match self.position(&key) {
            Some(i) => {
                let k = self.entries[i].0.duplicate();
                self.entries.set(i, (k, count));
                proof {
                    assert(entries_view(self.entries@) =~= ev.update(i as int, (ev[i as int].0, count)));
                    lemma_entries_map_update(ev, i as int, count);
                }
            },
            None => {
                self.entries.push((key, count));
                proof {
                    let nv = entries_view(self.entries@);
                    assert(nv =~= ev.push((key@, count)));
                    assert(nv.drop_last() =~= ev);
                }
            },
        }
    }

    /// Takes `key` out of the table, returning its count if it was there.
    pub fn remove(&mut self, key: &K) -> (r: Option<usize>)
        requires
            old(self).wf(),
        ensures
            final(self).wf(),
            final(self).counts() == old(self).counts().remove(key@),
            r == (if old(self).counts().contains_key(key@) {
                Some(old(self).counts()[key@] as usize)
            } else {
                None::<usize>
            }),
    {
        let ghost ev = entries_view(self.entries@);
        proof {
            lemma_entries_map_keys(ev, key@);
        }
        match self.position(key) {
            Some(i) => {
                proof {
                    lemma_entries_map_at(ev, i as int);
                }
                let (_, c) = self.entries.remove(i);
                proof {
                    let nv = entries_view(self.entries@);
                    assert(nv =~= ev.remove(i as int));
                    lemma_entries_map_remove(ev, i as int);
                }
                Some(c)
            },
            None => {
                proof {
                    if self.counts().contains_key(key@) {
                        let j = choose|j: int| 0 <= j < ev.len() && ev[j].0 == key@;
                        assert(self.entries@[j].0@ == key@);
                    }
                    assert(self.counts().remove(key@) =~= self.counts());
                }
                None
            },
        }
    }

    /// Counts one more reference to `key`, saturating at the top of `usize`.
    pub fn register(&mut self, key: &K)
        requires
            old(self).wf(),
        ensures
            final(self).wf(),
            final(self).counts() == old(self).counts().insert(
                key@,
                if count_of(old(self).counts(), key@) < usize::MAX {
                    count_of(old(self).counts(), key@) + 1
                } else {
                    count_of(old(self).counts(), key@)
                },
            ),
    {
        let c = self.get(key);
        let k = key.duplicate();
        self.set(k, c.saturating_add(1));
    }
}

proof fn lemma_entries_map_remove<V>(s: Seq<(V, usize)>, i: int)
    requires
        keys_unique(s),
        0 <= i < s.len(),
    ensures
        keys_unique(s.remove(i)),
        entries_map(s.remove(i)) == entries_map(s).remove(s[i].0),
    decreases s.len(),
{
    let t = s.remove(i);
    if i == s.len() - 1 {
        assert(t =~= s.drop_last());
        lemma_entries_map_keys(s.drop_last(), s[i].0);
        assert(entries_map(t) =~= entries_map(s).remove(s[i].0));
    } else {
        lemma_entries_map_remove(s.drop_last(), i);
        assert(t.drop_last() =~= s.drop_last().remove(i));
        assert(t.last() == s.last());
        assert(s.last().0 != s[i].0);
        assert(entries_map(t) =~= entries_map(s).remove(s[i].0));
    }
}

/// Adds the counts of `rhs` to those of `lhs`, key by key.
pub fn merge_references<K: ReferenceKey>(lhs: References<K>, rhs: References<K>) -> (r: References<K>)
    requires
        lhs.wf(),
        rhs.wf(),
        forall|k: K::V| count_of(lhs.counts(), k) + count_of(rhs.counts(), k) <= usize::MAX,
    ensures
        r.wf(),
        r.counts().dom() == lhs.counts().dom().union(rhs.counts().dom()),
        forall|k: K::V| #[trigger] count_of(r.counts(), k) == count_of(lhs.counts(), k) + count_of(rhs.counts(), k),
{
    let mut out = lhs;
    let ghost rv = entries_view(rhs.entries@);
    let mut i: usize = 0;
    while i < rhs.entries.len()
        invariant
            out.wf(),
            rhs.wf(),
            rv == entries_view(rhs.entries@),
            i <= rhs.entries@.len(),
            forall|k: K::V| count_of(lhs.counts(), k) + count_of(rhs.counts(), k) <= usize::MAX,
            forall|k: K::V| #[trigger] count_of(out.counts(), k) == count_of(lhs.counts(), k) + count_of(
                entries_map(rv.subrange(0, i as int)),
                k,
            ),
            out.counts().dom() == lhs.counts().dom().union(entries_map(rv.subrange(0, i as int)).dom()),
        decreases rhs.entries@.len() - i,
    {
        let key = &rhs.entries[i].0;
        let c = rhs.entries[i].1;
        let ghost pre = rv.subrange(0, i as int);
        let ghost post = rv.subrange(0, i + 1);
        proof {
            assert(post.drop_last() =~= pre);
            assert(post.last() == (key@, c));
            lemma_entries_map_keys(pre, key@);
            if entries_map(pre).contains_key(key@) {
                let j = choose|j: int| 0 <= j < pre.len() && pre[j].0 == key@;
                assert(rv[j].0 == rv[i as int].0);
            }
            assert(count_of(entries_map(post), key@) == c);
            lemma_entries_map_at(rv, i as int);
            assert(count_of(rhs.counts(), key@) == c);
            assert(count_of(out.counts(), key@) == count_of(lhs.counts(), key@));
        }
        let ghost oc = out.counts();
        let existing = out.get(key);
        let k = key.duplicate();
        out.set(k, existing + c);
        proof {
            assert forall|k2: K::V| #[trigger] count_of(out.counts(), k2) == count_of(lhs.counts(), k2) + count_of(
                entries_map(post),
                k2,
            ) by {
                if k2 != key@ {
                    assert(count_of(entries_map(post), k2) == count_of(entries_map(pre), k2));
                    assert(count_of(out.counts(), k2) == count_of(oc, k2));
                    assert(count_of(oc, k2) == count_of(lhs.counts(), k2) + count_of(entries_map(pre), k2));
                } else {
                    assert(count_of(out.counts(), k2) == existing + c);
                }
            }
            assert(out.counts().dom() =~= lhs.counts().dom().union(entries_map(post).dom()));
        }
        i = i + 1;
    }
    proof {
        assert(rv.subrange(0, rv.len() as int) =~= rv);
    }
    out
}

/// References to values, by name.
pub type ValueReferences = References<QualifiedName>;

/// References to constructors, by name.
pub type ConstructorReferences = References<QualifiedProperName>;

/// Things worth pointing out that are not errors.
pub enum Warning {
    UnusedFunctionBinder { span: Span },
    UnusedEffectBinder { span: Span },
    UnusedPatternBinder { span: Span },
    UnusedLetBinder { span: Span },
    RedundantMatchPattern { span: Span },
}

/// Why type checking failed.
pub enum TypeError {
    UnknownVariable { span: Span, variable: QualifiedName, names_in_scope: Vec<QualifiedName> },
    UnknownConstructor { span: Span, constructor: QualifiedProperName, ctors_in_scope: Vec<QualifiedProperName> },
    DuplicateFunctionBinder { previous_binder: Span, duplicate_binder: Span },
    DuplicatePatternBinder { previous_binder: Span, duplicate_binder: Span },
    ArgumentLengthMismatch { function_span: Span, wanted: usize, got: usize },
    NotAFunction { span: Span, actual_type: Type },
    MatchNotExhaustive { match_span: Span, missing_patterns: Vec<String> },
    TypesNotEqual { span: Span, expected: Type, actual: Type },
    InfiniteType { span: Span, var: usize, infinite_type: Type },
    /// A chain of bound variables ran deeper than [crate::substitution::MAX_DEPTH]
    /// while a substitution was applied.
    SubstitutionTooDeep { span: Span },
}

/// The state of type checking.
pub struct State {
    pub supply: Supply,
    pub substitution: Substitution,
    pub warnings: Vec<Warning>,
    pub value_references: ValueReferences,
    pub constructor_references: ConstructorReferences,
}

impl State {
    pub open spec fn wf(&self) -> bool {
        &&& self.value_references.wf()
        &&& self.constructor_references.wf()
    }

    /// A fresh state that takes type variables from `supply`.
    pub fn new(supply: Supply) -> (r: State)
        ensures
            r.wf(),
            r.supply.0 == supply.0,
            r.substitution@ == Map::<usize, TypeV>::empty(),
            r.warnings@.len() == 0,
            r.value_references.counts() == Map::<(Option<Seq<char>>, Seq<char>), nat>::empty(),
            r.constructor_references.counts() == Map::<(Option<Seq<char>>, Seq<char>), nat>::empty(),
    {
        State {
            supply,
            substitution: Substitution::new(),
            warnings: Vec::new(),
            value_references: References::new(),
            constructor_references: References::new(),
        }
    }

    /// Counts a reference to a value.
    pub fn register_value_reference(&mut self, name: &QualifiedName)
        requires
            old(self).wf(),
        ensures
            final(self).wf(),
            final(self).value_references.counts() == old(self).value_references.counts().insert(
                name@,
                if count_of(old(self).value_references.counts(), name@) < usize::MAX {
                    count_of(old(self).value_references.counts(), name@) + 1
                } else {
                    count_of(old(self).value_references.counts(), name@)
                },
            ),
            final(self).constructor_references == old(self).constructor_references,
            final(self).supply == old(self).supply,
            final(self).substitution == old(self).substitution,
            final(self).warnings == old(self).warnings,
    {
        self.value_references.register(name);
    }

    /// Counts a reference to a constructor.
    pub fn register_constructor_reference(&mut self, name: &QualifiedProperName)
        requires
            old(self).wf(),
        ensures
            final(self).wf(),
            final(self).constructor_references.counts() == old(self).constructor_references.counts().insert(
                name@,
                if count_of(old(self).constructor_references.counts(), name@) < usize::MAX {
                    count_of(old(self).constructor_references.counts(), name@) + 1
                } else {
                    count_of(old(self).constructor_references.counts(), name@)
                },
            ),
            final(self).value_references == old(self).value_references,
            final(self).supply == old(self).supply,
            final(self).substitution == old(self).substitution,
            final(self).warnings == old(self).warnings,
    {
        self.constructor_references.register(name);
    }
}

} // verus!
