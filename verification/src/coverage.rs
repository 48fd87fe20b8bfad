//! Exhaustiveness of match patterns: whether the clauses of a match cover every
//! value of the matched type, and which of them can never be reached.
//!
//! Ideal patterns, built from the constructors of the matched type, are refined
//! until each is covered by some clause; those that none covers are reported.
use crate::assoc::{first_key, key_put, key_put_all, lemma_first_key, lemma_no_key};
use crate::ast;
use crate::env::EnvConstructor;
use crate::names::{copy_string, ProperName, QualifiedProperName, Span};
use crate::state::Supply;
use crate::text::{push_char, push_str};
use crate::types::{copy_type, Type, TypeV};
use vstd::prelude::*;

verus! {

/// The recursion allowance that a coverage search starts with.
pub const COVERAGE_FUEL: u64 = 0xffff_ffff_ffff_ffff;

/// A pattern as a clause of a match writes it.
pub enum ClausePattern {
    Constructor { span: Span, constructor: ProperName, arguments: Vec<ClausePattern> },
    Variable { span: Span, var: String },
}

/// Whether the two clause patterns are the same: same spans, constructors and
/// variable names, part for part.
pub open spec fn same_clause(a: ClausePattern, b: ClausePattern) -> bool
    decreases a,
{
    match a {
        ClausePattern::Constructor { span, constructor, arguments } => match b {
            ClausePattern::Constructor { span: s, constructor: c, arguments: args } => {
                &&& s == span
                &&& c@ == constructor@
                &&& args@.len() == arguments@.len()
                &&& forall|i: int| 0 <= i < arguments@.len() ==> same_clause(#[trigger] arguments@[i], args@[i])
            },
            _ => false,
        },
        ClausePattern::Variable { span, var } => match b {
            ClausePattern::Variable { span: s, var: v } => s == span && v@ == var@,
            _ => false,
        },
    }
}

/// Whether the ideal pattern `p` has the shape of the clause pattern `c`: the
/// same constructors, with a hole wherever `c` has a variable.
pub open spec fn shaped_like(c: ClausePattern, p: IdealPattern) -> bool
    decreases c,
{
    match c {
        ClausePattern::Constructor { constructor, arguments, .. } => match p {
            IdealPattern::Constructor { constructor: k, arguments: args } => {
                &&& k@ == constructor@
                &&& args@.len() == arguments@.len()
                &&& forall|i: int| 0 <= i < arguments@.len() ==> shaped_like(#[trigger] arguments@[i], args@[i])
            },
            _ => false,
        },
        ClausePattern::Variable { .. } => p is Variable,
    }
}

/// Whether `c` is the clause pattern of the typed pattern `p`: the same
/// constructors, by their proper names, at the same spans, and a variable
/// wherever `p` binds a variable or leaves a name unused.
pub open spec fn clause_of(p: ast::Pattern, c: ClausePattern) -> bool
    decreases p,
{
    match p {
        ast::Pattern::LocalConstructor { span, constructor, arguments } => match c {
            ClausePattern::Constructor { span: s, constructor: k, arguments: a } => {
                &&& s == span
                &&& k@ == constructor@
                &&& a@.len() == arguments@.len()
                &&& forall|i: int| 0 <= i < arguments@.len() ==> clause_of(#[trigger] arguments@[i], a@[i])
            },
            _ => false,
        },
        ast::Pattern::ImportedConstructor { span, constructor, arguments } => match c {
            ClausePattern::Constructor { span: s, constructor: k, arguments: a } => {
                &&& s == span
                &&& k@ == constructor.value@
                &&& a@.len() == arguments@.len()
                &&& forall|i: int| 0 <= i < arguments@.len() ==> clause_of(#[trigger] arguments@[i], a@[i])
            },
            _ => false,
        },
        ast::Pattern::Variable { span, .. } => c is Variable && c.span_of() == span,
        ast::Pattern::Unused { span, .. } => c is Variable && c.span_of() == span,
    }
}

impl ClausePattern {
    pub open spec fn span_of(&self) -> Span {
        match *self {
            ClausePattern::Constructor { span, .. } => span,
            ClausePattern::Variable { span, .. } => span,
        }
    }

    /// Where this pattern is.
    pub fn get_span(&self) -> (r: Span)
        ensures
            r == self.span_of(),
    {
        match self {
            ClausePattern::Constructor { span, .. } => *span,
            ClausePattern::Variable { span, .. } => *span,
        }
    }

    /// The clause pattern of a typed pattern: constructors by their proper names,
    /// used and unused variables alike as variables.
    pub fn from_pattern(pattern: &ast::Pattern) -> (r: ClausePattern)
        ensures
            r.span_of() == pattern.span_of(),
            match *pattern {
                ast::Pattern::LocalConstructor { arguments, .. } => r matches ClausePattern::Constructor {
                    arguments: a,
                    ..
                } && a@.len() == arguments@.len(),
                ast::Pattern::ImportedConstructor { arguments, .. } => r matches ClausePattern::Constructor {
                    arguments: a,
                    ..
                } && a@.len() == arguments@.len(),
                _ => r is Variable,
            },
            clause_of(*pattern, r),
        decreases pattern,
    {
        match pattern {
            ast::Pattern::LocalConstructor { span, constructor, arguments } => {
                let mut out: Vec<ClausePattern> = Vec::new();
                let mut i: usize = 0;
                while i < arguments.len()
                    invariant
                        *pattern == (ast::Pattern::LocalConstructor {
                            span: *span,
                            constructor: *constructor,
                            arguments: *arguments,
                        }),
                        i <= arguments@.len(),
                        out@.len() == i,
                        forall|k: int| 0 <= k < i ==> clause_of(#[trigger] arguments@[k], out@[k]),
                    decreases arguments@.len() - i,
                {
                    proof {
                        assert(decreases_to!(*pattern => (*pattern)->LocalConstructor_arguments));
                        assert(decreases_to!(*arguments => arguments@));
                        assert(decreases_to!(arguments@ => arguments@[i as int]));
                    }
                    out.push(ClausePattern::from_pattern(&arguments[i]));
                    i = i + 1;
                }
                ClausePattern::Constructor { span: *span, constructor: constructor.copy(), arguments: out }
            },
            ast::Pattern::ImportedConstructor { span, constructor, arguments } => {
                let mut out: Vec<ClausePattern> = Vec::new();
                let mut i: usize = 0;
                while i < arguments.len()
                    invariant
                        *pattern == (ast::Pattern::ImportedConstructor {
                            span: *span,
                            constructor: *constructor,
                            arguments: *arguments,
                        }),
                        i <= arguments@.len(),
                        out@.len() == i,
                        forall|k: int| 0 <= k < i ==> clause_of(#[trigger] arguments@[k], out@[k]),
                    decreases arguments@.len() - i,
                {
                    proof {
                        assert(decreases_to!(*pattern => (*pattern)->ImportedConstructor_arguments));
                        assert(decreases_to!(*arguments => arguments@));
                        assert(decreases_to!(arguments@ => arguments@[i as int]));
                    }
                    out.push(ClausePattern::from_pattern(&arguments[i]));
                    i = i + 1;
                }
                ClausePattern::Constructor { span: *span, constructor: constructor.value.copy(), arguments: out }
            },
            ast::Pattern::Variable { span, name } => ClausePattern::Variable {
                span: *span,
                var: copy_string(&name.0),
            },
            ast::Pattern::Unused { span, unused_name } => ClausePattern::Variable {
                span: *span,
                var: copy_string(&unused_name.0),
            },
        }
    }

    /// Makes an independent copy of this pattern.
    pub fn copy(&self) -> (r: ClausePattern)
        ensures
            r.span_of() == self.span_of(),
            same_clause(*self, r),
        decreases self,
    {
        match self {
            ClausePattern::Constructor { span, constructor, arguments } => {
                let mut out: Vec<ClausePattern> = Vec::new();
                let mut i: usize = 0;
                while i < arguments.len()
                    invariant
                        *self == (ClausePattern::Constructor {
                            span: *span,
                            constructor: *constructor,
                            arguments: *arguments,
                        }),
                        i <= arguments@.len(),
                        out@.len() == i,
                        forall|k: int| 0 <= k < i ==> same_clause(#[trigger] arguments@[k], out@[k]),
                    decreases arguments@.len() - i,
                {
                    proof {
                        assert(decreases_to!(*self => (*self)->Constructor_arguments));
                        assert(decreases_to!(*arguments => arguments@));
                        assert(decreases_to!(arguments@ => arguments@[i as int]));
                    }
                    out.push(arguments[i].copy());
                    i = i + 1;
                }
                ClausePattern::Constructor { span: *span, constructor: constructor.copy(), arguments: out }
            },
            ClausePattern::Variable { span, var } => ClausePattern::Variable { span: *span, var: copy_string(var) },
        }
    }
}

/// A pattern that the search works with: constructors, and numbered holes.
pub enum IdealPattern {
    Constructor { constructor: ProperName, arguments: Vec<IdealPattern> },
    Variable { var: usize },
}

/// The rendering of an ideal pattern: `Just(_)`; holes as `_`.
pub open spec fn render_ideal(p: IdealPattern) -> Seq<char>
    decreases p, 0nat,
{
    match p {
        IdealPattern::Constructor { constructor, arguments } => if arguments@.len() == 0 {
            constructor@
        } else {
            constructor@ + "("@ + render_ideals(arguments@, arguments@.len()) + ")"@
        },
        IdealPattern::Variable { .. } => "_"@,
    }
}

/// The first `n` ideal patterns, rendered and separated by commas.
pub open spec fn render_ideals(ps: Seq<IdealPattern>, n: nat) -> Seq<char>
    decreases ps, n,
{
    if n == 0 || n > ps.len() {
        Seq::empty()
    } else if n == 1 {
        render_ideal(ps[0])
    } else {
        render_ideals(ps, (n - 1) as nat) + ", "@ + render_ideal(ps[n - 1])
    }
}

/// How many variables a clause pattern holds.
pub open spec fn clause_holes(c: ClausePattern) -> nat
    decreases c, 0nat,
{
    match c {
        ClausePattern::Constructor { arguments, .. } => clause_holes_list(arguments@, arguments@.len()),
        ClausePattern::Variable { .. } => 1,
    }
}

/// How many variables the first `n` clause patterns hold.
pub open spec fn clause_holes_list(cs: Seq<ClausePattern>, n: nat) -> nat
    decreases cs, n,
{
    if n == 0 || n > cs.len() {
        0
    } else {
        clause_holes_list(cs, (n - 1) as nat) + clause_holes(cs[n - 1])
    }
}

/// The holes of an ideal pattern, left to right.
pub open spec fn ideal_holes(p: IdealPattern) -> Seq<usize>
    decreases p, 0nat,
{
    match p {
        IdealPattern::Constructor { arguments, .. } => ideal_holes_list(arguments@, arguments@.len()),
        IdealPattern::Variable { var } => seq![var],
    }
}

/// The holes of the first `n` ideal patterns, left to right.
pub open spec fn ideal_holes_list(ps: Seq<IdealPattern>, n: nat) -> Seq<usize>
    decreases ps, n,
{
    if n == 0 || n > ps.len() {
        Seq::empty()
    } else {
        ideal_holes_list(ps, (n - 1) as nat) + ideal_holes(ps[n - 1])
    }
}

/// `n` consecutive numbers from `start`.
pub open spec fn numbered_from(start: int, n: nat) -> Seq<usize> {
    Seq::new(n, |k: int| (start + k) as usize)
}

proof fn lemma_clause_holes_mono(cs: Seq<ClausePattern>, i: nat, n: nat)
    requires
        i <= n <= cs.len(),
    ensures
        clause_holes_list(cs, i) <= clause_holes_list(cs, n),
    decreases n,
{
    if i < n {
        lemma_clause_holes_mono(cs, i, (n - 1) as nat);
    }
}

proof fn lemma_ideal_holes_prefix(a: Seq<IdealPattern>, b: Seq<IdealPattern>, n: nat)
    requires
        n <= a.len(),
        n <= b.len(),
        forall|k: int| 0 <= k < n ==> a[k] == b[k],
    ensures
        ideal_holes_list(a, n) == ideal_holes_list(b, n),
    decreases n,
{
    if n > 0 {
        lemma_ideal_holes_prefix(a, b, (n - 1) as nat);
    }
}

impl IdealPattern {
    /// The ideal pattern of a clause pattern: its constructors, with a fresh hole
    /// for each variable.
    pub fn from_clause(clause_pattern: &ClausePattern, supply: &mut Supply) -> (r: IdealPattern)
        ensures
            clause_pattern is Variable ==> r is Variable,
            clause_pattern is Constructor ==> r is Constructor,
            shaped_like(*clause_pattern, r),
            old(supply).0 + clause_holes(*clause_pattern) <= usize::MAX ==> {
                &&& ideal_holes(r) == numbered_from(old(supply).0 as int, clause_holes(*clause_pattern))
                &&& final(supply).0 == old(supply).0 + clause_holes(*clause_pattern)
            },
        decreases clause_pattern,
    {
        let ghost start = supply.0 as int;
        match clause_pattern {
            ClausePattern::Constructor { span, constructor, arguments } => {
                let ghost total = clause_holes(*clause_pattern);
                let mut out: Vec<IdealPattern> = Vec::new();
                let mut i: usize = 0;
                proof {
                    assert(ideal_holes_list(out@, 0) =~= numbered_from(start, 0));
                }
                while i < arguments.len()
                    invariant
                        *clause_pattern == (ClausePattern::Constructor {
                            span: *span,
                            constructor: *constructor,
                            arguments: *arguments,
                        }),
                        i <= arguments@.len(),
                        out@.len() == i,
                        forall|k: int| 0 <= k < i ==> shaped_like(#[trigger] arguments@[k], out@[k]),
                        total == clause_holes_list(arguments@, arguments@.len()),
                        start + total <= usize::MAX ==> {
                            &&& supply.0 == start + clause_holes_list(arguments@, i as nat)
                            &&& ideal_holes_list(out@, i as nat) == numbered_from(
                                start,
                                clause_holes_list(arguments@, i as nat),
                            )
                        },
                    decreases arguments@.len() - i,
                {
                    proof {
                        assert(decreases_to!(*clause_pattern => (*clause_pattern)->Constructor_arguments));
                        assert(decreases_to!(*arguments => arguments@));
                        assert(decreases_to!(arguments@ => arguments@[i as int]));
                        lemma_clause_holes_mono(arguments@, (i + 1) as nat, arguments@.len());
                    }
                    let ghost before = out@;
                    let ghost s0 = supply.0 as int;
                    let p = IdealPattern::from_clause(&arguments[i], supply);
                    out.push(p);
                    proof {
                        if start + total <= usize::MAX {
                            let c0 = clause_holes_list(arguments@, i as nat);
                            let c1 = clause_holes(arguments@[i as int]);
                            assert(clause_holes_list(arguments@, (i + 1) as nat) == c0 + c1);
                            lemma_ideal_holes_prefix(before, out@, i as nat);
                            assert(ideal_holes_list(out@, (i + 1) as nat) == ideal_holes_list(out@, i as nat)
                                + ideal_holes(p));
                            assert(ideal_holes_list(out@, (i + 1) as nat) =~= numbered_from(start, c0 + c1));
                        }
                    }
                    i = i + 1;
                }
                IdealPattern::Constructor { constructor: constructor.copy(), arguments: out }
            },
            ClausePattern::Variable { .. } => IdealPattern::Variable { var: supply.fresh() },
        }
    }

    /// Renders this pattern, as a missing pattern is reported: `Just(_)`.
    pub fn render(&self) -> (r: String)
        ensures
            r@ == render_ideal(*self),
    {
        let mut accum = String::new();
        self.render_rec(&mut accum);
        proof {
            assert(accum@ =~= render_ideal(*self));
        }
        accum
    }

    /// Appends the rendering of this pattern to `accum`.
    pub fn render_rec(&self, accum: &mut String)
        ensures
            final(accum)@ == old(accum)@ + render_ideal(*self),
        decreases self,
    {
        let ghost start = accum@;
        match self {
            IdealPattern::Constructor { constructor, arguments } => {
                push_str(accum, constructor.0.as_str());
                let arg_len = arguments.len();
                if arg_len > 0 {
                    push_char(accum, '(');
                    let ghost mid = accum@;
                    let mut i: usize = 0;
                    while i < arg_len
                        invariant
                            *self == (IdealPattern::Constructor { constructor: *constructor, arguments: *arguments }),
                            arg_len == arguments@.len(),
                            i <= arg_len,
                            accum@ == mid + render_ideals(arguments@, i as nat),
                        decreases arg_len - i,
                    {
                        proof {
                            assert(decreases_to!(*self => (*self)->Constructor_arguments));
                            assert(decreases_to!(*arguments => arguments@));
                            assert(decreases_to!(arguments@ => arguments@[i as int]));
                        }
                        if i > 0 {
                            push_str(accum, ", ");
                        }
                        arguments[i].render_rec(accum);
                        proof {
                            assert(accum@ =~= mid + render_ideals(arguments@, (i + 1) as nat));
                        }
                        i = i + 1;
                    }
                    push_char(accum, ')');
                    proof {
                        reveal_strlit("(");
                        reveal_strlit(")");
                        assert("("@ =~= seq!['(']);
                        assert(")"@ =~= seq![')']);
                        assert(accum@ =~= start + render_ideal(*self));
                    }
                } else {
                    proof {
                        assert(accum@ =~= start + render_ideal(*self));
                    }
                }
            },
            IdealPattern::Variable { .. } => {
                push_char(accum, '_');
                proof {
                    reveal_strlit("_");
                    assert("_"@ =~= seq!['_']);
                    assert(accum@ =~= start + render_ideal(*self));
                }
            },
        }
    }

    /// Makes an independent copy of this pattern, which renders as it does.
    pub fn copy(&self) -> (r: IdealPattern)
        ensures
            render_ideal(r) == render_ideal(*self),
            (r is Variable) == (*self is Variable),
            instance_of(r, *self),
        decreases self,
    {
        match self {
            IdealPattern::Constructor { constructor, arguments } => {
                let mut out: Vec<IdealPattern> = Vec::new();
                let mut i: usize = 0;
                while i < arguments.len()
                    invariant
                        *self == (IdealPattern::Constructor { constructor: *constructor, arguments: *arguments }),
                        i <= arguments@.len(),
                        out@.len() == i,
                        forall|j: int| 0 <= j < i ==> render_ideal(#[trigger] out@[j]) == render_ideal(arguments@[j]),
                        forall|j: int| 0 <= j < i ==> instance_of(#[trigger] out@[j], arguments@[j]),
                    decreases arguments@.len() - i,
                {
                    proof {
                        assert(decreases_to!(*self => (*self)->Constructor_arguments));
                        assert(decreases_to!(*arguments => arguments@));
                        assert(decreases_to!(arguments@ => arguments@[i as int]));
                    }
                    out.push(arguments[i].copy());
                    i = i + 1;
                }
                proof {
                    lemma_render_ideals_eq(out@, arguments@, out@.len());
                }
                IdealPattern::Constructor { constructor: constructor.copy(), arguments: out }
            },
            IdealPattern::Variable { var } => IdealPattern::Variable { var: *var },
        }
    }
}

proof fn lemma_render_ideals_eq(a: Seq<IdealPattern>, b: Seq<IdealPattern>, n: nat)
    requires
        a.len() == b.len(),
        n <= a.len(),
        forall|j: int| 0 <= j < n ==> render_ideal(#[trigger] a[j]) == render_ideal(b[j]),
    ensures
        render_ideals(a, n) == render_ideals(b, n),
    decreases n,
{
    if n > 1 {
        lemma_render_ideals_eq(a, b, (n - 1) as nat);
    }
}

/// Whether the ideal pattern `x` fits the clause pattern `c`: the two agree on
/// every constructor where both have one, a hole or a variable fitting anything.
pub open spec fn fits(x: IdealPattern, c: ClausePattern) -> bool
    decreases c,
{
    match c {
        ClausePattern::Constructor { constructor, arguments, .. } => match x {
            IdealPattern::Constructor { constructor: k, arguments: args } => {
                &&& k@ == constructor@
                &&& args@.len() == arguments@.len()
                &&& forall|i: int| 0 <= i < arguments@.len() ==> fits(args@[i], #[trigger] arguments@[i])
            },
            IdealPattern::Variable { .. } => true,
        },
        ClausePattern::Variable { .. } => true,
    }
}

/// Whether the clause pattern `a` is at least as general as `b`: a variable
/// wherever `b` has one, and the same constructor, with arguments at least as
/// general, wherever `a` has a constructor.
pub open spec fn generalizes(a: ClausePattern, b: ClausePattern) -> bool
    decreases a,
{
    match a {
        ClausePattern::Constructor { constructor, arguments, .. } => match b {
            ClausePattern::Constructor { constructor: k, arguments: args, .. } => {
                &&& k@ == constructor@
                &&& args@.len() == arguments@.len()
                &&& forall|i: int| 0 <= i < arguments@.len() ==> generalizes(#[trigger] arguments@[i], args@[i])
            },
            ClausePattern::Variable { .. } => false,
        },
        ClausePattern::Variable { .. } => true,
    }
}

/// Whether every ideal pattern that fits `b` fits `a`.
pub open spec fn subsumes(a: ClausePattern, b: ClausePattern) -> bool {
    forall|x: IdealPattern| #[trigger] fits(x, b) ==> fits(x, a)
}

/// Whether the ideal pattern `r` is `p` with some of its holes filled.
pub open spec fn instance_of(r: IdealPattern, p: IdealPattern) -> bool
    decreases p,
{
    match p {
        IdealPattern::Constructor { constructor, arguments } => match r {
            IdealPattern::Constructor { constructor: k, arguments: args } => {
                &&& k@ == constructor@
                &&& args@.len() == arguments@.len()
                &&& forall|i: int| 0 <= i < arguments@.len() ==> instance_of(args@[i], #[trigger] arguments@[i])
            },
            IdealPattern::Variable { .. } => false,
        },
        IdealPattern::Variable { .. } => true,
    }
}

/// A more general clause pattern fits whatever a less general one fits.
pub proof fn lemma_generalizes_subsumes(a: ClausePattern, b: ClausePattern, x: IdealPattern)
    requires
        generalizes(a, b),
        fits(x, b),
    ensures
        fits(x, a),
    decreases a,
{
    match a {
        ClausePattern::Constructor { arguments, .. } => {
            match (x, b) {
                (IdealPattern::Constructor { arguments: xa, .. }, ClausePattern::Constructor { arguments: ba, .. }) => {
                    assert forall|i: int| 0 <= i < arguments@.len() implies fits(xa@[i], #[trigger] arguments@[i]) by {
                        assert(fits(xa@[i], ba@[i]));
                        lemma_generalizes_subsumes(arguments@[i], ba@[i], xa@[i]);
                    }
                },
                _ => {},
            }
        },
        _ => {},
    }
}

/// What does not fit a clause pattern does not fit it once holes are filled.
proof fn lemma_instance_unfit(p: IdealPattern, r: IdealPattern, c: ClausePattern)
    requires
        instance_of(r, p),
        !fits(p, c),
    ensures
        !fits(r, c),
    decreases c,
{
    match c {
        ClausePattern::Constructor { constructor: cc, arguments: ca, .. } => {
            match p {
                IdealPattern::Constructor { constructor: pc, arguments: pa } => {
                    match r {
                        IdealPattern::Constructor { constructor: rc, arguments: ra } => {
                            if pc@ == cc@ && pa@.len() == ca@.len() {
                                let i = choose|i: int| 0 <= i < ca@.len() && !fits(pa@[i], #[trigger] ca@[i]);
                                assert(instance_of(ra@[i], pa@[i]));
                                assert(decreases_to!(c => ca));
                                assert(decreases_to!(ca => ca@));
                                assert(decreases_to!(ca@ => ca@[i]));
                                lemma_instance_unfit(pa@[i], ra@[i], ca@[i]);
                            }
                        },
                        _ => {},
                    }
                },
                _ => {},
            }
        },
        _ => {},
    }
}

/// Copies of a clause pattern fit the same ideal patterns.
proof fn lemma_same_clause_fits(a: ClausePattern, b: ClausePattern, x: IdealPattern)
    requires
        same_clause(a, b),
    ensures
        fits(x, a) == fits(x, b),
    decreases a,
{
    match a {
        ClausePattern::Constructor { arguments: aa, .. } => {
            match b {
                ClausePattern::Constructor { arguments: ba, .. } => {
                    match x {
                        IdealPattern::Constructor { arguments: xa, .. } => {
                            if xa@.len() == aa@.len() {
                                assert forall|i: int| 0 <= i < aa@.len() implies fits(
                                    xa@[i],
                                    #[trigger] aa@[i],
                                ) == fits(xa@[i], ba@[i]) by {
                                    assert(decreases_to!(a => aa));
                                    assert(decreases_to!(aa => aa@));
                                    assert(decreases_to!(aa@ => aa@[i]));
                                    lemma_same_clause_fits(aa@[i], ba@[i], xa@[i]);
                                }
                                if fits(x, a) {
                                    assert forall|i: int| 0 <= i < ba@.len() implies fits(xa@[i], #[trigger] ba@[i]) by {
                                        assert(fits(xa@[i], aa@[i]));
                                    }
                                }
                                if fits(x, b) {
                                    assert forall|i: int| 0 <= i < aa@.len() implies fits(xa@[i], #[trigger] aa@[i]) by {
                                        assert(fits(xa@[i], ba@[i]));
                                    }
                                }
                            }
                        },
                        _ => {},
                    }
                },
                _ => {},
            }
        },
        _ => {},
    }
}

/// A copy of a copy is a copy.
proof fn lemma_same_clause_trans(a: ClausePattern, b: ClausePattern, c: ClausePattern)
    requires
        same_clause(a, b),
        same_clause(b, c),
    ensures
        same_clause(a, c),
    decreases a,
{
    match (a, b, c) {
        (
            ClausePattern::Constructor { arguments: aa, .. },
            ClausePattern::Constructor { arguments: ba, .. },
            ClausePattern::Constructor { arguments: ca, .. },
        ) => {
            assert forall|i: int| 0 <= i < aa@.len() implies same_clause(#[trigger] aa@[i], ca@[i]) by {
                lemma_same_clause_trans(aa@[i], ba@[i], ca@[i]);
            }
        },
        _ => {},
    }
}

/// Subsumption carries over to copies of the two clause patterns.
proof fn lemma_subsumes_copies(a: ClausePattern, b: ClausePattern, a2: ClausePattern, b2: ClausePattern)
    requires
        subsumes(a, b),
        same_clause(a, a2),
        same_clause(b, b2),
    ensures
        subsumes(a2, b2),
{
    assert forall|x: IdealPattern| #[trigger] fits(x, b2) implies fits(x, a2) by {
        lemma_same_clause_fits(b, b2, x);
        lemma_same_clause_fits(a, a2, x);
        assert(fits(x, b));
    }
}

/// Clause `j` can never be the first clause that the ideal pattern `ideal`, or
/// a pattern that fills its holes, fits, once the search stands at `from`: an
/// earlier clause subsumes it, and either the search has not passed that
/// clause yet or `ideal` does not fit it.
pub open spec fn shadowed(ideal: IdealPattern, clauses: Seq<Clause>, from: int, j: int) -> bool {
    exists|i: int|
        0 <= i < j && #[trigger] subsumes(clauses[i].pattern, clauses[j].pattern) && (i >= from || !fits(
            ideal,
            clauses[i].pattern,
        ))
}

/// Whether some clause from index `from` on is a variable, which every value fits.
pub open spec fn has_catch_all(clauses: Seq<Clause>, from: int) -> bool {
    exists|k: int| from <= k < clauses.len() && (#[trigger] clauses[k]).pattern is Variable
}

/// The clauses `b` are copies of the clauses `a`.
pub open spec fn copied_clauses(a: Seq<Clause>, b: Seq<Clause>) -> bool {
    &&& a.len() == b.len()
    &&& forall|k: int| 0 <= k < a.len() ==> same_clause(#[trigger] a[k].pattern, b[k].pattern)
}

/// A clause of a match, with how often the search used it.
pub struct Clause {
    pub usages: usize,
    pub pattern: ClausePattern,
}

impl Clause {
    /// A clause not used yet.
    pub fn new(pattern: ClausePattern) -> (r: Clause)
        ensures
            r.usages == 0,
            r.pattern == pattern,
    {
        Clause { usages: 0, pattern }
    }

    /// This clause, used once more (saturating at the top of `usize`).
    pub fn use_clause(&self) -> (r: Clause)
        ensures
            r.usages == (if self.usages < usize::MAX { self.usages + 1 } else { self.usages as int }),
            r.pattern.span_of() == self.pattern.span_of(),
            same_clause(self.pattern, r.pattern),
    {
        Clause { usages: self.usages.saturating_add(1), pattern: self.pattern.copy() }
    }

    fn copy(&self) -> (r: Clause)
        ensures
            r.usages == self.usages,
            r.pattern.span_of() == self.pattern.span_of(),
            same_clause(self.pattern, r.pattern),
    {
        Clause { usages: self.usages, pattern: self.pattern.copy() }
    }
}

/// Why a match is not exhaustive, or not tidy.
pub enum Error {
    /// Clauses that no value reaches.
    RedundantClauses(Vec<ClausePattern>),
    /// Patterns that no clause covers.
    NotCovered(Vec<IdealPattern>),
    /// A clause's constructor is given the wrong number of arguments.
    MalformedPattern { ideal_arg_len: usize, clause_arg_len: usize, malformed_pattern: ClausePattern },
    /// The search ran out of its recursion allowance.
    Exhausted,
}

/// A constructor of the matched type, with the types of its arguments.
pub struct Constructor {
    pub name: QualifiedProperName,
    pub arguments: Vec<Type>,
}

/// For each hole of the search, the constructors that may fill it.
pub type CoverageEnv = Vec<(usize, Vec<Constructor>)>;

/// A substitution of patterns for holes.
pub type Subst = Vec<(usize, IdealPattern)>;

/// Whether `b` is a copy of `a`: the same name and argument types.
pub open spec fn same_constructor(a: Constructor, b: Constructor) -> bool {
    &&& a.name@ == b.name@
    &&& a.arguments@.len() == b.arguments@.len()
    &&& forall|j: int| 0 <= j < a.arguments@.len() ==> (#[trigger] a.arguments@[j])@ == b.arguments@[j]@
}

/// Whether `b` is a copy of `a`, constructor by constructor.
pub open spec fn same_constructors(a: Seq<Constructor>, b: Seq<Constructor>) -> bool {
    &&& a.len() == b.len()
    &&& forall|i: int| 0 <= i < a.len() ==> same_constructor(#[trigger] a[i], b[i])
}

fn copy_constructors(v: &Vec<Constructor>) -> (r: Vec<Constructor>)
    ensures
        same_constructors(v@, r@),
{
    let mut out: Vec<Constructor> = Vec::new();
    let mut i: usize = 0;
    while i < v.len()
        invariant
            i <= v@.len(),
            out@.len() == i,
            forall|k: int| 0 <= k < i ==> same_constructor(#[trigger] v@[k], out@[k]),
        decreases v@.len() - i,
    {
        let mut args: Vec<Type> = Vec::new();
        let mut j: usize = 0;
        while j < v[i].arguments.len()
            invariant
                i < v@.len(),
                j <= v@[i as int].arguments@.len(),
                args@.len() == j,
                forall|k: int| 0 <= k < j ==> (#[trigger] args@[k])@ == v@[i as int].arguments@[k]@,
            decreases v@[i as int].arguments@.len() - j,
        {
            args.push(copy_type(&v[i].arguments[j]));
            j = j + 1;
        }
        out.push(Constructor { name: v[i].name.copy(), arguments: args });
        i = i + 1;
    }
    out
}

/// Whether `b` is a copy of the coverage environment `a`: the same holes, in
/// the same order, with copies of their constructors.
pub open spec fn same_env(a: Seq<(usize, Vec<Constructor>)>, b: Seq<(usize, Vec<Constructor>)>) -> bool {
    &&& a.len() == b.len()
    &&& forall|i: int| 0 <= i < a.len() ==> (#[trigger] a[i]).0 == b[i].0 && same_constructors(a[i].1@, b[i].1@)
}

fn copy_env(env: &CoverageEnv) -> (r: CoverageEnv)
    ensures
        same_env(env@, r@),
{
    let mut out: CoverageEnv = Vec::new();
    let mut i: usize = 0;
    while i < env.len()
        invariant
            i <= env@.len(),
            out@.len() == i,
            forall|k: int| 0 <= k < i ==> (#[trigger] env@[k]).0 == out@[k].0 && same_constructors(
                env@[k].1@,
                out@[k].1@,
            ),
        decreases env@.len() - i,
    {
        out.push((env[i].0, copy_constructors(&env[i].1)));
        i = i + 1;
    }
    out
}

/// Gives hole `key` the constructors `constructors`, replacing what it had.
fn env_insert(env: &mut CoverageEnv, key: usize, constructors: Vec<Constructor>)
    ensures
        final(env)@ == key_put(old(env)@, key, constructors),
{
    let mut i: usize = 0;
    while i < env.len()
        invariant
            i <= env@.len(),
            env@ == old(env)@,
            forall|j: int| 0 <= j < i ==> env@[j].0 != key,
        decreases env@.len() - i,
    {
        if env[i].0 == key {
            proof {
                lemma_first_key(env@, key, i as int);
            }
            env.set(i, (key, constructors));
            return;
        }
        i = i + 1;
    }
    proof {
        lemma_no_key(env@, key);
    }
    env.push((key, constructors));
}

/// The constructors of hole `key`, if it has any.
fn env_get<'a>(env: &'a CoverageEnv, key: usize) -> (r: Option<&'a Vec<Constructor>>)
    ensures
        r == match first_key(env@, key) {
            Some(i) => Some(&env@[i].1),
            None => None::<&Vec<Constructor>>,
        },
{
    let mut i: usize = 0;
    while i < env.len()
        invariant
            i <= env@.len(),
            forall|j: int| 0 <= j < i ==> env@[j].0 != key,
        decreases env@.len() - i,
    {
        if env[i].0 == key {
            proof {
                lemma_first_key(env@, key, i as int);
            }
            return Some(&env[i].1);
        }
        i = i + 1;
    }
    proof {
        lemma_no_key(env@, key);
    }
    None
}

impl Constructor {
    /// Given the constructor `Just [Maybe(Int)]`, the ideal pattern `Just(_)`
    /// and, for its new hole, the constructors of `Maybe(Int)`.
    pub fn to_pattern(
        &self,
        supply: &mut Supply,
        env_constructors: &Vec<(QualifiedProperName, EnvConstructor)>,
    ) -> (r: (IdealPattern, CoverageEnv))
        ensures
            r.1@.len() == self.arguments@.len(),
            match r.0 {
                IdealPattern::Constructor { constructor, arguments } => constructor@ == self.name.value@
                    && arguments@.len() == self.arguments@.len(),
                _ => false,
            },
    {
        let mut env: CoverageEnv = Vec::new();
        let mut pattern_arguments: Vec<IdealPattern> = Vec::new();
        let mut i: usize = 0;
        while i < self.arguments.len()
            invariant
                i <= self.arguments@.len(),
                env@.len() == i,
                pattern_arguments@.len() == i,
            decreases self.arguments@.len() - i,
        {
            let fresh_name = supply.fresh();
            let constructors = constructors_for_type(&self.arguments[i], env_constructors);
            env.push((fresh_name, constructors));
            pattern_arguments.push(IdealPattern::Variable { var: fresh_name });
            i = i + 1;
        }
        (IdealPattern::Constructor { constructor: self.name.value.copy(), arguments: pattern_arguments }, env)
    }
}

/// The canonical name of the type that a constructor's type builds.
/// The name of the type that a constructor's type builds: the type
/// constructor at its head, after any parameters.
pub open spec fn built_type_name(t: TypeV) -> Option<crate::types::FQProperNameV>
    decreases t,
{
    match t {
        TypeV::Constructor { canonical_value, .. } => Some(canonical_value),
        TypeV::Call { function, .. } => built_type_name(*function),
        TypeV::Function { return_type, .. } => built_type_name(*return_type),
        _ => None,
    }
}

fn get_canonical_value(constructor_type: &Type) -> (r: Option<&crate::names::FullyQualifiedProperName>)
    ensures
        match r {
            Some(c) => built_type_name(constructor_type@) == Some(c@),
            None => built_type_name(constructor_type@) is None,
        },
    decreases constructor_type,
{
    match constructor_type {
        Type::Constructor { canonical_value, .. } => Some(canonical_value),
        Type::Call { function, .. } => get_canonical_value(function),
        Type::Function { return_type, .. } => get_canonical_value(return_type),
        _ => None,
    }
}

/// Whether two types are the same.
pub fn type_eq(a: &Type, b: &Type) -> (r: bool)
    ensures
        r == (a@ == b@),
{
    crate::types::types_equal(a, b)
}

/// The type constructor of a matched type, with its arguments where it is
/// applied to some.
pub open spec fn matched_type(t: TypeV) -> Option<(crate::types::FQProperNameV, Option<Seq<TypeV>>)> {
    match t {
        TypeV::Call { function, arguments } => match *function {
            TypeV::Constructor { canonical_value, .. } => Some((canonical_value, Some(arguments))),
            _ => None,
        },
        TypeV::Constructor { canonical_value, .. } => Some((canonical_value, None)),
        _ => None,
    }
}

/// The specific argument paired with the last of the first `k` generic
/// arguments that is `arg`, if one is.
pub open spec fn last_match(arg: TypeV, generic: Seq<TypeV>, specific: Seq<TypeV>, k: nat) -> Option<TypeV>
    decreases k,
{
    if k == 0 {
        None
    } else if generic[k - 1] == arg {
        Some(specific[k - 1])
    } else {
        last_match(arg, generic, specific, (k - 1) as nat)
    }
}

/// A parameter of a constructor, with a generic argument of its type replaced
/// by the specific one it stands for.
pub open spec fn specialise(parameter: TypeV, generic: Option<Seq<TypeV>>, specific: Option<Seq<TypeV>>) -> TypeV {
    match (generic, specific) {
        (Some(g), Some(s)) => match last_match(parameter, g, s, if g.len() < s.len() { g.len() } else { s.len() }) {
            Some(t) => t,
            None => parameter,
        },
        _ => parameter,
    }
}

/// The argument types of a constructor whose type is `signature`, specialised
/// to the `specific` arguments of the matched type.
pub open spec fn constructor_arguments(signature: TypeV, specific: Option<Seq<TypeV>>) -> Seq<TypeV> {
    match signature {
        TypeV::Function { parameters, return_type } => {
            let generic = match specific {
                Some(_) => match *return_type {
                    TypeV::Call { arguments, .. } => Some(arguments),
                    _ => None,
                },
                None => None,
            };
            parameters.map_values(|p: TypeV| specialise(p, generic, specific))
        },
        _ => Seq::empty(),
    }
}

/// The view of a [Constructor]: its name and argument types.
pub open spec fn constructor_view(c: Constructor) -> (crate::types::QProperNameV, Seq<TypeV>) {
    (c.name@, c.arguments@.map_values(|t: Type| t@))
}

/// The constructors among `env` of the type named `want`, in order, with their
/// argument types specialised.
pub open spec fn constructors_of(
    want: crate::types::FQProperNameV,
    specific: Option<Seq<TypeV>>,
    env: Seq<(QualifiedProperName, EnvConstructor)>,
) -> Seq<(crate::types::QProperNameV, Seq<TypeV>)>
    decreases env.len(),
{
    if env.len() == 0 {
        Seq::empty()
    } else {
        let rest = constructors_of(want, specific, env.drop_last());
        let signature = env.last().1.scheme_of().signature@;
        if built_type_name(signature) == Some(want) {
            rest.push((env.last().0@, constructor_arguments(signature, specific)))
        } else {
            rest
        }
    }
}

/// The constructors of a type, their argument types specialised to the type's arguments.
pub fn constructors_for_type(
    pattern_type: &Type,
    env_constructors: &Vec<(QualifiedProperName, EnvConstructor)>,
) -> (r: Vec<Constructor>)
    ensures
        r@.map_values(|c: Constructor| constructor_view(c)) == match matched_type(pattern_type@) {
            Some((want, specific)) => constructors_of(want, specific, env_constructors@),
            None => Seq::empty(),
        },
{
    let (want, specific_arguments): (&crate::names::FullyQualifiedProperName, Option<&Vec<Type>>) =
        match pattern_type {
        Type::Call { function, arguments } => match &**function {
            Type::Constructor { canonical_value, .. } => {
                proof {
                    assert(pattern_type@ == (TypeV::Call {
                        function: Box::new((**function)@),
                        arguments: arguments@.map_values(|t: Type| t@),
                    })) by {
                        assert(arguments@.map_values(|t: Type| t@) =~= match pattern_type@ {
                            TypeV::Call { arguments: av, .. } => av,
                            _ => Seq::empty(),
                        });
                    }
                }
                (canonical_value, Some(arguments))
            },
            _ => {
                let r: Vec<Constructor> = Vec::new();
                proof {
                    assert(r@.map_values(|c: Constructor| constructor_view(c)) =~= Seq::empty());
                }
                return r;
            },
        },
        Type::Constructor { canonical_value, .. } => (canonical_value, None),
        _ => {
            let r: Vec<Constructor> = Vec::new();
            proof {
                assert(r@.map_values(|c: Constructor| constructor_view(c)) =~= Seq::empty());
            }
            return r;
        },
    };
    let ghost specific: Option<Seq<TypeV>> = match specific_arguments {
        Some(a) => Some(a@.map_values(|t: Type| t@)),
        None => None,
    };
    proof {
        assert(matched_type(pattern_type@) == Some((want@, specific)));
    }
    let mut out: Vec<Constructor> = Vec::new();
    let mut i: usize = 0;
    while i < env_constructors.len()
        invariant
            i <= env_constructors@.len(),
            match specific_arguments {
                Some(a) => specific == Some(a@.map_values(|t: Type| t@)),
                None => specific is None,
            },
            out@.map_values(|c: Constructor| constructor_view(c)) == constructors_of(
                want@,
                specific,
                env_constructors@.take(i as int),
            ),
        decreases env_constructors@.len() - i,
    {
        proof {
            assert(env_constructors@.take(i + 1).drop_last() =~= env_constructors@.take(i as int));
        }
        // The scheme is deliberately not instantiated: there is no need here.
        let constructor_type = &env_constructors[i].1.get_scheme().signature;
        let same = match get_canonical_value(constructor_type) {
            Some(c) => c.eq(want),
            None => false,
        };
        if same {
            let mut arguments: Vec<Type> = Vec::new();
            match constructor_type {
                Type::Function { parameters, return_type } => {
                    let generic_arguments: Option<&Vec<Type>> = match specific_arguments {
                        Some(_) => match &**return_type {
                            Type::Call { arguments: g, .. } => Some(g),
                            _ => None,
                        },
                        None => None,
                    };
                    let ghost generic: Option<Seq<TypeV>> = match generic_arguments {
                        Some(g) => Some(g@.map_values(|t: Type| t@)),
                        None => None,
                    };
                    proof {
                        match (*return_type)@ {
                            TypeV::Call { arguments: ga, .. } => {
                                if generic_arguments is Some {
                                    assert(ga =~= generic->0);
                                }
                            },
                            _ => {},
                        }
                    }
                    let mut j: usize = 0;
                    while j < parameters.len()
                        invariant
                            j <= parameters@.len(),
                            arguments@.len() == j,
                            forall|q: int|
                                0 <= q < j ==> (#[trigger] arguments@[q])@ == specialise(
                                    parameters@[q]@,
                                    generic,
                                    specific,
                                ),
                            match generic_arguments {
                                Some(g) => generic == Some(g@.map_values(|t: Type| t@)),
                                None => generic is None,
                            },
                            match specific_arguments {
                                Some(a) => specific == Some(a@.map_values(|t: Type| t@)),
                                None => specific is None,
                            },
                        decreases parameters@.len() - j,
                    {
                        let arg = &parameters[j];
                        let mut replaced: Option<Type> = None;
                        match (generic_arguments, specific_arguments) {
                            (Some(g), Some(s)) => {
                                // Pairs of generic and specific arguments; the last
                                // pair with a matching generic argument wins.
                                let ghost gv = g@.map_values(|t: Type| t@);
                                let ghost sv = s@.map_values(|t: Type| t@);
                                let mut k: usize = 0;
                                while k < g.len() && k < s.len()
                                    invariant
                                        k <= g@.len(),
                                        k <= s@.len(),
                                        gv == g@.map_values(|t: Type| t@),
                                        sv == s@.map_values(|t: Type| t@),
                                        match replaced {
                                            Some(t) => last_match(arg@, gv, sv, k as nat) == Some(t@),
                                            None => last_match(arg@, gv, sv, k as nat) is None,
                                        },
                                    decreases g@.len() - k,
                                {
                                    if type_eq(&g[k], arg) {
                                        replaced = Some(copy_type(&s[k]));
                                    }
                                    k = k + 1;
                                }
                            },
                            _ => {},
                        }
                        match replaced {
                            Some(t) => arguments.push(t),
                            None => arguments.push(copy_type(arg)),
                        }
                        j = j + 1;
                    }
                    proof {
                        let sig = constructor_type@;
                        assert(arguments@.map_values(|t: Type| t@) =~= constructor_arguments(sig, specific));
                    }
                },
                _ => {
                    proof {
                        assert(arguments@.map_values(|t: Type| t@) =~= constructor_arguments(constructor_type@, specific));
                    }
                },
            }
            let c = Constructor { name: env_constructors[i].0.copy(), arguments };
            out.push(c);
            proof {
                assert(out@.map_values(|c: Constructor| constructor_view(c)) =~= constructors_of(
                    want@,
                    specific,
                    env_constructors@.take(i as int),
                ).push(constructor_view(c)));
            }
        } else {
            proof {
                assert(out@.map_values(|c: Constructor| constructor_view(c)) =~= constructors_of(
                    want@,
                    specific,
                    env_constructors@.take(i + 1),
                ));
            }
        }
        i = i + 1;
    }
    proof {
        assert(env_constructors@.take(env_constructors@.len() as int) =~= env_constructors@);
    }
    out
}

/// Whether the clauses of a match cover every value of `pattern_type`: `None`
/// when they do and each is reachable, else what is wrong.
pub fn is_exhaustive(
    env_constructors: &Vec<(QualifiedProperName, EnvConstructor)>,
    pattern_type: &Type,
    patterns: Vec<ClausePattern>,
) -> (r: Option<Error>)
    ensures
        patterns@.len() == 1 && patterns@[0] is Variable ==> r is None,
        patterns@.len() > 1 && patterns@[0] is Variable ==> match r {
            Some(Error::RedundantClauses(ps)) => ps@.len() == patterns@.len() - 1,
            _ => false,
        },
        match r {
            Some(Error::NotCovered(ps)) => ps@.len() > 0,
            Some(Error::RedundantClauses(ps)) => ps@.len() > 0,
            _ => true,
        },
        some_catch_all(patterns@) ==> !(r matches Some(Error::NotCovered(_))),
        patterns@.len() == 0 ==> match r {
            Some(Error::NotCovered(ps)) => ps@.len() == 1 && render_ideal(ps@[0]) == "_"@,
            _ => false,
        },
        forall|i: int, j: int|
            0 <= i < j < patterns@.len() && #[trigger] generalizes(patterns@[i], patterns@[j]) ==> match r {
                None => false,
                Some(Error::RedundantClauses(ps)) => lists_clause(ps@, patterns@[j]),
                _ => true,
            },
{
    let mut supply = Supply(0);
    let mut env: CoverageEnv = Vec::new();
    let fresh_name = supply.fresh();
    let constructors = constructors_for_type(pattern_type, env_constructors);
    env.push((fresh_name, constructors));
    let ideal = IdealPattern::Variable { var: fresh_name };
    match check_coverage(&env, env_constructors, &mut supply, &ideal, patterns) {
        Ok(()) => None,
        Err(e) => Some(e),
    }
}

/// Whether some clause pattern of `ps` is a variable, which every value fits.
pub open spec fn some_catch_all(ps: Seq<ClausePattern>) -> bool {
    exists|k: int| 0 <= k < ps.len() && (#[trigger] ps[k]) is Variable
}

/// Whether some pattern of `ps` is a copy of `c`.
pub open spec fn lists_clause(ps: Seq<ClausePattern>, c: ClausePattern) -> bool {
    exists|k: int| 0 <= k < ps.len() && same_clause(c, #[trigger] ps[k])
}

/// Searches for patterns the clauses leave uncovered, then for clauses never used.
///
/// A clause that an earlier one generalizes (the same constructors where the
/// earlier one has constructors, whatever where it has variables) is never
/// reached: unless the search fails or finds patterns that no clause covers,
/// it is reported among the redundant clauses, whatever the first clause is.
pub fn check_coverage(
    env: &CoverageEnv,
    env_constructors: &Vec<(QualifiedProperName, EnvConstructor)>,
    supply: &mut Supply,
    ideal: &IdealPattern,
    clause_patterns: Vec<ClausePattern>,
) -> (r: Result<(), Error>)
    ensures
        clause_patterns@.len() == 1 && clause_patterns@[0] is Variable ==> r is Ok,
        clause_patterns@.len() > 1 && clause_patterns@[0] is Variable ==> match r {
            Err(Error::RedundantClauses(ps)) => ps@.len() == clause_patterns@.len() - 1,
            _ => false,
        },
        match r {
            Err(Error::NotCovered(ps)) => ps@.len() > 0,
            Err(Error::RedundantClauses(ps)) => ps@.len() > 0,
            _ => true,
        },
        some_catch_all(clause_patterns@) ==> !(r matches Err(Error::NotCovered(_))),
        clause_patterns@.len() == 0 ==> match r {
            Err(Error::NotCovered(ps)) => ps@.len() == 1 && render_ideal(ps@[0]) == render_ideal(*ideal),
            _ => false,
        },
        forall|i: int, j: int|
            0 <= i < j < clause_patterns@.len() && #[trigger] generalizes(clause_patterns@[i], clause_patterns@[j])
                ==> match r {
                Ok(()) => false,
                Err(Error::RedundantClauses(ps)) => lists_clause(ps@, clause_patterns@[j]),
                _ => true,
            },
{
    let mut clauses: Vec<Clause> = Vec::new();
    let mut patterns = clause_patterns;
    while patterns.len() > 0
        invariant
            clauses@.len() + patterns@.len() == clause_patterns@.len(),
            forall|j: int| 0 <= j < clauses@.len() ==> (#[trigger] clauses@[j]).usages == 0,
            clauses@.len() == 0 ==> patterns@ == clause_patterns@,
            clauses@.len() > 0 ==> clauses@[0].pattern == clause_patterns@[0],
            patterns@ == clause_patterns@.subrange(clauses@.len() as int, clause_patterns@.len() as int),
            forall|j: int| 0 <= j < clauses@.len() ==> (#[trigger] clauses@[j]).pattern == clause_patterns@[j],
        decreases patterns@.len(),
    {
        let p = patterns.remove(0);
        clauses.push(Clause::new(p));
    }
    proof {
        assert forall|i: int, j: int|
            0 <= i < j < clause_patterns@.len() && #[trigger] generalizes(
                clause_patterns@[i],
                clause_patterns@[j],
            ) implies shadowed(*ideal, clauses@, 0, j) by {
            assert forall|x: IdealPattern| #[trigger] fits(x, clause_patterns@[j]) implies fits(
                x,
                clause_patterns@[i],
            ) by {
                lemma_generalizes_subsumes(clause_patterns@[i], clause_patterns@[j], x);
            }
            assert(clauses@[i].pattern == clause_patterns@[i]);
            assert(clauses@[j].pattern == clause_patterns@[j]);
            assert(subsumes(clauses@[i].pattern, clauses@[j].pattern));
        }
    }
    let mut not_covered: Vec<IdealPattern> = Vec::new();
    proof {
        if clause_patterns@.len() == 0 {
            assert(clauses@.len() == 0);
        }
        if some_catch_all(clause_patterns@) {
            let k = choose|k: int| 0 <= k < clause_patterns@.len() && (#[trigger] clause_patterns@[k]) is Variable;
            assert(clauses@[k].pattern == clause_patterns@[k]);
            assert(has_catch_all(clauses@, 0));
        }
    }
    let checked_clauses = covered_by(env, env_constructors, supply, ideal, &clauses, 0, &mut not_covered, COVERAGE_FUEL)?;
    if not_covered.len() != 0 {
        return Err(Error::NotCovered(not_covered));
    }
    let mut unused_patterns: Vec<ClausePattern> = Vec::new();
    let mut i: usize = 0;
    while i < checked_clauses.len()
        invariant
            i <= checked_clauses@.len(),
            clauses@.len() == clause_patterns@.len(),
            copied_clauses(clauses@, checked_clauses@),
            forall|j: int| 0 <= j < clauses@.len() ==> (#[trigger] clauses@[j]).pattern == clause_patterns@[j],
            forall|j: int|
                0 <= j < i && (#[trigger] checked_clauses@[j]).usages < 1 ==> lists_clause(
                    unused_patterns@,
                    clause_patterns@[j],
                ),
            clause_patterns@.len() >= 1 && clause_patterns@[0] is Variable ==> {
                &&& checked_clauses@.len() == clause_patterns@.len()
                &&& checked_clauses@[0].usages >= 1
                &&& forall|j: int| 1 <= j < checked_clauses@.len() ==> (#[trigger] checked_clauses@[j]).usages == 0
                &&& unused_patterns@.len() == if i == 0 { 0 } else { i - 1 }
            },
        decreases checked_clauses@.len() - i,
    {
        let ghost before = unused_patterns@;
        if checked_clauses[i].usages < 1 {
            unused_patterns.push(checked_clauses[i].pattern.copy());
        }
        proof {
            if checked_clauses@[i as int].usages < 1 {
                let c = unused_patterns@[before.len() as int];
                assert(same_clause(clauses@[i as int].pattern, checked_clauses@[i as int].pattern));
                lemma_same_clause_trans(clause_patterns@[i as int], checked_clauses@[i as int].pattern, c);
                assert(lists_clause(unused_patterns@, clause_patterns@[i as int]));
            }
            assert forall|j: int|
                0 <= j < i + 1 && (#[trigger] checked_clauses@[j]).usages < 1 implies lists_clause(
                unused_patterns@,
                clause_patterns@[j],
            ) by {
                if j < i {
                    assert(lists_clause(before, clause_patterns@[j]));
                    let k = choose|k: int| 0 <= k < before.len() && same_clause(clause_patterns@[j], #[trigger] before[k]);
                    assert(unused_patterns@[k] == before[k]);
                }
            }
        }
        i = i + 1;
    }
    if unused_patterns.len() == 0 {
        Ok(())
    } else {
        Err(Error::RedundantClauses(unused_patterns))
    }
}

/// The errors that the search itself raises: a pattern of the wrong arity,
/// or running out of its allowance.
pub open spec fn search_error(e: Error) -> bool {
    e is MalformedPattern || e is Exhausted
}

/// Refines `ideal` until the clauses from `from` on cover it, recording what no
/// clause covers; returns the clauses (all of them) with their usage counts.
fn covered_by(
    env: &CoverageEnv,
    env_constructors: &Vec<(QualifiedProperName, EnvConstructor)>,
    supply: &mut Supply,
    ideal: &IdealPattern,
    clauses: &Vec<Clause>,
    from: usize,
    not_covered: &mut Vec<IdealPattern>,
    fuel: u64,
) -> (r: Result<Vec<Clause>, Error>)
    ensures
        fuel > 0 && from < clauses@.len() && clauses@[from as int].pattern is Variable ==> match r {
            Ok(cs) => {
                &&& cs@.len() == clauses@.len()
                &&& cs@[from as int].usages >= 1
                &&& forall|i: int| 0 <= i < cs@.len() && i != from ==> (#[trigger] cs@[i]).usages == clauses@[i].usages
                &&& final(not_covered)@ == old(not_covered)@
            },
            Err(_) => false,
        },
        r matches Err(e) ==> search_error(e),
        fuel > 0 && from >= clauses@.len() ==> {
            &&& r is Ok
            &&& final(not_covered)@.len() == old(not_covered)@.len() + 1
            &&& render_ideal(final(not_covered)@.last()) == render_ideal(*ideal)
        },
        has_catch_all(clauses@, from as int) && r is Ok ==> final(not_covered)@ == old(not_covered)@,
        r matches Ok(cs) ==> {
            &&& copied_clauses(clauses@, cs@)
            &&& forall|j: int|
                0 <= j < clauses@.len() && (j < from || shadowed(*ideal, clauses@, from as int, j)) ==> (
                #[trigger] cs@[j]).usages == clauses@[j].usages
        },
    decreases fuel,
{
    if fuel == 0 {
        return Err(Error::Exhausted);
    }
    let f = fuel - 1;
    if from < clauses.len() {
        let clause = &clauses[from];
        match has_subst(supply, ideal, &clause.pattern, COVERAGE_FUEL)? {
            Some(subst) => {
                match is_injective(&subst) {
                    None => {
                        proof {
                            if shadowed(*ideal, clauses@, from as int, from as int) {
                                let k = choose|k: int|
                                    0 <= k < from && #[trigger] subsumes(clauses@[k].pattern, clauses@[from as int].pattern)
                                        && (k >= from || !fits(*ideal, clauses@[k].pattern));
                                assert(fits(*ideal, clauses@[from as int].pattern));
                                assert(fits(*ideal, clauses@[k].pattern));
                            }
                        }
                        let mut checked: Vec<Clause> = Vec::new();
                        let mut i: usize = 0;
                        while i < clauses.len()
                            invariant
                                i <= clauses@.len(),
                                from < clauses@.len(),
                                checked@.len() == i,
                                from < i ==> checked@[from as int].usages >= 1,
                                forall|j: int| 0 <= j < i && j != from ==> (#[trigger] checked@[j]).usages == clauses@[j].usages,
                                forall|k: int| 0 <= k < i ==> same_clause(#[trigger] clauses@[k].pattern, checked@[k].pattern),
                            decreases clauses@.len() - i,
                        {
                            if i == from {
                                checked.push(clauses[i].use_clause());
                            } else {
                                checked.push(clauses[i].copy());
                            }
                            i = i + 1;
                        }
                        Ok(checked)
                    },
                    Some(fresh_name) => {
                        proof {
                            if clauses@[from as int].pattern is Variable {
                                let w = choose|w: int|
                                    0 <= w < subst@.len() && subst@[w].0 == fresh_name && subst@[w].1 is Constructor;
                                assert(subst@[w].1 is Variable);
                            }
                        }
                        let constructors = match env_get(env, fresh_name) {
                            Some(c) => copy_constructors(c),
                            None => Vec::new(),
                        };
                        let mut result: Vec<Clause> = copy_clauses(clauses);
                        let mut i: usize = 0;
                        while i < constructors.len()
                            invariant
                                i <= constructors@.len(),
                                f < fuel,
                                from < clauses@.len(),
                                !(clauses@[from as int].pattern is Variable),
                                copied_clauses(clauses@, result@),
                                forall|j: int|
                                    0 <= j < clauses@.len() && (j < from || shadowed(*ideal, clauses@, from as int, j))
                                        ==> (#[trigger] result@[j]).usages == clauses@[j].usages,
                                has_catch_all(clauses@, from as int) ==> not_covered@ == old(not_covered)@,
                            decreases constructors@.len() - i,
                        {
                            let (new_ideal, new_env) = constructors[i].to_pattern(supply, env_constructors);
                            let new_subst = singleton_subst(fresh_name, new_ideal);
                            let new_ideal = apply(&new_subst, ideal, COVERAGE_FUEL);
                            let mut env2 = copy_env(env);
                            let mut new_env = new_env;
                            while new_env.len() > 0
                                invariant
                                    true,
                                decreases new_env@.len(),
                            {
                                let (k, v) = new_env.remove(0);
                                env_insert(&mut env2, k, v);
                            }
                            let ghost before = result@;
                            result = covered_by(&env2, env_constructors, supply, &new_ideal, &result, from, not_covered, f)?;
                            proof {
                                if has_catch_all(clauses@, from as int) {
                                    let k = choose|k: int|
                                        from <= k < clauses@.len() && (#[trigger] clauses@[k]).pattern is Variable;
                                    assert(same_clause(clauses@[k].pattern, before[k].pattern));
                                    assert(has_catch_all(before, from as int));
                                }
                                lemma_refine_step(*ideal, new_ideal, clauses@, before, result@, from as int);
                            }
                            i = i + 1;
                        }
                        Ok(result)
                    },
                }
            },
            None => {
                let r = covered_by(env, env_constructors, supply, ideal, clauses, from + 1, not_covered, f);
                proof {
                    if has_catch_all(clauses@, from as int) {
                        let k = choose|k: int| from <= k < clauses@.len() && (#[trigger] clauses@[k]).pattern is Variable;
                        assert(fits(*ideal, clauses@[k].pattern));
                        assert(k != from);
                        assert(has_catch_all(clauses@, from + 1));
                    }
                    assert forall|j: int|
                        0 <= j < clauses@.len() && (j < from || shadowed(*ideal, clauses@, from as int, j)) implies (j
                        < from + 1 || shadowed(*ideal, clauses@, from + 1, j)) by {
                        if j >= from + 1 {
                            let k = choose|k: int|
                                0 <= k < j && #[trigger] subsumes(clauses@[k].pattern, clauses@[j].pattern) && (k >= from
                                    || !fits(*ideal, clauses@[k].pattern));
                            assert(subsumes(clauses@[k].pattern, clauses@[j].pattern));
                        }
                    }
                }
                r
            },
        }
    } else {
        not_covered.push(ideal.copy());
        Ok(copy_clauses(clauses))
    }
}

/// Refining the ideal pattern keeps every shadowed clause shadowed, and the
/// search's copies of the clauses stay copies.
proof fn lemma_refine_step(
    ideal: IdealPattern,
    new_ideal: IdealPattern,
    clauses: Seq<Clause>,
    r1: Seq<Clause>,
    r2: Seq<Clause>,
    from: int,
)
    requires
        instance_of(new_ideal, ideal),
        copied_clauses(clauses, r1),
        copied_clauses(r1, r2),
        forall|j: int|
            0 <= j < clauses.len() && (j < from || shadowed(ideal, clauses, from, j)) ==> (#[trigger] r1[j]).usages
                == clauses[j].usages,
        forall|j: int|
            0 <= j < r1.len() && (j < from || shadowed(new_ideal, r1, from, j)) ==> (#[trigger] r2[j]).usages
                == r1[j].usages,
    ensures
        copied_clauses(clauses, r2),
        forall|j: int|
            0 <= j < clauses.len() && (j < from || shadowed(ideal, clauses, from, j)) ==> (#[trigger] r2[j]).usages
                == clauses[j].usages,
{
    assert forall|k: int| 0 <= k < clauses.len() implies same_clause(#[trigger] clauses[k].pattern, r2[k].pattern) by {
        assert(same_clause(clauses[k].pattern, r1[k].pattern));
        assert(same_clause(r1[k].pattern, r2[k].pattern));
        lemma_same_clause_trans(clauses[k].pattern, r1[k].pattern, r2[k].pattern);
    }
    assert forall|j: int|
        0 <= j < clauses.len() && (j < from || shadowed(ideal, clauses, from, j)) implies (#[trigger] r2[j]).usages
        == clauses[j].usages by {
        assert(r1[j].usages == clauses[j].usages);
        if j >= from {
            let k = choose|k: int|
                0 <= k < j && #[trigger] subsumes(clauses[k].pattern, clauses[j].pattern) && (k >= from || !fits(
                    ideal,
                    clauses[k].pattern,
                ));
            assert(same_clause(clauses[k].pattern, r1[k].pattern));
            assert(same_clause(clauses[j].pattern, r1[j].pattern));
            lemma_subsumes_copies(clauses[k].pattern, clauses[j].pattern, r1[k].pattern, r1[j].pattern);
            if k < from {
                lemma_instance_unfit(ideal, new_ideal, clauses[k].pattern);
                lemma_same_clause_fits(clauses[k].pattern, r1[k].pattern, new_ideal);
            }
            assert(subsumes(r1[k].pattern, r1[j].pattern));
            assert(shadowed(new_ideal, r1, from, j));
        }
        assert(r2[j].usages == r1[j].usages);
    }
}

fn copy_clauses(clauses: &Vec<Clause>) -> (r: Vec<Clause>)
    ensures
        r@.len() == clauses@.len(),
        copied_clauses(clauses@, r@),
        forall|k: int| 0 <= k < clauses@.len() ==> (#[trigger] r@[k]).usages == clauses@[k].usages,
{
    let mut out: Vec<Clause> = Vec::new();
    let mut i: usize = 0;
    while i < clauses.len()
        invariant
            i <= clauses@.len(),
            out@.len() == i,
            forall|k: int| 0 <= k < i ==> same_clause(#[trigger] clauses@[k].pattern, out@[k].pattern),
            forall|k: int| 0 <= k < i ==> (#[trigger] out@[k]).usages == clauses@[k].usages,
        decreases clauses@.len() - i,
    {
        out.push(clauses[i].copy());
        i = i + 1;
    }
    out
}

/// The substitution of one pattern for one hole.
pub fn singleton_subst(fresh_name: usize, ideal_pattern: IdealPattern) -> (r: Subst)
    ensures
        r@.len() == 1,
        r@[0].0 == fresh_name,
        r@[0].1 == ideal_pattern,
{
    let mut s: Subst = Vec::new();
    s.push((fresh_name, ideal_pattern));
    s
}

/// Where `var` is bound in a substitution.
fn subst_position(subst: &Subst, var: usize) -> (r: Option<usize>)
    ensures
        match r {
            Some(i) => i < subst@.len() && subst@[i as int].0 == var && first_key(subst@, var) == Some(i as int),
            None => (forall|i: int| 0 <= i < subst@.len() ==> subst@[i].0 != var) && first_key(subst@, var) is None,
        },
{
    let mut i: usize = 0;
    while i < subst.len()
        invariant
            i <= subst@.len(),
            forall|j: int| 0 <= j < i ==> subst@[j].0 != var,
        decreases subst@.len() - i,
    {
        if subst[i].0 == var {
            proof {
                lemma_first_key(subst@, var, i as int);
            }
            return Some(i);
        }
        i = i + 1;
    }
    proof {
        lemma_no_key(subst@, var);
    }
    None
}

/// Adds the bindings of `more` to `subst`, each replacing one of the same hole.
fn subst_extend(subst: &mut Subst, more: Subst)
    ensures
        final(subst)@ == key_put_all(old(subst)@, more@),
{
    let ghost m0 = more@;
    let mut more = more;
    while more.len() > 0
        invariant
            key_put_all(subst@, more@) == key_put_all(old(subst)@, m0),
        decreases more@.len(),
    {
        let ghost before = subst@;
        let ghost m = more@;
        let (k, v) = more.remove(0);
        proof {
            assert(more@ =~= m.drop_first());
        }
        match subst_position(subst, k) {
            Some(i) => subst.set(i, (k, v)),
            None => subst.push((k, v)),
        }
        proof {
            assert(subst@ =~= key_put(before, k, v));
        }
    }
}

/// How a clause pattern fits an ideal pattern: `None` when it does not, else the
/// substitution that turns the ideal pattern into the clause's.
#[verifier::loop_isolation(false)]
pub fn has_subst(supply: &mut Supply, ideal: &IdealPattern, clause_pattern: &ClausePattern, fuel: u64) -> (r: Result<
    Option<Subst>,
    Error,
>)
    ensures
        r matches Err(e) ==> search_error(e),
        r matches Ok(o) ==> (o is Some <==> fits(*ideal, *clause_pattern)),
        fuel > 0 ==> match (*ideal, *clause_pattern) {
            (IdealPattern::Variable { var }, _) => match r {
                Ok(Some(s)) => s@.len() == 1 && s@[0].0 == var && shaped_like(*clause_pattern, s@[0].1) && (old(
                    supply,
                ).0 + clause_holes(*clause_pattern) <= usize::MAX ==> ideal_holes(s@[0].1) == numbered_from(
                    old(supply).0 as int,
                    clause_holes(*clause_pattern),
                )),
                _ => false,
            },
            (IdealPattern::Constructor { .. }, ClausePattern::Variable { .. }) => match r {
                Ok(Some(s)) => s@.len() == 0,
                _ => false,
            },
            (
                IdealPattern::Constructor { constructor: ic, arguments: ia },
                ClausePattern::Constructor { constructor: cc, arguments: ca, .. },
            ) => if ic@ != cc@ {
                r == Ok::<Option<Subst>, Error>(None)
            } else if ia@.len() != ca@.len() {
                match r {
                    Err(Error::MalformedPattern { ideal_arg_len, clause_arg_len, malformed_pattern }) => ideal_arg_len
                        == ia@.len() && clause_arg_len == ca@.len() && malformed_pattern.span_of()
                        == clause_pattern.span_of() && same_clause(*clause_pattern, malformed_pattern),
                    _ => false,
                }
            } else if ia@.len() == 0 {
                match r {
                    Ok(Some(s)) => s@.len() == 0,
                    _ => false,
                }
            } else {
                true
            },
        },
        fuel > 0 && clause_pattern is Variable ==> match r {
            Ok(Some(s)) => forall|i: int| 0 <= i < s@.len() ==> (#[trigger] s@[i]).1 is Variable,
            _ => false,
        },
    decreases fuel,
{
    if fuel == 0 {
        return Err(Error::Exhausted);
    }
    let f = fuel - 1;
    match (ideal, clause_pattern) {
        (IdealPattern::Variable { var: fresh_name }, clause_pattern) => {
            let subst = singleton_subst(*fresh_name, IdealPattern::from_clause(clause_pattern, supply));
            Ok(Some(subst))
        },
        (
            IdealPattern::Constructor { constructor: ideal_constructor, arguments: ideal_arguments },
            ClausePattern::Constructor { constructor: clause_constructor, arguments: clause_arguments, .. },
        ) => {
            if !ideal_constructor.eq(clause_constructor) {
                return Ok(None);
            }
            if ideal_arguments.len() != clause_arguments.len() {
                return Err(
                    Error::MalformedPattern {
                        ideal_arg_len: ideal_arguments.len(),
                        clause_arg_len: clause_arguments.len(),
                        malformed_pattern: clause_pattern.copy(),
                    },
                );
            }
            let mut subst: Subst = Vec::new();
            if ideal_arguments.len() == 0 {
                return Ok(Some(subst));
            }
            let mut i: usize = 0;
            while i < ideal_arguments.len()
                invariant
                    i <= ideal_arguments@.len(),
                    ideal_arguments@.len() == clause_arguments@.len(),
                    f < fuel,
                    forall|k: int| 0 <= k < i ==> fits(ideal_arguments@[k], #[trigger] clause_arguments@[k]),
                decreases ideal_arguments@.len() - i,
            {
                match has_subst(supply, &ideal_arguments[i], &clause_arguments[i], f)? {
                    Some(arg_subst) => subst_extend(&mut subst, arg_subst),
                    None => {
                        return Ok(None);
                    },
                }
                i = i + 1;
            }
            Ok(Some(subst))
        },
        (IdealPattern::Constructor { .. }, ClausePattern::Variable { .. }) => Ok(Some(Vec::new())),
    }
}

/// A substitution is injective (one-to-one) when it holds only holes: `None`
/// then, else the first hole bound to a constructor.
pub fn is_injective(subst: &Subst) -> (r: Option<usize>)
    ensures
        match r {
            None => forall|i: int| 0 <= i < subst@.len() ==> subst@[i].1 is Variable,
            Some(v) => exists|i: int| 0 <= i < subst@.len() && subst@[i].0 == v && subst@[i].1 is Constructor,
        },
{
    let mut i: usize = 0;
    while i < subst.len()
        invariant
            i <= subst@.len(),
            forall|j: int| 0 <= j < i ==> subst@[j].1 is Variable,
        decreases subst@.len() - i,
    {
        match &subst[i].1 {
            IdealPattern::Constructor { .. } => {
                return Some(subst[i].0);
            },
            IdealPattern::Variable { .. } => {},
        }
        i = i + 1;
    }
    None
}

fn subst_get<'a>(subst: &'a Subst, var: usize) -> (r: Option<&'a IdealPattern>)
    ensures
        match r {
            Some(p) => exists|i: int| 0 <= i < subst@.len() && subst@[i].0 == var && subst@[i].1 == *p,
            None => forall|i: int| 0 <= i < subst@.len() ==> subst@[i].0 != var,
        },
{
    let mut i: usize = 0;
    while i < subst.len()
        invariant
            i <= subst@.len(),
            forall|j: int| 0 <= j < i ==> subst@[j].0 != var,
        decreases subst@.len() - i,
    {
        if subst[i].0 == var {
            return Some(&subst[i].1);
        }
        i = i + 1;
    }
    None
}

/// Fills the holes of `ideal` that `subst` binds, recursively.
pub fn apply(subst: &Subst, ideal: &IdealPattern, fuel: u64) -> (r: IdealPattern)
    ensures
        instance_of(r, *ideal),
        fuel > 0 ==> match *ideal {
            IdealPattern::Variable { var } => (forall|i: int| 0 <= i < subst@.len() ==> subst@[i].0 != var) ==> r
                == (IdealPattern::Variable { var }),
            IdealPattern::Constructor { constructor, arguments } => match r {
                IdealPattern::Constructor { constructor: c, arguments: a } => c@ == constructor@ && a@.len()
                    == arguments@.len(),
                _ => false,
            },
        },
    decreases fuel,
{
    if fuel == 0 {
        return ideal.copy();
    }
    let f = fuel - 1;
    match ideal {
        IdealPattern::Variable { var } => match subst_get(subst, *var) {
            Some(pattern) => apply(subst, pattern, f),
            None => IdealPattern::Variable { var: *var },
        },
        IdealPattern::Constructor { constructor, arguments } => {
            let mut out: Vec<IdealPattern> = Vec::new();
            let mut i: usize = 0;
            while i < arguments.len()
                invariant
                    i <= arguments@.len(),
                    out@.len() == i,
                    f < fuel,
                    forall|j: int| 0 <= j < i ==> instance_of(#[trigger] out@[j], arguments@[j]),
                decreases arguments@.len() - i,
            {
                out.push(apply(subst, &arguments[i], f));
                i = i + 1;
            }
            IdealPattern::Constructor { constructor: constructor.copy(), arguments: out }
        },
    }
}

/// Sorts strings by length first, then alphabetically.
pub fn sort_by_length_then_text(v: &mut Vec<String>)
    ensures
        crate::text::sorted_by_text(true, final(v)@),
        final(v)@.to_multiset() == old(v)@.to_multiset(),
{
    crate::text::sort_by_text(true, v);
}

} // verus!
