//! Applying a substitution to every type of a typed expression.
use crate::ast::{type_of, Argument, Effect, Expression, FunctionBinder, Pattern};
use crate::names::{copy_string, Name, Span};
use crate::substitution::{apply_spec, opt_type_view, Substitution, APPLY_FUEL};
use crate::types::{Type, TypeV};
use vstd::prelude::*;

verus! {

/// Whether an expression keeps its type in a field of its own (rather than
/// building it from its parts, as functions and records do).
pub open spec fn has_own_type(e: Expression) -> bool {
    !(e is Function) && !(e is Record) && !(e is Effect)
}

/// The two typed expressions differ at most in their types: same spans,
/// kinds, literal values, labels, names of variables and constructors,
/// binders and patterns, part for part.
pub open spec fn same_shape(a: Expression, b: Expression) -> bool
    decreases a, 1nat,
{
    &&& b.span_of() == a.span_of()
    &&& match a {
        Expression::Function { binders, body, .. } => match b {
            Expression::Function { binders: bs, body: bb, .. } => {
                &&& bs@.len() == binders@.len()
                &&& forall|i: int| 0 <= i < binders@.len() ==> same_binder(#[trigger] binders@[i], bs@[i])
                &&& same_shape(*body, *bb)
            },
            _ => false,
        },
        Expression::Call { function, arguments, .. } => match b {
            Expression::Call { function: f, arguments: args, .. } => {
                &&& same_shape(*function, *f)
                &&& args@.len() == arguments@.len()
                &&& forall|i: int| 0 <= i < arguments@.len() ==> argument_same_shape(#[trigger] arguments@[i], args@[i])
            },
            _ => false,
        },
        Expression::If { condition, true_clause, false_clause, .. } => match b {
            Expression::If { condition: c, true_clause: t, false_clause: f, .. } => same_shape(*condition, *c)
                && same_shape(*true_clause, *t) && same_shape(*false_clause, *f),
            _ => false,
        },
        Expression::Match { expression, arms, .. } => match b {
            Expression::Match { expression: x, arms: bs, .. } => {
                &&& same_shape(*expression, *x)
                &&& bs@.len() == arms@.len()
                &&& forall|i: int|
                    0 <= i < arms@.len() ==> same_pattern((#[trigger] arms@[i]).0, bs@[i].0) && same_shape(
                        arms@[i].1,
                        bs@[i].1,
                    )
            },
            _ => false,
        },
        Expression::Effect { effect, .. } => match b {
            Expression::Effect { effect: ef, .. } => effect_same_shape(effect, ef),
            _ => false,
        },
        Expression::LocalConstructor { constructor, .. } => match b {
            Expression::LocalConstructor { constructor: c, .. } => c@ == constructor@,
            _ => false,
        },
        Expression::ImportedConstructor { constructor, .. } => match b {
            Expression::ImportedConstructor { constructor: c, .. } => c@ == constructor@,
            _ => false,
        },
        Expression::LocalVariable { variable, .. } => match b {
            Expression::LocalVariable { variable: v, .. } => v@ == variable@,
            _ => false,
        },
        Expression::ForeignVariable { variable, .. } => match b {
            Expression::ForeignVariable { variable: v, .. } => v@ == variable@,
            _ => false,
        },
        Expression::ImportedVariable { variable, .. } => match b {
            Expression::ImportedVariable { variable: v, .. } => v@ == variable@,
            _ => false,
        },
        Expression::Record { fields, .. } => match b {
            Expression::Record { fields: fs, .. } => {
                &&& fs@.len() == fields@.len()
                &&& forall|i: int|
                    0 <= i < fields@.len() ==> fs@[i].0@ == (#[trigger] fields@[i]).0@ && same_shape(fields@[i].1, fs@[i].1)
            },
            _ => false,
        },
        Expression::RecordAccess { target, label, .. } => match b {
            Expression::RecordAccess { target: t, label: l, .. } => same_shape(*target, *t) && l@ == label@,
            _ => false,
        },
        Expression::String { value, .. } => match b {
            Expression::String { value: v, .. } => v@ == value@,
            _ => false,
        },
        Expression::Int { value, .. } => match b {
            Expression::Int { value: v, .. } => v@ == value@,
            _ => false,
        },
        Expression::Float { value, .. } => match b {
            Expression::Float { value: v, .. } => v@ == value@,
            _ => false,
        },
        Expression::Array { elements, .. } => match b {
            Expression::Array { elements: es, .. } => {
                &&& es@.len() == elements@.len()
                &&& forall|i: int| 0 <= i < elements@.len() ==> same_shape(#[trigger] elements@[i], es@[i])
            },
            _ => false,
        },
        Expression::True { .. } => b is True,
        Expression::False { .. } => b is False,
        Expression::Unit { .. } => b is Unit,
    }
}

/// The two binders differ at most in their types.
pub open spec fn same_binder(a: FunctionBinder, b: FunctionBinder) -> bool {
    match (a, b) {
        (FunctionBinder::Name { span: s1, value: v1, .. }, FunctionBinder::Name { span: s2, value: v2, .. }) => s1
            == s2 && v1@ == v2@,
        (FunctionBinder::Unused { span: s1, value: v1, .. }, FunctionBinder::Unused { span: s2, value: v2, .. }) => s1
            == s2 && v1@ == v2@,
        _ => false,
    }
}

/// The two patterns are the same: same spans, kinds and names, part for part.
pub open spec fn same_pattern(a: Pattern, b: Pattern) -> bool
    decreases a,
{
    match a {
        Pattern::LocalConstructor { span, constructor, arguments } => match b {
            Pattern::LocalConstructor { span: s, constructor: c, arguments: args } => {
                &&& s == span
                &&& c@ == constructor@
                &&& args@.len() == arguments@.len()
                &&& forall|i: int| 0 <= i < arguments@.len() ==> same_pattern(#[trigger] arguments@[i], args@[i])
            },
            _ => false,
        },
        Pattern::ImportedConstructor { span, constructor, arguments } => match b {
            Pattern::ImportedConstructor { span: s, constructor: c, arguments: args } => {
                &&& s == span
                &&& c@ == constructor@
                &&& args@.len() == arguments@.len()
                &&& forall|i: int| 0 <= i < arguments@.len() ==> same_pattern(#[trigger] arguments@[i], args@[i])
            },
            _ => false,
        },
        Pattern::Variable { span, name } => match b {
            Pattern::Variable { span: s, name: n } => s == span && n@ == name@,
            _ => false,
        },
        Pattern::Unused { span, unused_name } => match b {
            Pattern::Unused { span: s, unused_name: n } => s == span && n@ == unused_name@,
            _ => false,
        },
    }
}

/// The two arguments differ at most in their types.
pub open spec fn argument_same_shape(a: Argument, b: Argument) -> bool
    decreases a, 0nat,
{
    match a {
        Argument::Expression(x) => match b {
            Argument::Expression(y) => same_shape(x, y),
        },
    }
}

/// The two effect blocks differ at most in their types.
pub open spec fn effect_same_shape(a: Effect, b: Effect) -> bool
    decreases a, 0nat,
{
    match a {
        Effect::Return { expression } => match b {
            Effect::Return { expression: x } => same_shape(*expression, *x),
            _ => false,
        },
        Effect::Expression { expression, rest } => match b {
            Effect::Expression { expression: x, rest: r } => same_shape(*expression, *x) && match rest {
                Some(ar) => match r {
                    Some(br) => effect_same_shape(*ar, *br),
                    None => false,
                },
                None => r is None,
            },
            _ => false,
        },
        Effect::Bind { name, expression, rest } => match b {
            Effect::Bind { name: n, expression: x, rest: r } => n@ == name@ && same_shape(*expression, *x)
                && effect_same_shape(*rest, *r),
            _ => false,
        },
    }
}

/// Whether applying `s` to `t` has a result (see [apply_spec]).
pub open spec fn applies(s: Map<usize, TypeV>, t: TypeV) -> bool {
    apply_spec(s, t, 0, APPLY_FUEL as nat) is Some
}

/// Whether applying `s` has a result for every type that an expression
/// holds, leaving out the expressions that effect blocks return.
pub open spec fn applies_throughout(s: Map<usize, TypeV>, e: Expression) -> bool
    decreases e, 1nat,
{
    match e {
        Expression::Function { binders, body, .. } => {
            &&& forall|i: int| 0 <= i < binders@.len() ==> applies(s, (#[trigger] binders@[i]).binder_type_view())
            &&& applies_throughout(s, *body)
        },
        Expression::Call { call_type, function, arguments, .. } => {
            &&& applies(s, call_type@)
            &&& applies_throughout(s, *function)
            &&& forall|i: int| 0 <= i < arguments@.len() ==> argument_applies_throughout(s, #[trigger] arguments@[i])
        },
        Expression::If { output_type, condition, true_clause, false_clause, .. } => {
            &&& applies(s, output_type@)
            &&& applies_throughout(s, *condition)
            &&& applies_throughout(s, *true_clause)
            &&& applies_throughout(s, *false_clause)
        },
        Expression::Match { match_type, expression, arms, .. } => {
            &&& applies(s, match_type@)
            &&& applies_throughout(s, *expression)
            &&& forall|i: int| 0 <= i < arms@.len() ==> applies_throughout(s, (#[trigger] arms@[i]).1)
        },
        Expression::Effect { return_type, effect, .. } => applies(s, return_type@) && effect_applies_throughout(
            s,
            effect,
        ),
        Expression::LocalConstructor { constructor_type, .. } => applies(s, constructor_type@),
        Expression::ImportedConstructor { constructor_type, .. } => applies(s, constructor_type@),
        Expression::LocalVariable { variable_type, .. } => applies(s, variable_type@),
        Expression::ForeignVariable { variable_type, .. } => applies(s, variable_type@),
        Expression::ImportedVariable { variable_type, .. } => applies(s, variable_type@),
        Expression::Record { fields, .. } => forall|i: int|
            0 <= i < fields@.len() ==> applies_throughout(s, (#[trigger] fields@[i]).1),
        Expression::RecordAccess { field_type, target, .. } => applies(s, field_type@) && applies_throughout(
            s,
            *target,
        ),
        Expression::String { value_type, .. } => applies(s, value_type@),
        Expression::Int { value_type, .. } => applies(s, value_type@),
        Expression::Float { value_type, .. } => applies(s, value_type@),
        Expression::Array { element_type, elements, value_type, .. } => {
            &&& applies(s, element_type@)
            &&& forall|i: int| 0 <= i < elements@.len() ==> applies_throughout(s, #[trigger] elements@[i])
            &&& applies(s, value_type@)
        },
        Expression::True { value_type, .. } => applies(s, value_type@),
        Expression::False { value_type, .. } => applies(s, value_type@),
        Expression::Unit { value_type, .. } => applies(s, value_type@),
    }
}

/// [applies_throughout] for an argument.
pub open spec fn argument_applies_throughout(s: Map<usize, TypeV>, a: Argument) -> bool
    decreases a, 0nat,
{
    match a {
        Argument::Expression(x) => applies_throughout(s, x),
    }
}

/// [applies_throughout] for the statements of an effect block; the expression
/// it returns is left out.
pub open spec fn effect_applies_throughout(s: Map<usize, TypeV>, e: Effect) -> bool
    decreases e, 0nat,
{
    match e {
        Effect::Return { .. } => true,
        Effect::Bind { expression, rest, .. } => applies_throughout(s, *expression) && effect_applies_throughout(
            s,
            *rest,
        ),
        Effect::Expression { expression, rest } => applies_throughout(s, *expression) && match rest {
            Some(r) => effect_applies_throughout(s, *r),
            None => true,
        },
    }
}

fn copy_pattern(p: &Pattern) -> (r: Pattern)
    ensures
        r.span_of() == p.span_of(),
        same_pattern(*p, r),
    decreases p,
{
    match p {
        Pattern::LocalConstructor { span, constructor, arguments } => {
            let mut out: Vec<Pattern> = Vec::new();
            let mut i: usize = 0;
            while i < arguments.len()
                invariant
                    *p == (Pattern::LocalConstructor { span: *span, constructor: *constructor, arguments: *arguments }),
                    i <= arguments@.len(),
                    out@.len() == i,
                    forall|k: int| 0 <= k < i ==> same_pattern(#[trigger] arguments@[k], out@[k]),
                decreases arguments@.len() - i,
            {
                proof {
                    assert(decreases_to!(*p => (*p)->LocalConstructor_arguments));
                    assert(decreases_to!(*arguments => arguments@));
                    assert(decreases_to!(arguments@ => arguments@[i as int]));
                }
                out.push(copy_pattern(&arguments[i]));
                i = i + 1;
            }
            Pattern::LocalConstructor { span: *span, constructor: constructor.copy(), arguments: out }
        },
        Pattern::ImportedConstructor { span, constructor, arguments } => {
            let mut out: Vec<Pattern> = Vec::new();
            let mut i: usize = 0;
            while i < arguments.len()
                invariant
                    *p == (Pattern::ImportedConstructor {
                        span: *span,
                        constructor: *constructor,
                        arguments: *arguments,
                    }),
                    i <= arguments@.len(),
                    out@.len() == i,
                    forall|k: int| 0 <= k < i ==> same_pattern(#[trigger] arguments@[k], out@[k]),
                decreases arguments@.len() - i,
            {
                proof {
                    assert(decreases_to!(*p => (*p)->ImportedConstructor_arguments));
                    assert(decreases_to!(*arguments => arguments@));
                    assert(decreases_to!(arguments@ => arguments@[i as int]));
                }
                out.push(copy_pattern(&arguments[i]));
                i = i + 1;
            }
            Pattern::ImportedConstructor { span: *span, constructor: constructor.copy(), arguments: out }
        },
        Pattern::Variable { span, name } => Pattern::Variable { span: *span, name: name.copy() },
        Pattern::Unused { span, unused_name } => Pattern::Unused { span: *span, unused_name: unused_name.copy() },
    }
}

impl Substitution {
    fn apply_type(&self, t: &Type, keep: bool) -> (r: Option<Type>)
        ensures
            keep ==> opt_type_view(r) == Some(t@),
            !keep ==> opt_type_view(r) == apply_spec(self@, t@, 0, APPLY_FUEL as nat),
    {
        if keep {
            Some(crate::types::copy_type(t))
        } else {
            self.try_apply(t)
        }
    }

    /// Applies this substitution to every type of an expression; an empty
    /// substitution leaves the expression as it is.
    ///
    /// `None` exactly where applying to one of its types has no result (see
    /// [apply_spec] and [applies_throughout]).
    /// Where the expression keeps its type in a field of its own, the result's
    /// type is that type with the substitution applied.
    pub fn apply_expression(&self, expression: Expression) -> (r: Option<Expression>)
        ensures
            self@.dom().len() == 0 ==> r == Some(expression),
            self@.dom().len() != 0 ==> (r is Some <==> applies_throughout(self@, expression)),
            self@.dom().len() != 0 ==> match r {
                Some(e) => e.span_of() == expression.span_of() && has_own_type(e) == has_own_type(expression) && (has_own_type(expression) ==> Some(type_of(e))
                    == apply_spec(self@, type_of(expression), 0, APPLY_FUEL as nat)) && same_shape(expression, e),
                None => true,
            },
    {
        if self.is_empty() {
            return Some(expression);
        }
        self.apply_expression_ref(&expression, false)
    }

    /// Applies this substitution to every type of an expression, or, with `keep`,
    /// copies the expression as it is, which always succeeds.
    #[verifier::rlimit(100)]
    #[verifier::spinoff_prover]
    fn apply_expression_ref(&self, expression: &Expression, keep: bool) -> (r: Option<Expression>)
        ensures
            keep ==> r is Some,
            !keep ==> (r is Some <==> applies_throughout(self@, *expression)),
            match r {
                Some(e) => e.span_of() == expression.span_of() && has_own_type(e) == has_own_type(*expression) && (has_own_type(*expression) ==> if keep {
                    type_of(e) == type_of(*expression)
                } else {
                    Some(type_of(e)) == apply_spec(self@, type_of(*expression), 0, APPLY_FUEL as nat)
                }) && same_shape(*expression, e),
                None => true,
            },
        decreases expression, 1nat, expression,
    {
        match expression {
            Expression::Call { call_type, span, function, arguments } => {
                let call_type = self.apply_type(call_type, keep)?;
                let function = self.apply_expression_ref(function, keep)?;
                let mut out: Vec<Argument> = Vec::new();
                let mut i: usize = 0;
                while i < arguments.len()
                    invariant
                        *expression == (Expression::Call {
                            span: *span,
                            call_type: (*expression)->call_type,
                            function: (*expression)->Call_function,
                            arguments: *arguments,
                        }),
                        i <= arguments@.len(),
                        out@.len() == i,
                        forall|j: int| 0 <= j < i ==> argument_same_shape(#[trigger] arguments@[j], out@[j]),
                        !keep ==> forall|j: int| 0 <= j < i ==> argument_applies_throughout(self@, #[trigger] arguments@[j]),
                    decreases arguments@.len() - i,
                {
                    proof {
                        assert(decreases_to!(*expression => (*expression)->Call_arguments));
                        assert(decreases_to!(*arguments => arguments@));
                        assert(decreases_to!(arguments@ => arguments@[i as int]));
                    }
                    match &arguments[i] {
                        Argument::Expression(e) => {
                            proof {
                                assert(decreases_to!(arguments@[i as int] => *e));
                                assert(argument_applies_throughout(self@, arguments@[i as int]) == applies_throughout(
                                    self@,
                                    *e,
                                ));
                            }
                            let a = self.apply_expression_ref(e, keep)?;
                            out.push(Argument::Expression(a));
                        },
                    }
                    i = i + 1;
                }
                Some(Expression::Call { call_type, span: *span, function: Box::new(function), arguments: out })
            },
            Expression::Function { span, binders, body } => {
                let mut out: Vec<FunctionBinder> = Vec::new();
                let mut i: usize = 0;
                while i < binders.len()
                    invariant
                        *expression == (Expression::Function {
                            span: *span,
                            binders: *binders,
                            body: (*expression)->Function_body,
                        }),
                        i <= binders@.len(),
                        out@.len() == i,
                        !keep ==> forall|j: int| 0 <= j < i ==> applies(self@, (#[trigger] binders@[j]).binder_type_view()),
                        forall|j: int| 0 <= j < i ==> same_binder(#[trigger] binders@[j], out@[j]),
                    decreases binders@.len() - i,
                {
                    let b = match &binders[i] {
                        FunctionBinder::Name { span, binder_type, value } => FunctionBinder::Name {
                            span: *span,
                            binder_type: self.apply_type(binder_type, keep)?,
                            value: value.copy(),
                        },
                        FunctionBinder::Unused { span, binder_type, value } => FunctionBinder::Unused {
                            span: *span,
                            binder_type: self.apply_type(binder_type, keep)?,
                            value: value.copy(),
                        },
                    };
                    out.push(b);
                    i = i + 1;
                }
                let body = self.apply_expression_ref(body, keep)?;
                Some(Expression::Function { span: *span, binders: out, body: Box::new(body) })
            },
            Expression::If { span, output_type, condition, true_clause, false_clause } => {
                let output_type = self.apply_type(output_type, keep)?;
                let condition = self.apply_expression_ref(condition, keep)?;
                let true_clause = self.apply_expression_ref(true_clause, keep)?;
                let false_clause = self.apply_expression_ref(false_clause, keep)?;
                Some(
                    Expression::If {
                        span: *span,
                        output_type,
                        condition: Box::new(condition),
                        true_clause: Box::new(true_clause),
                        false_clause: Box::new(false_clause),
                    },
                )
            },
            Expression::Match { span, match_type, expression: matched, arms } => {
                let match_type = self.apply_type(match_type, keep)?;
                let matched = self.apply_expression_ref(matched, keep)?;
                let mut out: Vec<(Pattern, Expression)> = Vec::new();
                let mut i: usize = 0;
                while i < arms.len()
                    invariant
                        *expression == (Expression::Match {
                            span: *span,
                            match_type: (*expression)->match_type,
                            expression: (*expression)->Match_expression,
                            arms: *arms,
                        }),
                        i <= arms@.len(),
                        out@.len() == i,
                        forall|j: int| 0 <= j < i ==> same_pattern(#[trigger] arms@[j].0, out@[j].0) && same_shape(
                            arms@[j].1,
                            out@[j].1,
                        ),
                        !keep ==> forall|j: int| 0 <= j < i ==> applies_throughout(self@, (#[trigger] arms@[j]).1),
                    decreases arms@.len() - i,
                {
                    proof {
                        assert(decreases_to!(*expression => (*expression)->arms));
                        assert(decreases_to!(*arms => arms@));
                        assert(decreases_to!(arms@ => arms@[i as int]));
                        assert(decreases_to!(arms@[i as int] => arms@[i as int].1));
                    }
                    let e = self.apply_expression_ref(&arms[i].1, keep)?;
                    let cp = copy_pattern(&arms[i].0);
                    let ghost prev = out@;
                    proof {
                        assert(same_pattern(arms@[i as int].0, cp));
                        assert(same_shape(arms@[i as int].1, e));
                    }
                    out.push((cp, e));
                    proof {
                        assert(out@[i as int] == (cp, e));
                    }
                    i = i + 1;
                    proof {
                        assert forall|j: int| 0 <= j < i implies same_pattern(#[trigger] arms@[j].0, out@[j].0)
                            && same_shape(arms@[j].1, out@[j].1) by {
                            if j < i - 1 {
                                assert(out@[j] == prev[j]);
                                assert(same_pattern(arms@[j].0, prev[j].0));
                                assert(same_shape(arms@[j].1, prev[j].1));
                            }
                        }
                    }
                }
                Some(Expression::Match { span: *span, match_type, expression: Box::new(matched), arms: out })
            },
            Expression::Effect { span, return_type, effect } => {
                let return_type = self.apply_type(return_type, keep)?;
                let effect = self.apply_effect(expression, effect, keep)?;
                Some(Expression::Effect { span: *span, return_type, effect })
            },
            Expression::LocalConstructor { constructor_type, span, constructor } => Some(
                Expression::LocalConstructor {
                    constructor_type: self.apply_type(constructor_type, keep)?,
                    span: *span,
                    constructor: constructor.copy(),
                },
            ),
            Expression::ImportedConstructor { constructor_type, span, constructor } => Some(
                Expression::ImportedConstructor {
                    constructor_type: self.apply_type(constructor_type, keep)?,
                    span: *span,
                    constructor: constructor.copy(),
                },
            ),
            Expression::LocalVariable { variable_type, span, variable } => Some(
                Expression::LocalVariable {
                    variable_type: self.apply_type(variable_type, keep)?,
                    span: *span,
                    variable: variable.copy(),
                },
            ),
            Expression::ForeignVariable { variable_type, span, variable } => Some(
                Expression::ForeignVariable {
                    variable_type: self.apply_type(variable_type, keep)?,
                    span: *span,
                    variable: variable.copy(),
                },
            ),
            Expression::ImportedVariable { variable_type, span, variable } => Some(
                Expression::ImportedVariable {
                    variable_type: self.apply_type(variable_type, keep)?,
                    span: *span,
                    variable: variable.copy(),
                },
            ),
            Expression::Array { span, element_type, elements, value_type } => {
                let element_type = self.apply_type(element_type, keep)?;
                let mut out: Vec<Expression> = Vec::new();
                let mut i: usize = 0;
                while i < elements.len()
                    invariant
                        *expression == (Expression::Array {
                            span: *span,
                            element_type: (*expression)->element_type,
                            elements: *elements,
                            value_type: (*expression)->Array_value_type,
                        }),
                        i <= elements@.len(),
                        out@.len() == i,
                        forall|j: int| 0 <= j < i ==> same_shape(#[trigger] elements@[j], out@[j]),
                        !keep ==> forall|j: int| 0 <= j < i ==> applies_throughout(self@, #[trigger] elements@[j]),
                    decreases elements@.len() - i,
                {
                    proof {
                        assert(decreases_to!(*expression => (*expression)->elements));
                        assert(decreases_to!(*elements => elements@));
                        assert(decreases_to!(elements@ => elements@[i as int]));
                    }
                    let e = self.apply_expression_ref(&elements[i], keep)?;
                    out.push(e);
                    i = i + 1;
                }
                let value_type = self.apply_type(value_type, keep)?;
                Some(Expression::Array { span: *span, element_type, elements: out, value_type })
            },
            Expression::Record { span, fields } => {
                let mut out: Vec<(Name, Expression)> = Vec::new();
                let mut i: usize = 0;
                while i < fields.len()
                    invariant
                        *expression == (Expression::Record { span: *span, fields: *fields }),
                        i <= fields@.len(),
                        out@.len() == i,
                        forall|j: int|
                            0 <= j < i ==> out@[j].0@ == (#[trigger] fields@[j]).0@ && same_shape(fields@[j].1, out@[j].1),
                        !keep ==> forall|j: int| 0 <= j < i ==> applies_throughout(self@, (#[trigger] fields@[j]).1),
                    decreases fields@.len() - i,
                {
                    proof {
                        assert(decreases_to!(*expression => (*expression)->Record_fields));
                        assert(decreases_to!(*fields => fields@));
                        assert(decreases_to!(fields@ => fields@[i as int]));
                        assert(decreases_to!(fields@[i as int] => fields@[i as int].1));
                    }
                    let e = self.apply_expression_ref(&fields[i].1, keep)?;
                    out.push((fields[i].0.copy(), e));
                    i = i + 1;
                }
                Some(Expression::Record { span: *span, fields: out })
            },
            Expression::RecordAccess { span, field_type, target, label } => {
                let field_type = self.apply_type(field_type, keep)?;
                let target = self.apply_expression_ref(target, keep)?;
                Some(Expression::RecordAccess { span: *span, field_type, target: Box::new(target), label: label.copy() })
            },
            Expression::True { span, value_type } => Some(
                Expression::True { span: *span, value_type: self.apply_type(value_type, keep)? },
            ),
            Expression::False { span, value_type } => Some(
                Expression::False { span: *span, value_type: self.apply_type(value_type, keep)? },
            ),
            Expression::Unit { span, value_type } => Some(
                Expression::Unit { span: *span, value_type: self.apply_type(value_type, keep)? },
            ),
            Expression::String { span, value, value_type } => Some(
                Expression::String {
                    span: *span,
                    value: copy_string(value),
                    value_type: self.apply_type(value_type, keep)?,
                },
            ),
            Expression::Int { span, value, value_type } => Some(
                Expression::Int { span: *span, value: copy_string(value), value_type: self.apply_type(value_type, keep)? },
            ),
            Expression::Float { span, value, value_type } => Some(
                Expression::Float {
                    span: *span,
                    value: copy_string(value),
                    value_type: self.apply_type(value_type, keep)?,
                },
            ),
        }
    }

    /// Applies this substitution to the expressions of an effect block. The
    /// expression that a block returns is left as it is. With `keep` the whole
    /// effect is copied as it is, which always succeeds.
    fn apply_effect(&self, parent: &Expression, effect: &Effect, keep: bool) -> (r: Option<Effect>)
        requires
            decreases_to!(*parent => *effect),
        ensures
            keep ==> r is Some,
            !keep ==> (r is Some <==> effect_applies_throughout(self@, *effect)),
            *effect is Return ==> r is Some,
            match r {
                Some(e) => effect_same_shape(*effect, e),
                None => true,
            },
        decreases parent, 0nat, effect,
    {
        match effect {
            Effect::Return { expression } => {
                proof {
                    assert(decreases_to!(*effect => (*effect)->Return_expression));
                }
                let e = self.apply_expression_ref(expression, true)?;
                Some(Effect::Return { expression: Box::new(e) })
            },
            Effect::Bind { name, expression, rest } => {
                proof {
                    assert(decreases_to!(*effect => (*effect)->Bind_expression));
                    assert(decreases_to!(*effect => (*effect)->Bind_rest));
                }
                let e = self.apply_expression_ref(expression, keep)?;
                let rest = self.apply_effect(parent, rest, keep)?;
                Some(Effect::Bind { name: name.copy(), expression: Box::new(e), rest: Box::new(rest) })
            },
            Effect::Expression { expression, rest } => {
                proof {
                    assert(decreases_to!(*effect => (*effect)->Expression_expression));
                }
                let e = self.apply_expression_ref(expression, keep)?;
                match rest {
                    Some(rest) => {
                        proof {
                            assert(decreases_to!(*effect => (*effect)->Expression_rest));
                        }
                        let rest = self.apply_effect(parent, rest, keep)?;
                        Some(Effect::Expression { expression: Box::new(e), rest: Some(Box::new(rest)) })
                    },
                    None => Some(Effect::Expression { expression: Box::new(e), rest: None }),
                }
            },
        }
    }
}

} // verus!
