//! The expressions that type checking takes in: parsed, with their type
//! annotations already checked and turned into types.
use crate::names::{Name, QualifiedName, QualifiedProperName, Span, UnusedName};
use crate::text::push_char;
use crate::types::Type;
use vstd::prelude::*;
use vstd::string::*;

verus! {

/// A parameter of a function expression, with its type annotation if any.
pub enum FunctionBinder {
    Name { span: Span, type_annotation: Option<Type>, value: Name },
    Unused { span: Span, type_annotation: Option<Type>, value: UnusedName },
}

/// An argument of a call.
pub enum Argument {
    Expression(Expression),
}

/// A pattern of a match arm.
pub enum Pattern {
    Constructor { span: Span, constructor: QualifiedProperName, arguments: Vec<Pattern> },
    Variable { span: Span, name: Name },
    Unused { span: Span, unused_name: UnusedName },
}

impl Pattern {
    pub open spec fn span_of(&self) -> Span {
        match *self {
            Pattern::Constructor { span, .. } => span,
            Pattern::Variable { span, .. } => span,
            Pattern::Unused { span, .. } => span,
        }
    }

    /// Where this pattern is.
    pub fn get_span(&self) -> (r: Span)
        ensures
            r == self.span_of(),
    {
        match self {
            Pattern::Constructor { span, .. } => *span,
            Pattern::Variable { span, .. } => *span,
            Pattern::Unused { span, .. } => *span,
        }
    }
}

/// The statements of an effect block.
pub enum Effect {
    Bind { name: Name, name_span: Span, expression: Box<Expression>, rest: Box<Effect> },
    Expression { expression: Box<Expression>, rest: Option<Box<Effect>> },
    Return { expression: Box<Expression> },
}

/// An expression to type check. A match has at least one arm: the head arm.
pub enum Expression {
    Function {
        span: Span,
        binders: Vec<FunctionBinder>,
        return_type_annotation: Option<Type>,
        body: Box<Expression>,
    },
    Call { span: Span, function: Box<Expression>, arguments: Vec<Argument> },
    If { span: Span, condition: Box<Expression>, true_clause: Box<Expression>, false_clause: Box<Expression> },
    Constructor { span: Span, constructor: QualifiedProperName },
    Match {
        span: Span,
        expression: Box<Expression>,
        head_arm: Box<(Pattern, Expression)>,
        tail_arms: Vec<(Pattern, Expression)>,
    },
    Effect { span: Span, effect: Effect },
    Variable { span: Span, variable: QualifiedName },
    String { span: Span, value: String },
    Int { span: Span, value: String },
    Float { span: Span, value: String },
    Array { span: Span, elements: Vec<Expression> },
    Record { span: Span, fields: Vec<(Name, Expression)> },
    RecordAccess { span: Span, target: Box<Expression>, label: Name },
    True { span: Span },
    False { span: Span },
    Unit { span: Span },
}

impl Expression {
    /// Where this expression is.
    pub open spec fn span_of(&self) -> Span {
        match *self {
            Expression::Function { span, .. } => span,
            Expression::Call { span, .. } => span,
            Expression::If { span, .. } => span,
            Expression::Constructor { span, .. } => span,
            Expression::Match { span, .. } => span,
            Expression::Effect { span, .. } => span,
            Expression::Variable { span, .. } => span,
            Expression::String { span, .. } => span,
            Expression::Int { span, .. } => span,
            Expression::Float { span, .. } => span,
            Expression::Array { span, .. } => span,
            Expression::Record { span, .. } => span,
            Expression::RecordAccess { span, .. } => span,
            Expression::True { span } => span,
            Expression::False { span } => span,
            Expression::Unit { span } => span,
        }
    }
}

/// Desugars `lhs |> rhs`: a call on the right takes `lhs` as its first argument;
/// anything else is called with `lhs` alone.
pub fn pipe(lhs: Expression, rhs: Expression) -> (r: Expression)
    ensures
        match rhs {
            Expression::Call { span, function, arguments } => match r {
                Expression::Call { span: s2, function: f2, arguments: a2 } => s2 == span && f2 == function
                    && a2@.len() == arguments@.len() + 1 && a2@[0] == Argument::Expression(lhs) && a2@.subrange(
                    1,
                    a2@.len() as int,
                ) == arguments@,
                _ => false,
            },
            _ => match r {
                Expression::Call { function: f2, arguments: a2, .. } => *f2 == rhs && a2@ == seq![
                    Argument::Expression(lhs),
                ],
                _ => false,
            },
        },
{
    match rhs {
        Expression::Call { span, function, arguments } => {
            let ghost original = arguments@;
            let mut all: Vec<Argument> = Vec::new();
            all.push(Argument::Expression(lhs));
            let mut rest = arguments;
            all.append(&mut rest);
            proof {
                assert(all@.subrange(1, all@.len() as int) =~= original);
            }
            Expression::Call { span, function, arguments: all }
        },
        function => {
            let span = match &function {
                Expression::Function { span, .. } => *span,
                Expression::Call { span, .. } => *span,
                Expression::If { span, .. } => *span,
                Expression::Constructor { span, .. } => *span,
                Expression::Match { span, .. } => *span,
                Expression::Effect { span, .. } => *span,
                Expression::Variable { span, .. } => *span,
                Expression::String { span, .. } => *span,
                Expression::Int { span, .. } => *span,
                Expression::Float { span, .. } => *span,
                Expression::Array { span, .. } => *span,
                Expression::Record { span, .. } => *span,
                Expression::RecordAccess { span, .. } => *span,
                Expression::True { span } => *span,
                Expression::False { span } => *span,
                Expression::Unit { span } => *span,
            };
            let mut arguments: Vec<Argument> = Vec::new();
            arguments.push(Argument::Expression(lhs));
            proof {
                assert(arguments@ =~= seq![Argument::Expression(lhs)]);
            }
            Expression::Call { span, function: Box::new(function), arguments }
        },
    }
}

/// The characters of `s` other than `_`, in order.
pub open spec fn without_separators(s: Seq<char>) -> Seq<char>
    decreases s.len(),
{
    if s.len() == 0 {
        s
    } else if s.last() == '_' {
        without_separators(s.drop_last())
    } else {
        without_separators(s.drop_last()).push(s.last())
    }
}

/// Drops the `_` separators of a number literal: `5_50_500` becomes `550500`.
pub fn strip_number_separators(value: String) -> (r: String)
    ensures
        r@ == without_separators(value@),
{
    let s = value.as_str();
    let n = s.unicode_len();
    let mut out = String::new();
    let mut i: usize = 0;
    while i < n
        invariant
            n == s@.len(),
            s@ == value@,
            i <= n,
            out@ == without_separators(s@.subrange(0, i as int)),
        decreases n - i,
    {
        let c = s.get_char(i);
        proof {
            let pre = s@.subrange(0, i as int);
            let post = s@.subrange(0, i + 1);
            assert(post.drop_last() =~= pre);
            assert(post.last() == c);
        }
        if c != '_' {
            push_char(&mut out, c);
        }
        i = i + 1;
    }
    proof {
        assert(s@.subrange(0, n as int) =~= value@);
    }
    out
}

/// Stripping separators leaves none.
pub proof fn stripped_numbers_have_no_separators(s: Seq<char>)
    ensures
        !without_separators(s).contains('_'),
    decreases s.len(),
{
    if s.len() > 0 {
        stripped_numbers_have_no_separators(s.drop_last());
        let r = without_separators(s);
        let init = without_separators(s.drop_last());
        if s.last() != '_' {
            assert(r == init.push(s.last()));
            if r.contains('_') {
                let k = choose|k: int| 0 <= k < r.len() && r[k] == '_';
                if k < init.len() {
                    assert(init[k] == '_');
                }
            }
        }
    }
}

} // verus!
