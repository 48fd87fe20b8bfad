//! The typed AST that type checking produces.
use crate::names::{FullyQualifiedName, FullyQualifiedProperName, Name, ProperName, Span, UnusedName};
use crate::types::{copy_type, type_view, Kind, KindV, PrimType, Type, TypeV};
use vstd::prelude::*;

verus! {

/// A function parameter, with its type.
pub enum FunctionBinder {
    Name { span: Span, binder_type: Type, value: Name },
    Unused { span: Span, binder_type: Type, value: UnusedName },
}

impl FunctionBinder {
    pub open spec fn binder_type_view(&self) -> TypeV {
        match *self {
            FunctionBinder::Name { binder_type, .. } => binder_type@,
            FunctionBinder::Unused { binder_type, .. } => binder_type@,
        }
    }

    /// The type of this parameter.
    pub fn get_type(&self) -> (r: Type)
        ensures
            r@ == self.binder_type_view(),
    {
        match self {
            FunctionBinder::Name { binder_type, .. } => copy_type(binder_type),
            FunctionBinder::Unused { binder_type, .. } => copy_type(binder_type),
        }
    }
}

/// A pattern of a match arm.
pub enum Pattern {
    LocalConstructor { span: Span, constructor: ProperName, arguments: Vec<Pattern> },
    ImportedConstructor { span: Span, constructor: FullyQualifiedProperName, arguments: Vec<Pattern> },
    Variable { span: Span, name: Name },
    Unused { span: Span, unused_name: UnusedName },
}

impl Pattern {
    pub open spec fn span_of(&self) -> Span {
        match *self {
            Pattern::LocalConstructor { span, .. } => span,
            Pattern::ImportedConstructor { span, .. } => span,
            Pattern::Variable { span, .. } => span,
            Pattern::Unused { span, .. } => span,
        }
    }

    /// Where this pattern is.
    pub fn get_span(&self) -> (r: Span)
        ensures
            r == self.span_of(),
    {
        match self {
            Pattern::LocalConstructor { span, .. } => *span,
            Pattern::ImportedConstructor { span, .. } => *span,
            Pattern::Variable { span, .. } => *span,
            Pattern::Unused { span, .. } => *span,
        }
    }
}

/// The statements of an effect block.
pub enum Effect {
    Bind { name: Name, expression: Box<Expression>, rest: Box<Effect> },
    Expression { expression: Box<Expression>, rest: Option<Box<Effect>> },
    Return { expression: Box<Expression> },
}

/// An argument of a call.
pub enum Argument {
    Expression(Expression),
}

/// A typed expression.
pub enum Expression {
    Function { span: Span, binders: Vec<FunctionBinder>, body: Box<Expression> },
    Call { span: Span, call_type: Type, function: Box<Expression>, arguments: Vec<Argument> },
    If {
        span: Span,
        output_type: Type,
        condition: Box<Expression>,
        true_clause: Box<Expression>,
        false_clause: Box<Expression>,
    },
    Match { span: Span, match_type: Type, expression: Box<Expression>, arms: Vec<(Pattern, Expression)> },
    Effect { span: Span, return_type: Type, effect: Effect },
    LocalConstructor { span: Span, constructor_type: Type, constructor: ProperName },
    ImportedConstructor { span: Span, constructor_type: Type, constructor: FullyQualifiedProperName },
    LocalVariable { span: Span, variable_type: Type, variable: Name },
    ForeignVariable { span: Span, variable_type: Type, variable: Name },
    ImportedVariable { span: Span, variable_type: Type, variable: FullyQualifiedName },
    Record { span: Span, fields: Vec<(Name, Expression)> },
    RecordAccess { span: Span, field_type: Type, target: Box<Expression>, label: Name },
    String { span: Span, value: String, value_type: Type },
    Int { span: Span, value: String, value_type: Type },
    Float { span: Span, value: String, value_type: Type },
    Array { span: Span, element_type: Type, elements: Vec<Expression>, value_type: Type },
    True { span: Span, value_type: Type },
    False { span: Span, value_type: Type },
    Unit { span: Span, value_type: Type },
}

/// `Effect(t)`.
pub open spec fn effect_type_view(t: TypeV) -> TypeV {
    TypeV::Call { function: Box::new(TypeV::PrimConstructor(PrimType::Effect)), arguments: seq![t] }
}

/// `Array(t)`.
pub open spec fn array_type_view(t: TypeV) -> TypeV {
    TypeV::Call { function: Box::new(TypeV::PrimConstructor(PrimType::Array)), arguments: seq![t] }
}

/// The type of a typed expression.
pub open spec fn type_of(e: Expression) -> TypeV
    decreases e,
{
    match e {
        Expression::Function { binders, body, .. } => TypeV::Function {
            parameters: Seq::new(
                binders@.len(),
                |i: int|
                    if 0 <= i < binders@.len() {
                        binders@[i].binder_type_view()
                    } else {
                        TypeV::PrimConstructor(PrimType::Unit)
                    },
            ),
            return_type: Box::new(type_of(*body)),
        },
        Expression::Call { call_type, .. } => call_type@,
        Expression::If { output_type, .. } => output_type@,
        Expression::Match { match_type, .. } => match_type@,
        Expression::Effect { return_type, .. } => effect_type_view(return_type@),
        Expression::LocalConstructor { constructor_type, .. } => constructor_type@,
        Expression::ImportedConstructor { constructor_type, .. } => constructor_type@,
        Expression::LocalVariable { variable_type, .. } => variable_type@,
        Expression::ForeignVariable { variable_type, .. } => variable_type@,
        Expression::ImportedVariable { variable_type, .. } => variable_type@,
        Expression::Record { fields, .. } => TypeV::RecordClosed {
            closed_kind: KindV::Type,
            closed_row: Seq::new(
                fields@.len(),
                |i: int|
                    if 0 <= i < fields@.len() {
                        (fields@[i].0@, type_of(fields@[i].1))
                    } else {
                        (Seq::empty(), TypeV::PrimConstructor(PrimType::Unit))
                    },
            ),
        },
        Expression::RecordAccess { field_type, .. } => field_type@,
        Expression::String { value_type, .. } => value_type@,
        Expression::Int { value_type, .. } => value_type@,
        Expression::Float { value_type, .. } => value_type@,
        Expression::Array { value_type, .. } => value_type@,
        Expression::True { value_type, .. } => value_type@,
        Expression::False { value_type, .. } => value_type@,
        Expression::Unit { value_type, .. } => value_type@,
    }
}

/// Makes `Effect(t)`.
pub fn mk_effect_type(t: Type) -> (r: Type)
    ensures
        r@ == effect_type_view(t@),
{
    let ghost tv = t@;
    let mut arguments: Vec<Type> = Vec::new();
    arguments.push(t);
    let f = Type::PrimConstructor(PrimType::Effect);
    proof {
        assert(f@ == TypeV::PrimConstructor(PrimType::Effect));
    }
    let r = Type::Call { function: Box::new(f), arguments };
    proof {
        assert(r@->Call_arguments =~= seq![tv]);
        assert(*r@->Call_function == TypeV::PrimConstructor(PrimType::Effect));
        assert(r@ == TypeV::Call { function: Box::new(TypeV::PrimConstructor(PrimType::Effect)), arguments: seq![tv] });
    }
    r
}

/// Makes `Array(t)`.
pub fn mk_array_type(t: Type) -> (r: Type)
    ensures
        r@ == array_type_view(t@),
{
    let ghost tv = t@;
    let mut arguments: Vec<Type> = Vec::new();
    arguments.push(t);
    let f = Type::PrimConstructor(PrimType::Array);
    proof {
        assert(f@ == TypeV::PrimConstructor(PrimType::Array));
    }
    let r = Type::Call { function: Box::new(f), arguments };
    proof {
        assert(r@->Call_arguments =~= seq![tv]);
        assert(*r@->Call_function == TypeV::PrimConstructor(PrimType::Array));
        assert(r@ == TypeV::Call { function: Box::new(TypeV::PrimConstructor(PrimType::Array)), arguments: seq![tv] });
    }
    r
}

impl Expression {
    pub open spec fn span_of(&self) -> Span {
        match *self {
            Expression::Function { span, .. } => span,
            Expression::Call { span, .. } => span,
            Expression::If { span, .. } => span,
            Expression::Match { span, .. } => span,
            Expression::Effect { span, .. } => span,
            Expression::LocalConstructor { span, .. } => span,
            Expression::ImportedConstructor { span, .. } => span,
            Expression::LocalVariable { span, .. } => span,
            Expression::ForeignVariable { span, .. } => span,
            Expression::ImportedVariable { span, .. } => span,
            Expression::Record { span, .. } => span,
            Expression::RecordAccess { span, .. } => span,
            Expression::String { span, .. } => span,
            Expression::Int { span, .. } => span,
            Expression::Float { span, .. } => span,
            Expression::Array { span, .. } => span,
            Expression::True { span, .. } => span,
            Expression::False { span, .. } => span,
            Expression::Unit { span, .. } => span,
        }
    }

    /// Where this expression is.
    pub fn get_span(&self) -> (r: Span)
        ensures
            r == self.span_of(),
    {
        match self {
            Expression::Function { span, .. } => *span,
            Expression::Call { span, .. } => *span,
            Expression::If { span, .. } => *span,
            Expression::Match { span, .. } => *span,
            Expression::Effect { span, .. } => *span,
            Expression::LocalConstructor { span, .. } => *span,
            Expression::ImportedConstructor { span, .. } => *span,
            Expression::LocalVariable { span, .. } => *span,
            Expression::ForeignVariable { span, .. } => *span,
            Expression::ImportedVariable { span, .. } => *span,
            Expression::Record { span, .. } => *span,
            Expression::RecordAccess { span, .. } => *span,
            Expression::String { span, .. } => *span,
            Expression::Int { span, .. } => *span,
            Expression::Float { span, .. } => *span,
            Expression::Array { span, .. } => *span,
            Expression::True { span, .. } => *span,
            Expression::False { span, .. } => *span,
            Expression::Unit { span, .. } => *span,
        }
    }

    /// The type of this expression.
    pub fn get_type(&self) -> (r: Type)
        ensures
            r@ == type_of(*self),
        decreases self, 1nat,
    {
        match self {
            Expression::Function { .. } => self.function_type(),
            Expression::Call { call_type, .. } => copy_type(call_type),
            Expression::If { output_type, .. } => copy_type(output_type),
            Expression::Match { match_type, .. } => copy_type(match_type),
            Expression::Effect { return_type, .. } => mk_effect_type(copy_type(return_type)),
            Expression::LocalConstructor { constructor_type, .. } => copy_type(constructor_type),
            Expression::ImportedConstructor { constructor_type, .. } => copy_type(constructor_type),
            Expression::LocalVariable { variable_type, .. } => copy_type(variable_type),
            Expression::ForeignVariable { variable_type, .. } => copy_type(variable_type),
            Expression::ImportedVariable { variable_type, .. } => copy_type(variable_type),
            Expression::Record { .. } => self.record_type(),
            Expression::RecordAccess { field_type, .. } => copy_type(field_type),
            Expression::String { value_type, .. } => copy_type(value_type),
            Expression::Int { value_type, .. } => copy_type(value_type),
            Expression::Float { value_type, .. } => copy_type(value_type),
            Expression::Array { value_type, .. } => copy_type(value_type),
            Expression::True { value_type, .. } => copy_type(value_type),
            Expression::False { value_type, .. } => copy_type(value_type),
            Expression::Unit { value_type, .. } => copy_type(value_type),
        }
    }

    #[verifier::rlimit(40)]
    fn function_type(&self) -> (r: Type)
        requires
            self is Function,
        ensures
            r@ == type_of(*self),
        decreases self, 0nat,
    {
        match self {
            Expression::Function { binders, body, .. } => {
                let mut parameters: Vec<Type> = Vec::new();
                let mut i: usize = 0;
                while i < binders.len()
                    invariant
                        i <= binders@.len(),
                        parameters@.len() == i,
                        forall|j: int| 0 <= j < i ==> #[trigger] type_view(parameters@[j]) == binders@[j].binder_type_view(),
                    decreases binders@.len() - i,
                {
                    parameters.push(binders[i].get_type());
                    i = i + 1;
                }
                let ret = body.get_type();
                let ghost rv = ret@;
                let ghost pv = Seq::new(
                    binders@.len(),
                    |k: int|
                        if 0 <= k < binders@.len() {
                            binders@[k].binder_type_view()
                        } else {
                            TypeV::PrimConstructor(PrimType::Unit)
                        },
                );
                proof {
                    assert(type_of(*self) == TypeV::Function { parameters: pv, return_type: Box::new(rv) });
                }
                let ghost ps = parameters@;
                proof {
                    assert forall|k: int| 0 <= k < pv.len() implies type_view(ps[k]) == pv[k] by {}
                }
                let r = Type::Function { parameters, return_type: Box::new(ret) };
                proof {
                    assert(r@->Function_parameters.len() == pv.len());
                    assert forall|k: int| 0 <= k < pv.len() implies r@->Function_parameters[k] == pv[k] by {
                        assert(r@->Function_parameters[k] == type_view(ps[k]));
                    }
                    assert(r@->Function_parameters =~= pv);
                }
                r
            },
            _ => Type::PrimConstructor(PrimType::Unit),
        }
    }

    fn record_type(&self) -> (r: Type)
        requires
            self is Record,
        ensures
            r@ == type_of(*self),
        decreases self, 0nat,
    {
        match self {
            Expression::Record { fields, .. } => {
                let mut row: Vec<(Name, Type)> = Vec::new();
                let mut i: usize = 0;
                while i < fields.len()
                    invariant
                        *self == (Expression::Record { span: self.span_of(), fields: *fields }),
                        i <= fields@.len(),
                        row@.len() == i,
                        forall|j: int|
                            0 <= j < i ==> (#[trigger] row@[j]).0@ == fields@[j].0@ && row@[j].1@ == type_of(
                                fields@[j].1,
                            ),
                    decreases fields@.len() - i,
                {
                    proof {
                        assert(decreases_to!(*self => (*self)->Record_fields));
                        assert(decreases_to!(*fields => fields@));
                        assert(decreases_to!(fields@ => fields@[i as int]));
                        assert(decreases_to!(fields@[i as int] => fields@[i as int].1));
                    }
                    let t = fields[i].1.get_type();
                    row.push((fields[i].0.copy(), t));
                    i = i + 1;
                }
                let r = Type::RecordClosed { closed_kind: Kind::Type, closed_row: row };
                proof {
                    assert(r@->closed_row =~= type_of(*self)->closed_row);
                }
                r
            },
            _ => Type::PrimConstructor(PrimType::Unit),
        }
    }
}

impl Argument {
    /// The type of this argument.
    pub fn get_type(&self) -> (r: Type)
        ensures
            match *self {
                Argument::Expression(e) => r@ == type_of(e),
            },
    {
        match self {
            Argument::Expression(e) => e.get_type(),
        }
    }
}

} // verus!
