//! The type language of ditto: kinds, types and their mathematical views.
use crate::names::{FullyQualifiedProperName, Name, QualifiedProperName};
use vstd::prelude::*;

verus! {

/// Primitive types.
#[derive(Clone, Copy, Debug, PartialEq, Eq, Structural)]
pub enum PrimType {
    Array,
    Bool,
    Float,
    Int,
    String,
    Unit,
    Effect,
}

/// The kind of a type.
#[derive(Debug)]
pub enum Kind {
    Type,
    Row,
    Variable(usize),
    Function { parameters: Vec<Kind> },
}

/// The mathematical view of a [Kind].
pub enum KindV {
    Type,
    Row,
    Variable(usize),
    Function { parameters: Seq<KindV> },
}

pub open spec fn kind_view(k: Kind) -> KindV
    decreases k,
{
    match k {
        Kind::Type => KindV::Type,
        Kind::Row => KindV::Row,
        Kind::Variable(v) => KindV::Variable(v),
        Kind::Function { parameters } => KindV::Function {
            parameters: Seq::new(
                parameters@.len(),
                |i: int|
                    if 0 <= i < parameters@.len() {
                        kind_view(parameters@[i])
                    } else {
                        KindV::Type
                    },
            ),
        },
    }
}

impl View for Kind {
    type V = KindV;

    open spec fn view(&self) -> KindV {
        kind_view(*self)
    }
}

pub fn copy_kind(k: &Kind) -> (r: Kind)
    ensures
        r@ == k@,
    decreases k,
{
    match k {
        Kind::Type => Kind::Type,
        Kind::Row => Kind::Row,
        Kind::Variable(v) => Kind::Variable(*v),
        Kind::Function { parameters } => {
            let mut out: Vec<Kind> = Vec::new();
            let mut i: usize = 0;
            while i < parameters.len()
                invariant
                    *k == (Kind::Function { parameters: *parameters }),
                    i <= parameters@.len(),
                    out@.len() == i,
                    forall|j: int| 0 <= j < i ==> kind_view(#[trigger] out@[j]) == kind_view(parameters@[j]),
                decreases parameters@.len() - i,
            {
                proof {
                    assert(decreases_to!(*k => (*k)->Function_parameters));
                    assert(decreases_to!(*parameters => parameters@));
                    assert(decreases_to!(parameters@ => parameters@[i as int]));
                }
                out.push(copy_kind(&parameters[i]));
                i = i + 1;
            }
            let r = Kind::Function { parameters: out };
            proof {
                match (kind_view(r), kind_view(*k)) {
                    (KindV::Function { parameters: a }, KindV::Function { parameters: b }) => {
                        assert(a =~= b);
                    },
                    _ => {},
                }
            }
            r
        },
    }
}

/// A ditto type.
///
/// Records hold their rows as lists of labelled types.
/// `Call` arguments are never empty.
#[derive(Debug)]
pub enum Type {
    /// A type constructor applied to arguments: `Maybe(Int)`.
    Call { function: Box<Type>, arguments: Vec<Type> },
    /// A function type: `(a, b) -> c`.
    Function { parameters: Vec<Type>, return_type: Box<Type> },
    /// A named type constructor: `Maybe`.
    Constructor {
        constructor_kind: Kind,
        canonical_value: FullyQualifiedProperName,
        source_value: Option<QualifiedProperName>,
    },
    /// A type alias: the named constructor together with what it stands for.
    ConstructorAlias {
        alias_kind: Kind,
        alias_canonical_value: FullyQualifiedProperName,
        alias_source_value: Option<QualifiedProperName>,
        alias_variables: Vec<usize>,
        aliased_type: Box<Type>,
    },
    /// A primitive type: `Int`.
    PrimConstructor(PrimType),
    /// A type variable, numbered `var`, optionally named in the source.
    Variable { variable_kind: Kind, var: usize, source_name: Option<Name> },
    /// A closed record: `{ foo: Int }`.
    RecordClosed { closed_kind: Kind, closed_row: Vec<(Name, Type)> },
    /// An open record: `{ r | foo: Int }`.
    RecordOpen { open_kind: Kind, open_var: usize, open_source_name: Option<Name>, open_row: Vec<(Name, Type)> },
}

/// The view of a name: its characters.
pub type NameV = Seq<char>;

/// The view of a fully qualified proper name.
pub type FQProperNameV = ((Option<Seq<char>>, Seq<Seq<char>>), Seq<char>);

/// The view of a qualified proper name.
pub type QProperNameV = (Option<Seq<char>>, Seq<char>);

/// The mathematical view of a [Type].
pub enum TypeV {
    Call { function: Box<TypeV>, arguments: Seq<TypeV> },
    Function { parameters: Seq<TypeV>, return_type: Box<TypeV> },
    Constructor { constructor_kind: KindV, canonical_value: FQProperNameV, source_value: Option<QProperNameV> },
    ConstructorAlias {
        alias_kind: KindV,
        alias_canonical_value: FQProperNameV,
        alias_source_value: Option<QProperNameV>,
        alias_variables: Seq<usize>,
        aliased_type: Box<TypeV>,
    },
    PrimConstructor(PrimType),
    Variable { variable_kind: KindV, var: usize, source_name: Option<NameV> },
    RecordClosed { closed_kind: KindV, closed_row: Seq<(NameV, TypeV)> },
    RecordOpen { open_kind: KindV, open_var: usize, open_source_name: Option<NameV>, open_row: Seq<(NameV, TypeV)> },
}

pub open spec fn opt_name_view(n: Option<Name>) -> Option<NameV> {
    match n {
        Some(n) => Some(n@),
        None => None,
    }
}

pub open spec fn opt_qproper_view(n: Option<QualifiedProperName>) -> Option<QProperNameV> {
    match n {
        Some(n) => Some(n@),
        None => None,
    }
}

pub open spec fn type_view(t: Type) -> TypeV
    decreases t,
{
    match t {
        Type::Call { function, arguments } => TypeV::Call {
            function: Box::new(type_view(*function)),
            arguments: Seq::new(
                arguments@.len(),
                |i: int|
                    if 0 <= i < arguments@.len() {
                        type_view(arguments@[i])
                    } else {
                        TypeV::PrimConstructor(PrimType::Unit)
                    },
            ),
        },
        Type::Function { parameters, return_type } => TypeV::Function {
            parameters: Seq::new(
                parameters@.len(),
                |i: int|
                    if 0 <= i < parameters@.len() {
                        type_view(parameters@[i])
                    } else {
                        TypeV::PrimConstructor(PrimType::Unit)
                    },
            ),
            return_type: Box::new(type_view(*return_type)),
        },
        Type::Constructor { constructor_kind, canonical_value, source_value } => TypeV::Constructor {
            constructor_kind: constructor_kind@,
            canonical_value: canonical_value@,
            source_value: opt_qproper_view(source_value),
        },
        Type::ConstructorAlias {
            alias_kind,
            alias_canonical_value,
            alias_source_value,
            alias_variables,
            aliased_type,
        } => TypeV::ConstructorAlias {
            alias_kind: alias_kind@,
            alias_canonical_value: alias_canonical_value@,
            alias_source_value: opt_qproper_view(alias_source_value),
            alias_variables: alias_variables@,
            aliased_type: Box::new(type_view(*aliased_type)),
        },
        Type::PrimConstructor(p) => TypeV::PrimConstructor(p),
        Type::Variable { variable_kind, var, source_name } => TypeV::Variable {
            variable_kind: variable_kind@,
            var,
            source_name: opt_name_view(source_name),
        },
        Type::RecordClosed { closed_kind, closed_row } => TypeV::RecordClosed {
            closed_kind: closed_kind@,
            closed_row: Seq::new(
                closed_row@.len(),
                |i: int|
                    if 0 <= i < closed_row@.len() {
                        (closed_row@[i].0@, type_view(closed_row@[i].1))
                    } else {
                        (Seq::empty(), TypeV::PrimConstructor(PrimType::Unit))
                    },
            ),
        },
        Type::RecordOpen { open_kind, open_var, open_source_name, open_row } => TypeV::RecordOpen {
            open_kind: open_kind@,
            open_var,
            open_source_name: opt_name_view(open_source_name),
            open_row: Seq::new(
                open_row@.len(),
                |i: int|
                    if 0 <= i < open_row@.len() {
                        (open_row@[i].0@, type_view(open_row@[i].1))
                    } else {
                        (Seq::empty(), TypeV::PrimConstructor(PrimType::Unit))
                    },
            ),
        },
    }
}

impl View for Type {
    type V = TypeV;

    open spec fn view(&self) -> TypeV {
        type_view(*self)
    }
}

/// The view of a sequence of types.
pub open spec fn types_view(v: Seq<Type>) -> Seq<TypeV> {
    Seq::new(v.len(), |i: int| type_view(v[i]))
}

/// The view of a row.
pub open spec fn row_view(v: Seq<(Name, Type)>) -> Seq<(NameV, TypeV)> {
    Seq::new(v.len(), |i: int| (v[i].0@, type_view(v[i].1)))
}

pub fn copy_opt_name(n: &Option<Name>) -> (r: Option<Name>)
    ensures
        opt_name_view(r) == opt_name_view(*n),
{
    match n {
        Some(n) => Some(n.copy()),
        None => None,
    }
}

pub fn copy_opt_qproper(n: &Option<QualifiedProperName>) -> (r: Option<QualifiedProperName>)
    ensures
        opt_qproper_view(r) == opt_qproper_view(*n),
{
    match n {
        Some(n) => Some(n.copy()),
        None => None,
    }
}

pub fn copy_usizes(v: &Vec<usize>) -> (r: Vec<usize>)
    ensures
        r@ == v@,
{
    let mut r: Vec<usize> = Vec::new();
    let mut i: usize = 0;
    while i < v.len()
        invariant
            i <= v@.len(),
            r@ =~= v@.subrange(0, i as int),
        decreases v@.len() - i,
    {
        r.push(v[i]);
        i = i + 1;
    }
    assert(r@ =~= v@);
    r
}

/// Makes an independent copy of a type.
pub fn copy_type(t: &Type) -> (r: Type)
    ensures
        r@ == t@,
    decreases t,
{
    match t {
        Type::Call { function, arguments } => {
            proof {
                assert(decreases_to!(*t => (*t)->Call_function));
            }
            let f = copy_type(function);
            let mut out: Vec<Type> = Vec::new();
            let mut i: usize = 0;
            while i < arguments.len()
                invariant
                    *t == (Type::Call { function: *function, arguments: *arguments }),
                    i <= arguments@.len(),
                    out@.len() == i,
                    forall|j: int| 0 <= j < i ==> type_view(#[trigger] out@[j]) == type_view(arguments@[j]),
                decreases arguments@.len() - i,
            {
                proof {
                    assert(decreases_to!(*t => (*t)->Call_arguments));
                    assert(decreases_to!(*arguments => arguments@));
                    assert(decreases_to!(arguments@ => arguments@[i as int]));
                }
                out.push(copy_type(&arguments[i]));
                i = i + 1;
            }
            let r = Type::Call { function: Box::new(f), arguments: out };
            proof {
                assert(types_view(out@) =~= types_view(arguments@));
                match (type_view(r), type_view(*t)) {
                    (TypeV::Call { arguments: a, .. }, TypeV::Call { arguments: b, .. }) => {
                        assert(a =~= types_view(out@));
                        assert(b =~= types_view(arguments@));
                    },
                    _ => {},
                }
            }
            r
        },
        Type::Function { parameters, return_type } => {
            proof {
                assert(decreases_to!(*t => (*t)->Function_return_type));
            }
            let ret = copy_type(return_type);
            let mut out: Vec<Type> = Vec::new();
            let mut i: usize = 0;
            while i < parameters.len()
                invariant
                    *t == (Type::Function { parameters: *parameters, return_type: *return_type }),
                    i <= parameters@.len(),
                    out@.len() == i,
                    forall|j: int| 0 <= j < i ==> type_view(#[trigger] out@[j]) == type_view(parameters@[j]),
                decreases parameters@.len() - i,
            {
                proof {
                    assert(decreases_to!(*t => (*t)->Function_parameters));
                    assert(decreases_to!(*parameters => parameters@));
                    assert(decreases_to!(parameters@ => parameters@[i as int]));
                }
                out.push(copy_type(&parameters[i]));
                i = i + 1;
            }
            let r = Type::Function { parameters: out, return_type: Box::new(ret) };
            proof {
                assert(types_view(out@) =~= types_view(parameters@));
                match (type_view(r), type_view(*t)) {
                    (TypeV::Function { parameters: a, .. }, TypeV::Function { parameters: b, .. }) => {
                        assert(a =~= types_view(out@));
                        assert(b =~= types_view(parameters@));
                    },
                    _ => {},
                }
            }
            r
        },
        Type::Constructor { constructor_kind, canonical_value, source_value } => Type::Constructor {
            constructor_kind: copy_kind(constructor_kind),
            canonical_value: canonical_value.copy(),
            source_value: copy_opt_qproper(source_value),
        },
        Type::ConstructorAlias {
            alias_kind,
            alias_canonical_value,
            alias_source_value,
            alias_variables,
            aliased_type,
        } => {
            proof {
                assert(decreases_to!(*t => (*t)->aliased_type));
            }
            Type::ConstructorAlias {
                alias_kind: copy_kind(alias_kind),
                alias_canonical_value: alias_canonical_value.copy(),
                alias_source_value: copy_opt_qproper(alias_source_value),
                alias_variables: copy_usizes(alias_variables),
                aliased_type: Box::new(copy_type(aliased_type)),
            }
        },
        Type::PrimConstructor(p) => Type::PrimConstructor(*p),
        Type::Variable { variable_kind, var, source_name } => Type::Variable {
            variable_kind: copy_kind(variable_kind),
            var: *var,
            source_name: copy_opt_name(source_name),
        },
        Type::RecordClosed { closed_kind, closed_row } => {
            let mut out: Vec<(Name, Type)> = Vec::new();
            let mut i: usize = 0;
            while i < closed_row.len()
                invariant
                    *t == (Type::RecordClosed { closed_kind: *closed_kind, closed_row: *closed_row }),
                    i <= closed_row@.len(),
                    out@.len() == i,
                    forall|j: int|
                        0 <= j < i ==> (#[trigger] out@[j]).0@ == closed_row@[j].0@ && type_view(out@[j].1)
                            == type_view(closed_row@[j].1),
                decreases closed_row@.len() - i,
            {
                proof {
                    assert(decreases_to!(*t => (*t)->closed_row));
                    assert(decreases_to!(*closed_row => closed_row@));
                    assert(decreases_to!(closed_row@ => closed_row@[i as int]));
                    assert(decreases_to!(closed_row@[i as int] => closed_row@[i as int].1));
                }
                let entry = &closed_row[i];
                out.push((entry.0.copy(), copy_type(&entry.1)));
                i = i + 1;
            }
            let r = Type::RecordClosed { closed_kind: copy_kind(closed_kind), closed_row: out };
            proof {
                assert(row_view(out@) =~= row_view(closed_row@));
                match (type_view(r), type_view(*t)) {
                    (TypeV::RecordClosed { closed_row: a, .. }, TypeV::RecordClosed { closed_row: b, .. }) => {
                        assert(a =~= row_view(out@));
                        assert(b =~= row_view(closed_row@));
                    },
                    _ => {},
                }
            }
            r
        },
        Type::RecordOpen { open_kind, open_var, open_source_name, open_row } => {
            let mut out: Vec<(Name, Type)> = Vec::new();
            let mut i: usize = 0;
            while i < open_row.len()
                invariant
                    *t == (Type::RecordOpen {
                        open_kind: *open_kind,
                        open_var: *open_var,
                        open_source_name: *open_source_name,
                        open_row: *open_row,
                    }),
                    i <= open_row@.len(),
                    out@.len() == i,
                    forall|j: int|
                        0 <= j < i ==> (#[trigger] out@[j]).0@ == open_row@[j].0@ && type_view(out@[j].1)
                            == type_view(open_row@[j].1),
                decreases open_row@.len() - i,
            {
                proof {
                    assert(decreases_to!(*t => (*t)->open_row));
                    assert(decreases_to!(*open_row => open_row@));
                    assert(decreases_to!(open_row@ => open_row@[i as int]));
                    assert(decreases_to!(open_row@[i as int] => open_row@[i as int].1));
                }
                let entry = &open_row[i];
                out.push((entry.0.copy(), copy_type(&entry.1)));
                i = i + 1;
            }
            let r = Type::RecordOpen {
                open_kind: copy_kind(open_kind),
                open_var: *open_var,
                open_source_name: copy_opt_name(open_source_name),
                open_row: out,
            };
            proof {
                assert(row_view(out@) =~= row_view(open_row@));
                match (type_view(r), type_view(*t)) {
                    (TypeV::RecordOpen { open_row: a, .. }, TypeV::RecordOpen { open_row: b, .. }) => {
                        assert(a =~= row_view(out@));
                        assert(b =~= row_view(open_row@));
                    },
                    _ => {},
                }
            }
            r
        },
    }
}


/// A type with every variable name dropped: named type variables become anonymous.
pub open spec fn anonymize_spec(t: TypeV) -> TypeV
    decreases t,
{
    match t {
        TypeV::Call { function, arguments } => TypeV::Call {
            function: Box::new(anonymize_spec(*function)),
            arguments: Seq::new(
                arguments.len(),
                |i: int|
                    if 0 <= i < arguments.len() {
                        anonymize_spec(arguments[i])
                    } else {
                        TypeV::PrimConstructor(PrimType::Unit)
                    },
            ),
        },
        TypeV::Function { parameters, return_type } => TypeV::Function {
            parameters: Seq::new(
                parameters.len(),
                |i: int|
                    if 0 <= i < parameters.len() {
                        anonymize_spec(parameters[i])
                    } else {
                        TypeV::PrimConstructor(PrimType::Unit)
                    },
            ),
            return_type: Box::new(anonymize_spec(*return_type)),
        },
        TypeV::Variable { variable_kind, var, .. } => TypeV::Variable { variable_kind, var, source_name: None },
        TypeV::RecordClosed { closed_kind, closed_row } => TypeV::RecordClosed {
            closed_kind,
            closed_row: Seq::new(
                closed_row.len(),
                |i: int|
                    if 0 <= i < closed_row.len() {
                        (closed_row[i].0, anonymize_spec(closed_row[i].1))
                    } else {
                        (Seq::empty(), TypeV::PrimConstructor(PrimType::Unit))
                    },
            ),
        },
        TypeV::RecordOpen { open_kind, open_var, open_row, .. } => TypeV::RecordOpen {
            open_kind,
            open_var,
            open_source_name: None,
            open_row: Seq::new(
                open_row.len(),
                |i: int|
                    if 0 <= i < open_row.len() {
                        (open_row[i].0, anonymize_spec(open_row[i].1))
                    } else {
                        (Seq::empty(), TypeV::PrimConstructor(PrimType::Unit))
                    },
            ),
        },
        _ => t,
    }
}

fn anonymize_types(t: &Type, ts: &Vec<Type>) -> (r: Vec<Type>)
    requires
        (t is Call && (*t)->Call_arguments == *ts) || (t is Function && (*t)->Function_parameters == *ts),
    ensures
        r@.len() == ts@.len(),
        forall|j: int| 0 <= j < ts@.len() ==> type_view(#[trigger] r@[j]) == anonymize_spec(type_view(ts@[j])),
    decreases t, 0nat,
{
    let mut out: Vec<Type> = Vec::new();
    let mut i: usize = 0;
    while i < ts.len()
        invariant
            (t is Call && (*t)->Call_arguments == *ts) || (t is Function && (*t)->Function_parameters == *ts),
            i <= ts@.len(),
            out@.len() == i,
            forall|j: int| 0 <= j < i ==> type_view(#[trigger] out@[j]) == anonymize_spec(type_view(ts@[j])),
        decreases ts@.len() - i,
    {
        proof {
            if t is Call {
                assert(decreases_to!(*t => (*t)->Call_arguments));
            } else {
                assert(decreases_to!(*t => (*t)->Function_parameters));
            }
            assert(decreases_to!(*ts => ts@));
            assert(decreases_to!(ts@ => ts@[i as int]));
        }
        out.push(anonymize(&ts[i]));
        i = i + 1;
    }
    out
}

fn anonymize_row(t: &Type, row: &Vec<(Name, Type)>) -> (r: Vec<(Name, Type)>)
    requires
        (t is RecordOpen && (*t)->open_row == *row) || (t is RecordClosed && (*t)->closed_row == *row),
    ensures
        r@.len() == row@.len(),
        forall|j: int|
            0 <= j < row@.len() ==> (#[trigger] r@[j]).0@ == row@[j].0@ && type_view(r@[j].1) == anonymize_spec(
                type_view(row@[j].1),
            ),
    decreases t, 0nat,
{
    let mut out: Vec<(Name, Type)> = Vec::new();
    let mut i: usize = 0;
    while i < row.len()
        invariant
            (t is RecordOpen && (*t)->open_row == *row) || (t is RecordClosed && (*t)->closed_row == *row),
            i <= row@.len(),
            out@.len() == i,
            forall|j: int|
                0 <= j < i ==> (#[trigger] out@[j]).0@ == row@[j].0@ && type_view(out@[j].1) == anonymize_spec(
                    type_view(row@[j].1),
                ),
        decreases row@.len() - i,
    {
        proof {
            if t is RecordOpen {
                assert(decreases_to!(*t => (*t)->open_row));
            } else {
                assert(decreases_to!(*t => (*t)->closed_row));
            }
            assert(decreases_to!(*row => row@));
            assert(decreases_to!(row@ => row@[i as int]));
            assert(decreases_to!(row@[i as int] => row@[i as int].1));
        }
        out.push((row[i].0.copy(), anonymize(&row[i].1)));
        i = i + 1;
    }
    out
}

/// Drops every variable name of a type: named type variables become anonymous.
pub fn anonymize(t: &Type) -> (r: Type)
    ensures
        r@ == anonymize_spec(t@),
    decreases t, 1nat,
{
    match t {
        Type::Call { function, arguments } => {
            let f = anonymize(function);
            let out = anonymize_types(t, arguments);
            let ghost fv = f@;
            let r = Type::Call { function: Box::new(f), arguments: out };
            proof {
                assert(r@->Call_arguments =~= anonymize_spec(t@)->Call_arguments);
            }
            r
        },
        Type::Function { parameters, return_type } => {
            let ret = anonymize(return_type);
            let out = anonymize_types(t, parameters);
            let r = Type::Function { parameters: out, return_type: Box::new(ret) };
            proof {
                assert(r@->Function_parameters =~= anonymize_spec(t@)->Function_parameters);
            }
            r
        },
        Type::Variable { variable_kind, var, .. } => Type::Variable {
            variable_kind: copy_kind(variable_kind),
            var: *var,
            source_name: None,
        },
        Type::RecordClosed { closed_kind, closed_row } => {
            let out = anonymize_row(t, closed_row);
            let r = Type::RecordClosed { closed_kind: copy_kind(closed_kind), closed_row: out };
            proof {
                assert(r@->closed_row =~= anonymize_spec(t@)->closed_row);
            }
            r
        },
        Type::RecordOpen { open_kind, open_var, open_row, .. } => {
            let out = anonymize_row(t, open_row);
            let r = Type::RecordOpen {
                open_kind: copy_kind(open_kind),
                open_var: *open_var,
                open_source_name: None,
                open_row: out,
            };
            proof {
                assert(r@->open_row =~= anonymize_spec(t@)->open_row);
            }
            r
        },
        _ => copy_type(t),
    }
}


/// Whether two kinds are the same.
pub fn kinds_equal(a: &Kind, b: &Kind) -> (r: bool)
    ensures
        r == (a@ == b@),
    decreases a,
{
    match (a, b) {
        (Kind::Type, Kind::Type) => true,
        (Kind::Row, Kind::Row) => true,
        (Kind::Variable(x), Kind::Variable(y)) => *x == *y,
        (Kind::Function { parameters: ps }, Kind::Function { parameters: qs }) => {
            if ps.len() != qs.len() {
                proof {
                    assert(a@->Function_parameters.len() != b@->Function_parameters.len());
                }
                return false;
            }
            let mut i: usize = 0;
            while i < ps.len()
                invariant
                    *a == (Kind::Function { parameters: *ps }),
                    *b == (Kind::Function { parameters: *qs }),
                    ps@.len() == qs@.len(),
                    i <= ps@.len(),
                    forall|j: int| 0 <= j < i ==> kind_view(ps@[j]) == kind_view(qs@[j]),
                decreases ps@.len() - i,
            {
                proof {
                    assert(decreases_to!(*a => (*a)->Function_parameters));
                    assert(decreases_to!(*ps => ps@));
                    assert(decreases_to!(ps@ => ps@[i as int]));
                }
                if !kinds_equal(&ps[i], &qs[i]) {
                    proof {
                        assert(a@->Function_parameters[i as int] != b@->Function_parameters[i as int]);
                    }
                    return false;
                }
                i = i + 1;
            }
            proof {
                assert(a@->Function_parameters =~= b@->Function_parameters);
            }
            true
        },
        _ => false,
    }
}

fn opt_names_equal(a: &Option<Name>, b: &Option<Name>) -> (r: bool)
    ensures
        r == (opt_name_view(*a) == opt_name_view(*b)),
{
    match (a, b) {
        (Some(x), Some(y)) => x.eq(y),
        (None, None) => true,
        _ => false,
    }
}

fn opt_qpropers_equal(a: &Option<QualifiedProperName>, b: &Option<QualifiedProperName>) -> (r: bool)
    ensures
        r == (opt_qproper_view(*a) == opt_qproper_view(*b)),
{
    match (a, b) {
        (Some(x), Some(y)) => x.eq(y),
        (None, None) => true,
        _ => false,
    }
}

fn usizes_equal(a: &Vec<usize>, b: &Vec<usize>) -> (r: bool)
    ensures
        r == (a@ == b@),
{
    if a.len() != b.len() {
        return false;
    }
    let mut i: usize = 0;
    while i < a.len()
        invariant
            a@.len() == b@.len(),
            i <= a@.len(),
            forall|j: int| 0 <= j < i ==> a@[j] == b@[j],
        decreases a@.len() - i,
    {
        if a[i] != b[i] {
            return false;
        }
        i = i + 1;
    }
    proof {
        assert(a@ =~= b@);
    }
    true
}

fn type_lists_equal(t: &Type, a: &Vec<Type>, b: &Vec<Type>) -> (r: bool)
    requires
        (t is Call && (*t)->Call_arguments == *a) || (t is Function && (*t)->Function_parameters == *a),
    ensures
        r == (types_view(a@) == types_view(b@)),
    decreases t, 0nat,
{
    if a.len() != b.len() {
        proof {
            assert(types_view(a@).len() != types_view(b@).len());
        }
        return false;
    }
    let mut i: usize = 0;
    while i < a.len()
        invariant
            (t is Call && (*t)->Call_arguments == *a) || (t is Function && (*t)->Function_parameters == *a),
            a@.len() == b@.len(),
            i <= a@.len(),
            forall|j: int| 0 <= j < i ==> type_view(a@[j]) == type_view(b@[j]),
        decreases a@.len() - i,
    {
        proof {
            if t is Call {
                assert(decreases_to!(*t => (*t)->Call_arguments));
            } else {
                assert(decreases_to!(*t => (*t)->Function_parameters));
            }
            assert(decreases_to!(*a => a@));
            assert(decreases_to!(a@ => a@[i as int]));
        }
        if !types_equal(&a[i], &b[i]) {
            proof {
                assert(types_view(a@)[i as int] != types_view(b@)[i as int]);
            }
            return false;
        }
        i = i + 1;
    }
    proof {
        assert(types_view(a@) =~= types_view(b@));
    }
    true
}

fn rows_equal(t: &Type, a: &Vec<(Name, Type)>, b: &Vec<(Name, Type)>) -> (r: bool)
    requires
        (t is RecordOpen && (*t)->open_row == *a) || (t is RecordClosed && (*t)->closed_row == *a),
    ensures
        r == (row_view(a@) == row_view(b@)),
    decreases t, 0nat,
{
    if a.len() != b.len() {
        proof {
            assert(row_view(a@).len() != row_view(b@).len());
        }
        return false;
    }
    let mut i: usize = 0;
    while i < a.len()
        invariant
            (t is RecordOpen && (*t)->open_row == *a) || (t is RecordClosed && (*t)->closed_row == *a),
            a@.len() == b@.len(),
            i <= a@.len(),
            forall|j: int| 0 <= j < i ==> a@[j].0@ == b@[j].0@ && type_view(a@[j].1) == type_view(b@[j].1),
        decreases a@.len() - i,
    {
        proof {
            if t is RecordOpen {
                assert(decreases_to!(*t => (*t)->open_row));
            } else {
                assert(decreases_to!(*t => (*t)->closed_row));
            }
            assert(decreases_to!(*a => a@));
            assert(decreases_to!(a@ => a@[i as int]));
            assert(decreases_to!(a@[i as int] => a@[i as int].1));
        }
        if !a[i].0.eq(&b[i].0) || !types_equal(&a[i].1, &b[i].1) {
            proof {
                assert(row_view(a@)[i as int] != row_view(b@)[i as int]);
            }
            return false;
        }
        i = i + 1;
    }
    proof {
        assert(row_view(a@) =~= row_view(b@));
    }
    true
}

/// Whether two types are the same.
pub fn types_equal(a: &Type, b: &Type) -> (r: bool)
    ensures
        r == (a@ == b@),
    decreases a, 1nat,
{
    match (a, b) {
        (Type::Call { function: f1, arguments: a1 }, Type::Call { function: f2, arguments: a2 }) => {
            let r = types_equal(f1, f2) && type_lists_equal(a, a1, a2);
            proof {
                assert(a@->Call_arguments =~= types_view(a1@));
                assert(b@->Call_arguments =~= types_view(a2@));
            }
            r
        },
        (
            Type::Function { parameters: p1, return_type: r1 },
            Type::Function { parameters: p2, return_type: r2 },
        ) => {
            let r = type_lists_equal(a, p1, p2) && types_equal(r1, r2);
            proof {
                assert(a@->Function_parameters =~= types_view(p1@));
                assert(b@->Function_parameters =~= types_view(p2@));
            }
            r
        },
        (
            Type::Constructor { constructor_kind: k1, canonical_value: c1, source_value: s1 },
            Type::Constructor { constructor_kind: k2, canonical_value: c2, source_value: s2 },
        ) => kinds_equal(k1, k2) && c1.eq(c2) && opt_qpropers_equal(s1, s2),
        (
            Type::ConstructorAlias {
                alias_kind: k1,
                alias_canonical_value: c1,
                alias_source_value: s1,
                alias_variables: v1,
                aliased_type: t1,
            },
            Type::ConstructorAlias {
                alias_kind: k2,
                alias_canonical_value: c2,
                alias_source_value: s2,
                alias_variables: v2,
                aliased_type: t2,
            },
        ) => kinds_equal(k1, k2) && c1.eq(c2) && opt_qpropers_equal(s1, s2) && usizes_equal(v1, v2) && types_equal(
            t1,
            t2,
        ),
        (Type::PrimConstructor(p), Type::PrimConstructor(q)) => *p == *q,
        (
            Type::Variable { variable_kind: k1, var: v1, source_name: n1 },
            Type::Variable { variable_kind: k2, var: v2, source_name: n2 },
        ) => kinds_equal(k1, k2) && *v1 == *v2 && opt_names_equal(n1, n2),
        (Type::RecordClosed { closed_kind: k1, closed_row: r1 }, Type::RecordClosed { closed_kind: k2, closed_row: r2 }) => {
            let r = kinds_equal(k1, k2) && rows_equal(a, r1, r2);
            proof {
                assert(a@->closed_row =~= row_view(r1@));
                assert(b@->closed_row =~= row_view(r2@));
            }
            r
        },
        (
            Type::RecordOpen { open_kind: k1, open_var: v1, open_source_name: n1, open_row: r1 },
            Type::RecordOpen { open_kind: k2, open_var: v2, open_source_name: n2, open_row: r2 },
        ) => {
            let r = kinds_equal(k1, k2) && *v1 == *v2 && opt_names_equal(n1, n2) && rows_equal(a, r1, r2);
            proof {
                assert(a@->open_row =~= row_view(r1@));
                assert(b@->open_row =~= row_view(r2@));
            }
            r
        },
        _ => false,
    }
}

} // verus!
