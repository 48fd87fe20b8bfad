//! Rendering types as text, as the type checker's messages and tests show them:
//! `Array($0)`, `(a, String) -> String`, `{ $1 | foo: $2 }`.
use crate::names::Name;
use crate::env::Scheme;
use crate::text::{decimal, push_decimal, push_str};
use crate::types::{FQProperNameV, NameV, PrimType, QProperNameV, Type, TypeV};
use vstd::prelude::*;

verus! {

/// The name of a primitive type.
pub open spec fn prim_name(p: PrimType) -> Seq<char> {
    match p {
        PrimType::Array => "Array"@,
        PrimType::Bool => "Bool"@,
        PrimType::Float => "Float"@,
        PrimType::Int => "Int"@,
        PrimType::String => "String"@,
        PrimType::Unit => "Unit"@,
        PrimType::Effect => "Effect"@,
    }
}

/// How a type constructor is named: as written in the source when known,
/// with its qualifier, else by its proper name.
pub open spec fn constructor_name(canonical: FQProperNameV, source: Option<QProperNameV>) -> Seq<char> {
    match source {
        Some((Some(m), v)) => m + "."@ + v,
        Some((None, v)) => v,
        None => canonical.1,
    }
}

/// How a type variable is named: `$3` when anonymous; its source name when
/// named, followed by `$3` in verbose renderings.
pub open spec fn variable_name(var: usize, source_name: Option<NameV>, verbose: bool) -> Seq<char> {
    match source_name {
        Some(n) => if verbose {
            n + "$"@ + decimal(var as nat)
        } else {
            n
        },
        None => "$"@ + decimal(var as nat),
    }
}

/// The rendering of a type.
pub open spec fn render_type(t: TypeV, verbose: bool) -> Seq<char>
    decreases t, 0nat,
{
    match t {
        TypeV::Call { function, arguments } => render_type(*function, verbose) + "("@ + render_types(
            arguments,
            arguments.len(),
            verbose,
        ) + ")"@,
        TypeV::Function { parameters, return_type } => "("@ + render_types(parameters, parameters.len(), verbose)
            + ") -> "@ + render_type(*return_type, verbose),
        TypeV::Constructor { canonical_value, source_value, .. } => constructor_name(canonical_value, source_value),
        TypeV::ConstructorAlias { alias_canonical_value, alias_source_value, .. } => constructor_name(
            alias_canonical_value,
            alias_source_value,
        ),
        TypeV::PrimConstructor(p) => prim_name(p),
        TypeV::Variable { var, source_name, .. } => variable_name(var, source_name, verbose),
        TypeV::RecordClosed { closed_row, .. } => if closed_row.len() == 0 {
            "{}"@
        } else {
            "{ "@ + render_row(closed_row, closed_row.len(), verbose) + " }"@
        },
        TypeV::RecordOpen { open_var, open_source_name, open_row, .. } => "{ "@ + variable_name(
            open_var,
            open_source_name,
            verbose,
        ) + " | "@ + render_row(open_row, open_row.len(), verbose) + " }"@,
    }
}

/// The first `n` types of `ts`, rendered and separated by commas.
pub open spec fn render_types(ts: Seq<TypeV>, n: nat, verbose: bool) -> Seq<char>
    decreases ts, n,
{
    if n == 0 || n > ts.len() {
        Seq::empty()
    } else if n == 1 {
        render_type(ts[0], verbose)
    } else {
        render_types(ts, (n - 1) as nat, verbose) + ", "@ + render_type(ts[n - 1], verbose)
    }
}

/// The first `n` fields of a row, rendered as `label: type` and separated by commas.
pub open spec fn render_row(row: Seq<(NameV, TypeV)>, n: nat, verbose: bool) -> Seq<char>
    decreases row, n,
{
    if n == 0 || n > row.len() {
        Seq::empty()
    } else if n == 1 {
        row[0].0 + ": "@ + render_type(row[0].1, verbose)
    } else {
        render_row(row, (n - 1) as nat, verbose) + ", "@ + row[n - 1].0 + ": "@ + render_type(row[n - 1].1, verbose)
    }
}

fn push_prim_name(out: &mut String, p: PrimType)
    ensures
        final(out)@ == old(out)@ + prim_name(p),
{
    match p {
        PrimType::Array => push_str(out, "Array"),
        PrimType::Bool => push_str(out, "Bool"),
        PrimType::Float => push_str(out, "Float"),
        PrimType::Int => push_str(out, "Int"),
        PrimType::String => push_str(out, "String"),
        PrimType::Unit => push_str(out, "Unit"),
        PrimType::Effect => push_str(out, "Effect"),
    }
}

fn push_variable_name(out: &mut String, var: usize, source_name: &Option<Name>, verbose: bool)
    ensures
        final(out)@ == old(out)@ + variable_name(var, crate::types::opt_name_view(*source_name), verbose),
{
    let ghost start = out@;
    match source_name {
        Some(n) => {
            push_str(out, n.0.as_str());
            if verbose {
                push_str(out, "$");
                push_decimal(out, var);
            }
        },
        None => {
            push_str(out, "$");
            push_decimal(out, var);
        },
    }
    proof {
        assert(out@ =~= start + variable_name(var, crate::types::opt_name_view(*source_name), verbose));
    }
}

fn push_type(out: &mut String, t: &Type, verbose: bool)
    ensures
        final(out)@ == old(out)@ + render_type(t@, verbose),
    decreases t,
{
    let ghost start = out@;
    match t {
        Type::Call { function, arguments } => {
            proof {
                assert(decreases_to!(*t => (*t)->Call_function));
            }
            push_type(out, function, verbose);
            push_str(out, "(");
            let ghost mid = out@;
            let ghost argsv = t@->Call_arguments;
            let mut i: usize = 0;
            while i < arguments.len()
                invariant
                    *t == (Type::Call { function: *function, arguments: *arguments }),
                    argsv == t@->Call_arguments,
                    argsv.len() == arguments@.len(),
                    i <= arguments@.len(),
                    out@ == mid + render_types(argsv, i as nat, verbose),
                decreases arguments@.len() - i,
            {
                proof {
                    assert(decreases_to!(*t => (*t)->Call_arguments));
                    assert(decreases_to!(*arguments => arguments@));
                    assert(decreases_to!(arguments@ => arguments@[i as int]));
                    assert(argsv[i as int] == arguments@[i as int]@);
                }
                if i > 0 {
                    push_str(out, ", ");
                }
                push_type(out, &arguments[i], verbose);
                proof {
                    if i == 0 {
                        assert(out@ =~= mid + render_types(argsv, (i + 1) as nat, verbose));
                    } else {
                        assert(out@ =~= mid + render_types(argsv, (i + 1) as nat, verbose));
                    }
                }
                i = i + 1;
            }
            push_str(out, ")");
            proof {
                assert(out@ =~= start + render_type(t@, verbose));
            }
        },
        Type::Function { parameters, return_type } => {
            push_str(out, "(");
            let ghost mid = out@;
            let ghost psv = t@->Function_parameters;
            let mut i: usize = 0;
            while i < parameters.len()
                invariant
                    *t == (Type::Function { parameters: *parameters, return_type: *return_type }),
                    psv == t@->Function_parameters,
                    psv.len() == parameters@.len(),
                    i <= parameters@.len(),
                    out@ == mid + render_types(psv, i as nat, verbose),
                decreases parameters@.len() - i,
            {
                proof {
                    assert(decreases_to!(*t => (*t)->Function_parameters));
                    assert(decreases_to!(*parameters => parameters@));
                    assert(decreases_to!(parameters@ => parameters@[i as int]));
                    assert(psv[i as int] == parameters@[i as int]@);
                }
                if i > 0 {
                    push_str(out, ", ");
                }
                push_type(out, &parameters[i], verbose);
                proof {
                    assert(out@ =~= mid + render_types(psv, (i + 1) as nat, verbose));
                }
                i = i + 1;
            }
            push_str(out, ") -> ");
            proof {
                assert(decreases_to!(*t => (*t)->Function_return_type));
            }
            push_type(out, return_type, verbose);
            proof {
                assert(out@ =~= start + render_type(t@, verbose));
            }
        },
        Type::Constructor { canonical_value, source_value, .. } => {
            match source_value {
                Some(q) => {
                    match &q.module_name {
                        Some(m) => {
                            push_str(out, m.0.as_str());
                            push_str(out, ".");
                        },
                        None => {},
                    }
                    push_str(out, q.value.0.as_str());
                },
                None => {
                    push_str(out, canonical_value.value.0.as_str());
                },
            }
            proof {
                assert(out@ =~= start + render_type(t@, verbose));
            }
        },
        Type::ConstructorAlias { alias_canonical_value, alias_source_value, .. } => {
            match alias_source_value {
                Some(q) => {
                    match &q.module_name {
                        Some(m) => {
                            push_str(out, m.0.as_str());
                            push_str(out, ".");
                        },
                        None => {},
                    }
                    push_str(out, q.value.0.as_str());
                },
                None => {
                    push_str(out, alias_canonical_value.value.0.as_str());
                },
            }
            proof {
                assert(out@ =~= start + render_type(t@, verbose));
            }
        },
        Type::PrimConstructor(p) => {
            push_prim_name(out, *p);
        },
        Type::Variable { var, source_name, .. } => {
            push_variable_name(out, *var, source_name, verbose);
        },
        Type::RecordClosed { closed_row, .. } => {
            if closed_row.len() == 0 {
                push_str(out, "{}");
                proof {
                    assert(out@ =~= start + render_type(t@, verbose));
                }
            } else {
                push_str(out, "{ ");
                push_row(out, t, closed_row, verbose);
                push_str(out, " }");
                proof {
                    assert(out@ =~= start + render_type(t@, verbose));
                }
            }
        },
        Type::RecordOpen { open_var, open_source_name, open_row, .. } => {
            push_str(out, "{ ");
            push_variable_name(out, *open_var, open_source_name, verbose);
            push_str(out, " | ");
            push_row(out, t, open_row, verbose);
            push_str(out, " }");
            proof {
                assert(out@ =~= start + render_type(t@, verbose));
            }
        },
    }
}

fn push_row(out: &mut String, t: &Type, row: &Vec<(Name, Type)>, verbose: bool)
    requires
        (t is RecordOpen && (*t)->open_row == *row) || (t is RecordClosed && (*t)->closed_row == *row),
    ensures
        final(out)@ == old(out)@ + render_row(
            if t is RecordOpen {
                t@->open_row
            } else {
                t@->closed_row
            },
            row@.len() as nat,
            verbose,
        ),
    decreases t, 0nat,
{
    let ghost rv = if t is RecordOpen {
        t@->open_row
    } else {
        t@->closed_row
    };
    let ghost start = out@;
    let mut i: usize = 0;
    while i < row.len()
        invariant
            (t is RecordOpen && (*t)->open_row == *row) || (t is RecordClosed && (*t)->closed_row == *row),
            rv == (if t is RecordOpen {
                t@->open_row
            } else {
                t@->closed_row
            }),
            rv.len() == row@.len(),
            i <= row@.len(),
            out@ == start + render_row(rv, i as nat, verbose),
        decreases row@.len() - i,
    {
        proof {
            if t is RecordOpen {
                assert(decreases_to!(*t => (*t)->open_row));
            } else {
                assert(decreases_to!(*t => (*t)->closed_row));
            }
            assert(decreases_to!(*row => row@));
            assert(decreases_to!(row@ => row@[i as int]));
            assert(decreases_to!(row@[i as int] => row@[i as int].1));
            assert(rv[i as int] == (row@[i as int].0@, row@[i as int].1@));
        }
        if i > 0 {
            push_str(out, ", ");
        }
        push_str(out, row[i].0.0.as_str());
        push_str(out, ": ");
        push_type(out, &row[i].1, verbose);
        proof {
            assert(out@ =~= start + render_row(rv, (i + 1) as nat, verbose));
        }
        i = i + 1;
    }
}

impl Type {
    /// Renders this type, anonymous variables as `$3`, named ones by their names.
    pub fn debug_render(&self) -> (r: String)
        ensures
            r@ == render_type(self@, false),
    {
        let mut out = String::new();
        push_type(&mut out, self, false);
        proof {
            assert(out@ =~= render_type(self@, false));
        }
        out
    }

    /// Renders this type, named variables followed by their numbers: `a$0`.
    pub fn debug_render_verbose(&self) -> (r: String)
        ensures
            r@ == render_type(self@, true),
    {
        let mut out = String::new();
        push_type(&mut out, self, true);
        proof {
            assert(out@ =~= render_type(self@, true));
        }
        out
    }
}

/// The quantified variables of a scheme, in decimal, separated by spaces.
pub open spec fn render_vars(vars: Seq<usize>, n: nat) -> Seq<char>
    decreases n,
{
    if n == 0 || n > vars.len() {
        Seq::empty()
    } else if n == 1 {
        decimal(vars[0] as nat)
    } else {
        render_vars(vars, (n - 1) as nat) + " "@ + decimal(vars[n - 1] as nat)
    }
}

/// The rendering of a scheme: `forall 0. (a$0) -> a$0`, or just the verbose
/// rendering of its type where it quantifies nothing.
pub open spec fn render_scheme(forall: Seq<usize>, signature: TypeV) -> Seq<char> {
    if forall.len() == 0 {
        render_type(signature, true)
    } else {
        "forall "@ + render_vars(forall, forall.len()) + ". "@ + render_type(signature, true)
    }
}

impl Scheme {
    /// Renders this scheme: `forall 0. (a$0) -> a$0`.
    pub fn debug_render(&self) -> (r: String)
        ensures
            r@ == render_scheme(self.forall@, self.signature@),
    {
        if self.forall.len() == 0 {
            return self.signature.debug_render_verbose();
        }
        let mut out = String::new();
        push_str(&mut out, "forall ");
        let ghost start = out@;
        let mut i: usize = 0;
        while i < self.forall.len()
            invariant
                i <= self.forall@.len(),
                out@ == start + render_vars(self.forall@, i as nat),
            decreases self.forall@.len() - i,
        {
            if i > 0 {
                push_str(&mut out, " ");
            }
            push_decimal(&mut out, self.forall[i]);
            proof {
                assert(out@ =~= start + render_vars(self.forall@, (i + 1) as nat));
            }
            i = i + 1;
        }
        push_str(&mut out, ". ");
        push_type(&mut out, &self.signature, true);
        proof {
            assert(out@ =~= render_scheme(self.forall@, self.signature@));
        }
        out
    }
}

} // verus!
