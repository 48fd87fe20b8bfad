//! The type variables that a type mentions, in order of first occurrence.
use crate::names::Name;
use crate::types::{type_view, Type, TypeV, NameV};
use vstd::prelude::*;

verus! {

/// Adds `x` to `acc` unless it is already there.
pub open spec fn insert_unique(acc: Seq<usize>, x: usize) -> Seq<usize> {
    if acc.contains(x) {
        acc
    } else {
        acc.push(x)
    }
}

/// The type variables of `t`, appended to `acc` in order of first occurrence.
pub open spec fn tv_acc(t: TypeV, acc: Seq<usize>) -> Seq<usize>
    decreases t, 0nat,
{
    match t {
        TypeV::Call { function, arguments } => tvs_acc(arguments, arguments.len(), tv_acc(*function, acc)),
        TypeV::Function { parameters, return_type } => tv_acc(
            *return_type,
            tvs_acc(parameters, parameters.len(), acc),
        ),
        TypeV::Variable { var, .. } => insert_unique(acc, var),
        TypeV::RecordOpen { open_var, open_row, .. } => rowtv_acc(
            open_row,
            open_row.len(),
            insert_unique(acc, open_var),
        ),
        TypeV::RecordClosed { closed_row, .. } => rowtv_acc(closed_row, closed_row.len(), acc),
        TypeV::ConstructorAlias { aliased_type, .. } => tv_acc(*aliased_type, acc),
        TypeV::Constructor { .. } => acc,
        TypeV::PrimConstructor(_) => acc,
    }
}

/// The type variables of the first `n` types of `ts`, in order.
pub open spec fn tvs_acc(ts: Seq<TypeV>, n: nat, acc: Seq<usize>) -> Seq<usize>
    decreases ts, n,
{
    if n == 0 || n > ts.len() {
        acc
    } else {
        tv_acc(ts[n - 1], tvs_acc(ts, (n - 1) as nat, acc))
    }
}

/// The type variables of the first `n` entries of a row, in order.
pub open spec fn rowtv_acc(row: Seq<(NameV, TypeV)>, n: nat, acc: Seq<usize>) -> Seq<usize>
    decreases row, n,
{
    if n == 0 || n > row.len() {
        acc
    } else {
        tv_acc(row[n - 1].1, rowtv_acc(row, (n - 1) as nat, acc))
    }
}

/// The type variables of `t`, in order of first occurrence.
pub open spec fn type_variables_spec(t: TypeV) -> Seq<usize> {
    tv_acc(t, Seq::empty())
}

pub fn push_unique(acc: &mut Vec<usize>, x: usize)
    ensures
        final(acc)@ == insert_unique(old(acc)@, x),
{
    let mut i: usize = 0;
    while i < acc.len()
        invariant
            i <= acc@.len(),
            acc@ == old(acc)@,
            forall|j: int| 0 <= j < i ==> acc@[j] != x,
        decreases acc@.len() - i,
    {
        if acc[i] == x {
            proof {
                assert(acc@.contains(x));
            }
            return;
        }
        i = i + 1;
    }
    proof {
        assert(!acc@.contains(x));
    }
    acc.push(x);
}

/// Whether `v` holds `x`.
pub fn vec_contains(v: &Vec<usize>, x: usize) -> (r: bool)
    ensures
        r == v@.contains(x),
{
    let mut i: usize = 0;
    while i < v.len()
        invariant
            i <= v@.len(),
            forall|j: int| 0 <= j < i ==> v@[j] != x,
        decreases v@.len() - i,
    {
        if v[i] == x {
            proof {
                assert(v@[i as int] == x);
            }
            return true;
        }
        i = i + 1;
    }
    false
}

fn type_variables_rec(t: &Type, acc: &mut Vec<usize>)
    ensures
        final(acc)@ == tv_acc(t@, old(acc)@),
    decreases t,
{
    match t {
        Type::Call { function, arguments } => {
            proof {
                assert(decreases_to!(*t => (*t)->Call_function));
            }
            type_variables_rec(function, acc);
            let ghost start = acc@;
            let ghost argsv = t@->Call_arguments;
            let mut i: usize = 0;
            while i < arguments.len()
                invariant
                    *t == (Type::Call { function: *function, arguments: *arguments }),
                    argsv == t@->Call_arguments,
                    argsv.len() == arguments@.len(),
                    i <= arguments@.len(),
                    acc@ == tvs_acc(argsv, i as nat, start),
                decreases arguments@.len() - i,
            {
                proof {
                    assert(decreases_to!(*t => (*t)->Call_arguments));
                    assert(decreases_to!(*arguments => arguments@));
                    assert(decreases_to!(arguments@ => arguments@[i as int]));
                    assert(argsv[i as int] == arguments@[i as int]@);
                }
                type_variables_rec(&arguments[i], acc);
                i = i + 1;
            }
        },
        Type::Function { parameters, return_type } => {
            let ghost start = acc@;
            let ghost psv = t@->Function_parameters;
            let mut i: usize = 0;
            while i < parameters.len()
                invariant
                    *t == (Type::Function { parameters: *parameters, return_type: *return_type }),
                    psv == t@->Function_parameters,
                    psv.len() == parameters@.len(),
                    i <= parameters@.len(),
                    acc@ == tvs_acc(psv, i as nat, start),
                decreases parameters@.len() - i,
            {
                proof {
                    assert(decreases_to!(*t => (*t)->Function_parameters));
                    assert(decreases_to!(*parameters => parameters@));
                    assert(decreases_to!(parameters@ => parameters@[i as int]));
                    assert(psv[i as int] == parameters@[i as int]@);
                }
                type_variables_rec(&parameters[i], acc);
                i = i + 1;
            }
            proof {
                assert(decreases_to!(*t => (*t)->Function_return_type));
            }
            type_variables_rec(return_type, acc);
        },
        Type::Variable { var, .. } => {
            push_unique(acc, *var);
        },
        Type::RecordOpen { open_var, open_row, .. } => {
            push_unique(acc, *open_var);
            rowtv_rec(t, open_row, acc);
        },
        Type::RecordClosed { closed_row, .. } => {
            rowtv_rec(t, closed_row, acc);
        },
        Type::ConstructorAlias { aliased_type, .. } => {
            proof {
                assert(decreases_to!(*t => (*t)->aliased_type));
            }
            type_variables_rec(aliased_type, acc);
        },
        Type::Constructor { .. } => {},
        Type::PrimConstructor(_) => {},
    }
}

fn rowtv_rec(t: &Type, row: &Vec<(Name, Type)>, acc: &mut Vec<usize>)
    requires
        (t is RecordOpen && (*t)->open_row == *row) || (t is RecordClosed && (*t)->closed_row == *row),
    ensures
        final(acc)@ == rowtv_acc(
            if t is RecordOpen {
                t@->open_row
            } else {
                t@->closed_row
            },
            row@.len() as nat,
            old(acc)@,
        ),
    decreases t, 0nat,
{
    let ghost rv = if t is RecordOpen {
        t@->open_row
    } else {
        t@->closed_row
    };
    let ghost start = acc@;
    let mut i: usize = 0;
    while i < row.len()
        invariant
            (t is RecordOpen && (*t)->open_row == *row) || (t is RecordClosed && (*t)->closed_row == *row),
            rv == (if t is RecordOpen {
                t@->open_row
            } else {
                t@->closed_row
            }),
            rv.len() == row@.len(),
            i <= row@.len(),
            acc@ == rowtv_acc(rv, i as nat, start),
        decreases row@.len() - i,
    {
        proof {
            if t is RecordOpen {
                assert(decreases_to!(*t => (*t)->open_row));
            } else {
                assert(decreases_to!(*t => (*t)->closed_row));
            }
            assert(decreases_to!(*row => row@));
            assert(decreases_to!(row@ => row@[i as int]));
            assert(decreases_to!(row@[i as int] => row@[i as int].1));
            assert(rv[i as int].1 == row@[i as int].1@);
        }
        type_variables_rec(&row[i].1, acc);
        i = i + 1;
    }
}

/// The type variables that `t` mentions, each once, in order of first occurrence.
pub fn type_variables(t: &Type) -> (r: Vec<usize>)
    ensures
        r@ == type_variables_spec(t@),
{
    let mut acc: Vec<usize> = Vec::new();
    type_variables_rec(t, &mut acc);
    acc
}

proof fn lemma_insert_unique(acc: Seq<usize>, x: usize)
    requires
        acc.no_duplicates(),
    ensures
        insert_unique(acc, x).no_duplicates(),
{
    if !acc.contains(x) {
        let r = acc.push(x);
        assert forall|i: int, j: int| 0 <= i < r.len() && 0 <= j < r.len() && i != j implies r[i] != r[j] by {
            if i == acc.len() {
                assert(acc[j] == r[j]);
            } else if j == acc.len() {
                assert(acc[i] == r[i]);
            }
        }
    }
}

proof fn lemma_tv_acc_unique(t: TypeV, acc: Seq<usize>)
    requires
        acc.no_duplicates(),
    ensures
        tv_acc(t, acc).no_duplicates(),
    decreases t, 0nat,
{
    match t {
        TypeV::Call { function, arguments } => {
            lemma_tv_acc_unique(*function, acc);
            lemma_tvs_acc_unique(arguments, arguments.len(), tv_acc(*function, acc));
        },
        TypeV::Function { parameters, return_type } => {
            lemma_tvs_acc_unique(parameters, parameters.len(), acc);
            lemma_tv_acc_unique(*return_type, tvs_acc(parameters, parameters.len(), acc));
        },
        TypeV::Variable { var, .. } => {
            lemma_insert_unique(acc, var);
        },
        TypeV::RecordOpen { open_var, open_row, .. } => {
            lemma_insert_unique(acc, open_var);
            lemma_rowtv_acc_unique(open_row, open_row.len(), insert_unique(acc, open_var));
        },
        TypeV::RecordClosed { closed_row, .. } => {
            lemma_rowtv_acc_unique(closed_row, closed_row.len(), acc);
        },
        TypeV::ConstructorAlias { aliased_type, .. } => {
            lemma_tv_acc_unique(*aliased_type, acc);
        },
        _ => {},
    }
}

proof fn lemma_tvs_acc_unique(ts: Seq<TypeV>, n: nat, acc: Seq<usize>)
    requires
        acc.no_duplicates(),
    ensures
        tvs_acc(ts, n, acc).no_duplicates(),
    decreases ts, n,
{
    if n > 0 && n <= ts.len() {
        lemma_tvs_acc_unique(ts, (n - 1) as nat, acc);
        lemma_tv_acc_unique(ts[n - 1], tvs_acc(ts, (n - 1) as nat, acc));
    }
}

proof fn lemma_rowtv_acc_unique(row: Seq<(NameV, TypeV)>, n: nat, acc: Seq<usize>)
    requires
        acc.no_duplicates(),
    ensures
        rowtv_acc(row, n, acc).no_duplicates(),
    decreases row, n,
{
    if n > 0 && n <= row.len() {
        lemma_rowtv_acc_unique(row, (n - 1) as nat, acc);
        lemma_tv_acc_unique(row[n - 1].1, rowtv_acc(row, (n - 1) as nat, acc));
    }
}

/// The type variables of a type name each variable once.
pub proof fn type_variables_each_once(t: TypeV)
    ensures
        type_variables_spec(t).no_duplicates(),
{
    lemma_tv_acc_unique(t, Seq::empty());
}

} // verus!
