//! Ordering a module's value declarations so that each comes after those it
//! refers to; declarations that refer to one another form cyclic groups.
use crate::names::{copy_string, string_eq, Name};
use crate::pre_ast as pre;
use vstd::multiset::Multiset;
use vstd::prelude::*;

verus! {

/// The views of a list of strings.
pub open spec fn strs_view(v: Seq<String>) -> Seq<Seq<char>> {
    Seq::new(v.len(), |i: int| v[i]@)
}

/// Whether a function parameter binds the name `x`.
pub open spec fn binds(b: pre::FunctionBinder, x: Seq<char>) -> bool {
    match b {
        pre::FunctionBinder::Name { value, .. } => value@ == x,
        pre::FunctionBinder::Unused { .. } => false,
    }
}

/// The names that a function's parameters bind.
pub open spec fn binder_names(bs: Seq<pre::FunctionBinder>) -> Set<Seq<char>> {
    Set::new(|x: Seq<char>| exists|i: int| 0 <= i < bs.len() && #[trigger] binds(bs[i], x))
}

/// The declarations among `nodes` that an expression refers to, by unqualified
/// name, where no binder in between shadows them.
pub open spec fn refs(e: pre::Expression, nodes: Set<Seq<char>>) -> Set<Seq<char>>
    decreases e, 0nat,
{
    match e {
        pre::Expression::Variable { variable, .. } => if variable.module_name is None && nodes.contains(
            variable.value@,
        ) {
            set![variable.value@]
        } else {
            Set::empty()
        },
        pre::Expression::Call { function, arguments, .. } => refs(*function, nodes) + refs_args(
            arguments@,
            arguments@.len(),
            nodes,
        ),
        pre::Expression::Function { binders, body, .. } => refs(*body, nodes - binder_names(binders@)),
        pre::Expression::If { condition, true_clause, false_clause, .. } => refs(*condition, nodes) + refs(
            *true_clause,
            nodes,
        ) + refs(*false_clause, nodes),
        pre::Expression::Match { expression, head_arm, tail_arms, .. } => refs(*expression, nodes) + refs(
            head_arm.1,
            nodes,
        ) + refs_arms(tail_arms@, tail_arms@.len(), nodes),
        pre::Expression::Effect { effect, .. } => refs_effect(effect, nodes),
        pre::Expression::Array { elements, .. } => refs_list(elements@, elements@.len(), nodes),
        pre::Expression::Record { fields, .. } => refs_fields(fields@, fields@.len(), nodes),
        pre::Expression::RecordAccess { target, .. } => refs(*target, nodes),
        _ => Set::empty(),
    }
}

pub open spec fn refs_effect(effect: pre::Effect, nodes: Set<Seq<char>>) -> Set<Seq<char>>
    decreases effect, 0nat,
{
    match effect {
        pre::Effect::Return { expression } => refs(*expression, nodes),
        pre::Effect::Bind { name, expression, rest, .. } => refs(*expression, nodes) + refs_effect(
            *rest,
            nodes.remove(name@),
        ),
        pre::Effect::Expression { expression, rest } => refs(*expression, nodes) + match rest {
            Some(rest) => refs_effect(*rest, nodes),
            None => Set::empty(),
        },
    }
}

pub open spec fn refs_args(args: Seq<pre::Argument>, n: nat, nodes: Set<Seq<char>>) -> Set<Seq<char>>
    decreases args, n,
{
    if n == 0 || n > args.len() {
        Set::empty()
    } else {
        refs_args(args, (n - 1) as nat, nodes) + match args[n - 1] {
            pre::Argument::Expression(e) => refs(e, nodes),
        }
    }
}

pub open spec fn refs_list(es: Seq<pre::Expression>, n: nat, nodes: Set<Seq<char>>) -> Set<Seq<char>>
    decreases es, n,
{
    if n == 0 || n > es.len() {
        Set::empty()
    } else {
        refs_list(es, (n - 1) as nat, nodes) + refs(es[n - 1], nodes)
    }
}

pub open spec fn refs_arms(arms: Seq<(pre::Pattern, pre::Expression)>, n: nat, nodes: Set<Seq<char>>) -> Set<
    Seq<char>,
>
    decreases arms, n,
{
    if n == 0 || n > arms.len() {
        Set::empty()
    } else {
        refs_arms(arms, (n - 1) as nat, nodes) + refs(arms[n - 1].1, nodes)
    }
}

pub open spec fn refs_fields(fields: Seq<(Name, pre::Expression)>, n: nat, nodes: Set<Seq<char>>) -> Set<
    Seq<char>,
>
    decreases fields, n,
{
    if n == 0 || n > fields.len() {
        Set::empty()
    } else {
        refs_fields(fields, (n - 1) as nat, nodes) + refs(fields[n - 1].1, nodes)
    }
}

/// What an expression refers to includes what each of its parts refers to,
/// under the names that the binders in between leave unshadowed: the
/// condition and both branches of a conditional, the matched expression and
/// every arm of a match, the function and every argument of a call, a
/// function's body, every element of an array, every field of a record and an
/// accessed record; and an unqualified variable that names a declaration
/// refers to it.
pub proof fn refs_include_parts(e: pre::Expression, nodes: Set<Seq<char>>)
    ensures
        match e {
            pre::Expression::Variable { variable, .. } => variable.module_name is None && nodes.contains(
                variable.value@,
            ) ==> refs(e, nodes).contains(variable.value@),
            pre::Expression::Call { function, arguments, .. } => {
                &&& refs(*function, nodes).subset_of(refs(e, nodes))
                &&& forall|i: int|
                    0 <= i < arguments@.len() ==> refs((#[trigger] arguments@[i])->0, nodes).subset_of(
                        refs(e, nodes),
                    )
            },
            pre::Expression::Function { binders, body, .. } => refs(
                *body,
                nodes - binder_names(binders@),
            ).subset_of(refs(e, nodes)),
            pre::Expression::If { condition, true_clause, false_clause, .. } => {
                &&& refs(*condition, nodes).subset_of(refs(e, nodes))
                &&& refs(*true_clause, nodes).subset_of(refs(e, nodes))
                &&& refs(*false_clause, nodes).subset_of(refs(e, nodes))
            },
            pre::Expression::Match { expression, head_arm, tail_arms, .. } => {
                &&& refs(*expression, nodes).subset_of(refs(e, nodes))
                &&& refs(head_arm.1, nodes).subset_of(refs(e, nodes))
                &&& forall|i: int|
                    0 <= i < tail_arms@.len() ==> refs((#[trigger] tail_arms@[i]).1, nodes).subset_of(
                        refs(e, nodes),
                    )
            },
            pre::Expression::Array { elements, .. } => forall|i: int|
                0 <= i < elements@.len() ==> refs(#[trigger] elements@[i], nodes).subset_of(refs(e, nodes)),
            pre::Expression::Record { fields, .. } => forall|i: int|
                0 <= i < fields@.len() ==> refs((#[trigger] fields@[i]).1, nodes).subset_of(refs(e, nodes)),
            pre::Expression::RecordAccess { target, .. } => refs(*target, nodes).subset_of(refs(e, nodes)),
            _ => true,
        },
{
    match e {
        pre::Expression::Call { arguments, .. } => {
            assert forall|i: int| 0 <= i < arguments@.len() implies refs(
                (#[trigger] arguments@[i])->0,
                nodes,
            ).subset_of(refs(e, nodes)) by {
                lemma_refs_args_include(arguments@, arguments@.len(), nodes, i);
            }
        },
        pre::Expression::Match { tail_arms, .. } => {
            assert forall|i: int| 0 <= i < tail_arms@.len() implies refs(
                (#[trigger] tail_arms@[i]).1,
                nodes,
            ).subset_of(refs(e, nodes)) by {
                lemma_refs_arms_include(tail_arms@, tail_arms@.len(), nodes, i);
            }
        },
        pre::Expression::Array { elements, .. } => {
            assert forall|i: int| 0 <= i < elements@.len() implies refs(#[trigger] elements@[i], nodes).subset_of(
                refs(e, nodes),
            ) by {
                lemma_refs_list_include(elements@, elements@.len(), nodes, i);
            }
        },
        pre::Expression::Record { fields, .. } => {
            assert forall|i: int| 0 <= i < fields@.len() implies refs((#[trigger] fields@[i]).1, nodes).subset_of(
                refs(e, nodes),
            ) by {
                lemma_refs_fields_include(fields@, fields@.len(), nodes, i);
            }
        },
        _ => {},
    }
}

/// What a block of effects refers to includes what each of its expressions
/// refers to, and what the rest of the block refers to under the names that
/// a bind leaves unshadowed.
pub proof fn refs_effect_include_parts(effect: pre::Effect, nodes: Set<Seq<char>>)
    ensures
        match effect {
            pre::Effect::Return { expression } => refs(*expression, nodes).subset_of(refs_effect(effect, nodes)),
            pre::Effect::Bind { name, expression, rest, .. } => {
                &&& refs(*expression, nodes).subset_of(refs_effect(effect, nodes))
                &&& refs_effect(*rest, nodes.remove(name@)).subset_of(refs_effect(effect, nodes))
            },
            pre::Effect::Expression { expression, rest } => {
                &&& refs(*expression, nodes).subset_of(refs_effect(effect, nodes))
                &&& rest matches Some(r) ==> refs_effect(*r, nodes).subset_of(refs_effect(effect, nodes))
            },
        },
{
}

/// An expression refers only to declarations among `nodes`, and never to a
/// name that the parameters of a function around the reference bind: what a
/// function refers to excludes its own parameters' names.
pub proof fn refs_within(e: pre::Expression, nodes: Set<Seq<char>>)
    ensures
        refs(e, nodes).subset_of(nodes),
        e matches pre::Expression::Function { binders, .. } ==> refs(e, nodes).disjoint(binder_names(binders@)),
    decreases e, 0nat,
{
    match e {
        pre::Expression::Call { function, arguments, .. } => {
            refs_within(*function, nodes);
            lemma_refs_args_within(arguments@, arguments@.len(), nodes);
        },
        pre::Expression::Function { binders, body, .. } => {
            refs_within(*body, nodes - binder_names(binders@));
        },
        pre::Expression::If { condition, true_clause, false_clause, .. } => {
            refs_within(*condition, nodes);
            refs_within(*true_clause, nodes);
            refs_within(*false_clause, nodes);
        },
        pre::Expression::Match { expression, head_arm, tail_arms, .. } => {
            refs_within(*expression, nodes);
            refs_within(head_arm.1, nodes);
            lemma_refs_arms_within(tail_arms@, tail_arms@.len(), nodes);
        },
        pre::Expression::Effect { effect, .. } => {
            refs_effect_within(effect, nodes);
        },
        pre::Expression::Array { elements, .. } => {
            lemma_refs_list_within(elements@, elements@.len(), nodes);
        },
        pre::Expression::Record { fields, .. } => {
            lemma_refs_fields_within(fields@, fields@.len(), nodes);
        },
        pre::Expression::RecordAccess { target, .. } => {
            refs_within(*target, nodes);
        },
        _ => {},
    }
}

/// A block of effects refers only to declarations among `nodes`; past a bind,
/// never to the bound name: what a bind refers to beyond its own expression
/// excludes that name.
pub proof fn refs_effect_within(effect: pre::Effect, nodes: Set<Seq<char>>)
    ensures
        refs_effect(effect, nodes).subset_of(nodes),
        effect matches pre::Effect::Bind { name, expression, .. } ==> refs_effect(effect, nodes).subset_of(
            refs(*expression, nodes) + nodes.remove(name@),
        ),
    decreases effect, 0nat,
{
    match effect {
        pre::Effect::Return { expression } => {
            refs_within(*expression, nodes);
        },
        pre::Effect::Bind { name, expression, rest, .. } => {
            refs_within(*expression, nodes);
            refs_effect_within(*rest, nodes.remove(name@));
        },
        pre::Effect::Expression { expression, rest } => {
            refs_within(*expression, nodes);
            match rest {
                Some(r) => {
                    refs_effect_within(*r, nodes);
                },
                None => {},
            }
        },
    }
}

proof fn lemma_refs_args_within(args: Seq<pre::Argument>, n: nat, nodes: Set<Seq<char>>)
    ensures
        refs_args(args, n, nodes).subset_of(nodes),
    decreases args, n,
{
    if n == 0 || n > args.len() {
    } else {
        lemma_refs_args_within(args, (n - 1) as nat, nodes);
        match args[n - 1] {
            pre::Argument::Expression(e) => {
                refs_within(e, nodes);
            },
        }
    }
}

proof fn lemma_refs_list_within(es: Seq<pre::Expression>, n: nat, nodes: Set<Seq<char>>)
    ensures
        refs_list(es, n, nodes).subset_of(nodes),
    decreases es, n,
{
    if n == 0 || n > es.len() {
    } else {
        lemma_refs_list_within(es, (n - 1) as nat, nodes);
        refs_within(es[n - 1], nodes);
    }
}

proof fn lemma_refs_arms_within(arms: Seq<(pre::Pattern, pre::Expression)>, n: nat, nodes: Set<Seq<char>>)
    ensures
        refs_arms(arms, n, nodes).subset_of(nodes),
    decreases arms, n,
{
    if n == 0 || n > arms.len() {
    } else {
        lemma_refs_arms_within(arms, (n - 1) as nat, nodes);
        refs_within(arms[n - 1].1, nodes);
    }
}

proof fn lemma_refs_fields_within(fields: Seq<(Name, pre::Expression)>, n: nat, nodes: Set<Seq<char>>)
    ensures
        refs_fields(fields, n, nodes).subset_of(nodes),
    decreases fields, n,
{
    if n == 0 || n > fields.len() {
    } else {
        lemma_refs_fields_within(fields, (n - 1) as nat, nodes);
        refs_within(fields[n - 1].1, nodes);
    }
}

proof fn lemma_refs_args_include(args: Seq<pre::Argument>, n: nat, nodes: Set<Seq<char>>, i: int)
    requires
        0 <= i < n <= args.len(),
    ensures
        refs(args[i]->0, nodes).subset_of(refs_args(args, n, nodes)),
    decreases n,
{
    if i < n - 1 {
        lemma_refs_args_include(args, (n - 1) as nat, nodes, i);
    }
}

proof fn lemma_refs_arms_include(arms: Seq<(pre::Pattern, pre::Expression)>, n: nat, nodes: Set<Seq<char>>, i: int)
    requires
        0 <= i < n <= arms.len(),
    ensures
        refs(arms[i].1, nodes).subset_of(refs_arms(arms, n, nodes)),
    decreases n,
{
    if i < n - 1 {
        lemma_refs_arms_include(arms, (n - 1) as nat, nodes, i);
    }
}

proof fn lemma_refs_list_include(es: Seq<pre::Expression>, n: nat, nodes: Set<Seq<char>>, i: int)
    requires
        0 <= i < n <= es.len(),
    ensures
        refs(es[i], nodes).subset_of(refs_list(es, n, nodes)),
    decreases n,
{
    if i < n - 1 {
        lemma_refs_list_include(es, (n - 1) as nat, nodes, i);
    }
}

proof fn lemma_refs_fields_include(fields: Seq<(Name, pre::Expression)>, n: nat, nodes: Set<Seq<char>>, i: int)
    requires
        0 <= i < n <= fields.len(),
    ensures
        refs(fields[i].1, nodes).subset_of(refs_fields(fields, n, nodes)),
    decreases n,
{
    if i < n - 1 {
        lemma_refs_fields_include(fields, (n - 1) as nat, nodes, i);
    }
}

/// Whether `v` holds a string with the contents of `s`.
pub fn strs_contain(v: &Vec<String>, s: &String) -> (r: bool)
    ensures
        r == strs_view(v@).contains(s@),
{
    let mut i: usize = 0;
    while i < v.len()
        invariant
            i <= v@.len(),
            forall|j: int| 0 <= j < i ==> v@[j]@ != s@,
        decreases v@.len() - i,
    {
        if string_eq(&v[i], s) {
            proof {
                assert(strs_view(v@)[i as int] == s@);
            }
            return true;
        }
        i = i + 1;
    }
    proof {
        if strs_view(v@).contains(s@) {
            let k = choose|k: int| 0 <= k < strs_view(v@).len() && strs_view(v@)[k] == s@;
            assert(v@[k]@ == s@);
        }
    }
    false
}

/// Adds `s` to `v` unless it is there already.
fn push_str_unique(v: &mut Vec<String>, s: &String)
    ensures
        strs_view(final(v)@).to_set() == strs_view(old(v)@).to_set().insert(s@),
{
    let ghost before = strs_view(v@);
    if !strs_contain(v, s) {
        v.push(copy_string(s));
        proof {
            assert(strs_view(v@) =~= before.push(s@));
            assert(strs_view(v@).to_set() =~= before.to_set().insert(s@)) by {
                assert forall|x: Seq<char>| strs_view(v@).contains(x) <==> (before.contains(x) || x == s@) by {
                    if strs_view(v@).contains(x) && x != s@ {
                        let k = choose|k: int| 0 <= k < strs_view(v@).len() && strs_view(v@)[k] == x;
                        assert(before[k] == x);
                    }
                    if before.contains(x) {
                        let k = choose|k: int| 0 <= k < before.len() && before[k] == x;
                        assert(strs_view(v@)[k] == x);
                    }
                    if x == s@ {
                        assert(strs_view(v@)[before.len() as int] == x);
                    }
                }
            }
        }
    } else {
        proof {
            assert(before.to_set() =~= before.to_set().insert(s@));
        }
    }
}

/// `nodes` without the names in `bound`.
fn without_names(nodes: &Vec<String>, bound: &Vec<String>) -> (r: Vec<String>)
    ensures
        strs_view(r@).to_set() == strs_view(nodes@).to_set() - strs_view(bound@).to_set(),
{
    let mut out: Vec<String> = Vec::new();
    let mut i: usize = 0;
    while i < nodes.len()
        invariant
            i <= nodes@.len(),
            strs_view(out@).to_set() == strs_view(nodes@.subrange(0, i as int)).to_set() - strs_view(bound@).to_set(),
        decreases nodes@.len() - i,
    {
        let ghost before = out@;
        if !strs_contain(bound, &nodes[i]) {
            push_str_unique(&mut out, &nodes[i]);
        }
        proof {
            let pre_ = strs_view(nodes@.subrange(0, i as int));
            let post = strs_view(nodes@.subrange(0, i + 1));
            assert(post =~= pre_.push(nodes@[i as int]@));
            assert(post.to_set() =~= pre_.to_set().insert(nodes@[i as int]@)) by {
                assert forall|x: Seq<char>| post.contains(x) <==> (pre_.contains(x) || x == nodes@[i as int]@) by {
                    if post.contains(x) && x != nodes@[i as int]@ {
                        let k = choose|k: int| 0 <= k < post.len() && post[k] == x;
                        assert(pre_[k] == x);
                    }
                    if pre_.contains(x) {
                        let k = choose|k: int| 0 <= k < pre_.len() && pre_[k] == x;
                        assert(post[k] == x);
                    }
                    if x == nodes@[i as int]@ {
                        assert(post[i as int] == x);
                    }
                }
            }
            assert(strs_view(out@).to_set() =~= post.to_set() - strs_view(bound@).to_set());
        }
        i = i + 1;
    }
    proof {
        assert(nodes@.subrange(0, nodes@.len() as int) =~= nodes@);
    }
    out
}

/// The names that a function's parameters bind.
fn binder_names_exec(binders: &Vec<pre::FunctionBinder>) -> (r: Vec<String>)
    ensures
        strs_view(r@).to_set() == binder_names(binders@),
{
    let mut out: Vec<String> = Vec::new();
    let mut i: usize = 0;
    while i < binders.len()
        invariant
            i <= binders@.len(),
            strs_view(out@).to_set() == binder_names(binders@.subrange(0, i as int)),
        decreases binders@.len() - i,
    {
        let ghost before = strs_view(out@).to_set();
        match &binders[i] {
            pre::FunctionBinder::Name { value, .. } => {
                push_str_unique(&mut out, &value.0);
            },
            pre::FunctionBinder::Unused { .. } => {},
        }
        proof {
            let pre_ = binders@.subrange(0, i as int);
            let post = binders@.subrange(0, i + 1);
            assert(forall|x: Seq<char>| strs_view(out@).to_set().contains(x) <==> (before.contains(x) || binds(binders@[i as int], x)));
            assert forall|x: Seq<char>| binder_names(post).contains(x) <==> (binder_names(pre_).contains(x) || binds(binders@[i as int], x)) by {
                if binder_names(pre_).contains(x) {
                    let k = choose|k: int| 0 <= k < pre_.len() && #[trigger] binds(pre_[k], x);
                    assert(post[k] == pre_[k]);
                    assert(binds(post[k], x));
                }
                if binds(binders@[i as int], x) {
                    assert(post[i as int] == binders@[i as int]);
                    assert(binds(post[i as int], x));
                }
                if binder_names(post).contains(x) {
                    let k = choose|k: int| 0 <= k < post.len() && #[trigger] binds(post[k], x);
                    if k < i {
                        assert(pre_[k] == post[k]);
                        assert(binds(pre_[k], x));
                    }
                }
            }
            assert(binder_names(post) =~= strs_view(out@).to_set());
        }
        i = i + 1;
    }
    proof {
        assert(binders@.subrange(0, binders@.len() as int) =~= binders@);
    }
    out
}

/// Adds to `accum` the declarations among `nodes` that `expression` refers to.
pub fn get_connected_nodes_rec(expression: &pre::Expression, nodes: &Vec<String>, accum: &mut Vec<String>)
    ensures
        strs_view(final(accum)@).to_set() == strs_view(old(accum)@).to_set() + refs(
            *expression,
            strs_view(nodes@).to_set(),
        ),
    decreases expression, 0nat,
{
    let ghost ns = strs_view(nodes@).to_set();
    let ghost start = strs_view(accum@).to_set();
    match expression {
        pre::Expression::Variable { variable, .. } => {
            if variable.module_name.is_none() && strs_contain(nodes, &variable.value.0) {
                push_str_unique(accum, &variable.value.0);
                proof {
                    assert(strs_view(accum@).to_set() =~= start + refs(*expression, ns));
                }
            } else {
                proof {
                    assert(strs_view(accum@).to_set() =~= start + refs(*expression, ns));
                }
            }
        },
        pre::Expression::Call { function, arguments, .. } => {
            get_connected_nodes_rec(function, nodes, accum);
            let ghost mid = strs_view(accum@).to_set();
            let mut i: usize = 0;
            while i < arguments.len()
                invariant
                    *expression == (pre::Expression::Call {
                        span: (*expression)->Call_span,
                        function: *function,
                        arguments: *arguments,
                    }),
                    ns == strs_view(nodes@).to_set(),
                    i <= arguments@.len(),
                    strs_view(accum@).to_set() == mid + refs_args(arguments@, i as nat, ns),
                decreases arguments@.len() - i,
            {
                proof {
                    assert(decreases_to!(*expression => (*expression)->Call_arguments));
                    assert(decreases_to!(*arguments => arguments@));
                    assert(decreases_to!(arguments@ => arguments@[i as int]));
                }
                match &arguments[i] {
                    pre::Argument::Expression(e) => {
                        proof {
                            assert(decreases_to!(arguments@[i as int] => *e));
                        }
                        get_connected_nodes_rec(e, nodes, accum);
                    },
                }
                proof {
                    assert(strs_view(accum@).to_set() =~= mid + refs_args(arguments@, (i + 1) as nat, ns));
                }
                i = i + 1;
            }
            proof {
                assert(strs_view(accum@).to_set() =~= start + refs(*expression, ns));
            }
        },
        pre::Expression::Function { binders, body, .. } => {
            if binders.len() > 0 {
                let bound = binder_names_exec(binders);
                let inner = without_names(nodes, &bound);
                get_connected_nodes_rec(body, &inner, accum);
            } else {
                proof {
                    assert(binder_names(binders@) =~= Set::<Seq<char>>::empty());
                    assert(ns - binder_names(binders@) =~= ns);
                }
                get_connected_nodes_rec(body, nodes, accum);
            }
            proof {
                assert(strs_view(accum@).to_set() =~= start + refs(*expression, ns));
            }
        },
        pre::Expression::If { condition, true_clause, false_clause, .. } => {
            get_connected_nodes_rec(condition, nodes, accum);
            get_connected_nodes_rec(true_clause, nodes, accum);
            get_connected_nodes_rec(false_clause, nodes, accum);
            proof {
                assert(strs_view(accum@).to_set() =~= start + refs(*expression, ns));
            }
        },
        pre::Expression::Match { expression: matched, head_arm, tail_arms, .. } => {
            get_connected_nodes_rec(matched, nodes, accum);
            proof {
                assert(decreases_to!(*expression => (*expression)->head_arm));
                assert(decreases_to!((*expression)->head_arm => ((*expression)->head_arm).1));
            }
            get_connected_nodes_rec(&head_arm.1, nodes, accum);
            let ghost mid = strs_view(accum@).to_set();
            let mut i: usize = 0;
            while i < tail_arms.len()
                invariant
                    *expression == (pre::Expression::Match {
                        span: (*expression)->Match_span,
                        expression: *matched,
                        head_arm: *head_arm,
                        tail_arms: *tail_arms,
                    }),
                    ns == strs_view(nodes@).to_set(),
                    i <= tail_arms@.len(),
                    strs_view(accum@).to_set() == mid + refs_arms(tail_arms@, i as nat, ns),
                decreases tail_arms@.len() - i,
            {
                proof {
                    assert(decreases_to!(*expression => (*expression)->tail_arms));
                    assert(decreases_to!(*tail_arms => tail_arms@));
                    assert(decreases_to!(tail_arms@ => tail_arms@[i as int]));
                    assert(decreases_to!(tail_arms@[i as int] => tail_arms@[i as int].1));
                }
                get_connected_nodes_rec(&tail_arms[i].1, nodes, accum);
                proof {
                    assert(strs_view(accum@).to_set() =~= mid + refs_arms(tail_arms@, (i + 1) as nat, ns));
                }
                i = i + 1;
            }
            proof {
                assert(strs_view(accum@).to_set() =~= start + refs(*expression, ns));
            }
        },
        pre::Expression::Effect { effect, .. } => {
            get_connected_nodes_rec_effect(effect, nodes, accum);
        },
        pre::Expression::Array { elements, .. } => {
            let mut i: usize = 0;
            while i < elements.len()
                invariant
                    *expression == (pre::Expression::Array { span: (*expression)->Array_span, elements: *elements }),
                    ns == strs_view(nodes@).to_set(),
                    i <= elements@.len(),
                    strs_view(accum@).to_set() == start + refs_list(elements@, i as nat, ns),
                decreases elements@.len() - i,
            {
                proof {
                    assert(decreases_to!(*expression => (*expression)->Array_elements));
                    assert(decreases_to!(*elements => elements@));
                    assert(decreases_to!(elements@ => elements@[i as int]));
                }
                get_connected_nodes_rec(&elements[i], nodes, accum);
                proof {
                    assert(strs_view(accum@).to_set() =~= start + refs_list(elements@, (i + 1) as nat, ns));
                }
                i = i + 1;
            }
        },
        pre::Expression::Record { fields, .. } => {
            let mut i: usize = 0;
            while i < fields.len()
                invariant
                    *expression == (pre::Expression::Record { span: (*expression)->Record_span, fields: *fields }),
                    ns == strs_view(nodes@).to_set(),
                    i <= fields@.len(),
                    strs_view(accum@).to_set() == start + refs_fields(fields@, i as nat, ns),
                decreases fields@.len() - i,
            {
                proof {
                    assert(decreases_to!(*expression => (*expression)->Record_fields));
                    assert(decreases_to!(*fields => fields@));
                    assert(decreases_to!(fields@ => fields@[i as int]));
                    assert(decreases_to!(fields@[i as int] => fields@[i as int].1));
                }
                get_connected_nodes_rec(&fields[i].1, nodes, accum);
                proof {
                    assert(strs_view(accum@).to_set() =~= start + refs_fields(fields@, (i + 1) as nat, ns));
                }
                i = i + 1;
            }
        },
        pre::Expression::RecordAccess { target, .. } => {
            get_connected_nodes_rec(target, nodes, accum);
        },
        _ => {
            proof {
                assert(strs_view(accum@).to_set() =~= start + refs(*expression, ns));
            }
        },
    }
}

/// Adds to `accum` the declarations among `nodes` that an effect block refers to.
pub fn get_connected_nodes_rec_effect(effect: &pre::Effect, nodes: &Vec<String>, accum: &mut Vec<String>)
    ensures
        strs_view(final(accum)@).to_set() == strs_view(old(accum)@).to_set() + refs_effect(
            *effect,
            strs_view(nodes@).to_set(),
        ),
    decreases effect, 0nat,
{
    let ghost ns = strs_view(nodes@).to_set();
    let ghost start = strs_view(accum@).to_set();
    match effect {
        pre::Effect::Return { expression } => {
            get_connected_nodes_rec(expression, nodes, accum);
        },
        pre::Effect::Bind { name, expression, rest, .. } => {
            get_connected_nodes_rec(expression, nodes, accum);
            let mut bound: Vec<String> = Vec::new();
            bound.push(copy_string(&name.0));
            let inner = without_names(nodes, &bound);
            proof {
                assert(strs_view(bound@) =~= seq![name@]);
                assert(strs_view(bound@).to_set() =~= set![name@]) by {
                    assert forall|x: Seq<char>| strs_view(bound@).contains(x) <==> x == name@ by {
                        if x == name@ {
                            assert(strs_view(bound@)[0] == x);
                        }
                    }
                }
                assert(ns - set![name@] =~= ns.remove(name@));
            }
            get_connected_nodes_rec_effect(rest, &inner, accum);
            proof {
                assert(strs_view(accum@).to_set() =~= start + refs_effect(*effect, ns));
            }
        },
        pre::Effect::Expression { expression, rest } => {
            get_connected_nodes_rec(expression, nodes, accum);
            match rest {
                Some(rest) => {
                    get_connected_nodes_rec_effect(rest, nodes, accum);
                },
                None => {},
            }
            proof {
                assert(strs_view(accum@).to_set() =~= start + refs_effect(*effect, ns));
            }
        },
    }
}

/// A group of declarations in dependency order: one that does not refer to
/// itself, or several (or one) that refer to each other.
pub enum Scc<T> {
    Acyclic(T),
    Cyclic(Vec<T>),
}

/// A named value declaration of a module.
pub struct ValueDeclaration {
    pub name: Name,
    pub expression: pre::Expression,
}

/// Declarations sort by their names.
impl crate::text::TextKey for ValueDeclaration {
    open spec fn text_key(&self) -> Seq<char> {
        self.name@
    }

    fn key_str(&self) -> (r: &str) {
        self.name.0.as_str()
    }
}

/// The declarations of a group.
pub open spec fn scc_members(scc: Scc<ValueDeclaration>) -> Seq<ValueDeclaration> {
    match scc {
        Scc::Acyclic(d) => seq![d],
        Scc::Cyclic(ds) => ds@,
    }
}

/// The declarations of the groups, group after group.
pub open spec fn flatten(groups: Seq<Scc<ValueDeclaration>>) -> Seq<ValueDeclaration>
    decreases groups.len(),
{
    if groups.len() == 0 {
        Seq::empty()
    } else {
        flatten(groups.drop_last()) + scc_members(groups.last())
    }
}

/// The names that the declarations declare.
pub open spec fn declared_names(ds: Seq<ValueDeclaration>) -> Set<Seq<char>> {
    Set::new(|x: Seq<char>| exists|k: int| 0 <= k < ds.len() && ds[k].name@ == x)
}

/// Whether `d` refers to `e`: its expression names `e` among `names`.
pub open spec fn refers_to(d: ValueDeclaration, e: ValueDeclaration, names: Set<Seq<char>>) -> bool {
    refs(d.expression, names).contains(e.name@)
}

/// Every declaration of `all` that a grouped declaration refers to is in the
/// same group or an earlier one.
pub open spec fn refers_back(groups: Seq<Scc<ValueDeclaration>>, all: Seq<ValueDeclaration>) -> bool {
    forall|i: int, d: ValueDeclaration, e: ValueDeclaration|
        0 <= i < groups.len() && #[trigger] scc_members(groups[i]).contains(d) && #[trigger] all.contains(e)
            && refers_to(d, e, declared_names(all)) ==> exists|j: int|
            0 <= j <= i && #[trigger] scc_members(groups[j]).contains(e)
}

/// One step of a chain of declarations: the declaration `i` refers to the next.
pub open spec fn chain_step(all: Seq<ValueDeclaration>, c: Seq<ValueDeclaration>, i: int) -> bool {
    refers_to(c[i], c[i + 1], declared_names(all))
}

/// A chain of references through the declarations of `all`, of one step or more.
pub open spec fn is_chain(all: Seq<ValueDeclaration>, c: Seq<ValueDeclaration>) -> bool {
    &&& c.len() >= 2
    &&& forall|i: int| 0 <= i < c.len() ==> all.contains(#[trigger] c[i])
    &&& forall|i: int| 0 <= i < c.len() - 1 ==> #[trigger] chain_step(all, c, i)
}

/// `d` reaches `e` through the declarations of `all`: a chain of references
/// leads from one to the other.
pub open spec fn reaches(all: Seq<ValueDeclaration>, d: ValueDeclaration, e: ValueDeclaration) -> bool {
    exists|c: Seq<ValueDeclaration>| #[trigger] is_chain(all, c) && c[0] == d && c.last() == e
}

/// The declarations of a group reach one another; in a cyclic group each also
/// reaches itself.
pub open spec fn group_connected(scc: Scc<ValueDeclaration>, all: Seq<ValueDeclaration>) -> bool {
    forall|x: int, y: int|
        0 <= x < scc_members(scc).len() && 0 <= y < scc_members(scc).len() && (x != y || scc is Cyclic) ==> reaches(
            all,
            #[trigger] scc_members(scc)[x],
            #[trigger] scc_members(scc)[y],
        )
}

/// Every group is connected.
pub open spec fn groups_connected(groups: Seq<Scc<ValueDeclaration>>, all: Seq<ValueDeclaration>) -> bool {
    forall|i: int| 0 <= i < groups.len() ==> group_connected(#[trigger] groups[i], all)
}

/// A declaration in a group of its own that reaches itself is cyclic.
pub open spec fn acyclic_groups_are(groups: Seq<Scc<ValueDeclaration>>, all: Seq<ValueDeclaration>) -> bool {
    forall|i: int|
        0 <= i < groups.len() ==> match #[trigger] groups[i] {
            Scc::Acyclic(d) => !reaches(all, d, d),
            Scc::Cyclic(_) => true,
        }
}

/// Every group has a member, and a cyclic group has several members, or
/// one that reaches itself.
pub open spec fn cyclic_groups_are(groups: Seq<Scc<ValueDeclaration>>, all: Seq<ValueDeclaration>) -> bool {
    forall|i: int|
        0 <= i < groups.len() ==> match #[trigger] groups[i] {
            Scc::Acyclic(_) => true,
            Scc::Cyclic(ds) => ds@.len() > 1 || (ds@.len() == 1 && reaches(all, ds@[0], ds@[0])),
        }
}

/// A declaration that refers to itself, anywhere in its expression, stands in
/// no acyclic group.
pub proof fn self_reference_is_cyclic(groups: Seq<Scc<ValueDeclaration>>, all: Seq<ValueDeclaration>, i: int)
    requires
        acyclic_groups_are(groups, all),
        0 <= i < groups.len(),
        all.contains(scc_members(groups[i])[0]),
        refers_to(scc_members(groups[i])[0], scc_members(groups[i])[0], declared_names(all)),
    ensures
        groups[i] is Cyclic,
{
    if groups[i] is Acyclic {
        let d = scc_members(groups[i])[0];
        let c = seq![d, d];
        assert(chain_step(all, c, 0));
        assert(is_chain(all, c));
        assert(reaches(all, d, d));
    }
}

/// What a declaration reaches stands in its group or an earlier one, where
/// every reference points back so: together with connected groups, the
/// groups are the strongly connected components, in dependency order.
pub proof fn reached_declarations_come_no_later(
    groups: Seq<Scc<ValueDeclaration>>,
    all: Seq<ValueDeclaration>,
    i: int,
    d: ValueDeclaration,
    e: ValueDeclaration,
)
    requires
        refers_back(groups, all),
        0 <= i < groups.len(),
        scc_members(groups[i]).contains(d),
        reaches(all, d, e),
    ensures
        exists|j: int| 0 <= j <= i && #[trigger] scc_members(groups[j]).contains(e),
{
    let c = choose|c: Seq<ValueDeclaration>| #[trigger] is_chain(all, c) && c[0] == d && c.last() == e;
    lemma_chain_no_later(groups, all, i, c);
}

proof fn lemma_chain_no_later(groups: Seq<Scc<ValueDeclaration>>, all: Seq<ValueDeclaration>, i: int, c: Seq<ValueDeclaration>)
    requires
        refers_back(groups, all),
        0 <= i < groups.len(),
        is_chain(all, c),
        scc_members(groups[i]).contains(c[0]),
    ensures
        exists|j: int| 0 <= j <= i && #[trigger] scc_members(groups[j]).contains(c.last()),
    decreases c.len(),
{
    assert(chain_step(all, c, 0));
    assert(all.contains(c[1]));
    let j1 = choose|j: int| 0 <= j <= i && #[trigger] scc_members(groups[j]).contains(c[1]);
    if c.len() > 2 {
        let rest = c.drop_first();
        assert forall|k: int| 0 <= k < rest.len() implies all.contains(#[trigger] rest[k]) by {
            assert(all.contains(c[k + 1]));
        }
        assert forall|k: int| 0 <= k < rest.len() - 1 implies #[trigger] chain_step(all, rest, k) by {
            assert(chain_step(all, c, k + 1));
        }
        assert(is_chain(all, rest));
        lemma_chain_no_later(groups, all, j1, rest);
        let j2 = choose|j: int| 0 <= j <= j1 && #[trigger] scc_members(groups[j]).contains(rest.last());
        assert(rest.last() == c.last());
        assert(0 <= j2 <= i && scc_members(groups[j2]).contains(c.last()));
    } else {
        assert(c.last() == c[1]);
    }
}

/// A walk over the positions of `input` is a chain of its declarations.
proof fn lemma_walk_chain(input: Seq<ValueDeclaration>, all: Seq<ValueDeclaration>, adj: Seq<Seq<bool>>, p: Seq<int>)
    requires
        adj.len() == input.len(),
        forall|e: ValueDeclaration| input.contains(e) ==> all.contains(e),
        forall|x: int, y: int|
            0 <= x < input.len() && 0 <= y < input.len() ==> (#[trigger] adj[x][y] <==> refers_to(
                input[x],
                input[y],
                declared_names(all),
            )),
        crate::graph::is_walk(adj, p),
    ensures
        reaches(all, input[p[0]], input[p.last()]),
{
    let c = Seq::new(p.len(), |i: int| input[p[i]]);
    assert forall|i: int| 0 <= i < c.len() implies all.contains(#[trigger] c[i]) by {
        assert(0 <= p[i] < adj.len());
        assert(input.contains(input[p[i]]));
    }
    assert forall|i: int| 0 <= i < c.len() - 1 implies #[trigger] chain_step(all, c, i) by {
        assert(crate::graph::step(adj, p, i));
        assert(0 <= p[i] < adj.len() && 0 <= p[i + 1] < adj.len());
        assert(adj[p[i]][p[i + 1]]);
    }
    assert(is_chain(all, c));
    assert(c.last() == input[p.last()]);
}

/// A chain of declarations is a walk over the positions of `input`, between
/// any two positions that hold its ends.
proof fn lemma_chain_walk(
    input: Seq<ValueDeclaration>,
    all: Seq<ValueDeclaration>,
    adj: Seq<Seq<bool>>,
    c: Seq<ValueDeclaration>,
    s: int,
    t: int,
)
    requires
        adj.len() == input.len(),
        forall|e: ValueDeclaration| all.contains(e) ==> input.contains(e),
        forall|x: int, y: int|
            0 <= x < input.len() && 0 <= y < input.len() ==> (#[trigger] adj[x][y] <==> refers_to(
                input[x],
                input[y],
                declared_names(all),
            )),
        is_chain(all, c),
        0 <= s < input.len(),
        0 <= t < input.len(),
        input[s] == c[0],
        input[t] == c.last(),
    ensures
        crate::graph::reachable(adj, s, t),
{
    let n = input.len() as int;
    let p = Seq::new(
        c.len(),
        |i: int|
            if i == 0 {
                s
            } else if i == c.len() - 1 {
                t
            } else {
                choose|k: int| 0 <= k < n && input[k] == c[i]
            },
    );
    assert forall|i: int| 0 <= i < p.len() implies 0 <= #[trigger] p[i] < n && input[p[i]] == c[i] by {
        if 0 < i < c.len() - 1 {
            assert(all.contains(c[i]));
            assert(input.contains(c[i]));
        }
    }
    assert forall|i: int| 0 <= i < p.len() - 1 implies #[trigger] crate::graph::step(adj, p, i) by {
        assert(0 <= p[i] < n && input[p[i]] == c[i]);
        assert(0 <= p[i + 1] < n && input[p[i + 1]] == c[i + 1]);
        assert(chain_step(all, c, i));
        assert(adj[p[i]][p[i + 1]]);
    }
    assert(crate::graph::is_walk(adj, p));
}

/// Two positions of a group reach one another (or a position itself, where
/// the group is cyclic), through its leader.
proof fn lemma_group_reach(
    adj: Seq<Seq<bool>>,
    rr: Seq<Seq<bool>>,
    n: nat,
    grp: Seq<usize>,
    l: int,
    x: int,
    y: int,
    cyclic: bool,
)
    requires
        forall|u: int, v: int| 0 <= u < n && 0 <= v < n ==> (#[trigger] rr[u][v] <==> crate::graph::reachable(adj, u, v)),
        forall|w: int| 0 <= w < grp.len() ==> (#[trigger] grp[w]) < n,
        forall|w: int| 0 <= w < grp.len() ==> (#[trigger] grp[w]) as int == l || (rr[l][grp[w] as int] && rr[grp[w] as int][l]),
        forall|u: int, v: int| 0 <= u < v < grp.len() ==> #[trigger] grp[u] != #[trigger] grp[v],
        0 <= l < n,
        0 <= x < grp.len(),
        0 <= y < grp.len(),
        x != y || cyclic,
        cyclic ==> grp.len() != 1 || rr[grp[0] as int][grp[0] as int],
    ensures
        crate::graph::reachable(adj, grp[x] as int, grp[y] as int),
{
    let gx = grp[x] as int;
    let gy = grp[y] as int;
    if x != y {
        if x < y {
            assert(grp[x] != grp[y]);
        } else {
            assert(grp[y] != grp[x]);
        }
        if gx == l {
            assert(rr[l][gy]);
        } else if gy == l {
            assert(rr[gx][l]);
        } else {
            assert(rr[gx][l] && rr[l][gy]);
            crate::graph::lemma_reachable_transitive(adj, gx, l, gy);
        }
    } else {
        if grp.len() == 1 {
            assert(rr[gx][gx]);
        } else {
            let z = if x == 0 { 1int } else { 0int };
            let gz = grp[z] as int;
            if z < x {
                assert(grp[z] != grp[x]);
            } else {
                assert(grp[x] != grp[z]);
            }
            if gx == l {
                assert(rr[l][gz] && rr[gz][l]);
                crate::graph::lemma_reachable_transitive(adj, l, gz, l);
            } else {
                assert(rr[gx][l] && rr[l][gx]);
                crate::graph::lemma_reachable_transitive(adj, gx, l, gx);
            }
        }
    }
}

/// The declarations still held by the slots.
spec fn filled(s: Seq<Option<ValueDeclaration>>) -> Multiset<ValueDeclaration>
    decreases s.len(),
{
    if s.len() == 0 {
        Multiset::empty()
    } else {
        match s.last() {
            Some(d) => filled(s.drop_last()).insert(d),
            None => filled(s.drop_last()),
        }
    }
}

proof fn lemma_filled_take(s: Seq<Option<ValueDeclaration>>, k: int, d: ValueDeclaration)
    requires
        0 <= k < s.len(),
        s[k] == Some(d),
    ensures
        filled(s).count(d) >= 1,
        filled(s.update(k, None)) == filled(s).remove(d),
    decreases s.len(),
{
    broadcast use vstd::multiset::group_multiset_axioms;

    let t = s.update(k, None);
    if k == s.len() - 1 {
        assert(t.drop_last() =~= s.drop_last());
        assert(filled(s).remove(d) =~= filled(s.drop_last()));
    } else {
        lemma_filled_take(s.drop_last(), k, d);
        assert(t.drop_last() =~= s.drop_last().update(k, None));
        assert(t.last() == s.last());
        match s.last() {
            Some(x) => {
                assert(filled(t) =~= filled(s).remove(d));
            },
            None => {},
        }
    }
}

proof fn lemma_all_filled(input: Seq<ValueDeclaration>, slots: Seq<Option<ValueDeclaration>>)
    requires
        slots.len() == input.len(),
        forall|k: int| 0 <= k < slots.len() ==> slots[k] == Some(input[k]),
    ensures
        filled(slots) == input.to_multiset(),
    decreases input.len(),
{
    broadcast use vstd::seq_lib::group_to_multiset_ensures;

    if input.len() > 0 {
        lemma_all_filled(input.drop_last(), slots.drop_last());
        assert(input.drop_last().push(input.last()) =~= input);
    } else {
        assert(input.to_multiset() =~= Multiset::empty());
    }
}

proof fn lemma_empty_to_multiset(s: Seq<ValueDeclaration>)
    requires
        s.len() == 0,
    ensures
        s.to_multiset() == Multiset::<ValueDeclaration>::empty(),
{
    broadcast use vstd::seq_lib::group_to_multiset_ensures;
    broadcast use vstd::multiset::group_multiset_axioms;

    assert forall|a: ValueDeclaration| s.to_multiset().count(a) == 0 by {
        assert(!s.contains(a));
    }
    assert(s.to_multiset() =~= Multiset::<ValueDeclaration>::empty());
}

proof fn lemma_none_filled(slots: Seq<Option<ValueDeclaration>>)
    requires
        forall|k: int| 0 <= k < slots.len() ==> slots[k] is None,
    ensures
        filled(slots) == Multiset::<ValueDeclaration>::empty(),
    decreases slots.len(),
{
    if slots.len() > 0 {
        lemma_none_filled(slots.drop_last());
    }
}

proof fn lemma_same_names(a: Seq<ValueDeclaration>, b: Seq<ValueDeclaration>)
    requires
        a.to_multiset() == b.to_multiset(),
    ensures
        declared_names(a) == declared_names(b),
        forall|e: ValueDeclaration| a.contains(e) <==> b.contains(e),
{
    broadcast use vstd::seq_lib::group_to_multiset_ensures;

    assert forall|e: ValueDeclaration| a.contains(e) <==> b.contains(e) by {
        assert(a.contains(e) <==> a.to_multiset().count(e) > 0);
        assert(b.contains(e) <==> b.to_multiset().count(e) > 0);
    }
    assert forall|x: Seq<char>| declared_names(a).contains(x) implies declared_names(b).contains(x) by {
        let k = choose|k: int| 0 <= k < a.len() && a[k].name@ == x;
        assert(a.contains(a[k]));
        let j = choose|j: int| 0 <= j < b.len() && b[j] == a[k];
    }
    assert forall|x: Seq<char>| declared_names(b).contains(x) implies declared_names(a).contains(x) by {
        let k = choose|k: int| 0 <= k < b.len() && b[k].name@ == x;
        assert(b.contains(b[k]));
        let j = choose|j: int| 0 <= j < a.len() && a[j] == b[k];
    }
    assert(declared_names(a) =~= declared_names(b));
}

/// Every declaration is in exactly one group, `gi` says which, and what a
/// declaration refers to is in its group or an earlier one.
spec fn grouped(order: Seq<Vec<usize>>, gi: Seq<int>, input: Seq<ValueDeclaration>, ns: Set<Seq<char>>) -> bool {
    let n = input.len();
    &&& gi.len() == n
    &&& forall|b: int| 0 <= b < n ==> 0 <= #[trigger] gi[b] < order.len()
    &&& forall|g: int, x: int|
        0 <= g < order.len() && 0 <= x < order[g]@.len() ==> (#[trigger] order[g]@[x]) < n && gi[order[g]@[x] as int]
            == g
    &&& forall|g: int| 0 <= g < order.len() ==> (#[trigger] order[g])@.len() > 0
    &&& forall|b: int| 0 <= b < n ==> in_group(order, #[trigger] gi[b], b as usize)
    &&& forall|g: int, x: int, y: int|
        0 <= g < order.len() && 0 <= x < y < order[g]@.len() ==> #[trigger] order[g]@[x] != #[trigger] order[g]@[y]
    &&& forall|g: int, x: int, b: int|
        0 <= g < order.len() && 0 <= x < order[g]@.len() && 0 <= b < n && refers_to(
            input[order[g]@[x] as int],
            input[b],
            ns,
        ) ==> 0 <= #[trigger] gi[b] <= g && #[trigger] order[g]@[x] == order[g]@[x]
}

/// Whether the group list `order` holds `b`.
spec fn in_group(order: Seq<Vec<usize>>, g: int, b: usize) -> bool {
    exists|x: int| 0 <= x < order[g]@.len() && order[g]@[x] == b
}

/// The groups of a module's declarations, each after the groups it refers to:
/// a declaration's group holds the declarations it reaches and that reach it.
/// Groups ready at the same time come in order of their first names; the
/// declarations of a group come in order of their names.
///
/// Every declaration is in one group; what a declaration refers to is in its
/// group or an earlier one; the declarations of a group reach one another;
/// a group of one declaration is cyclic exactly where it reaches itself; and
/// every group has a member.
/// So the groups are the strongly connected components of the references,
/// dependencies first.
pub fn toposort_value_declarations(declarations: Vec<ValueDeclaration>) -> (r: Vec<Scc<ValueDeclaration>>)
    ensures
        flatten(r@).to_multiset() == declarations@.to_multiset(),
        refers_back(r@, declarations@),
        groups_connected(r@, declarations@),
        acyclic_groups_are(r@, declarations@),
        cyclic_groups_are(r@, declarations@),
{
    // Sort by name.
    let mut decls = declarations;
    crate::text::sort_by_text(false, &mut decls);
    let ghost input = decls@;
    let n = decls.len();
    let mut names: Vec<String> = Vec::new();
    let mut k: usize = 0;
    while k < n
        invariant
            decls@ == input,
            input.len() == n,
            names@.len() == k,
            k <= n,
            forall|j: int| 0 <= j < k ==> (#[trigger] names@[j])@ == input[j].name@,
        decreases n - k,
    {
        names.push(copy_string(&decls[k].name.0));
        k = k + 1;
    }
    let ghost ns = strs_view(names@).to_set();
    proof {
        assert forall|x: Seq<char>| ns.contains(x) <==> declared_names(input).contains(x) by {
            if ns.contains(x) {
                let j = choose|j: int| 0 <= j < strs_view(names@).len() && strs_view(names@)[j] == x;
                assert(input[j].name@ == x);
            }
            if declared_names(input).contains(x) {
                let j = choose|j: int| 0 <= j < input.len() && input[j].name@ == x;
                assert(strs_view(names@)[j] == x);
            }
        }
        assert(ns =~= declared_names(input));
    }
    // Who refers to whom: reach[a][b] when declaration a reaches declaration b.
    let mut reach: Vec<Vec<bool>> = Vec::new();
    let mut a: usize = 0;
    while a < n
        invariant
            decls@ == input,
            input.len() == n,
            names@.len() == n,
            forall|j: int| 0 <= j < n ==> (#[trigger] names@[j])@ == input[j].name@,
            ns == strs_view(names@).to_set(),
            reach@.len() == a,
            a <= n,
            forall|x: int| 0 <= x < a ==> (#[trigger] reach@[x])@.len() == n,
            forall|x: int, y: int|
                0 <= x < a && 0 <= y < n ==> (#[trigger] reach@[x]@[y] <==> refers_to(input[x], input[y], ns)),
        decreases n - a,
    {
        let mut connected: Vec<String> = Vec::new();
        proof {
            assert(strs_view(connected@).to_set() =~= Set::<Seq<char>>::empty());
        }
        get_connected_nodes_rec(&decls[a].expression, &names, &mut connected);
        let mut row: Vec<bool> = Vec::new();
        let mut b: usize = 0;
        while b < n
            invariant
                names@.len() == n,
                forall|j: int| 0 <= j < n ==> (#[trigger] names@[j])@ == input[j].name@,
                strs_view(connected@).to_set() == refs(input[a as int].expression, ns),
                row@.len() == b,
                b <= n,
                a < n,
                forall|y: int| 0 <= y < b ==> (#[trigger] row@[y] <==> refers_to(input[a as int], input[y], ns)),
            decreases n - b,
        {
            let found = strs_contain(&connected, &names[b]);
            proof {
                if refers_to(input[a as int], input[b as int], ns) {
                    assert(strs_view(connected@).to_set().contains(names@[b as int]@));
                }
                if found {
                    assert(strs_view(connected@).contains(names@[b as int]@));
                    assert(strs_view(connected@).to_set().contains(names@[b as int]@));
                }
            }
            row.push(found);
            b = b + 1;
        }
        reach.push(row);
        a = a + 1;
    }
    // Close under paths: afterwards reach[a][b] when a reaches b.
    let ghost adj = crate::graph::rows(reach@);
    proof {
        assert forall|x: int| 0 <= x < n implies (#[trigger] adj[x]).len() == n by {
            assert(adj[x] == reach@[x]@);
        }
        assert forall|x: int, y: int| 0 <= x < n && 0 <= y < n implies (#[trigger] adj[x][y] <==> refers_to(
            input[x],
            input[y],
            ns,
        )) by {
            assert(adj[x] == reach@[x]@);
        }
    }
    crate::graph::close_reach(&mut reach, n);
    proof {
        assert forall|x: int| 0 <= x < n implies (#[trigger] reach@[x])@.len() == n by {
            assert(crate::graph::rows(reach@)[x] == reach@[x]@);
        }
        assert forall|x: int, y: int|
            0 <= x < n && 0 <= y < n && refers_to(input[x], input[y], ns) implies #[trigger] reach@[x]@[y] by {
            crate::graph::lemma_edge_reachable(adj, x, y);
        }
    }
    // Emit the groups, each once everything that its declarations reach
    // outside it is out.
    let mut emitted: Vec<bool> = Vec::new();
    let mut z: usize = 0;
    while z < n
        invariant
            emitted@.len() == z,
            z <= n,
            forall|x: int| 0 <= x < z ==> !(#[trigger] emitted@[x]),
        decreases n - z,
    {
        emitted.push(false);
        z = z + 1;
    }
    let mut order: Vec<Vec<usize>> = Vec::new();
    // The group of each declaration put out, -1 for the others.
    let ghost mut gi: Seq<int> = Seq::new(n as nat, |i: int| -1int);
    // The member of each group that the others reach and are reached from.
    let ghost mut leaders: Seq<int> = Seq::empty();
    let ghost rr = crate::graph::rows(reach@);
    proof {
        assert forall|x: int| 0 <= x < n implies (#[trigger] rr[x]) == reach@[x]@ by {}
        assert forall|u: int, v: int| 0 <= u < n && 0 <= v < n implies (#[trigger] rr[u][v] <==> crate::graph::reachable(
            adj,
            u,
            v,
        )) by {
            assert(rr[u] == reach@[u]@);
        }
        assert(crate::graph::is_square(rr, n as nat));
        assert forall|x: int, y: int, z: int|
            0 <= x < n && 0 <= y < n && 0 <= z < n && rr[x][y] && rr[y][z] implies rr[x][z] by {
            assert(rr[x] == reach@[x]@ && rr[y] == reach@[y]@);
            crate::graph::lemma_reachable_transitive(adj, x, y, z);
        }
        assert(crate::graph::transitive(rr, n as nat));
        assert(crate::graph::count_true(emitted@, n as nat) >= 0);
    }
    let mut progress = true;
    let mut rounds: usize = 0;
    // Each round puts out at least one declaration, so `n` rounds do.
    while rounds < n && progress
        invariant
            reach@.len() == n,
            forall|x: int| 0 <= x < n ==> (#[trigger] reach@[x])@.len() == n,
            forall|x: int, y: int|
                0 <= x < n && 0 <= y < n && refers_to(input[x], input[y], ns) ==> #[trigger] reach@[x]@[y],
            emitted@.len() == n,
            gi.len() == n,
            rounds <= n,
            crate::graph::is_square(rr, n as nat),
            crate::graph::transitive(rr, n as nat),
            forall|x: int| 0 <= x < n ==> (#[trigger] rr[x]) == reach@[x]@,
            progress ==> crate::graph::count_true(emitted@, n as nat) >= rounds,
            !progress ==> forall|c: int| 0 <= c < n ==> emitted@[c] || !crate::graph::group_ready(rr, emitted@, c, n as nat),
            leaders.len() == order@.len(),
            forall|g: int| 0 <= g < leaders.len() ==> 0 <= #[trigger] leaders[g] < n,
            forall|g: int, x: int|
                0 <= g < order@.len() && 0 <= x < order@[g]@.len() ==> (#[trigger] order@[g]@[x]) as int == leaders[g] || (
                rr[leaders[g]][order@[g]@[x] as int] && rr[order@[g]@[x] as int][leaders[g]]),
            forall|b: int| 0 <= b < n ==> (#[trigger] emitted@[b] <==> gi[b] >= 0),
            forall|b: int| 0 <= b < n ==> #[trigger] gi[b] < order@.len(),
            forall|g: int, x: int|
                0 <= g < order@.len() && 0 <= x < order@[g]@.len() ==> (#[trigger] order@[g]@[x]) < n && gi[
                    order@[g]@[x] as int] == g,
            forall|g: int| 0 <= g < order@.len() ==> (#[trigger] order@[g])@.len() > 0,
            forall|b: int| 0 <= b < n && gi[b] >= 0 ==> in_group(order@, #[trigger] gi[b], b as usize),
            forall|g: int, x: int, y: int|
                0 <= g < order@.len() && 0 <= x < y < order@[g]@.len() ==> #[trigger] order@[g]@[x] != #[trigger] order@[g]@[y],
            forall|g: int, x: int, b: int|
                0 <= g < order@.len() && 0 <= x < order@[g]@.len() && 0 <= b < n && refers_to(
                    input[order@[g]@[x] as int],
                    input[b],
                    ns,
                ) ==> 0 <= #[trigger] gi[b] <= g && #[trigger] order@[g]@[x] == order@[g]@[x],
        decreases n - rounds,
    {
        rounds = rounds + 1;
        progress = false;
        let ghost e0 = emitted@;
        let mut a: usize = 0;
        while a < n && !progress
            invariant
                crate::graph::is_square(rr, n as nat),
                crate::graph::transitive(rr, n as nat),
                forall|x: int| 0 <= x < n ==> (#[trigger] rr[x]) == reach@[x]@,
                e0.len() == n,
                crate::graph::count_true(e0, n as nat) + 1 >= rounds,
                !progress ==> emitted@ == e0,
                !progress ==> forall|c: int| 0 <= c < a ==> e0[c] || !crate::graph::group_ready(rr, e0, c, n as nat),
                progress ==> crate::graph::count_true(emitted@, n as nat) >= rounds,
                leaders.len() == order@.len(),
                forall|g: int| 0 <= g < leaders.len() ==> 0 <= #[trigger] leaders[g] < n,
            forall|g: int| 0 <= g < leaders.len() ==> 0 <= #[trigger] leaders[g] < n,
                forall|g: int, x: int|
                    0 <= g < order@.len() && 0 <= x < order@[g]@.len() ==> (#[trigger] order@[g]@[x]) as int == leaders[g]
                        || (rr[leaders[g]][order@[g]@[x] as int] && rr[order@[g]@[x] as int][leaders[g]]),
                reach@.len() == n,
                forall|x: int| 0 <= x < n ==> (#[trigger] reach@[x])@.len() == n,
                forall|x: int, y: int|
                    0 <= x < n && 0 <= y < n && refers_to(input[x], input[y], ns) ==> #[trigger] reach@[x]@[y],
                emitted@.len() == n,
                gi.len() == n,
                a <= n,
                forall|b: int| 0 <= b < n ==> (#[trigger] emitted@[b] <==> gi[b] >= 0),
                forall|b: int| 0 <= b < n ==> #[trigger] gi[b] < order@.len(),
                forall|g: int, x: int|
                    0 <= g < order@.len() && 0 <= x < order@[g]@.len() ==> (#[trigger] order@[g]@[x]) < n && gi[
                        order@[g]@[x] as int] == g,
                forall|g: int| 0 <= g < order@.len() ==> (#[trigger] order@[g])@.len() > 0,
                forall|b: int| 0 <= b < n && gi[b] >= 0 ==> in_group(order@, #[trigger] gi[b], b as usize),
                forall|g: int, x: int, y: int|
                    0 <= g < order@.len() && 0 <= x < y < order@[g]@.len() ==> #[trigger] order@[g]@[x] != #[trigger] order@[g]@[y],
                forall|g: int, x: int, b: int|
                    0 <= g < order@.len() && 0 <= x < order@[g]@.len() && 0 <= b < n && refers_to(
                        input[order@[g]@[x] as int],
                        input[b],
                        ns,
                    ) ==> 0 <= #[trigger] gi[b] <= g && #[trigger] order@[g]@[x] == order@[g]@[x],
            decreases n - a,
        {
            if !emitted[a] {
                // The group of `a`: what is not out yet and reaches `a` and
                // is reached from it.
                let mut group: Vec<usize> = Vec::new();
                let mut b: usize = 0;
                while b < n
                    invariant
                        reach@.len() == n,
                        forall|x: int| 0 <= x < n ==> (#[trigger] reach@[x])@.len() == n,
                        emitted@.len() == n,
                        a < n,
                        b <= n,
                        !emitted@[a as int],
                        forall|x: int| 0 <= x < group@.len() ==> (#[trigger] group@[x]) < b,
                        forall|x: int| 0 <= x < group@.len() ==> !emitted@[#[trigger] group@[x] as int],
                        forall|x: int|
                            0 <= x < group@.len() ==> (#[trigger] group@[x]) == a || (reach@[a as int]@[group@[x] as int]
                                && reach@[group@[x] as int]@[a as int]),
                        forall|x: int, y: int| 0 <= x < y < group@.len() ==> #[trigger] group@[x] < #[trigger] group@[y],
                        forall|c: int|
                            0 <= c < b && !emitted@[c] && (c == a || (reach@[a as int]@[c] && reach@[c]@[a as int]))
                                ==> exists|x: int| 0 <= x < group@.len() && #[trigger] group@[x] == c,
                        a < b ==> exists|x: int| 0 <= x < group@.len() && #[trigger] group@[x] == a,
                    decreases n - b,
                {
                    let ghost group_before = group@;
                    let same = b == a || (reach[a][b] && reach[b][a]);
                    if same && !emitted[b] {
                        group.push(b);
                        proof {
                            assert(group@[group@.len() - 1] == b);
                        }
                    }
                    proof {
                        assert forall|c: int|
                            0 <= c < b + 1 && !emitted@[c] && (c == a || (reach@[a as int]@[c] && reach@[c]@[a as int]))
                                implies exists|x: int| 0 <= x < group@.len() && #[trigger] group@[x] == c by {
                            if c < b {
                                let x = choose|x: int| 0 <= x < group_before.len() && #[trigger] group_before[x] == c;
                                assert(group@[x] == c);
                            } else {
                                assert(group@[group@.len() - 1] == c);
                            }
                        }
                    }
                    b = b + 1;
                }
                // Ready when everything that the group reaches is in it or out.
                let mut ready = true;
                let mut x: usize = 0;
                while x < group.len() && ready
                    invariant
                        reach@.len() == n,
                        forall|y: int| 0 <= y < n ==> (#[trigger] reach@[y])@.len() == n,
                        emitted@.len() == n,
                        a < n,
                        x <= group@.len(),
                        forall|y: int| 0 <= y < group@.len() ==> (#[trigger] group@[y]) < n,
                        forall|y: int| 0 <= y < n ==> (#[trigger] rr[y]) == reach@[y]@,
                        forall|y: int| 0 <= y < group@.len() ==> !emitted@[#[trigger] group@[y] as int],
                        forall|y: int|
                            0 <= y < group@.len() ==> (#[trigger] group@[y]) == a || (reach@[a as int]@[group@[y] as int]
                                && reach@[group@[y] as int]@[a as int]),
                        !ready ==> !crate::graph::group_ready(rr, emitted@, a as int, n as nat),
                        ready ==> forall|y: int, c: int|
                            0 <= y < x && 0 <= c < n && #[trigger] reach@[group@[y] as int]@[c] && !emitted@[c] ==> (c
                                == a || (reach@[a as int]@[c] && reach@[c]@[a as int])),
                    decreases group@.len() - x,
                {
                    let member = group[x];
                    proof {
                        assert(rr[a as int] == reach@[a as int]@);
                        assert(rr[member as int] == reach@[member as int]@);
                        assert(crate::graph::in_group_of(rr, emitted@, a as int, member as int));
                    }
                    let mut c: usize = 0;
                    while c < n && ready
                        invariant
                            reach@.len() == n,
                            forall|y: int| 0 <= y < n ==> (#[trigger] reach@[y])@.len() == n,
                            emitted@.len() == n,
                            a < n,
                            member < n,
                            c <= n,
                            forall|y: int| 0 <= y < n ==> (#[trigger] rr[y]) == reach@[y]@,
                            crate::graph::in_group_of(rr, emitted@, a as int, member as int),
                            !ready ==> !crate::graph::group_ready(rr, emitted@, a as int, n as nat),
                            ready ==> forall|d: int|
                                0 <= d < c && #[trigger] reach@[member as int]@[d] && !emitted@[d] ==> (d == a || (
                                reach@[a as int]@[d] && reach@[d]@[a as int])),
                        decreases n - c,
                    {
                        if reach[member][c] && !emitted[c] && !(c == a || (reach[a][c] && reach[c][a])) {
                            proof {
                                assert(rr[member as int] == reach@[member as int]@);
                                assert(rr[a as int] == reach@[a as int]@);
                                assert(rr[c as int] == reach@[c as int]@);
                                assert(rr[member as int][c as int]);
                                assert(!crate::graph::in_group_of(rr, emitted@, a as int, c as int));
                            }
                            ready = false;
                        }
                        c = c + 1;
                    }
                    x = x + 1;
                }
                if ready {
                    let ghost g = order@.len() as int;
                    let ghost gi_before = gi;
                    let ghost emitted_before = emitted@;
                    let ghost order_before = order@;
                    let mut y: usize = 0;
                    while y < group.len()
                        invariant
                            emitted@.len() == n,
                            gi.len() == n,
                            g == order@.len(),
                            y <= group@.len(),
                            forall|w: int| 0 <= w < group@.len() ==> (#[trigger] group@[w]) < n,
                            forall|w: int| 0 <= w < group@.len() ==> gi_before[#[trigger] group@[w] as int] < 0,
                            forall|w: int, v: int| 0 <= w < v < group@.len() ==> #[trigger] group@[w] < #[trigger] group@[v],
                            forall|b: int|
                                0 <= b < n ==> (#[trigger] gi[b] == if (exists|w: int|
                                    0 <= w < y && #[trigger] group@[w] == b) {
                                    g
                                } else {
                                    gi_before[b]
                                }),
                            forall|b: int| 0 <= b < n ==> (#[trigger] emitted@[b] <==> gi[b] >= 0),
                        decreases group@.len() - y,
                    {
                        emitted.set(group[y], true);
                        proof {
                            gi = gi.update(group@[y as int] as int, g);
                        }
                        y = y + 1;
                    }
                    let ghost grp = group@;
                    order.push(group);
                    proof {
                        let leaders_before = leaders;
                        leaders = leaders.push(a as int);
                        assert(order@[g]@ == grp);
                        assert forall|g2: int, x2: int|
                            0 <= g2 < order@.len() && 0 <= x2 < order@[g2]@.len() implies (#[trigger] order@[g2]@[x2]) as int
                                == leaders[g2] || (rr[leaders[g2]][order@[g2]@[x2] as int] && rr[order@[g2]@[x2] as int][leaders[g2]]) by {
                            if g2 < g {
                                assert(order@[g2] == order_before[g2]);
                                assert(leaders[g2] == leaders_before[g2]);
                            } else {
                                assert(order@[g2]@[x2] == grp[x2]);
                                assert(rr[a as int] == reach@[a as int]@);
                                assert(rr[grp[x2] as int] == reach@[grp[x2] as int]@);
                            }
                        }
                        let wa = choose|w: int| 0 <= w < grp.len() && #[trigger] grp[w] == a;
                        assert(emitted@[a as int]);
                        assert forall|c: int| 0 <= c < n && e0[c] implies emitted@[c] by {
                            assert(emitted_before[c]);
                        }
                        crate::graph::lemma_count_grows(e0, emitted@, n as nat, a as int);
                        assert forall|g2: int| 0 <= g2 < g implies #[trigger] order@[g2] == order_before[g2] by {}
                        assert forall|b: int| 0 <= b < n && gi[b] >= 0 implies in_group(
                            order@,
                            #[trigger] gi[b],
                            b as usize,
                        ) by {
                            if gi_before[b] >= 0 {
                                assert(in_group(order_before, gi_before[b], b as usize));
                                let x = choose|x: int|
                                    0 <= x < order_before[gi_before[b]]@.len() && order_before[gi_before[b]]@[x]
                                        == b as usize;
                                assert(order@[gi_before[b]] == order_before[gi_before[b]]);
                                assert(gi[b] == gi_before[b]) by {
                                    if exists|w: int| 0 <= w < grp.len() && #[trigger] grp[w] == b {
                                        let w = choose|w: int| 0 <= w < grp.len() && #[trigger] grp[w] == b;
                                        assert(gi_before[grp[w] as int] < 0);
                                    }
                                }
                            } else {
                                let w = choose|w: int| 0 <= w < grp.len() && #[trigger] grp[w] == b;
                                assert(order@[g]@[w] == b as usize);
                            }
                        }
                        assert forall|g2: int, x2: int, b: int|
                            0 <= g2 < order@.len() && 0 <= x2 < order@[g2]@.len() && 0 <= b < n && refers_to(
                                input[order@[g2]@[x2] as int],
                                input[b],
                                ns,
                            ) implies 0 <= #[trigger] gi[b] <= g2 && #[trigger] order@[g2]@[x2] == order@[g2]@[x2] by {
                            let c = order@[g2]@[x2];
                            if g2 < g {
                                assert(order@[g2] == order_before[g2]);
                                assert(0 <= gi_before[b] <= g2 && order_before[g2]@[x2] == order_before[g2]@[x2]);
                                assert(gi[b] == gi_before[b]) by {
                                    if exists|w: int| 0 <= w < grp.len() && #[trigger] grp[w] == b {
                                        let w = choose|w: int| 0 <= w < grp.len() && #[trigger] grp[w] == b;
                                        assert(gi_before[grp[w] as int] < 0);
                                    }
                                }
                            } else {
                                assert(grp[x2] == c);
                                assert(reach@[c as int]@[b]);
                                if emitted_before[b] {
                                    assert(gi_before[b] >= 0);
                                    assert(gi[b] == gi_before[b]) by {
                                        if exists|w: int| 0 <= w < grp.len() && #[trigger] grp[w] == b {
                                            let w = choose|w: int| 0 <= w < grp.len() && #[trigger] grp[w] == b;
                                            assert(gi_before[grp[w] as int] < 0);
                                        }
                                    }
                                } else {
                                    assert(reach@[grp[x2] as int]@[b] && !emitted_before[b]);
                                    assert(b == a || (reach@[a as int]@[b] && reach@[b]@[a as int]));
                                    let w = choose|w: int| 0 <= w < grp.len() && #[trigger] grp[w] == b;
                                    assert(gi[b] == g);
                                }
                            }
                        }
                    }
                    progress = true;
                }
            }
            a = a + 1;
        }
    }
    proof {
        if progress {
            crate::graph::lemma_count_all(emitted@, n as nat);
        } else {
            if exists|c: int| 0 <= c < n && !emitted@[c] {
                let c = choose|c: int| 0 <= c < n && !emitted@[c];
                crate::graph::lemma_some_group_ready(rr, emitted@, n as nat, c);
            }
        }
        assert(forall|c: int| 0 <= c < n ==> emitted@[c]);
    }
    // Whatever is left refers only to what is out or to each other: one
    // last group.
    let mut rest: Vec<usize> = Vec::new();
    let mut b: usize = 0;
    while b < n
        invariant
            emitted@.len() == n,
            b <= n,
            forall|x: int| 0 <= x < rest@.len() ==> (#[trigger] rest@[x]) < b,
            forall|x: int| 0 <= x < rest@.len() ==> !emitted@[#[trigger] rest@[x] as int],
            forall|x: int, y: int| 0 <= x < y < rest@.len() ==> #[trigger] rest@[x] < #[trigger] rest@[y],
            forall|c: int| 0 <= c < b && !emitted@[c] ==> exists|x: int| 0 <= x < rest@.len() && #[trigger] rest@[x] == c,
        decreases n - b,
    {
        let ghost rest_before = rest@;
        if !emitted[b] {
            rest.push(b);
            proof {
                assert(rest@[rest@.len() - 1] == b);
            }
        }
        proof {
            assert forall|c: int| 0 <= c < b + 1 && !emitted@[c] implies exists|x: int|
                0 <= x < rest@.len() && #[trigger] rest@[x] == c by {
                if c < b {
                    let x = choose|x: int| 0 <= x < rest_before.len() && #[trigger] rest_before[x] == c;
                    assert(rest@[x] == c);
                } else {
                    assert(rest@[rest@.len() - 1] == c);
                }
            }
        }
        b = b + 1;
    }
    proof {
        if rest@.len() > 0 {
            assert(!emitted@[rest@[0] as int]);
        }
        assert(rest@.len() == 0);
    }
    let ghost g_rest = order@.len() as int;
    let ghost gi_before = gi;
    let ghost order_before = order@;
    if rest.len() > 0 {
        proof {
            gi = Seq::new(n as nat, |b: int| if gi_before[b] >= 0 { gi_before[b] } else { g_rest });
        }
        order.push(rest);
    }
    proof {
        assert forall|b: int| 0 <= b < n implies 0 <= #[trigger] gi[b] < order@.len() by {
            if gi_before[b] < 0 {
                assert(!emitted@[b]);
                assert(rest@.len() > 0);
            }
        }
        assert forall|g: int, x: int|
            0 <= g < order@.len() && 0 <= x < order@[g]@.len() implies (#[trigger] order@[g]@[x]) < n && gi[
                order@[g]@[x] as int] == g by {
            if g == g_rest {
                assert(order@[g] == rest);
                assert(!emitted@[rest@[x] as int]);
            }
        }
        assert forall|b: int| 0 <= b < n implies in_group(order@, #[trigger] gi[b], b as usize) by {
            if gi_before[b] < 0 {
                assert(!emitted@[b]);
                let x = choose|x: int| 0 <= x < rest@.len() && #[trigger] rest@[x] == b;
                assert(order@[g_rest]@[x] == b);
            } else {
                assert(in_group(order_before, gi_before[b], b as usize));
                let x = choose|x: int|
                    0 <= x < order_before[gi_before[b]]@.len() && order_before[gi_before[b]]@[x] == b as usize;
                assert(order@[gi_before[b]] == order_before[gi_before[b]]);
            }
        }
        assert forall|g: int, x: int, b: int|
            0 <= g < order@.len() && 0 <= x < order@[g]@.len() && 0 <= b < n && refers_to(
                input[order@[g]@[x] as int],
                input[b],
                ns,
            ) implies 0 <= #[trigger] gi[b] <= g && #[trigger] order@[g]@[x] == order@[g]@[x] by {
            if g == g_rest {
                if gi_before[b] < 0 {
                    assert(!emitted@[b]);
                }
            }
        }
        assert(grouped(order@, gi, input, ns));
    }
    // Hand the declarations out, group by group.
    let mut slots: Vec<Option<ValueDeclaration>> = Vec::new();
    let mut decls = decls;
    while decls.len() > 0
        invariant
            input.len() == n,
            slots@.len() + decls@.len() == n,
            decls@ == input.subrange(slots@.len() as int, n as int),
            forall|k: int| 0 <= k < slots@.len() ==> #[trigger] slots@[k] == Some(input[k]),
        decreases decls@.len(),
    {
        let d = decls.remove(0);
        slots.push(Some(d));
    }
    proof {
        lemma_all_filled(input, slots@);
        assert(flatten(Seq::<Scc<ValueDeclaration>>::empty()) =~= Seq::<ValueDeclaration>::empty());
        assert(Seq::<ValueDeclaration>::empty().to_multiset().add(filled(slots@)) =~= input.to_multiset()) by {
            broadcast use vstd::multiset::group_multiset_axioms;
            lemma_empty_to_multiset(Seq::<ValueDeclaration>::empty());
        }
    }
    let ghost all = declarations@;
    proof {
        lemma_same_names(input, all);
        assert forall|x: int, y: int| 0 <= x < n && 0 <= y < n implies (#[trigger] adj[x][y] <==> refers_to(
            input[x],
            input[y],
            declared_names(all),
        )) by {}
    }
    let mut out: Vec<Scc<ValueDeclaration>> = Vec::new();
    let mut o: usize = 0;
    while o < order.len()
        invariant
            o <= order@.len(),
            out@.len() == o,
            slots@.len() == n,
            input.len() == n,
            grouped(order@, gi, input, ns),
            reach@.len() == n,
            forall|x: int| 0 <= x < n ==> (#[trigger] reach@[x])@.len() == n,
            forall|x: int, y: int|
                0 <= x < n && 0 <= y < n && refers_to(input[x], input[y], ns) ==> #[trigger] reach@[x]@[y],
            forall|k: int| 0 <= k < n ==> (#[trigger] slots@[k] is Some <==> gi[k] >= o),
            forall|k: int| 0 <= k < n && slots@[k] is Some ==> #[trigger] slots@[k] == Some(input[k]),
            flatten(out@).to_multiset().add(filled(slots@)) == input.to_multiset(),
            forall|g: int|
                0 <= g < o ==> scc_members(#[trigger] out@[g]) == order@[g]@.map_values(|k: usize| input[k as int]),
            forall|g: int|
                0 <= g < o ==> match #[trigger] out@[g] {
                    Scc::Acyclic(d) => !refers_to(d, d, ns),
                    Scc::Cyclic(_) => true,
                },
            all == declarations@,
            adj.len() == n,
            forall|e: ValueDeclaration| input.contains(e) <==> all.contains(e),
            forall|x: int, y: int|
                0 <= x < n && 0 <= y < n ==> (#[trigger] adj[x][y] <==> refers_to(input[x], input[y], declared_names(all))),
            forall|u: int, v: int| 0 <= u < n && 0 <= v < n ==> (#[trigger] rr[u][v] <==> crate::graph::reachable(adj, u, v)),
            forall|x: int| 0 <= x < n ==> (#[trigger] rr[x]) == reach@[x]@,
            leaders.len() == order@.len(),
            forall|g: int| 0 <= g < leaders.len() ==> 0 <= #[trigger] leaders[g] < n,
            forall|g: int, x: int|
                0 <= g < order@.len() && 0 <= x < order@[g]@.len() ==> (#[trigger] order@[g]@[x]) as int == leaders[g] || (
                rr[leaders[g]][order@[g]@[x] as int] && rr[order@[g]@[x] as int][leaders[g]]),
            forall|g: int| 0 <= g < o ==> group_connected(#[trigger] out@[g], all),
            forall|g: int|
                0 <= g < o ==> match #[trigger] out@[g] {
                    Scc::Acyclic(_) => true,
                    Scc::Cyclic(ds) => ds@.len() > 1 || (ds@.len() == 1 && reaches(all, ds@[0], ds@[0])),
                },
            forall|g: int|
                0 <= g < o ==> match #[trigger] out@[g] {
                    Scc::Acyclic(d) => !reaches(all, d, d),
                    Scc::Cyclic(_) => true,
                },
        decreases order@.len() - o,
    {
        let group = &order[o];
        let ghost grp = group@;
        let mut members: Vec<ValueDeclaration> = Vec::new();
        proof {
            broadcast use vstd::multiset::group_multiset_axioms;

            lemma_empty_to_multiset(members@);
            assert(flatten(out@).to_multiset().add(members@.to_multiset()) =~= flatten(out@).to_multiset());
            assert(members@ =~= grp.take(0).map_values(|k: usize| input[k as int]));
            assert(grp.take(0) =~= Seq::<usize>::empty());
        }
        let mut g: usize = 0;
        while g < group.len()
            invariant
                grp == order@[o as int]@,
                group@ == grp,
                o < order@.len(),
                g <= grp.len(),
                slots@.len() == n,
                input.len() == n,
                grouped(order@, gi, input, ns),
                forall|k: int|
                    0 <= k < n ==> (#[trigger] slots@[k] is Some <==> (gi[k] > o || (gi[k] == o && !grp.take(
                        g as int,
                    ).contains(k as usize)))),
                forall|k: int| 0 <= k < n && slots@[k] is Some ==> #[trigger] slots@[k] == Some(input[k]),
                members@ == grp.take(g as int).map_values(|k: usize| input[k as int]),
                flatten(out@).to_multiset().add(members@.to_multiset()).add(filled(slots@)) == input.to_multiset(),
            decreases grp.len() - g,
        {
            let idx = group[g];
            proof {
                assert(idx < n && gi[idx as int] == o);
                assert(!grp.take(g as int).contains(idx)) by {
                    if grp.take(g as int).contains(idx) {
                        let t0 = grp.take(g as int);
                        let x = choose|x: int| 0 <= x < t0.len() && #[trigger] t0[x] == idx;
                        assert(order@[o as int]@[x] != order@[o as int]@[g as int]);
                    }
                }
            }
            if idx < slots.len() {
                let ghost before = slots@;
                let ghost mbefore = members@;
                let taken = slots.remove(idx);
                slots.insert(idx, None);
                proof {
                    assert(slots@ =~= before.update(idx as int, None));
                    lemma_filled_take(before, idx as int, input[idx as int]);
                }
                match taken {
                    Some(d) => {
                        members.push(d);
                        proof {
                            broadcast use vstd::multiset::group_multiset_axioms;
                            broadcast use vstd::seq_lib::group_to_multiset_ensures;

                            assert(members@ =~= grp.take(g + 1).map_values(|k: usize| input[k as int]));
                            assert(flatten(out@).to_multiset().add(members@.to_multiset()).add(filled(slots@))
                                =~= flatten(out@).to_multiset().add(mbefore.to_multiset()).add(filled(before)));
                        }
                    },
                    None => {},
                }
                proof {
                    let t0 = grp.take(g as int);
                    let t1 = grp.take(g + 1);
                    assert forall|k: int|
                        0 <= k < n implies (#[trigger] slots@[k] is Some <==> (gi[k] > o || (gi[k] == o
                            && !t1.contains(k as usize)))) by {
                        if t1.contains(k as usize) && !t0.contains(k as usize) {
                            let x = choose|x: int| 0 <= x < t1.len() && #[trigger] t1[x] == k as usize;
                            if x < g {
                                assert(t0[x] == k as usize);
                            }
                        }
                        if t0.contains(k as usize) {
                            let x = choose|x: int| 0 <= x < t0.len() && #[trigger] t0[x] == k as usize;
                            assert(t1[x] == k as usize);
                        }
                        if k == idx {
                            assert(t1[g as int] == idx);
                        }
                    }
                }
            }
            g = g + 1;
        }
        proof {
            assert(grp.take(grp.len() as int) =~= grp);
        }
        let first = group[0];
        let cyclic = members.len() != 1 || reach[first][first];
        let ghost mall = members@;
        let ghost out_before = out@;
        let scc = if cyclic {
            proof {
                if mall.len() == 1 {
                    assert(rr[first as int] == reach@[first as int]@);
                    assert(crate::graph::reachable(adj, first as int, first as int));
                    let p = choose|p: Seq<int>|
                        #[trigger] crate::graph::is_walk(adj, p) && p[0] == first as int && p.last() == first as int;
                    lemma_walk_chain(input, all, adj, p);
                    assert(mall[0] == input[first as int]);
                }
            }
            Scc::Cyclic(members)
        } else {
            let d = members.remove(0);
            proof {
                assert(mall =~= seq![d]);
                assert(d == input[first as int]);
                assert(!refers_to(d, d, ns));
                assert(rr[first as int] == reach@[first as int]@);
                if reaches(all, d, d) {
                    let c = choose|c: Seq<ValueDeclaration>| #[trigger] is_chain(all, c) && c[0] == d && c.last() == d;
                    lemma_chain_walk(input, all, adj, c, first as int, first as int);
                }
                assert(!reaches(all, d, d));
            }
            Scc::Acyclic(d)
        };
        proof {
            assert(scc_members(scc) == mall);
            assert(mall == grp.map_values(|k: usize| input[k as int]));
            assert(rr[grp[0] as int] == reach@[grp[0] as int]@);
            assert forall|x: int, y: int|
                0 <= x < scc_members(scc).len() && 0 <= y < scc_members(scc).len() && (x != y || scc is Cyclic) implies reaches(
                all,
                #[trigger] scc_members(scc)[x],
                #[trigger] scc_members(scc)[y],
            ) by {
                assert forall|w: int| 0 <= w < grp.len() implies (#[trigger] grp[w]) as int == leaders[o as int] || (
                rr[leaders[o as int]][grp[w] as int] && rr[grp[w] as int][leaders[o as int]]) by {
                    assert(order@[o as int]@[w] == grp[w]);
                }
                assert forall|w: int| 0 <= w < grp.len() implies (#[trigger] grp[w]) < n by {
                    assert(order@[o as int]@[w] == grp[w]);
                }
                lemma_group_reach(adj, rr, n as nat, grp, leaders[o as int], x, y, scc is Cyclic);
                let p = choose|p: Seq<int>|
                    #[trigger] crate::graph::is_walk(adj, p) && p[0] == grp[x] as int && p.last() == grp[y] as int;
                lemma_walk_chain(input, all, adj, p);
            }
            assert(group_connected(scc, all));
        }
        proof {
            assert(scc_members(scc) == mall);
        }
        out.push(scc);
        proof {
            broadcast use vstd::multiset::group_multiset_axioms;

            assert(out@.drop_last() =~= out_before);
            assert(flatten(out@) == flatten(out_before) + mall);
            vstd::seq_lib::lemma_multiset_commutative(flatten(out_before), mall);
            assert(flatten(out@).to_multiset().add(filled(slots@)) =~= flatten(out_before).to_multiset().add(
                mall.to_multiset(),
            ).add(filled(slots@)));
            assert forall|k: int| 0 <= k < n implies (#[trigger] slots@[k] is Some <==> gi[k] >= o + 1) by {
                if gi[k] == o {
                    assert(in_group(order@, gi[k], k as usize));
                    let x = choose|x: int| 0 <= x < grp.len() && grp[x] == k as usize;
                    assert(grp.take(grp.len() as int)[x] == k as usize);
                }
            }
        }
        o = o + 1;
    }
    proof {
        assert forall|k: int| 0 <= k < n implies #[trigger] slots@[k] is None by {
            assert(gi[k] < order@.len());
        }
        lemma_none_filled(slots@);
        broadcast use vstd::multiset::group_multiset_axioms;

        assert(flatten(out@).to_multiset() =~= flatten(out@).to_multiset().add(filled(slots@)));
        lemma_same_names(input, declarations@);
        let names_all = declared_names(declarations@);
        assert(ns == names_all);
        assert forall|i: int, d: ValueDeclaration, e: ValueDeclaration|
            0 <= i < out@.len() && #[trigger] scc_members(out@[i]).contains(d) && #[trigger] declarations@.contains(e)
                && refers_to(d, e, names_all) implies exists|j: int|
            0 <= j <= i && #[trigger] scc_members(out@[j]).contains(e) by {
            let mi = scc_members(out@[i]);
            let xi = choose|x: int| 0 <= x < mi.len() && mi[x] == d;
            let c = order@[i]@[xi];
            assert(d == input[c as int]);
            assert(input.contains(e));
            let b = choose|b: int| 0 <= b < input.len() && input[b] == e;
            assert(refers_to(input[c as int], input[b], ns));
            assert(0 <= gi[b] <= i && order@[i]@[xi] == order@[i]@[xi]);
            let j = gi[b];
            assert(in_group(order@, j, b as usize));
            let x2 = choose|x: int| 0 <= x < order@[j]@.len() && order@[j]@[x] == b as usize;
            assert(scc_members(out@[j]) == order@[j]@.map_values(|k: usize| input[k as int]));
            assert(scc_members(out@[j]).len() == order@[j]@.len());
            assert(scc_members(out@[j])[x2] == e);
            assert(scc_members(out@[j]).contains(e));
            assert(0 <= j <= i);
        }
    }
    out
}

} // verus!
