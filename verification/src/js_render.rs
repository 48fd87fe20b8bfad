//! Rendering JavaScript as text.
use crate::js_ast::{ArrowFunctionBody, Block, Expression, Ident, ImportStatement, Module, ModuleStatement, Operator};
use crate::text::{push_char, push_str};
use vstd::prelude::*;

verus! {

/// `s` wrapped in parentheses when `cond` holds.
pub open spec fn parens_if(cond: bool, s: Seq<char>) -> Seq<char> {
    if cond {
        "("@ + s + ")"@
    } else {
        s
    }
}

/// Whether an expression needs parentheses before a call or a `?`.
pub open spec fn is_arrow_or_conditional(e: Expression) -> bool {
    e is ArrowFunction || e is Conditional
}

/// The text of an operator, with its spaces.
pub open spec fn operator_text(op: Operator) -> Seq<char> {
    match op {
        Operator::And => " && "@,
        Operator::Equals => " === "@,
    }
}

/// The first `n` identifiers, separated by `sep`.
pub open spec fn join_idents(idents: Seq<Ident>, n: nat, sep: Seq<char>) -> Seq<char>
    decreases n,
{
    if n == 0 || n > idents.len() {
        Seq::empty()
    } else if n == 1 {
        idents[0].0@
    } else {
        join_idents(idents, (n - 1) as nat, sep) + sep + idents[n - 1].0@
    }
}

/// The rendering of an expression.
pub open spec fn render_expr(e: Expression) -> Seq<char>
    decreases e, 0nat,
{
    match e {
        Expression::Variable(ident) => ident.0@,
        Expression::ArrowFunction { parameters, body } => "("@ + join_idents(parameters@, parameters@.len(), ","@)
            + ") => "@ + render_body(*body),
        Expression::Call { function, arguments } => parens_if(
            is_arrow_or_conditional(*function),
            render_expr(*function),
        ) + "("@ + render_exprs(arguments@, arguments@.len()) + ")"@,
        Expression::Conditional { condition, true_clause, false_clause } => parens_if(
            is_arrow_or_conditional(*condition),
            render_expr(*condition),
        ) + "?"@ + render_expr(*true_clause) + ":"@ + render_expr(*false_clause),
        Expression::Array(elements) => "["@ + render_exprs(elements@, elements@.len()) + "]"@,
        Expression::Number(n) => n@,
        Expression::String(s) => "\""@ + s@ + "\""@,
        Expression::True => "true"@,
        Expression::False => "false"@,
        Expression::Undefined => "undefined"@,
        Expression::Operator { op, lhs, rhs } => "("@ + render_expr(*lhs) + operator_text(op) + render_expr(*rhs)
            + ")"@,
        Expression::IndexAccess { target, index } => parens_if(
            is_arrow_or_conditional(*target) || *target is Operator,
            render_expr(*target),
        ) + "["@ + render_expr(*index) + "]"@,
        Expression::Object(entries) => "{"@ + render_entries(entries@, entries@.len()) + "}"@,
    }
}

/// The first `n` expressions, rendered and separated by commas.
pub open spec fn render_exprs(es: Seq<Expression>, n: nat) -> Seq<char>
    decreases es, n,
{
    if n == 0 || n > es.len() {
        Seq::empty()
    } else if n == 1 {
        render_expr(es[0])
    } else {
        render_exprs(es, (n - 1) as nat) + ","@ + render_expr(es[n - 1])
    }
}

/// The first `n` entries of an object, as `"key":value`, separated by commas.
pub open spec fn render_entries(entries: Seq<(String, Expression)>, n: nat) -> Seq<char>
    decreases entries, n,
{
    if n == 0 || n > entries.len() {
        Seq::empty()
    } else if n == 1 {
        "\""@ + entries[0].0@ + "\":"@ + render_expr(entries[0].1)
    } else {
        render_entries(entries, (n - 1) as nat) + ","@ + "\""@ + entries[n - 1].0@ + "\":"@ + render_expr(
            entries[n - 1].1,
        )
    }
}

/// The rendering of an arrow function's body; an object is wrapped in parentheses.
pub open spec fn render_body(b: ArrowFunctionBody) -> Seq<char>
    decreases b, 0nat,
{
    match b {
        ArrowFunctionBody::Block(block) => "{"@ + render_statements(block) + "}"@,
        ArrowFunctionBody::Expression(e) => parens_if(e is Object, render_expr(e)),
    }
}

/// The rendering of a block's statements.
pub open spec fn render_statements(b: Block) -> Seq<char>
    decreases b, 0nat,
{
    match b {
        Block::Return(None) => "return;"@,
        Block::Return(Some(e)) => "return "@ + render_expr(e) + ";"@,
        Block::Expression { expression, rest } => render_expr(expression) + ";"@ + render_statements(*rest),
        Block::Throw(message) => "throw new Error(\""@ + message@ + "\");"@,
        Block::ConstAssignment { ident, value, rest } => "const "@ + ident.0@ + " = "@ + render_expr(value) + ";"@
            + render_statements(*rest),
        Block::If { condition, true_branch, false_branch } => "if ("@ + render_expr(condition) + ")"@ + "{"@
            + render_statements(*true_branch) + "}"@ + render_statements(*false_branch),
    }
}

/// The rendering of a block: its statements in braces.
pub open spec fn block_text(b: Block) -> Seq<char> {
    "{"@ + render_statements(b) + "}"@
}

/// The rendering of a module statement.
pub open spec fn render_module_statement(s: ModuleStatement) -> Seq<char> {
    match s {
        ModuleStatement::LetDeclaration { ident } => "let "@ + ident.0@ + ";"@,
        ModuleStatement::ConstAssignment { ident, value } => "const "@ + ident.0@ + " = "@ + render_expr(value) + ";"@,
        ModuleStatement::Assignment { ident, value } => ident.0@ + " = "@ + render_expr(value) + ";"@,
        ModuleStatement::Function { ident, parameters, body } => "function "@ + ident.0@ + "("@ + join_idents(
            parameters@,
            parameters@.len(),
            ","@,
        ) + ")"@ + block_text(body),
    }
}

/// The first `n` imported names, as `foo as bar`, separated by commas.
pub open spec fn render_import_idents(idents: Seq<(Ident, Ident)>, n: nat) -> Seq<char>
    decreases n,
{
    if n == 0 || n > idents.len() {
        Seq::empty()
    } else if n == 1 {
        idents[0].0.0@ + " as "@ + idents[0].1.0@
    } else {
        render_import_idents(idents, (n - 1) as nat) + ","@ + idents[n - 1].0.0@ + " as "@ + idents[n - 1].1.0@
    }
}

/// The rendering of an import statement.
pub open spec fn render_import(i: ImportStatement) -> Seq<char> {
    "import {"@ + render_import_idents(i.idents@, i.idents@.len()) + "} from \""@ + i.path@ + "\";"@
}

/// Appends an identifier.
pub fn render_ident(ident: &Ident, accum: &mut String)
    ensures
        final(accum)@ == old(accum)@ + ident.0@,
{
    push_str(accum, ident.0.as_str());
}

fn push_idents(accum: &mut String, idents: &Vec<Ident>, sep: &str)
    ensures
        final(accum)@ == old(accum)@ + join_idents(idents@, idents@.len(), sep@),
{
    let ghost start = accum@;
    let mut i: usize = 0;
    while i < idents.len()
        invariant
            i <= idents@.len(),
            accum@ == start + join_idents(idents@, i as nat, sep@),
        decreases idents@.len() - i,
    {
        if i > 0 {
            push_str(accum, sep);
        }
        render_ident(&idents[i], accum);
        proof {
            assert(accum@ =~= start + join_idents(idents@, (i + 1) as nat, sep@));
        }
        i = i + 1;
    }
}

fn lit(accum: &mut String, s: &str)
    ensures
        final(accum)@ == old(accum)@ + s@,
{
    push_str(accum, s);
}

/// Appends an expression, wrapped in parentheses when `condition` holds.
pub fn render_in_parens_if(condition: bool, e: &Expression, accum: &mut String)
    ensures
        final(accum)@ == old(accum)@ + parens_if(condition, render_expr(*e)),
{
    let ghost start = accum@;
    if condition {
        lit(accum, "(");
        render_expression(e, accum);
        lit(accum, ")");
    } else {
        render_expression(e, accum);
    }
    proof {
        assert(accum@ =~= start + parens_if(condition, render_expr(*e)));
    }
}

/// Appends expressions separated by commas.
pub fn render_comma_sep(es: &Vec<Expression>, accum: &mut String)
    ensures
        final(accum)@ == old(accum)@ + render_exprs(es@, es@.len()),
{
    let ghost start = accum@;
    let mut i: usize = 0;
    while i < es.len()
        invariant
            i <= es@.len(),
            accum@ == start + render_exprs(es@, i as nat),
        decreases es@.len() - i,
    {
        if i > 0 {
            lit(accum, ",");
        }
        render_expression(&es[i], accum);
        proof {
            assert(accum@ =~= start + render_exprs(es@, (i + 1) as nat));
        }
        i = i + 1;
    }
}

/// Appends an expression.
pub fn render_expression(e: &Expression, accum: &mut String)
    ensures
        final(accum)@ == old(accum)@ + render_expr(*e),
    decreases e, 2nat,
{
    let ghost start = accum@;
    match e {
        Expression::Variable(ident) => {
            render_ident(ident, accum);
        },
        Expression::ArrowFunction { parameters, body } => {
            lit(accum, "(");
            push_idents(accum, parameters, ",");
            lit(accum, ") => ");
            render_arrow_body(body, accum);
        },
        Expression::Call { function, arguments } => {
            let wrap = match &**function {
                Expression::ArrowFunction { .. } => true,
                Expression::Conditional { .. } => true,
                _ => false,
            };
            render_in_parens_if_rec(wrap, e, function, accum);
            lit(accum, "(");
            render_comma_sep_rec(e, arguments, accum);
            lit(accum, ")");
        },
        Expression::Conditional { condition, true_clause, false_clause } => {
            let wrap = match &**condition {
                Expression::ArrowFunction { .. } => true,
                Expression::Conditional { .. } => true,
                _ => false,
            };
            render_in_parens_if_rec(wrap, e, condition, accum);
            lit(accum, "?");
            render_expression(true_clause, accum);
            lit(accum, ":");
            render_expression(false_clause, accum);
        },
        Expression::Array(elements) => {
            lit(accum, "[");
            render_comma_sep_rec(e, elements, accum);
            lit(accum, "]");
        },
        Expression::Number(n) => {
            push_str(accum, n.as_str());
        },
        Expression::String(s) => {
            lit(accum, "\"");
            push_str(accum, s.as_str());
            lit(accum, "\"");
        },
        Expression::True => {
            lit(accum, "true");
        },
        Expression::False => {
            lit(accum, "false");
        },
        Expression::Undefined => {
            lit(accum, "undefined");
        },
        Expression::Operator { op, lhs, rhs } => {
            // Always parenthesised, rather than worry about precedence.
            lit(accum, "(");
            render_expression(lhs, accum);
            match op {
                Operator::And => lit(accum, " && "),
                Operator::Equals => lit(accum, " === "),
            }
            render_expression(rhs, accum);
            lit(accum, ")");
        },
        Expression::IndexAccess { target, index } => {
            let wrap = match &**target {
                Expression::ArrowFunction { .. } => true,
                Expression::Conditional { .. } => true,
                Expression::Operator { .. } => true,
                _ => false,
            };
            render_in_parens_if_rec(wrap, e, target, accum);
            lit(accum, "[");
            render_expression(index, accum);
            lit(accum, "]");
        },
        Expression::Object(entries) => {
            lit(accum, "{");
            let ghost mid = accum@;
            let mut i: usize = 0;
            while i < entries.len()
                invariant
                    *e == Expression::Object(*entries),
                    i <= entries@.len(),
                    accum@ == mid + render_entries(entries@, i as nat),
                decreases entries@.len() - i,
            {
                proof {
                    assert(decreases_to!(*e => (*e)->Object_0));
                    assert(decreases_to!(*entries => entries@));
                    assert(decreases_to!(entries@ => entries@[i as int]));
                    assert(decreases_to!(entries@[i as int] => entries@[i as int].1));
                }
                if i > 0 {
                    lit(accum, ",");
                }
                lit(accum, "\"");
                push_str(accum, entries[i].0.as_str());
                lit(accum, "\":");
                render_expression(&entries[i].1, accum);
                proof {
                    assert(accum@ =~= mid + render_entries(entries@, (i + 1) as nat));
                }
                i = i + 1;
            }
            lit(accum, "}");
        },
    }
    proof {
        assert(accum@ =~= start + render_expr(*e));
    }
}

fn render_in_parens_if_rec(condition: bool, parent: &Expression, e: &Expression, accum: &mut String)
    requires
        decreases_to!(*parent => *e),
    ensures
        final(accum)@ == old(accum)@ + parens_if(condition, render_expr(*e)),
    decreases parent, 1nat,
{
    let ghost start = accum@;
    if condition {
        lit(accum, "(");
        render_expression(e, accum);
        lit(accum, ")");
    } else {
        render_expression(e, accum);
    }
    proof {
        assert(accum@ =~= start + parens_if(condition, render_expr(*e)));
    }
}

fn render_comma_sep_rec(parent: &Expression, es: &Vec<Expression>, accum: &mut String)
    requires
        decreases_to!(*parent => *es),
    ensures
        final(accum)@ == old(accum)@ + render_exprs(es@, es@.len()),
    decreases parent, 1nat,
{
    let ghost start = accum@;
    let mut i: usize = 0;
    while i < es.len()
        invariant
            decreases_to!(*parent => *es),
            i <= es@.len(),
            accum@ == start + render_exprs(es@, i as nat),
        decreases es@.len() - i,
    {
        proof {
            assert(decreases_to!(*es => es@));
            assert(decreases_to!(es@ => es@[i as int]));
        }
        if i > 0 {
            lit(accum, ",");
        }
        render_expression(&es[i], accum);
        proof {
            assert(accum@ =~= start + render_exprs(es@, (i + 1) as nat));
        }
        i = i + 1;
    }
}

/// Appends the body of an arrow function.
pub fn render_arrow_body(b: &ArrowFunctionBody, accum: &mut String)
    ensures
        final(accum)@ == old(accum)@ + render_body(*b),
    decreases b, 0nat,
{
    let ghost start = accum@;
    match b {
        ArrowFunctionBody::Block(block) => {
            lit(accum, "{");
            render_block_statements(block, accum);
            lit(accum, "}");
        },
        ArrowFunctionBody::Expression(e) => {
            let is_object = match e {
                Expression::Object(_) => true,
                _ => false,
            };
            if is_object {
                lit(accum, "(");
                render_expression(e, accum);
                lit(accum, ")");
            } else {
                render_expression(e, accum);
            }
        },
    }
    proof {
        assert(accum@ =~= start + render_body(*b));
    }
}

/// Appends a block, in braces.
pub fn render_block(b: &Block, accum: &mut String)
    ensures
        final(accum)@ == old(accum)@ + block_text(*b),
{
    let ghost start = accum@;
    lit(accum, "{");
    render_block_statements(b, accum);
    lit(accum, "}");
    proof {
        assert(accum@ =~= start + block_text(*b));
    }
}

/// Appends the statements of a block.
pub fn render_block_statements(b: &Block, accum: &mut String)
    ensures
        final(accum)@ == old(accum)@ + render_statements(*b),
    decreases b, 0nat,
{
    let ghost start = accum@;
    match b {
        Block::Return(None) => {
            lit(accum, "return;");
        },
        Block::Return(Some(e)) => {
            lit(accum, "return ");
            render_expression(e, accum);
            lit(accum, ";");
        },
        Block::Expression { expression, rest } => {
            render_expression(expression, accum);
            lit(accum, ";");
            render_block_statements(rest, accum);
        },
        Block::Throw(message) => {
            lit(accum, "throw new Error(\"");
            push_str(accum, message.as_str());
            lit(accum, "\");");
        },
        Block::ConstAssignment { ident, value, rest } => {
            lit(accum, "const ");
            render_ident(ident, accum);
            lit(accum, " = ");
            render_expression(value, accum);
            lit(accum, ";");
            render_block_statements(rest, accum);
        },
        Block::If { condition, true_branch, false_branch } => {
            lit(accum, "if (");
            render_expression(condition, accum);
            lit(accum, ")");
            lit(accum, "{");
            render_block_statements(true_branch, accum);
            lit(accum, "}");
            render_block_statements(false_branch, accum);
        },
    }
    proof {
        assert(accum@ =~= start + render_statements(*b));
    }
}

/// Appends a module statement.
pub fn render_statement(s: &ModuleStatement, accum: &mut String)
    ensures
        final(accum)@ == old(accum)@ + render_module_statement(*s),
{
    let ghost start = accum@;
    match s {
        ModuleStatement::LetDeclaration { ident } => {
            lit(accum, "let ");
            render_ident(ident, accum);
            lit(accum, ";");
        },
        ModuleStatement::ConstAssignment { ident, value } => {
            lit(accum, "const ");
            render_ident(ident, accum);
            lit(accum, " = ");
            render_expression(value, accum);
            lit(accum, ";");
        },
        ModuleStatement::Assignment { ident, value } => {
            render_ident(ident, accum);
            lit(accum, " = ");
            render_expression(value, accum);
            lit(accum, ";");
        },
        ModuleStatement::Function { ident, parameters, body } => {
            lit(accum, "function ");
            render_ident(ident, accum);
            lit(accum, "(");
            push_idents(accum, parameters, ",");
            lit(accum, ")");
            render_block(body, accum);
        },
    }
    proof {
        assert(accum@ =~= start + render_module_statement(*s));
    }
}

/// Appends an import statement.
pub fn render_import_statement(i: &ImportStatement, accum: &mut String)
    ensures
        final(accum)@ == old(accum)@ + render_import(*i),
{
    let ghost start = accum@;
    lit(accum, "import {");
    let ghost mid = accum@;
    let mut k: usize = 0;
    while k < i.idents.len()
        invariant
            k <= i.idents@.len(),
            accum@ == mid + render_import_idents(i.idents@, k as nat),
        decreases i.idents@.len() - k,
    {
        if k > 0 {
            lit(accum, ",");
        }
        render_ident(&i.idents[k].0, accum);
        lit(accum, " as ");
        render_ident(&i.idents[k].1, accum);
        proof {
            assert(accum@ =~= mid + render_import_idents(i.idents@, (k + 1) as nat));
        }
        k = k + 1;
    }
    lit(accum, "} from \"");
    push_str(accum, i.path.as_str());
    lit(accum, "\";");
    proof {
        assert(accum@ =~= start + render_import(*i));
    }
}

/// The first `n` import statements, a line each.
pub open spec fn import_lines(is: Seq<ImportStatement>, n: nat) -> Seq<char>
    decreases n,
{
    if n == 0 || n > is.len() {
        Seq::empty()
    } else {
        import_lines(is, (n - 1) as nat) + render_import(is[n - 1]) + seq!['\n']
    }
}

/// The first `n` module statements, a line each.
pub open spec fn statement_lines(ss: Seq<ModuleStatement>, n: nat) -> Seq<char>
    decreases n,
{
    if n == 0 || n > ss.len() {
        Seq::empty()
    } else {
        statement_lines(ss, (n - 1) as nat) + render_module_statement(ss[n - 1]) + seq!['\n']
    }
}

/// The text of a module: its imports and statements a line each, then its exports.
pub open spec fn module_text(m: Module) -> Seq<char> {
    import_lines(m.imports@, m.imports@.len()) + statement_lines(m.statements@, m.statements@.len()) + "export {"@
        + join_idents(m.exports@, m.exports@.len(), ","@) + "};"@ + seq!['\n']
}

/// Renders a module: its imports and statements a line each, then its exports.
pub fn render_module(module: &Module) -> (r: String)
    ensures
        r@ == module_text(*module),
{
    let mut accum = String::new();
    let mut i: usize = 0;
    while i < module.imports.len()
        invariant
            i <= module.imports@.len(),
            accum@ == import_lines(module.imports@, i as nat),
        decreases module.imports@.len() - i,
    {
        render_import_statement(&module.imports[i], &mut accum);
        push_char(&mut accum, '\n');
        proof {
            assert(accum@ =~= import_lines(module.imports@, (i + 1) as nat));
        }
        i = i + 1;
    }
    let ghost head = accum@;
    let mut j: usize = 0;
    while j < module.statements.len()
        invariant
            j <= module.statements@.len(),
            accum@ == head + statement_lines(module.statements@, j as nat),
        decreases module.statements@.len() - j,
    {
        render_statement(&module.statements[j], &mut accum);
        push_char(&mut accum, '\n');
        proof {
            assert(accum@ =~= head + statement_lines(module.statements@, (j + 1) as nat));
        }
        j = j + 1;
    }
    lit(&mut accum, "export {");
    push_idents(&mut accum, &module.exports, ",");
    lit(&mut accum, "};");
    push_char(&mut accum, '\n');
    proof {
        assert(accum@ =~= module_text(*module));
    }
    accum
}

} // verus!
