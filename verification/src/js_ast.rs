//! The JavaScript that code generation produces.
use crate::text::TextKey;
use vstd::prelude::*;

verus! {

/// A JavaScript identifier.
pub struct Ident(pub String);

impl Ident {
    pub fn copy(&self) -> (r: Ident)
        ensures
            r.0@ == self.0@,
    {
        Ident(crate::names::copy_string(&self.0))
    }
}

/// `import {foo as bar} from "path";`
pub struct ImportStatement {
    /// Each name as exported, and the name it is imported under.
    pub idents: Vec<(Ident, Ident)>,
    pub path: String,
}

/// A JavaScript module.
pub struct Module {
    pub imports: Vec<ImportStatement>,
    pub statements: Vec<ModuleStatement>,
    pub exports: Vec<Ident>,
}

/// A statement at the top of a module.
pub enum ModuleStatement {
    /// `const ident = value;`
    ConstAssignment { ident: Ident, value: Expression },
    /// `ident = value;`
    Assignment { ident: Ident, value: Expression },
    /// `let ident;`
    LetDeclaration { ident: Ident },
    /// `function ident(parameter, parameter) { body }`
    Function { ident: Ident, parameters: Vec<Ident>, body: Block },
}

impl ModuleStatement {
    /// The identifier that this statement defines.
    pub open spec fn defined(&self) -> Ident {
        match *self {
            ModuleStatement::ConstAssignment { ident, .. } => ident,
            ModuleStatement::Assignment { ident, .. } => ident,
            ModuleStatement::LetDeclaration { ident } => ident,
            ModuleStatement::Function { ident, .. } => ident,
        }
    }

    /// The identifier that this statement defines.
    pub fn ident(&self) -> (r: &Ident)
        ensures
            *r == self.defined(),
    {
        match self {
            ModuleStatement::ConstAssignment { ident, .. } => ident,
            ModuleStatement::Assignment { ident, .. } => ident,
            ModuleStatement::LetDeclaration { ident } => ident,
            ModuleStatement::Function { ident, .. } => ident,
        }
    }
}

impl TextKey for Ident {
    open spec fn text_key(&self) -> Seq<char> {
        self.0@
    }

    fn key_str(&self) -> (r: &str) {
        self.0.as_str()
    }
}

/// Imported names sort by the name they are exported under.
impl TextKey for (Ident, Ident) {
    open spec fn text_key(&self) -> Seq<char> {
        self.0.0@
    }

    fn key_str(&self) -> (r: &str) {
        self.0.0.as_str()
    }
}

/// Import statements sort by their paths.
impl TextKey for ImportStatement {
    open spec fn text_key(&self) -> Seq<char> {
        self.path@
    }

    fn key_str(&self) -> (r: &str) {
        self.path.as_str()
    }
}

/// Statements sort by the identifier they define.
impl TextKey for ModuleStatement {
    open spec fn text_key(&self) -> Seq<char> {
        self.defined().0@
    }

    fn key_str(&self) -> (r: &str) {
        self.ident().0.as_str()
    }
}

/// The statements of a block, each ending in a semicolon.
pub enum Block {
    /// `const ident = value; rest`
    ConstAssignment { ident: Ident, value: Expression, rest: Box<Block> },
    /// `expression; rest`
    Expression { expression: Expression, rest: Box<Block> },
    /// `throw new Error("message");`
    Throw(String),
    /// `return value;` or `return;`
    Return(Option<Expression>),
    /// `if (condition) { true_branch } false_branch`
    If { condition: Expression, true_branch: Box<Block>, false_branch: Box<Block> },
}

/// A JavaScript expression.
pub enum Expression {
    /// `true`
    True,
    /// `false`
    False,
    /// `foo`
    Variable(Ident),
    /// `(parameter, parameter) => body`
    ArrowFunction { parameters: Vec<Ident>, body: Box<ArrowFunctionBody> },
    /// `function(argument, argument)`
    Call { function: Box<Expression>, arguments: Vec<Expression> },
    /// `condition ? true_clause : false_clause`
    Conditional { condition: Box<Expression>, true_clause: Box<Expression>, false_clause: Box<Expression> },
    /// `[5, 5, 5]`
    Array(Vec<Expression>),
    /// `5`, `5.0`
    Number(String),
    /// `"five"`
    String(String),
    /// `undefined`
    Undefined,
    /// `lhs && rhs`, `lhs === rhs`
    Operator { op: Operator, lhs: Box<Expression>, rhs: Box<Expression> },
    /// `target[index]`
    IndexAccess { target: Box<Expression>, index: Box<Expression> },
    /// `{"key": value}`
    Object(Vec<(String, Expression)>),
}

/// A binary operator.
#[derive(Clone, Copy, PartialEq, Eq, Structural)]
pub enum Operator {
    And,
    Equals,
}

/// The body of an arrow function.
pub enum ArrowFunctionBody {
    /// `() => expression`
    Expression(Expression),
    /// `() => { block }`
    Block(Block),
}

/// What optimising an expression gives back: a block where the expression
/// became statements, else an expression.
pub enum BlockOrExpression {
    Block(Block),
    Expression(Expression),
}

/// An immediately invoked arrow function: `(() => { block })()`.
pub fn iife(block: Block) -> (r: Expression)
    ensures
        r matches Expression::Call { function, arguments } && arguments@.len() == 0 && match *function {
            Expression::ArrowFunction { parameters, body } => parameters@.len() == 0 && *body
                == ArrowFunctionBody::Block(block),
            _ => false,
        },
{
    Expression::Call {
        function: Box::new(
            Expression::ArrowFunction { parameters: Vec::new(), body: Box::new(ArrowFunctionBody::Block(block)) },
        ),
        arguments: Vec::new(),
    }
}

} // verus!
