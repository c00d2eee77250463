use vstd::prelude::*;

verus! {

/// A compilation unit: a named sequence of definitions, in source order.
#[derive(Debug, PartialEq, Eq)]
pub struct Module {
    pub name: String,
    pub definitions: Vec<Definition>,
}

#[derive(Debug, PartialEq, Eq)]
pub enum Definition {
    Function(Function),
    Constant(Variable),
}

#[derive(Debug, PartialEq, Eq)]
pub struct Function {
    pub name: String,
    pub parameters: Vec<VariableSpec>,
    pub body: Expression,
}

/// A binding's name and whether it may be assigned to.
#[derive(Debug, Clone, PartialEq, Eq)]
pub struct VariableSpec {
    pub name: String,
    pub is_mutable: bool,
}

/// A module-level constant: `const NAME = EXPR;`.
#[derive(Debug, PartialEq, Eq)]
pub struct Variable {
    pub spec: VariableSpec,
    pub value: Box<Expression>,
}

#[derive(Debug, PartialEq, Eq)]
pub enum Expression {
    Integer(u64),
    Variable(String),
    BinOp(BinOp),
    Block(Block),
    VariableAssignment(VariableAssignment),
    Loop(Box<Expression>),
    Break,
    Continue,
}

#[derive(Debug, PartialEq, Eq)]
pub enum BinOp {
    Add(Box<Expression>, Box<Expression>),
    Sub(Box<Expression>, Box<Expression>),
    Mul(Box<Expression>, Box<Expression>),
    Div(Box<Expression>, Box<Expression>),
}

/// Statements in order, then an optional final expression that gives the block its value.
#[derive(Debug, PartialEq, Eq)]
pub struct Block {
    pub body: Vec<Statement>,
    pub last: Option<Box<Expression>>,
}

#[derive(Debug, PartialEq, Eq)]
pub enum Statement {
    Expression(Expression),
    VariableDefinition(VariableDefinition),
}

/// `let [mut] NAME = EXPR`.
#[derive(Debug, PartialEq, Eq)]
pub struct VariableDefinition {
    pub spec: VariableSpec,
    pub value: Option<Box<Expression>>,
}

/// `NAME = EXPR`.
#[derive(Debug, PartialEq, Eq)]
pub struct VariableAssignment {
    pub name: String,
    pub value: Box<Expression>,
}

impl VariableSpec {
    /// An immutable binding of `name`.
    pub fn new(name: &str) -> (r: VariableSpec)
        ensures
            r@ == (Binding { name: name@, mutable: false }),
    {
        VariableSpec { name: name.to_owned(), is_mutable: false }
    }

    /// The same binding, made mutable.
    pub fn mutable(self) -> (r: VariableSpec)
        ensures
            r@ == (Binding { name: self@.name, mutable: true }),
    {
        VariableSpec { is_mutable: true, ..self }
    }
}

impl Block {
    /// The block `{}`: no statements and no value.
    pub fn empty() -> (r: Block)
        ensures
            r@ == Expr::Block(Seq::empty(), None),
    {
        let body: Vec<Statement> = Vec::new();
        assert(stmts_model(body@) =~= Seq::<Stmt>::empty());
        Block { body, last: None }
    }
}

// The mathematical model of the syntax tree: names are character sequences.
pub enum Op {
    Add,
    Sub,
    Mul,
    Div,
}

pub struct Binding {
    pub name: Seq<char>,
    pub mutable: bool,
}

pub enum Expr {
    Int(u64),
    Var(Seq<char>),
    Bin(Op, Box<Expr>, Box<Expr>),
    Block(Seq<Stmt>, Option<Box<Expr>>),
    Assign(Seq<char>, Box<Expr>),
    Loop(Box<Expr>),
    Break,
    Continue,
}

pub enum Stmt {
    Expr(Expr),
    Let(Binding, Option<Expr>),
}

pub enum Def {
    Func(Seq<char>, Seq<Binding>, Expr),
    Const(Binding, Expr),
}

pub struct Unit {
    pub name: Seq<char>,
    pub defs: Seq<Def>,
}

pub open spec fn expr_model(e: Expression) -> Expr
    decreases e,
{
    match e {
        Expression::Integer(v) => Expr::Int(v),
        Expression::Variable(name) => Expr::Var(name@),
        Expression::BinOp(op) => match op {
            BinOp::Add(l, r) => Expr::Bin(Op::Add, Box::new(expr_model(*l)), Box::new(expr_model(*r))),
            BinOp::Sub(l, r) => Expr::Bin(Op::Sub, Box::new(expr_model(*l)), Box::new(expr_model(*r))),
            BinOp::Mul(l, r) => Expr::Bin(Op::Mul, Box::new(expr_model(*l)), Box::new(expr_model(*r))),
            BinOp::Div(l, r) => Expr::Bin(Op::Div, Box::new(expr_model(*l)), Box::new(expr_model(*r))),
        },
        Expression::Block(b) => Expr::Block(
            stmts_model(b.body@),
            match b.last {
                Some(x) => Some(Box::new(expr_model(*x))),
                None => None,
            },
        ),
        Expression::VariableAssignment(a) => Expr::Assign(a.name@, Box::new(expr_model(*a.value))),
        Expression::Loop(body) => Expr::Loop(Box::new(expr_model(*body))),
        Expression::Break => Expr::Break,
        Expression::Continue => Expr::Continue,
    }
}

pub open spec fn stmt_model(s: Statement) -> Stmt
    decreases s,
{
    match s {
        Statement::Expression(e) => Stmt::Expr(expr_model(e)),
        Statement::VariableDefinition(d) => Stmt::Let(
            d.spec@,
            match d.value {
                Some(x) => Some(expr_model(*x)),
                None => None,
            },
        ),
    }
}

pub open spec fn stmts_model(ss: Seq<Statement>) -> Seq<Stmt>
    decreases ss,
{
    if ss.len() == 0 {
        Seq::empty()
    } else {
        stmts_model(ss.drop_last()).push(stmt_model(ss.last()))
    }
}

impl View for VariableSpec {
    type V = Binding;

    open spec fn view(&self) -> Binding {
        Binding { name: self.name@, mutable: self.is_mutable }
    }
}

impl View for Expression {
    type V = Expr;

    open spec fn view(&self) -> Expr {
        expr_model(*self)
    }
}

impl View for Statement {
    type V = Stmt;

    open spec fn view(&self) -> Stmt {
        stmt_model(*self)
    }
}

impl View for Block {
    type V = Expr;

    /// A block, seen as the expression it forms.
    open spec fn view(&self) -> Expr {
        expr_model(Expression::Block(*self))
    }
}

pub open spec fn bindings_model(ps: Seq<VariableSpec>) -> Seq<Binding> {
    ps.map_values(|p: VariableSpec| p@)
}

impl View for VariableDefinition {
    type V = Stmt;

    /// A variable definition, seen as the statement it forms.
    open spec fn view(&self) -> Stmt {
        stmt_model(Statement::VariableDefinition(*self))
    }
}

impl View for Function {
    type V = Def;

    /// A function, seen as the definition it forms.
    open spec fn view(&self) -> Def {
        Def::Func(self.name@, bindings_model(self.parameters@), self.body@)
    }
}

impl View for Definition {
    type V = Def;

    open spec fn view(&self) -> Def {
        match self {
            Definition::Function(f) => f@,
            Definition::Constant(c) => Def::Const(c.spec@, expr_model(*c.value)),
        }
    }
}

impl View for Module {
    type V = Unit;

    open spec fn view(&self) -> Unit {
        Unit { name: self.name@, defs: self.definitions@.map_values(|d: Definition| d@) }
    }
}

} // verus!
