use vstd::prelude::*;
use crate::ast::{
    BinOp, Binding, Block, Def, Definition, Expr, Expression, Function, Module, Op, Statement, Stmt,
    Unit, Variable, VariableAssignment, VariableDefinition, VariableSpec, bindings_model,
    stmts_model,
};
use crate::lexer::{expect_ident, expect_tok, TokenStream};
use crate::tokens::{Tok, Token};

verus! {

/// Why a source text is not a module.
#[derive(Debug)]
pub enum ParseError {
    UnexpectedToken(Token),
    ExpectedToken(Token),
    UnexpectedEoF,
    ExpectedExpression,
}

pub enum PErr {
    UnexpectedToken(Tok),
    ExpectedToken(Tok),
    UnexpectedEoF,
    ExpectedExpression,
}

impl View for ParseError {
    type V = PErr;

    open spec fn view(&self) -> PErr {
        match self {
            ParseError::UnexpectedToken(t) => PErr::UnexpectedToken(t@),
            ParseError::ExpectedToken(t) => PErr::ExpectedToken(t@),
            ParseError::UnexpectedEoF => PErr::UnexpectedEoF,
            ParseError::ExpectedExpression => PErr::ExpectedExpression,
        }
    }
}


/// What a parser returns, in the model: the value and the tokens left, or the error.
pub open spec fn outcome<T: View>(r: Result<T, ParseError>, rest: Seq<Tok>) -> Result<
    (T::V, Seq<Tok>),
    PErr,
> {
    match r {
        Ok(v) => Ok((v@, rest)),
        Err(e) => Err(e@),
    }
}

/// An identifier followed by `=`, where a second `=` does not follow.
pub open spec fn is_assignment_start(ts: Seq<Tok>) -> bool {
    ts.len() >= 2 && ts[0] is Ident && ts[1] == Tok::Equal && !(ts.len() >= 3 && ts[2]
        == Tok::Equal)
}

pub open spec fn additive_op(t: Tok) -> Option<Op> {
    match t {
        Tok::Plus => Some(Op::Add),
        Tok::Minus => Some(Op::Sub),
        _ => None,
    }
}

pub open spec fn multiplicative_op(t: Tok) -> Option<Op> {
    match t {
        Tok::Star => Some(Op::Mul),
        Tok::Slash => Some(Op::Div),
        _ => None,
    }
}

/// `expr := IDENT '=' expr | additive`
pub open spec fn p_expr(ts: Seq<Tok>) -> Result<(Expr, Seq<Tok>), PErr>
    decreases ts.len(), 5int,
{
    if is_assignment_start(ts) {
        match p_expr(ts.skip(2)) {
            Ok((v, rest)) => Ok((Expr::Assign(ts[0]->Ident_0, Box::new(v)), rest)),
            Err(e) => Err(e),
        }
    } else {
        p_additive(ts)
    }
}

/// `additive := term (('+' | '-') term)*`, associating to the left.
pub open spec fn p_additive(ts: Seq<Tok>) -> Result<(Expr, Seq<Tok>), PErr>
    decreases ts.len(), 4int,
{
    match p_term(ts) {
        Ok((lhs, rest)) => if rest.len() <= ts.len() {
            p_additive_rest(lhs, rest)
        } else {
            Ok((lhs, rest))
        },
        Err(e) => Err(e),
    }
}

pub open spec fn p_additive_rest(lhs: Expr, ts: Seq<Tok>) -> Result<(Expr, Seq<Tok>), PErr>
    decreases ts.len(), 3int,
{
    if ts.len() > 0 && additive_op(ts[0]) is Some {
        match p_term(ts.drop_first()) {
            Ok((rhs, rest)) => if rest.len() < ts.len() {
                p_additive_rest(
                    Expr::Bin(additive_op(ts[0])->0, Box::new(lhs), Box::new(rhs)),
                    rest,
                )
            } else {
                Ok((lhs, ts))
            },
            Err(e) => Err(e),
        }
    } else {
        Ok((lhs, ts))
    }
}

/// `term := factor (('*' | '/') factor)*`, associating to the left.
pub open spec fn p_term(ts: Seq<Tok>) -> Result<(Expr, Seq<Tok>), PErr>
    decreases ts.len(), 2int,
{
    match p_factor(ts) {
        Ok((lhs, rest)) => if rest.len() <= ts.len() {
            p_term_rest(lhs, rest)
        } else {
            Ok((lhs, rest))
        },
        Err(e) => Err(e),
    }
}

pub open spec fn p_term_rest(lhs: Expr, ts: Seq<Tok>) -> Result<(Expr, Seq<Tok>), PErr>
    decreases ts.len(), 1int,
{
    if ts.len() > 0 && multiplicative_op(ts[0]) is Some {
        match p_factor(ts.drop_first()) {
            Ok((rhs, rest)) => if rest.len() < ts.len() {
                p_term_rest(
                    Expr::Bin(multiplicative_op(ts[0])->0, Box::new(lhs), Box::new(rhs)),
                    rest,
                )
            } else {
                Ok((lhs, ts))
            },
            Err(e) => Err(e),
        }
    } else {
        Ok((lhs, ts))
    }
}

/// `factor := '(' expr ')' | '{' block '}' | 'loop' expr | 'break' | 'continue' | IDENT | INTEGER`
pub open spec fn p_factor(ts: Seq<Tok>) -> Result<(Expr, Seq<Tok>), PErr>
    decreases ts.len(), 0int,
{
    if ts.len() == 0 {
        Err(PErr::UnexpectedEoF)
    } else {
        match ts[0] {
            Tok::OpenParen => match p_expr(ts.drop_first()) {
                Ok((e, rest)) => match expect_tok(rest, Tok::CloseParen) {
                    Ok(after) => Ok((e, after)),
                    Err(x) => Err(x),
                },
                Err(x) => Err(x),
            },
            Tok::OpenBrace => p_block(ts.drop_first(), Seq::empty()),
            Tok::Loop => match p_expr(ts.drop_first()) {
                Ok((body, rest)) => Ok((Expr::Loop(Box::new(body)), rest)),
                Err(x) => Err(x),
            },
            Tok::Break => Ok((Expr::Break, ts.drop_first())),
            Tok::Continue => Ok((Expr::Continue, ts.drop_first())),
            Tok::Ident(name) => Ok((Expr::Var(name), ts.drop_first())),
            Tok::Int(v) => Ok((Expr::Int(v), ts.drop_first())),
            t => Err(PErr::UnexpectedToken(t)),
        }
    }
}

/// The rest of a block after `{`, with the statements `body` read so far.
/// A statement ends with `;`, or is the block's value when `}` follows it.
pub open spec fn p_block(ts: Seq<Tok>, body: Seq<Stmt>) -> Result<(Expr, Seq<Tok>), PErr>
    decreases ts.len(), 8int,
{
    if ts.len() > 0 && ts[0] == Tok::CloseBrace {
        Ok((Expr::Block(body, None), ts.drop_first()))
    } else if ts.len() > 0 && ts[0] == Tok::Semi {
        Err(PErr::UnexpectedToken(Tok::Semi))
    } else {
        match p_stmt(ts) {
            Err(e) => Err(e),
            Ok((st, rest)) => if rest.len() < ts.len() {
                if rest.len() == 0 {
                    Err(PErr::UnexpectedEoF)
                } else if rest[0] == Tok::Semi {
                    p_block(rest.drop_first(), body.push(st))
                } else if rest[0] == Tok::CloseBrace {
                    match st {
                        Stmt::Expr(e) => Ok((Expr::Block(body, Some(Box::new(e))), rest.drop_first())),
                        Stmt::Let(..) => Err(PErr::ExpectedExpression),
                    }
                } else {
                    Err(PErr::UnexpectedToken(rest[0]))
                }
            } else {
                Err(PErr::UnexpectedEoF)
            },
        }
    }
}

/// `stmt := let_def | expr`
pub open spec fn p_stmt(ts: Seq<Tok>) -> Result<(Stmt, Seq<Tok>), PErr>
    decreases ts.len(), 7int,
{
    if ts.len() > 0 && ts[0] == Tok::Let {
        p_let(ts)
    } else {
        match p_expr(ts) {
            Ok((e, rest)) => Ok((Stmt::Expr(e), rest)),
            Err(x) => Err(x),
        }
    }
}

/// `let_def := 'let' ['mut'] IDENT '=' expr`
pub open spec fn p_let(ts: Seq<Tok>) -> Result<(Stmt, Seq<Tok>), PErr>
    decreases ts.len(), 6int,
{
    match expect_tok(ts, Tok::Let) {
        Err(x) => Err(x),
        Ok(ts1) => {
            let mutable = ts1.len() > 0 && ts1[0] == Tok::Mut;
            let ts2 = if mutable {
                ts1.drop_first()
            } else {
                ts1
            };
            match expect_ident(ts2) {
                Err(x) => Err(x),
                Ok((name, ts3)) => match expect_tok(ts3, Tok::Equal) {
                    Err(x) => Err(x),
                    Ok(ts4) => match p_expr(ts4) {
                        Ok((v, rest)) => Ok(
                            (Stmt::Let(Binding { name, mutable }, Some(v)), rest),
                        ),
                        Err(x) => Err(x),
                    },
                },
            }
        },
    }
}

/// `function := 'fn' IDENT '(' ')' expr`
pub open spec fn p_function(ts: Seq<Tok>) -> Result<(Def, Seq<Tok>), PErr> {
    match expect_tok(ts, Tok::Fn) {
        Err(x) => Err(x),
        Ok(ts1) => match expect_ident(ts1) {
            Err(x) => Err(x),
            Ok((name, ts2)) => match expect_tok(ts2, Tok::OpenParen) {
                Err(x) => Err(x),
                Ok(ts3) => match expect_tok(ts3, Tok::CloseParen) {
                    Err(x) => Err(x),
                    Ok(ts4) => match p_expr(ts4) {
                        Ok((body, rest)) => Ok((Def::Func(name, Seq::empty(), body), rest)),
                        Err(x) => Err(x),
                    },
                },
            },
        },
    }
}

/// `constant := 'const' IDENT '=' expr ';'`
pub open spec fn p_constant(ts: Seq<Tok>) -> Result<(Def, Seq<Tok>), PErr> {
    match expect_tok(ts, Tok::Const) {
        Err(x) => Err(x),
        Ok(ts1) => match expect_ident(ts1) {
            Err(x) => Err(x),
            Ok((name, ts2)) => match expect_tok(ts2, Tok::Equal) {
                Err(x) => Err(x),
                Ok(ts3) => match p_expr(ts3) {
                    Err(x) => Err(x),
                    Ok((v, ts4)) => match expect_tok(ts4, Tok::Semi) {
                        Err(x) => Err(x),
                        Ok(rest) => Ok((Def::Const(Binding { name, mutable: false }, v), rest)),
                    },
                },
            },
        },
    }
}

/// The definitions of the remaining tokens, after the definitions `defs` read so far.
pub open spec fn p_defs(ts: Seq<Tok>, defs: Seq<Def>) -> Result<Seq<Def>, PErr>
    decreases ts.len(),
{
    if ts.len() == 0 {
        Ok(defs)
    } else if ts[0] == Tok::Fn || ts[0] == Tok::Const {
        let r = if ts[0] == Tok::Fn {
            p_function(ts)
        } else {
            p_constant(ts)
        };
        match r {
            Ok((d, rest)) => if rest.len() < ts.len() {
                p_defs(rest, defs.push(d))
            } else {
                Err(PErr::UnexpectedEoF)
            },
            Err(e) => Err(e),
        }
    } else {
        Err(PErr::UnexpectedToken(ts[0]))
    }
}

/// The module named `name` that a token sequence forms, or the first error in it.
pub open spec fn parse_tokens(ts: Seq<Tok>, name: Seq<char>) -> Result<Unit, PErr> {
    match p_defs(ts, Seq::empty()) {
        Ok(defs) => Ok(Unit { name, defs }),
        Err(e) => Err(e),
    }
}

/// The module named `name` that a source text forms, or the first error in it.
pub open spec fn parse_source(s: Seq<char>, name: Seq<char>) -> Result<Unit, PErr> {
    parse_tokens(crate::lexer::tokenize(s), name)
}


impl Module {
    /// Parses every definition of the stream into a module named `name`.
    pub fn parse_body(tokens: &mut TokenStream, name: String) -> (r: Result<Module, ParseError>)
        ensures
            match parse_tokens(old(tokens)@, name@) {
                Ok(u) => r matches Ok(m) && m@ == u && final(tokens)@.len() == 0,
                Err(e) => r matches Err(x) && x@ == e,
            },
    {
        let ghost start = tokens@;
        let mut definitions: Vec<Definition> = Vec::new();
        assert(definitions@.map_values(|d: Definition| d@) =~= Seq::<Def>::empty());
        loop
            invariant
                start == old(tokens)@,
                p_defs(start, Seq::empty()) == p_defs(
                    tokens@,
                    definitions@.map_values(|d: Definition| d@),
                ),
            ensures
                p_defs(start, Seq::empty()) == p_defs(
                    tokens@,
                    definitions@.map_values(|d: Definition| d@),
                ),
                tokens@.len() == 0,
            decreases tokens@.len(),
        {
            let ghost before = definitions@.map_values(|d: Definition| d@);
            let definition = match tokens.peek() {
                None => {
                    break ;
                },
                Some(Token::Fn) => match Function::parse(tokens) {
                    Ok(f) => Definition::Function(f),
                    Err(e) => {
                        return Err(e);
                    },
                },
                Some(Token::Const) => match Definition::parse_constant(tokens) {
                    Ok(c) => c,
                    Err(e) => {
                        return Err(e);
                    },
                },
                Some(t) => {
                    return Err(ParseError::UnexpectedToken(t.duplicate()));
                },
            };
            definitions.push(definition);
            assert(definitions@.map_values(|d: Definition| d@) =~= before.push(definition@));
        }
        assert(definitions@.map_values(|d: Definition| d@) == Module {
            name,
            definitions,
        }@.defs);
        Ok(Module { name, definitions })
    }
}

impl Definition {
    /// Parses `const NAME = EXPR;`.
    pub fn parse_constant(tokens: &mut TokenStream) -> (r: Result<Definition, ParseError>)
        ensures
            final(tokens)@.len() <= old(tokens)@.len(),
            r is Ok ==> final(tokens)@.len() < old(tokens)@.len(),
            outcome(r, final(tokens)@) == p_constant(old(tokens)@),
    {
        match tokens.expect(Token::Const) {
            Ok(_) => {},
            Err(e) => {
                return Err(e);
            },
        }
        let name = match tokens.expect_identifier() {
            Ok(n) => n,
            Err(e) => {
                return Err(e);
            },
        };
        match tokens.expect(Token::Equal) {
            Ok(_) => {},
            Err(e) => {
                return Err(e);
            },
        }
        let value = match Expression::parse(tokens) {
            Ok(v) => v,
            Err(e) => {
                return Err(e);
            },
        };
        match tokens.expect(Token::Semi) {
            Ok(_) => {},
            Err(e) => {
                return Err(e);
            },
        }
        Ok(
            Definition::Constant(
                Variable {
                    spec: VariableSpec { name, is_mutable: false },
                    value: Box::new(value),
                },
            ),
        )
    }
}

impl Function {
    /// Parses `fn NAME ( ) EXPR`.
    pub fn parse(tokens: &mut TokenStream) -> (r: Result<Function, ParseError>)
        ensures
            final(tokens)@.len() <= old(tokens)@.len(),
            r is Ok ==> final(tokens)@.len() < old(tokens)@.len(),
            outcome(r, final(tokens)@) == p_function(old(tokens)@),
    {
        match tokens.expect(Token::Fn) {
            Ok(_) => {},
            Err(e) => {
                return Err(e);
            },
        }
        let name = match tokens.expect_identifier() {
            Ok(n) => n,
            Err(e) => {
                return Err(e);
            },
        };
        match tokens.expect(Token::OpenParen) {
            Ok(_) => {},
            Err(e) => {
                return Err(e);
            },
        }
        match tokens.expect(Token::CloseParen) {
            Ok(_) => {},
            Err(e) => {
                return Err(e);
            },
        }
        let body = match Expression::parse(tokens) {
            Ok(b) => b,
            Err(e) => {
                return Err(e);
            },
        };
        let parameters: Vec<VariableSpec> = Vec::new();
        assert(bindings_model(parameters@) =~= Seq::<Binding>::empty());
        Ok(Function { name, parameters, body })
    }
}

impl Expression {
    /// Parses an expression: an assignment, or else a sum of terms.
    pub fn parse(tokens: &mut TokenStream) -> (r: Result<Expression, ParseError>)
        ensures
            final(tokens)@.len() <= old(tokens)@.len(),
            r is Ok ==> final(tokens)@.len() < old(tokens)@.len(),
            outcome(r, final(tokens)@) == p_expr(old(tokens)@),
        decreases old(tokens)@.len(), 5int,
    {
        let first = tokens.peek_ahead(0);
        let second = tokens.peek_ahead(1);
        let third = tokens.peek_ahead(2);
        if let Some(Token::Identifier(name)) = first {
            if matches!(second, Some(Token::Equal)) && !matches!(third, Some(Token::Equal)) {
                let ghost ts = tokens@;
                tokens.next();
                tokens.next();
                assert(tokens@ =~= ts.skip(2));
                let value = match Expression::parse(tokens) {
                    Ok(v) => v,
                    Err(e) => {
                        return Err(e);
                    },
                };
                return Ok(
                    Expression::VariableAssignment(
                        VariableAssignment { name, value: Box::new(value) },
                    ),
                );
            }
        }
        Expression::parse_expression(tokens)
    }

    fn parse_expression(tokens: &mut TokenStream) -> (r: Result<Expression, ParseError>)
        ensures
            final(tokens)@.len() <= old(tokens)@.len(),
            r is Ok ==> final(tokens)@.len() < old(tokens)@.len(),
            outcome(r, final(tokens)@) == p_additive(old(tokens)@),
        decreases old(tokens)@.len(), 4int,
    {
        let ghost start = tokens@;
        let mut expression = match Expression::parse_term(tokens) {
            Ok(e) => e,
            Err(e) => {
                return Err(e);
            },
        };
        loop
            invariant
                start == old(tokens)@,
                tokens@.len() < start.len(),
                p_additive(start) == p_additive_rest(expression@, tokens@),
            ensures
                start == old(tokens)@,
                tokens@.len() < start.len(),
                p_additive(start) == p_additive_rest(expression@, tokens@),
                tokens@.len() == 0 || additive_op(tokens@[0]) is None,
            decreases tokens@.len(),
        {
            let add = match tokens.peek() {
                Some(Token::Plus) => true,
                Some(Token::Minus) => false,
                _ => {
                    break ;
                },
            };
            tokens.next();
            let rhs = match Expression::parse_term(tokens) {
                Ok(e) => e,
                Err(e) => {
                    return Err(e);
                },
            };
            expression = if add {
                Expression::BinOp(BinOp::Add(Box::new(expression), Box::new(rhs)))
            } else {
                Expression::BinOp(BinOp::Sub(Box::new(expression), Box::new(rhs)))
            };
        }
        Ok(expression)
    }

    fn parse_term(tokens: &mut TokenStream) -> (r: Result<Expression, ParseError>)
        ensures
            final(tokens)@.len() <= old(tokens)@.len(),
            r is Ok ==> final(tokens)@.len() < old(tokens)@.len(),
            outcome(r, final(tokens)@) == p_term(old(tokens)@),
        decreases old(tokens)@.len(), 2int,
    {
        let ghost start = tokens@;
        let mut expression = match Expression::parse_factor(tokens) {
            Ok(e) => e,
            Err(e) => {
                return Err(e);
            },
        };
        loop
            invariant
                start == old(tokens)@,
                tokens@.len() < start.len(),
                p_term(start) == p_term_rest(expression@, tokens@),
            ensures
                start == old(tokens)@,
                tokens@.len() < start.len(),
                p_term(start) == p_term_rest(expression@, tokens@),
                tokens@.len() == 0 || multiplicative_op(tokens@[0]) is None,
            decreases tokens@.len(),
        {
            let mul = match tokens.peek() {
                Some(Token::Star) => true,
                Some(Token::Slash) => false,
                _ => {
                    break ;
                },
            };
            tokens.next();
            let rhs = match Expression::parse_factor(tokens) {
                Ok(e) => e,
                Err(e) => {
                    return Err(e);
                },
            };
            expression = if mul {
                Expression::BinOp(BinOp::Mul(Box::new(expression), Box::new(rhs)))
            } else {
                Expression::BinOp(BinOp::Div(Box::new(expression), Box::new(rhs)))
            };
        }
        Ok(expression)
    }

    fn parse_factor(tokens: &mut TokenStream) -> (r: Result<Expression, ParseError>)
        ensures
            final(tokens)@.len() <= old(tokens)@.len(),
            r is Ok ==> final(tokens)@.len() < old(tokens)@.len(),
            outcome(r, final(tokens)@) == p_factor(old(tokens)@),
        decreases old(tokens)@.len(), 0int,
    {
        match tokens.next() {
            Some(Token::OpenParen) => {
                let expression = match Expression::parse(tokens) {
                    Ok(e) => e,
                    Err(e) => {
                        return Err(e);
                    },
                };
                match tokens.expect(Token::CloseParen) {
                    Ok(_) => Ok(expression),
                    Err(e) => Err(e),
                }
            },
            Some(Token::OpenBrace) => Expression::parse_block(tokens),
            Some(Token::Loop) => match Expression::parse(tokens) {
                Ok(body) => Ok(Expression::Loop(Box::new(body))),
                Err(e) => Err(e),
            },
            Some(Token::Break) => Ok(Expression::Break),
            Some(Token::Continue) => Ok(Expression::Continue),
            Some(Token::Identifier(name)) => Ok(Expression::Variable(name)),
            Some(Token::Integer(value)) => Ok(Expression::Integer(value)),
            Some(token) => Err(ParseError::UnexpectedToken(token)),
            None => Err(ParseError::UnexpectedEoF),
        }
    }

    /// Parses the rest of a block, after its `{`.
    fn parse_block(tokens: &mut TokenStream) -> (r: Result<Expression, ParseError>)
        ensures
            final(tokens)@.len() <= old(tokens)@.len(),
            r is Ok ==> final(tokens)@.len() < old(tokens)@.len(),
            outcome(r, final(tokens)@) == p_block(old(tokens)@, Seq::empty()),
        decreases old(tokens)@.len(), 8int,
    {
        let ghost start = tokens@;
        let mut body: Vec<Statement> = Vec::new();
        loop
            invariant
                start == old(tokens)@,
                tokens@.len() <= start.len(),
                p_block(start, Seq::empty()) == p_block(tokens@, stmts_model(body@)),
            decreases tokens@.len(),
        {
            let ghost done = stmts_model(body@);
            match tokens.peek() {
                Some(Token::CloseBrace) => {
                    tokens.next();
                    return Ok(Expression::Block(Block { body, last: None }));
                },
                Some(Token::Semi) => {
                    return Err(ParseError::UnexpectedToken(Token::Semi));
                },
                _ => {},
            }
            let statement = match Statement::parse(tokens) {
                Ok(s) => s,
                Err(e) => {
                    return Err(e);
                },
            };
            match tokens.peek() {
                None => {
                    return Err(ParseError::UnexpectedEoF);
                },
                Some(Token::Semi) => {
                    tokens.next();
                },
                Some(Token::CloseBrace) => {
                    tokens.next();
                    match statement {
                        Statement::Expression(e) => {
                            return Ok(
                                Expression::Block(Block { body, last: Some(Box::new(e)) }),
                            );
                        },
                        Statement::VariableDefinition(_) => {
                            return Err(ParseError::ExpectedExpression);
                        },
                    }
                },
                Some(t) => {
                    return Err(ParseError::UnexpectedToken(t.duplicate()));
                },
            }
            let ghost st = statement@;
            let ghost prev = body@;
            body.push(statement);
            assert(body@.drop_last() =~= prev);
            assert(stmts_model(body@) == done.push(st));
        }
    }
}

impl Statement {
    /// Parses a variable definition, or else an expression.
    pub fn parse(tokens: &mut TokenStream) -> (r: Result<Statement, ParseError>)
        ensures
            final(tokens)@.len() <= old(tokens)@.len(),
            r is Ok ==> final(tokens)@.len() < old(tokens)@.len(),
            outcome(r, final(tokens)@) == p_stmt(old(tokens)@),
        decreases old(tokens)@.len(), 7int,
    {
        if matches!(tokens.peek(), Some(Token::Let)) {
            match VariableDefinition::parse(tokens) {
                Ok(d) => Ok(Statement::VariableDefinition(d)),
                Err(e) => Err(e),
            }
        } else {
            match Expression::parse(tokens) {
                Ok(e) => Ok(Statement::Expression(e)),
                Err(e) => Err(e),
            }
        }
    }
}

impl VariableDefinition {
    /// Parses `let [mut] NAME = EXPR`.
    pub fn parse(tokens: &mut TokenStream) -> (r: Result<VariableDefinition, ParseError>)
        ensures
            final(tokens)@.len() <= old(tokens)@.len(),
            r is Ok ==> final(tokens)@.len() < old(tokens)@.len(),
            outcome(r, final(tokens)@) == p_let(old(tokens)@),
        decreases old(tokens)@.len(), 6int,
    {
        match tokens.expect(Token::Let) {
            Ok(_) => {},
            Err(e) => {
                return Err(e);
            },
        }
        let is_mutable = if matches!(tokens.peek(), Some(Token::Mut)) {
            tokens.next();
            true
        } else {
            false
        };
        let name = match tokens.expect_identifier() {
            Ok(n) => n,
            Err(e) => {
                return Err(e);
            },
        };
        match tokens.expect(Token::Equal) {
            Ok(_) => {},
            Err(e) => {
                return Err(e);
            },
        }
        let value = match Expression::parse(tokens) {
            Ok(v) => v,
            Err(e) => {
                return Err(e);
            },
        };
        Ok(
            VariableDefinition {
                spec: VariableSpec { name, is_mutable },
                value: Some(Box::new(value)),
            },
        )
    }
}

/// Parsing is deterministic: any two modules that a source text parses to, under one name,
/// are the same module.
pub proof fn lemma_parse_deterministic(source: Seq<char>, name: Seq<char>, first: Module, second: Module)
    requires
        parse_source(source, name) == Ok::<Unit, PErr>(first@),
        parse_source(source, name) == Ok::<Unit, PErr>(second@),
    ensures
        first@ == second@,
{
}

} // verus!
