use embryon_lang::ast::{
    BinOp, Block, Definition, Expression, Function, Module, Statement, Variable,
    VariableAssignment, VariableDefinition, VariableSpec,
};
use embryon_lang::lexer::TokenStream;
use embryon_lang::parse::ParseError;
use embryon_lang::tokens::Token;

fn main_function(name: &str, body: Expression) -> Module {
    Module {
        name: name.into(),
        definitions: vec![Definition::Function(Function {
            name: "main".into(),
            parameters: vec![],
            body,
        })],
    }
}

fn block_of(last: Expression) -> Expression {
    Expression::Block(Block { body: vec![], last: Some(Box::new(last)) })
}

fn parse_named(source: &str, name: &str) -> Result<Module, ParseError> {
    let mut tokens = TokenStream::new(source.into());
    Module::parse_body(&mut tokens, name.into())
}

#[test]
fn fn_add() {
    let source = "fn main() 1 + 2";
    let mut tokens = TokenStream::new(source.into());
    let program = Module::parse_body(&mut tokens, "add".into()).unwrap();

    assert_eq!(
        program,
        main_function(
            "add",
            Expression::BinOp(BinOp::Add(
                Box::new(Expression::Integer(1)),
                Box::new(Expression::Integer(2)),
            ))
        ),
    );
}

#[test]
fn fn_sub() {
    let source = "fn main() 1 - 2";
    let mut tokens = TokenStream::new(source.into());
    let program = Module::parse_body(&mut tokens, "sub".into()).unwrap();

    assert_eq!(
        program,
        main_function(
            "sub",
            Expression::BinOp(BinOp::Sub(
                Box::new(Expression::Integer(1)),
                Box::new(Expression::Integer(2)),
            ))
        ),
    );
}

#[test]
fn fn_mul() {
    let source = "fn main() 1 * 2";
    let mut tokens = TokenStream::new(source.into());
    let program = Module::parse_body(&mut tokens, "mul".into()).unwrap();

    assert_eq!(
        program,
        main_function(
            "mul",
            Expression::BinOp(BinOp::Mul(
                Box::new(Expression::Integer(1)),
                Box::new(Expression::Integer(2)),
            ))
        ),
    );
}

#[test]
fn fn_div() {
    let source = "fn main() 1 / 2";
    let mut tokens = TokenStream::new(source.into());
    let program = Module::parse_body(&mut tokens, "div".into()).unwrap();

    assert_eq!(
        program,
        main_function(
            "div",
            Expression::BinOp(BinOp::Div(
                Box::new(Expression::Integer(1)),
                Box::new(Expression::Integer(2)),
            ))
        ),
    );
}

#[test]
fn fn_empty_block() {
    let source = "fn main() {}";
    let mut tokens = TokenStream::new(source.into());
    let program = Module::parse_body(&mut tokens, "block".into()).unwrap();

    assert_eq!(program, main_function("block", Expression::Block(Block::empty())));
}

#[test]
fn fn_simple_block() {
    let source = "fn main() { 0 }";
    let mut tokens = TokenStream::new(source.into());
    let program = Module::parse_body(&mut tokens, "simple_block".into()).unwrap();

    assert_eq!(program, main_function("simple_block", block_of(Expression::Integer(0))));
}

#[test]
fn fn_compound_block() {
    let source = "fn main() { 1; 2 }";
    let mut tokens = TokenStream::new(source.into());
    let program = Module::parse_body(&mut tokens, "compound_block".into()).unwrap();

    assert_eq!(
        program,
        main_function(
            "compound_block",
            Expression::Block(Block {
                body: vec![Statement::Expression(Expression::Integer(1))],
                last: Some(Box::new(Expression::Integer(2)))
            })
        ),
    );
}

#[test]
fn simple_function() {
    let source = "fn main() 0";
    let mut tokens = TokenStream::new(source.into());
    let program = Module::parse_body(&mut tokens, "simple_function".into()).unwrap();

    assert_eq!(program, main_function("simple_function", Expression::Integer(0)))
}

#[test]
fn simple_constant() {
    let source = "const x = 0;";
    let mut tokens = TokenStream::new(source.into());
    let program = Module::parse_body(&mut tokens, "simple_constant".into()).unwrap();

    assert_eq!(
        program,
        Module {
            name: "simple_constant".into(),
            definitions: vec![Definition::Constant(Variable {
                spec: VariableSpec { name: "x".into(), is_mutable: false },
                value: Box::new(Expression::Integer(0)),
            })],
        },
    );
}

#[test]
fn empty_loop() {
    let source = "fn main() { loop {} }";
    let mut tokens = TokenStream::new(source.into());
    let program = Module::parse_body(&mut tokens, "empty_loop".into()).unwrap();

    assert_eq!(
        program,
        main_function(
            "empty_loop",
            block_of(Expression::Loop(Box::new(Expression::Block(Block::empty()))))
        ),
    );
}

#[test]
fn simple_expression_loop() {
    let source = "fn main() { loop 5; }";
    let mut tokens = TokenStream::new(source.into());
    let program = Module::parse_body(&mut tokens, "simple_expression_loop".into()).unwrap();
    assert_eq!(tokens.next(), None);

    assert_eq!(
        program,
        main_function(
            "simple_expression_loop",
            Expression::Block(Block {
                body: vec![Statement::Expression(Expression::Loop(Box::new(Expression::Integer(5))))],
                last: None,
            })
        ),
    );
}

#[test]
fn complex_block_loop() {
    let source = "fn main() { loop { let x = 1; x + 2 } }";
    let mut tokens = TokenStream::new(source.into());
    let program = Module::parse_body(&mut tokens, "complex_block_loop".into()).unwrap();
    assert_eq!(tokens.next(), None);

    assert_eq!(
        program,
        main_function(
            "complex_block_loop",
            block_of(Expression::Loop(Box::new(Expression::Block(Block {
                body: vec![Statement::VariableDefinition(VariableDefinition {
                    spec: VariableSpec::new("x"),
                    value: Some(Box::new(Expression::Integer(1))),
                })],
                last: Some(Box::new(Expression::BinOp(BinOp::Add(
                    Box::new(Expression::Variable("x".into())),
                    Box::new(Expression::Integer(2)),
                )))),
            }))))
        ),
    );
}

#[test]
fn let_immutable() {
    let source = "fn main() { let x = 1; }";
    let mut tokens = TokenStream::new(source.into());
    let program = Module::parse_body(&mut tokens, "let_immutable".into()).unwrap();

    assert_eq!(
        program,
        main_function(
            "let_immutable",
            Expression::Block(Block {
                body: vec![Statement::VariableDefinition(VariableDefinition {
                    spec: VariableSpec::new("x"),
                    value: Some(Box::new(Expression::Integer(1))),
                })],
                last: None
            })
        ),
    );
}

#[test]
fn let_mutable() {
    let source = "fn main() { let mut x = 1; }";
    let mut tokens = TokenStream::new(source.into());
    let program = Module::parse_body(&mut tokens, "let_mutable".into()).unwrap();

    assert_eq!(
        program,
        main_function(
            "let_mutable",
            Expression::Block(Block {
                body: vec![Statement::VariableDefinition(VariableDefinition {
                    spec: VariableSpec::new("x").mutable(),
                    value: Some(Box::new(Expression::Integer(1))),
                })],
                last: None
            })
        ),
    );
}

#[test]
fn variable_access() {
    let source = "fn main() { x }";
    let mut tokens = TokenStream::new(source.into());
    let program = Module::parse_body(&mut tokens, "variable_access".into()).unwrap();

    assert_eq!(
        program,
        main_function("variable_access", block_of(Expression::Variable("x".into())))
    );
}

#[test]
fn variable_assign() {
    let source = "fn main() { x = 2 }";
    let mut tokens = TokenStream::new(source.into());
    let program = Module::parse_body(&mut tokens, "variable_assign".into()).unwrap();

    assert_eq!(
        program,
        main_function(
            "variable_assign",
            block_of(Expression::VariableAssignment(VariableAssignment {
                name: "x".into(),
                value: Box::new(Expression::Integer(2))
            }))
        ),
    );
}

#[test]
fn parse_let_then_assign() {
    let program = parse_named("fn main() { let mut x = 1; x = 2 }", "m").unwrap();
    assert_eq!(
        program,
        main_function(
            "m",
            Expression::Block(Block {
                body: vec![Statement::VariableDefinition(VariableDefinition {
                    spec: VariableSpec { name: "x".into(), is_mutable: true },
                    value: Some(Box::new(Expression::Integer(1))),
                })],
                last: Some(Box::new(Expression::VariableAssignment(VariableAssignment {
                    name: "x".into(),
                    value: Box::new(Expression::Integer(2)),
                }))),
            })
        )
    );
}

#[test]
fn parse_precedence_and_associativity() {
    let program = parse_named("fn main() 1 - 2 - 3 * 4 / (5 + 6)", "m").unwrap();
    let int = |v: u64| Box::new(Expression::Integer(v));
    let product = Expression::BinOp(BinOp::Div(
        Box::new(Expression::BinOp(BinOp::Mul(int(3), int(4)))),
        Box::new(Expression::BinOp(BinOp::Add(int(5), int(6)))),
    ));
    let expected = Expression::BinOp(BinOp::Sub(
        Box::new(Expression::BinOp(BinOp::Sub(int(1), int(2)))),
        Box::new(product),
    ));
    assert_eq!(program, main_function("m", expected));
}

#[test]
fn parse_assignment_is_right_associative_and_double_equal_is_not_assignment() {
    let program = parse_named("fn main() { x = y = 3 }", "m").unwrap();
    let inner = Expression::VariableAssignment(VariableAssignment {
        name: "y".into(),
        value: Box::new(Expression::Integer(3)),
    });
    let outer = Expression::VariableAssignment(VariableAssignment {
        name: "x".into(),
        value: Box::new(inner),
    });
    assert_eq!(program, main_function("m", block_of(outer)));
    let err = parse_named("fn main() { x == 1 }", "m").unwrap_err();
    assert!(matches!(err, ParseError::UnexpectedToken(Token::Equal)));
}

#[test]
fn parse_is_deterministic() {
    let source = "const k = 2; fn main() { let mut x = k * 3; loop { x = x - 1; break }; x }";
    let first = parse_named(source, "d").unwrap();
    let second = parse_named(source, "d").unwrap();
    assert_eq!(first, second);
    let first = embryon_lang::parse(embryon_lang::lex(source)).unwrap();
    let second = embryon_lang::parse(embryon_lang::lex(source)).unwrap();
    assert_eq!(first, second);
    assert_eq!(first.name, "main");
    assert_eq!(first.definitions.len(), 2);
}

#[test]
fn parse_errors() {
    assert!(matches!(parse_named("let x = 1;", "m"), Err(ParseError::UnexpectedToken(Token::Let))));
    assert!(matches!(parse_named("fn main(", "m"), Err(ParseError::UnexpectedEoF)));
    assert!(matches!(
        parse_named("fn main(x) 1", "m"),
        Err(ParseError::UnexpectedToken(Token::Identifier(_)))
    ));
    assert!(matches!(parse_named("const x = 1", "m"), Err(ParseError::UnexpectedEoF)));
    assert!(matches!(parse_named("fn main() { let x = 1 }", "m"), Err(ParseError::ExpectedExpression)));
    assert!(matches!(parse_named("fn main() { ; }", "m"), Err(ParseError::UnexpectedToken(Token::Semi))));
    assert!(matches!(parse_named("fn main() { 1 2 }", "m"), Err(ParseError::UnexpectedToken(Token::Integer(2)))));
    assert!(matches!(parse_named("fn main() { 1", "m"), Err(ParseError::UnexpectedEoF)));
    assert!(matches!(parse_named("fn main() )", "m"), Err(ParseError::UnexpectedToken(Token::CloseParen))));
}

#[test]
fn parse_empty_source_and_several_definitions() {
    assert_eq!(parse_named("", "e").unwrap(), Module { name: "e".into(), definitions: vec![] });
    let program = parse_named("const a = 1; fn f() a fn g() { break; continue }", "m").unwrap();
    assert_eq!(program.definitions.len(), 3);
    assert!(matches!(&program.definitions[2], Definition::Function(f)
        if f.body == Expression::Block(Block {
            body: vec![Statement::Expression(Expression::Break)],
            last: Some(Box::new(Expression::Continue)),
        })));
}
