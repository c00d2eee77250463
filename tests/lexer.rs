use embryon_lang::lexer::TokenStream;
use embryon_lang::parse::ParseError;
use embryon_lang::tokens::Token;

#[test]
fn lex_symbols() {
    let source = "(){}+-*/=;";
    let mut lex = TokenStream::new(source.into());
    assert_eq!(lex.next(), Some(Token::OpenParen));
    assert_eq!(lex.next(), Some(Token::CloseParen));
    assert_eq!(lex.next(), Some(Token::OpenBrace));
    assert_eq!(lex.next(), Some(Token::CloseBrace));
    assert_eq!(lex.next(), Some(Token::Plus));
    assert_eq!(lex.next(), Some(Token::Minus));
    assert_eq!(lex.next(), Some(Token::Star));
    assert_eq!(lex.next(), Some(Token::Slash));
    assert_eq!(lex.next(), Some(Token::Equal));
    assert_eq!(lex.next(), Some(Token::Semi));
    assert_eq!(lex.next(), None);
}

#[test]
fn lex_identifiers() {
    let source = "foobar";
    let mut lex = TokenStream::new(source.into());
    assert_eq!(lex.next(), Some(Token::Identifier("foobar".into())));
}

#[test]
fn lex_numbers() {
    let source = "123";
    let mut lex = TokenStream::new(source.into());
    assert_eq!(lex.next(), Some(Token::Integer(123)));
}

#[test]
fn lex_keywords() {
    let source = "const let mut fn";
    let mut lex = TokenStream::new(source.into());
    assert_eq!(lex.next(), Some(Token::Const));
    assert_eq!(lex.next(), Some(Token::Let));
    assert_eq!(lex.next(), Some(Token::Mut));
    assert_eq!(lex.next(), Some(Token::Fn));
    assert_eq!(lex.next(), None);
}

#[test]
fn lex_single_comment() {
    let source = "// this is a comment";
    let mut lex = TokenStream::new(source.into());
    assert_eq!(lex.next(), None);

    let source = "// this is a comment\n// this is another comment";
    let mut lex = TokenStream::new(source.into());
    assert_eq!(lex.next(), None);
}

#[test]
fn lex_multi_comment() {
    let source = "/* this is a comment */";
    let mut lex = TokenStream::new(source.into());
    assert_eq!(lex.next(), None);

    let source = "/* this is \n a comment *//* this is another comment */";
    let mut lex = TokenStream::new(source.into());
    assert_eq!(lex.next(), None);
}

#[test]
fn lex_mixed_comments() {
    let source = "/* this is a comment */ // this is another comment";
    let mut lex = TokenStream::new(source.into());
    assert_eq!(lex.next(), None);
}

#[test]
fn lex_loop_keywords() {
    let mut lex = TokenStream::new("loop break continue looping");
    assert_eq!(lex.next(), Some(Token::Loop));
    assert_eq!(lex.next(), Some(Token::Break));
    assert_eq!(lex.next(), Some(Token::Continue));
    assert_eq!(lex.next(), Some(Token::Identifier("looping".into())));
    assert_eq!(lex.next(), None);
}

#[test]
fn lex_comments_between_tokens() {
    let mut lex = TokenStream::new("// comment\n// comment2");
    assert_eq!(lex.next(), None);
    let mut lex = TokenStream::new("/* a */ // b");
    assert_eq!(lex.next(), None);
    let mut lex = TokenStream::new("a /* x */ b // y\n c");
    assert_eq!(lex.next(), Some(Token::Identifier("a".into())));
    assert_eq!(lex.next(), Some(Token::Identifier("b".into())));
    assert_eq!(lex.next(), Some(Token::Identifier("c".into())));
    assert_eq!(lex.next(), None);
}

#[test]
fn lex_unterminated_block_comment() {
    let mut lex = TokenStream::new("x /* never closed");
    assert_eq!(lex.next(), Some(Token::Identifier("x".into())));
    assert_eq!(lex.next(), None);
    // The comment closes at the first `*/` after its opening `/*`.
    let mut lex = TokenStream::new("/*/ 1 */ 2");
    assert_eq!(lex.next(), Some(Token::Integer(2)));
}

#[test]
fn lex_maximal_runs() {
    let mut lex = TokenStream::new("12ab a_1 _x 7");
    assert_eq!(lex.next(), Some(Token::Integer(12)));
    assert_eq!(lex.next(), Some(Token::Identifier("ab".into())));
    assert_eq!(lex.next(), Some(Token::Identifier("a_1".into())));
    assert_eq!(lex.next(), Some(Token::Identifier("_x".into())));
    assert_eq!(lex.next(), Some(Token::Integer(7)));
    assert_eq!(lex.next(), None);
}

#[test]
fn lex_large_literals_wrap() {
    let mut lex = TokenStream::new("18446744073709551615 18446744073709551616 18446744073709551626");
    assert_eq!(lex.next(), Some(Token::Integer(u64::MAX)));
    assert_eq!(lex.next(), Some(Token::Integer(0)));
    assert_eq!(lex.next(), Some(Token::Integer(10)));
}

#[test]
fn lex_stops_at_unknown_character() {
    let mut lex = TokenStream::new("a # b");
    assert_eq!(lex.next(), Some(Token::Identifier("a".into())));
    assert_eq!(lex.next(), None);
    assert_eq!(lex.next(), None);
}

#[test]
fn lex_peek_and_lookahead() {
    let mut lex = TokenStream::new("x = = 1");
    assert_eq!(lex.peek(), Some(&Token::Identifier("x".into())));
    assert_eq!(lex.peek_ahead(0), Some(Token::Identifier("x".into())));
    assert_eq!(lex.peek_ahead(1), Some(Token::Equal));
    assert_eq!(lex.peek_ahead(3), Some(Token::Integer(1)));
    assert_eq!(lex.peek_ahead(4), None);
    assert_eq!(lex.next(), Some(Token::Identifier("x".into())));
    assert_eq!(lex.peek_ahead(2), Some(Token::Integer(1)));
}

#[test]
fn lex_expect_errors() {
    let mut lex = TokenStream::new("fn x");
    assert!(matches!(lex.expect(Token::Fn), Ok(Token::Fn)));
    assert!(matches!(lex.expect(Token::Semi), Err(ParseError::UnexpectedToken(Token::Identifier(_)))));
    assert!(matches!(lex.expect(Token::Semi), Err(ParseError::UnexpectedEoF)));
    let mut lex = TokenStream::new("main 1");
    assert_eq!(lex.expect_identifier().ok(), Some("main".to_string()));
    assert!(matches!(lex.expect_identifier(), Err(ParseError::UnexpectedToken(Token::Integer(1)))));
    assert!(matches!(lex.expect_identifier(), Err(ParseError::UnexpectedEoF)));
}

#[test]
fn lex_via_library_entry() {
    let mut lex = embryon_lang::lex("let");
    assert_eq!(lex.next(), Some(Token::Let));
    assert_eq!(lex.next(), None);
}
