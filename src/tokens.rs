use vstd::prelude::*;

verus! {

/// Appending one character to a `String` extends its characters by that one.
pub assume_specification[ String::push ](string: &mut String, ch: char)
    ensures
        final(string)@ == old(string)@.push(ch),
;

/// A lexical token of the language.
#[derive(Clone, Debug, PartialEq, Eq)]
pub enum Token {
    Const,
    Let,
    Mut,
    Fn,
    Loop,
    Break,
    Continue,
    OpenParen,
    CloseParen,
    OpenBrace,
    CloseBrace,
    Semi,
    Equal,
    Plus,
    Minus,
    Star,
    Slash,
    Identifier(String),
    Integer(u64),
}

/// The mathematical model of a token: identifiers are character sequences.
pub enum Tok {
    Const,
    Let,
    Mut,
    Fn,
    Loop,
    Break,
    Continue,
    OpenParen,
    CloseParen,
    OpenBrace,
    CloseBrace,
    Semi,
    Equal,
    Plus,
    Minus,
    Star,
    Slash,
    Ident(Seq<char>),
    Int(u64),
}

impl View for Token {
    type V = Tok;

    open spec fn view(&self) -> Tok {
        match self {
            Token::Const => Tok::Const,
            Token::Let => Tok::Let,
            Token::Mut => Tok::Mut,
            Token::Fn => Tok::Fn,
            Token::Loop => Tok::Loop,
            Token::Break => Tok::Break,
            Token::Continue => Tok::Continue,
            Token::OpenParen => Tok::OpenParen,
            Token::CloseParen => Tok::CloseParen,
            Token::OpenBrace => Tok::OpenBrace,
            Token::CloseBrace => Tok::CloseBrace,
            Token::Semi => Tok::Semi,
            Token::Equal => Tok::Equal,
            Token::Plus => Tok::Plus,
            Token::Minus => Tok::Minus,
            Token::Star => Tok::Star,
            Token::Slash => Tok::Slash,
            Token::Identifier(name) => Tok::Ident(name@),
            Token::Integer(value) => Tok::Int(*value),
        }
    }
}

impl Token {
    /// A copy of the token.
    pub fn duplicate(&self) -> (r: Token)
        ensures
            r@ == self@,
    {
        match self {
            Token::Const => Token::Const,
            Token::Let => Token::Let,
            Token::Mut => Token::Mut,
            Token::Fn => Token::Fn,
            Token::Loop => Token::Loop,
            Token::Break => Token::Break,
            Token::Continue => Token::Continue,
            Token::OpenParen => Token::OpenParen,
            Token::CloseParen => Token::CloseParen,
            Token::OpenBrace => Token::OpenBrace,
            Token::CloseBrace => Token::CloseBrace,
            Token::Semi => Token::Semi,
            Token::Equal => Token::Equal,
            Token::Plus => Token::Plus,
            Token::Minus => Token::Minus,
            Token::Star => Token::Star,
            Token::Slash => Token::Slash,
            Token::Identifier(name) => Token::Identifier(name.clone()),
            Token::Integer(value) => Token::Integer(*value),
        }
    }

    /// Whether two tokens are the same token.
    pub fn same_as(&self, other: &Token) -> (r: bool)
        ensures
            r == (self@ == other@),
    {
        match (self, other) {
            (Token::Const, Token::Const) => true,
            (Token::Let, Token::Let) => true,
            (Token::Mut, Token::Mut) => true,
            (Token::Fn, Token::Fn) => true,
            (Token::Loop, Token::Loop) => true,
            (Token::Break, Token::Break) => true,
            (Token::Continue, Token::Continue) => true,
            (Token::OpenParen, Token::OpenParen) => true,
            (Token::CloseParen, Token::CloseParen) => true,
            (Token::OpenBrace, Token::OpenBrace) => true,
            (Token::CloseBrace, Token::CloseBrace) => true,
            (Token::Semi, Token::Semi) => true,
            (Token::Equal, Token::Equal) => true,
            (Token::Plus, Token::Plus) => true,
            (Token::Minus, Token::Minus) => true,
            (Token::Star, Token::Star) => true,
            (Token::Slash, Token::Slash) => true,
            (Token::Identifier(a), Token::Identifier(b)) => a.eq(b),
            (Token::Integer(a), Token::Integer(b)) => *a == *b,
            _ => false,
        }
    }
}

} // verus!
