use vstd::prelude::*;
use crate::parse::{ParseError, PErr};
use crate::tokens::{Tok, Token};

verus! {

/// Whitespace: space, and the control characters tab through carriage return.
pub open spec fn space_char(c: char) -> bool {
    c == ' ' || (9 <= (c as u32) && (c as u32) <= 13)
}

pub open spec fn digit_char(c: char) -> bool {
    48 <= (c as u32) && (c as u32) <= 57
}

/// Characters that may continue an identifier: ASCII letters, digits and `_`.
pub open spec fn word_char(c: char) -> bool {
    digit_char(c) || (65 <= (c as u32) && (c as u32) <= 90) || (97 <= (c as u32) && (c as u32)
        <= 122) || c == '_'
}

/// The token of a single punctuation character.
pub open spec fn symbol_token(c: char) -> Option<Tok> {
    if c == '(' {
        Some(Tok::OpenParen)
    } else if c == ')' {
        Some(Tok::CloseParen)
    } else if c == '{' {
        Some(Tok::OpenBrace)
    } else if c == '}' {
        Some(Tok::CloseBrace)
    } else if c == ';' {
        Some(Tok::Semi)
    } else if c == '+' {
        Some(Tok::Plus)
    } else if c == '-' {
        Some(Tok::Minus)
    } else if c == '*' {
        Some(Tok::Star)
    } else if c == '/' {
        Some(Tok::Slash)
    } else if c == '=' {
        Some(Tok::Equal)
    } else {
        None
    }
}

/// Position of the first character at or after `i` that is neither whitespace nor inside a comment.
pub open spec fn trivia_end(s: Seq<char>, i: int) -> int
    decreases s.len() - i, 0int,
{
    if i < 0 || i >= s.len() {
        s.len() as int
    } else if space_char(s[i]) {
        trivia_end(s, i + 1)
    } else if s[i] == '/' && i + 1 < s.len() && s[i + 1] == '/' {
        line_comment_end(s, i + 2)
    } else if s[i] == '/' && i + 1 < s.len() && s[i + 1] == '*' {
        block_comment_end(s, i + 2)
    } else {
        i
    }
}

/// Inside a line comment at `i`: the comment runs to the next newline or the end of input.
pub open spec fn line_comment_end(s: Seq<char>, i: int) -> int
    decreases s.len() - i, 1int,
{
    if i < 0 || i >= s.len() {
        s.len() as int
    } else if s[i] == '\n' {
        trivia_end(s, i)
    } else {
        line_comment_end(s, i + 1)
    }
}

/// Inside a block comment at `i`: the comment runs to the nearest `*/` or the end of input.
pub open spec fn block_comment_end(s: Seq<char>, i: int) -> int
    decreases s.len() - i, 1int,
{
    if i < 0 || i + 1 >= s.len() {
        s.len() as int
    } else if s[i] == '*' && s[i + 1] == '/' {
        trivia_end(s, i + 2)
    } else {
        block_comment_end(s, i + 1)
    }
}

/// End of the maximal run of digits starting at `i`.
pub open spec fn digits_end(s: Seq<char>, i: int) -> int
    decreases s.len() - i,
{
    if 0 <= i < s.len() && digit_char(s[i]) {
        digits_end(s, i + 1)
    } else {
        i
    }
}

/// End of the maximal run of identifier characters starting at `i`.
pub open spec fn word_end(s: Seq<char>, i: int) -> int
    decreases s.len() - i,
{
    if 0 <= i < s.len() && word_char(s[i]) {
        word_end(s, i + 1)
    } else {
        i
    }
}

/// The number that a sequence of decimal digits denotes.
pub open spec fn digits_value(d: Seq<char>) -> nat
    decreases d.len(),
{
    if d.len() == 0 {
        0
    } else {
        digits_value(d.drop_last()) * 10 + ((d.last() as u32) - 48) as nat
    }
}

pub open spec fn word_size() -> nat {
    0x1_0000_0000_0000_0000
}

/// An integer literal's value, taken modulo 2^64.
pub open spec fn literal_value(d: Seq<char>) -> u64 {
    (digits_value(d) % word_size()) as u64
}

/// A word is a keyword token, or else an identifier.
pub open spec fn word_token(w: Seq<char>) -> Tok {
    if w =~= seq!['c', 'o', 'n', 's', 't'] {
        Tok::Const
    } else if w =~= seq!['l', 'e', 't'] {
        Tok::Let
    } else if w =~= seq!['m', 'u', 't'] {
        Tok::Mut
    } else if w =~= seq!['f', 'n'] {
        Tok::Fn
    } else if w =~= seq!['l', 'o', 'o', 'p'] {
        Tok::Loop
    } else if w =~= seq!['b', 'r', 'e', 'a', 'k'] {
        Tok::Break
    } else if w =~= seq!['c', 'o', 'n', 't', 'i', 'n', 'u', 'e'] {
        Tok::Continue
    } else {
        Tok::Ident(w)
    }
}

/// The token that starts at or after position `i`, with the position just past it.
/// There is none at the end of input, nor where a character begins no token.
pub open spec fn token_at(s: Seq<char>, i: int) -> Option<(Tok, int)> {
    let j = trivia_end(s, i);
    if j < 0 || j >= s.len() {
        None
    } else if symbol_token(s[j]) is Some {
        Some((symbol_token(s[j])->0, j + 1))
    } else if digit_char(s[j]) {
        let k = digits_end(s, j);
        Some((Tok::Int(literal_value(s.subrange(j, k))), k))
    } else if word_char(s[j]) {
        let k = word_end(s, j);
        Some((word_token(s.subrange(j, k)), k))
    } else {
        None
    }
}

/// The tokens of `s` from position `i` on.
pub open spec fn tokens_from(s: Seq<char>, i: int) -> Seq<Tok>
    decreases s.len() - i,
{
    if 0 <= i < s.len() {
        match token_at(s, i) {
            Some((t, k)) => if i < k <= s.len() {
                seq![t] + tokens_from(s, k)
            } else {
                Seq::empty()
            },
            None => Seq::empty(),
        }
    } else {
        Seq::empty()
    }
}

/// The tokens of a whole source text.
pub open spec fn tokenize(s: Seq<char>) -> Seq<Tok> {
    tokens_from(s, 0)
}

pub proof fn lemma_trivia_end_bounds(s: Seq<char>, i: int)
    requires
        0 <= i <= s.len(),
    ensures
        i <= trivia_end(s, i) <= s.len(),
    decreases s.len() - i, 0int,
{
    if i < s.len() {
        if space_char(s[i]) {
            lemma_trivia_end_bounds(s, i + 1);
        } else if s[i] == '/' && i + 1 < s.len() && s[i + 1] == '/' {
            lemma_line_comment_end_bounds(s, i + 2);
        } else if s[i] == '/' && i + 1 < s.len() && s[i + 1] == '*' {
            lemma_block_comment_end_bounds(s, i + 2);
        }
    }
}

pub proof fn lemma_line_comment_end_bounds(s: Seq<char>, i: int)
    requires
        0 <= i <= s.len(),
    ensures
        i <= line_comment_end(s, i) <= s.len(),
    decreases s.len() - i, 1int,
{
    if i < s.len() {
        if s[i] == '\n' {
            lemma_trivia_end_bounds(s, i);
        } else {
            lemma_line_comment_end_bounds(s, i + 1);
        }
    }
}

pub proof fn lemma_block_comment_end_bounds(s: Seq<char>, i: int)
    requires
        0 <= i <= s.len(),
    ensures
        i <= block_comment_end(s, i) <= s.len(),
    decreases s.len() - i, 1int,
{
    if i + 1 < s.len() {
        if s[i] == '*' && s[i + 1] == '/' {
            lemma_trivia_end_bounds(s, i + 2);
        } else {
            lemma_block_comment_end_bounds(s, i + 1);
        }
    }
}

proof fn lemma_digits_end_bounds(s: Seq<char>, i: int)
    requires
        0 <= i <= s.len(),
    ensures
        i <= digits_end(s, i) <= s.len(),
        i < s.len() && digit_char(s[i]) ==> i < digits_end(s, i),
    decreases s.len() - i,
{
    if i < s.len() && digit_char(s[i]) {
        lemma_digits_end_bounds(s, i + 1);
    }
}

proof fn lemma_word_end_bounds(s: Seq<char>, i: int)
    requires
        0 <= i <= s.len(),
    ensures
        i <= word_end(s, i) <= s.len(),
        i < s.len() && word_char(s[i]) ==> i < word_end(s, i),
    decreases s.len() - i,
{
    if i < s.len() && word_char(s[i]) {
        lemma_word_end_bounds(s, i + 1);
    }
}

/// A token found at `i` ends after `i` and within the input.
pub proof fn lemma_token_at_bounds(s: Seq<char>, i: int)
    requires
        0 <= i <= s.len(),
    ensures
        token_at(s, i) matches Some((t, k)) ==> i < k <= s.len(),
{
    lemma_trivia_end_bounds(s, i);
    let j = trivia_end(s, i);
    if j < s.len() {
        lemma_digits_end_bounds(s, j);
        lemma_word_end_bounds(s, j);
    }
}

/// The token sequence from `i` is the token at `i` followed by the tokens after it.
pub proof fn lemma_tokens_from_step(s: Seq<char>, i: int)
    requires
        0 <= i,
    ensures
        match token_at(s, i) {
            Some((t, k)) => i < s.len() ==> tokens_from(s, i) == seq![t] + tokens_from(s, k) && i
                < k <= s.len(),
            None => tokens_from(s, i).len() == 0,
        },
        i >= s.len() ==> tokens_from(s, i).len() == 0,
{
    if i <= s.len() {
        lemma_token_at_bounds(s, i);
    }
}

proof fn lemma_wrap_step(a: int, x: int, m: int)
    requires
        m > 0,
    ensures
        (a * 10 + x) % m == ((a % m) * 10 + x) % m,
{
    vstd::arithmetic::div_mod::lemma_mul_mod_noop_left(a, 10, m);
    vstd::arithmetic::div_mod::lemma_add_mod_noop(a * 10, x, m);
    vstd::arithmetic::div_mod::lemma_add_mod_noop((a % m) * 10, x, m);
}

proof fn lemma_literal_step(d: Seq<char>, c: char, v: u64)
    requires
        v == literal_value(d),
    ensures
        literal_value(d.push(c)) == (((v as nat) * 10 + ((c as u32) - 48) as nat) % word_size()),
{
    let e = d.push(c);
    assert(e.drop_last() =~= d);
    assert(digits_value(e) == digits_value(d) * 10 + ((c as u32) - 48) as nat);
    lemma_wrap_step(digits_value(d) as int, ((c as u32) - 48) as int, word_size() as int);
}

fn char_at(s: &Vec<char>, i: usize) -> (r: Option<char>)
    ensures
        r == (if i < s@.len() {
            Some(s@[i as int])
        } else {
            None::<char>
        }),
{
    if i < s.len() {
        Some(s[i])
    } else {
        None
    }
}

fn is_space(c: char) -> (r: bool)
    ensures
        r == space_char(c),
{
    c == ' ' || (9 <= (c as u32) && (c as u32) <= 13)
}

fn is_digit(c: char) -> (r: bool)
    ensures
        r == digit_char(c),
{
    48 <= (c as u32) && (c as u32) <= 57
}

fn is_word(c: char) -> (r: bool)
    ensures
        r == word_char(c),
{
    is_digit(c) || (65 <= (c as u32) && (c as u32) <= 90) || (97 <= (c as u32) && (c as u32)
        <= 122) || c == '_'
}

/// Skips a line comment whose text starts at `i`.
fn skip_line_comment(s: &Vec<char>, i: usize) -> (r: usize)
    requires
        i <= s@.len(),
    ensures
        i <= r <= s@.len(),
        trivia_end(s@, r as int) == line_comment_end(s@, i as int),
{
    let mut k = i;
    while k < s.len() && s[k] != '\n'
        invariant
            i <= k <= s@.len(),
            line_comment_end(s@, k as int) == line_comment_end(s@, i as int),
        decreases s@.len() - k,
    {
        k = k + 1;
    }
    k
}

/// Skips a block comment whose text starts at `i`, through its closing `*/`.
fn skip_block_comment(s: &Vec<char>, i: usize) -> (r: usize)
    requires
        i <= s@.len(),
    ensures
        i <= r <= s@.len(),
        trivia_end(s@, r as int) == block_comment_end(s@, i as int),
{
    let mut k = i;
    while k < s.len() && k + 1 < s.len() && !(s[k] == '*' && s[k + 1] == '/')
        invariant
            i <= k <= s@.len(),
            block_comment_end(s@, k as int) == block_comment_end(s@, i as int),
        decreases s@.len() - k,
    {
        k = k + 1;
    }
    if k < s.len() && k + 1 < s.len() {
        k + 2
    } else {
        s.len()
    }
}

/// Skips whitespace and comments from `start`.
fn skip_whitespace(s: &Vec<char>, start: usize) -> (r: usize)
    requires
        start <= s@.len(),
    ensures
        r == trivia_end(s@, start as int),
{
    let mut i = start;
    loop
        invariant
            i <= s@.len(),
            trivia_end(s@, i as int) == trivia_end(s@, start as int),
        decreases s@.len() - i,
    {
        if i >= s.len() {
            return i;
        }
        let c = s[i];
        if is_space(c) {
            i = i + 1;
        } else if c == '/' && i + 1 < s.len() && s[i + 1] == '/' {
            i = skip_line_comment(s, i + 2);
        } else if c == '/' && i + 1 < s.len() && s[i + 1] == '*' {
            i = skip_block_comment(s, i + 2);
        } else {
            return i;
        }
    }
}

fn from_symbol(c: char) -> (r: Option<Token>)
    ensures
        match r {
            Some(t) => symbol_token(c) == Some(t@),
            None => symbol_token(c) is None,
        },
{
    if c == '(' {
        Some(Token::OpenParen)
    } else if c == ')' {
        Some(Token::CloseParen)
    } else if c == '{' {
        Some(Token::OpenBrace)
    } else if c == '}' {
        Some(Token::CloseBrace)
    } else if c == ';' {
        Some(Token::Semi)
    } else if c == '+' {
        Some(Token::Plus)
    } else if c == '-' {
        Some(Token::Minus)
    } else if c == '*' {
        Some(Token::Star)
    } else if c == '/' {
        Some(Token::Slash)
    } else if c == '=' {
        Some(Token::Equal)
    } else {
        None
    }
}

/// Reads the integer literal that starts at `start`.
fn read_number(s: &Vec<char>, start: usize) -> (r: (Token, usize))
    requires
        start < s@.len(),
        digit_char(s@[start as int]),
    ensures
        r.1 == digits_end(s@, start as int),
        r.0@ == Tok::Int(literal_value(s@.subrange(start as int, r.1 as int))),
{
    let mut k = start;
    let mut value: u64 = 0;
    assert(s@.subrange(start as int, start as int) =~= Seq::<char>::empty());
    while k < s.len() && is_digit(s[k])
        invariant
            start <= k <= s@.len(),
            digits_end(s@, k as int) == digits_end(s@, start as int),
            value == literal_value(s@.subrange(start as int, k as int)),
        decreases s@.len() - k,
    {
        let digit = (s[k] as u32) - 48;
        proof {
            lemma_literal_step(s@.subrange(start as int, k as int), s@[k as int], value);
            assert(s@.subrange(start as int, k as int).push(s@[k as int]) =~= s@.subrange(
                start as int,
                k + 1,
            ));
        }
        value = (((value as u128) * 10 + (digit as u128)) % 0x1_0000_0000_0000_0000u128) as u64;
        k = k + 1;
    }
    (Token::Integer(value), k)
}

/// The keyword spelled by `s[start..end]`, if it spells one.
fn keyword(s: &Vec<char>, start: usize, end: usize) -> (r: Option<Token>)
    requires
        start <= end <= s@.len(),
    ensures
        match r {
            Some(t) => t@ == word_token(s@.subrange(start as int, end as int)) && !(t@ is Ident),
            None => word_token(s@.subrange(start as int, end as int)) is Ident,
        },
{
    let ghost w = s@.subrange(start as int, end as int);
    let n = end - start;
    let j = start;
    if n == 5 && s[j] == 'c' && s[j + 1] == 'o' && s[j + 2] == 'n' && s[j + 3] == 's' && s[j + 4]
        == 't' {
        assert(w =~= seq!['c', 'o', 'n', 's', 't']);
        return Some(Token::Const);
    }
    if n == 3 && s[j] == 'l' && s[j + 1] == 'e' && s[j + 2] == 't' {
        assert(w =~= seq!['l', 'e', 't']);
        return Some(Token::Let);
    }
    if n == 3 && s[j] == 'm' && s[j + 1] == 'u' && s[j + 2] == 't' {
        assert(w =~= seq!['m', 'u', 't']);
        return Some(Token::Mut);
    }
    if n == 2 && s[j] == 'f' && s[j + 1] == 'n' {
        assert(w =~= seq!['f', 'n']);
        return Some(Token::Fn);
    }
    if n == 4 && s[j] == 'l' && s[j + 1] == 'o' && s[j + 2] == 'o' && s[j + 3] == 'p' {
        assert(w =~= seq!['l', 'o', 'o', 'p']);
        return Some(Token::Loop);
    }
    if n == 5 && s[j] == 'b' && s[j + 1] == 'r' && s[j + 2] == 'e' && s[j + 3] == 'a' && s[j + 4]
        == 'k' {
        assert(w =~= seq!['b', 'r', 'e', 'a', 'k']);
        return Some(Token::Break);
    }
    if n == 8 && s[j] == 'c' && s[j + 1] == 'o' && s[j + 2] == 'n' && s[j + 3] == 't' && s[j + 4]
        == 'i' && s[j + 5] == 'n' && s[j + 6] == 'u' && s[j + 7] == 'e' {
        assert(w =~= seq!['c', 'o', 'n', 't', 'i', 'n', 'u', 'e']);
        return Some(Token::Continue);
    }
    assert(w.len() == n);
    assert(!(w =~= seq!['c', 'o', 'n', 's', 't'])) by {
        if w =~= seq!['c', 'o', 'n', 's', 't'] {
            assert(w[0] == 'c' && w[1] == 'o' && w[2] == 'n' && w[3] == 's' && w[4] == 't');
        }
    }
    assert(!(w =~= seq!['l', 'e', 't'])) by {
        if w =~= seq!['l', 'e', 't'] {
            assert(w[0] == 'l' && w[1] == 'e' && w[2] == 't');
        }
    }
    assert(!(w =~= seq!['m', 'u', 't'])) by {
        if w =~= seq!['m', 'u', 't'] {
            assert(w[0] == 'm' && w[1] == 'u' && w[2] == 't');
        }
    }
    assert(!(w =~= seq!['f', 'n'])) by {
        if w =~= seq!['f', 'n'] {
            assert(w[0] == 'f' && w[1] == 'n');
        }
    }
    assert(!(w =~= seq!['l', 'o', 'o', 'p'])) by {
        if w =~= seq!['l', 'o', 'o', 'p'] {
            assert(w[0] == 'l' && w[1] == 'o' && w[2] == 'o' && w[3] == 'p');
        }
    }
    assert(!(w =~= seq!['b', 'r', 'e', 'a', 'k'])) by {
        if w =~= seq!['b', 'r', 'e', 'a', 'k'] {
            assert(w[0] == 'b' && w[1] == 'r' && w[2] == 'e' && w[3] == 'a' && w[4] == 'k');
        }
    }
    assert(!(w =~= seq!['c', 'o', 'n', 't', 'i', 'n', 'u', 'e'])) by {
        if w =~= seq!['c', 'o', 'n', 't', 'i', 'n', 'u', 'e'] {
            assert(w[0] == 'c' && w[1] == 'o' && w[2] == 'n' && w[3] == 't' && w[4] == 'i' && w[5]
                == 'n' && w[6] == 'u' && w[7] == 'e');
        }
    }
    None
}

/// Reads the keyword or identifier that starts at `start`.
fn read_identifier(s: &Vec<char>, start: usize) -> (r: (Token, usize))
    requires
        start < s@.len(),
        word_char(s@[start as int]),
    ensures
        r.1 == word_end(s@, start as int),
        r.0@ == word_token(s@.subrange(start as int, r.1 as int)),
{
    let mut k = start;
    let mut name = String::new();
    assert(s@.subrange(start as int, start as int) =~= Seq::<char>::empty());
    while k < s.len() && is_word(s[k])
        invariant
            start <= k <= s@.len(),
            word_end(s@, k as int) == word_end(s@, start as int),
            name@ == s@.subrange(start as int, k as int),
        decreases s@.len() - k,
    {
        name.push(s[k]);
        assert(s@.subrange(start as int, k as int).push(s@[k as int]) =~= s@.subrange(
            start as int,
            k + 1,
        ));
        k = k + 1;
    }
    match keyword(s, start, k) {
        Some(t) => (t, k),
        None => (Token::Identifier(name), k),
    }
}

/// The token at or after position `i` of `s`, with the position just past it.
fn scan(s: &Vec<char>, i: usize) -> (r: Option<(Token, usize)>)
    ensures
        match r {
            Some(p) => token_at(s@, i as int) == Some((p.0@, p.1 as int)),
            None => token_at(s@, i as int) is None,
        },
{
    if i >= s.len() {
        return None;
    }
    let j = skip_whitespace(s, i);
    proof {
        lemma_trivia_end_bounds(s@, i as int);
    }
    match char_at(s, j) {
        None => None,
        Some(c) => match from_symbol(c) {
            Some(t) => Some((t, j + 1)),
            None => {
                if is_digit(c) {
                    Some(read_number(s, j))
                } else if is_word(c) {
                    Some(read_identifier(s, j))
                } else {
                    None
                }
            },
        },
    }
}

/// A stream of tokens read lazily from a source text, one token ahead at most.
pub struct TokenStream {
    source: Vec<char>,
    head: Option<Token>,
    cursor: usize,
}

impl View for TokenStream {
    type V = Seq<Tok>;

    /// The tokens that remain in the stream.
    closed spec fn view(&self) -> Seq<Tok> {
        match self.head {
            Some(t) => seq![t@] + tokens_from(self.source@, self.cursor as int),
            None => tokens_from(self.source@, self.cursor as int),
        }
    }
}

impl TokenStream {
    /// A stream over all the tokens of `source`.
    pub fn new(source: &str) -> (r: TokenStream)
        ensures
            r@ == tokenize(source@),
    {
        let mut chars: Vec<char> = Vec::new();
        for c in it: source.chars()
            invariant
                chars@ == it.seq().take(it.index() as int),
                it.seq() == source@,
        {
            chars.push(c);
        }
        assert(chars@ =~= source@);
        TokenStream { source: chars, head: None, cursor: 0 }
    }
    fn read_next(&mut self)
        requires
            old(self).head is None,
        ensures
            final(self)@ == old(self)@,
            final(self).head is Some <==> final(self)@.len() > 0,
    {
        proof {
            lemma_tokens_from_step(self.source@, self.cursor as int);
        }
        match scan(&self.source, self.cursor) {
            Some((t, k)) => {
                self.head = Some(t);
                self.cursor = k;
            },
            None => {
            },
        }
    }

    /// The next token, left in the stream.
    pub fn peek(&mut self) -> (r: Option<&Token>)
        ensures
            final(self)@ == old(self)@,
            match r {
                Some(t) => old(self)@.len() > 0 && t@ == old(self)@[0],
                None => old(self)@.len() == 0,
            },
    {
        if self.head.is_none() {
            self.read_next();
        }
        self.head.as_ref()
    }

    /// Takes the next token out of the stream.
    pub fn next(&mut self) -> (r: Option<Token>)
        ensures
            match r {
                Some(t) => old(self)@.len() > 0 && t@ == old(self)@[0] && final(self)@
                    == old(self)@.drop_first(),
                None => old(self)@.len() == 0 && final(self)@ == old(self)@,
            },
    {
        if self.head.is_none() {
            self.read_next();
        }
        assert(self@ == old(self)@);
        let r = self.head.take();
        assert(self@ =~= old(self)@.subrange(if r is Some { 1 } else { 0 }, old(self)@.len() as int));
        r
    }

    /// The token `k` places after the next one, left in the stream.
    pub fn peek_ahead(&mut self, k: usize) -> (r: Option<Token>)
        ensures
            final(self)@ == old(self)@,
            match r {
                Some(t) => k < old(self)@.len() && t@ == old(self)@[k as int],
                None => k >= old(self)@.len(),
            },
    {
        if self.head.is_none() {
            self.read_next();
        }
        match &self.head {
            None => {
                return None;
            },
            Some(t) => {
                if k == 0 {
                    return Some(t.duplicate());
                }
            },
        }
        let ghost all = self@;
        let mut pos = self.cursor;
        let mut i: usize = 1;
        assert(tokens_from(self.source@, pos as int) =~= all.subrange(1, all.len() as int));
        loop
            invariant
                1 <= i <= k,
                self@ == all,
                all == old(self)@,
                all.len() >= i,
                tokens_from(self.source@, pos as int) == all.subrange(i as int, all.len() as int),
            decreases k - i,
        {
            proof {
                lemma_tokens_from_step(self.source@, pos as int);
            }
            match scan(&self.source, pos) {
                None => {
                    return None;
                },
                Some((t, p)) => {
                    if pos >= self.source.len() {
                        return None;
                    }
                    assert(tokens_from(self.source@, pos as int).len() >= 1);
                    assert(all.len() > i);
                    assert(all[i as int] == t@) by {
                        assert(all.subrange(i as int, all.len() as int)[0] == all[i as int]);
                    }
                    if i == k {
                        return Some(t);
                    }
                    assert(tokens_from(self.source@, p as int) =~= all.subrange(
                        i + 1,
                        all.len() as int,
                    )) by {
                        assert(all.subrange(i + 1, all.len() as int) =~= all.subrange(
                            i as int,
                            all.len() as int,
                        ).drop_first());
                    }
                    pos = p;
                    i = i + 1;
                },
            }
        }
    }

    /// Takes the next token, which must be `token`.
    pub fn expect(&mut self, token: Token) -> (r: Result<Token, ParseError>)
        ensures
            final(self)@.len() <= old(self)@.len(),
            old(self)@.len() > 0 ==> final(self)@ == old(self)@.drop_first(),
            old(self)@.len() == 0 ==> final(self)@ == old(self)@,
            match expect_tok(old(self)@, token@) {
                Ok(rest) => r matches Ok(t) && t@ == token@ && final(self)@ == rest,
                Err(e) => r matches Err(x) && x@ == e,
            },
    {
        match self.next() {
            Some(t) => {
                if t.same_as(&token) {
                    Ok(token)
                } else {
                    Err(ParseError::UnexpectedToken(t))
                }
            },
            None => Err(ParseError::UnexpectedEoF),
        }
    }

    /// Takes the next token, which must be an identifier, and gives its name.
    pub fn expect_identifier(&mut self) -> (r: Result<String, ParseError>)
        ensures
            final(self)@.len() <= old(self)@.len(),
            old(self)@.len() > 0 ==> final(self)@ == old(self)@.drop_first(),
            old(self)@.len() == 0 ==> final(self)@ == old(self)@,
            match expect_ident(old(self)@) {
                Ok((name, rest)) => r matches Ok(n) && n@ == name && final(self)@ == rest,
                Err(e) => r matches Err(x) && x@ == e,
            },
    {
        match self.next() {
            Some(Token::Identifier(name)) => Ok(name),
            Some(t) => Err(ParseError::UnexpectedToken(t)),
            None => Err(ParseError::UnexpectedEoF),
        }
    }
}

/// Consuming the next token, which must be `t`.
pub open spec fn expect_tok(ts: Seq<Tok>, t: Tok) -> Result<Seq<Tok>, PErr> {
    if ts.len() == 0 {
        Err(PErr::UnexpectedEoF)
    } else if ts[0] == t {
        Ok(ts.drop_first())
    } else {
        Err(PErr::UnexpectedToken(ts[0]))
    }
}

/// Consuming the next token, which must be an identifier.
pub open spec fn expect_ident(ts: Seq<Tok>) -> Result<(Seq<char>, Seq<Tok>), PErr> {
    if ts.len() == 0 {
        Err(PErr::UnexpectedEoF)
    } else if let Tok::Ident(name) = ts[0] {
        Ok((name, ts.drop_first()))
    } else {
        Err(PErr::UnexpectedToken(ts[0]))
    }
}

} // verus!
