//! Tokens and the lexer.
//!
//! `lexer` turns source text into a flat token sequence.  Whitespace is
//! skipped, two-character operators and the `//` comment marker are matched
//! before single characters (maximal munch), identifiers are checked against
//! the keyword table, and numeric literals are a run of digits optionally
//! followed by `.` and another run of digits.  A character that starts no
//! token becomes an `Illegal` token rather than stopping the lexer; only an
//! unterminated string literal is a lexical error.

use vstd::prelude::*;

verus! {

use crate::number::Number;
use crate::number::gcd;
use crate::number::lemma_gcd_divides;
use crate::number::make_rat;
use crate::number::spec_abs;
use crate::number::spec_make;
use vstd::arithmetic::div_mod::lemma_div_is_ordered_by_denominator;
use vstd::arithmetic::div_mod::lemma_fundamental_div_mod;

/// An operator token, shared between the token stream and the syntax tree.
#[derive(Clone, Copy, Debug, PartialEq, Eq, Structural)]
pub enum Operator {
    Minus,
    Plus,
    Slash,
    Star,
    Not,
    And,
    Or,
    NotEqual,
    Equal,
    GreaterThanOrEqual,
    LessThanOrEqual,
    GreaterThan,
    LessThan,
}

/// A lexical token.
#[derive(Debug, PartialEq)]
pub enum Token {
    LeftParen,
    RightParen,
    LeftBrace,
    RightBrace,
    Comma,
    Semicolon,
    Dot,
    O(Operator),
    Assign,
    Comment,
    Str(String),
    Num(Number),
    Bool(bool),
    Identifier(String),
    Nil,
    Class,
    Else,
    Fun,
    For,
    If,
    Print,
    Return,
    Super,
    This,
    Var,
    While,
    Eof,
    Illegal(String),
}

/// The mathematical value of a token: string payloads become character
/// sequences.
#[verifier::ext_equal]
pub enum TokenV {
    LeftParen,
    RightParen,
    LeftBrace,
    RightBrace,
    Comma,
    Semicolon,
    Dot,
    O(Operator),
    Assign,
    Comment,
    Str(Seq<char>),
    Num(Number),
    Bool(bool),
    Identifier(Seq<char>),
    Nil,
    Class,
    Else,
    Fun,
    For,
    If,
    Print,
    Return,
    Super,
    This,
    Var,
    While,
    Eof,
    Illegal(Seq<char>),
}

impl View for Token {
    type V = TokenV;

    open spec fn view(&self) -> TokenV {
        match self {
            Token::LeftParen => TokenV::LeftParen,
            Token::RightParen => TokenV::RightParen,
            Token::LeftBrace => TokenV::LeftBrace,
            Token::RightBrace => TokenV::RightBrace,
            Token::Comma => TokenV::Comma,
            Token::Semicolon => TokenV::Semicolon,
            Token::Dot => TokenV::Dot,
            Token::O(op) => TokenV::O(*op),
            Token::Assign => TokenV::Assign,
            Token::Comment => TokenV::Comment,
            Token::Str(s) => TokenV::Str(s@),
            Token::Num(n) => TokenV::Num(*n),
            Token::Bool(b) => TokenV::Bool(*b),
            Token::Identifier(s) => TokenV::Identifier(s@),
            Token::Nil => TokenV::Nil,
            Token::Class => TokenV::Class,
            Token::Else => TokenV::Else,
            Token::Fun => TokenV::Fun,
            Token::For => TokenV::For,
            Token::If => TokenV::If,
            Token::Print => TokenV::Print,
            Token::Return => TokenV::Return,
            Token::Super => TokenV::Super,
            Token::This => TokenV::This,
            Token::Var => TokenV::Var,
            Token::While => TokenV::While,
            Token::Eof => TokenV::Eof,
            Token::Illegal(s) => TokenV::Illegal(s@),
        }
    }
}

impl Clone for Token {
    fn clone(&self) -> (res: Self)
        ensures
            res == *self,
    {
        match self {
            Token::LeftParen => Token::LeftParen,
            Token::RightParen => Token::RightParen,
            Token::LeftBrace => Token::LeftBrace,
            Token::RightBrace => Token::RightBrace,
            Token::Comma => Token::Comma,
            Token::Semicolon => Token::Semicolon,
            Token::Dot => Token::Dot,
            Token::O(op) => Token::O(*op),
            Token::Assign => Token::Assign,
            Token::Comment => Token::Comment,
            Token::Str(s) => Token::Str(s.clone()),
            Token::Num(n) => Token::Num(*n),
            Token::Bool(b) => Token::Bool(*b),
            Token::Identifier(s) => Token::Identifier(s.clone()),
            Token::Nil => Token::Nil,
            Token::Class => Token::Class,
            Token::Else => Token::Else,
            Token::Fun => Token::Fun,
            Token::For => Token::For,
            Token::If => Token::If,
            Token::Print => Token::Print,
            Token::Return => Token::Return,
            Token::Super => Token::Super,
            Token::This => Token::This,
            Token::Var => Token::Var,
            Token::While => Token::While,
            Token::Eof => Token::Eof,
            Token::Illegal(s) => Token::Illegal(s.clone()),
        }
    }
}


/// Structural equality of token values.
pub open spec fn tokv_eq(x: TokenV, y: TokenV) -> bool {
    match x {
        TokenV::LeftParen => y is LeftParen,
        TokenV::RightParen => y is RightParen,
        TokenV::LeftBrace => y is LeftBrace,
        TokenV::RightBrace => y is RightBrace,
        TokenV::Comma => y is Comma,
        TokenV::Semicolon => y is Semicolon,
        TokenV::Dot => y is Dot,
        TokenV::O(o) => y matches TokenV::O(p) && o == p,
        TokenV::Assign => y is Assign,
        TokenV::Comment => y is Comment,
        TokenV::Str(s) => y matches TokenV::Str(t) && s == t,
        TokenV::Num(n) => y matches TokenV::Num(m) && n == m,
        TokenV::Bool(b) => y matches TokenV::Bool(c) && b == c,
        TokenV::Identifier(s) => y matches TokenV::Identifier(t) && s == t,
        TokenV::Nil => y is Nil,
        TokenV::Class => y is Class,
        TokenV::Else => y is Else,
        TokenV::Fun => y is Fun,
        TokenV::For => y is For,
        TokenV::If => y is If,
        TokenV::Print => y is Print,
        TokenV::Return => y is Return,
        TokenV::Super => y is Super,
        TokenV::This => y is This,
        TokenV::Var => y is Var,
        TokenV::While => y is While,
        TokenV::Eof => y is Eof,
        TokenV::Illegal(s) => y matches TokenV::Illegal(t) && s == t,
    }
}

/// `tokv_eq` coincides with equality of token values.
pub proof fn lemma_tokv_eq(x: TokenV, y: TokenV)
    ensures
        tokv_eq(x, y) == (x == y),
{
    match x {
        TokenV::LeftParen => assert(tokv_eq(x, y) == (x == y)),
        TokenV::RightParen => assert(tokv_eq(x, y) == (x == y)),
        TokenV::LeftBrace => assert(tokv_eq(x, y) == (x == y)),
        TokenV::RightBrace => assert(tokv_eq(x, y) == (x == y)),
        TokenV::Comma => assert(tokv_eq(x, y) == (x == y)),
        TokenV::Semicolon => assert(tokv_eq(x, y) == (x == y)),
        TokenV::Dot => assert(tokv_eq(x, y) == (x == y)),
        TokenV::O(o) => assert(tokv_eq(x, y) == (x == y)),
        TokenV::Assign => assert(tokv_eq(x, y) == (x == y)),
        TokenV::Comment => assert(tokv_eq(x, y) == (x == y)),
        TokenV::Str(s) => assert(tokv_eq(x, y) == (x == y)),
        TokenV::Num(n) => assert(tokv_eq(x, y) == (x == y)),
        TokenV::Bool(b) => assert(tokv_eq(x, y) == (x == y)),
        TokenV::Identifier(s) => assert(tokv_eq(x, y) == (x == y)),
        TokenV::Nil => assert(tokv_eq(x, y) == (x == y)),
        TokenV::Class => assert(tokv_eq(x, y) == (x == y)),
        TokenV::Else => assert(tokv_eq(x, y) == (x == y)),
        TokenV::Fun => assert(tokv_eq(x, y) == (x == y)),
        TokenV::For => assert(tokv_eq(x, y) == (x == y)),
        TokenV::If => assert(tokv_eq(x, y) == (x == y)),
        TokenV::Print => assert(tokv_eq(x, y) == (x == y)),
        TokenV::Return => assert(tokv_eq(x, y) == (x == y)),
        TokenV::Super => assert(tokv_eq(x, y) == (x == y)),
        TokenV::This => assert(tokv_eq(x, y) == (x == y)),
        TokenV::Var => assert(tokv_eq(x, y) == (x == y)),
        TokenV::While => assert(tokv_eq(x, y) == (x == y)),
        TokenV::Eof => assert(tokv_eq(x, y) == (x == y)),
        TokenV::Illegal(s) => assert(tokv_eq(x, y) == (x == y)),
    }
}

/// Whether two tokens carry the same value.
pub fn token_eq(a: &Token, b: &Token) -> (r: bool)
    ensures
        r == (a@ == b@),
{
    proof {
        lemma_tokv_eq(a@, b@);
    }
    match a {
        Token::LeftParen => matches!(b, Token::LeftParen),
        Token::RightParen => matches!(b, Token::RightParen),
        Token::LeftBrace => matches!(b, Token::LeftBrace),
        Token::RightBrace => matches!(b, Token::RightBrace),
        Token::Comma => matches!(b, Token::Comma),
        Token::Semicolon => matches!(b, Token::Semicolon),
        Token::Dot => matches!(b, Token::Dot),
        Token::O(x) => match b {
            Token::O(y) => x == y,
            _ => false,
        },
        Token::Assign => matches!(b, Token::Assign),
        Token::Comment => matches!(b, Token::Comment),
        Token::Str(x) => match b {
            Token::Str(y) => *x == *y,
            _ => false,
        },
        Token::Num(x) => match b {
            Token::Num(y) => x == y,
            _ => false,
        },
        Token::Bool(x) => match b {
            Token::Bool(y) => x == y,
            _ => false,
        },
        Token::Identifier(x) => match b {
            Token::Identifier(y) => *x == *y,
            _ => false,
        },
        Token::Nil => matches!(b, Token::Nil),
        Token::Class => matches!(b, Token::Class),
        Token::Else => matches!(b, Token::Else),
        Token::Fun => matches!(b, Token::Fun),
        Token::For => matches!(b, Token::For),
        Token::If => matches!(b, Token::If),
        Token::Print => matches!(b, Token::Print),
        Token::Return => matches!(b, Token::Return),
        Token::Super => matches!(b, Token::Super),
        Token::This => matches!(b, Token::This),
        Token::Var => matches!(b, Token::Var),
        Token::While => matches!(b, Token::While),
        Token::Eof => matches!(b, Token::Eof),
        Token::Illegal(x) => match b {
            Token::Illegal(y) => *x == *y,
            _ => false,
        },
    }
}


/// A lexical error: the only one is a string literal that never closes.
#[derive(Clone, Copy, Debug, PartialEq, Eq, Structural)]
pub enum LexError {
    UnterminatedString,
}

pub open spec fn is_space(c: char) -> bool {
    c == ' ' || c == '\t' || c == '\r' || c == '\n'
}

pub open spec fn is_digit(c: char) -> bool {
    48 <= c as u32 <= 57
}

pub open spec fn is_alpha(c: char) -> bool {
    (65 <= c as u32 <= 90) || (97 <= c as u32 <= 122)
}

pub open spec fn is_alnum(c: char) -> bool {
    is_alpha(c) || is_digit(c)
}

/// The first position at or after `i` that does not continue an
/// identifier.
pub open spec fn ident_end(s: Seq<char>, i: int) -> int
    decreases s.len() - i,
{
    if i < 0 || i >= s.len() || !is_alnum(s[i]) {
        i
    } else {
        ident_end(s, i + 1)
    }
}

/// The first position at or after `i` that is not a decimal digit.
pub open spec fn digits_end(s: Seq<char>, i: int) -> int
    decreases s.len() - i,
{
    if i < 0 || i >= s.len() || !is_digit(s[i]) {
        i
    } else {
        digits_end(s, i + 1)
    }
}

/// The position of the first `"` at or after `i`, or the length of `s`.
pub open spec fn str_end(s: Seq<char>, i: int) -> int
    decreases s.len() - i,
{
    if i < 0 || i >= s.len() {
        s.len() as int
    } else if s[i] == '"' {
        i
    } else {
        str_end(s, i + 1)
    }
}

/// The integer denoted by a run of decimal digits.
pub open spec fn digits_val(w: Seq<char>) -> int
    decreases w,
{
    if w.len() == 0 {
        0
    } else {
        digits_val(w.drop_last()) * 10 + (w.last() as u32 - 48)
    }
}

pub open spec fn pow10(k: nat) -> int
    decreases k,
{
    if k == 0 {
        1
    } else {
        10 * pow10((k - 1) as nat)
    }
}

/// The token denoted by an identifier-shaped word: a keyword, a boolean or
/// nil literal, or an identifier.
pub open spec fn word_token(w: Seq<char>) -> TokenV {
    if w == seq!['a', 'n', 'd'] {
        TokenV::O(Operator::And)
    } else if w == seq!['c', 'l', 'a', 's', 's'] {
        TokenV::Class
    } else if w == seq!['e', 'l', 's', 'e'] {
        TokenV::Else
    } else if w == seq!['f', 'a', 'l', 's', 'e'] {
        TokenV::Bool(false)
    } else if w == seq!['t', 'r', 'u', 'e'] {
        TokenV::Bool(true)
    } else if w == seq!['f', 'u', 'n'] {
        TokenV::Fun
    } else if w == seq!['f', 'o', 'r'] {
        TokenV::For
    } else if w == seq!['i', 'f'] {
        TokenV::If
    } else if w == seq!['n', 'i', 'l'] {
        TokenV::Nil
    } else if w == seq!['o', 'r'] {
        TokenV::O(Operator::Or)
    } else if w == seq!['p', 'r', 'i', 'n', 't'] {
        TokenV::Print
    } else if w == seq!['r', 'e', 't', 'u', 'r', 'n'] {
        TokenV::Return
    } else if w == seq!['s', 'u', 'p', 'e', 'r'] {
        TokenV::Super
    } else if w == seq!['t', 'h', 'i', 's'] {
        TokenV::This
    } else if w == seq!['v', 'a', 'r'] {
        TokenV::Var
    } else if w == seq!['w', 'h', 'i', 'l', 'e'] {
        TokenV::While
    } else {
        TokenV::Identifier(w)
    }
}

/// The token denoted by a numeric literal with integer digits `ip`,
/// fraction digits `fp` and full source text `text`: the exact decimal
/// fraction, or an `Illegal` token when it cannot be represented.
pub open spec fn num_token(ip: Seq<char>, fp: Seq<char>, text: Seq<char>) -> TokenV {
    if pow10(fp.len()) > u32::MAX {
        TokenV::Illegal(text)
    } else {
        match spec_make(digits_val(ip + fp), pow10(fp.len())) {
            Some(x) => TokenV::Num(x),
            None => TokenV::Illegal(text),
        }
    }
}

/// One step of the lexer at position `i`: the next token and the position
/// after it, the end of the input, or a lexical error.
#[verifier::ext_equal]
pub enum LexStep {
    Tok(TokenV, int),
    End,
    Fail,
}

/// The next token of `s` at or after position `i`.  Whitespace is skipped;
/// two-character operators are matched before one-character ones; a
/// character that starts no token becomes an `Illegal` token.
pub open spec fn spec_next(s: Seq<char>, i: int) -> LexStep
    recommends
        0 <= i <= s.len(),
    decreases s.len() - i,
{
    if i < 0 || i >= s.len() {
        LexStep::End
    } else if is_space(s[i]) {
        spec_next(s, i + 1)
    } else if is_alpha(s[i]) {
        let j = ident_end(s, i);
        LexStep::Tok(word_token(s.subrange(i, j)), j)
    } else if is_digit(s[i]) {
        let j = digits_end(s, i);
        if j < s.len() && s[j] == '.' && j + 1 < s.len() && is_digit(s[j + 1]) {
            let k = digits_end(s, j + 1);
            LexStep::Tok(num_token(s.subrange(i, j), s.subrange(j + 1, k), s.subrange(i, k)), k)
        } else {
            LexStep::Tok(num_token(s.subrange(i, j), Seq::empty(), s.subrange(i, j)), j)
        }
    } else if s[i] == '"' {
        let q = str_end(s, i + 1);
        if q >= s.len() {
            LexStep::Fail
        } else {
            LexStep::Tok(TokenV::Str(s.subrange(i + 1, q)), q + 1)
        }
    } else if i + 1 < s.len() && s[i] == '=' && s[i + 1] == '=' {
        LexStep::Tok(TokenV::O(Operator::Equal), i + 2)
    } else if i + 1 < s.len() && s[i] == '!' && s[i + 1] == '=' {
        LexStep::Tok(TokenV::O(Operator::NotEqual), i + 2)
    } else if i + 1 < s.len() && s[i] == '<' && s[i + 1] == '=' {
        LexStep::Tok(TokenV::O(Operator::LessThanOrEqual), i + 2)
    } else if i + 1 < s.len() && s[i] == '>' && s[i + 1] == '=' {
        LexStep::Tok(TokenV::O(Operator::GreaterThanOrEqual), i + 2)
    } else if i + 1 < s.len() && s[i] == '/' && s[i + 1] == '/' {
        LexStep::Tok(TokenV::Comment, i + 2)
    } else if s[i] == '(' {
        LexStep::Tok(TokenV::LeftParen, i + 1)
    } else if s[i] == ')' {
        LexStep::Tok(TokenV::RightParen, i + 1)
    } else if s[i] == '{' {
        LexStep::Tok(TokenV::LeftBrace, i + 1)
    } else if s[i] == '}' {
        LexStep::Tok(TokenV::RightBrace, i + 1)
    } else if s[i] == ',' {
        LexStep::Tok(TokenV::Comma, i + 1)
    } else if s[i] == ';' {
        LexStep::Tok(TokenV::Semicolon, i + 1)
    } else if s[i] == '.' {
        LexStep::Tok(TokenV::Dot, i + 1)
    } else if s[i] == '+' {
        LexStep::Tok(TokenV::O(Operator::Plus), i + 1)
    } else if s[i] == '-' {
        LexStep::Tok(TokenV::O(Operator::Minus), i + 1)
    } else if s[i] == '/' {
        LexStep::Tok(TokenV::O(Operator::Slash), i + 1)
    } else if s[i] == '*' {
        LexStep::Tok(TokenV::O(Operator::Star), i + 1)
    } else if s[i] == '!' {
        LexStep::Tok(TokenV::O(Operator::Not), i + 1)
    } else if s[i] == '=' {
        LexStep::Tok(TokenV::Assign, i + 1)
    } else if s[i] == '<' {
        LexStep::Tok(TokenV::O(Operator::LessThan), i + 1)
    } else if s[i] == '>' {
        LexStep::Tok(TokenV::O(Operator::GreaterThan), i + 1)
    } else {
        LexStep::Tok(TokenV::Illegal(s.subrange(i, i + 1)), i + 1)
    }
}

proof fn lemma_ident_end_bounds(s: Seq<char>, i: int)
    requires
        0 <= i <= s.len(),
    ensures
        i <= ident_end(s, i) <= s.len(),
    decreases s.len() - i,
{
    if i < s.len() && is_alnum(s[i]) {
        lemma_ident_end_bounds(s, i + 1);
    }
}

proof fn lemma_digits_end_bounds(s: Seq<char>, i: int)
    requires
        0 <= i <= s.len(),
    ensures
        i <= digits_end(s, i) <= s.len(),
    decreases s.len() - i,
{
    if i < s.len() && is_digit(s[i]) {
        lemma_digits_end_bounds(s, i + 1);
    }
}

proof fn lemma_str_end_bounds(s: Seq<char>, i: int)
    requires
        0 <= i <= s.len(),
    ensures
        i <= str_end(s, i) <= s.len(),
    decreases s.len() - i,
{
    if i < s.len() && s[i] != '"' {
        lemma_str_end_bounds(s, i + 1);
    }
}

/// A produced token always stands strictly right of where the step began.
pub proof fn lemma_next_progress(s: Seq<char>, i: int)
    requires
        0 <= i <= s.len(),
    ensures
        spec_next(s, i) matches LexStep::Tok(t, j) ==> i < j <= s.len(),
    decreases s.len() - i,
{
    if i < s.len() {
        if is_space(s[i]) {
            lemma_next_progress(s, i + 1);
        } else if is_alpha(s[i]) {
            lemma_ident_end_bounds(s, i + 1);
        } else if is_digit(s[i]) {
            lemma_digits_end_bounds(s, i + 1);
            let j = digits_end(s, i);
            if j < s.len() && s[j] == '.' && j + 1 < s.len() && is_digit(s[j + 1]) {
                lemma_digits_end_bounds(s, j + 2);
            }
        } else if s[i] == '"' {
            lemma_str_end_bounds(s, i + 1);
        }
    }
}

/// The token sequence of `s` from position `i` on.
pub open spec fn spec_lex_from(s: Seq<char>, i: int) -> Result<Seq<TokenV>, LexError>
    recommends
        0 <= i <= s.len(),
    decreases s.len() - i,
{
    match spec_next(s, i) {
        LexStep::End => Ok(Seq::empty()),
        LexStep::Fail => Err(LexError::UnterminatedString),
        LexStep::Tok(t, j) => if i < j <= s.len() {
            match spec_lex_from(s, j) {
                Ok(rest) => Ok(seq![t] + rest),
                Err(e) => Err(e),
            }
        } else {
            Err(LexError::UnterminatedString)
        },
    }
}

/// The token sequence of the whole of `s`.
pub open spec fn spec_lex(s: Seq<char>) -> Result<Seq<TokenV>, LexError> {
    spec_lex_from(s, 0)
}


/// Numerators scanned past this bound cannot be represented even after
/// reduction by a 32-bit denominator: the bound is `2^96`.
pub const HUGE: u128 = 0x1_0000_0000_0000_0000_0000_0000;

proof fn lemma_pow10_pos(k: nat)
    ensures
        pow10(k) >= 1,
    decreases k,
{
    if k > 0 {
        lemma_pow10_pos((k - 1) as nat);
    }
}

proof fn lemma_pow10_big(k: nat)
    requires
        k >= 10,
    ensures
        pow10(k) > u32::MAX,
    decreases k,
{
    if k == 10 {
        reveal_with_fuel(pow10, 11);
    } else {
        lemma_pow10_big((k - 1) as nat);
        lemma_pow10_pos((k - 1) as nat);
        assert(10 * pow10((k - 1) as nat) > u32::MAX) by (nonlinear_arith)
            requires
                pow10((k - 1) as nat) > u32::MAX,
        ;
    }
}

/// A run of digits denotes a value below `10^length`.
proof fn lemma_digits_val_bound(w: Seq<char>)
    requires
        forall|k: int| 0 <= k < w.len() ==> is_digit(#[trigger] w[k]),
    ensures
        0 <= digits_val(w) < pow10(w.len()),
    decreases w,
{
    if w.len() == 0 {
    } else {
        lemma_digits_val_bound(w.drop_last());
        lemma_pow10_pos((w.len() - 1) as nat);
        assert(digits_val(w.drop_last()) * 10 + (w.last() as u32 - 48) < pow10(w.len()))
            by (nonlinear_arith)
            requires
                0 <= digits_val(w.drop_last()) < pow10((w.len() - 1) as nat),
                pow10(w.len()) == 10 * pow10((w.len() - 1) as nat),
                w.last() as u32 - 48 < 10,
        ;
    }
}

/// Digit runs concatenate positionally.
proof fn lemma_digits_concat(w1: Seq<char>, w2: Seq<char>)
    ensures
        digits_val(w1 + w2) == digits_val(w1) * pow10(w2.len()) + digits_val(w2),
    decreases w2,
{
    if w2.len() == 0 {
        assert(w1 + w2 =~= w1);
        lemma_pow10_pos(0);
    } else {
        lemma_digits_concat(w1, w2.drop_last());
        assert((w1 + w2).drop_last() =~= w1 + w2.drop_last());
        assert((w1 + w2).last() == w2.last());
        assert(digits_val(w1 + w2) == (digits_val(w1) * pow10((w2.len() - 1) as nat)
            + digits_val(w2.drop_last())) * 10 + (w2.last() as u32 - 48));
        vstd::arithmetic::mul::lemma_mul_is_associative(
            digits_val(w1),
            pow10((w2.len() - 1) as nat),
            10,
        );
        vstd::arithmetic::mul::lemma_mul_is_commutative(pow10((w2.len() - 1) as nat), 10);
        assert((digits_val(w1) * pow10((w2.len() - 1) as nat)) * 10 == digits_val(w1) * pow10(
            w2.len(),
        ));
    }
}

/// Extending a digit run never lowers its value.
proof fn lemma_digits_prefix(w: Seq<char>, m: int)
    requires
        0 <= m <= w.len(),
        forall|k: int| 0 <= k < w.len() ==> is_digit(#[trigger] w[k]),
    ensures
        digits_val(w) >= digits_val(w.subrange(0, m)),
{
    let w1 = w.subrange(0, m);
    let w2 = w.subrange(m, w.len() as int);
    assert(w =~= w1 + w2);
    lemma_digits_concat(w1, w2);
    assert(forall|k: int| 0 <= k < w1.len() ==> is_digit(#[trigger] w1[k]));
    assert(forall|k: int| 0 <= k < w2.len() ==> is_digit(#[trigger] w2[k]));
    lemma_digits_val_bound(w1);
    lemma_digits_val_bound(w2);
    lemma_pow10_pos(w2.len());
    assert(digits_val(w1) * pow10(w2.len()) >= digits_val(w1)) by (nonlinear_arith)
        requires
            digits_val(w1) >= 0,
            pow10(w2.len()) >= 1,
    ;
}

/// A numerator beyond `HUGE` cannot be reduced into range by any 32-bit
/// denominator.
proof fn lemma_make_huge(n: int, d: int)
    requires
        1 <= d <= u32::MAX,
        n > HUGE,
    ensures
        spec_make(n, d) is None,
{
    lemma_gcd_divides(spec_abs(n), d as nat);
    let g = gcd(spec_abs(n), d as nat);
    lemma_fundamental_div_mod(d, g as int);
    assert(g <= d) by (nonlinear_arith)
        requires
            d == g as int * (d / g as int) + 0,
            g >= 1,
            d >= 1,
    ;
    lemma_div_is_ordered_by_denominator(n, g as int, d);
    lemma_fundamental_div_mod(n, d);
    let q = n / d;
    assert(q > 0xFFFF_FFFF_FFFF_FFFF) by (nonlinear_arith)
        requires
            n == d * q + (n % d),
            0 <= n % d < d,
            d <= 0x1_0000_0000,
            n > 0x1_0000_0000_0000_0000_0000_0000,
    ;
    assert(spec_abs(n) / g >= q);
}

/// Relies on `String::push`: appends exactly one character.
#[verifier::external_body]
fn push_char(s: &mut String, c: char)
    ensures
        final(s)@ == old(s)@.push(c),
{
    s.push(c);
}

/// The characters `s[from..to]` as a fresh string.
fn chars_to_string(s: &[char], from: usize, to: usize) -> (r: String)
    requires
        from <= to <= s@.len(),
    ensures
        r@ == s@.subrange(from as int, to as int),
{
    let mut out = String::new();
    let mut p = from;
    while p < to
        invariant
            from <= p <= to <= s@.len(),
            out@ == s@.subrange(from as int, p as int),
        decreases to - p,
    {
        push_char(&mut out, s[p]);
        proof {
            assert(out@ =~= s@.subrange(from as int, p + 1));
        }
        p = p + 1;
    }
    proof {
        assert(out@ =~= s@.subrange(from as int, to as int));
    }
    out
}

fn is_space_c(c: char) -> (r: bool)
    ensures
        r == is_space(c),
{
    c == ' ' || c == '\t' || c == '\r' || c == '\n'
}

fn is_digit_c(c: char) -> (r: bool)
    ensures
        r == is_digit(c),
{
    let u = c as u32;
    48 <= u && u <= 57
}

fn is_alpha_c(c: char) -> (r: bool)
    ensures
        r == is_alpha(c),
{
    let u = c as u32;
    (65 <= u && u <= 90) || (97 <= u && u <= 122)
}

fn is_alnum_c(c: char) -> (r: bool)
    ensures
        r == is_alnum(c),
{
    is_alpha_c(c) || is_digit_c(c)
}

/// The end of the identifier starting at `i`.
fn scan_ident(s: &[char], i: usize) -> (j: usize)
    requires
        i <= s@.len(),
    ensures
        j == ident_end(s@, i as int),
        i <= j <= s@.len(),
{
    let mut j = i;
    while j < s.len() && is_alnum_c(s[j])
        invariant
            i <= j <= s@.len(),
            ident_end(s@, i as int) == ident_end(s@, j as int),
        decreases s@.len() - j,
    {
        j = j + 1;
    }
    j
}

/// The end of the digit run starting at `i`.
fn scan_digits(s: &[char], i: usize) -> (j: usize)
    requires
        i <= s@.len(),
    ensures
        j == digits_end(s@, i as int),
        i <= j <= s@.len(),
        forall|k: int| i <= k < j ==> is_digit(#[trigger] s@[k]),
{
    let mut j = i;
    while j < s.len() && is_digit_c(s[j])
        invariant
            i <= j <= s@.len(),
            digits_end(s@, i as int) == digits_end(s@, j as int),
            forall|k: int| i <= k < j ==> is_digit(#[trigger] s@[k]),
        decreases s@.len() - j,
    {
        j = j + 1;
    }
    j
}

/// The position of the closing quote at or after `i`, or the input's end.
fn scan_str(s: &[char], i: usize) -> (j: usize)
    requires
        i <= s@.len(),
    ensures
        j == str_end(s@, i as int),
        i <= j <= s@.len(),
{
    let mut j = i;
    while j < s.len() && s[j] != '"'
        invariant
            i <= j <= s@.len(),
            str_end(s@, i as int) == str_end(s@, j as int),
        decreases s@.len() - j,
    {
        j = j + 1;
    }
    j
}

/// The value of the digits `s[from..to]`, or `None` past `HUGE`.
fn digits_value(s: &[char], from: usize, to: usize) -> (r: Option<u128>)
    requires
        from <= to <= s@.len(),
        forall|k: int| from <= k < to ==> is_digit(#[trigger] s@[k]),
    ensures
        match r {
            Some(v) => v as int == digits_val(s@.subrange(from as int, to as int)) && v <= HUGE,
            None => digits_val(s@.subrange(from as int, to as int)) > HUGE,
        },
{
    let ghost w = s@.subrange(from as int, to as int);
    let mut acc: u128 = 0;
    let mut p = from;
    while p < to
        invariant
            from <= p <= to <= s@.len(),
            forall|k: int| from <= k < to ==> is_digit(#[trigger] s@[k]),
            acc as int == digits_val(s@.subrange(from as int, p as int)),
            acc <= HUGE,
            w == s@.subrange(from as int, to as int),
        decreases to - p,
    {
        let d = (s[p] as u32) - 48;
        let next: u128 = acc * 10 + (d as u128);
        proof {
            assert(s@.subrange(from as int, p + 1).drop_last() =~= s@.subrange(
                from as int,
                p as int,
            ));
            assert(s@.subrange(from as int, p + 1).last() == s@[p as int]);
        }
        if next > HUGE {
            proof {
                assert(digits_val(s@.subrange(from as int, p + 1)) == next);
                assert(forall|k: int|
                    0 <= k < w.len() ==> is_digit(#[trigger] w[k]) && w[k] == s@[from + k]);
                lemma_digits_prefix(w, p + 1 - from);
                assert(w.subrange(0, p + 1 - from) =~= s@.subrange(from as int, p + 1));
            }
            return None;
        }
        acc = next;
        p = p + 1;
    }
    proof {
        assert(s@.subrange(from as int, p as int) =~= w);
    }
    Some(acc)
}

/// `10^k` for `k <= 9`.
fn pow10_u32(k: usize) -> (r: u32)
    requires
        k <= 9,
    ensures
        r as int == pow10(k as nat),
        r >= 1,
{
    proof {
        reveal_with_fuel(pow10, 11);
    }
    if k == 0 {
        1
    } else if k == 1 {
        10
    } else if k == 2 {
        100
    } else if k == 3 {
        1000
    } else if k == 4 {
        10000
    } else if k == 5 {
        100000
    } else if k == 6 {
        1000000
    } else if k == 7 {
        10000000
    } else if k == 8 {
        100000000
    } else {
        1000000000
    }
}


/// Whether `s[from..to]` is exactly the two characters given.
fn match2(s: &[char], from: usize, to: usize, c0: char, c1: char) -> (r: bool)
    requires
        from <= to <= s@.len(),
    ensures
        r == (s@.subrange(from as int, to as int) == seq![c0, c1]),
{
    if to - from != 2 {
        proof {
            assert(s@.subrange(from as int, to as int).len() != 2);
        }
        false
    } else {
        let r = s[from] == c0 && s[from + 1] == c1;
        proof {
            let w = s@.subrange(from as int, to as int);
            assert(w[0] == s@[from as int] && w[1] == s@[from + 1]);
            if r {
                assert(w =~= seq![c0, c1]);
            }
        }
        r
    }
}

/// Whether `s[from..to]` is exactly the three characters given.
fn match3(s: &[char], from: usize, to: usize, c0: char, c1: char, c2: char) -> (r: bool)
    requires
        from <= to <= s@.len(),
    ensures
        r == (s@.subrange(from as int, to as int) == seq![c0, c1, c2]),
{
    if to - from != 3 {
        proof {
            assert(s@.subrange(from as int, to as int).len() != 3);
        }
        false
    } else {
        let r = s[from] == c0 && s[from + 1] == c1 && s[from + 2] == c2;
        proof {
            let w = s@.subrange(from as int, to as int);
            assert(w[0] == s@[from as int] && w[1] == s@[from + 1] && w[2] == s@[from + 2]);
            if r {
                assert(w =~= seq![c0, c1, c2]);
            }
        }
        r
    }
}

/// Whether `s[from..to]` is exactly the four characters given.
fn match4(s: &[char], from: usize, to: usize, c0: char, c1: char, c2: char, c3: char) -> (r: bool)
    requires
        from <= to <= s@.len(),
    ensures
        r == (s@.subrange(from as int, to as int) == seq![c0, c1, c2, c3]),
{
    if to - from != 4 {
        proof {
            assert(s@.subrange(from as int, to as int).len() != 4);
        }
        false
    } else {
        let r = s[from] == c0 && s[from + 1] == c1 && s[from + 2] == c2 && s[from + 3] == c3;
        proof {
            let w = s@.subrange(from as int, to as int);
            assert(w[0] == s@[from as int] && w[1] == s@[from + 1] && w[2] == s@[from + 2] && w[3]
                == s@[from + 3]);
            if r {
                assert(w =~= seq![c0, c1, c2, c3]);
            }
        }
        r
    }
}

/// Whether `s[from..to]` is exactly the five characters given.
fn match5(
    s: &[char],
    from: usize,
    to: usize,
    c0: char,
    c1: char,
    c2: char,
    c3: char,
    c4: char,
) -> (r: bool)
    requires
        from <= to <= s@.len(),
    ensures
        r == (s@.subrange(from as int, to as int) == seq![c0, c1, c2, c3, c4]),
{
    if to - from != 5 {
        proof {
            assert(s@.subrange(from as int, to as int).len() != 5);
        }
        false
    } else {
        let r = s[from] == c0 && s[from + 1] == c1 && s[from + 2] == c2 && s[from + 3] == c3
            && s[from + 4] == c4;
        proof {
            let w = s@.subrange(from as int, to as int);
            assert(w[0] == s@[from as int] && w[1] == s@[from + 1] && w[2] == s@[from + 2] && w[3]
                == s@[from + 3] && w[4] == s@[from + 4]);
            if r {
                assert(w =~= seq![c0, c1, c2, c3, c4]);
            }
        }
        r
    }
}

/// Whether `s[from..to]` is exactly the six characters given.
fn match6(
    s: &[char],
    from: usize,
    to: usize,
    c0: char,
    c1: char,
    c2: char,
    c3: char,
    c4: char,
    c5: char,
) -> (r: bool)
    requires
        from <= to <= s@.len(),
    ensures
        r == (s@.subrange(from as int, to as int) == seq![c0, c1, c2, c3, c4, c5]),
{
    if to - from != 6 {
        proof {
            assert(s@.subrange(from as int, to as int).len() != 6);
        }
        false
    } else {
        let r = s[from] == c0 && s[from + 1] == c1 && s[from + 2] == c2 && s[from + 3] == c3
            && s[from + 4] == c4 && s[from + 5] == c5;
        proof {
            let w = s@.subrange(from as int, to as int);
            assert(w[0] == s@[from as int] && w[1] == s@[from + 1] && w[2] == s@[from + 2] && w[3]
                == s@[from + 3] && w[4] == s@[from + 4] && w[5] == s@[from + 5]);
            if r {
                assert(w =~= seq![c0, c1, c2, c3, c4, c5]);
            }
        }
        r
    }
}

/// The keyword, boolean, nil or identifier token for the word `s[from..to]`.
fn word_to_token(s: &[char], from: usize, to: usize) -> (t: Token)
    requires
        from <= to <= s@.len(),
    ensures
        t@ == word_token(s@.subrange(from as int, to as int)),
{
    if match3(s, from, to, 'a', 'n', 'd') {
        Token::O(Operator::And)
    } else if match5(s, from, to, 'c', 'l', 'a', 's', 's') {
        Token::Class
    } else if match4(s, from, to, 'e', 'l', 's', 'e') {
        Token::Else
    } else if match5(s, from, to, 'f', 'a', 'l', 's', 'e') {
        Token::Bool(false)
    } else if match4(s, from, to, 't', 'r', 'u', 'e') {
        Token::Bool(true)
    } else if match3(s, from, to, 'f', 'u', 'n') {
        Token::Fun
    } else if match3(s, from, to, 'f', 'o', 'r') {
        Token::For
    } else if match2(s, from, to, 'i', 'f') {
        Token::If
    } else if match3(s, from, to, 'n', 'i', 'l') {
        Token::Nil
    } else if match2(s, from, to, 'o', 'r') {
        Token::O(Operator::Or)
    } else if match5(s, from, to, 'p', 'r', 'i', 'n', 't') {
        Token::Print
    } else if match6(s, from, to, 'r', 'e', 't', 'u', 'r', 'n') {
        Token::Return
    } else if match5(s, from, to, 's', 'u', 'p', 'e', 'r') {
        Token::Super
    } else if match4(s, from, to, 't', 'h', 'i', 's') {
        Token::This
    } else if match3(s, from, to, 'v', 'a', 'r') {
        Token::Var
    } else if match5(s, from, to, 'w', 'h', 'i', 'l', 'e') {
        Token::While
    } else {
        Token::Identifier(chars_to_string(s, from, to))
    }
}

/// The numeric token for integer digits `s[i..j]` and fraction digits
/// `s[fs..fe]` (an empty range for an integer literal), with source text
/// `s[i..te]`.
fn number_to_token(s: &[char], i: usize, j: usize, fs: usize, fe: usize, te: usize) -> (t: Token)
    requires
        i <= j <= s@.len(),
        fs <= fe <= s@.len(),
        i <= te <= s@.len(),
        forall|k: int| i <= k < j ==> is_digit(#[trigger] s@[k]),
        forall|k: int| fs <= k < fe ==> is_digit(#[trigger] s@[k]),
    ensures
        t@ == num_token(
            s@.subrange(i as int, j as int),
            s@.subrange(fs as int, fe as int),
            s@.subrange(i as int, te as int),
        ),
{
    let ghost ip = s@.subrange(i as int, j as int);
    let ghost fp = s@.subrange(fs as int, fe as int);
    let f = fe - fs;
    if f > 9 {
        proof {
            lemma_pow10_big(fp.len());
        }
        return Token::Illegal(chars_to_string(s, i, te));
    }
    let pw = pow10_u32(f);
    let v1 = digits_value(s, i, j);
    let v2 = digits_value(s, fs, fe);
    proof {
        lemma_digits_concat(ip, fp);
        lemma_digits_val_bound(ip);
        lemma_digits_val_bound(fp);
        lemma_pow10_pos(fp.len());
        reveal_with_fuel(pow10, 11);
    }
    match (v1, v2) {
        (Some(a), Some(b)) => {
            proof {
                assert(a as int * pw as int <= HUGE * 1000000000) by (nonlinear_arith)
                    requires
                        0 <= a as int <= HUGE,
                        0 <= pw as int <= 1000000000,
                ;
            }
            let n: u128 = a * (pw as u128) + b;
            if n > HUGE {
                proof {
                    lemma_make_huge(n as int, pw as int);
                }
                Token::Illegal(chars_to_string(s, i, te))
            } else {
                match make_rat(false, n, pw as u128) {
                    Some(x) => Token::Num(x),
                    None => Token::Illegal(chars_to_string(s, i, te)),
                }
            }
        },
        (None, _) => {
            proof {
                assert(digits_val(ip) * pow10(fp.len()) >= digits_val(ip)) by (nonlinear_arith)
                    requires
                        digits_val(ip) >= 0,
                        pow10(fp.len()) >= 1,
                ;
                assert(digits_val(ip + fp) > HUGE);
                lemma_make_huge(digits_val(ip + fp), pow10(fp.len()));
            }
            Token::Illegal(chars_to_string(s, i, te))
        },
        (_, None) => {
            proof {
                assert(digits_val(fp) < pow10(fp.len()));
                assert(false);
            }
            Token::Illegal(chars_to_string(s, i, te))
        },
    }
}

/// One executed lexer step.
enum NextTok {
    Tok(Token, usize),
    End,
    Fail,
}

/// The next token of `s` at or after `i`, as `spec_next` describes it.
fn next_token(s: &[char], start: usize) -> (r: NextTok)
    requires
        start <= s@.len(),
    ensures
        match r {
            NextTok::Tok(t, j) => spec_next(s@, start as int) == LexStep::Tok(t@, j as int)
                && start < j <= s@.len(),
            NextTok::End => spec_next(s@, start as int) is End,
            NextTok::Fail => spec_next(s@, start as int) is Fail,
        },
{
    let mut i = start;
    while i < s.len() && is_space_c(s[i])
        invariant
            start <= i <= s@.len(),
            spec_next(s@, start as int) == spec_next(s@, i as int),
        decreases s@.len() - i,
    {
        i = i + 1;
    }
    if i >= s.len() {
        return NextTok::End;
    }
    let c = s[i];
    if is_alpha_c(c) {
        let j = scan_ident(s, i);
        proof {
            assert(ident_end(s@, i as int) == ident_end(s@, i + 1));
            lemma_ident_end_bounds(s@, i + 1);
        }
        NextTok::Tok(word_to_token(s, i, j), j)
    } else if is_digit_c(c) {
        let j = scan_digits(s, i);
        proof {
            assert(digits_end(s@, i as int) == digits_end(s@, i + 1));
            lemma_digits_end_bounds(s@, i + 1);
        }
        if j < s.len() && s[j] == '.' && j + 1 < s.len() && is_digit_c(s[j + 1]) {
            let k = scan_digits(s, j + 1);
            proof {
                assert(digits_end(s@, j + 1) == digits_end(s@, j + 2));
                lemma_digits_end_bounds(s@, j + 2);
            }
            NextTok::Tok(number_to_token(s, i, j, j + 1, k, k), k)
        } else {
            proof {
                assert(s@.subrange(j as int, j as int) =~= Seq::<char>::empty());
            }
            NextTok::Tok(number_to_token(s, i, j, j, j, j), j)
        }
    } else if c == '"' {
        let q = scan_str(s, i + 1);
        if q >= s.len() {
            NextTok::Fail
        } else {
            NextTok::Tok(Token::Str(chars_to_string(s, i + 1, q)), q + 1)
        }
    } else if i + 1 < s.len() && c == '=' && s[i + 1] == '=' {
        NextTok::Tok(Token::O(Operator::Equal), i + 2)
    } else if i + 1 < s.len() && c == '!' && s[i + 1] == '=' {
        NextTok::Tok(Token::O(Operator::NotEqual), i + 2)
    } else if i + 1 < s.len() && c == '<' && s[i + 1] == '=' {
        NextTok::Tok(Token::O(Operator::LessThanOrEqual), i + 2)
    } else if i + 1 < s.len() && c == '>' && s[i + 1] == '=' {
        NextTok::Tok(Token::O(Operator::GreaterThanOrEqual), i + 2)
    } else if i + 1 < s.len() && c == '/' && s[i + 1] == '/' {
        NextTok::Tok(Token::Comment, i + 2)
    } else if c == '(' {
        NextTok::Tok(Token::LeftParen, i + 1)
    } else if c == ')' {
        NextTok::Tok(Token::RightParen, i + 1)
    } else if c == '{' {
        NextTok::Tok(Token::LeftBrace, i + 1)
    } else if c == '}' {
        NextTok::Tok(Token::RightBrace, i + 1)
    } else if c == ',' {
        NextTok::Tok(Token::Comma, i + 1)
    } else if c == ';' {
        NextTok::Tok(Token::Semicolon, i + 1)
    } else if c == '.' {
        NextTok::Tok(Token::Dot, i + 1)
    } else if c == '+' {
        NextTok::Tok(Token::O(Operator::Plus), i + 1)
    } else if c == '-' {
        NextTok::Tok(Token::O(Operator::Minus), i + 1)
    } else if c == '/' {
        NextTok::Tok(Token::O(Operator::Slash), i + 1)
    } else if c == '*' {
        NextTok::Tok(Token::O(Operator::Star), i + 1)
    } else if c == '!' {
        NextTok::Tok(Token::O(Operator::Not), i + 1)
    } else if c == '=' {
        NextTok::Tok(Token::Assign, i + 1)
    } else if c == '<' {
        NextTok::Tok(Token::O(Operator::LessThan), i + 1)
    } else if c == '>' {
        NextTok::Tok(Token::O(Operator::GreaterThan), i + 1)
    } else {
        NextTok::Tok(Token::Illegal(chars_to_string(s, i, i + 1)), i + 1)
    }
}

/// The views of a sequence of tokens.
pub open spec fn view_tokens(s: Seq<Token>) -> Seq<TokenV>
    decreases s,
{
    if s.len() == 0 {
        Seq::empty()
    } else {
        view_tokens(s.drop_last()).push(s.last()@)
    }
}

/// Every element's view is the corresponding element of `view_tokens`.
pub proof fn lemma_view_tokens_index(s: Seq<Token>)
    ensures
        view_tokens(s).len() == s.len(),
        forall|i: int| 0 <= i < s.len() ==> #[trigger] view_tokens(s)[i] == s[i]@,
    decreases s,
{
    if s.len() > 0 {
        lemma_view_tokens_index(s.drop_last());
        assert(view_tokens(s) == view_tokens(s.drop_last()).push(s.last()@));
        assert forall|i: int| 0 <= i < s.len() implies #[trigger] view_tokens(s)[i] == s[i]@ by {
            if i < s.len() - 1 {
                assert(s.drop_last()[i] == s[i]);
            } else {
                assert(s[i] == s.last());
            }
        }
    }
}

/// Converts source text into its token sequence, exactly as `spec_lex`
/// describes it; fails only on an unterminated string literal.
pub fn lexer(input: &[char]) -> (r: Result<Vec<Token>, LexError>)
    ensures
        match r {
            Ok(toks) => spec_lex(input@) == Ok::<Seq<TokenV>, LexError>(view_tokens(toks@)),
            Err(e) => spec_lex(input@) == Err::<Seq<TokenV>, LexError>(e),
        },
{
    let ghost s = input@;
    let mut toks: Vec<Token> = Vec::new();
    let mut i: usize = 0;
    loop
        invariant
            i <= s.len(),
            s == input@,
            match spec_lex_from(s, i as int) {
                Ok(rest) => spec_lex(s) == Ok::<Seq<TokenV>, LexError>(view_tokens(toks@) + rest),
                Err(e) => spec_lex(s) == Err::<Seq<TokenV>, LexError>(e),
            },
        decreases s.len() - i,
    {
        match next_token(input, i) {
            NextTok::End => {
                proof {
                    assert(spec_lex_from(s, i as int) == Ok::<Seq<TokenV>, LexError>(
                        Seq::<TokenV>::empty(),
                    ));
                    assert(view_tokens(toks@) + Seq::<TokenV>::empty() =~= view_tokens(toks@));
                }
                return Ok(toks);
            },
            NextTok::Fail => {
                return Err(LexError::UnterminatedString);
            },
            NextTok::Tok(t, j) => {
                proof {
                    let ghost rest0 = spec_lex_from(s, j as int);
                    lemma_view_tokens_index(toks@);
                    assert((toks@.push(t)).drop_last() =~= toks@);
                    assert(view_tokens(toks@.push(t)) == view_tokens(toks@).push(t@));
                    match rest0 {
                        Ok(rest) => {
                            assert(view_tokens(toks@) + (seq![t@] + rest) =~= view_tokens(
                                toks@.push(t),
                            ) + rest);
                        },
                        Err(e) => {},
                    }
                }
                toks.push(t);
                i = j;
            },
        }
    }
}


} // verus!

