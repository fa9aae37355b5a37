//! Textual forms of tokens and operators, for diagnostics.

use vstd::prelude::*;

verus! {

use crate::lexer::Operator;
use crate::lexer::Token;
use crate::lexer::TokenV;
use vstd::string::StringExecFns;

/// The textual form of an operator, as the source writes it.
pub open spec fn spec_op_text(op: Operator) -> Seq<char> {
    match op {
        Operator::Minus => seq!['-'],
        Operator::Plus => seq!['+'],
        Operator::Slash => seq!['/'],
        Operator::Star => seq!['*'],
        Operator::Not => seq!['!'],
        Operator::And => seq!['a', 'n', 'd'],
        Operator::Or => seq!['o', 'r'],
        Operator::NotEqual => seq!['!', '='],
        Operator::Equal => seq!['=', '='],
        Operator::GreaterThanOrEqual => seq!['>', '='],
        Operator::LessThanOrEqual => seq!['<', '='],
        Operator::GreaterThan => seq!['>'],
        Operator::LessThan => seq!['<'],
    }
}

/// The textual form of a token: punctuation and operators as written,
/// literals by their value, keywords by their word, the end of input as
/// `EOF`, and an illegal token with an `illegal: ` prefix.
pub open spec fn spec_token_text(t: TokenV) -> Seq<char> {
    match t {
        TokenV::LeftParen => seq!['('],
        TokenV::RightParen => seq![')'],
        TokenV::LeftBrace => seq!['{'],
        TokenV::RightBrace => seq!['}'],
        TokenV::Comma => seq![','],
        TokenV::Semicolon => seq![';'],
        TokenV::Dot => seq!['.'],
        TokenV::O(op) => spec_op_text(op),
        TokenV::Assign => seq!['='],
        TokenV::Comment => seq!['/', '/'],
        TokenV::Str(s) => s,
        TokenV::Num(n) => if n.den < 1 {
            Seq::empty()
        } else {
            crate::number::spec_number_str(n)
        },
        TokenV::Bool(b) => if b {
            seq!['t', 'r', 'u', 'e']
        } else {
            seq!['f', 'a', 'l', 's', 'e']
        },
        TokenV::Identifier(s) => s,
        TokenV::Nil => seq!['n', 'i', 'l'],
        TokenV::Class => seq!['c', 'l', 'a', 's', 's'],
        TokenV::Else => seq!['e', 'l', 's', 'e'],
        TokenV::Fun => seq!['f', 'u', 'n'],
        TokenV::For => seq!['f', 'o', 'r'],
        TokenV::If => seq!['i', 'f'],
        TokenV::Print => seq!['p', 'r', 'i', 'n', 't'],
        TokenV::Return => seq!['r', 'e', 't', 'u', 'r', 'n'],
        TokenV::Super => seq!['s', 'u', 'p', 'e', 'r'],
        TokenV::This => seq!['t', 'h', 'i', 's'],
        TokenV::Var => seq!['v', 'a', 'r'],
        TokenV::While => seq!['w', 'h', 'i', 'l', 'e'],
        TokenV::Eof => seq!['E', 'O', 'F'],
        TokenV::Illegal(s) => seq!['i', 'l', 'l', 'e', 'g', 'a', 'l', ':', ' '] + s,
    }
}

impl Operator {
    /// The textual form of this operator, as `spec_op_text` describes it.
    pub fn text(&self) -> (r: String)
        ensures
            r@ == spec_op_text(*self),
    {
        proof {
            reveal_strlit("-");
            reveal_strlit("+");
            reveal_strlit("/");
            reveal_strlit("*");
            reveal_strlit("!");
            reveal_strlit("and");
            reveal_strlit("or");
            reveal_strlit("!=");
            reveal_strlit("==");
            reveal_strlit(">=");
            reveal_strlit("<=");
            reveal_strlit(">");
            reveal_strlit("<");
        }
        let r = match self {
            Operator::Minus => "-",
            Operator::Plus => "+",
            Operator::Slash => "/",
            Operator::Star => "*",
            Operator::Not => "!",
            Operator::And => "and",
            Operator::Or => "or",
            Operator::NotEqual => "!=",
            Operator::Equal => "==",
            Operator::GreaterThanOrEqual => ">=",
            Operator::LessThanOrEqual => "<=",
            Operator::GreaterThan => ">",
            Operator::LessThan => "<",
        };
        let owned = r.to_owned();
        proof {
            assert(owned@ =~= spec_op_text(*self));
        }
        owned
    }
}

impl Token {
    /// The textual form of this token, as `spec_token_text` describes it.
    pub fn text(&self) -> (r: String)
        ensures
            r@ == spec_token_text(self@),
    {
        match self {
            Token::O(op) => op.text(),
            Token::Str(s) => s.clone(),
            Token::Identifier(s) => s.clone(),
            Token::Num(n) => {
                if n.den < 1 {
                    let r = String::new();
                    proof {
                        assert(r@ =~= Seq::<char>::empty());
                    }
                    r
                } else {
                    n.to_text()
                }
            },
            Token::Illegal(s) => {
                proof {
                    reveal_strlit("illegal: ");
                }
                let mut r = String::new();
                r.append("illegal: ");
                r.append(s.as_str());
                proof {
                    assert(r@ =~= spec_token_text(self@));
                }
                r
            },
            _ => {
                proof {
                    reveal_strlit("(");
                    reveal_strlit(")");
                    reveal_strlit("{");
                    reveal_strlit("}");
                    reveal_strlit(",");
                    reveal_strlit(";");
                    reveal_strlit(".");
                    reveal_strlit("=");
                    reveal_strlit("//");
                    reveal_strlit("true");
                    reveal_strlit("false");
                    reveal_strlit("nil");
                    reveal_strlit("class");
                    reveal_strlit("else");
                    reveal_strlit("fun");
                    reveal_strlit("for");
                    reveal_strlit("if");
                    reveal_strlit("print");
                    reveal_strlit("return");
                    reveal_strlit("super");
                    reveal_strlit("this");
                    reveal_strlit("var");
                    reveal_strlit("while");
                    reveal_strlit("EOF");
                }
                let r = match self {
                    Token::LeftParen => "(",
                    Token::RightParen => ")",
                    Token::LeftBrace => "{",
                    Token::RightBrace => "}",
                    Token::Comma => ",",
                    Token::Semicolon => ";",
                    Token::Dot => ".",
                    Token::Assign => "=",
                    Token::Comment => "//",
                    Token::Bool(b) => if *b {
                        "true"
                    } else {
                        "false"
                    },
                    Token::Nil => "nil",
                    Token::Class => "class",
                    Token::Else => "else",
                    Token::Fun => "fun",
                    Token::For => "for",
                    Token::If => "if",
                    Token::Print => "print",
                    Token::Return => "return",
                    Token::Super => "super",
                    Token::This => "this",
                    Token::Var => "var",
                    Token::While => "while",
                    Token::Eof => "EOF",
                    _ => "",
                };
                let owned = r.to_owned();
                proof {
                    assert(owned@ =~= spec_token_text(self@));
                }
                owned
            },
        }
    }
}



} // verus!
