//! The recursive-descent parser.
//!
//! One token of lookahead; precedence climbing for expressions, from
//! assignment down through logical `or`/`and`, equality, comparison,
//! addition, multiplication, unary, call and primary.  `for` loops are
//! desugared at parse time into a block holding the initializer and a
//! `while` loop.  The first unexpected token aborts the parse with a typed
//! error; there is no recovery.
//!
//! The spec functions `p_*` define the grammar mathematically over token
//! views; each `Parser` method returns exactly what the corresponding spec
//! function denotes.

use vstd::prelude::*;

verus! {

use crate::ast::Expr;
use crate::ast::ExprV;
use crate::ast::FunDecl;
use crate::ast::FunDeclV;
use crate::ast::Literal;
use crate::ast::LiteralV;
use crate::ast::Stmt;
use crate::ast::StmtV;
use crate::ast::view_exprs;
use crate::ast::view_stmts;
use crate::ast::view_strings;
use crate::ast::lemma_view_exprs_index;
use crate::ast::lemma_view_stmts_index;
use crate::lexer::Operator;
use crate::lexer::Token;
use crate::lexer::TokenV;
use crate::lexer::token_eq;
use crate::lexer::view_tokens;
use crate::lexer::lemma_view_tokens_index;

broadcast use vstd::std_specs::vec::group_vec_axioms;

/// A parse error; the parse stops at the first one.
#[derive(Clone, Copy, Debug, PartialEq, Eq, Structural)]
pub enum ParseError {
    /// The input ended where the grammar required another token.
    UnexpectedEof,
    /// A token that no grammar rule accepts at its position.
    UnexpectedToken,
    /// The left side of `=` is not a plain variable reference.
    InvalidAssignmentTarget,
    /// A function declaration or call with more than 255 parameters or
    /// arguments.
    TooManyParameters,
}

/// The parser-enforced bound on parameters and call arguments.
pub const MAX_ARITY: usize = 255;

/// Primary expressions: literals, variable references and parenthesized
/// groupings.
#[verifier::opaque]
pub open spec fn p_primary(t: Seq<TokenV>, i: int) -> Result<(ExprV, int), ParseError>
    decreases t.len() - i, 2int,
{
    if !(0 <= i < t.len()) {
        Err(ParseError::UnexpectedEof)
    } else {
        match t[i] {
            TokenV::Identifier(n) => Ok((ExprV::Variable { name: n }, i + 1)),
            TokenV::Bool(b) => Ok((ExprV::L(LiteralV::Bool(b)), i + 1)),
            TokenV::Nil => Ok((ExprV::L(LiteralV::Nil), i + 1)),
            TokenV::Num(x) => Ok((ExprV::L(LiteralV::Num(x)), i + 1)),
            TokenV::Str(s) => Ok((ExprV::L(LiteralV::Str(s)), i + 1)),
            TokenV::LeftParen => match p_expression(t, i + 1) {
                Ok((e, j)) => if j < t.len() && t[j] is RightParen {
                    Ok((ExprV::Grouping { expression: Box::new(e) }, j + 1))
                } else if j >= t.len() {
                    Err(ParseError::UnexpectedEof)
                } else {
                    Err(ParseError::UnexpectedToken)
                },
                Err(e) => Err(e),
            },
            _ => Err(ParseError::UnexpectedToken),
        }
    }
}

/// The comma-separated argument list of a call, after its `(`; `acc` holds
/// the arguments already parsed.
#[verifier::opaque]
pub open spec fn p_args(t: Seq<TokenV>, i: int, acc: Seq<ExprV>) -> Result<
    (Seq<ExprV>, int),
    ParseError,
>
    decreases t.len() - i, 32int,
{
    match p_expression(t, i) {
        Ok((e, j)) => if i < j <= t.len() {
            if acc.len() >= MAX_ARITY {
                Err(ParseError::TooManyParameters)
            } else if j < t.len() && t[j] is Comma {
                p_args(t, j + 1, acc.push(e))
            } else {
                Ok((acc.push(e), j))
            }
        } else {
            Err(ParseError::UnexpectedToken)
        },
        Err(e) => Err(e),
    }
}

/// One argument list following a callee, from the token after `(`.
#[verifier::opaque]
pub open spec fn p_finish_call(t: Seq<TokenV>, i: int, callee: ExprV) -> Result<
    (ExprV, int),
    ParseError,
>
    decreases t.len() - i, 33int,
{
    if i < t.len() && t[i] is RightParen {
        Ok((ExprV::Call { callee: Box::new(callee), arguments: Seq::empty() }, i + 1))
    } else {
        match p_args(t, i, Seq::empty()) {
            Ok((args, j)) => if j < t.len() && t[j] is RightParen {
                Ok((ExprV::Call { callee: Box::new(callee), arguments: args }, j + 1))
            } else if j >= t.len() {
                Err(ParseError::UnexpectedEof)
            } else {
                Err(ParseError::UnexpectedToken)
            },
            Err(e) => Err(e),
        }
    }
}

/// Zero or more argument lists after a primary expression, left
/// associative, so `f(a)(b)` calls the result of `f(a)`.
#[verifier::opaque]
pub open spec fn p_call_tail(t: Seq<TokenV>, i: int, acc: ExprV) -> Result<
    (ExprV, int),
    ParseError,
>
    decreases t.len() - i, 15int,
{
    if i < t.len() && t[i] is LeftParen {
        match p_finish_call(t, i + 1, acc) {
            Ok((e, j)) => if i < j <= t.len() {
                p_call_tail(t, j, e)
            } else {
                Err(ParseError::UnexpectedToken)
            },
            Err(e) => Err(e),
        }
    } else {
        Ok((acc, i))
    }
}

/// Call expressions.
#[verifier::opaque]
pub open spec fn p_call(t: Seq<TokenV>, i: int) -> Result<(ExprV, int), ParseError>
    decreases t.len() - i, 16int,
{
    match p_primary(t, i) {
        Ok((e, j)) => if i < j <= t.len() {
            p_call_tail(t, j, e)
        } else {
            Err(ParseError::UnexpectedToken)
        },
        Err(e) => Err(e),
    }
}

/// Unary `!` and `-`.
#[verifier::opaque]
pub open spec fn p_unary(t: Seq<TokenV>, i: int) -> Result<(ExprV, int), ParseError>
    decreases t.len() - i, 17int,
{
    if i < t.len() && (t[i] == TokenV::O(Operator::Not) || t[i] == TokenV::O(Operator::Minus)) {
        let op = if t[i] == TokenV::O(Operator::Not) {
            Operator::Not
        } else {
            Operator::Minus
        };
        match p_unary(t, i + 1) {
            Ok((e, j)) => Ok((ExprV::Unary { operator: op, right: Box::new(e) }, j)),
            Err(e) => Err(e),
        }
    } else {
        p_call(t, i)
    }
}

/// The remaining `*` and `/` factors after a first operand.
#[verifier::opaque]
pub open spec fn p_mul_tail(t: Seq<TokenV>, i: int, acc: ExprV) -> Result<
    (ExprV, int),
    ParseError,
>
    decreases t.len() - i, 18int,
{
    if i < t.len() && (t[i] == TokenV::O(Operator::Slash) || t[i] == TokenV::O(Operator::Star)) {
        let op = if t[i] == TokenV::O(Operator::Slash) {
            Operator::Slash
        } else {
            Operator::Star
        };
        match p_unary(t, i + 1) {
            Ok((e, j)) => if i < j <= t.len() {
                p_mul_tail(t, j, ExprV::Binary {
                    left: Box::new(acc),
                    operator: op,
                    right: Box::new(e),
                })
            } else {
                Err(ParseError::UnexpectedToken)
            },
            Err(e) => Err(e),
        }
    } else {
        Ok((acc, i))
    }
}

/// Multiplication and division, left associative.
#[verifier::opaque]
pub open spec fn p_multiplication(t: Seq<TokenV>, i: int) -> Result<(ExprV, int), ParseError>
    decreases t.len() - i, 19int,
{
    match p_unary(t, i) {
        Ok((e, j)) => if i < j <= t.len() {
            p_mul_tail(t, j, e)
        } else {
            Err(ParseError::UnexpectedToken)
        },
        Err(e) => Err(e),
    }
}

/// The remaining `+` and `-` terms after a first operand.
#[verifier::opaque]
pub open spec fn p_add_tail(t: Seq<TokenV>, i: int, acc: ExprV) -> Result<
    (ExprV, int),
    ParseError,
>
    decreases t.len() - i, 20int,
{
    if i < t.len() && (t[i] == TokenV::O(Operator::Minus) || t[i] == TokenV::O(Operator::Plus)) {
        let op = if t[i] == TokenV::O(Operator::Minus) {
            Operator::Minus
        } else {
            Operator::Plus
        };
        match p_multiplication(t, i + 1) {
            Ok((e, j)) => if i < j <= t.len() {
                p_add_tail(t, j, ExprV::Binary {
                    left: Box::new(acc),
                    operator: op,
                    right: Box::new(e),
                })
            } else {
                Err(ParseError::UnexpectedToken)
            },
            Err(e) => Err(e),
        }
    } else {
        Ok((acc, i))
    }
}

/// Addition and subtraction, left associative.
#[verifier::opaque]
pub open spec fn p_addition(t: Seq<TokenV>, i: int) -> Result<(ExprV, int), ParseError>
    decreases t.len() - i, 21int,
{
    match p_multiplication(t, i) {
        Ok((e, j)) => if i < j <= t.len() {
            p_add_tail(t, j, e)
        } else {
            Err(ParseError::UnexpectedToken)
        },
        Err(e) => Err(e),
    }
}

/// The remaining comparison operators after a first operand.
#[verifier::opaque]
pub open spec fn p_cmp_tail(t: Seq<TokenV>, i: int, acc: ExprV) -> Result<
    (ExprV, int),
    ParseError,
>
    decreases t.len() - i, 22int,
{
    if i < t.len() && (t[i] == TokenV::O(Operator::GreaterThan) || t[i] == TokenV::O(
        Operator::GreaterThanOrEqual,
    ) || t[i] == TokenV::O(Operator::LessThan) || t[i] == TokenV::O(Operator::LessThanOrEqual)) {
        let op = if t[i] == TokenV::O(Operator::GreaterThan) {
            Operator::GreaterThan
        } else if t[i] == TokenV::O(Operator::GreaterThanOrEqual) {
            Operator::GreaterThanOrEqual
        } else if t[i] == TokenV::O(Operator::LessThan) {
            Operator::LessThan
        } else {
            Operator::LessThanOrEqual
        };
        match p_addition(t, i + 1) {
            Ok((e, j)) => if i < j <= t.len() {
                p_cmp_tail(t, j, ExprV::Binary {
                    left: Box::new(acc),
                    operator: op,
                    right: Box::new(e),
                })
            } else {
                Err(ParseError::UnexpectedToken)
            },
            Err(e) => Err(e),
        }
    } else {
        Ok((acc, i))
    }
}

/// The four ordering comparisons, left associative.
#[verifier::opaque]
pub open spec fn p_comparsion(t: Seq<TokenV>, i: int) -> Result<(ExprV, int), ParseError>
    decreases t.len() - i, 23int,
{
    match p_addition(t, i) {
        Ok((e, j)) => if i < j <= t.len() {
            p_cmp_tail(t, j, e)
        } else {
            Err(ParseError::UnexpectedToken)
        },
        Err(e) => Err(e),
    }
}

/// The remaining `==` and `!=` comparisons after a first operand.
#[verifier::opaque]
pub open spec fn p_eq_tail(t: Seq<TokenV>, i: int, acc: ExprV) -> Result<
    (ExprV, int),
    ParseError,
>
    decreases t.len() - i, 24int,
{
    if i < t.len() && (t[i] == TokenV::O(Operator::Equal) || t[i] == TokenV::O(
        Operator::NotEqual,
    )) {
        let op = if t[i] == TokenV::O(Operator::Equal) {
            Operator::Equal
        } else {
            Operator::NotEqual
        };
        match p_comparsion(t, i + 1) {
            Ok((e, j)) => if i < j <= t.len() {
                p_eq_tail(t, j, ExprV::Binary {
                    left: Box::new(acc),
                    operator: op,
                    right: Box::new(e),
                })
            } else {
                Err(ParseError::UnexpectedToken)
            },
            Err(e) => Err(e),
        }
    } else {
        Ok((acc, i))
    }
}

/// Equality and inequality, left associative.
#[verifier::opaque]
pub open spec fn p_equality(t: Seq<TokenV>, i: int) -> Result<(ExprV, int), ParseError>
    decreases t.len() - i, 25int,
{
    match p_comparsion(t, i) {
        Ok((e, j)) => if i < j <= t.len() {
            p_eq_tail(t, j, e)
        } else {
            Err(ParseError::UnexpectedToken)
        },
        Err(e) => Err(e),
    }
}

/// The remaining `and` operands after a first operand.
#[verifier::opaque]
pub open spec fn p_and_tail(t: Seq<TokenV>, i: int, acc: ExprV) -> Result<
    (ExprV, int),
    ParseError,
>
    decreases t.len() - i, 26int,
{
    if i < t.len() && t[i] == TokenV::O(Operator::And) {
        match p_equality(t, i + 1) {
            Ok((e, j)) => if i < j <= t.len() {
                p_and_tail(t, j, ExprV::Logical {
                    left: Box::new(acc),
                    operator: Operator::And,
                    right: Box::new(e),
                })
            } else {
                Err(ParseError::UnexpectedToken)
            },
            Err(e) => Err(e),
        }
    } else {
        Ok((acc, i))
    }
}

/// Logical `and`, left associative.
#[verifier::opaque]
pub open spec fn p_and(t: Seq<TokenV>, i: int) -> Result<(ExprV, int), ParseError>
    decreases t.len() - i, 27int,
{
    match p_equality(t, i) {
        Ok((e, j)) => if i < j <= t.len() {
            p_and_tail(t, j, e)
        } else {
            Err(ParseError::UnexpectedToken)
        },
        Err(e) => Err(e),
    }
}

/// The remaining `or` operands after a first operand.
#[verifier::opaque]
pub open spec fn p_or_tail(t: Seq<TokenV>, i: int, acc: ExprV) -> Result<
    (ExprV, int),
    ParseError,
>
    decreases t.len() - i, 28int,
{
    if i < t.len() && t[i] == TokenV::O(Operator::Or) {
        match p_and(t, i + 1) {
            Ok((e, j)) => if i < j <= t.len() {
                p_or_tail(t, j, ExprV::Logical {
                    left: Box::new(acc),
                    operator: Operator::Or,
                    right: Box::new(e),
                })
            } else {
                Err(ParseError::UnexpectedToken)
            },
            Err(e) => Err(e),
        }
    } else {
        Ok((acc, i))
    }
}

/// Logical `or`, left associative.
#[verifier::opaque]
pub open spec fn p_or(t: Seq<TokenV>, i: int) -> Result<(ExprV, int), ParseError>
    decreases t.len() - i, 29int,
{
    match p_and(t, i) {
        Ok((e, j)) => if i < j <= t.len() {
            p_or_tail(t, j, e)
        } else {
            Err(ParseError::UnexpectedToken)
        },
        Err(e) => Err(e),
    }
}

/// Assignment, right associative; the target must be a plain variable
/// reference.
#[verifier::opaque]
pub open spec fn p_assignment(t: Seq<TokenV>, i: int) -> Result<(ExprV, int), ParseError>
    decreases t.len() - i, 30int,
{
    match p_or(t, i) {
        Ok((e, j)) => if j < t.len() && t[j] is Assign {
            if i < j {
                match p_assignment(t, j + 1) {
                    Ok((v, k)) => match e {
                        ExprV::Variable { name } => Ok(
                            (ExprV::Assign { name: name, value: Box::new(v) }, k),
                        ),
                        _ => Err(ParseError::InvalidAssignmentTarget),
                    },
                    Err(e2) => Err(e2),
                }
            } else {
                Err(ParseError::UnexpectedToken)
            }
        } else {
            Ok((e, j))
        },
        Err(e) => Err(e),
    }
}

/// An expression.
#[verifier::opaque]
pub open spec fn p_expression(t: Seq<TokenV>, i: int) -> Result<(ExprV, int), ParseError>
    decreases t.len() - i, 31int,
{
    p_assignment(t, i)
}


/// A function's parameter list: identifiers separated by commas, at most
/// `MAX_ARITY` of them.
#[verifier::opaque]
pub open spec fn p_params(t: Seq<TokenV>, i: int, acc: Seq<Seq<char>>) -> Result<
    (Seq<Seq<char>>, int),
    ParseError,
>
    decreases t.len() - i, 1int,
{
    if !(0 <= i < t.len()) {
        Err(ParseError::UnexpectedEof)
    } else {
        match t[i] {
            TokenV::Identifier(n) => if acc.len() >= MAX_ARITY {
                Err(ParseError::TooManyParameters)
            } else if i + 1 < t.len() && t[i + 1] is Comma {
                p_params(t, i + 2, acc.push(n))
            } else {
                Ok((acc.push(n), i + 1))
            },
            _ => Err(ParseError::UnexpectedToken),
        }
    }
}

/// An expression statement: an expression followed by `;`.
#[verifier::opaque]
pub open spec fn p_expr_stmt(t: Seq<TokenV>, i: int) -> Result<(StmtV, int), ParseError>
    decreases t.len() - i, 34int,
{
    match p_expression(t, i) {
        Ok((e, j)) => if j < t.len() && t[j] is Semicolon {
            Ok((StmtV::Expr(Box::new(e)), j + 1))
        } else if j >= t.len() {
            Err(ParseError::UnexpectedEof)
        } else {
            Err(ParseError::UnexpectedToken)
        },
        Err(e) => Err(e),
    }
}

/// A print statement, after its `print` keyword.
#[verifier::opaque]
pub open spec fn p_print(t: Seq<TokenV>, i: int) -> Result<(StmtV, int), ParseError>
    decreases t.len() - i, 34int,
{
    match p_expression(t, i) {
        Ok((e, j)) => if j < t.len() && t[j] is Semicolon {
            Ok((StmtV::Print(Box::new(e)), j + 1))
        } else if j >= t.len() {
            Err(ParseError::UnexpectedEof)
        } else {
            Err(ParseError::UnexpectedToken)
        },
        Err(e) => Err(e),
    }
}

/// A return statement, after its `return` keyword: an optional expression
/// and `;`.
#[verifier::opaque]
pub open spec fn p_return(t: Seq<TokenV>, i: int) -> Result<(StmtV, int), ParseError>
    decreases t.len() - i, 34int,
{
    if i < t.len() && t[i] is Semicolon {
        Ok((StmtV::Return(None), i + 1))
    } else {
        match p_expression(t, i) {
            Ok((e, j)) => if j < t.len() && t[j] is Semicolon {
                Ok((StmtV::Return(Some(Box::new(e))), j + 1))
            } else if j >= t.len() {
                Err(ParseError::UnexpectedEof)
            } else {
                Err(ParseError::UnexpectedToken)
            },
            Err(e) => Err(e),
        }
    }
}

/// A variable declaration, after its `var` keyword: a name, an optional
/// `=` initializer, and `;`.
#[verifier::opaque]
pub open spec fn p_var_decl(t: Seq<TokenV>, i: int) -> Result<(StmtV, int), ParseError>
    decreases t.len() - i, 34int,
{
    if !(0 <= i < t.len()) {
        Err(ParseError::UnexpectedEof)
    } else {
        match t[i] {
            TokenV::Identifier(n) => if i + 1 < t.len() && t[i + 1] is Assign {
                match p_expression(t, i + 2) {
                    Ok((e, j)) => if j < t.len() && t[j] is Semicolon {
                        Ok(
                            (
                                StmtV::Variable { name: n, initializer: Some(Box::new(e)) },
                                j + 1,
                            ),
                        )
                    } else if j >= t.len() {
                        Err(ParseError::UnexpectedEof)
                    } else {
                        Err(ParseError::UnexpectedToken)
                    },
                    Err(e) => Err(e),
                }
            } else if i + 1 < t.len() && t[i + 1] is Semicolon {
                Ok((StmtV::Variable { name: n, initializer: None }, i + 2))
            } else if i + 1 >= t.len() {
                Err(ParseError::UnexpectedEof)
            } else {
                Err(ParseError::UnexpectedToken)
            },
            _ => Err(ParseError::UnexpectedToken),
        }
    }
}

/// The statements of a block, up to and including its closing `}`.
#[verifier::opaque]
pub open spec fn p_block_items(t: Seq<TokenV>, i: int) -> Result<(Seq<StmtV>, int), ParseError>
    decreases t.len() - i, 40int,
{
    if !(0 <= i < t.len()) {
        Err(ParseError::UnexpectedEof)
    } else if t[i] is RightBrace {
        Ok((Seq::empty(), i + 1))
    } else {
        match p_declaration(t, i) {
            Ok((d, j)) => if i < j <= t.len() {
                match p_block_items(t, j) {
                    Ok((rest, k)) => Ok((seq![d] + rest, k)),
                    Err(e) => Err(e),
                }
            } else {
                Err(ParseError::UnexpectedToken)
            },
            Err(e) => Err(e),
        }
    }
}

/// An if statement, after its `if` keyword: a parenthesized condition, a
/// then branch, and an optional `else` branch.
#[verifier::opaque]
pub open spec fn p_if(t: Seq<TokenV>, i: int) -> Result<(StmtV, int), ParseError>
    decreases t.len() - i, 34int,
{
    if !(0 <= i < t.len() && t[i] is LeftParen) {
        if 0 <= i && i >= t.len() {
            Err(ParseError::UnexpectedEof)
        } else {
            Err(ParseError::UnexpectedToken)
        }
    } else {
        match p_expression(t, i + 1) {
            Ok((cond, j)) => if j < t.len() && i < j && t[j] is RightParen {
                match p_statement(t, j + 1) {
                    Ok((thn, k)) => if k < t.len() && t[k] is Else {
                        if i < k {
                            match p_statement(t, k + 1) {
                                Ok((els, m)) => Ok(
                                    (
                                        StmtV::If {
                                            condition: Box::new(cond),
                                            then_branch: Box::new(thn),
                                            else_branch: Some(Box::new(els)),
                                        },
                                        m,
                                    ),
                                ),
                                Err(e) => Err(e),
                            }
                        } else {
                            Err(ParseError::UnexpectedToken)
                        }
                    } else {
                        Ok(
                            (
                                StmtV::If {
                                    condition: Box::new(cond),
                                    then_branch: Box::new(thn),
                                    else_branch: None,
                                },
                                k,
                            ),
                        )
                    },
                    Err(e) => Err(e),
                }
            } else if j >= t.len() {
                Err(ParseError::UnexpectedEof)
            } else {
                Err(ParseError::UnexpectedToken)
            },
            Err(e) => Err(e),
        }
    }
}

/// A while statement, after its `while` keyword: a parenthesized condition
/// and a body statement.
#[verifier::opaque]
pub open spec fn p_while(t: Seq<TokenV>, i: int) -> Result<(StmtV, int), ParseError>
    decreases t.len() - i, 34int,
{
    if !(0 <= i < t.len() && t[i] is LeftParen) {
        if 0 <= i && i >= t.len() {
            Err(ParseError::UnexpectedEof)
        } else {
            Err(ParseError::UnexpectedToken)
        }
    } else {
        match p_expression(t, i + 1) {
            Ok((cond, j)) => if j < t.len() && i < j && t[j] is RightParen {
                match p_statement(t, j + 1) {
                    Ok((body, k)) => Ok(
                        (StmtV::While { condition: Box::new(cond), body: Box::new(body) }, k),
                    ),
                    Err(e) => Err(e),
                }
            } else if j >= t.len() {
                Err(ParseError::UnexpectedEof)
            } else {
                Err(ParseError::UnexpectedToken)
            },
            Err(e) => Err(e),
        }
    }
}

/// The desugared statement a `for` loop denotes: the body, then with the
/// increment appended, then wrapped in a `while` when there is a
/// condition, then prefixed by the initializer.
pub open spec fn desugar_for(
    initializer: Option<StmtV>,
    condition: Option<ExprV>,
    increment: Option<ExprV>,
    body: StmtV,
) -> StmtV {
    let b1 = match increment {
        Some(inc) => StmtV::Block(seq![body, StmtV::Expr(Box::new(inc))]),
        None => body,
    };
    let b2 = match condition {
        Some(c) => StmtV::While { condition: Box::new(c), body: Box::new(b1) },
        None => b1,
    };
    match initializer {
        Some(init) => StmtV::Block(seq![init, b2]),
        None => b2,
    }
}

/// The initializer clause of a `for` statement: nothing, a variable
/// declaration, or an expression statement.
#[verifier::opaque]
pub open spec fn p_for_init(t: Seq<TokenV>, i: int) -> Result<(Option<StmtV>, int), ParseError>
    decreases t.len() - i, 35int,
{
    if !(0 <= i < t.len()) {
        Err(ParseError::UnexpectedEof)
    } else if t[i] is Semicolon {
        Ok((None, i + 1))
    } else if t[i] is Var {
        match p_var_decl(t, i + 1) {
            Ok((d, j)) => Ok((Some(d), j)),
            Err(e) => Err(e),
        }
    } else {
        match p_expr_stmt(t, i) {
            Ok((d, j)) => Ok((Some(d), j)),
            Err(e) => Err(e),
        }
    }
}

/// A for statement, after its `for` keyword, desugared at parse time.
#[verifier::opaque]
pub open spec fn p_for(t: Seq<TokenV>, i: int) -> Result<(StmtV, int), ParseError>
    decreases t.len() - i, 36int,
{
    if !(0 <= i < t.len() && t[i] is LeftParen) {
        if 0 <= i && i >= t.len() {
            Err(ParseError::UnexpectedEof)
        } else {
            Err(ParseError::UnexpectedToken)
        }
    } else {
        match p_for_init(t, i + 1) {
            Ok((init, j)) => if i < j <= t.len() {
                let condr = if j < t.len() && t[j] is Semicolon {
                    Ok((None, j + 1))
                } else {
                    match p_expression(t, j) {
                        Ok((c, k)) => if k < t.len() && t[k] is Semicolon {
                            Ok((Some(c), k + 1))
                        } else if k >= t.len() {
                            Err(ParseError::UnexpectedEof)
                        } else {
                            Err(ParseError::UnexpectedToken)
                        },
                        Err(e) => Err(e),
                    }
                };
                match condr {
                    Ok((cond, k)) => if i < k <= t.len() {
                        let incr = if k < t.len() && t[k] is RightParen {
                            Ok((None, k + 1))
                        } else {
                            match p_expression(t, k) {
                                Ok((x, m)) => if m < t.len() && t[m] is RightParen {
                                    Ok((Some(x), m + 1))
                                } else if m >= t.len() {
                                    Err(ParseError::UnexpectedEof)
                                } else {
                                    Err(ParseError::UnexpectedToken)
                                },
                                Err(e) => Err(e),
                            }
                        };
                        match incr {
                            Ok((inc, m)) => if i < m <= t.len() {
                                match p_statement(t, m) {
                                    Ok((body, n)) => Ok(
                                        (desugar_for(init, cond, inc, body), n),
                                    ),
                                    Err(e) => Err(e),
                                }
                            } else {
                                Err(ParseError::UnexpectedToken)
                            },
                            Err(e) => Err(e),
                        }
                    } else {
                        Err(ParseError::UnexpectedToken)
                    },
                    Err(e) => Err(e),
                }
            } else {
                Err(ParseError::UnexpectedToken)
            },
            Err(e) => Err(e),
        }
    }
}

/// A function declaration, after its `fun` keyword: a name, a
/// parenthesized parameter list, and one block statement as the body.
#[verifier::opaque]
pub open spec fn p_func_decl(t: Seq<TokenV>, i: int) -> Result<(StmtV, int), ParseError>
    decreases t.len() - i, 34int,
{
    if !(0 <= i < t.len()) {
        Err(ParseError::UnexpectedEof)
    } else {
        match t[i] {
            TokenV::Identifier(n) => if i + 1 < t.len() && t[i + 1] is LeftParen {
                let paramsr = if i + 2 < t.len() && t[i + 2] is RightParen {
                    Ok((Seq::<Seq<char>>::empty(), i + 3))
                } else {
                    match p_params(t, i + 2, Seq::empty()) {
                        Ok((ps, j)) => if j < t.len() && t[j] is RightParen {
                            Ok((ps, j + 1))
                        } else if j >= t.len() {
                            Err(ParseError::UnexpectedEof)
                        } else {
                            Err(ParseError::UnexpectedToken)
                        },
                        Err(e) => Err(e),
                    }
                };
                match paramsr {
                    Ok((params, j)) => if i < j < t.len() {
                        if t[j] is LeftBrace {
                            match p_block_items(t, j + 1) {
                                Ok((body, k)) => Ok(
                                    (
                                        StmtV::Function(
                                            FunDeclV { name: n, parameters: params, body: body },
                                        ),
                                        k,
                                    ),
                                ),
                                Err(e) => Err(e),
                            }
                        } else {
                            Err(ParseError::UnexpectedToken)
                        }
                    } else if i < j {
                        Err(ParseError::UnexpectedEof)
                    } else {
                        Err(ParseError::UnexpectedToken)
                    },
                    Err(e) => Err(e),
                }
            } else if i + 1 >= t.len() {
                Err(ParseError::UnexpectedEof)
            } else {
                Err(ParseError::UnexpectedToken)
            },
            _ => Err(ParseError::UnexpectedToken),
        }
    }
}

/// A statement.
#[verifier::opaque]
pub open spec fn p_statement(t: Seq<TokenV>, i: int) -> Result<(StmtV, int), ParseError>
    decreases t.len() - i, 38int,
{
    if 0 <= i < t.len() && t[i] is For {
        p_for(t, i + 1)
    } else if 0 <= i < t.len() && t[i] is If {
        p_if(t, i + 1)
    } else if 0 <= i < t.len() && t[i] is Print {
        p_print(t, i + 1)
    } else if 0 <= i < t.len() && t[i] is Return {
        p_return(t, i + 1)
    } else if 0 <= i < t.len() && t[i] is While {
        p_while(t, i + 1)
    } else if 0 <= i < t.len() && t[i] is LeftBrace {
        match p_block_items(t, i + 1) {
            Ok((stmts, j)) => Ok((StmtV::Block(stmts), j)),
            Err(e) => Err(e),
        }
    } else {
        p_expr_stmt(t, i)
    }
}

/// A declaration: a function declaration, a variable declaration, or a
/// statement.
#[verifier::opaque]
pub open spec fn p_declaration(t: Seq<TokenV>, i: int) -> Result<(StmtV, int), ParseError>
    decreases t.len() - i, 39int,
{
    if 0 <= i < t.len() && t[i] is Fun {
        p_func_decl(t, i + 1)
    } else if 0 <= i < t.len() && t[i] is Var {
        p_var_decl(t, i + 1)
    } else {
        p_statement(t, i)
    }
}

/// A whole program: declarations until the tokens run out.
#[verifier::opaque]
pub open spec fn p_parse(t: Seq<TokenV>, i: int) -> Result<Seq<StmtV>, ParseError>
    decreases t.len() - i, 41int,
{
    if i >= t.len() {
        Ok(Seq::empty())
    } else {
        match p_declaration(t, i) {
            Ok((d, j)) => if i < j <= t.len() {
                match p_parse(t, j) {
                    Ok(rest) => Ok(seq![d] + rest),
                    Err(e) => Err(e),
                }
            } else {
                Err(ParseError::UnexpectedToken)
            },
            Err(e) => Err(e),
        }
    }
}


/// The token views a parser works over.
pub open spec fn toks(p: Parser) -> Seq<TokenV> {
    view_tokens(p.tokens@)
}

/// The recursive-descent parser: the token stream and the position of the
/// next token to read.
#[derive(Debug)]
pub struct Parser {
    pub tokens: Vec<Token>,
    pub current: usize,
}

impl Parser {
    /// A parser positioned at the start of `tokens`.
    pub fn new(tokens: Vec<Token>) -> (r: Parser)
        ensures
            r.tokens == tokens,
            r.current == 0,
    {
        Parser { tokens, current: 0 }
    }

    /// The token before the current one.
    pub fn previous(&mut self) -> (r: Token)
        requires
            1 <= old(self).current <= old(self).tokens@.len(),
        ensures
            *final(self) == *old(self),
            r == old(self).tokens@[old(self).current - 1],
    {
        self.tokens[self.current - 1].clone()
    }

    /// Advances over the current token when it equals `token`; reports
    /// which way it failed otherwise.
    pub fn consume(&mut self, token: Token) -> (r: Result<(), ParseError>)
        requires
            old(self).current <= old(self).tokens@.len(),
        ensures
            final(self).tokens == old(self).tokens,
            final(self).current <= final(self).tokens@.len(),
            match r {
                Ok(()) => old(self).current < old(self).tokens@.len() && toks(*old(self))[old(
                    self,
                ).current as int] == token@ && final(self).current == old(self).current + 1,
                Err(ParseError::UnexpectedEof) => old(self).current >= old(self).tokens@.len()
                    && final(self).current == old(self).current,
                Err(ParseError::UnexpectedToken) => old(self).current < old(self).tokens@.len()
                    && toks(*old(self))[old(self).current as int] != token@ && final(self).current
                    == old(self).current,
                Err(_) => false,
            },
    {
        proof {
            lemma_view_tokens_index(self.tokens@);
            assert(self.tokens.len() == self.tokens@.len());
        }
        if self.current >= self.tokens.len() {
            Err(ParseError::UnexpectedEof)
        } else if token_eq(&self.tokens[self.current], &token) {
            self.current = self.current + 1;
            Ok(())
        } else {
            Err(ParseError::UnexpectedToken)
        }
    }

    /// Whether the current token equals `token`.
    fn at_token(&self, token: &Token) -> (r: bool)
        requires
            self.current <= self.tokens@.len(),
        ensures
            r == (self.current < self.tokens@.len() && toks(*self)[self.current as int]
                == token@),
    {
        proof {
            lemma_view_tokens_index(self.tokens@);
            assert(self.tokens.len() == self.tokens@.len());
        }
        self.current < self.tokens.len() && token_eq(&self.tokens[self.current], token)
    }

    /// Whether the current token is the operator `a` or the operator `b`.
    fn at_op2(&self, a: Operator, b: Operator) -> (r: bool)
        requires
            self.current <= self.tokens@.len(),
        ensures
            r == (self.current < self.tokens@.len() && (toks(*self)[self.current as int]
                == TokenV::O(a) || toks(*self)[self.current as int] == TokenV::O(b))),
    {
        proof {
            lemma_view_tokens_index(self.tokens@);
            assert(self.tokens.len() == self.tokens@.len());
        }
        if self.current < self.tokens.len() {
            match &self.tokens[self.current] {
                Token::O(o) => *o == a || *o == b,
                _ => false,
            }
        } else {
            false
        }
    }

    /// The operator carried by the current token.
    fn read_op(&self) -> (r: Operator)
        requires
            self.current < self.tokens@.len(),
            toks(*self)[self.current as int] is O,
        ensures
            toks(*self)[self.current as int] == TokenV::O(r),
    {
        proof {
            lemma_view_tokens_index(self.tokens@);
            assert(self.tokens.len() == self.tokens@.len());
        }
        match &self.tokens[self.current] {
            Token::O(o) => *o,
            _ => {
                proof {
                    assert(false);
                }
                Operator::Plus
            },
        }
    }

    /// Primary expressions: literals, variable references and
    /// parenthesized groupings.
    #[verifier::rlimit(50)]
    #[verifier::spinoff_prover]
    pub fn primary(&mut self) -> (r: Result<Expr, ParseError>)
        requires
            old(self).current <= old(self).tokens@.len(),
        ensures
            final(self).tokens == old(self).tokens,
            final(self).current <= final(self).tokens@.len(),
            match r {
                Ok(e) => p_primary(toks(*old(self)), old(self).current as int) == Ok::<
                    (ExprV, int),
                    ParseError,
                >((e@, final(self).current as int)) && old(self).current < final(self).current,
                Err(pe) => p_primary(toks(*old(self)), old(self).current as int) == Err::<
                    (ExprV, int),
                    ParseError,
                >(pe),
            },
        decreases old(self).tokens@.len() - old(self).current, 2int,
    {
        proof {
            reveal(p_primary);
            lemma_view_tokens_index(self.tokens@);
            assert(self.tokens.len() == self.tokens@.len());
        }
        proof {
            lemma_view_tokens_index(self.tokens@);
            assert(self.tokens.len() == self.tokens@.len());
        }
        if self.current >= self.tokens.len() {
            return Err(ParseError::UnexpectedEof);
        }
        let tok = self.tokens[self.current].clone();
        match tok {
            Token::Identifier(n) => {
                self.current = self.current + 1;
                Ok(Expr::Variable { name: n })
            },
            Token::Bool(b) => {
                self.current = self.current + 1;
                Ok(Expr::L(Literal::Bool(b)))
            },
            Token::Nil => {
                self.current = self.current + 1;
                Ok(Expr::L(Literal::Nil))
            },
            Token::Num(x) => {
                self.current = self.current + 1;
                Ok(Expr::L(Literal::Num(x)))
            },
            Token::Str(s) => {
                self.current = self.current + 1;
                Ok(Expr::L(Literal::Str(s)))
            },
            Token::LeftParen => {
                self.current = self.current + 1;
                match self.expression() {
                    Ok(e) => {
                        proof {
                            lemma_view_tokens_index(self.tokens@);
            assert(self.tokens.len() == self.tokens@.len());
                        }
                        if self.current < self.tokens.len() && token_eq(
                            &self.tokens[self.current],
                            &Token::RightParen,
                        ) {
                            self.current = self.current + 1;
                            Ok(Expr::Grouping { expression: Box::new(e) })
                        } else if self.current >= self.tokens.len() {
                            Err(ParseError::UnexpectedEof)
                        } else {
                            Err(ParseError::UnexpectedToken)
                        }
                    },
                    Err(pe) => Err(pe),
                }
            },
            _ => Err(ParseError::UnexpectedToken),
        }
    }

    /// The comma-separated argument list of a call, after its `(`; `acc`
    /// holds the arguments already parsed.
    #[verifier::rlimit(50)]
    #[verifier::spinoff_prover]
    fn parse_args(&mut self, acc: Vec<Expr>) -> (r: Result<Vec<Expr>, ParseError>)
        requires
            old(self).current <= old(self).tokens@.len(),
        ensures
            final(self).tokens == old(self).tokens,
            final(self).current <= final(self).tokens@.len(),
            match r {
                Ok(args) => p_args(
                    toks(*old(self)),
                    old(self).current as int,
                    view_exprs(acc@),
                ) == Ok::<(Seq<ExprV>, int), ParseError>(
                    (view_exprs(args@), final(self).current as int),
                ) && old(self).current < final(self).current,
                Err(pe) => p_args(toks(*old(self)), old(self).current as int, view_exprs(acc@))
                    == Err::<(Seq<ExprV>, int), ParseError>(pe),
            },
        decreases old(self).tokens@.len() - old(self).current, 32int,
    {
        proof {
            reveal(p_args);
            lemma_view_tokens_index(self.tokens@);
            assert(self.tokens.len() == self.tokens@.len());
        }
        let e = match self.expression() {
            Ok(e) => e,
            Err(pe) => {
                return Err(pe);
            },
        };
        proof {
            lemma_view_exprs_index(acc@);
        }
        if acc.len() >= MAX_ARITY {
            return Err(ParseError::TooManyParameters);
        }
        let mut acc = acc;
        let ghost acc0 = acc@;
        acc.push(e);
        proof {
            assert(acc@.drop_last() =~= acc0);
            assert(view_exprs(acc@) == view_exprs(acc0).push(e@));
        }
        if self.at_token(&Token::Comma) {
            self.current = self.current + 1;
            self.parse_args(acc)
        } else {
            Ok(acc)
        }
    }

    /// See `p_multiplication`.
    #[verifier::rlimit(50)]
    #[verifier::spinoff_prover]
    #[verifier::loop_isolation(false)]
    pub fn multiplication(&mut self) -> (r: Result<Expr, ParseError>)
        requires
            old(self).current <= old(self).tokens@.len(),
        ensures
            final(self).tokens == old(self).tokens,
            final(self).current <= final(self).tokens@.len(),
            match r {
                Ok(e) => p_multiplication(toks(*old(self)), old(self).current as int) == Ok::<
                    (ExprV, int),
                    ParseError,
                >((e@, final(self).current as int)) && old(self).current < final(self).current,
                Err(pe) => p_multiplication(toks(*old(self)), old(self).current as int) == Err::<
                    (ExprV, int),
                    ParseError,
                >(pe),
            },
        decreases old(self).tokens@.len() - old(self).current, 19int,
    {
        proof {
            reveal(p_multiplication);
            reveal(p_mul_tail);
            lemma_view_tokens_index(self.tokens@);
            assert(self.tokens.len() == self.tokens@.len());
        }
        let ghost t = toks(*old(self));
        let ghost i0 = old(self).current as int;
        let ghost tokens0 = self.tokens;
        let mut e = match self.unary() {
            Ok(e) => e,
            Err(pe) => {
                return Err(pe);
            },
        };
        while self.at_op2(Operator::Slash, Operator::Star)
            invariant
                self.tokens == tokens0,
                i0 < self.current <= self.tokens@.len(),
                t == toks(*self),
                p_multiplication(t, i0) == p_mul_tail(t, self.current as int, e@),
            decreases self.tokens@.len() - self.current,
        {
            proof {
                reveal(p_mul_tail);
                lemma_view_tokens_index(self.tokens@);
            assert(self.tokens.len() == self.tokens@.len());
            }
            let op = self.read_op();
            self.current = self.current + 1;
            let right = match self.unary() {
                Ok(e) => e,
                Err(pe) => {
                    return Err(pe);
                },
            };
            e = Expr::Binary { left: Box::new(e), operator: op, right: Box::new(right) };
        }
        Ok(e)
    }

    /// See `p_addition`.
    #[verifier::rlimit(50)]
    #[verifier::spinoff_prover]
    #[verifier::loop_isolation(false)]
    pub fn addition(&mut self) -> (r: Result<Expr, ParseError>)
        requires
            old(self).current <= old(self).tokens@.len(),
        ensures
            final(self).tokens == old(self).tokens,
            final(self).current <= final(self).tokens@.len(),
            match r {
                Ok(e) => p_addition(toks(*old(self)), old(self).current as int) == Ok::<
                    (ExprV, int),
                    ParseError,
                >((e@, final(self).current as int)) && old(self).current < final(self).current,
                Err(pe) => p_addition(toks(*old(self)), old(self).current as int) == Err::<
                    (ExprV, int),
                    ParseError,
                >(pe),
            },
        decreases old(self).tokens@.len() - old(self).current, 21int,
    {
        proof {
            reveal(p_addition);
            reveal(p_add_tail);
            lemma_view_tokens_index(self.tokens@);
            assert(self.tokens.len() == self.tokens@.len());
        }
        let ghost t = toks(*old(self));
        let ghost i0 = old(self).current as int;
        let ghost tokens0 = self.tokens;
        let mut e = match self.multiplication() {
            Ok(e) => e,
            Err(pe) => {
                return Err(pe);
            },
        };
        while self.at_op2(Operator::Minus, Operator::Plus)
            invariant
                self.tokens == tokens0,
                i0 < self.current <= self.tokens@.len(),
                t == toks(*self),
                p_addition(t, i0) == p_add_tail(t, self.current as int, e@),
            decreases self.tokens@.len() - self.current,
        {
            proof {
                reveal(p_add_tail);
                lemma_view_tokens_index(self.tokens@);
            assert(self.tokens.len() == self.tokens@.len());
            }
            let op = self.read_op();
            self.current = self.current + 1;
            let right = match self.multiplication() {
                Ok(e) => e,
                Err(pe) => {
                    return Err(pe);
                },
            };
            e = Expr::Binary { left: Box::new(e), operator: op, right: Box::new(right) };
        }
        Ok(e)
    }

    /// See `p_comparsion`.
    #[verifier::rlimit(50)]
    #[verifier::spinoff_prover]
    #[verifier::loop_isolation(false)]
    pub fn comparsion(&mut self) -> (r: Result<Expr, ParseError>)
        requires
            old(self).current <= old(self).tokens@.len(),
        ensures
            final(self).tokens == old(self).tokens,
            final(self).current <= final(self).tokens@.len(),
            match r {
                Ok(e) => p_comparsion(toks(*old(self)), old(self).current as int) == Ok::<
                    (ExprV, int),
                    ParseError,
                >((e@, final(self).current as int)) && old(self).current < final(self).current,
                Err(pe) => p_comparsion(toks(*old(self)), old(self).current as int) == Err::<
                    (ExprV, int),
                    ParseError,
                >(pe),
            },
        decreases old(self).tokens@.len() - old(self).current, 23int,
    {
        proof {
            reveal(p_comparsion);
            reveal(p_cmp_tail);
            lemma_view_tokens_index(self.tokens@);
            assert(self.tokens.len() == self.tokens@.len());
        }
        let ghost t = toks(*old(self));
        let ghost i0 = old(self).current as int;
        let ghost tokens0 = self.tokens;
        let mut e = match self.addition() {
            Ok(e) => e,
            Err(pe) => {
                return Err(pe);
            },
        };
        while self.at_op2(Operator::GreaterThan, Operator::GreaterThanOrEqual) || self.at_op2(
            Operator::LessThan,
            Operator::LessThanOrEqual,
        )
            invariant
                self.tokens == tokens0,
                i0 < self.current <= self.tokens@.len(),
                t == toks(*self),
                p_comparsion(t, i0) == p_cmp_tail(t, self.current as int, e@),
            decreases self.tokens@.len() - self.current,
        {
            proof {
                reveal(p_cmp_tail);
                lemma_view_tokens_index(self.tokens@);
            assert(self.tokens.len() == self.tokens@.len());
            }
            let op = self.read_op();
            self.current = self.current + 1;
            let right = match self.addition() {
                Ok(e) => e,
                Err(pe) => {
                    return Err(pe);
                },
            };
            e = Expr::Binary { left: Box::new(e), operator: op, right: Box::new(right) };
        }
        Ok(e)
    }

    /// See `p_equality`.
    #[verifier::rlimit(50)]
    #[verifier::spinoff_prover]
    #[verifier::loop_isolation(false)]
    pub fn equality(&mut self) -> (r: Result<Expr, ParseError>)
        requires
            old(self).current <= old(self).tokens@.len(),
        ensures
            final(self).tokens == old(self).tokens,
            final(self).current <= final(self).tokens@.len(),
            match r {
                Ok(e) => p_equality(toks(*old(self)), old(self).current as int) == Ok::<
                    (ExprV, int),
                    ParseError,
                >((e@, final(self).current as int)) && old(self).current < final(self).current,
                Err(pe) => p_equality(toks(*old(self)), old(self).current as int) == Err::<
                    (ExprV, int),
                    ParseError,
                >(pe),
            },
        decreases old(self).tokens@.len() - old(self).current, 25int,
    {
        proof {
            reveal(p_equality);
            reveal(p_eq_tail);
            lemma_view_tokens_index(self.tokens@);
            assert(self.tokens.len() == self.tokens@.len());
        }
        let ghost t = toks(*old(self));
        let ghost i0 = old(self).current as int;
        let ghost tokens0 = self.tokens;
        let mut e = match self.comparsion() {
            Ok(e) => e,
            Err(pe) => {
                return Err(pe);
            },
        };
        while self.at_op2(Operator::Equal, Operator::NotEqual)
            invariant
                self.tokens == tokens0,
                i0 < self.current <= self.tokens@.len(),
                t == toks(*self),
                p_equality(t, i0) == p_eq_tail(t, self.current as int, e@),
            decreases self.tokens@.len() - self.current,
        {
            proof {
                reveal(p_eq_tail);
                lemma_view_tokens_index(self.tokens@);
            assert(self.tokens.len() == self.tokens@.len());
            }
            let op = self.read_op();
            self.current = self.current + 1;
            let right = match self.comparsion() {
                Ok(e) => e,
                Err(pe) => {
                    return Err(pe);
                },
            };
            e = Expr::Binary { left: Box::new(e), operator: op, right: Box::new(right) };
        }
        Ok(e)
    }

    /// See `p_and`.
    #[verifier::rlimit(50)]
    #[verifier::spinoff_prover]
    #[verifier::loop_isolation(false)]
    pub fn and(&mut self) -> (r: Result<Expr, ParseError>)
        requires
            old(self).current <= old(self).tokens@.len(),
        ensures
            final(self).tokens == old(self).tokens,
            final(self).current <= final(self).tokens@.len(),
            match r {
                Ok(e) => p_and(toks(*old(self)), old(self).current as int) == Ok::<
                    (ExprV, int),
                    ParseError,
                >((e@, final(self).current as int)) && old(self).current < final(self).current,
                Err(pe) => p_and(toks(*old(self)), old(self).current as int) == Err::<
                    (ExprV, int),
                    ParseError,
                >(pe),
            },
        decreases old(self).tokens@.len() - old(self).current, 27int,
    {
        proof {
            reveal(p_and);
            reveal(p_and_tail);
            lemma_view_tokens_index(self.tokens@);
            assert(self.tokens.len() == self.tokens@.len());
        }
        let ghost t = toks(*old(self));
        let ghost i0 = old(self).current as int;
        let ghost tokens0 = self.tokens;
        let mut e = match self.equality() {
            Ok(e) => e,
            Err(pe) => {
                return Err(pe);
            },
        };
        while self.at_op2(Operator::And, Operator::And)
            invariant
                self.tokens == tokens0,
                i0 < self.current <= self.tokens@.len(),
                t == toks(*self),
                p_and(t, i0) == p_and_tail(t, self.current as int, e@),
            decreases self.tokens@.len() - self.current,
        {
            proof {
                reveal(p_and_tail);
                lemma_view_tokens_index(self.tokens@);
            assert(self.tokens.len() == self.tokens@.len());
            }
            let op = self.read_op();
            self.current = self.current + 1;
            let right = match self.equality() {
                Ok(e) => e,
                Err(pe) => {
                    return Err(pe);
                },
            };
            e = Expr::Logical { left: Box::new(e), operator: op, right: Box::new(right) };
        }
        Ok(e)
    }

    /// See `p_or`.
    #[verifier::rlimit(50)]
    #[verifier::spinoff_prover]
    #[verifier::loop_isolation(false)]
    pub fn or(&mut self) -> (r: Result<Expr, ParseError>)
        requires
            old(self).current <= old(self).tokens@.len(),
        ensures
            final(self).tokens == old(self).tokens,
            final(self).current <= final(self).tokens@.len(),
            match r {
                Ok(e) => p_or(toks(*old(self)), old(self).current as int) == Ok::<
                    (ExprV, int),
                    ParseError,
                >((e@, final(self).current as int)) && old(self).current < final(self).current,
                Err(pe) => p_or(toks(*old(self)), old(self).current as int) == Err::<
                    (ExprV, int),
                    ParseError,
                >(pe),
            },
        decreases old(self).tokens@.len() - old(self).current, 29int,
    {
        proof {
            reveal(p_or);
            reveal(p_or_tail);
            lemma_view_tokens_index(self.tokens@);
            assert(self.tokens.len() == self.tokens@.len());
        }
        let ghost t = toks(*old(self));
        let ghost i0 = old(self).current as int;
        let ghost tokens0 = self.tokens;
        let mut e = match self.and() {
            Ok(e) => e,
            Err(pe) => {
                return Err(pe);
            },
        };
        while self.at_op2(Operator::Or, Operator::Or)
            invariant
                self.tokens == tokens0,
                i0 < self.current <= self.tokens@.len(),
                t == toks(*self),
                p_or(t, i0) == p_or_tail(t, self.current as int, e@),
            decreases self.tokens@.len() - self.current,
        {
            proof {
                reveal(p_or_tail);
                lemma_view_tokens_index(self.tokens@);
            assert(self.tokens.len() == self.tokens@.len());
            }
            let op = self.read_op();
            self.current = self.current + 1;
            let right = match self.and() {
                Ok(e) => e,
                Err(pe) => {
                    return Err(pe);
                },
            };
            e = Expr::Logical { left: Box::new(e), operator: op, right: Box::new(right) };
        }
        Ok(e)
    }

    /// One argument list following `callee`, from the token after `(`.
    #[verifier::rlimit(50)]
    #[verifier::spinoff_prover]
    pub fn finish_call(&mut self, callee: Expr) -> (r: Result<Expr, ParseError>)
        requires
            old(self).current <= old(self).tokens@.len(),
        ensures
            final(self).tokens == old(self).tokens,
            final(self).current <= final(self).tokens@.len(),
            match r {
                Ok(e) => p_finish_call(toks(*old(self)), old(self).current as int, callee@)
                    == Ok::<(ExprV, int), ParseError>((e@, final(self).current as int))
                    && old(self).current < final(self).current,
                Err(pe) => p_finish_call(toks(*old(self)), old(self).current as int, callee@)
                    == Err::<(ExprV, int), ParseError>(pe),
            },
        decreases old(self).tokens@.len() - old(self).current, 33int,
    {
        proof {
            reveal(p_finish_call);
            lemma_view_tokens_index(self.tokens@);
            assert(self.tokens.len() == self.tokens@.len());
        }
        if self.at_token(&Token::RightParen) {
            self.current = self.current + 1;
            let r = Expr::Call { callee: Box::new(callee), arguments: Vec::new() };
            proof {
                assert(view_exprs(r->Call_arguments@) =~= Seq::<ExprV>::empty());
            }
            Ok(r)
        } else {
            let args = match self.parse_args(Vec::new()) {
                Ok(args) => args,
                Err(pe) => {
                    proof {
                        assert(view_exprs(Seq::<Expr>::empty()) =~= Seq::<ExprV>::empty());
                    }
                    return Err(pe);
                },
            };
            proof {
                assert(view_exprs(Seq::<Expr>::empty()) =~= Seq::<ExprV>::empty());
            }
            if self.at_token(&Token::RightParen) {
                self.current = self.current + 1;
                Ok(Expr::Call { callee: Box::new(callee), arguments: args })
            } else if self.current >= self.tokens.len() {
                Err(ParseError::UnexpectedEof)
            } else {
                Err(ParseError::UnexpectedToken)
            }
        }
    }

    /// Call expressions: a primary followed by zero or more argument
    /// lists.
    #[verifier::rlimit(50)]
    #[verifier::spinoff_prover]
    #[verifier::loop_isolation(false)]
    pub fn call(&mut self) -> (r: Result<Expr, ParseError>)
        requires
            old(self).current <= old(self).tokens@.len(),
        ensures
            final(self).tokens == old(self).tokens,
            final(self).current <= final(self).tokens@.len(),
            match r {
                Ok(e) => p_call(toks(*old(self)), old(self).current as int) == Ok::<
                    (ExprV, int),
                    ParseError,
                >((e@, final(self).current as int)) && old(self).current < final(self).current,
                Err(pe) => p_call(toks(*old(self)), old(self).current as int) == Err::<
                    (ExprV, int),
                    ParseError,
                >(pe),
            },
        decreases old(self).tokens@.len() - old(self).current, 16int,
    {
        proof {
            reveal(p_call);
            reveal(p_call_tail);
            lemma_view_tokens_index(self.tokens@);
            assert(self.tokens.len() == self.tokens@.len());
        }
        let ghost t = toks(*old(self));
        let ghost i0 = old(self).current as int;
        let ghost tokens0 = self.tokens;
        let mut e = match self.primary() {
            Ok(e) => e,
            Err(pe) => {
                return Err(pe);
            },
        };
        while self.at_token(&Token::LeftParen)
            invariant
                self.tokens == tokens0,
                i0 < self.current <= self.tokens@.len(),
                t == toks(*self),
                p_call(t, i0) == p_call_tail(t, self.current as int, e@),
            decreases self.tokens@.len() - self.current,
        {
            proof {
                reveal(p_call_tail);
                lemma_view_tokens_index(self.tokens@);
            assert(self.tokens.len() == self.tokens@.len());
            }
            self.current = self.current + 1;
            e = match self.finish_call(e) {
                Ok(e2) => e2,
                Err(pe) => {
                    return Err(pe);
                },
            };
        }
        Ok(e)
    }

    /// Unary `!` and `-`.
    #[verifier::rlimit(50)]
    #[verifier::spinoff_prover]
    pub fn unary(&mut self) -> (r: Result<Expr, ParseError>)
        requires
            old(self).current <= old(self).tokens@.len(),
        ensures
            final(self).tokens == old(self).tokens,
            final(self).current <= final(self).tokens@.len(),
            match r {
                Ok(e) => p_unary(toks(*old(self)), old(self).current as int) == Ok::<
                    (ExprV, int),
                    ParseError,
                >((e@, final(self).current as int)) && old(self).current < final(self).current,
                Err(pe) => p_unary(toks(*old(self)), old(self).current as int) == Err::<
                    (ExprV, int),
                    ParseError,
                >(pe),
            },
        decreases old(self).tokens@.len() - old(self).current, 17int,
    {
        proof {
            reveal(p_unary);
            lemma_view_tokens_index(self.tokens@);
            assert(self.tokens.len() == self.tokens@.len());
        }
        if self.at_op2(Operator::Not, Operator::Minus) {
            let op = self.read_op();
            self.current = self.current + 1;
            match self.unary() {
                Ok(e) => Ok(Expr::Unary { operator: op, right: Box::new(e) }),
                Err(pe) => Err(pe),
            }
        } else {
            self.call()
        }
    }

    /// Assignment, right associative; the target must be a plain variable
    /// reference.
    #[verifier::rlimit(50)]
    #[verifier::spinoff_prover]
    pub fn assignment(&mut self) -> (r: Result<Expr, ParseError>)
        requires
            old(self).current <= old(self).tokens@.len(),
        ensures
            final(self).tokens == old(self).tokens,
            final(self).current <= final(self).tokens@.len(),
            match r {
                Ok(e) => p_assignment(toks(*old(self)), old(self).current as int) == Ok::<
                    (ExprV, int),
                    ParseError,
                >((e@, final(self).current as int)) && old(self).current < final(self).current,
                Err(pe) => p_assignment(toks(*old(self)), old(self).current as int) == Err::<
                    (ExprV, int),
                    ParseError,
                >(pe),
            },
        decreases old(self).tokens@.len() - old(self).current, 30int,
    {
        proof {
            reveal(p_assignment);
            lemma_view_tokens_index(self.tokens@);
            assert(self.tokens.len() == self.tokens@.len());
        }
        let e = match self.or() {
            Ok(e) => e,
            Err(pe) => {
                return Err(pe);
            },
        };
        if self.at_token(&Token::Assign) {
            self.current = self.current + 1;
            let v = match self.assignment() {
                Ok(v) => v,
                Err(pe) => {
                    return Err(pe);
                },
            };
            match e {
                Expr::Variable { name } => Ok(Expr::Assign { name, value: Box::new(v) }),
                _ => Err(ParseError::InvalidAssignmentTarget),
            }
        } else {
            Ok(e)
        }
    }

    /// An expression.
    #[verifier::rlimit(50)]
    #[verifier::spinoff_prover]
    pub fn expression(&mut self) -> (r: Result<Expr, ParseError>)
        requires
            old(self).current <= old(self).tokens@.len(),
        ensures
            final(self).tokens == old(self).tokens,
            final(self).current <= final(self).tokens@.len(),
            match r {
                Ok(e) => p_expression(toks(*old(self)), old(self).current as int) == Ok::<
                    (ExprV, int),
                    ParseError,
                >((e@, final(self).current as int)) && old(self).current < final(self).current,
                Err(pe) => p_expression(toks(*old(self)), old(self).current as int) == Err::<
                    (ExprV, int),
                    ParseError,
                >(pe),
            },
        decreases old(self).tokens@.len() - old(self).current, 31int,
    {
        proof {
            reveal(p_expression);
            lemma_view_tokens_index(self.tokens@);
            assert(self.tokens.len() == self.tokens@.len());
        }
        self.assignment()
    }

    /// See `p_expr_stmt`.
    #[verifier::rlimit(50)]
    #[verifier::spinoff_prover]
    pub fn expr_stmt(&mut self) -> (r: Result<Stmt, ParseError>)
        requires
            old(self).current <= old(self).tokens@.len(),
        ensures
            final(self).tokens == old(self).tokens,
            final(self).current <= final(self).tokens@.len(),
            match r {
                Ok(s) => p_expr_stmt(toks(*old(self)), old(self).current as int) == Ok::<
                    (StmtV, int),
                    ParseError,
                >((s@, final(self).current as int)) && old(self).current < final(self).current,
                Err(pe) => p_expr_stmt(toks(*old(self)), old(self).current as int) == Err::<
                    (StmtV, int),
                    ParseError,
                >(pe),
            },
        decreases old(self).tokens@.len() - old(self).current, 34int,
    {
        proof {
            reveal(p_expr_stmt);
            lemma_view_tokens_index(self.tokens@);
            assert(self.tokens.len() == self.tokens@.len());
        }
        let e = match self.expression() {
            Ok(e) => e,
            Err(pe) => {
                return Err(pe);
            },
        };
        match self.consume(Token::Semicolon) {
            Ok(()) => Ok(Stmt::Expr(Box::new(e))),
            Err(pe) => Err(pe),
        }
    }

    /// See `p_print`.
    #[verifier::rlimit(50)]
    #[verifier::spinoff_prover]
    pub fn print(&mut self) -> (r: Result<Stmt, ParseError>)
        requires
            old(self).current <= old(self).tokens@.len(),
        ensures
            final(self).tokens == old(self).tokens,
            final(self).current <= final(self).tokens@.len(),
            match r {
                Ok(s) => p_print(toks(*old(self)), old(self).current as int) == Ok::<
                    (StmtV, int),
                    ParseError,
                >((s@, final(self).current as int)) && old(self).current < final(self).current,
                Err(pe) => p_print(toks(*old(self)), old(self).current as int) == Err::<
                    (StmtV, int),
                    ParseError,
                >(pe),
            },
        decreases old(self).tokens@.len() - old(self).current, 34int,
    {
        proof {
            reveal(p_print);
            lemma_view_tokens_index(self.tokens@);
            assert(self.tokens.len() == self.tokens@.len());
        }
        let e = match self.expression() {
            Ok(e) => e,
            Err(pe) => {
                return Err(pe);
            },
        };
        match self.consume(Token::Semicolon) {
            Ok(()) => Ok(Stmt::Print(Box::new(e))),
            Err(pe) => Err(pe),
        }
    }

    /// See `p_return`.
    #[verifier::rlimit(50)]
    #[verifier::spinoff_prover]
    fn return_stmt(&mut self) -> (r: Result<Stmt, ParseError>)
        requires
            old(self).current <= old(self).tokens@.len(),
        ensures
            final(self).tokens == old(self).tokens,
            final(self).current <= final(self).tokens@.len(),
            match r {
                Ok(s) => p_return(toks(*old(self)), old(self).current as int) == Ok::<
                    (StmtV, int),
                    ParseError,
                >((s@, final(self).current as int)) && old(self).current < final(self).current,
                Err(pe) => p_return(toks(*old(self)), old(self).current as int) == Err::<
                    (StmtV, int),
                    ParseError,
                >(pe),
            },
        decreases old(self).tokens@.len() - old(self).current, 34int,
    {
        proof {
            reveal(p_return);
            lemma_view_tokens_index(self.tokens@);
            assert(self.tokens.len() == self.tokens@.len());
        }
        if self.at_token(&Token::Semicolon) {
            self.current = self.current + 1;
            return Ok(Stmt::Return(None));
        }
        let e = match self.expression() {
            Ok(e) => e,
            Err(pe) => {
                return Err(pe);
            },
        };
        match self.consume(Token::Semicolon) {
            Ok(()) => Ok(Stmt::Return(Some(Box::new(e)))),
            Err(pe) => Err(pe),
        }
    }

    /// See `p_var_decl`.
    #[verifier::rlimit(50)]
    #[verifier::spinoff_prover]
    pub fn var_decl(&mut self) -> (r: Result<Stmt, ParseError>)
        requires
            old(self).current <= old(self).tokens@.len(),
        ensures
            final(self).tokens == old(self).tokens,
            final(self).current <= final(self).tokens@.len(),
            match r {
                Ok(s) => p_var_decl(toks(*old(self)), old(self).current as int) == Ok::<
                    (StmtV, int),
                    ParseError,
                >((s@, final(self).current as int)) && old(self).current < final(self).current,
                Err(pe) => p_var_decl(toks(*old(self)), old(self).current as int) == Err::<
                    (StmtV, int),
                    ParseError,
                >(pe),
            },
        decreases old(self).tokens@.len() - old(self).current, 34int,
    {
        proof {
            reveal(p_var_decl);
            lemma_view_tokens_index(self.tokens@);
            assert(self.tokens.len() == self.tokens@.len());
        }
        if self.current >= self.tokens.len() {
            return Err(ParseError::UnexpectedEof);
        }
        let tok = self.tokens[self.current].clone();
        match tok {
            Token::Identifier(n) => {
                self.current = self.current + 1;
                if self.at_token(&Token::Assign) {
                    self.current = self.current + 1;
                    let e = match self.expression() {
                        Ok(e) => e,
                        Err(pe) => {
                            return Err(pe);
                        },
                    };
                    match self.consume(Token::Semicolon) {
                        Ok(()) => Ok(
                            Stmt::Variable { name: n, initializer: Some(Box::new(e)) },
                        ),
                        Err(pe) => Err(pe),
                    }
                } else {
                    match self.consume(Token::Semicolon) {
                        Ok(()) => Ok(Stmt::Variable { name: n, initializer: None }),
                        Err(pe) => Err(pe),
                    }
                }
            },
            _ => Err(ParseError::UnexpectedToken),
        }
    }

    /// See `p_params`.
    #[verifier::rlimit(50)]
    #[verifier::spinoff_prover]
    fn params_list(&mut self, acc: Vec<String>) -> (r: Result<Vec<String>, ParseError>)
        requires
            old(self).current <= old(self).tokens@.len(),
        ensures
            final(self).tokens == old(self).tokens,
            final(self).current <= final(self).tokens@.len(),
            match r {
                Ok(ps) => p_params(
                    toks(*old(self)),
                    old(self).current as int,
                    view_strings(acc@),
                ) == Ok::<(Seq<Seq<char>>, int), ParseError>(
                    (view_strings(ps@), final(self).current as int),
                ) && old(self).current < final(self).current,
                Err(pe) => p_params(toks(*old(self)), old(self).current as int, view_strings(acc@))
                    == Err::<(Seq<Seq<char>>, int), ParseError>(pe),
            },
        decreases old(self).tokens@.len() - old(self).current, 1int,
    {
        proof {
            reveal(p_params);
            lemma_view_tokens_index(self.tokens@);
            assert(self.tokens.len() == self.tokens@.len());
        }
        if self.current >= self.tokens.len() {
            return Err(ParseError::UnexpectedEof);
        }
        let tok = self.tokens[self.current].clone();
        match tok {
            Token::Identifier(n) => {
                if acc.len() >= MAX_ARITY {
                    return Err(ParseError::TooManyParameters);
                }
                let mut acc = acc;
                let ghost acc0 = acc@;
                acc.push(n);
                proof {
                    assert(view_strings(acc@) =~= view_strings(acc0).push(acc@.last()@));
                }
                self.current = self.current + 1;
                if self.at_token(&Token::Comma) {
                    self.current = self.current + 1;
                    self.params_list(acc)
                } else {
                    Ok(acc)
                }
            },
            _ => Err(ParseError::UnexpectedToken),
        }
    }

    /// See `p_func_decl`.
    #[verifier::rlimit(50)]
    #[verifier::spinoff_prover]
    pub fn func_decl(&mut self, kind: &str) -> (r: Result<Stmt, ParseError>)
        requires
            old(self).current <= old(self).tokens@.len(),
        ensures
            final(self).tokens == old(self).tokens,
            final(self).current <= final(self).tokens@.len(),
            match r {
                Ok(s) => p_func_decl(toks(*old(self)), old(self).current as int) == Ok::<
                    (StmtV, int),
                    ParseError,
                >((s@, final(self).current as int)) && old(self).current < final(self).current,
                Err(pe) => p_func_decl(toks(*old(self)), old(self).current as int) == Err::<
                    (StmtV, int),
                    ParseError,
                >(pe),
            },
        decreases old(self).tokens@.len() - old(self).current, 35int,
    {
        proof {
            reveal(p_func_decl);
            lemma_view_tokens_index(self.tokens@);
            assert(self.tokens.len() == self.tokens@.len());
            assert(view_strings(Seq::<String>::empty()) =~= Seq::<Seq<char>>::empty());
        }
        if self.current >= self.tokens.len() {
            return Err(ParseError::UnexpectedEof);
        }
        let tok = self.tokens[self.current].clone();
        match tok {
            Token::Identifier(n) => {
                self.current = self.current + 1;
                match self.consume(Token::LeftParen) {
                    Ok(()) => (),
                    Err(pe) => {
                        return Err(pe);
                    },
                }
                let params: Vec<String> = if self.at_token(&Token::RightParen) {
                    self.current = self.current + 1;
                    Vec::new()
                } else {
                    let ps = match self.params_list(Vec::new()) {
                        Ok(ps) => ps,
                        Err(pe) => {
                            proof {
                                assert(view_strings(Seq::<String>::empty()) =~= Seq::<
                                    Seq<char>,
                                >::empty());
                            }
                            return Err(pe);
                        },
                    };
                    proof {
                        assert(view_strings(Seq::<String>::empty()) =~= Seq::<
                            Seq<char>,
                        >::empty());
                    }
                    match self.consume(Token::RightParen) {
                        Ok(()) => (),
                        Err(pe) => {
                            return Err(pe);
                        },
                    }
                    ps
                };
                match self.consume(Token::LeftBrace) {
                    Ok(()) => (),
                    Err(pe) => {
                        return Err(pe);
                    },
                }
                let body = match self.block() {
                    Ok(b) => b,
                    Err(pe) => {
                        return Err(pe);
                    },
                };
                proof {
                    let r0 = p_func_decl(toks(*old(self)), old(self).current as int);
                    assert(r0 is Ok);
                    let (sv, k) = r0->Ok_0;
                    assert(sv is Function);
                    assert(k == self.current as int);
                    assert(sv->Function_0.name == n@);
                    assert(sv->Function_0.parameters == view_strings(params@));
                    assert(sv->Function_0.body == view_stmts(body@));
                    assert(sv->Function_0 =~= FunDeclV {
                        name: n@,
                        parameters: view_strings(params@),
                        body: view_stmts(body@),
                    });
                }
                let fd = FunDecl { name: n, parameters: params, body };
                let ghost fdv = fd@;
                let s = Stmt::Function(fd);
                proof {
                    assert(s@ == StmtV::Function(fdv));
                }
                Ok(s)
            },
            _ => Err(ParseError::UnexpectedToken),
        }
    }

    /// See `p_block_items`: the statements of a block, up to and including
    /// its closing `}`.
    #[verifier::rlimit(50)]
    #[verifier::spinoff_prover]
    #[verifier::loop_isolation(false)]
    pub fn block(&mut self) -> (r: Result<Vec<Stmt>, ParseError>)
        requires
            old(self).current <= old(self).tokens@.len(),
        ensures
            final(self).tokens == old(self).tokens,
            final(self).current <= final(self).tokens@.len(),
            match r {
                Ok(stmts) => p_block_items(toks(*old(self)), old(self).current as int) == Ok::<
                    (Seq<StmtV>, int),
                    ParseError,
                >((view_stmts(stmts@), final(self).current as int))
                    && old(self).current < final(self).current,
                Err(pe) => p_block_items(toks(*old(self)), old(self).current as int) == Err::<
                    (Seq<StmtV>, int),
                    ParseError,
                >(pe),
            },
        decreases old(self).tokens@.len() - old(self).current, 40int,
    {
        proof {
            reveal(p_block_items);
            lemma_view_tokens_index(self.tokens@);
            assert(self.tokens.len() == self.tokens@.len());
        }
        let ghost t = toks(*old(self));
        let ghost i0 = old(self).current as int;
        let mut stmts: Vec<Stmt> = Vec::new();
        proof {
            assert(view_stmts(stmts@) =~= Seq::<StmtV>::empty());
        }
        loop
            invariant
                self.tokens == old(self).tokens,
                i0 <= self.current <= self.tokens@.len(),
                match p_block_items(t, self.current as int) {
                    Ok((rest, k)) => p_block_items(t, i0) == Ok::<
                        (Seq<StmtV>, int),
                        ParseError,
                    >((view_stmts(stmts@) + rest, k)),
                    Err(e) => p_block_items(t, i0) == Err::<(Seq<StmtV>, int), ParseError>(e),
                },
            decreases self.tokens@.len() - self.current,
        {
            proof {
                reveal(p_block_items);
            }
            if self.at_token(&Token::RightBrace) {
                self.current = self.current + 1;
                proof {
                    assert(view_stmts(stmts@) + Seq::<StmtV>::empty() =~= view_stmts(stmts@));
                }
                return Ok(stmts);
            }
            if self.current >= self.tokens.len() {
                return Err(ParseError::UnexpectedEof);
            }
            let d = match self.delaration() {
                Ok(d) => d,
                Err(pe) => {
                    return Err(pe);
                },
            };
            let ghost stmts0 = stmts@;
            let ghost drest = p_block_items(t, self.current as int);
            stmts.push(d);
            proof {
                assert(stmts@.drop_last() =~= stmts0);
                assert(view_stmts(stmts@) == view_stmts(stmts0).push(d@));
                match drest {
                    Ok((rest, k)) => {
                        assert(view_stmts(stmts0) + (seq![d@] + rest) =~= view_stmts(stmts@)
                            + rest);
                    },
                    Err(e) => {},
                }
            }
        }
    }


    /// Every element's view, for a two-statement list.
    proof fn lemma_view_stmts_two(a: Stmt, b: Stmt)
        ensures
            view_stmts(seq![a, b]) =~= seq![a@, b@],
    {
        reveal_with_fuel(view_stmts, 3);
        let s = seq![a, b];
        assert(s.drop_last() =~= seq![a]);
        assert(seq![a].drop_last() =~= Seq::<Stmt>::empty());
        assert(view_stmts(seq![a]) =~= seq![a@]);
    }

    /// Builds the desugared statement of a `for` loop.
    #[verifier::rlimit(50)]
    #[verifier::spinoff_prover]
    fn build_for(
        initializer: Option<Stmt>,
        condition: Option<Expr>,
        increment: Option<Expr>,
        body: Stmt,
    ) -> (r: Stmt)
        ensures
            r@ == desugar_for(
                match initializer {
                    Some(s) => Some(s@),
                    None => None,
                },
                match condition {
                    Some(c) => Some(c@),
                    None => None,
                },
                match increment {
                    Some(x) => Some(x@),
                    None => None,
                },
                body@,
            ),
    {
        let ghost initv: Option<StmtV> = match initializer {
            Some(ref s) => Some(s@),
            None => None,
        };
        let ghost condv: Option<ExprV> = match condition {
            Some(ref c) => Some(c@),
            None => None,
        };
        let ghost incv: Option<ExprV> = match increment {
            Some(ref x) => Some(x@),
            None => None,
        };
        let ghost bodyv = body@;
        let ghost b1v: StmtV = match incv {
            Some(x) => StmtV::Block(seq![bodyv, StmtV::Expr(Box::new(x))]),
            None => bodyv,
        };
        let ghost b2v: StmtV = match condv {
            Some(c) => StmtV::While { condition: Box::new(c), body: Box::new(b1v) },
            None => b1v,
        };
        let ghost resv: StmtV = match initv {
            Some(s) => StmtV::Block(seq![s, b2v]),
            None => b2v,
        };
        let b1 = match increment {
            Some(inc) => {
                let mut v: Vec<Stmt> = Vec::new();
                v.push(body);
                v.push(Stmt::Expr(Box::new(inc)));
                proof {
                    assert(v@ =~= seq![v@[0], v@[1]]);
                    Parser::lemma_view_stmts_two(v@[0], v@[1]);
                    assert(view_stmts(v@) =~= seq![bodyv, StmtV::Expr(Box::new(incv->0))]);
                }
                Stmt::Block(v)
            },
            None => body,
        };
        proof {
            assert(b1@ == b1v);
        }
        let b2 = match condition {
            Some(c) => Stmt::While { condition: Box::new(c), body: Box::new(b1) },
            None => b1,
        };
        proof {
            assert(b2@ == b2v);
        }
        let result = match initializer {
            Some(init) => {
                let mut v: Vec<Stmt> = Vec::new();
                v.push(init);
                v.push(b2);
                proof {
                    assert(v@ =~= seq![v@[0], v@[1]]);
                    Parser::lemma_view_stmts_two(v@[0], v@[1]);
                    assert(view_stmts(v@) =~= seq![initv->0, b2v]);
                }
                Stmt::Block(v)
            },
            None => b2,
        };
        proof {
            assert(result@ == resv);
            assert(resv == desugar_for(initv, condv, incv, bodyv));
        }
        result
    }

    /// See `p_for`: parses a `for` statement after its keyword and
    /// desugars it into a block with a `while` loop.
    #[verifier::rlimit(100)]
    #[verifier::spinoff_prover]
    pub fn for_stmt(&mut self) -> (r: Result<Stmt, ParseError>)
        requires
            old(self).current <= old(self).tokens@.len(),
        ensures
            final(self).tokens == old(self).tokens,
            final(self).current <= final(self).tokens@.len(),
            match r {
                Ok(s) => p_for(toks(*old(self)), old(self).current as int) == Ok::<
                    (StmtV, int),
                    ParseError,
                >((s@, final(self).current as int)) && old(self).current < final(self).current,
                Err(pe) => p_for(toks(*old(self)), old(self).current as int) == Err::<
                    (StmtV, int),
                    ParseError,
                >(pe),
            },
        decreases old(self).tokens@.len() - old(self).current, 36int,
    {
        proof {
            reveal(p_for);
            reveal(p_for_init);
            lemma_view_tokens_index(self.tokens@);
            assert(self.tokens.len() == self.tokens@.len());
        }
        match self.consume(Token::LeftParen) {
            Ok(()) => (),
            Err(pe) => {
                return Err(pe);
            },
        }
        let initializer: Option<Stmt> = if self.at_token(&Token::Semicolon) {
            self.current = self.current + 1;
            None
        } else if self.at_token(&Token::Var) {
            self.current = self.current + 1;
            match self.var_decl() {
                Ok(d) => Some(d),
                Err(pe) => {
                    return Err(pe);
                },
            }
        } else if self.current >= self.tokens.len() {
            return Err(ParseError::UnexpectedEof);
        } else {
            match self.expr_stmt() {
                Ok(d) => Some(d),
                Err(pe) => {
                    return Err(pe);
                },
            }
        };
        let condition: Option<Expr> = if self.at_token(&Token::Semicolon) {
            self.current = self.current + 1;
            None
        } else {
            let c = match self.expression() {
                Ok(c) => c,
                Err(pe) => {
                    return Err(pe);
                },
            };
            match self.consume(Token::Semicolon) {
                Ok(()) => (),
                Err(pe) => {
                    return Err(pe);
                },
            }
            Some(c)
        };
        let increment: Option<Expr> = if self.at_token(&Token::RightParen) {
            self.current = self.current + 1;
            None
        } else {
            let x = match self.expression() {
                Ok(x) => x,
                Err(pe) => {
                    return Err(pe);
                },
            };
            match self.consume(Token::RightParen) {
                Ok(()) => (),
                Err(pe) => {
                    return Err(pe);
                },
            }
            Some(x)
        };
        let body = match self.statement() {
            Ok(b) => b,
            Err(pe) => {
                return Err(pe);
            },
        };
        let result = Parser::build_for(initializer, condition, increment, body);
        Ok(result)
    }

    /// See `p_if`.
    #[verifier::rlimit(50)]
    #[verifier::spinoff_prover]
    pub fn if_stmt(&mut self) -> (r: Result<Stmt, ParseError>)
        requires
            old(self).current <= old(self).tokens@.len(),
        ensures
            final(self).tokens == old(self).tokens,
            final(self).current <= final(self).tokens@.len(),
            match r {
                Ok(s) => p_if(toks(*old(self)), old(self).current as int) == Ok::<
                    (StmtV, int),
                    ParseError,
                >((s@, final(self).current as int)) && old(self).current < final(self).current,
                Err(pe) => p_if(toks(*old(self)), old(self).current as int) == Err::<
                    (StmtV, int),
                    ParseError,
                >(pe),
            },
        decreases old(self).tokens@.len() - old(self).current, 34int,
    {
        proof {
            reveal(p_if);
            lemma_view_tokens_index(self.tokens@);
            assert(self.tokens.len() == self.tokens@.len());
        }
        match self.consume(Token::LeftParen) {
            Ok(()) => (),
            Err(pe) => {
                return Err(pe);
            },
        }
        let condition = match self.expression() {
            Ok(c) => c,
            Err(pe) => {
                return Err(pe);
            },
        };
        match self.consume(Token::RightParen) {
            Ok(()) => (),
            Err(pe) => {
                return Err(pe);
            },
        }
        let then_branch = match self.statement() {
            Ok(s) => s,
            Err(pe) => {
                return Err(pe);
            },
        };
        if self.at_token(&Token::Else) {
            self.current = self.current + 1;
            let else_branch = match self.statement() {
                Ok(s) => s,
                Err(pe) => {
                    return Err(pe);
                },
            };
            Ok(
                Stmt::If {
                    condition: Box::new(condition),
                    then_branch: Box::new(then_branch),
                    else_branch: Some(Box::new(else_branch)),
                },
            )
        } else {
            Ok(
                Stmt::If {
                    condition: Box::new(condition),
                    then_branch: Box::new(then_branch),
                    else_branch: None,
                },
            )
        }
    }

    /// See `p_while`.
    #[verifier::rlimit(50)]
    #[verifier::spinoff_prover]
    pub fn while_stmt(&mut self) -> (r: Result<Stmt, ParseError>)
        requires
            old(self).current <= old(self).tokens@.len(),
        ensures
            final(self).tokens == old(self).tokens,
            final(self).current <= final(self).tokens@.len(),
            match r {
                Ok(s) => p_while(toks(*old(self)), old(self).current as int) == Ok::<
                    (StmtV, int),
                    ParseError,
                >((s@, final(self).current as int)) && old(self).current < final(self).current,
                Err(pe) => p_while(toks(*old(self)), old(self).current as int) == Err::<
                    (StmtV, int),
                    ParseError,
                >(pe),
            },
        decreases old(self).tokens@.len() - old(self).current, 34int,
    {
        proof {
            reveal(p_while);
            lemma_view_tokens_index(self.tokens@);
            assert(self.tokens.len() == self.tokens@.len());
        }
        match self.consume(Token::LeftParen) {
            Ok(()) => (),
            Err(pe) => {
                return Err(pe);
            },
        }
        let condition = match self.expression() {
            Ok(c) => c,
            Err(pe) => {
                return Err(pe);
            },
        };
        match self.consume(Token::RightParen) {
            Ok(()) => (),
            Err(pe) => {
                return Err(pe);
            },
        }
        let body = match self.statement() {
            Ok(s) => s,
            Err(pe) => {
                return Err(pe);
            },
        };
        Ok(Stmt::While { condition: Box::new(condition), body: Box::new(body) })
    }

    /// See `p_statement`.
    #[verifier::rlimit(50)]
    #[verifier::spinoff_prover]
    pub fn statement(&mut self) -> (r: Result<Stmt, ParseError>)
        requires
            old(self).current <= old(self).tokens@.len(),
        ensures
            final(self).tokens == old(self).tokens,
            final(self).current <= final(self).tokens@.len(),
            match r {
                Ok(s) => p_statement(toks(*old(self)), old(self).current as int) == Ok::<
                    (StmtV, int),
                    ParseError,
                >((s@, final(self).current as int)) && old(self).current < final(self).current,
                Err(pe) => p_statement(toks(*old(self)), old(self).current as int) == Err::<
                    (StmtV, int),
                    ParseError,
                >(pe),
            },
        decreases old(self).tokens@.len() - old(self).current, 38int,
    {
        proof {
            reveal(p_statement);
            lemma_view_tokens_index(self.tokens@);
            assert(self.tokens.len() == self.tokens@.len());
        }
        if self.at_token(&Token::For) {
            self.current = self.current + 1;
            self.for_stmt()
        } else if self.at_token(&Token::If) {
            self.current = self.current + 1;
            self.if_stmt()
        } else if self.at_token(&Token::Print) {
            self.current = self.current + 1;
            self.print()
        } else if self.at_token(&Token::Return) {
            self.current = self.current + 1;
            self.return_stmt()
        } else if self.at_token(&Token::While) {
            self.current = self.current + 1;
            self.while_stmt()
        } else if self.at_token(&Token::LeftBrace) {
            self.current = self.current + 1;
            match self.block() {
                Ok(stmts) => Ok(Stmt::Block(stmts)),
                Err(pe) => Err(pe),
            }
        } else {
            self.expr_stmt()
        }
    }

    /// See `p_declaration`.
    #[verifier::rlimit(50)]
    #[verifier::spinoff_prover]
    pub fn delaration(&mut self) -> (r: Result<Stmt, ParseError>)
        requires
            old(self).current <= old(self).tokens@.len(),
        ensures
            final(self).tokens == old(self).tokens,
            final(self).current <= final(self).tokens@.len(),
            match r {
                Ok(s) => p_declaration(toks(*old(self)), old(self).current as int) == Ok::<
                    (StmtV, int),
                    ParseError,
                >((s@, final(self).current as int)) && old(self).current < final(self).current,
                Err(pe) => p_declaration(toks(*old(self)), old(self).current as int) == Err::<
                    (StmtV, int),
                    ParseError,
                >(pe),
            },
        decreases old(self).tokens@.len() - old(self).current, 39int,
    {
        proof {
            reveal(p_declaration);
            lemma_view_tokens_index(self.tokens@);
            assert(self.tokens.len() == self.tokens@.len());
        }
        if self.at_token(&Token::Fun) {
            self.current = self.current + 1;
            self.func_decl("function")
        } else if self.at_token(&Token::Var) {
            self.current = self.current + 1;
            self.var_decl()
        } else {
            self.statement()
        }
    }

    /// Parses the whole token stream into a program, exactly as `p_parse`
    /// describes it.
    #[verifier::rlimit(50)]
    #[verifier::spinoff_prover]
    #[verifier::loop_isolation(false)]
    pub fn parse(&mut self) -> (r: Result<Vec<Stmt>, ParseError>)
        requires
            old(self).current <= old(self).tokens@.len(),
        ensures
            final(self).tokens == old(self).tokens,
            final(self).current <= final(self).tokens@.len(),
            match r {
                Ok(stmts) => p_parse(toks(*old(self)), old(self).current as int) == Ok::<
                    Seq<StmtV>,
                    ParseError,
                >(view_stmts(stmts@)),
                Err(pe) => p_parse(toks(*old(self)), old(self).current as int) == Err::<
                    Seq<StmtV>,
                    ParseError,
                >(pe),
            },
        decreases old(self).tokens@.len() - old(self).current, 41int,
    {
        proof {
            reveal(p_parse);
            lemma_view_tokens_index(self.tokens@);
            assert(self.tokens.len() == self.tokens@.len());
        }
        let ghost t = toks(*old(self));
        let ghost i0 = old(self).current as int;
        let mut stmts: Vec<Stmt> = Vec::new();
        proof {
            assert(view_stmts(stmts@) =~= Seq::<StmtV>::empty());
        }
        loop
            invariant
                self.tokens == old(self).tokens,
                i0 <= self.current <= self.tokens@.len(),
                match p_parse(t, self.current as int) {
                    Ok(rest) => p_parse(t, i0) == Ok::<Seq<StmtV>, ParseError>(
                        view_stmts(stmts@) + rest,
                    ),
                    Err(e) => p_parse(t, i0) == Err::<Seq<StmtV>, ParseError>(e),
                },
            decreases self.tokens@.len() - self.current,
        {
            proof {
                reveal(p_parse);
            }
            if self.current >= self.tokens.len() {
                proof {
                    assert(view_stmts(stmts@) + Seq::<StmtV>::empty() =~= view_stmts(stmts@));
                }
                return Ok(stmts);
            }
            let d = match self.delaration() {
                Ok(d) => d,
                Err(pe) => {
                    return Err(pe);
                },
            };
            let ghost stmts0 = stmts@;
            let ghost drest = p_parse(t, self.current as int);
            stmts.push(d);
            proof {
                assert(stmts@.drop_last() =~= stmts0);
                assert(view_stmts(stmts@) == view_stmts(stmts0).push(d@));
                match drest {
                    Ok(rest) => {
                        assert(view_stmts(stmts0) + (seq![d@] + rest) =~= view_stmts(stmts@)
                            + rest);
                    },
                    Err(e) => {},
                }
            }
        }
    }
}

} // verus!
