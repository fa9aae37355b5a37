//! The abstract syntax tree.
//!
//! Expressions and statements are tagged variants, immutable after
//! construction.  Each node type has a mathematical view (`ExprV`, `StmtV`)
//! in which strings are character sequences and lists are sequences; the
//! parser's and the evaluator's contracts are stated over these views.

use vstd::prelude::*;

verus! {

use crate::lexer::Operator;
use crate::number::Number;

/// A literal value in the source program.
#[derive(Debug, PartialEq)]
pub enum Literal {
    Num(Number),
    Bool(bool),
    Str(String),
    Nil,
}

/// A function declaration: name, parameter names, and the body block's
/// statements.
#[derive(Debug, PartialEq)]
pub struct FunDecl {
    pub name: String,
    pub parameters: Vec<String>,
    pub body: Vec<Stmt>,
}

/// An expression node.
#[derive(Debug, PartialEq)]
pub enum Expr {
    L(Literal),
    Unary { operator: Operator, right: Box<Expr> },
    Binary { left: Box<Expr>, operator: Operator, right: Box<Expr> },
    Call { callee: Box<Expr>, arguments: Vec<Expr> },
    Logical { left: Box<Expr>, operator: Operator, right: Box<Expr> },
    Grouping { expression: Box<Expr> },
    Assign { name: String, value: Box<Expr> },
    Variable { name: String },
}

/// A statement node.  `for` loops have no variant: the parser desugars them
/// into a block holding the initializer and a `While`.
#[derive(Debug, PartialEq)]
pub enum Stmt {
    Expr(Box<Expr>),
    Print(Box<Expr>),
    Variable { name: String, initializer: Option<Box<Expr>> },
    Block(Vec<Stmt>),
    If { condition: Box<Expr>, then_branch: Box<Stmt>, else_branch: Option<Box<Stmt>> },
    While { condition: Box<Expr>, body: Box<Stmt> },
    Function(FunDecl),
    Return(Option<Box<Expr>>),
}

/// The mathematical view of a literal.
#[verifier::ext_equal]
pub enum LiteralV {
    Num(Number),
    Bool(bool),
    Str(Seq<char>),
    Nil,
}

/// The mathematical view of an expression.
#[verifier::ext_equal]
pub enum ExprV {
    L(LiteralV),
    Unary { operator: Operator, right: Box<ExprV> },
    Binary { left: Box<ExprV>, operator: Operator, right: Box<ExprV> },
    Call { callee: Box<ExprV>, arguments: Seq<ExprV> },
    Logical { left: Box<ExprV>, operator: Operator, right: Box<ExprV> },
    Grouping { expression: Box<ExprV> },
    Assign { name: Seq<char>, value: Box<ExprV> },
    Variable { name: Seq<char> },
}

/// The mathematical view of a function declaration.
#[verifier::ext_equal]
pub struct FunDeclV {
    pub name: Seq<char>,
    pub parameters: Seq<Seq<char>>,
    pub body: Seq<StmtV>,
}

/// The mathematical view of a statement.
#[verifier::ext_equal]
pub enum StmtV {
    Expr(Box<ExprV>),
    Print(Box<ExprV>),
    Variable { name: Seq<char>, initializer: Option<Box<ExprV>> },
    Block(Seq<StmtV>),
    If { condition: Box<ExprV>, then_branch: Box<StmtV>, else_branch: Option<Box<StmtV>> },
    While { condition: Box<ExprV>, body: Box<StmtV> },
    Function(FunDeclV),
    Return(Option<Box<ExprV>>),
}

impl View for Literal {
    type V = LiteralV;

    open spec fn view(&self) -> LiteralV {
        match self {
            Literal::Num(n) => LiteralV::Num(*n),
            Literal::Bool(b) => LiteralV::Bool(*b),
            Literal::Str(s) => LiteralV::Str(s@),
            Literal::Nil => LiteralV::Nil,
        }
    }
}

/// The views of a sequence of expressions.
pub open spec fn view_exprs(s: Seq<Expr>) -> Seq<ExprV>
    decreases s,
{
    if s.len() == 0 {
        Seq::empty()
    } else {
        view_exprs(s.drop_last()).push(s.last()@)
    }
}

/// The views of a sequence of statements.
pub open spec fn view_stmts(s: Seq<Stmt>) -> Seq<StmtV>
    decreases s,
{
    if s.len() == 0 {
        Seq::empty()
    } else {
        view_stmts(s.drop_last()).push(s.last()@)
    }
}

/// The views of a sequence of names.
pub open spec fn view_strings(s: Seq<String>) -> Seq<Seq<char>> {
    s.map_values(|x: String| x@)
}

impl View for Expr {
    type V = ExprV;

    open spec fn view(&self) -> ExprV
        decreases self,
    {
        match self {
            Expr::L(l) => ExprV::L(l@),
            Expr::Unary { operator, right } => ExprV::Unary {
                operator: *operator,
                right: Box::new((**right)@),
            },
            Expr::Binary { left, operator, right } => ExprV::Binary {
                left: Box::new((**left)@),
                operator: *operator,
                right: Box::new((**right)@),
            },
            Expr::Call { callee, arguments } => ExprV::Call {
                callee: Box::new((**callee)@),
                arguments: view_exprs(arguments@),
            },
            Expr::Logical { left, operator, right } => ExprV::Logical {
                left: Box::new((**left)@),
                operator: *operator,
                right: Box::new((**right)@),
            },
            Expr::Grouping { expression } => ExprV::Grouping {
                expression: Box::new((**expression)@),
            },
            Expr::Assign { name, value } => ExprV::Assign {
                name: name@,
                value: Box::new((**value)@),
            },
            Expr::Variable { name } => ExprV::Variable { name: name@ },
        }
    }
}

impl View for FunDecl {
    type V = FunDeclV;

    open spec fn view(&self) -> FunDeclV
        decreases self,
    {
        FunDeclV {
            name: self.name@,
            parameters: view_strings(self.parameters@),
            body: view_stmts(self.body@),
        }
    }
}

impl View for Stmt {
    type V = StmtV;

    open spec fn view(&self) -> StmtV
        decreases self,
    {
        match self {
            Stmt::Expr(e) => StmtV::Expr(Box::new((**e)@)),
            Stmt::Print(e) => StmtV::Print(Box::new((**e)@)),
            Stmt::Variable { name, initializer } => StmtV::Variable {
                name: name@,
                initializer: match initializer {
                    Some(e) => Some(Box::new((**e)@)),
                    None => None,
                },
            },
            Stmt::Block(stmts) => StmtV::Block(view_stmts(stmts@)),
            Stmt::If { condition, then_branch, else_branch } => StmtV::If {
                condition: Box::new((**condition)@),
                then_branch: Box::new((**then_branch)@),
                else_branch: match else_branch {
                    Some(s) => Some(Box::new((**s)@)),
                    None => None,
                },
            },
            Stmt::While { condition, body } => StmtV::While {
                condition: Box::new((**condition)@),
                body: Box::new((**body)@),
            },
            Stmt::Function(d) => StmtV::Function(d@),
            Stmt::Return(e) => StmtV::Return(
                match e {
                    Some(e) => Some(Box::new((**e)@)),
                    None => None,
                },
            ),
        }
    }
}

/// Every element's view is the corresponding element of `view_exprs`.
pub proof fn lemma_view_exprs_index(s: Seq<Expr>)
    ensures
        view_exprs(s).len() == s.len(),
        forall|i: int| 0 <= i < s.len() ==> #[trigger] view_exprs(s)[i] == s[i]@,
    decreases s,
{
    if s.len() > 0 {
        lemma_view_exprs_index(s.drop_last());
        assert(view_exprs(s) == view_exprs(s.drop_last()).push(s.last()@));
        assert forall|i: int| 0 <= i < s.len() implies #[trigger] view_exprs(s)[i] == s[i]@ by {
            if i < s.len() - 1 {
                assert(s.drop_last()[i] == s[i]);
            } else {
                assert(s[i] == s.last());
            }
        }
    }
}

/// Every element's view is the corresponding element of `view_stmts`.
pub proof fn lemma_view_stmts_index(s: Seq<Stmt>)
    ensures
        view_stmts(s).len() == s.len(),
        forall|i: int| 0 <= i < s.len() ==> #[trigger] view_stmts(s)[i] == s[i]@,
    decreases s,
{
    if s.len() > 0 {
        lemma_view_stmts_index(s.drop_last());
        assert(view_stmts(s) == view_stmts(s.drop_last()).push(s.last()@));
        assert forall|i: int| 0 <= i < s.len() implies #[trigger] view_stmts(s)[i] == s[i]@ by {
            if i < s.len() - 1 {
                assert(s.drop_last()[i] == s[i]);
            } else {
                assert(s[i] == s.last());
            }
        }
    }
}

impl Clone for Literal {
    fn clone(&self) -> (res: Self)
        ensures
            res@ == self@,
    {
        match self {
            Literal::Num(n) => Literal::Num(*n),
            Literal::Bool(b) => Literal::Bool(*b),
            Literal::Str(s) => Literal::Str(s.clone()),
            Literal::Nil => Literal::Nil,
        }
    }
}

impl Clone for Expr {
    /// A clone denotes the same expression.
    fn clone(&self) -> (res: Self)
        ensures
            res@ == self@,
        decreases self,
    {
        match self {
            Expr::L(l) => Expr::L(l.clone()),
            Expr::Unary { operator, right } => Expr::Unary {
                operator: *operator,
                right: Box::new((**right).clone()),
            },
            Expr::Binary { left, operator, right } => Expr::Binary {
                left: Box::new((**left).clone()),
                operator: *operator,
                right: Box::new((**right).clone()),
            },
            Expr::Call { callee, arguments } => {
                let res_args = clone_exprs(arguments);
                Expr::Call { callee: Box::new((**callee).clone()), arguments: res_args }
            },
            Expr::Logical { left, operator, right } => Expr::Logical {
                left: Box::new((**left).clone()),
                operator: *operator,
                right: Box::new((**right).clone()),
            },
            Expr::Grouping { expression } => Expr::Grouping {
                expression: Box::new((**expression).clone()),
            },
            Expr::Assign { name, value } => Expr::Assign {
                name: name.clone(),
                value: Box::new((**value).clone()),
            },
            Expr::Variable { name } => Expr::Variable { name: name.clone() },
        }
    }
}

/// Clones a list of expressions, element by element.
fn clone_exprs(v: &Vec<Expr>) -> (res: Vec<Expr>)
    ensures
        view_exprs(res@) == view_exprs(v@),
    decreases v,
{
    let mut res: Vec<Expr> = Vec::new();
    let mut i: usize = 0;
    proof {
        lemma_view_exprs_index(v@);
    }
    while i < v.len()
        invariant
            i <= v.len(),
            res@.len() == i,
            forall|j: int| 0 <= j < i ==> res@[j]@ == #[trigger] v@[j]@,
        decreases v.len() - i,
    {
        let e = &v[i];
        proof {
            assert(decreases_to!(v => v@));
            assert(decreases_to!(v@ => v@[i as int]));
        }
        res.push(e.clone());
        i = i + 1;
    }
    proof {
        lemma_view_exprs_index(res@);
        assert(view_exprs(res@) =~= view_exprs(v@));
    }
    res
}

/// Clones a list of statements, element by element.
fn clone_stmts(v: &Vec<Stmt>) -> (res: Vec<Stmt>)
    ensures
        view_stmts(res@) == view_stmts(v@),
    decreases v,
{
    let mut res: Vec<Stmt> = Vec::new();
    let mut i: usize = 0;
    proof {
        lemma_view_stmts_index(v@);
    }
    while i < v.len()
        invariant
            i <= v.len(),
            res@.len() == i,
            forall|j: int| 0 <= j < i ==> res@[j]@ == #[trigger] v@[j]@,
        decreases v.len() - i,
    {
        let s = &v[i];
        proof {
            assert(decreases_to!(v => v@));
            assert(decreases_to!(v@ => v@[i as int]));
        }
        res.push(s.clone());
        i = i + 1;
    }
    proof {
        lemma_view_stmts_index(res@);
        assert(view_stmts(res@) =~= view_stmts(v@));
    }
    res
}

/// Clones a list of names, element by element.
fn clone_strings(v: &Vec<String>) -> (res: Vec<String>)
    ensures
        view_strings(res@) == view_strings(v@),
{
    let mut res: Vec<String> = Vec::new();
    let mut i: usize = 0;
    while i < v.len()
        invariant
            i <= v.len(),
            res@.len() == i,
            forall|j: int| 0 <= j < i ==> res@[j]@ == #[trigger] v@[j]@,
        decreases v.len() - i,
    {
        res.push(v[i].clone());
        i = i + 1;
    }
    proof {
        assert(view_strings(res@) =~= view_strings(v@));
    }
    res
}

impl Clone for FunDecl {
    /// A clone denotes the same declaration.
    fn clone(&self) -> (res: Self)
        ensures
            res@ == self@,
        decreases self,
    {
        let res = FunDecl {
            name: self.name.clone(),
            parameters: clone_strings(&self.parameters),
            body: clone_stmts(&self.body),
        };
        proof {
            assert(res@ =~= self@);
        }
        res
    }
}

impl Clone for Stmt {
    /// A clone denotes the same statement.
    fn clone(&self) -> (res: Self)
        ensures
            res@ == self@,
        decreases self,
    {
        match self {
            Stmt::Expr(e) => Stmt::Expr(Box::new((**e).clone())),
            Stmt::Print(e) => Stmt::Print(Box::new((**e).clone())),
            Stmt::Variable { name, initializer } => Stmt::Variable {
                name: name.clone(),
                initializer: match initializer {
                    Some(e) => Some(Box::new((**e).clone())),
                    None => None,
                },
            },
            Stmt::Block(stmts) => Stmt::Block(clone_stmts(stmts)),
            Stmt::If { condition, then_branch, else_branch } => Stmt::If {
                condition: Box::new((**condition).clone()),
                then_branch: Box::new((**then_branch).clone()),
                else_branch: match else_branch {
                    Some(s) => Some(Box::new((**s).clone())),
                    None => None,
                },
            },
            Stmt::While { condition, body } => Stmt::While {
                condition: Box::new((**condition).clone()),
                body: Box::new((**body).clone()),
            },
            Stmt::Function(d) => Stmt::Function(d.clone()),
            Stmt::Return(e) => Stmt::Return(
                match e {
                    Some(e) => Some(Box::new((**e).clone())),
                    None => None,
                },
            ),
        }
    }
}

} // verus!
