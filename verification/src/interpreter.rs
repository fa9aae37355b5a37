//! The tree-walking evaluator.
//!
//! One `Interpreter` owns the scope arena, the index of the current scope,
//! and the lines printed so far.  Statement execution yields an explicit
//! outcome — `Normal` or `Return(value)` — threaded through block and call
//! execution, so an early `return` unwinds exactly one call frame.  Every
//! error is a typed `RuntimeError`; the evaluator never panics.
//!
//! Evaluation is bounded by a fuel parameter: each expression node,
//! statement, loop iteration and call consumes fuel, and a run that
//! exhausts its budget stops with `Stop::OutOfFuel`.  The spec functions
//! `eval_expr`, `exec_stmt` and their companions define the language's
//! big-step semantics mathematically; each evaluator method returns exactly
//! what they denote.

use vstd::prelude::*;

verus! {

use crate::ast::Expr;
use crate::ast::ExprV;
use crate::ast::Literal;
use crate::ast::LiteralV;
use crate::ast::Stmt;
use crate::ast::StmtV;
use crate::ast::FunDecl;
use crate::ast::FunDeclV;
use crate::ast::view_exprs;
use crate::ast::view_stmts;
use crate::ast::lemma_view_exprs_index;
use crate::ast::lemma_view_stmts_index;
use crate::callable::Callable;
use crate::callable::CallableV;
use crate::callable::Clock;
use crate::callable::Function;
use crate::callable::FunctionV;
use crate::callable::now_seconds;
use crate::callable::spec_arity;
use crate::environment::Environment;
use crate::environment::Object;
use crate::environment::ObjectV;
use crate::environment::ScopeV;
use crate::environment::defining_scope;
use crate::environment::env_wf;
use crate::environment::lookup_chain;
use crate::lexer::Operator;
use crate::number::Number;
use crate::number::spec_add;
use crate::number::spec_div;
use crate::number::spec_mul;
use crate::number::spec_neg;
use crate::number::spec_number_str;
use crate::number::spec_sub;
use crate::number::spec_val_eq;
use crate::number::spec_val_lt;

/// A runtime error.  The evaluator reports the first one and stops.
#[derive(Clone, Copy, Debug, PartialEq, Eq, Structural)]
pub enum RuntimeError {
    /// An operator applied to operand types it does not accept.
    TypeMismatch,
    /// A read or assignment of a name no reachable scope binds.
    UndefinedVariable,
    /// A call whose argument count differs from the callable's arity.
    ArityMismatch,
    /// A call whose callee is not a callable value.
    NotCallable,
    /// A division whose right operand is zero.
    DivisionByZero,
    /// An exact numeric result that does not fit the number
    /// representation.
    Overflow,
}

/// Why a run stopped early: a runtime error, or an exhausted fuel budget.
#[derive(Clone, Copy, Debug, PartialEq, Eq, Structural)]
pub enum Stop {
    Fail(RuntimeError),
    OutOfFuel,
}

/// The outcome of executing one statement.
#[derive(Debug)]
pub enum Signal {
    Normal,
    Return(Object),
}

/// The mathematical view of a statement outcome.
#[verifier::ext_equal]
pub enum SignalV {
    Normal,
    Return(ObjectV),
}

impl View for Signal {
    type V = SignalV;

    open spec fn view(&self) -> SignalV {
        match self {
            Signal::Normal => SignalV::Normal,
            Signal::Return(o) => SignalV::Return(o@),
        }
    }
}

/// The mathematical view of an evaluator: the scope arena, the current
/// scope, the printed lines, and the clock reading taken when the
/// evaluator was created.
#[verifier::ext_equal]
pub struct StateV {
    pub scopes: Seq<ScopeV>,
    pub current: int,
    pub output: Seq<Seq<char>>,
    pub clock: i64,
}

/// A well-formed state: a well-formed arena and a current scope inside it.
pub open spec fn st_wf(st: StateV) -> bool {
    &&& env_wf(st.scopes)
    &&& 0 <= st.current < st.scopes.len()
}

/// The result of evaluating an expression.
#[verifier::ext_equal]
pub enum EvalR {
    Val(StateV, ObjectV),
    Fault(RuntimeError),
    Spent,
}

/// The result of evaluating a list of argument expressions.
#[verifier::ext_equal]
pub enum ArgsR {
    Vals(StateV, Seq<ObjectV>),
    Fault(RuntimeError),
    Spent,
}

/// The result of executing a statement.
#[verifier::ext_equal]
pub enum ExecR {
    Done(StateV, SignalV),
    Fault(RuntimeError),
    Spent,
}

/// The value of a unary operator applied to a value: `-` negates a
/// number, `!` complements a boolean; anything else is a type mismatch.
pub open spec fn spec_unop(op: Operator, v: ObjectV) -> Result<ObjectV, RuntimeError> {
    match (op, v) {
        (Operator::Minus, ObjectV::L(LiteralV::Num(n))) => if n.den < 1 {
            Err(RuntimeError::Overflow)
        } else {
            match spec_neg(n) {
                Some(m) => Ok(ObjectV::L(LiteralV::Num(m))),
                None => Err(RuntimeError::Overflow),
            }
        },
        (Operator::Not, ObjectV::L(LiteralV::Bool(b))) => Ok(ObjectV::L(LiteralV::Bool(!b))),
        _ => Err(RuntimeError::TypeMismatch),
    }
}

/// The value of a binary operator: strings support only `+`
/// (concatenation, both operands strings); numbers support the four
/// arithmetic operators and the six comparisons; every other combination
/// is a type mismatch.  No implicit coercion occurs.
pub open spec fn spec_binop(op: Operator, l: ObjectV, r: ObjectV) -> Result<
    ObjectV,
    RuntimeError,
> {
    match (l, r) {
        (ObjectV::L(LiteralV::Str(a)), ObjectV::L(LiteralV::Str(b))) => match op {
            Operator::Plus => Ok(ObjectV::L(LiteralV::Str(a + b))),
            _ => Err(RuntimeError::TypeMismatch),
        },
        (ObjectV::L(LiteralV::Num(a)), ObjectV::L(LiteralV::Num(b))) => if a.den < 1 || b.den
            < 1 {
            Err(RuntimeError::Overflow)
        } else {
            match op {
            Operator::Minus => match spec_sub(a, b) {
                Some(c) => Ok(ObjectV::L(LiteralV::Num(c))),
                None => Err(RuntimeError::Overflow),
            },
            Operator::Plus => match spec_add(a, b) {
                Some(c) => Ok(ObjectV::L(LiteralV::Num(c))),
                None => Err(RuntimeError::Overflow),
            },
            Operator::Slash => if b.num == 0 {
                Err(RuntimeError::DivisionByZero)
            } else {
                match spec_div(a, b) {
                    Some(c) => Ok(ObjectV::L(LiteralV::Num(c))),
                    None => Err(RuntimeError::Overflow),
                }
            },
            Operator::Star => match spec_mul(a, b) {
                Some(c) => Ok(ObjectV::L(LiteralV::Num(c))),
                None => Err(RuntimeError::Overflow),
            },
            Operator::NotEqual => Ok(ObjectV::L(LiteralV::Bool(!spec_val_eq(a, b)))),
            Operator::Equal => Ok(ObjectV::L(LiteralV::Bool(spec_val_eq(a, b)))),
            Operator::GreaterThanOrEqual => Ok(
                ObjectV::L(LiteralV::Bool(!spec_val_lt(a, b))),
            ),
            Operator::LessThanOrEqual => Ok(ObjectV::L(LiteralV::Bool(!spec_val_lt(b, a)))),
            Operator::GreaterThan => Ok(ObjectV::L(LiteralV::Bool(spec_val_lt(b, a)))),
            Operator::LessThan => Ok(ObjectV::L(LiteralV::Bool(spec_val_lt(a, b)))),
            _ => Err(RuntimeError::TypeMismatch),
            }
        },
        _ => Err(RuntimeError::TypeMismatch),
    }
}

/// The value of a logical operator: both operands must already be
/// booleans, and both sides are evaluated before this is applied, so
/// there is no short-circuiting.
pub open spec fn spec_logical(op: Operator, l: ObjectV, r: ObjectV) -> Result<
    ObjectV,
    RuntimeError,
> {
    match (l, r) {
        (ObjectV::L(LiteralV::Bool(a)), ObjectV::L(LiteralV::Bool(b))) => match op {
            Operator::And => Ok(ObjectV::L(LiteralV::Bool(a && b))),
            Operator::Or => Ok(ObjectV::L(LiteralV::Bool(a || b))),
            _ => Err(RuntimeError::TypeMismatch),
        },
        _ => Err(RuntimeError::TypeMismatch),
    }
}

/// The printed form of a value: numbers in decimal form, booleans as
/// `true`/`false`, strings quoted, nil as `nil`, callables as
/// `<native fn clock>` or `<fn name>`.
pub open spec fn spec_obj_text(o: ObjectV) -> Seq<char> {
    match o {
        ObjectV::L(LiteralV::Num(n)) => if n.den < 1 {
            Seq::empty()
        } else {
            spec_number_str(n)
        },
        ObjectV::L(LiteralV::Bool(b)) => if b {
            seq!['t', 'r', 'u', 'e']
        } else {
            seq!['f', 'a', 'l', 's', 'e']
        },
        ObjectV::L(LiteralV::Str(s)) => seq!['"'] + s + seq!['"'],
        ObjectV::L(LiteralV::Nil) => seq!['n', 'i', 'l'],
        ObjectV::C(CallableV::Native) => seq![
            '<',
            'n',
            'a',
            't',
            'i',
            'v',
            'e',
            ' ',
            'f',
            'n',
            ' ',
            'c',
            'l',
            'o',
            'c',
            'k',
            '>',
        ],
        ObjectV::C(CallableV::User(f)) => seq!['<', 'f', 'n', ' '] + f.declaration.name + seq![
            '>',
        ],
    }
}

/// The bindings of a fresh call frame: parameters bound positionally.
pub open spec fn params_map(params: Seq<Seq<char>>, args: Seq<ObjectV>) -> Map<
    Seq<char>,
    ObjectV,
>
    recommends
        params.len() == args.len(),
    decreases params,
{
    if params.len() == 0 || args.len() == 0 {
        Map::empty()
    } else {
        params_map(params.drop_last(), args.drop_last()).insert(params.last(), args.last())
    }
}

/// The state after binding `name` to `v` in scope `d`.
pub open spec fn st_define(st: StateV, d: int, name: Seq<char>, v: ObjectV) -> StateV
    recommends
        0 <= d < st.scopes.len(),
{
    StateV {
        scopes: st.scopes.update(
            d,
            ScopeV { parent: st.scopes[d].parent, bindings: st.scopes[d].bindings.insert(name, v) },
        ),
        ..st
    }
}

/// Evaluation of an expression, big-step, bounded by `fuel`.
pub open spec fn eval_expr(st: StateV, e: ExprV, fuel: nat) -> EvalR
    decreases fuel, 1int,
{
    if fuel == 0 {
        EvalR::Spent
    } else {
        let f = (fuel - 1) as nat;
        match e {
            ExprV::L(lit) => EvalR::Val(st, ObjectV::L(lit)),
            ExprV::Grouping { expression } => eval_expr(st, *expression, f),
            ExprV::Unary { operator, right } => match eval_expr(st, *right, f) {
                EvalR::Val(st1, v) => match spec_unop(operator, v) {
                    Ok(r) => EvalR::Val(st1, r),
                    Err(er) => EvalR::Fault(er),
                },
                other => other,
            },
            ExprV::Binary { left, operator, right } => match eval_expr(st, *left, f) {
                EvalR::Val(st1, lv) => match eval_expr(st1, *right, f) {
                    EvalR::Val(st2, rv) => match spec_binop(operator, lv, rv) {
                        Ok(r) => EvalR::Val(st2, r),
                        Err(er) => EvalR::Fault(er),
                    },
                    other => other,
                },
                other => other,
            },
            ExprV::Logical { left, operator, right } => match eval_expr(st, *left, f) {
                EvalR::Val(st1, lv) => match eval_expr(st1, *right, f) {
                    EvalR::Val(st2, rv) => match spec_logical(operator, lv, rv) {
                        Ok(r) => EvalR::Val(st2, r),
                        Err(er) => EvalR::Fault(er),
                    },
                    other => other,
                },
                other => other,
            },
            ExprV::Assign { name, value } => match eval_expr(st, *value, f) {
                EvalR::Val(st1, v) => match defining_scope(st1.scopes, st1.current, name) {
                    Some(d) => EvalR::Val(st_define(st1, d, name, v), v),
                    None => EvalR::Fault(RuntimeError::UndefinedVariable),
                },
                other => other,
            },
            ExprV::Variable { name } => match lookup_chain(st.scopes, st.current, name) {
                Some(v) => EvalR::Val(st, v),
                None => EvalR::Fault(RuntimeError::UndefinedVariable),
            },
            ExprV::Call { callee, arguments } => match eval_expr(st, *callee, f) {
                EvalR::Val(st1, cv) => match eval_args(st1, arguments, 0, Seq::empty(), f) {
                    ArgsR::Vals(st2, argv) => spec_apply(st2, cv, argv, f),
                    ArgsR::Fault(er) => EvalR::Fault(er),
                    ArgsR::Spent => EvalR::Spent,
                },
                other => other,
            },
        }
    }
}

/// Evaluation of the argument expressions from index `i` on, strictly
/// left to right; `acc` holds the values already evaluated.
pub open spec fn eval_args(st: StateV, args: Seq<ExprV>, i: int, acc: Seq<ObjectV>, fuel: nat) -> ArgsR
    decreases fuel, 0int,
{
    if fuel == 0 {
        ArgsR::Spent
    } else if i < 0 || i >= args.len() {
        ArgsR::Vals(st, acc)
    } else {
        match eval_expr(st, args[i], (fuel - 1) as nat) {
            EvalR::Val(st1, v) => eval_args(st1, args, i + 1, acc.push(v), (fuel - 1) as nat),
            EvalR::Fault(er) => ArgsR::Fault(er),
            EvalR::Spent => ArgsR::Spent,
        }
    }
}

/// Application of a callable to already-evaluated arguments.  The arity
/// check precedes any scope creation and any body execution, so a
/// mismatched call has no effect beyond the evaluation of its arguments.
pub open spec fn spec_apply(st: StateV, cv: ObjectV, argv: Seq<ObjectV>, fuel: nat) -> EvalR
    decreases fuel, 2int,
{
    if fuel == 0 {
        EvalR::Spent
    } else {
        match cv {
            ObjectV::C(c) => if argv.len() != spec_arity(c) {
                EvalR::Fault(RuntimeError::ArityMismatch)
            } else {
                match c {
                    CallableV::Native => EvalR::Val(
                        st,
                        ObjectV::L(LiteralV::Num(Number { num: st.clock, den: 1 })),
                    ),
                    CallableV::User(fv) => if !(0 <= fv.closure < st.scopes.len()) {
                        EvalR::Fault(RuntimeError::NotCallable)
                    } else {
                        let frame = ScopeV {
                            parent: Some(fv.closure),
                            bindings: params_map(fv.declaration.parameters, argv),
                        };
                        let st_in = StateV {
                            scopes: st.scopes.push(frame),
                            current: st.scopes.len() as int,
                            ..st
                        };
                        match exec_stmts(st_in, fv.declaration.body, 0, (fuel - 1) as nat) {
                            ExecR::Done(st3, sig) => {
                                let ret = match sig {
                                    SignalV::Return(v) => v,
                                    SignalV::Normal => ObjectV::L(LiteralV::Nil),
                                };
                                EvalR::Val(StateV { current: st.current, ..st3 }, ret)
                            },
                            ExecR::Fault(er) => EvalR::Fault(er),
                            ExecR::Spent => EvalR::Spent,
                        }
                    },
                }
            },
            _ => EvalR::Fault(RuntimeError::NotCallable),
        }
    }
}

/// Execution of one statement, big-step, bounded by `fuel`.
pub open spec fn exec_stmt(st: StateV, s: StmtV, fuel: nat) -> ExecR
    decreases fuel, 1int,
{
    if fuel == 0 {
        ExecR::Spent
    } else {
        let f = (fuel - 1) as nat;
        match s {
            StmtV::Expr(e) => match eval_expr(st, *e, f) {
                EvalR::Val(st1, _) => ExecR::Done(st1, SignalV::Normal),
                EvalR::Fault(er) => ExecR::Fault(er),
                EvalR::Spent => ExecR::Spent,
            },
            StmtV::Print(e) => match eval_expr(st, *e, f) {
                EvalR::Val(st1, v) => ExecR::Done(
                    StateV { output: st1.output.push(spec_obj_text(v)), ..st1 },
                    SignalV::Normal,
                ),
                EvalR::Fault(er) => ExecR::Fault(er),
                EvalR::Spent => ExecR::Spent,
            },
            StmtV::Variable { name, initializer } => {
                let valr = match initializer {
                    Some(e) => eval_expr(st, *e, f),
                    None => EvalR::Val(st, ObjectV::L(LiteralV::Nil)),
                };
                match valr {
                    EvalR::Val(st1, v) => if 0 <= st1.current < st1.scopes.len() {
                        ExecR::Done(st_define(st1, st1.current, name, v), SignalV::Normal)
                    } else {
                        ExecR::Fault(RuntimeError::UndefinedVariable)
                    },
                    EvalR::Fault(er) => ExecR::Fault(er),
                    EvalR::Spent => ExecR::Spent,
                }
            },
            StmtV::Block(stmts) => {
                let child = ScopeV { parent: Some(st.current), bindings: Map::empty() };
                let st_in = StateV {
                    scopes: st.scopes.push(child),
                    current: st.scopes.len() as int,
                    ..st
                };
                match exec_stmts(st_in, stmts, 0, f) {
                    ExecR::Done(st1, sig) => ExecR::Done(
                        StateV { current: st.current, ..st1 },
                        sig,
                    ),
                    other => other,
                }
            },
            StmtV::If { condition, then_branch, else_branch } => match eval_expr(
                st,
                *condition,
                f,
            ) {
                EvalR::Val(st1, ObjectV::L(LiteralV::Bool(true))) => exec_stmt(
                    st1,
                    *then_branch,
                    f,
                ),
                EvalR::Val(st1, ObjectV::L(LiteralV::Bool(false))) => match else_branch {
                    Some(els) => exec_stmt(st1, *els, f),
                    None => ExecR::Done(st1, SignalV::Normal),
                },
                EvalR::Val(st1, _) => ExecR::Fault(RuntimeError::TypeMismatch),
                EvalR::Fault(er) => ExecR::Fault(er),
                EvalR::Spent => ExecR::Spent,
            },
            StmtV::While { condition, body } => match eval_expr(st, *condition, f) {
                EvalR::Val(st1, ObjectV::L(LiteralV::Bool(false))) => ExecR::Done(
                    st1,
                    SignalV::Normal,
                ),
                EvalR::Val(st1, ObjectV::L(LiteralV::Bool(true))) => match exec_stmt(
                    st1,
                    *body,
                    f,
                ) {
                    ExecR::Done(st2, SignalV::Normal) => exec_stmt(
                        st2,
                        StmtV::While { condition, body },
                        f,
                    ),
                    ExecR::Done(st2, SignalV::Return(v)) => ExecR::Done(
                        st2,
                        SignalV::Return(v),
                    ),
                    other => other,
                },
                EvalR::Val(st1, _) => ExecR::Fault(RuntimeError::TypeMismatch),
                EvalR::Fault(er) => ExecR::Fault(er),
                EvalR::Spent => ExecR::Spent,
            },
            StmtV::Function(fd) => {
                if 0 <= st.current < st.scopes.len() {
                    let fv = ObjectV::C(
                        CallableV::User(FunctionV { declaration: fd, closure: st.current }),
                    );
                    ExecR::Done(st_define(st, st.current, fd.name, fv), SignalV::Normal)
                } else {
                    ExecR::Fault(RuntimeError::UndefinedVariable)
                }
            },
            StmtV::Return(opt) => match opt {
                Some(e) => match eval_expr(st, *e, f) {
                    EvalR::Val(st1, v) => ExecR::Done(st1, SignalV::Return(v)),
                    EvalR::Fault(er) => ExecR::Fault(er),
                    EvalR::Spent => ExecR::Spent,
                },
                None => ExecR::Done(st, SignalV::Return(ObjectV::L(LiteralV::Nil))),
            },
        }
    }
}

/// Execution of the statements from index `i` on.  A pending `Return`
/// skips every remaining statement.
pub open spec fn exec_stmts(st: StateV, stmts: Seq<StmtV>, i: int, fuel: nat) -> ExecR
    decreases fuel, 0int,
{
    if fuel == 0 {
        ExecR::Spent
    } else if i < 0 || i >= stmts.len() {
        ExecR::Done(st, SignalV::Normal)
    } else {
        match exec_stmt(st, stmts[i], (fuel - 1) as nat) {
            ExecR::Done(st1, SignalV::Normal) => exec_stmts(st1, stmts, i + 1, (fuel - 1) as nat),
            ExecR::Done(st1, SignalV::Return(v)) => ExecR::Done(st1, SignalV::Return(v)),
            other => other,
        }
    }
}


/// The views of a sequence of values.
pub open spec fn view_objs(s: Seq<Object>) -> Seq<ObjectV>
    decreases s,
{
    if s.len() == 0 {
        Seq::empty()
    } else {
        view_objs(s.drop_last()).push(s.last()@)
    }
}

/// Every element's view is the corresponding element of `view_objs`.
pub proof fn lemma_view_objs_index(s: Seq<Object>)
    ensures
        view_objs(s).len() == s.len(),
        forall|i: int| 0 <= i < s.len() ==> #[trigger] view_objs(s)[i] == s[i]@,
    decreases s,
{
    if s.len() > 0 {
        lemma_view_objs_index(s.drop_last());
        assert(view_objs(s) == view_objs(s.drop_last()).push(s.last()@));
        assert forall|i: int| 0 <= i < s.len() implies #[trigger] view_objs(s)[i] == s[i]@ by {
            if i < s.len() - 1 {
                assert(s.drop_last()[i] == s[i]);
            } else {
                assert(s[i] == s.last());
            }
        }
    }
}

/// The views of the printed lines.
pub open spec fn view_lines(s: Seq<String>) -> Seq<Seq<char>>
    decreases s,
{
    if s.len() == 0 {
        Seq::empty()
    } else {
        view_lines(s.drop_last()).push(s.last()@)
    }
}

/// Every element's view is the corresponding element of `view_lines`.
pub proof fn lemma_view_lines_index(s: Seq<String>)
    ensures
        view_lines(s).len() == s.len(),
        forall|i: int| 0 <= i < s.len() ==> #[trigger] view_lines(s)[i] == s[i]@,
    decreases s,
{
    if s.len() > 0 {
        lemma_view_lines_index(s.drop_last());
        assert(view_lines(s) == view_lines(s.drop_last()).push(s.last()@));
        assert forall|i: int| 0 <= i < s.len() implies #[trigger] view_lines(s)[i] == s[i]@ by {
            if i < s.len() - 1 {
                assert(s.drop_last()[i] == s[i]);
            } else {
                assert(s[i] == s.last());
            }
        }
    }
}

/// The printed form of a value, as `spec_obj_text` describes it.
fn obj_text(o: &Object) -> (r: String)
    ensures
        r@ == spec_obj_text(o@),
{
    match o {
        Object::L(Literal::Num(n)) => {
            if n.den < 1 {
                let r = String::new();
                proof {
                    assert(r@ =~= Seq::<char>::empty());
                }
                r
            } else {
                n.to_text()
            }
        },
        Object::L(Literal::Bool(b)) => {
            proof {
                reveal_strlit("true");
                reveal_strlit("false");
            }
            let r = if *b {
                "true".to_owned()
            } else {
                "false".to_owned()
            };
            proof {
                assert(r@ =~= spec_obj_text(o@));
            }
            r
        },
        Object::L(Literal::Str(s)) => {
            proof {
                reveal_strlit("\"");
            }
            let mut r = String::new();
            r.append("\"");
            r.append(s.as_str());
            r.append("\"");
            proof {
                assert(r@ =~= spec_obj_text(o@));
            }
            r
        },
        Object::L(Literal::Nil) => {
            proof {
                reveal_strlit("nil");
            }
            let r = "nil".to_owned();
            proof {
                assert(r@ =~= spec_obj_text(o@));
            }
            r
        },
        Object::C(Callable::Native(_)) => {
            proof {
                reveal_strlit("<native fn clock>");
            }
            let r = "<native fn clock>".to_owned();
            proof {
                assert(r@ =~= spec_obj_text(o@));
            }
            r
        },
        Object::C(Callable::User(f)) => {
            proof {
                reveal_strlit("<fn ");
                reveal_strlit(">");
            }
            let mut r = String::new();
            r.append("<fn ");
            r.append(f.declaration.name.as_str());
            r.append(">");
            proof {
                assert(r@ =~= spec_obj_text(o@));
            }
            r
        },
    }
}

/// Applies a unary operator to a value, as `spec_unop` describes it.
fn apply_unop(op: Operator, v: &Object) -> (r: Result<Object, RuntimeError>)
    ensures
        match r {
            Ok(o) => spec_unop(op, v@) == Ok::<ObjectV, RuntimeError>(o@),
            Err(er) => spec_unop(op, v@) == Err::<ObjectV, RuntimeError>(er),
        },
{
    match (op, v) {
        (Operator::Minus, Object::L(Literal::Num(n))) => {
            if n.den >= 1 {
                match crate::number::num_neg(*n) {
                    Some(m) => Ok(Object::L(Literal::Num(m))),
                    None => Err(RuntimeError::Overflow),
                }
            } else {
                Err(RuntimeError::Overflow)
            }
        },
        (Operator::Not, Object::L(Literal::Bool(b))) => Ok(Object::L(Literal::Bool(!*b))),
        _ => Err(RuntimeError::TypeMismatch),
    }
}

/// Applies a binary operator to two values, as `spec_binop` describes it.
#[verifier::rlimit(50)]
fn apply_binop(op: Operator, l: Object, r: Object) -> (res: Result<Object, RuntimeError>)
    ensures
        match res {
            Ok(o) => spec_binop(op, l@, r@) == Ok::<ObjectV, RuntimeError>(o@),
            Err(er) => spec_binop(op, l@, r@) == Err::<ObjectV, RuntimeError>(er),
        },
{
    match (l, r) {
        (Object::L(Literal::Str(a)), Object::L(Literal::Str(b))) => match op {
            Operator::Plus => {
                let c = a.concat(b.as_str());
                Ok(Object::L(Literal::Str(c)))
            },
            _ => Err(RuntimeError::TypeMismatch),
        },
        (Object::L(Literal::Num(a)), Object::L(Literal::Num(b))) => {
            if a.den < 1 || b.den < 1 {
                return Err(RuntimeError::Overflow);
            }
            match op {
                Operator::Minus => match crate::number::num_sub(a, b) {
                    Some(c) => Ok(Object::L(Literal::Num(c))),
                    None => Err(RuntimeError::Overflow),
                },
                Operator::Plus => match crate::number::num_add(a, b) {
                    Some(c) => Ok(Object::L(Literal::Num(c))),
                    None => Err(RuntimeError::Overflow),
                },
                Operator::Slash => if b.num == 0 {
                    Err(RuntimeError::DivisionByZero)
                } else {
                    match crate::number::num_div(a, b) {
                        Some(c) => Ok(Object::L(Literal::Num(c))),
                        None => Err(RuntimeError::Overflow),
                    }
                },
                Operator::Star => match crate::number::num_mul(a, b) {
                    Some(c) => Ok(Object::L(Literal::Num(c))),
                    None => Err(RuntimeError::Overflow),
                },
                Operator::NotEqual => Ok(
                    Object::L(Literal::Bool(!crate::number::num_eq(a, b))),
                ),
                Operator::Equal => Ok(Object::L(Literal::Bool(crate::number::num_eq(a, b)))),
                Operator::GreaterThanOrEqual => Ok(
                    Object::L(Literal::Bool(!crate::number::num_lt(a, b))),
                ),
                Operator::LessThanOrEqual => Ok(
                    Object::L(Literal::Bool(!crate::number::num_lt(b, a))),
                ),
                Operator::GreaterThan => Ok(
                    Object::L(Literal::Bool(crate::number::num_lt(b, a))),
                ),
                Operator::LessThan => Ok(Object::L(Literal::Bool(crate::number::num_lt(a, b)))),
                _ => Err(RuntimeError::TypeMismatch),
            }
        },
        _ => Err(RuntimeError::TypeMismatch),
    }
}

/// Applies a logical operator to two values, as `spec_logical` describes
/// it.
fn apply_logical(op: Operator, l: &Object, r: &Object) -> (res: Result<Object, RuntimeError>)
    ensures
        match res {
            Ok(o) => spec_logical(op, l@, r@) == Ok::<ObjectV, RuntimeError>(o@),
            Err(er) => spec_logical(op, l@, r@) == Err::<ObjectV, RuntimeError>(er),
        },
{
    match (l, r) {
        (Object::L(Literal::Bool(a)), Object::L(Literal::Bool(b))) => match op {
            Operator::And => Ok(Object::L(Literal::Bool(*a && *b))),
            Operator::Or => Ok(Object::L(Literal::Bool(*a || *b))),
            _ => Err(RuntimeError::TypeMismatch),
        },
        _ => Err(RuntimeError::TypeMismatch),
    }
}


/// The tree-walking evaluator: the scope arena, the current scope, the
/// lines printed so far, and the clock reading taken at construction.
#[derive(Debug)]
pub struct Interpreter {
    pub env: Environment,
    pub current: usize,
    pub output: Vec<String>,
    pub clock: i64,
}

impl View for Interpreter {
    type V = StateV;

    open spec fn view(&self) -> StateV {
        StateV {
            scopes: self.env@,
            current: self.current as int,
            output: view_lines(self.output@),
            clock: self.clock,
        }
    }
}

impl Interpreter {
    /// A fresh evaluator: one global scope binding the native `clock`,
    /// no output, and the wall clock sampled once.
    pub fn new() -> (r: Interpreter)
        ensures
            st_wf(r@),
            r@.scopes =~~= seq![
                ScopeV {
                    parent: None,
                    bindings: Map::<Seq<char>, ObjectV>::empty().insert(
                        "clock"@,
                        ObjectV::C(CallableV::Native),
                    ),
                },
            ],
            r@.current == 0,
            r@.output =~= Seq::<Seq<char>>::empty(),
    {
        let mut env = Environment::new();
        env.define(0, "clock".to_owned(), Object::C(Callable::Native(Clock)));
        let secs = now_seconds();
        let clock: i64 = if secs > i64::MAX as u64 {
            i64::MAX
        } else {
            secs as i64
        };
        let r = Interpreter { env, current: 0, output: Vec::new(), clock };
        proof {
            assert(r@.output =~= Seq::<Seq<char>>::empty());
            assert(r@.scopes[0].bindings =~= Map::<Seq<char>, ObjectV>::empty().insert(
                "clock"@,
                ObjectV::C(CallableV::Native),
            ));
            assert(r@.scopes =~~= seq![
                ScopeV {
                    parent: None,
                    bindings: Map::<Seq<char>, ObjectV>::empty().insert(
                        "clock"@,
                        ObjectV::C(CallableV::Native),
                    ),
                },
            ]);
        }
        r
    }

    /// Evaluates one expression, exactly as `eval_expr` describes it.
    #[verifier::rlimit(100)]
    #[verifier::spinoff_prover]
    pub fn evaluate(&mut self, expr: &Expr, fuel: u64) -> (r: Result<Object, Stop>)
        requires
            st_wf(old(self)@),
        ensures
            match r {
                Ok(o) => eval_expr(old(self)@, expr@, fuel as nat) == EvalR::Val(final(self)@, o@)
                    && st_wf(final(self)@) && final(self)@.scopes.len()
                    >= old(self)@.scopes.len(),
                Err(Stop::Fail(er)) => eval_expr(old(self)@, expr@, fuel as nat) == EvalR::Fault(
                    er,
                ),
                Err(Stop::OutOfFuel) => eval_expr(old(self)@, expr@, fuel as nat)
                    == EvalR::Spent,
            },
        decreases fuel, 5int,
    {
        proof {
            reveal(eval_expr);
        }
        if fuel == 0 {
            return Err(Stop::OutOfFuel);
        }
        let f = fuel - 1;
        match expr {
            Expr::L(lit) => Ok(Object::L(lit.clone())),
            Expr::Grouping { expression } => self.evaluate(&**expression, f),
            Expr::Unary { operator, right } => {
                let v = match self.evaluate(&**right, f) {
                    Ok(v) => v,
                    Err(s) => {
                        return Err(s);
                    },
                };
                match apply_unop(*operator, &v) {
                    Ok(o) => Ok(o),
                    Err(er) => Err(Stop::Fail(er)),
                }
            },
            Expr::Binary { left, operator, right } => {
                let lv = match self.evaluate(&**left, f) {
                    Ok(v) => v,
                    Err(s) => {
                        return Err(s);
                    },
                };
                let rv = match self.evaluate(&**right, f) {
                    Ok(v) => v,
                    Err(s) => {
                        return Err(s);
                    },
                };
                match apply_binop(*operator, lv, rv) {
                    Ok(o) => Ok(o),
                    Err(er) => Err(Stop::Fail(er)),
                }
            },
            Expr::Logical { left, operator, right } => {
                let lv = match self.evaluate(&**left, f) {
                    Ok(v) => v,
                    Err(s) => {
                        return Err(s);
                    },
                };
                let rv = match self.evaluate(&**right, f) {
                    Ok(v) => v,
                    Err(s) => {
                        return Err(s);
                    },
                };
                match apply_logical(*operator, &lv, &rv) {
                    Ok(o) => Ok(o),
                    Err(er) => Err(Stop::Fail(er)),
                }
            },
            Expr::Assign { name, value } => {
                let v = match self.evaluate(&**value, f) {
                    Ok(v) => v,
                    Err(s) => {
                        return Err(s);
                    },
                };
                let ghost st1 = self@;
                if self.env.assign(self.current, name, v.clone()) {
                    proof {
                        let d = defining_scope(st1.scopes, st1.current, name@)->0;
                        crate::environment::lemma_defining_scope_in_range(
                            st1.scopes,
                            st1.current,
                            name@,
                        );
                        crate::environment::lemma_wf_update(st1.scopes, d, name@, v@);
                        assert(self@ =~~= st_define(st1, d, name@, v@));
                    }
                    Ok(v)
                } else {
                    Err(Stop::Fail(RuntimeError::UndefinedVariable))
                }
            },
            Expr::Variable { name } => match self.env.get(self.current, name) {
                Some(o) => Ok(o),
                None => Err(Stop::Fail(RuntimeError::UndefinedVariable)),
            },
            Expr::Call { callee, arguments } => {
                let cv = match self.evaluate(&**callee, f) {
                    Ok(v) => v,
                    Err(s) => {
                        return Err(s);
                    },
                };
                proof {
                    assert(view_objs(Seq::<Object>::empty()) =~= Seq::<ObjectV>::empty());
                }
                let argv = match self.eval_list(arguments, 0, Vec::new(), f) {
                    Ok(a) => a,
                    Err(s) => {
                        return Err(s);
                    },
                };
                self.apply_callable(cv, argv, f)
            },
        }
    }

    /// Evaluates the argument expressions from index `i` on, strictly left
    /// to right, exactly as `eval_args` describes it.
    #[verifier::rlimit(100)]
    #[verifier::spinoff_prover]
    fn eval_list(&mut self, args: &Vec<Expr>, i: usize, acc: Vec<Object>, fuel: u64) -> (r: Result<Vec<Object>, Stop>)
        requires
            st_wf(old(self)@),
            i <= args@.len(),
        ensures
            match r {
                Ok(vs) => eval_args(
                    old(self)@,
                    view_exprs(args@),
                    i as int,
                    view_objs(acc@),
                    fuel as nat,
                ) == ArgsR::Vals(final(self)@, view_objs(vs@)) && st_wf(final(self)@) && final(self)@.scopes.len() >= old(self)@.scopes.len(),
                Err(Stop::Fail(er)) => eval_args(
                    old(self)@,
                    view_exprs(args@),
                    i as int,
                    view_objs(acc@),
                    fuel as nat,
                ) == ArgsR::Fault(er),
                Err(Stop::OutOfFuel) => eval_args(
                    old(self)@,
                    view_exprs(args@),
                    i as int,
                    view_objs(acc@),
                    fuel as nat,
                ) == ArgsR::Spent,
            },
        decreases fuel, 6int,
    {
        proof {
            reveal(eval_args);
            lemma_view_exprs_index(args@);
        }
        if fuel == 0 {
            return Err(Stop::OutOfFuel);
        }
        if i >= args.len() {
            return Ok(acc);
        }
        let v = match self.evaluate(&args[i], fuel - 1) {
            Ok(v) => v,
            Err(s) => {
                return Err(s);
            },
        };
        let mut acc = acc;
        let ghost acc0 = acc@;
        acc.push(v);
        proof {
            assert(acc@.drop_last() =~= acc0);
            assert(view_objs(acc@) == view_objs(acc0).push(acc@.last()@));
        }
        self.eval_list(args, i + 1, acc, fuel - 1)
    }

    /// Applies a callable to already-evaluated arguments, exactly as
    /// `spec_apply` describes it.
    #[verifier::rlimit(100)]
    #[verifier::spinoff_prover]
    fn apply_callable(&mut self, cv: Object, argv: Vec<Object>, fuel: u64) -> (r: Result<Object, Stop>)
        requires
            st_wf(old(self)@),
        ensures
            match r {
                Ok(o) => spec_apply(old(self)@, cv@, view_objs(argv@), fuel as nat)
                    == EvalR::Val(final(self)@, o@) && st_wf(final(self)@) && final(self)@.scopes.len() >= old(self)@.scopes.len(),
                Err(Stop::Fail(er)) => spec_apply(old(self)@, cv@, view_objs(argv@), fuel as nat)
                    == EvalR::Fault(er),
                Err(Stop::OutOfFuel) => spec_apply(old(self)@, cv@, view_objs(argv@), fuel as nat)
                    == EvalR::Spent,
            },
        decreases fuel, 3int,
    {
        proof {
            reveal(spec_apply);
            lemma_view_objs_index(argv@);
        }
        if fuel == 0 {
            return Err(Stop::OutOfFuel);
        }
        match cv {
            Object::C(c) => {
                if argv.len() != c.arity() {
                    return Err(Stop::Fail(RuntimeError::ArityMismatch));
                }
                match c {
                    Callable::Native(ck) => Ok(ck.call(self, argv)),
                    Callable::User(fobj) => fobj.call(self, argv, fuel),
                }
            },
            _ => Err(Stop::Fail(RuntimeError::NotCallable)),
        }
    }

    /// Executes one statement, exactly as `exec_stmt` describes it.
    #[verifier::rlimit(100)]
    #[verifier::spinoff_prover]
    pub fn execute(&mut self, stmt: &Stmt, fuel: u64) -> (r: Result<Signal, Stop>)
        requires
            st_wf(old(self)@),
        ensures
            match r {
                Ok(sig) => exec_stmt(old(self)@, stmt@, fuel as nat) == ExecR::Done(
                    final(self)@,
                    sig@,
                ) && st_wf(final(self)@) && final(self)@.scopes.len()
                    >= old(self)@.scopes.len(),
                Err(Stop::Fail(er)) => exec_stmt(old(self)@, stmt@, fuel as nat) == ExecR::Fault(
                    er,
                ),
                Err(Stop::OutOfFuel) => exec_stmt(old(self)@, stmt@, fuel as nat)
                    == ExecR::Spent,
            },
        decreases fuel, 4int,
    {
        proof {
            reveal(exec_stmt);
        }
        if fuel == 0 {
            return Err(Stop::OutOfFuel);
        }
        let f = fuel - 1;
        match stmt {
            Stmt::Expr(e) => {
                match self.evaluate(&**e, f) {
                    Ok(_) => Ok(Signal::Normal),
                    Err(s) => Err(s),
                }
            },
            Stmt::Print(e) => {
                let v = match self.evaluate(&**e, f) {
                    Ok(v) => v,
                    Err(s) => {
                        return Err(s);
                    },
                };
                let line = obj_text(&v);
                let ghost lines0 = self.output@;
                proof {
                    lemma_view_lines_index(self.output@);
                }
                self.output.push(line);
                proof {
                    assert(self.output@.drop_last() =~= lines0);
                    assert(view_lines(self.output@) == view_lines(lines0).push(
                        self.output@.last()@,
                    ));
                }
                Ok(Signal::Normal)
            },
            Stmt::Variable { name, initializer } => {
                let v = match initializer {
                    Some(e) => match self.evaluate(&**e, f) {
                        Ok(v) => v,
                        Err(s) => {
                            return Err(s);
                        },
                    },
                    None => Object::L(Literal::Nil),
                };
                let ghost st1 = self@;
                proof {
                    crate::environment::lemma_wf_update(st1.scopes, st1.current, name@, v@);
                }
                self.env.define(self.current, name.clone(), v);
                proof {
                    assert(self@ =~~= st_define(st1, st1.current, name@, v@));
                }
                Ok(Signal::Normal)
            },
            Stmt::Block(stmts) => {
                proof {
                    crate::environment::lemma_wf_push(self@.scopes, self@.current);
                }
                let child = self.env.push_scope(self.current);
                self.execute_block(stmts, child, f)
            },
            Stmt::If { condition, then_branch, else_branch } => {
                let c = match self.evaluate(&**condition, f) {
                    Ok(v) => v,
                    Err(s) => {
                        return Err(s);
                    },
                };
                match c {
                    Object::L(Literal::Bool(true)) => self.execute(&**then_branch, f),
                    Object::L(Literal::Bool(false)) => match else_branch {
                        Some(els) => self.execute(&**els, f),
                        None => Ok(Signal::Normal),
                    },
                    _ => Err(Stop::Fail(RuntimeError::TypeMismatch)),
                }
            },
            Stmt::While { condition, body } => {
                let c = match self.evaluate(&**condition, f) {
                    Ok(v) => v,
                    Err(s) => {
                        return Err(s);
                    },
                };
                match c {
                    Object::L(Literal::Bool(false)) => Ok(Signal::Normal),
                    Object::L(Literal::Bool(true)) => {
                        match self.execute(&**body, f) {
                            Ok(Signal::Normal) => self.execute(stmt, f),
                            Ok(Signal::Return(v)) => Ok(Signal::Return(v)),
                            Err(s) => Err(s),
                        }
                    },
                    _ => Err(Stop::Fail(RuntimeError::TypeMismatch)),
                }
            },
            Stmt::Function(d) => {
                let fd = d.clone();
                let value = Object::C(Callable::User(Function {
                    declaration: fd,
                    closure: self.current,
                }));
                let ghost st1 = self@;
                proof {
                    crate::environment::lemma_wf_update(st1.scopes, st1.current, d.name@, value@);
                }
                self.env.define(self.current, d.name.clone(), value);
                proof {
                    assert(self@ =~~= st_define(
                        st1,
                        st1.current,
                        d@.name,
                        ObjectV::C(CallableV::User(FunctionV { declaration: d@, closure: st1.current })),
                    ));
                }
                Ok(Signal::Normal)
            },
            Stmt::Return(opt) => match opt {
                Some(e) => match self.evaluate(&**e, f) {
                    Ok(v) => Ok(Signal::Return(v)),
                    Err(s) => Err(s),
                },
                None => Ok(Signal::Return(Object::L(Literal::Nil))),
            },
        }
    }

    /// Executes the statements from index `i` on, exactly as `exec_stmts`
    /// describes it.
    #[verifier::rlimit(100)]
    #[verifier::spinoff_prover]
    fn run_stmts(&mut self, stmts: &Vec<Stmt>, i: usize, fuel: u64) -> (r: Result<Signal, Stop>)
        requires
            st_wf(old(self)@),
            i <= stmts@.len(),
        ensures
            match r {
                Ok(sig) => exec_stmts(old(self)@, view_stmts(stmts@), i as int, fuel as nat)
                    == ExecR::Done(final(self)@, sig@) && st_wf(final(self)@) && final(self)@.scopes.len() >= old(self)@.scopes.len(),
                Err(Stop::Fail(er)) => exec_stmts(
                    old(self)@,
                    view_stmts(stmts@),
                    i as int,
                    fuel as nat,
                ) == ExecR::Fault(er),
                Err(Stop::OutOfFuel) => exec_stmts(
                    old(self)@,
                    view_stmts(stmts@),
                    i as int,
                    fuel as nat,
                ) == ExecR::Spent,
            },
        decreases fuel, 0int,
    {
        proof {
            reveal(exec_stmts);
            lemma_view_stmts_index(stmts@);
        }
        if fuel == 0 {
            return Err(Stop::OutOfFuel);
        }
        if i >= stmts.len() {
            return Ok(Signal::Normal);
        }
        match self.execute(&stmts[i], fuel - 1) {
            Ok(Signal::Normal) => self.run_stmts(stmts, i + 1, fuel - 1),
            Ok(Signal::Return(v)) => Ok(Signal::Return(v)),
            Err(s) => Err(s),
        }
    }

    /// Executes `stmts` with `scope` as the current scope, restoring the
    /// previous current scope afterwards.
    #[verifier::rlimit(100)]
    #[verifier::spinoff_prover]
    pub fn execute_block(&mut self, stmts: &Vec<Stmt>, scope: usize, fuel: u64) -> (r: Result<Signal, Stop>)
        requires
            env_wf(old(self)@.scopes),
            scope < old(self)@.scopes.len(),
        ensures
            match r {
                Ok(sig) => {
                    &&& exec_stmts(
                        StateV { current: scope as int, ..old(self)@ },
                        view_stmts(stmts@),
                        0,
                        fuel as nat,
                    ) matches ExecR::Done(st3, sigv)
                    &&& sigv == sig@
                    &&& final(self)@ == StateV { current: old(self)@.current, ..st3 }
                    &&& env_wf(final(self)@.scopes)
                    &&& final(self)@.scopes.len() >= old(self)@.scopes.len()
                },
                Err(Stop::Fail(er)) => exec_stmts(
                    StateV { current: scope as int, ..old(self)@ },
                    view_stmts(stmts@),
                    0,
                    fuel as nat,
                ) == ExecR::Fault(er),
                Err(Stop::OutOfFuel) => exec_stmts(
                    StateV { current: scope as int, ..old(self)@ },
                    view_stmts(stmts@),
                    0,
                    fuel as nat,
                ) == ExecR::Spent,
            },
        decreases fuel, 1int,
    {
        let saved = self.current;
        self.current = scope;
        proof {
            assert(self@ =~~= StateV { current: scope as int, ..old(self)@ });
        }
        let r = self.run_stmts(stmts, 0, fuel);
        self.current = saved;
        match r {
            Ok(sig) => Ok(sig),
            Err(s) => Err(s),
        }
    }

    /// Runs a whole program: executes its statements in order; a top-level
    /// `return` stops the run.
    #[verifier::rlimit(100)]
    #[verifier::spinoff_prover]
    pub fn interpret(&mut self, stmts: &Vec<Stmt>, fuel: u64) -> (r: Result<(), Stop>)
        requires
            st_wf(old(self)@),
        ensures
            match r {
                Ok(()) => {
                    &&& exec_stmts(old(self)@, view_stmts(stmts@), 0, fuel as nat)
                        matches ExecR::Done(st3, sigv)
                    &&& final(self)@ == st3
                    &&& st_wf(final(self)@)
                },
                Err(Stop::Fail(er)) => exec_stmts(old(self)@, view_stmts(stmts@), 0, fuel as nat)
                    == ExecR::Fault(er),
                Err(Stop::OutOfFuel) => exec_stmts(old(self)@, view_stmts(stmts@), 0, fuel as nat)
                    == ExecR::Spent,
            },
    {
        match self.run_stmts(stmts, 0, fuel) {
            Ok(_) => Ok(()),
            Err(s) => Err(s),
        }
    }
}


/// How one evaluation step may change the state: the current scope is
/// restored on every path, scopes are never removed and their parent
/// links never change (so a scope captured by a closure outlives the call
/// that created it), the clock is constant, and output is only appended.
pub open spec fn evolves(st: StateV, st2: StateV) -> bool {
    &&& st2.current == st.current
    &&& st2.scopes.len() >= st.scopes.len()
    &&& forall|i: int|
        0 <= i < st.scopes.len() ==> (#[trigger] st2.scopes[i]).parent == st.scopes[i].parent
    &&& st2.clock == st.clock
    &&& st2.output.len() >= st.output.len()
    &&& forall|i: int| 0 <= i < st.output.len() ==> #[trigger] st2.output[i] == st.output[i]
}

proof fn lemma_evolves_refl(a: StateV)
    ensures
        evolves(a, a),
{
}

proof fn lemma_evolves_trans(a: StateV, b: StateV, c: StateV)
    requires
        evolves(a, b),
        evolves(b, c),
    ensures
        evolves(a, c),
{
}

/// Evaluating an expression evolves the state: in particular it leaves
/// the current scope where it was, keeps every existing scope and its
/// parent link, and only appends output.
pub proof fn lemma_eval_expr_evolves(st: StateV, e: ExprV, fuel: nat)
    ensures
        eval_expr(st, e, fuel) matches EvalR::Val(st2, v) ==> evolves(st, st2),
    decreases fuel, 1int,
{
    reveal(eval_expr);
    if fuel == 0 {
    } else {
        let f = (fuel - 1) as nat;
        lemma_evolves_refl(st);
        match e {
            ExprV::L(_) => {},
            ExprV::Grouping { expression } => {
                lemma_eval_expr_evolves(st, *expression, f);
            },
            ExprV::Unary { operator, right } => {
                lemma_eval_expr_evolves(st, *right, f);
            },
            ExprV::Binary { left, operator, right } => {
                lemma_eval_expr_evolves(st, *left, f);
                match eval_expr(st, *left, f) {
                    EvalR::Val(st1, _) => {
                        lemma_eval_expr_evolves(st1, *right, f);
                        match eval_expr(st1, *right, f) {
                            EvalR::Val(st2, _) => {
                                lemma_evolves_trans(st, st1, st2);
                            },
                            _ => {},
                        }
                    },
                    _ => {},
                }
            },
            ExprV::Logical { left, operator, right } => {
                lemma_eval_expr_evolves(st, *left, f);
                match eval_expr(st, *left, f) {
                    EvalR::Val(st1, _) => {
                        lemma_eval_expr_evolves(st1, *right, f);
                        match eval_expr(st1, *right, f) {
                            EvalR::Val(st2, _) => {
                                lemma_evolves_trans(st, st1, st2);
                            },
                            _ => {},
                        }
                    },
                    _ => {},
                }
            },
            ExprV::Assign { name, value } => {
                lemma_eval_expr_evolves(st, *value, f);
                match eval_expr(st, *value, f) {
                    EvalR::Val(st1, v) => {
                        match crate::environment::defining_scope(st1.scopes, st1.current, name) {
                            Some(d) => {
                                crate::environment::lemma_defining_scope_in_range(
                                    st1.scopes,
                                    st1.current,
                                    name,
                                );
                                let st2 = st_define(st1, d, name, v);
                                assert(evolves(st1, st2));
                                lemma_evolves_trans(st, st1, st2);
                            },
                            None => {},
                        }
                    },
                    _ => {},
                }
            },
            ExprV::Variable { .. } => {},
            ExprV::Call { callee, arguments } => {
                lemma_eval_expr_evolves(st, *callee, f);
                match eval_expr(st, *callee, f) {
                    EvalR::Val(st1, cv) => {
                        lemma_eval_args_evolves(st1, arguments, 0, Seq::empty(), f);
                        match eval_args(st1, arguments, 0, Seq::empty(), f) {
                            ArgsR::Vals(st2, argv) => {
                                lemma_spec_apply_evolves(st2, cv, argv, f);
                                match spec_apply(st2, cv, argv, f) {
                                    EvalR::Val(st3, _) => {
                                        lemma_evolves_trans(st, st1, st2);
                                        lemma_evolves_trans(st, st2, st3);
                                    },
                                    _ => {},
                                }
                            },
                            _ => {},
                        }
                    },
                    _ => {},
                }
            },
        }
    }
}

/// Evaluating an argument list evolves the state.
pub proof fn lemma_eval_args_evolves(
    st: StateV,
    args: Seq<ExprV>,
    i: int,
    acc: Seq<ObjectV>,
    fuel: nat,
)
    ensures
        eval_args(st, args, i, acc, fuel) matches ArgsR::Vals(st2, vs) ==> evolves(st, st2),
    decreases fuel, 0int,
{
    reveal(eval_args);
    lemma_evolves_refl(st);
    if fuel == 0 || i < 0 || i >= args.len() {
    } else {
        let f = (fuel - 1) as nat;
        lemma_eval_expr_evolves(st, args[i], f);
        match eval_expr(st, args[i], f) {
            EvalR::Val(st1, v) => {
                lemma_eval_args_evolves(st1, args, i + 1, acc.push(v), f);
                match eval_args(st1, args, i + 1, acc.push(v), f) {
                    ArgsR::Vals(st2, _) => {
                        lemma_evolves_trans(st, st1, st2);
                    },
                    _ => {},
                }
            },
            _ => {},
        }
    }
}

/// Applying a callable evolves the state: in particular the scope a
/// closure captured still exists afterwards, with the same parent link.
pub proof fn lemma_spec_apply_evolves(st: StateV, cv: ObjectV, argv: Seq<ObjectV>, fuel: nat)
    ensures
        spec_apply(st, cv, argv, fuel) matches EvalR::Val(st2, v) ==> evolves(st, st2),
    decreases fuel, 2int,
{
    reveal(spec_apply);
    if fuel == 0 {
    } else {
        lemma_evolves_refl(st);
        match cv {
            ObjectV::C(CallableV::User(fv)) => {
                if argv.len() == spec_arity(CallableV::User(fv)) && 0 <= fv.closure
                    < st.scopes.len() {
                    let frame = ScopeV {
                        parent: Some(fv.closure),
                        bindings: params_map(fv.declaration.parameters, argv),
                    };
                    let st_in = StateV {
                        scopes: st.scopes.push(frame),
                        current: st.scopes.len() as int,
                        ..st
                    };
                    lemma_exec_stmts_evolves(st_in, fv.declaration.body, 0, (fuel - 1) as nat);
                    match exec_stmts(st_in, fv.declaration.body, 0, (fuel - 1) as nat) {
                        ExecR::Done(st3, _) => {
                            assert(evolves(st, StateV { current: st.current, ..st3 })) by {
                                assert(forall|i: int|
                                    0 <= i < st.scopes.len() ==> (#[trigger] st_in.scopes[i])
                                        == st.scopes[i]);

                            }
                        },
                        _ => {},
                    }
                }
            },
            _ => {},
        }
    }
}

/// Executing a statement evolves the state: every block and every call
/// restores the current scope on exit, scopes are never removed, and
/// output is only appended.
pub proof fn lemma_exec_stmt_evolves(st: StateV, s: StmtV, fuel: nat)
    ensures
        exec_stmt(st, s, fuel) matches ExecR::Done(st2, sig) ==> evolves(st, st2),
    decreases fuel, 1int,
{
    reveal(exec_stmt);
    if fuel == 0 {
    } else {
        let f = (fuel - 1) as nat;
        lemma_evolves_refl(st);
        match s {
            StmtV::Expr(e) => {
                lemma_eval_expr_evolves(st, *e, f);
            },
            StmtV::Print(e) => {
                lemma_eval_expr_evolves(st, *e, f);
                match eval_expr(st, *e, f) {
                    EvalR::Val(st1, v) => {
                        let st2 = StateV {
                            output: st1.output.push(spec_obj_text(v)),
                            ..st1
                        };
                        assert(evolves(st1, st2));
                        lemma_evolves_trans(st, st1, st2);
                    },
                    _ => {},
                }
            },
            StmtV::Variable { name, initializer } => {
                match initializer {
                    Some(e) => {
                        lemma_eval_expr_evolves(st, *e, f);
                        match eval_expr(st, *e, f) {
                            EvalR::Val(st1, v) => {
                                if 0 <= st1.current < st1.scopes.len() {
                                    let st2 = st_define(st1, st1.current, name, v);
                                    assert(evolves(st1, st2));
                                    lemma_evolves_trans(st, st1, st2);
                                }
                            },
                            _ => {},
                        }
                    },
                    None => {
                        if 0 <= st.current < st.scopes.len() {
                            let st2 = st_define(st, st.current, name, ObjectV::L(LiteralV::Nil));
                            assert(evolves(st, st2));
                        }
                    },
                }
            },
            StmtV::Block(stmts) => {
                let child = ScopeV { parent: Some(st.current), bindings: Map::empty() };
                let st_in = StateV {
                    scopes: st.scopes.push(child),
                    current: st.scopes.len() as int,
                    ..st
                };
                lemma_exec_stmts_evolves(st_in, stmts, 0, f);
                match exec_stmts(st_in, stmts, 0, f) {
                    ExecR::Done(st1, _) => {
                        assert(evolves(st, StateV { current: st.current, ..st1 })) by {
                            assert(forall|i: int|
                                0 <= i < st.scopes.len() ==> (#[trigger] st_in.scopes[i])
                                    == st.scopes[i]);

                        }
                    },
                    _ => {},
                }
            },
            StmtV::If { condition, then_branch, else_branch } => {
                lemma_eval_expr_evolves(st, *condition, f);
                match eval_expr(st, *condition, f) {
                    EvalR::Val(st1, ObjectV::L(LiteralV::Bool(true))) => {
                        lemma_exec_stmt_evolves(st1, *then_branch, f);
                        match exec_stmt(st1, *then_branch, f) {
                            ExecR::Done(st2, _) => {
                                lemma_evolves_trans(st, st1, st2);
                            },
                            _ => {},
                        }
                    },
                    EvalR::Val(st1, ObjectV::L(LiteralV::Bool(false))) => {
                        match else_branch {
                            Some(els) => {
                                lemma_exec_stmt_evolves(st1, *els, f);
                                match exec_stmt(st1, *els, f) {
                                    ExecR::Done(st2, _) => {
                                        lemma_evolves_trans(st, st1, st2);
                                    },
                                    _ => {},
                                }
                            },
                            None => {},
                        }
                    },
                    _ => {},
                }
            },
            StmtV::While { condition, body } => {
                lemma_eval_expr_evolves(st, *condition, f);
                match eval_expr(st, *condition, f) {
                    EvalR::Val(st1, ObjectV::L(LiteralV::Bool(true))) => {
                        lemma_exec_stmt_evolves(st1, *body, f);
                        match exec_stmt(st1, *body, f) {
                            ExecR::Done(st2, SignalV::Normal) => {
                                lemma_exec_stmt_evolves(st2, StmtV::While { condition, body }, f);
                                match exec_stmt(st2, StmtV::While { condition, body }, f) {
                                    ExecR::Done(st3, _) => {
                                        lemma_evolves_trans(st, st1, st2);
                                        lemma_evolves_trans(st, st2, st3);
                                    },
                                    _ => {},
                                }
                            },
                            ExecR::Done(st2, SignalV::Return(_)) => {
                                lemma_evolves_trans(st, st1, st2);
                            },
                            _ => {},
                        }
                    },
                    _ => {},
                }
            },
            StmtV::Function(fd) => {
                if 0 <= st.current < st.scopes.len() {
                    let fv = ObjectV::C(
                        CallableV::User(
                            FunctionV { declaration: fd, closure: st.current },
                        ),
                    );
                    let st2 = st_define(st, st.current, fd.name, fv);
                    assert(evolves(st, st2));
                }
            },
            StmtV::Return(opt) => {
                match opt {
                    Some(e) => {
                        lemma_eval_expr_evolves(st, *e, f);
                    },
                    None => {},
                }
            },
        }
    }
}

/// Executing a statement list evolves the state.
pub proof fn lemma_exec_stmts_evolves(st: StateV, stmts: Seq<StmtV>, i: int, fuel: nat)
    ensures
        exec_stmts(st, stmts, i, fuel) matches ExecR::Done(st2, sig) ==> evolves(st, st2),
    decreases fuel, 0int,
{
    reveal(exec_stmts);
    lemma_evolves_refl(st);
    if fuel == 0 || i < 0 || i >= stmts.len() {
    } else {
        let f = (fuel - 1) as nat;
        lemma_exec_stmt_evolves(st, stmts[i], f);
        match exec_stmt(st, stmts[i], f) {
            ExecR::Done(st1, SignalV::Normal) => {
                lemma_exec_stmts_evolves(st1, stmts, i + 1, f);
                match exec_stmts(st1, stmts, i + 1, f) {
                    ExecR::Done(st2, _) => {
                        lemma_evolves_trans(st, st1, st2);
                    },
                    _ => {},
                }
            },
            _ => {},
        }
    }
}


} // verus!
