//! Callable values: the native clock and user-defined functions.
//!
//! A callable is a tagged variant matched explicitly at call sites.  A
//! user-defined function owns its declaration and the index of the scope it
//! captured; the scope arena keeps that scope alive for as long as the
//! function value exists.

use vstd::prelude::*;

verus! {

use crate::ast::FunDecl;
use crate::ast::FunDeclV;
use crate::ast::Literal;
use crate::ast::LiteralV;
use crate::environment::Object;
use crate::environment::ObjectV;
use crate::environment::ScopeV;
use crate::interpreter::EvalR;
use crate::interpreter::Interpreter;
use crate::interpreter::RuntimeError;
use crate::interpreter::Signal;
use crate::interpreter::Stop;
use crate::interpreter::lemma_view_objs_index;
use crate::interpreter::params_map;
use crate::interpreter::spec_apply;
use crate::interpreter::st_wf;
use crate::interpreter::view_objs;
use crate::number::Number;

/// The native `clock` function: no parameters, returns the time in whole
/// seconds since the Unix epoch.
#[derive(Debug)]
pub struct Clock;

impl Clock {
    /// The number of arguments `clock` expects.
    pub fn arity(&self) -> (r: usize)
        ensures
            r == 0,
    {
        0
    }
}

impl Clone for Clock {
    fn clone(&self) -> (res: Self)
        ensures
            res == *self,
    {
        Clock
    }
}

/// Relies on `std::time::SystemTime`: the wall-clock time in whole seconds
/// since the Unix epoch, or zero if the clock reads earlier than the epoch.
/// The result depends on the moment of the call, so nothing is promised of
/// it.
#[verifier::external_body]
pub fn now_seconds() -> u64 {
    match std::time::SystemTime::now().duration_since(std::time::SystemTime::UNIX_EPOCH) {
        Ok(d) => d.as_secs(),
        Err(_) => 0,
    }
}

/// A user-defined function: its declaration and the scope it captured.
#[derive(Debug)]
pub struct Function {
    pub declaration: FunDecl,
    pub closure: usize,
}

/// The mathematical view of a user-defined function.
#[verifier::ext_equal]
pub struct FunctionV {
    pub declaration: FunDeclV,
    pub closure: int,
}

impl View for Function {
    type V = FunctionV;

    open spec fn view(&self) -> FunctionV {
        FunctionV { declaration: self.declaration@, closure: self.closure as int }
    }
}

impl Clone for Function {
    /// A clone denotes the same function value.
    fn clone(&self) -> (res: Self)
        ensures
            res@ == self@,
    {
        let res = Function { declaration: self.declaration.clone(), closure: self.closure };
        proof {
            assert(res@ =~= self@);
        }
        res
    }
}

impl Function {
    /// The number of arguments this function expects.
    pub fn arity(&self) -> (r: usize)
        ensures
            r == self.declaration.parameters.len(),
    {
        self.declaration.parameters.len()
    }
}

/// A callable value.
#[derive(Debug)]
pub enum Callable {
    Native(Clock),
    User(Function),
}

/// The mathematical view of a callable value.
#[verifier::ext_equal]
pub enum CallableV {
    Native,
    User(FunctionV),
}

impl View for Callable {
    type V = CallableV;

    open spec fn view(&self) -> CallableV {
        match self {
            Callable::Native(_) => CallableV::Native,
            Callable::User(f) => CallableV::User(f@),
        }
    }
}

impl Clone for Callable {
    /// A clone denotes the same callable value.
    fn clone(&self) -> (res: Self)
        ensures
            res@ == self@,
    {
        match self {
            Callable::Native(c) => Callable::Native(c.clone()),
            Callable::User(f) => Callable::User(f.clone()),
        }
    }
}

impl Callable {
    /// The number of arguments this callable expects.
    pub fn arity(&self) -> (r: usize)
        ensures
            r as int == spec_arity(self@),
    {
        match self {
            Callable::Native(c) => c.arity(),
            Callable::User(f) => f.arity(),
        }
    }
}

/// The declared arity of a callable value.
pub open spec fn spec_arity(c: CallableV) -> int {
    match c {
        CallableV::Native => 0,
        CallableV::User(f) => f.declaration.parameters.len() as int,
    }
}


impl Clock {
    /// Calls the native clock: yields the evaluator's clock reading, in
    /// whole seconds since the Unix epoch, as a number value.
    pub fn call(&self, interpreter: &Interpreter, arguments: Vec<Object>) -> (r: Object)
        ensures
            r@ == ObjectV::L(LiteralV::Num(Number { num: interpreter@.clock, den: 1 })),
    {
        Object::L(Literal::Num(Number { num: interpreter.clock, den: 1 }))
    }
}

impl Function {
    /// Calls this function: binds the arguments positionally in a fresh
    /// scope whose parent is the captured scope, executes the body, and
    /// returns the unwound `return` value, or nil when none was set.
    /// Exactly as `spec_apply` describes it.
    #[verifier::rlimit(100)]
    #[verifier::spinoff_prover]
    #[verifier::loop_isolation(false)]
    pub fn call(&self, interpreter: &mut Interpreter, arguments: Vec<Object>, fuel: u64) -> (r: Result<Object, Stop>)
        requires
            st_wf(old(interpreter)@),
            arguments@.len() == self.declaration.parameters@.len(),
        ensures
            match r {
                Ok(o) => spec_apply(
                    old(interpreter)@,
                    ObjectV::C(CallableV::User(self@)),
                    view_objs(arguments@),
                    fuel as nat,
                ) == EvalR::Val(final(interpreter)@, o@) && st_wf(final(interpreter)@) && final(interpreter)@.scopes.len() >= old(interpreter)@.scopes.len(),
                Err(Stop::Fail(er)) => spec_apply(
                    old(interpreter)@,
                    ObjectV::C(CallableV::User(self@)),
                    view_objs(arguments@),
                    fuel as nat,
                ) == EvalR::Fault(er),
                Err(Stop::OutOfFuel) => spec_apply(
                    old(interpreter)@,
                    ObjectV::C(CallableV::User(self@)),
                    view_objs(arguments@),
                    fuel as nat,
                ) == EvalR::Spent,
            },
        decreases fuel, 2int,
    {
        proof {
            reveal(spec_apply);
            lemma_view_objs_index(arguments@);
            crate::environment::lemma_view_scopes_index(interpreter.env.scopes@);
            assert(interpreter.env.scopes.len() == interpreter.env@.len());
        }
        if fuel == 0 {
            return Err(Stop::OutOfFuel);
        }
        if self.closure >= interpreter.env.scopes.len() {
            return Err(Stop::Fail(RuntimeError::NotCallable));
        }
        proof {
            crate::environment::lemma_wf_push(interpreter@.scopes, self.closure as int);
        }
        let frame = interpreter.env.push_scope(self.closure);
        let ghost st0 = old(interpreter)@;
        let ghost ps = crate::ast::view_strings(self.declaration.parameters@);
        let ghost avs = view_objs(arguments@);
        let mut k: usize = 0;
        proof {
            assert(params_map(ps.subrange(0, 0), avs.subrange(0, 0)) =~= Map::<
                Seq<char>,
                ObjectV,
            >::empty());
            assert(interpreter.env@ =~~= st0.scopes.push(
                ScopeV {
                    parent: Some(self.closure as int),
                    bindings: params_map(ps.subrange(0, 0), avs.subrange(0, 0)),
                },
            ));
        }
        while k < arguments.len()
            invariant
                k <= arguments@.len(),
                interpreter.env@ =~~= st0.scopes.push(
                    ScopeV {
                        parent: Some(self.closure as int),
                        bindings: params_map(
                            ps.subrange(0, k as int),
                            avs.subrange(0, k as int),
                        ),
                    },
                ),
                interpreter.current == old(interpreter).current,
                interpreter.output == old(interpreter).output,
                interpreter.clock == old(interpreter).clock,
            decreases arguments@.len() - k,
        {
            let name = self.declaration.parameters[k].clone();
            let value = arguments[k].clone();
            interpreter.env.define(frame, name, value);
            proof {
                assert(ps.subrange(0, k + 1).drop_last() =~= ps.subrange(0, k as int));
                assert(avs.subrange(0, k + 1).drop_last() =~= avs.subrange(0, k as int));
                assert(ps.subrange(0, k + 1).last() == ps[k as int]);
                assert(avs.subrange(0, k + 1).last() == avs[k as int]);
                assert(params_map(ps.subrange(0, k + 1), avs.subrange(0, k + 1)) =~= params_map(
                    ps.subrange(0, k as int),
                    avs.subrange(0, k as int),
                ).insert(ps[k as int], avs[k as int]));
                assert(interpreter.env@ =~~= st0.scopes.push(
                    ScopeV {
                        parent: Some(self.closure as int),
                        bindings: params_map(ps.subrange(0, k + 1), avs.subrange(0, k + 1)),
                    },
                ));
            }
            k = k + 1;
        }
        proof {
            assert(ps.subrange(0, ps.len() as int) =~= ps);
            assert(avs.subrange(0, avs.len() as int) =~= avs);
            assert(interpreter.env@ =~~= st0.scopes.push(
                ScopeV { parent: Some(self.closure as int), bindings: params_map(ps, avs) },
            ));
            crate::environment::lemma_wf_push(st0.scopes, self.closure as int);
            crate::environment::lemma_view_scopes_index(interpreter.env.scopes@);
        }
        let r = interpreter.execute_block(&self.declaration.body, frame, fuel - 1);
        match r {
            Ok(sig) => {
                match sig {
                    Signal::Return(v) => Ok(v),
                    Signal::Normal => Ok(Object::L(Literal::Nil)),
                }
            },
            Err(s) => Err(s),
        }
    }
}

} // verus!
