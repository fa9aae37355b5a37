//! Properties of the language, stated and proved against the spec
//! functions that the executable lexer, parser and evaluator are verified
//! to implement.

use vstd::prelude::*;

verus! {

use crate::ast::LiteralV;
use crate::callable::CallableV;
use crate::callable::spec_arity;
use crate::environment::ObjectV;
use crate::interpreter::EvalR;
use crate::interpreter::RuntimeError;
use crate::interpreter::StateV;
use crate::interpreter::spec_apply;
use crate::interpreter::spec_binop;
use crate::interpreter::st_define;
use crate::lexer::Operator;
use crate::lexer::TokenV;
use crate::lexer::spec_lex;
use crate::number::Number;
use crate::parser::p_parse;

/// Lexing and parsing are functions of the source text alone: the same
/// valid source always denotes the same token sequence and the same
/// program tree.
pub proof fn lemma_front_end_deterministic(s1: Seq<char>, s2: Seq<char>)
    requires
        s1 == s2,
    ensures
        spec_lex(s1) == spec_lex(s2),
        forall|t1: Seq<TokenV>, t2: Seq<TokenV>|
            t1 == t2 ==> #[trigger] p_parse(t1, 0) == #[trigger] p_parse(t2, 0),
{
}

/// Declaring a variable writes the current scope and no other: after the
/// binding, every other scope's contents are exactly what they were, so a
/// declaration in a nested block never alters a variable of an enclosing
/// scope.
pub proof fn lemma_declaration_is_local(st: StateV, d: int, name: Seq<char>, v: ObjectV)
    requires
        0 <= d < st.scopes.len(),
    ensures
        st_define(st, d, name, v).scopes.len() == st.scopes.len(),
        forall|j: int|
            0 <= j < st.scopes.len() && j != d ==> #[trigger] st_define(
                st,
                d,
                name,
                v,
            ).scopes[j] == st.scopes[j],
        st_define(st, d, name, v).scopes[d].bindings == st.scopes[d].bindings.insert(name, v),
        st_define(st, d, name, v).scopes[d].parent == st.scopes[d].parent,
{
}

/// A call with the wrong number of arguments fails with `ArityMismatch`
/// before any scope is created and before any statement of the body runs:
/// the fault is immediate, so the body has no effect.
pub proof fn lemma_call_arity_checked(st: StateV, c: CallableV, argv: Seq<ObjectV>, fuel: nat)
    requires
        fuel >= 1,
        argv.len() != spec_arity(c),
    ensures
        spec_apply(st, ObjectV::C(c), argv, fuel) == EvalR::Fault(RuntimeError::ArityMismatch),
{
    reveal(spec_apply);
}

/// No implicit coercion between strings and numbers: any binary operator
/// applied to one string and one number operand is a type mismatch, in
/// either order.
pub proof fn lemma_no_string_number_coercion(op: Operator, s: Seq<char>, n: Number)
    ensures
        spec_binop(op, ObjectV::L(LiteralV::Str(s)), ObjectV::L(LiteralV::Num(n))) == Err::<
            ObjectV,
            RuntimeError,
        >(RuntimeError::TypeMismatch),
        spec_binop(op, ObjectV::L(LiteralV::Num(n)), ObjectV::L(LiteralV::Str(s))) == Err::<
            ObjectV,
            RuntimeError,
        >(RuntimeError::TypeMismatch),
{
}

} // verus!
