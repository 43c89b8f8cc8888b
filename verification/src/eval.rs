use vstd::prelude::*;

use crate::builtins_bind::{
    builtin_def_spec, builtin_dyn_spec, builtin_is_def_spec, builtin_lex_spec, builtin_ref_spec,
    builtin_set_spec, builtin_undef_spec, builtin_var_spec, lemma_def, lemma_dyn, lemma_is_def,
    lemma_lex, lemma_ref, lemma_set, lemma_undef, lemma_var,
};
use crate::builtins_bind::{
    builtin_def, builtin_dyn, builtin_is_def, builtin_lex, builtin_ref, builtin_set, builtin_undef,
    builtin_var,
};
use crate::environment::{get_expression, lemma_extends_trans, lemma_lookup_valid, EnvState, Environment};
use crate::types::{
    args_bound, children_below, lemma_args_bound_le, node_children, Builtin, ExpEnum, Expression,
    LispError, Node,
};

verus! {

/// The builtin that `f` is, if it is one.
pub open spec fn callee(st: EnvState, f: Expression) -> Option<Builtin> {
    if st.valid_exp(f) {
        match st.node(f) {
            Node::Special(b) => Some(b),
            Node::Function(b) => Some(b),
            _ => None,
        }
    } else {
        None
    }
}

/// Whether `n` is a form that evaluation calls.
pub open spec fn is_form(n: Node) -> bool {
    n is List || n is Vector
}

/// A node that evaluates to itself and leaves the state as it is.
pub open spec fn is_literal(n: Node) -> bool {
    !(n is Symbol) && !is_form(n)
}

/// What evaluating `e` does.
///
/// A symbol evaluates to the expression it resolves to; a non-empty list or
/// vector evaluates its head and, when that is a builtin, calls it with the
/// remaining (unevaluated) forms; anything else evaluates to itself.
pub open spec fn eval_spec(st: EnvState, e: Expression) -> (EnvState, Result<Expression, LispError>)
    decreases e.handle, 3nat, 0nat,
{
    if !st.valid_exp(e) {
        (st, Ok(e))
    } else {
        let n = st.node(e);
        match n {
            Node::Symbol(s) => match st.lookup(s) {
                Some(r) => (st, Ok(r.exp)),
                None => (st, Err(LispError::SymbolNotFound(s))),
            },
            _ => {
                let items = node_children(n);
                if !is_form(n) || items.len() == 0 || !children_below(n, e.handle as int) {
                    (st, Ok(e))
                } else {
                    let (st1, h) = eval_spec(st, items[0]);
                    match h {
                        Err(err) => (st1, Err(err)),
                        Ok(f) => match callee(st1, f) {
                            Some(b) => {
                                proof {
                                    assert forall|i: int| 0 <= i < items.drop_first().len() implies
                                        #[trigger] items.drop_first()[i].handle < e.handle by {
                                        assert(items.drop_first()[i] == items[i + 1]);
                                    }
                                    lemma_args_bound_le(items.drop_first(), e.handle as int);
                                }
                                call_spec(st1, b, items.drop_first())
                            },
                            None => (st1, Err(LispError::NotCallable)),
                        },
                    }
                }
            },
        }
    }
}

/// What calling builtin `b` with the forms `args` does.
pub open spec fn call_spec(st: EnvState, b: Builtin, args: Seq<Expression>) -> (EnvState, Result<Expression, LispError>)
    decreases args_bound(args), 2nat, 0nat,
{
    match b {
        Builtin::Lex => builtin_lex_spec(st, args),
        Builtin::SetBang => builtin_set_spec(st, args),
        Builtin::Def => builtin_def_spec(st, args),
        Builtin::Var => builtin_var_spec(st, args),
        Builtin::Undef => builtin_undef_spec(st, args),
        Builtin::Dyn => builtin_dyn_spec(st, args),
        Builtin::IsDef => builtin_is_def_spec(st, args),
        Builtin::Ref => builtin_ref_spec(st, args),
    }
}

/// Evaluation keeps a state well formed and its shape unchanged.
pub proof fn lemma_eval(st: EnvState, e: Expression)
    requires
        st.wf(),
        st.valid_exp(e),
    ensures
        st.sound_step(eval_spec(st, e)),
    decreases e.handle, 3nat, 0nat,
{
    let n = st.node(e);
    match n {
        Node::Symbol(s) => {
            lemma_lookup_valid(st, s);
        },
        _ => {
            let items = node_children(n);
            if is_form(n) && items.len() > 0 && children_below(n, e.handle as int) {
                lemma_eval(st, items[0]);
                let (st1, h) = eval_spec(st, items[0]);
                if let Ok(f) = h {
                    if let Some(b) = callee(st1, f) {
                        let rest = items.drop_first();
                        assert forall|i: int| 0 <= i < rest.len() implies #[trigger] rest[i].handle < e.handle by {
                            assert(rest[i] == items[i + 1]);
                        }
                        lemma_args_bound_le(rest, e.handle as int);
                        lemma_call(st1, b, rest);
                        lemma_extends_trans(st, st1, call_spec(st1, b, rest).0);
                    }
                }
            }
        },
    }
}

/// Calling a builtin keeps a state well formed and its shape unchanged.
pub proof fn lemma_call(st: EnvState, b: Builtin, args: Seq<Expression>)
    requires
        st.wf(),
        st.args_valid(args),
    ensures
        st.sound_step(call_spec(st, b, args)),
    decreases args_bound(args), 2nat, 0nat,
{
    match b {
        Builtin::Lex => lemma_lex(st, args),
        Builtin::SetBang => lemma_set(st, args),
        Builtin::Def => lemma_def(st, args),
        Builtin::Var => lemma_var(st, args),
        Builtin::Undef => lemma_undef(st, args),
        Builtin::Dyn => lemma_dyn(st, args),
        Builtin::IsDef => lemma_is_def(st, args),
        Builtin::Ref => lemma_ref(st, args),
    }
}

/// The forms `v[from..]`.
fn tail_of(v: &Vec<Expression>, from: usize) -> (r: Vec<Expression>)
    requires
        from <= v@.len(),
    ensures
        r@ == v@.subrange(from as int, v@.len() as int),
{
    let mut r: Vec<Expression> = Vec::new();
    let mut i = from;
    while i < v.len()
        invariant
            from <= i <= v@.len(),
            r@ == v@.subrange(from as int, i as int),
        decreases v@.len() - i,
    {
        r.push(v[i]);
        i = i + 1;
    }
    r
}

/// Evaluates `expression`.
pub fn eval(environment: &mut Environment, expression: Expression) -> (res: Result<Expression, LispError>)
    requires
        old(environment).wf(),
        old(environment)@.valid_exp(expression),
    ensures
        (final(environment)@, res) == eval_spec(old(environment)@, expression),
        old(environment)@.sound_step((final(environment)@, res)),
    decreases expression.handle, 3nat, 0nat,
{
    proof { lemma_eval(environment@, expression); }
    let ghost st = environment@;
    let items = match environment.node(expression) {
        ExpEnum::Symbol(s) => {
            let s = *s;
            return match get_expression(environment, s) {
                Some(r) => Ok(r.exp),
                None => Err(LispError::SymbolNotFound(s)),
            };
        },
        ExpEnum::List(items) => tail_of(items, 0),
        ExpEnum::Vector(items) => tail_of(items, 0),
        _ => {
            return Ok(expression);
        },
    };
    assert(items@ == node_children(st.node(expression)));
    if items.len() == 0 {
        return Ok(expression);
    }
    assert(children_below(st.node(expression), expression.handle as int));
    let head = eval(environment, items[0]);
    match head {
        Err(e) => Err(e),
        Ok(f) => {
            let b = match environment.node(f) {
                ExpEnum::Special(b) => *b,
                ExpEnum::Function(b) => *b,
                _ => {
                    return Err(LispError::NotCallable);
                },
            };
            let rest = tail_of(&items, 1);
            assert(rest@ == items@.drop_first());
            proof {
                assert forall|i: int| 0 <= i < rest@.len() implies #[trigger] rest@[i].handle < expression.handle by {
                    assert(rest@[i] == items@[i + 1]);
                }
                lemma_args_bound_le(rest@, expression.handle as int);
            }
            call_builtin(environment, b, rest.as_slice())
        },
    }
}

/// Calls builtin `b` with the forms `args`.
pub fn call_builtin(environment: &mut Environment, b: Builtin, args: &[Expression]) -> (res: Result<Expression, LispError>)
    requires
        old(environment).wf(),
        old(environment)@.args_valid(args@),
    ensures
        (final(environment)@, res) == call_spec(old(environment)@, b, args@),
        old(environment)@.sound_step((final(environment)@, res)),
    decreases args_bound(args@), 2nat, 0nat,
{
    match b {
        Builtin::Lex => builtin_lex(environment, args),
        Builtin::SetBang => builtin_set(environment, args),
        Builtin::Def => builtin_def(environment, args),
        Builtin::Var => builtin_var(environment, args),
        Builtin::Undef => builtin_undef(environment, args),
        Builtin::Dyn => builtin_dyn(environment, args),
        Builtin::IsDef => builtin_is_def(environment, args),
        Builtin::Ref => builtin_ref(environment, args),
    }
}

} // verus!
