use vstd::prelude::*;

use crate::builtins_bind::{
    builtin_def_spec, builtin_dyn_spec, builtin_is_def_spec, builtin_lex_spec, builtin_ref_spec,
    builtin_set_spec, builtin_undef_spec, builtin_var_spec, find_named_in, first_sep, lex_loop_spec, lemma_lex, symbol_of,
    val_to_reference_spec,
};
use crate::debugger::{debug_action_spec, DebugAction, DebugVal, FrameRef};
use crate::environment::{innermost_in, lemma_chain_with_scope, lemma_innermost_in, EnvState, ScopeState};
use crate::eval::{eval_spec, is_literal, lemma_eval};
use crate::interner::Sym;
use crate::types::{Expression, LispError, Node, RefState};

verus! {

/// When scope `c` binds `k` and no scope after it does, `c` is the innermost
/// scope that binds `k`.
proof fn lemma_innermost_is(chain: Seq<ScopeState>, k: Sym, c: int, n: int)
    requires
        0 <= c < n <= chain.len(),
        chain[c].data.contains_key(k),
        forall|j: int| c < j < n ==> !(#[trigger] chain[j]).data.contains_key(k),
    ensures
        innermost_in(chain, k, n) == Some(c),
    decreases n,
{
    if n - 1 != c {
        lemma_innermost_is(chain, k, c, n - 1);
    }
}

/// Binding `k` in a scope that no later scope of the chain binds it in makes
/// that scope the one `k` is found in.
proof fn lemma_find_after_bind(st: EnvState, c: int, k: Sym, r: RefState)
    requires
        0 <= c < st.chain().len(),
        forall|j: int| c < j < st.chain().len() ==> !(#[trigger] st.chain()[j]).data.contains_key(k),
    ensures
        st.bind_in(c, k, r).find_scope(k) == Some(c),
        st.bind_in(c, k, r).chain()[c].data[k] == r,
{
    let s = ScopeState { name: st.chain()[c].name, data: st.chain()[c].data.insert(k, r) };
    lemma_chain_with_scope(st, c, s);
    let chain2 = st.bind_in(c, k, r).chain();
    assert forall|j: int| c < j < chain2.len() implies !(#[trigger] chain2[j]).data.contains_key(k) by {
        assert(chain2[j] == st.chain()[j]);
    }
    lemma_innermost_is(chain2, k, c, chain2.len() as int);
}

/// `(set! k v)` on a symbol `k` that is bound, with a value form `v` that
/// evaluates to itself, gives back `v` and rebinds `k` where it was found:
/// its dynamic binding if it has one, else its binding in the innermost scope
/// that binds it, leaving every other scope as it was; `(ref k)` then gives
/// `v`.  On a symbol that nothing binds, `set!` fails with `SetUnbound` and
/// changes nothing.
pub proof fn law_set_then_ref(st: EnvState, k: Expression, v: Expression, key: Sym)
    requires
        st.wf(),
        st.valid_exp(k),
        st.valid_exp(v),
        st.node(k) == Node::Symbol(key),
        is_literal(st.node(v)),
    ensures
        ({
            let (st1, r) = builtin_set_spec(st, seq![k, v]);
            if st.dynamic.contains_key(key) {
                &&& r == Ok::<Expression, LispError>(v)
                &&& st1 == st.with_dynamic(st.dynamic.insert(key, RefState { exp: v, namespace: None, doc: None }))
                &&& builtin_ref_spec(st1, seq![k]) == (st1, Ok::<Expression, LispError>(v))
            } else if let Some(c) = st.find_scope(key) {
                &&& r == Ok::<Expression, LispError>(v)
                &&& st1 == st.bind_in(c, key, RefState { exp: v, namespace: st.chain()[c].name, doc: None })
                &&& builtin_ref_spec(st1, seq![k]) == (st1, Ok::<Expression, LispError>(v))
            } else {
                &&& r == Err::<Expression, LispError>(LispError::SetUnbound)
                &&& st1 == st
            }
        }),
{
    let args = seq![k, v];
    assert(args[0] == k && args[1] == v && args.last() == v);
    if !st.dynamic.contains_key(key) {
        lemma_innermost_in(st.chain(), key, st.chain().len() as int);
        if let Some(c) = st.find_scope(key) {
            let rv = RefState { exp: v, namespace: st.chain()[c].name, doc: None };
            lemma_find_after_bind(st, c, key, rv);
            lemma_chain_with_scope(st, c, ScopeState { name: st.chain()[c].name, data: st.chain()[c].data.insert(key, rv) });
        }
    }
}

/// `(def k v)`, for a symbol `k` without `::` that neither a dynamic binding
/// nor a lexical scope shadows, with a value form `v` that evaluates to
/// itself, binds `k` to `v` in the current namespace and gives back `v`;
/// `(ref k)` then gives `v`.
pub proof fn law_def_then_ref(st: EnvState, k: Expression, v: Expression, key: Sym)
    requires
        st.wf(),
        st.valid_exp(k),
        st.valid_exp(v),
        st.node(k) == Node::Symbol(key),
        is_literal(st.node(v)),
        first_sep(st.names[key as int]) is None,
        !st.dynamic.contains_key(key),
        forall|i: int| 0 <= i < st.scopes.len() ==> !(#[trigger] st.scopes[i]).data.contains_key(key),
    ensures
        ({
            let (st1, r) = builtin_def_spec(st, seq![k, v]);
            &&& r == Ok::<Expression, LispError>(v)
            &&& st1 == st.bind_in(
                st.namespaces.len() - 1,
                key,
                RefState { exp: v, namespace: st.current_namespace(), doc: None },
            )
            &&& builtin_ref_spec(st1, seq![k]) == (st1, Ok::<Expression, LispError>(v))
        }),
{
    let args = seq![k, v];
    assert(args[0] == k && args[1] == v && args.last() == v);
    let c = st.namespaces.len() - 1;
    assert forall|j: int| c < j < st.chain().len() implies !(#[trigger] st.chain()[j]).data.contains_key(key) by {
        assert(st.chain()[j] == st.scopes[j - st.namespaces.len()]);
    }
    let rv = RefState { exp: v, namespace: st.current_namespace(), doc: None };
    lemma_find_after_bind(st, c, key, rv);
}

/// Inside a lexical scope, `(var k v)` for a symbol `k` that the innermost
/// scope does not bind yet, with a value form `v` that evaluates to itself,
/// binds `k` to `v` there and gives back `v`; `(ref k)` then gives `v` unless a
/// dynamic binding shadows `k`, and a second `(var k w)` fails with
/// `VarExists(k)` and changes nothing.
pub proof fn law_var_twice(st: EnvState, k: Expression, v: Expression, w: Expression, key: Sym)
    requires
        st.wf(),
        st.valid_exp(k),
        st.valid_exp(v),
        st.node(k) == Node::Symbol(key),
        is_literal(st.node(v)),
        st.scopes.len() > 0,
        !st.scopes.last().data.contains_key(key),
    ensures
        ({
            let (st1, r) = builtin_var_spec(st, seq![k, v]);
            &&& r == Ok::<Expression, LispError>(v)
            &&& st1 == st.bind_in(st.current_index(), key, RefState { exp: v, namespace: None, doc: None })
            &&& builtin_var_spec(st1, seq![k, w]) == (st1, Err::<Expression, LispError>(LispError::VarExists(key)))
            &&& !st.dynamic.contains_key(key) ==> builtin_ref_spec(st1, seq![k]) == (st1, Ok::<Expression, LispError>(v))
        }),
{
    let args = seq![k, v];
    assert(args[0] == k && args[1] == v && args.last() == v);
    let args2 = seq![k, w];
    assert(args2[0] == k);
    let c = st.current_index();
    let rv = RefState { exp: v, namespace: None, doc: None };
    assert(st.chain()[c] == st.scopes.last());
    lemma_find_after_bind(st, c, key, rv);
    lemma_chain_with_scope(st, c, ScopeState { name: st.chain()[c].name, data: st.chain()[c].data.insert(key, rv) });
    let st1 = st.bind_in(c, key, rv);
    assert(st1.scopes.last() == st1.chain()[c]);
}

/// `(undef k)` on a symbol that the current scope binds removes that binding
/// and gives back its expression.  Before, `(def? k)` gives `t`; afterwards a
/// second `(undef k)` fails with `UndefNotDefined(k)`, and `(def? k)` gives
/// `nil` when no other scope and no dynamic binding holds `k`.
pub proof fn law_undef(st: EnvState, k: Expression, key: Sym)
    requires
        st.wf(),
        st.valid_exp(k),
        st.node(k) == Node::Symbol(key),
        st.chain()[st.current_index()].data.contains_key(key),
    ensures
        ({
            let c = st.current_index();
            let (st1, r) = builtin_undef_spec(st, seq![k]);
            &&& r == Ok::<Expression, LispError>(st.chain()[c].data[key].exp)
            &&& st1 == st.unbind_in(c, key)
            &&& builtin_undef_spec(st1, seq![k]) == (st1, Err::<Expression, LispError>(LispError::UndefNotDefined(key)))
            &&& builtin_is_def_spec(st, seq![k]) == (st.with_node(Node::True), Ok::<Expression, LispError>(st.next_exp()))
            &&& (!st.dynamic.contains_key(key)
                && forall|j: int| 0 <= j < c ==> !(#[trigger] st.chain()[j]).data.contains_key(key))
                ==> builtin_is_def_spec(st1, seq![k]) == (st1.with_node(Node::Nil), Ok::<Expression, LispError>(st1.next_exp()))
        }),
{
    let args = seq![k];
    assert(args[0] == k);
    let c = st.current_index();
    lemma_innermost_in(st.chain(), key, st.chain().len() as int);
    let s = ScopeState { name: st.chain()[c].name, data: st.chain()[c].data.remove(key) };
    lemma_chain_with_scope(st, c, s);
    let st1 = st.unbind_in(c, key);
    assert(st1.current_index() == c);
    lemma_innermost_in(st1.chain(), key, st1.chain().len() as int);
    if !st.dynamic.contains_key(key) && forall|j: int| 0 <= j < c ==> !(#[trigger] st.chain()[j]).data.contains_key(key) {
        if let Some(i) = st1.find_scope(key) {
            assert(st1.chain()[i] == st.chain()[i]);
        }
    }
}

/// `(dyn key-form value-form ...)`, when the key form evaluates to a symbol:
/// however the form ends (the value form fails, the forms are not exactly
/// key, value and body, the body fails or succeeds), the symbol has
/// afterwards the dynamic binding it had once key and value were evaluated
/// (none, if it had none before the form).  With exactly three forms and a
/// value, the body is evaluated with the symbol bound dynamically to the
/// value, ahead of every scope, so a body that is the symbol itself gives the
/// value; with another number of forms `dyn` fails with `DynArity` and changes
/// nothing beyond evaluating key and value.
pub proof fn law_dyn_restores(st: EnvState, args: Seq<Expression>, key: Sym, val: Expression)
    requires
        st.wf(),
        st.args_valid(args),
        args.len() >= 2,
        eval_spec(st, args[0]).1 matches Ok(kv) && symbol_of(eval_spec(st, args[0]).0, kv) == Some(key),
    ensures
        ({
            let (st2, vr) = eval_spec(eval_spec(st, args[0]).0, args[1]);
            let (st5, res) = builtin_dyn_spec(st, args);
            &&& st5.dynamic.contains_key(key) == st2.dynamic.contains_key(key)
            &&& st2.dynamic.contains_key(key) ==> st5.dynamic[key] == st2.dynamic[key]
            &&& !st.dynamic.contains_key(key) ==> !st5.dynamic.contains_key(key)
            &&& (vr is Ok && args.len() != 3) ==> (st5, res) == (st2, Err::<Expression, LispError>(LispError::DynArity))
            &&& (vr == Ok::<Expression, LispError>(val) && args.len() == 3 && st.node(args[2]) == Node::Symbol(key))
                ==> res == Ok::<Expression, LispError>(val)
        }),
{
    lemma_eval(st, args[0]);
    let st1 = eval_spec(st, args[0]).0;
    lemma_eval(st1, args[1]);
    let st2 = eval_spec(st1, args[1]).0;
    if args.len() == 3 {
        assert(st.valid_exp(args[2]));
        assert(st2.heap[args[2].handle as int] == st.heap[args[2].handle as int]);
    }
}

/// `dyn` binds nothing dynamically when it is given fewer than two forms, or
/// when its key form fails or gives no symbol: the state is then what
/// evaluating the key form (if any) left.
pub proof fn law_dyn_early_exit(st: EnvState, args: Seq<Expression>)
    requires
        st.wf(),
        st.args_valid(args),
        args.len() < 2 || !(eval_spec(st, args[0]).1 matches Ok(kv) && symbol_of(eval_spec(st, args[0]).0, kv) is Some),
    ensures
        builtin_dyn_spec(st, args).0 == (if args.len() == 0 { st } else { eval_spec(st, args[0]).0 }),
        builtin_dyn_spec(st, args).1 is Err,
{
}

/// Evaluating `args[i..]` when each of them evaluates to itself changes
/// nothing and gives the last of them.
proof fn lemma_lex_loop_literals(st: EnvState, args: Seq<Expression>, i: int, ret: Option<Expression>)
    requires
        0 <= i,
        forall|j: int| 0 <= j < args.len() ==> st.valid_exp(#[trigger] args[j]) && is_literal(st.node(args[j])),
    ensures
        lex_loop_spec(st, args, i, ret) == (st, Ok::<Option<Expression>, LispError>(
            if i < args.len() { Some(args.last()) } else { ret },
        )),
    decreases args.len() - i,
{
    if i < args.len() {
        assert(st.valid_exp(args[i]) && is_literal(st.node(args[i])));
        assert(eval_spec(st, args[i]) == (st, Ok::<Expression, LispError>(args[i])));
        lemma_lex_loop_literals(st, args, i + 1, Some(args[i]));
        assert(lex_loop_spec(st, args, i, ret) == lex_loop_spec(st, args, i + 1, Some(args[i])));
    }
}

/// `(lex ...)` evaluates its forms in a new lexical scope that is gone
/// afterwards, so the stack of lexical scopes has its former depth.  With no
/// form it gives a new `nil`; when each form evaluates to itself it gives the
/// last one and leaves the state as it was.
pub proof fn law_lex_scope(st: EnvState, args: Seq<Expression>)
    requires
        st.wf(),
        st.args_valid(args),
    ensures
        builtin_lex_spec(st, args).0.scopes.len() == st.scopes.len(),
        args.len() == 0 ==> builtin_lex_spec(st, args) == (st.with_node(Node::Nil), Ok::<Expression, LispError>(st.next_exp())),
        (args.len() > 0 && forall|j: int| 0 <= j < args.len() ==> is_literal(#[trigger] st.node(args[j])))
            ==> builtin_lex_spec(st, args) == (st, Ok::<Expression, LispError>(args.last())),
{
    lemma_lex(st, args);
    assert(st.push_scope().pop_scope().scopes =~= st.scopes);
    assert(st.push_scope().pop_scope() == st);
    if args.len() > 0 && forall|j: int| 0 <= j < args.len() ==> is_literal(#[trigger] st.node(args[j])) {
        let st0 = st.push_scope();
        assert forall|j: int| 0 <= j < args.len() implies st0.valid_exp(#[trigger] args[j]) && is_literal(st0.node(args[j])) by {
            assert(is_literal(st.node(args[j])));
        }
        lemma_lex_loop_literals(st0, args, 0, None);
    }
}

/// `ref` never changes the state, and `(def? k)` for a symbol `k` only adds
/// the node it gives back: `t` exactly when `(ref k)` succeeds, else `nil`.
pub proof fn law_is_def_agrees_with_ref(st: EnvState, k: Expression, key: Sym)
    requires
        st.wf(),
        st.valid_exp(k),
        st.node(k) == Node::Symbol(key),
    ensures
        builtin_ref_spec(st, seq![k]).0 == st,
        builtin_is_def_spec(st, seq![k]) == (
            st.with_node(if builtin_ref_spec(st, seq![k]).1 is Ok { Node::True } else { Node::Nil }),
            Ok::<Expression, LispError>(st.next_exp()),
        ),
{
    let args = seq![k];
    assert(args[0] == k);
}

/// When scope `c` is named `ns` and no scope after it is, `c` is the
/// innermost scope named `ns`.
proof fn lemma_named_is(chain: Seq<ScopeState>, ns: Sym, c: int, n: int)
    requires
        0 <= c < n <= chain.len(),
        chain[c].name == Some(ns),
        forall|j: int| c < j < n ==> (#[trigger] chain[j]).name != Some(ns),
    ensures
        find_named_in(chain, ns, n) == Some(c),
    decreases n,
{
    if n - 1 != c {
        lemma_named_is(chain, ns, c, n - 1);
    }
}

/// `(def ns::k v)`, with a value form `v` that evaluates to itself, binds the
/// symbol `k` (interned from the text after `::`) to `v` in the current
/// namespace, even from inside lexical scopes, and gives back `v`, provided
/// the current namespace has a name that no lexical scope has.
pub proof fn law_def_ns_prefix(st: EnvState, k: Expression, v: Expression, key: Sym, i: int)
    requires
        st.wf(),
        st.valid_exp(k),
        st.valid_exp(v),
        st.node(k) == Node::Symbol(key),
        is_literal(st.node(v)),
        first_sep(st.names[key as int]) == Some(i),
        st.names[key as int].subrange(0, i) == "ns"@,
        st.current_namespace() is Some,
        forall|j: int| 0 <= j < st.scopes.len() ==> (#[trigger] st.scopes[j]).name != st.current_namespace(),
    ensures
        ({
            let name = st.names[key as int];
            let (st3, k2) = st.intern(name.subrange(i + 2, name.len() as int));
            let (st1, r) = builtin_def_spec(st, seq![k, v]);
            &&& r == Ok::<Expression, LispError>(v)
            &&& st1 == st3.bind_in(
                st.namespaces.len() - 1,
                k2,
                RefState { exp: v, namespace: st.current_namespace(), doc: None },
            )
        }),
{
    let args = seq![k, v];
    assert(args[0] == k && args[1] == v && args.last() == v);
    let name = st.names[key as int];
    let st3 = st.intern(name.subrange(i + 2, name.len() as int)).0;
    assert(st3.chain() == st.chain());
    let c = st.namespaces.len() - 1;
    let ns = st.current_namespace()->0;
    assert forall|j: int| c < j < st3.chain().len() implies (#[trigger] st3.chain()[j]).name != Some(ns) by {
        assert(st3.chain()[j] == st.scopes[j - st.namespaces.len()]);
    }
    lemma_named_is(st3.chain(), ns, c, st3.chain().len() as int);
}

/// At top level, `(undef k)` undoes `(def k v)` for a symbol `k` without
/// `::` that the current namespace did not bind, with a value form `v` that
/// evaluates to itself: `undef` gives back `v` and the environment is as it
/// was before the `def`.
pub proof fn law_def_undef_roundtrip(st: EnvState, k: Expression, v: Expression, key: Sym)
    requires
        st.wf(),
        st.valid_exp(k),
        st.valid_exp(v),
        st.node(k) == Node::Symbol(key),
        is_literal(st.node(v)),
        first_sep(st.names[key as int]) is None,
        st.scopes.len() == 0,
        !st.namespaces.last().data.contains_key(key),
    ensures
        ({
            let (st1, r1) = builtin_def_spec(st, seq![k, v]);
            let (st2, r2) = builtin_undef_spec(st1, seq![k]);
            &&& r1 == Ok::<Expression, LispError>(v)
            &&& r2 == Ok::<Expression, LispError>(v)
            &&& st2 == st
        }),
{
    let args = seq![k, v];
    assert(args[0] == k && args[1] == v && args.last() == v);
    let args1 = seq![k];
    assert(args1[0] == k);
    let c = st.namespaces.len() - 1;
    let rv = RefState { exp: v, namespace: st.current_namespace(), doc: None };
    let scope = st.namespaces[c];
    assert(st.chain()[c] == scope);
    let st1 = st.bind_in(c, key, rv);
    let bound = ScopeState { name: scope.name, data: scope.data.insert(key, rv) };
    lemma_chain_with_scope(st, c, bound);
    assert(st1.current_index() == c);
    assert(st1.chain()[c] == bound);
    lemma_chain_with_scope(st1, c, ScopeState { name: scope.name, data: bound.data.remove(key) });
    assert(bound.data.remove(key) =~= scope.data);
    assert(st1.unbind_in(c, key).namespaces =~= st.namespaces);
    assert(st1.unbind_in(c, key) == st);
}

/// `(ref k)` gives what evaluating the symbol `k` gives, without changing the
/// state: the expression that `k` resolves to, and when `k` resolves to
/// nothing, `RefUnbound(k)` where evaluation fails with `SymbolNotFound(k)`.
pub proof fn law_ref_agrees_with_eval(st: EnvState, k: Expression, key: Sym)
    requires
        st.wf(),
        st.valid_exp(k),
        st.node(k) == Node::Symbol(key),
    ensures
        eval_spec(st, k).0 == st,
        builtin_ref_spec(st, seq![k]) == (st, match eval_spec(st, k).1 {
            Ok(x) => Ok::<Expression, LispError>(x),
            Err(_) => Err::<Expression, LispError>(LispError::RefUnbound(key)),
        }),
        eval_spec(st, k).1 is Err ==> eval_spec(st, k).1 == Err::<Expression, LispError>(LispError::SymbolNotFound(key)),
{
    let args = seq![k];
    assert(args[0] == k);
}

/// Making a binding from a value form evaluates it once: the state is what
/// evaluating the form leaves, an error is the form's error, and the binding
/// made is to the expression that the form evaluates to.
proof fn lemma_binding_is_value(st: EnvState, namespace: Option<Sym>, doc: Option<Seq<char>>, v: Expression)
    requires
        st.wf(),
        st.valid_exp(v),
    ensures
        ({
            let (sa, ra) = val_to_reference_spec(st, namespace, doc, v);
            let (sb, rb) = eval_spec(st, v);
            &&& sa == sb
            &&& match rb {
                Ok(x) => ra matches Ok((b, y)) && y == x && b.exp == x,
                Err(e) => ra == Err::<(RefState, Expression), LispError>(e),
            }
        }),
{
}

/// `(def? f)` for a list or vector form `f` that evaluates to a symbol `s`
/// gives a new `t` when `s` resolves to a binding in the state that
/// evaluating `f` left, and a new `nil` when it does not; the form is
/// evaluated once and nothing else changes.
pub proof fn law_is_def_of_form(st: EnvState, f: Expression, s: Sym)
    requires
        st.wf(),
        st.valid_exp(f),
        (st.node(f) matches Node::List(items) && items.len() > 0) || st.node(f) is Vector,
        eval_spec(st, f).1 matches Ok(v) && symbol_of(eval_spec(st, f).0, v) == Some(s),
    ensures
        ({
            let st1 = eval_spec(st, f).0;
            let (st2, r) = builtin_is_def_spec(st, seq![f]);
            &&& r == Ok::<Expression, LispError>(st1.next_exp())
            &&& st2.heap == st1.heap.push(if st1.lookup(s) is Some { Node::True } else { Node::Nil })
            &&& st2.scopes == st1.scopes
            &&& st2.namespaces == st1.namespaces
            &&& st2.dynamic == st1.dynamic
            &&& st2.names == st1.names
        }),
{
    let args = seq![f];
    assert(args[0] == f);
}

/// The magnitude of an integer.
pub open spec fn abs_int(n: int) -> int {
    if n < 0 { -n } else { n }
}

/// A frame number `n` of `:regs n` and `:dasm n` names frame `|n|` of the
/// call stack whenever `1 <= |n| <= depth`, the same frame for both commands,
/// and names nothing (the line does nothing) otherwise.
pub proof fn law_debug_frame_numbers(n: int, has_err_frame: bool, depth: int)
    requires
        0 <= depth <= usize::MAX,
    ensures
        1 <= abs_int(n) <= depth ==> {
            &&& debug_action_spec(seq![DebugVal::Keyword("regs"@), DebugVal::Int(n)], has_err_frame, depth)
                == DebugAction::DumpRegs(FrameRef::CallStack(abs_int(n) as usize))
            &&& debug_action_spec(seq![DebugVal::Keyword("dasm"@), DebugVal::Int(n)], has_err_frame, depth)
                == DebugAction::Disassemble(FrameRef::CallStack(abs_int(n) as usize))
        },
        !(1 <= abs_int(n) <= depth) ==> {
            &&& debug_action_spec(seq![DebugVal::Keyword("regs"@), DebugVal::Int(n)], has_err_frame, depth)
                == DebugAction::Nothing
            &&& debug_action_spec(seq![DebugVal::Keyword("dasm"@), DebugVal::Int(n)], has_err_frame, depth)
                == DebugAction::Nothing
        },
{
    reveal_strlit("regs");
    reveal_strlit("dasm");
    reveal_strlit("abort");
    reveal_strlit("globals");
    let r = seq![DebugVal::Keyword("regs"@), DebugVal::Int(n)];
    let d = seq![DebugVal::Keyword("dasm"@), DebugVal::Int(n)];
    assert(r[0] == DebugVal::Keyword("regs"@) && r[1] == DebugVal::Int(n));
    assert(d[0] == DebugVal::Keyword("dasm"@) && d[1] == DebugVal::Int(n));
    assert("regs"@.len() == 4 && "dasm"@.len() == 4 && "abort"@.len() == 5 && "globals"@.len() == 7);
    assert("regs"@[0] != "dasm"@[0]);
}

/// `(def k v)` for a key `k` without `::` evaluates the value form `v` once
/// and, when it gives `x`, binds `k` to `x` in the current namespace and
/// gives `x` back; every lexical scope, the other namespaces, the other
/// bindings of the current namespace and the dynamic bindings are as the
/// evaluation of `v` left them, whether or not a lexical scope binds `k`.
/// When `v` fails, `def` fails with its error and binds nothing.
pub proof fn law_def_binds_in_namespace(st: EnvState, k: Expression, v: Expression, key: Sym)
    requires
        st.wf(),
        st.valid_exp(k),
        st.valid_exp(v),
        st.node(k) == Node::Symbol(key),
        first_sep(st.names[key as int]) is None,
    ensures
        ({
            let (st2, r) = eval_spec(st, v);
            let (st3, res) = builtin_def_spec(st, seq![k, v]);
            let last = st3.namespaces.len() - 1;
            match r {
                Err(e) => res == Err::<Expression, LispError>(e) && st3 == st2,
                Ok(x) => {
                    &&& res == Ok::<Expression, LispError>(x)
                    &&& st3.scopes == st2.scopes
                    &&& st3.dynamic == st2.dynamic
                    &&& st3.heap == st2.heap
                    &&& st3.names == st2.names
                    &&& st3.namespaces.len() == st2.namespaces.len()
                    &&& forall|i: int| 0 <= i < last ==> #[trigger] st3.namespaces[i] == st2.namespaces[i]
                    &&& st3.namespaces[last].name == st2.namespaces[last].name
                    &&& st3.namespaces[last].data.contains_key(key)
                    &&& st3.namespaces[last].data[key].exp == x
                    &&& st3.namespaces[last].data == st2.namespaces[last].data.insert(key, st3.namespaces[last].data[key])
                },
            }
        }),
{
    let args = seq![k, v];
    assert(args[0] == k && args[1] == v && args.last() == v);
    lemma_binding_is_value(st, st.current_namespace(), None, v);
    lemma_eval(st, v);
    let st2 = eval_spec(st, v).0;
    if let Ok(x) = eval_spec(st, v).1 {
        let rf = val_to_reference_spec(st, st.current_namespace(), None, v).1->Ok_0.0;
        let c = st2.namespaces.len() - 1;
        let sc = ScopeState { name: st2.chain()[c].name, data: st2.chain()[c].data.insert(key, rf) };
        lemma_chain_with_scope(st2, c, sc);
        assert(st2.chain()[c] == st2.namespaces[c]);
        let st3 = st2.bind_in(c, key, rf);
        assert(st3.namespaces == st2.namespaces.update(c, sc));
    }
}

/// Inside a lexical scope that does not bind `k`, `(var k v)` evaluates the
/// value form `v` once and, when it gives `x`, binds `k` to `x` in the
/// innermost scope and gives `x` back, so that `(ref k)` then gives `x`
/// unless `k` has a dynamic binding.  When `v` fails, `var` fails with its
/// error and binds nothing.
pub proof fn law_var_binds_value(st: EnvState, k: Expression, v: Expression, key: Sym)
    requires
        st.wf(),
        st.valid_exp(k),
        st.valid_exp(v),
        st.node(k) == Node::Symbol(key),
        st.scopes.len() > 0,
        !st.scopes.last().data.contains_key(key),
    ensures
        ({
            let (st2, r) = eval_spec(st, v);
            let (st3, res) = builtin_var_spec(st, seq![k, v]);
            match r {
                Err(e) => res == Err::<Expression, LispError>(e) && st3 == st2,
                Ok(x) => {
                    &&& res == Ok::<Expression, LispError>(x)
                    &&& st3.scopes.last().data.contains_key(key)
                    &&& st3.scopes.last().data[key].exp == x
                    &&& st3 == st2.bind_in(st2.current_index(), key, st3.scopes.last().data[key])
                    &&& !st.dynamic.contains_key(key) ==> builtin_ref_spec(st3, seq![k]) == (st3, Ok::<Expression, LispError>(x))
                },
            }
        }),
{
    let args = seq![k, v];
    assert(args[0] == k && args[1] == v && args.last() == v);
    let args1 = seq![k];
    assert(args1[0] == k);
    lemma_binding_is_value(st, None, None, v);
    lemma_eval(st, v);
    let st2 = eval_spec(st, v).0;
    if let Ok(x) = eval_spec(st, v).1 {
        let rf = val_to_reference_spec(st, None, None, v).1->Ok_0.0;
        let c = st2.current_index();
        let sc = ScopeState { name: st2.chain()[c].name, data: st2.chain()[c].data.insert(key, rf) };
        lemma_chain_with_scope(st2, c, sc);
        lemma_find_after_bind(st2, c, key, rf);
        let st3 = st2.bind_in(c, key, rf);
        assert(st3.scopes.last() == st3.chain()[c]);
        assert(st2.chain().len() == st.chain().len());
        assert(st3.heap[k.handle as int] == st.heap[k.handle as int]);
    }
}

/// `(set! k v)` for a symbol `k` that resolves to a binding evaluates the
/// value form `v` once and, when it gives `x`, gives `x` back and leaves the
/// binding that `k` resolved to (its dynamic binding, else its binding in
/// the innermost scope that binds it) bound to `x`; when evaluating `v`
/// changes nothing (a literal, a symbol), `(ref k)` then gives `x`.  When `v`
/// fails, `set!` fails with its error and binds nothing.
pub proof fn law_set_binds_value(st: EnvState, k: Expression, v: Expression, key: Sym)
    requires
        st.wf(),
        st.valid_exp(k),
        st.valid_exp(v),
        st.node(k) == Node::Symbol(key),
        st.lookup(key) is Some,
    ensures
        ({
            let (st2, r) = eval_spec(st, v);
            let (st3, res) = builtin_set_spec(st, seq![k, v]);
            match r {
                Err(e) => res == Err::<Expression, LispError>(e) && st3 == st2,
                Ok(x) => {
                    &&& res == Ok::<Expression, LispError>(x)
                    &&& st.dynamic.contains_key(key) ==> st3.dynamic.contains_key(key) && st3.dynamic[key].exp == x
                    &&& !st.dynamic.contains_key(key) ==> {
                        let c = st.find_scope(key)->0;
                        st3.chain()[c].data.contains_key(key) && st3.chain()[c].data[key].exp == x
                    }
                    &&& st2 == st ==> builtin_ref_spec(st3, seq![k]) == (st3, Ok::<Expression, LispError>(x))
                },
            }
        }),
{
    let args = seq![k, v];
    assert(args[0] == k && args[1] == v && args.last() == v);
    let args1 = seq![k];
    assert(args1[0] == k);
    lemma_innermost_in(st.chain(), key, st.chain().len() as int);
    lemma_eval(st, v);
    let st2 = eval_spec(st, v).0;
    assert(st2.heap[k.handle as int] == st.heap[k.handle as int]);
    if st.dynamic.contains_key(key) {
        lemma_binding_is_value(st, None, None, v);
    } else {
        let c = st.find_scope(key)->0;
        lemma_binding_is_value(st, st.chain()[c].name, None, v);
        if let Ok(x) = eval_spec(st, v).1 {
            let rf = val_to_reference_spec(st, st.chain()[c].name, None, v).1->Ok_0.0;
            let sc = ScopeState { name: st2.chain()[c].name, data: st2.chain()[c].data.insert(key, rf) };
            assert(st2.chain().len() == st.chain().len());
            lemma_chain_with_scope(st2, c, sc);
            if st2 == st {
                lemma_find_after_bind(st, c, key, rf);
            }
        }
    }
}

} // verus!
