use vstd::prelude::*;

use std::collections::HashMap;
use std::hash::BuildHasher;

use crate::bind_docs::{
    builtin_at, builtin_at_index, builtin_doc, builtin_doc_str, builtin_index, builtin_is_function_exec,
    builtin_name, builtin_name_str, builtin_node, lemma_builtin_names_distinct, BUILTIN_COUNT,
};
use crate::builtins_util::params_done;
use crate::environment::{
    dynamic_contains, dynamic_insert, dynamic_remove, get_expression, get_symbols_scope,
    insert_into_scope, is_expression, remove_expression_current, scope_name,
    set_expression_current_namespace, push_new_scope, pop_scope, refs_view, lemma_refs_view_insert,
    Environment, ScopeRef,
    lemma_extends_refl, lemma_extends_trans, lemma_lookup_valid, lemma_wf_bind_in,
    lemma_wf_dynamic_insert, lemma_wf_dynamic_remove, lemma_wf_intern, lemma_wf_pop_scope,
    lemma_wf_push_scope, lemma_wf_unbind_in, lemma_wf_with_node, EnvState, ScopeState,
};
use crate::eval::{eval, eval_spec, lemma_eval};
use crate::interner::{
    find_name, lemma_find_name_some, names_distinct, lemma_find_name_stable, lemma_intern_names_index, lemma_names_distinct_intern,
    Interner, Sym,
};
use crate::types::{
    args_bound, lemma_args_bound, opt_string_view, Builtin, ExpEnum, Expression, Heap, LispError, Node,
    RefMetaData, RefState, Reference,
};

verus! {

broadcast use vstd::std_specs::hash::group_hash_axioms;

/// The symbol that `e` is, if it is one.
pub open spec fn symbol_of(st: EnvState, e: Expression) -> Option<Sym> {
    if st.valid_exp(e) {
        match st.node(e) {
            Node::Symbol(s) => Some(s),
            _ => None,
        }
    } else {
        None
    }
}

/// The text of `e` when it is a string.
pub open spec fn string_of(st: EnvState, e: Expression) -> Option<Seq<char>> {
    if st.valid_exp(e) {
        match st.node(e) {
            Node::Str(t) => Some(t),
            _ => None,
        }
    } else {
        None
    }
}

/// The value form of a binding form: its last argument.
pub open spec fn binding_value(args: Seq<Expression>) -> Expression {
    args.last()
}

/// Parsing the arguments of `set!`, `def` and `var`: a symbol, an optional
/// docstring form (evaluated) and a value form (not evaluated here).
pub open spec fn proc_set_vars_spec(st: EnvState, args: Seq<Expression>) -> (EnvState, Result<(Sym, Option<Seq<char>>), LispError>)
    decreases args_bound(args), 0nat, 0nat,
{
    if args.len() < 2 {
        (st, Err(LispError::BindingArity))
    } else {
        match symbol_of(st, args[0]) {
            None => (st, Err(LispError::BindingKeyNotSymbol)),
            Some(k) => if args.len() == 2 {
                (st, Ok((k, None)))
            } else if args.len() == 3 {
                proof { lemma_args_bound(args); }
                let (st1, r) = eval_spec(st, args[1]);
                match r {
                    Err(e) => (st1, Err(e)),
                    Ok(d) => (st1, Ok((k, string_of(st1, d)))),
                }
            } else {
                (st, Err(LispError::BindingArity))
            },
        }
    }
}

/// The binding that a value form gives: when the form is a bound symbol, its
/// existing binding is shared; otherwise a new binding of the form's value.
pub open spec fn val_to_reference_spec(
    st: EnvState,
    namespace: Option<Sym>,
    doc: Option<Seq<char>>,
    val_in: Expression,
) -> (EnvState, Result<(RefState, Expression), LispError>)
    decreases val_in.handle + 1, 0nat, 0nat,
{
    let (st1, r) = eval_spec(st, val_in);
    match r {
        Err(e) => (st1, Err(e)),
        Ok(v) => match symbol_of(st, val_in) {
            Some(s) if st.lookup(s).is_some() => (st1, Ok((st.lookup(s).unwrap(), v))),
            _ => (st1, Ok((RefState { exp: v, namespace, doc }, v))),
        },
    }
}

/// Evaluating `args[i..]` one after another, keeping the last value.
pub open spec fn lex_loop_spec(st: EnvState, args: Seq<Expression>, i: int, ret: Option<Expression>) -> (EnvState, Result<Option<Expression>, LispError>)
    decreases args_bound(args), 0nat, (if i < args.len() { args.len() - i } else { 0 }) as nat,
{
    if i < 0 || i >= args.len() {
        (st, Ok(ret))
    } else {
        proof { lemma_args_bound(args); }
        let (st1, r) = eval_spec(st, args[i]);
        match r {
            Err(e) => (st1, Err(e)),
            Ok(v) => lex_loop_spec(st1, args, i + 1, Some(v)),
        }
    }
}

/// `(lex exp0 ... expN)`: evaluates the forms in a new lexical scope, which is
/// removed afterwards, and gives the last value (nil when there is none).
pub open spec fn builtin_lex_spec(st: EnvState, args: Seq<Expression>) -> (EnvState, Result<Expression, LispError>)
    decreases args_bound(args), 1nat, 0nat,
{
    let (st1, r) = lex_loop_spec(st.push_scope(), args, 0, None);
    let st2 = st1.pop_scope();
    match r {
        Err(e) => (st2, Err(e)),
        Ok(Some(v)) => (st2, Ok(v)),
        Ok(None) => (st2.with_node(Node::Nil), Ok(st2.next_exp())),
    }
}

/// `(set! symbol [doc] expression)`: rebinds the dynamic binding of the
/// symbol, else its binding in the innermost scope that binds it.
pub open spec fn builtin_set_spec(st: EnvState, args: Seq<Expression>) -> (EnvState, Result<Expression, LispError>)
    decreases args_bound(args), 1nat, 0nat,
{
    let (st1, p) = proc_set_vars_spec(st, args);
    match p {
        Err(e) => (st1, Err(e)),
        Ok((key, doc)) => if args.len() == 0 {
            (st1, Err(LispError::BindingArity))
        } else {
            proof { lemma_args_bound(args); }
            let val = binding_value(args);
            if st1.dynamic.contains_key(key) {
                let (st2, v) = val_to_reference_spec(st1, None, doc, val);
                match v {
                    Err(e) => (st2, Err(e)),
                    Ok((r, x)) => (st2.with_dynamic(st2.dynamic.insert(key, r)), Ok(x)),
                }
            } else {
                match st1.find_scope(key) {
                    Some(c) => {
                        let (st2, v) = val_to_reference_spec(st1, st1.chain()[c].name, doc, val);
                        match v {
                            Err(e) => (st2, Err(e)),
                            Ok((r, x)) => (st2.bind_in(c, key, r), Ok(x)),
                        }
                    },
                    None => (st1, Err(LispError::SetUnbound)),
                }
            }
        },
    }
}

/// Position of the first `::` in `s` at or after `i`.
pub open spec fn first_sep_from(s: Seq<char>, i: int) -> Option<int>
    decreases s.len() - i,
{
    if i < 0 || i + 1 >= s.len() {
        None
    } else if s[i] == ':' && s[i + 1] == ':' {
        Some(i)
    } else {
        first_sep_from(s, i + 1)
    }
}

/// Position of the first `::` in `s`.
pub open spec fn first_sep(s: Seq<char>) -> Option<int> {
    first_sep_from(s, 0)
}

/// A separator that `first_sep_from` finds is a `::` at or after `i`.
pub proof fn lemma_first_sep_from(s: Seq<char>, i: int)
    ensures
        first_sep_from(s, i) matches Some(j) ==> i <= j && j + 1 < s.len() && s[j] == ':' && s[j + 1] == ':',
    decreases s.len() - i,
{
    if 0 <= i && i + 1 < s.len() && !(s[i] == ':' && s[i + 1] == ':') {
        lemma_first_sep_from(s, i + 1);
    }
}

/// Index of the innermost of the first `n` scopes of `chain` named `ns`.
pub open spec fn find_named_in(chain: Seq<ScopeState>, ns: Sym, n: int) -> Option<int>
    decreases n,
{
    if n <= 0 {
        None
    } else if chain[n - 1].name == Some(ns) {
        Some(n - 1)
    } else {
        find_named_in(chain, ns, n - 1)
    }
}

/// `(def symbol [doc] expression)`: binds the symbol in the current namespace;
/// `(def namespace::symbol ...)` binds it in the innermost enclosing scope
/// named `namespace` (`ns` standing for the current namespace).
pub open spec fn builtin_def_spec(st: EnvState, args: Seq<Expression>) -> (EnvState, Result<Expression, LispError>)
    decreases args_bound(args), 1nat, 0nat,
{
    let (st1, p) = proc_set_vars_spec(st, args);
    match p {
        Err(e) => (st1, Err(e)),
        Ok((key, doc)) => if args.len() == 0 {
            (st1, Err(LispError::BindingArity))
        } else {
            proof { lemma_args_bound(args); }
            let val = binding_value(args);
            let name = st1.names[key as int];
            match first_sep(name) {
                Some(i) => {
                    let ns_text = name.subrange(0, i);
                    let key_text = name.subrange(i + 2, name.len() as int);
                    let (st2, ns) = if ns_text == "ns"@ {
                        match st1.current_namespace() {
                            Some(n) => (st1, n),
                            None => st1.intern("NO_NAME"@),
                        }
                    } else {
                        st1.intern(ns_text)
                    };
                    let (st3, k) = st2.intern(key_text);
                    match find_named_in(st3.chain(), ns, st3.chain().len() as int) {
                        Some(c) => {
                            let (st4, v) = val_to_reference_spec(st3, Some(ns), doc, val);
                            match v {
                                Err(e) => (st4, Err(e)),
                                Ok((r, x)) => (st4.bind_in(c, k, r), Ok(x)),
                            }
                        },
                        None => (st3, Err(LispError::DefNamespace(key))),
                    }
                },
                None => {
                    let (st2, v) = val_to_reference_spec(st1, st1.current_namespace(), doc, val);
                    match v {
                        Err(e) => (st2, Err(e)),
                        Ok((r, x)) => (st2.bind_in(st2.namespaces.len() - 1, key, r), Ok(x)),
                    }
                },
            }
        },
    }
}

/// `(var symbol [doc] expression)`: binds a new symbol in the innermost
/// lexical scope.
pub open spec fn builtin_var_spec(st: EnvState, args: Seq<Expression>) -> (EnvState, Result<Expression, LispError>)
    decreases args_bound(args), 1nat, 0nat,
{
    let (st1, p) = proc_set_vars_spec(st, args);
    match p {
        Err(e) => (st1, Err(e)),
        Ok((key, doc)) => if args.len() == 0 {
            (st1, Err(LispError::BindingArity))
        } else if st1.scopes.len() == 0 {
            (st1, Err(LispError::VarNoScope))
        } else if st1.scopes.last().data.contains_key(key) {
            (st1, Err(LispError::VarExists(key)))
        } else {
            proof { lemma_args_bound(args); }
            let (st2, v) = val_to_reference_spec(st1, None, doc, binding_value(args));
            match v {
                Err(e) => (st2, Err(e)),
                Ok((r, x)) => (st2.bind_in(st2.chain().len() - 1, key, r), Ok(x)),
            }
        },
    }
}

/// `(undef symbol)`: removes the symbol from the current scope.
pub open spec fn builtin_undef_spec(st: EnvState, args: Seq<Expression>) -> (EnvState, Result<Expression, LispError>) {
    if args.len() == 1 {
        match symbol_of(st, args[0]) {
            Some(k) => {
                let c = st.current_index();
                if st.chain()[c].data.contains_key(k) {
                    (st.unbind_in(c, k), Ok(st.chain()[c].data[k].exp))
                } else {
                    (st, Err(LispError::UndefNotDefined(k)))
                }
            },
            None => (st, Err(LispError::UndefArity)),
        }
    } else {
        (st, Err(LispError::UndefArity))
    }
}

/// `(dyn key value expression)`: evaluates the expression with key
/// dynamically bound to value; the previous dynamic binding of key is back
/// afterwards, whether the expression succeeds or fails.  Given any other
/// number of forms it fails once key and value are evaluated, leaving the
/// dynamic bindings as they are.
pub open spec fn builtin_dyn_spec(st: EnvState, args: Seq<Expression>) -> (EnvState, Result<Expression, LispError>)
    decreases args_bound(args), 1nat, 0nat,
{
    if args.len() == 0 {
        (st, Err(LispError::DynKeyValue))
    } else {
        proof { lemma_args_bound(args); }
        let (st1, kr) = eval_spec(st, args[0]);
        match kr {
            Err(e) => (st1, Err(e)),
            Ok(kv) => if args.len() == 1 {
                (st1, Err(LispError::DynKeyValue))
            } else {
                match symbol_of(st1, kv) {
                    None => (st1, Err(LispError::DynKeyNotSymbol)),
                    Some(key) => {
                        let (st2, vr) = eval_spec(st1, args[1]);
                        match vr {
                            Err(e) => (st2, Err(e)),
                            Ok(val) => {
                                if args.len() == 3 {
                                    let st4 = st2.with_dynamic(
                                        st2.dynamic.insert(key, RefState { exp: val, namespace: None, doc: None }),
                                    );
                                    let (st5, res) = eval_spec(st4, args[2]);
                                    let restored = if st2.dynamic.contains_key(key) {
                                        st5.dynamic.insert(key, st2.dynamic[key])
                                    } else {
                                        st5.dynamic.remove(key)
                                    };
                                    (st5.with_dynamic(restored), res)
                                } else {
                                    (st2, Err(LispError::DynArity))
                                }
                            },
                        }
                    },
                }
            },
        }
    }
}

/// `t` when `s` resolves to a binding, else `nil`.
pub open spec fn is_def_result(st: EnvState, s: Sym) -> (EnvState, Result<Expression, LispError>) {
    if st.lookup(s).is_some() {
        (st.with_node(Node::True), Ok(st.next_exp()))
    } else {
        (st.with_node(Node::Nil), Ok(st.next_exp()))
    }
}

/// `def?` of a form: the form must evaluate to a symbol.
pub open spec fn is_def_form_spec(st: EnvState, key: Expression) -> (EnvState, Result<Expression, LispError>)
    decreases key.handle + 1, 0nat, 0nat,
{
    let (st1, r) = eval_spec(st, key);
    match r {
        Err(e) => (st1, Err(e)),
        Ok(v) => match symbol_of(st1, v) {
            Some(s) => is_def_result(st1, s),
            None => (st1, Err(LispError::IsDefListNotSymbol)),
        },
    }
}

/// `(def? expression)`: whether a symbol (not evaluated), or the symbol that a
/// list or vector form evaluates to, is bound; the empty list is no form.
pub open spec fn builtin_is_def_spec(st: EnvState, args: Seq<Expression>) -> (EnvState, Result<Expression, LispError>)
    decreases args_bound(args), 1nat, 0nat,
{
    if args.len() == 0 {
        (st, Err(LispError::IsDefArity))
    } else if args.len() > 1 {
        (st, Err(LispError::TooManyForms(Builtin::IsDef)))
    } else if !st.valid_exp(args[0]) {
        (st, Err(LispError::IsDefNotSymbol))
    } else {
        match st.node(args[0]) {
            Node::Symbol(s) => is_def_result(st, s),
            Node::List(items) if items.len() > 0 => {
                proof { lemma_args_bound(args); }
                is_def_form_spec(st, args[0])
            },
            Node::Vector(_) => {
                proof { lemma_args_bound(args); }
                is_def_form_spec(st, args[0])
            },
            _ => (st, Err(LispError::IsDefNotSymbol)),
        }
    }
}

/// `(ref symbol)`: the expression that the symbol (not evaluated) resolves to.
pub open spec fn builtin_ref_spec(st: EnvState, args: Seq<Expression>) -> (EnvState, Result<Expression, LispError>) {
    if args.len() == 0 {
        (st, Err(LispError::RefArity))
    } else if args.len() > 1 {
        (st, Err(LispError::TooManyForms(Builtin::Ref)))
    } else {
        match symbol_of(st, args[0]) {
            Some(s) => match st.lookup(s) {
                Some(r) => (st, Ok(r.exp)),
                None => (st, Err(LispError::RefUnbound(s))),
            },
            None => (st, Err(LispError::RefNotSymbol)),
        }
    }
}

/// Parsing binding arguments keeps the state sound; success means two or three forms.
pub proof fn lemma_proc_set_vars(st: EnvState, args: Seq<Expression>)
    requires
        st.wf(),
        st.args_valid(args),
    ensures
        ({
            let (st1, p) = proc_set_vars_spec(st, args);
            &&& st1.wf()
            &&& st.extends_to(st1)
            &&& (p is Ok ==> args.len() == 2 || args.len() == 3)
        }),
    decreases args_bound(args), 0nat, 0nat,
{
    lemma_extends_refl(st);
    if args.len() == 3 && symbol_of(st, args[0]) is Some {
        lemma_args_bound(args);
        lemma_eval(st, args[1]);
    }
}

/// Making a binding keeps the state sound and gives nodes of it.
pub proof fn lemma_val_to_reference(st: EnvState, namespace: Option<Sym>, doc: Option<Seq<char>>, val_in: Expression)
    requires
        st.wf(),
        st.valid_exp(val_in),
    ensures
        ({
            let (st1, r) = val_to_reference_spec(st, namespace, doc, val_in);
            &&& st1.wf()
            &&& st.extends_to(st1)
            &&& (r matches Ok((rf, x)) ==> st1.valid_exp(rf.exp) && st1.valid_exp(x))
        }),
    decreases val_in.handle + 1, 0nat, 0nat,
{
    lemma_eval(st, val_in);
    if let Some(s) = symbol_of(st, val_in) {
        lemma_lookup_valid(st, s);
    }
}

/// Evaluating the forms of `lex` keeps the state sound.
pub proof fn lemma_lex_loop(st: EnvState, args: Seq<Expression>, i: int, ret: Option<Expression>)
    requires
        st.wf(),
        st.args_valid(args),
        ret matches Some(v) ==> st.valid_exp(v),
    ensures
        ({
            let (st1, r) = lex_loop_spec(st, args, i, ret);
            &&& st1.wf()
            &&& st.extends_to(st1)
            &&& (r matches Ok(Some(v)) ==> st1.valid_exp(v))
        }),
    decreases args_bound(args), 0nat, (if i < args.len() { args.len() - i } else { 0 }) as nat,
{
    lemma_extends_refl(st);
    if 0 <= i < args.len() {
        lemma_args_bound(args);
        lemma_eval(st, args[i]);
        let (st1, r) = eval_spec(st, args[i]);
        if let Ok(v) = r {
            lemma_lex_loop(st1, args, i + 1, Some(v));
            lemma_extends_trans(st, st1, lex_loop_spec(st1, args, i + 1, Some(v)).0);
        }
    }
}

/// `lex` keeps the state sound.
pub proof fn lemma_lex(st: EnvState, args: Seq<Expression>)
    requires
        st.wf(),
        st.args_valid(args),
    ensures
        st.sound_step(builtin_lex_spec(st, args)),
    decreases args_bound(args), 1nat, 0nat,
{
    let st0 = st.push_scope();
    lemma_wf_push_scope(st);
    lemma_lex_loop(st0, args, 0, None);
    let (st1, r) = lex_loop_spec(st0, args, 0, None);
    lemma_wf_pop_scope(st1);
    let st2 = st1.pop_scope();
    if r matches Ok(None) {
        lemma_wf_with_node(st2, Node::Nil);
    }
}

/// `set!` keeps the state sound.
pub proof fn lemma_set(st: EnvState, args: Seq<Expression>)
    requires
        st.wf(),
        st.args_valid(args),
    ensures
        st.sound_step(builtin_set_spec(st, args)),
    decreases args_bound(args), 1nat, 0nat,
{
    lemma_proc_set_vars(st, args);
    let (st1, p) = proc_set_vars_spec(st, args);
    if let Ok((key, doc)) = p {
        lemma_args_bound(args);
        let val = binding_value(args);
        assert(st.valid_exp(args[args.len() - 1]));
        if st1.dynamic.contains_key(key) {
            lemma_val_to_reference(st1, None, doc, val);
            let (st2, v) = val_to_reference_spec(st1, None, doc, val);
            if let Ok((r, x)) = v {
                lemma_wf_dynamic_insert(st2, key, r);
                assert(st2.dynamic.insert(key, r).dom().subset_of(st.dynamic.dom()));
            }
        } else {
            crate::environment::lemma_innermost_in(st1.chain(), key, st1.chain().len() as int);
            if let Some(c) = st1.find_scope(key) {
                lemma_val_to_reference(st1, st1.chain()[c].name, doc, val);
                let (st2, v) = val_to_reference_spec(st1, st1.chain()[c].name, doc, val);
                if let Ok((r, x)) = v {
                    lemma_wf_bind_in(st2, c, key, r);
                    lemma_extends_trans(st, st1, st2);
                    lemma_extends_trans(st, st2, st2.bind_in(c, key, r));
                }
            }
        }
    }
}

/// What `find_named_in` gives is the innermost scope with that name.
pub proof fn lemma_find_named_in(chain: Seq<ScopeState>, ns: Sym, n: int)
    requires
        n <= chain.len(),
    ensures
        match find_named_in(chain, ns, n) {
            Some(c) => 0 <= c < n && chain[c].name == Some(ns)
                && forall|j: int| c < j < n ==> (#[trigger] chain[j]).name != Some(ns),
            None => forall|j: int| 0 <= j < n ==> (#[trigger] chain[j]).name != Some(ns),
        },
    decreases n,
{
    if n > 0 {
        lemma_find_named_in(chain, ns, n - 1);
    }
}

/// `def` keeps the state sound.
pub proof fn lemma_def(st: EnvState, args: Seq<Expression>)
    requires
        st.wf(),
        st.args_valid(args),
    ensures
        st.sound_step(builtin_def_spec(st, args)),
    decreases args_bound(args), 1nat, 0nat,
{
    lemma_proc_set_vars(st, args);
    let (st1, p) = proc_set_vars_spec(st, args);
    if let Ok((key, doc)) = p {
        lemma_args_bound(args);
        let val = binding_value(args);
        assert(st.valid_exp(args[args.len() - 1]));
        let name = st1.names[key as int];
        match first_sep(name) {
            Some(i) => {
                let ns_text = name.subrange(0, i);
                let key_text = name.subrange(i + 2, name.len() as int);
                let (st2, ns) = if ns_text == "ns"@ {
                    match st1.current_namespace() {
                        Some(n) => (st1, n),
                        None => st1.intern("NO_NAME"@),
                    }
                } else {
                    st1.intern(ns_text)
                };
                lemma_extends_refl(st1);
                lemma_wf_intern(st1, "NO_NAME"@);
                lemma_wf_intern(st1, ns_text);
                lemma_wf_intern(st2, key_text);
                let (st3, k) = st2.intern(key_text);
                lemma_extends_trans(st, st1, st2);
                lemma_extends_trans(st, st2, st3);
                lemma_find_named_in(st3.chain(), ns, st3.chain().len() as int);
                if let Some(c) = find_named_in(st3.chain(), ns, st3.chain().len() as int) {
                    lemma_val_to_reference(st3, Some(ns), doc, val);
                    let (st4, v) = val_to_reference_spec(st3, Some(ns), doc, val);
                    lemma_extends_trans(st, st3, st4);
                    if let Ok((r, x)) = v {
                        lemma_wf_bind_in(st4, c, k, r);
                        lemma_extends_trans(st, st4, st4.bind_in(c, k, r));
                    }
                }
            },
            None => {
                lemma_val_to_reference(st1, st1.current_namespace(), doc, val);
                let (st2, v) = val_to_reference_spec(st1, st1.current_namespace(), doc, val);
                lemma_extends_trans(st, st1, st2);
                if let Ok((r, x)) = v {
                    lemma_wf_bind_in(st2, st2.namespaces.len() - 1, key, r);
                    lemma_extends_trans(st, st2, st2.bind_in(st2.namespaces.len() - 1, key, r));
                }
            },
        }
    }
}

/// `var` keeps the state sound.
pub proof fn lemma_var(st: EnvState, args: Seq<Expression>)
    requires
        st.wf(),
        st.args_valid(args),
    ensures
        st.sound_step(builtin_var_spec(st, args)),
    decreases args_bound(args), 1nat, 0nat,
{
    lemma_proc_set_vars(st, args);
    let (st1, p) = proc_set_vars_spec(st, args);
    if let Ok((key, doc)) = p {
        if st1.scopes.len() > 0 && !st1.scopes.last().data.contains_key(key) {
            lemma_args_bound(args);
            assert(st.valid_exp(args[args.len() - 1]));
            lemma_val_to_reference(st1, None, doc, binding_value(args));
            let (st2, v) = val_to_reference_spec(st1, None, doc, binding_value(args));
            lemma_extends_trans(st, st1, st2);
            if let Ok((r, x)) = v {
                lemma_wf_bind_in(st2, st2.chain().len() - 1, key, r);
                lemma_extends_trans(st, st2, st2.bind_in(st2.chain().len() - 1, key, r));
            }
        }
    }
}

/// `undef` keeps the state sound.
pub proof fn lemma_undef(st: EnvState, args: Seq<Expression>)
    requires
        st.wf(),
        st.args_valid(args),
    ensures
        st.sound_step(builtin_undef_spec(st, args)),
{
    lemma_extends_refl(st);
    if args.len() == 1 {
        if let Some(k) = symbol_of(st, args[0]) {
            let c = st.current_index();
            if st.chain()[c].data.contains_key(k) {
                lemma_wf_unbind_in(st, c, k);
                assert(st.refs_valid(st.chain()[c].data));
            }
        }
    }
}

/// `dyn` keeps the state sound.
pub proof fn lemma_dyn(st: EnvState, args: Seq<Expression>)
    requires
        st.wf(),
        st.args_valid(args),
    ensures
        st.sound_step(builtin_dyn_spec(st, args)),
    decreases args_bound(args), 1nat, 0nat,
{
    lemma_extends_refl(st);
    if args.len() > 0 {
        lemma_args_bound(args);
        lemma_eval(st, args[0]);
        let (st1, kr) = eval_spec(st, args[0]);
        if let Ok(kv) = kr {
            if args.len() > 1 {
                if let Some(key) = symbol_of(st1, kv) {
                    lemma_eval(st1, args[1]);
                    let (st2, vr) = eval_spec(st1, args[1]);
                    lemma_extends_trans(st, st1, st2);
                    if let Ok(val) = vr {
                        if args.len() == 3 {
                            let st4 = st2.with_dynamic(
                                st2.dynamic.insert(key, RefState { exp: val, namespace: None, doc: None }),
                            );
                            lemma_wf_dynamic_insert(st2, key, RefState { exp: val, namespace: None, doc: None });
                            lemma_eval(st4, args[2]);
                            let (st5, res) = eval_spec(st4, args[2]);
                            if st2.dynamic.contains_key(key) {
                                assert(st2.refs_valid(st2.dynamic));
                                lemma_wf_dynamic_insert(st5, key, st2.dynamic[key]);
                                assert(st5.dynamic.insert(key, st2.dynamic[key]).dom().subset_of(st.dynamic.dom()));
                            } else {
                                lemma_wf_dynamic_remove(st5, key);
                                assert(st5.dynamic.remove(key).dom().subset_of(st.dynamic.dom()));
                            }
                        }
                    }
                }
            }
        }
    }
}

/// `def?` of a form keeps the state sound.
pub proof fn lemma_is_def_form(st: EnvState, key: Expression)
    requires
        st.wf(),
        st.valid_exp(key),
    ensures
        st.sound_step(is_def_form_spec(st, key)),
    decreases key.handle + 1, 0nat, 0nat,
{
    lemma_eval(st, key);
    let (st1, r) = eval_spec(st, key);
    if let Ok(v) = r {
        if let Some(s) = symbol_of(st1, v) {
            lemma_wf_with_node(st1, Node::True);
            lemma_wf_with_node(st1, Node::Nil);
            lemma_extends_trans(st, st1, is_def_result(st1, s).0);
        }
    }
}

/// `def?` keeps the state sound.
pub proof fn lemma_is_def(st: EnvState, args: Seq<Expression>)
    requires
        st.wf(),
        st.args_valid(args),
    ensures
        st.sound_step(builtin_is_def_spec(st, args)),
    decreases args_bound(args), 1nat, 0nat,
{
    lemma_extends_refl(st);
    if args.len() == 1 && st.valid_exp(args[0]) {
        match st.node(args[0]) {
            Node::Symbol(s) => {
                lemma_wf_with_node(st, Node::True);
                lemma_wf_with_node(st, Node::Nil);
            },
            Node::List(items) if items.len() > 0 => {
                lemma_args_bound(args);
                lemma_is_def_form(st, args[0]);
            },
            Node::Vector(_) => {
                lemma_args_bound(args);
                lemma_is_def_form(st, args[0]);
            },
            _ => {},
        }
    }
}

/// `ref` keeps the state sound.
pub proof fn lemma_ref(st: EnvState, args: Seq<Expression>)
    requires
        st.wf(),
        st.args_valid(args),
    ensures
        st.sound_step(builtin_ref_spec(st, args)),
{
    lemma_extends_refl(st);
    if args.len() == 1 {
        if let Some(s) = symbol_of(st, args[0]) {
            lemma_lookup_valid(st, s);
        }
    }
}

/// How the result of `proc_set_vars` stands to its model.
pub open spec fn set_vars_matches(
    r: Result<(Sym, Option<String>, Expression), LispError>,
    p: Result<(Sym, Option<Seq<char>>), LispError>,
    args: Seq<Expression>,
) -> bool {
    match (r, p) {
        (Ok((k, d, v)), Ok((k2, d2))) => k == k2 && opt_string_view(d) == d2 && v == binding_value(args),
        (Err(e), Err(e2)) => e == e2,
        _ => false,
    }
}

/// How the result of `val_to_reference` stands to its model.
pub open spec fn val_ref_matches(
    r: Result<(Reference, Expression), LispError>,
    p: Result<(RefState, Expression), LispError>,
) -> bool {
    match (r, p) {
        (Ok((rf, v)), Ok((rf2, v2))) => rf@ == rf2 && v == v2,
        (Err(e), Err(e2)) => e == e2,
        _ => false,
    }
}

/// The arguments of `set!`, `def` and `var`: the key symbol, the text of the
/// docstring when one is given (its form is evaluated), and the value form.
pub fn proc_set_vars(environment: &mut Environment, args: &[Expression]) -> (r: Result<(Sym, Option<String>, Expression), LispError>)
    requires
        old(environment).wf(),
        old(environment)@.args_valid(args@),
    ensures
        final(environment)@ == proc_set_vars_spec(old(environment)@, args@).0,
        set_vars_matches(r, proc_set_vars_spec(old(environment)@, args@).1, args@),
        final(environment).wf(),
        old(environment)@.extends_to(final(environment)@),
    decreases args_bound(args@), 0nat, 0nat,
{
    proof { lemma_proc_set_vars(environment@, args@); }
    if args.len() >= 2 {
        let key = match environment.node(args[0]) {
            ExpEnum::Symbol(s) => *s,
            _ => {
                return Err(LispError::BindingKeyNotSymbol);
            },
        };
        if args.len() == 2 {
            return Ok((key, None, args[1]));
        }
        if args.len() == 3 {
            proof { lemma_args_bound(args@); }
            let d = eval(environment, args[1])?;
            let doc_str = match environment.node(d) {
                ExpEnum::String(s) => Some(s.clone()),
                _ => None,
            };
            return Ok((key, doc_str, args[2]));
        }
    }
    Err(LispError::BindingArity)
}

/// The binding that the value form `val_in` gives, and its value.
pub fn val_to_reference(
    environment: &mut Environment,
    namespace: Option<Sym>,
    doc_string: Option<String>,
    val_in: Expression,
) -> (r: Result<(Reference, Expression), LispError>)
    requires
        old(environment).wf(),
        old(environment)@.valid_exp(val_in),
    ensures
        final(environment)@ == val_to_reference_spec(old(environment)@, namespace, opt_string_view(doc_string), val_in).0,
        val_ref_matches(r, val_to_reference_spec(old(environment)@, namespace, opt_string_view(doc_string), val_in).1),
        final(environment).wf(),
        old(environment)@.extends_to(final(environment)@),
    decreases val_in.handle + 1, 0nat, 0nat,
{
    proof { lemma_val_to_reference(environment@, namespace, opt_string_view(doc_string), val_in); }
    let existing = match environment.node(val_in) {
        ExpEnum::Symbol(s) => {
            let s = *s;
            get_expression(environment, s)
        },
        _ => None,
    };
    match existing {
        Some(reference) => {
            let val = eval(environment, val_in)?;
            Ok((reference, val))
        },
        None => {
            let val = eval(environment, val_in)?;
            Ok((Reference::new_rooted(val, RefMetaData { namespace, doc_string }), val))
        },
    }
}

/// `(lex exp0 ... expN)`.
pub fn builtin_lex(environment: &mut Environment, args: &[Expression]) -> (r: Result<Expression, LispError>)
    requires
        old(environment).wf(),
        old(environment)@.args_valid(args@),
    ensures
        (final(environment)@, r) == builtin_lex_spec(old(environment)@, args@),
        old(environment)@.sound_step((final(environment)@, r)),
    decreases args_bound(args@), 1nat, 0nat,
{
    proof {
        lemma_lex(environment@, args@);
        lemma_args_bound(args@);
        lemma_wf_push_scope(environment@);
    }
    let ghost st0 = environment@.push_scope();
    push_new_scope(environment);
    let mut ret: Option<Expression> = None;
    let mut i: usize = 0;
    while i < args.len()
        invariant
            environment.wf(),
            st0 == old(environment)@.push_scope(),
            old(environment)@.sound_step(builtin_lex_spec(old(environment)@, args@)),
            st0.scopes.len() > 0,
            st0.extends_to(environment@),
            st0.args_valid(args@),
            0 <= i <= args@.len(),
            forall|j: int| 0 <= j < args@.len() ==> #[trigger] args@[j].handle < args_bound(args@),
            lex_loop_spec(environment@, args@, i as int, ret) == lex_loop_spec(st0, args@, 0, None),
            ret matches Some(v) ==> environment@.valid_exp(v),
        decreases args@.len() - i,
    {
        assert(environment@.valid_exp(args@[i as int]));
        let ghost sti = environment@;
        let r = eval(environment, args[i]);
        proof { lemma_extends_trans(st0, sti, environment@); }
        match r {
            Ok(v) => {
                ret = Some(v);
            },
            Err(e) => {
                pop_scope(environment);
                return Err(e);
            },
        }
        i = i + 1;
    }
    pop_scope(environment);
    match ret {
        Some(v) => Ok(v),
        None => Ok(environment.alloc_data(ExpEnum::Nil)),
    }
}

/// `(set! symbol [doc] expression)`.
pub fn builtin_set(environment: &mut Environment, args: &[Expression]) -> (r: Result<Expression, LispError>)
    requires
        old(environment).wf(),
        old(environment)@.args_valid(args@),
    ensures
        (final(environment)@, r) == builtin_set_spec(old(environment)@, args@),
        old(environment)@.sound_step((final(environment)@, r)),
    decreases args_bound(args@), 1nat, 0nat,
{
    proof {
        lemma_set(environment@, args@);
        lemma_args_bound(args@);
    }
    let ghost st = environment@;
    let (key, doc_str, val) = proc_set_vars(environment, args)?;
    assert(st.valid_exp(args@[args@.len() - 1]));
    if dynamic_contains(environment, key) {
        let (reference, val) = val_to_reference(environment, None, doc_str, val)?;
        dynamic_insert(environment, key, reference);
        Ok(val)
    } else if let Some(scope) = get_symbols_scope(environment, key) {
        let name = scope_name(environment, scope);
        let (reference, val) = val_to_reference(environment, name, doc_str, val)?;
        insert_into_scope(environment, scope, key, reference);
        Ok(val)
    } else {
        Err(LispError::SetUnbound)
    }
}

/// Name of the current namespace.
fn current_namespace(environment: &Environment) -> (name: Option<Sym>)
    requires
        environment.wf(),
    ensures
        name == environment@.current_namespace(),
{
    environment.namespaces[environment.namespaces.len() - 1].name
}

/// Position of the first `::` in `s`.
fn find_separator(s: &str) -> (r: Option<usize>)
    ensures
        match r {
            Some(i) => first_sep(s@) == Some(i as int),
            None => first_sep(s@) == None::<int>,
        },
{
    let n = s.unicode_len();
    let mut i: usize = 0;
    while i + 1 < n
        invariant
            n == s@.len(),
            i + 1 <= n || i == 0,
            first_sep(s@) == first_sep_from(s@, i as int),
        decreases n - i,
    {
        if s.get_char(i) == ':' && s.get_char(i + 1) == ':' {
            return Some(i);
        }
        i = i + 1;
    }
    None
}

/// The innermost scope, from the current one outward, named `ns`.
fn find_named_scope(environment: &Environment, ns: Sym) -> (r: Option<ScopeRef>)
    ensures
        match r {
            Some(s) => environment@.valid_scope_ref(s)
                && find_named_in(environment@.chain(), ns, environment@.chain().len() as int)
                == Some(environment@.chain_index(s)),
            None => find_named_in(environment@.chain(), ns, environment@.chain().len() as int) == None::<int>,
        },
{
    let ghost st = environment@;
    let ghost chain = st.chain();
    let ghost n = st.namespaces.len();
    let mut i = environment.scopes.len();
    while i > 0
        invariant
            environment@ == st,
            chain == st.chain(),
            n == st.namespaces.len(),
            i <= st.scopes.len(),
            find_named_in(chain, ns, chain.len() as int) == find_named_in(chain, ns, n + i),
        decreases i,
    {
        assert(chain[n + i - 1] == environment.scopes@[i - 1]@);
        if environment.scopes[i - 1].name == Some(ns) {
            return Some(ScopeRef::Lexical(i - 1));
        }
        i = i - 1;
    }
    let mut j = environment.namespaces.len();
    while j > 0
        invariant
            environment@ == st,
            chain == st.chain(),
            n == st.namespaces.len(),
            j <= n,
            find_named_in(chain, ns, chain.len() as int) == find_named_in(chain, ns, j as int),
        decreases j,
    {
        assert(chain[j - 1] == environment.namespaces@[j - 1]@);
        if environment.namespaces[j - 1].name == Some(ns) {
            return Some(ScopeRef::Namespace(j - 1));
        }
        j = j - 1;
    }
    None
}

/// `(def symbol [doc] expression)`.
pub fn builtin_def(environment: &mut Environment, args: &[Expression]) -> (r: Result<Expression, LispError>)
    requires
        old(environment).wf(),
        old(environment)@.args_valid(args@),
    ensures
        (final(environment)@, r) == builtin_def_spec(old(environment)@, args@),
        old(environment)@.sound_step((final(environment)@, r)),
    decreases args_bound(args@), 1nat, 0nat,
{
    proof {
        lemma_def(environment@, args@);
        lemma_args_bound(args@);
    }
    let ghost st = environment@;
    let (key, doc_string, val) = proc_set_vars(environment, args)?;
    let ghost st1 = environment@;
    assert(st.valid_exp(args@[args@.len() - 1]));
    assert(st.symbols_valid());
    assert(st.heap[args@[0].handle as int] matches Node::Symbol(s) ==> s < st.names.len());
    let name = String::from_str(environment.interner.name(key));
    match find_separator(name.as_str()) {
        Some(i) => {
            proof { lemma_first_sep_from(name@, 0); }
            let len = name.as_str().unicode_len();
            let ns_text = name.as_str().substring_char(0, i);
            let key_text = name.as_str().substring_char(i + 2, len);
            let ns = if String::from_str(ns_text) == String::from_str("ns") {
                match current_namespace(environment) {
                    Some(n) => n,
                    None => environment.intern("NO_NAME"),
                }
            } else {
                environment.intern(ns_text)
            };
            let k = environment.intern(key_text);
            match find_named_scope(environment, ns) {
                Some(scope) => {
                    let (reference, val) = val_to_reference(environment, Some(ns), doc_string, val)?;
                    insert_into_scope(environment, scope, k, reference);
                    Ok(val)
                },
                None => Err(LispError::DefNamespace(key)),
            }
        },
        None => {
            let ns = current_namespace(environment);
            let (reference, val) = val_to_reference(environment, ns, doc_string, val)?;
            set_expression_current_namespace(environment, key, reference);
            Ok(val)
        },
    }
}

/// `(var symbol [doc] expression)`.
pub fn builtin_var(environment: &mut Environment, args: &[Expression]) -> (r: Result<Expression, LispError>)
    requires
        old(environment).wf(),
        old(environment)@.args_valid(args@),
    ensures
        (final(environment)@, r) == builtin_var_spec(old(environment)@, args@),
        old(environment)@.sound_step((final(environment)@, r)),
    decreases args_bound(args@), 1nat, 0nat,
{
    proof {
        lemma_var(environment@, args@);
        lemma_args_bound(args@);
    }
    let ghost st = environment@;
    let (key, doc_string, val) = proc_set_vars(environment, args)?;
    assert(st.valid_exp(args@[args@.len() - 1]));
    if environment.scopes.len() > 0 {
        let last = environment.scopes.len() - 1;
        assert(environment@.scopes.last() == environment.scopes@[last as int]@);
        if environment.scopes[last].data.contains_key(&key) {
            Err(LispError::VarExists(key))
        } else {
            let (reference, val) = val_to_reference(environment, None, doc_string, val)?;
            let last = environment.scopes.len() - 1;
            insert_into_scope(environment, ScopeRef::Lexical(last), key, reference);
            Ok(val)
        }
    } else {
        Err(LispError::VarNoScope)
    }
}

/// `(undef symbol)`.
pub fn builtin_undef(environment: &mut Environment, args: &[Expression]) -> (r: Result<Expression, LispError>)
    requires
        old(environment).wf(),
        old(environment)@.args_valid(args@),
    ensures
        (final(environment)@, r) == builtin_undef_spec(old(environment)@, args@),
        old(environment)@.sound_step((final(environment)@, r)),
{
    proof { lemma_undef(environment@, args@); }
    if args.len() == 1 {
        if let ExpEnum::Symbol(k) = environment.node(args[0]) {
            let k = *k;
            return match remove_expression_current(environment, k) {
                Some(rexp) => Ok(rexp.exp),
                None => Err(LispError::UndefNotDefined(k)),
            };
        }
    }
    Err(LispError::UndefArity)
}

/// `(dyn key value expression)`.
pub fn builtin_dyn(environment: &mut Environment, args: &[Expression]) -> (r: Result<Expression, LispError>)
    requires
        old(environment).wf(),
        old(environment)@.args_valid(args@),
    ensures
        (final(environment)@, r) == builtin_dyn_spec(old(environment)@, args@),
        old(environment)@.sound_step((final(environment)@, r)),
    decreases args_bound(args@), 1nat, 0nat,
{
    proof {
        lemma_dyn(environment@, args@);
        lemma_args_bound(args@);
    }
    let ghost st = environment@;
    if args.len() == 0 {
        return Err(LispError::DynKeyValue);
    }
    let key = eval(environment, args[0])?;
    if args.len() == 1 {
        return Err(LispError::DynKeyValue);
    }
    let key = match environment.node(key) {
        ExpEnum::Symbol(s) => *s,
        _ => {
            return Err(LispError::DynKeyNotSymbol);
        },
    };
    assert(environment@.valid_exp(args@[1]));
    let val = eval(environment, args[1])?;
    if args.len() != 3 {
        return Err(LispError::DynArity);
    }
    let ghost st2 = environment@;
    let ghost bound = RefState { exp: val, namespace: None, doc: None };
    let old_val = dynamic_remove(environment, key);
    dynamic_insert(environment, key, Reference::new_rooted(val, RefMetaData { namespace: None, doc_string: None }));
    assert(environment@.dynamic =~= st2.dynamic.insert(key, bound));
    assert(environment@ == st2.with_dynamic(st2.dynamic.insert(key, bound)));
    assert(environment@.valid_exp(args@[2]));
    let res = eval(environment, args[2]);
    match old_val {
        Some(old_val) => dynamic_insert(environment, key, old_val),
        None => {
            let _ = dynamic_remove(environment, key);
        },
    }
    res
}

/// `t` when `name` resolves to a binding, else `nil`.
fn get_ret(environment: &mut Environment, name: Sym) -> (r: Result<Expression, LispError>)
    ensures
        (final(environment)@, r) == is_def_result(old(environment)@, name),
{
    if is_expression(environment, name) {
        Ok(environment.alloc_data(ExpEnum::True))
    } else {
        Ok(environment.alloc_data(ExpEnum::Nil))
    }
}

/// `def?` of a form, which must evaluate to a symbol.
fn do_list(environment: &mut Environment, key: Expression) -> (r: Result<Expression, LispError>)
    requires
        old(environment).wf(),
        old(environment)@.valid_exp(key),
    ensures
        (final(environment)@, r) == is_def_form_spec(old(environment)@, key),
        old(environment)@.sound_step((final(environment)@, r)),
    decreases key.handle + 1, 0nat, 0nat,
{
    proof { lemma_is_def_form(environment@, key); }
    let new_key = eval(environment, key)?;
    match environment.node(new_key) {
        ExpEnum::Symbol(s) => {
            let s = *s;
            get_ret(environment, s)
        },
        _ => Err(LispError::IsDefListNotSymbol),
    }
}

/// `(def? expression)`.
pub fn builtin_is_def(environment: &mut Environment, args: &[Expression]) -> (r: Result<Expression, LispError>)
    requires
        old(environment).wf(),
        old(environment)@.args_valid(args@),
    ensures
        (final(environment)@, r) == builtin_is_def_spec(old(environment)@, args@),
        old(environment)@.sound_step((final(environment)@, r)),
    decreases args_bound(args@), 1nat, 0nat,
{
    proof {
        lemma_is_def(environment@, args@);
        lemma_args_bound(args@);
    }
    if args.len() == 0 {
        return Err(LispError::IsDefArity);
    }
    params_done(args, 1, Builtin::IsDef)?;
    let key = args[0];
    assert(environment@.valid_exp(key));
    match environment.node(key) {
        ExpEnum::Symbol(s) => {
            let s = *s;
            get_ret(environment, s)
        },
        ExpEnum::List(items) if items.len() > 0 => do_list(environment, key),
        ExpEnum::Vector(_) => do_list(environment, key),
        _ => Err(LispError::IsDefNotSymbol),
    }
}

/// `(ref symbol)`.
pub fn builtin_ref(environment: &mut Environment, args: &[Expression]) -> (r: Result<Expression, LispError>)
    requires
        old(environment).wf(),
        old(environment)@.args_valid(args@),
    ensures
        (final(environment)@, r) == builtin_ref_spec(old(environment)@, args@),
        old(environment)@.sound_step((final(environment)@, r)),
{
    proof { lemma_ref(environment@, args@); }
    if args.len() == 0 {
        return Err(LispError::RefArity);
    }
    params_done(args, 1, Builtin::Ref)?;
    let key = args[0];
    assert(environment@.valid_exp(key));
    match environment.node(key) {
        ExpEnum::Symbol(s) => {
            let s = *s;
            match get_expression(environment, s) {
                Some(form) => Ok(form.exp),
                None => Err(LispError::RefUnbound(s)),
            }
        },
        _ => Err(LispError::RefNotSymbol),
    }
}

/// Binding form `b` is bound in `data` under its name, to the node with
/// handle `base + builtin_index(b)`, documented, in the `root` namespace.
pub open spec fn builtin_bound(names: Seq<Seq<char>>, base: int, data: Map<Sym, RefState>, b: Builtin) -> bool {
    match (find_name(names, builtin_name(b)), find_name(names, "root"@)) {
        (Some(k), Some(root)) => {
            &&& data.contains_key(k as Sym)
            &&& data[k as Sym] == (RefState {
                exp: Expression { handle: (base + builtin_index(b)) as usize },
                namespace: Some(root as Sym),
                doc: Some(builtin_doc(b)),
            })
        },
        _ => false,
    }
}

/// `k` is the symbol of one of the first `n` binding forms.
pub open spec fn is_builtin_key(names: Seq<Seq<char>>, k: Sym, n: int) -> bool {
    exists|j: int| 0 <= j < n && #[trigger] find_name(names, builtin_name(builtin_at(j))) == Some(k as int)
}

/// The symbols of all binding forms.
pub open spec fn builtin_keys(names: Seq<Seq<char>>) -> Set<Sym> {
    Set::new(|k: Sym| is_builtin_key(names, k, BUILTIN_COUNT as int))
}

/// The nodes of the binding forms, in installation order.
pub open spec fn builtin_nodes(n: int) -> Seq<Node> {
    Seq::new(n as nat, |i: int| builtin_node(builtin_at(i)))
}

/// `s` is the name of one of the binding forms.
pub open spec fn is_form_name(s: Seq<char>) -> bool {
    exists|b: Builtin| #[trigger] builtin_name(b) == s
}

/// With every form name interned once, the form names have eight distinct
/// symbols.
pub proof fn lemma_builtin_keys(names: Seq<Seq<char>>)
    requires
        names_distinct(names),
        names.len() <= usize::MAX,
        forall|b: Builtin| #[trigger] find_name(names, builtin_name(b)) is Some,
    ensures
        builtin_keys(names).finite(),
        builtin_keys(names).len() == BUILTIN_COUNT,
{
    lemma_builtin_names_distinct();
    let ks = Seq::new(BUILTIN_COUNT as nat, |j: int| (find_name(names, builtin_name(builtin_at(j)))->0) as Sym);
    assert forall|j: int| 0 <= j < BUILTIN_COUNT implies
        0 <= #[trigger] find_name(names, builtin_name(builtin_at(j)))->0 < names.len()
        && names[find_name(names, builtin_name(builtin_at(j)))->0] == builtin_name(builtin_at(j)) by {
        assert(find_name(names, builtin_name(builtin_at(j))) is Some);
        lemma_find_name_some(names, builtin_name(builtin_at(j)));
    }
    assert forall|i: int, j: int| 0 <= i < ks.len() && 0 <= j < ks.len() && i != j implies ks[i] != ks[j] by {
        assert(builtin_index(builtin_at(i)) == i && builtin_index(builtin_at(j)) == j);
        assert(builtin_at(i) != builtin_at(j));
        let pi = find_name(names, builtin_name(builtin_at(i)))->0;
        let pj = find_name(names, builtin_name(builtin_at(j)))->0;
        assert(names[pi] != names[pj]);
    }
    assert(ks.no_duplicates());
    assert forall|k: Sym| #[trigger] builtin_keys(names).contains(k) == ks.to_set().contains(k) by {
        if builtin_keys(names).contains(k) {
            let j = choose|j: int| 0 <= j < BUILTIN_COUNT as int
                && #[trigger] find_name(names, builtin_name(builtin_at(j))) == Some(k as int);
            assert(ks[j] == k);
        }
        if ks.to_set().contains(k) {
            let j = choose|j: int| 0 <= j < ks.len() && ks[j] == k;
            assert(find_name(names, builtin_name(builtin_at(j))) == Some(k as int));
        }
    }
    assert(builtin_keys(names) =~= ks.to_set());
    ks.unique_seq_to_set();
    vstd::seq_lib::seq_to_set_is_finite(ks);
}

/// A table that holds every key of `n`, and otherwise the entries of `old`,
/// has the keys of `old` and of `n`; when `old` and `n` are finite it has as
/// many as `old` and the keys of `n` that `old` lacks.
pub proof fn lemma_installed_keys(old_data: Map<Sym, RefState>, new_data: Map<Sym, RefState>, n: Set<Sym>)
    requires
        new_data.remove_keys(n) == old_data.remove_keys(n),
        n.subset_of(new_data.dom()),
    ensures
        new_data.dom() == old_data.dom().union(n),
        (old_data.dom().finite() && n.finite()) ==> new_data.dom().finite()
            && new_data.len() == old_data.len() + n.difference(old_data.dom()).len(),
{
    assert forall|k: Sym| #[trigger] new_data.dom().contains(k) == old_data.dom().union(n).contains(k) by {
        if !n.contains(k) {
            assert(new_data.remove_keys(n).contains_key(k) == new_data.contains_key(k));
            assert(old_data.remove_keys(n).contains_key(k) == old_data.contains_key(k));
        }
    }
    assert(new_data.dom() =~= old_data.dom().union(n));
    if old_data.dom().finite() && n.finite() {
        let extra = n.difference(old_data.dom());
        assert(old_data.dom().union(n) =~= old_data.dom() + extra);
        vstd::set_lib::lemma_set_disjoint_lens(old_data.dom(), extra);
        assert(old_data.dom().disjoint(extra));
    }
}

/// Installs the binding forms `lex`, `set!`, `def`, `var`, `undef`, `dyn`,
/// `def?` and `ref` in `data`, each with its documentation and the `root`
/// namespace.
pub fn add_bind_builtins<S: BuildHasher>(
    interner: &mut Interner,
    heap: &mut Heap,
    data: &mut HashMap<Sym, Reference, S>,
)
    requires
        old(interner).wf(),
        vstd::std_specs::hash::builds_valid_hashers::<S>(),
    ensures
        final(interner).wf(),
        final(interner).view_names().subrange(0, old(interner).view_names().len() as int)
            == old(interner).view_names(),
        find_name(final(interner).view_names(), "root"@) is Some,
        forall|j: int|
            old(interner).view_names().len() <= j < final(interner).view_names().len() ==> (
            #[trigger] final(interner).view_names()[j] == "root"@ || is_form_name(final(interner).view_names()[j])),
        final(heap)@ == old(heap)@ + builtin_nodes(BUILTIN_COUNT as int),
        forall|b: Builtin|
            #[trigger] builtin_bound(final(interner).view_names(), old(heap)@.len() as int, refs_view(final(data)@), b),
        refs_view(final(data)@).remove_keys(builtin_keys(final(interner).view_names()))
            == refs_view(old(data)@).remove_keys(builtin_keys(final(interner).view_names())),
        builtin_keys(final(interner).view_names()).finite(),
        builtin_keys(final(interner).view_names()).len() == BUILTIN_COUNT,
        final(data)@.dom() == old(data)@.dom().union(builtin_keys(final(interner).view_names())),
        old(data)@.dom().finite() ==> final(data)@.dom().finite() && final(data)@.len() == old(data)@.len()
            + builtin_keys(final(interner).view_names()).difference(old(data)@.dom()).len(),
{
    proof { lemma_builtin_names_distinct(); }
    let ghost names0 = interner.view_names();
    let ghost data0 = data@;
    let root = interner.intern("root");
    proof {
        lemma_names_distinct_intern(names0, "root"@);
        lemma_intern_names_index(names0, "root"@);
        assert(interner.view_names().subrange(0, names0.len() as int) =~= names0);
    }
    let base = heap.len();
    let mut i: usize = 0;
    while i < BUILTIN_COUNT
        invariant
            interner.wf(),
            names0.len() <= interner.view_names().len(),
            interner.view_names().subrange(0, names0.len() as int) == names0,
            find_name(interner.view_names(), "root"@) == Some(root as int),
            forall|j: int| names0.len() <= j < interner.view_names().len() ==> (
                #[trigger] interner.view_names()[j] == "root"@ || is_form_name(interner.view_names()[j])),
            base == old(heap)@.len(),
            heap@ == old(heap)@ + builtin_nodes(i as int),
            0 <= i <= BUILTIN_COUNT,
            forall|a: Builtin, b: Builtin| a != b ==> builtin_name(a) != builtin_name(b),
            forall|a: Builtin| builtin_name(a) != "root"@,
            vstd::std_specs::hash::builds_valid_hashers::<S>(),
            forall|j: int| 0 <= j < i ==> #[trigger] builtin_bound(interner.view_names(), base as int, refs_view(data@), builtin_at(j)),
            forall|k: Sym|
                !is_builtin_key(interner.view_names(), k, i as int) ==> (
                #[trigger] data@.contains_key(k) == data0.contains_key(k)
                    && (data0.contains_key(k) ==> data@[k] == data0[k])),
        decreases BUILTIN_COUNT - i,
    {
        let b = builtin_at_index(i);
        let ghost names1 = interner.view_names();
        let ghost heap1 = heap@;
        let key = interner.intern(builtin_name_str(b));
        let ghost names2 = interner.view_names();
        proof {
            interner.lemma_names_len();
            lemma_names_distinct_intern(names1, builtin_name(b));
            lemma_find_name_stable(names1, "root"@, builtin_name(b));
            lemma_intern_names_index(names1, builtin_name(b));
            assert(is_form_name(builtin_name(b)));
            assert forall|j: int| names0.len() <= j < names2.len() implies (
                #[trigger] names2[j] == "root"@ || is_form_name(names2[j])) by {
                if j < names1.len() {
                    assert(names2[j] == names1[j]);
                }
            }
            assert(names2.subrange(0, names0.len() as int) =~= names1.subrange(0, names0.len() as int));
            assert forall|j: int| 0 <= j < i implies
                #[trigger] find_name(names2, builtin_name(builtin_at(j))) == find_name(names1, builtin_name(builtin_at(j))) by {
                assert(builtin_bound(names1, base as int, refs_view(data@), builtin_at(j)));
                lemma_find_name_stable(names1, builtin_name(builtin_at(j)), builtin_name(b));
            }
            assert(heap1.len() == base + i);
        }
        let reference = if builtin_is_function_exec(b) {
            Expression::make_function(heap, b, builtin_doc_str(b), root)
        } else {
            Expression::make_special(heap, b, builtin_doc_str(b), root)
        };
        let ghost data1 = data@;
        let ghost rv = reference@;
        assert(rv == (RefState {
            exp: Expression { handle: (base + builtin_index(b)) as usize },
            namespace: Some(root),
            doc: Some(builtin_doc(b)),
        }));
        data.insert(key, reference);
        proof {
            lemma_refs_view_insert(data1, key, data@[key]);
            assert(refs_view(data@) == refs_view(data1).insert(key, rv));
            assert(heap@ =~= old(heap)@ + builtin_nodes(i + 1));
            assert(find_name(names2, builtin_name(b)) == Some(key as int));
            assert(builtin_bound(names2, base as int, refs_view(data@), b));
            assert forall|j: int| 0 <= j < i + 1 implies
                #[trigger] builtin_bound(names2, base as int, refs_view(data@), builtin_at(j)) by {
                if j < i {
                    assert(builtin_bound(names1, base as int, refs_view(data1), builtin_at(j)));
                    assert(builtin_at(j) != b);
                    let kj = find_name(names1, builtin_name(builtin_at(j)))->0;
                    assert(find_name(names2, builtin_name(builtin_at(j))) == Some(kj));
                    lemma_find_name_some(names2, builtin_name(builtin_at(j)));
                    lemma_find_name_some(names2, builtin_name(b));
                    assert(kj != key as int);
                    assert(refs_view(data@)[kj as Sym] == refs_view(data1)[kj as Sym]);
                } else {
                    assert(builtin_at(j) == b);
                }
            }
            assert forall|k: Sym| !is_builtin_key(names2, k, i + 1) implies
                (#[trigger] data@.contains_key(k) == data0.contains_key(k)
                    && (data0.contains_key(k) ==> data@[k] == data0[k])) by {
                assert(find_name(names2, builtin_name(builtin_at(i as int))) == Some(key as int));
                assert(k != key);
                if is_builtin_key(names1, k, i as int) {
                    let j = choose|j: int| 0 <= j < i && #[trigger] find_name(names1, builtin_name(builtin_at(j))) == Some(k as int);
                    assert(find_name(names2, builtin_name(builtin_at(j))) == Some(k as int));
                    assert(is_builtin_key(names2, k, i + 1));
                }
                assert(!is_builtin_key(names1, k, i as int));
                assert(data1.contains_key(k) == data0.contains_key(k));
                assert(data@ == data1.insert(key, data@[key]));
            }
        }
        i = i + 1;
    }
    proof {
        assert forall|b: Builtin| #[trigger] builtin_bound(interner.view_names(), old(heap)@.len() as int, refs_view(data@), b) by {
            assert(builtin_at(builtin_index(b)) == b);
        }
        assert forall|k: Sym| !is_builtin_key(interner.view_names(), k, BUILTIN_COUNT as int) implies (
            #[trigger] data@.contains_key(k) == data0.contains_key(k)
                && (data0.contains_key(k) ==> data@[k] == data0[k])) by {
            assert(i == BUILTIN_COUNT);
        }
        let ghost keys = builtin_keys(interner.view_names());
        assert(refs_view(data@).remove_keys(keys) =~= refs_view(data0).remove_keys(keys));
        interner.lemma_names_len();
        assert forall|b: Builtin| #[trigger] find_name(interner.view_names(), builtin_name(b)) is Some by {
            assert(builtin_bound(interner.view_names(), old(heap)@.len() as int, refs_view(data@), b));
        }
        lemma_builtin_keys(interner.view_names());
        assert forall|k: Sym| keys.contains(k) implies #[trigger] refs_view(data@).dom().contains(k) by {
            let j = choose|j: int| 0 <= j < BUILTIN_COUNT as int
                && #[trigger] find_name(interner.view_names(), builtin_name(builtin_at(j))) == Some(k as int);
            assert(builtin_bound(interner.view_names(), old(heap)@.len() as int, refs_view(data@), builtin_at(j)));
        }
        lemma_installed_keys(refs_view(data0), refs_view(data@), keys);
        assert(refs_view(data@).dom() =~= data@.dom());
        assert(refs_view(data0).dom() =~= data0.dom());
    }
}

} // verus!
