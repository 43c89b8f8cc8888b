use std::collections::HashMap;

use lib::bind_docs::{DEF_DOC, DYN_DOC, IS_DEF_DOC, LEX_DOC, REF_DOC, SET_DOC, UNDEF_DOC, VAR_DOC};
use lib::builtins_bind::{
    add_bind_builtins, builtin_def, builtin_dyn, builtin_is_def, builtin_lex, builtin_ref, builtin_set,
    builtin_undef, builtin_var, proc_set_vars, val_to_reference,
};
use lib::environment::{get_expression, push_new_scope, Environment};
use lib::interner::Interner;
use lib::types::{Builtin, ExpEnum, Expression, Heap, LispError, Reference};

fn sym(env: &mut Environment, name: &str) -> Expression {
    let s = env.intern(name);
    env.alloc_data(ExpEnum::Symbol(s))
}

fn text(env: &mut Environment, s: &str) -> Expression {
    env.alloc_data(ExpEnum::String(s.to_string()))
}

fn integer(env: &mut Environment, i: i64) -> Expression {
    env.alloc_data(ExpEnum::Int(i))
}

#[test]
fn add_bind_builtins_installs_eight_documented_forms() {
    let mut interner = Interner::new();
    let mut heap = Heap::new();
    let mut data: HashMap<usize, Reference> = HashMap::new();
    add_bind_builtins(&mut interner, &mut heap, &mut data);
    assert_eq!(data.len(), 8);
    assert_eq!(heap.len(), 8);
    let root = interner.intern("root");
    let cases = [
        ("lex", Builtin::Lex, LEX_DOC, false),
        ("set!", Builtin::SetBang, SET_DOC, false),
        ("def", Builtin::Def, DEF_DOC, false),
        ("var", Builtin::Var, VAR_DOC, false),
        ("undef", Builtin::Undef, UNDEF_DOC, false),
        ("dyn", Builtin::Dyn, DYN_DOC, true),
        ("def?", Builtin::IsDef, IS_DEF_DOC, false),
        ("ref", Builtin::Ref, REF_DOC, true),
    ];
    for (i, (name, b, doc, function)) in cases.into_iter().enumerate() {
        let k = interner.intern(name);
        let r = &data[&k];
        assert_eq!(r.exp.handle, i);
        assert_eq!(r.meta.namespace, Some(root));
        assert_eq!(r.meta.doc_string.as_deref(), Some(doc));
        match heap.get(r.exp) {
            ExpEnum::Special(x) => assert!(!function && *x == b),
            ExpEnum::Function(x) => assert!(function && *x == b),
            other => panic!("{} is bound to {:?}", name, other),
        }
    }
    // Nothing else was interned.
    assert_eq!(interner.len(), 9);
}

#[test]
fn add_bind_builtins_keeps_other_entries() {
    let mut interner = Interner::new();
    let other = interner.intern("other");
    let mut heap = Heap::new();
    let e = heap.alloc_data(ExpEnum::Int(42));
    let mut data: HashMap<usize, Reference> = HashMap::new();
    let meta = lib::types::RefMetaData { namespace: None, doc_string: None };
    data.insert(other, Reference::new_rooted(e, meta));
    add_bind_builtins(&mut interner, &mut heap, &mut data);
    assert_eq!(data.len(), 9);
    assert_eq!(data[&other].exp, e);
    let lex = interner.intern("lex");
    assert_eq!(data[&lex].exp.handle, 1);
}

#[test]
fn lex_docs_are_kept_verbatim() {
    assert!(LEX_DOC.starts_with("Usage: (lex exp0 ... expN) -> expN"));
    assert!(UNDEF_DOC.contains(
        "\"undef: symbol test-undef not defined in current scope (can only undef symbols in current scope).\""
    ));
    assert!(REF_DOC.starts_with("Usage: (ref? symbol) -> expression"));
}

#[test]
fn proc_set_vars_parses_key_doc_and_value() {
    let mut env = Environment::new();
    let k = sym(&mut env, "key");
    let d = text(&mut env, "the docs");
    let v = integer(&mut env, 1);
    let key = env.intern("key");
    assert_eq!(proc_set_vars(&mut env, &[k, v]), Ok((key, None, v)));
    assert_eq!(proc_set_vars(&mut env, &[k, d, v]), Ok((key, Some("the docs".to_string()), v)));
    assert_eq!(proc_set_vars(&mut env, &[k, v, v]), Ok((key, None, v)));
    assert_eq!(proc_set_vars(&mut env, &[k]), Err(LispError::BindingArity));
    assert_eq!(proc_set_vars(&mut env, &[]), Err(LispError::BindingArity));
    assert_eq!(proc_set_vars(&mut env, &[k, d, v, v]), Err(LispError::BindingArity));
    assert_eq!(proc_set_vars(&mut env, &[v, v]), Err(LispError::BindingKeyNotSymbol));
    // The docstring form is evaluated, so its errors come through.
    let missing = sym(&mut env, "missing-doc");
    let m = env.intern("missing-doc");
    assert_eq!(proc_set_vars(&mut env, &[k, missing, v]), Err(LispError::SymbolNotFound(m)));
}

#[test]
fn val_to_reference_new_or_shared() {
    let mut env = Environment::new();
    let root = env.intern("root");
    let v = integer(&mut env, 10);
    let (r, x) = val_to_reference(&mut env, Some(root), Some("d".to_string()), v).unwrap();
    assert_eq!(x, v);
    assert_eq!(r.exp, v);
    assert_eq!(r.meta.namespace, Some(root));
    assert_eq!(r.meta.doc_string.as_deref(), Some("d"));

    // A bound symbol shares the binding it has, documentation included.
    let lex = sym(&mut env, "lex");
    let (r, x) = val_to_reference(&mut env, None, None, lex).unwrap();
    assert_eq!(r.exp, x);
    assert_eq!(r.meta.namespace, Some(root));
    assert_eq!(r.meta.doc_string.as_deref(), Some(LEX_DOC));

    let missing = sym(&mut env, "unbound-value");
    let m = env.intern("unbound-value");
    assert!(matches!(
        val_to_reference(&mut env, None, None, missing),
        Err(LispError::SymbolNotFound(s)) if s == m
    ));
}

#[test]
fn builtins_called_directly() {
    let mut env = Environment::new();
    let k = sym(&mut env, "direct");
    let v = integer(&mut env, 5);
    let w = integer(&mut env, 6);
    assert_eq!(builtin_def(&mut env, &[k, v]), Ok(v));
    assert_eq!(builtin_ref(&mut env, &[k]), Ok(v));
    assert_eq!(builtin_set(&mut env, &[k, w]), Ok(w));
    assert_eq!(builtin_ref(&mut env, &[k]), Ok(w));
    let r = builtin_is_def(&mut env, &[k]).unwrap();
    assert!(matches!(env.node(r), ExpEnum::True));
    assert_eq!(builtin_lex(&mut env, &[v, w]), Ok(w));
    assert_eq!(builtin_var(&mut env, &[k, v]), Err(LispError::VarNoScope));
    push_new_scope(&mut env);
    assert_eq!(builtin_var(&mut env, &[k, v]), Ok(v));
    let s = env.intern("direct");
    assert_eq!(builtin_var(&mut env, &[k, w]), Err(LispError::VarExists(s)));
    assert_eq!(builtin_ref(&mut env, &[k]), Ok(v));
    assert_eq!(builtin_undef(&mut env, &[k]), Ok(v));
    assert_eq!(builtin_ref(&mut env, &[k]), Ok(w));
    assert_eq!(builtin_undef(&mut env, &[k]), Err(LispError::UndefNotDefined(s)));
    assert_eq!(builtin_dyn(&mut env, &[]), Err(LispError::DynKeyValue));
    assert!(get_expression(&env, s).is_some());
}

#[test]
fn every_error_has_its_message() {
    let mut env = Environment::new();
    let s = env.intern("sym-x");
    let i = &env.interner;
    let cases: Vec<(LispError, &str)> = vec![
        (LispError::SymbolNotFound(s), "Symbol sym-x not found."),
        (LispError::NotCallable, "Not a callable form."),
        (LispError::TooManyForms(Builtin::Ref), "ref: too many forms"),
        (LispError::TooManyForms(Builtin::IsDef), "def?: too many forms"),
        (LispError::BindingKeyNotSymbol, "first form (binding key) must be a symbol"),
        (LispError::BindingArity, "bindings requires a key, optional docstring and value"),
        (LispError::SetUnbound, "set's first form must evaluate to an existing symbol"),
        (
            LispError::DefNamespace(s),
            "def namespaced symbol sym-x not valid or namespace not a parent namespace",
        ),
        (
            LispError::VarExists(s),
            "var: Symbol sym-x already exists in local scope, use set! to change it",
        ),
        (
            LispError::VarNoScope,
            "var: Can only be used in a local lexical scope (not a namespace- use def for that)",
        ),
        (
            LispError::UndefNotDefined(s),
            "undef: symbol sym-x not defined in current scope (can only undef symbols in current scope).",
        ),
        (LispError::UndefArity, "undef: can only have one expression (symbol)"),
        (LispError::DynKeyNotSymbol, "first form (binding key) must evaluate to a symbol"),
        (LispError::DynKeyValue, "dyn requires a key and value"),
        (LispError::DynArity, "dyn requires three expressions (symbol, value, form to evaluate)"),
        (
            LispError::IsDefListNotSymbol,
            "def?: takes a symbol to lookup (list must eval to symbol)",
        ),
        (LispError::IsDefNotSymbol, "def?: takes a symbol to lookup"),
        (LispError::IsDefArity, "def? takes one form (symbol)"),
        (LispError::RefUnbound(s), "ref: symbol sym-x not bound"),
        (LispError::RefNotSymbol, "ref: takes a bound symbol"),
        (LispError::RefArity, "ref: takes one form (symbol)"),
    ];
    for (e, msg) in cases {
        assert_eq!(e.message(i), msg);
    }
}

#[test]
fn interner_gives_each_name_one_symbol() {
    let mut interner = Interner::new();
    let a = interner.intern("a");
    let b = interner.intern("b");
    assert_eq!((a, b), (0, 1));
    assert_eq!(interner.intern("a"), a);
    assert_eq!(interner.len(), 2);
    assert_eq!(interner.name(b), "b");
}

#[test]
fn add_bind_builtins_replaces_a_form_entry() {
    let mut interner = Interner::new();
    let lex = interner.intern("lex");
    let mut heap = Heap::new();
    let e = heap.alloc_data(ExpEnum::Int(1));
    let mut data: HashMap<usize, Reference> = HashMap::new();
    let meta = lib::types::RefMetaData { namespace: None, doc_string: None };
    data.insert(lex, Reference::new_rooted(e, meta));
    add_bind_builtins(&mut interner, &mut heap, &mut data);
    assert_eq!(data.len(), 8);
    assert_eq!(data[&lex].exp.handle, 1);
    assert_eq!(data[&lex].meta.doc_string.as_deref(), Some(LEX_DOC));
}
