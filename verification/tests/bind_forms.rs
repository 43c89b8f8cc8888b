use lib::environment::{dynamic_insert, get_expression, set_expression_current_namespace, Environment};
use lib::eval::eval;
use lib::types::{Builtin, ExpEnum, Expression, LispError, RefMetaData, Reference};

fn sym(env: &mut Environment, name: &str) -> Expression {
    let s = env.intern(name);
    env.alloc_data(ExpEnum::Symbol(s))
}

fn text(env: &mut Environment, s: &str) -> Expression {
    env.alloc_data(ExpEnum::String(s.to_string()))
}

fn integer(env: &mut Environment, i: i64) -> Expression {
    env.alloc_data(ExpEnum::Int(i))
}

fn nil(env: &mut Environment) -> Expression {
    env.alloc_data(ExpEnum::Nil)
}

fn t(env: &mut Environment) -> Expression {
    env.alloc_data(ExpEnum::True)
}

/// The form `(head items...)`.
fn form(env: &mut Environment, head: &str, items: &[Expression]) -> Expression {
    let h = sym(env, head);
    let mut v = vec![h];
    v.extend_from_slice(items);
    env.alloc_data(ExpEnum::List(v))
}

/// Evaluates the form `(head items...)`.
fn run(env: &mut Environment, head: &str, items: &[Expression]) -> Result<Expression, LispError> {
    let f = form(env, head, items);
    eval(env, f)
}

/// Evaluates the symbol `name`.
fn value_of(env: &mut Environment, name: &str) -> Result<Expression, LispError> {
    let s = sym(env, name);
    eval(env, s)
}

fn text_of(env: &Environment, e: Expression) -> Option<String> {
    match env.node(e) {
        ExpEnum::String(s) => Some(s.clone()),
        _ => None,
    }
}

fn value_text(env: &mut Environment, name: &str) -> Option<String> {
    let v = value_of(env, name).ok()?;
    text_of(env, v)
}

fn is_true(env: &Environment, e: Expression) -> bool {
    matches!(env.node(e), ExpEnum::True)
}

fn is_nil(env: &Environment, e: Expression) -> bool {
    matches!(env.node(e), ExpEnum::Nil)
}

/// Binds `name` in the current namespace to the symbol node `target`.
fn bind_to_symbol(env: &mut Environment, name: &str, target: &str) {
    let key = env.intern(name);
    let target = sym(env, target);
    let meta = RefMetaData { namespace: None, doc_string: None };
    set_expression_current_namespace(env, key, Reference::new_rooted(target, meta));
}

#[test]
fn new_environment_binds_the_forms() {
    let mut env = Environment::new();
    let cases = [
        ("lex", Builtin::Lex, false),
        ("set!", Builtin::SetBang, false),
        ("def", Builtin::Def, false),
        ("var", Builtin::Var, false),
        ("undef", Builtin::Undef, false),
        ("dyn", Builtin::Dyn, true),
        ("def?", Builtin::IsDef, false),
        ("ref", Builtin::Ref, true),
    ];
    for (name, b, function) in cases {
        let v = value_of(&mut env, name).unwrap();
        match env.node(v) {
            ExpEnum::Special(x) => assert!(!function && *x == b),
            ExpEnum::Function(x) => assert!(function && *x == b),
            other => panic!("{} is bound to {:?}", name, other),
        }
    }
    assert_eq!(env.namespaces.len(), 1);
    assert!(env.scopes.is_empty());
}

#[test]
fn lex_doc_example() {
    let mut env = Environment::new();
    let one = sym(&mut env, "test-do-one");
    let v = text(&mut env, "One1");
    run(&mut env, "def", &[one, v]).unwrap();
    let two = sym(&mut env, "test-do-two");
    let v = text(&mut env, "Two1");
    run(&mut env, "def", &[two, v]).unwrap();

    let v = text(&mut env, "One");
    let var_one = form(&mut env, "var", &[one, v]);
    let v = text(&mut env, "Two");
    let set_two = form(&mut env, "set!", &[two, v]);
    let three = text(&mut env, "Three");
    let r = run(&mut env, "lex", &[var_one, set_two, one]).unwrap();
    assert_eq!(text_of(&env, r).as_deref(), Some("One"));
    let r = run(&mut env, "lex", &[var_one, set_two, three]).unwrap();
    let three_sym = sym(&mut env, "test-do-three");
    run(&mut env, "def", &[three_sym, r]).unwrap();

    assert_eq!(value_text(&mut env, "test-do-one").as_deref(), Some("One1"));
    assert_eq!(value_text(&mut env, "test-do-two").as_deref(), Some("Two"));
    assert_eq!(value_text(&mut env, "test-do-three").as_deref(), Some("Three"));
    assert!(env.scopes.is_empty());
}

#[test]
fn lex_without_forms_gives_nil() {
    let mut env = Environment::new();
    let r = run(&mut env, "lex", &[]).unwrap();
    assert!(is_nil(&env, r));
    assert!(env.scopes.is_empty());
}

#[test]
fn lex_pops_its_scope_on_error() {
    let mut env = Environment::new();
    let missing = sym(&mut env, "not-bound-anywhere");
    let one = integer(&mut env, 1);
    let r = run(&mut env, "lex", &[one, missing]);
    let s = env.intern("not-bound-anywhere");
    assert_eq!(r, Err(LispError::SymbolNotFound(s)));
    assert!(env.scopes.is_empty());
}

#[test]
fn set_doc_example() {
    let mut env = Environment::new();
    let one = sym(&mut env, "test-do-one");
    let n = nil(&mut env);
    run(&mut env, "def", &[one, n]).unwrap();
    let v = text(&mut env, "One");
    let r = run(&mut env, "set!", &[one, v]).unwrap();
    assert_eq!(r, v);
    assert_eq!(value_text(&mut env, "test-do-one").as_deref(), Some("One"));

    // A local binding is the one that set! changes.
    let n = nil(&mut env);
    let local = form(&mut env, "var", &[one, n]);
    let v = text(&mut env, "1111");
    let set_local = form(&mut env, "set!", &[one, v]);
    let r = run(&mut env, "lex", &[local, set_local, one]).unwrap();
    assert_eq!(text_of(&env, r).as_deref(), Some("1111"));
    // The outer binding is unchanged.
    assert_eq!(value_text(&mut env, "test-do-one").as_deref(), Some("One"));
}

#[test]
fn set_unbound_symbol_fails() {
    let mut env = Environment::new();
    let k = sym(&mut env, "never-defined");
    let v = integer(&mut env, 3);
    assert_eq!(run(&mut env, "set!", &[k, v]), Err(LispError::SetUnbound));
    let s = env.intern("never-defined");
    assert!(get_expression(&env, s).is_none());
}

#[test]
fn def_doc_example_with_ns_prefix() {
    let mut env = Environment::new();
    let one = sym(&mut env, "test-do-one");
    let v = text(&mut env, "One");
    run(&mut env, "def", &[one, v]).unwrap();
    let two = sym(&mut env, "test-do-two");
    let v = text(&mut env, "Two");
    run(&mut env, "def", &[two, v]).unwrap();

    let n = nil(&mut env);
    let local = form(&mut env, "var", &[one, n]);
    let four = sym(&mut env, "ns::test-do-four");
    let v = text(&mut env, "Default");
    let def_four = form(&mut env, "def", &[four, v]);
    let v = text(&mut env, "1111");
    let set_one = form(&mut env, "set!", &[one, v]);
    let v = text(&mut env, "2222");
    let set_two = form(&mut env, "set!", &[two, v]);
    let plain_four = sym(&mut env, "test-do-four");
    let r = run(&mut env, "lex", &[local, def_four, set_one, set_two, plain_four]).unwrap();
    assert_eq!(text_of(&env, r).as_deref(), Some("Default"));

    assert_eq!(value_text(&mut env, "test-do-one").as_deref(), Some("One"));
    assert_eq!(value_text(&mut env, "test-do-two").as_deref(), Some("2222"));
    assert_eq!(value_text(&mut env, "test-do-four").as_deref(), Some("Default"));
}

#[test]
fn def_names_the_root_namespace() {
    let mut env = Environment::new();
    let k = sym(&mut env, "root::in-root");
    let v = integer(&mut env, 7);
    let body = form(&mut env, "def", &[k, v]);
    let r = run(&mut env, "lex", &[body]).unwrap();
    assert!(matches!(env.node(r), ExpEnum::Int(7)));
    let s = env.intern("in-root");
    let root = env.intern("root");
    let b = get_expression(&env, s).unwrap();
    assert_eq!(b.meta.namespace, Some(root));
    assert!(env.namespaces[0].data.contains_key(&s));
}

#[test]
fn def_unknown_namespace_fails() {
    let mut env = Environment::new();
    let k = sym(&mut env, "elsewhere::x");
    let v = integer(&mut env, 1);
    let s = env.intern("elsewhere::x");
    assert_eq!(run(&mut env, "def", &[k, v]), Err(LispError::DefNamespace(s)));
    let msg = LispError::DefNamespace(s).message(&env.interner);
    assert_eq!(msg, "def namespaced symbol elsewhere::x not valid or namespace not a parent namespace");
}

#[test]
fn def_records_docstring_and_namespace() {
    let mut env = Environment::new();
    let k = sym(&mut env, "documented");
    let d = text(&mut env, "some docs");
    let v = integer(&mut env, 5);
    let r = run(&mut env, "def", &[k, d, v]).unwrap();
    assert_eq!(r, v);
    let s = env.intern("documented");
    let root = env.intern("root");
    let b = get_expression(&env, s).unwrap();
    assert_eq!(b.exp, v);
    assert_eq!(b.meta.doc_string.as_deref(), Some("some docs"));
    assert_eq!(b.meta.namespace, Some(root));

    // A docstring form that is not a string gives no documentation.
    let k = sym(&mut env, "undocumented");
    let d = integer(&mut env, 9);
    let v = integer(&mut env, 6);
    run(&mut env, "def", &[k, d, v]).unwrap();
    let s = env.intern("undocumented");
    assert_eq!(get_expression(&env, s).unwrap().meta.doc_string, None);
}

#[test]
fn def_of_bound_symbol_shares_its_binding() {
    let mut env = Environment::new();
    let a = sym(&mut env, "a");
    let d = text(&mut env, "doc of a");
    let v = integer(&mut env, 1);
    run(&mut env, "def", &[a, d, v]).unwrap();
    let b = sym(&mut env, "b");
    let r = run(&mut env, "def", &[b, a]).unwrap();
    assert_eq!(r, v);
    let bs = env.intern("b");
    let bound = get_expression(&env, bs).unwrap();
    assert_eq!(bound.exp, v);
    assert_eq!(bound.meta.doc_string.as_deref(), Some("doc of a"));
}

#[test]
fn binding_forms_check_their_arguments() {
    let mut env = Environment::new();
    let k = sym(&mut env, "k");
    let v = integer(&mut env, 1);
    let not_sym = integer(&mut env, 2);
    assert_eq!(run(&mut env, "def", &[k]), Err(LispError::BindingArity));
    assert_eq!(run(&mut env, "def", &[k, v, v, v]), Err(LispError::BindingArity));
    assert_eq!(run(&mut env, "set!", &[]), Err(LispError::BindingArity));
    assert_eq!(run(&mut env, "def", &[not_sym, v]), Err(LispError::BindingKeyNotSymbol));
    assert_eq!(run(&mut env, "var", &[not_sym, v]), Err(LispError::BindingKeyNotSymbol));
}

#[test]
fn var_doc_example() {
    let mut env = Environment::new();
    let one = sym(&mut env, "test-do-one");
    let two = sym(&mut env, "test-do-two");
    let n = nil(&mut env);
    let var_one = form(&mut env, "var", &[one, n]);
    let var_two = form(&mut env, "var", &[two, n]);
    let v = text(&mut env, "One");
    let set_one = form(&mut env, "set!", &[one, v]);
    let v = text(&mut env, "Two");
    let set_two = form(&mut env, "set!", &[two, v]);
    let v = text(&mut env, "Default");
    let inner_two = form(&mut env, "var", &[two, v]);
    let inner = form(&mut env, "lex", &[inner_two, two]);
    let r = run(&mut env, "lex", &[var_one, var_two, set_one, set_two, inner]).unwrap();
    assert_eq!(text_of(&env, r).as_deref(), Some("Default"));
    let r = run(&mut env, "lex", &[var_one, var_two, set_one, set_two, inner, two]).unwrap();
    assert_eq!(text_of(&env, r).as_deref(), Some("Two"));
    // None of it reached the namespace.
    let s = env.intern("test-do-one");
    assert!(get_expression(&env, s).is_none());
}

#[test]
fn var_twice_in_one_scope_fails() {
    let mut env = Environment::new();
    let k = sym(&mut env, "twice");
    let v = integer(&mut env, 1);
    let w = integer(&mut env, 2);
    let first = form(&mut env, "var", &[k, v]);
    let second = form(&mut env, "var", &[k, w]);
    let s = env.intern("twice");
    assert_eq!(run(&mut env, "lex", &[first, second]), Err(LispError::VarExists(s)));
    assert_eq!(
        LispError::VarExists(s).message(&env.interner),
        "var: Symbol twice already exists in local scope, use set! to change it"
    );
    assert!(env.scopes.is_empty());
}

#[test]
fn var_outside_lexical_scope_fails() {
    let mut env = Environment::new();
    let k = sym(&mut env, "top");
    let v = integer(&mut env, 1);
    assert_eq!(run(&mut env, "var", &[k, v]), Err(LispError::VarNoScope));
}

#[test]
fn undef_doc_example() {
    let mut env = Environment::new();
    let k = sym(&mut env, "test-undef");
    let n = nil(&mut env);
    run(&mut env, "def", &[k, n]).unwrap();
    let r = run(&mut env, "def?", &[k]).unwrap();
    assert!(is_true(&env, r));
    run(&mut env, "undef", &[k]).unwrap();
    let r = run(&mut env, "def?", &[k]).unwrap();
    assert!(is_nil(&env, r));
    let v = text(&mut env, "undef");
    run(&mut env, "def", &[k, v]).unwrap();
    let r = run(&mut env, "undef", &[k]).unwrap();
    assert_eq!(text_of(&env, r).as_deref(), Some("undef"));
    let r = run(&mut env, "def?", &[k]).unwrap();
    assert!(is_nil(&env, r));
    let err = run(&mut env, "undef", &[k]).unwrap_err();
    let s = env.intern("test-undef");
    assert_eq!(err, LispError::UndefNotDefined(s));
    assert_eq!(
        err.message(&env.interner),
        "undef: symbol test-undef not defined in current scope (can only undef symbols in current scope)."
    );
}

#[test]
fn undef_only_reaches_the_current_scope() {
    let mut env = Environment::new();
    let k = sym(&mut env, "outer-only");
    let v = integer(&mut env, 4);
    run(&mut env, "def", &[k, v]).unwrap();
    let body = form(&mut env, "undef", &[k]);
    let s = env.intern("outer-only");
    assert_eq!(run(&mut env, "lex", &[body]), Err(LispError::UndefNotDefined(s)));
    assert!(get_expression(&env, s).is_some());
}

#[test]
fn undef_checks_its_arguments() {
    let mut env = Environment::new();
    let k = sym(&mut env, "k");
    let s = text(&mut env, "k");
    assert_eq!(run(&mut env, "undef", &[]), Err(LispError::UndefArity));
    assert_eq!(run(&mut env, "undef", &[k, k]), Err(LispError::UndefArity));
    assert_eq!(run(&mut env, "undef", &[s]), Err(LispError::UndefArity));
}

#[test]
fn dyn_binds_for_its_body_only() {
    let mut env = Environment::new();
    let x = sym(&mut env, "x");
    let v = text(&mut env, "outer");
    run(&mut env, "def", &[x, v]).unwrap();
    bind_to_symbol(&mut env, "key", "x");
    let key = sym(&mut env, "key");
    let inner = text(&mut env, "inner");
    let r = run(&mut env, "dyn", &[key, inner, x]).unwrap();
    assert_eq!(text_of(&env, r).as_deref(), Some("inner"));
    assert_eq!(value_text(&mut env, "x").as_deref(), Some("outer"));
    assert!(env.dynamic_scope.is_empty());
}

#[test]
fn nested_dyn_restores_the_outer_value() {
    let mut env = Environment::new();
    let x = sym(&mut env, "x");
    let v = text(&mut env, "outer");
    run(&mut env, "def", &[x, v]).unwrap();
    bind_to_symbol(&mut env, "key", "x");
    let key = sym(&mut env, "key");
    let a = text(&mut env, "a");
    let b = text(&mut env, "b");
    let nested = form(&mut env, "dyn", &[key, b, x]);
    let body = form(&mut env, "lex", &[nested, x]);
    let r = run(&mut env, "dyn", &[key, a, body]).unwrap();
    assert_eq!(text_of(&env, r).as_deref(), Some("a"));
    let r = run(&mut env, "dyn", &[key, a, nested]).unwrap();
    assert_eq!(text_of(&env, r).as_deref(), Some("b"));
    assert_eq!(value_text(&mut env, "x").as_deref(), Some("outer"));
}

#[test]
fn set_inside_dyn_changes_the_dynamic_binding() {
    let mut env = Environment::new();
    let x = sym(&mut env, "x");
    let v = text(&mut env, "outer");
    run(&mut env, "def", &[x, v]).unwrap();
    bind_to_symbol(&mut env, "key", "x");
    let key = sym(&mut env, "key");
    let inner = text(&mut env, "inner");
    let changed = text(&mut env, "changed");
    let set_x = form(&mut env, "set!", &[x, changed]);
    let body = form(&mut env, "lex", &[set_x, x]);
    let r = run(&mut env, "dyn", &[key, inner, body]).unwrap();
    assert_eq!(text_of(&env, r).as_deref(), Some("changed"));
    assert_eq!(value_text(&mut env, "x").as_deref(), Some("outer"));
}

#[test]
fn dyn_checks_its_arguments() {
    let mut env = Environment::new();
    let x = sym(&mut env, "x");
    let v = text(&mut env, "outer");
    run(&mut env, "def", &[x, v]).unwrap();
    bind_to_symbol(&mut env, "key", "x");
    let key = sym(&mut env, "key");
    let val = integer(&mut env, 1);
    assert_eq!(run(&mut env, "dyn", &[]), Err(LispError::DynKeyValue));
    assert_eq!(run(&mut env, "dyn", &[key]), Err(LispError::DynKeyValue));
    assert_eq!(run(&mut env, "dyn", &[val, val, x]), Err(LispError::DynKeyNotSymbol));
    assert_eq!(run(&mut env, "dyn", &[key, val]), Err(LispError::DynArity));
    assert_eq!(run(&mut env, "dyn", &[key, val, x, x]), Err(LispError::DynArity));
    assert!(env.dynamic_scope.is_empty());
}

#[test]
fn is_def_doc_example() {
    let mut env = Environment::new();
    let k = sym(&mut env, "test-is-def");
    let tv = t(&mut env);
    run(&mut env, "def", &[k, tv]).unwrap();
    bind_to_symbol(&mut env, "test-is-def2", "test-is-def");
    let k2 = sym(&mut env, "test-is-def2");
    let missing = sym(&mut env, "test-is-def-not-defined");

    let r = run(&mut env, "def?", &[k]).unwrap();
    assert!(is_true(&env, r));
    let ref_k2 = form(&mut env, "ref", &[k2]);
    let r = run(&mut env, "def?", &[ref_k2]).unwrap();
    assert!(is_true(&env, r));
    let r = run(&mut env, "def?", &[missing]).unwrap();
    assert!(is_nil(&env, r));
    let ref_k = form(&mut env, "ref", &[k]);
    assert_eq!(run(&mut env, "def?", &[ref_k]), Err(LispError::IsDefListNotSymbol));
}

#[test]
fn is_def_checks_its_arguments() {
    let mut env = Environment::new();
    let k = sym(&mut env, "k");
    let i = integer(&mut env, 1);
    assert_eq!(run(&mut env, "def?", &[]), Err(LispError::IsDefArity));
    assert_eq!(run(&mut env, "def?", &[k, k]), Err(LispError::TooManyForms(Builtin::IsDef)));
    assert_eq!(run(&mut env, "def?", &[i]), Err(LispError::IsDefNotSymbol));
    let empty_list = env.alloc_data(ExpEnum::List(vec![]));
    assert_eq!(run(&mut env, "def?", &[empty_list]), Err(LispError::IsDefNotSymbol));
    let empty_vector = env.alloc_data(ExpEnum::Vector(vec![]));
    assert_eq!(run(&mut env, "def?", &[empty_vector]), Err(LispError::IsDefListNotSymbol));
}

#[test]
fn ref_doc_example() {
    let mut env = Environment::new();
    let k = sym(&mut env, "test-is-def");
    let tv = t(&mut env);
    run(&mut env, "def", &[k, tv]).unwrap();
    let r = run(&mut env, "ref", &[k]).unwrap();
    assert!(is_true(&env, r));
    let v = integer(&mut env, 123);
    run(&mut env, "set!", &[k, v]).unwrap();
    let r = run(&mut env, "ref", &[k]).unwrap();
    assert!(matches!(env.node(r), ExpEnum::Int(123)));
    let missing = sym(&mut env, "test-is-def-no-exist");
    let s = env.intern("test-is-def-no-exist");
    assert_eq!(run(&mut env, "ref", &[missing]), Err(LispError::RefUnbound(s)));
}

#[test]
fn ref_checks_its_arguments() {
    let mut env = Environment::new();
    let k = sym(&mut env, "k");
    let i = integer(&mut env, 1);
    assert_eq!(run(&mut env, "ref", &[]), Err(LispError::RefArity));
    assert_eq!(run(&mut env, "ref", &[k, k]), Err(LispError::TooManyForms(Builtin::Ref)));
    assert_eq!(run(&mut env, "ref", &[i]), Err(LispError::RefNotSymbol));
}

#[test]
fn evaluation_errors() {
    let mut env = Environment::new();
    let missing = sym(&mut env, "nowhere");
    let s = env.intern("nowhere");
    assert_eq!(eval(&mut env, missing), Err(LispError::SymbolNotFound(s)));
    let one = integer(&mut env, 1);
    let two = integer(&mut env, 2);
    let call = env.alloc_data(ExpEnum::List(vec![one, two]));
    assert_eq!(eval(&mut env, call), Err(LispError::NotCallable));
    let empty = env.alloc_data(ExpEnum::List(vec![]));
    assert_eq!(eval(&mut env, empty), Ok(empty));
}

#[test]
fn undef_undoes_def_at_top_level() {
    let mut env = Environment::new();
    let before = env.namespaces[0].data.len();
    let k = sym(&mut env, "short-lived");
    let v = integer(&mut env, 8);
    assert_eq!(run(&mut env, "def", &[k, v]), Ok(v));
    assert_eq!(env.namespaces[0].data.len(), before + 1);
    assert_eq!(run(&mut env, "undef", &[k]), Ok(v));
    assert_eq!(env.namespaces[0].data.len(), before);
    let s = env.intern("short-lived");
    assert!(get_expression(&env, s).is_none());
}

#[test]
fn ref_gives_what_evaluation_gives() {
    let mut env = Environment::new();
    let k = sym(&mut env, "bound-here");
    let v = text(&mut env, "value");
    run(&mut env, "def", &[k, v]).unwrap();
    assert_eq!(run(&mut env, "ref", &[k]), eval(&mut env, k));
    let missing = sym(&mut env, "bound-nowhere");
    let s = env.intern("bound-nowhere");
    assert_eq!(eval(&mut env, missing), Err(LispError::SymbolNotFound(s)));
    assert_eq!(run(&mut env, "ref", &[missing]), Err(LispError::RefUnbound(s)));
}

#[test]
fn dyn_arity_error_keeps_an_earlier_dynamic_binding() {
    let mut env = Environment::new();
    let x = sym(&mut env, "x");
    let v = text(&mut env, "outer");
    run(&mut env, "def", &[x, v]).unwrap();
    bind_to_symbol(&mut env, "key", "x");
    let xs = env.intern("x");
    let earlier = text(&mut env, "earlier");
    let meta = RefMetaData { namespace: None, doc_string: None };
    dynamic_insert(&mut env, xs, Reference::new_rooted(earlier, meta));
    let key = sym(&mut env, "key");
    let val = integer(&mut env, 1);
    assert_eq!(run(&mut env, "dyn", &[key, val]), Err(LispError::DynArity));
    assert_eq!(env.dynamic_scope.get(&xs).map(|r| r.exp), Some(earlier));
    assert_eq!(run(&mut env, "dyn", &[key, val, x, x]), Err(LispError::DynArity));
    assert_eq!(env.dynamic_scope.get(&xs).map(|r| r.exp), Some(earlier));
    assert_eq!(value_text(&mut env, "x").as_deref(), Some("earlier"));
    // A body that fails also gives the earlier binding back.
    let missing = sym(&mut env, "missing-in-body");
    let m = env.intern("missing-in-body");
    assert_eq!(run(&mut env, "dyn", &[key, val, missing]), Err(LispError::SymbolNotFound(m)));
    assert_eq!(env.dynamic_scope.get(&xs).map(|r| r.exp), Some(earlier));
    assert_eq!(env.dynamic_scope.len(), 1);
}
