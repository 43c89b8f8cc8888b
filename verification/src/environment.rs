use std::collections::HashMap;

use vstd::prelude::*;

use crate::bind_docs::{builtin_at, builtin_index, builtin_name, builtin_node, BUILTIN_COUNT};
use crate::builtins_bind::{add_bind_builtins, builtin_bound, builtin_keys, builtin_nodes, is_form_name};
use crate::interner::{find_name, intern_names, intern_sym, lemma_find_name_stable, names_distinct, Interner, Sym};
use crate::types::{children_below, heap_wf, Builtin, ExpEnum, Expression, Heap, LispError, Node, RefState, Reference};

verus! {

broadcast use vstd::std_specs::hash::group_hash_axioms;

/// A table of bindings: a namespace or a lexical scope.
pub struct Scope {
    pub name: Option<Sym>,
    pub data: HashMap<Sym, Reference>,
}

/// The mathematical model of a scope.
pub struct ScopeState {
    pub name: Option<Sym>,
    pub data: Map<Sym, RefState>,
}

/// The model of a table of bindings.
pub open spec fn refs_view(m: Map<Sym, Reference>) -> Map<Sym, RefState> {
    m.map_values(|r: Reference| r@)
}

impl View for Scope {
    type V = ScopeState;

    open spec fn view(&self) -> ScopeState {
        ScopeState { name: self.name, data: refs_view(self.data@) }
    }
}

/// The state that the binding forms read and change.
///
/// The scopes that a symbol is looked up in form one chain: the namespaces,
/// outermost first and the current namespace last, followed by the stack of
/// lexical scopes, innermost last.  The dynamic bindings take precedence over
/// the whole chain.
pub struct Environment {
    pub dynamic_scope: HashMap<Sym, Reference>,
    pub scopes: Vec<Scope>,
    pub namespaces: Vec<Scope>,
    pub heap: Heap,
    pub interner: Interner,
}

/// The mathematical model of an environment.
pub struct EnvState {
    pub dynamic: Map<Sym, RefState>,
    pub scopes: Seq<ScopeState>,
    pub namespaces: Seq<ScopeState>,
    pub heap: Seq<Node>,
    pub names: Seq<Seq<char>>,
}

impl View for Environment {
    type V = EnvState;

    open spec fn view(&self) -> EnvState {
        EnvState {
            dynamic: refs_view(self.dynamic_scope@),
            scopes: self.scopes@.map_values(|s: Scope| s@),
            namespaces: self.namespaces@.map_values(|s: Scope| s@),
            heap: self.heap@,
            names: self.interner.view_names(),
        }
    }
}

/// Index of the innermost scope among the first `n` of `chain` that binds `k`.
pub open spec fn innermost_in(chain: Seq<ScopeState>, k: Sym, n: int) -> Option<int>
    decreases n,
{
    if n <= 0 {
        None
    } else if chain[n - 1].data.contains_key(k) {
        Some(n - 1)
    } else {
        innermost_in(chain, k, n - 1)
    }
}

impl EnvState {
    /// All scopes, outermost first.
    pub open spec fn chain(self) -> Seq<ScopeState> {
        self.namespaces + self.scopes
    }

    /// Index in the chain of the current scope.
    pub open spec fn current_index(self) -> int {
        self.chain().len() - 1
    }

    /// Index in the chain of the innermost scope that binds `k`.
    pub open spec fn find_scope(self, k: Sym) -> Option<int> {
        innermost_in(self.chain(), k, self.chain().len() as int)
    }

    /// The binding that `k` resolves to: a dynamic binding first, else the
    /// innermost scope that binds it.
    pub open spec fn lookup(self, k: Sym) -> Option<RefState> {
        if self.dynamic.contains_key(k) {
            Some(self.dynamic[k])
        } else {
            match self.find_scope(k) {
                Some(c) => Some(self.chain()[c].data[k]),
                None => None,
            }
        }
    }

    /// The state with scope `c` of the chain replaced by `s`.
    pub open spec fn with_scope(self, c: int, s: ScopeState) -> EnvState {
        if c < self.namespaces.len() {
            EnvState { namespaces: self.namespaces.update(c, s), ..self }
        } else {
            EnvState { scopes: self.scopes.update(c - self.namespaces.len(), s), ..self }
        }
    }

    /// The state with `k` bound to `r` in scope `c` of the chain.
    pub open spec fn bind_in(self, c: int, k: Sym, r: RefState) -> EnvState {
        self.with_scope(c, ScopeState { name: self.chain()[c].name, data: self.chain()[c].data.insert(k, r) })
    }

    /// The state with `k` removed from scope `c` of the chain.
    pub open spec fn unbind_in(self, c: int, k: Sym) -> EnvState {
        self.with_scope(c, ScopeState { name: self.chain()[c].name, data: self.chain()[c].data.remove(k) })
    }

    /// The state with a new, empty lexical scope on top of the stack.
    pub open spec fn push_scope(self) -> EnvState {
        EnvState { scopes: self.scopes.push(ScopeState { name: None, data: Map::empty() }), ..self }
    }

    /// The state with the innermost lexical scope removed.
    pub open spec fn pop_scope(self) -> EnvState {
        EnvState { scopes: self.scopes.drop_last(), ..self }
    }

    /// The state with the dynamic bindings `d`.
    pub open spec fn with_dynamic(self, d: Map<Sym, RefState>) -> EnvState {
        EnvState { dynamic: d, ..self }
    }

    /// The name of the current namespace.
    pub open spec fn current_namespace(self) -> Option<Sym> {
        self.namespaces.last().name
    }

    /// The state after interning `name`, and the symbol of `name`.
    pub open spec fn intern(self, name: Seq<char>) -> (EnvState, Sym) {
        (EnvState { names: intern_names(self.names, name), ..self }, intern_sym(self.names, name) as Sym)
    }

    /// The node of `e`.
    pub open spec fn node(self, e: Expression) -> Node {
        self.heap[e.handle as int]
    }

    /// `e` is a node of the heap.
    pub open spec fn valid_exp(self, e: Expression) -> bool {
        e.handle < self.heap.len()
    }

    /// The state with `n` added to the heap.
    pub open spec fn with_node(self, n: Node) -> EnvState {
        EnvState { heap: self.heap.push(n), ..self }
    }

    /// The handle that the next allocated node gets.
    pub open spec fn next_exp(self) -> Expression {
        Expression { handle: self.heap.len() as usize }
    }

    /// Every binding of `m` is to a node of the heap.
    pub open spec fn refs_valid(self, m: Map<Sym, RefState>) -> bool {
        forall|k: Sym| #[trigger] m.contains_key(k) ==> self.valid_exp(m[k].exp)
    }

    /// Every symbol node names an interned symbol.
    pub open spec fn symbols_valid(self) -> bool {
        forall|i: int|
            0 <= i < self.heap.len() ==> (#[trigger] self.heap[i] matches Node::Symbol(s) ==> s < self.names.len())
    }

    /// Invariant of every environment that the binding forms work on.
    pub open spec fn wf(self) -> bool {
        &&& names_distinct(self.names)
        &&& heap_wf(self.heap)
        &&& self.namespaces.len() >= 1
        &&& self.symbols_valid()
        &&& self.refs_valid(self.dynamic)
        &&& forall|c: int| 0 <= c < self.chain().len() ==> self.refs_valid(#[trigger] self.chain()[c].data)
    }

    /// `self` evolved into `other` without changing the shape of the scope
    /// stack: nodes and names are only added (those already there stay as
    /// they are), the number of namespaces and of lexical scopes is the same,
    /// and no dynamic binding appeared.
    pub open spec fn extends_to(self, other: EnvState) -> bool {
        &&& self.heap.len() <= other.heap.len()
        &&& forall|i: int| 0 <= i < self.heap.len() ==> #[trigger] other.heap[i] == self.heap[i]
        &&& self.names.len() <= other.names.len()
        &&& forall|i: int| 0 <= i < self.names.len() ==> #[trigger] other.names[i] == self.names[i]
        &&& other.namespaces.len() == self.namespaces.len()
        &&& other.scopes.len() == self.scopes.len()
        &&& other.dynamic.dom().subset_of(self.dynamic.dom())
    }

    /// Evaluation took `self` to `res.0` soundly: the result state is well
    /// formed, has the same shape, and a value that came back is a node of it.
    pub open spec fn sound_step(self, res: (EnvState, Result<Expression, LispError>)) -> bool {
        &&& res.0.wf()
        &&& self.extends_to(res.0)
        &&& (res.1 matches Ok(v) ==> res.0.valid_exp(v))
    }

    /// Every form of `args` is a node of the heap.
    pub open spec fn args_valid(self, args: Seq<Expression>) -> bool {
        forall|i: int| 0 <= i < args.len() ==> self.valid_exp(#[trigger] args[i])
    }
}

/// The model of an optional binding.
pub open spec fn opt_ref_view(r: Option<Reference>) -> Option<RefState> {
    match r {
        Some(x) => Some(x@),
        None => None,
    }
}

impl Environment {
    /// The invariant of the environment, on its model.
    pub open spec fn wf(&self) -> bool {
        self@.wf()
    }
}

/// Every state extends to itself.
pub proof fn lemma_extends_refl(st: EnvState)
    ensures
        st.extends_to(st),
{
}

/// Extension is transitive.
pub proof fn lemma_extends_trans(a: EnvState, b: EnvState, c: EnvState)
    requires
        a.extends_to(b),
        b.extends_to(c),
    ensures
        a.extends_to(c),
{
}

/// Replacing a scope replaces it in the chain and keeps the shape.
pub proof fn lemma_chain_with_scope(st: EnvState, c: int, s: ScopeState)
    requires
        0 <= c < st.chain().len(),
    ensures
        st.with_scope(c, s).chain() == st.chain().update(c, s),
        st.with_scope(c, s).namespaces.len() == st.namespaces.len(),
        st.with_scope(c, s).scopes.len() == st.scopes.len(),
{
    assert(st.with_scope(c, s).chain() =~= st.chain().update(c, s));
}

/// A well-formed state resolves symbols only to nodes of its heap.
pub proof fn lemma_lookup_valid(st: EnvState, k: Sym)
    requires
        st.wf(),
    ensures
        st.lookup(k) matches Some(r) ==> st.valid_exp(r.exp),
{
    lemma_innermost_in(st.chain(), k, st.chain().len() as int);
    if !st.dynamic.contains_key(k) {
        if let Some(c) = st.find_scope(k) {
            assert(st.refs_valid(st.chain()[c].data));
        }
    }
}

/// Binding to a node of the heap keeps the invariant.
pub proof fn lemma_wf_bind_in(st: EnvState, c: int, k: Sym, r: RefState)
    requires
        st.wf(),
        0 <= c < st.chain().len(),
        st.valid_exp(r.exp),
    ensures
        st.bind_in(c, k, r).wf(),
        st.extends_to(st.bind_in(c, k, r)),
{
    let s = ScopeState { name: st.chain()[c].name, data: st.chain()[c].data.insert(k, r) };
    lemma_chain_with_scope(st, c, s);
    let st2 = st.bind_in(c, k, r);
    assert forall|i: int| 0 <= i < st2.chain().len() implies st2.refs_valid(#[trigger] st2.chain()[i].data) by {
        if i != c {
            assert(st.refs_valid(st.chain()[i].data));
        } else {
            assert(st.refs_valid(st.chain()[c].data));
        }
    }
}

/// Removing a binding keeps the invariant.
pub proof fn lemma_wf_unbind_in(st: EnvState, c: int, k: Sym)
    requires
        st.wf(),
        0 <= c < st.chain().len(),
    ensures
        st.unbind_in(c, k).wf(),
        st.extends_to(st.unbind_in(c, k)),
{
    let s = ScopeState { name: st.chain()[c].name, data: st.chain()[c].data.remove(k) };
    lemma_chain_with_scope(st, c, s);
    let st2 = st.unbind_in(c, k);
    assert forall|i: int| 0 <= i < st2.chain().len() implies st2.refs_valid(#[trigger] st2.chain()[i].data) by {
        assert(st.refs_valid(st.chain()[i].data));
    }
}

/// Adding a node that refers only to older nodes keeps the invariant.
pub proof fn lemma_wf_with_node(st: EnvState, n: Node)
    requires
        st.wf(),
        children_below(n, st.heap.len() as int),
        !(n is Symbol),
    ensures
        st.with_node(n).wf(),
        st.extends_to(st.with_node(n)),
        st.with_node(n).valid_exp(st.next_exp()),
        st.heap.len() <= usize::MAX ==> st.next_exp().handle == st.heap.len()
            && st.with_node(n).node(st.next_exp()) == n,
{
    let st2 = st.with_node(n);
    assert forall|i: int| 0 <= i < st2.heap.len() implies children_below(#[trigger] st2.heap[i], i) by {
        if i < st.heap.len() {
            assert(st2.heap[i] == st.heap[i]);
        }
    }
    assert forall|i: int| 0 <= i < st2.heap.len() implies
        (#[trigger] st2.heap[i] matches Node::Symbol(s) ==> s < st2.names.len()) by {
        if i < st.heap.len() {
            assert(st2.heap[i] == st.heap[i]);
        }
    }
    assert(st2.chain() == st.chain());
}

/// Interning a name keeps the invariant.
pub proof fn lemma_wf_intern(st: EnvState, name: Seq<char>)
    requires
        st.wf(),
    ensures
        st.intern(name).0.wf(),
        st.extends_to(st.intern(name).0),
{
    let st2 = st.intern(name).0;
    if find_name(st.names, name) is None {
        assert forall|i: int, j: int| 0 <= i < j < st2.names.len() implies
            #[trigger] st2.names[i] != #[trigger] st2.names[j] by {
            if j == st.names.len() {
                assert(st2.names[i] == st.names[i]);
            }
        }
    }
    assert(st2.chain() == st.chain());
}

/// A dynamic binding to a node of the heap keeps the invariant.
pub proof fn lemma_wf_dynamic_insert(st: EnvState, k: Sym, r: RefState)
    requires
        st.wf(),
        st.valid_exp(r.exp),
    ensures
        st.with_dynamic(st.dynamic.insert(k, r)).wf(),
{
    assert(st.with_dynamic(st.dynamic.insert(k, r)).chain() == st.chain());
}

/// Removing a dynamic binding keeps the invariant.
pub proof fn lemma_wf_dynamic_remove(st: EnvState, k: Sym)
    requires
        st.wf(),
    ensures
        st.with_dynamic(st.dynamic.remove(k)).wf(),
        st.extends_to(st.with_dynamic(st.dynamic.remove(k))),
{
    assert(st.with_dynamic(st.dynamic.remove(k)).chain() == st.chain());
}

/// Pushing an empty lexical scope keeps the invariant.
pub proof fn lemma_wf_push_scope(st: EnvState)
    requires
        st.wf(),
    ensures
        st.push_scope().wf(),
        st.push_scope().scopes.len() == st.scopes.len() + 1,
{
    let st2 = st.push_scope();
    assert(st2.chain() == st.chain().push(ScopeState { name: None, data: Map::empty() }));
    assert forall|i: int| 0 <= i < st2.chain().len() implies st2.refs_valid(#[trigger] st2.chain()[i].data) by {
        if i < st.chain().len() {
            assert(st.refs_valid(st.chain()[i].data));
        }
    }
}

/// Popping a lexical scope keeps the invariant.
pub proof fn lemma_wf_pop_scope(st: EnvState)
    requires
        st.wf(),
        st.scopes.len() > 0,
    ensures
        st.pop_scope().wf(),
{
    let st2 = st.pop_scope();
    assert(st2.chain() == st.chain().drop_last());
    assert forall|i: int| 0 <= i < st2.chain().len() implies st2.refs_valid(#[trigger] st2.chain()[i].data) by {
        assert(st.refs_valid(st.chain()[i].data));
    }
}

/// A new, empty lexical scope.
pub fn build_new_scope() -> (s: Scope)
    ensures
        s@.name == None::<Sym>,
        s@.data == Map::<Sym, RefState>::empty(),
{
    let s = Scope { name: None, data: HashMap::new() };
    assert(s@.data =~= Map::<Sym, RefState>::empty());
    s
}

/// Where a scope stands: one of the namespaces, or one of the lexical scopes.
#[derive(Clone, Copy, Debug, PartialEq, Eq)]
pub enum ScopeRef {
    Namespace(usize),
    Lexical(usize),
}

impl EnvState {
    /// The position in the chain of the scope that `r` designates.
    pub open spec fn chain_index(self, r: ScopeRef) -> int {
        match r {
            ScopeRef::Namespace(i) => i as int,
            ScopeRef::Lexical(i) => self.namespaces.len() + i,
        }
    }

    /// `r` designates an existing scope.
    pub open spec fn valid_scope_ref(self, r: ScopeRef) -> bool {
        match r {
            ScopeRef::Namespace(i) => i < self.namespaces.len(),
            ScopeRef::Lexical(i) => i < self.scopes.len(),
        }
    }
}

/// What `innermost_in` gives is the innermost scope that binds `k`.
pub proof fn lemma_innermost_in(chain: Seq<ScopeState>, k: Sym, n: int)
    requires
        n <= chain.len(),
    ensures
        match innermost_in(chain, k, n) {
            Some(i) => 0 <= i < n && chain[i].data.contains_key(k)
                && forall|j: int| i < j < n ==> !(#[trigger] chain[j]).data.contains_key(k),
            None => forall|j: int| 0 <= j < n ==> !(#[trigger] chain[j]).data.contains_key(k),
        },
    decreases n,
{
    if n > 0 {
        lemma_innermost_in(chain, k, n - 1);
    }
}

/// The model of a table after an insertion.
pub proof fn lemma_refs_view_insert(m: Map<Sym, Reference>, k: Sym, r: Reference)
    ensures
        refs_view(m.insert(k, r)) == refs_view(m).insert(k, r@),
{
    assert(refs_view(m.insert(k, r)) =~= refs_view(m).insert(k, r@));
}

/// The model of a table after a removal.
pub proof fn lemma_refs_view_remove(m: Map<Sym, Reference>, k: Sym)
    ensures
        refs_view(m.remove(k)) == refs_view(m).remove(k),
{
    assert(refs_view(m.remove(k)) =~= refs_view(m).remove(k));
}

/// The current scope: the innermost lexical scope, else the current namespace.
pub fn get_current_scope(environment: &Environment) -> (r: ScopeRef)
    requires
        environment.wf(),
    ensures
        environment@.valid_scope_ref(r),
        environment@.chain_index(r) == environment@.current_index(),
{
    if environment.scopes.len() > 0 {
        ScopeRef::Lexical(environment.scopes.len() - 1)
    } else {
        ScopeRef::Namespace(environment.namespaces.len() - 1)
    }
}

/// Name of the scope that `r` designates.
pub fn scope_name(environment: &Environment, r: ScopeRef) -> (name: Option<Sym>)
    requires
        environment@.valid_scope_ref(r),
    ensures
        name == environment@.chain()[environment@.chain_index(r)].name,
{
    match r {
        ScopeRef::Namespace(i) => environment.namespaces[i].name,
        ScopeRef::Lexical(i) => environment.scopes[i].name,
    }
}

/// The innermost scope that binds `key`; dynamic bindings are not looked at.
pub fn get_symbols_scope(environment: &Environment, key: Sym) -> (r: Option<ScopeRef>)
    ensures
        match r {
            Some(s) => environment@.valid_scope_ref(s)
                && environment@.find_scope(key) == Some(environment@.chain_index(s)),
            None => environment@.find_scope(key) == None::<int>,
        },
{
    let ghost st = environment@;
    let ghost chain = st.chain();
    let ghost n = st.namespaces.len();
    let mut i = environment.scopes.len();
    while i > 0
        invariant
            environment@ == st,
            chain == st.chain(),
            n == st.namespaces.len(),
            i <= st.scopes.len(),
            innermost_in(chain, key, chain.len() as int) == innermost_in(chain, key, n + i),
        decreases i,
    {
        assert(chain[n + i - 1] == environment.scopes@[i - 1]@);
        if environment.scopes[i - 1].data.contains_key(&key) {
            return Some(ScopeRef::Lexical(i - 1));
        }
        i = i - 1;
    }
    let mut j = environment.namespaces.len();
    while j > 0
        invariant
            environment@ == st,
            chain == st.chain(),
            n == st.namespaces.len(),
            j <= n,
            innermost_in(chain, key, chain.len() as int) == innermost_in(chain, key, j as int),
        decreases j,
    {
        assert(chain[j - 1] == environment.namespaces@[j - 1]@);
        if environment.namespaces[j - 1].data.contains_key(&key) {
            return Some(ScopeRef::Namespace(j - 1));
        }
        j = j - 1;
    }
    None
}

/// The binding that `key` resolves to.
pub fn get_expression(environment: &Environment, key: Sym) -> (r: Option<Reference>)
    ensures
        opt_ref_view(r) == environment@.lookup(key),
{
    if let Some(r) = environment.dynamic_scope.get(&key) {
        return Some(r.duplicate());
    }
    match get_symbols_scope(environment, key) {
        Some(s) => {
            let scope = match s {
                ScopeRef::Namespace(i) => &environment.namespaces[i],
                ScopeRef::Lexical(i) => &environment.scopes[i],
            };
            assert(scope@ == environment@.chain()[environment@.chain_index(s)]);
            proof { lemma_innermost_in(environment@.chain(), key, environment@.chain().len() as int); }
            match scope.data.get(&key) {
                Some(r) => Some(r.duplicate()),
                None => None,
            }
        },
        None => None,
    }
}

/// Whether `key` resolves to a binding.
pub fn is_expression(environment: &Environment, key: Sym) -> (b: bool)
    ensures
        b == environment@.lookup(key).is_some(),
{
    get_expression(environment, key).is_some()
}

/// Binds `key` to `reference` in the scope that `s` designates.
pub fn insert_into_scope(environment: &mut Environment, s: ScopeRef, key: Sym, reference: Reference)
    requires
        old(environment)@.valid_scope_ref(s),
    ensures
        final(environment)@ == old(environment)@.bind_in(old(environment)@.chain_index(s), key, reference@),
        final(environment).interner == old(environment).interner,
{
    let ghost st = environment@;
    let ghost c = st.chain_index(s);
    let ghost rv = reference@;
    let ghost new_scope = ScopeState { name: st.chain()[c].name, data: st.chain()[c].data.insert(key, rv) };
    match s {
        ScopeRef::Namespace(i) => {
            let ghost before = environment.namespaces@[i as int].data@;
            environment.namespaces[i].data.insert(key, reference);
            proof { lemma_refs_view_insert(before, key, environment.namespaces@[i as int].data@[key]); }
            assert(environment@.namespaces =~= st.namespaces.update(c, new_scope));
        },
        ScopeRef::Lexical(i) => {
            let ghost before = environment.scopes@[i as int].data@;
            environment.scopes[i].data.insert(key, reference);
            proof { lemma_refs_view_insert(before, key, environment.scopes@[i as int].data@[key]); }
            assert(environment@.scopes =~= st.scopes.update(i as int, new_scope));
        },
    }
    assert(environment@ =~= st.bind_in(c, key, rv));
}

impl Environment {
    /// Adds a node to the heap.
    pub fn alloc_data(&mut self, data: ExpEnum) -> (e: Expression)
        ensures
            final(self)@ == old(self)@.with_node(data@),
            e == old(self)@.next_exp(),
            e.handle == old(self)@.heap.len(),
    {
        let e = self.heap.alloc_data(data);
        e
    }

    /// The node of `e`.
    pub fn node(&self, e: Expression) -> (n: &ExpEnum)
        requires
            self@.valid_exp(e),
        ensures
            n@ == self@.node(e),
    {
        self.heap.get(e)
    }

    /// The symbol of `name`, interning it when it is new.
    pub fn intern(&mut self, name: &str) -> (sym: Sym)
        requires
            old(self).wf(),
        ensures
            (final(self)@, sym) == old(self)@.intern(name@),
    {
        let sym = self.interner.intern(name);
        sym
    }
}

/// Puts a new, empty lexical scope on top of the stack.
pub fn push_new_scope(environment: &mut Environment)
    ensures
        final(environment)@ == old(environment)@.push_scope(),
{
    let s = build_new_scope();
    let ghost sv = s@;
    environment.scopes.push(s);
    assert(environment@.scopes =~= old(environment)@.scopes.push(sv));
    assert(sv.data =~= Map::<Sym, RefState>::empty());
}

/// Removes the innermost lexical scope.
pub fn pop_scope(environment: &mut Environment)
    requires
        old(environment)@.scopes.len() > 0,
    ensures
        final(environment)@ == old(environment)@.pop_scope(),
{
    let _ = environment.scopes.pop();
    assert(environment@.scopes =~= old(environment)@.scopes.drop_last());
}

/// Whether `key` has a dynamic binding.
pub fn dynamic_contains(environment: &Environment, key: Sym) -> (b: bool)
    ensures
        b == environment@.dynamic.contains_key(key),
{
    environment.dynamic_scope.contains_key(&key)
}

/// Binds `key` dynamically to `reference`.
pub fn dynamic_insert(environment: &mut Environment, key: Sym, reference: Reference)
    ensures
        final(environment)@ == old(environment)@.with_dynamic(old(environment)@.dynamic.insert(key, reference@)),
{
    let ghost before = environment.dynamic_scope@;
    environment.dynamic_scope.insert(key, reference);
    proof { lemma_refs_view_insert(before, key, environment.dynamic_scope@[key]); }
    assert(environment@ =~= old(environment)@.with_dynamic(old(environment)@.dynamic.insert(key, reference@)));
}

/// Removes the dynamic binding of `key`, giving it back.
pub fn dynamic_remove(environment: &mut Environment, key: Sym) -> (r: Option<Reference>)
    ensures
        final(environment)@ == old(environment)@.with_dynamic(old(environment)@.dynamic.remove(key)),
        opt_ref_view(r) == (if old(environment)@.dynamic.contains_key(key) {
            Some(old(environment)@.dynamic[key])
        } else {
            None
        }),
{
    let ghost before = environment.dynamic_scope@;
    let r = environment.dynamic_scope.remove(&key);
    proof { lemma_refs_view_remove(before, key); }
    assert(environment@ =~= old(environment)@.with_dynamic(old(environment)@.dynamic.remove(key)));
    r
}

/// Removes `key` from the current scope, giving back its binding.
pub fn remove_expression_current(environment: &mut Environment, key: Sym) -> (r: Option<Reference>)
    requires
        old(environment).wf(),
    ensures
        ({
            let st = old(environment)@;
            let c = st.current_index();
            if st.chain()[c].data.contains_key(key) {
                &&& final(environment)@ == st.unbind_in(c, key)
                &&& opt_ref_view(r) == Some(st.chain()[c].data[key])
            } else {
                &&& final(environment)@ == st
                &&& r is None
            }
        }),
{
    let ghost st = environment@;
    let ghost c = st.current_index();
    if environment.scopes.len() > 0 {
        let i = environment.scopes.len() - 1;
        let ghost before = environment.scopes@[i as int].data@;
        assert(st.chain()[c] == environment.scopes@[i as int]@);
        let r = environment.scopes[i].data.remove(&key);
        proof { lemma_refs_view_remove(before, key); }
        proof {
            if st.chain()[c].data.contains_key(key) {
                assert(environment@.scopes =~= st.scopes.update(i as int,
                    ScopeState { name: st.chain()[c].name, data: st.chain()[c].data.remove(key) }));
                assert(environment@ =~= st.unbind_in(c, key));
            } else {
                assert(environment@.scopes[i as int].data =~= st.scopes[i as int].data);
                assert(environment@.scopes =~= st.scopes);
                assert(environment@ =~= st);
            }
        }
        r
    } else {
        let i = environment.namespaces.len() - 1;
        let ghost before = environment.namespaces@[i as int].data@;
        assert(st.chain()[c] == environment.namespaces@[i as int]@);
        let r = environment.namespaces[i].data.remove(&key);
        proof { lemma_refs_view_remove(before, key); }
        proof {
            if st.chain()[c].data.contains_key(key) {
                assert(environment@.namespaces =~= st.namespaces.update(i as int,
                    ScopeState { name: st.chain()[c].name, data: st.chain()[c].data.remove(key) }));
                assert(environment@ =~= st.unbind_in(c, key));
            } else {
                assert(environment@.namespaces[i as int].data =~= st.namespaces[i as int].data);
                assert(environment@.namespaces =~= st.namespaces);
                assert(environment@ =~= st);
            }
        }
        r
    }
}

/// Binds `key` to `reference` in the current namespace.
pub fn set_expression_current_namespace(environment: &mut Environment, key: Sym, reference: Reference)
    requires
        old(environment).wf(),
    ensures
        final(environment)@ == old(environment)@.bind_in(old(environment)@.namespaces.len() - 1, key, reference@),
{
    let i = environment.namespaces.len() - 1;
    insert_into_scope(environment, ScopeRef::Namespace(i), key, reference);
}

impl Environment {
    /// An environment with one namespace, `root`, that holds the binding
    /// forms, and no lexical scope or dynamic binding.
    pub fn new() -> (environment: Self)
        ensures
            environment.wf(),
            environment@.dynamic == Map::<Sym, RefState>::empty(),
            environment@.scopes == Seq::<ScopeState>::empty(),
            environment@.namespaces.len() == 1,
            environment@.namespaces[0].name matches Some(root)
                && find_name(environment@.names, "root"@) == Some(root as int),
            forall|j: int| 0 <= j < environment@.names.len() ==> (
                #[trigger] environment@.names[j] == "root"@ || is_form_name(environment@.names[j])),
            environment@.heap == builtin_nodes(BUILTIN_COUNT as int),
            environment@.namespaces[0].data.dom() == builtin_keys(environment@.names),
            forall|b: Builtin|
                #[trigger] builtin_bound(environment@.names, 0, environment@.namespaces[0].data, b),
            forall|b: Builtin|
                #[trigger] find_name(environment@.names, builtin_name(b)) matches Some(k)
                    && environment@.lookup(k as Sym) matches Some(r)
                    && environment@.valid_exp(r.exp)
                    && environment@.node(r.exp) == builtin_node(b),
    {
        let mut interner = Interner::new();
        let mut heap = Heap::new();
        let mut data: HashMap<Sym, Reference> = HashMap::new();
        add_bind_builtins(&mut interner, &mut heap, &mut data);
        let ghost names1 = interner.view_names();
        let root = interner.intern("root");
        proof {
            lemma_find_name_stable(names1, "root"@, "root"@);
            assert(interner.view_names() == names1);
        }
        let namespace = Scope { name: Some(root), data };
        let mut namespaces: Vec<Scope> = Vec::new();
        namespaces.push(namespace);
        let environment = Environment {
            dynamic_scope: HashMap::new(),
            scopes: Vec::new(),
            namespaces,
            heap,
            interner,
        };
        let ghost st = environment@;
        proof {
            assert(st.dynamic =~= Map::<Sym, RefState>::empty());
            assert(st.scopes =~= Seq::<ScopeState>::empty());
            assert(st.heap =~= builtin_nodes(BUILTIN_COUNT as int));
            let d = st.namespaces[0].data;
            let keys = builtin_keys(st.names);
            assert(d.remove_keys(keys) =~= Map::<Sym, RefState>::empty().remove_keys(keys));
            assert forall|k: Sym| d.contains_key(k) implies #[trigger] keys.contains(k) by {
                if !keys.contains(k) {
                    assert(d.remove_keys(keys).contains_key(k));
                }
            }
            assert forall|k: Sym| keys.contains(k) implies #[trigger] d.contains_key(k) by {
                let j = choose|j: int| 0 <= j < BUILTIN_COUNT as int
                    && #[trigger] find_name(st.names, builtin_name(builtin_at(j))) == Some(k as int);
                assert(builtin_bound(st.names, 0, d, builtin_at(j)));
            }
            assert(d.dom() =~= keys);
            assert forall|i: int| 0 <= i < st.heap.len() implies children_below(#[trigger] st.heap[i], i) by {
            }
            assert(st.chain() =~= st.namespaces);
            assert forall|c: int| 0 <= c < st.chain().len() implies st.refs_valid(#[trigger] st.chain()[c].data) by {
                assert forall|k: Sym| #[trigger] d.contains_key(k) implies st.valid_exp(d[k].exp) by {
                    assert(keys.contains(k));
                    let j = choose|j: int| 0 <= j < BUILTIN_COUNT as int
                        && #[trigger] find_name(st.names, builtin_name(builtin_at(j))) == Some(k as int);
                    assert(builtin_bound(st.names, 0, d, builtin_at(j)));
                    assert(builtin_index(builtin_at(j)) == j);
                }
            }
            assert forall|b: Builtin|
                #[trigger] find_name(st.names, builtin_name(b)) matches Some(k)
                    && st.lookup(k as Sym) matches Some(r)
                    && st.valid_exp(r.exp)
                    && st.node(r.exp) == builtin_node(b) by {
                assert(builtin_bound(st.names, 0, d, b));
                assert(builtin_at(builtin_index(b)) == b);
                let k = find_name(st.names, builtin_name(b))->0;
                assert(st.chain()[0].data.contains_key(k as Sym));
            }
        }
        environment
    }
}

} // verus!
