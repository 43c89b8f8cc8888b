use vstd::prelude::*;

use crate::interner::Sym;

verus! {

/// A handle to a node of the expression heap.
#[derive(Clone, Copy, Debug, PartialEq, Eq)]
pub struct Expression {
    pub handle: usize,
}

/// The binding forms that this library provides.
#[derive(Clone, Copy, Debug, PartialEq, Eq)]
pub enum Builtin {
    Lex,
    SetBang,
    Def,
    Var,
    Undef,
    Dyn,
    IsDef,
    Ref,
}

/// The data of one heap node.
#[derive(Debug)]
pub enum ExpEnum {
    Nil,
    True,
    Int(i64),
    String(String),
    Symbol(Sym),
    /// A list form; when evaluated its head names the form to call.
    List(Vec<Expression>),
    /// A vector; evaluated like a list form.
    Vector(Vec<Expression>),
    /// A builtin special form.
    Special(Builtin),
    /// A builtin function.  Special forms and functions alike receive their
    /// argument forms as they are and evaluate what they need.
    Function(Builtin),
}

/// The mathematical model of a heap node.
pub enum Node {
    Nil,
    True,
    Int(int),
    Str(Seq<char>),
    Symbol(Sym),
    List(Seq<Expression>),
    Vector(Seq<Expression>),
    Special(Builtin),
    Function(Builtin),
}

impl View for ExpEnum {
    type V = Node;

    open spec fn view(&self) -> Node {
        match self {
            ExpEnum::Nil => Node::Nil,
            ExpEnum::True => Node::True,
            ExpEnum::Int(i) => Node::Int(*i as int),
            ExpEnum::String(s) => Node::Str(s@),
            ExpEnum::Symbol(s) => Node::Symbol(*s),
            ExpEnum::List(v) => Node::List(v@),
            ExpEnum::Vector(v) => Node::Vector(v@),
            ExpEnum::Special(b) => Node::Special(*b),
            ExpEnum::Function(b) => Node::Function(*b),
        }
    }
}

/// The expressions that a node refers to.
pub open spec fn node_children(n: Node) -> Seq<Expression> {
    match n {
        Node::List(v) => v,
        Node::Vector(v) => v,
        _ => Seq::empty(),
    }
}

/// Every child of `n` is a node allocated before index `bound`.
pub open spec fn children_below(n: Node, bound: int) -> bool {
    forall|i: int| 0 <= i < node_children(n).len() ==> #[trigger] node_children(n)[i].handle < bound
}

/// A heap is well formed when every node refers only to older nodes.
pub open spec fn heap_wf(nodes: Seq<Node>) -> bool {
    forall|i: int| 0 <= i < nodes.len() ==> children_below(#[trigger] nodes[i], i)
}

/// Storage of expression nodes; nodes are never changed once allocated.
pub struct Heap {
    nodes: Vec<ExpEnum>,
}

impl View for Heap {
    type V = Seq<Node>;

    closed spec fn view(&self) -> Seq<Node> {
        self.nodes@.map_values(|n: ExpEnum| n@)
    }
}

impl Heap {
    /// An empty heap.
    pub fn new() -> (res: Self)
        ensures
            res@ == Seq::<Node>::empty(),
    {
        let res = Heap { nodes: Vec::new() };
        assert(res@ =~= Seq::<Node>::empty());
        res
    }

    /// Number of nodes.
    pub fn len(&self) -> (n: usize)
        ensures
            n == self@.len(),
    {
        self.nodes.len()
    }

    /// Adds a node; its handle is the next free index.
    pub fn alloc_data(&mut self, data: ExpEnum) -> (e: Expression)
        ensures
            e.handle == old(self)@.len(),
            final(self)@ == old(self)@.push(data@),
    {
        let e = Expression { handle: self.nodes.len() };
        let ghost data_view = data@;
        self.nodes.push(data);
        assert(self@ =~= old(self)@.push(data_view));
        e
    }

    /// The node of `e`.
    pub fn get(&self, e: Expression) -> (n: &ExpEnum)
        requires
            e.handle < self@.len(),
        ensures
            n@ == self@[e.handle as int],
    {
        &self.nodes[e.handle]
    }
}

impl Expression {
    /// A binding of a new special-form node for `func`, documented by `doc_str`.
    pub fn make_special(heap: &mut Heap, func: Builtin, doc_str: &str, namespace: Sym) -> (r: Reference)
        ensures
            final(heap)@ == old(heap)@.push(Node::Special(func)),
            r@ == (RefState {
                exp: Expression { handle: old(heap)@.len() as usize },
                namespace: Some(namespace),
                doc: Some(doc_str@),
            }),
    {
        let exp = heap.alloc_data(ExpEnum::Special(func));
        Reference { exp, meta: RefMetaData { namespace: Some(namespace), doc_string: Some(String::from_str(doc_str)) } }
    }

    /// A binding of a new function node for `func`, documented by `doc_str`.
    pub fn make_function(heap: &mut Heap, func: Builtin, doc_str: &str, namespace: Sym) -> (r: Reference)
        ensures
            final(heap)@ == old(heap)@.push(Node::Function(func)),
            r@ == (RefState {
                exp: Expression { handle: old(heap)@.len() as usize },
                namespace: Some(namespace),
                doc: Some(doc_str@),
            }),
    {
        let exp = heap.alloc_data(ExpEnum::Function(func));
        Reference { exp, meta: RefMetaData { namespace: Some(namespace), doc_string: Some(String::from_str(doc_str)) } }
    }
}

/// What a binding records besides its expression.
#[derive(Debug)]
pub struct RefMetaData {
    pub namespace: Option<Sym>,
    pub doc_string: Option<String>,
}

/// A binding of a symbol.
#[derive(Debug)]
pub struct Reference {
    pub exp: Expression,
    pub meta: RefMetaData,
}

/// The mathematical model of a binding.
pub struct RefState {
    pub exp: Expression,
    pub namespace: Option<Sym>,
    pub doc: Option<Seq<char>>,
}

/// The model of an optional string.
pub open spec fn opt_string_view(s: Option<String>) -> Option<Seq<char>> {
    match s {
        Some(t) => Some(t@),
        None => None,
    }
}

impl View for Reference {
    type V = RefState;

    open spec fn view(&self) -> RefState {
        RefState { exp: self.exp, namespace: self.meta.namespace, doc: opt_string_view(self.meta.doc_string) }
    }
}

impl Reference {
    /// A binding of `exp` with `meta`.
    pub fn new_rooted(exp: Expression, meta: RefMetaData) -> (r: Self)
        ensures
            r.exp == exp,
            r.meta == meta,
    {
        Reference { exp, meta }
    }

    /// A copy of this binding.
    pub fn duplicate(&self) -> (r: Self)
        ensures
            r@ == self@,
    {
        let doc_string = match &self.meta.doc_string {
            Some(s) => Some(s.clone()),
            None => None,
        };
        Reference { exp: self.exp, meta: RefMetaData { namespace: self.meta.namespace, doc_string } }
    }
}

/// Why a form failed.
#[derive(Clone, Copy, Debug, PartialEq, Eq)]
pub enum LispError {
    /// A symbol was evaluated that nothing binds.
    SymbolNotFound(Sym),
    /// A form's head does not evaluate to a builtin.
    NotCallable,
    /// A builtin was given forms after the ones it takes.
    TooManyForms(Builtin),
    /// The key of `set!`, `def` or `var` is not a symbol.
    BindingKeyNotSymbol,
    /// `set!`, `def` or `var` was not given a key, optional docstring and value.
    BindingArity,
    /// `set!` was given a symbol that no scope binds.
    SetUnbound,
    /// `def` was given `namespace::symbol` and no enclosing scope has that name.
    DefNamespace(Sym),
    /// `var` was given a symbol that the local scope binds already.
    VarExists(Sym),
    /// `var` was used outside any lexical scope.
    VarNoScope,
    /// `undef` was given a symbol that the current scope does not bind.
    UndefNotDefined(Sym),
    /// `undef` was not given exactly one symbol.
    UndefArity,
    /// The key of `dyn` does not evaluate to a symbol.
    DynKeyNotSymbol,
    /// `dyn` was not given a key and a value.
    DynKeyValue,
    /// `dyn` was not given exactly a key, a value and a form.
    DynArity,
    /// The form given to `def?` does not evaluate to a symbol.
    IsDefListNotSymbol,
    /// `def?` was given something other than a symbol or a form.
    IsDefNotSymbol,
    /// `def?` was given no form.
    IsDefArity,
    /// `ref` was given a symbol that nothing binds.
    RefUnbound(Sym),
    /// `ref` was given something other than a symbol.
    RefNotSymbol,
    /// `ref` was given no form.
    RefArity,
}

/// One more than the largest handle in `args` (zero when there is none).
pub open spec fn args_bound(args: Seq<Expression>) -> int
    decreases args.len(),
{
    if args.len() == 0 {
        0
    } else {
        let rest = args_bound(args.drop_last());
        if rest > args.last().handle + 1 { rest } else { args.last().handle + 1 }
    }
}

/// Every handle of `args` is below `args_bound(args)`.
pub proof fn lemma_args_bound(args: Seq<Expression>)
    ensures
        forall|i: int| 0 <= i < args.len() ==> #[trigger] args[i].handle < args_bound(args),
        args_bound(args) >= 0,
    decreases args.len(),
{
    if args.len() > 0 {
        lemma_args_bound(args.drop_last());
        assert forall|i: int| 0 <= i < args.len() implies #[trigger] args[i].handle < args_bound(args) by {
            if i < args.len() - 1 {
                assert(args[i] == args.drop_last()[i]);
            }
        }
    }
}

/// A bound on every handle of `args` bounds `args_bound(args)`.
pub proof fn lemma_args_bound_le(args: Seq<Expression>, n: int)
    requires
        n >= 0,
        forall|i: int| 0 <= i < args.len() ==> #[trigger] args[i].handle < n,
    ensures
        args_bound(args) <= n,
    decreases args.len(),
{
    if args.len() > 0 {
        assert forall|i: int| 0 <= i < args.len() - 1 implies #[trigger] args.drop_last()[i].handle < n by {
            assert(args.drop_last()[i] == args[i]);
        }
        lemma_args_bound_le(args.drop_last(), n);
    }
}

} // verus!
