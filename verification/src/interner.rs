use vstd::prelude::*;

verus! {

/// A symbol: the index of its name in the interner.
pub type Sym = usize;

/// The table of symbol names; each name occurs once and a symbol is its index.
pub struct Interner {
    names: Vec<String>,
}

impl Interner {
    /// The names in the order they were interned.
    pub closed spec fn view_names(&self) -> Seq<Seq<char>> {
        self.names@.map_values(|s: String| s@)
    }

    /// No name is interned twice.
    pub open spec fn wf(&self) -> bool {
        names_distinct(self.view_names())
    }

    /// There are never more names than a `usize` counts.
    pub proof fn lemma_names_len(&self)
        ensures
            self.view_names().len() <= usize::MAX,
    {
        vstd::std_specs::vec::axiom_spec_len(&self.names);
    }

    /// The name of `sym`.
    pub fn name(&self, sym: Sym) -> (s: &str)
        requires
            sym < self.view_names().len(),
        ensures
            s@ == self.view_names()[sym as int],
    {
        self.names[sym].as_str()
    }

    /// An interner with no names.
    pub fn new() -> (res: Self)
        ensures
            res.wf(),
            res.view_names() == Seq::<Seq<char>>::empty(),
    {
        let res = Interner { names: Vec::new() };
        assert(res.view_names() =~= Seq::<Seq<char>>::empty());
        res
    }

    /// Number of interned names.
    pub fn len(&self) -> (n: usize)
        ensures
            n == self.view_names().len(),
    {
        self.names.len()
    }

    /// Returns the symbol of `name`, adding the name when it is new.
    pub fn intern(&mut self, name: &str) -> (sym: Sym)
        requires
            old(self).wf(),
        ensures
            final(self).wf(),
            final(self).view_names() == intern_names(old(self).view_names(), name@),
            sym == intern_sym(old(self).view_names(), name@),
    {
        let ghost names = self.view_names();
        let target = String::from_str(name);
        let mut i: usize = 0;
        while i < self.names.len()
            invariant
                self.wf(),
                self.view_names() == names,
                target@ == name@,
                0 <= i <= names.len(),
                forall|j: int| 0 <= j < i ==> names[j] != name@,
            decreases self.names@.len() - i,
        {
            if self.names[i] == target {
                proof { lemma_find_name(names, name@, i as int); }
                return i;
            }
            i = i + 1;
        }
        proof { lemma_find_name_none(names, name@); }
        self.names.push(target);
        assert(self.view_names() =~= names.push(name@));
        self.names.len() - 1
    }
}

/// No name occurs twice.
pub open spec fn names_distinct(names: Seq<Seq<char>>) -> bool {
    forall|i: int, j: int| 0 <= i < j < names.len() ==> #[trigger] names[i] != #[trigger] names[j]
}

/// Position of `name` in `names`, when it occurs there.
pub open spec fn find_name(names: Seq<Seq<char>>, name: Seq<char>) -> Option<int> {
    if exists|i: int| 0 <= i < names.len() && names[i] == name {
        Some(choose|i: int| 0 <= i < names.len() && names[i] == name)
    } else {
        None
    }
}

/// The names after interning `name`.
pub open spec fn intern_names(names: Seq<Seq<char>>, name: Seq<char>) -> Seq<Seq<char>> {
    match find_name(names, name) {
        Some(_) => names,
        None => names.push(name),
    }
}

/// The symbol that interning `name` gives.
pub open spec fn intern_sym(names: Seq<Seq<char>>, name: Seq<char>) -> int {
    match find_name(names, name) {
        Some(i) => i,
        None => names.len() as int,
    }
}

/// In a list without repetitions, `find_name` gives the position of the name.
pub proof fn lemma_find_name(names: Seq<Seq<char>>, name: Seq<char>, i: int)
    requires
        0 <= i < names.len(),
        names[i] == name,
        forall|a: int, b: int| 0 <= a < b < names.len() ==> names[a] != names[b],
    ensures
        find_name(names, name) == Some(i),
{
    let j = choose|j: int| 0 <= j < names.len() && names[j] == name;
    assert(j == i) by {
        if j < i { assert(names[j] != names[i]); }
        if i < j { assert(names[i] != names[j]); }
    }
}

proof fn lemma_find_name_none(names: Seq<Seq<char>>, name: Seq<char>)
    requires
        forall|j: int| 0 <= j < names.len() ==> names[j] != name,
    ensures
        find_name(names, name) == None::<int>,
{
}

/// Interning never moves a name that was interned already.
pub proof fn lemma_find_name_stable(names: Seq<Seq<char>>, x: Seq<char>, y: Seq<char>)
    requires
        names_distinct(names),
        find_name(names, x) is Some,
    ensures
        find_name(intern_names(names, y), x) == find_name(names, x),
        names_distinct(intern_names(names, y)),
        intern_names(names, y).subrange(0, names.len() as int) == names,
{
    let p = find_name(names, x)->0;
    let names2 = intern_names(names, y);
    assert(names2.subrange(0, names.len() as int) =~= names);
    assert(names2[p] == x);
    lemma_names_distinct_intern(names, y);
    lemma_find_name(names2, x, p);
}

/// Interning keeps names distinct and finds the name at the symbol it gives.
pub proof fn lemma_names_distinct_intern(names: Seq<Seq<char>>, y: Seq<char>)
    requires
        names_distinct(names),
    ensures
        names_distinct(intern_names(names, y)),
        find_name(intern_names(names, y), y) == Some(intern_sym(names, y)),
{
    let names2 = intern_names(names, y);
    if find_name(names, y) is None {
        assert forall|i: int, j: int| 0 <= i < j < names2.len() implies
            #[trigger] names2[i] != #[trigger] names2[j] by {
            if j == names.len() {
                assert(names2[i] == names[i]);
            }
        }
        lemma_find_name(names2, y, names.len() as int);
    } else {
        let p = find_name(names, y)->0;
        lemma_find_name(names, y, p);
    }
}

/// Interning keeps the names there are and adds at most the new one.
pub proof fn lemma_intern_names_index(names: Seq<Seq<char>>, y: Seq<char>)
    ensures
        names.len() <= intern_names(names, y).len() <= names.len() + 1,
        forall|j: int| 0 <= j < names.len() ==> #[trigger] intern_names(names, y)[j] == names[j],
        forall|j: int| names.len() <= j < intern_names(names, y).len() ==> #[trigger] intern_names(names, y)[j] == y,
{
}

/// The position that `find_name` gives holds the name.
pub proof fn lemma_find_name_some(names: Seq<Seq<char>>, x: Seq<char>)
    ensures
        find_name(names, x) matches Some(p) ==> 0 <= p < names.len() && names[p] == x,
{
}

} // verus!
