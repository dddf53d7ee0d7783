use vstd::prelude::*;
use crate::location::Location;

verus! {

/// What a declared name stands for.
#[derive(Clone, Copy, Debug, PartialEq, Eq, Structural)]
pub enum SymbolKind {
    Variable,
    Parameter,
    Port,
    Module,
    Interface,
}

/// A declared name, where it was declared, and where it is used.
pub struct Symbol {
    pub kind: SymbolKind,
    pub name: String,
    pub location: Location,
    pub file: String,
    /// The module or interface that holds the declaration; `None` at the top level.
    pub namespace: Option<String>,
    pub references: Vec<Location>,
    pub allow_unused: bool,
}

/// The mathematical content of a `Symbol`.
pub struct SymbolView {
    pub kind: SymbolKind,
    pub name: Seq<char>,
    pub location: Location,
    pub file: Seq<char>,
    pub namespace: Option<Seq<char>>,
    pub references: Seq<Location>,
    pub allow_unused: bool,
}

/// The contents of each string of `v`.
pub open spec fn string_views(v: Seq<String>) -> Seq<Seq<char>> {
    v.map_values(|s: String| s@)
}

/// The contents of each scope of `v`.
pub open spec fn scope_views(v: Seq<Option<String>>) -> Seq<Option<Seq<char>>> {
    v.map_values(|s: Option<String>| scope_view(s))
}

pub open spec fn scope_view(s: Option<String>) -> Option<Seq<char>> {
    match s {
        Some(m) => Some(m@),
        None => None,
    }
}

impl View for Symbol {
    type V = SymbolView;

    open spec fn view(&self) -> SymbolView {
        SymbolView {
            kind: self.kind,
            name: self.name@,
            location: self.location,
            file: self.file@,
            namespace: scope_view(self.namespace),
            references: self.references@,
            allow_unused: self.allow_unused,
        }
    }
}

/// The index of the symbol named `name` declared directly in `scope`, if there is one.
pub open spec fn declared_in(t: Seq<SymbolView>, name: Seq<char>, scope: Option<Seq<char>>) -> Option<int> {
    if exists|i: int| 0 <= i < t.len() && t[i].name == name && t[i].namespace == scope {
        Some(choose|i: int| 0 <= i < t.len() && t[i].name == name && t[i].namespace == scope)
    } else {
        None
    }
}

/// No two symbols share a name within one namespace.
pub open spec fn names_unique(t: Seq<SymbolView>) -> bool {
    forall|i: int, j: int|
        0 <= i < t.len() && 0 <= j < t.len() && i != j && t[i].name == t[j].name ==> t[i].namespace
            != t[j].namespace
}

/// The scopes searched for a name used in `scope`: that scope, then the top level, then
/// each default namespace in order.
pub open spec fn search_scopes(scope: Option<Seq<char>>, defaults: Seq<Seq<char>>) -> Seq<Option<Seq<char>>> {
    let local = match scope {
        Some(m) => seq![Some(m), None],
        None => seq![None],
    };
    local + defaults.map_values(|d: Seq<char>| Some(d))
}

/// The first declaration of `name` along `scopes`.
pub open spec fn first_match(t: Seq<SymbolView>, name: Seq<char>, scopes: Seq<Option<Seq<char>>>) -> Option<int>
    decreases scopes.len(),
{
    if scopes.len() == 0 {
        None
    } else {
        match declared_in(t, name, scopes[0]) {
            Some(i) => Some(i),
            None => first_match(t, name, scopes.drop_first()),
        }
    }
}

/// The ids of the symbols of `t` declared in `file`, in increasing order.
pub open spec fn file_ids(t: Seq<SymbolView>, file: Seq<char>) -> Seq<usize>
    decreases t.len(),
{
    if t.len() == 0 {
        Seq::empty()
    } else if t.last().file == file {
        file_ids(t.drop_last(), file).push((t.len() - 1) as usize)
    } else {
        file_ids(t.drop_last(), file)
    }
}

/// The project-wide store of declared names.
pub struct SymbolTable {
    symbols: Vec<Symbol>,
    default_namespaces: Vec<String>,
}

fn same_scope(a: &Option<String>, b: &Option<String>) -> (r: bool)
    ensures
        r == (scope_view(*a) == scope_view(*b)),
{
    match (a, b) {
        (Some(x), Some(y)) => *x == *y,
        (None, None) => true,
        _ => false,
    }
}

pub(crate) fn copy_scope(a: &Option<String>) -> (r: Option<String>)
    ensures
        scope_view(r) == scope_view(*a),
{
    match a {
        Some(x) => Some(x.clone()),
        None => None,
    }
}

impl SymbolTable {
    /// The symbols, in the order they were registered; a symbol's id is its index.
    pub closed spec fn symbols(&self) -> Seq<SymbolView> {
        self.symbols@.map_values(|s: Symbol| s@)
    }

    /// The namespaces searched after the local scope chain.
    pub closed spec fn defaults(&self) -> Seq<Seq<char>> {
        string_views(self.default_namespaces@)
    }

    pub open spec fn wf(&self) -> bool {
        names_unique(self.symbols())
    }

    /// An empty table whose default namespaces are `defaults`.
    pub fn new(defaults: &Vec<String>) -> (r: SymbolTable)
        ensures
            r.wf(),
            r.symbols() == Seq::<SymbolView>::empty(),
            r.defaults() == string_views(defaults@),
    {
        let mut d: Vec<String> = Vec::new();
        let mut i: usize = 0;
        while i < defaults.len()
            invariant
                i <= defaults@.len(),
                string_views(d@) == string_views(defaults@.subrange(0, i as int)),
            decreases defaults@.len() - i,
        {
            let c = defaults[i].clone();
            let ghost d0 = d@;
            d.push(c);
            proof {
                assert(d@ == d0.push(c));
                assert(string_views(d@) =~= string_views(d0).push(c@));
                assert(defaults@.subrange(0, i + 1) =~= defaults@.subrange(0, i as int).push(defaults@[i as int]));
                assert(string_views(defaults@.subrange(0, i + 1)) =~= string_views(defaults@.subrange(0, i as int)).push(defaults@[i as int]@));
                assert(string_views(d@) =~= string_views(defaults@.subrange(0, i + 1)));
            }
            i = i + 1;
        }
        proof {
            assert(defaults@.subrange(0, i as int) =~= defaults@);
        }
        let r = SymbolTable { symbols: Vec::new(), default_namespaces: d };
        assert(r.symbols() =~= Seq::<SymbolView>::empty());
        r
    }

    /// Forgets every symbol, keeping the default namespaces.
    pub fn reset(&mut self)
        ensures
            final(self).wf(),
            final(self).symbols() == Seq::<SymbolView>::empty(),
            final(self).defaults() == old(self).defaults(),
    {
        self.symbols.clear();
        assert(self.symbols() =~= Seq::<SymbolView>::empty());
    }

    pub fn len(&self) -> (r: usize)
        ensures
            r == self.symbols().len(),
    {
        self.symbols.len()
    }

    /// The symbol with id `id`.
    pub fn get(&self, id: usize) -> (r: &Symbol)
        requires
            id < self.symbols().len(),
        ensures
            r@ == self.symbols()[id as int],
    {
        &self.symbols[id]
    }

    /// Every symbol, in the order of registration.
    pub fn get_all(&self) -> (r: &Vec<Symbol>)
        ensures
            r@.map_values(|s: Symbol| s@) == self.symbols(),
    {
        &self.symbols
    }

    /// The ids of the symbols declared in `file`, in order of registration.
    pub fn get_by_file(&self, file: &String) -> (r: Vec<usize>)
        ensures
            r@ == file_ids(self.symbols(), file@),
    {
        let ghost t = self.symbols();
        let mut r: Vec<usize> = Vec::new();
        let mut i: usize = 0;
        while i < self.symbols.len()
            invariant
                t == self.symbols(),
                i <= t.len(),
                r@ == file_ids(t.subrange(0, i as int), file@),
            decreases t.len() - i,
        {
            proof {
                let post = t.subrange(0, i + 1);
                assert(post.drop_last() =~= t.subrange(0, i as int));
                assert(post.last() == self.symbols@[i as int]@);
            }
            if self.symbols[i].file == *file {
                r.push(i);
            }
            i = i + 1;
        }
        proof {
            assert(t.subrange(0, i as int) =~= t);
        }
        r
    }

    /// The id of the symbol named `name` declared directly in `scope`.
    pub fn find(&self, name: &String, scope: &Option<String>) -> (r: Option<usize>)
        requires
            self.wf(),
        ensures
            match r {
                Some(i) => declared_in(self.symbols(), name@, scope_view(*scope)) == Some(i as int)
                    && i < self.symbols().len(),
                None => declared_in(self.symbols(), name@, scope_view(*scope)) == None::<int>,
            },
    {
        let ghost t = self.symbols();
        let mut i: usize = 0;
        while i < self.symbols.len()
            invariant
                self.wf(),
                t == self.symbols(),
                i <= t.len(),
                forall|j: int| 0 <= j < i ==> !(t[j].name == name@ && t[j].namespace == scope_view(*scope)),
            decreases t.len() - i,
        {
            assert(t[i as int] == self.symbols@[i as int]@);
            if self.symbols[i].name == *name && same_scope(&self.symbols[i].namespace, scope) {
                proof {
                    let k = choose|k: int| 0 <= k < t.len() && t[k].name == name@ && t[k].namespace == scope_view(*scope);
                    assert(k == i);
                }
                return Some(i);
            }
            i = i + 1;
        }
        None
    }

    /// Adds `symbol` under a fresh id, unless a symbol of that name is already declared in
    /// its namespace: then the table is left as it was and the existing symbol's id is
    /// returned as the error.
    pub fn register(&mut self, symbol: Symbol) -> (r: Result<usize, usize>)
        requires
            old(self).wf(),
        ensures
            final(self).wf(),
            final(self).defaults() == old(self).defaults(),
            match declared_in(old(self).symbols(), symbol@.name, symbol@.namespace) {
                Some(i) => r == Err::<usize, usize>(i as usize) && i < old(self).symbols().len()
                    && final(self).symbols() == old(self).symbols(),
                None => r == Ok::<usize, usize>(old(self).symbols().len() as usize)
                    && final(self).symbols() == old(self).symbols().push(symbol@),
            },
    {
        match self.find(&symbol.name, &symbol.namespace) {
            Some(i) => Err(i),
            None => {
                let id = self.symbols.len();
                self.symbols.push(symbol);
                assert(self.symbols() =~= old(self).symbols().push(symbol@));
                Ok(id)
            },
        }
    }

    /// The id of the symbol that `name`, used in `scope`, refers to: the first declaration
    /// found along `search_scopes`.
    pub fn resolve(&self, name: &String, scope: &Option<String>) -> (r: Option<usize>)
        requires
            self.wf(),
        ensures
            match r {
                Some(i) => first_match(self.symbols(), name@, search_scopes(scope_view(*scope), self.defaults())) == Some(i as int)
                    && i < self.symbols().len(),
                None => first_match(self.symbols(), name@, search_scopes(scope_view(*scope), self.defaults())) == None::<int>,
            },
    {
        let mut scopes: Vec<Option<String>> = Vec::new();
        match scope {
            Some(m) => {
                scopes.push(Some(m.clone()));
                scopes.push(None);
            },
            None => {
                scopes.push(None);
            },
        }
        let mut i: usize = 0;
        while i < self.default_namespaces.len()
            invariant
                i <= self.defaults().len(),
                scope_views(scopes@) == search_scopes(scope_view(*scope), self.defaults().subrange(0, i as int)),
            decreases self.defaults().len() - i,
        {
            let c = self.default_namespaces[i].clone();
            let ghost s0 = scopes@;
            scopes.push(Some(c));
            proof {
                assert(scopes@ == s0.push(Some(c)));
                assert(scope_views(scopes@) =~= scope_views(s0).push(Some(c@)));
                let dd = self.defaults().subrange(0, i as int);
                let de = self.defaults().subrange(0, i + 1);
                assert(de.map_values(|d: Seq<char>| Some(d)) =~= dd.map_values(|d: Seq<char>| Some(d)).push(Some(c@)));
                assert(self.defaults()[i as int] == self.default_namespaces@[i as int]@);
                assert(self.defaults().subrange(0, i + 1) =~= self.defaults().subrange(0, i as int).push(self.defaults()[i as int]));
                assert(scope_views(scopes@) =~= search_scopes(scope_view(*scope), self.defaults().subrange(0, i + 1)));
            }
            i = i + 1;
        }
        proof {
            assert(self.defaults().subrange(0, i as int) =~= self.defaults());
        }
        let ghost all = search_scopes(scope_view(*scope), self.defaults());
        assert(all.subrange(0, all.len() as int) =~= all);
        let mut k: usize = 0;
        while k < scopes.len()
            invariant
                self.wf(),
                all == scope_views(scopes@),
                all == search_scopes(scope_view(*scope), self.defaults()),
                k <= all.len(),
                first_match(self.symbols(), name@, all) == first_match(self.symbols(), name@, all.subrange(k as int, all.len() as int)),
            decreases all.len() - k,
        {
            let ghost rest = all.subrange(k as int, all.len() as int);
            assert(rest[0] == scope_view(scopes@[k as int]));
            assert(rest.drop_first() =~= all.subrange(k + 1, all.len() as int));
            match self.find(name, &scopes[k]) {
                Some(id) => {
                    proof {
                        assert(rest.len() > 0);
                        assert(declared_in(self.symbols(), name@, rest[0]).is_some());
                        assert(first_match(self.symbols(), name@, rest) == declared_in(self.symbols(), name@, rest[0]));
                    }
                    return Some(id);
                },
                None => {},
            }
            k = k + 1;
        }
        None
    }

    /// Appends `location` to the references of symbol `id`.
    pub fn record_reference(&mut self, id: usize, location: Location)
        requires
            old(self).wf(),
            id < old(self).symbols().len(),
        ensures
            final(self).wf(),
            final(self).defaults() == old(self).defaults(),
            final(self).symbols() == old(self).symbols().update(
                id as int,
                SymbolView {
                    references: old(self).symbols()[id as int].references.push(location),
                    ..old(self).symbols()[id as int]
                },
            ),
    {
        let mut s = self.symbols.remove(id);
        s.references.push(location);
        self.symbols.insert(id, s);
        assert(self.symbols() =~= old(self).symbols().update(
            id as int,
            SymbolView {
                references: old(self).symbols()[id as int].references.push(location),
                ..old(self).symbols()[id as int]
            },
        ));
    }
}

} // verus!
