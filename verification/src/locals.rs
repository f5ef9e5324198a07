//! The types of the variables in scope.

use crate::ast::{clone_type, Id, Ty, Type};
use crate::table::{lemma_position, lemma_position_unique, position, SymbolTable};
use vstd::prelude::*;

verus! {

/// The model of a scope: the variables bound in it, with their types.
pub type Scope = Map<Id, Ty>;

/// The model of the scopes that enclose a point of the program, outermost
/// first.
pub type Scopes = Seq<Scope>;

/// The type of `name`: that of its innermost binding.
pub open spec fn lookup(scopes: Scopes, name: Id) -> Option<Ty>
    decreases scopes.len(),
{
    if scopes.len() == 0 {
        None
    } else if scopes.last().contains_key(name) {
        Some(scopes.last()[name])
    } else {
        lookup(scopes.drop_last(), name)
    }
}

/// The scopes after `name` was bound to `t` in the innermost of them.
pub open spec fn bind(scopes: Scopes, name: Id, t: Ty) -> Scopes {
    if scopes.len() == 0 {
        scopes
    } else {
        scopes.update(scopes.len() - 1, scopes.last().insert(name, t))
    }
}

/// The model of a table of bindings.
pub open spec fn scope_view(table: SymbolTable<Type>) -> Scope {
    Map::new(
        |name: Id| table.keys().contains(name),
        |name: Id| table.values()[position(table.keys(), name).unwrap() as int]@,
    )
}

/// The models of a stack of tables.
pub open spec fn scopes_view(tables: Seq<SymbolTable<Type>>) -> Scopes {
    Seq::new(tables.len(), |i: int| scope_view(tables[i]))
}

/// A stack of scopes, each a table from variables to types. There is always
/// at least one scope.
#[derive(Debug)]
pub struct LocalsContext {
    scopes: Vec<SymbolTable<Type>>,
}

impl View for LocalsContext {
    type V = Scopes;

    closed spec fn view(&self) -> Scopes {
        scopes_view(self.scopes@)
    }
}

impl LocalsContext {
    #[verifier::type_invariant]
    spec fn inv(&self) -> bool {
        self.scopes@.len() >= 1
    }

    /// One scope, with nothing bound.
    pub fn new() -> (lc: LocalsContext)
        ensures
            lc@ == seq![Map::<Id, Ty>::empty()],
    {
        let mut scopes: Vec<SymbolTable<Type>> = Vec::new();
        scopes.push(SymbolTable::new());
        let lc = LocalsContext { scopes };
        assert(lc@ =~= seq![Map::<Id, Ty>::empty()]) by {
            assert(scope_view(lc.scopes@[0]) =~= Map::<Id, Ty>::empty());
        }
        lc
    }

    /// The same scopes with a new innermost scope in which nothing is bound.
    pub fn new_child(self) -> (lc: LocalsContext)
        ensures
            self@.len() >= 1,
            lc@ == self@.push(Map::<Id, Ty>::empty()),
    {
        proof {
            use_type_invariant(&self);
        }
        let ghost before = self@;
        let LocalsContext { mut scopes } = self;
        scopes.push(SymbolTable::new());
        let lc = LocalsContext { scopes };
        assert(lc@ =~= before.push(Map::<Id, Ty>::empty())) by {
            assert(scope_view(lc.scopes@.last()) =~= Map::<Id, Ty>::empty());
        }
        lc
    }

    /// The scopes without the innermost. The outermost scope is never
    /// dropped.
    pub fn parent(self) -> (lc: LocalsContext)
        ensures
            self@.len() >= 1,
            lc@ == if self@.len() > 1 {
                self@.drop_last()
            } else {
                self@
            },
    {
        proof {
            use_type_invariant(&self);
        }
        let ghost before = self@;
        let LocalsContext { mut scopes } = self;
        if scopes.len() > 1 {
            scopes.pop();
            let lc = LocalsContext { scopes };
            assert(lc@ =~= before.drop_last());
            lc
        } else {
            LocalsContext { scopes }
        }
    }

    /// The type of `name`, if it is bound.
    pub fn lookup(&self, name: Id) -> (r: Option<Type>)
        ensures
            self@.len() >= 1,
            match r {
                Some(t) => lookup(self@, name) == Some(t@),
                None => lookup(self@, name).is_none(),
            },
    {
        proof {
            use_type_invariant(self);
        }
        let mut i: usize = self.scopes.len();
        assert(self@.subrange(0, i as int) =~= self@);
        while i > 0
            invariant
                i <= self.scopes@.len(),
                lookup(self@, name) == lookup(self@.subrange(0, i as int), name),
            decreases i,
        {
            i -= 1;
            let ghost prefix = self@.subrange(0, i + 1);
            assert(prefix.drop_last() =~= self@.subrange(0, i as int));
            assert(prefix.last() == scope_view(self.scopes@[i as int]));
            match self.scopes[i].get_full(name) {
                Some((_, t)) => {
                    proof {
                        lemma_position(self.scopes@[i as int].keys(), name);
                    }
                    return Some(clone_type(t));
                },
                None => {
                    proof {
                        lemma_position(self.scopes@[i as int].keys(), name);
                    }
                },
            }
        }
        None
    }

    /// Binds `name` to `value` in the innermost scope.
    pub fn set(&mut self, name: Id, value: Type)
        ensures
            old(self)@.len() >= 1,
            final(self)@ == bind(old(self)@, name, value@),
    {
        proof {
            use_type_invariant(&*self);
        }
        let ghost before = self@;
        let mut taken = LocalsContext::new();
        core::mem::swap(self, &mut taken);
        let LocalsContext { mut scopes } = taken;
        let mut top = match scopes.pop() {
            Some(t) => t,
            None => SymbolTable::new(),
        };
        let ghost old_top = top;
        let ghost rest = scopes@;
        let _ = top.len();
        top.insert(name, value);
        proof {
            let keys = old_top.keys();
            let after = top.keys();
            lemma_position(keys, name);
            assert forall|k: Id| after.contains(k) <==> (k == name || keys.contains(k)) by {
                if after.contains(k) {
                    let j = choose|j: int| 0 <= j < after.len() && after[j] == k;
                    if j < keys.len() {
                        assert(keys[j] == k);
                    }
                }
                if keys.contains(k) {
                    let j = choose|j: int| 0 <= j < keys.len() && keys[j] == k;
                    assert(after[j] == k);
                }
                if k == name && !keys.contains(name) {
                    assert(after[keys.len() as int] == name);
                }
            }
            assert forall|k: Id| after.contains(k) implies scope_view(top)[k] == scope_view(
                old_top,
            ).insert(name, value@)[k] by {
                lemma_position(after, k);
                let p = position(after, k).unwrap();
                if p < keys.len() {
                    assert(keys[p as int] == k);
                    lemma_position_unique(keys, k, p);
                } else {
                    assert(after[p as int] == name);
                }
            }
            assert(scope_view(top) =~= scope_view(old_top).insert(name, value@));
        }
        scopes.push(top);
        *self = LocalsContext { scopes };
        assert(self@ =~= bind(before, name, value@));
    }
}

} // verus!
