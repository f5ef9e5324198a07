//! Interned identifiers.
//!
//! An [`Interner`] numbers the distinct strings it is given in the order in
//! which it first sees them. A [`Symbol`] is such a number. The interner is an
//! explicit value: every stage that needs names takes it as an argument.

use crate::ordered::{name_items, names_get_index, names_index_of, names_insert_full, names_len, names_new};
use indexmap::IndexSet;
use vstd::prelude::*;

verus! {

/// The largest position a symbol can name.
pub const MAX_INDEX: u32 = 0xffff_fffe;

/// A handle for an interned string: the position of the string in its
/// interner. The handle of the first string interned has index 0.
#[derive(Debug, Clone, Copy, PartialEq, Eq, Structural, Hash)]
pub struct Symbol {
    pub index: u32,
}

impl Symbol {
    /// The position named by this symbol.
    pub open spec fn spec_index(self) -> nat {
        self.index as nat
    }

    /// The symbol for a position. Positions past [`MAX_INDEX`] saturate.
    pub fn new(index: u32) -> (sym: Symbol)
        ensures
            sym.spec_index() == if index <= MAX_INDEX {
                index
            } else {
                MAX_INDEX
            },
    {
        if index > MAX_INDEX {
            Symbol { index: MAX_INDEX }
        } else {
            Symbol { index }
        }
    }

    /// The position named by this symbol.
    #[verifier::when_used_as_spec(spec_index_usize)]
    pub fn index(self) -> (i: usize)
        ensures
            i == self.spec_index(),
    {
        self.index as usize
    }

    /// The position named by this symbol, as the machine integer that
    /// [`Symbol::index`] returns.
    pub open spec fn spec_index_usize(self) -> usize {
        self.index as usize
    }

    /// The symbol of `name` in `interner`, which learns the name if it is new.
    pub fn intern(interner: &mut Interner, name: &str) -> (sym: Symbol)
        ensures
            final(interner)@ == intern_names(old(interner)@, name@),
            sym.spec_index() == symbol_index(position_of(old(interner)@, name@)),
    {
        interner.intern(name)
    }

    /// The string that this symbol stands for in `interner`.
    pub fn name(self, interner: &Interner) -> (name: &str)
        requires
            self.spec_index() < interner@.len(),
        ensures
            name@ == interner@[self.spec_index() as int],
    {
        match interner.lookup(self) {
            Some(s) => s,
            None => vstd::pervasive::unreached(),
        }
    }
}

/// What an interner holds after `name` was given to it: the names it held,
/// with `name` added at the end if it was not among them.
pub open spec fn intern_names(names: Seq<Seq<char>>, name: Seq<char>) -> Seq<Seq<char>> {
    if names.contains(name) {
        names
    } else {
        names.push(name)
    }
}

/// The position that `name` has once it is interned: its first position in
/// `names`, or the end of `names` when it is not among them.
pub open spec fn position_of(names: Seq<Seq<char>>, name: Seq<char>) -> nat {
    if names.contains(name) {
        names.index_of(name) as nat
    } else {
        names.len()
    }
}

/// The index of the symbol handed out for a position: the position, cut to 32
/// bits and saturated at [`MAX_INDEX`].
pub open spec fn symbol_index(position: nat) -> nat {
    let cut = position % 0x1_0000_0000;
    if cut <= MAX_INDEX {
        cut
    } else {
        MAX_INDEX as nat
    }
}

/// The table of interned strings.
pub struct Interner {
    names: IndexSet<String>,
}

impl View for Interner {
    type V = Seq<Seq<char>>;

    /// The interned strings, in the order in which they were first seen.
    closed spec fn view(&self) -> Seq<Seq<char>> {
        name_items(self.names)
    }
}

impl Interner {
    /// An interner that holds no string.
    pub fn new() -> (interner: Interner)
        ensures
            interner@ == Seq::<Seq<char>>::empty(),
    {
        Interner { names: names_new() }
    }

    /// The number of strings held.
    pub fn len(&self) -> (n: usize)
        ensures
            n == self@.len(),
    {
        names_len(&self.names)
    }

    /// The symbol of `name`, which is added to the table if it is new.
    pub fn intern(&mut self, name: &str) -> (sym: Symbol)
        ensures
            final(self)@ == intern_names(old(self)@, name@),
            sym.spec_index() == symbol_index(position_of(old(self)@, name@)),
    {
        let position = match names_index_of(&self.names, name) {
            Some(i) => {
                proof {
                    let names = self@;
                    assert(names[i as int] == name@);
                    assert(names.contains(name@));
                    let k = names.index_of(name@);
                    assert(names[k] == name@);
                }
                i
            },
            None => {
                let owned = name.to_owned();
                let (i, _) = names_insert_full(&mut self.names, owned);
                i
            },
        };
        let wide: u64 = position as u64;
        let cut: u32 = #[verifier::truncate]
        (wide as u32);
        proof {
            assert((wide as u32) as u64 == wide % 0x1_0000_0000) by (bit_vector);
        }
        Symbol::new(cut)
    }

    /// The string at the position named by `sym`, if there is one.
    pub fn lookup(&self, sym: Symbol) -> (r: Option<&str>)
        ensures
            match r {
                Some(s) => sym.spec_index() < self@.len() && s@ == self@[sym.spec_index() as int],
                None => sym.spec_index() >= self@.len(),
            },
    {
        match names_get_index(&self.names, sym.index()) {
            Some(s) => Some(s.as_str()),
            None => None,
        }
    }
}

/// Interning the same name twice gives the same symbol, and leaves the table
/// as the first interning left it.
pub proof fn lemma_intern_idempotent(names: Seq<Seq<char>>, name: Seq<char>)
    ensures
        intern_names(intern_names(names, name), name) == intern_names(names, name),
        position_of(intern_names(names, name), name) == position_of(names, name),
{
    let after = intern_names(names, name);
    if names.contains(name) {
    } else {
        assert(after[names.len() as int] == name);
        assert(after.contains(name));
        let k = after.index_of(name);
        assert(after[k] == name);
        if k < names.len() {
            assert(names[k] == name);
        }
    }
}

/// A table built by interning alone never holds a string twice.
pub proof fn lemma_intern_keeps_distinct(names: Seq<Seq<char>>, name: Seq<char>)
    requires
        names.no_duplicates(),
    ensures
        intern_names(names, name).no_duplicates(),
{
}

/// In a table without repetitions two symbols are equal exactly when the
/// strings they stand for are equal.
pub proof fn lemma_symbols_equal_iff_names_equal(names: Seq<Seq<char>>, a: Symbol, b: Symbol)
    requires
        names.no_duplicates(),
        a.spec_index() < names.len(),
        b.spec_index() < names.len(),
    ensures
        (a == b) <==> (names[a.spec_index() as int] == names[b.spec_index() as int]),
{
}

} // verus!
