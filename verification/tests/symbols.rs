use oatmilk::symbol::{Interner, Symbol, MAX_INDEX};
use oatmilk::table::{all_distinct, SymbolTable};

#[test]
fn test_intern() {
    let mut interner = Interner::new();
    let name = Symbol::intern(&mut interner, "name");
    let ed = Symbol::intern(&mut interner, "ed");
    let was = Symbol::intern(&mut interner, "was");
    let hello = Symbol::intern(&mut interner, "hello");
    assert_eq!(Symbol::intern(&mut interner, "name"), name);
    assert_eq!(Symbol::intern(&mut interner, "ed"), ed);
    assert_eq!(name.index(), 0);
    assert_eq!(ed.index(), 1);
    assert_eq!(was.index(), 2);
    assert_eq!(hello.index(), 3);
    assert_eq!(interner.len(), 4);
    assert_eq!(name.name(&interner), "name");
    assert_eq!(hello.name(&interner), "hello");
}

#[test]
fn it_works() {
    let result = 2 + 2;
    assert_eq!(result, 4);
}

#[test]
fn symbols_are_equal_exactly_when_their_names_are() {
    let mut interner = Interner::new();
    let words = ["a", "b", "a", "", "ab", "b", ""];
    let symbols: Vec<Symbol> = words.iter().map(|w| interner.intern(w)).collect();
    for i in 0..words.len() {
        for j in 0..words.len() {
            assert_eq!(symbols[i] == symbols[j], words[i] == words[j]);
        }
        assert_eq!(interner.lookup(symbols[i]), Some(words[i]));
    }
    assert_eq!(interner.len(), 4);
    assert_eq!(interner.lookup(Symbol::new(4)), None);
}

#[test]
fn the_first_symbol_has_index_zero() {
    let mut interner = Interner::new();
    assert_eq!(interner.intern("first").index(), 0);
    assert_eq!(interner.intern("second").index(), 1);
    assert_eq!(interner.intern("first").index(), 0);
}

#[test]
fn positions_saturate() {
    assert_eq!(Symbol::new(7).index(), 7);
    assert_eq!(Symbol::new(u32::MAX).index(), MAX_INDEX as usize);
    assert_eq!(Symbol::new(MAX_INDEX).index(), MAX_INDEX as usize);
}

#[test]
fn tables_keep_the_order_of_insertion() {
    let a = Symbol::new(5);
    let b = Symbol::new(2);
    let c = Symbol::new(9);
    let mut table: SymbolTable<i64> = SymbolTable::new();
    assert_eq!(table.len(), 0);
    table.insert(a, 1);
    table.insert(b, 2);
    table.insert(c, 3);
    table.insert(b, 20);
    assert_eq!(table.len(), 3);
    assert_eq!(table.get_index(0), Some((a, &1)));
    assert_eq!(table.get_index(1), Some((b, &20)));
    assert_eq!(table.get_index(2), Some((c, &3)));
    assert_eq!(table.get_index(3), None);
    assert_eq!(table.get_full(c), Some((2, &3)));
    assert_eq!(table.get(b), Some(&20));
    assert_eq!(table.find(a), Some(&1));
    assert_eq!(table.get(Symbol::new(0)), None);
    table.put(a, 10);
    assert_eq!(table.get_full(a), Some((0, &10)));
}

#[test]
fn repetitions_are_found() {
    assert!(all_distinct(&vec![]));
    assert!(all_distinct(&vec![Symbol::new(1), Symbol::new(2), Symbol::new(3)]));
    assert!(!all_distinct(&vec![Symbol::new(1), Symbol::new(2), Symbol::new(1)]));
}
