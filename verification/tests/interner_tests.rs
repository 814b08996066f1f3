use reality::{Identifier, Interner, Properties, SymbolSet, Value};

fn symbol(s: &str) -> Value {
    Value::from_symbol(s)
}

#[test]
fn test_interner_from_properties() {
    let mut properties = Properties::new(Identifier::new("test", "test"));
    properties.add("a", symbol("test"));
    properties.add("b", symbol("test2"));
    properties.add("b", symbol("test3"));

    let mut nested = Properties::new(Identifier::new("test", "test"));
    nested.add("c", symbol("test4"));
    nested.add("d", symbol("test5"));
    nested.add("d", symbol("test6"));
    properties.add_readonly_properties(&nested);

    let interner = Interner::from_properties(&properties);
    for name in ["a", "b", "c", "d", "test", "test2", "test3", "test4", "test5", "test6"] {
        let key = interner.symbol(name).expect("should be able to get key");
        assert!(interner.get(&key).is_some(), "{name}");
    }
}

#[test]
fn interner_add_symbol_returns_the_symbol_key() {
    let mut interner = Interner::empty();
    let key = interner.add_symbol("hello").expect("should add");
    assert_eq!(key, reality::symbol_key("hello"));
    assert_eq!(interner.symbol("hello").expect("interned"), key);
    match interner.get(&key) {
        Some(Value::Symbol(s)) => assert_eq!(s, "hello"),
        _ => panic!("expected a symbol"),
    }
}

#[test]
fn interner_add_symbol_twice_is_idempotent() {
    let mut interner = Interner::empty();
    let a = interner.add_symbol("x").expect("should add");
    let b = interner.add_symbol("x").expect("should add");
    assert_eq!(a, b);
    assert_eq!(interner.symbols().len(), 1);
}

#[test]
fn interner_symbol_key_of_a_missing_symbol_finds_nothing() {
    let interner = Interner::empty();
    let key = interner.symbol("nope").expect("a key is always computed");
    assert_eq!(key, reality::symbol_key("nope"));
    assert!(interner.get(&key).is_none());
}

#[test]
fn interner_default_holds_the_empty_symbol() {
    let interner = Interner::default();
    let key = interner.symbol("").expect("the empty symbol is interned");
    assert_eq!(key, reality::symbol_key(""));
}

#[test]
fn interner_add_map_interns_the_set() {
    let mut interner = Interner::empty();
    let key = interner.add_map(vec!["b", "a", "b"]).expect("should add");
    match interner.get(&key) {
        Some(Value::Complex(set)) => {
            assert_eq!(set.len(), 2);
            assert_eq!(set.get(0), "a");
            assert_eq!(set.get(1), "b");
        }
        _ => panic!("expected a complex"),
    }
    let again = interner.add_map(vec!["a", "b"]).expect("should add");
    assert_eq!(key, again);
    assert_eq!(interner.complexes().len(), 1);
}

#[test]
fn interner_complex_key_is_the_reference_of_the_value() {
    let mut interner = Interner::empty();
    let key = interner.add_map(vec!["x", "y"]).expect("should add");
    let set = SymbolSet::from_strs(&vec!["y", "x"]);
    match Value::from_complex(set).to_ref() {
        Value::Reference(r) => assert_eq!(r, key),
        _ => panic!("expected a reference"),
    }
}

#[test]
fn interner_merge_keeps_both_sides() {
    let mut a = Interner::empty();
    a.add_symbol("left").expect("add");
    let mut b = Interner::empty();
    b.add_symbol("right").expect("add");
    b.add_map(vec!["p", "q"]).expect("add");
    let merged = a.merge(&b);
    assert!(merged.symbol("left").is_ok());
    assert!(merged.symbol("right").is_ok());
    assert_eq!(merged.symbols().len(), 2);
    assert_eq!(merged.complexes().len(), 1);

    let same = merged.merge(&merged);
    assert_eq!(same.symbols().len(), 2);
    let with_empty = merged.merge(&Interner::empty());
    assert_eq!(with_empty.symbols().len(), 2);
}

#[test]
fn interner_insert_overwrites() {
    let mut interner = Interner::empty();
    interner.insert_symbol(7, String::from("seven"));
    interner.insert_symbol(7, String::from("SEVEN"));
    match interner.get(&7) {
        Some(Value::Symbol(s)) => assert_eq!(s, "SEVEN"),
        _ => panic!("expected a symbol"),
    }
    let set = SymbolSet::from_strs(&vec!["k"]);
    interner.insert_complex(9, &set);
    assert!(matches!(interner.get(&9), Some(Value::Complex(_))));
}

#[test]
fn interner_symbols_round_trip() {
    let mut interner = Interner::empty();
    interner.add_symbol("one").expect("add");
    let symbols = interner.into_symbols();
    let back = Interner::from_symbols(symbols);
    assert!(back.symbol("one").is_ok());
}

#[test]
fn symbol_keys_are_the_default_hasher_digest() {
    assert_eq!(reality::symbol_key(""), 3476900567878811119);
    assert_eq!(reality::symbol_key("hello"), 16156531084128653017);
    assert_eq!(reality::symbol_key("a"), 8186225505942432243);
}

#[test]
fn symbol_and_text_reference_the_symbol_key() {
    match Value::from_symbol("k").to_ref() {
        Value::Reference(r) => assert_eq!(r, reality::symbol_key("k")),
        _ => panic!("expected a reference"),
    }
    match Value::TextBuffer(String::from("k")).to_ref() {
        Value::Reference(r) => assert_eq!(r, reality::symbol_key("k")),
        _ => panic!("expected a reference"),
    }
    assert!(matches!(Value::Reference(77).to_ref(), Value::Reference(77)));
}
