use reality::{from_comma_sep, SymbolSet, Value, ValueContainer};

#[test]
fn comma_separated_integers() {
    assert_eq!(from_comma_sep("1, 2,3"), vec![1, 2, 3]);
    assert_eq!(from_comma_sep(" 4 ,x, -5,"), vec![4, -5]);
    assert_eq!(from_comma_sep(""), Vec::<i32>::new());
    assert_eq!(from_comma_sep(",,"), Vec::<i32>::new());
    assert_eq!(from_comma_sep("+7,2147483648,-2147483648"), vec![7, -2147483648]);
    assert_eq!(from_comma_sep("1 2, 3"), vec![3]);
}

#[test]
fn bool_container() {
    assert_eq!(ValueContainer::<bool>::ident(), "bool");
    assert!(matches!(ValueContainer::<bool>::parse("true"), Value::Bool(true)));
    assert!(matches!(ValueContainer::<bool>::parse("false"), Value::Bool(false)));
    assert!(matches!(ValueContainer::<bool>::parse(" true"), Value::Bool(false)));
    assert!(matches!(ValueContainer::<bool>::parse("yes"), Value::Bool(false)));
}

#[test]
fn int_container() {
    assert_eq!(ValueContainer::<i32>::ident(), "int");
    assert!(matches!(ValueContainer::<i32>::parse("42"), Value::Int(42)));
    assert!(matches!(ValueContainer::<i32>::parse("-3"), Value::Int(-3)));
    assert!(matches!(ValueContainer::<i32>::parse(" 42"), Value::Int(0)));
    assert!(matches!(ValueContainer::<i32>::parse("4x"), Value::Int(0)));
}

#[test]
fn int2_container() {
    assert_eq!(ValueContainer::<[i32; 2]>::ident(), "int2");
    assert!(matches!(ValueContainer::<[i32; 2]>::parse("1, 2, 3"), Value::IntPair(1, 2)));
    assert!(matches!(ValueContainer::<[i32; 2]>::parse("a, 5, b, 6"), Value::IntPair(5, 6)));
}

#[test]
fn int3_container_takes_only_two() {
    assert_eq!(ValueContainer::<[i32; 3]>::ident(), "int3");
    assert!(matches!(
        ValueContainer::<[i32; 3]>::parse("1, 2, 3"),
        Value::IntRange(0, 0, 0)
    ));
}

#[test]
fn text_and_symbol_containers() {
    assert_eq!(ValueContainer::<String>::ident(), "text");
    match ValueContainer::<String>::parse(" some text ") {
        Value::TextBuffer(t) => assert_eq!(t, " some text "),
        _ => panic!("expected text"),
    }
    assert_eq!(ValueContainer::<&str>::ident(), "symbol");
    match ValueContainer::<&str>::parse("sym") {
        Value::Symbol(t) => assert_eq!(t, "sym"),
        _ => panic!("expected symbol"),
    }
}

#[test]
fn binary_containers_decode_base64() {
    assert_eq!(ValueContainer::<Vec<u8>>::ident(), "bin");
    match ValueContainer::<Vec<u8>>::parse("aGkgdGhlcmU=") {
        Value::BinaryVector(b) => assert_eq!(b, b"hi there".to_vec()),
        _ => panic!("expected binary"),
    }
    match ValueContainer::<Vec<u8>>::parse("not base64!") {
        Value::BinaryVector(b) => assert!(b.is_empty()),
        _ => panic!("expected binary"),
    }
    assert_eq!(ValueContainer::<SymbolSet>::ident(), "complex");
    match ValueContainer::<SymbolSet>::parse("aGkgdGhlcmU=") {
        Value::BinaryVector(b) => assert_eq!(b, b"hi there".to_vec()),
        _ => panic!("expected binary"),
    }
}
