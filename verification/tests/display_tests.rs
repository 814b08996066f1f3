use reality::{display_value, property_list, property_value, SymbolSet, Value};

#[test]
fn values_display_as_text() {
    assert_eq!(display_value(&Value::Empty), "()");
    assert_eq!(display_value(&Value::Bool(false)), "false");
    assert_eq!(display_value(&Value::Int(-2147483648)), "-2147483648");
    assert_eq!(display_value(&Value::Int(0)), "0");
    assert_eq!(display_value(&Value::IntPair(1, -2)), "[1, -2]");
    assert_eq!(display_value(&Value::IntRange(10, 20, 305)), "[10, 20, 305]");
    assert_eq!(
        display_value(&Value::BinaryVector(vec![1, 2, 3])),
        "binary-vector omitted, len: 3"
    );
    assert_eq!(display_value(&Value::Reference(18446744073709551615)), "ref:18446744073709551615");
    assert_eq!(display_value(&Value::from_symbol("s y")), "s y");
    assert_eq!(
        display_value(&Value::Complex(SymbolSet::from_strs(&vec!["b", "a\"q"]))),
        "{\"a\\\"q\", \"b\"}"
    );
    assert_eq!(display_value(&Value::Complex(SymbolSet::new())), "{}");
}

#[test]
fn properties_display_as_text() {
    assert_eq!(property_value(Value::Int(4)).display(), "4");
    assert_eq!(property_list(vec![Value::Int(1), Value::Bool(true)]).display(), "1, true, ");
    assert_eq!(reality::Property::Empty.display(), "empty value");
}

#[test]
fn values_describe_themselves_with_their_reference() {
    let key = reality::symbol_key("x");
    assert_eq!(
        Value::from_symbol("x").display(),
        format!("Symbol(\"x\")::Reference({key})")
    );
    assert_eq!(Value::Reference(5).display(), "Reference(5)");
    let bin = Value::BinaryVector(b"hi".to_vec()).display();
    assert!(bin.starts_with("aGk=::Reference("));
    let complex = Value::Complex(SymbolSet::from_strs(&vec!["a"])).display();
    assert!(complex.starts_with("::Reference("));
    assert!(Value::IntPair(1, 2).display().starts_with("IntPair(1, 2)::Reference("));
}
