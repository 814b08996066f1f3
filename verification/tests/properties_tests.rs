use reality::{property_list, property_value, Identifier, Properties, Property, Value};

fn symbol(s: &str) -> Value {
    Value::from_symbol(s)
}

#[test]
fn test_properties_indexer() {
    let mut properties = Properties::new(Identifier::default());
    properties.add("test", symbol("test-symbol"));
    assert_eq!(
        "test-symbol",
        properties.property("test").unwrap().as_symbol().unwrap()
    );

    properties.add("test", symbol("test-symbol-2"));
    assert_eq!(
        "test-symbol-2",
        &properties.property("test").unwrap().as_value_vec().unwrap()[1]
            .symbol()
            .unwrap_or_default()
    );

    let mut inner = Properties::new(Identifier::new("testa", "testa"));
    inner.add("test-symbol-a", symbol("test-symbol-a"));
    properties.add_readonly_properties(&inner);
    let nested = properties
        .property("testa")
        .unwrap()
        .as_properties()
        .unwrap();
    assert_eq!(
        "test-symbol-a",
        nested.property("test-symbol-a").unwrap().as_symbol().unwrap()
    );

    properties.set("test-mut", property_value(symbol("test-mut-value")));
    assert_eq!(
        "test-mut-value",
        properties.property("test-mut").unwrap().as_symbol().unwrap()
    );
}

#[test]
fn property_test() {
    let t: String;
    let tp = property_value(symbol("test"));
    t = tp.to_symbol_string();
    assert_eq!(t, "test");
}

#[test]
fn properties_add_accumulates_into_a_list() {
    let mut p = Properties::new(Identifier::default());
    p.add("n", Value::from_i32(1));
    assert_eq!(p.property("n").unwrap().as_int(), Some(1));
    p.add("n", Value::from_i32(2));
    p.add("n", Value::from_i32(3));
    assert_eq!(p.property("n").unwrap().as_int_vec(), Some(vec![1, 2, 3]));
    assert_eq!(p.len(), 1);
}

#[test]
fn properties_add_replaces_empty() {
    let mut p = Properties::new(Identifier::default());
    p.set("e", Property::Empty);
    p.add("e", Value::from_bool(true));
    assert!(p.property("e").unwrap().is_enabled());
    assert!(p.property("e").unwrap().to_bool());
}

#[test]
fn properties_take_leaves_empty() {
    let mut p = Properties::new(Identifier::default());
    p.add("k", symbol("v"));
    let taken = p.take("k").expect("present");
    assert_eq!(taken.as_symbol().unwrap(), "v");
    assert!(matches!(p.property("k"), Some(Property::Empty)));
    assert!(p.take("k").is_none());
    assert!(p.take("missing").is_none());
}

#[test]
fn properties_remove_and_contains() {
    let mut p = Properties::new(Identifier::default());
    p.add("b", symbol("x"));
    p.add("a", symbol("y"));
    assert!(p.contains("a"));
    assert!(p.remove("a").is_some());
    assert!(!p.contains("a"));
    assert!(p.remove("a").is_none());
    assert_eq!(p.len(), 1);
}

#[test]
fn properties_names_are_kept_in_order() {
    let mut p = Properties::new(Identifier::default());
    p.add("c", Value::from_i32(3));
    p.add("a", Value::from_i32(1));
    p.add("b", Value::from_i32(2));
    let names: Vec<String> = (0..p.len()).map(|i| p.entry_at(i).0.clone()).collect();
    assert_eq!(names, vec!["a", "b", "c"]);
}

#[test]
fn properties_with_leaves_the_source_map_unchanged() {
    let mut p = Properties::new(Identifier::default());
    p.add("a", Value::from_i32(1));
    let q = p.with("a", property_value(Value::from_i32(5)));
    assert_eq!(p.property("a").unwrap().as_int(), Some(1));
    assert_eq!(q.property("a").unwrap().as_int(), Some(5));
}

#[test]
fn nested_properties_answer_for_their_subject() {
    let mut inner = Properties::new(Identifier::new("outer.inner", "flag"));
    inner.add("flag", Value::from_bool(true));
    let mut outer = Properties::new(Identifier::default());
    outer.add_readonly_properties(&inner);
    let nested = outer.property("outer.inner").unwrap();
    assert!(nested.is_enabled());

    let mut no_subject = Properties::new(Identifier::new("x", "missing"));
    no_subject.add("flag", Value::from_bool(true));
    outer.add_readonly_properties(&no_subject);
    assert!(!outer.property("x").unwrap().is_enabled());
}

#[test]
fn property_readers() {
    let p = property_list(vec![symbol("a"), symbol("b")]);
    assert_eq!(p.as_symbol_vec(), Some(vec![String::from("a"), String::from("b")]));
    assert_eq!(p.as_symbol(), None);
    assert_eq!(p.to_symbol_string(), "");
    let i = property_value(Value::from_i32(-1));
    assert_eq!(i.to_i32(), -1);
    assert_eq!(i.to_usize(), usize::MAX);
    assert_eq!(property_value(symbol("s")).to_i32(), 0);
    let pair = property_value(Value::IntPair(1, 2));
    assert_eq!(pair.as_int2(), Some([1, 2]));
    let range = property_value(Value::IntRange(1, 2, 3));
    assert_eq!(range.as_int3(), Some([1, 2, 3]));
    let text = property_value(Value::TextBuffer(String::from("t")));
    assert_eq!(text.as_text().unwrap(), "t");
    assert_eq!(text.as_text_vec(), Some(vec![String::from("t")]));
    let bin = property_value(Value::BinaryVector(vec![1, 2]));
    assert_eq!(bin.as_binary(), Some(&vec![1u8, 2]));
}

#[test]
fn adding_to_a_nested_map_leaves_it() {
    let mut inner = Properties::new(Identifier::new("n", "n"));
    inner.add("x", Value::Int(1));
    let mut p = Properties::new(Identifier::default());
    p.add_readonly_properties(&inner);
    p.add("n", Value::Int(2));
    let nested = p.property("n").unwrap().as_properties().expect("still nested");
    assert_eq!(nested.property("x").unwrap().as_int(), Some(1));
    assert!(nested.property("n").is_none());
}

#[test]
fn property_edit_changes_values_in_place() {
    let mut single = Property::Single(Value::Int(1));
    single.edit(|v| *v = Value::Int(2), |_| {}, || None);
    assert!(matches!(single, Property::Single(Value::Int(2))));

    let mut list = Property::List(vec![Value::Int(1)]);
    list.edit(|_| {}, |l| l.push(Value::Int(3)), || None);
    match list {
        Property::List(values) => assert_eq!(values.len(), 2),
        _ => panic!("expected a list"),
    }

    let mut empty = Property::Empty;
    empty.edit(|_| {}, |_| {}, || Some(Value::Bool(true)));
    assert!(matches!(empty, Property::Single(Value::Bool(true))));

    let mut still_empty = Property::Empty;
    still_empty.edit(|_| {}, |_| {}, || None);
    assert!(matches!(still_empty, Property::Empty));
}
