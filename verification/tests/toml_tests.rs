use reality::{
    property_from_toml, value_from_blob, value_from_toml, BlobInfo, Error, Identifier, LocalBlobs,
    Property, SymbolSet, TomlItem, TomlProperties, TomlValue, Value,
};

struct NoFiles;

impl LocalBlobs for NoFiles {
    fn read_local(&self, _path: &str) -> Result<Vec<u8>, Error> {
        Err(Error::new("no files here"))
    }
}

struct OneFile;

impl LocalBlobs for OneFile {
    fn read_local(&self, path: &str) -> Result<Vec<u8>, Error> {
        if path == "a.bin" {
            Ok(vec![9, 8, 7])
        } else {
            Err(Error::new("missing"))
        }
    }
}

fn string(content: &str, rendered: &str) -> TomlValue {
    TomlValue::String {
        content: content.to_string(),
        rendered: rendered.to_string(),
    }
}

fn table(entries: Vec<(&str, TomlValue)>) -> TomlValue {
    TomlValue::InlineTable(entries.into_iter().map(|(k, v)| (k.to_string(), v)).collect())
}

/// What a document gives back for a written item, strings rendered with quotes.
fn read_back(item: &TomlItem) -> TomlValue {
    match item {
        TomlItem::String(s) => string(s, &format!("\"{s}\"")),
        TomlItem::Integer(i) => TomlValue::Integer(*i),
        TomlItem::Float(f) => TomlValue::Float(*f),
        TomlItem::Boolean(b) => TomlValue::Boolean(*b),
        TomlItem::Array(a) => TomlValue::Array(a.iter().map(read_back).collect()),
        TomlItem::InlineTable(t) => {
            TomlValue::InlineTable(t.iter().map(|(k, v)| (k.clone(), read_back(v))).collect())
        }
    }
}

#[test]
fn values_are_written_as_toml() {
    assert!(matches!(Value::Bool(true).to_toml(), TomlItem::Boolean(true)));
    assert!(matches!(Value::Int(-4).to_toml(), TomlItem::Integer(-4)));
    assert!(matches!(Value::Reference(u64::MAX).to_toml(), TomlItem::Integer(-1)));
    match Value::Empty.to_toml() {
        TomlItem::String(s) => assert_eq!(s, ""),
        _ => panic!("expected a string"),
    }
    match Value::IntRange(1, 2, 3).to_toml() {
        TomlItem::Array(a) => {
            assert_eq!(a.len(), 3);
            assert!(matches!(a[2], TomlItem::Integer(3)));
        }
        _ => panic!("expected an array"),
    }
    match Value::BinaryVector(b"hi there".to_vec()).to_toml() {
        TomlItem::InlineTable(t) => {
            assert_eq!(t[0].0, "src");
            assert!(matches!(&t[0].1, TomlItem::String(s) if s == "base64"));
            assert_eq!(t[1].0, "data");
            assert!(matches!(&t[1].1, TomlItem::String(s) if s == "aGkgdGhlcmU="));
        }
        _ => panic!("expected a table"),
    }
}

#[test]
fn complex_is_written_with_its_marker_and_positions() {
    let set = SymbolSet::from_strs(&vec!["b", "a"]);
    match Value::Complex(set).to_toml() {
        TomlItem::InlineTable(t) => {
            let keys: Vec<&str> = t.iter().map(|(k, _)| k.as_str()).collect();
            assert_eq!(keys, vec!["_type", "a", "b"]);
            assert!(matches!(&t[0].1, TomlItem::String(s) if s == "complex"));
            assert!(matches!(t[1].1, TomlItem::Integer(0)));
            assert!(matches!(t[2].1, TomlItem::Integer(1)));
        }
        _ => panic!("expected a table"),
    }
    let with_marker = SymbolSet::from_strs(&vec!["_type", "z"]);
    match Value::Complex(with_marker).to_toml() {
        TomlItem::InlineTable(t) => {
            assert_eq!(t.len(), 2);
            assert_eq!(t[0].0, "_type");
            assert!(matches!(t[0].1, TomlItem::Integer(0)));
        }
        _ => panic!("expected a table"),
    }
}

#[test]
fn toml_strings_are_read_as_symbols() {
    match value_from_toml(&string("abc", " \"abc\" "), &NoFiles) {
        Value::Symbol(s) => assert_eq!(s, "abc"),
        _ => panic!("expected a symbol"),
    }
    match value_from_toml(&TomlValue::Datetime(String::from("1979-05-27")), &NoFiles) {
        Value::Symbol(s) => assert_eq!(s, "1979-05-27"),
        _ => panic!("expected a symbol"),
    }
}

#[test]
fn toml_numbers_are_read() {
    assert!(matches!(
        value_from_toml(&TomlValue::Integer(4294967297), &NoFiles),
        Value::Int(1)
    ));
    assert!(matches!(value_from_toml(&TomlValue::Boolean(true), &NoFiles), Value::Bool(true)));
    assert!(matches!(value_from_toml(&TomlValue::Float(7), &NoFiles), Value::Float(7)));
}

#[test]
fn toml_arrays_are_read_as_pairs_and_ranges() {
    let ints = |xs: &[i64]| TomlValue::Array(xs.iter().map(|x| TomlValue::Integer(*x)).collect());
    assert!(matches!(value_from_toml(&ints(&[1, 2]), &NoFiles), Value::IntPair(1, 2)));
    assert!(matches!(value_from_toml(&ints(&[1, 2, 3]), &NoFiles), Value::IntRange(1, 2, 3)));
    assert!(matches!(value_from_toml(&ints(&[1, 2, 3, 4]), &NoFiles), Value::IntRange(1, 2, 3)));
    assert!(matches!(value_from_toml(&ints(&[1]), &NoFiles), Value::Empty));
    let mixed = TomlValue::Array(vec![TomlValue::Integer(1), TomlValue::Float(2)]);
    assert!(matches!(value_from_toml(&mixed, &NoFiles), Value::Empty));
}

#[test]
fn toml_tables_are_read_as_complexes_or_blobs() {
    let complex = table(vec![
        ("_type", string("complex", "\"complex\"")),
        ("x", TomlValue::Integer(0)),
    ]);
    match value_from_toml(&complex, &NoFiles) {
        Value::Complex(c) => {
            assert_eq!(c.len(), 2);
            assert_eq!(c.get(0), "_type");
            assert_eq!(c.get(1), "x");
        }
        _ => panic!("expected a complex"),
    }
    let blob = table(vec![
        ("src", string("base64", "\"base64\"")),
        ("data", string("aGkgdGhlcmU=", "\"aGkgdGhlcmU=\"")),
    ]);
    match value_from_toml(&blob, &NoFiles) {
        Value::BinaryVector(b) => assert_eq!(b, b"hi there".to_vec()),
        _ => panic!("expected a blob"),
    }
    let local = table(vec![
        ("src", string("local", "\"local\"")),
        ("data", string("a.bin", "\"a.bin\"")),
    ]);
    match value_from_toml(&local, &OneFile) {
        Value::BinaryVector(b) => assert_eq!(b, vec![9, 8, 7]),
        _ => panic!("expected a blob"),
    }
    assert!(matches!(value_from_toml(&local, &NoFiles), Value::Empty));
    let other = table(vec![("src", string("url", "\"url\""))]);
    assert!(matches!(value_from_toml(&other, &NoFiles), Value::Empty));
}

#[test]
fn toml_arrays_that_are_no_pair_become_lists() {
    let list = TomlValue::Array(vec![string("a", "\"a\""), string("b", "\"b\"")]);
    match property_from_toml(&list, &NoFiles) {
        Property::List(values) => {
            assert_eq!(values.len(), 2);
            assert!(matches!(&values[1], Value::Symbol(s) if s == "b"));
        }
        _ => panic!("expected a list"),
    }
    let pair = TomlValue::Array(vec![TomlValue::Integer(1), TomlValue::Integer(2)]);
    assert!(matches!(
        property_from_toml(&pair, &NoFiles),
        Property::Single(Value::IntPair(1, 2))
    ));
    assert!(matches!(
        property_from_toml(&TomlValue::Boolean(false), &NoFiles),
        Property::Single(Value::Bool(false))
    ));
}

#[test]
fn values_round_trip_through_toml() {
    for v in [
        Value::Bool(true),
        Value::Int(-7),
        Value::IntPair(3, 4),
        Value::IntRange(5, 6, 7),
        Value::FloatPair(1, 2),
        Value::BinaryVector(vec![0, 1, 2, 255]),
    ] {
        let back = value_from_toml(&read_back(&v.to_toml()), &NoFiles);
        assert_eq!(format!("{:?}", back), format!("{:?}", v));
    }
    let set = SymbolSet::from_strs(&vec!["m", "n"]);
    match value_from_toml(&read_back(&Value::Complex(set).to_toml()), &NoFiles) {
        Value::Complex(c) => {
            assert_eq!(c.len(), 3);
            assert_eq!(c.get(0), "_type");
        }
        _ => panic!("expected a complex"),
    }
}

#[test]
fn blob_info_rules() {
    let b = BlobInfo::new("base64", "aGk=");
    assert!(!b.is_valid_local());
    assert!(!b.is_valid_remote());
    let b = b.with_ident(Identifier::new("x", "x"));
    assert!(b.is_valid_local());
    assert!(!b.is_valid_remote());
    let b = b.with_fetcher();
    assert!(b.is_valid_remote());
    assert!(matches!(value_from_blob(&b, &NoFiles), Ok(Value::BinaryVector(v)) if v == b"hi".to_vec()));

    let bad = BlobInfo::new("base64", "!!");
    let err = value_from_blob(&bad, &NoFiles).expect_err("not base64");
    assert!(err.message.starts_with("Could not convert decode base64, "));
    assert!(err.message.len() > "Could not convert decode base64, ".len());

    let remote = BlobInfo::new("url", "https://x").with_ident(Identifier::new("x", "x")).with_fetcher();
    let err = value_from_blob(&remote, &NoFiles).expect_err("remote");
    assert_eq!(err.message, "Could not convert blob info, use fetcher impl w/ call fn instead");
    let unknown = BlobInfo::new("url", "https://x");
    let err = value_from_blob(&unknown, &NoFiles).expect_err("unknown");
    assert_eq!(err.message, "Could not convert blob info into value");
}

#[test]
fn blob_info_from_table_needs_src_and_data() {
    let t = vec![
        (String::from("src"), string("local", "'local'")),
        (String::from("data"), string("p", "'p'")),
    ];
    assert!(BlobInfo::from_table(&t).is_ok());
    let missing = vec![(String::from("src"), string("local", "'local'"))];
    assert!(BlobInfo::from_table(&missing).is_err());
    let not_string = vec![
        (String::from("src"), TomlValue::Integer(1)),
        (String::from("data"), string("p", "'p'")),
    ];
    assert!(BlobInfo::from_table(&not_string).is_err());
}

#[test]
fn local_blobs_are_read_from_their_path() {
    let found = BlobInfo::new("local", "a.bin");
    assert!(matches!(value_from_blob(&found, &OneFile), Ok(Value::BinaryVector(v)) if v == vec![9, 8, 7]));
    let missing = BlobInfo::new("local", "b.bin");
    let err = value_from_blob(&missing, &OneFile).expect_err("no such file");
    assert_eq!(err.message, "missing");
}

#[test]
fn loading_toml_adds_missing_tables() {
    let props = TomlProperties::try_load("a = 1\n\n[block]\nx = 2\n").expect("parses");
    let keys: Vec<&str> = props.doc.iter().map(|(k, _)| k).collect();
    assert_eq!(keys, vec!["a", "block", "properties", "root"]);
    assert!(props.doc.contains_table("properties"));
    assert!(props.doc.contains_table("root"));
    assert!(props.doc["properties"].as_table().expect("a table").is_implicit());
    assert_eq!(props.doc["block"]["x"].as_integer(), Some(2));
}

#[test]
fn loading_toml_replaces_a_value_where_a_table_belongs() {
    let props = TomlProperties::try_load("root = 5\nproperties = 'x'\n").expect("parses");
    let keys: Vec<&str> = props.doc.iter().map(|(k, _)| k).collect();
    assert_eq!(keys, vec!["root", "properties", "block"]);
    assert!(props.doc.contains_table("root"));
    assert!(props.doc.contains_table("properties"));
}

#[test]
fn loading_text_that_is_no_toml_fails() {
    assert!(TomlProperties::try_load("a = = 1").is_err());
}
