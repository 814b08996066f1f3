use reality::{
    DocumentBuilder, Identifier, Properties, Property, Root, TomlItem, TomlValue, Value, Visitor,
};

#[test]
fn format_ident_drops_quotes_and_outer_dots() {
    let id = Identifier::new(".a.\"b c\".d.", "d");
    assert_eq!(DocumentBuilder::format_ident(&id), "a.b c.d");
    assert_eq!(DocumentBuilder::format_ident(&Identifier::new("", "")), "");
}

#[test]
fn properties_are_exported_as_tables() {
    let mut p = Properties::new(Identifier::new(".owner", "owner"));
    p.add("b", Value::from_symbol("x"));
    p.add("a", Value::Int(1));
    p.add("a", Value::Int(2));
    p.set("e", Property::Empty);
    p.set("l", Property::List(vec![]));
    let mut builder = DocumentBuilder::new();
    builder.visit_properties(&p);
    let section = builder.properties();
    assert_eq!(section.len(), 1);
    assert_eq!(section[0].0, "owner");
    let table = &section[0].1;
    let keys: Vec<&str> = table.iter().map(|(k, _)| k.as_str()).collect();
    assert_eq!(keys, vec!["a", "b"]);
    match &table[0].1 {
        TomlItem::Array(a) => {
            assert_eq!(a.len(), 2);
            assert!(matches!(a[1], TomlItem::Integer(2)));
        }
        _ => panic!("expected an array"),
    }
    assert!(matches!(&table[1].1, TomlItem::String(s) if s == "x"));

    // Visiting the same owner again starts its table afresh, in place.
    let mut q = Properties::new(Identifier::new("owner", "owner"));
    q.add("z", Value::Bool(true));
    builder.visit_properties(&q);
    assert_eq!(builder.properties().len(), 1);
    assert_eq!(builder.properties()[0].1.len(), 1);
}

#[test]
fn values_are_written_into_the_current_table() {
    let mut builder = DocumentBuilder::new();
    builder.visit_value("ignored", None, &Value::Int(1));
    assert_eq!(builder.properties().len(), 0);

    builder.visit_properties(&Properties::new(Identifier::new("o", "o")));
    builder.visit_value("n", None, &Value::Int(5));
    builder.visit_value("l", Some(0), &Value::Int(1));
    builder.visit_value("l", Some(1), &Value::Int(2));
    builder.visit_value("m", Some(3), &Value::Int(9));
    let table = &builder.properties()[0].1;
    assert_eq!(table.len(), 2);
    assert!(matches!(table[0].1, TomlItem::Integer(5)));
    assert!(matches!(&table[1].1, TomlItem::Array(a) if a.len() == 2));
}

#[test]
fn roots_are_exported_with_their_extensions() {
    let root = Root::new(Identifier::new("\"r\"", "r"), Value::Empty)
        .extend(&Identifier::new(".ext.a", "a"))
        .with("x", Value::Int(1))
        .extend(&Identifier::new("ext.b.", "b"));
    let mut builder = DocumentBuilder::new();
    builder.visit_root(&root);
    let roots = builder.roots();
    assert_eq!(roots.len(), 1);
    assert_eq!(roots[0].0, "r");
    assert_eq!(roots[0].1, vec![String::from("ext.a"), String::from("ext.b")]);
}

fn read_back(item: &TomlItem) -> TomlValue {
    match item {
        TomlItem::String(s) => TomlValue::String {
            content: s.clone(),
            rendered: format!("\"{s}\""),
        },
        TomlItem::Integer(i) => TomlValue::Integer(*i),
        TomlItem::Float(f) => TomlValue::Float(*f),
        TomlItem::Boolean(b) => TomlValue::Boolean(*b),
        TomlItem::Array(a) => TomlValue::Array(a.iter().map(read_back).collect()),
        TomlItem::InlineTable(t) => {
            TomlValue::InlineTable(t.iter().map(|(k, v)| (k.clone(), read_back(v))).collect())
        }
    }
}

struct NoFiles;

impl reality::LocalBlobs for NoFiles {
    fn read_local(&self, _path: &str) -> Result<Vec<u8>, reality::Error> {
        Err(reality::Error::new("none"))
    }
}

#[test]
fn exported_properties_read_back() {
    let mut p = Properties::new(Identifier::new("o", "o"));
    p.add("flag", Value::Bool(true));
    p.add("n", Value::Int(-3));
    p.add("pair", Value::IntPair(1, 2));
    p.add("bin", Value::BinaryVector(vec![1, 2, 3]));
    let mut builder = DocumentBuilder::new();
    builder.visit_properties(&p);
    let table: Vec<(String, TomlValue)> = builder.properties()[0]
        .1
        .iter()
        .map(|(k, v)| (k.clone(), read_back(v)))
        .collect();
    let back = reality::properties_from_toml(Identifier::new("o", "o"), &table, &NoFiles);
    assert_eq!(back.len(), 4);
    assert!(back.property("flag").unwrap().is_enabled());
    assert_eq!(back.property("n").unwrap().as_int(), Some(-3));
    assert_eq!(back.property("pair").unwrap().as_int2(), Some([1, 2]));
    assert_eq!(back.property("bin").unwrap().as_binary(), Some(&vec![1u8, 2, 3]));
}
