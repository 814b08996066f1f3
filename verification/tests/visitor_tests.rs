use reality::{
    property_list, property_value, Error, Identifier, Interner, NameIndex, Properties, SymbolSet,
    Value, Visit, Visitor,
};

#[derive(Default)]
struct Recorder {
    events: Vec<String>,
}

impl Visitor for Recorder {
    fn visit_property_name(&mut self, name: &str) {
        self.events.push(format!("name {name}"));
    }

    fn visit_symbol(&mut self, name: &str, idx: Option<usize>, symbol: &String) {
        self.events.push(format!("symbol {name} {idx:?} {symbol}"));
    }

    fn visit_int(&mut self, name: &str, idx: Option<usize>, i: i32) {
        self.events.push(format!("int {name} {idx:?} {i}"));
    }

    fn visit_empty(&mut self, name: &str) {
        self.events.push(format!("empty {name}"));
    }

    fn visit_readonly(&mut self, properties: std::sync::Arc<Properties>) {
        self.events.push(format!("readonly {}", properties.len()));
    }
}

#[test]
fn visitor_dispatches_by_kind() {
    let mut p = Properties::new(Identifier::default());
    p.add("b", Value::from_symbol("x"));
    p.add("a", Value::Int(1));
    p.add("a", Value::Int(2));
    p.set("c", reality::Property::Empty);
    let mut inner = Properties::new(Identifier::new("d", "d"));
    inner.add("z", Value::Int(0));
    p.add_readonly_properties(&inner);

    let mut r = Recorder::default();
    r.visit_properties(&p);
    assert_eq!(
        r.events,
        vec![
            "name a",
            "int a Some(0) 1",
            "int a Some(1) 2",
            "name b",
            "symbol b None x",
            "name c",
            "empty c",
            "name d",
            "readonly 1",
        ]
    );

    let mut r2 = Recorder::default();
    p.visit((), &mut r2).expect("visiting never fails");
    assert_eq!(r2.events, r.events);
}

#[test]
fn visit_contexts() {
    let mut r = Recorder::default();
    String::from("s").visit(NameIndex("n", Some(3)), &mut r).expect("ok");
    String::from("t").visit("m", &mut r).expect("ok");
    Value::Int(9).visit(NameIndex("k", None), &mut r).expect("ok");
    property_list(vec![Value::Int(5)]).visit("l", &mut r).expect("ok");
    assert_eq!(
        r.events,
        vec!["symbol n Some(3) s", "symbol m None t", "int k None 9", "name l", "int l Some(0) 5"]
    );
}

#[test]
fn simple_visitors_keep_what_they_read() {
    let mut s = String::new();
    s.visit_value("x", None, &Value::from_symbol("sym"));
    assert_eq!(s, "sym");
    s.visit_value("x", None, &Value::TextBuffer(String::from("txt")));
    assert_eq!(s, "txt");
    s.visit_value("x", None, &Value::Int(3));
    assert_eq!(s, "txt");

    let mut o: Option<String> = None;
    o.visit_property("p", &property_value(Value::from_symbol("v")));
    assert_eq!(o.as_deref(), Some("v"));

    let mut b = false;
    b.visit_value("x", None, &Value::Bool(true));
    assert!(b);

    let mut n: usize = 7;
    n.visit_value("x", None, &Value::Int(-1));
    assert_eq!(n, 7);
    n.visit_value("x", None, &Value::Int(4));
    assert_eq!(n, 4);

    let mut u: u32 = 1;
    u.visit_int("x", None, -5);
    assert_eq!(u, 1);

    let mut i: i32 = 0;
    i.visit_int("x", None, -5);
    assert_eq!(i, -5);

    let mut set = SymbolSet::new();
    set.visit_value("x", None, &Value::Complex(SymbolSet::from_strs(&vec!["q"])));
    assert_eq!(set.len(), 1);
}

#[test]
fn pair_visitors_read_the_pair_memory() {
    let mut r: u64 = 0;
    r.visit_value("x", None, &Value::Reference(42));
    assert_eq!(r, 42);
    r.visit_int_pair("x", None, &[1, 2]);
    let le = 1u64 | (2u64 << 32);
    let be = 2u64 | (1u64 << 32);
    assert!(r == le || r == be);
    let mut s: i64 = 0;
    s.visit_int_pair("x", None, &[-1, 0]);
    assert!(s == 0xffff_ffff || s == -4294967296);
}

#[test]
fn result_visitors_reject_negative_ints() {
    let mut r: Result<usize, Error> = Ok(0);
    r.visit_int("x", None, 5);
    assert_eq!(r.as_ref().ok(), Some(&5));
    r.visit_int("x", None, -5);
    assert_eq!(
        r.expect_err("negative").message,
        "Current value is signed (negative) and cannot be converted"
    );
    let mut q: Result<u32, Error> = Ok(0);
    q.visit_int("x", None, -1);
    assert!(q.is_err());
    let mut w: Result<i64, Error> = Ok(0);
    w.visit_int("x", None, -1);
    assert_eq!(w.ok(), Some(-1));
}

#[test]
fn byte_buffers_copy_equal_lengths() {
    let mut buf = vec![0u8; 3];
    buf.visit_binary("x", None, &vec![1, 2, 3]);
    assert_eq!(buf, vec![1, 2, 3]);
    buf.visit_binary("x", None, &vec![9]);
    assert_eq!(buf, vec![1, 2, 3]);
    buf.visit_text_buffer("x", None, &String::from("abc"));
    assert_eq!(buf, b"abc".to_vec());
}

#[test]
fn interner_visits_names_symbols_and_nested_maps() {
    let mut inner = Properties::new(Identifier::new("n", "n"));
    inner.add("deep", Value::from_symbol("deeper"));
    let mut p = Properties::new(Identifier::default());
    p.add("top", Value::from_symbol("sym"));
    p.add_readonly_properties(&inner);
    let mut interner = Interner::empty();
    interner.visit_properties(&p);
    for s in ["top", "sym", "n", "deep", "deeper"] {
        let key = interner.symbol(s).expect("key");
        assert!(interner.get(&key).is_some(), "{s}");
    }
}

#[test]
fn properties_visitor_nests_visited_maps() {
    let mut target = Properties::new(Identifier::default());
    let mut visited = Properties::new(Identifier::new("v", "v"));
    visited.add("v", Value::Int(1));
    target.visit_properties(&visited);
    assert_eq!(target.property("v").unwrap().as_int(), Some(1));
}
