use reality::{
    doc, extend, property_value, with, Action, ActionBuffer, Documentation, Entity, Identifier,
    Link, Links, Root, Value,
};

#[test]
fn doc_comments_are_trimmed() {
    match doc("  a comment \n") {
        Action::Doc(d) => assert_eq!(d, "a comment"),
        _ => panic!("expected a doc"),
    }
}

#[test]
fn action_buffer_keeps_actions_in_order() {
    let ident = Identifier::new("x", "y");
    let mut buffer = ActionBuffer::new()
        .with("a", Value::Int(1))
        .extend(ident.clone())
        .doc(" hello ")
        .set("b", property_value(Value::Bool(true)));
    buffer.push_config(&ident, &property_value(Value::Int(2)));
    let actions = buffer.iter_actions();
    assert_eq!(actions.len(), 5);
    assert!(matches!(&actions[0], Action::With(n, Value::Int(1)) if n == "a"));
    assert!(matches!(&actions[1], Action::Extend(_)));
    assert!(matches!(&actions[2], Action::Doc(d) if d == "hello"));
    assert!(matches!(&actions[3], Action::SetProperty(n, _) if n == "b"));
    assert!(matches!(&actions[4], Action::Config(_, _)));
}

#[test]
fn documentation_recognizes_doc_actions() {
    let ident = Identifier::new("x", "y");
    let without = vec![with("a", Value::Empty), extend(&ident)];
    assert!(!Documentation::has_doc(&without));
    let with_doc = vec![with("a", Value::Empty), doc("d"), reality::action::set("s", property_value(Value::Empty))];
    assert!(Documentation::has_doc(&with_doc));
    assert!(!Documentation::has_doc(&Vec::new()));
}

#[test]
fn links_split_into_outgoing_and_incoming() {
    let a = Entity { id: 1, generation: 1 };
    let b = Entity { id: 2, generation: 1 };
    let c = Entity { id: 3, generation: 2 };
    let mut links = Links::new();
    links.insert_outgoing(a);
    links.insert_incoming(b);
    links.insert_outgoing(c);
    assert_eq!(links.outgoing(), vec![a, c]);
    assert_eq!(links.incoming(), vec![b]);
    assert_eq!(links.iter_links().len(), 3);
    assert!(matches!(links.iter_links()[1], Link::Incoming(e) if e == b));
}

#[test]
fn root_builds_properties_from_with_actions() {
    let ident = Identifier::new("root", "root");
    let ext = Identifier::new("ext", "ext");
    let root = Root::new(ident, Value::from_symbol("v"))
        .with("a", Value::Int(1))
        .extend(&ext)
        .with("a", Value::Int(2))
        .with("b", Value::Bool(true));
    let exts = root.extensions();
    assert_eq!(exts.len(), 1);
    assert_eq!(exts[0].name(), "ext");
    assert_eq!(root.action_buffer().len(), 4);
    let p = root.properties();
    assert_eq!(p.owner().name(), "root");
    assert_eq!(p.property("a").unwrap().as_int_vec(), Some(vec![1, 2]));
    assert!(p.property("b").unwrap().is_enabled());
    assert!(matches!(root.value(), Value::Symbol(s) if s == "v"));
    assert_eq!(root.ident().name(), "root");
}
