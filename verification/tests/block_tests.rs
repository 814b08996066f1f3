use reality::{
    doc, with, Action, Block, BlockList, Identifier, Keywords, MergeRejectedReason, Packet,
    PacketHandler, Value,
};

fn id(s: &str) -> Identifier {
    Identifier::new(s, s)
}

fn packet(block: &str, ident: &str, keyword: Keywords, actions: Vec<Action>) -> Packet {
    Packet {
        block_identifier: id(block),
        identifier: id(ident),
        keyword,
        actions,
    }
}

#[test]
fn block_list_builds_blocks_from_packets() {
    let mut list = BlockList::new();
    assert!(list.block(&id("b")).is_none());
    list.on_packet(packet("b", "x", Keywords::Define, vec![doc("block doc")])).expect("never fails");
    list.on_packet(packet("b", "r", Keywords::Add, vec![with("r", Value::Int(1))])).expect("never fails");
    list.on_packet(packet("b", "y", Keywords::Define, vec![with("k", Value::Bool(true)), doc("d")])).expect("never fails");
    list.on_packet(packet("b", "ext", Keywords::Extension, vec![])).expect("never fails");
    list.on_packet(packet("b", "z", Keywords::Other, vec![with("ignored", Value::Empty)])).expect("never fails");
    list.on_packet(packet("b", "no", Keywords::Add, vec![doc("not a value")])).expect("never fails");
    list.on_packet(packet("other", "e", Keywords::Extension, vec![])).expect("never fails");

    let block = list.block(&id("b")).expect("created");
    assert_eq!(block.ident().name(), "b");
    assert_eq!(block.root_count(), 1);
    let root = &block.roots()[0];
    assert_eq!(root.ident().name(), "r");
    assert!(matches!(root.value(), Value::Int(1)));
    assert_eq!(root.action_buffer().len(), 3);
    let required = block.required();
    assert_eq!(required.len(), 1);
    assert_eq!(required[0].name(), "ext");

    let other = list.block(&id("other")).expect("created");
    assert_eq!(other.root_count(), 0);
}

#[test]
fn block_keeps_its_own_actions_and_roots() {
    let mut block = Block::new(id("blk"));
    block.initialize_with(doc("hello"));
    block.add_attribute(id("a"), Value::Int(3));
    block.add_attribute(id("b"), Value::Int(4));
    assert_eq!(block.root_count(), 2);
    assert_eq!(block.roots()[1].ident().name(), "b");
    assert!(block.required().is_empty());
}

#[test]
fn packets_merge_only_defines_of_the_same_identifier() {
    let mut p = packet("b", "x", Keywords::Define, vec![doc("one")]);
    assert!(p.is_define() && !p.is_add() && !p.is_extension());
    assert!(p.merge_packet(packet("b", "x", Keywords::Define, vec![doc("two")])).is_ok());
    assert_eq!(p.actions.len(), 2);
    assert!(matches!(
        p.merge_packet(packet("b", "x", Keywords::Extension, vec![])),
        Err(MergeRejectedReason::NewExtension(_))
    ));
    assert!(matches!(
        p.merge_packet(packet("b", "x", Keywords::Add, vec![])),
        Err(MergeRejectedReason::NewRoot(_))
    ));
    assert!(matches!(
        p.merge_packet(packet("c", "x", Keywords::Define, vec![])),
        Err(MergeRejectedReason::DifferentBlockNamespace(_))
    ));
    match p.merge_packet(packet("b", "y", Keywords::Define, vec![doc("three")])) {
        Err(MergeRejectedReason::UnrelatedPacket(back)) => assert_eq!(back.actions.len(), 1),
        _ => panic!("expected an unrelated packet"),
    }
    assert_eq!(p.actions.len(), 2);
    match p.merge_packet(packet("b", "x", Keywords::Other, vec![doc("four")])) {
        Err(MergeRejectedReason::UnrelatedPacket(back)) => assert_eq!(back.actions.len(), 1),
        _ => panic!("a packet that defines nothing is not merged"),
    }
    assert_eq!(p.actions.len(), 2);
}

#[test]
fn extension_packets_build_properties() {
    let p = packet(
        "b",
        "ext",
        Keywords::Extension,
        vec![with("a", Value::Int(1)), doc("d"), with("a", Value::Int(2))],
    );
    let props = p.build_properties().expect("extension");
    assert_eq!(props.owner().name(), "ext");
    assert_eq!(props.property("a").unwrap().as_int_vec(), Some(vec![1, 2]));
    let q = packet("b", "x", Keywords::Define, vec![]);
    assert_eq!(q.build_properties().expect_err("not an extension").message, "not implemented");
}

#[test]
fn unit_packet_handler_accepts_everything() {
    let mut unit = ();
    assert!(unit.on_packet(packet("b", "x", Keywords::Other, vec![])).is_ok());
}

#[test]
fn block_properties_come_from_initializing_withs() {
    let mut block = Block::new(id("blk"));
    block.initialize_with(with("a", Value::Int(1)));
    block.initialize_with(doc("skip"));
    block.initialize_with(with("b", Value::Bool(false)));
    let p = block.properties();
    assert_eq!(p.owner().name(), "blk");
    assert_eq!(p.len(), 2);
    assert_eq!(p.property("a").unwrap().as_int(), Some(1));
}
