use reality::{FieldIndex, FieldKey, PacketRoutes};

fn names(list: &[&str]) -> Vec<String> {
    list.iter().map(|s| s.to_string()).collect()
}

#[test]
fn routes_start_without_pending_edits() {
    let routes = PacketRoutes::new(&names(&["name", "other"]));
    assert_eq!(routes.inner.len(), 2);
    let f = routes.route::<1>();
    assert_eq!(f.offset, 1);
    assert_eq!(f.name, "other");
    assert!(!f.pending);
}

#[test]
fn apply_pending_list_marks_named_fields() {
    let mut routes = PacketRoutes::new(&names(&["name", "other", "name"]));
    routes.apply_pending_list(&["name", "missing"]);
    assert!(routes.route::<0>().pending);
    assert!(!routes.route::<1>().pending);
    assert!(routes.route::<2>().pending);
    routes.apply_pending_list(&[]);
    assert!(routes.route::<0>().pending);
}

#[test]
fn route_mut_edits_the_field() {
    let mut routes = PacketRoutes::new(&names(&["a", "b"]));
    routes.route_mut::<0>().pending = true;
    assert!(routes.route::<0>().pending);
    assert!(!routes.route::<1>().pending);
}

#[test]
fn field_key_converts_to_index() {
    let _index: FieldIndex<3, String> = FieldKey::<3>.into();
}
