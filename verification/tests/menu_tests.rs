use reality::{Command, Menu};

#[test]
fn menu_from_str_uses_the_identifier() {
    let menu: Menu = "main".parse().expect("always parses");
    assert_eq!(menu.ident(), "main");
    assert_eq!(menu.name(), "Menu");
    let other = Menu::from_ident("");
    assert_eq!(other.ident(), "");
    assert_eq!(other.name(), "Menu");
}

#[test]
fn command_new_keeps_ident_and_field() {
    let c = Command::<2>::new("cmd", "field");
    assert_eq!(c.ident(), "cmd");
    assert_eq!(c.field_name(), "field");
}
