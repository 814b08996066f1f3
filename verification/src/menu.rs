use std::collections::BTreeMap;
use vstd::prelude::*;

use crate::error::Error;

verus! {

/// Map of menus, by identifier.
pub struct MenuMap {
    map: BTreeMap<String, Menu>,
}

impl MenuMap {
    /// Number of menus in the map.
    pub closed spec fn spec_len(&self) -> nat {
        self.map@.len()
    }
}

/// A menu: a collection of commands, with an identifier used to refer to
/// it in configuration and a display name.
#[derive(Debug)]
pub struct Menu {
    ident: String,
    name: String,
    commands: BTreeMap<String, ()>,
}

/// The display name that a menu gets when it is parsed from its identifier.
pub open spec fn default_menu_name() -> Seq<char> {
    seq!['M', 'e', 'n', 'u']
}

impl Menu {
    /// The identifier of the menu.
    pub closed spec fn spec_ident(&self) -> Seq<char> {
        self.ident@
    }

    /// The display name of the menu.
    pub closed spec fn spec_name(&self) -> Seq<char> {
        self.name@
    }

    /// The identifiers of the menu's commands.
    pub closed spec fn spec_commands(&self) -> Set<String> {
        self.commands@.dom()
    }

    /// Returns the menu with identifier `s`, the display name `Menu` and no
    /// commands.
    pub fn from_ident(s: &str) -> (m: Menu)
        ensures
            m.spec_ident() == s@,
            m.spec_name() == default_menu_name(),
            m.spec_commands() == Set::<String>::empty(),
    {
        let mut name = String::new();
        name.append("Menu");
        proof {
            reveal_strlit("Menu");
        }
        Menu { ident: s.to_string(), name, commands: BTreeMap::new() }
    }

    /// Returns the identifier of the menu.
    pub fn ident(&self) -> (r: &str)
        ensures
            r@ == self.spec_ident(),
    {
        self.ident.as_str()
    }

    /// Returns the display name of the menu.
    pub fn name(&self) -> (r: &str)
        ensures
            r@ == self.spec_name(),
    {
        self.name.as_str()
    }
}

impl std::str::FromStr for Menu {
    type Err = Error;

    /// Returns the menu with identifier `s`, the display name `Menu` and no
    /// commands; it never fails.
    fn from_str(s: &str) -> (r: Result<Menu, Error>)
        ensures
            r matches Ok(m) && m.spec_ident() == s@ && m.spec_name() == default_menu_name()
                && m.spec_commands() == Set::<String>::empty(),
    {
        Ok(Menu::from_ident(s))
    }
}

/// A command: maps the parser of a field at `FIELD_OFFSET` of its owner to
/// an identifier.
pub struct Command<const FIELD_OFFSET: usize> {
    ident: String,
    field_name: String,
}

impl<const FIELD_OFFSET: usize> Command<FIELD_OFFSET> {
    /// The identifier of the command.
    pub closed spec fn spec_ident(&self) -> Seq<char> {
        self.ident@
    }

    /// The name of the field the command handles.
    pub closed spec fn spec_field_name(&self) -> Seq<char> {
        self.field_name@
    }

    /// Creates a command with identifier `ident` for the field named
    /// `field_name`, the name that the owner gives its field at
    /// `FIELD_OFFSET`.
    pub fn new(ident: &str, field_name: &str) -> (c: Command<FIELD_OFFSET>)
        ensures
            c.spec_ident() == ident@,
            c.spec_field_name() == field_name@,
    {
        Command { ident: ident.to_string(), field_name: field_name.to_string() }
    }

    /// Returns the identifier of the command.
    pub fn ident(&self) -> (r: &str)
        ensures
            r@ == self.spec_ident(),
    {
        self.ident.as_str()
    }

    /// Returns the name of the field the command handles.
    pub fn field_name(&self) -> (r: &str)
        ensures
            r@ == self.spec_field_name(),
    {
        self.field_name.as_str()
    }
}

} // verus!
