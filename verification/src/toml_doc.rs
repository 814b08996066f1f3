use std::sync::Arc;
use vstd::prelude::*;

use crate::error::Error;
use crate::toml_value::{find_key, model_keys, set_entry};

verus! {

#[verifier::external_type_specification]
#[verifier::external_body]
pub struct ExTomlDocument(toml_edit::Document);

/// An item of a TOML document (`toml_edit::Item`), by its content.
pub enum TomlShape {
    /// No item.
    Nothing,
    /// A value, by its text (`toml_edit::Value`'s `Display`, its decor
    /// included).
    Value(Seq<char>),
    /// A table: whether it is implicit, and its items in order.
    Table { implicit: bool, items: Seq<(Seq<char>, TomlShape)> },
    /// An array of tables: the items of each table, in order.
    ArrayOfTables(Seq<Seq<(Seq<char>, TomlShape)>>),
}

/// True if the shape is a table.
pub open spec fn is_table_shape(s: TomlShape) -> bool {
    s is Table
}

/// An empty table, implicit where `implicit` holds.
pub open spec fn empty_table(implicit: bool) -> TomlShape {
    TomlShape::Table { implicit, items: Seq::empty() }
}

/// The items of a TOML document's root table, in order: each key, with
/// the content of its item.
pub uninterp spec fn toml_items(doc: toml_edit::Document) -> Seq<(Seq<char>, TomlShape)>;

/// The items of the root table of the TOML document that `text` parses to
/// (see `toml_items`), or `None` where it is no TOML document.
pub uninterp spec fn toml_parsed(text: Seq<char>) -> Option<Seq<(Seq<char>, TomlShape)>>;

/// Parses `text` as a TOML document (`toml_edit::Document`'s `FromStr`);
/// fails with the parser's description of the fault. The entries of the
/// document are named by `toml_parsed`; the text of the fault is not
/// stated.
#[verifier::external_body]
fn parse_document(text: &str) -> (r: Result<toml_edit::Document, String>)
    ensures
        match toml_parsed(text@) {
            Some(t) => r matches Ok(d) && toml_items(d) == t,
            None => r is Err,
        },
{
    text.parse::<toml_edit::Document>().map_err(|e| e.to_string())
}

/// True if the entry `key` of the document's root table holds a table
/// (`toml_edit::Table::contains_table`, through the document).
#[verifier::external_body]
fn contains_table(doc: &toml_edit::Document, key: &str) -> (r: bool)
    ensures
        r == (find_key(model_keys(toml_items(*doc)), key@) >= 0 && is_table_shape(
            toml_items(*doc)[find_key(model_keys(toml_items(*doc)), key@)].1,
        )),
{
    doc.contains_table(key)
}

/// Sets the entry `key` of the document's root table to a new empty table,
/// implicit where `implicit` holds (`IndexMut` of `toml_edit::Document`,
/// which keeps an existing entry in its place and appends a new one); no
/// other entry changes.
#[verifier::external_body]
fn set_table(doc: &mut toml_edit::Document, key: &str, implicit: bool)
    ensures
        toml_items(*final(doc)) == set_entry(toml_items(*old(doc)), key@, empty_table(implicit)),
{
    let mut table = toml_edit::Table::new();
    table.set_implicit(implicit);
    doc[key] = toml_edit::Item::Table(table);
}

/// The items after making sure that `key` holds a table: where it holds
/// one, nothing changes, its content included; otherwise an empty implicit
/// table takes the place of what it holds, or is appended where it is
/// missing. No other item changes.
pub open spec fn with_table(t: Seq<(Seq<char>, TomlShape)>, key: Seq<char>) -> Seq<(Seq<char>, TomlShape)> {
    let j = find_key(model_keys(t), key);
    if j >= 0 && is_table_shape(t[j].1) {
        t
    } else {
        set_entry(t, key, empty_table(true))
    }
}

/// The entries after making sure that `properties`, `block` and `root`
/// hold tables, in that order.
pub open spec fn with_default_tables(t: Seq<(Seq<char>, TomlShape)>) -> Seq<(Seq<char>, TomlShape)> {
    with_table(with_table(with_table(t, "properties"@), "block"@), "root"@)
}

/// Properties as a read-only TOML document.
pub struct TomlProperties {
    pub doc: Arc<toml_edit::Document>,
}

/// Makes sure that the entry `key` of the document holds a table: where it
/// does not, it becomes an empty implicit table.
fn ensure_table(doc: &mut toml_edit::Document, key: &str)
    ensures
        toml_items(*final(doc)) == with_table(toml_items(*old(doc)), key@),
{
    if !contains_table(doc, key) {
        set_table(doc, key, true);
    }
}

impl TomlProperties {
    /// Reads properties from the text of a TOML document, making sure that
    /// the document has `properties`, `block` and `root` tables: each that
    /// is missing, or holds something other than a table, becomes an empty
    /// implicit table. Fails where the text is no TOML document.
    pub fn try_load(text: &str) -> (r: Result<TomlProperties, Error>)
        ensures
            match toml_parsed(text@) {
                Some(t) => r matches Ok(p) && toml_items(*p.doc) == with_default_tables(t),
                None => r is Err,
            },
    {
        match parse_document(text) {
            Ok(parsed) => {
                let mut doc = parsed;
                proof {
                    reveal_strlit("properties");
                    reveal_strlit("block");
                    reveal_strlit("root");
                }
                ensure_table(&mut doc, "properties");
                ensure_table(&mut doc, "block");
                ensure_table(&mut doc, "root");
                Ok(TomlProperties { doc: Arc::new(doc) })
            },
            Err(message) => Err(Error { message }),
        }
    }
}

} // verus!
