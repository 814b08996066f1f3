//! Values, property maps and interning for compiled runmd data, with the
//! visitors, actions, blocks, attribute containers, TOML import and export,
//! menus, packet routes and blob digests built on them.

pub mod action;
mod block;
mod codec;
mod container;
mod digest;
mod display;
mod document;
mod error;
mod hashing;
mod interner;
pub mod laws;
mod links;
mod menu;
mod order;
mod properties;
mod routes;
mod symbol_set;
mod text;
mod thunk;
mod toml_doc;
mod toml_value;
mod value;
mod visitor;

pub use action::{config, doc, extend, with, Action, ActionBuffer, Documentation, Root};
pub use block::{Block, BlockList, Keywords, MergeRejectedReason, Packet, PacketHandler};
pub use container::{from_comma_sep, Attribute, ValueContainer};
pub use digest::{digest_address, Sha256Digester};
pub use display::display_value;
pub use document::DocumentBuilder;
pub use error::Error;
pub use hashing::symbol_key;
pub use interner::Interner;
pub use links::{Entity, Link, Links};
pub use menu::{Command, Menu, MenuMap};
pub use properties::{property_list, property_value, Identifier, Properties, Property};
pub use routes::{FieldIndex, FieldKey, FieldRef, PacketRoutes};
pub use symbol_set::SymbolSet;
pub use thunk::{
    Auto, AutoWithExistingUpdateImpl, MapTo, MapWith, Schedule, Select, Thunk, ThunkTable, BUILD,
    UPDATE,
};
pub use toml_value::{
    properties_from_toml, property_from_toml, value_from_blob, value_from_toml, BlobInfo,
    LocalBlobs, TomlItem, TomlValue,
};
pub use toml_doc::TomlProperties;
pub use value::Value;
pub use visitor::{NameIndex, Visit, Visitor};
