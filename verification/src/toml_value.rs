use vstd::prelude::*;

use crate::codec::{
    base64_decoded, base64_encoded, decode_base64, decode_error_text, encode_base64,
};
use crate::error::Error;
use crate::order::same_str;
use crate::properties::{
    add_result, property_list, property_value, Identifier, Properties, Property, PropertyModel,
};
use crate::symbol_set::{in_set_order, SymbolSet};
use crate::text::{spec_trim, spec_trim_matches, trim, trim_matches};
use crate::value::{Value, ValueModel};

verus! {

/// A TOML value as the library writes it into a document.
pub enum TomlItem {
    /// A string, by its content.
    String(String),
    Integer(i64),
    /// A float, as the bits of an `f32`; the document holds that `f32`
    /// widened to an `f64`.
    Float(u32),
    Boolean(bool),
    Array(Vec<TomlItem>),
    /// An inline table, its entries in order.
    InlineTable(Vec<(String, TomlItem)>),
}

/// True if `item` is the string `s`.
pub open spec fn is_string_item(item: TomlItem, s: Seq<char>) -> bool {
    item matches TomlItem::String(t) && t@ == s
}

/// The keys of the entries of a table, in order.
pub open spec fn keys_of<V>(entries: Seq<(String, V)>) -> Seq<Seq<char>> {
    entries.map_values(|e: (String, V)| e.0@)
}

/// The keys of the entries of a table model, in order.
pub open spec fn model_keys<V>(entries: Seq<(Seq<char>, V)>) -> Seq<Seq<char>> {
    entries.map_values(|e: (Seq<char>, V)| e.0)
}

/// The position of the first occurrence of `key` in `keys`, or -1.
pub open spec fn find_key(keys: Seq<Seq<char>>, key: Seq<char>) -> int
    decreases keys.len(),
{
    if keys.len() == 0 {
        -1
    } else {
        let j = find_key(keys.drop_last(), key);
        if j >= 0 {
            j
        } else if keys.last() == key {
            keys.len() - 1
        } else {
            -1
        }
    }
}

pub proof fn lemma_find_key(keys: Seq<Seq<char>>, key: Seq<char>)
    ensures
        -1 <= find_key(keys, key) < keys.len(),
        find_key(keys, key) >= 0 ==> keys[find_key(keys, key)] == key,
        forall|i: int| 0 <= i < keys.len() && (find_key(keys, key) < 0 || i < find_key(keys, key)) ==> keys[i] != key,
    decreases keys.len(),
{
    if keys.len() > 0 {
        let rest = keys.drop_last();
        lemma_find_key(rest, key);
        assert forall|i: int| 0 <= i < keys.len() && (find_key(keys, key) < 0 || i < find_key(keys, key)) implies keys[i] != key by {
            if i < keys.len() - 1 {
                assert(keys[i] == rest[i]);
            }
        }
    }
}

/// The entries of a table model after setting `key` to `val`: the first
/// entry with that key takes the value, in place; where there is none, the
/// entry is appended.
pub open spec fn set_entry<V>(entries: Seq<(Seq<char>, V)>, key: Seq<char>, val: V) -> Seq<(Seq<char>, V)> {
    let j = find_key(model_keys(entries), key);
    if j >= 0 {
        entries.update(j, (key, val))
    } else {
        entries.push((key, val))
    }
}

/// The entries of the table that stands for a complex, before the first
/// `n` members are set: `_type` is set to the string `complex`, then each
/// member to its position (`None` stands for the string, `Some(i)` for the
/// integer `i`).
pub open spec fn complex_table_upto(c: Seq<Seq<char>>, n: int) -> Seq<(Seq<char>, Option<int>)>
    decreases n,
{
    if n <= 0 {
        seq![(type_key(), None)]
    } else {
        set_entry(complex_table_upto(c, n - 1), c[n - 1], Some(n - 1))
    }
}

/// The entries of the table that stands for the complex `c`.
pub open spec fn complex_table(c: Seq<Seq<char>>) -> Seq<(Seq<char>, Option<int>)> {
    complex_table_upto(c, c.len() as int)
}

/// The key that marks a table as a complex.
pub open spec fn type_key() -> Seq<char> {
    seq!['_', 't', 'y', 'p', 'e']
}

/// The string that marks a table as a complex.
pub open spec fn complex_marker() -> Seq<char> {
    seq!['c', 'o', 'm', 'p', 'l', 'e', 'x']
}

/// The key of a blob's source kind.
pub open spec fn src_key() -> Seq<char> {
    seq!['s', 'r', 'c']
}

/// The key of a blob's data.
pub open spec fn data_key() -> Seq<char> {
    seq!['d', 'a', 't', 'a']
}

/// The source kind of a blob held in base64.
pub open spec fn base64_src() -> Seq<char> {
    seq!['b', 'a', 's', 'e', '6', '4']
}

/// The source kind of a blob held in a local file.
pub open spec fn local_src() -> Seq<char> {
    seq!['l', 'o', 'c', 'a', 'l']
}

/// True if the table `t` has the entries of the model `m`.
pub open spec fn is_complex_entries(t: Seq<(String, TomlItem)>, m: Seq<(Seq<char>, Option<int>)>) -> bool {
    &&& t.len() == m.len()
    &&& forall|k: int|
        0 <= k < t.len() ==> {
            &&& (#[trigger] t[k]).0@ == m[k].0
            &&& match m[k].1 {
                None => is_string_item(t[k].1, complex_marker()),
                Some(i) => t[k].1 == TomlItem::Integer(i as i64),
            }
        }
}

/// True if `item` is an array of the integers `xs`, each widened to `i64`.
pub open spec fn is_int_array(item: TomlItem, xs: Seq<i32>) -> bool {
    item matches TomlItem::Array(a) && a@.len() == xs.len() && forall|k: int|
        0 <= k < xs.len() ==> a@[k] == TomlItem::Integer(#[trigger] xs[k] as i64)
}

/// True if `item` is an array of the floats (by their bits) `xs`.
pub open spec fn is_float_array(item: TomlItem, xs: Seq<u32>) -> bool {
    item matches TomlItem::Array(a) && a@.len() == xs.len() && forall|k: int|
        0 <= k < xs.len() ==> a@[k] == TomlItem::Float(#[trigger] xs[k])
}

/// True if `item` is the table that stands for the blob `bytes`: the source
/// kind `base64`, then the data, the base64 encoding of the bytes (which
/// decodes to them).
pub open spec fn is_blob_table(item: TomlItem, bytes: Seq<u8>) -> bool {
    item matches TomlItem::InlineTable(t) && {
        &&& t@.len() == 2
        &&& t@[0].0@ == src_key()
        &&& is_string_item(t@[0].1, base64_src())
        &&& t@[1].0@ == data_key()
        &&& is_string_item(t@[1].1, base64_encoded(bytes))
        &&& t@[1].1 matches TomlItem::String(d) && base64_decoded(d@) == Some(bytes)
    }
}

/// True if `item` is what a value with the data `v` is written as.
pub open spec fn is_item_for(item: TomlItem, v: ValueModel) -> bool {
    match v {
        ValueModel::Empty => is_string_item(item, Seq::empty()),
        ValueModel::Bool(b) => item == TomlItem::Boolean(b),
        ValueModel::TextBuffer(t) => is_string_item(item, t),
        ValueModel::Int(i) => item == TomlItem::Integer(i as i64),
        ValueModel::IntPair(a, b) => is_int_array(item, seq![a, b]),
        ValueModel::IntRange(a, b, c) => is_int_array(item, seq![a, b, c]),
        ValueModel::Float(f) => item == TomlItem::Float(f),
        ValueModel::FloatPair(a, b) => is_float_array(item, seq![a, b]),
        ValueModel::FloatRange(a, b, c) => is_float_array(item, seq![a, b, c]),
        ValueModel::BinaryVector(bytes) => is_blob_table(item, bytes),
        ValueModel::Reference(r) => item == TomlItem::Integer(r as i64),
        ValueModel::Symbol(s) => is_string_item(item, s),
        ValueModel::Complex(c) => item matches TomlItem::InlineTable(t) && is_complex_entries(
            t@,
            complex_table(c),
        ),
    }
}

fn string_of(s: &str) -> (r: String)
    ensures
        r@ == s@,
{
    s.to_string()
}

fn int_item(i: i32) -> (item: TomlItem)
    ensures
        item == TomlItem::Integer(i as i64),
{
    TomlItem::Integer(i as i64)
}

/// Sets `key` in the keyed list `t`: the first entry with that key takes
/// `item` in place; where there is none, the entry is appended.
pub(crate) fn set_keyed<X>(t: &mut Vec<(String, X)>, key: String, item: X)
    ensures
        ({
            let j = find_key(keys_of(old(t)@), key@);
            if j >= 0 {
                &&& final(t)@.len() == old(t)@.len()
                &&& final(t)@[j].0@ == key@
                &&& final(t)@[j].1 == item
                &&& forall|k: int| 0 <= k < old(t)@.len() && k != j ==> #[trigger] final(t)@[k] == old(t)@[k]
            } else {
                &&& final(t)@.len() == old(t)@.len() + 1
                &&& final(t)@[old(t)@.len() as int].0@ == key@
                &&& final(t)@[old(t)@.len() as int].1 == item
                &&& forall|k: int| 0 <= k < old(t)@.len() ==> #[trigger] final(t)@[k] == old(t)@[k]
            }
        }),
{
    let ghost keys = keys_of(t@);
    proof {
        lemma_find_key(keys, key@);
    }
    let mut i: usize = 0;
    while i < t.len()
        invariant
            i <= t@.len(),
            t@ == old(t)@,
            keys == keys_of(t@),
            forall|k: int| 0 <= k < i ==> keys[k] != key@,
        decreases t@.len() - i,
    {
        proof {
            assert(keys[i as int] == t@[i as int].0@);
        }
        if same_str(t[i].0.as_str(), key.as_str()) {
            proof {
                lemma_find_key(keys, key@);
                assert(keys[i as int] == key@);
                if find_key(keys, key@) < 0 || i < find_key(keys, key@) {
                    assert(keys[i as int] != key@);
                }
                assert(find_key(keys, key@) == i);
            }
            t.set(i, (key, item));
            return;
        }
        i = i + 1;
    }
    proof {
        lemma_find_key(keys, key@);
        if find_key(keys, key@) >= 0 {
            assert(keys[find_key(keys, key@)] == key@);
        }
    }
    t.push((key, item));
}

impl Value {
    /// Returns the TOML value that this value is written as: a string for
    /// an empty value, a text or a symbol; an integer for an int or a
    /// reference (the reference taken as a signed integer); a boolean; a
    /// float; an array of integers or floats for pairs and ranges; for a
    /// binary vector, the table `{ src = "base64", data = <base64> }`; for a
    /// complex, the table with `_type` set to `"complex"` and then each
    /// member set to its position.
    pub fn to_toml(&self) -> (item: TomlItem)
        ensures
            is_item_for(item, self@),
    {
        match self {
            Value::Empty => {
                let empty = String::new();
                let item = TomlItem::String(empty);
                assert(is_string_item(item, Seq::empty()));
                assert(self@ == ValueModel::Empty);
                assert(is_item_for(item, self@));
                item
            },
            Value::Bool(b) => TomlItem::Boolean(*b),
            Value::TextBuffer(t) => {
                let item = TomlItem::String(t.clone());
                assert(is_item_for(item, self@));
                item
            },
            Value::Int(i) => int_item(*i),
            Value::IntPair(a, b) => {
                let arr = vec![int_item(*a), int_item(*b)];
                proof {
                    assert(is_int_array(TomlItem::Array(arr), seq![*a, *b]));
                }
                TomlItem::Array(arr)
            },
            Value::IntRange(a, b, c) => {
                let arr = vec![int_item(*a), int_item(*b), int_item(*c)];
                proof {
                    assert(is_int_array(TomlItem::Array(arr), seq![*a, *b, *c]));
                }
                TomlItem::Array(arr)
            },
            Value::Float(f) => TomlItem::Float(*f),
            Value::FloatPair(a, b) => {
                let arr = vec![TomlItem::Float(*a), TomlItem::Float(*b)];
                proof {
                    assert(is_float_array(TomlItem::Array(arr), seq![*a, *b]));
                }
                TomlItem::Array(arr)
            },
            Value::FloatRange(a, b, c) => {
                let arr = vec![TomlItem::Float(*a), TomlItem::Float(*b), TomlItem::Float(*c)];
                proof {
                    assert(is_float_array(TomlItem::Array(arr), seq![*a, *b, *c]));
                }
                TomlItem::Array(arr)
            },
            Value::BinaryVector(bytes) => {
                let data = encode_base64(bytes.as_slice());
                proof {
                    reveal_strlit("src");
                    reveal_strlit("base64");
                    reveal_strlit("data");
                    assert("src"@ =~= src_key());
                    assert("base64"@ =~= base64_src());
                    assert("data"@ =~= data_key());
                }
                let table = vec![
                    (string_of("src"), TomlItem::String(string_of("base64"))),
                    (string_of("data"), TomlItem::String(data)),
                ];
                let item = TomlItem::InlineTable(table);
                assert(is_item_for(item, self@));
                item
            },
            Value::Reference(r) => {
                let signed: i64 = {
                    #[verifier::truncate]
                    (*r as i64)
                };
                TomlItem::Integer(signed)
            },
            Value::Symbol(s) => {
                let item = TomlItem::String(s.clone());
                assert(is_item_for(item, self@));
                item
            },
            Value::Complex(c) => {
                let item = TomlItem::InlineTable(complex_entries(c));
                assert(is_item_for(item, self@));
                item
            },
        }
    }
}

/// The table entries that stand for the complex `c`.
fn complex_entries(c: &SymbolSet) -> (t: Vec<(String, TomlItem)>)
    ensures
        is_complex_entries(t@, complex_table(c@)),
{
    proof {
        reveal_strlit("_type");
        reveal_strlit("complex");
    }
    let mut t: Vec<(String, TomlItem)> = Vec::new();
    t.push((string_of("_type"), TomlItem::String(string_of("complex"))));
    proof {
        assert("_type"@ =~= type_key());
        assert("complex"@ =~= complex_marker());
        assert(is_complex_entries(t@, complex_table_upto(c@, 0)));
    }
    let n = c.len();
    let mut i: usize = 0;
    while i < n
        invariant
            i <= n,
            n == c@.len(),
            is_complex_entries(t@, complex_table_upto(c@, i as int)),
        decreases n - i,
    {
        let member = c.get(i).clone();
        let ghost before = t@;
        let ghost m = complex_table_upto(c@, i as int);
        proof {
            assert(keys_of(before) =~= model_keys(m));
        }
        let index: i64 = {
            #[verifier::truncate]
            (i as i64)
        };
        set_keyed(&mut t, member, TomlItem::Integer(index));
        proof {
            let m2 = complex_table_upto(c@, i + 1);
            let j = find_key(keys_of(before), c@[i as int]);
            lemma_find_key(keys_of(before), c@[i as int]);
            assert(member@ == c@[i as int]);
            assert(m2 == set_entry(m, c@[i as int], Some(i as int)));
            assert(m.len() == before.len());
            if j >= 0 {
                assert(m2 == m.update(j, (c@[i as int], Some(i as int))));
            } else {
                assert(m2 == m.push((c@[i as int], Some(i as int))));
            }
            assert(m2.len() == t@.len());
            assert forall|k: int| 0 <= k < t@.len() implies {
                &&& (#[trigger] t@[k]).0@ == m2[k].0
                &&& match m2[k].1 {
                    None => is_string_item(t@[k].1, complex_marker()),
                    Some(x) => t@[k].1 == TomlItem::Integer(x as i64),
                }
            } by {
                if k < before.len() && k != j {
                    assert(t@[k] == before[k]);
                    assert(m2[k] == m[k]);
                }
            }
            assert(is_complex_entries(t@, m2));
        }
        i = i + 1;
    }
    t
}

/// A TOML value as the library reads it from a document.
pub enum TomlValue {
    /// A string: its content, and its text in the document (its rendering,
    /// quotes and surrounding decor included).
    String { content: String, rendered: String },
    Integer(i64),
    /// A float, narrowed to an `f32` and held as its bits.
    Float(u32),
    Boolean(bool),
    /// A date or time, by its rendering.
    Datetime(String),
    Array(Vec<TomlValue>),
    /// An inline table, its entries in order (a document holds each key
    /// once).
    InlineTable(Vec<(String, TomlValue)>),
}

/// The content of the string entry `key` of a table: the value of the
/// first entry with that key, where it is a string.
pub open spec fn str_entry(t: Seq<(String, TomlValue)>, key: Seq<char>) -> Option<Seq<char>> {
    let j = find_key(keys_of(t), key);
    if j >= 0 {
        match t[j].1 {
            TomlValue::String { content, rendered } => Some(content@),
            _ => None,
        }
    } else {
        None
    }
}

/// True if the table `t` stands for a complex: its `_type` is the string
/// `complex`.
pub open spec fn is_complex_table(t: Seq<(String, TomlValue)>) -> bool {
    str_entry(t, type_key()) == Some(complex_marker())
}

/// The members of a set of strings, in set order.
pub open spec fn set_members(s: Set<Seq<char>>) -> Seq<Seq<char>> {
    choose|m: Seq<Seq<char>>| in_set_order(m) && m.to_set() == s
}

/// The value of an array: two integers are an int pair, three or more
/// whose first three are integers an int range (of the first three); the
/// same with floats; anything else is empty. Integers are narrowed to
/// `i32`.
pub open spec fn array_value(a: Seq<TomlValue>) -> ValueModel {
    if a.len() == 2 && a[0] is Integer && a[1] is Integer {
        ValueModel::IntPair(a[0]->Integer_0 as i32, a[1]->Integer_0 as i32)
    } else if a.len() >= 3 && a[0] is Integer && a[1] is Integer && a[2] is Integer {
        ValueModel::IntRange(a[0]->Integer_0 as i32, a[1]->Integer_0 as i32, a[2]->Integer_0 as i32)
    } else if a.len() == 2 && a[0] is Float && a[1] is Float {
        ValueModel::FloatPair(a[0]->Float_0, a[1]->Float_0)
    } else if a.len() >= 3 && a[0] is Float && a[1] is Float && a[2] is Float {
        ValueModel::FloatRange(a[0]->Float_0, a[1]->Float_0, a[2]->Float_0)
    } else {
        ValueModel::Empty
    }
}

/// The value of a blob table that is not a complex: a `base64` blob is the
/// bytes its data decodes to (empty where it does not decode); a `local`
/// blob is read from a file, which `None` stands for; any other table is
/// empty.
pub open spec fn blob_table_value(t: Seq<(String, TomlValue)>) -> Option<ValueModel> {
    match (str_entry(t, src_key()), str_entry(t, data_key())) {
        (Some(src), Some(data)) => if src == base64_src() {
            Some(
                match base64_decoded(data) {
                    Some(bytes) => ValueModel::BinaryVector(bytes),
                    None => ValueModel::Empty,
                },
            )
        } else if src == local_src() {
            None
        } else {
            Some(ValueModel::Empty)
        },
        _ => Some(ValueModel::Empty),
    }
}

/// The value that a TOML value is read as; `None` stands for a blob read
/// from a local file. A string is a symbol: its rendering without
/// surrounding white space and double quotes; a date is the symbol of its
/// rendering; an integer is narrowed to `i32`; a complex table is the
/// complex of its keys (`_type` among them).
pub open spec fn spec_value_from_toml(v: TomlValue) -> Option<ValueModel> {
    match v {
        TomlValue::String { content, rendered } => Some(
            ValueModel::Symbol(spec_trim_matches(spec_trim(rendered@), '"')),
        ),
        TomlValue::Integer(i) => Some(ValueModel::Int(i as i32)),
        TomlValue::Float(f) => Some(ValueModel::Float(f)),
        TomlValue::Boolean(b) => Some(ValueModel::Bool(b)),
        TomlValue::Datetime(d) => Some(ValueModel::Symbol(d@)),
        TomlValue::Array(a) => Some(array_value(a@)),
        TomlValue::InlineTable(t) => if is_complex_table(t@) {
            Some(ValueModel::Complex(set_members(keys_of(t@).to_set())))
        } else {
            blob_table_value(t@)
        },
    }
}

/// The path that a local blob names: the `data` string of its table.
pub open spec fn local_blob_path(v: TomlValue) -> Seq<char> {
    match v {
        TomlValue::InlineTable(t) => match str_entry(t@, data_key()) {
            Some(d) => d,
            None => Seq::empty(),
        },
        _ => Seq::empty(),
    }
}

/// The value of a local blob after a read of its file: the bytes read, or
/// empty where the read failed.
pub open spec fn read_value(read: Result<Vec<u8>, Error>) -> Value {
    match read {
        Ok(bytes) => Value::BinaryVector(bytes),
        Err(_) => Value::Empty,
    }
}

/// Reads the content of blobs stored in local files.
pub trait LocalBlobs {
    /// Returns the bytes of the local file at `path`.
    fn read_local(&self, path: &str) -> Result<Vec<u8>, Error>;
}

/// Where a blob's data comes from and how it is encoded.
pub struct BlobInfo {
    src: String,
    data: String,
    has_fetcher: bool,
    ident: Option<Identifier>,
}

/// The message of a blob that cannot be read here and has no fetcher.
pub open spec fn convert_error_message() -> Seq<char> {
    "Could not convert blob info into value"@
}

/// The start of the message of base64 data that does not decode; the
/// decoder's description of the fault follows it.
pub open spec fn base64_error_prefix() -> Seq<char> {
    "Could not convert decode base64, "@
}

/// The message of a blob that cannot be read here but can be fetched.
pub open spec fn use_remote_message() -> Seq<char> {
    "Could not convert blob info, use fetcher impl w/ call fn instead"@
}

impl BlobInfo {
    /// The source kind.
    pub closed spec fn spec_src(&self) -> Seq<char> {
        self.src@
    }

    /// The data, whose meaning depends on the source kind.
    pub closed spec fn spec_data(&self) -> Seq<char> {
        self.data@
    }

    /// True if a fetcher is attached.
    pub closed spec fn spec_has_fetcher(&self) -> bool {
        self.has_fetcher
    }

    /// True if an identifier is attached.
    pub closed spec fn spec_has_ident(&self) -> bool {
        self.ident is Some
    }

    /// Returns the blob with source kind `src` and data `data`, with no
    /// fetcher and no identifier.
    pub fn new(src: &str, data: &str) -> (b: BlobInfo)
        ensures
            b.spec_src() == src@,
            b.spec_data() == data@,
            !b.spec_has_fetcher(),
            !b.spec_has_ident(),
    {
        BlobInfo { src: src.to_string(), data: data.to_string(), has_fetcher: false, ident: None }
    }

    /// Returns the source kind.
    pub fn src(&self) -> (s: &str)
        ensures
            s@ == self.spec_src(),
    {
        self.src.as_str()
    }

    /// Returns the data.
    pub fn data(&self) -> (d: &str)
        ensures
            d@ == self.spec_data(),
    {
        self.data.as_str()
    }

    /// Returns the blob with a fetcher attached.
    pub fn with_fetcher(self) -> (b: BlobInfo)
        ensures
            b.spec_src() == self.spec_src(),
            b.spec_data() == self.spec_data(),
            b.spec_has_fetcher(),
            b.spec_has_ident() == self.spec_has_ident(),
    {
        BlobInfo { has_fetcher: true, ..self }
    }

    /// Returns the blob with the identifier `identifier`.
    pub fn with_ident(self, identifier: Identifier) -> (b: BlobInfo)
        ensures
            b.spec_src() == self.spec_src(),
            b.spec_data() == self.spec_data(),
            b.spec_has_fetcher() == self.spec_has_fetcher(),
            b.spec_has_ident(),
    {
        BlobInfo { ident: Some(identifier), ..self }
    }

    /// True if the blob can be fetched: a fetcher and an identifier are
    /// present.
    pub fn is_valid_remote(&self) -> (r: bool)
        ensures
            r == (self.spec_has_ident() && self.spec_has_fetcher()),
    {
        self.ident.is_some() && self.has_fetcher
    }

    /// True if the blob can be read here: an identifier is present and the
    /// source is local.
    pub fn is_valid_local(&self) -> (r: bool)
        ensures
            r == (self.spec_has_ident() && (self.spec_src() == base64_src() || self.spec_src() == local_src())),
    {
        self.ident.is_some() && self.is_local()
    }

    /// True if the source kind is `base64` or `local`.
    fn is_local(&self) -> (r: bool)
        ensures
            r == (self.spec_src() == base64_src() || self.spec_src() == local_src()),
    {
        proof {
            reveal_strlit("base64");
            reveal_strlit("local");
            assert("base64"@ =~= base64_src());
            assert("local"@ =~= local_src());
        }
        same_str(self.src.as_str(), "base64") || same_str(self.src.as_str(), "local")
    }

    /// Returns the blob that an inline table describes: its `src` and `data`
    /// strings. Fails where either is missing or not a string.
    pub fn from_table(t: &Vec<(String, TomlValue)>) -> (r: Result<BlobInfo, Error>)
        ensures
            match (str_entry(t@, src_key()), str_entry(t@, data_key())) {
                (Some(src), Some(data)) => (r matches Ok(b) && b.spec_src() == src && b.spec_data() == data
                    && !b.spec_has_fetcher() && !b.spec_has_ident()),
                _ => r is Err,
            },
    {
        proof {
            reveal_strlit("src");
            reveal_strlit("data");
            assert("src"@ =~= src_key());
            assert("data"@ =~= data_key());
        }
        let src = string_entry(t, "src");
        let data = string_entry(t, "data");
        match (src, data) {
            (Some(src), Some(data)) => Ok(BlobInfo::new(src, data)),
            _ => Err(Error::new("Could not create blob info from table")),
        }
    }
}

/// Returns the content of the string entry `key` of the table `t`.
fn string_entry<'a>(t: &'a Vec<(String, TomlValue)>, key: &str) -> (r: Option<&'a str>)
    ensures
        match str_entry(t@, key@) {
            Some(s) => r is Some && r->Some_0@ == s,
            None => r is None,
        },
{
    let ghost keys = keys_of(t@);
    let mut i: usize = 0;
    while i < t.len()
        invariant
            i <= t@.len(),
            keys == keys_of(t@),
            forall|k: int| 0 <= k < i ==> keys[k] != key@,
        decreases t@.len() - i,
    {
        proof {
            assert(keys[i as int] == t@[i as int].0@);
        }
        if same_str(t[i].0.as_str(), key) {
            proof {
                lemma_find_key(keys, key@);
                if find_key(keys, key@) < 0 || i < find_key(keys, key@) {
                    assert(keys[i as int] != key@);
                }
                assert(find_key(keys, key@) == i);
            }
            return match &t[i].1 {
                TomlValue::String { content, rendered } => Some(content.as_str()),
                _ => None,
            };
        }
        i = i + 1;
    }
    proof {
        lemma_find_key(keys, key@);
        if find_key(keys, key@) >= 0 {
            assert(keys[find_key(keys, key@)] == key@);
        }
    }
    None
}

/// Returns the value of a blob: the bytes its base64 data decodes to, or
/// those that `local` reads from the path its data names. Fails where the
/// base64 does not decode, with the decoder's description of the fault, or
/// with the error of the read; a blob of another source fails with the
/// advice to fetch it where it can be fetched.
pub fn value_from_blob<L: LocalBlobs>(info: &BlobInfo, local: &L) -> (r: Result<Value, Error>)
    ensures
        info.spec_src() == base64_src() ==> match base64_decoded(info.spec_data()) {
            Some(bytes) => r matches Ok(v) && v@ == ValueModel::BinaryVector(bytes),
            None => r matches Err(e) && exists|fault: Seq<char>| e.message@ == base64_error_prefix() + fault,
        },
        info.spec_src() == local_src() ==> exists|path: &str, read: Result<Vec<u8>, Error>|
            {
                &&& path@ == info.spec_data()
                &&& call_ensures(L::read_local, (local, path), read)
                &&& match read {
                    Ok(bytes) => r == Ok::<Value, Error>(Value::BinaryVector(bytes)),
                    Err(e) => r == Err::<Value, Error>(e),
                }
            },
        info.spec_src() != base64_src() && info.spec_src() != local_src() ==> (r matches Err(e)
            && e.message@ == if info.spec_has_ident() && info.spec_has_fetcher() {
            use_remote_message()
        } else {
            convert_error_message()
        }),
{
    proof {
        reveal_strlit("base64");
        reveal_strlit("local");
        assert("base64"@ =~= base64_src());
        assert("local"@ =~= local_src());
    }
    if same_str(info.src.as_str(), "base64") {
        match decode_base64(info.data.as_str()) {
            Ok(bytes) => Ok(Value::BinaryVector(bytes)),
            Err(e) => {
                let mut message = String::new();
                message.append("Could not convert decode base64, ");
                let text = decode_error_text(&e);
                message.append(text.as_str());
                proof {
                    reveal_strlit("Could not convert decode base64, ");
                    assert(message@ == base64_error_prefix() + text@);
                }
                Err(Error { message })
            },
        }
    } else if same_str(info.src.as_str(), "local") {
        let path = info.data.as_str();
        let read = local.read_local(path);
        proof {
            assert(call_ensures(L::read_local, (local, path), read));
        }
        match read {
            Ok(bytes) => Ok(Value::BinaryVector(bytes)),
            Err(e) => Err(e),
        }
    } else if info.is_valid_remote() {
        Err(Error::new("Could not convert blob info, use fetcher impl w/ call fn instead"))
    } else {
        Err(Error::new("Could not convert blob info into value"))
    }
}

/// The value that a TOML value is read as. A string is the symbol of its
/// rendering, without surrounding white space and double quotes; a date is
/// the symbol of its rendering; an integer is narrowed to `i32`; an array of
/// two integers (floats) is a pair, of three or more a range of the first
/// three, any other array empty; a table whose `_type` is `complex` is the
/// complex of its keys; another table is a blob, whose value is the bytes it
/// holds, empty where it cannot be read.
pub fn value_from_toml<L: LocalBlobs>(v: &TomlValue, local: &L) -> (r: Value)
    ensures
        match spec_value_from_toml(*v) {
            Some(m) => r@ == m,
            None => exists|path: &str, read: Result<Vec<u8>, Error>|
                path@ == local_blob_path(*v) && call_ensures(L::read_local, (local, path), read)
                    && r == read_value(read),
        },
{
    match v {
        TomlValue::String { content, rendered } => {
            let trimmed = trim(rendered.as_str());
            let unquoted = trim_matches(trimmed, '"');
            Value::Symbol(unquoted.to_string())
        },
        TomlValue::Integer(i) => {
            let narrowed: i32 = {
                #[verifier::truncate]
                (*i as i32)
            };
            Value::Int(narrowed)
        },
        TomlValue::Float(f) => Value::Float(*f),
        TomlValue::Boolean(b) => Value::Bool(*b),
        TomlValue::Datetime(d) => Value::Symbol(d.clone()),
        TomlValue::Array(a) => array_to_value(a),
        TomlValue::InlineTable(t) => {
            proof {
                reveal_strlit("_type");
                reveal_strlit("complex");
                assert("_type"@ =~= type_key());
                assert("complex"@ =~= complex_marker());
            }
            let is_complex = match string_entry(t, "_type") {
                Some(kind) => same_str(kind, "complex"),
                None => false,
            };
            if is_complex {
                let mut c = SymbolSet::new();
                let ghost keys = keys_of(t@);
                let mut i: usize = 0;
                while i < t.len()
                    invariant
                        i <= t@.len(),
                        keys == keys_of(t@),
                        c@.to_set() == keys.take(i as int).to_set(),
                        in_set_order(c@),
                    decreases t@.len() - i,
                {
                    let key = t[i].0.clone();
                    proof {
                        assert(keys[i as int] == key@);
                        assert(keys.take(i + 1) =~= keys.take(i as int).push(key@));
                    }
                    c.insert(key);
                    proof {
                        assert(keys.take(i + 1).to_set() =~= keys.take(i as int).to_set().insert(key@)) by {
                            assert forall|y: Seq<char>| keys.take(i + 1).to_set().contains(y)
                                <==> keys.take(i as int).to_set().insert(key@).contains(y) by {
                                vstd::seq_lib::lemma_seq_contains_after_push(keys.take(i as int), key@, y);
                            }
                        }
                    }
                    i = i + 1;
                }
                proof {
                    assert(keys.take(t@.len() as int) =~= keys);
                    lemma_set_members(c@, keys.to_set());
                }
                Value::Complex(c)
            } else {
                match BlobInfo::from_table(t) {
                    Ok(info) => match value_from_blob(&info, local) {
                        Ok(value) => value,
                        Err(_) => Value::Empty,
                    },
                    Err(_) => Value::Empty,
                }
            }
        },
    }
}

/// The members of a set, in set order, are the only sequence in set order
/// that holds exactly the set.
proof fn lemma_set_members(m: Seq<Seq<char>>, s: Set<Seq<char>>)
    requires
        in_set_order(m),
        m.to_set() == s,
    ensures
        set_members(s) == m,
{
    let chosen = set_members(s);
    assert(in_set_order(chosen) && chosen.to_set() == s);
    crate::laws::law_set_order_unique(chosen, m);
}

/// Returns the value of an array (see `array_value`).
fn array_to_value(a: &Vec<TomlValue>) -> (r: Value)
    ensures
        r@ == array_value(a@),
{
    let n = a.len();
    if n >= 2 {
        match (&a[0], &a[1]) {
            (TomlValue::Integer(x), TomlValue::Integer(y)) => {
                let x32: i32 = {
                    #[verifier::truncate]
                    (*x as i32)
                };
                let y32: i32 = {
                    #[verifier::truncate]
                    (*y as i32)
                };
                if n == 2 {
                    return Value::IntPair(x32, y32);
                }
                match &a[2] {
                    TomlValue::Integer(z) => {
                        let z32: i32 = {
                            #[verifier::truncate]
                            (*z as i32)
                        };
                        Value::IntRange(x32, y32, z32)
                    },
                    _ => Value::Empty,
                }
            },
            (TomlValue::Float(x), TomlValue::Float(y)) => {
                if n == 2 {
                    return Value::FloatPair(*x, *y);
                }
                match &a[2] {
                    TomlValue::Float(z) => Value::FloatRange(*x, *y, *z),
                    _ => Value::Empty,
                }
            },
            _ => Value::Empty,
        }
    } else {
        Value::Empty
    }
}

/// The property that a TOML value is read as: an array that is no pair or
/// range is the list of the values of its elements; anything else is the
/// single value it is read as.
pub fn property_from_toml<L: LocalBlobs>(v: &TomlValue, local: &L) -> (p: Property)
    ensures
        match *v {
            TomlValue::Array(a) => if array_value(a@) == ValueModel::Empty {
                p@ matches PropertyModel::List(l) && l.len() == a@.len() && forall|k: int|
                    0 <= k < a@.len() ==> match spec_value_from_toml(#[trigger] a@[k]) {
                        Some(m) => l[k] == m,
                        None => exists|path: &str, read: Result<Vec<u8>, Error>|
                            path@ == local_blob_path(a@[k]) && call_ensures(L::read_local, (local, path), read)
                                && l[k] == read_value(read)@,
                    }
            } else {
                p@ == PropertyModel::Single(array_value(a@))
            },
            _ => match spec_value_from_toml(*v) {
                Some(m) => p@ == PropertyModel::Single(m),
                None => exists|path: &str, read: Result<Vec<u8>, Error>|
                    path@ == local_blob_path(*v) && call_ensures(L::read_local, (local, path), read)
                        && p@ == PropertyModel::Single(read_value(read)@),
            },
        },
{
    let value = value_from_toml(v, local);
    match v {
        TomlValue::Array(a) => {
            if value.empty().is_some() {
                let mut list: Vec<Value> = Vec::new();
                let mut i: usize = 0;
                while i < a.len()
                    invariant
                        i <= a@.len(),
                        list@.len() == i,
                        forall|k: int|
                            0 <= k < i ==> match spec_value_from_toml(#[trigger] a@[k]) {
                                Some(m) => list@[k]@ == m,
                                None => exists|path: &str, read: Result<Vec<u8>, Error>|
                                    path@ == local_blob_path(a@[k]) && call_ensures(
                                        L::read_local,
                                        (local, path),
                                        read,
                                    ) && list@[k] == read_value(read),
                            },
                    decreases a@.len() - i,
                {
                    let element = value_from_toml(&a[i], local);
                    list.push(element);
                    i = i + 1;
                }
                let p = property_list(list);
                proof {
                    let l = list@.map_values(|x: Value| x@);
                    assert forall|k: int| 0 <= k < a@.len() implies match spec_value_from_toml(#[trigger] a@[k]) {
                        Some(m) => l[k] == m,
                        None => exists|path: &str, read: Result<Vec<u8>, Error>|
                            path@ == local_blob_path(a@[k]) && call_ensures(L::read_local, (local, path), read)
                                && l[k] == read_value(read)@,
                    } by {
                        assert(l[k] == list@[k]@);
                    }
                }
                p
            } else {
                property_value(value)
            }
        },
        _ => property_value(value),
    }
}

/// True if TOML keeps a value of this kind as it is: a bool, an integer,
/// a pair or range of integers or of floats, or a binary vector.
pub open spec fn toml_keeps(v: ValueModel) -> bool {
    v is Bool || v is Int || v is IntPair || v is IntRange || v is Float || v is FloatPair
        || v is FloatRange || v is BinaryVector
}

/// True if `v` is what a document gives back where `item` was written: the
/// same kinds and numbers, strings with the written content (whatever
/// their rendering), arrays and tables element by element.
pub open spec fn reads_as(item: TomlItem, v: TomlValue) -> bool
    decreases item,
{
    match item {
        TomlItem::String(s) => v matches TomlValue::String { content, rendered } && content@ == s@,
        TomlItem::Integer(i) => v == TomlValue::Integer(i),
        TomlItem::Float(f) => v == TomlValue::Float(f),
        TomlItem::Boolean(b) => v == TomlValue::Boolean(b),
        TomlItem::Array(a) => v matches TomlValue::Array(b) && b@.len() == a@.len() && forall|k: int|
            0 <= k < a@.len() ==> reads_as(#[trigger] a@[k], b@[k]),
        TomlItem::InlineTable(t) => v matches TomlValue::InlineTable(u) && u@.len() == t@.len()
            && forall|k: int|
            0 <= k < t@.len() ==> (#[trigger] u@[k]).0@ == t@[k].0@ && reads_as(t@[k].1, u@[k].1),
    }
}

/// The keys of the table of a complex, before the first `n` members are
/// set, are `_type` and those members; `_type` stays first, and keeps the
/// string while no member is `_type`.
pub proof fn lemma_complex_table_keys(c: Seq<Seq<char>>, n: int)
    requires
        0 <= n <= c.len(),
    ensures
        model_keys(complex_table_upto(c, n)).to_set() == c.take(n).to_set().insert(type_key()),
        complex_table_upto(c, n).len() > 0,
        complex_table_upto(c, n)[0].0 == type_key(),
        !c.take(n).contains(type_key()) ==> complex_table_upto(c, n)[0].1 is None,
    decreases n,
{
    let m = complex_table_upto(c, n);
    if n <= 0 {
        assert(c.take(0) =~= Seq::<Seq<char>>::empty());
        assert(model_keys(m) =~= seq![type_key()]);
        assert forall|y: Seq<char>| model_keys(m).to_set().contains(y) <==> y == type_key() by {
            if y == type_key() {
                assert(model_keys(m)[0] == y);
            }
        }
        assert(model_keys(m).to_set() =~= set![type_key()]);
        assert(c.take(n).to_set() =~= Set::<Seq<char>>::empty());
    } else {
        let prev = complex_table_upto(c, n - 1);
        lemma_complex_table_keys(c, n - 1);
        let key = c[n - 1];
        let pk = model_keys(prev);
        lemma_find_key(pk, key);
        let j = find_key(pk, key);
        assert(c.take(n) =~= c.take(n - 1).push(key));
        vstd::seq_lib::lemma_seq_contains_after_push(c.take(n - 1), key, type_key());
        if j >= 0 {
            assert(model_keys(m) =~= pk);
            assert(pk[j] == key);
            assert(pk.to_set().contains(key));
            assert(model_keys(m).to_set() =~= c.take(n).to_set().insert(type_key())) by {
                assert forall|y: Seq<char>| model_keys(m).to_set().contains(y)
                    <==> c.take(n).to_set().insert(type_key()).contains(y) by {
                    vstd::seq_lib::lemma_seq_contains_after_push(c.take(n - 1), key, y);
                }
            }
            if !c.take(n).contains(type_key()) {
                assert(key != type_key());
                assert(j != 0);
            }
        } else {
            assert(model_keys(m) =~= pk.push(key));
            assert(model_keys(m).to_set() =~= c.take(n).to_set().insert(type_key())) by {
                assert forall|y: Seq<char>| model_keys(m).to_set().contains(y)
                    <==> c.take(n).to_set().insert(type_key()).contains(y) by {
                    vstd::seq_lib::lemma_seq_contains_after_push(c.take(n - 1), key, y);
                    vstd::seq_lib::lemma_seq_contains_after_push(pk, key, y);
                    assert(model_keys(m).contains(y) <==> (pk.contains(y) || y == key));
                    assert(pk.to_set().contains(y) <==> pk.contains(y));
                    assert(c.take(n).contains(y) <==> (c.take(n - 1).contains(y) || y == key));
                }
            }
        }
    }
}

/// The property map after each name and value of `vs`, in order, was
/// added to `m`.
pub open spec fn adds_of(m: Map<Seq<char>, PropertyModel>, vs: Seq<(Seq<char>, ValueModel)>) -> Map<Seq<char>, PropertyModel>
    decreases vs.len(),
{
    if vs.len() == 0 {
        m
    } else {
        let before = adds_of(m, vs.drop_last());
        let (name, v) = vs.last();
        before.insert(
            name,
            add_result(if before.contains_key(name) { Some(before[name]) } else { None }, v),
        )
    }
}

/// The names and values that the entries of a TOML table are read as,
/// where none of them is a blob read from a local file.
pub open spec fn read_entries(entries: Seq<(String, TomlValue)>) -> Option<Seq<(Seq<char>, ValueModel)>>
    decreases entries.len(),
{
    if entries.len() == 0 {
        Some(Seq::empty())
    } else {
        match (read_entries(entries.drop_last()), spec_value_from_toml(entries.last().1)) {
            (Some(rest), Some(v)) => Some(rest.push((entries.last().0@, v))),
            _ => None,
        }
    }
}

/// Returns the properties of `owner` that a TOML table holds: each entry's
/// value is added under its key, in order; a local blob's value is what
/// `local` reads from its path (empty where the read fails).
pub fn properties_from_toml<L: LocalBlobs>(owner: Identifier, entries: &Vec<(String, TomlValue)>, local: &L) -> (p: Properties)
    ensures
        p@.owner == owner@,
        p@.map().dom() == keys_of(entries@).to_set(),
        read_entries(entries@) matches Some(vs) ==> p@.map() == adds_of(Map::empty(), vs),
        exists|vs: Seq<(Seq<char>, ValueModel)>|
            {
                &&& vs.len() == entries@.len()
                &&& p@.map() == adds_of(Map::empty(), vs)
                &&& forall|k: int|
                    0 <= k < vs.len() ==> (#[trigger] vs[k]).0 == entries@[k].0@ && match spec_value_from_toml(entries@[k].1) {
                    Some(m) => vs[k].1 == m,
                    None => exists|path: &str, read: Result<Vec<u8>, Error>|
                        path@ == local_blob_path(entries@[k].1) && call_ensures(L::read_local, (local, path), read)
                            && vs[k].1 == read_value(read)@,
                }
            },
{
    let ghost mut read: Seq<(Seq<char>, ValueModel)> = Seq::empty();
    let ghost o = owner@;
    let mut p = Properties::new(owner);
    proof {
        assert(p@.map() =~= Map::<Seq<char>, PropertyModel>::empty()) by {
            assert forall|n: Seq<char>| !p@.map().contains_key(n) by {
                crate::properties::lemma_find_name(p@.entries, n);
            }
        }
        assert(entries@.take(0) =~= Seq::<(String, TomlValue)>::empty());
        assert(keys_of(entries@.take(0)).to_set() =~= Set::<Seq<char>>::empty());
    }
    let mut i: usize = 0;
    while i < entries.len()
        invariant
            i <= entries@.len(),
            p@.owner == o,
            p@.map().dom() == keys_of(entries@.take(i as int)).to_set(),
            read_entries(entries@.take(i as int)) matches Some(vs) ==> p@.map() == adds_of(Map::empty(), vs),
            read.len() == i,
            p@.map() == adds_of(Map::empty(), read),
            forall|k: int|
                0 <= k < i ==> (#[trigger] read[k]).0 == entries@[k].0@ && match spec_value_from_toml(entries@[k].1) {
                    Some(m) => read[k].1 == m,
                    None => exists|path: &str, r: Result<Vec<u8>, Error>|
                        path@ == local_blob_path(entries@[k].1) && call_ensures(L::read_local, (local, path), r)
                            && read[k].1 == read_value(r)@,
                },
        decreases entries@.len() - i,
    {
        let ghost before = p@;
        let ghost prefix = entries@.take(i as int);
        let value = value_from_toml(&entries[i].1, local);
        p.add(entries[i].0.as_str(), value);
        proof {
            let next = entries@.take(i + 1);
            assert(next.drop_last() =~= prefix);
            assert(next.last() == entries@[i as int]);
            let key = entries@[i as int].0@;
            assert(keys_of(next) =~= keys_of(prefix).push(key));
            assert(p@.map().dom() =~= keys_of(next).to_set()) by {
                assert forall|y: Seq<char>| p@.map().dom().contains(y) <==> keys_of(next).to_set().contains(y) by {
                    vstd::seq_lib::lemma_seq_contains_after_push(keys_of(prefix), key, y);
                }
            }
            let m = before.map();
            assert(before.lookup(key) == if m.contains_key(key) {
                Some(m[key])
            } else {
                None::<PropertyModel>
            });
            if let Some(vs2) = read_entries(next) {
                let vs = read_entries(prefix)->Some_0;
                let v = spec_value_from_toml(entries@[i as int].1)->Some_0;
                assert(read_entries(prefix) is Some);
                assert(vs2 == vs.push((key, v)));
                assert(vs2.drop_last() =~= vs);
                assert(value@ == v);
                assert(p@.map() == adds_of(Map::empty(), vs2));
            }
            let old_read = read;
            read = read.push((key, value@));
            assert(read.drop_last() =~= old_read);
            assert(p@.map() == adds_of(Map::empty(), read));
            assert forall|k: int|
                0 <= k < i + 1 implies (#[trigger] read[k]).0 == entries@[k].0@ && match spec_value_from_toml(entries@[k].1) {
                    Some(m) => read[k].1 == m,
                    None => exists|path: &str, r: Result<Vec<u8>, Error>|
                        path@ == local_blob_path(entries@[k].1) && call_ensures(L::read_local, (local, path), r)
                            && read[k].1 == read_value(r)@,
                } by {
                if k < i {
                    assert(read[k] == old_read[k]);
                }
            }
        }
        i = i + 1;
    }
    proof {
        assert(entries@.take(entries@.len() as int) =~= entries@);
        assert(read.len() == entries@.len());
    }
    p
}

} // verus!
