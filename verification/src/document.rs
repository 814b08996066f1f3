use vstd::prelude::*;

use crate::action::Root;
use crate::order::str_lt;
use crate::properties::{
    lemma_property_view, names_in_order, Identifier, Properties, Property, PropertyModel,
};
use crate::text::{push_char, spec_trim_matches, trim_matches};
use crate::toml_value::{find_key, is_item_for, keys_of, lemma_find_key, set_keyed, TomlItem};
use crate::value::{Value, ValueModel};

verus! {

/// `s` without its double quotes.
pub open spec fn without_quotes(s: Seq<char>) -> Seq<char>
    decreases s.len(),
{
    if s.len() == 0 {
        Seq::empty()
    } else if s.last() == '"' {
        without_quotes(s.drop_last())
    } else {
        without_quotes(s.drop_last()).push(s.last())
    }
}

/// The table header of an identifier's rendering: without double quotes
/// and without leading or trailing dots.
pub open spec fn spec_format_ident(rendering: Seq<char>) -> Seq<char> {
    spec_trim_matches(without_quotes(rendering), '.')
}

/// What a property is exported as.
pub enum ExportModel {
    Single(ValueModel),
    List(Seq<ValueModel>),
}

/// The properties that a property map exports, in order: single values and
/// non-empty lists; empty properties, empty lists and read-only maps are
/// left out.
pub open spec fn exported(entries: Seq<(Seq<char>, PropertyModel)>) -> Seq<(Seq<char>, ExportModel)>
    decreases entries.len(),
{
    if entries.len() == 0 {
        Seq::empty()
    } else {
        let rest = exported(entries.drop_last());
        let (name, p) = entries.last();
        match p {
            PropertyModel::Single(v) => rest.push((name, ExportModel::Single(v))),
            PropertyModel::List(l) => if l.len() > 0 {
                rest.push((name, ExportModel::List(l)))
            } else {
                rest
            },
            _ => rest,
        }
    }
}

/// True if `item` is the array of the values `l`.
pub open spec fn is_list_item(item: TomlItem, l: Seq<ValueModel>) -> bool {
    item matches TomlItem::Array(a) && a@.len() == l.len() && forall|i: int|
        0 <= i < l.len() ==> is_item_for(#[trigger] a@[i], l[i])
}

/// True if the table `t` holds the exported properties `m`, in order.
pub open spec fn exports_as(t: Seq<(String, TomlItem)>, m: Seq<(Seq<char>, ExportModel)>) -> bool {
    &&& t.len() == m.len()
    &&& forall|k: int|
        0 <= k < t.len() ==> {
            &&& (#[trigger] t[k]).0@ == m[k].0
            &&& match m[k].1 {
                ExportModel::Single(v) => is_item_for(t[k].1, v),
                ExportModel::List(l) => is_list_item(t[k].1, l),
            }
        }
}

/// `after` is `before` with `key` set to an item that `pred` accepts: in
/// place of the first entry with that key, or appended.
pub open spec fn set_rel<X>(before: Seq<(String, X)>, after: Seq<(String, X)>, key: Seq<char>, pred: spec_fn(X) -> bool) -> bool {
    let j = find_key(keys_of(before), key);
    if j >= 0 {
        &&& after.len() == before.len()
        &&& after[j].0@ == key
        &&& pred(after[j].1)
        &&& forall|k: int| 0 <= k < before.len() && k != j ==> #[trigger] after[k] == before[k]
    } else {
        &&& after.len() == before.len() + 1
        &&& after[before.len() as int].0@ == key
        &&& pred(after[before.len() as int].1)
        &&& forall|k: int| 0 <= k < before.len() ==> #[trigger] after[k] == before[k]
    }
}

/// `after` is the table `before` once the value `v` was written under
/// `name`: a value outside a list is set; the first value of a list starts
/// the array; a later one is appended to the array, where the name holds
/// one (otherwise the table is left as it is).
pub open spec fn value_written(before: Seq<(String, TomlItem)>, after: Seq<(String, TomlItem)>, name: Seq<char>, idx: Option<usize>, v: ValueModel) -> bool {
    match idx {
        None => set_rel(before, after, name, |x: TomlItem| is_item_for(x, v)),
        Some(i) => if i == 0 {
            set_rel(
                before,
                after,
                name,
                |x: TomlItem| is_list_item(x, seq![v]),
            )
        } else {
            let j = find_key(keys_of(before), name);
            if j >= 0 && before[j].1 is Array {
                &&& after.len() == before.len()
                &&& after[j].0@ == name
                &&& after[j].1 matches TomlItem::Array(a) && {
                    &&& a@.len() == before[j].1->Array_0@.len() + 1
                    &&& forall|k: int| 0 <= k < a@.len() - 1 ==> #[trigger] a@[k] == before[j].1->Array_0@[k]
                    &&& is_item_for(a@[a@.len() - 1], v)
                }
                &&& forall|k: int| 0 <= k < before.len() && k != j ==> #[trigger] after[k] == before[k]
            } else {
                after == before
            }
        },
    }
}

/// Writes the value `v` under `name` in the table `t` (see `value_written`).
fn write_value(t: &mut Vec<(String, TomlItem)>, name: &str, idx: Option<usize>, value: &Value)
    ensures
        value_written(old(t)@, final(t)@, name@, idx, value@),
{
    match idx {
        None => {
            let item = value.to_toml();
            set_keyed(t, name.to_string(), item);
        },
        Some(i) => {
            if i == 0 {
                let item = value.to_toml();
                let array = TomlItem::Array(vec![item]);
                proof {
                    assert(is_list_item(array, seq![value@]));
                }
                set_keyed(t, name.to_string(), array);
            } else {
                let ghost keys = keys_of(t@);
                let mut j: usize = 0;
                let mut found = false;
                while j < t.len()
                    invariant_except_break
                        !found,
                        j <= t@.len(),
                        t@ == old(t)@,
                        keys == keys_of(t@),
                        forall|k: int| 0 <= k < j ==> keys[k] != name@,
                    ensures
                        t@ == old(t)@,
                        keys == keys_of(t@),
                        found ==> j < t@.len() && keys[j as int] == name@ && forall|k: int| 0 <= k < j ==> keys[k] != name@,
                        !found ==> forall|k: int| 0 <= k < t@.len() ==> keys[k] != name@,
                    decreases t@.len() - j,
                {
                    proof {
                        assert(keys[j as int] == t@[j as int].0@);
                    }
                    if crate::order::same_str(t[j].0.as_str(), name) {
                        found = true;
                        break;
                    }
                    j = j + 1;
                }
                proof {
                    lemma_find_key(keys, name@);
                    if found {
                        if find_key(keys, name@) < 0 || j < find_key(keys, name@) {
                            assert(keys[j as int] != name@);
                        }
                    } else {
                        if find_key(keys, name@) >= 0 {
                            assert(keys[find_key(keys, name@)] == name@);
                        }
                    }
                }
                if found {
                    let is_array = match &t[j].1 {
                        TomlItem::Array(_) => true,
                        _ => false,
                    };
                    if is_array {
                        let ghost before = t@;
                        let (key, entry) = t.remove(j);
                        let item = value.to_toml();
                        let grown = match entry {
                            TomlItem::Array(a) => {
                                let mut a = a;
                                a.push(item);
                                TomlItem::Array(a)
                            },
                            other => other,
                        };
                        t.insert(j, (key, grown));
                        proof {
                            assert forall|k: int| 0 <= k < before.len() && k != j implies #[trigger] t@[k] == before[k] by {
                                if k < j {
                                    assert(t@[k] == before.remove(j as int)[k]);
                                } else {
                                    assert(t@[k] == before.remove(j as int)[k - 1]);
                                }
                            }
                        }
                    }
                }
            }
        },
    }
}

/// Builds TOML documents: the properties of each owner, under the owner's
/// table header, and the extensions of each root.
pub struct DocumentBuilder {
    properties: Vec<(String, Vec<(String, TomlItem)>)>,
    roots: Vec<(String, Vec<String>)>,
    parsing: Option<String>,
}

impl DocumentBuilder {
    /// The tables of the properties section, by owner.
    pub closed spec fn spec_properties(&self) -> Seq<(String, Vec<(String, TomlItem)>)> {
        self.properties@
    }

    /// The extensions of each root, by root.
    pub closed spec fn spec_roots(&self) -> Seq<(String, Vec<String>)> {
        self.roots@
    }

    /// The owner whose properties are being written.
    pub closed spec fn spec_parsing(&self) -> Option<Seq<char>> {
        match self.parsing {
            Some(s) => Some(s@),
            None => None,
        }
    }

    /// Returns a builder of an empty document.
    pub fn new() -> (d: DocumentBuilder)
        ensures
            d.spec_properties() == Seq::<(String, Vec<(String, TomlItem)>)>::empty(),
            d.spec_roots() == Seq::<(String, Vec<String>)>::empty(),
            d.spec_parsing() is None,
    {
        DocumentBuilder { properties: Vec::new(), roots: Vec::new(), parsing: None }
    }

    /// Returns the table header of an identifier: its rendering without
    /// double quotes and without leading or trailing dots.
    pub fn format_ident(ident: &Identifier) -> (header: String)
        ensures
            header@ == spec_format_ident(ident@.0),
    {
        let rendering = ident.name();
        let mut unquoted = String::new();
        for c in it: rendering.as_str().chars()
            invariant
                it.seq() == rendering@,
                unquoted@ == without_quotes(rendering@.take(it.index() as int)),
        {
            proof {
                assert(rendering@.take(it.index() + 1).drop_last() =~= rendering@.take(it.index() as int));
            }
            if c != '"' {
                push_char(&mut unquoted, c);
            }
        }
        proof {
            assert(rendering@.take(rendering@.len() as int) =~= rendering@);
        }
        trim_matches(unquoted.as_str(), '.').to_string()
    }

    /// Returns the tables of the properties section, by owner.
    pub fn properties(&self) -> (p: &Vec<(String, Vec<(String, TomlItem)>)>)
        ensures
            p@ == self.spec_properties(),
    {
        &self.properties
    }

    /// Returns the extensions of each root, by root.
    pub fn roots(&self) -> (r: &Vec<(String, Vec<String>)>)
        ensures
            r@ == self.spec_roots(),
    {
        &self.roots
    }

    /// Returns the table of exported properties of a property map.
    fn export(properties: &Properties) -> (t: Vec<(String, TomlItem)>)
        ensures
            exports_as(t@, exported(properties@.entries)),
    {
        let ghost entries = properties@.entries;
        let n = properties.len();
        let mut t: Vec<(String, TomlItem)> = Vec::new();
        let mut i: usize = 0;
        proof {
            assert(entries.take(0) =~= Seq::<(Seq<char>, PropertyModel)>::empty());
        }
        while i < n
            invariant
                i <= n,
                n == entries.len(),
                entries == properties@.entries,
                names_in_order(entries),
                exports_as(t@, exported(entries.take(i as int))),
                forall|k: int| 0 <= k < t@.len() ==> exists|m: int| 0 <= m < i && #[trigger] t@[k].0@ == entries[m].0,
            decreases n - i,
        {
            let (name, property) = properties.entry_at(i);
            let ghost before = t@;
            let ghost prefix = entries.take(i as int);
            proof {
                assert(entries.take(i + 1).drop_last() =~= prefix);
                assert(entries.take(i + 1).last() == entries[i as int]);
                lemma_property_view(*property);
                lemma_find_key(keys_of(before), name@);
                if find_key(keys_of(before), name@) >= 0 {
                    let k = find_key(keys_of(before), name@);
                    assert(keys_of(before)[k] == before[k].0@);
                    let m = choose|m: int| 0 <= m < i && #[trigger] before[k].0@ == entries[m].0;
                    assert(str_lt(entries[m].0, entries[i as int].0));
                    crate::order::lemma_str_lt_irreflexive(name@);
                }
            }
            match property {
                Property::Single(v) => {
                    write_value(&mut t, name.as_str(), None, v);
                    proof {
                        assert(exports_as(t@, exported(entries.take(i + 1))));
                        assert forall|k: int| 0 <= k < t@.len() implies exists|m: int| 0 <= m < i + 1 && #[trigger] t@[k].0@ == entries[m].0 by {
                            if k < before.len() {
                                assert(t@[k] == before[k]);
                                let m = choose|m: int| 0 <= m < i && #[trigger] before[k].0@ == entries[m].0;
                                assert(t@[k].0@ == entries[m].0);
                            } else {
                                assert(t@[k].0@ == entries[i as int].0);
                            }
                        }
                    }
                },
                Property::List(values) => {
                    if values.len() > 0 {
                        write_value(&mut t, name.as_str(), Some(0), &values[0]);
                        let ghost p = before.len() as int;
                        let ghost l = values@.map_values(|x: Value| x@);
                        proof {
                            assert(find_key(keys_of(before), name@) == -1) by {
                                if find_key(keys_of(before), name@) >= 0 {
                                    let k = find_key(keys_of(before), name@);
                                    assert(keys_of(before)[k] == before[k].0@);
                                    let m = choose|m: int| 0 <= m < i && #[trigger] before[k].0@ == entries[m].0;
                                    assert(str_lt(entries[m].0, entries[i as int].0));
                                    crate::order::lemma_str_lt_irreflexive(name@);
                                }
                            }
                            assert(t@.len() == p + 1);
                            assert(l.take(1) =~= seq![l[0]]);
                            assert(values@[0]@ == l[0]);
                            assert forall|k: int| 0 <= k < p implies keys_of(t@)[k] != name@ by {
                                assert(keys_of(t@)[k] == t@[k].0@);
                                assert(t@[k] == before[k]);
                                assert(keys_of(before)[k] == before[k].0@);
                            }
                        }
                        let mut j: usize = 1;
                        while j < values.len()
                            invariant
                                1 <= j <= values@.len(),
                                p == before.len(),
                                l == values@.map_values(|x: Value| x@),
                                t@.len() == p + 1,
                                forall|k: int| 0 <= k < p ==> #[trigger] t@[k] == before[k],
                                t@[p].0@ == name@,
                                is_list_item(t@[p].1, l.take(j as int)),
                                forall|k: int| 0 <= k < p ==> keys_of(t@)[k] != name@,
                            decreases values@.len() - j,
                        {
                            let ghost mid = t@;
                            proof {
                                lemma_find_key(keys_of(mid), name@);
                                assert(keys_of(mid)[p] == mid[p].0@);
                                assert(keys_of(mid)[p] == name@);
                                if find_key(keys_of(mid), name@) < 0 || p < find_key(keys_of(mid), name@) {
                                    assert(keys_of(mid)[p] != name@);
                                }
                                if find_key(keys_of(mid), name@) < p {
                                    assert(keys_of(mid)[find_key(keys_of(mid), name@)] == name@);
                                }
                            }
                            write_value(&mut t, name.as_str(), Some(j), &values[j]);
                            proof {
                                assert(l.take(j + 1) =~= l.take(j as int).push(l[j as int]));
                                assert forall|k: int| 0 <= k < p implies #[trigger] t@[k] == before[k] by {
                                    assert(t@[k] == mid[k]);
                                }
                                assert forall|k: int| 0 <= k < p implies keys_of(t@)[k] != name@ by {
                                    assert(t@[k] == mid[k]);
                                    assert(keys_of(t@)[k] == t@[k].0@);
                                    assert(keys_of(mid)[k] == mid[k].0@);
                                }
                            }
                            j = j + 1;
                        }
                        proof {
                            assert(l.take(values@.len() as int) =~= l);
                            assert(exports_as(t@, exported(entries.take(i + 1))));
                            assert forall|k: int| 0 <= k < t@.len() implies exists|m: int| 0 <= m < i + 1 && #[trigger] t@[k].0@ == entries[m].0 by {
                                if k < before.len() {
                                    assert(t@[k] == before[k]);
                                    let m = choose|m: int| 0 <= m < i && #[trigger] before[k].0@ == entries[m].0;
                                    assert(t@[k].0@ == entries[m].0);
                                } else {
                                    assert(t@[k].0@ == entries[i as int].0);
                                }
                            }
                        }
                    } else {
                        proof {
                            assert(exports_as(t@, exported(entries.take(i + 1))));
                        }
                    }
                },
                _ => {
                    proof {
                        assert(exports_as(t@, exported(entries.take(i + 1))));
                    }
                },
            }
            i = i + 1;
        }
        proof {
            assert(entries.take(n as int) =~= entries);
        }
        t
    }
}

impl crate::visitor::Visitor for DocumentBuilder {
    /// Writes the value into the table of the owner being written (see
    /// `value_written`); nothing where no owner is being written.
    fn visit_value(&mut self, name: &str, idx: Option<usize>, value: &Value)
        ensures
            final(self).spec_roots() == old(self).spec_roots(),
            final(self).spec_parsing() == old(self).spec_parsing(),
            match old(self).spec_parsing() {
                None => final(self).spec_properties() == old(self).spec_properties(),
                Some(id) => {
                    let j = find_key(keys_of(old(self).spec_properties()), id);
                    if j >= 0 {
                        &&& final(self).spec_properties().len() == old(self).spec_properties().len()
                        &&& final(self).spec_properties()[j].0@ == id
                        &&& value_written(
                            old(self).spec_properties()[j].1@,
                            final(self).spec_properties()[j].1@,
                            name@,
                            idx,
                            value@,
                        )
                        &&& forall|k: int| 0 <= k < old(self).spec_properties().len() && k != j
                            ==> #[trigger] final(self).spec_properties()[k] == old(self).spec_properties()[k]
                    } else {
                        &&& final(self).spec_properties().len() == old(self).spec_properties().len() + 1
                        &&& final(self).spec_properties().last().0@ == id
                        &&& value_written(
                            Seq::empty(),
                            final(self).spec_properties().last().1@,
                            name@,
                            idx,
                            value@,
                        )
                        &&& forall|k: int| 0 <= k < old(self).spec_properties().len()
                            ==> #[trigger] final(self).spec_properties()[k] == old(self).spec_properties()[k]
                    }
                },
            },
    {
        match &self.parsing {
            None => {},
            Some(id) => {
                let ghost keys = keys_of(self.properties@);
                let mut j: usize = 0;
                let mut found = false;
                while j < self.properties.len()
                    invariant_except_break
                        !found,
                        j <= self.properties@.len(),
                        self.properties@ == old(self).properties@,
                        keys == keys_of(self.properties@),
                        forall|k: int| 0 <= k < j ==> keys[k] != id@,
                    ensures
                        self.properties@ == old(self).properties@,
                        found ==> j < self.properties@.len() && keys[j as int] == id@ && forall|k: int| 0 <= k < j ==> keys[k] != id@,
                        !found ==> forall|k: int| 0 <= k < self.properties@.len() ==> keys[k] != id@,
                    decreases self.properties@.len() - j,
                {
                    proof {
                        assert(keys[j as int] == self.properties@[j as int].0@);
                    }
                    if crate::order::same_str(self.properties[j].0.as_str(), id.as_str()) {
                        found = true;
                        break;
                    }
                    j = j + 1;
                }
                proof {
                    lemma_find_key(keys, id@);
                    if found {
                        if find_key(keys, id@) < 0 || j < find_key(keys, id@) {
                            assert(keys[j as int] != id@);
                        }
                    } else if find_key(keys, id@) >= 0 {
                        assert(keys[find_key(keys, id@)] == id@);
                    }
                }
                if found {
                    let ghost before = self.properties@;
                    let (owner, table) = self.properties.remove(j);
                    let mut table = table;
                    write_value(&mut table, name, idx, value);
                    self.properties.insert(j, (owner, table));
                    proof {
                        assert forall|k: int| 0 <= k < before.len() && k != j implies #[trigger] self.properties@[k] == before[k] by {
                            if k < j {
                                assert(self.properties@[k] == before.remove(j as int)[k]);
                            } else {
                                assert(self.properties@[k] == before.remove(j as int)[k - 1]);
                            }
                        }
                    }
                } else {
                    let mut table: Vec<(String, TomlItem)> = Vec::new();
                    write_value(&mut table, name, idx, value);
                    let owner = id.clone();
                    self.properties.push((owner, table));
                }
            },
        }
    }

    /// Starts the owner's table afresh and writes its exported properties:
    /// single values, and lists as arrays (see `exported`).
    fn visit_properties(&mut self, properties: &Properties)
        ensures
            final(self).spec_roots() == old(self).spec_roots(),
            final(self).spec_parsing() == Some(spec_format_ident(properties@.owner.0)),
            set_rel(
                old(self).spec_properties(),
                final(self).spec_properties(),
                spec_format_ident(properties@.owner.0),
                |t: Vec<(String, TomlItem)>| exports_as(t@, exported(properties@.entries)),
            ),
    {
        let owner = DocumentBuilder::format_ident(properties.owner());
        let table = DocumentBuilder::export(properties);
        let key = owner.clone();
        set_keyed(&mut self.properties, key, table);
        self.parsing = Some(owner);
    }

    /// Sets the root's extensions, each by its table header.
    fn visit_root(&mut self, root: &Root)
        ensures
            final(self).spec_properties() == old(self).spec_properties(),
            final(self).spec_parsing() == old(self).spec_parsing(),
            set_rel(
                old(self).spec_roots(),
                final(self).spec_roots(),
                spec_format_ident(root.spec_ident().0),
                |exts: Vec<String>| exts@.map_values(|e: String| e@) == crate::action::extensions_of(
                    root.spec_actions(),
                ).map_values(|i: (Seq<char>, Seq<char>)| spec_format_ident(i.0)),
            ),
    {
        let owner = DocumentBuilder::format_ident(root.ident());
        let exts = root.extensions();
        let ghost want = crate::action::extensions_of(root.spec_actions());
        let mut headers: Vec<String> = Vec::new();
        let mut i: usize = 0;
        while i < exts.len()
            invariant
                i <= exts@.len(),
                exts@.map_values(|x: &Identifier| x@) == want,
                headers@.len() == i,
                forall|k: int| 0 <= k < i ==> #[trigger] headers@[k]@ == spec_format_ident(want[k].0),
            decreases exts@.len() - i,
        {
            proof {
                assert(exts@.map_values(|x: &Identifier| x@)[i as int] == exts@[i as int]@);
            }
            let header = DocumentBuilder::format_ident(exts[i]);
            headers.push(header);
            i = i + 1;
        }
        proof {
            assert(headers@.map_values(|e: String| e@) =~= want.map_values(
                |x: (Seq<char>, Seq<char>)| spec_format_ident(x.0),
            ));
        }
        set_keyed(&mut self.roots, owner, headers);
    }
}

} // verus!
