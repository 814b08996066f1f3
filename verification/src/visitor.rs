use std::sync::Arc;
use vstd::prelude::*;

use crate::action::{extensions_of, Root};
use crate::error::Error;
use crate::hashing::platform_le;
use crate::interner::{interns_all, interns_only, properties_strings, Interner, SymbolMap};
use crate::properties::{Identifier, Properties, PropertiesModel, Property, PropertyModel};
use crate::symbol_set::SymbolSet;
use crate::value::Value;

verus! {

/// The `u64` whose bytes, least significant first, are those of `lo` and
/// then those of `hi`.
pub open spec fn join_u32(lo: u32, hi: u32) -> u64 {
    ((lo as int) + (hi as int) * 0x1_0000_0000) as u64
}

/// The `u64` whose memory holds `first` and then `second`: on a little
/// endian platform `first` is its low half, on a big endian one its high
/// half.
pub open spec fn pair_bits(first: i32, second: i32) -> u64 {
    if platform_le() {
        join_u32(first as u32, second as u32)
    } else {
        join_u32(second as u32, first as u32)
    }
}

/// Reinterprets the memory of an `[i32; 2]` as a `u64`
/// (`bytemuck::cast::<[i32; 2], u64>`). The first element comes first in
/// memory, so it is the low half on a little endian platform and the high
/// half on a big endian one.
#[verifier::external_body]
fn cast_pair(pair: [i32; 2]) -> (r: u64)
    ensures
        r == pair_bits(pair[0], pair[1]),
{
    bytemuck::cast::<[i32; 2], u64>(pair)
}

/// The message of a signed value that is read as an unsigned one.
pub open spec fn signed_message() -> Seq<char> {
    "Current value is signed (negative) and cannot be converted"@
}

/// Visits compiled runmd data: values by name (and position in a list),
/// properties, identifiers and read-only property maps. Every method does
/// nothing unless overridden, but those that dispatch: `visit_value` calls
/// the method of the value's kind, `visit_list` visits each value with its
/// position, `visit_property` visits the name and then the property's
/// content, `visit_properties` visits each property of the map.
///
/// Floats are visited by their bits (`f32::to_bits`).
pub trait Visitor: Sized {
    /// Visits an empty value.
    fn visit_empty_value(&mut self, name: &str, idx: Option<usize>) {
    }

    /// Visits a bool value.
    fn visit_bool(&mut self, name: &str, idx: Option<usize>, b: bool) {
    }

    /// Visits a symbol value.
    fn visit_symbol(&mut self, name: &str, idx: Option<usize>, symbol: &String) {
    }

    /// Visits a text buffer value.
    fn visit_text_buffer(&mut self, name: &str, idx: Option<usize>, text_buffer: &String) {
    }

    /// Visits an integer value.
    fn visit_int(&mut self, name: &str, idx: Option<usize>, i: i32) {
    }

    /// Visits an integer pair value.
    fn visit_int_pair(&mut self, name: &str, idx: Option<usize>, pair: &[i32; 2]) {
    }

    /// Visits an integer range value.
    fn visit_int_range(&mut self, name: &str, idx: Option<usize>, range: &[i32; 3]) {
    }

    /// Visits a float value, by its bits.
    fn visit_float(&mut self, name: &str, idx: Option<usize>, f: u32) {
    }

    /// Visits a float pair value, by their bits.
    fn visit_float_pair(&mut self, name: &str, idx: Option<usize>, pair: &[u32; 2]) {
    }

    /// Visits a float range value, by their bits.
    fn visit_float_range(&mut self, name: &str, idx: Option<usize>, range: &[u32; 3]) {
    }

    /// Visits a binary value.
    fn visit_binary(&mut self, name: &str, idx: Option<usize>, binary: &Vec<u8>) {
    }

    /// Visits a reference value.
    fn visit_reference(&mut self, name: &str, idx: Option<usize>, reference: u64) {
    }

    /// Visits a complex value.
    fn visit_complex(&mut self, name: &str, idx: Option<usize>, complex: &SymbolSet) {
    }

    /// Visits an identifier.
    fn visit_identifier(&mut self, identifier: &Identifier) {
    }

    /// Visits an empty property.
    fn visit_empty(&mut self, name: &str) {
    }

    /// Visits a read-only property map.
    fn visit_readonly(&mut self, properties: Arc<Properties>) {
    }

    /// Visits a property name.
    fn visit_property_name(&mut self, name: &str) {
    }

    /// Visits a root extension.
    fn visit_extension(&mut self, identifier: &Identifier) {
    }

    /// Visits a root: each of its extensions, in order.
    fn visit_root(&mut self, root: &Root)
        default_ensures
            exists|states: Seq<Self>, refs: Seq<&mut Self>|
                {
                    &&& states.len() == extensions_of(root.spec_actions()).len() + 1
                    &&& refs.len() == extensions_of(root.spec_actions()).len()
                    &&& states[0] == *old(self)
                    &&& states.last() == *final(self)
                    &&& forall|i: int|
                        0 <= i < refs.len() ==> {
                            &&& mut_ref_current(#[trigger] refs[i]) == states[i]
                            &&& mut_ref_future(refs[i]) == states[i + 1]
                            &&& exists|id: &Identifier|
                                id@ == extensions_of(root.spec_actions())[i] && call_ensures(
                                    Self::visit_extension,
                                    (refs[i], id),
                                    (),
                                )
                        }
                },
    {
        let exts = root.extensions();
        let ghost views = extensions_of(root.spec_actions());
        let ghost mut states: Seq<Self> = seq![*self];
        proof {
            let none = Seq::<&mut Self>::empty();
            assert(none.len() == 0);
        }
        let mut i: usize = 0;
        while i < exts.len()
            invariant
                i <= exts@.len(),
                exts@.map_values(|x: &Identifier| x@) == views,
                states.len() == i + 1,
                states[0] == *old(self),
                states.last() == *self,
                exists|refs: Seq<&mut Self>|
                    #[trigger] refs.len() == i && forall|k: int|
                        0 <= k < i ==> {
                            &&& mut_ref_current(#[trigger] refs[k]) == states[k]
                            &&& mut_ref_future(refs[k]) == states[k + 1]
                            &&& exists|id: &Identifier|
                                id@ == views[k] && call_ensures(Self::visit_extension, (refs[k], id), ())
                        },
            decreases exts@.len() - i,
        {
            let id = exts[i];
            let ghost before = *self;
            self.visit_extension(id);
            proof {
                assert(exts@.map_values(|x: &Identifier| x@)[i as int] == id@);
                let r = choose|r: &mut Self|
                    mut_ref_current(r) == before && mut_ref_future(r) == *self && call_ensures(
                        Self::visit_extension,
                        (r, id),
                        (),
                    );
                let old_refs = choose|refs: Seq<&mut Self>|
                    refs.len() == i && forall|k: int|
                        0 <= k < i ==> {
                            &&& mut_ref_current(#[trigger] refs[k]) == states[k]
                            &&& mut_ref_future(refs[k]) == states[k + 1]
                            &&& exists|id: &Identifier|
                                id@ == views[k] && call_ensures(Self::visit_extension, (refs[k], id), ())
                        };
                let old_states = states;
                states = states.push(*self);
                let refs = old_refs.push(r);
                assert(refs.len() == old_refs.len() + 1);
                assert forall|k: int|
                    0 <= k < i + 1 implies {
                        &&& mut_ref_current(#[trigger] refs[k]) == states[k]
                        &&& mut_ref_future(refs[k]) == states[k + 1]
                        &&& exists|id: &Identifier|
                            id@ == views[k] && call_ensures(Self::visit_extension, (refs[k], id), ())
                    } by {
                    if k < i {
                        assert(refs[k] == old_refs[k]);
                        assert(states[k] == old_states[k] && states[k + 1] == old_states[k + 1]);
                    } else {
                        assert(refs[k] == r);
                    }
                }
            }
            i = i + 1;
        }
    }

    /// Visits each value of a list, with its position, in order.
    fn visit_list(&mut self, name: &str, values: &Vec<Value>)
        default_ensures
            exists|states: Seq<Self>, refs: Seq<&mut Self>|
                {
                    &&& states.len() == values@.len() + 1
                    &&& refs.len() == values@.len()
                    &&& states[0] == *old(self)
                    &&& states.last() == *final(self)
                    &&& forall|i: int|
                        0 <= i < refs.len() ==> {
                            &&& mut_ref_current(#[trigger] refs[i]) == states[i]
                            &&& mut_ref_future(refs[i]) == states[i + 1]
                            &&& call_ensures(Self::visit_value, (refs[i], name, Some(i as usize), &values@[i]), ())
                        }
                },
    {
        let ghost mut states: Seq<Self> = seq![*self];
        proof {
            let none = Seq::<&mut Self>::empty();
            assert(none.len() == 0);
        }
        let mut idx: usize = 0;
        while idx < values.len()
            invariant
                idx <= values@.len(),
                states.len() == idx + 1,
                states[0] == *old(self),
                states.last() == *self,
                exists|refs: Seq<&mut Self>|
                    #[trigger] refs.len() == idx && forall|k: int|
                        0 <= k < idx ==> {
                            &&& mut_ref_current(#[trigger] refs[k]) == states[k]
                            &&& mut_ref_future(refs[k]) == states[k + 1]
                            &&& call_ensures(Self::visit_value, (refs[k], name, Some(k as usize), &values@[k]), ())
                        },
            decreases values@.len() - idx,
        {
            let ghost before = *self;
            self.visit_value(name, Some(idx), &values[idx]);
            proof {
                let r = choose|r: &mut Self|
                    mut_ref_current(r) == before && mut_ref_future(r) == *self && call_ensures(
                        Self::visit_value,
                        (r, name, Some(idx), &values@[idx as int]),
                        (),
                    );
                let old_refs = choose|refs: Seq<&mut Self>|
                    refs.len() == idx && forall|k: int|
                        0 <= k < idx ==> {
                            &&& mut_ref_current(#[trigger] refs[k]) == states[k]
                            &&& mut_ref_future(refs[k]) == states[k + 1]
                            &&& call_ensures(Self::visit_value, (refs[k], name, Some(k as usize), &values@[k]), ())
                        };
                let old_states = states;
                states = states.push(*self);
                let refs = old_refs.push(r);
                assert(refs.len() == old_refs.len() + 1);
                assert forall|k: int|
                    0 <= k < idx + 1 implies {
                        &&& mut_ref_current(#[trigger] refs[k]) == states[k]
                        &&& mut_ref_future(refs[k]) == states[k + 1]
                        &&& call_ensures(Self::visit_value, (refs[k], name, Some(k as usize), &values@[k]), ())
                    } by {
                    if k < idx {
                        assert(refs[k] == old_refs[k]);
                        assert(states[k] == old_states[k] && states[k + 1] == old_states[k + 1]);
                    } else {
                        assert(refs[k] == r);
                    }
                }
            }
            idx = idx + 1;
        }
    }

    /// Visits a value: calls the method of its kind, once, with the value's
    /// content.
    fn visit_value(&mut self, name: &str, idx: Option<usize>, value: &Value)
        default_ensures
            exists|r: &mut Self|
                {
                    &&& mut_ref_current(r) == *old(self)
                    &&& mut_ref_future(r) == *final(self)
                    &&& match *value {
                        Value::Empty => call_ensures(Self::visit_empty_value, (r, name, idx), ()),
                        Value::Bool(b) => call_ensures(Self::visit_bool, (r, name, idx, b), ()),
                        Value::TextBuffer(t) => call_ensures(Self::visit_text_buffer, (r, name, idx, &t), ()),
                        Value::Int(i) => call_ensures(Self::visit_int, (r, name, idx, i), ()),
                        Value::IntPair(a, b) => call_ensures(Self::visit_int_pair, (r, name, idx, &[a, b]), ()),
                        Value::IntRange(a, b, c) => call_ensures(
                            Self::visit_int_range,
                            (r, name, idx, &[a, b, c]),
                            (),
                        ),
                        Value::Float(f) => call_ensures(Self::visit_float, (r, name, idx, f), ()),
                        Value::FloatPair(a, b) => call_ensures(
                            Self::visit_float_pair,
                            (r, name, idx, &[a, b]),
                            (),
                        ),
                        Value::FloatRange(a, b, c) => call_ensures(
                            Self::visit_float_range,
                            (r, name, idx, &[a, b, c]),
                            (),
                        ),
                        Value::BinaryVector(b) => call_ensures(Self::visit_binary, (r, name, idx, &b), ()),
                        Value::Symbol(sym) => call_ensures(Self::visit_symbol, (r, name, idx, &sym), ()),
                        Value::Reference(x) => call_ensures(Self::visit_reference, (r, name, idx, x), ()),
                        Value::Complex(c) => call_ensures(Self::visit_complex, (r, name, idx, &c), ()),
                    }
                },
    {
        match value {
            Value::Empty => self.visit_empty_value(name, idx),
            Value::Bool(b) => self.visit_bool(name, idx, *b),
            Value::TextBuffer(t) => self.visit_text_buffer(name, idx, t),
            Value::Int(i) => self.visit_int(name, idx, *i),
            Value::IntPair(a, b) => self.visit_int_pair(name, idx, &[*a, *b]),
            Value::IntRange(a, b, c) => self.visit_int_range(name, idx, &[*a, *b, *c]),
            Value::Float(f) => self.visit_float(name, idx, *f),
            Value::FloatPair(a, b) => self.visit_float_pair(name, idx, &[*a, *b]),
            Value::FloatRange(a, b, c) => self.visit_float_range(name, idx, &[*a, *b, *c]),
            Value::BinaryVector(b) => self.visit_binary(name, idx, b),
            Value::Symbol(s) => self.visit_symbol(name, idx, s),
            Value::Reference(r) => self.visit_reference(name, idx, *r),
            Value::Complex(c) => self.visit_complex(name, idx, c),
        }
    }

    /// Visits each property of a property map, in name order.
    fn visit_properties(&mut self, properties: &Properties)
        default_ensures
            exists|states: Seq<Self>, refs: Seq<&mut Self>|
                {
                    &&& states.len() == properties@.entries.len() + 1
                    &&& refs.len() == properties@.entries.len()
                    &&& states[0] == *old(self)
                    &&& states.last() == *final(self)
                    &&& forall|i: int|
                        0 <= i < refs.len() ==> {
                            &&& mut_ref_current(#[trigger] refs[i]) == states[i]
                            &&& mut_ref_future(refs[i]) == states[i + 1]
                            &&& exists|n: &str, p: &Property|
                                n@ == properties@.entries[i].0 && p@ == properties@.entries[i].1
                                    && call_ensures(Self::visit_property, (refs[i], n, p), ())
                        }
                },
    {
        let ghost entries = properties@.entries;
        let ghost mut states: Seq<Self> = seq![*self];
        proof {
            let none = Seq::<&mut Self>::empty();
            assert(none.len() == 0);
        }
        let n = properties.len();
        let mut i: usize = 0;
        while i < n
            invariant
                i <= n,
                n == entries.len(),
                entries == properties@.entries,
                states.len() == i + 1,
                states[0] == *old(self),
                states.last() == *self,
                exists|refs: Seq<&mut Self>|
                    #[trigger] refs.len() == i && forall|k: int|
                        0 <= k < i ==> {
                            &&& mut_ref_current(#[trigger] refs[k]) == states[k]
                            &&& mut_ref_future(refs[k]) == states[k + 1]
                            &&& exists|nm: &str, p: &Property|
                                nm@ == entries[k].0 && p@ == entries[k].1
                                    && call_ensures(Self::visit_property, (refs[k], nm, p), ())
                        },
            decreases n - i,
        {
            let (name, property) = properties.entry_at(i);
            let nstr = name.as_str();
            let ghost before = *self;
            self.visit_property(nstr, property);
            proof {
                let r = choose|r: &mut Self|
                    mut_ref_current(r) == before && mut_ref_future(r) == *self && call_ensures(
                        Self::visit_property,
                        (r, nstr, property),
                        (),
                    );
                let old_refs = choose|refs: Seq<&mut Self>|
                    refs.len() == i && forall|k: int|
                        0 <= k < i ==> {
                            &&& mut_ref_current(#[trigger] refs[k]) == states[k]
                            &&& mut_ref_future(refs[k]) == states[k + 1]
                            &&& exists|nm: &str, p: &Property|
                                nm@ == entries[k].0 && p@ == entries[k].1
                                    && call_ensures(Self::visit_property, (refs[k], nm, p), ())
                        };
                let old_states = states;
                states = states.push(*self);
                let refs = old_refs.push(r);
                assert(refs.len() == old_refs.len() + 1);
                assert forall|k: int|
                    0 <= k < i + 1 implies {
                        &&& mut_ref_current(#[trigger] refs[k]) == states[k]
                        &&& mut_ref_future(refs[k]) == states[k + 1]
                        &&& exists|nm: &str, p: &Property|
                            nm@ == entries[k].0 && p@ == entries[k].1
                                && call_ensures(Self::visit_property, (refs[k], nm, p), ())
                    } by {
                    if k < i {
                        assert(refs[k] == old_refs[k]);
                        assert(states[k] == old_states[k] && states[k + 1] == old_states[k + 1]);
                    } else {
                        assert(refs[k] == r);
                        assert(nstr@ == entries[k].0);
                    }
                }
            }
            i = i + 1;
        }
    }

    /// Visits a property: its name, then its value, its list of values, its
    /// read-only property map, or its emptiness.
    fn visit_property(&mut self, name: &str, property: &Property)
        default_ensures
            exists|first: &mut Self, second: &mut Self|
                {
                    &&& mut_ref_current(first) == *old(self)
                    &&& mut_ref_future(first) == mut_ref_current(second)
                    &&& mut_ref_future(second) == *final(self)
                    &&& call_ensures(Self::visit_property_name, (first, name), ())
                    &&& match *property {
                        Property::Single(value) => call_ensures(Self::visit_value, (second, name, None::<usize>, &value), ()),
                        Property::List(values) => call_ensures(Self::visit_list, (second, name, &values), ()),
                        Property::Properties(properties) => call_ensures(Self::visit_readonly, (second, properties), ()),
                        Property::Empty => call_ensures(Self::visit_empty, (second, name), ()),
                    }
                },
    {
        self.visit_property_name(name);
        match property {
            Property::Single(value) => self.visit_value(name, None, value),
            Property::List(values) => self.visit_list(name, values),
            Property::Properties(properties) => self.visit_readonly(properties.clone()),
            Property::Empty => self.visit_empty(name),
        }
    }
}

/// A property name, with the position of a value in a list.
pub struct NameIndex<'a>(pub &'a str, pub Option<usize>);

/// Calls a visitor's API on data in a context `T`.
pub trait Visit<T> {
    /// Calls the visitor's methods on `self` in `context`.
    fn visit<V: Visitor>(&self, context: T, visitor: &mut V) -> Result<(), Error>;
}

impl Visit<()> for () {
    fn visit<V: Visitor>(&self, context: (), visitor: &mut V) -> (r: Result<(), Error>)
        ensures
            r is Ok,
    {
        Ok(())
    }
}

impl Visit<()> for Properties {
    /// Visits each property of the map, in name order.
    fn visit<V: Visitor>(&self, context: (), visitor: &mut V) -> (r: Result<(), Error>)
        ensures
            r is Ok,
            exists|states: Seq<V>, refs: Seq<&mut V>|
                {
                    &&& states.len() == self@.entries.len() + 1
                    &&& refs.len() == self@.entries.len()
                    &&& states[0] == *old(visitor)
                    &&& states.last() == *final(visitor)
                    &&& forall|i: int|
                        0 <= i < refs.len() ==> {
                            &&& mut_ref_current(#[trigger] refs[i]) == states[i]
                            &&& mut_ref_future(refs[i]) == states[i + 1]
                            &&& exists|nm: &str, p: &Property|
                                nm@ == self@.entries[i].0 && p@ == self@.entries[i].1
                                    && call_ensures(V::visit_property, (refs[i], nm, p), ())
                        }
                },
    {
        let ghost entries = self@.entries;
        let ghost mut states: Seq<V> = seq![*visitor];
        proof {
            let none = Seq::<&mut V>::empty();
            assert(none.len() == 0);
        }
        let n = self.len();
        let mut i: usize = 0;
        while i < n
            invariant
                i <= n,
                n == entries.len(),
                entries == self@.entries,
                states.len() == i + 1,
                states[0] == *old(visitor),
                states.last() == *visitor,
                exists|refs: Seq<&mut V>|
                    #[trigger] refs.len() == i && forall|k: int|
                        0 <= k < i ==> {
                            &&& mut_ref_current(#[trigger] refs[k]) == states[k]
                            &&& mut_ref_future(refs[k]) == states[k + 1]
                            &&& exists|nm: &str, p: &Property|
                                nm@ == entries[k].0 && p@ == entries[k].1
                                    && call_ensures(V::visit_property, (refs[k], nm, p), ())
                        },
            decreases n - i,
        {
            let (name, property) = self.entry_at(i);
            let nstr = name.as_str();
            let ghost before = *visitor;
            visitor.visit_property(nstr, property);
            proof {
                let r = choose|r: &mut V|
                    mut_ref_current(r) == before && mut_ref_future(r) == *visitor && call_ensures(
                        V::visit_property,
                        (r, nstr, property),
                        (),
                    );
                let old_refs = choose|refs: Seq<&mut V>|
                    refs.len() == i && forall|k: int|
                        0 <= k < i ==> {
                            &&& mut_ref_current(#[trigger] refs[k]) == states[k]
                            &&& mut_ref_future(refs[k]) == states[k + 1]
                            &&& exists|nm: &str, p: &Property|
                                nm@ == entries[k].0 && p@ == entries[k].1
                                    && call_ensures(V::visit_property, (refs[k], nm, p), ())
                        };
                let old_states = states;
                states = states.push(*visitor);
                let refs = old_refs.push(r);
                assert(refs.len() == old_refs.len() + 1);
                assert forall|k: int|
                    0 <= k < i + 1 implies {
                        &&& mut_ref_current(#[trigger] refs[k]) == states[k]
                        &&& mut_ref_future(refs[k]) == states[k + 1]
                        &&& exists|nm: &str, p: &Property|
                                nm@ == entries[k].0 && p@ == entries[k].1
                                    && call_ensures(V::visit_property, (refs[k], nm, p), ())
                    } by {
                    if k < i {
                        assert(refs[k] == old_refs[k]);
                        assert(states[k] == old_states[k] && states[k + 1] == old_states[k + 1]);
                    } else {
                        assert(refs[k] == r);
                        assert(nstr@ == entries[k].0);
                    }
                }
            }
            i = i + 1;
        }
        Ok(())
    }
}

impl<'a> Visit<&'a str> for Property {
    /// Visits the property under `name`, once.
    fn visit<V: Visitor>(&self, name: &'a str, visitor: &mut V) -> (r: Result<(), Error>)
        ensures
            r is Ok,
            exists|v: &mut V|
                mut_ref_current(v) == *old(visitor) && mut_ref_future(v) == *final(visitor)
                    && call_ensures(V::visit_property, (v, name, self), ()),
    {
        visitor.visit_property(name, self);
        Ok(())
    }
}

impl<'a> Visit<NameIndex<'a>> for String {
    /// Visits the string as a symbol under the name and position of
    /// `context`, once.
    fn visit<V: Visitor>(&self, context: NameIndex<'a>, visitor: &mut V) -> (r: Result<(), Error>)
        ensures
            r is Ok,
            exists|v: &mut V|
                mut_ref_current(v) == *old(visitor) && mut_ref_future(v) == *final(visitor)
                    && call_ensures(V::visit_symbol, (v, context.0, context.1, self), ()),
    {
        visitor.visit_symbol(context.0, context.1, self);
        Ok(())
    }
}

impl<'a> Visit<&'a str> for String {
    /// Visits the string as a symbol under `name`, without a position, once.
    fn visit<V: Visitor>(&self, name: &'a str, visitor: &mut V) -> (r: Result<(), Error>)
        ensures
            r is Ok,
            exists|v: &mut V|
                mut_ref_current(v) == *old(visitor) && mut_ref_future(v) == *final(visitor)
                    && call_ensures(V::visit_symbol, (v, name, None::<usize>, self), ()),
    {
        visitor.visit_symbol(name, None, self);
        Ok(())
    }
}

impl<'a> Visit<NameIndex<'a>> for Value {
    /// Visits the value under the name and position of `context`, once.
    fn visit<V: Visitor>(&self, context: NameIndex<'a>, visitor: &mut V) -> (r: Result<(), Error>)
        ensures
            r is Ok,
            exists|v: &mut V|
                mut_ref_current(v) == *old(visitor) && mut_ref_future(v) == *final(visitor)
                    && call_ensures(V::visit_value, (v, context.0, context.1, self), ()),
    {
        visitor.visit_value(context.0, context.1, self);
        Ok(())
    }
}

impl<'a> Visit<&'a str> for Value {
    /// Visits the value under `name`, without a position, once.
    fn visit<V: Visitor>(&self, name: &'a str, visitor: &mut V) -> (r: Result<(), Error>)
        ensures
            r is Ok,
            exists|v: &mut V|
                mut_ref_current(v) == *old(visitor) && mut_ref_future(v) == *final(visitor)
                    && call_ensures(V::visit_value, (v, name, None::<usize>, self), ()),
    {
        visitor.visit_value(name, None, self);
        Ok(())
    }
}

impl Visitor for Option<String> {
    /// Keeps the symbol.
    fn visit_symbol(&mut self, name: &str, idx: Option<usize>, symbol: &String)
        ensures
            *final(self) matches Some(s) && s@ == symbol@,
    {
        *self = Some(symbol.clone());
    }

    /// Keeps the text.
    fn visit_text_buffer(&mut self, name: &str, idx: Option<usize>, text_buffer: &String)
        ensures
            *final(self) matches Some(s) && s@ == text_buffer@,
    {
        *self = Some(text_buffer.clone());
    }
}

impl Visitor for String {
    /// Keeps the symbol.
    fn visit_symbol(&mut self, name: &str, idx: Option<usize>, symbol: &String)
        ensures
            final(self)@ == symbol@,
    {
        *self = symbol.clone();
    }

    /// Keeps the text.
    fn visit_text_buffer(&mut self, name: &str, idx: Option<usize>, text_buffer: &String)
        ensures
            final(self)@ == text_buffer@,
    {
        *self = text_buffer.clone();
    }
}

impl Visitor for bool {
    /// Keeps the bool.
    fn visit_bool(&mut self, name: &str, idx: Option<usize>, b: bool)
        ensures
            *final(self) == b,
    {
        *self = b;
    }
}

impl Visitor for usize {
    /// Keeps the integer where it is not negative.
    fn visit_int(&mut self, name: &str, idx: Option<usize>, i: i32)
        ensures
            *final(self) == if i >= 0 {
                i as usize
            } else {
                *old(self)
            },
    {
        if i >= 0 {
            *self = i as usize;
        }
    }
}

impl Visitor for i32 {
    /// Keeps the integer.
    fn visit_int(&mut self, name: &str, idx: Option<usize>, i: i32)
        ensures
            *final(self) == i,
    {
        *self = i;
    }
}

impl Visitor for u32 {
    /// Keeps the integer where it is not negative.
    fn visit_int(&mut self, name: &str, idx: Option<usize>, i: i32)
        ensures
            *final(self) == if i >= 0 {
                i as u32
            } else {
                *old(self)
            },
    {
        if i >= 0 {
            *self = i as u32;
        }
    }
}

impl Visitor for u64 {
    /// Keeps the reference.
    fn visit_reference(&mut self, name: &str, idx: Option<usize>, reference: u64)
        ensures
            *final(self) == reference,
    {
        *self = reference;
    }

    /// Keeps the memory of the pair read as a `u64` (platform byte order).
    fn visit_int_pair(&mut self, name: &str, idx: Option<usize>, pair: &[i32; 2])
        ensures
            *final(self) == pair_bits(pair[0], pair[1]),
    {
        *self = cast_pair(*pair);
    }
}

impl Visitor for i64 {
    /// Keeps the memory of the pair read as an `i64` (platform byte order).
    fn visit_int_pair(&mut self, name: &str, idx: Option<usize>, pair: &[i32; 2])
        ensures
            *final(self) == pair_bits(pair[0], pair[1]) as i64,
    {
        let bits = cast_pair(*pair);
        *self = {
            #[verifier::truncate]
            (bits as i64)
        };
    }
}

impl Visitor for SymbolSet {
    /// Keeps the complex.
    fn visit_complex(&mut self, name: &str, idx: Option<usize>, complex: &SymbolSet)
        ensures
            final(self)@ == complex@,
    {
        *self = complex.clone();
    }
}

impl Visitor for Properties {
    /// Adds the visited map read-only, under its owner's name.
    fn visit_properties(&mut self, properties: &Properties)
        ensures
            final(self)@.owner == old(self)@.owner,
            final(self)@.map() == old(self)@.map().insert(
                properties@.owner.0,
                PropertyModel::Properties(properties@),
            ),
    {
        self.add_readonly_properties(properties);
    }
}

impl Visitor for Vec<u8> {
    /// Copies the binary value where it has the length of this buffer.
    fn visit_binary(&mut self, name: &str, idx: Option<usize>, binary: &Vec<u8>)
        ensures
            final(self)@ == if old(self)@.len() == binary@.len() {
                binary@
            } else {
                old(self)@
            },
    {
        if self.len() == binary.len() {
            let mut i: usize = 0;
            while i < self.len()
                invariant
                    self@.len() == binary@.len(),
                    i <= self@.len(),
                    forall|k: int| 0 <= k < i ==> self@[k] == binary@[k],
                decreases self@.len() - i,
            {
                self.set(i, binary[i]);
                i = i + 1;
            }
            assert(self@ =~= binary@);
        }
    }

    /// Copies the UTF-8 bytes of the text where they have the length of
    /// this buffer.
    fn visit_text_buffer(&mut self, name: &str, idx: Option<usize>, text_buffer: &String)
        ensures
            final(self)@ == if old(self)@.len() == vstd::utf8::encode_utf8(text_buffer@).len() {
                vstd::utf8::encode_utf8(text_buffer@)
            } else {
                old(self)@
            },
    {
        let bytes = text_buffer.as_str().as_bytes();
        if self.len() == bytes.len() {
            let mut i: usize = 0;
            while i < self.len()
                invariant
                    self@.len() == bytes@.len(),
                    i <= self@.len(),
                    forall|k: int| 0 <= k < i ==> self@[k] == bytes@[k],
                decreases self@.len() - i,
            {
                self.set(i, bytes[i]);
                i = i + 1;
            }
            assert(self@ =~= bytes@);
        }
    }
}

impl Visitor for Result<usize, Error> {
    /// Keeps the integer where it is not negative; a negative one is an
    /// error.
    fn visit_int(&mut self, name: &str, idx: Option<usize>, i: i32)
        ensures
            i >= 0 ==> *final(self) == Ok::<usize, Error>(i as usize),
            i < 0 ==> (*final(self) matches Err(e) && e.message@ == signed_message()),
    {
        if i >= 0 {
            *self = Ok(i as usize);
        } else {
            *self = Err(Error::new("Current value is signed (negative) and cannot be converted"));
        }
    }
}

impl Visitor for Result<u32, Error> {
    /// Keeps the integer where it is not negative; a negative one is an
    /// error.
    fn visit_int(&mut self, name: &str, idx: Option<usize>, i: i32)
        ensures
            i >= 0 ==> *final(self) == Ok::<u32, Error>(i as u32),
            i < 0 ==> (*final(self) matches Err(e) && e.message@ == signed_message()),
    {
        if i >= 0 {
            *self = Ok(i as u32);
        } else {
            *self = Err(Error::new("Current value is signed (negative) and cannot be converted"));
        }
    }
}

impl Visitor for Result<i64, Error> {
    /// Keeps the integer.
    fn visit_int(&mut self, name: &str, idx: Option<usize>, i: i32)
        ensures
            *final(self) == Ok::<i64, Error>(i as i64),
    {
        *self = Ok(i as i64);
    }

    /// Keeps the memory of the pair read as an `i64` (platform byte order).
    fn visit_int_pair(&mut self, name: &str, idx: Option<usize>, pair: &[i32; 2])
        ensures
            *final(self) == Ok::<i64, Error>(pair_bits(pair[0], pair[1]) as i64),
    {
        let bits = cast_pair(*pair);
        let signed: i64 = {
            #[verifier::truncate]
            (bits as i64)
        };
        *self = Ok(signed);
    }
}

impl Visitor for Interner {
    /// Interns the property name.
    fn visit_property_name(&mut self, name: &str)
        ensures
            final(self)@.0 == old(self)@.0.insert(crate::hashing::spec_symbol_key(name@), name@),
            final(self)@.1 == old(self)@.1,
    {
        let _ = self.add_symbol(name);
    }

    /// Interns the symbol.
    fn visit_symbol(&mut self, name: &str, idx: Option<usize>, symbol: &String)
        ensures
            final(self)@.0 == old(self)@.0.insert(crate::hashing::spec_symbol_key(symbol@), symbol@),
            final(self)@.1 == old(self)@.1,
    {
        let _ = self.add_symbol(symbol.as_str());
    }

    /// Merges in the interner of the read-only map: its names and symbols,
    /// also those of maps nested in it, and the empty symbol.
    fn visit_readonly(&mut self, properties: Arc<Properties>)
        ensures
            exists|n: SymbolMap|
                {
                    &&& interns_all(n, properties_strings(properties@.entries))
                    &&& interns_only(n, properties_strings(properties@.entries))
                    &&& final(self)@.0 == old(self)@.0.union_prefer_right(n)
                },
            final(self)@.1 == old(self)@.1,
    {
        let nested = Interner::from_properties(&*properties);
        let merged = self.merge(&nested);
        proof {
            assert(merged@.1 =~= old(self)@.1);
        }
        *self = merged;
    }
}

} // verus!
