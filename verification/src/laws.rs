use vstd::prelude::*;

use crate::action::{ActionModel, RootModel};
use crate::block::{block_after, BlockModel, Keywords};
use crate::display::{digit_char, list_text, nat_text, property_text, value_text};
use crate::text::{decimal_value, is_digit, is_numeral, spec_parse_bool, spec_parse_i32};
use crate::hashing::{int_bytes, set_hash_writes, str_hash_writes, strs_hash_writes, value_hash_writes};
use crate::properties::{floats_of, ints_of, resolve, symbols_of, texts_of};
use crate::hashing::spec_set_key;
use crate::hashing::spec_symbol_key;
use crate::hashing::spec_value_key;
use crate::interner::interns_all;
use crate::interner::interns_only;
use crate::interner::ComplexMap;
use crate::interner::SymbolMap;
use crate::links::{incoming_of, outgoing_of, Entity, Link};
use crate::order::lemma_str_lt_asymmetric;
use crate::order::lemma_str_lt_irreflexive;
use crate::order::lemma_str_lt_total;
use crate::order::str_lt;
use crate::document::{exported, exports_as, ExportModel};
use crate::properties::add_result;
use crate::properties::{find_name, names_in_order};
use crate::properties::PropertiesModel;
use crate::properties::PropertyModel;
use crate::symbol_set::in_set_order;
use crate::symbol_set::SymbolSet;
use crate::routes::FieldRef;
use crate::text::{is_white_space, spec_trim, strip_end, strip_start, trim_end, trim_start};
use crate::toml_doc::{is_table_shape, with_table, TomlShape};
use crate::toml_value::{
    complex_marker, complex_table, data_key, find_key, is_item_for, is_string_item, keys_of,
    lemma_complex_table_keys, lemma_find_key, model_keys, reads_as, set_members,
    spec_value_from_toml, src_key, str_entry, type_key, TomlItem, TomlValue, toml_keeps,
    adds_of, read_entries,
};
use crate::value::Value;
use crate::value::ValueModel;

verus! {

/// A symbol that was added is found again under the key that `symbol`
/// returns for it, whatever the interner held before.
pub proof fn law_added_symbol_is_found(symbols: SymbolMap, s: Seq<char>)
    ensures
        symbols.insert(spec_symbol_key(s), s).contains_key(spec_symbol_key(s)),
        symbols.insert(spec_symbol_key(s), s)[spec_symbol_key(s)] == s,
{
}

/// Adding a symbol twice leaves the interner as adding it once.
pub proof fn law_add_symbol_idempotent(symbols: SymbolMap, s: Seq<char>)
    ensures
        symbols.insert(spec_symbol_key(s), s).insert(spec_symbol_key(s), s) == symbols.insert(
            spec_symbol_key(s),
            s,
        ),
{
    assert(symbols.insert(spec_symbol_key(s), s).insert(spec_symbol_key(s), s) =~= symbols.insert(
        spec_symbol_key(s),
        s,
    ));
}

/// The key of a symbol is the reference key of the symbol value and of a
/// text buffer with the same text, on every platform.
pub proof fn law_symbol_key_is_reference_key(text: String, le: bool)
    ensures
        spec_value_key(Value::Symbol(text), le) == spec_symbol_key(text@),
        spec_value_key(Value::TextBuffer(text), le) == spec_symbol_key(text@),
{
}

/// A reference value is its own key.
pub proof fn law_reference_is_own_key(r: u64, le: bool)
    ensures
        spec_value_key(Value::Reference(r), le) == r,
{
}

/// Merging an interner into itself changes nothing.
pub proof fn law_merge_idempotent(symbols: SymbolMap, complexes: ComplexMap)
    ensures
        symbols.union_prefer_right(symbols) == symbols,
        complexes.union_prefer_right(complexes) == complexes,
{
    assert(symbols.union_prefer_right(symbols) =~= symbols);
    assert(complexes.union_prefer_right(complexes) =~= complexes);
}

/// Merging with an empty interner, on either side, changes nothing.
pub proof fn law_merge_empty(symbols: SymbolMap, complexes: ComplexMap)
    ensures
        symbols.union_prefer_right(SymbolMap::empty()) == symbols,
        SymbolMap::empty().union_prefer_right(symbols) == symbols,
        complexes.union_prefer_right(ComplexMap::empty()) == complexes,
        ComplexMap::empty().union_prefer_right(complexes) == complexes,
{
    assert(symbols.union_prefer_right(SymbolMap::empty()) =~= symbols);
    assert(SymbolMap::empty().union_prefer_right(symbols) =~= symbols);
    assert(complexes.union_prefer_right(ComplexMap::empty()) =~= complexes);
    assert(ComplexMap::empty().union_prefer_right(complexes) =~= complexes);
}

/// Merging interners is associative.
pub proof fn law_merge_associative(a: SymbolMap, b: SymbolMap, c: SymbolMap)
    ensures
        a.union_prefer_right(b).union_prefer_right(c) == a.union_prefer_right(
            b.union_prefer_right(c),
        ),
{
    assert(a.union_prefer_right(b).union_prefer_right(c) =~= a.union_prefer_right(
        b.union_prefer_right(c),
    ));
}

/// Merging keeps every symbol of both interners; a symbol of the second
/// interner wins over one of the first under the same key.
pub proof fn law_merge_keeps_symbols(a: SymbolMap, b: SymbolMap, k: u64)
    ensures
        a.union_prefer_right(b).contains_key(k) <==> (a.contains_key(k) || b.contains_key(k)),
        b.contains_key(k) ==> a.union_prefer_right(b)[k] == b[k],
        a.contains_key(k) && !b.contains_key(k) ==> a.union_prefer_right(b)[k] == a[k],
{
}

/// Interners that hold only strings of a set under their own keys merge
/// into one that does too, and it holds every string that either held.
pub proof fn law_merge_preserves_interning(
    a: SymbolMap,
    b: SymbolMap,
    strings: Set<Seq<char>>,
    sa: Set<Seq<char>>,
    sb: Set<Seq<char>>,
)
    requires
        interns_only(a, strings),
        interns_only(b, strings),
        interns_all(a, sa),
        interns_all(b, sb),
    ensures
        interns_only(a.union_prefer_right(b), strings),
        interns_all(a.union_prefer_right(b), sa.union(sb)),
{
}

/// Strings in set order are determined by their set: two sequences in set
/// order with the same members are equal.
pub proof fn law_set_order_unique(a: Seq<Seq<char>>, b: Seq<Seq<char>>)
    requires
        in_set_order(a),
        in_set_order(b),
        a.to_set() == b.to_set(),
    ensures
        a == b,
    decreases a.len(),
{
    if a.len() == 0 {
        if b.len() > 0 {
            assert(b.to_set().contains(b[0]));
        }
    } else if b.len() == 0 {
        assert(a.to_set().contains(a[0]));
    } else {
        // The first members are the least of the set, so they agree.
        let x = a[0];
        let y = b[0];
        assert(a.to_set().contains(x));
        assert(b.to_set().contains(y));
        let jb = choose|j: int| 0 <= j < b.len() && b[j] == x;
        let ja = choose|j: int| 0 <= j < a.len() && a[j] == y;
        if x != y {
            if !str_lt(x, y) && !str_lt(y, x) {
                lemma_str_lt_total(x, y);
            }
            if str_lt(x, y) {
                assert(jb > 0);
                assert(str_lt(y, x));
                lemma_str_lt_asymmetric(x, y);
            } else {
                assert(ja > 0);
                assert(str_lt(x, y));
                lemma_str_lt_asymmetric(y, x);
            }
        }
        let ra = a.drop_first();
        let rb = b.drop_first();
        assert forall|s: Seq<char>| ra.to_set().contains(s) <==> rb.to_set().contains(s) by {
            if ra.to_set().contains(s) {
                let i = choose|i: int| 0 <= i < ra.len() && ra[i] == s;
                assert(a[i + 1] == s);
                assert(str_lt(x, s));
                assert(b.to_set().contains(s));
                let j = choose|j: int| 0 <= j < b.len() && b[j] == s;
                if j == 0 {
                    lemma_str_lt_irreflexive(x);
                }
                assert(rb[j - 1] == s);
            }
            if rb.to_set().contains(s) {
                let i = choose|i: int| 0 <= i < rb.len() && rb[i] == s;
                assert(b[i + 1] == s);
                assert(str_lt(y, s));
                assert(a.to_set().contains(s));
                let j = choose|j: int| 0 <= j < a.len() && a[j] == s;
                if j == 0 {
                    lemma_str_lt_irreflexive(y);
                }
                assert(ra[j - 1] == s);
            }
        }
        assert(ra.to_set() =~= rb.to_set());
        law_set_order_unique(ra, rb);
        assert(a.len() == b.len());
        assert forall|i: int| 0 <= i < a.len() implies a[i] == b[i] by {
            if i > 0 {
                assert(a[i] == ra[i - 1]);
                assert(b[i] == rb[i - 1]);
            }
        }
        assert(a =~= b);
    }
}

/// A complex's key depends on its members only, not on the order or the
/// repetition in which they were listed.
pub proof fn law_set_key_by_members(a: Seq<Seq<char>>, b: Seq<Seq<char>>, le: bool)
    requires
        in_set_order(a),
        in_set_order(b),
        a.to_set() == b.to_set(),
    ensures
        spec_set_key(a, le) == spec_set_key(b, le),
{
    law_set_order_unique(a, b);
}

/// The key under which a complex is interned is the reference key of the
/// complex value holding the same set.
pub proof fn law_complex_key_is_reference_key(set: SymbolSet, le: bool)
    ensures
        spec_value_key(Value::Complex(set), le) == spec_set_key(set@, le),
{
}

/// What is written through the route of a field (`route_mut`, whose
/// contract gives the routes after the edit as `inner.update(offset, ..)`)
/// is what the route of that field (`route`) then reads; the route of every
/// other field reads what it read before.
pub proof fn law_route_reads_back_edit(inner: Seq<FieldRef>, offset: int, edited: FieldRef)
    requires
        0 <= offset < inner.len(),
    ensures
        inner.update(offset, edited)[offset] == edited,
        forall|i: int|
            0 <= i < inner.len() && i != offset ==> inner.update(offset, edited)[i] == inner[i],
{
}

/// Making sure that a key of a loaded document holds a table changes no
/// other item, and leaves a table that is already there as it was, its
/// content included.
pub proof fn law_loading_keeps_items(t: Seq<(Seq<char>, TomlShape)>, key: Seq<char>, i: int)
    requires
        0 <= i < t.len(),
        t[i].0 != key || is_table_shape(t[i].1),
    ensures
        with_table(t, key)[i] == t[i],
{
    let keys = model_keys(t);
    lemma_find_key(keys, key);
    assert(keys[i] == t[i].0);
    let j = find_key(keys, key);
    if j >= 0 && t[i].0 == key {
        assert(keys[j] == key);
        if j < i {
            assert(t[j].0 == key);
        }
        assert(j <= i);
        if j != i {
            assert(keys[j] == key && keys[i] == key);
        }
    }
}

/// A symbol written to TOML reads back as the same symbol wherever the
/// string it is written as is rendered as its text in double quotes (as a
/// basic TOML string of letters and digits is) and the text neither starts
/// nor ends with a double quote.
pub proof fn law_toml_symbol_round_trip(item: TomlItem, read: TomlValue, s: Seq<char>)
    requires
        is_item_for(item, ValueModel::Symbol(s)),
        reads_as(item, read),
        s.len() > 0,
        s[0] != '"',
        s.last() != '"',
        read matches TomlValue::String { content, rendered } && rendered@ == seq!['"'] + content@ + seq!['"'],
    ensures
        spec_value_from_toml(read) == Some(ValueModel::Symbol(s)),
{
    let r = read->rendered@;
    let q = '"';
    assert(r.len() == s.len() + 2);
    assert(r[0] == q);
    assert(r.last() == q);
    assert(!is_white_space(q));
    assert(trim_start(r) == r);
    assert(trim_end(r) == r);
    assert(spec_trim(r) == r);
    let tail = r.drop_first();
    assert(tail =~= s + seq![q]);
    assert(strip_start(r, q) == strip_start(tail, q));
    assert(tail[0] == s[0]);
    assert(strip_start(tail, q) == tail);
    assert(tail.drop_last() =~= s);
    assert(strip_end(tail, q) == strip_end(s, q));
    assert(strip_end(s, q) == s);
}

/// Adding a value under a name that holds a list appends the value to the
/// list, whatever its length: the values before stay as they were, in
/// order, and the new value comes last.
pub proof fn law_add_appends_to_any_list(l: Seq<ValueModel>, v: ValueModel)
    ensures
        add_result(Some(PropertyModel::List(l)), v) matches PropertyModel::List(m) && m.len() == l.len() + 1
            && m.take(l.len() as int) == l && m[l.len() as int] == v,
{
    if let PropertyModel::List(m) = add_result(Some(PropertyModel::List(l)), v) {
        assert(m.take(l.len() as int) =~= l);
    }
}

/// The readers of a list property keep every value of their kind, in
/// order: a value of the kind that is appended to the list is appended to
/// what the reader gives, a value of another kind changes nothing.
pub proof fn law_list_readers_keep_every_value(l: Seq<ValueModel>, v: ValueModel)
    ensures
        floats_of(l.push(v)) == if let ValueModel::Float(f) = v {
            floats_of(l).push(f)
        } else {
            floats_of(l)
        },
        ints_of(l.push(v)) == if let ValueModel::Int(i) = v {
            ints_of(l).push(i)
        } else {
            ints_of(l)
        },
        symbols_of(l.push(v)) == if let ValueModel::Symbol(t) = v {
            symbols_of(l).push(t)
        } else {
            symbols_of(l)
        },
        texts_of(l.push(v)) == if let ValueModel::TextBuffer(t) = v {
            texts_of(l).push(t)
        } else {
            texts_of(l)
        },
        floats_of(Seq::empty()).len() == 0,
        ints_of(Seq::empty()).len() == 0,
        symbols_of(Seq::empty()).len() == 0,
        texts_of(Seq::empty()).len() == 0,
{
    assert(l.push(v).drop_last() =~= l);
}

/// A define packet with actions, on a block that has roots, adds its
/// actions after those of the last root, and an extension packet adds the
/// extension there; every other root, the block's identifier and its
/// initializing actions stay as they were.
pub proof fn law_packets_extend_the_last_root(
    b: BlockModel,
    ident: (Seq<char>, Seq<char>),
    actions: Seq<ActionModel>,
)
    requires
        b.roots.len() > 0,
        actions.len() > 0,
    ensures
        ({
            let n = b.roots.len() as int;
            let d = block_after(b, Keywords::Define, ident, actions);
            &&& d.ident == b.ident
            &&& d.initialize == b.initialize
            &&& d.roots.len() == n
            &&& forall|i: int| 0 <= i < n - 1 ==> d.roots[i] == b.roots[i]
            &&& d.roots[n - 1].ident == b.roots[n - 1].ident
            &&& d.roots[n - 1].value == b.roots[n - 1].value
            &&& d.roots[n - 1].actions.len() == b.roots[n - 1].actions.len() + actions.len()
            &&& d.roots[n - 1].actions.take(b.roots[n - 1].actions.len() as int) == b.roots[n - 1].actions
            &&& d.roots[n - 1].actions.skip(b.roots[n - 1].actions.len() as int) == actions
        }),
        ({
            let n = b.roots.len() as int;
            let e = block_after(b, Keywords::Extension, ident, actions);
            &&& e.ident == b.ident
            &&& e.initialize == b.initialize
            &&& e.roots.len() == n
            &&& forall|i: int| 0 <= i < n - 1 ==> e.roots[i] == b.roots[i]
            &&& e.roots[n - 1].ident == b.roots[n - 1].ident
            &&& e.roots[n - 1].value == b.roots[n - 1].value
            &&& e.roots[n - 1].actions.len() == b.roots[n - 1].actions.len() + 1
            &&& e.roots[n - 1].actions.take(b.roots[n - 1].actions.len() as int) == b.roots[n - 1].actions
            &&& e.roots[n - 1].actions[b.roots[n - 1].actions.len() as int] == ActionModel::Extend(ident)
        }),
{
    let n = b.roots.len() as int;
    let last = b.roots[n - 1].actions;
    let d = block_after(b, Keywords::Define, ident, actions);
    assert(d.roots[n - 1].actions =~= last + actions);
    assert((last + actions).take(last.len() as int) =~= last);
    assert((last + actions).skip(last.len() as int) =~= actions);
    let e = block_after(b, Keywords::Extension, ident, actions);
    assert(e.roots[n - 1].actions =~= last + seq![ActionModel::Extend(ident)]);
    assert((last + seq![ActionModel::Extend(ident)]).take(last.len() as int) =~= last);
}

/// An add packet whose first action sets a value appends a new root with
/// the packet's identifier, that value and no actions, after the roots
/// that were there; a define packet with actions on a block without roots
/// adds its actions after the block's initializing actions.
pub proof fn law_add_and_first_define(
    b: BlockModel,
    ident: (Seq<char>, Seq<char>),
    name: Seq<char>,
    value: ValueModel,
    actions: Seq<ActionModel>,
)
    ensures
        ({
            let a = block_after(b, Keywords::Add, ident, seq![ActionModel::With(name, value)] + actions);
            &&& a.ident == b.ident
            &&& a.initialize == b.initialize
            &&& a.roots.len() == b.roots.len() + 1
            &&& forall|i: int| 0 <= i < b.roots.len() ==> a.roots[i] == b.roots[i]
            &&& a.roots[b.roots.len() as int].ident == ident
            &&& a.roots[b.roots.len() as int].value == value
            &&& a.roots[b.roots.len() as int].actions.len() == 0
        }),
        (b.roots.len() == 0 && actions.len() > 0) ==> ({
            let d = block_after(b, Keywords::Define, ident, actions);
            &&& d.ident == b.ident
            &&& d.roots.len() == 0
            &&& d.initialize.len() == b.initialize.len() + actions.len()
            &&& d.initialize.take(b.initialize.len() as int) == b.initialize
            &&& d.initialize.skip(b.initialize.len() as int) == actions
        }),
{
    let all = seq![ActionModel::With(name, value)] + actions;
    assert(all[0] == ActionModel::With(name, value));
    if b.roots.len() == 0 && actions.len() > 0 {
        assert((b.initialize + actions).take(b.initialize.len() as int) =~= b.initialize);
        assert((b.initialize + actions).skip(b.initialize.len() as int) =~= actions);
    }
}

/// A text buffer and a symbol are displayed as their text, nothing added;
/// a single property as its value; a list as its values one after another,
/// each followed by `, `.
pub proof fn law_display_shows_the_text(t: Seq<char>, l: Seq<ValueModel>, v: ValueModel)
    ensures
        value_text(ValueModel::TextBuffer(t)) == t,
        value_text(ValueModel::Symbol(t)) == t,
        property_text(PropertyModel::Single(v)) == value_text(v),
        list_text(Seq::empty()).len() == 0,
        list_text(l.push(v)) == list_text(l) + value_text(v) + seq![',', ' '],
{
    assert(l.push(v).drop_last() =~= l);
}

/// The decimal numeral of `n` is a numeral, and reads back as `n`.
proof fn lemma_nat_text_reads_back(n: nat)
    ensures
        is_numeral(nat_text(n)),
        decimal_value(nat_text(n)) == n,
    decreases n,
{
    let t = nat_text(n);
    let d = (n % 10) as int;
    assert(digit_char(d) as int == 48 + d);
    assert(n == 10 * (n / 10) + n % 10) by (nonlinear_arith);
    if n < 10 {
        assert(n % 10 == n);
        assert(t.drop_last() =~= Seq::<char>::empty());
        assert(t.last() == digit_char(n as int));
        assert(decimal_value(t.drop_last()) == 0);
        assert('0' as int == 48);
        assert(decimal_value(t) == 10 * decimal_value(t.drop_last()) + (t.last() as int - '0' as int));
    } else {
        lemma_nat_text_reads_back(n / 10);
        let r = nat_text(n / 10);
        assert(t.drop_last() =~= r);
        assert(t.last() == digit_char(d));
        assert('0' as int == 48);
        assert(decimal_value(t) == 10 * decimal_value(t.drop_last()) + (t.last() as int - '0' as int));
        assert(decimal_value(t) == 10 * decimal_value(r) + d);
        assert forall|i: int| 0 <= i < t.len() implies is_digit(#[trigger] t[i]) by {
            if i < r.len() {
                assert(t[i] == r[i]);
            }
        }
    }
}

/// An integer, a reference and the length of a binary vector are
/// displayed as decimal numerals that read back as the number: an integer
/// parses back to itself, as `str::parse` reads it.
pub proof fn law_display_numbers_read_back(i: i32, r: u64, bytes: Seq<u8>)
    ensures
        spec_parse_i32(value_text(ValueModel::Int(i))) == Some(i),
        value_text(ValueModel::Reference(r)).take(4) == seq!['r', 'e', 'f', ':'],
        is_numeral(value_text(ValueModel::Reference(r)).skip(4)),
        decimal_value(value_text(ValueModel::Reference(r)).skip(4)) == r,
{
    let t = value_text(ValueModel::Int(i));
    if i < 0 {
        let n = (-(i as int)) as nat;
        lemma_nat_text_reads_back(n);
        assert(t.drop_first() =~= nat_text(n));
    } else {
        lemma_nat_text_reads_back(i as nat);
        assert(is_digit(t[0]));
    }
    let rt = value_text(ValueModel::Reference(r));
    lemma_nat_text_reads_back(r as nat);
    assert(rt.take(4) =~= seq!['r', 'e', 'f', ':']);
    assert(rt.skip(4) =~= nat_text(r as nat));
}

/// Hashing strings in turn writes two pieces per string.
proof fn lemma_strs_writes_len(s: Seq<Seq<char>>)
    ensures
        strs_hash_writes(s).len() == 2 * s.len(),
    decreases s.len(),
{
    if s.len() > 0 {
        lemma_strs_writes_len(s.drop_last());
    }
}

/// Two sequences of strings are hashed alike only where they are equal.
proof fn lemma_strs_writes_injective(a: Seq<Seq<char>>, b: Seq<Seq<char>>)
    requires
        strs_hash_writes(a) == strs_hash_writes(b),
    ensures
        a == b,
    decreases a.len(),
{
    lemma_strs_writes_len(a);
    lemma_strs_writes_len(b);
    if a.len() > 0 {
        let wa = strs_hash_writes(a);
        let pa = strs_hash_writes(a.drop_last());
        let pb = strs_hash_writes(b.drop_last());
        lemma_strs_writes_len(a.drop_last());
        lemma_strs_writes_len(b.drop_last());
        let la = str_hash_writes(a.last());
        let lb = str_hash_writes(b.last());
        assert(wa == pa + la);
        assert(wa == pb + lb);
        assert(pa =~= wa.take(pa.len() as int));
        assert(pb =~= wa.take(pb.len() as int));
        assert(la =~= wa.skip(pa.len() as int));
        assert(lb =~= wa.skip(pb.len() as int));
        lemma_str_writes_injective(a.last(), b.last());
        lemma_strs_writes_injective(a.drop_last(), b.drop_last());
        assert(a =~= a.drop_last().push(a.last()));
        assert(b =~= b.drop_last().push(b.last()));
    } else {
        assert(b.len() == 0);
        assert(a =~= b);
    }
}

/// The key of a complex is computed from its members, and two member
/// sequences are hashed alike only where they are equal.
pub proof fn law_complex_keys_hash_the_members(a: Seq<Seq<char>>, b: Seq<Seq<char>>, le: bool)
    requires
        set_hash_writes(a, le) == set_hash_writes(b, le),
    ensures
        a == b,
{
    let wa = set_hash_writes(a, le);
    assert(strs_hash_writes(a) =~= wa.skip(1));
    assert(strs_hash_writes(b) =~= wa.skip(1));
    lemma_strs_writes_injective(a, b);
}

/// The readers of a property read a single value, a list or an empty
/// property as it is; only a read-only property map is looked through.
pub proof fn law_plain_properties_are_read_as_they_are(v: ValueModel, l: Seq<ValueModel>)
    ensures
        resolve(PropertyModel::Single(v)) == PropertyModel::Single(v),
        resolve(PropertyModel::List(l)) == PropertyModel::List(l),
        resolve(PropertyModel::Empty) == PropertyModel::Empty,
{
}

/// A pair and a range are displayed as their integers, each displayed as
/// an integer is, between brackets and separated by `, `; a bool is
/// displayed as the text that parses back to it; an empty value as `()`.
pub proof fn law_display_composes(a: i32, b: i32, c: i32, flag: bool)
    ensures
        value_text(ValueModel::IntPair(a, b)) == seq!['['] + value_text(ValueModel::Int(a)) + seq![',', ' ']
            + value_text(ValueModel::Int(b)) + seq![']'],
        value_text(ValueModel::IntRange(a, b, c)) == seq!['['] + value_text(ValueModel::Int(a)) + seq![
            ',',
            ' ',
        ] + value_text(ValueModel::Int(b)) + seq![',', ' '] + value_text(ValueModel::Int(c)) + seq![']'],
        spec_parse_bool(value_text(ValueModel::Bool(flag))) == Some(flag),
        value_text(ValueModel::Empty) == seq!['(', ')'],
{
    if flag {
        assert(value_text(ValueModel::Bool(flag)) =~= seq!['t', 'r', 'u', 'e']);
    } else {
        assert(value_text(ValueModel::Bool(flag)) =~= seq!['f', 'a', 'l', 's', 'e']);
        assert(seq!['f', 'a', 'l', 's', 'e'] != seq!['t', 'r', 'u', 'e']) by {
            assert(seq!['f', 'a', 'l', 's', 'e'].len() != seq!['t', 'r', 'u', 'e'].len());
        }
    }
}

/// Four bytes of an integer below 2^32, in either byte order, give the
/// integer back.
proof fn lemma_four_bytes_injective(x: u64, y: u64, le: bool)
    requires
        x < 0x1_0000_0000,
        y < 0x1_0000_0000,
        int_bytes(x, 4, le) == int_bytes(y, 4, le),
    ensures
        x == y,
{
    let sx = Seq::new(4, |k: int| (x >> ((8 * k) as u64)) as u8);
    let sy = Seq::new(4, |k: int| (y >> ((8 * k) as u64)) as u8);
    if !le {
        assert(sx.reverse().reverse() =~= sx);
        assert(sy.reverse().reverse() =~= sy);
    }
    assert(sx == sy);
    assert(sx[0] == sy[0] && sx[1] == sy[1] && sx[2] == sy[2] && sx[3] == sy[3]);
    assert(((x >> 0u64) as u8 == (y >> 0u64) as u8 && (x >> 8u64) as u8 == (y >> 8u64) as u8
        && (x >> 16u64) as u8 == (y >> 16u64) as u8 && (x >> 24u64) as u8 == (y >> 24u64) as u8
        && x < 0x1_0000_0000u64 && y < 0x1_0000_0000u64) ==> x == y) by (bit_vector);
}

/// Eight bytes of an integer, in either byte order, give the integer back.
proof fn lemma_eight_bytes_injective(x: u64, y: u64, le: bool)
    requires
        int_bytes(x, 8, le) == int_bytes(y, 8, le),
    ensures
        x == y,
{
    let sx = Seq::new(8, |k: int| (x >> ((8 * k) as u64)) as u8);
    let sy = Seq::new(8, |k: int| (y >> ((8 * k) as u64)) as u8);
    if !le {
        assert(sx.reverse().reverse() =~= sx);
        assert(sy.reverse().reverse() =~= sy);
    }
    assert(sx == sy);
    assert(sx[0] == sy[0] && sx[1] == sy[1] && sx[2] == sy[2] && sx[3] == sy[3]);
    assert(sx[4] == sy[4] && sx[5] == sy[5] && sx[6] == sy[6] && sx[7] == sy[7]);
    assert(((x >> 0u64) as u8 == (y >> 0u64) as u8 && (x >> 8u64) as u8 == (y >> 8u64) as u8
        && (x >> 16u64) as u8 == (y >> 16u64) as u8 && (x >> 24u64) as u8 == (y >> 24u64) as u8
        && (x >> 32u64) as u8 == (y >> 32u64) as u8 && (x >> 40u64) as u8 == (y >> 40u64) as u8
        && (x >> 48u64) as u8 == (y >> 48u64) as u8 && (x >> 56u64) as u8 == (y >> 56u64) as u8)
        ==> x == y) by (bit_vector);
}

/// The bits of two `i32` are the same only where the integers are.
proof fn lemma_i32_bits_injective(i: i32, j: i32)
    requires
        i as u32 as u64 == j as u32 as u64,
    ensures
        i == j,
{
    assert((i as u32) == (j as u32));
    assert((i as u32 == j as u32) ==> i == j) by (bit_vector);
}

/// What the reference key of a value is computed from depends on the
/// value's payload, and tells payloads of one kind apart: two integers,
/// pairs, ranges, floats, float pairs and ranges, bools, references, binary vectors, texts,
/// symbols or complexes are hashed alike only where they are equal. An integer is
/// hashed as one write of four bytes.
pub proof fn law_value_keys_hash_the_payload(v: Value, w: Value, le: bool)
    requires
        value_hash_writes(v, le) == value_hash_writes(w, le),
    ensures
        v is Int ==> value_hash_writes(v, le).len() == 1 && value_hash_writes(v, le)[0].len() == 4,
        (v is Int && w is Int) ==> v == w,
        (v is IntPair && w is IntPair) ==> v == w,
        (v is IntRange && w is IntRange) ==> v == w,
        (v is Float && w is Float) ==> v == w,
        (v is Bool && w is Bool) ==> v == w,
        (v is Reference && w is Reference) ==> v == w,
        (v is BinaryVector && w is BinaryVector) ==> v@ == w@,
        (v is TextBuffer && w is TextBuffer) ==> v@ == w@,
        (v is Symbol && w is Symbol) ==> v@ == w@,
        (v is Complex && w is Complex) ==> v@ == w@,
        (v is FloatPair && w is FloatPair) ==> v == w,
        (v is FloatRange && w is FloatRange) ==> v == w,
{
    let a = value_hash_writes(v, le);
    let b = value_hash_writes(w, le);
    match (v, w) {
        (Value::Int(i), Value::Int(j)) => {
            assert(a[0] == b[0]);
            lemma_four_bytes_injective(i as u32 as u64, j as u32 as u64, le);
            lemma_i32_bits_injective(i, j);
        },
        (Value::IntPair(i1, i2), Value::IntPair(j1, j2)) => {
            assert(a[0] == b[0] && a[1] == b[1]);
            lemma_four_bytes_injective(i1 as u32 as u64, j1 as u32 as u64, le);
            lemma_four_bytes_injective(i2 as u32 as u64, j2 as u32 as u64, le);
            lemma_i32_bits_injective(i1, j1);
            lemma_i32_bits_injective(i2, j2);
        },
        (Value::IntRange(i1, i2, i3), Value::IntRange(j1, j2, j3)) => {
            assert(a[0] == b[0] && a[1] == b[1] && a[2] == b[2]);
            lemma_four_bytes_injective(i1 as u32 as u64, j1 as u32 as u64, le);
            lemma_four_bytes_injective(i2 as u32 as u64, j2 as u32 as u64, le);
            lemma_four_bytes_injective(i3 as u32 as u64, j3 as u32 as u64, le);
            lemma_i32_bits_injective(i1, j1);
            lemma_i32_bits_injective(i2, j2);
            lemma_i32_bits_injective(i3, j3);
        },
        (Value::Float(f), Value::Float(g)) => {
            assert(a[0] == b[0]);
            lemma_four_bytes_injective(f as u64, g as u64, le);
        },
        (Value::Bool(x), Value::Bool(y)) => {
            assert(a[0] == b[0]);
            assert(a[0][0] == b[0][0]);
        },
        (Value::Reference(x), Value::Reference(y)) => {
            assert(a[0] == b[0]);
            lemma_eight_bytes_injective(x, y, le);
        },
        (Value::BinaryVector(x), Value::BinaryVector(y)) => {
            assert(a[1] == b[1]);
        },
        (Value::TextBuffer(x), Value::TextBuffer(y)) => {
            lemma_str_writes_injective(x@, y@);
        },
        (Value::Symbol(x), Value::Symbol(y)) => {
            lemma_str_writes_injective(x@, y@);
        },
        (Value::FloatPair(f1, f2), Value::FloatPair(g1, g2)) => {
            assert(a[0] == b[0] && a[1] == b[1]);
            lemma_four_bytes_injective(f1 as u64, g1 as u64, le);
            lemma_four_bytes_injective(f2 as u64, g2 as u64, le);
        },
        (Value::FloatRange(f1, f2, f3), Value::FloatRange(g1, g2, g3)) => {
            assert(a[0] == b[0] && a[1] == b[1] && a[2] == b[2]);
            lemma_four_bytes_injective(f1 as u64, g1 as u64, le);
            lemma_four_bytes_injective(f2 as u64, g2 as u64, le);
            lemma_four_bytes_injective(f3 as u64, g3 as u64, le);
        },
        (Value::Complex(x), Value::Complex(y)) => {
            law_complex_keys_hash_the_members(x@, y@, le);
        },
        _ => {},
    }
}

/// Two strings are hashed alike only where they are equal.
proof fn lemma_str_writes_injective(s: Seq<char>, t: Seq<char>)
    requires
        str_hash_writes(s) == str_hash_writes(t),
    ensures
        s == t,
{
    assert(str_hash_writes(s)[0] == str_hash_writes(t)[0]);
    vstd::utf8::encode_utf8_decode_utf8(s);
    vstd::utf8::encode_utf8_decode_utf8(t);
}

/// Adding a value under a name that is missing or empty leaves the single
/// value; adding a second value leaves the list of the two; adding a third
/// appends it.
pub proof fn law_add_accumulates(a: ValueModel, b: ValueModel, c: ValueModel)
    ensures
        add_result(None, a) == PropertyModel::Single(a),
        add_result(Some(PropertyModel::Empty), a) == PropertyModel::Single(a),
        add_result(Some(add_result(None, a)), b) == PropertyModel::List(seq![a, b]),
        add_result(Some(add_result(Some(add_result(None, a)), b)), c) == PropertyModel::List(
            seq![a, b, c],
        ),
{
    assert(seq![a, b].push(c) =~= seq![a, b, c]);
}

/// Adding to a nested property map leaves it as it is.
pub proof fn law_add_skips_nested(pm: PropertiesModel, v: ValueModel)
    ensures
        add_result(Some(PropertyModel::Properties(pm)), v) == PropertyModel::Properties(pm),
{
}

/// A property that was set is read back; other properties are untouched.
pub proof fn law_set_then_read(pm: PropertiesModel, name: Seq<char>, other: Seq<char>, p: PropertyModel)
    requires
        other != name,
    ensures
        pm.map().insert(name, p)[name] == p,
        pm.map().insert(name, p).contains_key(other) == pm.map().contains_key(other),
        pm.map().insert(name, p)[other] == pm.map()[other],
{
}

/// A property that was taken is left empty, so that taking it again gives
/// nothing and changes nothing.
pub proof fn law_take_leaves_empty(before: PropertiesModel, after: PropertiesModel, name: Seq<char>)
    requires
        after.map() == before.map().insert(name, PropertyModel::Empty),
    ensures
        after.lookup(name) == Some(PropertyModel::Empty),
{
    assert(after.map().contains_key(name));
    assert(after.map()[name] == PropertyModel::Empty);
}

/// A value that is a bool, an integer, a pair or range of integers or of
/// floats, or a binary vector, once written to a TOML document, is read
/// back as itself.
pub proof fn law_toml_round_trip(item: TomlItem, read: TomlValue, v: ValueModel)
    requires
        is_item_for(item, v),
        reads_as(item, read),
        toml_keeps(v),
    ensures
        spec_value_from_toml(read) == Some(v),
{
    match v {
        ValueModel::IntPair(a, b) => {
            let xs = item->Array_0;
            let ys = read->Array_0;
            assert(reads_as(xs@[0], ys@[0]));
            assert(reads_as(xs@[1], ys@[1]));
            assert(xs@[0] == TomlItem::Integer(seq![a, b][0] as i64));
            assert(xs@[1] == TomlItem::Integer(seq![a, b][1] as i64));
        },
        ValueModel::IntRange(a, b, c) => {
            let xs = item->Array_0;
            let ys = read->Array_0;
            assert(reads_as(xs@[0], ys@[0]));
            assert(reads_as(xs@[1], ys@[1]));
            assert(reads_as(xs@[2], ys@[2]));
            assert(xs@[0] == TomlItem::Integer(seq![a, b, c][0] as i64));
            assert(xs@[1] == TomlItem::Integer(seq![a, b, c][1] as i64));
            assert(xs@[2] == TomlItem::Integer(seq![a, b, c][2] as i64));
        },
        ValueModel::FloatPair(a, b) => {
            let xs = item->Array_0;
            let ys = read->Array_0;
            assert(reads_as(xs@[0], ys@[0]));
            assert(reads_as(xs@[1], ys@[1]));
            assert(xs@[0] == TomlItem::Float(seq![a, b][0]));
            assert(xs@[1] == TomlItem::Float(seq![a, b][1]));
        },
        ValueModel::FloatRange(a, b, c) => {
            let xs = item->Array_0;
            let ys = read->Array_0;
            assert(reads_as(xs@[0], ys@[0]));
            assert(reads_as(xs@[1], ys@[1]));
            assert(reads_as(xs@[2], ys@[2]));
            assert(xs@[0] == TomlItem::Float(seq![a, b, c][0]));
            assert(xs@[1] == TomlItem::Float(seq![a, b, c][1]));
            assert(xs@[2] == TomlItem::Float(seq![a, b, c][2]));
        },
        ValueModel::BinaryVector(bytes) => {
            let t = item->InlineTable_0;
            let u = read->InlineTable_0;
            assert(u@[0].0@ == t@[0].0@ && reads_as(t@[0].1, u@[0].1));
            assert(u@[1].0@ == t@[1].0@ && reads_as(t@[1].1, u@[1].1));
            let keys = keys_of(u@);
            assert(keys[0] == src_key());
            assert(keys[1] == data_key());
            assert(keys.len() == 2);
            assert(keys.drop_last().drop_last().len() == 0);
            assert(keys.drop_last().last() == keys[0]);
            assert(keys.last() == keys[1]);
            assert(type_key().len() == 5 && src_key().len() == 3 && data_key().len() == 4);
            reveal_with_fuel(find_key, 3);
            assert(find_key(keys, type_key()) == -1);
            assert(find_key(keys, src_key()) == 0);
            assert(find_key(keys, data_key()) == 1);
        },
        _ => {},
    }
}

/// A complex written to a TOML document is read back as the complex of its
/// members and the marker key `_type`, where no member is `_type` itself.
pub proof fn law_toml_complex_reads_back(item: TomlItem, read: TomlValue, c: Seq<Seq<char>>)
    requires
        in_set_order(c),
        !c.contains(type_key()),
        is_item_for(item, ValueModel::Complex(c)),
        reads_as(item, read),
    ensures
        spec_value_from_toml(read) == Some(
            ValueModel::Complex(set_members(c.to_set().insert(type_key()))),
        ),
{
    let t = item->InlineTable_0;
    let u = read->InlineTable_0;
    let m = complex_table(c);
    lemma_complex_table_keys(c, c.len() as int);
    assert(c.take(c.len() as int) =~= c);
    assert(keys_of(u@) =~= model_keys(m)) by {
        assert forall|k: int| 0 <= k < u@.len() implies keys_of(u@)[k] == model_keys(m)[k] by {
            assert(u@[k].0@ == t@[k].0@ && reads_as(t@[k].1, u@[k].1));
            assert(t@[k].0@ == m[k].0);
        }
    }
    let keys = keys_of(u@);
    lemma_find_key(keys, type_key());
    assert(keys[0] == type_key());
    assert(find_key(keys, type_key()) == 0);
    assert(u@[0].0@ == t@[0].0@ && reads_as(t@[0].1, u@[0].1));
    assert(is_string_item(t@[0].1, complex_marker()));
    assert(str_entry(u@, type_key()) == Some(complex_marker()));
}

/// Every link is either outgoing or incoming: the two lists together have
/// as many entities as there are links.
pub proof fn law_links_partition(links: Seq<Link>)
    ensures
        outgoing_of(links).len() + incoming_of(links).len() == links.len(),
    decreases links.len(),
{
    if links.len() > 0 {
        law_links_partition(links.drop_last());
    }
}

/// An added outgoing link shows among the outgoing entities, last, and
/// leaves the incoming ones as they were; the same the other way round.
pub proof fn law_links_insert(links: Seq<Link>, e: Entity)
    ensures
        outgoing_of(links.push(Link::Outgoing(e))) == outgoing_of(links).push(e),
        incoming_of(links.push(Link::Outgoing(e))) == incoming_of(links),
        incoming_of(links.push(Link::Incoming(e))) == incoming_of(links).push(e),
        outgoing_of(links.push(Link::Incoming(e))) == outgoing_of(links),
{
    assert(links.push(Link::Outgoing(e)).drop_last() =~= links);
    assert(links.push(Link::Incoming(e)).drop_last() =~= links);
}

/// The single values of a property map, by name, in order.
pub open spec fn single_entries(es: Seq<(Seq<char>, PropertyModel)>) -> Seq<(Seq<char>, ValueModel)> {
    es.map_values(|e: (Seq<char>, PropertyModel)| (e.0, e.1->Single_0))
}

proof fn lemma_exported_singles(es: Seq<(Seq<char>, PropertyModel)>)
    requires
        forall|i: int| 0 <= i < es.len() ==> (#[trigger] es[i]).1 is Single,
    ensures
        exported(es) == es.map_values(|e: (Seq<char>, PropertyModel)| (e.0, ExportModel::Single(e.1->Single_0))),
    decreases es.len(),
{
    if es.len() > 0 {
        let rest = es.drop_last();
        assert forall|i: int| 0 <= i < rest.len() implies (#[trigger] rest[i]).1 is Single by {
            assert(rest[i] == es[i]);
        }
        lemma_exported_singles(rest);
        assert(es.last() == es[es.len() - 1]);
        assert(exported(es) =~= es.map_values(
            |e: (Seq<char>, PropertyModel)| (e.0, ExportModel::Single(e.1->Single_0)),
        ));
    }
}

proof fn lemma_export_read_prefix(pm: PropertiesModel, t: Seq<(String, TomlItem)>, u: Seq<(String, TomlValue)>, n: int)
    requires
        names_in_order(pm.entries),
        forall|i: int| 0 <= i < pm.entries.len() ==> (#[trigger] pm.entries[i]).1 is Single && toml_keeps(pm.entries[i].1->Single_0),
        exports_as(t, exported(pm.entries)),
        u.len() == t.len(),
        forall|k: int| 0 <= k < u.len() ==> (#[trigger] u[k]).0@ == t[k].0@ && reads_as(t[k].1, u[k].1),
        0 <= n <= pm.entries.len(),
    ensures
        read_entries(u.take(n)) == Some(single_entries(pm.entries.take(n))),
        adds_of(Map::empty(), single_entries(pm.entries.take(n))) == pm.with_entries(pm.entries.take(n)).map(),
    decreases n,
{
    let es = pm.entries;
    lemma_exported_singles(es);
    if n == 0 {
        assert(u.take(0) =~= Seq::<(String, TomlValue)>::empty());
        assert(single_entries(es.take(0)) =~= Seq::<(Seq<char>, ValueModel)>::empty());
        assert(pm.with_entries(es.take(0)).map() =~= Map::<Seq<char>, PropertyModel>::empty());
    } else {
        lemma_export_read_prefix(pm, t, u, n - 1);
        let k = n - 1;
        let name = es[k].0;
        let v = es[k].1->Single_0;
        assert(es[k].1 is Single && toml_keeps(v));
        assert(t[k].0@ == name && is_item_for(t[k].1, v));
        assert(u[k].0@ == t[k].0@ && reads_as(t[k].1, u[k].1));
        law_toml_round_trip(t[k].1, u[k].1, v);
        // Reading: one more entry.
        assert(u.take(n).drop_last() =~= u.take(k));
        assert(u.take(n).last() == u[k]);
        assert(single_entries(es.take(n)) =~= single_entries(es.take(k)).push((name, v)));
        // Adding: the name is new.
        let before = adds_of(Map::empty(), single_entries(es.take(k)));
        assert(single_entries(es.take(n)).drop_last() =~= single_entries(es.take(k)));
        let pk = pm.with_entries(es.take(k));
        let pn = pm.with_entries(es.take(n));
        assert(!pk.map().contains_key(name)) by {
            crate::properties::lemma_find_name(es.take(k), name);
            if find_name(es.take(k), name) >= 0 {
                let j = find_name(es.take(k), name);
                assert(es.take(k)[j] == es[j]);
                assert(str_lt(es[j].0, es[k].0));
                lemma_str_lt_irreflexive(name);
            }
        }
        assert(es.take(n) =~= es.take(k).push(es[k]));
        assert(pn.map() =~= pk.map().insert(name, PropertyModel::Single(v))) by {
            assert forall|m: Seq<char>| #[trigger] pn.lookup(m) == if m == name {
                Some(PropertyModel::Single(v))
            } else {
                pk.lookup(m)
            } by {
                let s = es.take(n);
                assert(s.drop_last() =~= es.take(k));
                assert(s.last() == es[k]);
                assert(s.len() == n);
                assert(es[k].1 == PropertyModel::Single(v));
                if m != name {
                    crate::properties::lemma_find_name(es.take(k), m);
                    let i = find_name(es.take(k), m);
                    assert(find_name(s, m) == i);
                    if 0 <= i {
                        assert(s[i] == es.take(k)[i]);
                    }
                }
            }
        }
    }
}

/// A property map whose properties are single values of the kinds that
/// TOML keeps, exported to a table and read back from a document, gives
/// the same map.
pub proof fn law_export_read_back(pm: PropertiesModel, t: Seq<(String, TomlItem)>, u: Seq<(String, TomlValue)>)
    requires
        names_in_order(pm.entries),
        forall|i: int| 0 <= i < pm.entries.len() ==> (#[trigger] pm.entries[i]).1 is Single && toml_keeps(pm.entries[i].1->Single_0),
        exports_as(t, exported(pm.entries)),
        u.len() == t.len(),
        forall|k: int| 0 <= k < u.len() ==> (#[trigger] u[k]).0@ == t[k].0@ && reads_as(t[k].1, u[k].1),
    ensures
        read_entries(u) matches Some(vs) && adds_of(Map::empty(), vs) == pm.map(),
{
    let n = pm.entries.len() as int;
    lemma_exported_singles(pm.entries);
    assert(exported(pm.entries).len() == n);
    lemma_export_read_prefix(pm, t, u, n);
    assert(u.take(n) =~= u);
    assert(pm.entries.take(n) =~= pm.entries);
    assert(pm.with_entries(pm.entries) == pm);
}

} // verus!
