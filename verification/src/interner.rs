use std::collections::HashMap;
use vstd::prelude::*;
use vstd::std_specs::hash::spec_hash_map_iter;
use vstd::std_specs::iter::IteratorSpec;

use crate::error::Error;
use crate::hashing::native_little_endian;
use crate::hashing::set_key;
use crate::hashing::spec_set_key;
use crate::hashing::platform_le;
use crate::hashing::spec_symbol_key;
use crate::hashing::symbol_key;
use crate::properties::entry_strings;
use crate::properties::lemma_entry_strings;
use crate::properties::lemma_entry_strings_take;
use crate::properties::lemma_resolve_strings;
use crate::properties::property_strings;
use crate::properties::resolve;
use crate::properties::symbols_of;
use crate::properties::Properties;
use crate::properties::PropertyModel;
use crate::value::ValueModel;
use crate::symbol_set::in_set_order;
use crate::symbol_set::SymbolSet;
use crate::value::Value;

verus! {

broadcast use vstd::std_specs::hash::group_hash_axioms;

/// Interned symbols: intern key to symbol.
pub type SymbolMap = Map<u64, Seq<char>>;

/// Interned complexes: intern key to the members of the set, in order.
pub type ComplexMap = Map<u64, Seq<Seq<char>>>;

/// Struct w/ hash tables for interning types.
///
/// Interning is an encoding technique to map strings and other dynamically
/// sized types to an integer value. When encoding, this integer value can
/// be used in place of the actual instance value, and then restored later.
///
/// A symbol's key is the default hasher's digest of the symbol (see
/// `spec_symbol_key`); a complex's key is the digest of its member count and
/// members (see `spec_set_key`).
#[derive(Debug)]
pub struct Interner {
    /// Symbols that have been interned.
    symbols: HashMap<u64, String>,
    /// Sets of strings that have been interned.
    complexes: HashMap<u64, SymbolSet>,
}

impl View for Interner {
    type V = (SymbolMap, ComplexMap);

    closed spec fn view(&self) -> (SymbolMap, ComplexMap) {
        (
            self.symbols@.map_values(|s: String| s@),
            self.complexes@.map_values(|c: SymbolSet| c@),
        )
    }
}

impl Interner {
    /// Returns an interner with no symbols and no complexes.
    pub fn empty() -> (interner: Interner)
        ensures
            interner@.0 == SymbolMap::empty(),
            interner@.1 == ComplexMap::empty(),
    {
        let interner = Interner { symbols: HashMap::new(), complexes: HashMap::new() };
        assert(interner@.0 =~= SymbolMap::empty());
        assert(interner@.1 =~= ComplexMap::empty());
        interner
    }

    /// Gets a symbol from the interner if present.
    pub fn get_symbol(&self, key: &u64) -> (v: Option<Value>)
        ensures
            self@.0.contains_key(*key) ==> (v matches Some(Value::Symbol(s)) && s@ == self@.0[*key]),
            !self@.0.contains_key(*key) ==> v is None,
    {
        match self.symbols.get(key) {
            Some(s) => Some(Value::Symbol(s.clone())),
            None => None,
        }
    }

    /// Gets a complex from the interner if present.
    pub fn get_complex(&self, key: &u64) -> (v: Option<Value>)
        ensures
            self@.1.contains_key(*key) ==> (v matches Some(Value::Complex(c)) && c@ == self@.1[*key]),
            !self@.1.contains_key(*key) ==> v is None,
    {
        match self.complexes.get(key) {
            Some(c) => Some(Value::Complex(c.clone())),
            None => None,
        }
    }

    /// Gets a value (either a symbol or a complex) from the interner if
    /// present; a symbol is looked up first.
    pub fn get(&self, key: &u64) -> (v: Option<Value>)
        ensures
            self@.0.contains_key(*key) ==> (v matches Some(Value::Symbol(s)) && s@ == self@.0[*key]),
            !self@.0.contains_key(*key) && self@.1.contains_key(*key) ==> (v matches Some(
                Value::Complex(c),
            ) && c@ == self@.1[*key]),
            !self@.0.contains_key(*key) && !self@.1.contains_key(*key) ==> v is None,
    {
        let value = self.get_symbol(key);
        if value.is_none() {
            self.get_complex(key)
        } else {
            value
        }
    }

    /// Returns the key for this symbol.
    pub fn symbol(&self, symbol: &str) -> (r: Result<u64, Error>)
        ensures
            r matches Ok(k) && k == spec_symbol_key(symbol@),
    {
        Ok(symbol_key(symbol))
    }

    /// Adds a symbol to the interner w/ key value.
    pub fn insert_symbol(&mut self, key: u64, symbol: String)
        ensures
            final(self)@.0 == old(self)@.0.insert(key, symbol@),
            final(self)@.1 == old(self)@.1,
    {
        self.symbols.insert(key, symbol);
        assert(self@.0 =~= old(self)@.0.insert(key, symbol@));
    }

    /// Adds a complex to the interner w/ key value.
    pub fn insert_complex(&mut self, key: u64, complex: &SymbolSet)
        ensures
            final(self)@.0 == old(self)@.0,
            final(self)@.1 == old(self)@.1.insert(key, complex@),
    {
        self.complexes.insert(key, complex.clone());
        assert(self@.1 =~= old(self)@.1.insert(key, complex@));
    }

    /// Adds a symbol to the interner and returns the key.
    pub fn add_symbol(&mut self, ident: &str) -> (r: Result<u64, Error>)
        ensures
            r matches Ok(k) && k == spec_symbol_key(ident@),
            final(self)@.0 == old(self)@.0.insert(spec_symbol_key(ident@), ident@),
            final(self)@.1 == old(self)@.1,
    {
        let key = symbol_key(ident);
        self.insert_symbol(key, ident.to_string());
        Ok(key)
    }

    /// Adds a set of strings (a complex) to the interner and returns the key.
    ///
    /// The key is the digest of the set's members in byte order, with the
    /// member count written in the platform's byte order.
    pub fn add_map(&mut self, map: Vec<&str>) -> (r: Result<u64, Error>)
        ensures
            r is Ok,
            final(self)@.0 == old(self)@.0,
            exists|c: Seq<Seq<char>>|
                {
                    &&& in_set_order(c)
                    &&& c.to_set() == map@.map_values(|s: &str| s@).to_set()
                    &&& r->Ok_0 == spec_set_key(c, platform_le())
                    &&& final(self)@.1 == old(self)@.1.insert(r->Ok_0, c)
                },
    {
        let complex = SymbolSet::from_strs(&map);
        let le = native_little_endian();
        let key = set_key(&complex, le);
        self.insert_complex(key, &complex);
        Ok(key)
    }

    /// Returns a reference to interned symbols.
    pub fn symbols(&self) -> (m: &HashMap<u64, String>)
        ensures
            m@.map_values(|s: String| s@) == self@.0,
    {
        &self.symbols
    }

    /// Returns a reference to interned complexes.
    pub fn complexes(&self) -> (m: &HashMap<u64, SymbolSet>)
        ensures
            m@.map_values(|c: SymbolSet| c@) == self@.1,
    {
        &self.complexes
    }
}

impl Interner {
    /// Merges two interners and returns a new interner; where both hold a
    /// key, the entry of `other` is kept.
    pub fn merge(&self, other: &Interner) -> (merged: Interner)
        ensures
            merged@.0 == self@.0.union_prefer_right(other@.0),
            merged@.1 == self@.1.union_prefer_right(other@.1),
    {
        let mut interner = Interner { symbols: self.symbols.clone(), complexes: self.complexes.clone() };
        let ghost base = interner@;
        let symbol_iter = other.symbols.iter();
        let ghost pairs = spec_hash_map_iter(&other.symbols).remaining();
        proof {
            assert(pairs.no_duplicates());
            assert forall|i: int, j: int|
                0 <= i < pairs.len() && 0 <= j < pairs.len() && i != j implies *#[trigger] pairs[i].0
                != *#[trigger] pairs[j].0 by {
                if *pairs[i].0 == *pairs[j].0 {
                    assert(other.symbols@[*pairs[i].0] == *pairs[i].1);
                    assert(other.symbols@[*pairs[j].0] == *pairs[j].1);
                }
            }
        }
        for (k, s) in it: symbol_iter
            invariant
                base == self@,
                interner@.1 == base.1,
                it.seq() == pairs,
                forall|i: int, j: int|
                    0 <= i < pairs.len() && 0 <= j < pairs.len() && i != j ==> *#[trigger] pairs[i].0
                        != *#[trigger] pairs[j].0,
                forall|key: u64|
                    #![trigger interner@.0.contains_key(key)]
                    interner@.0.contains_key(key) <==> (base.0.contains_key(key) || exists|j: int|
                        0 <= j < it.index() && *it.seq()[j].0 == key),
                forall|j: int|
                    0 <= j < it.index() ==> interner@.0[*#[trigger] it.seq()[j].0] == it.seq()[j].1@,
                forall|key: u64|
                    interner@.0.contains_key(key) && !(exists|j: int|
                        0 <= j < it.index() && *it.seq()[j].0 == key) ==> interner@.0[key]
                        == base.0[key],
        {
            interner.insert_symbol(*k, s.clone());
        }
        proof {
            let m = interner@.0;
            let want = self@.0.union_prefer_right(other@.0);
            assert forall|key: u64| #[trigger] m.contains_key(key) <==> want.contains_key(key) by {
                if other@.0.contains_key(key) {
                    assert(pairs.contains((&key, &other.symbols@[key])));
                    let j = choose|j: int| 0 <= j < pairs.len() && pairs[j] == (&key, &other.symbols@[key]);
                    assert(*pairs[j].0 == key);
                }
                if m.contains_key(key) && !self@.0.contains_key(key) {
                    let j = choose|j: int| 0 <= j < pairs.len() && *pairs[j].0 == key;
                    assert(other.symbols@.contains_key(*pairs[j].0));
                }
            }
            assert forall|key: u64| m.contains_key(key) implies #[trigger] m[key] == want[key] by {
                if other@.0.contains_key(key) {
                    assert(pairs.contains((&key, &other.symbols@[key])));
                    let j = choose|j: int| 0 <= j < pairs.len() && pairs[j] == (&key, &other.symbols@[key]);
                    assert(*pairs[j].0 == key);
                    assert(m[*pairs[j].0] == pairs[j].1@);
                } else {
                    if exists|j: int| 0 <= j < pairs.len() && *pairs[j].0 == key {
                        let j = choose|j: int| 0 <= j < pairs.len() && *pairs[j].0 == key;
                        assert(other.symbols@.contains_key(*pairs[j].0));
                    }
                }
            }
            assert(m =~= want);
        }
        let ghost want_symbols = self@.0.union_prefer_right(other@.0);
        let ghost base = interner@;
        assert(base.1 == self@.1);
        let complex_iter = other.complexes.iter();
        let ghost cpairs = spec_hash_map_iter(&other.complexes).remaining();
        proof {
            assert(cpairs.no_duplicates());
            assert forall|i: int, j: int|
                0 <= i < cpairs.len() && 0 <= j < cpairs.len() && i != j implies *#[trigger] cpairs[i].0
                != *#[trigger] cpairs[j].0 by {
                if *cpairs[i].0 == *cpairs[j].0 {
                    assert(other.complexes@[*cpairs[i].0] == *cpairs[i].1);
                    assert(other.complexes@[*cpairs[j].0] == *cpairs[j].1);
                }
            }
        }
        for (k, s) in it: complex_iter
            invariant
                base.1 == self@.1,
                interner@.0 == want_symbols,
                it.seq() == cpairs,
                forall|i: int, j: int|
                    0 <= i < cpairs.len() && 0 <= j < cpairs.len() && i != j ==> *#[trigger] cpairs[i].0
                        != *#[trigger] cpairs[j].0,
                forall|key: u64|
                    #![trigger interner@.1.contains_key(key)]
                    interner@.1.contains_key(key) <==> (base.1.contains_key(key) || exists|j: int|
                        0 <= j < it.index() && *it.seq()[j].0 == key),
                forall|j: int|
                    0 <= j < it.index() ==> interner@.1[*#[trigger] it.seq()[j].0] == it.seq()[j].1@,
                forall|key: u64|
                    interner@.1.contains_key(key) && !(exists|j: int|
                        0 <= j < it.index() && *it.seq()[j].0 == key) ==> interner@.1[key]
                        == base.1[key],
        {
            interner.insert_complex(*k, s);
        }
        proof {
            let m = interner@.1;
            let want = self@.1.union_prefer_right(other@.1);
            assert forall|key: u64| #[trigger] m.contains_key(key) <==> want.contains_key(key) by {
                if other@.1.contains_key(key) {
                    assert(cpairs.contains((&key, &other.complexes@[key])));
                    let j = choose|j: int| 0 <= j < cpairs.len() && cpairs[j] == (&key, &other.complexes@[key]);
                    assert(*cpairs[j].0 == key);
                }
                if m.contains_key(key) && !self@.1.contains_key(key) {
                    let j = choose|j: int| 0 <= j < cpairs.len() && *cpairs[j].0 == key;
                    assert(other.complexes@.contains_key(*cpairs[j].0));
                }
            }
            assert forall|key: u64| m.contains_key(key) implies #[trigger] m[key] == want[key] by {
                if other@.1.contains_key(key) {
                    assert(cpairs.contains((&key, &other.complexes@[key])));
                    let j = choose|j: int| 0 <= j < cpairs.len() && cpairs[j] == (&key, &other.complexes@[key]);
                    assert(*cpairs[j].0 == key);
                    assert(m[*cpairs[j].0] == cpairs[j].1@);
                } else {
                    if exists|j: int| 0 <= j < cpairs.len() && *cpairs[j].0 == key {
                        let j = choose|j: int| 0 <= j < cpairs.len() && *cpairs[j].0 == key;
                        assert(other.complexes@.contains_key(*cpairs[j].0));
                    }
                }
            }
            assert(m =~= want);
        }
        interner
    }
}

impl Default for Interner {
    /// Returns an interner holding the empty symbol.
    ///
    /// A read of a control device must be > 0, so the empty string cannot be
    /// encoded otherwise; it is interned up front as a special case.
    fn default() -> (interner: Interner)
        ensures
            interner@.0 == SymbolMap::empty().insert(spec_symbol_key(Seq::empty()), Seq::empty()),
            interner@.1 == ComplexMap::empty(),
    {
        let mut interner = Interner::empty();
        let empty_symbol = "";
        proof {
            reveal_strlit("");
        }
        assert(empty_symbol@ =~= Seq::<char>::empty());
        let _ = interner.add_symbol(empty_symbol);
        interner
    }
}

impl Interner {
    /// Returns an interner over the given symbols, with no complexes.
    pub fn from_symbols(symbols: HashMap<u64, String>) -> (interner: Interner)
        ensures
            interner@.0 == symbols@.map_values(|s: String| s@),
            interner@.1 == ComplexMap::empty(),
    {
        let interner = Interner { symbols, complexes: HashMap::new() };
        assert(interner@.1 =~= ComplexMap::empty());
        interner
    }

    /// Returns the interned symbols, consuming the interner.
    pub fn into_symbols(self) -> (symbols: HashMap<u64, String>)
        ensures
            symbols@.map_values(|s: String| s@) == self@.0,
    {
        self.symbols
    }
}

/// Every entry of `m` is a string of `strings` under its own key.
pub open spec fn interns_only(m: SymbolMap, strings: Set<Seq<char>>) -> bool {
    forall|k: u64| #[trigger] m.contains_key(k) ==> k == spec_symbol_key(m[k]) && strings.contains(m[k])
}

/// Every string of `strings` has an entry under its key in `m`.
pub open spec fn interns_all(m: SymbolMap, strings: Set<Seq<char>>) -> bool {
    forall|s: Seq<char>| #[trigger] strings.contains(s) ==> m.contains_key(spec_symbol_key(s))
}

/// The strings that the interner of a property map holds: every string of
/// the map, and the empty string.
pub open spec fn properties_strings(entries: Seq<(Seq<char>, PropertyModel)>) -> Set<Seq<char>> {
    entry_strings(entries).insert(Seq::empty())
}

impl Interner {
    /// Adds each symbol of a list.
    fn add_symbols(&mut self, symbols: &Vec<String>, Ghost(strings): Ghost<Set<Seq<char>>>)
        requires
            interns_only(old(self)@.0, strings),
            forall|i: int| 0 <= i < symbols@.len() ==> strings.contains(#[trigger] symbols@[i]@),
        ensures
            interns_only(final(self)@.0, strings),
            final(self)@.1 == old(self)@.1,
            old(self)@.0.dom().subset_of(final(self)@.0.dom()),
            forall|i: int|
                0 <= i < symbols@.len() ==> final(self)@.0.contains_key(
                    spec_symbol_key(#[trigger] symbols@[i]@),
                ),
    {
        let mut i: usize = 0;
        while i < symbols.len()
            invariant
                i <= symbols@.len(),
                interns_only(self@.0, strings),
                forall|j: int| 0 <= j < symbols@.len() ==> strings.contains(#[trigger] symbols@[j]@),
                self@.1 == old(self)@.1,
                old(self)@.0.dom().subset_of(self@.0.dom()),
                forall|j: int|
                    0 <= j < i ==> self@.0.contains_key(spec_symbol_key(#[trigger] symbols@[j]@)),
            decreases symbols@.len() - i,
        {
            let _ = self.add_symbol(symbols[i].as_str());
            i = i + 1;
        }
    }

    /// Derives an interner from a property map: every property name and
    /// every symbol, also those of nested property maps, is interned, next
    /// to the empty symbol.
    pub fn from_properties(properties: &Properties) -> (interner: Interner)
        ensures
            interns_all(interner@.0, properties_strings(properties@.entries)),
            interns_only(interner@.0, properties_strings(properties@.entries)),
            interner@.1 == ComplexMap::empty(),
        decreases properties@,
    {
        let ghost entries = properties@.entries;
        let ghost all = properties_strings(entries);
        let mut interner = Interner::default();
        let n = properties.len();
        let mut i: usize = 0;
        proof {
            assert(entries.take(0) =~= Seq::<(Seq<char>, PropertyModel)>::empty());
        }
        while i < n
            invariant
                n == entries.len(),
                entries == properties@.entries,
                all == properties_strings(entries),
                i <= n,
                interns_only(interner@.0, all),
                interns_all(interner@.0, properties_strings(entries.take(i as int))),
                interner@.1 == ComplexMap::empty(),
            decreases n - i,
        {
            let (name, property) = properties.entry_at(i);
            let ghost before = interner@.0;
            let ghost p = property@;
            proof {
                lemma_entry_strings(entries, i as int);
                lemma_entry_strings_take(entries, i as int);
                lemma_resolve_strings(p);
                assert(all.contains(name@));
            }
            let _ = interner.add_symbol(name.as_str());
            if let Some(symbol) = property.as_symbol() {
                proof {
                    assert(all.contains(symbol@));
                }
                let _ = interner.add_symbol(symbol.as_str());
            }
            let ghost after_symbol = interner@.0;
            let mut listed: Vec<String> = Vec::new();
            if let Some(symbols) = property.as_symbol_vec() {
                proof {
                    assert forall|j: int| 0 <= j < symbols@.len() implies all.contains(
                        #[trigger] symbols@[j]@,
                    ) by {
                        assert(symbols@.map_values(|x: String| x@)[j] == symbols@[j]@);
                        assert(p == entries[i as int].1);
                        assert(property_strings(p).subset_of(entry_strings(entries)));
                        match resolve(p) {
                            PropertyModel::List(l) => {
                                assert(symbols_of(l).contains(symbols@[j]@));
                                assert(symbols_of(l).to_set().contains(symbols@[j]@));
                            },
                            PropertyModel::Single(ValueModel::Symbol(t)) => {
                                assert(symbols@.map_values(|x: String| x@) == seq![t]);
                                assert(seq![t].len() == 1);
                                assert(symbols@.map_values(|x: String| x@).len() == symbols@.len());
                                assert(j == 0);
                                assert(seq![t][0] == t);
                                assert(symbols@[j]@ == t);
                            },
                            _ => {},
                        }
                    }
                }
                interner.add_symbols(&symbols, Ghost(all));
                listed = symbols;
            }
            let ghost after_list = interner@.0;
            let ghost nested_strings = Set::<Seq<char>>::empty();
            if let Some(nested) = property.as_properties() {
                proof {
                    assert(decreases_to!(properties@ => nested@));
                }
                let inner = Interner::from_properties(&nested);
                proof {
                    nested_strings = properties_strings(nested@.entries);
                    assert(nested_strings.subset_of(all));
                }
                interner = interner.merge(&inner);
            }
            proof {
                assert(before.dom().subset_of(interner@.0.dom()));
                assert(after_symbol.dom().subset_of(interner@.0.dom()));
                assert(after_list.dom().subset_of(interner@.0.dom()));
                assert forall|x: Seq<char>| #[trigger] properties_strings(
                    entries.take(i + 1),
                ).contains(x) implies interner@.0.contains_key(spec_symbol_key(x)) by {
                    if properties_strings(entries.take(i as int)).contains(x) {
                        assert(before.contains_key(spec_symbol_key(x)));
                    } else if x == name@ {
                    } else {
                        assert(property_strings(p).contains(x));
                        match p {
                            PropertyModel::Single(ValueModel::Symbol(y)) => {
                                assert(after_symbol.contains_key(spec_symbol_key(y)));
                            },
                            PropertyModel::List(l) => {
                                assert(symbols_of(l).to_set().contains(x));
                                let j = choose|j: int| 0 <= j < symbols_of(l).len() && symbols_of(l)[j] == x;
                                assert(listed@.map_values(|y: String| y@)[j] == listed@[j]@);
                                assert(after_list.contains_key(spec_symbol_key(listed@[j]@)));
                            },
                            PropertyModel::Properties(pm) => {
                                assert(nested_strings.contains(x));
                            },
                            _ => {},
                        }
                    }
                }
            }
            i = i + 1;
        }
        proof {
            assert(entries.take(n as int) =~= entries);
        }
        interner
    }
}

} // verus!
