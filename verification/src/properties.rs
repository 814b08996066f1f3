use std::sync::Arc;
use vstd::prelude::*;

use crate::order::compare_str;
use crate::order::lemma_str_lt_irreflexive;
use crate::order::lemma_str_lt_transitive;
use crate::order::str_lt;
use crate::order::Order;
use crate::value::Value;
use crate::value::ValueModel;

verus! {

/// The identifier that owns a property map, as the map reads it: its name
/// (the alternate rendering, under which the map is nested in another map)
/// and its subject (the property that stands for the whole map).
#[derive(Debug)]
pub struct Identifier {
    name: String,
    subject: String,
}

impl View for Identifier {
    type V = (Seq<char>, Seq<char>);

    closed spec fn view(&self) -> (Seq<char>, Seq<char>) {
        (self.name@, self.subject@)
    }
}

impl Identifier {
    /// Returns an identifier with the given name and subject.
    pub fn new(name: &str, subject: &str) -> (id: Identifier)
        ensures
            id@ == (name@, subject@),
    {
        Identifier { name: name.to_string(), subject: subject.to_string() }
    }

    /// Returns the name, under which a map owned by this identifier is nested.
    pub fn name(&self) -> (n: &String)
        ensures
            n@ == self@.0,
    {
        &self.name
    }

    /// Returns the subject, the property that stands for a map owned by this identifier.
    pub fn subject(&self) -> (s: &String)
        ensures
            s@ == self@.1,
    {
        &self.subject
    }
}

impl Clone for Identifier {
    fn clone(&self) -> (copy: Self)
        ensures
            copy@ == self@,
    {
        Identifier { name: self.name.clone(), subject: self.subject.clone() }
    }
}

impl Default for Identifier {
    fn default() -> (id: Identifier)
        ensures
            id@ == (Seq::<char>::empty(), Seq::<char>::empty()),
    {
        Identifier { name: String::new(), subject: String::new() }
    }
}

/// Enumeration of property types.
#[derive(Debug)]
pub enum Property {
    /// Property is a single value.
    Single(Value),
    /// Property is a list of values.
    List(Vec<Value>),
    /// Property is a read-only reference to block properties.
    Properties(Arc<Properties>),
    /// Indicates that this block property is currently empty.
    Empty,
}

/// Component for a map of property attributes.
#[derive(Debug)]
pub struct Properties {
    /// Identifier of owner.
    owner: Identifier,
    /// Properties by name, in ascending byte order of names.
    entries: Vec<(String, Property)>,
}

/// The data of a property map: its owner and its properties, in ascending
/// byte order of their names.
pub struct PropertiesModel {
    pub owner: (Seq<char>, Seq<char>),
    pub entries: Seq<(Seq<char>, PropertyModel)>,
}

/// The data of a property.
pub enum PropertyModel {
    Single(ValueModel),
    List(Seq<ValueModel>),
    Properties(PropertiesModel),
    Empty,
}

pub closed spec fn property_model(p: Property) -> PropertyModel
    decreases p,
{
    match p {
        Property::Single(v) => PropertyModel::Single(v@),
        Property::List(l) => PropertyModel::List(l@.map_values(|v: Value| v@)),
        Property::Properties(ps) => PropertyModel::Properties(
            PropertiesModel { owner: ps.owner@, entries: entries_model(ps.entries@) },
        ),
        Property::Empty => PropertyModel::Empty,
    }
}

pub closed spec fn entries_model(s: Seq<(String, Property)>) -> Seq<(Seq<char>, PropertyModel)>
    decreases s,
{
    if s.len() == 0 {
        Seq::empty()
    } else {
        entries_model(s.subrange(0, s.len() - 1)).push(
            (s[s.len() - 1].0@, property_model(s[s.len() - 1].1)),
        )
    }
}

impl View for Property {
    type V = PropertyModel;

    closed spec fn view(&self) -> PropertyModel {
        property_model(*self)
    }
}

impl View for Properties {
    type V = PropertiesModel;

    closed spec fn view(&self) -> PropertiesModel {
        PropertiesModel { owner: self.owner@, entries: entries_model(self.entries@) }
    }
}

/// Names in strictly ascending byte order (so each name occurs once).
pub open spec fn names_in_order(s: Seq<(Seq<char>, PropertyModel)>) -> bool {
    forall|i: int, j: int| 0 <= i < j < s.len() ==> str_lt(#[trigger] s[i].0, #[trigger] s[j].0)
}

/// Position of the last entry named `name`, or -1.
pub open spec fn find_name(s: Seq<(Seq<char>, PropertyModel)>, name: Seq<char>) -> int
    decreases s.len(),
{
    if s.len() == 0 {
        -1
    } else if s.last().0 == name {
        s.len() - 1
    } else {
        find_name(s.drop_last(), name)
    }
}

impl PropertiesModel {
    /// The property named `name`, if any.
    pub open spec fn lookup(self, name: Seq<char>) -> Option<PropertyModel> {
        let i = find_name(self.entries, name);
        if 0 <= i < self.entries.len() {
            Some(self.entries[i].1)
        } else {
            None
        }
    }

    /// The same owner with other entries.
    pub open spec fn with_entries(self, entries: Seq<(Seq<char>, PropertyModel)>) -> PropertiesModel {
        PropertiesModel { owner: self.owner, entries }
    }

    /// The properties as a map from name to property.
    pub open spec fn map(self) -> Map<Seq<char>, PropertyModel> {
        Map::new(|n: Seq<char>| self.lookup(n) is Some, |n: Seq<char>| self.lookup(n)->Some_0)
    }
}

pub proof fn lemma_find_name(s: Seq<(Seq<char>, PropertyModel)>, name: Seq<char>)
    ensures
        -1 <= find_name(s, name) < s.len(),
        0 <= find_name(s, name) ==> s[find_name(s, name)].0 == name,
        find_name(s, name) == -1 ==> forall|i: int| 0 <= i < s.len() ==> #[trigger] s[i].0 != name,
    decreases s.len(),
{
    if s.len() > 0 && s.last().0 != name {
        lemma_find_name(s.drop_last(), name);
        if find_name(s, name) == -1 {
            assert forall|i: int| 0 <= i < s.len() implies #[trigger] s[i].0 != name by {
                if i < s.len() - 1 {
                    assert(s.drop_last()[i] == s[i]);
                }
            }
        }
    }
}

/// In a sequence in name order, the entry at `i` is found by its name.
pub proof fn lemma_find_name_ordered(s: Seq<(Seq<char>, PropertyModel)>, i: int)
    requires
        names_in_order(s),
        0 <= i < s.len(),
    ensures
        find_name(s, s[i].0) == i,
{
    lemma_find_name(s, s[i].0);
    let j = find_name(s, s[i].0);
    if j != i {
        if i < j {
            assert(str_lt(s[i].0, s[j].0));
        } else {
            assert(str_lt(s[j].0, s[i].0));
        }
        lemma_str_lt_irreflexive(s[i].0);
    }
}

proof fn lemma_entries_model(s: Seq<(String, Property)>)
    ensures
        entries_model(s).len() == s.len(),
        forall|i: int|
            0 <= i < s.len() ==> #[trigger] entries_model(s)[i] == (s[i].0@, property_model(s[i].1)),
    decreases s.len(),
{
    if s.len() > 0 {
        let prefix = s.subrange(0, s.len() - 1);
        lemma_entries_model(prefix);
        assert forall|i: int| 0 <= i < s.len() implies #[trigger] entries_model(s)[i] == (
            s[i].0@,
            property_model(s[i].1),
        ) by {
            if i < s.len() - 1 {
                assert(prefix[i] == s[i]);
            }
        }
    }
}

/// In a sequence in name order, the map holds exactly the named entries.
pub proof fn lemma_map_ordered(pm: PropertiesModel)
    requires
        names_in_order(pm.entries),
    ensures
        forall|i: int|
            0 <= i < pm.entries.len() ==> #[trigger] pm.map().contains_key(pm.entries[i].0)
                && pm.map()[pm.entries[i].0] == pm.entries[i].1,
        forall|n: Seq<char>|
            #[trigger] pm.map().contains_key(n) ==> exists|i: int|
                0 <= i < pm.entries.len() && pm.entries[i].0 == n,
        forall|n: Seq<char>| #[trigger] pm.lookup(n) is Some <==> pm.map().contains_key(n),
        forall|n: Seq<char>| pm.map().contains_key(n) ==> #[trigger] pm.lookup(n) == Some(pm.map()[n]),
{
    assert forall|i: int| 0 <= i < pm.entries.len() implies #[trigger] pm.map().contains_key(
        pm.entries[i].0,
    ) && pm.map()[pm.entries[i].0] == pm.entries[i].1 by {
        lemma_find_name_ordered(pm.entries, i);
    }
    assert forall|n: Seq<char>| #[trigger] pm.map().contains_key(n) implies exists|i: int|
        0 <= i < pm.entries.len() && pm.entries[i].0 == n by {
        lemma_find_name(pm.entries, n);
    }
}

impl Properties {
    #[verifier::type_invariant]
    closed spec fn names_ordered(self) -> bool {
        names_in_order(entries_model(self.entries@))
    }

    /// Creates a new set of properties owned by `owner`.
    pub fn new(owner: Identifier) -> (properties: Properties)
        ensures
            properties@.owner == owner@,
            properties@.entries == Seq::<(Seq<char>, PropertyModel)>::empty(),
    {
        let properties = Properties { owner, entries: Vec::new() };
        proof {
            lemma_entries_model(properties.entries@);
        }
        assert(properties@.entries =~= Seq::<(Seq<char>, PropertyModel)>::empty());
        properties
    }

    /// Returns the identifier of the owner of these properties.
    pub fn owner(&self) -> (owner: &Identifier)
        ensures
            owner@ == self@.owner,
    {
        &self.owner
    }

    /// Returns the number of properties contained in the property map.
    pub fn len(&self) -> (n: usize)
        ensures
            n == self@.entries.len(),
            names_in_order(self@.entries),
    {
        proof {
            use_type_invariant(self);
            lemma_entries_model(self.entries@);
        }
        self.entries.len()
    }

    /// Returns the name and property at position `i`, in ascending name order.
    pub fn entry_at(&self, i: usize) -> (entry: (&String, &Property))
        requires
            i < self@.entries.len(),
        ensures
            entry.0@ == self@.entries[i as int].0,
            entry.1@ == self@.entries[i as int].1,
    {
        proof {
            lemma_entries_model(self.entries@);
        }
        let e = &self.entries[i];
        (&e.0, &e.1)
    }

    /// Returns the position at which `name` stands or would stand.
    fn position(&self, name: &str) -> (r: (usize, bool))
        ensures
            r.0 <= self@.entries.len(),
            forall|j: int| 0 <= j < r.0 ==> str_lt(#[trigger] self@.entries[j].0, name@),
            r.1 ==> r.0 < self@.entries.len() && self@.entries[r.0 as int].0 == name@,
            !r.1 ==> r.0 < self@.entries.len() ==> str_lt(name@, self@.entries[r.0 as int].0),
            r.1 ==> self@.lookup(name@) == Some(self@.entries[r.0 as int].1),
            !r.1 ==> self@.lookup(name@) is None,
    {
        proof {
            use_type_invariant(self);
            lemma_entries_model(self.entries@);
        }
        let mut i: usize = 0;
        while i < self.entries.len()
            invariant
                i <= self@.entries.len(),
                names_in_order(self@.entries),
                self@.entries.len() == self.entries@.len(),
                forall|k: int|
                    0 <= k < self.entries@.len() ==> #[trigger] self@.entries[k].0
                        == self.entries@[k].0@,
                forall|j: int| 0 <= j < i ==> str_lt(#[trigger] self@.entries[j].0, name@),
            decreases self.entries@.len() - i,
        {
            match compare_str(self.entries[i].0.as_str(), name) {
                Order::Less => {},
                Order::Equal => {
                    proof {
                        lemma_find_name_ordered(self@.entries, i as int);
                    }
                    return (i, true);
                },
                Order::Greater => {
                    proof {
                        self.lemma_absent(name@, i as int);
                    }
                    return (i, false);
                },
            }
            i = i + 1;
        }
        proof {
            self.lemma_absent(name@, i as int);
        }
        (i, false)
    }

    /// A name that sorts after the first `i` names and before the rest is absent.
    proof fn lemma_absent(&self, name: Seq<char>, i: int)
        requires
            names_in_order(self@.entries),
            0 <= i <= self@.entries.len(),
            forall|j: int| 0 <= j < i ==> str_lt(#[trigger] self@.entries[j].0, name),
            i < self@.entries.len() ==> str_lt(name, self@.entries[i].0),
        ensures
            self@.lookup(name) is None,
    {
        let s = self@.entries;
        lemma_find_name(s, name);
        let k = find_name(s, name);
        if k >= 0 {
            if k < i {
                lemma_str_lt_irreflexive(name);
            } else {
                if k > i {
                    lemma_str_lt_transitive(name, s[i].0, s[k].0);
                }
                lemma_str_lt_irreflexive(name);
            }
        }
    }

    /// Returns the property named `name`, if any.
    pub fn property(&self, name: &str) -> (p: Option<&Property>)
        ensures
            p is None <==> self@.lookup(name@) is None,
            p matches Some(p) ==> self@.lookup(name@) == Some(p@),
    {
        proof {
            lemma_entries_model(self.entries@);
        }
        let (i, found) = self.position(name);
        if found {
            Some(&self.entries[i].1)
        } else {
            None
        }
    }

    /// Returns true if this map contains a property named `name`.
    pub fn contains(&mut self, name: &str) -> (b: bool)
        ensures
            b == (old(self)@.lookup(name@) is Some),
            final(self)@ == old(self)@,
    {
        let (_, found) = self.position(name);
        found
    }
}

impl Properties {
    /// Replaces the property at position `i`.
    fn replace_at(&mut self, i: usize, property: Property)
        requires
            i < old(self)@.entries.len(),
        ensures
            final(self)@.owner == old(self)@.owner,
            final(self)@.entries == old(self)@.entries.update(
                i as int,
                (old(self)@.entries[i as int].0, property@),
            ),
    {
        proof {
            use_type_invariant(&*self);
            lemma_entries_model(self.entries@);
        }
        let mut entries: Vec<(String, Property)> = Vec::new();
        std::mem::swap(&mut entries, &mut self.entries);
        let ghost before = entries@;
        let name = entries[i].0.clone();
        entries.set(i, (name, property));
        proof {
            lemma_entries_model(entries@);
            assert(entries_model(entries@) =~= entries_model(before).update(
                i as int,
                (entries_model(before)[i as int].0, property@),
            ));
        }
        self.entries = entries;
    }

    /// Inserts a property under a new name at its place in name order.
    fn insert_at(&mut self, i: usize, name: String, property: Property)
        requires
            i <= old(self)@.entries.len(),
            forall|j: int| 0 <= j < i ==> str_lt(#[trigger] old(self)@.entries[j].0, name@),
            i < old(self)@.entries.len() ==> str_lt(name@, old(self)@.entries[i as int].0),
        ensures
            final(self)@.owner == old(self)@.owner,
            final(self)@.entries == old(self)@.entries.insert(i as int, (name@, property@)),
    {
        proof {
            use_type_invariant(&*self);
            lemma_entries_model(self.entries@);
        }
        let mut entries: Vec<(String, Property)> = Vec::new();
        std::mem::swap(&mut entries, &mut self.entries);
        let ghost before = entries_model(entries@);
        let ghost x = (name@, property@);
        entries.insert(i, (name, property));
        proof {
            lemma_entries_model(entries@);
            let v = entries_model(entries@);
            assert(v =~= before.insert(i as int, x));
            assert forall|a: int, b: int| 0 <= a < b < v.len() implies str_lt(
                #[trigger] v[a].0,
                #[trigger] v[b].0,
            ) by {
                if b < i {
                } else if b == i {
                } else if a < i {
                    if b == i + 1 {
                        lemma_str_lt_transitive(v[a].0, x.0, v[b].0);
                    } else {
                        lemma_str_lt_transitive(v[a].0, x.0, before[i as int].0);
                        lemma_str_lt_transitive(v[a].0, before[i as int].0, v[b].0);
                    }
                } else if a == i {
                    if b > i + 1 {
                        lemma_str_lt_transitive(x.0, before[i as int].0, v[b].0);
                    }
                } else {
                }
            }
        }
        self.entries = entries;
    }

    /// Removes the entry at position `i`.
    fn remove_at(&mut self, i: usize) -> (entry: (String, Property))
        requires
            i < old(self)@.entries.len(),
        ensures
            final(self)@.owner == old(self)@.owner,
            final(self)@.entries == old(self)@.entries.remove(i as int),
            (entry.0@, entry.1@) == old(self)@.entries[i as int],
    {
        proof {
            use_type_invariant(&*self);
            lemma_entries_model(self.entries@);
        }
        let mut entries: Vec<(String, Property)> = Vec::new();
        std::mem::swap(&mut entries, &mut self.entries);
        let ghost before = entries_model(entries@);
        let entry = entries.remove(i);
        proof {
            lemma_entries_model(entries@);
            let v = entries_model(entries@);
            assert(v =~= before.remove(i as int));
            assert forall|a: int, b: int| 0 <= a < b < v.len() implies str_lt(
                #[trigger] v[a].0,
                #[trigger] v[b].0,
            ) by {
                if a >= i {
                    assert(v[a] == before[a + 1]);
                    assert(v[b] == before[b + 1]);
                } else if b >= i {
                    assert(v[b] == before[b + 1]);
                }
            }
        }
        self.entries = entries;
        entry
    }
}

/// Replacing the property at a position replaces it in the map.
pub proof fn lemma_map_update(pm: PropertiesModel, i: int, p: PropertyModel)
    requires
        names_in_order(pm.entries),
        0 <= i < pm.entries.len(),
    ensures
        ({
            let after = PropertiesModel {
                owner: pm.owner,
                entries: pm.entries.update(i, (pm.entries[i].0, p)),
            };
            &&& names_in_order(after.entries)
            &&& after.map() == pm.map().insert(pm.entries[i].0, p)
        }),
{
    let after = PropertiesModel { owner: pm.owner, entries: pm.entries.update(i, (pm.entries[i].0, p)) };
    assert(names_in_order(after.entries)) by {
        assert forall|a: int, b: int| 0 <= a < b < after.entries.len() implies str_lt(
            #[trigger] after.entries[a].0,
            #[trigger] after.entries[b].0,
        ) by {
            assert(after.entries[a].0 == pm.entries[a].0);
            assert(after.entries[b].0 == pm.entries[b].0);
        }
    }
    lemma_map_ordered(pm);
    lemma_map_ordered(after);
    let want = pm.map().insert(pm.entries[i].0, p);
    assert forall|n: Seq<char>| #[trigger] after.map().contains_key(n) <==> want.contains_key(n) by {
        if after.map().contains_key(n) {
            let j = choose|j: int| 0 <= j < after.entries.len() && after.entries[j].0 == n;
            assert(pm.entries[j].0 == n);
        }
        if pm.map().contains_key(n) {
            let j = choose|j: int| 0 <= j < pm.entries.len() && pm.entries[j].0 == n;
            assert(after.entries[j].0 == n);
        }
        if n == pm.entries[i].0 {
            assert(after.entries[i].0 == n);
        }
    }
    assert forall|n: Seq<char>| after.map().contains_key(n) implies #[trigger] after.map()[n]
        == want[n] by {
        let j = choose|j: int| 0 <= j < after.entries.len() && after.entries[j].0 == n;
        assert(after.map()[after.entries[j].0] == after.entries[j].1);
        if j != i {
            assert(pm.entries[j] == after.entries[j]);
            assert(pm.map()[pm.entries[j].0] == pm.entries[j].1);
            if n == pm.entries[i].0 {
                lemma_find_name_ordered(pm.entries, i);
                lemma_find_name_ordered(pm.entries, j);
            }
        }
    }
    assert(after.map() =~= want);
}

/// Inserting a property under a new name adds it to the map.
pub proof fn lemma_map_insert(pm: PropertiesModel, i: int, name: Seq<char>, p: PropertyModel)
    requires
        names_in_order(pm.entries),
        names_in_order(pm.entries.insert(i, (name, p))),
        0 <= i <= pm.entries.len(),
    ensures
        pm.with_entries(pm.entries.insert(i, (name, p))).map() == pm.map().insert(name, p),
{
    let after = PropertiesModel { owner: pm.owner, entries: pm.entries.insert(i, (name, p)) };
    lemma_map_ordered(pm);
    lemma_map_ordered(after);
    let want = pm.map().insert(name, p);
    assert forall|n: Seq<char>| #[trigger] after.map().contains_key(n) <==> want.contains_key(n) by {
        if after.map().contains_key(n) {
            let j = choose|j: int| 0 <= j < after.entries.len() && after.entries[j].0 == n;
            if j < i {
                assert(pm.entries[j].0 == n);
            } else if j > i {
                assert(pm.entries[j - 1].0 == n);
            }
        }
        if pm.map().contains_key(n) {
            let j = choose|j: int| 0 <= j < pm.entries.len() && pm.entries[j].0 == n;
            if j < i {
                assert(after.entries[j].0 == n);
            } else {
                assert(after.entries[j + 1].0 == n);
            }
        }
        if n == name {
            assert(after.entries[i].0 == n);
        }
    }
    assert forall|n: Seq<char>| after.map().contains_key(n) implies #[trigger] after.map()[n]
        == want[n] by {
        let j = choose|j: int| 0 <= j < after.entries.len() && after.entries[j].0 == n;
        assert(after.map()[after.entries[j].0] == after.entries[j].1);
        if j < i {
            assert(pm.entries[j] == after.entries[j]);
            assert(pm.map()[pm.entries[j].0] == pm.entries[j].1);
            lemma_find_name_ordered(after.entries, i);
            lemma_find_name_ordered(after.entries, j);
        } else if j > i {
            assert(pm.entries[j - 1] == after.entries[j]);
            assert(pm.map()[pm.entries[j - 1].0] == pm.entries[j - 1].1);
            lemma_find_name_ordered(after.entries, i);
            lemma_find_name_ordered(after.entries, j);
        }
    }
    assert(after.map() =~= want);
}

/// Removing the entry at a position removes its name from the map.
pub proof fn lemma_map_remove(pm: PropertiesModel, i: int)
    requires
        names_in_order(pm.entries),
        0 <= i < pm.entries.len(),
    ensures
        ({
            let after = PropertiesModel { owner: pm.owner, entries: pm.entries.remove(i) };
            &&& names_in_order(after.entries)
            &&& after.map() == pm.map().remove(pm.entries[i].0)
        }),
{
    let after = PropertiesModel { owner: pm.owner, entries: pm.entries.remove(i) };
    assert(names_in_order(after.entries)) by {
        assert forall|a: int, b: int| 0 <= a < b < after.entries.len() implies str_lt(
            #[trigger] after.entries[a].0,
            #[trigger] after.entries[b].0,
        ) by {
            if a >= i {
                assert(after.entries[a] == pm.entries[a + 1]);
                assert(after.entries[b] == pm.entries[b + 1]);
            } else if b >= i {
                assert(after.entries[b] == pm.entries[b + 1]);
            }
        }
    }
    lemma_map_ordered(pm);
    lemma_map_ordered(after);
    let want = pm.map().remove(pm.entries[i].0);
    assert forall|n: Seq<char>| #[trigger] after.map().contains_key(n) <==> want.contains_key(n) by {
        if after.map().contains_key(n) {
            let j = choose|j: int| 0 <= j < after.entries.len() && after.entries[j].0 == n;
            if j < i {
                assert(pm.entries[j].0 == n);
                lemma_find_name_ordered(pm.entries, i);
                lemma_find_name_ordered(pm.entries, j);
            } else {
                assert(pm.entries[j + 1].0 == n);
                lemma_find_name_ordered(pm.entries, i);
                lemma_find_name_ordered(pm.entries, j + 1);
            }
        }
        if want.contains_key(n) {
            let j = choose|j: int| 0 <= j < pm.entries.len() && pm.entries[j].0 == n;
            if j < i {
                assert(after.entries[j].0 == n);
            } else {
                assert(after.entries[j - 1].0 == n);
            }
        }
    }
    assert forall|n: Seq<char>| after.map().contains_key(n) implies #[trigger] after.map()[n]
        == want[n] by {
        let j = choose|j: int| 0 <= j < after.entries.len() && after.entries[j].0 == n;
        assert(after.map()[after.entries[j].0] == after.entries[j].1);
        if j < i {
            assert(pm.entries[j] == after.entries[j]);
            assert(pm.map()[pm.entries[j].0] == pm.entries[j].1);
        } else {
            assert(pm.entries[j + 1] == after.entries[j]);
            assert(pm.map()[pm.entries[j + 1].0] == pm.entries[j + 1].1);
        }
    }
    assert(after.map() =~= want);
}

/// The property that `add` leaves under a name that held `existing`: a
/// value is added to an empty or missing property as a single value, turns a
/// single value into a list of two, and is appended to a list; read-only
/// nested properties are left as they are.
pub open spec fn add_result(existing: Option<PropertyModel>, v: ValueModel) -> PropertyModel {
    match existing {
        None => PropertyModel::Single(v),
        Some(PropertyModel::Single(x)) => PropertyModel::List(seq![x, v]),
        Some(PropertyModel::List(l)) => PropertyModel::List(l.push(v)),
        Some(PropertyModel::Empty) => PropertyModel::Single(v),
        Some(PropertyModel::Properties(pm)) => PropertyModel::Properties(pm),
    }
}

impl Clone for Property {
    fn clone(&self) -> (copy: Self)
        ensures
            copy@ == self@,
    {
        match self {
            Property::Single(v) => Property::Single(v.clone()),
            Property::List(l) => Property::List(clone_values(l)),
            Property::Properties(ps) => Property::Properties(ps.clone()),
            Property::Empty => Property::Empty,
        }
    }
}

/// Copies a list of values.
fn clone_values(values: &Vec<Value>) -> (copy: Vec<Value>)
    ensures
        copy@.map_values(|v: Value| v@) == values@.map_values(|v: Value| v@),
{
    let mut copy: Vec<Value> = Vec::new();
    let mut i: usize = 0;
    while i < values.len()
        invariant
            i <= values@.len(),
            copy@.len() == i,
            forall|j: int| 0 <= j < i ==> (#[trigger] copy@[j])@ == values@[j]@,
        decreases values@.len() - i,
    {
        let c = values[i].clone();
        copy.push(c);
        i = i + 1;
    }
    assert(copy@.map_values(|v: Value| v@) =~= values@.map_values(|v: Value| v@));
    copy
}

impl Properties {
    /// Sets a property.
    pub fn set(&mut self, name: &str, property: Property)
        ensures
            final(self)@.owner == old(self)@.owner,
            final(self)@.map() == old(self)@.map().insert(name@, property@),
    {
        proof {
            use_type_invariant(&*self);
        }
        let (i, found) = self.position(name);
        if found {
            proof {
                lemma_map_update(self@, i as int, property@);
            }
            self.replace_at(i, property);
        } else {
            let ghost before = self@;
            let ghost p = property@;
            self.insert_at(i, name.to_string(), property);
            proof {
                use_type_invariant(&*self);
                lemma_entries_model(self.entries@);
                lemma_map_insert(before, i as int, name@, p);
            }
        }
    }

    /// Removes a property, returning it if it was present.
    pub fn remove(&mut self, name: &str) -> (removed: Option<Property>)
        ensures
            final(self)@.owner == old(self)@.owner,
            final(self)@.map() == old(self)@.map().remove(name@),
            removed is None <==> old(self)@.lookup(name@) is None,
            removed matches Some(p) ==> old(self)@.lookup(name@) == Some(p@),
    {
        proof {
            use_type_invariant(&*self);
        }
        let (i, found) = self.position(name);
        if found {
            proof {
                lemma_map_remove(self@, i as int);
            }
            let (_, property) = self.remove_at(i);
            Some(property)
        } else {
            proof {
                lemma_map_ordered(self@);
                assert(self@.map().remove(name@) =~= self@.map());
            }
            None
        }
    }

    /// Adds a new property value to the collection.
    ///
    /// See `add_result` for what is left under the name.
    pub fn add(&mut self, name: &str, value: Value)
        ensures
            final(self)@.owner == old(self)@.owner,
            final(self)@.map() == old(self)@.map().insert(
                name@,
                add_result(old(self)@.lookup(name@), value@),
            ),
    {
        proof {
            use_type_invariant(&*self);
        }
        let ghost v = value@;
        let (i, found) = self.position(name);
        if found {
            proof {
                lemma_entries_model(self.entries@);
            }
            let next = match &self.entries[i].1 {
                Property::Single(val) => {
                    let mut list: Vec<Value> = Vec::new();
                    list.push(val.clone());
                    list.push(value);
                    assert(list@.map_values(|x: Value| x@) =~= seq![val@, v]);
                    Property::List(list)
                },
                Property::List(values) => {
                    let mut list = clone_values(values);
                    let ghost before = list@;
                    list.push(value);
                    assert(list@.map_values(|x: Value| x@) =~= values@.map_values(|x: Value| x@).push(v)) by {
                        assert(list@ =~= before.push(value));
                        assert(before.map_values(|x: Value| x@) == values@.map_values(|x: Value| x@));
                        assert forall|j: int| 0 <= j < before.len() implies (#[trigger] list@[j])@
                            == before.map_values(|x: Value| x@)[j] by {
                            assert(list@[j] == before[j]);
                        }
                    }
                    Property::List(list)
                },
                Property::Empty => Property::Single(value),
                Property::Properties(_) => {
                    proof {
                        lemma_map_ordered(self@);
                        assert(self@.map().insert(name@, add_result(self@.lookup(name@), value@))
                            =~= self@.map());
                    }
                    return ;
                },
            };
            assert(next@ == add_result(self@.lookup(name@), v));
            proof {
                lemma_map_update(self@, i as int, next@);
            }
            self.replace_at(i, next);
        } else {
            let ghost before = self@;
            self.insert_at(i, name.to_string(), Property::Single(value));
            proof {
                use_type_invariant(&*self);
                lemma_entries_model(self.entries@);
                lemma_map_insert(before, i as int, name@, PropertyModel::Single(v));
            }
        }
    }
}

impl Clone for Properties {
    fn clone(&self) -> (copy: Self)
        ensures
            copy@ == self@,
    {
        proof {
            use_type_invariant(self);
            lemma_entries_model(self.entries@);
        }
        let mut entries: Vec<(String, Property)> = Vec::new();
        let mut i: usize = 0;
        while i < self.entries.len()
            invariant
                i <= self.entries@.len(),
                entries@.len() == i,
                forall|j: int|
                    0 <= j < i ==> (#[trigger] entries@[j]).0@ == self.entries@[j].0@
                        && entries@[j].1@ == self.entries@[j].1@,
            decreases self.entries@.len() - i,
        {
            let name = self.entries[i].0.clone();
            let property = self.entries[i].1.clone();
            entries.push((name, property));
            i = i + 1;
        }
        proof {
            lemma_entries_model(entries@);
            assert(entries_model(entries@) =~= entries_model(self.entries@));
        }
        Properties { owner: self.owner.clone(), entries }
    }
}

impl Properties {
    /// Takes a property from this collection, replacing it with `Empty`.
    ///
    /// Returns `None`, and changes nothing, where the property is missing
    /// or already empty.
    pub fn take(&mut self, name: &str) -> (taken: Option<Property>)
        ensures
            final(self)@.owner == old(self)@.owner,
            taken is Some <==> (old(self)@.lookup(name@) is Some && old(self)@.lookup(name@)
                != Some(PropertyModel::Empty)),
            taken matches Some(p) ==> old(self)@.lookup(name@) == Some(p@),
            taken is Some ==> final(self)@.map() == old(self)@.map().insert(
                name@,
                PropertyModel::Empty,
            ),
            taken is None ==> final(self)@ == old(self)@,
    {
        proof {
            use_type_invariant(&*self);
        }
        let (i, found) = self.position(name);
        if !found {
            return None;
        }
        proof {
            lemma_entries_model(self.entries@);
        }
        if let Property::Empty = &self.entries[i].1 {
            return None;
        }
        let taken = self.entries[i].1.clone();
        proof {
            lemma_map_update(self@, i as int, PropertyModel::Empty);
        }
        self.replace_at(i, Property::Empty);
        Some(taken)
    }

    /// Adds a read-only reference to another property map, under the name
    /// of its owner.
    pub fn add_readonly_properties(&mut self, properties: &Properties)
        ensures
            final(self)@.owner == old(self)@.owner,
            final(self)@.map() == old(self)@.map().insert(
                properties@.owner.0,
                PropertyModel::Properties(properties@),
            ),
    {
        let nested = Arc::new(properties.clone());
        let name = properties.owner.name.clone();
        self.set(name.as_str(), Property::Properties(nested));
    }

    /// Returns a clone of self with the property set.
    pub fn with(&self, name: &str, property: Property) -> (updated: Self)
        ensures
            updated@.owner == self@.owner,
            updated@.map() == self@.map().insert(name@, property@),
    {
        let mut clone = self.clone();
        clone.set(name, property);
        clone
    }
}

/// The property that a property reads its data from: a nested property
/// map stands for its subject's property (an empty property where the map
/// has none); any other property stands for itself.
pub open spec fn resolve(p: PropertyModel) -> PropertyModel
    decreases p,
{
    match p {
        PropertyModel::Properties(pm) => {
            let i = find_name(pm.entries, pm.owner.1);
            if 0 <= i < pm.entries.len() {
                resolve(pm.entries[i].1)
            } else {
                PropertyModel::Empty
            }
        },
        _ => p,
    }
}

/// The text buffers among a list of values, in order.
pub open spec fn texts_of(l: Seq<ValueModel>) -> Seq<Seq<char>>
    decreases l.len(),
{
    if l.len() == 0 {
        Seq::empty()
    } else {
        let rest = texts_of(l.drop_last());
        match l.last() {
            ValueModel::TextBuffer(t) => rest.push(t),
            _ => rest,
        }
    }
}

/// The symbols among a list of values, in order.
pub open spec fn symbols_of(l: Seq<ValueModel>) -> Seq<Seq<char>>
    decreases l.len(),
{
    if l.len() == 0 {
        Seq::empty()
    } else {
        let rest = symbols_of(l.drop_last());
        match l.last() {
            ValueModel::Symbol(s) => rest.push(s),
            _ => rest,
        }
    }
}

/// The ints among a list of values, in order.
pub open spec fn ints_of(l: Seq<ValueModel>) -> Seq<i32>
    decreases l.len(),
{
    if l.len() == 0 {
        Seq::empty()
    } else {
        let rest = ints_of(l.drop_last());
        match l.last() {
            ValueModel::Int(i) => rest.push(i),
            _ => rest,
        }
    }
}

/// The float bits among a list of values, in order.
pub open spec fn floats_of(l: Seq<ValueModel>) -> Seq<u32>
    decreases l.len(),
{
    if l.len() == 0 {
        Seq::empty()
    } else {
        let rest = floats_of(l.drop_last());
        match l.last() {
            ValueModel::Float(f) => rest.push(f),
            _ => rest,
        }
    }
}

impl Property {
    /// Edits the value of this property: a single value through
    /// `on_single`, a list through `on_list`; an empty property becomes the
    /// single value that `on_empty` returns, if any; a read-only property
    /// map is left as it is.
    pub fn edit<S: Fn(&mut Value), L: Fn(&mut Vec<Value>), E: Fn() -> Option<Value>>(
        &mut self,
        on_single: S,
        on_list: L,
        on_empty: E,
    )
        requires
            forall|v: &mut Value| call_requires(on_single, (v,)),
            forall|l: &mut Vec<Value>| call_requires(on_list, (l,)),
            call_requires(on_empty, ()),
        ensures
            match *old(self) {
                Property::Single(v) => exists|r: &mut Value|
                    mut_ref_current(r) == v && *final(self) == Property::Single(mut_ref_future(r))
                        && call_ensures(on_single, (r,), ()),
                Property::List(l) => exists|r: &mut Vec<Value>|
                    mut_ref_current(r) == l && *final(self) == Property::List(mut_ref_future(r))
                        && call_ensures(on_list, (r,), ()),
                Property::Properties(_) => *final(self) == *old(self),
                Property::Empty => exists|o: Option<Value>| call_ensures(on_empty, (), o) && *final(self) == match o {
                    Some(v) => Property::Single(v),
                    None => Property::Empty,
                },
            },
    {
        match self {
            Property::Single(single) => on_single(single),
            Property::List(list) => on_list(list),
            Property::Properties(_) => {},
            Property::Empty => match on_empty() {
                Some(value) => *self = Property::Single(value),
                None => {},
            },
        }
    }
}

impl Property {
    /// Returns the property this property reads its data from; `None` stands
    /// for an empty property.
    fn resolved(&self) -> (r: Option<&Property>)
        ensures
            r matches Some(q) ==> q@ == resolve(self@) && !(q@ is Properties),
            r is None ==> resolve(self@) == PropertyModel::Empty,
        decreases self@,
    {
        match self {
            Property::Properties(ps) => {
                proof {
                    use_type_invariant(&**ps);
                    lemma_entries_model(ps.entries@);
                }
                let (i, found) = ps.position(ps.owner.subject.as_str());
                if found {
                    let q = &ps.entries[i].1;
                    proof {
                        lemma_find_name_ordered(ps@.entries, i as int);
                        assert(decreases_to!(self@ => q@));
                    }
                    q.resolved()
                } else {
                    proof {
                        lemma_find_name(ps@.entries, ps@.owner.1);
                    }
                    None
                }
            },
            _ => Some(self),
        }
    }
}

impl Property {
    /// Returns true if the property is a bool value and true.
    ///
    /// A nested property map answers for its subject's property.
    pub fn is_enabled(&self) -> (r: bool)
        ensures
            r == (resolve(self@) == PropertyModel::Single(ValueModel::Bool(true))),
    {
        match self.resolved() {
            Some(Property::Single(Value::Bool(enabled))) => *enabled,
            _ => false,
        }
    }

    /// Returns a string if the property is a single text buffer.
    ///
    /// A nested property map answers for its subject's property.
    pub fn as_text(&self) -> (r: Option<&String>)
        ensures
            match resolve(self@) {
                PropertyModel::Single(ValueModel::TextBuffer(t)) => r is Some && r->Some_0@ == t,
                _ => r is None,
            },
    {
        match self.resolved() {
            Some(Property::Single(Value::TextBuffer(text))) => Some(text),
            _ => None,
        }
    }

    /// Returns a reference to a String if the property is a single symbol.
    ///
    /// A nested property map answers for its subject's property.
    pub fn as_symbol(&self) -> (r: Option<&String>)
        ensures
            match resolve(self@) {
                PropertyModel::Single(ValueModel::Symbol(s)) => r is Some && r->Some_0@ == s,
                _ => r is None,
            },
    {
        match self.resolved() {
            Some(Property::Single(Value::Symbol(symbol))) => Some(symbol),
            _ => None,
        }
    }

    /// Returns a &str if the property is a single symbol.
    ///
    /// A nested property map answers for its subject's property.
    pub fn as_symbol_str(&self) -> (r: Option<&str>)
        ensures
            match resolve(self@) {
                PropertyModel::Single(ValueModel::Symbol(s)) => r is Some && r->Some_0@ == s,
                _ => r is None,
            },
    {
        match self.as_symbol() {
            Some(s) => Some(s.as_str()),
            None => None,
        }
    }

    /// Returns an integer if the property is an int.
    ///
    /// A nested property map answers for its subject's property.
    pub fn as_int(&self) -> (r: Option<i32>)
        ensures
            r == (match resolve(self@) {
                PropertyModel::Single(ValueModel::Int(i)) => Some(i),
                _ => None,
            }),
    {
        match self.resolved() {
            Some(Property::Single(Value::Int(i))) => Some(*i),
            _ => None,
        }
    }

    /// Returns the bits of a float if the property is a float.
    ///
    /// A nested property map answers for its subject's property.
    pub fn as_float(&self) -> (r: Option<u32>)
        ensures
            r == (match resolve(self@) {
                PropertyModel::Single(ValueModel::Float(f)) => Some(f),
                _ => None,
            }),
    {
        match self.resolved() {
            Some(Property::Single(Value::Float(f))) => Some(*f),
            _ => None,
        }
    }

    /// Returns the bits of two floats if the property is a float pair.
    ///
    /// A nested property map answers for its subject's property.
    pub fn as_float2(&self) -> (r: Option<[u32; 2]>)
        ensures
            r == (match resolve(self@) {
                PropertyModel::Single(ValueModel::FloatPair(a, b)) => Some([a, b]),
                _ => None,
            }),
    {
        match self.resolved() {
            Some(Property::Single(Value::FloatPair(f1, f2))) => Some([*f1, *f2]),
            _ => None,
        }
    }

    /// Returns an array of two integers if the property is an int pair.
    ///
    /// A nested property map answers for its subject's property.
    pub fn as_int2(&self) -> (r: Option<[i32; 2]>)
        ensures
            r == (match resolve(self@) {
                PropertyModel::Single(ValueModel::IntPair(a, b)) => Some([a, b]),
                _ => None,
            }),
    {
        match self.resolved() {
            Some(Property::Single(Value::IntPair(i1, i2))) => Some([*i1, *i2]),
            _ => None,
        }
    }

    /// Returns the bits of three floats if the property is a float range.
    ///
    /// A nested property map answers for its subject's property.
    pub fn as_float3(&self) -> (r: Option<[u32; 3]>)
        ensures
            r == (match resolve(self@) {
                PropertyModel::Single(ValueModel::FloatRange(a, b, c)) => Some([a, b, c]),
                _ => None,
            }),
    {
        match self.resolved() {
            Some(Property::Single(Value::FloatRange(f1, f2, f3))) => Some([*f1, *f2, *f3]),
            _ => None,
        }
    }

    /// Returns an array of three integers if the property is an int range.
    ///
    /// A nested property map answers for its subject's property.
    pub fn as_int3(&self) -> (r: Option<[i32; 3]>)
        ensures
            r == (match resolve(self@) {
                PropertyModel::Single(ValueModel::IntRange(a, b, c)) => Some([a, b, c]),
                _ => None,
            }),
    {
        match self.resolved() {
            Some(Property::Single(Value::IntRange(i1, i2, i3))) => Some([*i1, *i2, *i3]),
            _ => None,
        }
    }

    /// Returns the list of values if the property is a list.
    ///
    /// A nested property map answers for its subject's property.
    pub fn as_value_vec(&self) -> (r: Option<&Vec<Value>>)
        ensures
            match resolve(self@) {
                PropertyModel::List(l) => r is Some && r->Some_0@.map_values(|v: Value| v@) == l,
                _ => r is None,
            },
    {
        match self.resolved() {
            Some(Property::List(list)) => Some(list),
            _ => None,
        }
    }

    /// Returns a binary vector if the property is a single binary value.
    ///
    /// A nested property map answers for its subject's property.
    pub fn as_binary(&self) -> (r: Option<&Vec<u8>>)
        ensures
            match resolve(self@) {
                PropertyModel::Single(ValueModel::BinaryVector(b)) => r is Some && r->Some_0@ == b,
                _ => r is None,
            },
    {
        match self.resolved() {
            Some(Property::Single(Value::BinaryVector(bin))) => Some(bin),
            _ => None,
        }
    }

    /// Returns the nested property map, if this property is one (not followed
    /// to its subject).
    pub fn as_properties(&self) -> (r: Option<Arc<Properties>>)
        ensures
            match self@ {
                PropertyModel::Properties(pm) => r is Some && (*r->Some_0)@ == pm,
                _ => r is None,
            },
    {
        match self {
            Property::Properties(properties) => Some(properties.clone()),
            _ => None,
        }
    }
}

impl Property {
    /// Returns the texts of this property: the value of a single text, or
    /// each text of a list of values, in order.
    ///
    /// A nested property map answers for its subject's property.
    pub fn as_text_vec(&self) -> (r: Option<Vec<String>>)
        ensures
            match resolve(self@) {
                PropertyModel::Single(ValueModel::TextBuffer(t)) => r is Some && r->Some_0@.map_values(|x: String| x@) == seq![t],
                PropertyModel::List(l) => r is Some && r->Some_0@.map_values(|x: String| x@) == texts_of(l),
                _ => r is None,
            },
    {
        match self.resolved() {
            Some(Property::Single(Value::TextBuffer(t))) => {
                let mut out: Vec<String> = Vec::new();
                out.push(t.clone());
                proof {
                    assert(out@.map_values(|x: String| x@) =~= seq![t@]);
                }
                Some(out)
            },
            Some(Property::List(values)) => {
                let ghost l = values@.map_values(|v: Value| v@);
                let mut out: Vec<String> = Vec::new();
                let mut i: usize = 0;
                while i < values.len()
                    invariant
                        i <= values@.len(),
                        l == values@.map_values(|v: Value| v@),
                        out@.map_values(|x: String| x@) == texts_of(l.take(i as int)),
                    decreases values@.len() - i,
                {
                    proof {
                        assert(l.take(i + 1).drop_last() =~= l.take(i as int));
                    }
                    match &values[i] {
                        Value::TextBuffer(t) => {
                            out.push(t.clone());
                            proof {
                                assert(out@.map_values(|x: String| x@) =~= texts_of(l.take(i as int)).push(t@));
                            }
                        },
                        _ => {},
                    }
                    i = i + 1;
                }
                assert(l.take(values@.len() as int) =~= l);
                Some(out)
            },
            _ => None,
        }
    }

    /// Returns the symbols of this property: the value of a single symbol, or
    /// each symbol of a list of values, in order.
    ///
    /// A nested property map answers for its subject's property.
    pub fn as_symbol_vec(&self) -> (r: Option<Vec<String>>)
        ensures
            match resolve(self@) {
                PropertyModel::Single(ValueModel::Symbol(t)) => r is Some && r->Some_0@.map_values(|x: String| x@) == seq![t],
                PropertyModel::List(l) => r is Some && r->Some_0@.map_values(|x: String| x@) == symbols_of(l),
                _ => r is None,
            },
    {
        match self.resolved() {
            Some(Property::Single(Value::Symbol(t))) => {
                let mut out: Vec<String> = Vec::new();
                out.push(t.clone());
                proof {
                    assert(out@.map_values(|x: String| x@) =~= seq![t@]);
                }
                Some(out)
            },
            Some(Property::List(values)) => {
                let ghost l = values@.map_values(|v: Value| v@);
                let mut out: Vec<String> = Vec::new();
                let mut i: usize = 0;
                while i < values.len()
                    invariant
                        i <= values@.len(),
                        l == values@.map_values(|v: Value| v@),
                        out@.map_values(|x: String| x@) == symbols_of(l.take(i as int)),
                    decreases values@.len() - i,
                {
                    proof {
                        assert(l.take(i + 1).drop_last() =~= l.take(i as int));
                    }
                    match &values[i] {
                        Value::Symbol(t) => {
                            out.push(t.clone());
                            proof {
                                assert(out@.map_values(|x: String| x@) =~= symbols_of(l.take(i as int)).push(t@));
                            }
                        },
                        _ => {},
                    }
                    i = i + 1;
                }
                assert(l.take(values@.len() as int) =~= l);
                Some(out)
            },
            _ => None,
        }
    }

    /// Returns the ints of this property: the value of a single int, or
    /// each int of a list of values, in order.
    ///
    /// A nested property map answers for its subject's property.
    pub fn as_int_vec(&self) -> (r: Option<Vec<i32>>)
        ensures
            match resolve(self@) {
                PropertyModel::Single(ValueModel::Int(t)) => r is Some && r->Some_0@ == seq![t],
                PropertyModel::List(l) => r is Some && r->Some_0@ == ints_of(l),
                _ => r is None,
            },
    {
        match self.resolved() {
            Some(Property::Single(Value::Int(t))) => {
                let mut out: Vec<i32> = Vec::new();
                out.push(*t);
                proof {
                    assert(out@ =~= seq![*t]);
                }
                Some(out)
            },
            Some(Property::List(values)) => {
                let ghost l = values@.map_values(|v: Value| v@);
                let mut out: Vec<i32> = Vec::new();
                let mut i: usize = 0;
                while i < values.len()
                    invariant
                        i <= values@.len(),
                        l == values@.map_values(|v: Value| v@),
                        out@ == ints_of(l.take(i as int)),
                    decreases values@.len() - i,
                {
                    proof {
                        assert(l.take(i + 1).drop_last() =~= l.take(i as int));
                    }
                    match &values[i] {
                        Value::Int(t) => {
                            out.push(*t);
                            proof {
                                assert(out@ =~= ints_of(l.take(i as int)).push(*t));
                            }
                        },
                        _ => {},
                    }
                    i = i + 1;
                }
                assert(l.take(values@.len() as int) =~= l);
                Some(out)
            },
            _ => None,
        }
    }

    /// Returns the floats of this property: the value of a single float, or
    /// each float of a list of values, in order.
    ///
    /// A nested property map answers for its subject's property.
    pub fn as_float_vec(&self) -> (r: Option<Vec<u32>>)
        ensures
            match resolve(self@) {
                PropertyModel::Single(ValueModel::Float(t)) => r is Some && r->Some_0@ == seq![t],
                PropertyModel::List(l) => r is Some && r->Some_0@ == floats_of(l),
                _ => r is None,
            },
    {
        match self.resolved() {
            Some(Property::Single(Value::Float(t))) => {
                let mut out: Vec<u32> = Vec::new();
                out.push(*t);
                proof {
                    assert(out@ =~= seq![*t]);
                }
                Some(out)
            },
            Some(Property::List(values)) => {
                let ghost l = values@.map_values(|v: Value| v@);
                let mut out: Vec<u32> = Vec::new();
                let mut i: usize = 0;
                while i < values.len()
                    invariant
                        i <= values@.len(),
                        l == values@.map_values(|v: Value| v@),
                        out@ == floats_of(l.take(i as int)),
                    decreases values@.len() - i,
                {
                    proof {
                        assert(l.take(i + 1).drop_last() =~= l.take(i as int));
                    }
                    match &values[i] {
                        Value::Float(t) => {
                            out.push(*t);
                            proof {
                                assert(out@ =~= floats_of(l.take(i as int)).push(*t));
                            }
                        },
                        _ => {},
                    }
                    i = i + 1;
                }
                assert(l.take(values@.len() as int) =~= l);
                Some(out)
            },
            _ => None,
        }
    }

}

/// Every string of a property map: each name, and the strings of each property.
pub open spec fn entry_strings(entries: Seq<(Seq<char>, PropertyModel)>) -> Set<Seq<char>>
    decreases entries,
{
    if entries.len() == 0 {
        Set::empty()
    } else {
        let last = entries[entries.len() - 1];
        entry_strings(entries.subrange(0, entries.len() - 1)).insert(last.0).union(
            property_strings(last.1),
        )
    }
}

/// The strings of a property: a single symbol, the symbols of a list, or
/// every string of a nested property map.
pub open spec fn property_strings(p: PropertyModel) -> Set<Seq<char>>
    decreases p,
{
    match p {
        PropertyModel::Single(ValueModel::Symbol(s)) => set![s],
        PropertyModel::List(l) => symbols_of(l).to_set(),
        PropertyModel::Properties(pm) => entry_strings(pm.entries),
        _ => Set::empty(),
    }
}

/// The strings of each entry are strings of the map.
pub proof fn lemma_entry_strings(entries: Seq<(Seq<char>, PropertyModel)>, i: int)
    requires
        0 <= i < entries.len(),
    ensures
        entry_strings(entries).contains(entries[i].0),
        property_strings(entries[i].1).subset_of(entry_strings(entries)),
    decreases entries.len(),
{
    let prefix = entries.subrange(0, entries.len() - 1);
    if i < entries.len() - 1 {
        lemma_entry_strings(prefix, i);
        assert(prefix[i] == entries[i]);
    }
}

/// The strings of the first `i + 1` entries are those of the first `i`, the
/// name of entry `i` and the strings of its property.
pub proof fn lemma_entry_strings_take(entries: Seq<(Seq<char>, PropertyModel)>, i: int)
    requires
        0 <= i < entries.len(),
    ensures
        entry_strings(entries.take(i + 1)) == entry_strings(entries.take(i)).insert(
            entries[i].0,
        ).union(property_strings(entries[i].1)),
{
    let t = entries.take(i + 1);
    assert(t.subrange(0, t.len() - 1) =~= entries.take(i));
}

/// The symbols a property answers with are strings of that property.
pub proof fn lemma_resolve_strings(p: PropertyModel)
    ensures
        resolve(p) matches PropertyModel::Single(ValueModel::Symbol(s)) ==> property_strings(
            p,
        ).contains(s),
        resolve(p) matches PropertyModel::List(l) ==> symbols_of(l).to_set().subset_of(
            property_strings(p),
        ),
    decreases p,
{
    if let PropertyModel::Properties(pm) = p {
        let i = find_name(pm.entries, pm.owner.1);
        if 0 <= i < pm.entries.len() {
            lemma_resolve_strings(pm.entries[i].1);
            lemma_entry_strings(pm.entries, i);
        }
    }
}

/// Returns a property holding the single value `value`.
pub fn property_value(value: Value) -> (p: Property)
    ensures
        p == Property::Single(value),
        p@ == PropertyModel::Single(value@),
{
    Property::Single(value)
}

/// Returns a property holding the list `list`.
pub fn property_list(list: Vec<Value>) -> (p: Property)
    ensures
        p == Property::List(list),
        p@ == PropertyModel::List(list@.map_values(|v: Value| v@)),
{
    Property::List(list)
}

impl Property {
    /// The property read as a string: its symbol, or the empty string where
    /// it is no single symbol.
    pub fn to_symbol_string(&self) -> (s: String)
        ensures
            s@ == match resolve(self@) {
                PropertyModel::Single(ValueModel::Symbol(t)) => t,
                _ => Seq::empty(),
            },
    {
        match self.as_symbol() {
            Some(s) => s.clone(),
            None => String::new(),
        }
    }

    /// The property read as an `i32`: its int, or `0` where it is no int.
    pub fn to_i32(&self) -> (i: i32)
        ensures
            i == match resolve(self@) {
                PropertyModel::Single(ValueModel::Int(v)) => v,
                _ => 0,
            },
    {
        match self.as_int() {
            Some(i) => i,
            None => 0,
        }
    }

    /// The property read as a `usize`: its int converted with `as`, or `0`
    /// where it is no int.
    pub fn to_usize(&self) -> (n: usize)
        ensures
            n == match resolve(self@) {
                PropertyModel::Single(ValueModel::Int(v)) => v as usize,
                _ => 0,
            },
    {
        match self.as_int() {
            Some(i) => {
                #[verifier::truncate]
                (i as usize)
            },
            None => 0,
        }
    }

    /// The property read as a `bool`: true where it is the value `true`.
    pub fn to_bool(&self) -> (b: bool)
        ensures
            b == (resolve(self@) == PropertyModel::Single(ValueModel::Bool(true))),
    {
        self.is_enabled()
    }
}

/// The model of a property follows its variant: a single value by the
/// value's view, a list by the views of its values.
pub proof fn lemma_property_view(p: Property)
    ensures
        match p {
            Property::Single(v) => p@ == PropertyModel::Single(v@),
            Property::List(l) => p@ == PropertyModel::List(l@.map_values(|v: Value| v@)),
            Property::Properties(ps) => p@ is Properties,
            Property::Empty => p@ == PropertyModel::Empty,
        },
{
}

} // verus!
