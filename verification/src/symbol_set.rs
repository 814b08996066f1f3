use vstd::prelude::*;

use crate::order::compare_str;
use crate::order::lemma_str_lt_irreflexive;
use crate::order::lemma_str_lt_transitive;
use crate::order::str_lt;
use crate::order::Order;

verus! {

/// A sequence of strings is in set order when every string is strictly
/// smaller than the strings after it (so no string occurs twice).
pub open spec fn in_set_order(s: Seq<Seq<char>>) -> bool {
    forall|i: int, j: int| 0 <= i < j < s.len() ==> str_lt(#[trigger] s[i], #[trigger] s[j])
}

/// An ordered set of strings, kept in the byte order of its members.
///
/// This is the set type of complex values: a complex is a set of strings
/// that is interned as a whole.
#[derive(Debug)]
pub struct SymbolSet {
    items: Vec<String>,
}

impl View for SymbolSet {
    type V = Seq<Seq<char>>;

    /// The members, in ascending byte order.
    closed spec fn view(&self) -> Seq<Seq<char>> {
        self.items@.map_values(|s: String| s@)
    }
}

impl SymbolSet {
    #[verifier::type_invariant]
    closed spec fn ordered(self) -> bool {
        in_set_order(self.items@.map_values(|s: String| s@))
    }

    /// Returns an empty set.
    pub fn new() -> (set: SymbolSet)
        ensures
            set@ == Seq::<Seq<char>>::empty(),
            in_set_order(set@),
    {
        let set = SymbolSet { items: Vec::new() };
        assert(set.items@.map_values(|s: String| s@) =~= Seq::<Seq<char>>::empty());
        set
    }

    /// Returns the number of members.
    pub fn len(&self) -> (n: usize)
        ensures
            n == self@.len(),
            in_set_order(self@),
    {
        proof {
            use_type_invariant(self);
        }
        self.items.len()
    }

    /// Returns the member at position `i` in ascending order.
    pub fn get(&self, i: usize) -> (s: &String)
        requires
            i < self@.len(),
        ensures
            s@ == self@[i as int],
    {
        &self.items[i]
    }

    /// Returns the position at which `s` stands or would stand.
    fn position(&self, s: &str) -> (r: (usize, bool))
        ensures
            r.0 <= self@.len(),
            forall|j: int| 0 <= j < r.0 ==> str_lt(#[trigger] self@[j], s@),
            r.1 ==> r.0 < self@.len() && self@[r.0 as int] == s@,
            !r.1 ==> r.0 < self@.len() ==> str_lt(s@, self@[r.0 as int]),
    {
        proof {
            use_type_invariant(self);
        }
        let mut i: usize = 0;
        while i < self.items.len()
            invariant
                i <= self@.len(),
                self@ == self.items@.map_values(|x: String| x@),
                forall|j: int| 0 <= j < i ==> str_lt(#[trigger] self@[j], s@),
            decreases self@.len() - i,
        {
            match compare_str(self.items[i].as_str(), s) {
                Order::Less => {},
                Order::Equal => {
                    return (i, true);
                },
                Order::Greater => {
                    return (i, false);
                },
            }
            i = i + 1;
        }
        (i, false)
    }

    /// Returns true if `s` is a member.
    pub fn contains(&self, s: &str) -> (b: bool)
        ensures
            b == self@.contains(s@),
    {
        let (i, found) = self.position(s);
        proof {
            if !found && self@.contains(s@) {
                let k = choose|k: int| 0 <= k < self@.len() && self@[k] == s@;
                if k < i {
                    lemma_str_lt_irreflexive(s@);
                } else {
                    use_type_invariant(self);
                    if k > i {
                        lemma_str_lt_transitive(s@, self@[i as int], self@[k]);
                    }
                    lemma_str_lt_irreflexive(s@);
                }
            }
        }
        found
    }

    /// Adds `s` to the set; returns true if it was not a member before.
    pub fn insert(&mut self, s: String) -> (added: bool)
        ensures
            added == !old(self)@.contains(s@),
            final(self)@.to_set() == old(self)@.to_set().insert(s@),
            added ==> final(self)@.len() == old(self)@.len() + 1,
            in_set_order(final(self)@),
            !added ==> final(self)@ == old(self)@,
    {
        proof {
            use_type_invariant(&*self);
        }
        let ghost before = self@;
        let found = self.contains(s.as_str());
        if found {
            return false;
        }
        let (i, _) = self.position(s.as_str());
        proof {
            use_type_invariant(&*self);
        }
        let ghost x = s@;
        let mut items: Vec<String> = Vec::new();
        std::mem::swap(&mut items, &mut self.items);
        let ghost old_items = items@;
        items.insert(i, s);
        proof {
            let v = items@.map_values(|t: String| t@);
            assert(v =~= before.insert(i as int, x));
            assert forall|a: int, b: int| 0 <= a < b < v.len() implies str_lt(
                #[trigger] v[a],
                #[trigger] v[b],
            ) by {
                if b < i {
                } else if b == i {
                } else if a < i {
                    if b == i + 1 {
                        lemma_str_lt_transitive(v[a], x, v[b]);
                    } else {
                        lemma_str_lt_transitive(v[a], x, before[i as int]);
                        lemma_str_lt_transitive(v[a], before[i as int], v[b]);
                    }
                } else if a == i {
                    if b > i + 1 {
                        lemma_str_lt_transitive(x, before[i as int], v[b]);
                    }
                } else {
                }
            }
            assert forall|y: Seq<char>| v.to_set().contains(y) <==> before.to_set().insert(
                x,
            ).contains(y) by {
                if v.contains(y) {
                    let k = choose|k: int| 0 <= k < v.len() && v[k] == y;
                    if k < i {
                        assert(before[k] == y);
                    } else if k > i {
                        assert(before[k - 1] == y);
                    }
                }
                if before.contains(y) {
                    let k = choose|k: int| 0 <= k < before.len() && before[k] == y;
                    if k < i {
                        assert(v[k] == y);
                    } else {
                        assert(v[k + 1] == y);
                    }
                }
                if y == x {
                    assert(v[i as int] == y);
                }
            }
            assert(v.to_set() =~= before.to_set().insert(x));
        }
        self.items = items;
        true
    }
}

impl SymbolSet {
    /// Collects a list of strings into a set.
    pub fn from_strs(list: &Vec<&str>) -> (set: SymbolSet)
        ensures
            set@.to_set() == list@.map_values(|s: &str| s@).to_set(),
            in_set_order(set@),
    {
        let mut set = SymbolSet::new();
        let ghost names = list@.map_values(|s: &str| s@);
        let mut i: usize = 0;
        while i < list.len()
            invariant
                i <= list@.len(),
                names == list@.map_values(|s: &str| s@),
                set@.to_set() == names.take(i as int).to_set(),
            decreases list@.len() - i,
        {
            let s = list[i];
            set.insert(s.to_string());
            proof {
                assert(names.take(i + 1) =~= names.take(i as int).push(s@));
                vstd::seq_lib::lemma_seq_contains_after_push(names.take(i as int), s@, s@);
                assert(names.take(i + 1).to_set() =~= names.take(i as int).to_set().insert(s@)) by {
                    assert forall|y: Seq<char>| names.take(i + 1).to_set().contains(y)
                        <==> names.take(i as int).to_set().insert(s@).contains(y) by {
                        vstd::seq_lib::lemma_seq_contains_after_push(names.take(i as int), s@, y);
                    }
                }
            }
            i = i + 1;
        }
        assert(names.take(list@.len() as int) =~= names);
        let n = set.len();
        set
    }
}

impl Clone for SymbolSet {
    fn clone(&self) -> (copy: Self)
        ensures
            copy@ == self@,
    {
        proof {
            use_type_invariant(self);
        }
        let items = self.items.clone();
        proof {
            assert(items@.map_values(|s: String| s@) =~= self.items@.map_values(|s: String| s@));
        }
        SymbolSet { items }
    }
}

} // verus!
