use std::marker::PhantomData;
use vstd::prelude::*;

use crate::order::same_str;

verus! {

/// Wrapper over a field offset and the field's type, so that a route can be
/// matched by offset.
pub struct FieldIndex<const OFFSET: usize, T>(pub PhantomData<T>);

/// A field offset, convertible into a field index.
pub struct FieldKey<const OFFSET: usize>;

impl<const OFFSET: usize, T> From<FieldKey<OFFSET>> for FieldIndex<OFFSET, T> {
    fn from(key: FieldKey<OFFSET>) -> (i: FieldIndex<OFFSET, T>) {
        FieldIndex(PhantomData)
    }
}

impl<const OFFSET: usize, T> vstd::std_specs::convert::FromSpecImpl<FieldKey<OFFSET>> for FieldIndex<OFFSET, T> {
    open spec fn obeys_from_spec() -> bool {
        true
    }

    open spec fn from_spec(v: FieldKey<OFFSET>) -> FieldIndex<OFFSET, T> {
        FieldIndex(PhantomData)
    }
}

/// A field of a plugin as its router sees it: the field's offset, its
/// name, and whether an edit of the field is pending.
#[derive(Debug)]
pub struct FieldRef {
    pub offset: usize,
    pub name: String,
    pub pending: bool,
}

/// The field with the given offset and name, with no pending edit.
pub open spec fn fresh_field(f: FieldRef, offset: int, name: Seq<char>) -> bool {
    f.offset == offset && f.name@ == name && !f.pending
}

/// `after` is `before` with the pending flag raised on each field whose
/// name is one of `names`.
pub open spec fn marked_pending(before: Seq<FieldRef>, after: Seq<FieldRef>, names: Seq<Seq<char>>) -> bool {
    &&& after.len() == before.len()
    &&& forall|i: int|
        0 <= i < after.len() ==> {
            &&& (#[trigger] after[i]).offset == before[i].offset
            &&& after[i].name@ == before[i].name@
            &&& after[i].pending == (before[i].pending || names.contains(before[i].name@))
        }
}

/// Index over the fields of a plugin, providing the route to each field by
/// its offset.
#[derive(Debug)]
pub struct PacketRoutes {
    /// The plugin's fields, the field at offset `i` in position `i`.
    pub inner: Vec<FieldRef>,
}

impl PacketRoutes {
    /// Creates the routes of a plugin whose fields have the given names, in
    /// offset order; no field has a pending edit.
    pub fn new(fields: &Vec<String>) -> (r: PacketRoutes)
        ensures
            r.inner@.len() == fields@.len(),
            forall|i: int| 0 <= i < fields@.len() ==> fresh_field(#[trigger] r.inner@[i], i, fields@[i]@),
    {
        let mut inner: Vec<FieldRef> = Vec::new();
        let mut i: usize = 0;
        while i < fields.len()
            invariant
                i <= fields@.len(),
                inner@.len() == i,
                forall|j: int| 0 <= j < i ==> fresh_field(#[trigger] inner@[j], j, fields@[j]@),
            decreases fields@.len() - i,
        {
            let name = fields[i].clone();
            inner.push(FieldRef { offset: i, name, pending: false });
            i = i + 1;
        }
        PacketRoutes { inner }
    }

    /// Marks each field named in `list` as pending.
    pub fn apply_pending_list(&mut self, list: &[&str])
        ensures
            marked_pending(old(self).inner@, final(self).inner@, list@.map_values(|l: &str| l@)),
    {
        let ghost names = list@.map_values(|l: &str| l@);
        let mut k: usize = 0;
        while k < list.len()
            invariant
                k <= list@.len(),
                names == list@.map_values(|l: &str| l@),
                marked_pending(old(self).inner@, self.inner@, names.take(k as int)),
            decreases list@.len() - k,
        {
            let l = list[k];
            self.set_pending(l);
            proof {
                let t0 = names.take(k as int);
                let t1 = names.take(k + 1);
                assert(t1 =~= t0.push(l@));
                assert forall|x: Seq<char>| t1.contains(x) <==> (t0.contains(x) || x == l@) by {
                    if t1.contains(x) {
                        let j = choose|j: int| 0 <= j < t1.len() && #[trigger] t1[j] == x;
                        if j < k {
                            assert(t0[j] == x);
                        }
                    }
                    if t0.contains(x) {
                        let j = choose|j: int| 0 <= j < t0.len() && #[trigger] t0[j] == x;
                        assert(t1[j] == x);
                    }
                    if x == l@ {
                        assert(t1[k as int] == x);
                    }
                }
            }
            k = k + 1;
        }
        assert(names.take(list@.len() as int) =~= names);
    }

    /// Marks the fields named `name` as pending.
    fn set_pending(&mut self, name: &str)
        ensures
            final(self).inner@.len() == old(self).inner@.len(),
            forall|i: int|
                0 <= i < final(self).inner@.len() ==> {
                    &&& (#[trigger] final(self).inner@[i]).offset == old(self).inner@[i].offset
                    &&& final(self).inner@[i].name@ == old(self).inner@[i].name@
                    &&& final(self).inner@[i].pending == (old(self).inner@[i].pending
                        || old(self).inner@[i].name@ == name@)
                },
    {
        let mut i: usize = 0;
        while i < self.inner.len()
            invariant
                i <= self.inner@.len(),
                self.inner@.len() == old(self).inner@.len(),
                forall|j: int|
                    0 <= j < self.inner@.len() ==> {
                        &&& (#[trigger] self.inner@[j]).offset == old(self).inner@[j].offset
                        &&& self.inner@[j].name@ == old(self).inner@[j].name@
                        &&& self.inner@[j].pending == if j < i {
                            old(self).inner@[j].pending || old(self).inner@[j].name@ == name@
                        } else {
                            old(self).inner@[j].pending
                        }
                    },
            decreases self.inner@.len() - i,
        {
            if same_str(self.inner[i].name.as_str(), name) {
                let f = &mut self.inner[i];
                f.pending = true;
            }
            i = i + 1;
        }
    }

    /// Returns the route to the field at `OFFSET`.
    pub fn route<const OFFSET: usize>(&self) -> (f: &FieldRef)
        requires
            OFFSET < self.inner@.len(),
        ensures
            *f == self.inner@[OFFSET as int],
    {
        &self.inner[OFFSET]
    }

    /// Returns the route to the field at `OFFSET`, for editing.
    pub fn route_mut<const OFFSET: usize>(&mut self) -> (f: &mut FieldRef)
        requires
            OFFSET < old(self).inner@.len(),
        ensures
            *f == old(self).inner@[OFFSET as int],
            final(self).inner@ == old(self).inner@.update(OFFSET as int, *final(f)),
    {
        &mut self.inner[OFFSET]
    }
}

} // verus!
