//! The object variant: an ordered associative container from byte-string
//! keys to values.  Iteration order equals insertion order; inserting an
//! existing key replaces its value in place, and removing a key frees its
//! slot.

use vstd::prelude::*;

use crate::model::find_key;
use crate::model::has_key;
use crate::model::obj_get;
use crate::model::obj_put;
use crate::model::obj_remove;
use crate::model::BenEntry;
use crate::value::bytes_eq;
use crate::value::entries_view;
use crate::value::lemma_entries_view_push;
use crate::value::lemma_entries_view_remove;
use crate::value::lemma_entries_view_update;
use crate::value::Bencode;
use crate::value::BencodeBytes;
use crate::value::BencodeObject;
use crate::value::ObjectEntry;

verus! {

broadcast use
    vstd::std_specs::vec::group_vec_axioms,
    vstd::seq::group_seq_axioms,
    lemma_entries_view_push,
    lemma_entries_view_update,
    lemma_entries_view_remove,
;

impl BencodeObject {
    /// Creates an empty object.
    pub fn new() -> (r: Self)
        ensures
            r@ == Seq::<BenEntry>::empty(),
    {
        let r = BencodeObject { entries: Vec::new() };
        proof {
            assert(r@ =~= Seq::<BenEntry>::empty());
        }
        r
    }

    /// The number of entries.
    pub fn len(&self) -> (r: usize)
        ensures
            r == self@.len(),
    {
        self.entries.len()
    }

    /// The entries, in iteration (= insertion) order.
    pub fn iter(&self) -> (r: &Vec<ObjectEntry>)
        ensures
            entries_view(r@) == self@,
    {
        &self.entries
    }

    /// The index of the entry holding `key`, if any.
    fn index_of(&self, key: &[u8]) -> (r: Option<usize>)
        ensures
            match r {
                Some(i) => i as int == find_key(self@, key@, 0) && i < self@.len() && self@[
                    i as int
                ].key == key@,
                None => find_key(self@, key@, 0) < 0,
            },
    {
        let mut i: usize = 0;
        while i < self.entries.len()
            invariant
                i <= self.entries@.len(),
                find_key(self@, key@, 0) == find_key(self@, key@, i as int),
            decreases self.entries@.len() - i,
        {
            if bytes_eq(self.entries[i].key.value.as_slice(), key) {
                proof {
                    assert(self@[i as int].key == key@);
                }
                return Some(i);
            }
            proof {
                assert(self@[i as int].key != key@);
            }
            i = i + 1;
        }
        None
    }

    /// Does some entry carry `key`?
    pub fn contains_key(&self, key: &[u8]) -> (r: bool)
        ensures
            r == has_key(self@, key@),
    {
        self.index_of(key).is_some()
    }

    /// Inserts `value` under `key`.  An existing key keeps its original
    /// slot and only its value is replaced; a new key is appended at the
    /// end of the iteration order.
    pub fn put(&mut self, key: BencodeBytes, value: Bencode)
        ensures
            final(self)@ == obj_put(old(self)@, key@, value@),
    {
        match self.index_of(key.value.as_slice()) {
            Some(i) => {
                self.entries[i] = ObjectEntry { key, value };
            },
            None => {
                self.entries.push(ObjectEntry { key, value });
            },
        }
    }

    /// The value stored under `key`, if any.
    pub fn get(&self, key: &[u8]) -> (r: Option<&Bencode>)
        ensures
            match r {
                Some(v) => obj_get(self@, key@) == Some(v@),
                None => obj_get(self@, key@) is None,
            },
    {
        match self.index_of(key) {
            Some(i) => Some(&self.entries[i].value),
            None => None,
        }
    }

    /// A mutable borrow of the value stored under `key`, if any: the
    /// object afterwards holds whatever the caller leaves in the borrow,
    /// in the same slot.
    pub fn get_mut(&mut self, key: &[u8]) -> (r: Option<&mut Bencode>)
        ensures
            match r {
                Some(m) => {
                    &&& obj_get(old(self)@, key@) == Some((*m)@)
                    &&& final(self)@ == obj_put(old(self)@, key@, (*final(m))@)
                },
                None => {
                    &&& obj_get(old(self)@, key@) is None
                    &&& *final(self) == *old(self)
                },
            },
    {
        match self.index_of(key) {
            Some(i) => {
                let slot = &mut self.entries[i];
                Some(&mut slot.value)
            },
            None => None,
        }
    }

    /// Removes the entry holding `key`, if any, and hands its value back;
    /// the entries after it move up one slot.
    pub fn remove(&mut self, key: &[u8]) -> (r: Option<Bencode>)
        ensures
            final(self)@ == obj_remove(old(self)@, key@),
            match r {
                Some(v) => obj_get(old(self)@, key@) == Some(v@),
                None => obj_get(old(self)@, key@) is None,
            },
    {
        match self.index_of(key) {
            Some(i) => {
                let e = self.entries.remove(i);
                Some(e.value)
            },
            None => None,
        }
    }
}

} // verus!
