//! The array variant: an ordered, heterogeneous sequence of values.

use vstd::prelude::*;

use crate::model::BenValue;
use crate::value::lemma_seq_view_insert;
use crate::value::lemma_seq_view_push;
use crate::value::lemma_seq_view_remove;
use crate::value::lemma_seq_view_update;
use crate::value::seq_view;
use crate::value::Bencode;
use crate::value::BencodeArray;

verus! {

broadcast use
    vstd::std_specs::vec::group_vec_axioms,
    vstd::seq::group_seq_axioms,
    lemma_seq_view_push,
    lemma_seq_view_update,
    lemma_seq_view_remove,
    lemma_seq_view_insert,
;

impl BencodeArray {
    /// Creates an empty array.
    pub fn new() -> (r: Self)
        ensures
            r@ == Seq::<BenValue>::empty(),
    {
        let r = BencodeArray { items: Vec::new() };
        proof {
            assert(r@ =~= Seq::<BenValue>::empty());
        }
        r
    }

    /// The number of elements.
    pub fn len(&self) -> (r: usize)
        ensures
            r == self@.len(),
    {
        self.items.len()
    }

    /// The elements, in order.
    pub fn iter(&self) -> (r: &Vec<Bencode>)
        ensures
            seq_view(r@) == self@,
    {
        &self.items
    }

    /// Appends `value` at the end.
    pub fn push(&mut self, value: Bencode)
        ensures
            final(self)@ == old(self)@.push(value@),
    {
        self.items.push(value);
    }

    /// Inserts `value` at `index`, shifting the later elements right.
    pub fn insert(&mut self, index: usize, value: Bencode)
        requires
            index <= old(self)@.len(),
        ensures
            final(self)@ == old(self)@.insert(index as int, value@),
    {
        self.items.insert(index, value);
    }

    /// The element at `index`, if it is in range.
    pub fn get(&self, index: usize) -> (r: Option<&Bencode>)
        ensures
            match r {
                Some(v) => index < self@.len() && self@[index as int] == v@,
                None => index >= self@.len(),
            },
    {
        if index < self.items.len() {
            Some(&self.items[index])
        } else {
            None
        }
    }

    /// A mutable borrow of the element at `index`, if it is in range:
    /// the array afterwards holds whatever the caller leaves in the
    /// borrow, in the same slot.
    pub fn get_mut(&mut self, index: usize) -> (r: Option<&mut Bencode>)
        ensures
            match r {
                Some(m) => {
                    &&& index < old(self)@.len()
                    &&& (*m)@ == old(self)@[index as int]
                    &&& final(self)@ == old(self)@.update(index as int, (*final(m))@)
                },
                None => index >= old(self)@.len() && *final(self) == *old(self),
            },
    {
        if index < self.items.len() {
            Some(&mut self.items[index])
        } else {
            None
        }
    }

    /// Removes and returns the element at `index`, shifting the later
    /// elements left.
    pub fn remove(&mut self, index: usize) -> (r: Bencode)
        requires
            index < old(self)@.len(),
        ensures
            r@ == old(self)@[index as int],
            final(self)@ == old(self)@.remove(index as int),
    {
        self.items.remove(index)
    }
}

} // verus!
