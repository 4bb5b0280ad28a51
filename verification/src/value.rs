//! The executable value types: the four Bencode variants and the sum
//! type [`Bencode`] that holds any of them.

use vstd::prelude::*;

use crate::model::enc;
use crate::model::enc_entries;
use crate::model::enc_items;
use crate::model::dec_digits;
use crate::model::BenEntry;
use crate::model::BenValue;

verus! {

broadcast use vstd::std_specs::vec::group_vec_axioms, vstd::seq::group_seq_axioms;

use vstd::slice::slice_to_vec;

/// The number variant: the decimal digit bytes of the value, kept
/// byte-for-byte so that re-encoding is exact.
#[derive(Debug)]
pub struct BencodeNumber {
    pub digits: Vec<u8>,
}

/// The byte-string variant: an owned byte buffer, used both for text and
/// for raw binary payloads (and for object keys).
#[derive(Debug)]
pub struct BencodeBytes {
    pub value: Vec<u8>,
}

/// The array variant: an ordered sequence of heterogeneous values.
#[derive(Debug)]
pub struct BencodeArray {
    pub items: Vec<Bencode>,
}

/// One slot of an object: a byte-string key and its value.
#[derive(Debug)]
pub struct ObjectEntry {
    pub key: BencodeBytes,
    pub value: Bencode,
}

/// The object variant: an ordered mapping from byte-string keys to
/// heterogeneous values.  Iteration order is insertion order.
#[derive(Debug)]
pub struct BencodeObject {
    pub entries: Vec<ObjectEntry>,
}

/// Any Bencode value: the tagged union over the four variants.
#[derive(Debug)]
pub enum Bencode {
    Number(BencodeNumber),
    Bytes(BencodeBytes),
    Array(BencodeArray),
    Object(BencodeObject),
}

impl View for BencodeNumber {
    type V = Seq<u8>;

    open spec fn view(&self) -> Seq<u8> {
        self.digits@
    }
}

impl View for BencodeBytes {
    type V = Seq<u8>;

    open spec fn view(&self) -> Seq<u8> {
        self.value@
    }
}

impl View for Bencode {
    type V = BenValue;

    open spec fn view(&self) -> BenValue
        decreases self,
    {
        match self {
            Bencode::Number(n) => BenValue::Number { digits: n@ },
            Bencode::Bytes(b) => BenValue::Bytes { data: b@ },
            Bencode::Array(a) => BenValue::Array { items: a@ },
            Bencode::Object(o) => BenValue::Object { entries: o@ },
        }
    }
}

/// The models of a sequence of values, elementwise.
pub open spec fn seq_view(items: Seq<Bencode>) -> Seq<BenValue>
    decreases items,
{
    Seq::new(
        items.len(),
        |i: int|
            if 0 <= i < items.len() {
                items[i]@
            } else {
                BenValue::Bytes { data: Seq::empty() }
            },
    )
}

impl View for BencodeArray {
    type V = Seq<BenValue>;

    open spec fn view(&self) -> Seq<BenValue>
        decreases self,
    {
        seq_view(self.items@)
    }
}

impl View for ObjectEntry {
    type V = BenEntry;

    open spec fn view(&self) -> BenEntry
        decreases self,
    {
        BenEntry { key: self.key@, value: self.value@ }
    }
}

/// The models of a sequence of object slots, elementwise.
pub open spec fn entries_view(entries: Seq<ObjectEntry>) -> Seq<BenEntry>
    decreases entries,
{
    Seq::new(
        entries.len(),
        |i: int|
            if 0 <= i < entries.len() {
                entries[i]@
            } else {
                BenEntry { key: Seq::empty(), value: BenValue::Bytes { data: Seq::empty() } }
            },
    )
}

impl View for BencodeObject {
    type V = Seq<BenEntry>;

    open spec fn view(&self) -> Seq<BenEntry>
        decreases self,
    {
        entries_view(self.entries@)
    }
}

/// Pushing a value appends its model to the sequence view.
pub broadcast proof fn lemma_seq_view_push(items: Seq<Bencode>, v: Bencode)
    ensures
        #[trigger] seq_view(items.push(v)) == seq_view(items).push(v@),
{
    assert(seq_view(items.push(v)) =~= seq_view(items).push(v@));
}

/// Updating a slot updates the same slot of the sequence view.
pub broadcast proof fn lemma_seq_view_update(items: Seq<Bencode>, i: int, v: Bencode)
    requires
        0 <= i < items.len(),
    ensures
        #[trigger] seq_view(items.update(i, v)) == seq_view(items).update(i, v@),
{
    assert(seq_view(items.update(i, v)) =~= seq_view(items).update(i, v@));
}

/// Removing a slot removes the same slot of the sequence view.
pub broadcast proof fn lemma_seq_view_remove(items: Seq<Bencode>, i: int)
    requires
        0 <= i < items.len(),
    ensures
        #[trigger] seq_view(items.remove(i)) == seq_view(items).remove(i),
{
    assert(seq_view(items.remove(i)) =~= seq_view(items).remove(i));
}

/// Inserting a slot inserts the same slot of the sequence view.
pub broadcast proof fn lemma_seq_view_insert(items: Seq<Bencode>, i: int, v: Bencode)
    requires
        0 <= i <= items.len(),
    ensures
        #[trigger] seq_view(items.insert(i, v)) == seq_view(items).insert(i, v@),
{
    assert(seq_view(items.insert(i, v)) =~= seq_view(items).insert(i, v@));
}

/// Pushing a slot appends its model to the entries view.
pub broadcast proof fn lemma_entries_view_push(entries: Seq<ObjectEntry>, e: ObjectEntry)
    ensures
        #[trigger] entries_view(entries.push(e)) == entries_view(entries).push(e@),
{
    assert(entries_view(entries.push(e)) =~= entries_view(entries).push(e@));
}

/// Updating a slot updates the same slot of the entries view.
pub broadcast proof fn lemma_entries_view_update(entries: Seq<ObjectEntry>, i: int, e: ObjectEntry)
    requires
        0 <= i < entries.len(),
    ensures
        #[trigger] entries_view(entries.update(i, e)) == entries_view(entries).update(i, e@),
{
    assert(entries_view(entries.update(i, e)) =~= entries_view(entries).update(i, e@));
}

/// Removing a slot removes the same slot of the entries view.
pub broadcast proof fn lemma_entries_view_remove(entries: Seq<ObjectEntry>, i: int)
    requires
        0 <= i < entries.len(),
    ensures
        #[trigger] entries_view(entries.remove(i)) == entries_view(entries).remove(i),
{
    assert(entries_view(entries.remove(i)) =~= entries_view(entries).remove(i));
}

/// Do two byte slices hold the same bytes?
pub(crate) fn bytes_eq(a: &[u8], b: &[u8]) -> (r: bool)
    ensures
        r == (a@ == b@),
{
    if a.len() != b.len() {
        return false;
    }
    let mut i: usize = 0;
    while i < a.len()
        invariant
            a@.len() == b@.len(),
            i <= a@.len(),
            forall|l: int| 0 <= l < i ==> a@[l] == b@[l],
        decreases a@.len() - i,
    {
        if a[i] != b[i] {
            return false;
        }
        i = i + 1;
    }
    proof {
        assert(a@ =~= b@);
    }
    true
}

/// Appends every byte of `s` to `out`.
pub(crate) fn write_slice(out: &mut Vec<u8>, s: &[u8])
    ensures
        final(out)@ == old(out)@ + s@,
{
    let ghost start = out@;
    let mut i: usize = 0;
    while i < s.len()
        invariant
            i <= s@.len(),
            out@ == start + s@.subrange(0, i as int),
        decreases s@.len() - i,
    {
        out.push(s[i]);
        proof {
            assert(s@.subrange(0, i + 1) =~= s@.subrange(0, i as int).push(s@[i as int]));
        }
        i = i + 1;
    }
    proof {
        assert(s@.subrange(0, s@.len() as int) =~= s@);
    }
}

/// Appends the decimal digits of `n` to `out`.
pub(crate) fn write_dec_digits(n: u64, out: &mut Vec<u8>)
    ensures
        final(out)@ == old(out)@ + dec_digits(n as nat),
    decreases n,
{
    if n < 10 {
        out.push(n as u8 + 48);
    } else {
        write_dec_digits(n / 10, out);
        out.push((n % 10) as u8 + 48);
    }
}

impl Bencode {
    /// The type tag of this value.
    pub fn get_type(&self) -> (t: crate::types::BencodeTypes)
        ensures
            t == (match self@ {
                BenValue::Number { .. } => crate::types::BencodeTypes::Number,
                BenValue::Bytes { .. } => crate::types::BencodeTypes::Bytes,
                BenValue::Array { .. } => crate::types::BencodeTypes::Array,
                BenValue::Object { .. } => crate::types::BencodeTypes::Object,
            }),
    {
        match self {
            Bencode::Number(_) => crate::types::BencodeTypes::Number,
            Bencode::Bytes(_) => crate::types::BencodeTypes::Bytes,
            Bencode::Array(_) => crate::types::BencodeTypes::Array,
            Bencode::Object(_) => crate::types::BencodeTypes::Object,
        }
    }

    /// Safe downcast to the number variant.
    pub fn as_number(&self) -> (r: Option<&BencodeNumber>)
        ensures
            match r {
                Some(n) => self@ == (BenValue::Number { digits: n@ }),
                None => !(self@ is Number),
            },
    {
        match self {
            Bencode::Number(n) => Some(n),
            _ => None,
        }
    }

    /// Safe downcast to the byte-string variant.
    pub fn as_bytes(&self) -> (r: Option<&BencodeBytes>)
        ensures
            match r {
                Some(b) => self@ == (BenValue::Bytes { data: b@ }),
                None => !(self@ is Bytes),
            },
    {
        match self {
            Bencode::Bytes(b) => Some(b),
            _ => None,
        }
    }

    /// Safe downcast to the array variant.
    pub fn as_array(&self) -> (r: Option<&BencodeArray>)
        ensures
            match r {
                Some(a) => self@ == (BenValue::Array { items: a@ }),
                None => !(self@ is Array),
            },
    {
        match self {
            Bencode::Array(a) => Some(a),
            _ => None,
        }
    }

    /// Safe downcast to the object variant.
    pub fn as_object(&self) -> (r: Option<&BencodeObject>)
        ensures
            match r {
                Some(o) => self@ == (BenValue::Object { entries: o@ }),
                None => !(self@ is Object),
            },
    {
        match self {
            Bencode::Object(o) => Some(o),
            _ => None,
        }
    }

    /// Safe mutable downcast to the array variant.
    pub fn as_array_mut(&mut self) -> (r: Option<&mut BencodeArray>)
        ensures
            match r {
                Some(m) => {
                    &&& old(self)@ == (BenValue::Array { items: (*m)@ })
                    &&& final(self)@ == (BenValue::Array { items: (*final(m))@ })
                },
                None => !(old(self)@ is Array) && *final(self) == *old(self),
            },
    {
        match self {
            Bencode::Array(a) => Some(a),
            _ => None,
        }
    }

    /// Safe mutable downcast to the object variant.
    pub fn as_object_mut(&mut self) -> (r: Option<&mut BencodeObject>)
        ensures
            match r {
                Some(m) => {
                    &&& old(self)@ == (BenValue::Object { entries: (*m)@ })
                    &&& final(self)@ == (BenValue::Object { entries: (*final(m))@ })
                },
                None => !(old(self)@ is Object) && *final(self) == *old(self),
            },
    {
        match self {
            Bencode::Object(o) => Some(o),
            _ => None,
        }
    }

    /// Structural equality: equal exactly when the two models are equal,
    /// that is, same variant and recursively equal contents.  For
    /// objects this is order-dependent: the entries must agree pairwise
    /// in iteration order.
    #[verifier::loop_isolation(false)]
    pub fn equals(&self, other: &Self) -> (r: bool)
        ensures
            r == (self@ == other@),
        decreases self,
    {
        match (self, other) {
            (Bencode::Number(a), Bencode::Number(b)) => bytes_eq(
                a.digits.as_slice(),
                b.digits.as_slice(),
            ),
            (Bencode::Bytes(a), Bencode::Bytes(b)) => bytes_eq(
                a.value.as_slice(),
                b.value.as_slice(),
            ),
            (Bencode::Array(a), Bencode::Array(b)) => {
                if a.items.len() != b.items.len() {
                    proof {
                        assert(self@ == (BenValue::Array { items: a@ }));
                        assert(other@ == (BenValue::Array { items: b@ }));
                        assert(a@.len() != b@.len());
                        assert(a@ != b@);
                    }
                    return false;
                }
                let mut i: usize = 0;
                while i < a.items.len()
                    invariant
                        i <= a.items@.len(),
                        forall|l: int| 0 <= l < i ==> a@[l] == b@[l],
                    decreases a.items@.len() - i,
                {
                    if !a.items[i].equals(&b.items[i]) {
                        proof {
                            assert(a@[i as int] == a.items@[i as int]@);
                            assert(b@[i as int] == b.items@[i as int]@);
                        }
                        return false;
                    }
                    i = i + 1;
                }
                proof {
                    assert(a@ =~= b@);
                }
                true
            },
            (Bencode::Object(a), Bencode::Object(b)) => {
                if a.entries.len() != b.entries.len() {
                    proof {
                        assert(a@.len() != b@.len());
                    }
                    return false;
                }
                let mut i: usize = 0;
                while i < a.entries.len()
                    invariant
                        i <= a.entries@.len(),
                        forall|l: int| 0 <= l < i ==> a@[l] == b@[l],
                    decreases a.entries@.len() - i,
                {
                    let x = &a.entries[i];
                    let y = &b.entries[i];
                    proof {
                        assert(a@[i as int] == a.entries@[i as int]@);
                        assert(b@[i as int] == b.entries@[i as int]@);
                    }
                    if !bytes_eq(x.key.value.as_slice(), y.key.value.as_slice()) {
                        proof {
                            assert(a@[i as int].key != b@[i as int].key);
                        }
                        return false;
                    }
                    if !x.value.equals(&y.value) {
                        proof {
                            assert(a@[i as int].value != b@[i as int].value);
                        }
                        return false;
                    }
                    i = i + 1;
                }
                proof {
                    assert(a@ =~= b@);
                }
                true
            },
            _ => false,
        }
    }

    /// Appends the canonical encoding of `self` to `out`.  Encoding never
    /// fails: the in-memory tree is always encodable.
    #[verifier::loop_isolation(false)]
    pub fn write_bencode(&self, out: &mut Vec<u8>)
        ensures
            final(out)@ == old(out)@ + enc(self@),
        decreases self,
    {
        let ghost start = out@;
        match self {
            Bencode::Number(num) => {
                out.push(105);
                write_slice(out, num.digits.as_slice());
                out.push(101);
                proof {
                    assert(out@ =~= start + enc(self@));
                }
            },
            Bencode::Bytes(bytes) => {
                write_dec_digits(bytes.value.len() as u64, out);
                out.push(58);
                write_slice(out, bytes.value.as_slice());
                proof {
                    assert(out@ =~= start + enc(self@));
                }
            },
            Bencode::Array(arr) => {
                out.push(108);
                let ghost items = arr@;
                let mut i: usize = 0;
                while i < arr.items.len()
                    invariant
                        i <= arr.items@.len(),
                        items == seq_view(arr.items@),
                        out@ + enc_items(items, i as int) == start + seq![108u8] + enc_items(
                            items,
                            0,
                        ),
                    decreases arr.items@.len() - i,
                {
                    arr.items[i].write_bencode(out);
                    i = i + 1;
                }
                out.push(101);
                proof {
                    assert(out@ =~= start + enc(self@));
                }
            },
            Bencode::Object(obj) => {
                out.push(100);
                let ghost entries = obj@;
                let mut i: usize = 0;
                while i < obj.entries.len()
                    invariant
                        i <= obj.entries@.len(),
                        entries == entries_view(obj.entries@),
                        out@ + enc_entries(entries, i as int) == start + seq![100u8] + enc_entries(
                            entries,
                            0,
                        ),
                    decreases obj.entries@.len() - i,
                {
                    let slot = &obj.entries[i];
                    write_dec_digits(slot.key.value.len() as u64, out);
                    out.push(58);
                    write_slice(out, slot.key.value.as_slice());
                    slot.value.write_bencode(out);
                    i = i + 1;
                }
                out.push(101);
                proof {
                    assert(out@ =~= start + enc(self@));
                }
            },
        }
    }
}

impl BencodeArray {
    /// Structural equality of two arrays: equal lengths and pairwise
    /// equal elements.
    pub fn equals(&self, other: &Self) -> (r: bool)
        ensures
            r == (self@ == other@),
    {
        if self.items.len() != other.items.len() {
            proof {
                assert(self@.len() != other@.len());
            }
            return false;
        }
        let mut i: usize = 0;
        while i < self.items.len()
            invariant
                self.items@.len() == other.items@.len(),
                i <= self.items@.len(),
                forall|l: int| 0 <= l < i ==> self@[l] == other@[l],
            decreases self.items@.len() - i,
        {
            if !self.items[i].equals(&other.items[i]) {
                proof {
                    assert(self@[i as int] == self.items@[i as int]@);
                    assert(other@[i as int] == other.items@[i as int]@);
                }
                return false;
            }
            i = i + 1;
        }
        proof {
            assert(self@ =~= other@);
        }
        true
    }
}

impl BencodeObject {
    /// Structural equality of two objects, order-dependent: the entries
    /// must agree pairwise in iteration order.
    pub fn equals(&self, other: &Self) -> (r: bool)
        ensures
            r == (self@ == other@),
    {
        if self.entries.len() != other.entries.len() {
            proof {
                assert(self@.len() != other@.len());
            }
            return false;
        }
        let mut i: usize = 0;
        while i < self.entries.len()
            invariant
                self.entries@.len() == other.entries@.len(),
                i <= self.entries@.len(),
                forall|l: int| 0 <= l < i ==> self@[l] == other@[l],
            decreases self.entries@.len() - i,
        {
            let x = &self.entries[i];
            let y = &other.entries[i];
            proof {
                assert(self@[i as int] == self.entries@[i as int]@);
                assert(other@[i as int] == other.entries@[i as int]@);
            }
            if !bytes_eq(x.key.value.as_slice(), y.key.value.as_slice()) {
                proof {
                    assert(self@[i as int].key != other@[i as int].key);
                }
                return false;
            }
            if !x.value.equals(&y.value) {
                proof {
                    assert(self@[i as int].value != other@[i as int].value);
                }
                return false;
            }
            i = i + 1;
        }
        proof {
            assert(self@ =~= other@);
        }
        true
    }
}

impl PartialEq for Bencode {
    fn eq(&self, other: &Self) -> (r: bool) {
        self.equals(other)
    }
}

impl vstd::std_specs::cmp::PartialEqSpecImpl for Bencode {
    open spec fn obeys_eq_spec() -> bool {
        true
    }

    open spec fn eq_spec(&self, other: &Self) -> bool {
        self@ == other@
    }
}

impl PartialEq for BencodeNumber {
    fn eq(&self, other: &Self) -> (r: bool) {
        bytes_eq(self.digits.as_slice(), other.digits.as_slice())
    }
}

impl vstd::std_specs::cmp::PartialEqSpecImpl for BencodeNumber {
    open spec fn obeys_eq_spec() -> bool {
        true
    }

    open spec fn eq_spec(&self, other: &Self) -> bool {
        self@ == other@
    }
}

impl PartialEq for BencodeBytes {
    fn eq(&self, other: &Self) -> (r: bool) {
        bytes_eq(self.value.as_slice(), other.value.as_slice())
    }
}

impl vstd::std_specs::cmp::PartialEqSpecImpl for BencodeBytes {
    open spec fn obeys_eq_spec() -> bool {
        true
    }

    open spec fn eq_spec(&self, other: &Self) -> bool {
        self@ == other@
    }
}

impl PartialEq for BencodeArray {
    fn eq(&self, other: &Self) -> (r: bool) {
        self.equals(other)
    }
}

impl vstd::std_specs::cmp::PartialEqSpecImpl for BencodeArray {
    open spec fn obeys_eq_spec() -> bool {
        true
    }

    open spec fn eq_spec(&self, other: &Self) -> bool {
        self@ == other@
    }
}

impl PartialEq for BencodeObject {
    fn eq(&self, other: &Self) -> (r: bool) {
        self.equals(other)
    }
}

impl vstd::std_specs::cmp::PartialEqSpecImpl for BencodeObject {
    open spec fn obeys_eq_spec() -> bool {
        true
    }

    open spec fn eq_spec(&self, other: &Self) -> bool {
        self@ == other@
    }
}

impl Clone for BencodeNumber {
    /// A clone preserves the model exactly.
    fn clone(&self) -> (res: Self)
        ensures
            res@ == self@,
    {
        BencodeNumber { digits: slice_to_vec(self.digits.as_slice()) }
    }
}

impl Clone for BencodeBytes {
    /// A clone preserves the model exactly.
    fn clone(&self) -> (res: Self)
        ensures
            res@ == self@,
    {
        BencodeBytes { value: slice_to_vec(self.value.as_slice()) }
    }
}

impl Clone for Bencode {
    /// A deep clone: the copy's model equals the original's.
    fn clone(&self) -> (res: Self)
        ensures
            res@ == self@,
        decreases self,
    {
        match self {
            Bencode::Number(n) => Bencode::Number(n.clone()),
            Bencode::Bytes(b) => Bencode::Bytes(b.clone()),
            Bencode::Array(a) => Bencode::Array(a.clone()),
            Bencode::Object(o) => Bencode::Object(o.clone()),
        }
    }
}

impl Clone for BencodeArray {
    /// A deep clone: the copy's model equals the original's.
    #[verifier::loop_isolation(false)]
    fn clone(&self) -> (res: Self)
        ensures
            res@ == self@,
        decreases self,
    {
        let mut items: Vec<Bencode> = Vec::new();
        proof {
            assert(seq_view(items@) =~= self@.subrange(0, 0));
        }
        let mut i: usize = 0;
        while i < self.items.len()
            invariant
                i <= self.items@.len(),
                seq_view(items@) == self@.subrange(0, i as int),
            decreases self.items@.len() - i,
        {
            items.push(self.items[i].clone());
            proof {
                assert(seq_view(items@) =~= self@.subrange(0, i + 1));
            }
            i = i + 1;
        }
        proof {
            assert(self@.subrange(0, self@.len() as int) =~= self@);
        }
        BencodeArray { items }
    }
}

impl Clone for BencodeObject {
    /// A deep clone: the copy's model equals the original's.
    #[verifier::loop_isolation(false)]
    fn clone(&self) -> (res: Self)
        ensures
            res@ == self@,
        decreases self,
    {
        let mut entries: Vec<ObjectEntry> = Vec::new();
        proof {
            assert(entries_view(entries@) =~= self@.subrange(0, 0));
        }
        let mut i: usize = 0;
        while i < self.entries.len()
            invariant
                i <= self.entries@.len(),
                entries_view(entries@) == self@.subrange(0, i as int),
            decreases self.entries@.len() - i,
        {
            let slot = &self.entries[i];
            entries.push(ObjectEntry { key: slot.key.clone(), value: slot.value.clone() });
            proof {
                assert(entries_view(entries@) =~= self@.subrange(0, i + 1));
            }
            i = i + 1;
        }
        proof {
            assert(self@.subrange(0, self@.len() as int) =~= self@);
        }
        BencodeObject { entries }
    }
}

} // verus!
