//! The mathematical model of a Bencode document.
//!
//! [`BenValue`] is a Bencode tree as pure mathematics: byte contents are
//! `Seq<u8>`, children are `Seq`s of values.  The executable types of the
//! crate each carry a view into this model, and every contract of the
//! codec is stated over it.  [`enc`] gives the canonical encoding of a
//! tree; the `parse_*` functions give the meaning of decoding.

use vstd::prelude::*;

verus! {

/// One key/value pair of an object, in the model.
pub struct BenEntry {
    pub key: Seq<u8>,
    pub value: BenValue,
}

/// A Bencode tree as pure mathematics: one of the four variants.
///
/// A `Number` holds the decimal digit bytes exactly as written, so that
/// re-encoding is byte-exact; an `Object` holds its entries in insertion
/// order, which is part of the observable state.
pub enum BenValue {
    Number { digits: Seq<u8> },
    Bytes { data: Seq<u8> },
    Array { items: Seq<BenValue> },
    Object { entries: Seq<BenEntry> },
}

/// Is `b` an ASCII decimal digit?
pub open spec fn is_digit(b: u8) -> bool {
    48 <= b <= 57
}

/// The decimal digit bytes of `n`, most significant first: `dec_digits(11) == "11"`.
pub open spec fn dec_digits(n: nat) -> Seq<u8>
    decreases n,
{
    if n < 10 {
        seq![(n + 48) as u8]
    } else {
        dec_digits(n / 10).push((n % 10 + 48) as u8)
    }
}

/// The value of a sequence of decimal digit bytes: `dec_val("11") == 11`.
/// (Nonnegative whenever `ds` really is made of digits.)
pub open spec fn dec_val(ds: Seq<u8>) -> int
    decreases ds.len(),
{
    if ds.len() == 0 {
        0
    } else {
        dec_val(ds.drop_last()) * 10 + (ds.last() - 48)
    }
}

/// Are the keys of `entries` pairwise distinct?
pub open spec fn keys_unique(entries: Seq<BenEntry>) -> bool {
    forall|i: int, j: int| 0 <= i < j < entries.len() ==> entries[i].key != entries[j].key
}

/// The keys of `entries`, in order.
pub open spec fn keys_of(entries: Seq<BenEntry>) -> Seq<Seq<u8>> {
    Seq::new(entries.len(), |i: int| entries[i].key)
}

/// Well-formedness of a tree: the invariant every constructible value
/// satisfies.  A number's digit bytes never contain the terminator `'e'`
/// (so its encoding is self-delimiting), and an object's keys are unique.
pub open spec fn wf(v: BenValue) -> bool
    decreases v,
{
    match v {
        BenValue::Number { digits } => forall|i: int|
            0 <= i < digits.len() ==> digits[i] != 101u8,
        BenValue::Bytes { data } => true,
        BenValue::Array { items } => forall|i: int|
            0 <= i < items.len() ==> wf(#[trigger] items[i]),
        BenValue::Object { entries } => {
            &&& forall|i: int| 0 <= i < entries.len() ==> wf(#[trigger] entries[i].value)
            &&& keys_unique(entries)
        },
    }
}

/// The encoding of a byte string: decimal length, `':'`, the raw bytes.
pub open spec fn enc_bytes(data: Seq<u8>) -> Seq<u8> {
    dec_digits(data.len()) + seq![58u8] + data
}

/// The canonical encoding of a tree.
pub open spec fn enc(v: BenValue) -> Seq<u8>
    decreases v, 0int,
{
    match v {
        BenValue::Number { digits } => seq![105u8] + digits + seq![101u8],
        BenValue::Bytes { data } => enc_bytes(data),
        BenValue::Array { items } => seq![108u8] + enc_items(items, 0) + seq![101u8],
        BenValue::Object { entries } => seq![100u8] + enc_entries(entries, 0) + seq![101u8],
    }
}

/// The concatenated encodings of `items[i..]`.
pub open spec fn enc_items(items: Seq<BenValue>, i: int) -> Seq<u8>
    decreases items, items.len() - i,
{
    if i < 0 || i >= items.len() {
        Seq::empty()
    } else {
        enc(items[i]) + enc_items(items, i + 1)
    }
}

/// The concatenated key/value encodings of `entries[i..]`.
pub open spec fn enc_entries(entries: Seq<BenEntry>, i: int) -> Seq<u8>
    decreases entries, entries.len() - i,
{
    if i < 0 || i >= entries.len() {
        Seq::empty()
    } else {
        enc_bytes(entries[i].key) + enc(entries[i].value) + enc_entries(entries, i + 1)
    }
}

/// The decode error taxonomy of the codec.
///
/// - `InvalidPrefix`: a lead byte does not match the decoder invoked on it.
/// - `MalformedLength`: a byte string's length digits are not followed by `':'`.
/// - `MalformedNumber`: a number's digits are not followed by the terminator `'e'`.
/// - `TruncatedInput`: a declared length or an expected terminator extends
///   past the end of the buffer.
/// - `InvalidUtf8`: a byte string was requested as text but is not valid UTF-8.
/// - `ParseError`: a number's digits do not fit the requested numeric type.
/// - `UnknownTypePrefix`: a child of an array or object starts with a byte
///   that matches none of the four variant prefixes.
#[derive(Clone, Copy, Debug, PartialEq, Eq, Structural)]
pub enum DecodeError {
    InvalidPrefix,
    MalformedLength,
    MalformedNumber,
    TruncatedInput,
    InvalidUtf8,
    ParseError,
    UnknownTypePrefix,
}

/// May `b` begin an encoded value?  (One of `'i'`, `'l'`, `'d'`, or a digit.)
pub open spec fn is_value_lead(b: u8) -> bool {
    b == 105 || b == 108 || b == 100 || is_digit(b)
}

/// The first index at or after `off` where byte `t` occurs, or `-1`.
pub open spec fn scan_for(s: Seq<u8>, off: int, t: u8) -> int
    decreases s.len() - off,
{
    if off < 0 || off >= s.len() {
        -1
    } else if s[off] == t {
        off
    } else {
        scan_for(s, off + 1, t)
    }
}

/// The first index at or after `off` whose byte is not a decimal digit
/// (`s.len()` when the digits run to the end of the buffer).
pub open spec fn scan_digits(s: Seq<u8>, off: int) -> int
    decreases s.len() - off,
{
    if off < 0 || off >= s.len() {
        s.len() as int
    } else if is_digit(s[off]) {
        scan_digits(s, off + 1)
    } else {
        off
    }
}

/// The index of the first entry of `entries[i..]` whose key is `k`, or `-1`.
pub open spec fn find_key(entries: Seq<BenEntry>, k: Seq<u8>, i: int) -> int
    decreases entries.len() - i,
{
    if i < 0 || i >= entries.len() {
        -1
    } else if entries[i].key == k {
        i
    } else {
        find_key(entries, k, i + 1)
    }
}

/// Does some entry carry key `k`?
pub open spec fn has_key(entries: Seq<BenEntry>, k: Seq<u8>) -> bool {
    find_key(entries, k, 0) >= 0
}

/// The value stored under key `k`, if any.
pub open spec fn obj_get(entries: Seq<BenEntry>, k: Seq<u8>) -> Option<BenValue> {
    let i = find_key(entries, k, 0);
    if i >= 0 {
        Some(entries[i].value)
    } else {
        None
    }
}

/// Insertion into the ordered container: an existing key keeps its slot
/// and only its value is replaced; a new key is appended at the end.
pub open spec fn obj_put(entries: Seq<BenEntry>, k: Seq<u8>, v: BenValue) -> Seq<BenEntry> {
    let i = find_key(entries, k, 0);
    if i >= 0 {
        entries.update(i, BenEntry { key: k, value: v })
    } else {
        entries.push(BenEntry { key: k, value: v })
    }
}

/// Removal from the ordered container: the key's slot is freed and the
/// entries after it move up.
pub open spec fn obj_remove(entries: Seq<BenEntry>, k: Seq<u8>) -> Seq<BenEntry> {
    let i = find_key(entries, k, 0);
    if i >= 0 {
        entries.remove(i)
    } else {
        entries
    }
}

/// The pairs of `raw[i..]` inserted in order into `entries`.
pub open spec fn obj_put_all(entries: Seq<BenEntry>, raw: Seq<BenEntry>, i: int) -> Seq<BenEntry>
    decreases raw.len() - i,
{
    if i < 0 || i >= raw.len() {
        entries
    } else {
        obj_put_all(obj_put(entries, raw[i].key, raw[i].value), raw, i + 1)
    }
}

/// The meaning of decoding a number at `off`: the prefix `'i'`, then the
/// digit bytes up to and including the terminator `'e'`.
pub open spec fn parse_number(s: Seq<u8>, off: int) -> Result<(BenValue, int), DecodeError> {
    if off < 0 || off >= s.len() {
        Err(DecodeError::TruncatedInput)
    } else if s[off] != 105 {
        Err(DecodeError::InvalidPrefix)
    } else {
        let j = scan_for(s, off + 1, 101);
        if j < 0 {
            Err(DecodeError::MalformedNumber)
        } else {
            Ok((BenValue::Number { digits: s.subrange(off + 1, j) }, j + 1))
        }
    }
}

/// The meaning of decoding a byte string at `off`: decimal length digits,
/// `':'`, then exactly that many raw bytes.
pub open spec fn parse_bytes(s: Seq<u8>, off: int) -> Result<(Seq<u8>, int), DecodeError> {
    if off < 0 || off >= s.len() {
        Err(DecodeError::TruncatedInput)
    } else if !is_digit(s[off]) {
        Err(DecodeError::InvalidPrefix)
    } else {
        let j = scan_digits(s, off);
        if j >= s.len() || s[j] != 58 {
            Err(DecodeError::MalformedLength)
        } else {
            let n = dec_val(s.subrange(off, j));
            if j + 1 + n > s.len() {
                Err(DecodeError::TruncatedInput)
            } else {
                Ok((s.subrange(j + 1, j + 1 + n), j + 1 + n))
            }
        }
    }
}

/// The meaning of decoding a value at `off`: the lead byte selects the
/// variant.  A lead byte that matches no variant fails with
/// `InvalidPrefix` here; inside an array or object the same byte fails
/// with `UnknownTypePrefix` instead (see [`parse_list`], [`parse_pairs`]).
pub open spec fn parse_value(s: Seq<u8>, off: int) -> Result<(BenValue, int), DecodeError>
    decreases s.len() - off, 0int,
{
    if off < 0 || off >= s.len() {
        Err(DecodeError::TruncatedInput)
    } else if s[off] == 105 {
        parse_number(s, off)
    } else if is_digit(s[off]) {
        match parse_bytes(s, off) {
            Ok((data, n)) => Ok((BenValue::Bytes { data }, n)),
            Err(e) => Err(e),
        }
    } else if s[off] == 108 {
        match parse_list(s, off + 1) {
            Ok((items, n)) => Ok((BenValue::Array { items }, n)),
            Err(e) => Err(e),
        }
    } else if s[off] == 100 {
        match parse_pairs(s, off + 1) {
            Ok((raw, n)) => Ok((BenValue::Object { entries: obj_put_all(Seq::empty(), raw, 0) }, n)),
            Err(e) => Err(e),
        }
    } else {
        Err(DecodeError::InvalidPrefix)
    }
}

/// The meaning of decoding the children of an array from `off` up to the
/// closing `'e'`.  (The `if n <= off` arms only bound the recursion; a
/// successful parse always consumes at least one byte, see
/// `lemma_parse_value_bounds`.)
pub open spec fn parse_list(s: Seq<u8>, off: int) -> Result<(Seq<BenValue>, int), DecodeError>
    decreases s.len() - off, 1int,
{
    if off < 0 || off >= s.len() {
        Err(DecodeError::TruncatedInput)
    } else if s[off] == 101 {
        Ok((Seq::empty(), off + 1))
    } else if !is_value_lead(s[off]) {
        Err(DecodeError::UnknownTypePrefix)
    } else {
        match parse_value(s, off) {
            Err(e) => Err(e),
            Ok((v, n)) => {
                let n1 = if n <= off || n > s.len() { off + 1 } else { n };
                match parse_list(s, n1) {
                    Err(e) => Err(e),
                    Ok((rest, m)) => Ok((seq![v] + rest, m)),
                }
            },
        }
    }
}

/// The meaning of decoding the key/value pairs of an object from `off` up
/// to the closing `'e'`: the raw pairs in the order encountered,
/// duplicates included.  (The `if n <= off` arms only bound the recursion.)
pub open spec fn parse_pairs(s: Seq<u8>, off: int) -> Result<(Seq<BenEntry>, int), DecodeError>
    decreases s.len() - off, 1int,
{
    if off < 0 || off >= s.len() {
        Err(DecodeError::TruncatedInput)
    } else if s[off] == 101 {
        Ok((Seq::empty(), off + 1))
    } else {
        match parse_bytes(s, off) {
            Err(e) => Err(e),
            Ok((key, kn)) => {
                let k1 = if kn <= off || kn > s.len() { off + 1 } else { kn };
                if k1 >= s.len() {
                    Err(DecodeError::TruncatedInput)
                } else if !is_value_lead(s[k1]) {
                    Err(DecodeError::UnknownTypePrefix)
                } else {
                    match parse_value(s, k1) {
                        Err(e) => Err(e),
                        Ok((v, vn)) => {
                            let v1 = if vn <= k1 || vn > s.len() { k1 + 1 } else { vn };
                            match parse_pairs(s, v1) {
                                Err(e) => Err(e),
                                Ok((rest, m)) => Ok((seq![BenEntry { key, value: v }] + rest, m)),
                            }
                        },
                    }
                }
            },
        }
    }
}

} // verus!
