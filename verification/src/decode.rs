//! The decoder: a recursive descent over the input buffer, specified
//! exactly against the `parse_*` functions of the model.
//!
//! Every decoding function returns, besides the decoded value, the offset
//! one past its encoding, so that a caller can advance into a larger
//! buffer.  A decode failure aborts the enclosing parse immediately: a
//! malformed child makes the whole containing array or object fail.

use vstd::prelude::*;

use crate::lemmas::lemma_dec_val_prefix_monotone;
use crate::lemmas::lemma_obj_put_all_snoc;
use crate::lemmas::lemma_obj_put_wf;
use crate::model::is_digit;
use crate::model::dec_val;
use crate::model::keys_unique;
use crate::model::obj_put_all;
use crate::model::parse_bytes;
use crate::model::parse_list;
use crate::model::parse_number;
use crate::model::parse_pairs;
use crate::model::parse_value;
use crate::model::scan_digits;
use crate::model::scan_for;
use crate::model::wf;
use crate::model::BenEntry;
use crate::model::BenValue;
use crate::model::DecodeError;
use crate::value::lemma_seq_view_push;
use crate::value::seq_view;
use crate::value::Bencode;
use crate::value::BencodeArray;
use crate::value::BencodeBytes;
use crate::value::BencodeNumber;
use crate::value::BencodeObject;

verus! {

broadcast use
    vstd::std_specs::vec::group_vec_axioms,
    vstd::seq::group_seq_axioms,
    lemma_seq_view_push,
;

/// Copies `buf[a..b]` into a fresh owned vector.
pub(crate) fn copy_range(buf: &[u8], a: usize, b: usize) -> (r: Vec<u8>)
    requires
        a <= b <= buf@.len(),
    ensures
        r@ == buf@.subrange(a as int, b as int),
{
    let mut out: Vec<u8> = Vec::new();
    proof {
        assert(out@ =~= buf@.subrange(a as int, a as int));
    }
    let mut i: usize = a;
    while i < b
        invariant
            a <= i <= b <= buf@.len(),
            out@ == buf@.subrange(a as int, i as int),
        decreases b - i,
    {
        out.push(buf[i]);
        proof {
            assert(buf@.subrange(a as int, i + 1) =~= buf@.subrange(a as int, i as int).push(
                buf@[i as int],
            ));
        }
        i = i + 1;
    }
    out
}

/// Decodes a number at `off`: the prefix `'i'`, digit bytes, and the
/// terminator `'e'`, consumed through and including the `'e'`.
pub(crate) fn decode_number_at(buf: &[u8], off: usize) -> (r: Result<(BencodeNumber, usize), DecodeError>)
    requires
        off <= buf@.len(),
    ensures
        match r {
            Ok((num, n)) => {
                &&& parse_number(buf@, off as int) == Ok::<(BenValue, int), DecodeError>(
                    (BenValue::Number { digits: num@ }, n as int),
                )
                &&& off < n <= buf@.len()
                &&& forall|l: int| 0 <= l < num@.len() ==> num@[l] != 101u8
            },
            Err(e) => parse_number(buf@, off as int) == Err::<(BenValue, int), DecodeError>(e),
        },
{
    if off >= buf.len() {
        return Err(DecodeError::TruncatedInput);
    }
    if buf[off] != 105 {
        return Err(DecodeError::InvalidPrefix);
    }
    let mut j: usize = off + 1;
    while j < buf.len() && buf[j] != 101
        invariant
            off + 1 <= j <= buf@.len(),
            scan_for(buf@, off as int + 1, 101) == scan_for(buf@, j as int, 101),
            forall|l: int| off + 1 <= l < j ==> buf@[l] != 101u8,
        decreases buf@.len() - j,
    {
        j = j + 1;
    }
    if j >= buf.len() {
        return Err(DecodeError::MalformedNumber);
    }
    let digits = copy_range(buf, off + 1, j);
    Ok((BencodeNumber { digits }, j + 1))
}

/// Decodes a byte string at `off`: decimal length digits, `':'`, then
/// exactly that many raw bytes.
pub(crate) fn decode_bytes_at(buf: &[u8], off: usize) -> (r: Result<(BencodeBytes, usize), DecodeError>)
    requires
        off <= buf@.len(),
    ensures
        match r {
            Ok((bytes, n)) => {
                &&& parse_bytes(buf@, off as int) == Ok::<(Seq<u8>, int), DecodeError>(
                    (bytes@, n as int),
                )
                &&& off < n <= buf@.len()
            },
            Err(e) => parse_bytes(buf@, off as int) == Err::<(Seq<u8>, int), DecodeError>(e),
        },
{
    if off >= buf.len() {
        return Err(DecodeError::TruncatedInput);
    }
    let b0 = buf[off];
    if !(48 <= b0 && b0 <= 57) {
        return Err(DecodeError::InvalidPrefix);
    }
    let mut j: usize = off + 1;
    while j < buf.len() && 48 <= buf[j] && buf[j] <= 57
        invariant
            off < j <= buf@.len(),
            scan_digits(buf@, off as int) == scan_digits(buf@, j as int),
            forall|l: int| off <= l < j ==> is_digit(buf@[l]),
        decreases buf@.len() - j,
    {
        j = j + 1;
    }
    if j >= buf.len() || buf[j] != 58 {
        return Err(DecodeError::MalformedLength);
    }
    let mut len: usize = 0;
    let mut i: usize = off;
    while i < j
        invariant
            off <= i <= j < buf@.len(),
            off < j,
            buf@.len() <= usize::MAX,
            buf@[j as int] == 58,
            scan_digits(buf@, off as int) == j as int,
            forall|l: int| off <= l < j ==> is_digit(buf@[l]),
            len as int == dec_val(buf@.subrange(off as int, i as int)),
        decreases j - i,
    {
        let d = (buf[i] - 48) as usize;
        proof {
            assert(buf@.subrange(off as int, i + 1).drop_last() =~= buf@.subrange(
                off as int,
                i as int,
            ));
            assert(buf@.subrange(off as int, i + 1).last() == buf@[i as int]);
        }
        proof {
            assert(dec_val(buf@.subrange(off as int, i + 1)) == len * 10 + d);
        }
        let overflowed: bool = len > (usize::MAX - d) / 10;
        if overflowed {
            proof {
                assert(len * 10 + d > usize::MAX) by (nonlinear_arith)
                    requires
                        len > (usize::MAX - d) / 10,
                        d <= usize::MAX,
                ;
                lemma_dec_val_prefix_monotone(buf@, off as int, i + 1, j as int);
                assert(dec_val(buf@.subrange(off as int, j as int)) > usize::MAX >= buf@.len());
            }
            return Err(DecodeError::TruncatedInput);
        }
        proof {
            assert(len * 10 + d <= usize::MAX) by (nonlinear_arith)
                requires
                    len <= (usize::MAX - d) / 10,
                    d <= usize::MAX,
            ;
        }
        len = len * 10 + d;
        i = i + 1;
    }
    if len > buf.len() - j - 1 {
        return Err(DecodeError::TruncatedInput);
    }
    let start = j + 1;
    let end = start + len;
    let value = copy_range(buf, start, end);
    Ok((BencodeBytes { value }, end))
}

/// Decodes the children of an array from `off` up to the closing `'e'`,
/// which is consumed.
fn decode_list_at(buf: &[u8], off: usize) -> (r: Result<(Vec<Bencode>, usize), DecodeError>)
    requires
        off <= buf@.len(),
    ensures
        match r {
            Ok((items, n)) => {
                &&& parse_list(buf@, off as int) == Ok::<(Seq<BenValue>, int), DecodeError>(
                    (seq_view(items@), n as int),
                )
                &&& off < n <= buf@.len()
                &&& forall|l: int|
                    0 <= l < seq_view(items@).len() ==> wf(#[trigger] seq_view(items@)[l])
            },
            Err(e) => parse_list(buf@, off as int) == Err::<(Seq<BenValue>, int), DecodeError>(e),
        },
    decreases buf@.len() - off, 1int,
{
    let mut items: Vec<Bencode> = Vec::new();
    let mut cur: usize = off;
    proof {
        assert(seq_view(items@) =~= Seq::<BenValue>::empty());
    }
    loop
        invariant
            off <= cur <= buf@.len(),
            forall|l: int| 0 <= l < seq_view(items@).len() ==> wf(#[trigger] seq_view(items@)[l]),
            (match parse_list(buf@, cur as int) {
                Ok::<(Seq<BenValue>, int), DecodeError>((rest, m)) => parse_list(
                    buf@,
                    off as int,
                ) == Ok::<(Seq<BenValue>, int), DecodeError>((seq_view(items@) + rest, m)),
                Err(e) => parse_list(buf@, off as int) == Err::<(Seq<BenValue>, int), DecodeError>(
                    e,
                ),
            }),
        decreases buf@.len() - cur,
    {
        if cur >= buf.len() {
            return Err(DecodeError::TruncatedInput);
        }
        let b = buf[cur];
        if b == 101 {
            proof {
                assert(seq_view(items@) + Seq::<BenValue>::empty() =~= seq_view(items@));
            }
            return Ok((items, cur + 1));
        }
        if !(b == 105 || b == 108 || b == 100 || (48 <= b && b <= 57)) {
            return Err(DecodeError::UnknownTypePrefix);
        }
        match Bencode::decode_at(buf, cur) {
            Err(e) => {
                return Err(e);
            },
            Ok((v, n)) => {
                proof {
                    let done = seq_view(items@);
                    match parse_list(buf@, n as int) {
                        Ok::<(Seq<BenValue>, int), DecodeError>((rest, m)) => {
                            assert(done + (seq![v@] + rest) =~= done.push(v@) + rest);
                        },
                        Err(e) => {},
                    }
                }
                items.push(v);
                cur = n;
            },
        }
    }
}

/// Decodes the key/value pairs of an object from `off` up to the closing
/// `'e'`, which is consumed.  Pairs are inserted in the order
/// encountered; a duplicate key overwrites the earlier value while
/// keeping its original position.
fn decode_pairs_at(buf: &[u8], off: usize) -> (r: Result<(BencodeObject, usize), DecodeError>)
    requires
        off <= buf@.len(),
    ensures
        match r {
            Ok((obj, n)) => {
                &&& parse_pairs(buf@, off as int) matches Ok((raw, m)) && m == n as int && obj@
                    == obj_put_all(Seq::empty(), raw, 0)
                &&& off < n <= buf@.len()
                &&& wf(BenValue::Object { entries: obj@ })
            },
            Err(e) => parse_pairs(buf@, off as int) == Err::<(Seq<BenEntry>, int), DecodeError>(e),
        },
    decreases buf@.len() - off, 1int,
{
    let mut obj = BencodeObject::new();
    let ghost mut raw: Seq<BenEntry> = Seq::empty();
    let mut cur: usize = off;
    proof {
        assert(obj_put_all(Seq::empty(), raw, 0) =~= obj@);
    }
    loop
        invariant
            off <= cur <= buf@.len(),
            obj@ == obj_put_all(Seq::empty(), raw, 0),
            keys_unique(obj@),
            forall|l: int| 0 <= l < obj@.len() ==> wf(#[trigger] obj@[l].value),
            (match parse_pairs(buf@, cur as int) {
                Ok::<(Seq<BenEntry>, int), DecodeError>((rest, m)) => parse_pairs(
                    buf@,
                    off as int,
                ) == Ok::<(Seq<BenEntry>, int), DecodeError>((raw + rest, m)),
                Err(e) => parse_pairs(buf@, off as int) == Err::<(Seq<BenEntry>, int), DecodeError>(
                    e,
                ),
            }),
        decreases buf@.len() - cur,
    {
        if cur >= buf.len() {
            return Err(DecodeError::TruncatedInput);
        }
        if buf[cur] == 101 {
            proof {
                assert(raw + Seq::<BenEntry>::empty() =~= raw);
            }
            return Ok((obj, cur + 1));
        }
        let (kb, kn) = match decode_bytes_at(buf, cur) {
            Err(e) => {
                return Err(e);
            },
            Ok(p) => p,
        };
        if kn >= buf.len() {
            return Err(DecodeError::TruncatedInput);
        }
        let b = buf[kn];
        if !(b == 105 || b == 108 || b == 100 || (48 <= b && b <= 57)) {
            return Err(DecodeError::UnknownTypePrefix);
        }
        match Bencode::decode_at(buf, kn) {
            Err(e) => {
                return Err(e);
            },
            Ok((v, vn)) => {
                proof {
                    let entry = BenEntry { key: kb@, value: v@ };
                    lemma_obj_put_all_snoc(Seq::empty(), raw, entry, 0);
                    lemma_obj_put_wf(obj@, kb@, v@);
                    match parse_pairs(buf@, vn as int) {
                        Ok::<(Seq<BenEntry>, int), DecodeError>((rest, m)) => {
                            assert(raw + (seq![entry] + rest) =~= raw.push(entry) + rest);
                        },
                        Err(e) => {},
                    }
                    raw = raw.push(entry);
                }
                obj.put(kb, v);
                cur = vn;
            },
        }
    }
}

impl Bencode {
    /// Decodes one value starting at `off`: the lead byte selects the
    /// variant's decoder.  On success the returned offset is one past the
    /// value's encoding, so the caller can advance into a larger buffer.
    pub fn decode_at(buf: &[u8], off: usize) -> (r: Result<(Bencode, usize), DecodeError>)
        requires
            off <= buf@.len(),
        ensures
            match r {
                Ok((v, n)) => {
                    &&& parse_value(buf@, off as int) == Ok::<(BenValue, int), DecodeError>(
                        (v@, n as int),
                    )
                    &&& off < n <= buf@.len()
                    &&& wf(v@)
                },
                Err(e) => parse_value(buf@, off as int) == Err::<(BenValue, int), DecodeError>(e),
            },
        decreases buf@.len() - off, 0int,
    {
        if off >= buf.len() {
            return Err(DecodeError::TruncatedInput);
        }
        let b = buf[off];
        if b == 105 {
            match decode_number_at(buf, off) {
                Ok((num, n)) => Ok((Bencode::Number(num), n)),
                Err(e) => Err(e),
            }
        } else if 48 <= b && b <= 57 {
            match decode_bytes_at(buf, off) {
                Ok((bytes, n)) => Ok((Bencode::Bytes(bytes), n)),
                Err(e) => Err(e),
            }
        } else if b == 108 {
            match decode_list_at(buf, off + 1) {
                Ok((items, n)) => Ok((Bencode::Array(BencodeArray { items }), n)),
                Err(e) => Err(e),
            }
        } else if b == 100 {
            match decode_pairs_at(buf, off + 1) {
                Ok((obj, n)) => Ok((Bencode::Object(obj), n)),
                Err(e) => Err(e),
            }
        } else {
            Err(DecodeError::InvalidPrefix)
        }
    }
}

} // verus!
