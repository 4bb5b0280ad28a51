//! The laws of the codec, stated over the model and proved once and for
//! all: decoding a canonical encoding yields the original tree
//! (round-trip), re-encoding it reproduces the bytes, truncated
//! encodings are rejected, and unknown lead bytes are rejected.

use vstd::prelude::*;

use crate::lemmas::lemma_dec_digits_props;
use crate::lemmas::lemma_find_key_props;
use crate::lemmas::lemma_obj_put_keys;
use crate::model::dec_digits;
use crate::model::dec_val;
use crate::model::enc;
use crate::model::enc_bytes;
use crate::model::enc_entries;
use crate::model::enc_items;
use crate::model::find_key;
use crate::model::has_key;
use crate::model::is_digit;
use crate::model::is_value_lead;
use crate::model::keys_of;
use crate::model::keys_unique;
use crate::model::obj_put;
use crate::model::obj_put_all;
use crate::model::parse_bytes;
use crate::model::parse_list;
use crate::model::parse_number;
use crate::model::parse_pairs;
use crate::model::parse_value;
use crate::model::scan_digits;
use crate::model::scan_for;
use crate::model::wf;
use crate::model::BenEntry;
use crate::model::BenValue;
use crate::model::DecodeError;

verus! {

broadcast use vstd::seq::group_seq_axioms;

/// `scan_for` finds the first occurrence: if `t` first occurs at `p`,
/// the scan from `off` stops there.
proof fn lemma_scan_for_hits(s: Seq<u8>, off: int, t: u8, p: int)
    requires
        0 <= off <= p < s.len(),
        s[p] == t,
        forall|l: int| off <= l < p ==> s[l] != t,
    ensures
        scan_for(s, off, t) == p,
    decreases p - off,
{
    if off < p {
        lemma_scan_for_hits(s, off + 1, t, p);
    }
}

/// `scan_for` misses: if `t` occurs nowhere at or after `off`, the scan
/// reports `-1`.
proof fn lemma_scan_for_misses(s: Seq<u8>, off: int, t: u8)
    requires
        0 <= off,
        forall|l: int| off <= l < s.len() ==> s[l] != t,
    ensures
        scan_for(s, off, t) == -1,
    decreases s.len() - off,
{
    if off < s.len() {
        lemma_scan_for_misses(s, off + 1, t);
    }
}

/// `scan_digits` stops at the first non-digit.
proof fn lemma_scan_digits_hits(s: Seq<u8>, off: int, p: int)
    requires
        0 <= off <= p <= s.len(),
        forall|l: int| off <= l < p ==> is_digit(s[l]),
        p == s.len() || !is_digit(s[p]),
    ensures
        scan_digits(s, off) == p,
    decreases p - off,
{
    if off < p {
        lemma_scan_digits_hits(s, off + 1, p);
    }
}

/// The encoding of any tree is at least two bytes, starts with a valid
/// lead byte, and never starts with the terminator `'e'`.
proof fn lemma_enc_lead(v: BenValue)
    ensures
        enc(v).len() >= 2,
        is_value_lead(enc(v)[0]),
        enc(v)[0] != 101u8,
{
    match v {
        BenValue::Number { digits } => {},
        BenValue::Bytes { data } => {
            lemma_dec_digits_props(data.len());
            assert(enc(v)[0] == dec_digits(data.len())[0]);
            assert(is_digit(dec_digits(data.len())[0]));
        },
        BenValue::Array { items } => {},
        BenValue::Object { entries } => {},
    }
}

/// Decoding a number's encoding embedded in a larger buffer recovers the
/// digits and consumes exactly the encoding.
proof fn lemma_parse_number_of_enc(digits: Seq<u8>, s: Seq<u8>, off: int)
    requires
        forall|l: int| 0 <= l < digits.len() ==> digits[l] != 101u8,
        0 <= off,
        off + digits.len() + 2 <= s.len(),
        s.subrange(off, off + digits.len() + 2) == seq![105u8] + digits + seq![101u8],
    ensures
        parse_number(s, off) == Ok::<(BenValue, int), DecodeError>(
            (BenValue::Number { digits }, off + digits.len() + 2),
        ),
{
    let region = seq![105u8] + digits + seq![101u8];
    assert(s[off] == region[0]);
    assert forall|l: int| off + 1 <= l < off + 1 + digits.len() implies s[l] != 101u8 by {
        assert(s[l] == region[l - off]);
        assert(region[l - off] == digits[l - off - 1]);
    }
    assert(s[off + 1 + digits.len()] == region[1 + digits.len() as int]);
    lemma_scan_for_hits(s, off + 1, 101u8, off + 1 + digits.len());
    assert(s.subrange(off + 1, off + 1 + digits.len()) =~= digits) by {
        assert forall|l: int| 0 <= l < digits.len() implies s[off + 1 + l] == digits[l] by {
            assert(s[off + 1 + l] == region[1 + l]);
        }
    }
}

/// Decoding a byte string's encoding embedded in a larger buffer
/// recovers the raw bytes and consumes exactly the encoding.
proof fn lemma_parse_bytes_of_enc(data: Seq<u8>, s: Seq<u8>, off: int)
    requires
        0 <= off,
        off + enc_bytes(data).len() <= s.len(),
        s.subrange(off, off + enc_bytes(data).len()) == enc_bytes(data),
    ensures
        parse_bytes(s, off) == Ok::<(Seq<u8>, int), DecodeError>(
            (data, off + enc_bytes(data).len()),
        ),
{
    let ds = dec_digits(data.len());
    let d = ds.len() as int;
    let region = enc_bytes(data);
    lemma_dec_digits_props(data.len());
    assert forall|l: int| off <= l < off + d implies is_digit(s[l]) by {
        assert(s[l] == region[l - off]);
        assert(region[l - off] == ds[l - off]);
    }
    assert(s[off + d] == region[d]);
    assert(s[off + d] == 58u8);
    lemma_scan_digits_hits(s, off, off + d);
    assert(s.subrange(off, off + d) =~= ds) by {
        assert forall|l: int| 0 <= l < d implies s[off + l] == ds[l] by {
            assert(s[off + l] == region[l]);
        }
    }
    assert(s.subrange(off + d + 1, off + d + 1 + data.len()) =~= data) by {
        assert forall|l: int| 0 <= l < data.len() implies s[off + d + 1 + l] == data[l] by {
            assert(s[off + d + 1 + l] == region[d + 1 + l]);
        }
    }
}

/// Decoding the canonical encoding of a well-formed tree, embedded in a
/// larger buffer, recovers the tree and consumes exactly the encoding.
pub proof fn lemma_parse_of_enc(v: BenValue, s: Seq<u8>, off: int)
    requires
        wf(v),
        0 <= off,
        off + enc(v).len() <= s.len(),
        s.subrange(off, off + enc(v).len()) == enc(v),
    ensures
        parse_value(s, off) == Ok::<(BenValue, int), DecodeError>((v, off + enc(v).len())),
    decreases enc(v).len(), 0int,
{
    lemma_enc_lead(v);
    assert(s[off] == enc(v)[0]);
    match v {
        BenValue::Number { digits } => {
            lemma_parse_number_of_enc(digits, s, off);
        },
        BenValue::Bytes { data } => {
            lemma_parse_bytes_of_enc(data, s, off);
            lemma_dec_digits_props(data.len());
            assert(is_digit(s[off]));
        },
        BenValue::Array { items } => {
            assert(s[off] == 108u8);
            let body = enc_items(items, 0);
            assert forall|l: int| 0 <= l < body.len() implies s[off + 1 + l] == body[l] by {
                assert(s[off + 1 + l] == enc(v)[1 + l]);
            }
            assert(s.subrange(off + 1, off + 1 + body.len()) =~= body);
            assert(s[off + 1 + body.len()] == enc(v)[1 + body.len() as int]);
            lemma_parse_list_of_enc(items, 0, s, off + 1);
            assert(items.skip(0) =~= items);
        },
        BenValue::Object { entries } => {
            assert(s[off] == 100u8);
            let body = enc_entries(entries, 0);
            assert forall|l: int| 0 <= l < body.len() implies s[off + 1 + l] == body[l] by {
                assert(s[off + 1 + l] == enc(v)[1 + l]);
            }
            assert(s.subrange(off + 1, off + 1 + body.len()) =~= body);
            assert(s[off + 1 + body.len()] == enc(v)[1 + body.len() as int]);
            lemma_parse_pairs_of_enc(entries, 0, s, off + 1);
            assert(entries.skip(0) =~= entries);
            lemma_obj_put_all_id(Seq::empty(), entries, 0);
            assert(Seq::<BenEntry>::empty() + entries =~= entries);
        },
    }
}

/// Decoding the concatenated encodings of `items[i..]` followed by the
/// closing `'e'` recovers exactly those items.
proof fn lemma_parse_list_of_enc(items: Seq<BenValue>, i: int, s: Seq<u8>, off: int)
    requires
        forall|l: int| 0 <= l < items.len() ==> wf(#[trigger] items[l]),
        0 <= i <= items.len(),
        0 <= off,
        off + enc_items(items, i).len() + 1 <= s.len(),
        s.subrange(off, off + enc_items(items, i).len()) == enc_items(items, i),
        s[off + enc_items(items, i).len()] == 101u8,
    ensures
        parse_list(s, off) == Ok::<(Seq<BenValue>, int), DecodeError>(
            (items.skip(i), off + enc_items(items, i).len() + 1),
        ),
    decreases enc_items(items, i).len(), 1int,
{
    if i == items.len() {
        assert(enc_items(items, i).len() == 0);
        assert(s[off] == 101u8);
        assert(items.skip(i) =~= Seq::<BenValue>::empty());
    } else {
        let head = enc(items[i]);
        let body = enc_items(items, i);
        let rest = enc_items(items, i + 1);
        assert(body == head + rest);
        lemma_enc_lead(items[i]);
        assert(s[off] == body[0]);
        assert(body[0] == head[0]);
        assert(s.subrange(off, off + head.len()) =~= head) by {
            assert forall|l: int| 0 <= l < head.len() implies s[off + l] == head[l] by {
                assert(s[off + l] == body[l]);
            }
        }
        lemma_parse_of_enc(items[i], s, off);
        let mid = off + head.len();
        assert(s.subrange(mid, mid + rest.len()) =~= rest) by {
            assert forall|l: int| 0 <= l < rest.len() implies s[mid + l] == rest[l] by {
                assert(s[mid + l] == body[head.len() + l]);
            }
        }
        lemma_parse_list_of_enc(items, i + 1, s, mid);
        assert(seq![items[i]] + items.skip(i + 1) =~= items.skip(i));
    }
}

/// Decoding the concatenated key/value encodings of `entries[i..]`
/// followed by the closing `'e'` recovers exactly those pairs.
proof fn lemma_parse_pairs_of_enc(entries: Seq<BenEntry>, i: int, s: Seq<u8>, off: int)
    requires
        forall|l: int| 0 <= l < entries.len() ==> wf(#[trigger] entries[l].value),
        0 <= i <= entries.len(),
        0 <= off,
        off + enc_entries(entries, i).len() + 1 <= s.len(),
        s.subrange(off, off + enc_entries(entries, i).len()) == enc_entries(entries, i),
        s[off + enc_entries(entries, i).len()] == 101u8,
    ensures
        parse_pairs(s, off) == Ok::<(Seq<BenEntry>, int), DecodeError>(
            (entries.skip(i), off + enc_entries(entries, i).len() + 1),
        ),
    decreases enc_entries(entries, i).len(), 1int,
{
    if i == entries.len() {
        assert(enc_entries(entries, i).len() == 0);
        assert(s[off] == 101u8);
        assert(entries.skip(i) =~= Seq::<BenEntry>::empty());
    } else {
        let kb = enc_bytes(entries[i].key);
        let vb = enc(entries[i].value);
        let body = enc_entries(entries, i);
        let rest = enc_entries(entries, i + 1);
        assert(body == kb + vb + rest);
        lemma_dec_digits_props(entries[i].key.len());
        assert(s.subrange(off, off + kb.len()) =~= kb) by {
            assert forall|l: int| 0 <= l < kb.len() implies s[off + l] == kb[l] by {
                assert(s[off + l] == body[l]);
            }
        }
        lemma_parse_bytes_of_enc(entries[i].key, s, off);
        assert(s[off] == kb[0]);
        assert(is_digit(s[off]));
        let mid = off + kb.len();
        lemma_enc_lead(entries[i].value);
        assert(s.subrange(mid, mid + vb.len()) =~= vb) by {
            assert forall|l: int| 0 <= l < vb.len() implies s[mid + l] == vb[l] by {
                assert(s[mid + l] == body[kb.len() + l]);
            }
        }
        assert(s[mid] == vb[0]);
        lemma_parse_of_enc(entries[i].value, s, mid);
        let vend = mid + vb.len();
        assert(s.subrange(vend, vend + rest.len()) =~= rest) by {
            assert forall|l: int| 0 <= l < rest.len() implies s[vend + l] == rest[l] by {
                assert(s[vend + l] == body[kb.len() + vb.len() + l]);
            }
        }
        lemma_parse_pairs_of_enc(entries, i + 1, s, vend);
        assert(seq![entries[i]] + entries.skip(i + 1) =~= entries.skip(i));
    }
}

/// Inserting pairs with pairwise distinct keys, none of which occurs in
/// `acc`, just appends them.
proof fn lemma_obj_put_all_id(acc: Seq<BenEntry>, entries: Seq<BenEntry>, i: int)
    requires
        0 <= i <= entries.len(),
        keys_unique(acc + entries.skip(i)),
    ensures
        obj_put_all(acc, entries, i) == acc + entries.skip(i),
    decreases entries.len() - i,
{
    if i == entries.len() {
        assert(obj_put_all(acc, entries, i) =~= acc + entries.skip(i));
    } else {
        let e = entries[i];
        let whole = acc + entries.skip(i);
        lemma_find_key_props(acc, e.key, 0);
        let j = find_key(acc, e.key, 0);
        if j >= 0 {
            assert(whole[j] == acc[j]);
            assert(whole[acc.len() as int] == e);
            assert(false);
        }
        assert(obj_put(acc, e.key, e.value) == acc.push(e));
        assert(acc.push(e) + entries.skip(i + 1) =~= acc + entries.skip(i));
        lemma_obj_put_all_id(acc.push(e), entries, i + 1);
    }
}

/// Round-trip: decoding the canonical encoding of any well-formed tree
/// yields the tree itself, structurally equal, consuming every byte.
pub proof fn lemma_round_trip(v: BenValue)
    requires
        wf(v),
    ensures
        parse_value(enc(v), 0) == Ok::<(BenValue, int), DecodeError>((v, enc(v).len() as int)),
{
    assert(enc(v).subrange(0, enc(v).len() as int) =~= enc(v));
    lemma_parse_of_enc(v, enc(v), 0);
}

/// Idempotence of re-encoding a decoded tree: decoding a canonical
/// encoding and encoding the result yields byte-identical output.
pub proof fn lemma_reencode_identity(v: BenValue)
    requires
        wf(v),
    ensures
        parse_value(enc(v), 0) matches Ok(p) && enc(p.0) == enc(v),
{
    lemma_round_trip(v);
}

/// Insertion-order preservation: inserting under an existing key keeps
/// the key order unchanged (the key stays in its original slot), and a
/// new key is appended at the end.
pub proof fn lemma_put_insertion_order(entries: Seq<BenEntry>, k: Seq<u8>, v: BenValue)
    ensures
        has_key(entries, k) ==> keys_of(obj_put(entries, k, v)) == keys_of(entries),
        !has_key(entries, k) ==> keys_of(obj_put(entries, k, v)) == keys_of(entries).push(k),
{
    lemma_obj_put_keys(entries, k, v);
}

/// When the buffer ends right after the encodings of `items[i..]`, with
/// no closing `'e'`, decoding the children runs off the end.
proof fn lemma_parse_list_runs_out(items: Seq<BenValue>, i: int, s: Seq<u8>, off: int)
    requires
        forall|l: int| 0 <= l < items.len() ==> wf(#[trigger] items[l]),
        0 <= i <= items.len(),
        0 <= off,
        off + enc_items(items, i).len() == s.len(),
        s.subrange(off, off + enc_items(items, i).len()) == enc_items(items, i),
    ensures
        parse_list(s, off) == Err::<(Seq<BenValue>, int), DecodeError>(DecodeError::TruncatedInput),
    decreases items.len() - i,
{
    if i == items.len() {
        assert(off == s.len());
    } else {
        let head = enc(items[i]);
        let body = enc_items(items, i);
        let rest = enc_items(items, i + 1);
        lemma_enc_lead(items[i]);
        assert(s[off] == body[0]);
        assert(body[0] == head[0]);
        assert(s.subrange(off, off + head.len()) =~= head) by {
            assert forall|l: int| 0 <= l < head.len() implies s[off + l] == head[l] by {
                assert(s[off + l] == body[l]);
            }
        }
        lemma_parse_of_enc(items[i], s, off);
        let mid = off + head.len();
        assert(s.subrange(mid, mid + rest.len()) =~= rest) by {
            assert forall|l: int| 0 <= l < rest.len() implies s[mid + l] == rest[l] by {
                assert(s[mid + l] == body[head.len() + l]);
            }
        }
        lemma_parse_list_runs_out(items, i + 1, s, mid);
    }
}

/// When the buffer ends right after the encodings of `entries[i..]`,
/// with no closing `'e'`, decoding the pairs runs off the end.
proof fn lemma_parse_pairs_runs_out(entries: Seq<BenEntry>, i: int, s: Seq<u8>, off: int)
    requires
        forall|l: int| 0 <= l < entries.len() ==> wf(#[trigger] entries[l].value),
        0 <= i <= entries.len(),
        0 <= off,
        off + enc_entries(entries, i).len() == s.len(),
        s.subrange(off, off + enc_entries(entries, i).len()) == enc_entries(entries, i),
    ensures
        parse_pairs(s, off) == Err::<(Seq<BenEntry>, int), DecodeError>(
            DecodeError::TruncatedInput,
        ),
    decreases entries.len() - i,
{
    if i == entries.len() {
        assert(off == s.len());
    } else {
        let kb = enc_bytes(entries[i].key);
        let vb = enc(entries[i].value);
        let body = enc_entries(entries, i);
        let rest = enc_entries(entries, i + 1);
        lemma_dec_digits_props(entries[i].key.len());
        lemma_enc_lead(entries[i].value);
        assert(s.subrange(off, off + kb.len()) =~= kb) by {
            assert forall|l: int| 0 <= l < kb.len() implies s[off + l] == kb[l] by {
                assert(s[off + l] == body[l]);
            }
        }
        lemma_parse_bytes_of_enc(entries[i].key, s, off);
        assert(s[off] == kb[0]);
        assert(is_digit(s[off]));
        let mid = off + kb.len();
        assert(s.subrange(mid, mid + vb.len()) =~= vb) by {
            assert forall|l: int| 0 <= l < vb.len() implies s[mid + l] == vb[l] by {
                assert(s[mid + l] == body[kb.len() + l]);
            }
        }
        assert(s[mid] == vb[0]);
        lemma_parse_of_enc(entries[i].value, s, mid);
        let vend = mid + vb.len();
        assert(s.subrange(vend, vend + rest.len()) =~= rest) by {
            assert forall|l: int| 0 <= l < rest.len() implies s[vend + l] == rest[l] by {
                assert(s[vend + l] == body[kb.len() + vb.len() + l]);
            }
        }
        lemma_parse_pairs_runs_out(entries, i + 1, s, vend);
    }
}

/// Truncation detection: decoding a canonical encoding with its last
/// byte removed fails.  A bare number loses its terminator
/// (`MalformedNumber`), a bare empty byte string loses its `':'`
/// (`MalformedLength`); every other tree fails with `TruncatedInput`.
pub proof fn lemma_truncation_detected(v: BenValue)
    requires
        wf(v),
    ensures
        ({
            let t = enc(v).drop_last();
            parse_value(t, 0) == Err::<(BenValue, int), DecodeError>(
                match v {
                    BenValue::Number { .. } => DecodeError::MalformedNumber,
                    BenValue::Bytes { data } => if data.len() == 0 {
                        DecodeError::MalformedLength
                    } else {
                        DecodeError::TruncatedInput
                    },
                    BenValue::Array { .. } => DecodeError::TruncatedInput,
                    BenValue::Object { .. } => DecodeError::TruncatedInput,
                },
            )
        }),
{
    lemma_enc_lead(v);
    let t = enc(v).drop_last();
    assert(t[0] == enc(v)[0]);
    match v {
        BenValue::Number { digits } => {
            assert(t[0] == 105u8);
            assert forall|l: int| 1 <= l < t.len() implies t[l] != 101u8 by {
                assert(t[l] == enc(v)[l]);
                assert(enc(v)[l] == digits[l - 1]);
            }
            lemma_scan_for_misses(t, 1, 101u8);
        },
        BenValue::Bytes { data } => {
            let ds = dec_digits(data.len());
            let d = ds.len() as int;
            lemma_dec_digits_props(data.len());
            assert(is_digit(t[0]));
            if data.len() == 0 {
                assert(t.len() == d);
                assert forall|l: int| 0 <= l < d implies is_digit(t[l]) by {
                    assert(t[l] == enc(v)[l]);
                    assert(enc(v)[l] == ds[l]);
                }
                lemma_scan_digits_hits(t, 0, d);
            } else {
                assert forall|l: int| 0 <= l < d implies is_digit(t[l]) by {
                    assert(t[l] == enc(v)[l]);
                    assert(enc(v)[l] == ds[l]);
                }
                assert(t[d] == enc(v)[d]);
                assert(t[d] == 58u8);
                lemma_scan_digits_hits(t, 0, d);
                assert(t.subrange(0, d) =~= ds) by {
                    assert forall|l: int| 0 <= l < d implies t[l] == ds[l] by {
                        assert(t[l] == enc(v)[l]);
                    }
                }
                assert(dec_val(t.subrange(0, d)) == data.len());
                assert(d + 1 + data.len() > t.len());
            }
        },
        BenValue::Array { items } => {
            assert(t[0] == 108u8);
            let body = enc_items(items, 0);
            assert(t.len() == 1 + body.len());
            assert(t.subrange(1, 1 + body.len() as int) =~= body) by {
                assert forall|l: int| 0 <= l < body.len() implies t[1 + l] == body[l] by {
                    assert(t[1 + l] == enc(v)[1 + l]);
                }
            }
            lemma_parse_list_runs_out(items, 0, t, 1);
        },
        BenValue::Object { entries } => {
            assert(t[0] == 100u8);
            let body = enc_entries(entries, 0);
            assert(t.len() == 1 + body.len());
            assert(t.subrange(1, 1 + body.len() as int) =~= body) by {
                assert forall|l: int| 0 <= l < body.len() implies t[1 + l] == body[l] by {
                    assert(t[1 + l] == enc(v)[1 + l]);
                }
            }
            lemma_parse_pairs_runs_out(entries, 0, t, 1);
        },
    }
}

/// Type-prefix rejection: a buffer whose lead byte matches none of the
/// four variant prefixes is rejected with `InvalidPrefix`.
pub proof fn lemma_prefix_rejected(s: Seq<u8>)
    requires
        s.len() > 0,
        !is_value_lead(s[0]),
    ensures
        parse_value(s, 0) == Err::<(BenValue, int), DecodeError>(DecodeError::InvalidPrefix),
{
}

} // verus!
