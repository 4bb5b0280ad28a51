//! Supporting lemmas about the model: the ordered container's operations
//! and decimal digit arithmetic.

use vstd::prelude::*;

use crate::model::dec_digits;
use crate::model::dec_val;
use crate::model::find_key;
use crate::model::is_digit;
use crate::model::keys_of;
use crate::model::keys_unique;
use crate::model::obj_put;
use crate::model::obj_put_all;
use crate::model::wf;
use crate::model::BenEntry;
use crate::model::BenValue;

verus! {

/// What `find_key` finds: the first entry at or after `i` whose key is
/// `k`, or `-1` when there is none.
pub proof fn lemma_find_key_props(entries: Seq<BenEntry>, k: Seq<u8>, i: int)
    requires
        0 <= i,
    ensures
        ({
            let j = find_key(entries, k, i);
            &&& j < 0 ==> j == -1 && (forall|l: int| i <= l < entries.len() ==> entries[l].key != k)
            &&& j >= 0 ==> i <= j < entries.len() && entries[j].key == k && (forall|l: int|
                i <= l < j ==> entries[l].key != k)
        }),
    decreases entries.len() - i,
{
    if i < entries.len() && entries[i].key != k {
        lemma_find_key_props(entries, k, i + 1);
    }
}

/// Insertion preserves the container invariant: unique keys stay unique,
/// and well-formed values stay well-formed when the new value is.
pub proof fn lemma_obj_put_wf(entries: Seq<BenEntry>, k: Seq<u8>, v: BenValue)
    requires
        keys_unique(entries),
        forall|l: int| 0 <= l < entries.len() ==> wf(#[trigger] entries[l].value),
        wf(v),
    ensures
        keys_unique(obj_put(entries, k, v)),
        forall|l: int|
            0 <= l < obj_put(entries, k, v).len() ==> wf(#[trigger] obj_put(entries, k, v)[l].value),
{
    lemma_find_key_props(entries, k, 0);
    let j = find_key(entries, k, 0);
    let r = obj_put(entries, k, v);
    if j >= 0 {
        assert forall|l: int| 0 <= l < r.len() implies r[l].key == entries[l].key by {
            if l == j {
                assert(r[l].key == k);
            }
        }
    }
    assert forall|a: int, b: int| 0 <= a < b < r.len() implies r[a].key != r[b].key by {
        if j >= 0 {
            assert(r[a].key == entries[a].key);
            assert(r[b].key == entries[b].key);
            assert(entries[a].key != entries[b].key);
        } else if b < entries.len() {
            assert(r[a].key == entries[a].key);
            assert(r[b].key == entries[b].key);
            assert(entries[a].key != entries[b].key);
        } else {
            assert(r[a].key == entries[a].key);
            assert(r[b].key == k);
            assert(entries[a].key != k);
        }
    }
}

/// Insertion keeps iteration order: an existing key keeps its slot, a new
/// key is appended at the end.
pub proof fn lemma_obj_put_keys(entries: Seq<BenEntry>, k: Seq<u8>, v: BenValue)
    ensures
        find_key(entries, k, 0) >= 0 ==> keys_of(obj_put(entries, k, v)) == keys_of(entries),
        find_key(entries, k, 0) < 0 ==> keys_of(obj_put(entries, k, v)) == keys_of(
            entries,
        ).push(k),
{
    lemma_find_key_props(entries, k, 0);
    let j = find_key(entries, k, 0);
    if j >= 0 {
        assert(keys_of(obj_put(entries, k, v)) =~= keys_of(entries));
    } else {
        assert(keys_of(obj_put(entries, k, v)) =~= keys_of(entries).push(k));
    }
}

/// Inserting the pairs of `raw` and then one more pair `p` is inserting
/// into the result of the first `raw.len() - i` insertions.
pub proof fn lemma_obj_put_all_snoc(acc: Seq<BenEntry>, raw: Seq<BenEntry>, p: BenEntry, i: int)
    requires
        0 <= i <= raw.len(),
    ensures
        obj_put_all(acc, raw.push(p), i) == obj_put(
            obj_put_all(acc, raw, i),
            p.key,
            p.value,
        ),
    decreases raw.len() - i,
{
    if i == raw.len() {
        assert(obj_put_all(acc, raw.push(p), i) == obj_put_all(
            obj_put(acc, p.key, p.value),
            raw.push(p),
            i + 1,
        ));
    } else {
        assert(raw.push(p)[i] == raw[i]);
        lemma_obj_put_all_snoc(obj_put(acc, raw[i].key, raw[i].value), raw, p, i + 1);
    }
}

/// The value of a digit string is nonnegative.
pub proof fn lemma_dec_val_nonneg(ds: Seq<u8>)
    requires
        forall|l: int| 0 <= l < ds.len() ==> is_digit(#[trigger] ds[l]),
    ensures
        dec_val(ds) >= 0,
    decreases ds.len(),
{
    if ds.len() > 0 {
        lemma_dec_val_nonneg(ds.drop_last());
    }
}

/// Extending a digit run on the right can only grow its value.
pub proof fn lemma_dec_val_prefix_monotone(s: Seq<u8>, off: int, a: int, b: int)
    requires
        0 <= off <= a <= b <= s.len(),
        forall|l: int| off <= l < b ==> is_digit(#[trigger] s[l]),
    ensures
        dec_val(s.subrange(off, a)) <= dec_val(s.subrange(off, b)),
    decreases b - a,
{
    if a < b {
        let prev = s.subrange(off, b - 1);
        assert(s.subrange(off, b).drop_last() =~= prev);
        assert(forall|l: int| 0 <= l < prev.len() ==> is_digit(#[trigger] prev[l]));
        lemma_dec_val_nonneg(prev);
        lemma_dec_val_prefix_monotone(s, off, a, b - 1);
    }
}

/// The decimal digits of `n`: at least one byte, every byte a digit, and
/// reading them back yields `n`.
pub proof fn lemma_dec_digits_props(n: nat)
    ensures
        dec_digits(n).len() >= 1,
        forall|l: int| 0 <= l < dec_digits(n).len() ==> is_digit(#[trigger] dec_digits(n)[l]),
        dec_val(dec_digits(n)) == n,
    decreases n,
{
    if n < 10 {
        assert(dec_digits(n) =~= seq![(n + 48) as u8]);
        assert(dec_digits(n).drop_last() =~= Seq::<u8>::empty());
        assert(dec_digits(n).last() == (n + 48) as u8);
        assert(dec_val(dec_digits(n)) == dec_val(Seq::<u8>::empty()) * 10 + ((n + 48) as u8 - 48));
        assert(dec_val(dec_digits(n)) == n);
    } else {
        lemma_dec_digits_props(n / 10);
        assert(dec_digits(n) == dec_digits(n / 10).push((n % 10 + 48) as u8));
        assert(dec_digits(n).drop_last() =~= dec_digits(n / 10));
        assert(dec_digits(n).last() == (n % 10 + 48) as u8);
        assert(dec_val(dec_digits(n)) == dec_val(dec_digits(n / 10)) * 10 + ((n % 10 + 48) as u8
            - 48));
        assert(n / 10 * 10 + n % 10 == n) by (nonlinear_arith);
        assert(dec_val(dec_digits(n)) == n);
    }
}

} // verus!
