//! Lexicographic order on text (by code point, which is the order Rust's
//! `String` comparison gives) and on `(source, id)` entry keys, with the
//! sorting and de-duplication the commands apply to entry keys.
use vstd::prelude::*;
use vstd::relations::sorted_by;

use crate::replay::{key_view, EntryKey};
use crate::text::chars_of;

verus! {

broadcast use vstd::seq_lib::group_to_multiset_ensures;

/// `a` sorts strictly before `b`, character by character, a proper prefix first.
pub open spec fn seq_lt(a: Seq<char>, b: Seq<char>) -> bool
    decreases a.len(),
{
    if a.len() == 0 {
        b.len() > 0
    } else if b.len() == 0 {
        false
    } else if a[0] < b[0] {
        true
    } else if a[0] == b[0] {
        seq_lt(a.drop_first(), b.drop_first())
    } else {
        false
    }
}

/// `a` sorts no later than `b`.
pub open spec fn seq_le(a: Seq<char>, b: Seq<char>) -> bool {
    seq_lt(a, b) || a == b
}

/// Entry keys sort by source text, then by numeric id.
pub open spec fn key_le(a: (Seq<char>, i64), b: (Seq<char>, i64)) -> bool {
    seq_lt(a.0, b.0) || (a.0 == b.0 && a.1 <= b.1)
}

pub proof fn lemma_seq_lt_irreflexive(a: Seq<char>)
    ensures
        !seq_lt(a, a),
    decreases a.len(),
{
    if a.len() > 0 {
        lemma_seq_lt_irreflexive(a.drop_first());
    }
}

pub proof fn lemma_seq_lt_transitive(a: Seq<char>, b: Seq<char>, c: Seq<char>)
    requires
        seq_lt(a, b),
        seq_lt(b, c),
    ensures
        seq_lt(a, c),
    decreases a.len(),
{
    if a.len() > 0 && b.len() > 0 && c.len() > 0 {
        if a[0] == b[0] && b[0] == c[0] {
            lemma_seq_lt_transitive(a.drop_first(), b.drop_first(), c.drop_first());
        }
    }
}

pub proof fn lemma_seq_lt_total(a: Seq<char>, b: Seq<char>)
    ensures
        seq_lt(a, b) || seq_lt(b, a) || a == b,
    decreases a.len(),
{
    if a.len() > 0 && b.len() > 0 {
        if a[0] == b[0] {
            lemma_seq_lt_total(a.drop_first(), b.drop_first());
            if a.drop_first() == b.drop_first() {
                assert(a =~= seq![a[0]] + a.drop_first());
                assert(b =~= seq![b[0]] + b.drop_first());
            }
        }
    } else if a.len() == 0 && b.len() == 0 {
        assert(a =~= b);
    }
}

pub proof fn lemma_seq_lt_asymmetric(a: Seq<char>, b: Seq<char>)
    requires
        seq_lt(a, b),
    ensures
        !seq_lt(b, a),
        a != b,
{
    if seq_lt(b, a) {
        lemma_seq_lt_transitive(a, b, a);
        lemma_seq_lt_irreflexive(a);
    }
    if a == b {
        lemma_seq_lt_irreflexive(a);
    }
}

pub proof fn lemma_key_le_transitive(a: (Seq<char>, i64), b: (Seq<char>, i64), c: (Seq<char>, i64))
    requires
        key_le(a, b),
        key_le(b, c),
    ensures
        key_le(a, c),
{
    if seq_lt(a.0, b.0) && seq_lt(b.0, c.0) {
        lemma_seq_lt_transitive(a.0, b.0, c.0);
    }
}

pub proof fn lemma_key_le_total(a: (Seq<char>, i64), b: (Seq<char>, i64))
    ensures
        key_le(a, b) || key_le(b, a),
{
    lemma_seq_lt_total(a.0, b.0);
}

pub proof fn lemma_key_le_antisymmetric(a: (Seq<char>, i64), b: (Seq<char>, i64))
    requires
        key_le(a, b),
        key_le(b, a),
    ensures
        a == b,
{
    if seq_lt(a.0, b.0) {
        lemma_seq_lt_asymmetric(a.0, b.0);
    }
    if seq_lt(b.0, a.0) {
        lemma_seq_lt_asymmetric(b.0, a.0);
    }
}

/// `a` sorts strictly before `b`.
pub fn chars_lt(a: &Vec<char>, b: &Vec<char>) -> (r: bool)
    ensures
        r == seq_lt(a@, b@),
{
    let mut i: usize = 0;
    assert(a@.skip(0) =~= a@ && b@.skip(0) =~= b@);
    while i < a.len() && i < b.len()
        invariant
            i <= a@.len(),
            i <= b@.len(),
            forall|k: int| 0 <= k < i ==> a@[k] == b@[k],
            seq_lt(a@, b@) == seq_lt(a@.skip(i as int), b@.skip(i as int)),
        decreases a@.len() - i,
    {
        proof {
            let sa = a@.skip(i as int);
            let sb = b@.skip(i as int);
            assert(sa[0] == a@[i as int]);
            assert(sb[0] == b@[i as int]);
            assert(sa.drop_first() =~= a@.skip(i + 1));
            assert(sb.drop_first() =~= b@.skip(i + 1));
        }
        if a[i] < b[i] {
            return true;
        }
        if a[i] != b[i] {
            return false;
        }
        i = i + 1;
    }
    proof {
        let sa = a@.skip(i as int);
        let sb = b@.skip(i as int);
        assert(sa.len() == a@.len() - i);
        assert(sb.len() == b@.len() - i);
    }
    i == a.len() && i < b.len()
}

/// `a` sorts no later than `b` (source text, then id).
pub fn entry_key_le(a: &EntryKey, b: &EntryKey) -> (r: bool)
    ensures
        r == key_le(key_view(*a), key_view(*b)),
{
    let ac = chars_of(a.0.as_str());
    let bc = chars_of(b.0.as_str());
    if chars_lt(&ac, &bc) {
        return true;
    }
    a.0 == b.0 && a.1 <= b.1
}

/// The values of a list of entry keys.
pub open spec fn keys_view(keys: Seq<EntryKey>) -> Seq<(Seq<char>, i64)> {
    keys.map_values(|k: EntryKey| key_view(k))
}

/// The order `key_le` as a relation value.
pub open spec fn key_order() -> spec_fn((Seq<char>, i64), (Seq<char>, i64)) -> bool {
    |a: (Seq<char>, i64), b: (Seq<char>, i64)| key_le(a, b)
}

/// Entry keys sorted by source then id: the same keys, in ascending order.
pub fn sort_keys(keys: Vec<EntryKey>) -> (r: Vec<EntryKey>)
    ensures
        sorted_by(keys_view(r@), key_order()),
        keys_view(r@).to_multiset() == keys_view(keys@).to_multiset(),
{
    let mut out: Vec<EntryKey> = Vec::new();
    let mut i: usize = 0;
    assert(keys_view(out@) =~= Seq::<(Seq<char>, i64)>::empty());
    assert(keys_view(keys@).subrange(0, 0) =~= Seq::<(Seq<char>, i64)>::empty());
    while i < keys.len()
        invariant
            i <= keys@.len(),
            sorted_by(keys_view(out@), key_order()),
            keys_view(out@).to_multiset() == keys_view(keys@).subrange(0, i as int).to_multiset(),
        decreases keys@.len() - i,
    {
        let k: EntryKey = (keys[i].0.clone(), keys[i].1);
        let mut j: usize = 0;
        while j < out.len()
            invariant
                j <= out@.len(),
                forall|m: int| 0 <= m < j ==> key_le(key_view(#[trigger] out@[m]), key_view(k)),
            ensures
                j <= out@.len(),
                forall|m: int| 0 <= m < j ==> key_le(key_view(#[trigger] out@[m]), key_view(k)),
                j < out@.len() ==> !key_le(key_view(out@[j as int]), key_view(k)),
            decreases out@.len() - j,
        {
            if !entry_key_le(&out[j], &k) {
                break;
            }
            j = j + 1;
        }
        let ghost before = out@;
        out.insert(j, k);
        proof {
            let bv = keys_view(before);
            let nv = keys_view(out@);
            let x = key_view(k);
            assert(nv =~= bv.insert(j as int, x));
            assert(sorted_by(nv, key_order())) by {
                assert forall|a: int, b: int| 0 <= a < b < nv.len() implies #[trigger] key_order()(
                    nv[a],
                    nv[b],
                ) by {
                    if j < bv.len() {
                        lemma_key_le_total(bv[j as int], x);
                        assert(bv[j as int] == key_view(before[j as int]));
                    }
                    if a < bv.len() && b - 1 < bv.len() && a < b - 1 {
                        assert(key_order()(bv[a], bv[b - 1]));
                    }
                    if j < b - 1 && b - 1 < bv.len() {
                        assert(key_order()(bv[j as int], bv[b - 1]));
                    }
                    if a < j && b < j {
                        assert(nv[a] == bv[a] && nv[b] == bv[b]);
                    } else if a < j && b == j {
                        assert(nv[a] == bv[a]);
                    } else if a < j && b > j {
                        assert(nv[a] == bv[a] && nv[b] == bv[b - 1]);
                    } else if a == j {
                        assert(nv[b] == bv[b - 1]);
                        if b - 1 > j {
                            lemma_key_le_transitive(x, bv[j as int], bv[b - 1]);
                        }
                    } else {
                        assert(nv[a] == bv[a - 1] && nv[b] == bv[b - 1]);
                    }
                }
            }
            vstd::seq_lib::to_multiset_insert(bv, j as int, x);
            let ghost kv = keys_view(keys@);
            assert(kv.subrange(0, i + 1) =~= kv.subrange(0, i as int).push(x));
            vstd::seq_lib::to_multiset_build(kv.subrange(0, i as int), x);
        }
        i = i + 1;
    }
    assert(keys_view(keys@).subrange(0, keys@.len() as int) =~= keys_view(keys@));
    out
}

/// A sorted key list with adjacent repeats dropped (each key kept once).
pub fn dedup_sorted(keys: Vec<EntryKey>) -> (r: Vec<EntryKey>)
    requires
        sorted_by(keys_view(keys@), key_order()),
    ensures
        sorted_by(keys_view(r@), key_order()),
        keys_view(r@).to_set() == keys_view(keys@).to_set(),
        keys_view(r@).no_duplicates(),
{
    let mut out: Vec<EntryKey> = Vec::new();
    let mut i: usize = 0;
    while i < keys.len()
        invariant
            i <= keys@.len(),
            sorted_by(keys_view(keys@), key_order()),
            sorted_by(keys_view(out@), key_order()),
            keys_view(out@).to_set() == keys_view(keys@).subrange(0, i as int).to_set(),
            keys_view(out@).no_duplicates(),
            out@.len() > 0 ==> i > 0 && key_view(out@.last()) == key_view(keys@[i - 1]),
            out@.len() == 0 ==> i == 0,
        decreases keys@.len() - i,
    {
        let ghost kv = keys_view(keys@);
        let same = out.len() > 0 && out[out.len() - 1].1 == keys[i].1 && out[out.len() - 1].0
            == keys[i].0;
        let ghost before = out@;
        proof {
            assert(kv.subrange(0, i + 1) =~= kv.subrange(0, i as int).push(kv[i as int]));
        }
        if !same {
            let k: EntryKey = (keys[i].0.clone(), keys[i].1);
            out.push(k);
            proof {
                let bv = keys_view(before);
                let nv = keys_view(out@);
                assert(nv =~= bv.push(key_view(k)));
                if before.len() > 0 {
                    assert(key_order()(kv[i - 1], kv[i as int]));
                }
                assert(sorted_by(nv, key_order())) by {
                    assert forall|a: int, b: int| 0 <= a < b < nv.len() implies #[trigger] key_order()(
                        nv[a],
                        nv[b],
                    ) by {
                        if a < bv.len() - 1 {
                            assert(key_order()(bv[a], bv[bv.len() - 1]));
                        }
                        if b < bv.len() {
                            assert(nv[a] == bv[a] && nv[b] == bv[b]);
                        } else {
                            assert(nv[a] == bv[a]);
                            if a < bv.len() - 1 {
                                lemma_key_le_transitive(bv[a], bv[bv.len() - 1], nv[b]);
                            }
                        }
                    }
                }
                assert(nv.no_duplicates()) by {
                    assert forall|a: int, b: int| 0 <= a < nv.len() && 0 <= b < nv.len() && a
                        != b implies nv[a] != nv[b] by {
                        if a < bv.len() && b < bv.len() {
                            assert(nv[a] == bv[a] && nv[b] == bv[b]);
                        } else if a < bv.len() {
                            assert(nv[a] == bv[a]);
                            if a < bv.len() - 1 {
                                assert(key_order()(bv[a], bv[bv.len() - 1]));
                            }
                            assert(key_le(nv[a], bv.last()));
                            if nv[a] == nv[b] {
                                lemma_key_le_antisymmetric(bv.last(), nv[b]);
                            }
                        } else {
                            assert(nv[b] == bv[b]);
                            if b < bv.len() - 1 {
                                assert(key_order()(bv[b], bv[bv.len() - 1]));
                            }
                            assert(key_le(nv[b], bv.last()));
                            if nv[a] == nv[b] {
                                lemma_key_le_antisymmetric(bv.last(), nv[a]);
                            }
                        }
                    }
                }
                bv.lemma_push_to_set_commute(key_view(k));
                kv.subrange(0, i as int).lemma_push_to_set_commute(kv[i as int]);
            }
        } else {
            proof {
                kv.subrange(0, i as int).lemma_push_to_set_commute(kv[i as int]);
                assert(keys_view(out@).last() == kv[i as int]);
                assert(keys_view(out@).to_set().contains(kv[i as int]));
                assert(keys_view(out@).to_set().insert(kv[i as int]) =~= keys_view(out@).to_set());
            }
        }
        i = i + 1;
    }
    assert(keys_view(keys@).subrange(0, keys@.len() as int) =~= keys_view(keys@));
    out
}

} // verus!
