//! Association lists with unique `u64` keys.
//!
//! Every mapping of the core (share balances, accrued revenue, rent
//! prepayment, sell offers, sale prices) is held as a `Vec` of key/value
//! pairs in which each key occurs at most once.  Entries are created lazily
//! on first write and never removed, which keeps iteration deterministic.
//! The spec side models such a list through `lookup`, and the lemmas here
//! relate updates of the list to its lookups and to the sum of its values.

use vstd::prelude::*;

verus! {

/// Each key occurs at most once in the list.
pub open spec fn keys_unique<V>(m: Seq<(u64, V)>) -> bool {
    forall|i: int, j: int|
        0 <= i < j < m.len() ==> (#[trigger] m[i]).0 != (#[trigger] m[j]).0
}

/// The value stored under `k`, if any.
pub open spec fn lookup<V>(m: Seq<(u64, V)>, k: u64) -> Option<V>
    decreases m.len(),
{
    if m.len() == 0 {
        None
    } else if m[0].0 == k {
        Some(m[0].1)
    } else {
        lookup(m.drop_first(), k)
    }
}

/// Whether some entry carries the key `k`.
pub open spec fn has_key<V>(m: Seq<(u64, V)>, k: u64) -> bool {
    lookup(m, k) is Some
}

/// The stored `u64` value under `k`, defaulting to zero.
pub open spec fn val64(m: Seq<(u64, u64)>, k: u64) -> int {
    match lookup(m, k) {
        Some(v) => v as int,
        None => 0,
    }
}

/// The stored `u128` value under `k`, defaulting to zero.
pub open spec fn val128(m: Seq<(u64, u128)>, k: u64) -> int {
    match lookup(m, k) {
        Some(v) => v as int,
        None => 0,
    }
}

/// Sum of all stored `u64` values.
pub open spec fn sum64(m: Seq<(u64, u64)>) -> int
    decreases m.len(),
{
    if m.len() == 0 {
        0
    } else {
        m[0].1 + sum64(m.drop_first())
    }
}

/// Sum of all stored `u128` values.
pub open spec fn sum128(m: Seq<(u64, u128)>) -> int
    decreases m.len(),
{
    if m.len() == 0 {
        0
    } else {
        m[0].1 + sum128(m.drop_first())
    }
}

/// The list with the first entry for `k`, if any, replaced by `(k, v)`.
/// Keys and all other entries stay in place.
pub open spec fn set_val64(m: Seq<(u64, u64)>, k: u64, v: u64) -> Seq<(u64, u64)>
    decreases m.len(),
{
    if m.len() == 0 {
        m
    } else if m[0].0 == k {
        seq![(k, v)] + m.drop_first()
    } else {
        seq![m[0]] + set_val64(m.drop_first(), k, v)
    }
}

/// A key found at index `i`, with no earlier entry carrying it, is what
/// `lookup` returns.
pub proof fn lemma_lookup_found<V>(m: Seq<(u64, V)>, k: u64, i: int)
    requires
        0 <= i < m.len(),
        m[i].0 == k,
        forall|j: int| 0 <= j < i ==> (#[trigger] m[j]).0 != k,
    ensures
        lookup(m, k) == Some(m[i].1),
    decreases i,
{
    let rest = m.drop_first();
    assert(forall|j: int| 0 <= j < rest.len() ==> (#[trigger] rest[j]) == m[j + 1]);
    if i > 0 {
        lemma_lookup_found(rest, k, i - 1);
    }
}

/// `lookup` misses exactly when no entry carries the key.
pub proof fn lemma_absent<V>(m: Seq<(u64, V)>, k: u64)
    ensures
        lookup(m, k) is None <==> forall|j: int| 0 <= j < m.len() ==> (#[trigger] m[j]).0 != k,
    decreases m.len(),
{
    if m.len() > 0 {
        let rest = m.drop_first();
        assert(forall|j: int| 0 <= j < rest.len() ==> (#[trigger] rest[j]) == m[j + 1]);
        assert(forall|j: int| 1 <= j < m.len() ==> (#[trigger] m[j]) == rest[j - 1]);
        lemma_absent(rest, k);
        if m[0].0 == k {
            assert(!(lookup(m, k) is None));
        }
    }
}

/// Replacing the entry at index `i` by one with the same key changes only
/// that key's lookup.
pub proof fn lemma_lookup_update<V>(m: Seq<(u64, V)>, i: int, v: V)
    requires
        0 <= i < m.len(),
        forall|j: int| 0 <= j < i ==> (#[trigger] m[j]).0 != m[i].0,
    ensures
        lookup(m.update(i, (m[i].0, v)), m[i].0) == Some(v),
        forall|k2: u64|
            k2 != m[i].0 ==> #[trigger] lookup(m.update(i, (m[i].0, v)), k2) == lookup(m, k2),
    decreases i,
{
    let m2 = m.update(i, (m[i].0, v));
    let rest = m.drop_first();
    assert(forall|j: int| 0 <= j < rest.len() ==> (#[trigger] rest[j]) == m[j + 1]);
    if i == 0 {
        assert(m2.drop_first() =~= rest);
        assert(m2[0] == (m[0].0, v));
    } else {
        lemma_lookup_update(rest, i - 1, v);
        assert(rest[i - 1] == m[i]);
        assert(m2.drop_first() =~= rest.update(i - 1, (rest[i - 1].0, v)));
        assert(m2[0] == m[0]);
        assert forall|k2: u64| k2 != m[i].0 implies #[trigger] lookup(m2, k2) == lookup(m, k2) by {
            if k2 == m[0].0 {
            } else {
                assert(lookup(m2, k2) == lookup(m2.drop_first(), k2));
                assert(lookup(m, k2) == lookup(rest, k2));
            }
        }
    }
}

/// Appending an entry leaves every present key's lookup unchanged and
/// serves an absent key only through the new entry.
pub proof fn lemma_lookup_push<V>(m: Seq<(u64, V)>, p: (u64, V), k2: u64)
    ensures
        lookup(m.push(p), k2) == (if has_key(m, k2) {
            lookup(m, k2)
        } else if k2 == p.0 {
            Some(p.1)
        } else {
            None::<V>
        }),
    decreases m.len(),
{
    if m.len() == 0 {
        assert(m.push(p)[0] == p);
        assert(m.push(p).drop_first() =~= Seq::<(u64, V)>::empty());
        assert(lookup(Seq::<(u64, V)>::empty(), k2) is None);
    } else {
        assert(m.push(p)[0] == m[0]);
        assert(m.push(p).drop_first() =~= m.drop_first().push(p));
        lemma_lookup_push(m.drop_first(), p, k2);
    }
}

/// How replacing one entry moves the sum of `u64` values.
pub proof fn lemma_sum64_update(m: Seq<(u64, u64)>, i: int, p: (u64, u64))
    requires
        0 <= i < m.len(),
    ensures
        sum64(m.update(i, p)) == sum64(m) - m[i].1 + p.1,
    decreases i,
{
    let m2 = m.update(i, p);
    if i == 0 {
        assert(m2.drop_first() =~= m.drop_first());
    } else {
        lemma_sum64_update(m.drop_first(), i - 1, p);
        assert(m2.drop_first() =~= m.drop_first().update(i - 1, p));
    }
}

/// How replacing one entry moves the sum of `u128` values.
pub proof fn lemma_sum128_update(m: Seq<(u64, u128)>, i: int, p: (u64, u128))
    requires
        0 <= i < m.len(),
    ensures
        sum128(m.update(i, p)) == sum128(m) - m[i].1 + p.1,
    decreases i,
{
    let m2 = m.update(i, p);
    if i == 0 {
        assert(m2.drop_first() =~= m.drop_first());
    } else {
        lemma_sum128_update(m.drop_first(), i - 1, p);
        assert(m2.drop_first() =~= m.drop_first().update(i - 1, p));
    }
}

/// Appending an entry adds its value to the sum.
pub proof fn lemma_sum64_push(m: Seq<(u64, u64)>, p: (u64, u64))
    ensures
        sum64(m.push(p)) == sum64(m) + p.1,
    decreases m.len(),
{
    if m.len() == 0 {
        assert(m.push(p)[0] == p);
        assert(m.push(p).drop_first() =~= Seq::<(u64, u64)>::empty());
        assert(sum64(Seq::<(u64, u64)>::empty()) == 0);
    } else {
        assert(m.push(p)[0] == m[0]);
        assert(m.push(p).drop_first() =~= m.drop_first().push(p));
        lemma_sum64_push(m.drop_first(), p);
    }
}

/// Appending an entry adds its value to the sum.
pub proof fn lemma_sum128_push(m: Seq<(u64, u128)>, p: (u64, u128))
    ensures
        sum128(m.push(p)) == sum128(m) + p.1,
    decreases m.len(),
{
    if m.len() == 0 {
        assert(m.push(p)[0] == p);
        assert(m.push(p).drop_first() =~= Seq::<(u64, u128)>::empty());
        assert(sum128(Seq::<(u64, u128)>::empty()) == 0);
    } else {
        assert(m.push(p)[0] == m[0]);
        assert(m.push(p).drop_first() =~= m.drop_first().push(p));
        lemma_sum128_push(m.drop_first(), p);
    }
}

/// The sum of unsigned values is never negative.
pub proof fn lemma_sum64_nonneg(m: Seq<(u64, u64)>)
    ensures
        sum64(m) >= 0,
    decreases m.len(),
{
    if m.len() > 0 {
        lemma_sum64_nonneg(m.drop_first());
    }
}

/// The sum of unsigned values is never negative.
pub proof fn lemma_sum128_nonneg(m: Seq<(u64, u128)>)
    ensures
        sum128(m) >= 0,
    decreases m.len(),
{
    if m.len() > 0 {
        lemma_sum128_nonneg(m.drop_first());
    }
}

/// No single stored value exceeds the sum of all of them.
pub proof fn lemma_val64_le_sum(m: Seq<(u64, u64)>, k: u64)
    ensures
        0 <= val64(m, k) <= sum64(m),
    decreases m.len(),
{
    if m.len() > 0 {
        lemma_val64_le_sum(m.drop_first(), k);
        lemma_sum64_nonneg(m.drop_first());
    }
}

/// No single stored value exceeds the sum of all of them.
pub proof fn lemma_val128_le_sum(m: Seq<(u64, u128)>, k: u64)
    ensures
        0 <= val128(m, k) <= sum128(m),
    decreases m.len(),
{
    if m.len() > 0 {
        lemma_val128_le_sum(m.drop_first(), k);
        lemma_sum128_nonneg(m.drop_first());
    }
}

/// What `set_val64` does: keys stay in place, only the first entry for `k`
/// changes, lookups of other keys are untouched, and the sum moves by the
/// difference at `k`.
pub proof fn lemma_set_val64(m: Seq<(u64, u64)>, k: u64, v: u64)
    ensures
        set_val64(m, k, v).len() == m.len(),
        forall|i: int|
            0 <= i < m.len() ==> (#[trigger] set_val64(m, k, v)[i]).0 == m[i].0,
        lookup(set_val64(m, k, v), k) == (if has_key(m, k) {
            Some(v)
        } else {
            None::<u64>
        }),
        forall|k2: u64|
            k2 != k ==> #[trigger] lookup(set_val64(m, k, v), k2) == lookup(m, k2),
        has_key(m, k) ==> sum64(set_val64(m, k, v)) == sum64(m) - val64(m, k) + v,
        !has_key(m, k) ==> set_val64(m, k, v) == m,
        keys_unique(m) ==> keys_unique(set_val64(m, k, v)),
    decreases m.len(),
{
    if m.len() > 0 {
        let r = set_val64(m, k, v);
        let rest = m.drop_first();
        assert(forall|j: int| 0 <= j < rest.len() ==> (#[trigger] rest[j]) == m[j + 1]);
        if m[0].0 == k {
            assert(r[0] == (k, v));
            assert(r.drop_first() =~= rest);
            assert forall|i: int| 0 <= i < m.len() implies (#[trigger] r[i]).0 == m[i].0 by {
                if i > 0 {
                    assert(r[i] == rest[i - 1]);
                }
            }
            assert forall|k2: u64| k2 != k implies #[trigger] lookup(r, k2) == lookup(m, k2) by {
                assert(lookup(r, k2) == lookup(rest, k2));
                assert(lookup(m, k2) == lookup(rest, k2));
            }
        } else {
            lemma_set_val64(rest, k, v);
            let rr = set_val64(rest, k, v);
            assert(r[0] == m[0]);
            assert(r.drop_first() =~= rr);
            assert forall|i: int| 0 <= i < m.len() implies (#[trigger] r[i]).0 == m[i].0 by {
                if i > 0 {
                    assert(r[i] == rr[i - 1]);
                    assert(rr[i - 1].0 == rest[i - 1].0);
                }
            }
            assert forall|k2: u64| k2 != k implies #[trigger] lookup(r, k2) == lookup(m, k2) by {
                if k2 != m[0].0 {
                    assert(lookup(r, k2) == lookup(rr, k2));
                    assert(lookup(m, k2) == lookup(rest, k2));
                }
            }
            if !has_key(rest, k) {
                assert(r =~= m);
            }
        }
    }
}

/// Look a key up in the list.
pub fn get<V: Copy>(m: &Vec<(u64, V)>, k: u64) -> (r: Option<V>)
    ensures
        r == lookup(m@, k),
{
    let mut i: usize = 0;
    while i < m.len()
        invariant
            i <= m@.len(),
            forall|j: int| 0 <= j < i ==> (#[trigger] m@[j]).0 != k,
        decreases m@.len() - i,
    {
        if m[i].0 == k {
            proof {
                lemma_lookup_found(m@, k, i as int);
            }
            return Some(m[i].1);
        }
        i += 1;
    }
    proof {
        lemma_absent(m@, k);
    }
    None
}

/// Store `v` under `k`, overwriting an existing entry or appending a new
/// one.  Returns the index at which the pair now sits, so that callers can
/// track the sum of values through `lemma_sum64_update` and friends.
pub fn put<V: Copy>(m: &mut Vec<(u64, V)>, k: u64, v: V) -> (i: usize)
    requires
        keys_unique(old(m)@),
    ensures
        keys_unique(final(m)@),
        lookup(final(m)@, k) == Some(v),
        forall|k2: u64| k2 != k ==> #[trigger] lookup(final(m)@, k2) == lookup(old(m)@, k2),
        has_key(old(m)@, k) ==> i < old(m)@.len() && old(m)@[i as int].0 == k && final(m)@
            == old(m)@.update(i as int, (k, v)),
        !has_key(old(m)@, k) ==> i == old(m)@.len() && final(m)@ == old(m)@.push((k, v)),
{
    let ghost m0 = m@;
    let mut i: usize = 0;
    while i < m.len()
        invariant
            m0 == old(m)@,
            keys_unique(m0),
            m@ == m0,
            i <= m@.len(),
            forall|j: int| 0 <= j < i ==> (#[trigger] m@[j]).0 != k,
        decreases m@.len() - i,
    {
        if m[i].0 == k {
            m[i] = (k, v);
            proof {
                lemma_lookup_found(m0, k, i as int);
                lemma_lookup_update(m0, i as int, v);
                assert((k, v) == (m0[i as int].0, v));
                assert(m@ == m0.update(i as int, (m0[i as int].0, v)));
                assert(lookup(m@, k) == Some(v));
                assert forall|k2: u64| k2 != k implies #[trigger] lookup(m@, k2) == lookup(
                    m0,
                    k2,
                ) by {
                    assert(lookup(m0.update(i as int, (m0[i as int].0, v)), k2) == lookup(m0, k2));
                }
                assert(forall|a: int| 0 <= a < m@.len() ==> (#[trigger] m@[a]).0 == m0[a].0);
            }
            return i;
        }
        i += 1;
    }
    proof {
        lemma_absent(m0, k);
        assert forall|k2: u64| k2 != k implies #[trigger] lookup(m0.push((k, v)), k2) == lookup(
            m0,
            k2,
        ) by {
            lemma_lookup_push(m0, (k, v), k2);
        }
        lemma_lookup_push(m0, (k, v), k);
    }
    m.push((k, v));
    i
}

} // verus!
