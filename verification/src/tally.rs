//! Sums over finite maps, and the arithmetic of token amounts.
//!
//! Token amounts are `u32` and every operation on them clamps at the ends of
//! that range. The sums here are taken in `nat`, where nothing is lost; the
//! clamped amounts are stated through [`clamp`].

use vstd::prelude::*;

verus! {

/// A balance or a stake.
pub type Tokens = u32;

/// `n` cut down to the largest amount that `Tokens` can hold.
pub open spec fn clamp(n: int) -> Tokens {
    if n < 0 {
        0
    } else if n > Tokens::MAX {
        Tokens::MAX
    } else {
        n as Tokens
    }
}

/// The sum of the values of a finite map; 0 for a map that is not finite.
pub open spec fn sum_of<K>(m: Map<K, nat>) -> nat
    decreases m.dom().len(),
{
    if m.dom().finite() && m.dom().len() > 0 {
        let k = m.dom().choose();
        m[k] + sum_of(m.remove(k))
    } else {
        0
    }
}

/// The amounts of `m` as natural numbers.
pub open spec fn weights<K>(m: Map<K, Tokens>) -> Map<K, nat> {
    Map::new(|k: K| m.contains_key(k), |k: K| m[k] as nat)
}

/// The sum of all amounts held in `m`, without clamping.
pub open spec fn stake_sum<K>(m: Map<K, Tokens>) -> nat {
    sum_of(weights(m))
}

/// Any entry can be taken out of a sum first.
pub proof fn lemma_sum_of_remove<K>(m: Map<K, nat>, k: K)
    requires
        m.dom().finite(),
        m.contains_key(k),
    ensures
        sum_of(m) == m[k] + sum_of(m.remove(k)),
    decreases m.dom().len(),
{
    let c = m.dom().choose();
    if c != k {
        lemma_sum_of_remove(m.remove(c), k);
        lemma_sum_of_remove(m.remove(k), c);
        assert(m.remove(c).remove(k) =~= m.remove(k).remove(c));
    }
}

/// Writing `v` under `k` replaces what `k` contributed to the sum by `v`.
pub proof fn lemma_sum_of_insert<K>(m: Map<K, nat>, k: K, v: nat)
    requires
        m.dom().finite(),
    ensures
        sum_of(m.insert(k, v)) == sum_of(m.remove(k)) + v,
        m.contains_key(k) ==> sum_of(m.insert(k, v)) + m[k] == sum_of(m) + v,
        !m.contains_key(k) ==> sum_of(m.insert(k, v)) == sum_of(m) + v,
{
    lemma_sum_of_remove(m.insert(k, v), k);
    assert(m.insert(k, v).remove(k) =~= m.remove(k));
    if m.contains_key(k) {
        lemma_sum_of_remove(m, k);
    } else {
        assert(m.remove(k) =~= m);
    }
}

/// No amounts, no sum.
pub proof fn lemma_stake_sum_empty<K>()
    ensures
        stake_sum(Map::<K, Tokens>::empty()) == 0,
{
    assert(weights(Map::<K, Tokens>::empty()) =~= Map::<K, nat>::empty());
}

/// Writing `v` under `k` replaces what `k` contributed to the sum by `v`.
pub proof fn lemma_stake_sum_insert<K>(m: Map<K, Tokens>, k: K, v: Tokens)
    requires
        m.dom().finite(),
    ensures
        stake_sum(m.insert(k, v)) == stake_sum(m.remove(k)) + v,
        m.contains_key(k) ==> stake_sum(m.insert(k, v)) + m[k] == stake_sum(m) + v,
        !m.contains_key(k) ==> stake_sum(m.insert(k, v)) == stake_sum(m) + v,
{
    assert(weights(m).dom() =~= m.dom());
    assert(weights(m.insert(k, v)) =~= weights(m).insert(k, v as nat));
    assert(weights(m.remove(k)) =~= weights(m).remove(k));
    lemma_sum_of_insert(weights(m), k, v as nat);
}

/// Taking `k` out of `m` takes its amount out of the sum.
pub proof fn lemma_stake_sum_remove<K>(m: Map<K, Tokens>, k: K)
    requires
        m.dom().finite(),
        m.contains_key(k),
    ensures
        stake_sum(m) == m[k] + stake_sum(m.remove(k)),
{
    assert(weights(m).dom() =~= m.dom());
    assert(weights(m.remove(k)) =~= weights(m).remove(k));
    lemma_sum_of_remove(weights(m), k);
}

/// Whether no two entries of `s` stand under the same key.
pub open spec fn distinct_keys<K, V>(s: Seq<(K, V)>) -> bool {
    forall|i: int, j: int| 0 <= i < j < s.len() ==> (#[trigger] s[i]).0 != (#[trigger] s[j]).0
}

/// Whether `s` holds the entries of `m`, each one once, in whatever order.
pub open spec fn is_listing<K, V>(s: Seq<(K, V)>, m: Map<K, V>) -> bool {
    &&& distinct_keys(s)
    &&& forall|i: int|
        0 <= i < s.len() ==> m.contains_key((#[trigger] s[i]).0) && m[s[i].0] == s[i].1
    &&& forall|k: K| #[trigger]
        m.contains_key(k) ==> exists|i: int| 0 <= i < s.len() && (#[trigger] s[i]).0 == k
}

/// The map that `s` spells out. Of two entries under one key the later one counts.
pub open spec fn listed<K, V>(s: Seq<(K, V)>) -> Map<K, V>
    decreases s.len(),
{
    if s.len() == 0 {
        Map::empty()
    } else {
        listed(s.drop_last()).insert(s.last().0, s.last().1)
    }
}

/// What `listed` holds for entries under distinct keys: exactly those entries.
pub proof fn lemma_listed_distinct<K, V>(s: Seq<(K, V)>)
    requires
        distinct_keys(s),
    ensures
        listed(s).dom().finite(),
        listed(s).dom().len() == s.len(),
        is_listing(s, listed(s)),
    decreases s.len(),
{
    if s.len() > 0 {
        let front = s.drop_last();
        assert forall|i: int| 0 <= i < front.len() implies #[trigger] front[i] == s[i] by {}
        lemma_listed_distinct(front);
        let last = s.last();
        if listed(front).contains_key(last.0) {
            let i = choose|i: int| 0 <= i < front.len() && (#[trigger] front[i]).0 == last.0;
            assert(s[i].0 == s[s.len() - 1].0);
        }
        assert forall|i: int| 0 <= i < s.len() implies listed(s).contains_key((#[trigger] s[i]).0)
            && listed(s)[s[i].0] == s[i].1 by {
            if i < s.len() - 1 {
                assert(front[i] == s[i]);
                assert(s[i].0 != s[s.len() - 1].0);
            }
        }
        assert forall|k: K| #[trigger] listed(s).contains_key(k) implies exists|i: int|
            0 <= i < s.len() && (#[trigger] s[i]).0 == k by {
            if k == last.0 {
                assert(s[s.len() - 1].0 == k);
            } else {
                let i = choose|i: int| 0 <= i < front.len() && (#[trigger] front[i]).0 == k;
                assert(s[i].0 == k);
            }
        }
    }
}

/// A listing of `m` spells out `m`, and is as long as `m` has entries.
pub proof fn lemma_listing_spells<K, V>(s: Seq<(K, V)>, m: Map<K, V>)
    requires
        is_listing(s, m),
    ensures
        listed(s) == m,
        m.dom().finite(),
        m.dom().len() == s.len(),
{
    lemma_listed_distinct(s);
    assert forall|k: K| listed(s).contains_key(k) implies m.contains_key(k) && m[k] == listed(
        s,
    )[k] by {
        let i = choose|i: int| 0 <= i < s.len() && (#[trigger] s[i]).0 == k;
    }
    assert forall|k: K| m.contains_key(k) implies listed(s).contains_key(k) by {
        let i = choose|i: int| 0 <= i < s.len() && (#[trigger] s[i]).0 == k;
    }
    assert(listed(s) =~= m);
}

/// Each further entry of a listing with distinct keys adds its amount to the sum.
pub proof fn lemma_stake_sum_listed_step<K>(s: Seq<(K, Tokens)>, n: int)
    requires
        distinct_keys(s),
        0 <= n < s.len(),
    ensures
        listed(s.take(n + 1)) == listed(s.take(n)).insert(s[n].0, s[n].1),
        !listed(s.take(n)).contains_key(s[n].0),
        listed(s.take(n)).dom().finite(),
        stake_sum(listed(s.take(n + 1))) == stake_sum(listed(s.take(n))) + s[n].1,
{
    let front = s.take(n);
    assert(s.take(n + 1).drop_last() =~= front);
    assert(s.take(n + 1).last() == s[n]);
    assert forall|i: int| 0 <= i < front.len() implies #[trigger] front[i] == s[i] by {}
    lemma_listed_distinct(front);
    if listed(front).contains_key(s[n].0) {
        let i = choose|i: int| 0 <= i < front.len() && (#[trigger] front[i]).0 == s[n].0;
        assert(s[i].0 == s[n].0);
    }
    lemma_stake_sum_insert(listed(front), s[n].0, s[n].1);
}

} // verus!
