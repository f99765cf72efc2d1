//! A map from users to token amounts, kept in a hash map.

use crate::identity::User;
use crate::tally::{
    clamp, distinct_keys, is_listing, lemma_listing_spells, lemma_stake_sum_empty,
    lemma_stake_sum_listed_step, listed, stake_sum, Tokens,
};
use std::collections::HashMap;
use vstd::prelude::*;
use vstd::std_specs::iter::IteratorSpec;

verus! {

/// Token amounts by user: the balances of a registry, or the stakes on one
/// side of a proposal.
///
/// Its view is the `Map<User, Tokens>` that it stands for.
#[derive(Debug, PartialEq, Eq)]
pub struct TokenMap {
    /// The amounts, filed under each user's code.
    amounts: HashMap<u8, Tokens>,
}

impl View for TokenMap {
    type V = Map<User, Tokens>;

    closed spec fn view(&self) -> Map<User, Tokens> {
        Map::new(
            |u: User| self.amounts@.contains_key(u.code()),
            |u: User| self.amounts@[u.code()],
        )
    }
}

impl TokenMap {
    /// Every key of the hash map is the code of a user.
    #[verifier::type_invariant]
    closed spec fn keys_are_codes(self) -> bool {
        forall|c: u8| self.amounts@.contains_key(c) ==> User::is_code(c)
    }

    /// A map without entries.
    pub fn new() -> (m: TokenMap)
        ensures
            m@ == Map::<User, Tokens>::empty(),
    {
        let m = TokenMap { amounts: HashMap::new() };
        assert(m@ =~= Map::<User, Tokens>::empty());
        m
    }

    /// The map that `entries` spell out. Of two entries for one user the later
    /// one counts.
    pub fn from<const N: usize>(entries: [(User, Tokens); N]) -> (m: TokenMap)
        ensures
            m@ == listed(entries@),
    {
        let mut m = TokenMap::new();
        for i in 0..N
            invariant
                m@ == listed(entries@.take(i as int)),
        {
            assert(entries@.take(i + 1).drop_last() =~= entries@.take(i as int));
            m.insert(entries[i].0, entries[i].1);
        }
        assert(entries@.take(N as int) =~= entries@);
        m
    }

    /// Whether `user` has an entry.
    pub fn contains_key(&self, user: &User) -> (found: bool)
        ensures
            found == self@.contains_key(*user),
    {
        self.amounts.contains_key(&user.encode())
    }

    /// The amount entered for `user`, if there is one.
    pub fn get(&self, user: &User) -> (amount: Option<&Tokens>)
        ensures
            amount == (if self@.contains_key(*user) {
                Some(&self@[*user])
            } else {
                None
            }),
    {
        self.amounts.get(&user.encode())
    }

    /// Enters `amount` for `user` and returns what was entered before.
    pub fn insert(&mut self, user: User, amount: Tokens) -> (before: Option<Tokens>)
        ensures
            final(self)@ == old(self)@.insert(user, amount),
            before == (if old(self)@.contains_key(user) {
                Some(old(self)@[user])
            } else {
                None
            }),
    {
        proof {
            use_type_invariant(&*self);
            User::lemma_code_bijective();
        }
        let mut amounts: HashMap<u8, Tokens> = HashMap::new();
        std::mem::swap(&mut self.amounts, &mut amounts);
        let before = amounts.insert(user.encode(), amount);
        std::mem::swap(&mut self.amounts, &mut amounts);
        assert(self@ =~= old(self)@.insert(user, amount));
        before
    }

    /// The number of entries.
    pub fn len(&self) -> (n: usize)
        ensures
            n == self@.len(),
            self@.dom().finite(),
    {
        proof {
            use_type_invariant(self);
            self.lemma_finite();
            User::lemma_code_bijective();
            let code = |u: User| u.code();
            assert(self@.dom().map(code) =~= self.amounts@.dom()) by {
                assert forall|c: u8| self.amounts@.dom().contains(c) implies self@.dom().map(
                    code,
                ).contains(c) by {
                    assert(self@.dom().contains(User::of_code(c)));
                    assert(code(User::of_code(c)) == c);
                }
            }
            assert(vstd::relations::injective_on(code, self@.dom()));
            vstd::set_lib::lemma_map_size(self@.dom(), self.amounts@.dom(), code);
        }
        self.amounts.len()
    }

    /// The entries, each one once, in the order in which the hash map hands
    /// them out.
    pub fn entries(&self) -> (list: Vec<(User, Tokens)>)
        ensures
            is_listing(list@, self@),
    {
        proof {
            use_type_invariant(self);
            User::lemma_code_bijective();
        }
        let mut list: Vec<(User, Tokens)> = Vec::new();
        for (code, amount) in it: self.amounts.iter()
            invariant
                self.keys_are_codes(),
                it.seq().no_duplicates(),
                it.seq() == self.amounts.iter().remaining(),
                list@.len() == it.index(),
                forall|i: int|
                    0 <= i < list@.len() ==> #[trigger] list@[i] == (
                        User::of_code(*it.seq()[i].0),
                        *it.seq()[i].1,
                    ),
        {
            list.push((User::decode(*code), *amount));
        }
        proof {
            let pairs = self.amounts.iter().remaining();
            assert forall|i: int, j: int| 0 <= i < j < list@.len() implies (#[trigger] list@[i]).0
                != (#[trigger] list@[j]).0 by {
                assert(pairs[i] != pairs[j]);
            }
            assert forall|u: User| #[trigger] self@.contains_key(u) implies exists|i: int|
                0 <= i < list@.len() && (#[trigger] list@[i]).0 == u by {
                let c = u.code();
                assert(self.amounts@.contains_key(c));
                assert(pairs.contains((&c, &self.amounts@[c])));
                let i = choose|i: int| 0 <= i < pairs.len() && pairs[i] == (&c, &self.amounts@[c]);
                assert(list@[i].0 == u);
            }
        }
        list
    }

    /// The sum of all amounts, clamped to the largest amount there is.
    pub fn total(&self) -> (sum: Tokens)
        ensures
            sum == clamp(stake_sum(self@) as int),
    {
        let list = self.entries();
        let mut sum: Tokens = 0;
        proof {
            lemma_stake_sum_empty::<User>();
        }
        for i in 0..list.len()
            invariant
                distinct_keys(list@),
                sum == clamp(stake_sum(listed(list@.take(i as int))) as int),
        {
            proof {
                lemma_stake_sum_listed_step(list@, i as int);
            }
            sum = sum.saturating_add(list[i].1);
        }
        proof {
            assert(list@.take(list@.len() as int) =~= list@);
            lemma_listing_spells(list@, self@);
        }
        sum
    }

    /// The view has finitely many entries.
    pub proof fn lemma_finite(self)
        ensures
            self@.dom().finite(),
    {
        User::lemma_code_bijective();
        let of_code = |c: u8| User::of_code(c);
        self.amounts@.dom().lemma_map_finite(of_code);
        assert(self@.dom().subset_of(self.amounts@.dom().map(of_code))) by {
            assert forall|u: User| self@.dom().contains(u) implies self.amounts@.dom().map(
                of_code,
            ).contains(u) by {
                assert(self.amounts@.dom().contains(u.code()));
                assert(of_code(u.code()) == u);
            }
        }
        vstd::set_lib::lemma_set_subset_finite(self.amounts@.dom().map(of_code), self@.dom());
    }
}

impl Clone for TokenMap {
    fn clone(&self) -> (copy: TokenMap)
        ensures
            copy@ == self@,
    {
        proof {
            use_type_invariant(self);
        }
        TokenMap { amounts: self.amounts.clone() }
    }
}

} // verus!
