//! The votes on one proposal, and the proposals that are pending.

use crate::identity::{Proposal, User};
use crate::tally::{listed, stake_sum, Tokens};
use crate::token_map::TokenMap;
use std::collections::HashMap;
use vstd::prelude::*;

verus! {

/// The stakes on one side of a proposal.
pub type Votes = TokenMap;

/// What a [`ProposalState`] stands for: the stakes for and against.
#[verifier::ext_equal]
pub struct ProposalView {
    pub votes_for: Map<User, Tokens>,
    pub votes_against: Map<User, Tokens>,
}

impl ProposalView {
    /// Whether `user` has a vote on either side.
    pub open spec fn has_voted(self, user: User) -> bool {
        self.votes_for.contains_key(user) || self.votes_against.contains_key(user)
    }

    /// Whether nobody has a vote on both sides.
    pub open spec fn exclusive(self) -> bool {
        forall|u: User| !(self.votes_for.contains_key(u) && self.votes_against.contains_key(u))
    }

    /// All tokens staked on the proposal, both sides together.
    pub open spec fn staked(self) -> nat {
        stake_sum(self.votes_for) + stake_sum(self.votes_against)
    }
}

/// The votes on a pending proposal.
#[derive(Debug, PartialEq)]
pub struct ProposalState {
    pub votes_for: Votes,
    pub votes_against: Votes,
}

impl View for ProposalState {
    type V = ProposalView;

    open spec fn view(&self) -> ProposalView {
        ProposalView { votes_for: self.votes_for@, votes_against: self.votes_against@ }
    }
}

impl Clone for ProposalState {
    fn clone(&self) -> (copy: ProposalState)
        ensures
            copy@ == self@,
    {
        ProposalState {
            votes_for: self.votes_for.clone(),
            votes_against: self.votes_against.clone(),
        }
    }
}

/// The entries of `s` with each state replaced by its view.
pub open spec fn entry_views(s: Seq<(Proposal, ProposalState)>) -> Seq<(Proposal, ProposalView)> {
    s.map_values(|e: (Proposal, ProposalState)| (e.0, e.1@))
}

/// The pending proposals, each with its votes.
///
/// Its view is the `Map<Proposal, ProposalView>` that it stands for.
#[derive(Debug, PartialEq)]
pub struct ProposalMap {
    /// The states, filed under each proposal's code.
    pending: HashMap<u8, ProposalState>,
}

impl View for ProposalMap {
    type V = Map<Proposal, ProposalView>;

    closed spec fn view(&self) -> Map<Proposal, ProposalView> {
        Map::new(
            |p: Proposal| self.pending@.contains_key(p.code()),
            |p: Proposal| self.pending@[p.code()]@,
        )
    }
}

impl ProposalMap {
    /// Every key of the hash map is the code of a proposal.
    #[verifier::type_invariant]
    closed spec fn keys_are_codes(self) -> bool {
        forall|c: u8| self.pending@.contains_key(c) ==> Proposal::is_code(c)
    }

    /// A map without entries.
    pub fn new() -> (m: ProposalMap)
        ensures
            m@ == Map::<Proposal, ProposalView>::empty(),
    {
        let m = ProposalMap { pending: HashMap::new() };
        assert(m@ =~= Map::<Proposal, ProposalView>::empty());
        m
    }

    /// The map that `entries` spell out. Of two entries for one proposal the
    /// later one counts.
    pub fn from<const N: usize>(entries: [(Proposal, ProposalState); N]) -> (m: ProposalMap)
        ensures
            m@ == listed(entry_views(entries@)),
    {
        let mut m = ProposalMap::new();
        for i in 0..N
            invariant
                m@ == listed(entry_views(entries@).take(i as int)),
        {
            assert(entry_views(entries@).take(i + 1).drop_last() =~= entry_views(entries@).take(
                i as int,
            ));
            m.insert(entries[i].0, entries[i].1.clone());
        }
        assert(entry_views(entries@).take(N as int) =~= entry_views(entries@));
        m
    }

    /// Whether `proposal` is pending.
    pub fn contains_key(&self, proposal: &Proposal) -> (found: bool)
        ensures
            found == self@.contains_key(*proposal),
    {
        self.pending.contains_key(&proposal.encode())
    }

    /// The votes on `proposal`, if it is pending.
    pub fn get(&self, proposal: &Proposal) -> (state: Option<&ProposalState>)
        ensures
            match state {
                Some(s) => self@.contains_key(*proposal) && s@ == self@[*proposal],
                None => !self@.contains_key(*proposal),
            },
    {
        self.pending.get(&proposal.encode())
    }

    /// Enters `state` for `proposal` and returns what was entered before.
    pub fn insert(&mut self, proposal: Proposal, state: ProposalState) -> (before: Option<
        ProposalState,
    >)
        ensures
            final(self)@ == old(self)@.insert(proposal, state@),
            match before {
                Some(b) => old(self)@.contains_key(proposal) && b@ == old(self)@[proposal],
                None => !old(self)@.contains_key(proposal),
            },
    {
        proof {
            use_type_invariant(&*self);
            Proposal::lemma_code_bijective();
        }
        let mut pending: HashMap<u8, ProposalState> = HashMap::new();
        std::mem::swap(&mut self.pending, &mut pending);
        let before = pending.insert(proposal.encode(), state);
        std::mem::swap(&mut self.pending, &mut pending);
        assert(self@ =~= old(self)@.insert(proposal, state@));
        before
    }

    /// Takes `proposal` out and returns what was entered for it.
    pub fn remove(&mut self, proposal: &Proposal) -> (before: Option<ProposalState>)
        ensures
            final(self)@ == old(self)@.remove(*proposal),
            match before {
                Some(b) => old(self)@.contains_key(*proposal) && b@ == old(self)@[*proposal],
                None => !old(self)@.contains_key(*proposal),
            },
    {
        proof {
            use_type_invariant(&*self);
            Proposal::lemma_code_bijective();
        }
        let mut pending: HashMap<u8, ProposalState> = HashMap::new();
        std::mem::swap(&mut self.pending, &mut pending);
        let before = pending.remove(&proposal.encode());
        std::mem::swap(&mut self.pending, &mut pending);
        assert(self@ =~= old(self)@.remove(*proposal));
        before
    }

    /// The number of pending proposals.
    pub fn len(&self) -> (n: usize)
        ensures
            n == self@.len(),
    {
        proof {
            use_type_invariant(self);
            self.lemma_finite();
            Proposal::lemma_code_bijective();
            let code = |p: Proposal| p.code();
            assert(self@.dom().map(code) =~= self.pending@.dom()) by {
                assert forall|c: u8| self.pending@.dom().contains(c) implies self@.dom().map(
                    code,
                ).contains(c) by {
                    assert(self@.dom().contains(Proposal::of_code(c)));
                    assert(code(Proposal::of_code(c)) == c);
                }
            }
            assert(vstd::relations::injective_on(code, self@.dom()));
            vstd::set_lib::lemma_map_size(self@.dom(), self.pending@.dom(), code);
        }
        self.pending.len()
    }

    /// The view has finitely many entries, and so has each side of each of
    /// its proposals.
    pub proof fn lemma_finite(self)
        ensures
            self@.dom().finite(),
            forall|p: Proposal| #[trigger]
                self@.contains_key(p) ==> self@[p].votes_for.dom().finite()
                    && self@[p].votes_against.dom().finite(),
    {
        assert forall|p: Proposal| #[trigger]
            self@.contains_key(p) implies self@[p].votes_for.dom().finite()
            && self@[p].votes_against.dom().finite() by {
            self.pending@[p.code()].votes_for.lemma_finite();
            self.pending@[p.code()].votes_against.lemma_finite();
        }
        Proposal::lemma_code_bijective();
        let of_code = |c: u8| Proposal::of_code(c);
        self.pending@.dom().lemma_map_finite(of_code);
        assert(self@.dom().subset_of(self.pending@.dom().map(of_code))) by {
            assert forall|p: Proposal| self@.dom().contains(p) implies self.pending@.dom().map(
                of_code,
            ).contains(p) by {
                assert(self.pending@.dom().contains(p.code()));
                assert(of_code(p.code()) == p);
            }
        }
        vstd::set_lib::lemma_set_subset_finite(self.pending@.dom().map(of_code), self@.dom());
    }
}

impl Clone for ProposalMap {
    fn clone(&self) -> (copy: ProposalMap)
        ensures
            copy@ == self@,
    {
        proof {
            use_type_invariant(self);
        }
        ProposalMap { pending: self.pending.clone() }
    }
}

} // verus!
