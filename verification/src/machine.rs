//! The registry as an executable state machine.

use crate::identity::{Proposal, User};
use crate::proposal::{ProposalMap, ProposalState, Votes};
use crate::laws::{
    lemma_disjoint_preserved, lemma_exclusive_preserved, lemma_settling_makes_no_tokens,
    lemma_staking_conserves_tokens, lemma_step_finite,
};
use crate::rules::{
    can_debit, credit, debit, payout, rejection, settle, share, step, vote, Rejection, TcrView,
    Transitions,
};
use crate::tally::{
    distinct_keys, lemma_listed_distinct, lemma_listing_spells, listed, Tokens,
};
use crate::token_map::TokenMap;
use vstd::prelude::*;

verus! {

/// A machine that goes from state to state, one transition at a time.
pub trait StateMachine {
    /// The states that the machine can be in.
    type State;

    /// The transitions that can be asked of it.
    type Transition;

    /// The state that follows `starting_state` under `t`.
    fn next_state(starting_state: &Self::State, t: &Self::Transition) -> Self::State;
}

/// The state of a token-curated registry.
#[derive(Debug, PartialEq)]
pub struct Tcr {
    /// What each user can still spend.
    pub balances: TokenMap,
    /// The proposals under vote.
    pub proposals: ProposalMap,
    /// The proposals that were admitted, in the order of their admission.
    pub registry: Vec<Proposal>,
}

impl View for Tcr {
    type V = TcrView;

    open spec fn view(&self) -> TcrView {
        TcrView {
            balances: self.balances@,
            proposals: self.proposals@,
            registry: self.registry@,
        }
    }
}

impl Clone for Tcr {
    fn clone(&self) -> (copy: Tcr)
        ensures
            copy@ == self@,
    {
        let mut registry: Vec<Proposal> = Vec::new();
        for i in 0..self.registry.len()
            invariant
                registry@ == self.registry@.take(i as int),
        {
            registry.push(self.registry[i]);
            assert(self.registry@.take(i + 1) =~= self.registry@.take(i as int).push(
                self.registry@[i as int],
            ));
        }
        assert(self.registry@.take(self.registry@.len() as int) =~= self.registry@);
        Tcr { balances: self.balances.clone(), proposals: self.proposals.clone(), registry }
    }
}

/// What each of `voters` winners gets of the losers' `pool`.
pub fn even_share(pool: Tokens, voters: usize) -> (part: Tokens)
    ensures
        part == share(pool, voters as nat),
{
    if voters == 0 {
        0
    } else if voters > pool as usize {
        assert(pool as int / voters as int == 0) by (nonlinear_arith)
            requires
                0 <= pool < voters,
        ;
        0
    } else {
        pool / (voters as Tokens)
    }
}

impl Tcr {
    /// Whether `prop` is among the admitted proposals.
    pub fn is_admitted(&self, prop: &Proposal) -> (found: bool)
        ensures
            found == self@.registry.contains(*prop),
    {
        for i in 0..self.registry.len()
            invariant
                forall|j: int| 0 <= j < i ==> self.registry@[j] != *prop,
        {
            if self.registry[i] == *prop {
                return true;
            }
        }
        false
    }

    /// The maps of every state are finite.
    pub proof fn lemma_view_finite(self)
        ensures
            self@.finite(),
    {
        self.balances.lemma_finite();
        self.proposals.lemma_finite();
    }

    /// Takes `stake` from what `user` can spend. Fails, and changes nothing,
    /// where `user` has no balance or less than `stake`.
    pub fn adjust_balance(state: &mut Tcr, user: &User, stake: &Tokens) -> (done: Result<
        (),
        &'static str,
    >)
        ensures
            final(state)@ == (TcrView {
                balances: debit(old(state)@.balances, *user, *stake),
                ..old(state)@
            }),
            done is Ok <==> can_debit(old(state)@.balances, *user, *stake),
            done matches Err(why) ==> why@ == "Insufficient balance"@,
    {
        let sufficient = match state.balances.get(user) {
            Some(bal) => if *bal >= *stake {
                Some(bal.saturating_sub(*stake))
            } else {
                None
            },
            None => None,
        };
        match sufficient {
            Some(new_bal) => {
                state.balances.insert(*user, new_bal);
                Ok(())
            },
            None => Err("Insufficient balance"),
        }
    }

    /// Adds `stake` to what `user` can spend, clamped. Fails, and changes
    /// nothing, where `user` has no balance.
    pub fn top_up_balance(state: &mut Tcr, user: &User, stake: &Tokens) -> (done: Result<
        (),
        &'static str,
    >)
        ensures
            final(state)@ == (TcrView {
                balances: credit(old(state)@.balances, *user, *stake),
                ..old(state)@
            }),
            done is Ok <==> old(state)@.balances.contains_key(*user),
            done matches Err(why) ==> why@ == "User not found"@,
    {
        let topped = match state.balances.get(user) {
            Some(bal) => Some(bal.saturating_add(*stake)),
            None => None,
        };
        match topped {
            Some(new_bal) => {
                state.balances.insert(*user, new_bal);
                Ok(())
            },
            None => Err("User not found"),
        }
    }

    /// Whether `t` is in order in `state`, and if not, which rule it breaks.
    pub fn validate(state: &Tcr, t: &Transitions) -> (verdict: Result<(), Rejection>)
        ensures
            verdict == (match rejection(state@, *t) {
                Some(broken) => Err::<(), Rejection>(broken),
                None => Ok(()),
            }),
    {
        match t {
            Transitions::SubmitProposal { prop, user, stake } => {
                if state.proposals.contains_key(prop) || state.is_admitted(prop) {
                    return Err(Rejection::DuplicateProposal);
                }
                match state.balances.get(user) {
                    Some(bal) => if *bal >= *stake {
                        Ok(())
                    } else {
                        Err(Rejection::InsufficientBalance)
                    },
                    None => Err(Rejection::InsufficientBalance),
                }
            },
            Transitions::VoteFor { prop, user, stake }
            | Transitions::VoteAgainst { prop, user, stake } => {
                if state.is_admitted(prop) {
                    return Err(Rejection::UnknownOrResolvedProposal);
                }
                match state.proposals.get(prop) {
                    None => Err(Rejection::UnknownOrResolvedProposal),
                    Some(proposal) => {
                        let spendable = match state.balances.get(user) {
                            Some(bal) => *bal,
                            None => 0,
                        };
                        if proposal.votes_for.contains_key(user)
                            || proposal.votes_against.contains_key(user) {
                            Err(Rejection::DuplicateVote)
                        } else if *stake > spendable {
                            Err(Rejection::InsufficientBalance)
                        } else {
                            Ok(())
                        }
                    },
                }
            },
            Transitions::Resolve { prop } => {
                if !state.proposals.contains_key(prop) || state.is_admitted(prop) {
                    Err(Rejection::UnknownOrResolvedProposal)
                } else {
                    Ok(())
                }
            },
        }
    }

    /// Records the stake of `user` on the pending proposal `prop` and takes it
    /// from what `user` can spend.
    fn record_vote(state: &mut Tcr, prop: &Proposal, user: &User, stake: &Tokens, in_favour: bool)
        requires
            old(state)@.proposals.contains_key(*prop),
        ensures
            final(state)@ == vote(old(state)@, *prop, *user, *stake, in_favour),
    {
        if let Some(mut proposal) = state.proposals.remove(prop) {
            if in_favour {
                proposal.votes_for.insert(*user, *stake);
            } else {
                proposal.votes_against.insert(*user, *stake);
            }
            state.proposals.insert(*prop, proposal);
        }
        let _ = Tcr::adjust_balance(state, user, stake);
        assert(state@.proposals =~= vote(old(state)@, *prop, *user, *stake, in_favour).proposals);
    }

    /// Gives each of `winners` who has a balance the stake back and `bonus`
    /// on top.
    fn pay_out(state: &mut Tcr, winners: &Vec<(User, Tokens)>, bonus: Tokens)
        requires
            distinct_keys(winners@),
        ensures
            final(state)@ == (TcrView {
                balances: payout(old(state)@.balances, listed(winners@), bonus),
                ..old(state)@
            }),
    {
        assert(state@.balances =~= payout(old(state)@.balances, listed(winners@.take(0)), bonus));
        for i in 0..winners.len()
            invariant
                distinct_keys(winners@),
                state@ == (TcrView {
                    balances: payout(
                        old(state)@.balances,
                        listed(winners@.take(i as int)),
                        bonus,
                    ),
                    ..old(state)@
                }),
        {
            let (user, stake) = winners[i];
            let new_stake = bonus.saturating_add(stake);
            let _ = Tcr::top_up_balance(state, &user, &new_stake);
            proof {
                let front = winners@.take(i as int);
                assert(winners@.take(i + 1).drop_last() =~= front);
                assert forall|j: int| 0 <= j < front.len() implies #[trigger] front[j]
                    == winners@[j] by {}
                lemma_listed_distinct(front);
                if listed(front).contains_key(user) {
                    let j = choose|j: int| 0 <= j < front.len() && (#[trigger] front[j]).0 == user;
                    assert(winners@[j].0 == winners@[i as int].0);
                }
                assert(state@.balances =~= payout(
                    old(state)@.balances,
                    listed(winners@.take(i + 1)),
                    bonus,
                ));
            }
        }
        assert(winners@.take(winners@.len() as int) =~= winners@);
    }

    /// Closes the vote on the pending proposal `prop` and settles the stakes.
    fn settle_votes(state: &mut Tcr, prop: &Proposal)
        requires
            old(state)@.proposals.contains_key(*prop),
        ensures
            final(state)@ == settle(old(state)@, *prop),
    {
        if let Some(votes) = state.proposals.remove(prop) {
            let total_for = votes.votes_for.total();
            let total_against = votes.votes_against.total();
            let backers = votes.votes_for.entries();
            let opponents = votes.votes_against.entries();
            proof {
                lemma_listing_spells(backers@, votes.votes_for@);
                lemma_listing_spells(opponents@, votes.votes_against@);
            }
            if total_against == total_for {
                Tcr::pay_out(state, &backers, 0);
                Tcr::pay_out(state, &opponents, 0);
            } else if total_for > total_against {
                let top_up = even_share(total_against, backers.len());
                Tcr::pay_out(state, &backers, top_up);
                state.registry.push(*prop);
            } else {
                let top_up = even_share(total_for, opponents.len());
                Tcr::pay_out(state, &opponents, top_up);
            }
        }
    }
}

impl StateMachine for Tcr {
    type State = Tcr;

    type Transition = Transitions;

    /// The state that follows `init` under `t`: a copy of `init` where `t`
    /// breaks a rule.
    fn next_state(init: &Tcr, t: &Transitions) -> (next: Tcr)
        ensures
            next@ == step(init@, *t),
            rejection(init@, *t) is Some ==> next@ == init@,
            rejection(init@, *t) is None && !(*t is Resolve) ==> next@.total_tokens()
                == init@.total_tokens(),
            next@.total_tokens() <= init@.total_tokens(),
            init@.exclusive() ==> next@.exclusive(),
            init@.disjoint() ==> next@.disjoint(),
            rejection(init@, *t) is None ==> (*t matches Transitions::Resolve { prop }
                ==> !next@.proposals.contains_key(prop)),
            next@.finite(),
    {
        let mut new_state = init.clone();
        proof {
            init.lemma_view_finite();
            lemma_step_finite(init@, *t);
            if rejection(init@, *t) is None && !(*t is Resolve) {
                lemma_staking_conserves_tokens(init@, *t);
            }
            if let Transitions::Resolve { prop } = *t {
                lemma_settling_makes_no_tokens(init@, prop);
            }
            if init@.exclusive() {
                lemma_exclusive_preserved(init@, *t);
            }
            if init@.disjoint() {
                lemma_disjoint_preserved(init@, *t);
            }
        }
        if Tcr::validate(init, t).is_err() {
            return new_state;
        }
        match t {
            Transitions::SubmitProposal { prop, user, stake } => {
                let _ = Tcr::adjust_balance(&mut new_state, user, stake);
                let votes_for = Votes::from([(*user, *stake)]);
                new_state.proposals.insert(
                    *prop,
                    ProposalState { votes_for, votes_against: Votes::new() },
                );
                proof {
                    reveal_with_fuel(listed, 2);
                    assert(votes_for@ =~= map![*user => *stake]);
                }
            },
            Transitions::VoteFor { prop, user, stake } => {
                Tcr::record_vote(&mut new_state, prop, user, stake, true);
            },
            Transitions::VoteAgainst { prop, user, stake } => {
                Tcr::record_vote(&mut new_state, prop, user, stake, false);
            },
            Transitions::Resolve { prop } => {
                Tcr::settle_votes(&mut new_state, prop);
            },
        }
        new_state
    }
}

/// Three users with 100 tokens each, and no proposal yet.
pub fn initial_state() -> (state: Tcr)
    ensures
        state@ == (TcrView {
            balances: map![
                User::Alice => 100u32,
                User::Bob => 100u32,
                User::Charlie => 100u32,
            ],
            proposals: Map::empty(),
            registry: Seq::empty(),
        }),
{
    let balances = TokenMap::from([(User::Alice, 100), (User::Bob, 100), (User::Charlie, 100)]);
    proof {
        reveal_with_fuel(listed, 4);
        assert(balances@ =~= map![
            User::Alice => 100u32,
            User::Bob => 100u32,
            User::Charlie => 100u32,
        ]);
    }
    Tcr { balances, proposals: ProposalMap::new(), registry: Vec::new() }
}

} // verus!
