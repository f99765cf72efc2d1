//! What holds of the registry in every state and under every transition.

use crate::identity::{Proposal, User};
use crate::proposal::ProposalView;
use crate::rules::{locked, payout, pool, rejection, share, step, TcrView, Transitions};
use crate::tally::{
    lemma_stake_sum_empty, lemma_stake_sum_insert, lemma_stake_sum_remove, lemma_sum_of_insert,
    lemma_sum_of_remove, stake_sum, Tokens,
};
use vstd::prelude::*;

verus! {

/// The state after the transitions of `ts` were applied to `s`, one after
/// the other.
pub open spec fn run(s: TcrView, ts: Seq<Transitions>) -> TcrView
    decreases ts.len(),
{
    if ts.len() == 0 {
        s
    } else {
        step(run(s, ts.drop_last()), ts.last())
    }
}

/// The stakes of each pending proposal, as the map that `locked` sums up.
spec fn stakes(proposals: Map<Proposal, ProposalView>) -> Map<Proposal, nat> {
    Map::new(|p: Proposal| proposals.contains_key(p), |p: Proposal| proposals[p].staked())
}

/// Entering `votes` for `prop` replaces what `prop` contributed to the locked
/// tokens by the stakes of `votes`.
proof fn lemma_locked_insert(
    proposals: Map<Proposal, ProposalView>,
    prop: Proposal,
    votes: ProposalView,
)
    requires
        proposals.dom().finite(),
    ensures
        proposals.contains_key(prop) ==> locked(proposals.insert(prop, votes))
            + proposals[prop].staked() == locked(proposals) + votes.staked(),
        !proposals.contains_key(prop) ==> locked(proposals.insert(prop, votes)) == locked(
            proposals,
        ) + votes.staked(),
{
    assert(stakes(proposals).dom() =~= proposals.dom());
    assert(stakes(proposals.insert(prop, votes)) =~= stakes(proposals).insert(
        prop,
        votes.staked(),
    ));
    lemma_sum_of_insert(stakes(proposals), prop, votes.staked());
}

/// Taking `prop` out of the pending proposals takes its stakes out of the
/// locked tokens.
proof fn lemma_locked_remove(proposals: Map<Proposal, ProposalView>, prop: Proposal)
    requires
        proposals.dom().finite(),
        proposals.contains_key(prop),
    ensures
        locked(proposals) == locked(proposals.remove(prop)) + proposals[prop].staked(),
{
    assert(stakes(proposals).dom() =~= proposals.dom());
    assert(stakes(proposals.remove(prop)) =~= stakes(proposals).remove(prop));
    lemma_sum_of_remove(stakes(proposals), prop);
}

/// A payout adds to the balances no more than the winners' stakes and one
/// bonus for each winner.
proof fn lemma_payout_bounded(
    balances: Map<User, Tokens>,
    winners: Map<User, Tokens>,
    bonus: Tokens,
)
    requires
        balances.dom().finite(),
        winners.dom().finite(),
    ensures
        payout(balances, winners, bonus).dom() == balances.dom(),
        stake_sum(payout(balances, winners, bonus)) <= stake_sum(balances) + stake_sum(winners)
            + winners.len() * bonus,
    decreases winners.len(),
{
    let paid = payout(balances, winners, bonus);
    assert(paid.dom() =~= balances.dom());
    if winners.len() == 0 {
        assert(winners.dom() =~= Set::<User>::empty());
        assert(paid =~= balances);
    } else {
        let k = winners.dom().choose();
        let rest = winners.remove(k);
        let partly = payout(balances, rest, bonus);
        lemma_payout_bounded(balances, rest, bonus);
        lemma_stake_sum_remove(winners, k);
        assert(winners.len() * bonus == rest.len() * bonus + bonus) by (nonlinear_arith)
            requires
                winners.len() == rest.len() + 1,
        ;
        if balances.contains_key(k) {
            assert(paid =~= partly.insert(k, paid[k]));
            lemma_stake_sum_insert(partly, k, paid[k]);
        } else {
            assert(paid =~= partly);
        }
    }
}

/// The winners' shares together are no more than the losers have staked.
proof fn lemma_shares_bounded(losers: Map<User, Tokens>, voters: nat)
    ensures
        voters * share(pool(losers), voters) <= stake_sum(losers),
{
    if voters > 0 {
        vstd::arithmetic::div_mod::lemma_fundamental_div_mod(pool(losers) as int, voters as int);
        vstd::arithmetic::div_mod::lemma_mod_pos_bound(pool(losers) as int, voters as int);
    }
}

/// A transition that breaks a rule leaves the state exactly as it was.
pub proof fn lemma_rejected_unchanged(s: TcrView, t: Transitions)
    requires
        rejection(s, t) is Some,
    ensures
        step(s, t) == s,
{
}

/// The maps of a finite state stay finite under every transition.
pub proof fn lemma_step_finite(s: TcrView, t: Transitions)
    requires
        s.finite(),
    ensures
        step(s, t).finite(),
{
    let next = step(s, t);
    assert(next.balances.dom() =~= s.balances.dom());
    if rejection(s, t) is None {
        match t {
            Transitions::SubmitProposal { prop, user, stake } => {
                assert(next.proposals[prop].votes_for.dom() =~= Set::<User>::empty().insert(user));
            },
            Transitions::VoteFor { prop, user, stake } => {},
            Transitions::VoteAgainst { prop, user, stake } => {},
            Transitions::Resolve { prop } => {},
        }
    }
}

/// Submitting a proposal and voting on one conserve the tokens: where the
/// transition is in order, the balances and the stakes on pending proposals
/// add up to the same before and after.
pub proof fn lemma_staking_conserves_tokens(s: TcrView, t: Transitions)
    requires
        s.finite(),
        !(t is Resolve),
        rejection(s, t) is None,
    ensures
        step(s, t).total_tokens() == s.total_tokens(),
{
    match t {
        Transitions::SubmitProposal { prop, user, stake } => {
            let votes = step(s, t).proposals[prop];
            lemma_stake_sum_insert(s.balances, user, (s.balances[user] - stake) as Tokens);
            lemma_stake_sum_empty::<User>();
            lemma_stake_sum_insert(Map::<User, Tokens>::empty(), user, stake);
            assert(votes.staked() == stake);
            lemma_locked_insert(s.proposals, prop, votes);
        },
        Transitions::VoteFor { prop, user, stake } => {
            let votes = step(s, t).proposals[prop];
            if s.balances.contains_key(user) {
                lemma_stake_sum_insert(s.balances, user, (s.balances[user] - stake) as Tokens);
            }
            lemma_stake_sum_insert(s.proposals[prop].votes_for, user, stake);
            lemma_locked_insert(s.proposals, prop, votes);
        },
        Transitions::VoteAgainst { prop, user, stake } => {
            let votes = step(s, t).proposals[prop];
            if s.balances.contains_key(user) {
                lemma_stake_sum_insert(s.balances, user, (s.balances[user] - stake) as Tokens);
            }
            lemma_stake_sum_insert(s.proposals[prop].votes_against, user, stake);
            lemma_locked_insert(s.proposals, prop, votes);
        },
        Transitions::Resolve { prop } => {},
    }
}

/// Resolving a proposal makes no tokens: the balances and the stakes on
/// pending proposals add up to no more after it than before. What the
/// division leaves over, what is owed to a voter without a balance and what
/// the clamping cuts off is lost.
pub proof fn lemma_settling_makes_no_tokens(s: TcrView, prop: Proposal)
    requires
        s.finite(),
    ensures
        step(s, Transitions::Resolve { prop }).total_tokens() <= s.total_tokens(),
{
    if rejection(s, Transitions::Resolve { prop }) is None {
        let votes = s.proposals[prop];
        assert(s.proposals.contains_key(prop));
        lemma_locked_remove(s.proposals, prop);
        if pool(votes.votes_for) == pool(votes.votes_against) {
            lemma_payout_bounded(s.balances, votes.votes_for, 0);
            lemma_payout_bounded(payout(s.balances, votes.votes_for, 0), votes.votes_against, 0);
        } else if pool(votes.votes_for) > pool(votes.votes_against) {
            let bonus = share(pool(votes.votes_against), votes.votes_for.len());
            lemma_payout_bounded(s.balances, votes.votes_for, bonus);
            lemma_shares_bounded(votes.votes_against, votes.votes_for.len());
        } else {
            let bonus = share(pool(votes.votes_for), votes.votes_against.len());
            lemma_payout_bounded(s.balances, votes.votes_against, bonus);
            lemma_shares_bounded(votes.votes_for, votes.votes_against.len());
        }
    }
}

/// Where nobody has a vote on both sides of a pending proposal, nobody has
/// after any transition.
pub proof fn lemma_exclusive_preserved(s: TcrView, t: Transitions)
    requires
        s.exclusive(),
    ensures
        step(s, t).exclusive(),
{
    let next = step(s, t);
    assert forall|p: Proposal| #[trigger]
        next.proposals.contains_key(p) implies next.proposals[p].exclusive() by {
        if s.proposals.contains_key(p) {
            assert(s.proposals[p].exclusive());
        }
    }
}

/// Where no proposal is pending and admitted at once, none is after any
/// transition.
pub proof fn lemma_disjoint_preserved(s: TcrView, t: Transitions)
    requires
        s.disjoint(),
    ensures
        step(s, t).disjoint(),
{
    let next = step(s, t);
    assert forall|p: Proposal|
        !(next.proposals.contains_key(p) && next.registry.contains(p)) by {
        assert(!(s.proposals.contains_key(p) && s.registry.contains(p)));
        if next.proposals.contains_key(p) && next.registry.contains(p) {
            let i = choose|i: int| 0 <= i < next.registry.len() && next.registry[i] == p;
            if i < s.registry.len() {
                assert(s.registry[i] == p);
            }
        }
    }
}

/// Resolving a proposal takes it out of the pending ones, however the vote
/// went.
pub proof fn lemma_resolve_unlists(s: TcrView, prop: Proposal)
    requires
        rejection(s, Transitions::Resolve { prop }) is None,
    ensures
        !step(s, Transitions::Resolve { prop }).proposals.contains_key(prop),
{
}

/// From a state in which nobody has a vote on both sides of a proposal and no
/// proposal is pending and admitted at once, no run of transitions leads to a
/// state in which somebody has, or one is.
pub proof fn lemma_invariants_along_run(s: TcrView, ts: Seq<Transitions>)
    requires
        s.exclusive(),
        s.disjoint(),
    ensures
        run(s, ts).exclusive(),
        run(s, ts).disjoint(),
    decreases ts.len(),
{
    if ts.len() > 0 {
        lemma_invariants_along_run(s, ts.drop_last());
        lemma_exclusive_preserved(run(s, ts.drop_last()), ts.last());
        lemma_disjoint_preserved(run(s, ts.drop_last()), ts.last());
    }
}

} // verus!
