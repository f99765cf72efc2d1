//! The rules of the registry, stated over mathematical maps and sequences.
//!
//! [`step`] is the whole machine as a function from a state and a transition
//! to the next state. The executable machine is proved against it.

use crate::identity::{Proposal, User};
use crate::proposal::ProposalView;
use crate::tally::{clamp, stake_sum, sum_of, Tokens};
use vstd::prelude::*;

verus! {

/// What a registry state stands for.
#[verifier::ext_equal]
pub struct TcrView {
    /// What each user can still spend. Staked tokens are not in here.
    pub balances: Map<User, Tokens>,
    /// The proposals under vote.
    pub proposals: Map<Proposal, ProposalView>,
    /// The proposals that were admitted, in the order of their admission.
    pub registry: Seq<Proposal>,
}

/// What can be asked of the registry.
#[derive(Clone, Copy, Debug, PartialEq, Eq)]
pub enum Transitions {
    /// `user` puts `prop` up for admission and stakes `stake` for it.
    SubmitProposal { prop: Proposal, user: User, stake: Tokens },
    /// `user` stakes `stake` for the admission of `prop`.
    VoteFor { prop: Proposal, user: User, stake: Tokens },
    /// `user` stakes `stake` against the admission of `prop`.
    VoteAgainst { prop: Proposal, user: User, stake: Tokens },
    /// The vote on `prop` is closed and the stakes are settled.
    Resolve { prop: Proposal },
}

/// Why a transition leaves the state as it is.
#[derive(Clone, Copy, Debug, PartialEq, Eq)]
pub enum Rejection {
    /// The proposal is already pending or already admitted.
    DuplicateProposal,
    /// The user has no balance, or less than the stake.
    InsufficientBalance,
    /// The proposal is not pending, or is already admitted.
    UnknownOrResolvedProposal,
    /// The user has already voted on the proposal, on either side.
    DuplicateVote,
}

/// Whether `user` has a balance and it covers `stake`.
pub open spec fn can_debit(balances: Map<User, Tokens>, user: User, stake: Tokens) -> bool {
    balances.contains_key(user) && balances[user] >= stake
}

/// `balances` with `stake` taken from `user`, where `user` has a balance that
/// covers it; else `balances` as they are.
pub open spec fn debit(balances: Map<User, Tokens>, user: User, stake: Tokens) -> Map<
    User,
    Tokens,
> {
    if can_debit(balances, user, stake) {
        balances.insert(user, (balances[user] - stake) as Tokens)
    } else {
        balances
    }
}

/// `balances` with `amount` added to what `user` has, clamped, where `user`
/// has a balance; else `balances` as they are.
pub open spec fn credit(balances: Map<User, Tokens>, user: User, amount: Tokens) -> Map<
    User,
    Tokens,
> {
    if balances.contains_key(user) {
        balances.insert(user, clamp(balances[user] + amount))
    } else {
        balances
    }
}

/// What `user` can spend: the balance, or nothing without one.
pub open spec fn spendable(balances: Map<User, Tokens>, user: User) -> Tokens {
    if balances.contains_key(user) {
        balances[user]
    } else {
        0
    }
}

/// The tokens staked on one side, clamped.
pub open spec fn pool(votes: Map<User, Tokens>) -> Tokens {
    clamp(stake_sum(votes) as int)
}

/// What each of `voters` winners gets of the losers' `pool`: an even part,
/// rounded down. Nothing where there is no winner.
pub open spec fn share(pool: Tokens, voters: nat) -> Tokens {
    if voters == 0 {
        0
    } else {
        (pool as int / voters as int) as Tokens
    }
}

/// `balances` after each voter of `winners` who has a balance got the stake
/// back and `bonus` on top, clamped.
pub open spec fn payout(
    balances: Map<User, Tokens>,
    winners: Map<User, Tokens>,
    bonus: Tokens,
) -> Map<User, Tokens> {
    Map::new(
        |u: User| balances.contains_key(u),
        |u: User|
            if winners.contains_key(u) {
                clamp(balances[u] + winners[u] + bonus)
            } else {
                balances[u]
            },
    )
}

/// All tokens staked on pending proposals.
pub open spec fn locked(proposals: Map<Proposal, ProposalView>) -> nat {
    sum_of(Map::new(|p: Proposal| proposals.contains_key(p), |p: Proposal| proposals[p].staked()))
}

impl TcrView {
    /// Whether all maps of the state have finitely many entries. Every state
    /// that the machine holds is finite.
    pub open spec fn finite(self) -> bool {
        &&& self.balances.dom().finite()
        &&& self.proposals.dom().finite()
        &&& forall|p: Proposal| #[trigger]
            self.proposals.contains_key(p) ==> self.proposals[p].votes_for.dom().finite()
                && self.proposals[p].votes_against.dom().finite()
    }

    /// Whether nobody has a vote on both sides of a pending proposal.
    pub open spec fn exclusive(self) -> bool {
        forall|p: Proposal| #[trigger]
            self.proposals.contains_key(p) ==> self.proposals[p].exclusive()
    }

    /// Whether no proposal is pending and admitted at once.
    pub open spec fn disjoint(self) -> bool {
        forall|p: Proposal| !(self.proposals.contains_key(p) && self.registry.contains(p))
    }

    /// All tokens there are: the balances and the stakes on pending proposals.
    pub open spec fn total_tokens(self) -> nat {
        stake_sum(self.balances) + locked(self.proposals)
    }
}

/// Whether `prop` can be neither voted on nor resolved: it is not pending, or
/// it is admitted already.
pub open spec fn closed_to_votes(s: TcrView, prop: Proposal) -> bool {
    !s.proposals.contains_key(prop) || s.registry.contains(prop)
}

/// The rule that `t` breaks in state `s`, or `None` where `t` is in order.
///
/// Where several rules are broken, the first of this order is named: the
/// proposal's standing, then the user's earlier vote, then the balance.
pub open spec fn rejection(s: TcrView, t: Transitions) -> Option<Rejection> {
    match t {
        Transitions::SubmitProposal { prop, user, stake } => {
            if s.proposals.contains_key(prop) || s.registry.contains(prop) {
                Some(Rejection::DuplicateProposal)
            } else if !can_debit(s.balances, user, stake) {
                Some(Rejection::InsufficientBalance)
            } else {
                None
            }
        },
        Transitions::VoteFor { prop, user, stake }
        | Transitions::VoteAgainst { prop, user, stake } => {
            if closed_to_votes(s, prop) {
                Some(Rejection::UnknownOrResolvedProposal)
            } else if s.proposals[prop].has_voted(user) {
                Some(Rejection::DuplicateVote)
            } else if stake > spendable(s.balances, user) {
                Some(Rejection::InsufficientBalance)
            } else {
                None
            }
        },
        Transitions::Resolve { prop } => {
            if closed_to_votes(s, prop) {
                Some(Rejection::UnknownOrResolvedProposal)
            } else {
                None
            }
        },
    }
}

/// The state after `user` put up the new proposal `prop` with `stake`.
pub open spec fn submit(s: TcrView, prop: Proposal, user: User, stake: Tokens) -> TcrView {
    TcrView {
        balances: debit(s.balances, user, stake),
        proposals: s.proposals.insert(
            prop,
            ProposalView { votes_for: map![user => stake], votes_against: Map::empty() },
        ),
        registry: s.registry,
    }
}

/// The state after `user` staked `stake` on the pending proposal `prop`, for
/// it if `in_favour`, else against it.
///
/// A user without a balance can only stake nothing; the vote is recorded and
/// the balances stay as they are.
pub open spec fn vote(
    s: TcrView,
    prop: Proposal,
    user: User,
    stake: Tokens,
    in_favour: bool,
) -> TcrView {
    let before = s.proposals[prop];
    let after = if in_favour {
        ProposalView { votes_for: before.votes_for.insert(user, stake), ..before }
    } else {
        ProposalView { votes_against: before.votes_against.insert(user, stake), ..before }
    };
    TcrView {
        balances: debit(s.balances, user, stake),
        proposals: s.proposals.insert(prop, after),
        registry: s.registry,
    }
}

/// The state after the vote on the pending proposal `prop` was closed.
///
/// The sides are compared by their pools. On a tie every voter gets the stake
/// back, on each side on which there is one. Else every voter of the larger side gets the stake back and an even
/// share of the smaller side's pool; what the division leaves over is lost, and
/// so is what is owed to a voter without a balance. `prop` is no longer
/// pending, and it is admitted if and only if the side in favour was larger.
pub open spec fn settle(s: TcrView, prop: Proposal) -> TcrView {
    let votes = s.proposals[prop];
    let total_for = pool(votes.votes_for);
    let total_against = pool(votes.votes_against);
    if total_for == total_against {
        TcrView {
            balances: payout(payout(s.balances, votes.votes_for, 0), votes.votes_against, 0),
            proposals: s.proposals.remove(prop),
            registry: s.registry,
        }
    } else if total_for > total_against {
        TcrView {
            balances: payout(
                s.balances,
                votes.votes_for,
                share(total_against, votes.votes_for.len()),
            ),
            proposals: s.proposals.remove(prop),
            registry: s.registry.push(prop),
        }
    } else {
        TcrView {
            balances: payout(
                s.balances,
                votes.votes_against,
                share(total_for, votes.votes_against.len()),
            ),
            proposals: s.proposals.remove(prop),
            registry: s.registry,
        }
    }
}

/// The state that follows `s` under `t`: `s` itself where `t` breaks a rule.
pub open spec fn step(s: TcrView, t: Transitions) -> TcrView {
    if rejection(s, t) is Some {
        s
    } else {
        match t {
            Transitions::SubmitProposal { prop, user, stake } => submit(s, prop, user, stake),
            Transitions::VoteFor { prop, user, stake } => vote(s, prop, user, stake, true),
            Transitions::VoteAgainst { prop, user, stake } => vote(s, prop, user, stake, false),
            Transitions::Resolve { prop } => settle(s, prop),
        }
    }
}

} // verus!
