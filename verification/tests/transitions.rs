use tcr::{
    initial_state, Proposal, ProposalMap, ProposalState, StateMachine, Tcr, TokenMap,
    Transitions, User, Votes,
};

// ========== SubmitProposal Tests ==========

#[test]
fn submit_proposal_fails_already_in_proposals() {
    let mut start = initial_state();
    start.proposals.insert(
        Proposal::Prop1,
        ProposalState {
            votes_for: Votes::new(),
            votes_against: Votes::new(),
        },
    );
    let end = Tcr::next_state(
        &start,
        &Transitions::SubmitProposal {
            prop: Proposal::Prop1,
            user: User::Alice,
            stake: 10,
        },
    );
    assert_eq!(end, start);
}

#[test]
fn submit_proposal_fails_already_in_registery() {
    let mut start = initial_state();
    start.registry.push(Proposal::Prop1);
    let end = Tcr::next_state(
        &start,
        &Transitions::SubmitProposal {
            prop: Proposal::Prop1,
            user: User::Alice,
            stake: 10,
        },
    );
    assert_eq!(end, start);
}

#[test]
fn submit_proposal_fails_insufficient_balance() {
    let mut start = initial_state();
    start.balances.insert(User::Alice, 50);
    let end = Tcr::next_state(
        &start,
        &Transitions::SubmitProposal {
            prop: Proposal::Prop1,
            user: User::Alice,
            stake: 100,
        },
    );
    assert_eq!(end, start);
}

#[test]
fn submit_proposal_succeeds_adds_to_proposals() {
    let start = initial_state();
    let end = Tcr::next_state(
        &start,
        &Transitions::SubmitProposal {
            prop: Proposal::Prop1,
            user: User::Alice,
            stake: 10,
        },
    );
    assert!(end.proposals.contains_key(&Proposal::Prop1));
}

#[test]
fn submit_proposal_succeeds_deducts_and_adds_vote() {
    let start = initial_state();
    let end = Tcr::next_state(
        &start,
        &Transitions::SubmitProposal {
            prop: Proposal::Prop1,
            user: User::Alice,
            stake: 10,
        },
    );
    let expected = Tcr {
        balances: TokenMap::from([(User::Alice, 90), (User::Bob, 100), (User::Charlie, 100)]),
        proposals: ProposalMap::from([(
            Proposal::Prop1,
            ProposalState {
                votes_for: Votes::from([(User::Alice, 10)]),
                votes_against: Votes::new(),
            },
        )]),
        registry: vec![],
    };
    assert_eq!(end, expected);
}

// ========== VoteFor Tests ==========

#[test]
fn vote_for_fails_user_already_voted() {
    let start = Tcr {
        balances: TokenMap::from([(User::Alice, 90), (User::Bob, 100), (User::Charlie, 100)]),
        proposals: ProposalMap::from([(
            Proposal::Prop1,
            ProposalState {
                votes_for: Votes::from([(User::Alice, 10)]),
                votes_against: Votes::new(),
            },
        )]),
        registry: vec![],
    };
    let end = Tcr::next_state(
        &start,
        &Transitions::VoteFor {
            prop: Proposal::Prop1,
            user: User::Alice,
            stake: 10,
        },
    );
    assert_eq!(end, start);
}

#[test]
fn vote_for_fails_proposal_not_in_proposals() {
    let start = initial_state();
    let end = Tcr::next_state(
        &start,
        &Transitions::VoteFor {
            prop: Proposal::Prop1,
            user: User::Alice,
            stake: 10,
        },
    );
    assert_eq!(end, start);
}

#[test]
fn vote_for_fails_insufficient_balance() {
    let start = Tcr {
        balances: TokenMap::from([(User::Alice, 90), (User::Bob, 50), (User::Charlie, 100)]),
        proposals: ProposalMap::from([(
            Proposal::Prop1,
            ProposalState {
                votes_for: Votes::from([(User::Alice, 10)]),
                votes_against: Votes::new(),
            },
        )]),
        registry: vec![],
    };
    let end = Tcr::next_state(
        &start,
        &Transitions::VoteFor {
            prop: Proposal::Prop1,
            user: User::Bob,
            stake: 100,
        },
    );
    assert_eq!(end, start);
}

#[test]
fn vote_for_succeeds() {
    let start = Tcr {
        balances: TokenMap::from([(User::Alice, 90), (User::Bob, 100), (User::Charlie, 100)]),
        proposals: ProposalMap::from([(
            Proposal::Prop1,
            ProposalState {
                votes_for: Votes::from([(User::Alice, 10)]),
                votes_against: Votes::new(),
            },
        )]),
        registry: vec![],
    };
    let end = Tcr::next_state(
        &start,
        &Transitions::VoteFor {
            prop: Proposal::Prop1,
            user: User::Bob,
            stake: 20,
        },
    );
    let expected = Tcr {
        balances: TokenMap::from([(User::Alice, 90), (User::Bob, 80), (User::Charlie, 100)]),
        proposals: ProposalMap::from([(
            Proposal::Prop1,
            ProposalState {
                votes_for: Votes::from([(User::Alice, 10), (User::Bob, 20)]),
                votes_against: Votes::new(),
            },
        )]),
        registry: vec![],
    };
    assert_eq!(end, expected);
}

// ========== VoteAgainst Tests ==========

#[test]
fn vote_against_fails_user_already_voted_for() {
    let start = Tcr {
        balances: TokenMap::from([(User::Alice, 90), (User::Bob, 100), (User::Charlie, 100)]),
        proposals: ProposalMap::from([(
            Proposal::Prop1,
            ProposalState {
                votes_for: Votes::from([(User::Alice, 10)]),
                votes_against: Votes::new(),
            },
        )]),
        registry: vec![],
    };
    let end = Tcr::next_state(
        &start,
        &Transitions::VoteAgainst {
            prop: Proposal::Prop1,
            user: User::Alice,
            stake: 10,
        },
    );
    assert_eq!(end, start);
}

#[test]
fn vote_against_fails_user_already_voted_against() {
    let start = Tcr {
        balances: TokenMap::from([(User::Alice, 90), (User::Bob, 90), (User::Charlie, 100)]),
        proposals: ProposalMap::from([(
            Proposal::Prop1,
            ProposalState {
                votes_for: Votes::from([(User::Alice, 10)]),
                votes_against: Votes::from([(User::Bob, 10)]),
            },
        )]),
        registry: vec![],
    };
    let end = Tcr::next_state(
        &start,
        &Transitions::VoteAgainst {
            prop: Proposal::Prop1,
            user: User::Bob,
            stake: 10,
        },
    );
    assert_eq!(end, start);
}

#[test]
fn vote_against_fails_proposal_not_in_proposals() {
    let start = initial_state();
    let end = Tcr::next_state(
        &start,
        &Transitions::VoteAgainst {
            prop: Proposal::Prop1,
            user: User::Alice,
            stake: 10,
        },
    );
    assert_eq!(end, start);
}

#[test]
fn vote_against_fails_insufficient_balance() {
    let start = Tcr {
        balances: TokenMap::from([(User::Alice, 90), (User::Bob, 50), (User::Charlie, 100)]),
        proposals: ProposalMap::from([(
            Proposal::Prop1,
            ProposalState {
                votes_for: Votes::from([(User::Alice, 10)]),
                votes_against: Votes::new(),
            },
        )]),
        registry: vec![],
    };
    let end = Tcr::next_state(
        &start,
        &Transitions::VoteAgainst {
            prop: Proposal::Prop1,
            user: User::Bob,
            stake: 100,
        },
    );
    assert_eq!(end, start);
}

#[test]
fn vote_against_succeeds() {
    let start = Tcr {
        balances: TokenMap::from([(User::Alice, 90), (User::Bob, 100), (User::Charlie, 100)]),
        proposals: ProposalMap::from([(
            Proposal::Prop1,
            ProposalState {
                votes_for: Votes::from([(User::Alice, 10)]),
                votes_against: Votes::new(),
            },
        )]),
        registry: vec![],
    };
    let end = Tcr::next_state(
        &start,
        &Transitions::VoteAgainst {
            prop: Proposal::Prop1,
            user: User::Bob,
            stake: 20,
        },
    );
    let expected = Tcr {
        balances: TokenMap::from([(User::Alice, 90), (User::Bob, 80), (User::Charlie, 100)]),
        proposals: ProposalMap::from([(
            Proposal::Prop1,
            ProposalState {
                votes_for: Votes::from([(User::Alice, 10)]),
                votes_against: Votes::from([(User::Bob, 20)]),
            },
        )]),
        registry: vec![],
    };
    assert_eq!(end, expected);
}

// ========== Resolve Tests ==========

#[test]
fn resolve_fails_proposal_not_in_proposals() {
    let start = initial_state();
    let end = Tcr::next_state(
        &start,
        &Transitions::Resolve {
            prop: Proposal::Prop1,
        },
    );
    assert_eq!(end, start);
}

#[test]
fn resolve_fails_proposal_already_in_registery() {
    let mut start = initial_state();
    start.registry.push(Proposal::Prop1);
    // Manually add proposal to state (simulating it was already resolved)
    start.proposals.insert(
        Proposal::Prop1,
        ProposalState {
            votes_for: Votes::from([(User::Alice, 10)]),
            votes_against: Votes::new(),
        },
    );
    start.balances.insert(User::Alice, 90);

    let end = Tcr::next_state(
        &start,
        &Transitions::Resolve {
            prop: Proposal::Prop1,
        },
    );
    assert_eq!(end, start);
}

#[test]
fn resolve_succeeds_votes_equal() {
    let start = initial_state();
    // Alice submits proposal with 50 tokens
    let after_submit = Tcr::next_state(
        &start,
        &Transitions::SubmitProposal {
            prop: Proposal::Prop1,
            user: User::Alice,
            stake: 50,
        },
    );
    // Bob votes against with 50 tokens
    let after_vote = Tcr::next_state(
        &after_submit,
        &Transitions::VoteAgainst {
            prop: Proposal::Prop1,
            user: User::Bob,
            stake: 50,
        },
    );
    // Resolve
    let end = Tcr::next_state(
        &after_vote,
        &Transitions::Resolve {
            prop: Proposal::Prop1,
        },
    );
    let expected = Tcr {
        balances: TokenMap::from([(User::Alice, 100), (User::Bob, 100), (User::Charlie, 100)]),
        proposals: ProposalMap::new(),
        registry: vec![],
    };
    assert_eq!(end, expected);
}

#[test]
fn resolve_succeeds_votes_against() {
    let start = initial_state();
    // Alice submits proposal with 50 tokens, 50
    let after_submit = Tcr::next_state(
        &start,
        &Transitions::SubmitProposal {
            prop: Proposal::Prop1,
            user: User::Alice,
            stake: 50,
        },
    );
    // Bob votes against with 30 tokens, 70
    let after_vote = Tcr::next_state(
        &after_submit,
        &Transitions::VoteAgainst {
            prop: Proposal::Prop1,
            user: User::Bob,
            stake: 30,
        },
    );
    // Resolve
    let end = Tcr::next_state(
        &after_vote,
        &Transitions::Resolve {
            prop: Proposal::Prop1,
        },
    );
    let expected = Tcr {
        balances: TokenMap::from([(User::Alice, 130), (User::Bob, 70), (User::Charlie, 100)]),
        proposals: ProposalMap::new(),
        registry: vec![Proposal::Prop1],
    };
    assert_eq!(end, expected);
}

#[test]
fn resolve_succeeds_only_votes_for() {
    let start = initial_state();
    // Alice submits proposal with 50 tokens
    let after_submit = Tcr::next_state(
        &start,
        &Transitions::SubmitProposal {
            prop: Proposal::Prop1,
            user: User::Alice,
            stake: 50,
        },
    );
    // Resolve
    let end = Tcr::next_state(
        &after_submit,
        &Transitions::Resolve {
            prop: Proposal::Prop1,
        },
    );
    let expected = Tcr {
        balances: TokenMap::from([(User::Alice, 100), (User::Bob, 100), (User::Charlie, 100)]),
        proposals: ProposalMap::new(),
        registry: vec![Proposal::Prop1],
    };
    assert_eq!(end, expected);
}

#[test]
fn resolve_succeeds_for_wins() {
    let start = initial_state();
    // Alice submits proposal with 60 tokens, alice b = 40
    let after_submit = Tcr::next_state(
        &start,
        &Transitions::SubmitProposal {
            prop: Proposal::Prop1,
            user: User::Alice,
            stake: 60,
        },
    );
    // Bob votes against with 40 tokens, bob b = 60
    let after_vote = Tcr::next_state(
        &after_submit,
        &Transitions::VoteAgainst {
            prop: Proposal::Prop1,
            user: User::Bob,
            stake: 40,
        },
    );
    // Resolve
    let end = Tcr::next_state(
        &after_vote,
        &Transitions::Resolve {
            prop: Proposal::Prop1,
        },
    );
    let expected = Tcr {
        balances: TokenMap::from([(User::Alice, 140), (User::Bob, 60), (User::Charlie, 100)]),
        proposals: ProposalMap::new(),
        registry: vec![Proposal::Prop1],
    };
    assert_eq!(end, expected);
}

#[test]
fn resolve_succeeds_against_wins() {
    let start = initial_state();
    // Alice submits proposal with 40 tokens, alice = 60
    let after_submit = Tcr::next_state(
        &start,
        &Transitions::SubmitProposal {
            prop: Proposal::Prop1,
            user: User::Alice,
            stake: 40,
        },
    );
    // Bob votes against with 60 tokens, bob = 40
    let after_vote = Tcr::next_state(
        &after_submit,
        &Transitions::VoteAgainst {
            prop: Proposal::Prop1,
            user: User::Bob,
            stake: 60,
        },
    );
    // Resolve
    let end = Tcr::next_state(
        &after_vote,
        &Transitions::Resolve {
            prop: Proposal::Prop1,
        },
    );
    let expected = Tcr {
        balances: TokenMap::from([(User::Alice, 60), (User::Bob, 140), (User::Charlie, 100)]),
        proposals: ProposalMap::new(),
        registry: vec![],
    };
    assert_eq!(end, expected);
}
