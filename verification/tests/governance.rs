use sputnikdao2::policy::{
    default_policy, Permission, Policy, RoleKind, RolePermission, VersionedPolicy, VotePolicy,
    WeightKind, WeightOrRatio,
};
use sputnikdao2::proposals::{ProposalInput, ProposalKind, ProposalStatus};
use sputnikdao2::types::{Action, Config, DaoError};
use sputnikdao2::upgrade::get_default_factory_id;
use sputnikdao2::Contract;

const BOND: u128 = 1_000_000_000_000_000_000_000_000;

fn council_contract(council: Vec<&str>) -> Contract {
    Contract::new(
        Config::test_config(),
        VersionedPolicy::Default(council.into_iter().map(|s| s.to_string()).collect()),
    )
}

fn signal_input(description: &str) -> ProposalInput {
    ProposalInput {
        description: description.to_string(),
        kind: ProposalKind::Vote,
    }
}

#[test]
fn submit_then_read_round_trip() {
    let mut contract = council_contract(vec!["alice"]);
    let id = contract
        .add_proposal(signal_input("just checking"), "alice".to_string(), 0, BOND, 42)
        .unwrap();
    assert_eq!(id, 0);
    let p = contract.get_proposal(id);
    assert_eq!(p.description, "just checking");
    assert_eq!(p.kind.to_policy_label(), "vote");
    assert_eq!(p.status, ProposalStatus::InProgress);
    assert_eq!(p.votes.len(), 0);
    assert_eq!(p.vote_counts.len(), 0);
    assert_eq!(p.submission_time, 42);
    assert_eq!(p.proposer, "alice");
}

#[test]
fn finalize_on_terminal_proposal_is_a_no_op() {
    let mut contract = council_contract(vec!["alice"]);
    let id = contract
        .add_proposal(signal_input("signal"), "alice".to_string(), 0, BOND, 0)
        .unwrap();
    let outcome = contract
        .act_proposal(id, Action::VoteApprove, "alice".to_string(), 0, 0, 0)
        .unwrap();
    assert_eq!(outcome.status, ProposalStatus::Approved);
    assert_eq!(contract.get_proposal(id).status, ProposalStatus::Approved);
    let r = contract.act_proposal(id, Action::Finalize, "alice".to_string(), 0, 0, 0);
    assert_eq!(r, Err(DaoError::InvalidTransition));
    assert_eq!(contract.get_proposal(id).status, ProposalStatus::Approved);
    assert_eq!(contract.get_proposal(id).votes.len(), 1);
}

#[test]
fn voting_twice_is_refused() {
    let mut contract = council_contract(vec!["alice", "bob"]);
    let id = contract
        .add_proposal(signal_input("signal"), "alice".to_string(), 0, BOND, 0)
        .unwrap();
    // Two council members: one vote is not a majority yet.
    let outcome = contract
        .act_proposal(id, Action::VoteApprove, "alice".to_string(), 0, 0, 0)
        .unwrap();
    assert_eq!(outcome.status, ProposalStatus::InProgress);
    let r = contract.act_proposal(id, Action::VoteApprove, "alice".to_string(), 0, 0, 0);
    assert_eq!(r, Err(DaoError::AlreadyVoted));
    // The second member completes the majority.
    let outcome = contract
        .act_proposal(id, Action::VoteApprove, "bob".to_string(), 0, 0, 0)
        .unwrap();
    assert_eq!(outcome.status, ProposalStatus::Approved);
}

#[test]
fn outsiders_cannot_vote() {
    let mut contract = council_contract(vec!["alice"]);
    let id = contract
        .add_proposal(signal_input("signal"), "mallory".to_string(), 0, BOND, 0)
        .unwrap();
    let r = contract.act_proposal(id, Action::VoteApprove, "mallory".to_string(), 0, 0, 0);
    assert_eq!(r, Err(DaoError::NoPermission));
}

#[test]
fn submitting_needs_the_bond() {
    let mut contract = council_contract(vec!["alice"]);
    let r = contract.add_proposal(signal_input("signal"), "alice".to_string(), 0, BOND - 1, 0);
    assert_eq!(r, Err(DaoError::InsufficientBond));
}

fn two_role_policy() -> Policy {
    Policy {
        roles: vec![
            RolePermission {
                name: "stakers".to_string(),
                kind: RoleKind::Group(vec!["t1".to_string(), "t2".to_string()]),
                permissions: vec![Permission { label: None, action: None }],
                vote_policy: vec![(
                    "vote".to_string(),
                    VotePolicy {
                        weight_kind: WeightKind::TokenWeight,
                        quorum: 100,
                        threshold: WeightOrRatio::Ratio(51, 100),
                    },
                )],
            },
            RolePermission {
                name: "members".to_string(),
                kind: RoleKind::Group(vec![
                    "m1".to_string(),
                    "m2".to_string(),
                    "m3".to_string(),
                ]),
                permissions: vec![Permission { label: None, action: None }],
                vote_policy: vec![(
                    "vote".to_string(),
                    VotePolicy {
                        weight_kind: WeightKind::RoleWeight,
                        quorum: 2,
                        threshold: WeightOrRatio::Ratio(1, 2),
                    },
                )],
            },
        ],
        default_vote_policy: VotePolicy {
            weight_kind: WeightKind::RoleWeight,
            quorum: 0,
            threshold: WeightOrRatio::Ratio(1, 2),
        },
        proposal_bond: 0,
        proposal_period: 1_000_000,
        bounty_bond: 0,
        bounty_forgiveness_period: 1_000,
    }
}

#[test]
fn first_decisive_role_in_declared_order_wins() {
    // A token-weighted role (quorum 100, threshold 51% of supply 1000) and a
    // one-member-one-vote role (quorum 2, majority of 3).
    let total_supply: u128 = 1_000;

    // A staker holding 600 of 1000 crosses 51% alone: decided by the token
    // role.
    let mut contract = Contract::new(
        Config::test_config(),
        VersionedPolicy::Current(two_role_policy()),
    );
    let id = contract
        .add_proposal(signal_input("signal"), "t1".to_string(), 600, 0, 0)
        .unwrap();
    let outcome = contract
        .act_proposal(id, Action::VoteApprove, "t1".to_string(), 600, total_supply, 0)
        .unwrap();
    assert_eq!(outcome.status, ProposalStatus::Approved);

    // Two of three members reach quorum 2 and the majority share: decided by
    // the membership role, token holders never voting.
    let mut contract = Contract::new(
        Config::test_config(),
        VersionedPolicy::Current(two_role_policy()),
    );
    let id = contract
        .add_proposal(signal_input("signal"), "m1".to_string(), 0, 0, 0)
        .unwrap();
    let outcome = contract
        .act_proposal(id, Action::VoteApprove, "m1".to_string(), 0, total_supply, 0)
        .unwrap();
    assert_eq!(outcome.status, ProposalStatus::InProgress);
    let outcome = contract
        .act_proposal(id, Action::VoteApprove, "m2".to_string(), 0, total_supply, 0)
        .unwrap();
    assert_eq!(outcome.status, ProposalStatus::Approved);
}

#[test]
fn failed_transfer_leaves_bounty_state_alone() {
    let mut contract = council_contract(vec!["alice"]);
    // Give the DAO a bounty with one claim, as surrounding state.
    let bid = contract
        .add_proposal(
            ProposalInput {
                description: "add".to_string(),
                kind: ProposalKind::AddBounty {
                    bounty: sputnikdao2::bounties::Bounty {
                        description: "task".to_string(),
                        token: String::new(),
                        amount: 7,
                        times: 3,
                        max_deadline: 1_000,
                    },
                },
            },
            "alice".to_string(),
            0,
            BOND,
            0,
        )
        .unwrap();
    contract
        .act_proposal(bid, Action::VoteApprove, "alice".to_string(), 0, 0, 0)
        .unwrap();
    contract
        .bounty_claim(0, 500, "alice".to_string(), BOND, 0)
        .unwrap();

    let id = contract
        .add_proposal(
            ProposalInput {
                description: "pay out".to_string(),
                kind: ProposalKind::Transfer {
                    token_id: String::new(),
                    receiver_id: "bob".to_string(),
                    amount: 5,
                    msg: None,
                },
            },
            "alice".to_string(),
            0,
            BOND,
            0,
        )
        .unwrap();
    let outcome = contract
        .act_proposal(id, Action::VoteApprove, "alice".to_string(), 0, 0, 0)
        .unwrap();
    assert!(outcome.dispatched);
    assert_eq!(contract.get_proposal(id).status, ProposalStatus::InProgress);

    let times_before = contract.get_bounty(0).times;
    let claims_before = contract.get_bounty_claims(&"alice".to_string());

    let outcome = contract.on_proposal_callback(id, false).unwrap();
    assert_eq!(outcome.status, ProposalStatus::Failed);
    assert_eq!(contract.get_proposal(id).status, ProposalStatus::Failed);
    assert_eq!(contract.get_bounty(0).times, times_before);
    assert_eq!(
        contract.get_bounty_claims(&"alice".to_string()).len(),
        claims_before.len()
    );

    // Exactly one outcome notification is accepted per dispatch.
    let r = contract.on_proposal_callback(id, false);
    assert_eq!(r, Err(DaoError::DoubleOutcome));
}

#[test]
fn threshold_weights_are_exact() {
    assert_eq!(WeightOrRatio::Ratio(1, 2).to_weight(10), Ok(6));
    assert_eq!(WeightOrRatio::Ratio(1, 2).to_weight(3), Ok(2));
    assert_eq!(WeightOrRatio::Ratio(51, 100).to_weight(1_000), Ok(511));
    assert_eq!(WeightOrRatio::Weight(5).to_weight(10), Ok(5));
    assert_eq!(WeightOrRatio::Weight(20).to_weight(10), Ok(10));
    assert_eq!(WeightOrRatio::Ratio(1, 2).to_weight(0), Ok(0));
    assert_eq!(
        WeightOrRatio::Ratio(u64::MAX, 1).to_weight(u128::MAX),
        Err(DaoError::ArithmeticOverflow)
    );
}

#[test]
fn policy_labels_are_exact() {
    assert_eq!(
        ProposalKind::Transfer {
            token_id: String::new(),
            receiver_id: "x".to_string(),
            amount: 1,
            msg: None,
        }
        .to_policy_label(),
        "transfer"
    );
    assert_eq!(ProposalKind::Vote.to_policy_label(), "vote");
    assert_eq!(
        ProposalKind::ChangeConfig { config: Config::test_config() }.to_policy_label(),
        "config"
    );
    assert_eq!(
        ProposalKind::BountyDone { bounty_id: 0, receiver_id: "x".to_string() }
            .to_policy_label(),
        "bounty_done"
    );
}

#[test]
fn default_policy_shape() {
    let p = default_policy(vec!["alice".to_string()]);
    assert_eq!(p.roles.len(), 2);
    assert_eq!(p.roles[0].name, "all");
    assert_eq!(p.roles[1].name, "council");
    assert_eq!(p.proposal_bond, BOND);
    assert_eq!(p.bounty_bond, BOND);
}

#[test]
fn policy_edits_apply_on_approval() {
    let mut contract = council_contract(vec!["alice"]);
    let id = contract
        .add_proposal(
            ProposalInput {
                description: "add bob".to_string(),
                kind: ProposalKind::AddMemberToRole {
                    member_id: "bob".to_string(),
                    role: "council".to_string(),
                },
            },
            "alice".to_string(),
            0,
            BOND,
            0,
        )
        .unwrap();
    contract
        .act_proposal(id, Action::VoteApprove, "alice".to_string(), 0, 0, 0)
        .unwrap();
    match &contract.get_policy().roles[1].kind {
        RoleKind::Group(g) => assert_eq!(g, &vec!["alice".to_string(), "bob".to_string()]),
        _ => panic!("council must stay a group"),
    }
    // Now a proposal needs both council votes to pass.
    let id = contract
        .add_proposal(signal_input("signal"), "bob".to_string(), 0, BOND, 0)
        .unwrap();
    let outcome = contract
        .act_proposal(id, Action::VoteApprove, "bob".to_string(), 0, 0, 0)
        .unwrap();
    assert_eq!(outcome.status, ProposalStatus::InProgress);
}

#[test]
fn expired_proposal_finalizes_to_expired() {
    let mut contract = council_contract(vec!["alice", "bob"]);
    let id = contract
        .add_proposal(signal_input("signal"), "alice".to_string(), 0, BOND, 0)
        .unwrap();
    // Long after the proposal period (one week in nanoseconds), finalize
    // settles it as expired.
    let after_period = 604_800_000_000_001;
    let outcome = contract
        .act_proposal(id, Action::Finalize, "alice".to_string(), 0, 0, after_period)
        .unwrap();
    assert_eq!(outcome.status, ProposalStatus::Expired);
    assert_eq!(outcome.bond_refund, BOND);
    assert_eq!(contract.get_proposal(id).status, ProposalStatus::Expired);
}

#[test]
fn factory_id_comes_after_the_first_dot() {
    let id = get_default_factory_id("mydao.sputnik-dao.near");
    assert_eq!(id, "sputnik-dao.near");
}
