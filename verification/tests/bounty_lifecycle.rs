use sputnikdao2::bounties::Bounty;
use sputnikdao2::policy::VersionedPolicy;
use sputnikdao2::proposals::{ProposalInput, ProposalKind};
use sputnikdao2::types::{Action, Config, DaoError};
use sputnikdao2::Contract;

const BOND: u128 = 1_000_000_000_000_000_000_000_000;

fn council_contract() -> Contract {
    Contract::new(
        Config::test_config(),
        VersionedPolicy::Default(vec!["alice".to_string()]),
    )
}

fn add_bounty(contract: &mut Contract, times: u32) -> u64 {
    let id = contract
        .add_proposal(
            ProposalInput {
                description: "test".to_string(),
                kind: ProposalKind::AddBounty {
                    bounty: Bounty {
                        description: "test bounty".to_string(),
                        token: String::new(),
                        amount: 10_000_000_000_000_000_000_000_000,
                        times,
                        max_deadline: 1_000,
                    },
                },
            },
            "alice".to_string(),
            0,
            BOND,
            0,
        )
        .unwrap();
    assert_eq!(contract.get_last_bounty_id(), id);
    contract
        .act_proposal(id, Action::VoteApprove, "alice".to_string(), 0, 0, 0)
        .unwrap();
    id
}

#[test]
fn test_bounty_lifecycle() {
    let mut contract = council_contract();
    add_bounty(&mut contract, 2);

    assert_eq!(contract.get_last_bounty_id(), 1);
    assert_eq!(contract.get_bounty(0).times, 2);

    contract
        .bounty_claim(0, 500, "alice".to_string(), BOND, 0)
        .unwrap();
    assert_eq!(contract.get_bounty_claims(&"alice".to_string()).len(), 1);
    assert_eq!(contract.get_bounty_number_of_claims(0), 1);

    contract.bounty_giveup(0, "alice".to_string(), 0).unwrap();
    assert_eq!(contract.get_bounty_claims(&"alice".to_string()).len(), 0);
    assert_eq!(contract.get_bounty_number_of_claims(0), 0);

    contract
        .bounty_claim(0, 500, "alice".to_string(), BOND, 0)
        .unwrap();
    assert_eq!(contract.get_bounty_claims(&"alice".to_string()).len(), 1);
    assert_eq!(contract.get_bounty_number_of_claims(0), 1);

    contract
        .bounty_done(
            0,
            None,
            "Bounty is done".to_string(),
            "alice".to_string(),
            0,
            BOND,
            0,
        )
        .unwrap();
    assert!(contract.get_bounty_claims(&"alice".to_string())[0].completed);

    assert_eq!(contract.get_last_proposal_id(), 2);
    assert_eq!(contract.get_proposal(1).kind.to_policy_label(), "bounty_done");

    let outcome = contract
        .act_proposal(1, Action::VoteApprove, "alice".to_string(), 0, 0, 0)
        .unwrap();
    assert!(outcome.dispatched);
    contract.on_proposal_callback(1, true).unwrap();

    assert_eq!(contract.get_bounty_claims(&"alice".to_string()).len(), 0);
    assert_eq!(contract.get_bounty(0).times, 1);

    contract
        .bounty_claim(0, 500, "alice".to_string(), BOND, 0)
        .unwrap();
    contract
        .bounty_done(
            0,
            None,
            "Bounty is done 2".to_string(),
            "alice".to_string(),
            0,
            BOND,
            0,
        )
        .unwrap();
    contract
        .act_proposal(2, Action::VoteApprove, "alice".to_string(), 0, 0, 0)
        .unwrap();
    contract.on_proposal_callback(2, true).unwrap();

    assert_eq!(contract.get_bounty(0).times, 0);
}

#[test]
fn test_bounty_claim_not_allowed() {
    let mut contract = council_contract();
    let id = add_bounty(&mut contract, 1);
    contract
        .bounty_claim(id, 500, "alice".to_string(), BOND, 0)
        .unwrap();
    contract
        .bounty_done(
            id,
            None,
            "Bounty is done 2".to_string(),
            "alice".to_string(),
            0,
            BOND,
            0,
        )
        .unwrap();
    let r = contract.bounty_claim(id, 500, "alice".to_string(), BOND, 0);
    assert_eq!(r, Err(DaoError::AllClaimed));
}

#[test]
fn bounty_claim_deadline_above_max_is_refused() {
    let mut contract = council_contract();
    let id = add_bounty(&mut contract, 1);
    let r = contract.bounty_claim(id, 2_000, "alice".to_string(), BOND, 0);
    assert_eq!(r, Err(DaoError::DeadlineExceeded));
}

#[test]
fn bounty_claim_needs_the_bond() {
    let mut contract = council_contract();
    let id = add_bounty(&mut contract, 1);
    let r = contract.bounty_claim(id, 500, "alice".to_string(), BOND - 1, 0);
    assert_eq!(r, Err(DaoError::InsufficientBond));
}

#[test]
fn bounty_giveup_needs_a_claim() {
    let mut contract = council_contract();
    let id = add_bounty(&mut contract, 1);
    let r = contract.bounty_giveup(id, "alice".to_string(), 0);
    assert_eq!(r, Err(DaoError::NotClaimOwner));
}

#[test]
fn bounty_stale_claim_frees_its_slot() {
    let mut contract = council_contract();
    let id = add_bounty(&mut contract, 1);
    contract
        .bounty_claim(id, 500, "alice".to_string(), BOND, 0)
        .unwrap();
    // Within deadline + forgiveness the slot stays blocked for others.
    let r = contract.bounty_claim(id, 500, "bob".to_string(), BOND, 400);
    assert_eq!(r, Err(DaoError::AllClaimed));
    // Far past the deadline and the forgiveness period, the stale claim no
    // longer blocks and a new claim succeeds.
    let much_later = 500 + 86_400_000_000_000 + 1;
    contract
        .bounty_claim(id, 500, "bob".to_string(), BOND, much_later)
        .unwrap();
    assert_eq!(contract.get_bounty_claims(&"bob".to_string()).len(), 1);
}
