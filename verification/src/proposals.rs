use vstd::prelude::*;

use crate::bounties::{Bounty, BountyClaim, VersionedBounty};
use crate::policy::{Policy, RolePermission, UserInfo, VersionedPolicy, VotePolicy};
use crate::types::{
    assoc_get, has_key, keys_distinct, lemma_assoc_get_at, lemma_assoc_get_push,
    lemma_assoc_get_push_fresh, lemma_assoc_update, Action, Config, DaoError, OldAccountId,
};
use crate::upgrade::FactoryInfo;
use crate::{
    bounty_state_unchanged, bounty_times_non_increasing, gov_unchanged, lemma_same_bounties,
    lemma_same_proposals, spec_kind_valid, ActOutcome, Contract,
};

verus! {

/// Status of a proposal.
#[derive(Clone, Copy, PartialEq, Eq, Structural, Debug)]
pub enum ProposalStatus {
    InProgress,
    /// If quorum voted yes, this proposal is successfully approved.
    Approved,
    /// If quorum voted no, this proposal is rejected. Bond is returned.
    Rejected,
    /// If quorum voted to remove (e.g. spam), this proposal is rejected and
    /// the bond is not returned.
    Removed,
    /// Expired after period of time.
    Expired,
    /// If proposal was moved to another governance body.
    Moved,
    /// If the dispatched action failed. Allowed to be re-finalized, to either
    /// expire or be approved.
    Failed,
}

impl ProposalStatus {
    /// Statuses no vote or removal may touch any more.
    pub open spec fn spec_is_terminal(&self) -> bool {
        *self != ProposalStatus::InProgress
    }
}

/// One call of a `FunctionCall` proposal's batch.
pub struct ActionCall {
    pub method_name: String,
    pub args: Vec<u8>,
    pub deposit: u128,
    pub gas: u64,
}

/// Scoped edit of the policy's bond and period parameters; `None` keeps the
/// present value.
#[derive(Clone, Copy, PartialEq, Eq, Structural, Debug)]
pub struct PolicyParameters {
    pub proposal_bond: Option<u128>,
    pub proposal_period: Option<u64>,
    pub bounty_bond: Option<u128>,
    pub bounty_forgiveness_period: Option<u64>,
}

/// Kinds of proposals, each performing a different action once approved.
pub enum ProposalKind {
    /// Change the DAO config.
    ChangeConfig { config: Config },
    /// Change the full policy.
    ChangePolicy { policy: VersionedPolicy },
    /// Add member to the given role in the policy.
    AddMemberToRole { member_id: String, role: String },
    /// Remove member from the given role in the policy.
    RemoveMemberFromRole { member_id: String, role: String },
    /// Calls `receiver_id` with a list of method names in a single batch.
    FunctionCall { receiver_id: String, actions: Vec<ActionCall> },
    /// Upgrade this contract with given hash from the blob store.
    UpgradeSelf { hash: Vec<u8> },
    /// Upgrade another contract by calling a method with code from the blob
    /// store.
    UpgradeRemote { receiver_id: String, method_name: String, hash: Vec<u8> },
    /// Transfers the given amount of `token_id` from this DAO to
    /// `receiver_id`; an empty token id stands for the native asset.
    Transfer { token_id: OldAccountId, receiver_id: String, amount: u128, msg: Option<String> },
    /// Sets the staking contract. Can only be proposed while unset.
    SetStakingContract { staking_id: String },
    /// Add a new bounty.
    AddBounty { bounty: Bounty },
    /// Indicates that the given bounty is done by the given user.
    BountyDone { bounty_id: u64, receiver_id: String },
    /// Just a signaling vote, with no execution.
    Vote,
    /// Change information about the factory and auto-update.
    FactoryInfoUpdate { factory_info: FactoryInfo },
    /// Add a new role to the policy, or update it if it already exists.
    ChangePolicyAddOrUpdateRole { role: RolePermission },
    /// Remove a role from the policy.
    ChangePolicyRemoveRole { role: String },
    /// Update the default vote policy.
    ChangePolicyUpdateDefaultVotePolicy { vote_policy: VotePolicy },
    /// Update the bond and period parameters.
    ChangePolicyUpdateParameters { parameters: PolicyParameters },
}

impl ProposalKind {
    /// The policy label of this kind of proposal.
    pub open spec fn spec_label(&self) -> Seq<char> {
        match self {
            ProposalKind::ChangeConfig { .. } => "config"@,
            ProposalKind::ChangePolicy { .. } => "policy"@,
            ProposalKind::AddMemberToRole { .. } => "add_member_to_role"@,
            ProposalKind::RemoveMemberFromRole { .. } => "remove_member_from_role"@,
            ProposalKind::FunctionCall { .. } => "call"@,
            ProposalKind::UpgradeSelf { .. } => "upgrade_self"@,
            ProposalKind::UpgradeRemote { .. } => "upgrade_remote"@,
            ProposalKind::Transfer { .. } => "transfer"@,
            ProposalKind::SetStakingContract { .. } => "set_vote_token"@,
            ProposalKind::AddBounty { .. } => "add_bounty"@,
            ProposalKind::BountyDone { .. } => "bounty_done"@,
            ProposalKind::Vote => "vote"@,
            ProposalKind::FactoryInfoUpdate { .. } => "factory_info_update"@,
            ProposalKind::ChangePolicyAddOrUpdateRole { .. } => "policy_add_or_update_role"@,
            ProposalKind::ChangePolicyRemoveRole { .. } => "policy_remove_role"@,
            ProposalKind::ChangePolicyUpdateDefaultVotePolicy { .. } => {
                "policy_update_default_vote_policy"@
            },
            ProposalKind::ChangePolicyUpdateParameters { .. } => "policy_update_parameters"@,
        }
    }

    /// Returns the label of the policy for the given type of proposal.
    pub fn to_policy_label(&self) -> (r: &str)
        ensures
            r@ == self.spec_label(),
    {
        match self {
            ProposalKind::ChangeConfig { .. } => "config",
            ProposalKind::ChangePolicy { .. } => "policy",
            ProposalKind::AddMemberToRole { .. } => "add_member_to_role",
            ProposalKind::RemoveMemberFromRole { .. } => "remove_member_from_role",
            ProposalKind::FunctionCall { .. } => "call",
            ProposalKind::UpgradeSelf { .. } => "upgrade_self",
            ProposalKind::UpgradeRemote { .. } => "upgrade_remote",
            ProposalKind::Transfer { .. } => "transfer",
            ProposalKind::SetStakingContract { .. } => "set_vote_token",
            ProposalKind::AddBounty { .. } => "add_bounty",
            ProposalKind::BountyDone { .. } => "bounty_done",
            ProposalKind::Vote => "vote",
            ProposalKind::FactoryInfoUpdate { .. } => "factory_info_update",
            ProposalKind::ChangePolicyAddOrUpdateRole { .. } => "policy_add_or_update_role",
            ProposalKind::ChangePolicyRemoveRole { .. } => "policy_remove_role",
            ProposalKind::ChangePolicyUpdateDefaultVotePolicy { .. } => {
                "policy_update_default_vote_policy"
            },
            ProposalKind::ChangePolicyUpdateParameters { .. } => "policy_update_parameters",
        }
    }

    /// The label as an owned string.
    pub fn policy_label_string(&self) -> (r: String)
        ensures
            r@ == self.spec_label(),
    {
        self.to_policy_label().to_owned()
    }

    /// Kinds whose effect is one asynchronous outbound call; every other
    /// kind applies locally and synchronously.
    pub open spec fn spec_is_async(&self) -> bool {
        match self {
            ProposalKind::Transfer { .. } => true,
            ProposalKind::UpgradeSelf { .. } => true,
            ProposalKind::UpgradeRemote { .. } => true,
            ProposalKind::FunctionCall { .. } => true,
            ProposalKind::BountyDone { .. } => true,
            _ => false,
        }
    }

    #[verifier::when_used_as_spec(spec_is_async)]
    pub fn is_async(&self) -> (r: bool)
        ensures
            r == self.spec_is_async(),
    {
        match self {
            ProposalKind::Transfer { .. } => true,
            ProposalKind::UpgradeSelf { .. } => true,
            ProposalKind::UpgradeRemote { .. } => true,
            ProposalKind::FunctionCall { .. } => true,
            ProposalKind::BountyDone { .. } => true,
            _ => false,
        }
    }
}

/// Votes recorded in the proposal.
#[derive(Clone, Copy, PartialEq, Eq, Structural, Debug)]
pub enum Vote {
    Approve,
    Reject,
    Remove,
}

impl Vote {
    /// The vote cast by the given action; only the three vote actions map to
    /// a vote.
    pub fn from_action(action: &Action) -> (v: Vote)
        requires
            action.spec_is_vote(),
        ensures
            v == Vote::spec_of_action(*action),
    {
        match action {
            Action::VoteApprove => Vote::Approve,
            Action::VoteReject => Vote::Reject,
            _ => Vote::Remove,
        }
    }

    pub open spec fn spec_of_action(action: Action) -> Vote
        recommends
            action.spec_is_vote(),
    {
        match action {
            Action::VoteApprove => Vote::Approve,
            Action::VoteReject => Vote::Reject,
            _ => Vote::Remove,
        }
    }
}

/// Weight cast for each decision on one role: approve / reject / remove.
#[derive(Clone, Copy, PartialEq, Eq, Structural, Debug)]
pub struct VoteCounts {
    pub approve: u128,
    pub reject: u128,
    pub remove: u128,
}

impl VoteCounts {
    pub open spec fn spec_zero() -> VoteCounts {
        VoteCounts { approve: 0u128, reject: 0u128, remove: 0u128 }
    }

    pub fn zero() -> (r: VoteCounts)
        ensures
            r == VoteCounts::spec_zero(),
    {
        VoteCounts { approve: 0, reject: 0, remove: 0 }
    }

    /// The weight cast for the given decision.
    pub open spec fn spec_get(self, vote: Vote) -> u128 {
        match vote {
            Vote::Approve => self.approve,
            Vote::Reject => self.reject,
            Vote::Remove => self.remove,
        }
    }

    pub fn get(&self, vote: Vote) -> (r: u128)
        ensures
            r == self.spec_get(vote),
    {
        match vote {
            Vote::Approve => self.approve,
            Vote::Reject => self.reject,
            Vote::Remove => self.remove,
        }
    }

    /// The counts with `amount` more weight on the given decision.
    pub open spec fn spec_added(self, vote: Vote, amount: u128) -> VoteCounts
        recommends
            self.spec_get(vote) + amount <= u128::MAX,
    {
        match vote {
            Vote::Approve => VoteCounts { approve: (self.approve + amount) as u128, ..self },
            Vote::Reject => VoteCounts { reject: (self.reject + amount) as u128, ..self },
            Vote::Remove => VoteCounts { remove: (self.remove + amount) as u128, ..self },
        }
    }

    /// Checked addition of weight; `None` reports a wrap.
    pub fn checked_added(&self, vote: Vote, amount: u128) -> (r: Option<VoteCounts>)
        ensures
            r is None <==> self.spec_get(vote) + amount > u128::MAX,
            r is Some ==> r == Option::Some(self.spec_added(vote, amount)),
    {
        let current = self.get(vote);
        if current > u128::MAX - amount {
            None
        } else {
            Some(
                match vote {
                    Vote::Approve => VoteCounts { approve: current + amount, ..*self },
                    Vote::Reject => VoteCounts { reject: current + amount, ..*self },
                    Vote::Remove => VoteCounts { remove: current + amount, ..*self },
                },
            )
        }
    }
}

/// A proposal sent to this DAO.
pub struct Proposal {
    /// Original proposer.
    pub proposer: String,
    /// Description of this proposal.
    pub description: String,
    /// Kind of proposal with relevant information.
    pub kind: ProposalKind,
    /// Current status of the proposal.
    pub status: ProposalStatus,
    /// Count of votes per role: approve / reject / remove weight sums.
    pub vote_counts: Vec<(String, VoteCounts)>,
    /// Who voted, and how; each account appears at most once.
    pub votes: Vec<(String, Vote)>,
    /// Submission time, for the voting period.
    pub submission_time: u64,
}

/// Input for creating a proposal.
pub struct ProposalInput {
    /// Description of this proposal.
    pub description: String,
    /// Kind of proposal with relevant information.
    pub kind: ProposalKind,
}

impl Proposal {
    /// The vote-once invariant and distinct per-role tallies.
    pub open spec fn wf(self) -> bool {
        &&& keys_distinct(self.votes@)
        &&& keys_distinct(self.vote_counts@)
    }

    /// The tally recorded for role `name`, zero when the role never received
    /// a vote on this proposal.
    pub open spec fn spec_counts_for(self, name: Seq<char>) -> VoteCounts {
        if has_key(self.vote_counts@, name) {
            assoc_get(self.vote_counts@, name)
        } else {
            VoteCounts::spec_zero()
        }
    }

    /// The weight one vote adds to role `name`: the voter's token weight for
    /// token-weighted roles, one otherwise.
    pub open spec fn spec_vote_amount(
        policy: Policy,
        name: Seq<char>,
        label: Seq<char>,
        user_weight: u128,
    ) -> u128 {
        if policy.spec_is_token_weighted(name, label) {
            user_weight
        } else {
            1u128
        }
    }

    /// A fresh record for `input`, submitted by `proposer` at
    /// `submission_time`: in progress, with no votes cast.
    pub fn from_input(input: ProposalInput, proposer: String, submission_time: u64) -> (p: Proposal)
        ensures
            p.proposer == proposer,
            p.description == input.description,
            p.kind == input.kind,
            p.status == ProposalStatus::InProgress,
            p.vote_counts@.len() == 0,
            p.votes@.len() == 0,
            p.submission_time == submission_time,
            p.wf(),
    {
        Proposal {
            proposer,
            description: input.description,
            kind: input.kind,
            status: ProposalStatus::InProgress,
            vote_counts: Vec::new(),
            votes: Vec::new(),
            submission_time,
        }
    }

    /// Records the vote of `account_id`, adding its weight to the tally of
    /// every role in `roles`. Fails without any change when the account
    /// already voted, or when a tally would wrap.
    pub fn update_votes(
        &mut self,
        account_id: &String,
        roles: &Vec<String>,
        vote: Vote,
        policy: &Policy,
        user_weight: u128,
    ) -> (r: Result<(), DaoError>)
        requires
            old(self).wf(),
            policy.wf(),
            forall|k1: int, k2: int| 0 <= k1 < k2 < roles@.len() ==> roles@[k1]@ != roles@[k2]@,
        ensures
            final(self).wf(),
            r == Result::<(), DaoError>::Err(DaoError::AlreadyVoted) <==> has_key(
                old(self).votes@,
                account_id@,
            ),
            r is Err ==> *final(self) == *old(self),
            r matches Result::Err(e) ==> e == DaoError::AlreadyVoted || e
                == DaoError::ArithmeticOverflow,
            r == Result::<(), DaoError>::Err(DaoError::ArithmeticOverflow) <==> !has_key(
                old(self).votes@,
                account_id@,
            ) && exists|k: int|
                0 <= k < roles@.len() && old(self).spec_counts_for(
                    (#[trigger] roles@[k])@,
                ).spec_get(vote) + Proposal::spec_vote_amount(
                    *policy,
                    roles@[k]@,
                    old(self).kind.spec_label(),
                    user_weight,
                ) > u128::MAX,
            r is Ok ==> {
                &&& final(self).votes@ == old(self).votes@.push(
                    (final(self).votes@.last().0, vote),
                )
                &&& final(self).votes@.last().0@ == account_id@
                &&& forall|k: int|
                    0 <= k < roles@.len() ==> final(self).spec_counts_for((#[trigger] roles@[k])@)
                        == old(self).spec_counts_for(roles@[k]@).spec_added(
                        vote,
                        Proposal::spec_vote_amount(
                            *policy,
                            roles@[k]@,
                            old(self).kind.spec_label(),
                            user_weight,
                        ),
                    )
                &&& forall|n: Seq<char>|
                    !seq_has_name(roles@, n) ==> final(self).spec_counts_for(n) == old(
                        self,
                    ).spec_counts_for(n)
                &&& final(self).proposer == old(self).proposer
                &&& final(self).description == old(self).description
                &&& final(self).kind == old(self).kind
                &&& final(self).status == old(self).status
                &&& final(self).submission_time == old(self).submission_time
            },
    {
        let mut i: usize = 0;
        while i < self.votes.len()
            invariant
                *self == *old(self),
                old(self).wf(),
                0 <= i <= self.votes@.len(),
                forall|j: int| 0 <= j < i ==> (#[trigger] self.votes@[j]).0@ != account_id@,
            decreases self.votes@.len() - i,
        {
            if self.votes[i].0 == *account_id {
                proof {
                    assert(self.votes@[i as int].0@ == account_id@);
                    assert(has_key(self.votes@, account_id@));
                }
                return Err(DaoError::AlreadyVoted);
            }
            i += 1;
        }
        proof {
            assert(!has_key(self.votes@, account_id@));
        }
        let label = self.kind.policy_label_string();
        // First pass: make sure no tally would wrap, so that a failure
        // leaves the proposal untouched.
        let mut k: usize = 0;
        while k < roles.len()
            invariant
                *self == *old(self),
                old(self).wf(),
                !has_key(old(self).votes@, account_id@),
                label@ == self.kind.spec_label(),
                policy.wf(),
                0 <= k <= roles@.len(),
                forall|j: int|
                    0 <= j < k ==> self.spec_counts_for((#[trigger] roles@[j])@).spec_get(vote)
                        + Proposal::spec_vote_amount(*policy, roles@[j]@, label@, user_weight)
                        <= u128::MAX,
            decreases roles@.len() - k,
        {
            let amount = if policy.is_token_weighted(&roles[k], &label) {
                user_weight
            } else {
                1
            };
            let current = self.counts_for(&roles[k]);
            if current.checked_added(vote, amount).is_none() {
                proof {
                    assert(old(self).spec_counts_for(roles@[k as int]@).spec_get(vote)
                        + Proposal::spec_vote_amount(
                        *policy,
                        roles@[k as int]@,
                        old(self).kind.spec_label(),
                        user_weight,
                    ) > u128::MAX);
                }
                return Err(DaoError::ArithmeticOverflow);
            }
            k += 1;
        }
        // Second pass: apply the per-role tally updates.
        let ghost orig = *self;
        let mut k: usize = 0;
        while k < roles.len()
            invariant
                self.wf(),
                orig.wf(),
                label@ == orig.kind.spec_label(),
                policy.wf(),
                0 <= k <= roles@.len(),
                forall|k1: int, k2: int| 0 <= k1 < k2 < roles@.len() ==> roles@[k1]@ != roles@[k2]@,
                forall|j: int|
                    0 <= j < roles@.len() ==> orig.spec_counts_for(
                        (#[trigger] roles@[j])@,
                    ).spec_get(vote) + Proposal::spec_vote_amount(
                        *policy,
                        roles@[j]@,
                        label@,
                        user_weight,
                    ) <= u128::MAX,
                forall|j: int|
                    0 <= j < k ==> self.spec_counts_for((#[trigger] roles@[j])@)
                        == orig.spec_counts_for(roles@[j]@).spec_added(
                        vote,
                        Proposal::spec_vote_amount(*policy, roles@[j]@, label@, user_weight),
                    ),
                forall|n: Seq<char>|
                    !seq_has_name(roles@.subrange(0, k as int), n) ==> self.spec_counts_for(n)
                        == orig.spec_counts_for(n),
                self.votes == orig.votes,
                self.proposer == orig.proposer,
                self.description == orig.description,
                self.kind == orig.kind,
                self.status == orig.status,
                self.submission_time == orig.submission_time,
            decreases roles@.len() - k,
        {
            let ghost pre = *self;
            let amount = if policy.is_token_weighted(&roles[k], &label) {
                user_weight
            } else {
                1
            };
            proof {
                assert(!seq_has_name(roles@.subrange(0, k as int), roles@[k as int]@));
                assert(self.spec_counts_for(roles@[k as int]@) == orig.spec_counts_for(
                    roles@[k as int]@,
                ));
            }
            self.apply_tally(&roles[k], vote, amount);
            proof {
                assert forall|j: int|
                    0 <= j < k + 1 implies self.spec_counts_for((#[trigger] roles@[j])@)
                    == orig.spec_counts_for(roles@[j]@).spec_added(
                    vote,
                    Proposal::spec_vote_amount(*policy, roles@[j]@, label@, user_weight),
                ) by {
                    if j < k {
                        assert(roles@[j]@ != roles@[k as int]@);
                        assert(self.spec_counts_for(roles@[j]@) == pre.spec_counts_for(
                            roles@[j]@,
                        ));
                    }
                }
                assert forall|n: Seq<char>|
                    !seq_has_name(roles@.subrange(0, k as int + 1), n) implies self.spec_counts_for(
                    n,
                ) == orig.spec_counts_for(n) by {
                    assert(roles@.subrange(0, k as int + 1)[k as int] == roles@[k as int]);
                    assert(n != roles@[k as int]@);
                    assert(forall|j: int|
                        0 <= j < k ==> roles@.subrange(0, k as int + 1)[j] == roles@.subrange(
                            0,
                            k as int,
                        )[j]);
                    assert(!seq_has_name(roles@.subrange(0, k as int), n));
                }
            }
            k += 1;
        }
        proof {
            assert(roles@.subrange(0, roles@.len() as int) =~= roles@);
        }
        self.votes.push((account_id.clone(), vote));
        proof {
            assert(final(self).votes@.last().0@ == account_id@);
            assert forall|i1: int, i2: int|
                0 <= i1 < i2 < self.votes@.len() implies (#[trigger] self.votes@[i1]).0@
                != (#[trigger] self.votes@[i2]).0@ by {
                if i2 == self.votes@.len() - 1 {
                    assert(orig.votes@[i1].0@ != account_id@);
                }
            }
        }
        Ok(())
    }

    /// Whether `account_id` has already cast a vote on this proposal.
    pub fn has_voted(&self, account_id: &String) -> (r: bool)
        ensures
            r == has_key(self.votes@, account_id@),
    {
        let mut i: usize = 0;
        while i < self.votes.len()
            invariant
                0 <= i <= self.votes@.len(),
                forall|j: int| 0 <= j < i ==> (#[trigger] self.votes@[j]).0@ != account_id@,
            decreases self.votes@.len() - i,
        {
            if self.votes[i].0 == *account_id {
                proof {
                    assert(self.votes@[i as int].0@ == account_id@);
                }
                return true;
            }
            i += 1;
        }
        false
    }

    /// Whether adding one vote of the given weight for every role in
    /// `roles` would wrap some tally.
    pub fn tally_add_overflows(
        &self,
        roles: &Vec<String>,
        vote: Vote,
        policy: &Policy,
        user_weight: u128,
    ) -> (r: bool)
        requires
            policy.wf(),
        ensures
            r == exists|k: int|
                0 <= k < roles@.len() && self.spec_counts_for((#[trigger] roles@[k])@).spec_get(
                    vote,
                ) + Proposal::spec_vote_amount(
                    *policy,
                    roles@[k]@,
                    self.kind.spec_label(),
                    user_weight,
                ) > u128::MAX,
    {
        let label = self.kind.policy_label_string();
        let mut k: usize = 0;
        while k < roles.len()
            invariant
                policy.wf(),
                label@ == self.kind.spec_label(),
                0 <= k <= roles@.len(),
                forall|j: int|
                    0 <= j < k ==> self.spec_counts_for((#[trigger] roles@[j])@).spec_get(vote)
                        + Proposal::spec_vote_amount(
                        *policy,
                        roles@[j]@,
                        self.kind.spec_label(),
                        user_weight,
                    ) <= u128::MAX,
            decreases roles@.len() - k,
        {
            let amount = if policy.is_token_weighted(&roles[k], &label) {
                user_weight
            } else {
                1
            };
            if self.counts_for(&roles[k]).checked_added(vote, amount).is_none() {
                proof {
                    assert(self.spec_counts_for(roles@[k as int]@).spec_get(vote)
                        + Proposal::spec_vote_amount(
                        *policy,
                        roles@[k as int]@,
                        self.kind.spec_label(),
                        user_weight,
                    ) > u128::MAX);
                }
                return true;
            }
            k += 1;
        }
        false
    }

    /// The recorded tally for role `name` (zero when absent), as a value.
    pub fn counts_for(&self, name: &String) -> (r: VoteCounts)
        ensures
            r == self.spec_counts_for(name@),
    {
        let mut i: usize = 0;
        while i < self.vote_counts.len()
            invariant
                0 <= i <= self.vote_counts@.len(),
                forall|j: int| 0 <= j < i ==> (#[trigger] self.vote_counts@[j]).0@ != name@,
            decreases self.vote_counts@.len() - i,
        {
            if self.vote_counts[i].0 == *name {
                proof {
                    lemma_assoc_get_at(self.vote_counts@, i as int);
                }
                return self.vote_counts[i].1;
            }
            i += 1;
        }
        VoteCounts::zero()
    }

    /// Adds `amount` to the `vote` decision of role `name`'s tally, creating
    /// the tally when absent.
    fn apply_tally(&mut self, name: &String, vote: Vote, amount: u128)
        requires
            old(self).wf(),
            old(self).spec_counts_for(name@).spec_get(vote) + amount <= u128::MAX,
        ensures
            final(self).wf(),
            final(self).spec_counts_for(name@) == old(self).spec_counts_for(name@).spec_added(
                vote,
                amount,
            ),
            forall|n: Seq<char>|
                n != name@ ==> final(self).spec_counts_for(n) == old(self).spec_counts_for(n),
            final(self).votes == old(self).votes,
            final(self).proposer == old(self).proposer,
            final(self).description == old(self).description,
            final(self).kind == old(self).kind,
            final(self).status == old(self).status,
            final(self).submission_time == old(self).submission_time,
    {
        let mut i: usize = 0;
        while i < self.vote_counts.len()
            invariant
                0 <= i <= self.vote_counts@.len(),
                forall|j: int| 0 <= j < i ==> (#[trigger] self.vote_counts@[j]).0@ != name@,
                self.wf(),
                *self == *old(self),
                old(self).spec_counts_for(name@).spec_get(vote) + amount <= u128::MAX,
            decreases self.vote_counts@.len() - i,
        {
            if self.vote_counts[i].0 == *name {
                proof {
                    lemma_assoc_get_at(self.vote_counts@, i as int);
                }
                let owned_name = self.vote_counts[i].0.clone();
                let updated = match self.vote_counts[i].1.checked_added(vote, amount) {
                    Option::Some(c) => c,
                    Option::None => VoteCounts::zero(),
                };
                self.vote_counts[i] = (owned_name, updated);
                proof {
                    lemma_assoc_update(
                        old(self).vote_counts@,
                        i as int,
                        (final(self).vote_counts@[i as int].0, updated),
                    );
                    assert(self.vote_counts@ =~= old(self).vote_counts@.update(
                        i as int,
                        (self.vote_counts@[i as int].0, updated),
                    ));
                    assert forall|i1: int, i2: int|
                        0 <= i1 < i2 < self.vote_counts@.len() implies (
                        #[trigger] self.vote_counts@[i1]).0@ != (
                        #[trigger] self.vote_counts@[i2]).0@ by {
                        assert(old(self).vote_counts@[i1].0@ != old(self).vote_counts@[i2].0@);
                    }
                }
                return ;
            }
            i += 1;
        }
        let zero = VoteCounts::zero();
        let added = match zero.checked_added(vote, amount) {
            Option::Some(c) => c,
            Option::None => VoteCounts::zero(),
        };
        proof {
            assert(!has_key(self.vote_counts@, name@));
        }
        self.vote_counts.push((name.clone(), added));
        proof {
            let p = final(self).vote_counts@.last();
            lemma_assoc_get_push_fresh(old(self).vote_counts@, p);
            assert(final(self).vote_counts@ =~= old(self).vote_counts@.push(p));
            assert forall|n: Seq<char>|
                n != name@ implies final(self).spec_counts_for(n) == old(self).spec_counts_for(
                n,
            ) by {
                if has_key(old(self).vote_counts@, n) {
                    lemma_assoc_get_push(old(self).vote_counts@, p, n);
                } else {
                    assert forall|j: int|
                        0 <= j < final(self).vote_counts@.len() implies (
                        #[trigger] final(self).vote_counts@[j]).0@ != n by {
                        if j < old(self).vote_counts@.len() {
                            assert(old(self).vote_counts@[j].0@ != n);
                        }
                    }
                }
            }
            assert forall|i1: int, i2: int|
                0 <= i1 < i2 < self.vote_counts@.len() implies (#[trigger] self.vote_counts@[i1]).0@
                != (#[trigger] self.vote_counts@[i2]).0@ by {
                if i2 == self.vote_counts@.len() - 1 {
                    assert(old(self).vote_counts@[i1].0@ != name@);
                }
            }
        }
    }
}

impl ProposalKind {
    /// Decides whether this payload can be installed without breaking the
    /// policy's well-formedness.
    fn is_valid_payload(&self) -> (r: bool)
        ensures
            r == spec_kind_valid(*self),
    {
        match self {
            ProposalKind::ChangePolicy { policy } => match policy {
                VersionedPolicy::Current(p) => p.is_valid(),
                VersionedPolicy::Default(_) => true,
            },
            ProposalKind::ChangePolicyAddOrUpdateRole { role } => role.is_valid(),
            ProposalKind::ChangePolicyUpdateDefaultVotePolicy { vote_policy } => {
                vote_policy.is_valid()
            },
            _ => true,
        }
    }
}

impl Contract {
    /// Submits a proposal: the caller attaches a bond covering the policy's
    /// proposal bond and must be permitted to add proposals of this kind's
    /// label under some role. A payload that could corrupt the policy, or a
    /// staking assignment while one is already set, is refused outright.
    pub fn add_proposal(
        &mut self,
        input: ProposalInput,
        proposer: String,
        user_weight: u128,
        attached: u128,
        now: u64,
    ) -> (r: Result<u64, DaoError>)
        requires
            old(self).wf(),
            old(self).proposals@.len() < u64::MAX,
        ensures
            final(self).wf(),
            r is Err ==> *final(self) == *old(self),
            r == Result::<u64, DaoError>::Err(DaoError::InsufficientBond) <==> attached < old(
                self,
            ).policy.proposal_bond,
            r == Result::<u64, DaoError>::Err(DaoError::InvalidTransition) <==> attached >= old(
                self,
            ).policy.proposal_bond && (!spec_kind_valid(input.kind) || (input.kind matches
            ProposalKind::SetStakingContract { .. } && old(self).staking_id is Some)),
            r == Result::<u64, DaoError>::Err(DaoError::NoPermission) <==> attached >= old(
                self,
            ).policy.proposal_bond && spec_kind_valid(input.kind) && !(input.kind matches
            ProposalKind::SetStakingContract { .. } && old(self).staking_id is Some) && !old(
                self,
            ).policy.spec_any_role_allows(
                UserInfo { account_id: proposer, amount: user_weight },
                input.kind.spec_label(),
                Action::AddProposal,
            ),
            r == Result::<u64, DaoError>::Err(DaoError::ArithmeticOverflow) <==> attached >= old(
                self,
            ).policy.proposal_bond && spec_kind_valid(input.kind) && !(input.kind matches
            ProposalKind::SetStakingContract { .. } && old(self).staking_id is Some) && old(
                self,
            ).policy.spec_any_role_allows(
                UserInfo { account_id: proposer, amount: user_weight },
                input.kind.spec_label(),
                Action::AddProposal,
            ) && old(self).locked_amount + attached > u128::MAX,
            r matches Result::Err(e) ==> (e == DaoError::InsufficientBond || e
                == DaoError::InvalidTransition || e == DaoError::NoPermission || e
                == DaoError::ArithmeticOverflow),
            r matches Result::Ok(pid) ==> {
                let p = final(self).spec_proposal(pid as int);
                &&& pid == old(self).proposals@.len()
                &&& final(self).proposals@.len() == old(self).proposals@.len() + 1
                &&& forall|j: int|
                    0 <= j < old(self).proposals@.len() ==> final(self).proposals@[j] == old(
                        self,
                    ).proposals@[j]
                &&& p.proposer == proposer
                &&& p.description == input.description
                &&& p.kind == input.kind
                &&& p.status == ProposalStatus::InProgress
                &&& p.votes@.len() == 0
                &&& p.vote_counts@.len() == 0
                &&& p.submission_time == now
                &&& final(self).locked_amount == old(self).locked_amount + attached
                &&& final(self).dispatched@ == old(self).dispatched@
                &&& gov_unchanged(*old(self), *final(self))
                &&& bounty_state_unchanged(*old(self), *final(self))
            },
            bounty_times_non_increasing(*old(self), *final(self)),
    {
        let bond = self.policy.proposal_bond;
        if attached < bond {
            return Err(DaoError::InsufficientBond);
        }
        let staking_blocked = match &input.kind {
            ProposalKind::SetStakingContract { .. } => self.staking_id.is_some(),
            _ => false,
        };
        if !input.kind.is_valid_payload() || staking_blocked {
            return Err(DaoError::InvalidTransition);
        }
        let label = input.kind.policy_label_string();
        let user = UserInfo { account_id: proposer.clone(), amount: user_weight };
        let roles = self.policy.can_execute_action(&user, &label, &Action::AddProposal);
        if roles.len() == 0 {
            proof {
                assert(user == (UserInfo { account_id: proposer, amount: user_weight }));
            }
            return Err(DaoError::NoPermission);
        }
        if attached > u128::MAX - self.locked_amount {
            return Err(DaoError::ArithmeticOverflow);
        }
        self.locked_amount = self.locked_amount + attached;
        let id = self.proposals.len() as u64;
        let p = Proposal::from_input(input, proposer, now);
        self.proposals.push(VersionedProposal::Default(p));
        proof {
            lemma_same_bounties(*old(self), *final(self));
            assert forall|j: int|
                0 <= j < final(self).proposals@.len() implies (
            #[trigger] final(self).spec_proposal(j)).wf() && spec_kind_valid(
                final(self).spec_proposal(j).kind,
            ) by {
                if j < old(self).proposals@.len() {
                    assert(final(self).spec_proposal(j) == old(self).spec_proposal(j));
                    assert(old(self).spec_proposal(j).wf());
                }
            }
            assert forall|i: int|
                0 <= i < final(self).dispatched@.len() implies {
                let did = (#[trigger] final(self).dispatched@[i]) as int;
                &&& did < final(self).proposals@.len()
                &&& final(self).spec_proposal(did).status == ProposalStatus::InProgress
                &&& final(self).spec_proposal(did).kind.spec_is_async()
            } by {
                let did = old(self).dispatched@[i] as int;
                assert(did < old(self).proposals@.len());
                assert(final(self).spec_proposal(did) == old(self).spec_proposal(did));
            }
        }
        Ok(id)
    }
}

/// What approval of a proposal with a synchronous payload does to the
/// stores: exactly the named edit, everything else kept.
pub open spec fn spec_local_effect(pre: Contract, post: Contract, kind: ProposalKind) -> bool {
    match kind {
        ProposalKind::ChangeConfig { config } => {
            &&& post.config.equiv(config)
            &&& post.policy == pre.policy
            &&& post.staking_id == pre.staking_id
            &&& post.factory_info == pre.factory_info
            &&& bounty_state_unchanged(pre, post)
        },
        ProposalKind::ChangePolicy { policy } => {
            &&& match policy {
                VersionedPolicy::Default(c) => crate::policy::default_policy_ens(c, post.policy),
                VersionedPolicy::Current(p) => crate::policy::policy_equiv(post.policy, p),
            }
            &&& post.config == pre.config
            &&& post.staking_id == pre.staking_id
            &&& post.factory_info == pre.factory_info
            &&& bounty_state_unchanged(pre, post)
        },
        ProposalKind::AddMemberToRole { member_id, role } => {
            &&& crate::policy::spec_add_member_effect(pre.policy, post.policy, role@, member_id)
            &&& post.config == pre.config
            &&& post.staking_id == pre.staking_id
            &&& post.factory_info == pre.factory_info
            &&& bounty_state_unchanged(pre, post)
        },
        ProposalKind::RemoveMemberFromRole { member_id, role } => {
            &&& crate::policy::spec_remove_member_effect(pre.policy, post.policy, role@, member_id@)
            &&& post.config == pre.config
            &&& post.staking_id == pre.staking_id
            &&& post.factory_info == pre.factory_info
            &&& bounty_state_unchanged(pre, post)
        },
        ProposalKind::SetStakingContract { staking_id } => {
            &&& post.staking_id == Option::Some(staking_id)
            &&& post.config == pre.config
            &&& post.policy == pre.policy
            &&& post.factory_info == pre.factory_info
            &&& bounty_state_unchanged(pre, post)
        },
        ProposalKind::AddBounty { bounty } => {
            &&& post.bounties@.len() == pre.bounties@.len() + 1
            &&& forall|b: int|
                0 <= b < pre.bounties@.len() ==> post.bounties@[b] == pre.bounties@[b]
            &&& post.spec_bounty(pre.bounties@.len() as int) == bounty
            &&& post.bounty_claimers@ == pre.bounty_claimers@
            &&& post.config == pre.config
            &&& post.policy == pre.policy
            &&& post.staking_id == pre.staking_id
            &&& post.factory_info == pre.factory_info
        },
        ProposalKind::Vote => {
            &&& post.config == pre.config
            &&& post.policy == pre.policy
            &&& post.staking_id == pre.staking_id
            &&& post.factory_info == pre.factory_info
            &&& bounty_state_unchanged(pre, post)
        },
        ProposalKind::FactoryInfoUpdate { factory_info } => {
            &&& post.factory_info == Option::Some(factory_info)
            &&& post.config == pre.config
            &&& post.policy == pre.policy
            &&& post.staking_id == pre.staking_id
            &&& bounty_state_unchanged(pre, post)
        },
        ProposalKind::ChangePolicyAddOrUpdateRole { role } => {
            &&& exists|r2: RolePermission|
                #[trigger] crate::policy::role_equiv(r2, role)
                    && crate::policy::spec_add_or_update_role_effect(pre.policy, post.policy, r2)
            &&& post.config == pre.config
            &&& post.staking_id == pre.staking_id
            &&& post.factory_info == pre.factory_info
            &&& bounty_state_unchanged(pre, post)
        },
        ProposalKind::ChangePolicyRemoveRole { role } => {
            &&& crate::policy::spec_remove_role_effect(pre.policy, post.policy, role@)
            &&& post.config == pre.config
            &&& post.staking_id == pre.staking_id
            &&& post.factory_info == pre.factory_info
            &&& bounty_state_unchanged(pre, post)
        },
        ProposalKind::ChangePolicyUpdateDefaultVotePolicy { vote_policy } => {
            &&& post.policy.roles == pre.policy.roles
            &&& post.policy.default_vote_policy == vote_policy
            &&& post.policy.proposal_bond == pre.policy.proposal_bond
            &&& post.policy.proposal_period == pre.policy.proposal_period
            &&& post.policy.bounty_bond == pre.policy.bounty_bond
            &&& post.policy.bounty_forgiveness_period == pre.policy.bounty_forgiveness_period
            &&& post.config == pre.config
            &&& post.staking_id == pre.staking_id
            &&& post.factory_info == pre.factory_info
            &&& bounty_state_unchanged(pre, post)
        },
        ProposalKind::ChangePolicyUpdateParameters { parameters } => {
            &&& crate::policy::spec_update_parameters_effect(pre.policy, post.policy, parameters)
            &&& post.config == pre.config
            &&& post.staking_id == pre.staking_id
            &&& post.factory_info == pre.factory_info
            &&& bounty_state_unchanged(pre, post)
        },
        _ => false,
    }
}

/// What settling a decision does to proposal `id` and the stores: the
/// status moves (an approved asynchronous kind instead enters the
/// dispatched set and stays in progress), the bond comes back for
/// approved, rejected and expired proposals (capped by what is held) and
/// is withheld for removed ones, and an approved synchronous payload is
/// applied.
pub open spec fn spec_transition(
    pre: Contract,
    post: Contract,
    id: int,
    st: ProposalStatus,
    oc: ActOutcome,
) -> bool {
    let po = pre.spec_proposal(id);
    let pf = post.spec_proposal(id);
    let bond = pre.policy.proposal_bond;
    let refund: u128 = if bond <= pre.locked_amount {
        bond
    } else {
        pre.locked_amount
    };
    &&& post.proposals@.len() == pre.proposals@.len()
    &&& forall|j: int|
        0 <= j < pre.proposals@.len() && j != id ==> post.proposals@[j] == pre.proposals@[j]
    &&& match st {
        ProposalStatus::Approved => if po.kind.spec_is_async() {
            &&& pf.status == ProposalStatus::InProgress
            &&& post.dispatched@ == pre.dispatched@.push(id as u64)
            &&& post.locked_amount == pre.locked_amount
            &&& gov_unchanged(pre, post)
            &&& bounty_state_unchanged(pre, post)
            &&& oc == (ActOutcome {
                status: ProposalStatus::InProgress,
                dispatched: true,
                bond_refund: 0u128,
            })
        } else {
            &&& pf.status == ProposalStatus::Approved
            &&& post.dispatched@ == pre.dispatched@
            &&& post.locked_amount == pre.locked_amount - refund
            &&& spec_local_effect(pre, post, po.kind)
            &&& oc == (ActOutcome {
                status: ProposalStatus::Approved,
                dispatched: false,
                bond_refund: refund,
            })
        },
        ProposalStatus::Rejected => {
            &&& pf.status == ProposalStatus::Rejected
            &&& post.dispatched@ == pre.dispatched@
            &&& post.locked_amount == pre.locked_amount - refund
            &&& gov_unchanged(pre, post)
            &&& bounty_state_unchanged(pre, post)
            &&& oc == (ActOutcome {
                status: ProposalStatus::Rejected,
                dispatched: false,
                bond_refund: refund,
            })
        },
        ProposalStatus::Removed => {
            &&& pf.status == ProposalStatus::Removed
            &&& post.dispatched@ == pre.dispatched@
            &&& post.locked_amount == pre.locked_amount - refund
            &&& gov_unchanged(pre, post)
            &&& bounty_state_unchanged(pre, post)
            &&& oc == (ActOutcome {
                status: ProposalStatus::Removed,
                dispatched: false,
                bond_refund: 0u128,
            })
        },
        ProposalStatus::Expired => {
            &&& pf.status == ProposalStatus::Expired
            &&& post.dispatched@ == pre.dispatched@
            &&& post.locked_amount == pre.locked_amount - refund
            &&& gov_unchanged(pre, post)
            &&& bounty_state_unchanged(pre, post)
            &&& oc == (ActOutcome {
                status: ProposalStatus::Expired,
                dispatched: false,
                bond_refund: refund,
            })
        },
        _ => false,
    }
}

/// Owned copy of a synchronous payload, taken out of the stored proposal
/// so the stores can be edited without holding a borrow into them.
enum LocalEffect {
    Cfg(Config),
    Pol(VersionedPolicy),
    AddMem(String, String),
    RemMem(String, String),
    AddRole(RolePermission),
    RemRole(String),
    DefVote(VotePolicy),
    Params(PolicyParameters),
    AddB(Bounty),
    Staking(String),
    Fact(FactoryInfo),
    Nothing,
}

impl Contract {
    /// Position of `id` in the dispatched set.
    fn find_dispatched(&self, id: u64) -> (r: Option<usize>)
        ensures
            match r {
                Option::Some(i) => (i as int) < self.dispatched@.len() && self.dispatched@[i as int]
                    == id,
                Option::None => !self.spec_is_dispatched(id),
            },
    {
        let mut i: usize = 0;
        while i < self.dispatched.len()
            invariant
                0 <= i <= self.dispatched@.len(),
                forall|j: int| 0 <= j < i ==> self.dispatched@[j] != id,
            decreases self.dispatched@.len() - i,
        {
            if self.dispatched[i] == id {
                return Some(i);
            }
            i += 1;
        }
        None
    }

    /// Rewrites the status of proposal `id`, touching nothing else.
    fn set_proposal_status(&mut self, id: u64, st: ProposalStatus)
        requires
            (id as int) < old(self).proposals@.len(),
        ensures
            final(self).proposals@.len() == old(self).proposals@.len(),
            forall|j: int|
                0 <= j < old(self).proposals@.len() && j != id as int ==> final(self).proposals@[j] == old(self).proposals@[j],
            final(self).spec_proposal(id as int) == (Proposal {
                status: st,
                ..old(self).spec_proposal(id as int)
            }),
            final(self).config == old(self).config,
            final(self).policy == old(self).policy,
            final(self).locked_amount == old(self).locked_amount,
            final(self).staking_id == old(self).staking_id,
            final(self).factory_info == old(self).factory_info,
            final(self).bounties@ == old(self).bounties@,
            final(self).bounty_claimers@ == old(self).bounty_claimers@,
            final(self).dispatched@ == old(self).dispatched@,
    {
        let n = self.proposals.len();
        proof {
            assert((id as int) < n as int);
            assert(id as usize as int == id as int);
        }
        let mut scratch = VersionedProposal::Default(
            Proposal::from_input(
                ProposalInput { description: String::new(), kind: ProposalKind::Vote },
                String::new(),
                0,
            ),
        );
        self.proposals.set_and_swap(id as usize, &mut scratch);
        let mut p = match scratch {
            VersionedProposal::Default(p) => p,
        };
        p.status = st;
        self.proposals.set(id as usize, VersionedProposal::Default(p));
    }

    /// Applies the synchronous payload of proposal `id` to the stores.
    fn apply_local_effect(&mut self, id: u64)
        requires
            old(self).wf(),
            (id as int) < old(self).proposals@.len(),
            !old(self).spec_proposal(id as int).kind.spec_is_async(),
        ensures
            final(self).policy.wf(),
            spec_local_effect(*old(self), *final(self), old(self).spec_proposal(id as int).kind),
            final(self).proposals@ == old(self).proposals@,
            final(self).dispatched@ == old(self).dispatched@,
            final(self).locked_amount == old(self).locked_amount,
            final(self).bounties@.len() >= old(self).bounties@.len(),
            forall|b: int|
                0 <= b < old(self).bounties@.len() ==> final(self).bounties@[b] == old(
                    self,
                ).bounties@[b],
            final(self).bounty_claimers@ == old(self).bounty_claimers@,
            final(self).wf(),
    {
        let ghost kind0 = old(self).spec_proposal(id as int).kind;
        let effect = {
            let p = self.get_proposal(id);
            match &p.kind {
                ProposalKind::ChangeConfig { config } => LocalEffect::Cfg(config.duplicate()),
                ProposalKind::ChangePolicy { policy } => LocalEffect::Pol(policy.duplicate()),
                ProposalKind::AddMemberToRole { member_id, role } => LocalEffect::AddMem(
                    member_id.clone(),
                    role.clone(),
                ),
                ProposalKind::RemoveMemberFromRole { member_id, role } => LocalEffect::RemMem(
                    member_id.clone(),
                    role.clone(),
                ),
                ProposalKind::ChangePolicyAddOrUpdateRole { role } => LocalEffect::AddRole(
                    role.duplicate(),
                ),
                ProposalKind::ChangePolicyRemoveRole { role } => LocalEffect::RemRole(
                    role.clone(),
                ),
                ProposalKind::ChangePolicyUpdateDefaultVotePolicy { vote_policy } => {
                    LocalEffect::DefVote(*vote_policy)
                },
                ProposalKind::ChangePolicyUpdateParameters { parameters } => LocalEffect::Params(
                    *parameters,
                ),
                ProposalKind::AddBounty { bounty } => LocalEffect::AddB(bounty.duplicate()),
                ProposalKind::SetStakingContract { staking_id } => LocalEffect::Staking(
                    staking_id.clone(),
                ),
                ProposalKind::FactoryInfoUpdate { factory_info } => LocalEffect::Fact(
                    factory_info.duplicate(),
                ),
                _ => LocalEffect::Nothing,
            }
        };
        match effect {
            LocalEffect::Cfg(c) => {
                self.config = c;
            },
            LocalEffect::Pol(vp) => {
                proof {
                    match &vp {
                        VersionedPolicy::Current(p2) => {
                            let orig = kind0->ChangePolicy_policy->Current_0;
                            crate::policy::lemma_policy_equiv_wf(orig, *p2);
                        },
                        VersionedPolicy::Default(_) => {},
                    }
                }
                let pol = vp.upgrade();
                self.policy = pol;
            },
            LocalEffect::AddMem(m, r) => {
                self.policy.add_member_to_role(&r, &m);
            },
            LocalEffect::RemMem(m, r) => {
                self.policy.remove_member_from_role(&r, &m);
            },
            LocalEffect::AddRole(r2) => {
                proof {
                    let orig = kind0->ChangePolicyAddOrUpdateRole_role;
                    assert(crate::policy::role_equiv(r2, orig));
                    assert(orig.wf());
                    assert(r2.vote_policy@ == orig.vote_policy@);
                    assert(r2.wf());
                }
                self.policy.add_or_update_role(r2);
            },
            LocalEffect::RemRole(r) => {
                self.policy.remove_role(&r);
            },
            LocalEffect::DefVote(v) => {
                self.policy.update_default_vote_policy(v);
            },
            LocalEffect::Params(p) => {
                self.policy.update_parameters(&p);
            },
            LocalEffect::AddB(b) => {
                self.bounties.push(VersionedBounty::Default(b));
            },
            LocalEffect::Staking(s) => {
                self.staking_id = Some(s);
            },
            LocalEffect::Fact(f) => {
                self.factory_info = Some(f);
            },
            LocalEffect::Nothing => {},
        }
        proof {
            lemma_same_proposals(*old(self), *final(self));
            assert forall|i: int|
                0 <= i < final(self).dispatched@.len() implies {
                let did = (#[trigger] final(self).dispatched@[i]) as int;
                &&& did < final(self).proposals@.len()
                &&& final(self).spec_proposal(did).status == ProposalStatus::InProgress
                &&& final(self).spec_proposal(did).kind.spec_is_async()
            } by {
                let did = old(self).dispatched@[i] as int;
                assert(did < old(self).proposals@.len());
                assert(final(self).spec_proposal(did) == old(self).spec_proposal(did));
            }
        }
    }

    /// Settles the decision `st` for proposal `id`: see `spec_transition`.
    fn finalize_decision(&mut self, id: u64, st: ProposalStatus) -> (oc: ActOutcome)
        requires
            old(self).wf(),
            (id as int) < old(self).proposals@.len(),
            !old(self).spec_is_dispatched(id),
            st == ProposalStatus::Approved || st == ProposalStatus::Rejected || st
                == ProposalStatus::Removed || st == ProposalStatus::Expired,
        ensures
            final(self).wf(),
            spec_transition(*old(self), *final(self), id as int, st, oc),
            final(self).spec_proposal(id as int).votes == old(self).spec_proposal(id as int).votes,
            final(self).spec_proposal(id as int).vote_counts == old(self).spec_proposal(
                id as int,
            ).vote_counts,
            final(self).spec_proposal(id as int).proposer == old(self).spec_proposal(
                id as int,
            ).proposer,
            final(self).spec_proposal(id as int).description == old(self).spec_proposal(
                id as int,
            ).description,
            final(self).spec_proposal(id as int).kind == old(self).spec_proposal(id as int).kind,
            final(self).spec_proposal(id as int).submission_time == old(self).spec_proposal(
                id as int,
            ).submission_time,
            bounty_times_non_increasing(*old(self), *final(self)),
    {
        let kind_async = self.get_proposal(id).kind.is_async();
        if st == ProposalStatus::Approved && kind_async {
            self.set_proposal_status(id, ProposalStatus::InProgress);
            self.dispatched.push(id);
            proof {
                lemma_same_bounties(*old(self), *final(self));
                assert forall|i: int|
                    0 <= i < final(self).dispatched@.len() implies {
                    let did = (#[trigger] final(self).dispatched@[i]) as int;
                    &&& did < final(self).proposals@.len()
                    &&& final(self).spec_proposal(did).status == ProposalStatus::InProgress
                    &&& final(self).spec_proposal(did).kind.spec_is_async()
                } by {
                    if i < old(self).dispatched@.len() {
                        let did = old(self).dispatched@[i] as int;
                        assert(did < old(self).proposals@.len());
                        if did != id as int {
                            assert(final(self).spec_proposal(did) == old(self).spec_proposal(did));
                        }
                    } else {
                        assert(final(self).dispatched@[i] == id);
                    }
                }
                assert forall|i1: int, i2: int|
                    0 <= i1 < i2 < final(self).dispatched@.len() implies final(self).dispatched@[i1] != final(self).dispatched@[i2] by {
                    if i2 == final(self).dispatched@.len() - 1 {
                        assert(!old(self).spec_is_dispatched(id));
                        assert(old(self).dispatched@[i1] != id);
                    }
                }
                assert forall|j: int|
                    0 <= j < final(self).proposals@.len() implies (
                #[trigger] final(self).spec_proposal(j)).wf() && crate::spec_kind_valid(
                    final(self).spec_proposal(j).kind,
                ) by {
                    if j != id as int {
                        assert(final(self).spec_proposal(j) == old(self).spec_proposal(j));
                    }
                    assert(old(self).spec_proposal(j).wf());
                }
            }
            return ActOutcome {
                status: ProposalStatus::InProgress,
                dispatched: true,
                bond_refund: 0,
            };
        }
        let bond = self.policy.proposal_bond;
        let refund: u128 = if bond <= self.locked_amount {
            bond
        } else {
            self.locked_amount
        };
        self.locked_amount = self.locked_amount - refund;
        proof {
            crate::lemma_wf_same_stores(*old(self), *self);
        }
        let ghost mid = *self;
        if st == ProposalStatus::Approved {
            self.apply_local_effect(id);
        }
        let ghost mid2 = *self;
        self.set_proposal_status(id, st);
        proof {
            assert(final(self).spec_proposal(id as int).wf());
            assert(crate::spec_kind_valid(final(self).spec_proposal(id as int).kind)) by {
                assert(mid2.spec_proposal(id as int).wf() && crate::spec_kind_valid(
                    mid2.spec_proposal(id as int).kind,
                ));
            }
            assert forall|i: int|
                0 <= i < final(self).dispatched@.len() implies (
            #[trigger] final(self).dispatched@[i]) != id by {
                if final(self).dispatched@[i] == id {
                    assert(old(self).spec_is_dispatched(id));
                }
            }
            crate::lemma_wf_after_proposal_rewrite(mid2, *final(self), id as int);
        }
        ActOutcome {
            status: st,
            dispatched: false,
            bond_refund: if st == ProposalStatus::Removed {
                0
            } else {
                refund
            },
        }
    }
}

/// What a successful act call does, by action. A vote is recorded once and
/// added, with the proper weight, to the tally of every role of the caller's
/// permitted for the label; then the tallies are evaluated and a decisive or
/// expired outcome is settled as `spec_transition` says. Removal and
/// finalization settle without touching the tallies.
pub open spec fn spec_act_ok(
    pre: Contract,
    post: Contract,
    id: int,
    action: Action,
    caller: String,
    user_weight: u128,
    total_supply: u128,
    now: u64,
    oc: ActOutcome,
) -> bool {
    let po = pre.spec_proposal(id);
    let pf = post.spec_proposal(id);
    let user = UserInfo { account_id: caller, amount: user_weight };
    let label = po.kind.spec_label();
    &&& pre.policy.spec_any_role_allows(user, label, action)
    &&& !pre.spec_is_dispatched(id as u64)
    &&& pf.proposer == po.proposer
    &&& pf.description == po.description
    &&& pf.kind == po.kind
    &&& pf.submission_time == po.submission_time
    &&& match action {
        Action::RemoveProposal => {
            &&& po.status == ProposalStatus::InProgress
            &&& pf.votes == po.votes
            &&& pf.vote_counts == po.vote_counts
            &&& spec_transition(pre, post, id, ProposalStatus::Removed, oc)
        },
        Action::Finalize => {
            &&& po.status == ProposalStatus::InProgress || po.status == ProposalStatus::Failed
            &&& pf.votes == po.votes
            &&& pf.vote_counts == po.vote_counts
            &&& match pre.policy.spec_proposal_status(po, now, total_supply) {
                Result::Ok(st) => (st == ProposalStatus::Approved || st
                    == ProposalStatus::Expired) && spec_transition(pre, post, id, st, oc),
                Result::Err(_) => false,
            }
        },
        Action::VoteApprove | Action::VoteReject | Action::VoteRemove => {
            let vote = Vote::spec_of_action(action);
            &&& po.status == ProposalStatus::InProgress
            &&& !has_key(po.votes@, caller@)
            &&& pf.votes@.len() == po.votes@.len() + 1
            &&& pf.votes@.subrange(0, po.votes@.len() as int) == po.votes@
            &&& pf.votes@.last().0@ == caller@
            &&& pf.votes@.last().1 == vote
            &&& forall|k: int|
                0 <= k < pre.policy.roles@.len() && Policy::spec_user_role_allows(
                    #[trigger] pre.policy.roles@[k],
                    user,
                    label,
                    action,
                ) ==> pf.spec_counts_for(pre.policy.roles@[k].name@) == po.spec_counts_for(
                    pre.policy.roles@[k].name@,
                ).spec_added(
                    vote,
                    Proposal::spec_vote_amount(
                        pre.policy,
                        pre.policy.roles@[k].name@,
                        label,
                        user_weight,
                    ),
                )
            &&& forall|n: Seq<char>|
                !pre.policy.spec_named_role_allows(n, user, label, action)
                    ==> pf.spec_counts_for(n) == po.spec_counts_for(n)
            &&& match pre.policy.spec_proposal_status(
                Proposal { status: ProposalStatus::InProgress, ..pf },
                now,
                total_supply,
            ) {
                Result::Ok(st) => if st == ProposalStatus::InProgress {
                    &&& pf.status == ProposalStatus::InProgress
                    &&& post.dispatched@ == pre.dispatched@
                    &&& post.locked_amount == pre.locked_amount
                    &&& gov_unchanged(pre, post)
                    &&& bounty_state_unchanged(pre, post)
                    &&& post.proposals@.len() == pre.proposals@.len()
                    &&& forall|j: int|
                        0 <= j < pre.proposals@.len() && j != id ==> post.proposals@[j]
                            == pre.proposals@[j]
                    &&& oc == (ActOutcome {
                        status: ProposalStatus::InProgress,
                        dispatched: false,
                        bond_refund: 0u128,
                    })
                } else {
                    spec_transition(pre, post, id, st, oc)
                },
                Result::Err(_) => false,
            }
        },
        _ => false,
    }
}

impl Contract {
    /// Acts on proposal `id`: removes it, casts a vote on it, or finalizes
    /// it. The caller must hold a role permitted for the proposal's label
    /// and action. Votes and removal demand an in-progress, undispatched
    /// proposal; finalization also accepts a failed one and settles it only
    /// into approval or expiry. A failing call leaves the state untouched.
    #[verifier::rlimit(100)]
    pub fn act_proposal(
        &mut self,
        id: u64,
        action: Action,
        caller: String,
        user_weight: u128,
        total_supply: u128,
        now: u64,
    ) -> (r: Result<ActOutcome, DaoError>)
        requires
            old(self).wf(),
            (id as int) < old(self).proposals@.len(),
        ensures
            final(self).wf(),
            r is Err ==> *final(self) == *old(self),
            action == Action::AddProposal ==> r == Result::<ActOutcome, DaoError>::Err(
                DaoError::InvalidTransition,
            ),
            action == Action::Finalize && old(self).spec_proposal(id as int).status.spec_is_terminal()
                && old(self).spec_proposal(id as int).status != ProposalStatus::Failed ==> r is Err,
            (action.spec_is_vote() || action == Action::RemoveProposal) && old(self).spec_proposal(
                id as int,
            ).status != ProposalStatus::InProgress ==> r is Err,
            ({
                let po = old(self).spec_proposal(id as int);
                let user = UserInfo { account_id: caller, amount: user_weight };
                let label = po.kind.spec_label();
                let allowed = old(self).policy.spec_any_role_allows(user, label, action);
                let disp = old(self).spec_is_dispatched(id);
                let status_admits = (match action {
                    Action::Finalize => po.status == ProposalStatus::InProgress || po.status
                        == ProposalStatus::Failed,
                    Action::AddProposal => false,
                    _ => po.status == ProposalStatus::InProgress,
                });
                let vote_v = Vote::spec_of_action(action);
                let add_overflows = exists|k: int|
                    0 <= k < old(self).policy.roles@.len() && Policy::spec_user_role_allows(
                        #[trigger] old(self).policy.roles@[k],
                        user,
                        label,
                        action,
                    ) && po.spec_counts_for(old(self).policy.roles@[k].name@).spec_get(vote_v)
                        + Proposal::spec_vote_amount(
                        old(self).policy,
                        old(self).policy.roles@[k].name@,
                        label,
                        user_weight,
                    ) > u128::MAX;
                let tally_overflows = old(self).policy.spec_tally_overflows(po, total_supply);
                &&& (r == Result::<ActOutcome, DaoError>::Err(DaoError::NoPermission) <==> action
                    != Action::AddProposal && !allowed)
                &&& (r == Result::<ActOutcome, DaoError>::Err(DaoError::AlreadyVoted)
                    <==> action.spec_is_vote() && allowed && !disp && po.status
                    == ProposalStatus::InProgress && has_key(po.votes@, caller@))
                &&& (r == Result::<ActOutcome, DaoError>::Err(DaoError::ArithmeticOverflow)
                    <==> allowed && !disp && status_admits && (match action {
                    Action::VoteApprove | Action::VoteReject | Action::VoteRemove => !has_key(
                        po.votes@,
                        caller@,
                    ) && (add_overflows || tally_overflows),
                    Action::Finalize => tally_overflows,
                    _ => false,
                }))
                &&& (r == Result::<ActOutcome, DaoError>::Err(DaoError::InvalidTransition)
                    <==> (action == Action::AddProposal || (allowed && (disp || !status_admits || (
                action == Action::Finalize && !tally_overflows && (match old(
                    self,
                ).policy.spec_proposal_status(po, now, total_supply) {
                    Result::Ok(st) => st != ProposalStatus::Approved && st
                        != ProposalStatus::Expired,
                    Result::Err(_) => false,
                }))))))
                &&& (r matches Result::Err(e) ==> (e == DaoError::InvalidTransition || e
                    == DaoError::NoPermission || e == DaoError::AlreadyVoted || e
                    == DaoError::ArithmeticOverflow))
            }),
            r matches Result::Ok(oc) ==> spec_act_ok(
                *old(self),
                *final(self),
                id as int,
                action,
                caller,
                user_weight,
                total_supply,
                now,
                oc,
            ),
            bounty_times_non_increasing(*old(self), *final(self)),
    {
        if action == Action::AddProposal {
            return Err(DaoError::InvalidTransition);
        }
        let label = self.get_proposal(id).kind.policy_label_string();
        let user = UserInfo { account_id: caller.clone(), amount: user_weight };
        let roles = self.policy.can_execute_action(&user, &label, &action);
        if roles.len() == 0 {
            proof {
                assert(user == (UserInfo { account_id: caller, amount: user_weight }));
            }
            return Err(DaoError::NoPermission);
        }
        proof {
            assert(user == (UserInfo { account_id: caller, amount: user_weight }));
            assert(old(self).policy.spec_any_role_allows(
                UserInfo { account_id: caller, amount: user_weight },
                old(self).spec_proposal(id as int).kind.spec_label(),
                action,
            ));
        }
        match self.find_dispatched(id) {
            Option::Some(di) => {
                proof {
                    assert(old(self).dispatched@[di as int] == id);
                    assert(old(self).spec_is_dispatched(id));
                }
                return Err(DaoError::InvalidTransition);
            },
            Option::None => {},
        }
        let status0 = self.get_proposal(id).status;
        match action {
            Action::AddProposal => Err(DaoError::InvalidTransition),
            Action::RemoveProposal => {
                if !(status0 == ProposalStatus::InProgress) {
                    return Err(DaoError::InvalidTransition);
                }
                let oc = self.finalize_decision(id, ProposalStatus::Removed);
                Ok(oc)
            },
            Action::Finalize => {
                if !(status0 == ProposalStatus::InProgress || status0 == ProposalStatus::Failed) {
                    return Err(DaoError::InvalidTransition);
                }
                let ev = {
                    let p = self.get_proposal(id);
                    self.policy.proposal_status(p, now, total_supply)
                };
                let st = match ev {
                    Result::Ok(st) => st,
                    Result::Err(e) => {
                        return Err(e);
                    },
                };
                if st == ProposalStatus::Approved || st == ProposalStatus::Expired {
                    let oc = self.finalize_decision(id, st);
                    Ok(oc)
                } else {
                    Err(DaoError::InvalidTransition)
                }
            },
            Action::VoteApprove | Action::VoteReject | Action::VoteRemove => {
                if !(status0 == ProposalStatus::InProgress) {
                    return Err(DaoError::InvalidTransition);
                }
                {
                    let p = self.get_proposal(id);
                    if p.has_voted(&caller) {
                        return Err(DaoError::AlreadyVoted);
                    }
                    if p.tally_add_overflows(
                        &roles,
                        Vote::from_action(&action),
                        &self.policy,
                        user_weight,
                    ) {
                        proof {
                            let po = old(self).spec_proposal(id as int);
                            let user_g = UserInfo { account_id: caller, amount: user_weight };
                            let label_g = po.kind.spec_label();
                            let v = Vote::spec_of_action(action);
                            let kk = choose|kk: int|
                                0 <= kk < roles@.len() && po.spec_counts_for(
                                    (#[trigger] roles@[kk])@,
                                ).spec_get(v) + Proposal::spec_vote_amount(
                                    old(self).policy,
                                    roles@[kk]@,
                                    label_g,
                                    user_weight,
                                ) > u128::MAX;
                            assert(old(self).policy.spec_named_role_allows(
                                roles@[kk]@,
                                user_g,
                                label_g,
                                action,
                            ));
                            let i2 = choose|i2: int|
                                0 <= i2 < old(self).policy.roles@.len() && (
                                #[trigger] old(self).policy.roles@[i2]).name@ == roles@[kk]@
                                    && Policy::spec_user_role_allows(
                                    old(self).policy.roles@[i2],
                                    user_g,
                                    label_g,
                                    action,
                                );
                            assert(po.spec_counts_for(old(self).policy.roles@[i2].name@).spec_get(
                                v,
                            ) + Proposal::spec_vote_amount(
                                old(self).policy,
                                old(self).policy.roles@[i2].name@,
                                label_g,
                                user_weight,
                            ) > u128::MAX);
                        }
                        return Err(DaoError::ArithmeticOverflow);
                    }
                    if self.policy.proposal_status(p, now, total_supply).is_err() {
                        return Err(DaoError::ArithmeticOverflow);
                    }
                }
                proof {
                    // No permitted role's tally can wrap: transfer the
                    // roles-list check to the per-role form.
                    let po = old(self).spec_proposal(id as int);
                    let user_g = UserInfo { account_id: caller, amount: user_weight };
                    let label_g = po.kind.spec_label();
                    let v = Vote::spec_of_action(action);
                    assert(!(exists|k: int|
                        0 <= k < old(self).policy.roles@.len() && Policy::spec_user_role_allows(
                            #[trigger] old(self).policy.roles@[k],
                            user_g,
                            label_g,
                            action,
                        ) && po.spec_counts_for(old(self).policy.roles@[k].name@).spec_get(v)
                            + Proposal::spec_vote_amount(
                            old(self).policy,
                            old(self).policy.roles@[k].name@,
                            label_g,
                            user_weight,
                        ) > u128::MAX)) by {
                        if exists|k: int|
                            0 <= k < old(self).policy.roles@.len()
                                && Policy::spec_user_role_allows(
                                #[trigger] old(self).policy.roles@[k],
                                user_g,
                                label_g,
                                action,
                            ) && po.spec_counts_for(old(self).policy.roles@[k].name@).spec_get(v)
                                + Proposal::spec_vote_amount(
                                old(self).policy,
                                old(self).policy.roles@[k].name@,
                                label_g,
                                user_weight,
                            ) > u128::MAX {
                            let k = choose|k: int|
                                0 <= k < old(self).policy.roles@.len()
                                    && Policy::spec_user_role_allows(
                                    #[trigger] old(self).policy.roles@[k],
                                    user_g,
                                    label_g,
                                    action,
                                ) && po.spec_counts_for(
                                    old(self).policy.roles@[k].name@,
                                ).spec_get(v) + Proposal::spec_vote_amount(
                                    old(self).policy,
                                    old(self).policy.roles@[k].name@,
                                    label_g,
                                    user_weight,
                                ) > u128::MAX;
                            assert(crate::policy::seq_contains_string(
                                roles@,
                                old(self).policy.roles@[k].name@,
                            ));
                            let kk = choose|kk: int|
                                0 <= kk < roles@.len() && (#[trigger] roles@[kk])@ == old(
                                    self,
                                ).policy.roles@[k].name@;
                            assert(!(po.spec_counts_for(roles@[kk]@).spec_get(v)
                                + Proposal::spec_vote_amount(
                                old(self).policy,
                                roles@[kk]@,
                                label_g,
                                user_weight,
                            ) > u128::MAX));
                            assert(false);
                        }
                    }
                }
                let n = self.proposals.len();
                proof {
                    assert((id as int) < n as int);
                    assert(id as usize as int == id as int);
                }
                let mut scratch = VersionedProposal::Default(
                    Proposal::from_input(
                        ProposalInput { description: String::new(), kind: ProposalKind::Vote },
                        String::new(),
                        0,
                    ),
                );
                self.proposals.set_and_swap(id as usize, &mut scratch);
                let mut p = match scratch {
                    VersionedProposal::Default(p) => p,
                };
                let vote = Vote::from_action(&action);
                let vote_res = p.update_votes(&caller, &roles, vote, &self.policy, user_weight);
                match vote_res {
                    Result::Err(e) => {
                        proof {
                            assert(false);
                        }
                        self.proposals.set(id as usize, VersionedProposal::Default(p));
                        return Err(e);
                    },
                    Result::Ok(()) => {},
                }
                let ev = self.policy.proposal_status(&p, now, total_supply);
                proof {
                    let pre_p = old(self).spec_proposal(id as int);
                    assert(p.kind == pre_p.kind);
                    if self.policy.spec_tally_overflows(p, total_supply) {
                        let i = choose|i: int|
                            0 <= i < self.policy.roles@.len() && (
                            #[trigger] self.policy.roles@[i]).spec_vote_eligible(
                                p.kind.spec_label(),
                            ) && self.policy.spec_vote_policy_for(
                                self.policy.roles@[i],
                                p.kind.spec_label(),
                            ).threshold.spec_to_weight_overflows(
                                Policy::spec_total_weight(
                                    self.policy.roles@[i],
                                    self.policy.spec_vote_policy_for(
                                        self.policy.roles@[i],
                                        p.kind.spec_label(),
                                    ),
                                    total_supply,
                                ),
                            );
                        assert(self.policy.roles@[i].spec_vote_eligible(pre_p.kind.spec_label()));
                        assert(self.policy.spec_tally_overflows(pre_p, total_supply));
                    }
                }
                self.proposals.set(id as usize, VersionedProposal::Default(p));
                let ghost voted = *self;
                proof {
                    assert(voted.spec_proposal(id as int) == p);
                    assert forall|j: int|
                        0 <= j < voted.proposals@.len() implies (
                    #[trigger] voted.spec_proposal(j)).wf() && spec_kind_valid(
                        voted.spec_proposal(j).kind,
                    ) by {
                        if j != id as int {
                            assert(voted.spec_proposal(j) == old(self).spec_proposal(j));
                        }
                        assert(old(self).spec_proposal(j).wf());
                    }
                    assert forall|i: int|
                        0 <= i < voted.dispatched@.len() implies {
                        let did = (#[trigger] voted.dispatched@[i]) as int;
                        &&& did < voted.proposals@.len()
                        &&& voted.spec_proposal(did).status == ProposalStatus::InProgress
                        &&& voted.spec_proposal(did).kind.spec_is_async()
                    } by {
                        let did = old(self).dispatched@[i] as int;
                        assert(old(self).spec_is_dispatched(old(self).dispatched@[i]));
                        assert(did != id as int);
                        assert(voted.spec_proposal(did) == old(self).spec_proposal(did));
                    }
                    assert(voted.wf());
                    lemma_same_bounties(*old(self), voted);
                }
                let st = match ev {
                    Result::Ok(st) => st,
                    Result::Err(_) => {
                        return Err(DaoError::ArithmeticOverflow);
                    },
                };
                proof {
                    let pre_votes = old(self).spec_proposal(id as int).votes@;
                    assert(voted.spec_proposal(id as int).votes@.subrange(
                        0,
                        pre_votes.len() as int,
                    ) =~= pre_votes);
                }
                let oc = if st == ProposalStatus::InProgress {
                    ActOutcome {
                        status: ProposalStatus::InProgress,
                        dispatched: false,
                        bond_refund: 0,
                    }
                } else {
                    proof {
                        old(self).policy.lemma_tally_from_range(
                            voted.spec_proposal(id as int),
                            total_supply,
                            0,
                        );
                        assert(st == ProposalStatus::Approved || st == ProposalStatus::Rejected
                            || st == ProposalStatus::Removed || st == ProposalStatus::Expired);
                    }
                    self.finalize_decision(id, st)
                };
                proof {
                    let user_g = UserInfo { account_id: caller, amount: user_weight };
                    let po = old(self).spec_proposal(id as int);
                    let label_g = po.kind.spec_label();
                    let pf = final(self).spec_proposal(id as int);
                    let vp0 = voted.spec_proposal(id as int);
                    assert(pf.vote_counts == vp0.vote_counts);
                    assert(pf.votes == vp0.votes);
                    assert forall|n: Seq<char>| #[trigger] pf.spec_counts_for(n)
                        == vp0.spec_counts_for(n) by {
                        assert(pf.vote_counts@ == vp0.vote_counts@);
                    }
                    assert forall|k: int|
                        0 <= k < old(self).policy.roles@.len() && Policy::spec_user_role_allows(
                            #[trigger] old(self).policy.roles@[k],
                            user_g,
                            label_g,
                            action,
                        ) implies pf.spec_counts_for(old(self).policy.roles@[k].name@)
                        == po.spec_counts_for(old(self).policy.roles@[k].name@).spec_added(
                        Vote::spec_of_action(action),
                        Proposal::spec_vote_amount(
                            old(self).policy,
                            old(self).policy.roles@[k].name@,
                            label_g,
                            user_weight,
                        ),
                    ) by {
                        let name = old(self).policy.roles@[k].name@;
                        assert(crate::policy::seq_contains_string(roles@, name));
                        let kk = choose|kk: int| 0 <= kk < roles@.len() && roles@[kk]@ == name;
                        assert(vp0.spec_counts_for(roles@[kk]@) == po.spec_counts_for(
                            roles@[kk]@,
                        ).spec_added(
                            vote,
                            Proposal::spec_vote_amount(
                                old(self).policy,
                                roles@[kk]@,
                                label_g,
                                user_weight,
                            ),
                        ));
                    }
                    assert forall|n: Seq<char>|
                        !old(self).policy.spec_named_role_allows(
                            n,
                            user_g,
                            label_g,
                            action,
                        ) implies pf.spec_counts_for(n) == po.spec_counts_for(n) by {
                        assert(!seq_has_name(roles@, n)) by {
                            if seq_has_name(roles@, n) {
                                let kk = choose|kk: int|
                                    0 <= kk < roles@.len() && (#[trigger] roles@[kk])@ == n;
                                assert(old(self).policy.spec_named_role_allows(
                                    roles@[kk]@,
                                    user_g,
                                    label_g,
                                    action,
                                ));
                            }
                        }
                        assert(vp0.spec_counts_for(n) == po.spec_counts_for(n));
                    }
                    assert((Proposal { status: ProposalStatus::InProgress, ..pf }) == vp0);
                    assert(pf.votes@.last().0@ == caller@);
                }
                Ok(oc)
            },
        }
    }
}

/// What consuming the one outcome notification for dispatched proposal `id`
/// does. On success the proposal is approved, the bond comes back (capped
/// by what is held), and for a bounty completion the bounty's `times` drops
/// by one and the completed claim goes away. On failure the proposal is
/// marked failed — open to re-finalization — bounties and bonds stay put,
/// and a completed claim of a bounty completion reverts to incomplete so
/// the claimer may retry or give up.
pub open spec fn spec_callback_ok(
    pre: Contract,
    post: Contract,
    id: int,
    success: bool,
    oc: ActOutcome,
) -> bool {
    let po = pre.spec_proposal(id);
    let pf = post.spec_proposal(id);
    let bond = pre.policy.proposal_bond;
    let refund: u128 = if bond <= pre.locked_amount {
        bond
    } else {
        pre.locked_amount
    };
    &&& pre.spec_is_dispatched(id as u64)
    &&& exists|i: int|
        0 <= i < pre.dispatched@.len() && (#[trigger] pre.dispatched@[i]) == id as u64
            && post.dispatched@ == pre.dispatched@.remove(i)
    &&& post.proposals@.len() == pre.proposals@.len()
    &&& forall|j: int|
        0 <= j < pre.proposals@.len() && j != id ==> post.proposals@[j] == pre.proposals@[j]
    &&& pf.proposer == po.proposer
    &&& pf.description == po.description
    &&& pf.kind == po.kind
    &&& pf.votes == po.votes
    &&& pf.vote_counts == po.vote_counts
    &&& pf.submission_time == po.submission_time
    &&& gov_unchanged(pre, post)
    &&& if success {
        &&& pf.status == ProposalStatus::Approved
        &&& post.locked_amount == pre.locked_amount - refund
        &&& oc == (ActOutcome {
            status: ProposalStatus::Approved,
            dispatched: false,
            bond_refund: refund,
        })
        &&& match po.kind {
            ProposalKind::BountyDone { bounty_id, receiver_id } => {
                let b = bounty_id as int;
                let oldc = pre.spec_claims_of(receiver_id@);
                &&& 0 <= b < pre.bounties@.len()
                &&& pre.spec_bounty(b).times >= 1
                &&& post.bounties@.len() == pre.bounties@.len()
                &&& forall|b2: int|
                    0 <= b2 < pre.bounties@.len() && b2 != b ==> post.bounties@[b2]
                        == pre.bounties@[b2]
                &&& post.spec_bounty(b) == (Bounty {
                    times: (pre.spec_bounty(b).times - 1) as u32,
                    ..pre.spec_bounty(b)
                })
                &&& exists|j: int|
                    0 <= j < oldc.len() && (#[trigger] oldc[j]).bounty_id == bounty_id
                        && oldc[j].completed && (forall|jj: int|
                        0 <= jj < j ==> !((#[trigger] oldc[jj]).bounty_id == bounty_id
                            && oldc[jj].completed)) && post.spec_claims_of(receiver_id@)
                        == oldc.remove(j)
                &&& forall|a: Seq<char>|
                    a != receiver_id@ ==> post.spec_claims_of(a) == pre.spec_claims_of(a)
            },
            _ => bounty_state_unchanged(pre, post),
        }
    } else {
        &&& pf.status == ProposalStatus::Failed
        &&& post.locked_amount == pre.locked_amount
        &&& post.bounties@ == pre.bounties@
        &&& oc == (ActOutcome {
            status: ProposalStatus::Failed,
            dispatched: false,
            bond_refund: 0u128,
        })
        &&& match po.kind {
            ProposalKind::BountyDone { bounty_id, receiver_id } => {
                let oldc = pre.spec_claims_of(receiver_id@);
                &&& if exists|j: int|
                    0 <= j < oldc.len() && (#[trigger] oldc[j]).bounty_id == bounty_id
                        && oldc[j].completed {
                    exists|j: int|
                        0 <= j < oldc.len() && (#[trigger] oldc[j]).bounty_id == bounty_id
                            && oldc[j].completed && (forall|jj: int|
                            0 <= jj < j ==> !((#[trigger] oldc[jj]).bounty_id == bounty_id
                                && oldc[jj].completed)) && post.spec_claims_of(receiver_id@)
                            == oldc.update(j, (BountyClaim { completed: false, ..oldc[j] }))
                } else {
                    post.bounty_claimers@ == pre.bounty_claimers@
                }
                &&& forall|a: Seq<char>|
                    a != receiver_id@ ==> post.spec_claims_of(a) == pre.spec_claims_of(a)
            },
            _ => post.bounty_claimers@ == pre.bounty_claimers@,
        }
    }
}

impl Contract {
    /// Consumes the single outcome notification for the dispatched proposal
    /// `proposal_id`: see `spec_callback_ok`. A notification for a proposal
    /// that is not awaiting one — never dispatched, or already settled by an
    /// earlier notification — is refused as a protocol violation.
    #[verifier::rlimit(60)]
    pub fn on_proposal_callback(&mut self, proposal_id: u64, success: bool) -> (r: Result<
        ActOutcome,
        DaoError,
    >)
        requires
            old(self).wf(),
            (proposal_id as int) < old(self).proposals@.len(),
        ensures
            final(self).wf(),
            r is Err ==> *final(self) == *old(self),
            r == Result::<ActOutcome, DaoError>::Err(DaoError::DoubleOutcome) <==> !old(
                self,
            ).spec_is_dispatched(proposal_id),
            r == Result::<ActOutcome, DaoError>::Err(DaoError::NotClaimOwner) <==> (success
                && old(self).spec_is_dispatched(proposal_id) && (match old(self).spec_proposal(
                proposal_id as int,
            ).kind {
                ProposalKind::BountyDone { bounty_id, receiver_id } => {
                    let b = bounty_id as int;
                    let oldc = old(self).spec_claims_of(receiver_id@);
                    b >= old(self).bounties@.len() || (old(self).spec_bounty(b).times >= 1
                        && !exists|j: int|
                        0 <= j < oldc.len() && (#[trigger] oldc[j]).bounty_id == bounty_id
                            && oldc[j].completed)
                },
                _ => false,
            })),
            r == Result::<ActOutcome, DaoError>::Err(DaoError::ArithmeticOverflow) <==> (success
                && old(self).spec_is_dispatched(proposal_id) && (match old(self).spec_proposal(
                proposal_id as int,
            ).kind {
                ProposalKind::BountyDone { bounty_id, .. } => (bounty_id as int) < old(
                    self,
                ).bounties@.len() && old(self).spec_bounty(bounty_id as int).times == 0,
                _ => false,
            })),
            r matches Result::Err(e) ==> (e == DaoError::DoubleOutcome || e
                == DaoError::NotClaimOwner || e == DaoError::ArithmeticOverflow),
            r matches Result::Ok(oc) ==> spec_callback_ok(
                *old(self),
                *final(self),
                proposal_id as int,
                success,
                oc,
            ),
            bounty_times_non_increasing(*old(self), *final(self)),
    {
        let di = match self.find_dispatched(proposal_id) {
            Option::Some(i) => i,
            Option::None => {
                return Err(DaoError::DoubleOutcome);
            },
        };
        proof {
            assert(old(self).spec_is_dispatched(proposal_id));
        }
        let bd: Option<(u64, String)> = {
            let p = self.get_proposal(proposal_id);
            match &p.kind {
                ProposalKind::BountyDone { bounty_id, receiver_id } => Some(
                    (*bounty_id, receiver_id.clone()),
                ),
                _ => None,
            }
        };
        if success {
            let bdc: Option<(u64, String, usize, usize)> = match &bd {
                Option::Some(pair) => {
                    let b = pair.0;
                    if (b as u128) >= (self.bounties.len() as u128) {
                        return Err(DaoError::NotClaimOwner);
                    }
                    if self.get_bounty(b).times == 0 {
                        return Err(DaoError::ArithmeticOverflow);
                    }
                    match self.find_claim(&pair.1, b, true) {
                        Option::Some(ij) => Some((b, pair.1.clone(), ij.0, ij.1)),
                        Option::None => {
                            return Err(DaoError::NotClaimOwner);
                        },
                    }
                },
                Option::None => None,
            };
            self.dispatched.remove(di);
            proof {
                assert forall|i1: int, i2: int|
                    0 <= i1 < i2 < self.dispatched@.len() implies self.dispatched@[i1]
                    != self.dispatched@[i2] by {
                    let m1: int = if i1 < di { i1 } else { i1 + 1 };
                    let m2: int = if i2 < di { i2 } else { i2 + 1 };
                    assert(old(self).dispatched@[m1] != old(self).dispatched@[m2]);
                }
                lemma_same_proposals(*old(self), *self);
                assert forall|i: int|
                    0 <= i < self.dispatched@.len() implies {
                    let did = (#[trigger] self.dispatched@[i]) as int;
                    &&& did < self.proposals@.len()
                    &&& self.spec_proposal(did).status == ProposalStatus::InProgress
                    &&& self.spec_proposal(did).kind.spec_is_async()
                } by {
                    let m: int = if i < di { i } else { i + 1 };
                    assert(self.dispatched@[i] == old(self).dispatched@[m]);
                    let did = old(self).dispatched@[m] as int;
                    assert(did < old(self).proposals@.len());
                    assert(self.spec_proposal(did) == old(self).spec_proposal(did));
                }
                assert(self.wf());
            }
            let ghost mut after_claims = *self;
            if let Option::Some(q) = &bdc {
                let (b, recv, ci, cj) = (q.0, &q.1, q.2, q.3);
                proof {
                    crate::types::lemma_assoc_get_at(self.bounty_claimers@, ci as int);
                }
                let ghost mid = *self;
                let mut new_claims: Vec<BountyClaim> = Vec::new();
                let src = &self.bounty_claimers[ci].1;
                let mut k: usize = 0;
                while k < src.len()
                    invariant
                        0 <= k <= src@.len(),
                        cj < src@.len(),
                        new_claims@ =~= (if k <= cj {
                            src@.subrange(0, k as int)
                        } else {
                            src@.remove(cj as int).subrange(0, k as int - 1)
                        }),
                    decreases src@.len() - k,
                {
                    if k != cj {
                        new_claims.push(src[k]);
                    }
                    proof {
                        if k < cj {
                            assert(new_claims@ =~= src@.subrange(0, k as int + 1));
                        } else {
                            assert(new_claims@ =~= src@.remove(cj as int).subrange(0, k as int));
                        }
                    }
                    k += 1;
                }
                proof {
                    assert(new_claims@ =~= src@.remove(cj as int));
                    assert forall|jj: int| 0 <= jj < new_claims@.len() implies (
                    #[trigger] new_claims@[jj]).bounty_id < mid.bounties@.len() by {
                        if jj < cj {
                            assert(new_claims@[jj] == src@[jj]);
                        } else {
                            assert(new_claims@[jj] == src@[jj + 1]);
                        }
                    }
                }
                self.replace_claims(ci, new_claims);
                let mut nb = self.get_bounty(b).duplicate();
                nb.times = nb.times - 1;
                let nbt = self.bounties.len();
                proof {
                    assert((b as int) < nbt as int);
                    assert(b as usize as int == b as int);
                }
                self.bounties.set(b as usize, VersionedBounty::Default(nb));
                proof {
                    lemma_same_proposals(mid, *self);
                    assert forall|i1: int, j1: int|
                        0 <= i1 < self.bounty_claimers@.len() && 0 <= j1
                            < self.bounty_claimers@[i1].1@.len() implies (
                    #[trigger] self.bounty_claimers@[i1].1@[j1]).bounty_id
                        < self.bounties@.len() by {}
                    assert(self.wf());
                    assert(mid.bounty_claimers@ == old(self).bounty_claimers@);
                    assert(mid.bounty_claimers@[ci as int].0@ == recv@);
                    assert forall|a: Seq<char>|
                        a != recv@ implies self.spec_claims_of(a) == old(self).spec_claims_of(
                        a,
                    ) by {
                        assert(mid.spec_claims_of(a) == old(self).spec_claims_of(a));
                    }
                    assert(mid.spec_claims_of(recv@) == old(self).spec_claims_of(recv@));
                    assert(self.spec_claims_of(recv@) == old(self).spec_claims_of(recv@).remove(
                        cj as int,
                    ));
                    after_claims = *self;
                }
            }
            let bond = self.policy.proposal_bond;
            let refund: u128 = if bond <= self.locked_amount {
                bond
            } else {
                self.locked_amount
            };
            self.locked_amount = self.locked_amount - refund;
            proof {
                crate::lemma_wf_same_stores(
                    Contract { locked_amount: old(self).locked_amount, ..*self },
                    *self,
                );
            }
            let ghost pre_status = *self;
            self.set_proposal_status(proposal_id, ProposalStatus::Approved);
            proof {
                assert forall|j: int|
                    0 <= j < final(self).proposals@.len() implies (
                #[trigger] final(self).spec_proposal(j)).wf() && spec_kind_valid(
                    final(self).spec_proposal(j).kind,
                ) by {
                    if j != proposal_id as int {
                        assert(final(self).spec_proposal(j) == old(self).spec_proposal(j));
                    }
                    assert(old(self).spec_proposal(j).wf());
                }
                assert forall|i: int|
                    0 <= i < final(self).dispatched@.len() implies {
                    let did = (#[trigger] final(self).dispatched@[i]) as int;
                    &&& did < final(self).proposals@.len()
                    &&& final(self).spec_proposal(did).status == ProposalStatus::InProgress
                    &&& final(self).spec_proposal(did).kind.spec_is_async()
                } by {
                    assert(pre_status.spec_is_dispatched(pre_status.dispatched@[i]));
                    let m: int = if i < di { i } else { i + 1 };
                    assert(final(self).dispatched@[i] == old(self).dispatched@[m]);
                    let did = final(self).dispatched@[i] as int;
                    assert(did != proposal_id as int);
                    assert(final(self).spec_proposal(did) == pre_status.spec_proposal(did));
                }
                assert forall|i1: int, j1: int|
                    0 <= i1 < final(self).bounty_claimers@.len() && 0 <= j1
                        < final(self).bounty_claimers@[i1].1@.len() implies (
                #[trigger] final(self).bounty_claimers@[i1].1@[j1]).bounty_id
                    < final(self).bounties@.len() by {
                    assert(pre_status.bounty_claimers@[i1].1@[j1].bounty_id
                        < pre_status.bounties@.len());
                }
            }
            proof {
                let pid = proposal_id as int;
                assert(old(self).dispatched@[di as int] == proposal_id);
                assert(final(self).dispatched@ =~= old(self).dispatched@.remove(di as int));
                assert(pre_status.proposals@ == old(self).proposals@);
                assert(pre_status.spec_proposal(pid) == old(self).spec_proposal(pid));
                let po = old(self).spec_proposal(pid);
                match po.kind {
                    ProposalKind::BountyDone { bounty_id, receiver_id } => {
                        let b = bounty_id as int;
                        let oldc = old(self).spec_claims_of(receiver_id@);
                        match bdc {
                            Option::Some(q) => {
                                let cj = q.3 as int;
                                assert(q.1@ == receiver_id@);
                                assert(oldc[cj].bounty_id == bounty_id && oldc[cj].completed);
                                assert(forall|jj: int|
                                    0 <= jj < cj ==> !((#[trigger] oldc[jj]).bounty_id
                                        == bounty_id && oldc[jj].completed));
                                assert(final(self).bounty_claimers@
                                    == after_claims.bounty_claimers@);
                                assert(final(self).spec_claims_of(receiver_id@)
                                    == after_claims.spec_claims_of(receiver_id@));
                                assert(final(self).spec_claims_of(receiver_id@) == oldc.remove(
                                    cj,
                                ));
                                assert(final(self).spec_bounty(b) == (Bounty {
                                    times: (old(self).spec_bounty(b).times - 1) as u32,
                                    ..old(self).spec_bounty(b)
                                }));
                                assert forall|a: Seq<char>|
                                    a != receiver_id@ implies final(self).spec_claims_of(a) == old(
                                    self,
                                ).spec_claims_of(a) by {
                                    assert(final(self).spec_claims_of(a)
                                        == after_claims.spec_claims_of(a));
                                    assert(after_claims.spec_claims_of(a) == old(
                                        self,
                                    ).spec_claims_of(a));
                                }
                            },
                            Option::None => {
                                assert(false);
                            },
                        }
                    },
                    _ => {
                        assert(bounty_state_unchanged(*old(self), *final(self)));
                    },
                }
            }
            Ok(
                ActOutcome {
                    status: ProposalStatus::Approved,
                    dispatched: false,
                    bond_refund: refund,
                },
            )
        } else {
            self.dispatched.remove(di);
            proof {
                assert forall|i1: int, i2: int|
                    0 <= i1 < i2 < self.dispatched@.len() implies self.dispatched@[i1]
                    != self.dispatched@[i2] by {
                    let m1: int = if i1 < di { i1 } else { i1 + 1 };
                    let m2: int = if i2 < di { i2 } else { i2 + 1 };
                    assert(old(self).dispatched@[m1] != old(self).dispatched@[m2]);
                }
                lemma_same_proposals(*old(self), *self);
                assert forall|i: int|
                    0 <= i < self.dispatched@.len() implies {
                    let did = (#[trigger] self.dispatched@[i]) as int;
                    &&& did < self.proposals@.len()
                    &&& self.spec_proposal(did).status == ProposalStatus::InProgress
                    &&& self.spec_proposal(did).kind.spec_is_async()
                } by {
                    let m: int = if i < di { i } else { i + 1 };
                    assert(self.dispatched@[i] == old(self).dispatched@[m]);
                    let did = old(self).dispatched@[m] as int;
                    assert(did < old(self).proposals@.len());
                    assert(self.spec_proposal(did) == old(self).spec_proposal(did));
                }
                assert(self.wf());
            }
            let ghost mut after_claims = *self;
            if let Option::Some(pair) = &bd {
                let (b, recv) = (pair.0, &pair.1);
                if let Option::Some(ij) = self.find_claim(recv, b, true) {
                    let (ci, cj) = ij;
                    proof {
                        crate::types::lemma_assoc_get_at(self.bounty_claimers@, ci as int);
                    }
                    let ghost mid = *self;
                    let src = &self.bounty_claimers[ci].1;
                    let c0 = src[cj];
                    let nc = BountyClaim {
                        bounty_id: c0.bounty_id,
                        start_time: c0.start_time,
                        deadline: c0.deadline,
                        completed: false,
                    };
                    let mut new_claims: Vec<BountyClaim> = Vec::new();
                    let mut k: usize = 0;
                    while k < src.len()
                        invariant
                            0 <= k <= src@.len(),
                            cj < src@.len(),
                            nc == (BountyClaim { completed: false, ..src@[cj as int] }),
                            new_claims@ =~= src@.update(cj as int, nc).subrange(0, k as int),
                        decreases src@.len() - k,
                    {
                        if k == cj {
                            new_claims.push(nc);
                        } else {
                            new_claims.push(src[k]);
                        }
                        proof {
                            assert(new_claims@ =~= src@.update(cj as int, nc).subrange(
                                0,
                                k as int + 1,
                            ));
                        }
                        k += 1;
                    }
                    proof {
                        assert(new_claims@ =~= src@.update(cj as int, nc));
                        assert forall|jj: int| 0 <= jj < new_claims@.len() implies (
                        #[trigger] new_claims@[jj]).bounty_id < mid.bounties@.len() by {
                            assert(src@[jj].bounty_id < mid.bounties@.len());
                        }
                    }
                    self.replace_claims(ci, new_claims);
                    proof {
                        assert(mid.bounty_claimers@ == old(self).bounty_claimers@);
                        assert(mid.bounty_claimers@[ci as int].0@ == recv@);
                        assert forall|a: Seq<char>|
                            a != recv@ implies self.spec_claims_of(a) == old(
                            self,
                        ).spec_claims_of(a) by {
                            assert(mid.spec_claims_of(a) == old(self).spec_claims_of(a));
                        }
                        assert(mid.spec_claims_of(recv@) == old(self).spec_claims_of(recv@));
                        assert(self.spec_claims_of(recv@) == old(self).spec_claims_of(
                            recv@,
                        ).update(cj as int, nc));
                        after_claims = *self;
                    }
                }
            }
            let ghost pre_status = *self;
            self.set_proposal_status(proposal_id, ProposalStatus::Failed);
            proof {
                assert forall|j: int|
                    0 <= j < final(self).proposals@.len() implies (
                #[trigger] final(self).spec_proposal(j)).wf() && spec_kind_valid(
                    final(self).spec_proposal(j).kind,
                ) by {
                    if j != proposal_id as int {
                        assert(final(self).spec_proposal(j) == old(self).spec_proposal(j));
                    }
                    assert(old(self).spec_proposal(j).wf());
                }
                assert forall|i: int|
                    0 <= i < final(self).dispatched@.len() implies {
                    let did = (#[trigger] final(self).dispatched@[i]) as int;
                    &&& did < final(self).proposals@.len()
                    &&& final(self).spec_proposal(did).status == ProposalStatus::InProgress
                    &&& final(self).spec_proposal(did).kind.spec_is_async()
                } by {
                    let m: int = if i < di { i } else { i + 1 };
                    assert(final(self).dispatched@[i] == old(self).dispatched@[m]);
                    assert(old(self).spec_is_dispatched(old(self).dispatched@[m]));
                    let did = final(self).dispatched@[i] as int;
                    assert(did != proposal_id as int);
                    assert(final(self).spec_proposal(did) == pre_status.spec_proposal(did));
                    assert(pre_status.spec_proposal(did) == old(self).spec_proposal(did));
                }
                assert forall|i1: int, j1: int|
                    0 <= i1 < final(self).bounty_claimers@.len() && 0 <= j1
                        < final(self).bounty_claimers@[i1].1@.len() implies (
                #[trigger] final(self).bounty_claimers@[i1].1@[j1]).bounty_id
                    < final(self).bounties@.len() by {
                    assert(pre_status.bounty_claimers@[i1].1@[j1].bounty_id
                        < pre_status.bounties@.len());
                }
                crate::lemma_same_bounties(*old(self), *final(self));
            }
            proof {
                let pid = proposal_id as int;
                assert(old(self).dispatched@[di as int] == proposal_id);
                assert(final(self).dispatched@ =~= old(self).dispatched@.remove(di as int));
                assert(pre_status.proposals@ == old(self).proposals@);
                assert(pre_status.spec_proposal(pid) == old(self).spec_proposal(pid));
                let po = old(self).spec_proposal(pid);
                match po.kind {
                    ProposalKind::BountyDone { bounty_id, receiver_id } => {
                        let oldc = old(self).spec_claims_of(receiver_id@);
                        assert(final(self).bounty_claimers@ == after_claims.bounty_claimers@);
                        assert forall|a: Seq<char>|
                            a != receiver_id@ implies final(self).spec_claims_of(a) == old(
                            self,
                        ).spec_claims_of(a) by {
                            assert(final(self).spec_claims_of(a) == after_claims.spec_claims_of(
                                a,
                            ));
                            assert(after_claims.spec_claims_of(a) == old(self).spec_claims_of(a));
                        }
                        assert(final(self).spec_claims_of(receiver_id@)
                            == after_claims.spec_claims_of(receiver_id@));
                    },
                    _ => {
                        assert(final(self).bounty_claimers@ == old(self).bounty_claimers@);
                    },
                }
            }
            Ok(ActOutcome { status: ProposalStatus::Failed, dispatched: false, bond_refund: 0 })
        }
    }
}

/// True when `s` holds a string reading the same as `n`.
pub open spec fn seq_has_name(s: Seq<String>, n: Seq<char>) -> bool {
    exists|i: int| 0 <= i < s.len() && (#[trigger] s[i])@ == n
}

/// Proposal records as persisted; legacy schemas would become further
/// variants, upgraded on read.
pub enum VersionedProposal {
    Default(Proposal),
}

impl core::convert::From<VersionedProposal> for Proposal {
    /// Upgrades a persisted record to the current schema.
    fn from(v: VersionedProposal) -> (p: Proposal) {
        match v {
            VersionedProposal::Default(p) => p,
        }
    }
}

impl vstd::std_specs::convert::FromSpecImpl<VersionedProposal> for Proposal {
    open spec fn obeys_from_spec() -> bool {
        true
    }

    open spec fn from_spec(v: VersionedProposal) -> Proposal {
        match v {
            VersionedProposal::Default(p) => p,
        }
    }
}

} // verus!
