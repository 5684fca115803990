use vstd::prelude::*;

pub mod bounties;
pub mod policy;
pub mod proposals;
pub mod types;
pub mod upgrade;

use crate::bounties::{Bounty, BountyClaim, VersionedBounty};
use crate::policy::{default_policy_ens, Policy, VersionedPolicy};
use crate::proposals::{Proposal, ProposalKind, ProposalStatus, VersionedProposal};
use crate::types::{assoc_get, has_key, keys_distinct, Config};
use crate::upgrade::FactoryInfo;

verus! {

/// True when the payload a proposal carries can be installed without
/// breaking the policy's well-formedness; checked at submission.
pub open spec fn spec_kind_valid(kind: ProposalKind) -> bool {
    match kind {
        ProposalKind::ChangePolicy { policy } => match policy {
            VersionedPolicy::Current(p) => p.wf(),
            VersionedPolicy::Default(_) => true,
        },
        ProposalKind::ChangePolicyAddOrUpdateRole { role } => role.wf(),
        ProposalKind::ChangePolicyUpdateDefaultVotePolicy { vote_policy } => vote_policy.wf(),
        _ => true,
    }
}

/// Configuration, policy, staking assignment and factory info all kept.
pub open spec fn gov_unchanged(pre: Contract, post: Contract) -> bool {
    &&& post.config == pre.config
    &&& post.policy == pre.policy
    &&& post.staking_id == pre.staking_id
    &&& post.factory_info == pre.factory_info
}

/// Bounties and claims all kept.
pub open spec fn bounty_state_unchanged(pre: Contract, post: Contract) -> bool {
    &&& post.bounties@ == pre.bounties@
    &&& post.bounty_claimers@ == pre.bounty_claimers@
}

/// No bounty is forgotten and no `times` counter ever grows.
pub open spec fn bounty_times_non_increasing(pre: Contract, post: Contract) -> bool {
    &&& post.bounties@.len() >= pre.bounties@.len()
    &&& forall|b: int|
        0 <= b < pre.bounties@.len() ==> (#[trigger] post.spec_bounty(b)).times
            <= pre.spec_bounty(b).times
}

/// Equal proposal stores read the same proposal under every id.
pub proof fn lemma_same_proposals(pre: Contract, post: Contract)
    requires
        post.proposals@ == pre.proposals@,
    ensures
        forall|i: int|
            0 <= i < post.proposals@.len() ==> #[trigger] post.spec_proposal(i)
                == pre.spec_proposal(i),
{
}

/// Equal bounty stores read the same bounty under every id.
pub proof fn lemma_same_bounties(pre: Contract, post: Contract)
    requires
        post.bounties@ == pre.bounties@,
    ensures
        forall|b: int|
            0 <= b < post.bounties@.len() ==> #[trigger] post.spec_bounty(b) == pre.spec_bounty(b),
{
}

/// Well-formedness only reads the policy and the four stores; a state
/// differing in any other field inherits it.
pub proof fn lemma_wf_same_stores(pre: Contract, post: Contract)
    requires
        pre.wf(),
        post.proposals@ == pre.proposals@,
        post.bounties@ == pre.bounties@,
        post.bounty_claimers@ == pre.bounty_claimers@,
        post.dispatched@ == pre.dispatched@,
        post.policy == pre.policy,
    ensures
        post.wf(),
{
    lemma_same_proposals(pre, post);
    lemma_same_bounties(pre, post);
    assert forall|i: int|
        0 <= i < post.dispatched@.len() implies {
        let id = (#[trigger] post.dispatched@[i]) as int;
        &&& id < post.proposals@.len()
        &&& post.spec_proposal(id).status == ProposalStatus::InProgress
        &&& post.spec_proposal(id).kind.spec_is_async()
    } by {
        let id = pre.dispatched@[i] as int;
        assert(id < pre.proposals@.len());
        assert(post.spec_proposal(id) == pre.spec_proposal(id));
    }
}

/// Rewriting one undispatched proposal in place keeps the store invariant,
/// as long as the rewritten record stays well formed with an installable
/// payload; the policy may have changed as long as it stays well formed,
/// and bounties may have been appended.
pub proof fn lemma_wf_after_proposal_rewrite(pre: Contract, post: Contract, id: int)
    requires
        pre.wf(),
        post.policy.wf(),
        0 <= id < pre.proposals@.len(),
        post.proposals@.len() == pre.proposals@.len(),
        forall|j: int|
            0 <= j < pre.proposals@.len() && j != id ==> post.proposals@[j] == pre.proposals@[j],
        post.spec_proposal(id).wf(),
        spec_kind_valid(post.spec_proposal(id).kind),
        forall|i: int|
            0 <= i < post.dispatched@.len() ==> (#[trigger] post.dispatched@[i]) != id as u64,
        post.dispatched@ == pre.dispatched@,
        post.bounties@.len() >= pre.bounties@.len(),
        post.bounty_claimers@ == pre.bounty_claimers@,
    ensures
        post.wf(),
{
    assert forall|j: int|
        0 <= j < post.proposals@.len() implies (#[trigger] post.spec_proposal(j)).wf()
        && spec_kind_valid(post.spec_proposal(j).kind) by {
        if j != id {
            assert(post.spec_proposal(j) == pre.spec_proposal(j));
        }
        assert(pre.spec_proposal(j).wf());
    }
    assert forall|i: int|
        0 <= i < post.dispatched@.len() implies {
        let did = (#[trigger] post.dispatched@[i]) as int;
        &&& did < post.proposals@.len()
        &&& post.spec_proposal(did).status == ProposalStatus::InProgress
        &&& post.spec_proposal(did).kind.spec_is_async()
    } by {
        let did = pre.dispatched@[i] as int;
        assert(did < pre.proposals@.len());
        assert(post.dispatched@[i] != id as u64);
        assert(post.spec_proposal(did) == pre.spec_proposal(did));
    }
    assert forall|i: int, j: int|
        0 <= i < post.bounty_claimers@.len() && 0 <= j < (
    #[trigger] post.bounty_claimers@[i]).1@.len() implies (
    #[trigger] post.bounty_claimers@[i].1@[j]).bounty_id < post.bounties@.len() by {
        assert(pre.bounty_claimers@[i].1@[j].bounty_id < pre.bounties@.len());
    }
}

/// What a lifecycle step hands back: the proposal's status after the step,
/// whether an asynchronous action was dispatched (the host performs it and
/// later reports the outcome), and how much bond is owed back to the
/// proposer.
#[derive(Clone, Copy, PartialEq, Eq, Structural, Debug)]
pub struct ActOutcome {
    pub status: ProposalStatus,
    pub dispatched: bool,
    pub bond_refund: u128,
}

/// The governance core: configuration, policy, proposal and bounty stores,
/// and the set of proposals awaiting an asynchronous outcome.
pub struct Contract {
    /// General configuration.
    pub config: Config,
    /// The governance policy in force.
    pub policy: Policy,
    /// Total value of bonds currently held.
    pub locked_amount: u128,
    /// The staking contract, once assigned.
    pub staking_id: Option<String>,
    /// Factory info installed by governance; `None` until then.
    pub factory_info: Option<FactoryInfo>,
    /// All proposals ever submitted, indexed by id; never deleted.
    pub proposals: Vec<VersionedProposal>,
    /// All bounties ever created, indexed by id; never deleted.
    pub bounties: Vec<VersionedBounty>,
    /// Per account, its ordered list of bounty claims.
    pub bounty_claimers: Vec<(String, Vec<BountyClaim>)>,
    /// Ids of proposals whose action was dispatched and whose outcome has
    /// not arrived yet.
    pub dispatched: Vec<u64>,
}

impl Contract {
    /// The proposal stored under `id`, upgraded to the current schema.
    pub open spec fn spec_proposal(self, id: int) -> Proposal {
        match self.proposals@[id] {
            VersionedProposal::Default(p) => p,
        }
    }

    /// The bounty stored under `id`, upgraded to the current schema.
    pub open spec fn spec_bounty(self, id: int) -> Bounty {
        match self.bounties@[id] {
            VersionedBounty::Default(b) => b,
        }
    }

    /// The claims of `account`, empty when it never claimed.
    pub open spec fn spec_claims_of(self, account: Seq<char>) -> Seq<BountyClaim> {
        if has_key(self.bounty_claimers@, account) {
            assoc_get(self.bounty_claimers@, account)@
        } else {
            Seq::<BountyClaim>::empty()
        }
    }

    /// Whether proposal `id` awaits an asynchronous outcome.
    pub open spec fn spec_is_dispatched(self, id: u64) -> bool {
        exists|i: int| 0 <= i < self.dispatched@.len() && self.dispatched@[i] == id
    }

    /// All invariants of the store: a well-formed policy, well-formed
    /// proposals carrying installable payloads (the vote-once invariant is
    /// part of `Proposal::wf`), one claim list per account, every claim
    /// naming an existing bounty, and the dispatched set holding distinct
    /// ids of in-progress proposals with asynchronous kinds.
    pub open spec fn wf(self) -> bool {
        &&& self.policy.wf()
        &&& forall|i: int|
            0 <= i < self.proposals@.len() ==> (#[trigger] self.spec_proposal(i)).wf()
        &&& forall|i: int|
            0 <= i < self.proposals@.len() ==> spec_kind_valid(
                (#[trigger] self.spec_proposal(i)).kind,
            )
        &&& keys_distinct(self.bounty_claimers@)
        &&& forall|i: int, j: int|
            0 <= i < self.bounty_claimers@.len() && 0 <= j < (
            #[trigger] self.bounty_claimers@[i]).1@.len() ==> (
            #[trigger] self.bounty_claimers@[i].1@[j]).bounty_id < self.bounties@.len()
        &&& forall|i: int, j: int|
            0 <= i < j < self.dispatched@.len() ==> self.dispatched@[i] != self.dispatched@[j]
        &&& forall|i: int|
            0 <= i < self.dispatched@.len() ==> {
                let id = (#[trigger] self.dispatched@[i]) as int;
                &&& id < self.proposals@.len()
                &&& self.spec_proposal(id).status == ProposalStatus::InProgress
                &&& self.spec_proposal(id).kind.spec_is_async()
            }
    }

    /// A fresh DAO: the given configuration and policy, no proposals, no
    /// bounties, no claims, nothing dispatched, no bonds held.
    pub fn new(config: Config, policy: VersionedPolicy) -> (c: Contract)
        requires
            policy matches VersionedPolicy::Current(p) ==> p.wf(),
        ensures
            c.wf(),
            c.config == config,
            match policy {
                VersionedPolicy::Current(q) => c.policy == q,
                VersionedPolicy::Default(council) => default_policy_ens(council, c.policy),
            },
            c.locked_amount == 0,
            c.staking_id is None,
            c.factory_info is None,
            c.proposals@.len() == 0,
            c.bounties@.len() == 0,
            c.bounty_claimers@.len() == 0,
            c.dispatched@.len() == 0,
    {
        Contract {
            config,
            policy: policy.upgrade(),
            locked_amount: 0,
            staking_id: None,
            factory_info: None,
            proposals: Vec::new(),
            bounties: Vec::new(),
            bounty_claimers: Vec::new(),
            dispatched: Vec::new(),
        }
    }

    /// The configuration in force.
    pub fn get_config(&self) -> (r: &Config)
        ensures
            *r == self.config,
    {
        &self.config
    }

    /// The policy in force.
    pub fn get_policy(&self) -> (r: &Policy)
        ensures
            *r == self.policy,
    {
        &self.policy
    }

    /// The id the next proposal will get.
    pub fn get_last_proposal_id(&self) -> (r: u64)
        requires
            self.proposals@.len() <= u64::MAX,
        ensures
            r == self.proposals@.len(),
    {
        self.proposals.len() as u64
    }

    /// The proposal stored under `id`.
    pub fn get_proposal(&self, id: u64) -> (r: &Proposal)
        requires
            (id as int) < self.proposals@.len(),
        ensures
            *r == self.spec_proposal(id as int),
    {
        let n = self.proposals.len();
        proof {
            assert((id as int) < n as int);
            assert(id as usize as int == id as int);
        }
        match &self.proposals[id as usize] {
            VersionedProposal::Default(p) => p,
        }
    }

    /// The id the next bounty will get.
    pub fn get_last_bounty_id(&self) -> (r: u64)
        requires
            self.bounties@.len() <= u64::MAX,
        ensures
            r == self.bounties@.len(),
    {
        self.bounties.len() as u64
    }

    /// The bounty stored under `id`.
    pub fn get_bounty(&self, id: u64) -> (r: &Bounty)
        requires
            (id as int) < self.bounties@.len(),
        ensures
            *r == self.spec_bounty(id as int),
    {
        let n = self.bounties.len();
        proof {
            assert((id as int) < n as int);
            assert(id as usize as int == id as int);
        }
        match &self.bounties[id as usize] {
            VersionedBounty::Default(b) => b,
        }
    }

    /// The claims `account_id` holds, in the order they were made.
    pub fn get_bounty_claims(&self, account_id: &String) -> (r: Vec<BountyClaim>)
        ensures
            r@ == self.spec_claims_of(account_id@),
    {
        let mut i: usize = 0;
        while i < self.bounty_claimers.len()
            invariant
                0 <= i <= self.bounty_claimers@.len(),
                forall|j: int|
                    0 <= j < i ==> (#[trigger] self.bounty_claimers@[j]).0@ != account_id@,
            decreases self.bounty_claimers@.len() - i,
        {
            if self.bounty_claimers[i].0 == *account_id {
                proof {
                    crate::types::lemma_assoc_get_at(self.bounty_claimers@, i as int);
                }
                let src = &self.bounty_claimers[i].1;
                let mut r: Vec<BountyClaim> = Vec::new();
                let mut j: usize = 0;
                while j < src.len()
                    invariant
                        0 <= j <= src@.len(),
                        r@ =~= src@.subrange(0, j as int),
                    decreases src@.len() - j,
                {
                    r.push(src[j]);
                    j += 1;
                }
                proof {
                    assert(r@ =~= src@);
                }
                return r;
            }
            i += 1;
        }
        Vec::new()
    }
}

} // verus!
