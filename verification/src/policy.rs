use vstd::prelude::*;

use crate::proposals::{PolicyParameters, Proposal, ProposalStatus};
use crate::types::{assoc_get, has_key, keys_distinct, lemma_assoc_get_at, Action, DaoError};

verus! {

/// Where a role's voting weight comes from.
#[derive(Clone, Copy, PartialEq, Eq, Structural, Debug)]
pub enum WeightKind {
    /// Weight is the voter's staked token balance.
    TokenWeight,
    /// Every member counts as one vote.
    RoleWeight,
}

/// A threshold expressed either as an absolute weight or as a ratio of the
/// total available weight.
#[derive(Clone, Copy, PartialEq, Eq, Structural, Debug)]
pub enum WeightOrRatio {
    Weight(u128),
    Ratio(u64, u64),
}

impl WeightOrRatio {
    /// A ratio must have a non-zero denominator.
    pub open spec fn wf(self) -> bool {
        match self {
            WeightOrRatio::Weight(_) => true,
            WeightOrRatio::Ratio(_, denom) => denom > 0,
        }
    }

    /// The weight this threshold demands out of `total_weight`: an absolute
    /// threshold is capped at the total, a ratio takes the strictly larger
    /// share (one more than the rounded-down fraction), again capped.
    pub open spec fn spec_to_weight(self, total_weight: u128) -> u128
        recommends
            self.wf(),
    {
        match self {
            WeightOrRatio::Weight(w) => if w < total_weight {
                w
            } else {
                total_weight
            },
            WeightOrRatio::Ratio(num, denom) => {
                let q = (num as int * total_weight as int) / (denom as int);
                if q + 1 < total_weight as int {
                    (q + 1) as u128
                } else {
                    total_weight
                }
            },
        }
    }

    /// True when computing the ratio share of `total_weight` would wrap
    /// 128-bit arithmetic.
    pub open spec fn spec_to_weight_overflows(self, total_weight: u128) -> bool {
        match self {
            WeightOrRatio::Weight(_) => false,
            WeightOrRatio::Ratio(num, _) => num as int * total_weight as int > u128::MAX as int,
        }
    }

    /// Converts the threshold into a concrete weight; all arithmetic is
    /// checked, a wrap is reported instead of performed.
    pub fn to_weight(&self, total_weight: u128) -> (r: Result<u128, DaoError>)
        requires
            self.wf(),
        ensures
            r is Err <==> self.spec_to_weight_overflows(total_weight),
            r is Err ==> r == Result::<u128, DaoError>::Err(DaoError::ArithmeticOverflow),
            r is Ok ==> r == Result::<u128, DaoError>::Ok(self.spec_to_weight(total_weight)),
    {
        match self {
            WeightOrRatio::Weight(w) => Ok(if *w < total_weight {
                *w
            } else {
                total_weight
            }),
            WeightOrRatio::Ratio(num, denom) => {
                let n = *num as u128;
                if total_weight > 0 && n > u128::MAX / total_weight {
                    proof {
                        assert(n as int * total_weight as int > u128::MAX as int)
                            by (nonlinear_arith)
                            requires
                                n as int > u128::MAX as int / total_weight as int,
                                total_weight > 0,
                        ;
                    }
                    return Err(DaoError::ArithmeticOverflow);
                }
                proof {
                    if total_weight > 0 {
                        assert(n as int * total_weight as int <= u128::MAX as int)
                            by (nonlinear_arith)
                            requires
                                n as int <= u128::MAX as int / total_weight as int,
                                total_weight > 0,
                        ;
                    } else {
                        assert(n as int * total_weight as int == 0) by (nonlinear_arith)
                            requires
                                total_weight == 0,
                        ;
                    }
                }
                let prod: u128 = n * total_weight;
                let q: u128 = prod / (*denom as u128);
                Ok(
                    if total_weight > 0 && q < total_weight - 1 {
                        q + 1
                    } else {
                        total_weight
                    },
                )
            },
        }
    }
}

/// Quorum and threshold rule for one role (or the default for all roles).
#[derive(Clone, Copy, PartialEq, Eq, Structural, Debug)]
pub struct VotePolicy {
    /// Token-weighted or one-vote-per-member.
    pub weight_kind: WeightKind,
    /// Minimum total weight a decisive tally must reach.
    pub quorum: u128,
    /// Share of the total weight the winning outcome must reach.
    pub threshold: WeightOrRatio,
}

impl VotePolicy {
    pub open spec fn wf(self) -> bool {
        self.threshold.wf()
    }

    /// One vote per member, no quorum, strict majority.
    pub fn default_policy() -> (p: VotePolicy)
        ensures
            p == (VotePolicy {
                weight_kind: WeightKind::RoleWeight,
                quorum: 0u128,
                threshold: WeightOrRatio::Ratio(1u64, 2u64),
            }),
    {
        VotePolicy {
            weight_kind: WeightKind::RoleWeight,
            quorum: 0,
            threshold: WeightOrRatio::Ratio(1, 2),
        }
    }
}

/// Who belongs to a role.
pub enum RoleKind {
    /// Matches any account.
    Everyone,
    /// Matches accounts whose staked balance is at least the given amount.
    Member(u128),
    /// Matches exactly the listed accounts.
    Group(Vec<String>),
}

/// An account together with its staked token balance, as the host reports
/// them for the current call.
pub struct UserInfo {
    pub account_id: String,
    pub amount: u128,
}

/// True when `s` holds a string reading the same as `x`.
pub open spec fn seq_contains_string(s: Seq<String>, x: Seq<char>) -> bool {
    exists|i: int| 0 <= i < s.len() && s[i]@ == x
}

/// Linear search for `x` among `v`.
pub fn vec_contains_string(v: &Vec<String>, x: &String) -> (r: bool)
    ensures
        r == seq_contains_string(v@, x@),
{
    let mut i: usize = 0;
    while i < v.len()
        invariant
            0 <= i <= v@.len(),
            forall|j: int| 0 <= j < i ==> v@[j]@ != x@,
        decreases v@.len() - i,
    {
        if v[i] == *x {
            return true;
        }
        i += 1;
    }
    false
}

impl RoleKind {
    /// Whether the user falls under this role.
    pub open spec fn spec_match_user(self, user: UserInfo) -> bool {
        match self {
            RoleKind::Everyone => true,
            RoleKind::Member(amount) => user.amount >= amount,
            RoleKind::Group(g) => seq_contains_string(g@, user.account_id@),
        }
    }

    pub fn match_user(&self, user: &UserInfo) -> (r: bool)
        ensures
            r == self.spec_match_user(*user),
    {
        match self {
            RoleKind::Everyone => true,
            RoleKind::Member(amount) => user.amount >= *amount,
            RoleKind::Group(g) => vec_contains_string(g, &user.account_id),
        }
    }
}

/// One entry of a role's permission set. `None` acts as a wildcard, so
/// (`None`, `None`) permits every action on every proposal kind.
pub struct Permission {
    /// Proposal-kind label this entry speaks of; `None` for all labels.
    pub label: Option<String>,
    /// Action this entry permits; `None` for all actions.
    pub action: Option<Action>,
}

impl Permission {
    /// Whether this entry permits `action` on proposals labelled `label`.
    pub open spec fn spec_allows(self, label: Seq<char>, action: Action) -> bool {
        &&& match self.label {
            Option::None => true,
            Option::Some(l) => l@ == label,
        }
        &&& match self.action {
            Option::None => true,
            Option::Some(a) => a == action,
        }
    }

    pub fn allows(&self, label: &String, action: &Action) -> (r: bool)
        ensures
            r == self.spec_allows(label@, *action),
    {
        let label_ok = match &self.label {
            Option::None => true,
            Option::Some(l) => *l == *label,
        };
        let action_ok = match &self.action {
            Option::None => true,
            Option::Some(a) => *a == *action,
        };
        label_ok && action_ok
    }
}

/// One role: its name, membership rule, permission set and, per proposal
/// label, an optional vote policy overriding the default one.
pub struct RolePermission {
    pub name: String,
    pub kind: RoleKind,
    pub permissions: Vec<Permission>,
    pub vote_policy: Vec<(String, VotePolicy)>,
}

impl RolePermission {
    pub open spec fn wf(self) -> bool {
        &&& keys_distinct(self.vote_policy@)
        &&& forall|i: int| 0 <= i < self.vote_policy@.len() ==> (#[trigger] self.vote_policy@[i].1).wf()
    }

    /// Whether some permission entry permits `action` on label `label`.
    pub open spec fn spec_allows(self, label: Seq<char>, action: Action) -> bool {
        exists|i: int|
            0 <= i < self.permissions@.len() && (#[trigger] self.permissions@[i]).spec_allows(
                label,
                action,
            )
    }

    /// Whether some permission entry lets members cast a vote on proposals
    /// labelled `label`; only such roles' tallies can decide a proposal.
    pub open spec fn spec_vote_eligible(self, label: Seq<char>) -> bool {
        self.spec_allows(label, Action::VoteApprove) || self.spec_allows(
            label,
            Action::VoteReject,
        ) || self.spec_allows(label, Action::VoteRemove)
    }

    pub fn allows(&self, label: &String, action: &Action) -> (r: bool)
        ensures
            r == self.spec_allows(label@, *action),
    {
        let mut i: usize = 0;
        while i < self.permissions.len()
            invariant
                0 <= i <= self.permissions@.len(),
                forall|j: int|
                    0 <= j < i ==> !(#[trigger] self.permissions@[j]).spec_allows(label@, *action),
            decreases self.permissions@.len() - i,
        {
            if self.permissions[i].allows(label, action) {
                return true;
            }
            i += 1;
        }
        false
    }

    pub fn vote_eligible(&self, label: &String) -> (r: bool)
        ensures
            r == self.spec_vote_eligible(label@),
    {
        self.allows(label, &Action::VoteApprove) || self.allows(label, &Action::VoteReject)
            || self.allows(label, &Action::VoteRemove)
    }
}

/// The full governance policy: ordered roles, a default vote policy, and the
/// bond and period parameters.
pub struct Policy {
    pub roles: Vec<RolePermission>,
    pub default_vote_policy: VotePolicy,
    pub proposal_bond: u128,
    pub proposal_period: u64,
    pub bounty_bond: u128,
    pub bounty_forgiveness_period: u64,
}

impl Policy {
    /// Role names are distinct, every vote policy is well formed.
    pub open spec fn wf(self) -> bool {
        &&& forall|i: int, j: int|
            0 <= i < j < self.roles@.len() ==> (#[trigger] self.roles@[i]).name@
                != (#[trigger] self.roles@[j]).name@
        &&& forall|i: int| 0 <= i < self.roles@.len() ==> (#[trigger] self.roles@[i]).wf()
        &&& self.default_vote_policy.wf()
    }

    /// True when some role carries the name `name`.
    pub open spec fn spec_role_named(self, name: Seq<char>) -> bool {
        exists|i: int| 0 <= i < self.roles@.len() && (#[trigger] self.roles@[i]).name@ == name
    }

    /// The role carrying the name `name` (unique under `wf`).
    pub open spec fn spec_role_at(self, name: Seq<char>) -> RolePermission
        recommends
            self.spec_role_named(name),
    {
        self.roles@[choose|i: int|
            0 <= i < self.roles@.len() && (#[trigger] self.roles@[i]).name@ == name]
    }

    /// Index of the role named `name`, if any.
    fn role_index(&self, name: &String) -> (r: Option<usize>)
        ensures
            match r {
                Option::Some(i) => i < self.roles@.len() && self.roles@[i as int].name@ == name@
                    && forall|j: int| 0 <= j < i ==> (#[trigger] self.roles@[j]).name@ != name@,
                Option::None => !self.spec_role_named(name@),
            },
    {
        let mut i: usize = 0;
        while i < self.roles.len()
            invariant
                0 <= i <= self.roles@.len(),
                forall|j: int| 0 <= j < i ==> (#[trigger] self.roles@[j]).name@ != name@,
            decreases self.roles@.len() - i,
        {
            if self.roles[i].name == *name {
                return Some(i);
            }
            i += 1;
        }
        None
    }

    /// The vote policy governing `label` under `role`: the role's own entry
    /// for that label, or the policy-wide default.
    pub open spec fn spec_vote_policy_for(self, role: RolePermission, label: Seq<char>) -> VotePolicy {
        if has_key(role.vote_policy@, label) {
            assoc_get(role.vote_policy@, label)
        } else {
            self.default_vote_policy
        }
    }

    pub fn vote_policy_for(&self, role: &RolePermission, label: &String) -> (r: VotePolicy)
        requires
            role.wf(),
            self.default_vote_policy.wf(),
        ensures
            r == self.spec_vote_policy_for(*role, label@),
            r.wf(),
    {
        let mut i: usize = 0;
        while i < role.vote_policy.len()
            invariant
                role.wf(),
                0 <= i <= role.vote_policy@.len(),
                forall|j: int| 0 <= j < i ==> (#[trigger] role.vote_policy@[j]).0@ != label@,
            decreases role.vote_policy@.len() - i,
        {
            if role.vote_policy[i].0 == *label {
                proof {
                    lemma_assoc_get_at(role.vote_policy@, i as int);
                    assert((role.vote_policy@[i as int].1).wf());
                }
                return role.vote_policy[i].1;
            }
            i += 1;
        }
        self.default_vote_policy
    }

    /// Whether votes of role `name` on proposals labelled `label` are
    /// token-weighted. False when no role carries that name.
    pub open spec fn spec_is_token_weighted(self, name: Seq<char>, label: Seq<char>) -> bool {
        self.spec_role_named(name) && self.spec_vote_policy_for(self.spec_role_at(name), label)
            .weight_kind == WeightKind::TokenWeight
    }

    pub fn is_token_weighted(&self, role_name: &String, label: &String) -> (r: bool)
        requires
            self.wf(),
        ensures
            r == self.spec_is_token_weighted(role_name@, label@),
    {
        match self.role_index(role_name) {
            Option::Some(i) => {
                proof {
                    let c = choose|c: int|
                        0 <= c < self.roles@.len() && (#[trigger] self.roles@[c]).name@
                            == role_name@;
                    assert(c == i as int);
                }
                let vp = self.vote_policy_for(&self.roles[i], label);
                vp.weight_kind == WeightKind::TokenWeight
            },
            Option::None => false,
        }
    }

    /// A role both containing the user and permitting `action` on `label`.
    pub open spec fn spec_user_role_allows(
        role: RolePermission,
        user: UserInfo,
        label: Seq<char>,
        action: Action,
    ) -> bool {
        role.kind.spec_match_user(user) && role.spec_allows(label, action)
    }

    /// True when some role carries the name `name`, contains the user and
    /// permits `action` on proposals labelled `label`.
    pub open spec fn spec_named_role_allows(
        self,
        name: Seq<char>,
        user: UserInfo,
        label: Seq<char>,
        action: Action,
    ) -> bool {
        exists|i: int|
            0 <= i < self.roles@.len() && (#[trigger] self.roles@[i]).name@ == name
                && Policy::spec_user_role_allows(self.roles@[i], user, label, action)
    }

    /// True when the user belongs to some role permitting `action` on
    /// proposals labelled `label`.
    pub open spec fn spec_any_role_allows(
        self,
        user: UserInfo,
        label: Seq<char>,
        action: Action,
    ) -> bool {
        exists|i: int|
            0 <= i < self.roles@.len() && Policy::spec_user_role_allows(
                #[trigger] self.roles@[i],
                user,
                label,
                action,
            )
    }

    /// Names of the roles the user belongs to that permit `action` on
    /// proposals labelled `label`, in policy-declared order. The caller has
    /// permission exactly when the result is non-empty.
    pub fn can_execute_action(&self, user: &UserInfo, label: &String, action: &Action) -> (r: Vec<
        String,
    >)
        requires
            self.wf(),
        ensures
            forall|k: int|
                0 <= k < r@.len() ==> self.spec_named_role_allows(
                    (#[trigger] r@[k])@,
                    *user,
                    label@,
                    *action,
                ),
            forall|i: int|
                0 <= i < self.roles@.len() && Policy::spec_user_role_allows(
                    #[trigger] self.roles@[i],
                    *user,
                    label@,
                    *action,
                ) ==> seq_contains_string(r@, self.roles@[i].name@),
            forall|k1: int, k2: int| 0 <= k1 < k2 < r@.len() ==> r@[k1]@ != r@[k2]@,
            r@.len() > 0 <==> self.spec_any_role_allows(*user, label@, *action),
    {
        let ghost mut idxs: Seq<int> = Seq::empty();
        let mut r: Vec<String> = Vec::new();
        let mut i: usize = 0;
        while i < self.roles.len()
            invariant
                self.wf(),
                0 <= i <= self.roles@.len(),
                r@.len() == idxs.len(),
                forall|k: int|
                    0 <= k < idxs.len() ==> 0 <= #[trigger] idxs[k] < i && r@[k]@
                        == self.roles@[idxs[k]].name@ && Policy::spec_user_role_allows(
                        self.roles@[idxs[k]],
                        *user,
                        label@,
                        *action,
                    ),
                forall|k1: int, k2: int| 0 <= k1 < k2 < idxs.len() ==> idxs[k1] < idxs[k2],
                forall|j: int|
                    0 <= j < i && Policy::spec_user_role_allows(
                        #[trigger] self.roles@[j],
                        *user,
                        label@,
                        *action,
                    ) ==> exists|k: int| 0 <= k < idxs.len() && idxs[k] == j,
            decreases self.roles@.len() - i,
        {
            let ghost idxs0 = idxs;
            let role = &self.roles[i];
            if role.kind.match_user(user) && role.allows(label, action) {
                r.push(role.name.clone());
                proof {
                    idxs = idxs.push(i as int);
                }
            }
            proof {
                assert forall|j: int|
                    0 <= j < i + 1 && Policy::spec_user_role_allows(
                        #[trigger] self.roles@[j],
                        *user,
                        label@,
                        *action,
                    ) implies exists|k: int| 0 <= k < idxs.len() && idxs[k] == j by {
                    if j == i {
                        assert(idxs[idxs.len() - 1] == i as int);
                    } else {
                        let k = choose|k: int| 0 <= k < idxs0.len() && idxs0[k] == j;
                        assert(idxs[k] == j);
                    }
                }
            }
            i += 1;
        }
        proof {
            assert forall|k: int| 0 <= k < r@.len() implies self.spec_named_role_allows(
                (#[trigger] r@[k])@,
                *user,
                label@,
                *action,
            ) by {
                let i2 = idxs[k];
                assert(0 <= i2 < self.roles@.len() && self.roles@[i2].name@ == r@[k]@
                    && Policy::spec_user_role_allows(self.roles@[i2], *user, label@, *action));
            }
            assert forall|k1: int, k2: int| 0 <= k1 < k2 < r@.len() implies r@[k1]@ != r@[k2]@ by {
                assert(idxs[k1] < idxs[k2]);
            }
            if r@.len() > 0 {
                let i0 = idxs[0];
                assert(Policy::spec_user_role_allows(self.roles@[i0], *user, label@, *action));
            }
            if self.spec_any_role_allows(*user, label@, *action) {
                let j = choose|j: int|
                    0 <= j < self.roles@.len() && Policy::spec_user_role_allows(
                        #[trigger] self.roles@[j],
                        *user,
                        label@,
                        *action,
                    );
                let k = choose|k: int| 0 <= k < idxs.len() && idxs[k] == j;
                assert(idxs.len() > 0);
            }
            assert forall|j: int|
                0 <= j < self.roles@.len() && Policy::spec_user_role_allows(
                    #[trigger] self.roles@[j],
                    *user,
                    label@,
                    *action,
                ) implies seq_contains_string(r@, self.roles@[j].name@) by {
                let k = choose|k: int| 0 <= k < idxs.len() && idxs[k] == j;
                assert(r@[k]@ == self.roles@[j].name@);
            }
        }
        r
    }
}

impl Policy {
    /// The total weight available to a role: the member count for group
    /// roles voting one member one vote, the token supply otherwise.
    pub open spec fn spec_total_weight(role: RolePermission, vp: VotePolicy, total_supply: u128) -> u128 {
        match role.kind {
            RoleKind::Group(g) => if vp.weight_kind == WeightKind::RoleWeight {
                g@.len() as u128
            } else {
                total_supply
            },
            _ => total_supply,
        }
    }

    /// Whether evaluating some role eligible for the proposal's label would
    /// wrap; the whole evaluation reports `ArithmeticOverflow` in that case.
    pub open spec fn spec_tally_overflows(self, p: Proposal, total_supply: u128) -> bool {
        exists|i: int|
            0 <= i < self.roles@.len() && (#[trigger] self.roles@[i]).spec_vote_eligible(
                p.kind.spec_label(),
            ) && self.spec_vote_policy_for(
                self.roles@[i],
                p.kind.spec_label(),
            ).threshold.spec_to_weight_overflows(
                Policy::spec_total_weight(
                    self.roles@[i],
                    self.spec_vote_policy_for(self.roles@[i], p.kind.spec_label()),
                    total_supply,
                ),
            )
    }

    /// The decision one role's tally yields: the first of approve, reject
    /// and remove whose weight reaches both the quorum and the threshold
    /// share, or nothing when none does.
    pub open spec fn spec_role_decision(
        self,
        role: RolePermission,
        p: Proposal,
        total_supply: u128,
    ) -> Option<ProposalStatus> {
        let vp = self.spec_vote_policy_for(role, p.kind.spec_label());
        let total_weight = Policy::spec_total_weight(role, vp, total_supply);
        let tw = vp.threshold.spec_to_weight(total_weight);
        let threshold: u128 = if vp.quorum > tw {
            vp.quorum
        } else {
            tw
        };
        let c = p.spec_counts_for(role.name@);
        if c.approve >= threshold {
            Option::Some(ProposalStatus::Approved)
        } else if c.reject >= threshold {
            Option::Some(ProposalStatus::Rejected)
        } else if c.remove >= threshold {
            Option::Some(ProposalStatus::Removed)
        } else {
            Option::None
        }
    }

    /// The decision of the first eligible role from index `i` on whose tally
    /// is decisive, in policy-declared order.
    pub open spec fn spec_tally_from(self, p: Proposal, total_supply: u128, i: int) -> Option<
        ProposalStatus,
    >
        decreases self.roles@.len() - i,
    {
        if i < 0 || i >= self.roles@.len() {
            Option::None
        } else if self.roles@[i].spec_vote_eligible(p.kind.spec_label()) {
            match self.spec_role_decision(self.roles@[i], p, total_supply) {
                Option::Some(s) => Option::Some(s),
                Option::None => self.spec_tally_from(p, total_supply, i + 1),
            }
        } else {
            self.spec_tally_from(p, total_supply, i + 1)
        }
    }

    /// The status the proposal should move to: the first decisive eligible
    /// role's outcome; else `Expired` once the voting period has passed;
    /// else the present status.
    pub open spec fn spec_proposal_status(self, p: Proposal, now: u64, total_supply: u128) -> Result<
        ProposalStatus,
        DaoError,
    > {
        if self.spec_tally_overflows(p, total_supply) {
            Result::Err(DaoError::ArithmeticOverflow)
        } else {
            match self.spec_tally_from(p, total_supply, 0) {
                Option::Some(s) => Result::Ok(s),
                Option::None => if now > p.submission_time + self.proposal_period {
                    Result::Ok(ProposalStatus::Expired)
                } else {
                    Result::Ok(p.status)
                },
            }
        }
    }

    /// From start index `h`, the evaluation returns role `i`'s decision
    /// when every eligible role in between is undecisive.
    proof fn lemma_first_decisive_from(
        self,
        p: Proposal,
        total_supply: u128,
        i: int,
        st: ProposalStatus,
        h: int,
    )
        requires
            0 <= h <= i < self.roles@.len(),
            self.roles@[i].spec_vote_eligible(p.kind.spec_label()),
            self.spec_role_decision(self.roles@[i], p, total_supply) == Option::Some(st),
            forall|j: int|
                h <= j < i && (#[trigger] self.roles@[j]).spec_vote_eligible(p.kind.spec_label())
                    ==> self.spec_role_decision(self.roles@[j], p, total_supply) is None,
        ensures
            self.spec_tally_from(p, total_supply, h) == Option::Some(st),
        decreases i - h,
    {
        if h < i {
            self.lemma_first_decisive_from(p, total_supply, i, st, h + 1);
        }
    }

    /// Ties are broken by policy-declared order: when role `i` is eligible
    /// for the proposal's label and its tally is decisive for `st`, and no
    /// eligible role declared before it is decisive, the whole evaluation
    /// settles on `st` — whatever any later role's tally says, and at every
    /// time.
    pub proof fn lemma_first_decisive_role_decides(
        self,
        p: Proposal,
        total_supply: u128,
        i: int,
        st: ProposalStatus,
    )
        requires
            0 <= i < self.roles@.len(),
            self.roles@[i].spec_vote_eligible(p.kind.spec_label()),
            self.spec_role_decision(self.roles@[i], p, total_supply) == Option::Some(st),
            forall|j: int|
                0 <= j < i && (#[trigger] self.roles@[j]).spec_vote_eligible(p.kind.spec_label())
                    ==> self.spec_role_decision(self.roles@[j], p, total_supply) is None,
            !self.spec_tally_overflows(p, total_supply),
        ensures
            self.spec_tally_from(p, total_supply, 0) == Option::Some(st),
            forall|now: u64|
                self.spec_proposal_status(p, now, total_supply) == Result::<
                    ProposalStatus,
                    DaoError,
                >::Ok(st),
    {
        self.lemma_first_decisive_from(p, total_supply, i, st, 0);
    }

    /// A decisive tally only ever approves, rejects or removes.
    pub proof fn lemma_tally_from_range(self, p: Proposal, total_supply: u128, i: int)
        ensures
            self.spec_tally_from(p, total_supply, i) matches Option::Some(s) ==> (s
                == ProposalStatus::Approved || s == ProposalStatus::Rejected || s
                == ProposalStatus::Removed),
        decreases self.roles@.len() - i,
    {
        if 0 <= i < self.roles@.len() {
            self.lemma_tally_from_range(p, total_supply, i + 1);
        }
    }

    /// Evaluates the proposal's tallies against every role eligible for its
    /// label, in declared order, stopping at the first decisive one. A
    /// role's tally is decisive for an outcome when that outcome's cast
    /// weight reaches both the role's quorum and the threshold share of the
    /// role's total available weight — the member count for a group role
    /// voting one member one vote, the token supply otherwise; both bounds
    /// are role-scoped, never DAO-wide. All arithmetic is checked; a wrap
    /// anywhere is reported instead of performed.
    pub fn proposal_status(&self, p: &Proposal, now: u64, total_supply: u128) -> (r: Result<
        ProposalStatus,
        DaoError,
    >)
        requires
            self.wf(),
        ensures
            r == self.spec_proposal_status(*p, now, total_supply),
    {
        let label = p.kind.policy_label_string();
        // First sweep: refuse the whole evaluation if any eligible role's
        // threshold computation would wrap.
        let mut i: usize = 0;
        while i < self.roles.len()
            invariant
                self.wf(),
                label@ == p.kind.spec_label(),
                0 <= i <= self.roles@.len(),
                forall|j: int|
                    0 <= j < i && (#[trigger] self.roles@[j]).spec_vote_eligible(label@)
                        ==> !self.spec_vote_policy_for(
                        self.roles@[j],
                        label@,
                    ).threshold.spec_to_weight_overflows(
                        Policy::spec_total_weight(
                            self.roles@[j],
                            self.spec_vote_policy_for(self.roles@[j], label@),
                            total_supply,
                        ),
                    ),
            decreases self.roles@.len() - i,
        {
            let role = &self.roles[i];
            if role.vote_eligible(&label) {
                let vp = self.vote_policy_for(role, &label);
                let total_weight = match &role.kind {
                    RoleKind::Group(g) => if vp.weight_kind == WeightKind::RoleWeight {
                        g.len() as u128
                    } else {
                        total_supply
                    },
                    _ => total_supply,
                };
                proof {
                    assert(total_weight == Policy::spec_total_weight(
                        self.roles@[i as int],
                        vp,
                        total_supply,
                    ));
                }
                if vp.threshold.to_weight(total_weight).is_err() {
                    proof {
                        assert(self.spec_tally_overflows(*p, total_supply));
                    }
                    return Err(DaoError::ArithmeticOverflow);
                }
            }
            i += 1;
        }
        // Second sweep: the first eligible role whose tally is decisive.
        let mut i: usize = 0;
        while i < self.roles.len()
            invariant
                self.wf(),
                label@ == p.kind.spec_label(),
                !self.spec_tally_overflows(*p, total_supply),
                0 <= i <= self.roles@.len(),
                self.spec_tally_from(*p, total_supply, 0) == self.spec_tally_from(
                    *p,
                    total_supply,
                    i as int,
                ),
            decreases self.roles@.len() - i,
        {
            let ghost i0 = i as int;
            let role = &self.roles[i];
            if role.vote_eligible(&label) {
                let vp = self.vote_policy_for(role, &label);
                let total_weight = match &role.kind {
                    RoleKind::Group(g) => if vp.weight_kind == WeightKind::RoleWeight {
                        g.len() as u128
                    } else {
                        total_supply
                    },
                    _ => total_supply,
                };
                proof {
                    assert(total_weight == Policy::spec_total_weight(
                        self.roles@[i0],
                        vp,
                        total_supply,
                    ));
                }
                let tw = match vp.threshold.to_weight(total_weight) {
                    Result::Ok(w) => w,
                    Result::Err(_) => {
                        proof {
                            assert(self.spec_tally_overflows(*p, total_supply));
                        }
                        return Err(DaoError::ArithmeticOverflow);
                    },
                };
                let threshold = if vp.quorum > tw {
                    vp.quorum
                } else {
                    tw
                };
                let c = p.counts_for(&role.name);
                proof {
                    assert(self.spec_tally_from(*p, total_supply, 0) == self.spec_tally_from(
                        *p,
                        total_supply,
                        i0,
                    ));
                }
                if c.approve >= threshold {
                    proof {
                        assert(self.spec_role_decision(self.roles@[i0], *p, total_supply)
                            == Option::Some(ProposalStatus::Approved));
                    }
                    return Ok(ProposalStatus::Approved);
                } else if c.reject >= threshold {
                    proof {
                        assert(self.spec_role_decision(self.roles@[i0], *p, total_supply)
                            == Option::Some(ProposalStatus::Rejected));
                    }
                    return Ok(ProposalStatus::Rejected);
                } else if c.remove >= threshold {
                    proof {
                        assert(self.spec_role_decision(self.roles@[i0], *p, total_supply)
                            == Option::Some(ProposalStatus::Removed));
                    }
                    return Ok(ProposalStatus::Removed);
                }
                proof {
                    assert(self.spec_role_decision(self.roles@[i0], *p, total_supply)
                        is None);
                    assert(self.spec_tally_from(*p, total_supply, i0) == self.spec_tally_from(
                        *p,
                        total_supply,
                        i0 + 1,
                    ));
                }
            }
            i += 1;
        }
        let expiry: u128 = (p.submission_time as u128) + (self.proposal_period as u128);
        if (now as u128) > expiry {
            Ok(ProposalStatus::Expired)
        } else {
            Ok(p.status)
        }
    }
}

/// Every element of `r` equals the element of `v` at the same place.
pub fn clone_strings(v: &Vec<String>) -> (r: Vec<String>)
    ensures
        r@ == v@,
{
    let mut r: Vec<String> = Vec::new();
    let mut i: usize = 0;
    while i < v.len()
        invariant
            0 <= i <= v@.len(),
            r@ =~= v@.subrange(0, i as int),
        decreases v@.len() - i,
    {
        r.push(v[i].clone());
        i += 1;
    }
    proof {
        assert(r@ =~= v@);
    }
    r
}

impl Permission {
    /// An equal copy of this permission entry.
    pub fn duplicate(&self) -> (r: Permission)
        ensures
            r == *self,
    {
        Permission {
            label: match &self.label {
                Option::Some(l) => Some(l.clone()),
                Option::None => None,
            },
            action: match &self.action {
                Option::Some(a) => Some(*a),
                Option::None => None,
            },
        }
    }
}

/// The two membership rules read the same (group lists may differ as
/// containers but hold equal accounts in the same order).
pub open spec fn role_kind_equiv(a: RoleKind, b: RoleKind) -> bool {
    match (a, b) {
        (RoleKind::Everyone, RoleKind::Everyone) => true,
        (RoleKind::Member(x), RoleKind::Member(y)) => x == y,
        (RoleKind::Group(g), RoleKind::Group(h)) => g@ == h@,
        _ => false,
    }
}

/// The two roles read the same: equal names, membership, permissions and
/// vote policies.
pub open spec fn role_equiv(a: RolePermission, b: RolePermission) -> bool {
    &&& a.name == b.name
    &&& role_kind_equiv(a.kind, b.kind)
    &&& a.permissions@ == b.permissions@
    &&& a.vote_policy@ == b.vote_policy@
}

/// The two policies read the same, role by role.
pub open spec fn policy_equiv(a: Policy, b: Policy) -> bool {
    &&& a.roles@.len() == b.roles@.len()
    &&& forall|i: int|
        0 <= i < a.roles@.len() ==> role_equiv(#[trigger] a.roles@[i], #[trigger] b.roles@[i])
    &&& a.default_vote_policy == b.default_vote_policy
    &&& a.proposal_bond == b.proposal_bond
    &&& a.proposal_period == b.proposal_period
    &&& a.bounty_bond == b.bounty_bond
    &&& a.bounty_forgiveness_period == b.bounty_forgiveness_period
}

/// An equivalent policy is well formed whenever the original is.
pub proof fn lemma_policy_equiv_wf(a: Policy, b: Policy)
    requires
        a.wf(),
        policy_equiv(a, b),
    ensures
        b.wf(),
{
    assert forall|i: int| 0 <= i < b.roles@.len() implies (#[trigger] b.roles@[i]).wf() by {
        assert(role_equiv(a.roles@[i], b.roles@[i]));
        assert(a.roles@[i].wf());
        assert(b.roles@[i].vote_policy@ == a.roles@[i].vote_policy@);
    }
    assert forall|i: int, j: int|
        0 <= i < j < b.roles@.len() implies (#[trigger] b.roles@[i]).name@ != (
    #[trigger] b.roles@[j]).name@ by {
        assert(role_equiv(a.roles@[i], b.roles@[i]));
        assert(role_equiv(a.roles@[j], b.roles@[j]));
    }
}

impl RoleKind {
    /// A copy of this membership rule reading the same.
    pub fn duplicate(&self) -> (r: RoleKind)
        ensures
            role_kind_equiv(r, *self),
    {
        match self {
            RoleKind::Everyone => RoleKind::Everyone,
            RoleKind::Member(a) => RoleKind::Member(*a),
            RoleKind::Group(g) => RoleKind::Group(clone_strings(g)),
        }
    }
}

/// Every element of `r` equals the element of `v` at the same place.
pub fn clone_permissions(v: &Vec<Permission>) -> (r: Vec<Permission>)
    ensures
        r@ == v@,
{
    let mut r: Vec<Permission> = Vec::new();
    let mut i: usize = 0;
    while i < v.len()
        invariant
            0 <= i <= v@.len(),
            r@ =~= v@.subrange(0, i as int),
        decreases v@.len() - i,
    {
        r.push(v[i].duplicate());
        i += 1;
    }
    proof {
        assert(r@ =~= v@);
    }
    r
}

/// Every element of `r` equals the element of `v` at the same place.
pub fn clone_vote_policies(v: &Vec<(String, VotePolicy)>) -> (r: Vec<(String, VotePolicy)>)
    ensures
        r@ == v@,
{
    let mut r: Vec<(String, VotePolicy)> = Vec::new();
    let mut i: usize = 0;
    while i < v.len()
        invariant
            0 <= i <= v@.len(),
            r@ =~= v@.subrange(0, i as int),
        decreases v@.len() - i,
    {
        r.push((v[i].0.clone(), v[i].1));
        i += 1;
    }
    proof {
        assert(r@ =~= v@);
    }
    r
}

impl RolePermission {
    /// A copy of this role reading the same.
    pub fn duplicate(&self) -> (r: RolePermission)
        ensures
            role_equiv(r, *self),
    {
        RolePermission {
            name: self.name.clone(),
            kind: self.kind.duplicate(),
            permissions: clone_permissions(&self.permissions),
            vote_policy: clone_vote_policies(&self.vote_policy),
        }
    }
}

impl Policy {
    /// A copy of the whole policy reading the same.
    pub fn duplicate(&self) -> (r: Policy)
        ensures
            policy_equiv(r, *self),
    {
        let mut roles: Vec<RolePermission> = Vec::new();
        let mut i: usize = 0;
        while i < self.roles.len()
            invariant
                0 <= i <= self.roles@.len(),
                roles@.len() == i,
                forall|j: int|
                    0 <= j < i ==> role_equiv(#[trigger] roles@[j], #[trigger] self.roles@[j]),
            decreases self.roles@.len() - i,
        {
            roles.push(self.roles[i].duplicate());
            i += 1;
        }
        Policy {
            roles,
            default_vote_policy: self.default_vote_policy,
            proposal_bond: self.proposal_bond,
            proposal_period: self.proposal_period,
            bounty_bond: self.bounty_bond,
            bounty_forgiveness_period: self.bounty_forgiveness_period,
        }
    }

    /// Adds `member_id` to the group of the role named `role`. A missing
    /// role, a role of another kind, or a member already present leave the
    /// policy unchanged.
    pub fn add_member_to_role(&mut self, role: &String, member_id: &String)
        requires
            old(self).wf(),
        ensures
            final(self).wf(),
            spec_add_member_effect(*old(self), *final(self), role@, *member_id),
    {
        let idx = match self.role_index(role) {
            Option::Some(i) => i,
            Option::None => {
                return ;
            },
        };
        let new_role = {
            let r_old = &self.roles[idx];
            match &r_old.kind {
                RoleKind::Group(g) => {
                    if vec_contains_string(g, member_id) {
                        return ;
                    }
                    let mut g2 = clone_strings(g);
                    g2.push(member_id.clone());
                    RolePermission {
                        name: r_old.name.clone(),
                        kind: RoleKind::Group(g2),
                        permissions: clone_permissions(&r_old.permissions),
                        vote_policy: clone_vote_policies(&r_old.vote_policy),
                    }
                },
                _ => {
                    return ;
                },
            }
        };
        self.roles[idx] = new_role;
        proof {
            assert forall|i1: int, i2: int|
                0 <= i1 < i2 < final(self).roles@.len() implies (
            #[trigger] final(self).roles@[i1]).name@ != (#[trigger] final(self).roles@[i2]).name@
                by {
                assert(old(self).roles@[i1].name@ != old(self).roles@[i2].name@);
            }
        }
    }
}

/// What removing `member` from role `role` leaves behind: only that role's
/// group shrinks, by its first entry reading `member`.
pub open spec fn spec_remove_member_effect(
    pre: Policy,
    post: Policy,
    role: Seq<char>,
    member: Seq<char>,
) -> bool {
    &&& !pre.spec_role_named(role) ==> post == pre
    &&& post.default_vote_policy == pre.default_vote_policy
    &&& post.proposal_bond == pre.proposal_bond
    &&& post.proposal_period == pre.proposal_period
    &&& post.bounty_bond == pre.bounty_bond
    &&& post.bounty_forgiveness_period == pre.bounty_forgiveness_period
    &&& post.roles@.len() == pre.roles@.len()
    &&& forall|j: int|
        0 <= j < pre.roles@.len() && (#[trigger] pre.roles@[j]).name@ != role ==> post.roles@[j]
            == pre.roles@[j]
    &&& forall|j: int|
        0 <= j < pre.roles@.len() && (#[trigger] pre.roles@[j]).name@ == role ==> {
            let before = pre.roles@[j];
            let after = post.roles@[j];
            &&& after.name == before.name
            &&& after.permissions@ == before.permissions@
            &&& after.vote_policy@ == before.vote_policy@
            &&& match before.kind {
                RoleKind::Group(g) => if seq_contains_string(g@, member) {
                    after.kind matches RoleKind::Group(g2) && exists|idx: int|
                        0 <= idx < g@.len() && (#[trigger] g@[idx])@ == member && (forall|jj: int|
                            0 <= jj < idx ==> g@[jj]@ != member) && g2@ == g@.remove(idx)
                } else {
                    after.kind == before.kind
                },
                _ => after.kind == before.kind,
            }
        }
}

/// What adding `member` to role `role` leaves behind: only that role's
/// group grows, by `member` at its end, when not already present.
pub open spec fn spec_add_member_effect(
    pre: Policy,
    post: Policy,
    role: Seq<char>,
    member: String,
) -> bool {
    &&& !pre.spec_role_named(role) ==> post == pre
    &&& post.default_vote_policy == pre.default_vote_policy
    &&& post.proposal_bond == pre.proposal_bond
    &&& post.proposal_period == pre.proposal_period
    &&& post.bounty_bond == pre.bounty_bond
    &&& post.bounty_forgiveness_period == pre.bounty_forgiveness_period
    &&& post.roles@.len() == pre.roles@.len()
    &&& forall|j: int|
        0 <= j < pre.roles@.len() && (#[trigger] pre.roles@[j]).name@ != role ==> post.roles@[j]
            == pre.roles@[j]
    &&& forall|j: int|
        0 <= j < pre.roles@.len() && (#[trigger] pre.roles@[j]).name@ == role ==> {
            let before = pre.roles@[j];
            let after = post.roles@[j];
            &&& after.name == before.name
            &&& after.permissions@ == before.permissions@
            &&& after.vote_policy@ == before.vote_policy@
            &&& match before.kind {
                RoleKind::Group(g) => if !seq_contains_string(g@, member@) {
                    after.kind matches RoleKind::Group(g2) && g2@ == g@.push(member)
                } else {
                    after.kind == before.kind
                },
                _ => after.kind == before.kind,
            }
        }
}

/// What installing `role` leaves behind: the role under that name replaced,
/// or appended when the name was free.
pub open spec fn spec_add_or_update_role_effect(
    pre: Policy,
    post: Policy,
    role: RolePermission,
) -> bool {
    &&& post.default_vote_policy == pre.default_vote_policy
    &&& post.proposal_bond == pre.proposal_bond
    &&& post.proposal_period == pre.proposal_period
    &&& post.bounty_bond == pre.bounty_bond
    &&& post.bounty_forgiveness_period == pre.bounty_forgiveness_period
    &&& pre.spec_role_named(role.name@) ==> exists|i: int|
        0 <= i < pre.roles@.len() && (#[trigger] pre.roles@[i]).name@ == role.name@
            && post.roles@ == pre.roles@.update(i, role)
    &&& !pre.spec_role_named(role.name@) ==> post.roles@ == pre.roles@.push(role)
}

/// What removing the role named `role` leaves behind.
pub open spec fn spec_remove_role_effect(pre: Policy, post: Policy, role: Seq<char>) -> bool {
    &&& !pre.spec_role_named(role) ==> post == pre
    &&& post.default_vote_policy == pre.default_vote_policy
    &&& post.proposal_bond == pre.proposal_bond
    &&& post.proposal_period == pre.proposal_period
    &&& post.bounty_bond == pre.bounty_bond
    &&& post.bounty_forgiveness_period == pre.bounty_forgiveness_period
    &&& pre.spec_role_named(role) ==> exists|i: int|
        0 <= i < pre.roles@.len() && (#[trigger] pre.roles@[i]).name@ == role && post.roles@
            == pre.roles@.remove(i)
}

/// What overwriting the bond and period parameters leaves behind.
pub open spec fn spec_update_parameters_effect(
    pre: Policy,
    post: Policy,
    parameters: PolicyParameters,
) -> bool {
    &&& post.roles == pre.roles
    &&& post.default_vote_policy == pre.default_vote_policy
    &&& post.proposal_bond == (match parameters.proposal_bond {
        Option::Some(b) => b,
        Option::None => pre.proposal_bond,
    })
    &&& post.proposal_period == (match parameters.proposal_period {
        Option::Some(b) => b,
        Option::None => pre.proposal_period,
    })
    &&& post.bounty_bond == (match parameters.bounty_bond {
        Option::Some(b) => b,
        Option::None => pre.bounty_bond,
    })
    &&& post.bounty_forgiveness_period == (match parameters.bounty_forgiveness_period {
        Option::Some(b) => b,
        Option::None => pre.bounty_forgiveness_period,
    })
}

impl Policy {
    /// Removes `member_id` from the group of the role named `role` (the
    /// first occurrence, were the list ever to hold several). A missing
    /// role, another kind, or an absent member leave the policy unchanged.
    pub fn remove_member_from_role(&mut self, role: &String, member_id: &String)
        requires
            old(self).wf(),
        ensures
            final(self).wf(),
            spec_remove_member_effect(*old(self), *final(self), role@, member_id@),
    {
        let idx = match self.role_index(role) {
            Option::Some(i) => i,
            Option::None => {
                return ;
            },
        };
        let new_role = {
            let r_old = &self.roles[idx];
            match &r_old.kind {
                RoleKind::Group(g) => {
                    let mut w: usize = 0;
                    let mut found = false;
                    while w < g.len() && !found
                        invariant
                            0 <= w <= g@.len(),
                            found ==> w < g@.len() && g@[w as int]@ == member_id@ && forall|jj: int|
                                0 <= jj < w ==> g@[jj]@ != member_id@,
                            !found ==> forall|jj: int| 0 <= jj < w ==> g@[jj]@ != member_id@,
                        decreases g@.len() - w + (if found { 0int } else { 1int }),
                    {
                        if g[w] == *member_id {
                            found = true;
                        } else {
                            w += 1;
                        }
                    }
                    if !found {
                        return ;
                    }
                    let mut g2 = clone_strings(g);
                    g2.remove(w);
                    RolePermission {
                        name: r_old.name.clone(),
                        kind: RoleKind::Group(g2),
                        permissions: clone_permissions(&r_old.permissions),
                        vote_policy: clone_vote_policies(&r_old.vote_policy),
                    }
                },
                _ => {
                    return ;
                },
            }
        };
        self.roles[idx] = new_role;
        proof {
            assert forall|i1: int, i2: int|
                0 <= i1 < i2 < final(self).roles@.len() implies (
            #[trigger] final(self).roles@[i1]).name@ != (#[trigger] final(self).roles@[i2]).name@
                by {
                assert(old(self).roles@[i1].name@ != old(self).roles@[i2].name@);
            }
        }
    }

    /// Installs `role` under its name: replaces the role already carrying
    /// that name, or appends a new one.
    pub fn add_or_update_role(&mut self, role: RolePermission)
        requires
            old(self).wf(),
            role.wf(),
        ensures
            final(self).wf(),
            spec_add_or_update_role_effect(*old(self), *final(self), role),
    {
        match self.role_index(&role.name) {
            Option::Some(i) => {
                self.roles[i] = role;
                proof {
                    assert forall|i1: int, i2: int|
                        0 <= i1 < i2 < final(self).roles@.len() implies (
                    #[trigger] final(self).roles@[i1]).name@ != (
                    #[trigger] final(self).roles@[i2]).name@ by {
                        assert(old(self).roles@[i1].name@ != old(self).roles@[i2].name@);
                    }
                }
            },
            Option::None => {
                self.roles.push(role);
                proof {
                    assert forall|i1: int, i2: int|
                        0 <= i1 < i2 < final(self).roles@.len() implies (
                    #[trigger] final(self).roles@[i1]).name@ != (
                    #[trigger] final(self).roles@[i2]).name@ by {
                        if i2 == final(self).roles@.len() - 1 {
                            assert(old(self).roles@[i1].name@ != role.name@);
                        } else {
                            assert(old(self).roles@[i1].name@ != old(self).roles@[i2].name@);
                        }
                    }
                }
            },
        }
    }

    /// Removes the role named `role`; a missing name leaves the policy
    /// unchanged.
    pub fn remove_role(&mut self, role: &String)
        requires
            old(self).wf(),
        ensures
            final(self).wf(),
            spec_remove_role_effect(*old(self), *final(self), role@),
    {
        match self.role_index(role) {
            Option::Some(i) => {
                self.roles.remove(i);
                proof {
                    assert forall|i1: int, i2: int|
                        0 <= i1 < i2 < final(self).roles@.len() implies (
                    #[trigger] final(self).roles@[i1]).name@ != (
                    #[trigger] final(self).roles@[i2]).name@ by {
                        let m1: int = if i1 < i { i1 } else { i1 + 1 };
                        let m2: int = if i2 < i { i2 } else { i2 + 1 };
                        assert(final(self).roles@[i1] == old(self).roles@[m1]);
                        assert(final(self).roles@[i2] == old(self).roles@[m2]);
                        assert(old(self).roles@[m1].name@ != old(self).roles@[m2].name@);
                    }
                }
            },
            Option::None => {},
        }
    }

    /// Replaces the default vote policy.
    pub fn update_default_vote_policy(&mut self, vote_policy: VotePolicy)
        requires
            old(self).wf(),
            vote_policy.wf(),
        ensures
            final(self).wf(),
            final(self).default_vote_policy == vote_policy,
            final(self).roles == old(self).roles,
            final(self).proposal_bond == old(self).proposal_bond,
            final(self).proposal_period == old(self).proposal_period,
            final(self).bounty_bond == old(self).bounty_bond,
            final(self).bounty_forgiveness_period == old(self).bounty_forgiveness_period,
    {
        self.default_vote_policy = vote_policy;
    }

    /// Overwrites each bond or period parameter for which a new value is
    /// given; `None` keeps the present one.
    pub fn update_parameters(&mut self, parameters: &PolicyParameters)
        requires
            old(self).wf(),
        ensures
            final(self).wf(),
            spec_update_parameters_effect(*old(self), *final(self), *parameters),
    {
        if let Option::Some(b) = parameters.proposal_bond {
            self.proposal_bond = b;
        }
        if let Option::Some(b) = parameters.proposal_period {
            self.proposal_period = b;
        }
        if let Option::Some(b) = parameters.bounty_bond {
            self.bounty_bond = b;
        }
        if let Option::Some(b) = parameters.bounty_forgiveness_period {
            self.bounty_forgiveness_period = b;
        }
    }
}

impl WeightOrRatio {
    /// Decides well-formedness: a ratio needs a non-zero denominator.
    pub fn is_valid(&self) -> (r: bool)
        ensures
            r == self.wf(),
    {
        match self {
            WeightOrRatio::Weight(_) => true,
            WeightOrRatio::Ratio(_, denom) => *denom > 0,
        }
    }
}

impl VotePolicy {
    /// Decides well-formedness of the threshold.
    pub fn is_valid(&self) -> (r: bool)
        ensures
            r == self.wf(),
    {
        self.threshold.is_valid()
    }
}

impl RolePermission {
    /// Decides well-formedness: per-label vote policies carry distinct
    /// labels and valid thresholds.
    pub fn is_valid(&self) -> (r: bool)
        ensures
            r == self.wf(),
    {
        let mut i: usize = 0;
        while i < self.vote_policy.len()
            invariant
                0 <= i <= self.vote_policy@.len(),
                forall|j1: int, j2: int|
                    0 <= j1 < j2 < self.vote_policy@.len() && j1 < i ==> (
                    #[trigger] self.vote_policy@[j1]).0@ != (#[trigger] self.vote_policy@[j2]).0@,
                forall|j: int|
                    0 <= j < i ==> (#[trigger] self.vote_policy@[j].1).wf(),
            decreases self.vote_policy@.len() - i,
        {
            if !self.vote_policy[i].1.is_valid() {
                return false;
            }
            let mut j: usize = i + 1;
            while j < self.vote_policy.len()
                invariant
                    0 <= i < j <= self.vote_policy@.len(),
                    forall|j2: int|
                        i < j2 < j ==> (#[trigger] self.vote_policy@[j2]).0@
                            != self.vote_policy@[i as int].0@,
                decreases self.vote_policy@.len() - j,
            {
                if self.vote_policy[j].0 == self.vote_policy[i].0 {
                    return false;
                }
                j += 1;
            }
            i += 1;
        }
        true
    }
}

impl Policy {
    /// Decides well-formedness: distinct role names, valid roles, a valid
    /// default vote policy.
    pub fn is_valid(&self) -> (r: bool)
        ensures
            r == self.wf(),
    {
        if !self.default_vote_policy.is_valid() {
            return false;
        }
        let mut i: usize = 0;
        while i < self.roles.len()
            invariant
                self.default_vote_policy.wf(),
                0 <= i <= self.roles@.len(),
                forall|j1: int, j2: int|
                    0 <= j1 < j2 < self.roles@.len() && j1 < i ==> (
                    #[trigger] self.roles@[j1]).name@ != (#[trigger] self.roles@[j2]).name@,
                forall|j: int| 0 <= j < i ==> (#[trigger] self.roles@[j]).wf(),
            decreases self.roles@.len() - i,
        {
            if !self.roles[i].is_valid() {
                return false;
            }
            let mut j: usize = i + 1;
            while j < self.roles.len()
                invariant
                    0 <= i < j <= self.roles@.len(),
                    forall|j2: int|
                        i < j2 < j ==> (#[trigger] self.roles@[j2]).name@
                            != self.roles@[i as int].name@,
                decreases self.roles@.len() - j,
            {
                if self.roles[j].name == self.roles[i].name {
                    return false;
                }
                j += 1;
            }
            i += 1;
        }
        true
    }
}

/// Policy as carried inside proposals and at construction: either a bare
/// council (shorthand for `default_policy` over it) or a full policy.
pub enum VersionedPolicy {
    Default(Vec<String>),
    Current(Policy),
}

impl VersionedPolicy {
    /// A copy of this versioned policy reading the same.
    pub fn duplicate(&self) -> (r: VersionedPolicy)
        ensures
            match self {
                VersionedPolicy::Default(c) => r matches VersionedPolicy::Default(c2) && c2@ == c@,
                VersionedPolicy::Current(p) => r matches VersionedPolicy::Current(p2)
                    && policy_equiv(p2, *p),
            },
    {
        match self {
            VersionedPolicy::Default(c) => VersionedPolicy::Default(clone_strings(c)),
            VersionedPolicy::Current(p) => VersionedPolicy::Current(p.duplicate()),
        }
    }

    /// Upgrades the shorthand to a full policy; a full policy passes through.
    pub fn upgrade(self) -> (p: Policy)
        ensures
            match self {
                VersionedPolicy::Current(q) => p == q,
                VersionedPolicy::Default(council) => p.wf() && default_policy_ens(council, p),
            },
    {
        match self {
            VersionedPolicy::Current(p) => p,
            VersionedPolicy::Default(council) => default_policy(council),
        }
    }
}

/// What `default_policy` promises: an `all` role letting anyone submit
/// proposals, and a `council` group role permitted for everything, voting one
/// member one vote with no quorum and strict majority.
pub open spec fn default_policy_ens(council: Vec<String>, p: Policy) -> bool {
    &&& p.roles@.len() == 2
    &&& p.roles@[0].name@ == "all"@
    &&& p.roles@[0].kind is Everyone
    &&& p.roles@[0].permissions@.len() == 1
    &&& p.roles@[0].permissions@[0].label is None
    &&& p.roles@[0].permissions@[0].action == Option::Some(Action::AddProposal)
    &&& p.roles@[0].vote_policy@.len() == 0
    &&& p.roles@[1].name@ == "council"@
    &&& p.roles@[1].kind matches RoleKind::Group(g) && g@ == council@
    &&& p.roles@[1].permissions@.len() == 1
    &&& p.roles@[1].permissions@[0].label is None
    &&& p.roles@[1].permissions@[0].action is None
    &&& p.roles@[1].vote_policy@.len() == 0
    &&& p.default_vote_policy == (VotePolicy {
        weight_kind: WeightKind::RoleWeight,
        quorum: 0u128,
        threshold: WeightOrRatio::Ratio(1u64, 2u64),
    })
    &&& p.proposal_bond == 1000000000000000000000000u128
    &&& p.proposal_period == 604800000000000u64
    &&& p.bounty_bond == 1000000000000000000000000u128
    &&& p.bounty_forgiveness_period == 86400000000000u64
}

/// The policy a fresh DAO starts with when only a council is given.
pub fn default_policy(council: Vec<String>) -> (p: Policy)
    ensures
        p.wf(),
        default_policy_ens(council, p),
{
    proof {
        reveal_strlit("all");
        reveal_strlit("council");
    }
    let mut roles: Vec<RolePermission> = Vec::new();
    let mut all_perms: Vec<Permission> = Vec::new();
    all_perms.push(Permission { label: None, action: Some(Action::AddProposal) });
    roles.push(
        RolePermission {
            name: "all".to_owned(),
            kind: RoleKind::Everyone,
            permissions: all_perms,
            vote_policy: Vec::new(),
        },
    );
    let mut council_perms: Vec<Permission> = Vec::new();
    council_perms.push(Permission { label: None, action: None });
    roles.push(
        RolePermission {
            name: "council".to_owned(),
            kind: RoleKind::Group(council),
            permissions: council_perms,
            vote_policy: Vec::new(),
        },
    );
    proof {
        assert("all"@.len() == 3);
        assert("council"@.len() == 7);
        assert(roles@[0].wf());
        assert(roles@[1].wf());
    }
    Policy {
        roles,
        default_vote_policy: VotePolicy::default_policy(),
        proposal_bond: 1000000000000000000000000,
        proposal_period: 604800000000000,
        bounty_bond: 1000000000000000000000000,
        bounty_forgiveness_period: 86400000000000,
    }
}

} // verus!
