use vstd::prelude::*;
use vstd::pervasive::VecAdditionalExecFns;

use crate::policy::UserInfo;
use crate::types::{
    assoc_get, has_key, lemma_assoc_get_at, lemma_assoc_get_push, lemma_assoc_get_push_fresh,
    lemma_assoc_update, Action, DaoError, OldAccountId,
};
use crate::proposals::{ProposalInput, ProposalKind, ProposalStatus};
use crate::{bounty_times_non_increasing, gov_unchanged, Contract};

verus! {

/// Information recorded about a claim of a bounty by a given user.
#[derive(Clone, Copy, PartialEq, Eq, Structural, Debug)]
pub struct BountyClaim {
    /// Bounty id that was claimed.
    pub bounty_id: u64,
    /// Start time of the claim.
    pub start_time: u64,
    /// Deadline specified by the claimer.
    pub deadline: u64,
    /// Whether the claimer has reported the work as done.
    pub completed: bool,
}

/// Bounty information.
pub struct Bounty {
    /// Description of the bounty.
    pub description: String,
    /// Token the bounty will be paid out in; "" for the native asset.
    pub token: OldAccountId,
    /// Amount to be paid out.
    pub amount: u128,
    /// How many times this bounty can be done.
    pub times: u32,
    /// Max deadline from claim that can be spent on this bounty.
    pub max_deadline: u64,
}

impl Bounty {
    /// An equal copy of this bounty.
    pub fn duplicate(&self) -> (r: Bounty)
        ensures
            r == *self,
    {
        Bounty {
            description: self.description.clone(),
            token: self.token.clone(),
            amount: self.amount,
            times: self.times,
            max_deadline: self.max_deadline,
        }
    }
}

/// Bounty records as persisted; legacy schemas would become further variants,
/// upgraded on read.
pub enum VersionedBounty {
    Default(Bounty),
}

impl core::convert::From<VersionedBounty> for Bounty {
    /// Upgrades a persisted record to the current schema.
    fn from(v: VersionedBounty) -> (b: Bounty) {
        match v {
            VersionedBounty::Default(b) => b,
        }
    }
}

impl vstd::std_specs::convert::FromSpecImpl<VersionedBounty> for Bounty {
    open spec fn obeys_from_spec() -> bool {
        true
    }

    open spec fn from_spec(v: VersionedBounty) -> Bounty {
        match v {
            VersionedBounty::Default(b) => b,
        }
    }
}

/// Whether this claim still blocks a slot of its bounty at `now`: completed
/// claims block until governance resolves them, incomplete ones until the
/// forgiveness period after their deadline has passed.
pub open spec fn spec_claim_blocks(c: BountyClaim, forgiveness: u64, now: u64) -> bool {
    c.completed || now as int <= c.start_time as int + c.deadline as int + forgiveness as int
}

/// How many claims of `s` from index `j` on name bounty `b`.
pub open spec fn spec_count_claims_in(s: Seq<BountyClaim>, b: u64, j: int) -> int
    decreases s.len() - j,
{
    if j < 0 || j >= s.len() {
        0
    } else {
        (if s[j].bounty_id == b {
            1int
        } else {
            0int
        }) + spec_count_claims_in(s, b, j + 1)
    }
}

/// How many claims across all accounts from account index `i` on name
/// bounty `b`.
pub open spec fn spec_count_claims_from(
    cs: Seq<(String, Vec<BountyClaim>)>,
    b: u64,
    i: int,
) -> int
    decreases cs.len() - i,
{
    if i < 0 || i >= cs.len() {
        0
    } else {
        spec_count_claims_in(cs[i].1@, b, 0) + spec_count_claims_from(cs, b, i + 1)
    }
}

/// How many claims of `s` from index `j` on block a slot of bounty `b`.
pub open spec fn spec_count_blocking_in(
    s: Seq<BountyClaim>,
    b: u64,
    forgiveness: u64,
    now: u64,
    j: int,
) -> int
    decreases s.len() - j,
{
    if j < 0 || j >= s.len() {
        0
    } else {
        (if s[j].bounty_id == b && spec_claim_blocks(s[j], forgiveness, now) {
            1int
        } else {
            0int
        }) + spec_count_blocking_in(s, b, forgiveness, now, j + 1)
    }
}

/// How many claims across all accounts from account index `i` on block a
/// slot of bounty `b`.
pub open spec fn spec_count_blocking_from(
    cs: Seq<(String, Vec<BountyClaim>)>,
    b: u64,
    forgiveness: u64,
    now: u64,
    i: int,
) -> int
    decreases cs.len() - i,
{
    if i < 0 || i >= cs.len() {
        0
    } else {
        spec_count_blocking_in(cs[i].1@, b, forgiveness, now, 0) + spec_count_blocking_from(
            cs,
            b,
            forgiveness,
            now,
            i + 1,
        )
    }
}

/// Counts are bounded by the number of claims left to look at.
proof fn lemma_count_claims_in_bounds(s: Seq<BountyClaim>, b: u64, j: int)
    ensures
        0 <= spec_count_claims_in(s, b, j) <= (if j < 0 || j >= s.len() {
            0int
        } else {
            s.len() - j
        }),
    decreases s.len() - j,
{
    if 0 <= j < s.len() {
        lemma_count_claims_in_bounds(s, b, j + 1);
    }
}

proof fn lemma_count_blocking_in_bounds(s: Seq<BountyClaim>, b: u64, forgiveness: u64, now: u64, j: int)
    ensures
        0 <= spec_count_blocking_in(s, b, forgiveness, now, j) <= (if j < 0 || j >= s.len() {
            0int
        } else {
            s.len() - j
        }),
    decreases s.len() - j,
{
    if 0 <= j < s.len() {
        lemma_count_blocking_in_bounds(s, b, forgiveness, now, j + 1);
    }
}

proof fn lemma_count_claims_from_nonneg(cs: Seq<(String, Vec<BountyClaim>)>, b: u64, i: int)
    ensures
        spec_count_claims_from(cs, b, i) >= 0,
    decreases cs.len() - i,
{
    if 0 <= i < cs.len() {
        lemma_count_claims_in_bounds(cs[i].1@, b, 0);
        lemma_count_claims_from_nonneg(cs, b, i + 1);
    }
}

proof fn lemma_count_blocking_from_nonneg(
    cs: Seq<(String, Vec<BountyClaim>)>,
    b: u64,
    forgiveness: u64,
    now: u64,
    i: int,
)
    ensures
        spec_count_blocking_from(cs, b, forgiveness, now, i) >= 0,
    decreases cs.len() - i,
{
    if 0 <= i < cs.len() {
        lemma_count_blocking_in_bounds(cs[i].1@, b, forgiveness, now, 0);
        lemma_count_blocking_from_nonneg(cs, b, forgiveness, now, i + 1);
    }
}

impl Contract {
    /// How many claims are recorded against bounty `id`, across all
    /// accounts.
    pub open spec fn spec_claim_count(self, id: u64) -> int {
        spec_count_claims_from(self.bounty_claimers@, id, 0)
    }

    /// How many recorded claims against bounty `id` still block a slot.
    pub open spec fn spec_blocking_claims(self, id: u64, now: u64) -> int {
        spec_count_blocking_from(
            self.bounty_claimers@,
            id,
            self.policy.bounty_forgiveness_period,
            now,
            0,
        )
    }

    /// Counts every claim recorded against bounty `id`.
    fn count_claims(&self, id: u64) -> (r: u128)
        ensures
            r as int == self.spec_claim_count(id),
    {
        let mut acc: u128 = 0;
        let mut i: usize = 0;
        while i < self.bounty_claimers.len()
            invariant
                0 <= i <= self.bounty_claimers@.len(),
                acc as int + spec_count_claims_from(self.bounty_claimers@, id, i as int)
                    == spec_count_claims_from(self.bounty_claimers@, id, 0),
                acc as int <= i as int * (usize::MAX as int),
            decreases self.bounty_claimers@.len() - i,
        {
            let s = &self.bounty_claimers[i].1;
            let mut inner: usize = 0;
            let mut j: usize = 0;
            while j < s.len()
                invariant
                    0 <= j <= s@.len(),
                    inner as int + spec_count_claims_in(s@, id, j as int) == spec_count_claims_in(
                        s@,
                        id,
                        0,
                    ),
                    inner <= j,
                decreases s@.len() - j,
            {
                if s[j].bounty_id == id {
                    inner += 1;
                }
                j += 1;
            }
            proof {
                lemma_count_claims_from_nonneg(self.bounty_claimers@, id, i as int + 1);
                lemma_count_claims_in_bounds(s@, id, 0);
                let m = usize::MAX as int;
                assert(acc as int + inner as int <= (i as int + 1) * m) by (nonlinear_arith)
                    requires
                        acc as int <= i as int * m,
                        inner as int <= m,
                ;
                assert((i as int + 1) * m <= (m + 1) * m) by (nonlinear_arith)
                    requires
                        i as int + 1 <= m + 1,
                        m >= 0,
                ;
                assert((m + 1) * m <= u128::MAX as int) by (nonlinear_arith)
                    requires
                        0 <= m <= u64::MAX as int,
                ;
            }
            acc = acc + (inner as u128);
            i += 1;
        }
        proof {
            lemma_count_claims_from_nonneg(self.bounty_claimers@, id, 0);
        }
        acc
    }

    /// Counts the claims against bounty `id` that still block a slot at
    /// `now`.
    fn count_blocking(&self, id: u64, now: u64) -> (r: u128)
        ensures
            r as int == self.spec_blocking_claims(id, now),
    {
        let forgiveness = self.policy.bounty_forgiveness_period;
        let mut acc: u128 = 0;
        let mut i: usize = 0;
        while i < self.bounty_claimers.len()
            invariant
                forgiveness == self.policy.bounty_forgiveness_period,
                0 <= i <= self.bounty_claimers@.len(),
                acc as int + spec_count_blocking_from(
                    self.bounty_claimers@,
                    id,
                    forgiveness,
                    now,
                    i as int,
                ) == spec_count_blocking_from(self.bounty_claimers@, id, forgiveness, now, 0),
                acc as int <= i as int * (usize::MAX as int),
            decreases self.bounty_claimers@.len() - i,
        {
            let s = &self.bounty_claimers[i].1;
            let mut inner: usize = 0;
            let mut j: usize = 0;
            while j < s.len()
                invariant
                    forgiveness == self.policy.bounty_forgiveness_period,
                    0 <= j <= s@.len(),
                    inner as int + spec_count_blocking_in(s@, id, forgiveness, now, j as int)
                        == spec_count_blocking_in(s@, id, forgiveness, now, 0),
                    inner <= j,
                decreases s@.len() - j,
            {
                let c = s[j];
                let blocks = c.completed || (now as u128) <= (c.start_time as u128) + (
                c.deadline as u128) + (forgiveness as u128);
                if c.bounty_id == id && blocks {
                    inner += 1;
                }
                j += 1;
            }
            proof {
                lemma_count_blocking_from_nonneg(
                    self.bounty_claimers@,
                    id,
                    forgiveness,
                    now,
                    i as int + 1,
                );
                lemma_count_blocking_in_bounds(s@, id, forgiveness, now, 0);
                let m = usize::MAX as int;
                assert(acc as int + inner as int <= (i as int + 1) * m) by (nonlinear_arith)
                    requires
                        acc as int <= i as int * m,
                        inner as int <= m,
                ;
                assert((i as int + 1) * m <= (m + 1) * m) by (nonlinear_arith)
                    requires
                        i as int + 1 <= m + 1,
                        m >= 0,
                ;
                assert((m + 1) * m <= u128::MAX as int) by (nonlinear_arith)
                    requires
                        0 <= m <= u64::MAX as int,
                ;
            }
            acc = acc + (inner as u128);
            i += 1;
        }
        proof {
            lemma_count_blocking_from_nonneg(self.bounty_claimers@, id, forgiveness, now, 0);
        }
        acc
    }

    /// How many claims are recorded against bounty `id`.
    pub fn get_bounty_number_of_claims(&self, id: u64) -> (r: u64)
        requires
            self.spec_claim_count(id) <= u64::MAX,
        ensures
            r as int == self.spec_claim_count(id),
    {
        self.count_claims(id) as u64
    }

    /// Index of `account`'s claim list, if it ever claimed.
    fn claimer_index(&self, account: &String) -> (r: Option<usize>)
        ensures
            match r {
                Option::Some(i) => i < self.bounty_claimers@.len()
                    && self.bounty_claimers@[i as int].0@ == account@ && forall|j: int|
                    0 <= j < i ==> (#[trigger] self.bounty_claimers@[j]).0@ != account@,
                Option::None => !has_key(self.bounty_claimers@, account@),
            },
    {
        let mut i: usize = 0;
        while i < self.bounty_claimers.len()
            invariant
                0 <= i <= self.bounty_claimers@.len(),
                forall|j: int|
                    0 <= j < i ==> (#[trigger] self.bounty_claimers@[j]).0@ != account@,
            decreases self.bounty_claimers@.len() - i,
        {
            if self.bounty_claimers[i].0 == *account {
                return Some(i);
            }
            i += 1;
        }
        None
    }

    /// Claims one slot of bounty `id` for `claimer` with the chosen
    /// `deadline`, against an attached bond. A stale claim of the claimer's
    /// own on this bounty is overwritten; stale claims of others stop
    /// blocking once the forgiveness period after their deadline has passed.
    pub fn bounty_claim(
        &mut self,
        id: u64,
        deadline: u64,
        claimer: String,
        attached: u128,
        now: u64,
    ) -> (r: Result<(), DaoError>)
        requires
            old(self).wf(),
            (id as int) < old(self).bounties@.len(),
        ensures
            final(self).wf(),
            r is Err ==> *final(self) == *old(self),
            r == Result::<(), DaoError>::Err(DaoError::InsufficientBond) <==> attached < old(
                self,
            ).policy.bounty_bond,
            r == Result::<(), DaoError>::Err(DaoError::AllClaimed) <==> attached >= old(
                self,
            ).policy.bounty_bond && old(self).spec_blocking_claims(id, now) >= old(
                self,
            ).spec_bounty(id as int).times,
            r == Result::<(), DaoError>::Err(DaoError::DeadlineExceeded) <==> attached >= old(
                self,
            ).policy.bounty_bond && old(self).spec_blocking_claims(id, now) < old(self).spec_bounty(
                id as int,
            ).times && deadline > old(self).spec_bounty(id as int).max_deadline,
            r == Result::<(), DaoError>::Err(DaoError::ArithmeticOverflow) <==> attached >= old(
                self,
            ).policy.bounty_bond && old(self).spec_blocking_claims(id, now) < old(self).spec_bounty(
                id as int,
            ).times && deadline <= old(self).spec_bounty(id as int).max_deadline && old(
                self,
            ).locked_amount + attached > u128::MAX,
            r matches Result::Err(e) ==> (e == DaoError::InsufficientBond || e
                == DaoError::AllClaimed || e == DaoError::DeadlineExceeded || e
                == DaoError::ArithmeticOverflow),
            r is Ok ==> {
                let forg = old(self).policy.bounty_forgiveness_period;
                let oldc = old(self).spec_claims_of(claimer@);
                let newc = final(self).spec_claims_of(claimer@);
                let nc = BountyClaim {
                    bounty_id: id,
                    start_time: now,
                    deadline: deadline,
                    completed: false,
                };
                &&& final(self).locked_amount == old(self).locked_amount + attached
                &&& gov_unchanged(*old(self), *final(self))
                &&& final(self).proposals@ == old(self).proposals@
                &&& final(self).dispatched@ == old(self).dispatched@
                &&& final(self).bounties@ == old(self).bounties@
                &&& if exists|j: int|
                    0 <= j < oldc.len() && (#[trigger] oldc[j]).bounty_id == id
                        && !spec_claim_blocks(oldc[j], forg, now) {
                    exists|j: int|
                        0 <= j < oldc.len() && (#[trigger] oldc[j]).bounty_id == id
                            && !spec_claim_blocks(oldc[j], forg, now) && (forall|jj: int|
                            0 <= jj < j ==> !((#[trigger] oldc[jj]).bounty_id == id
                                && !spec_claim_blocks(oldc[jj], forg, now))) && newc
                            == oldc.update(j, nc)
                } else {
                    newc == oldc.push(nc)
                }
                &&& forall|a: Seq<char>|
                    a != claimer@ ==> final(self).spec_claims_of(a) == old(self).spec_claims_of(a)
            },
            bounty_times_non_increasing(*old(self), *final(self)),
    {
        let times = self.get_bounty(id).times;
        let max_deadline = self.get_bounty(id).max_deadline;
        let bond = self.policy.bounty_bond;
        let forgiveness = self.policy.bounty_forgiveness_period;
        if attached < bond {
            return Err(DaoError::InsufficientBond);
        }
        let blocking = self.count_blocking(id, now);
        if blocking >= times as u128 {
            return Err(DaoError::AllClaimed);
        }
        if deadline > max_deadline {
            return Err(DaoError::DeadlineExceeded);
        }
        if attached > u128::MAX - self.locked_amount {
            return Err(DaoError::ArithmeticOverflow);
        }
        self.locked_amount = self.locked_amount + attached;
        let nc = BountyClaim { bounty_id: id, start_time: now, deadline, completed: false };
        let ghost pre = *self;
        match self.claimer_index(&claimer) {
            Option::Some(i) => {
                let mut entry: (String, Vec<BountyClaim>) = (String::new(), Vec::new());
                self.bounty_claimers.set_and_swap(i, &mut entry);
                let (name, mut claims) = entry;
                let ghost oldclaims = claims@;
                let mut j: usize = 0;
                let mut found = false;
                while j < claims.len() && !found
                    invariant
                        forgiveness == pre.policy.bounty_forgiveness_period,
                        0 <= j <= claims@.len(),
                        found ==> j < claims@.len() && claims@[j as int].bounty_id == id
                            && !spec_claim_blocks(claims@[j as int], forgiveness, now) && forall|
                            jj: int,
                        |
                            0 <= jj < j ==> !((#[trigger] claims@[jj]).bounty_id == id
                                && !spec_claim_blocks(claims@[jj], forgiveness, now)),
                        !found ==> forall|jj: int|
                            0 <= jj < j ==> !((#[trigger] claims@[jj]).bounty_id == id
                                && !spec_claim_blocks(claims@[jj], forgiveness, now)),
                    decreases claims@.len() - j + (if found {
                        0int
                    } else {
                        1int
                    }),
                {
                    let c = claims[j];
                    let blocks = c.completed || (now as u128) <= (c.start_time as u128) + (
                    c.deadline as u128) + (forgiveness as u128);
                    if c.bounty_id == id && !blocks {
                        found = true;
                    } else {
                        j += 1;
                    }
                }
                if found {
                    claims.set(j, nc);
                } else {
                    claims.push(nc);
                }
                self.bounty_claimers.set(i, (name, claims));
                proof {
                    lemma_assoc_get_at(pre.bounty_claimers@, i as int);
                    assert(old(self).spec_claims_of(claimer@) == oldclaims);
                    let pair = final(self).bounty_claimers@[i as int];
                    assert(final(self).bounty_claimers@ =~= pre.bounty_claimers@.update(
                        i as int,
                        pair,
                    ));
                    lemma_assoc_update(pre.bounty_claimers@, i as int, pair);
                    assert(final(self).spec_claims_of(claimer@) == pair.1@);
                    if found {
                        assert(pair.1@ == oldclaims.update(j as int, nc));
                        assert(oldclaims[j as int].bounty_id == id && !spec_claim_blocks(
                            oldclaims[j as int],
                            pre.policy.bounty_forgiveness_period,
                            now,
                        ));
                        assert(forall|jj: int|
                            0 <= jj < j ==> !((#[trigger] oldclaims[jj]).bounty_id == id
                                && !spec_claim_blocks(
                                oldclaims[jj],
                                pre.policy.bounty_forgiveness_period,
                                now,
                            )));
                    } else {
                        assert(pair.1@ == oldclaims.push(nc));
                        assert(forall|jj: int|
                            0 <= jj < oldclaims.len() ==> !((#[trigger] oldclaims[jj]).bounty_id
                                == id && !spec_claim_blocks(
                                oldclaims[jj],
                                pre.policy.bounty_forgiveness_period,
                                now,
                            )));
                    }
                    assert forall|a: Seq<char>|
                        a != claimer@ implies final(self).spec_claims_of(a) == old(
                        self,
                    ).spec_claims_of(a) by {
                        assert(has_key(final(self).bounty_claimers@, a) == has_key(
                            pre.bounty_claimers@,
                            a,
                        ));
                        if has_key(pre.bounty_claimers@, a) {
                            assert(assoc_get(final(self).bounty_claimers@, a) == assoc_get(
                                pre.bounty_claimers@,
                                a,
                            ));
                        }
                    }
                    assert forall|i1: int, i2: int|
                        0 <= i1 < i2 < final(self).bounty_claimers@.len() implies (
                    #[trigger] final(self).bounty_claimers@[i1]).0@ != (
                    #[trigger] final(self).bounty_claimers@[i2]).0@ by {
                        assert(pre.bounty_claimers@[i1].0@ != pre.bounty_claimers@[i2].0@);
                        assert(final(self).bounty_claimers@[i1].0@ == pre.bounty_claimers@[i1].0@);
                        assert(final(self).bounty_claimers@[i2].0@ == pre.bounty_claimers@[i2].0@);
                    }
                    assert forall|i1: int, j1: int|
                        0 <= i1 < self.bounty_claimers@.len() && 0 <= j1
                            < self.bounty_claimers@[i1].1@.len() implies (
                    #[trigger] self.bounty_claimers@[i1].1@[j1]).bounty_id
                        < self.bounties@.len() by {
                        if i1 != i as int {
                            assert(pre.bounty_claimers@[i1].1@[j1].bounty_id
                                < pre.bounties@.len());
                        } else {
                            if !(found && j1 == j as int) && j1 < oldclaims.len() {
                                assert(pre.bounty_claimers@[i1].1@[j1].bounty_id
                                    < pre.bounties@.len());
                            }
                        }
                    }
                }
            },
            Option::None => {
                let mut claims: Vec<BountyClaim> = Vec::new();
                claims.push(nc);
                self.bounty_claimers.push((claimer, claims));
                proof {
                    let p = final(self).bounty_claimers@.last();
                    assert(p.0@ == claimer@);
                    assert(pre.bounty_claimers@ == old(self).bounty_claimers@);
                    lemma_assoc_get_push_fresh(pre.bounty_claimers@, p);
                    assert(final(self).spec_claims_of(claimer@) =~= old(self).spec_claims_of(
                        claimer@,
                    ).push(nc));
                    assert forall|a: Seq<char>|
                        a != claimer@ implies final(self).spec_claims_of(a) == old(
                        self,
                    ).spec_claims_of(a) by {
                        if has_key(pre.bounty_claimers@, a) {
                            lemma_assoc_get_push(pre.bounty_claimers@, p, a);
                            assert(assoc_get(final(self).bounty_claimers@, a) == assoc_get(
                                old(self).bounty_claimers@,
                                a,
                            ));
                        } else {
                            assert forall|jj: int|
                                0 <= jj < final(self).bounty_claimers@.len() implies (
                            #[trigger] final(self).bounty_claimers@[jj]).0@ != a by {
                                if jj < pre.bounty_claimers@.len() {
                                    assert(pre.bounty_claimers@[jj].0@ != a);
                                }
                            }
                            assert(!has_key(final(self).bounty_claimers@, a));
                            assert(!has_key(old(self).bounty_claimers@, a));
                        }
                    }
                    assert forall|i1: int, i2: int|
                        0 <= i1 < i2 < final(self).bounty_claimers@.len() implies (
                    #[trigger] final(self).bounty_claimers@[i1]).0@ != (
                    #[trigger] final(self).bounty_claimers@[i2]).0@ by {
                        if i2 == final(self).bounty_claimers@.len() - 1 {
                            assert(pre.bounty_claimers@[i1].0@ != p.0@);
                        } else {
                            assert(pre.bounty_claimers@[i1].0@ != pre.bounty_claimers@[i2].0@);
                        }
                    }
                }
            },
        }
        proof {
            crate::lemma_same_proposals(pre, *self);
            crate::lemma_same_bounties(pre, *self);
            crate::lemma_same_proposals(*old(self), *self);
            crate::lemma_same_bounties(*old(self), *self);
        }
        Ok(())
    }

    /// First claim of `account` on bounty `bounty_id` whose `completed` flag
    /// equals `want_completed`, as (account index, claim index).
    pub(crate) fn find_claim(&self, account: &String, bounty_id: u64, want_completed: bool) -> (r:
        Option<(usize, usize)>)
        ensures
            match r {
                Option::Some(ij) => {
                    let oldc = self.spec_claims_of(account@);
                    &&& (ij.0 as int) < self.bounty_claimers@.len()
                    &&& self.bounty_claimers@[ij.0 as int].0@ == account@
                    &&& forall|j: int|
                        0 <= j < ij.0 ==> (#[trigger] self.bounty_claimers@[j]).0@ != account@
                    &&& (ij.1 as int) < oldc.len()
                    &&& oldc[ij.1 as int].bounty_id == bounty_id
                    &&& oldc[ij.1 as int].completed == want_completed
                    &&& forall|jj: int|
                        0 <= jj < ij.1 ==> !((#[trigger] oldc[jj]).bounty_id == bounty_id
                            && oldc[jj].completed == want_completed)
                },
                Option::None => forall|jj: int|
                    0 <= jj < self.spec_claims_of(account@).len() ==> !((#[trigger] self.spec_claims_of(
                        account@,
                    )[jj]).bounty_id == bounty_id && self.spec_claims_of(account@)[jj].completed
                        == want_completed),
            },
    {
        let i = match self.claimer_index(account) {
            Option::Some(i) => i,
            Option::None => {
                return None;
            },
        };
        proof {
            lemma_assoc_get_at(self.bounty_claimers@, i as int);
        }
        let claims = &self.bounty_claimers[i].1;
        let mut j: usize = 0;
        while j < claims.len()
            invariant
                (i as int) < self.bounty_claimers@.len(),
                self.bounty_claimers@[i as int].0@ == account@,
                forall|j2: int|
                    0 <= j2 < i ==> (#[trigger] self.bounty_claimers@[j2]).0@ != account@,
                claims@ == self.spec_claims_of(account@),
                0 <= j <= claims@.len(),
                forall|jj: int|
                    0 <= jj < j ==> !((#[trigger] claims@[jj]).bounty_id == bounty_id
                        && claims@[jj].completed == want_completed),
            decreases claims@.len() - j,
        {
            if claims[j].bounty_id == bounty_id && claims[j].completed == want_completed {
                return Some((i, j));
            }
            j += 1;
        }
        None
    }

    /// Installs `new_claims` as the claim list at account index `i`,
    /// touching nothing else.
    pub(crate) fn replace_claims(&mut self, i: usize, new_claims: Vec<BountyClaim>)
        requires
            old(self).wf(),
            (i as int) < old(self).bounty_claimers@.len(),
            forall|j: int|
                0 <= j < new_claims@.len() ==> (#[trigger] new_claims@[j]).bounty_id < old(
                    self,
                ).bounties@.len(),
        ensures
            final(self).wf(),
            final(self).spec_claims_of(old(self).bounty_claimers@[i as int].0@) == new_claims@,
            forall|a: Seq<char>|
                a != old(self).bounty_claimers@[i as int].0@ ==> final(self).spec_claims_of(a)
                    == old(self).spec_claims_of(a),
            final(self).bounty_claimers@.len() == old(self).bounty_claimers@.len(),
            forall|j: int|
                0 <= j < old(self).bounty_claimers@.len() ==> (
                #[trigger] final(self).bounty_claimers@[j]).0@ == old(
                    self,
                ).bounty_claimers@[j].0@,
            final(self).config == old(self).config,
            final(self).policy == old(self).policy,
            final(self).locked_amount == old(self).locked_amount,
            final(self).staking_id == old(self).staking_id,
            final(self).factory_info == old(self).factory_info,
            final(self).proposals@ == old(self).proposals@,
            final(self).bounties@ == old(self).bounties@,
            final(self).dispatched@ == old(self).dispatched@,
    {
        let mut entry: (String, Vec<BountyClaim>) = (String::new(), Vec::new());
        self.bounty_claimers.set_and_swap(i, &mut entry);
        let (name, _old_claims) = entry;
        self.bounty_claimers.set(i, (name, new_claims));
        proof {
            let key = old(self).bounty_claimers@[i as int].0@;
            assert(forall|j: int|
                0 <= j < i ==> (#[trigger] old(self).bounty_claimers@[j]).0@ != key);
            lemma_assoc_get_at(old(self).bounty_claimers@, i as int);
            let pair = final(self).bounty_claimers@[i as int];
            assert(final(self).bounty_claimers@ =~= old(self).bounty_claimers@.update(
                i as int,
                pair,
            ));
            lemma_assoc_update(old(self).bounty_claimers@, i as int, pair);
            assert(final(self).spec_claims_of(key) == pair.1@);
            assert forall|a: Seq<char>|
                a != key implies final(self).spec_claims_of(a) == old(self).spec_claims_of(a) by {
                assert(has_key(final(self).bounty_claimers@, a) == has_key(
                    old(self).bounty_claimers@,
                    a,
                ));
                if has_key(old(self).bounty_claimers@, a) {
                    assert(assoc_get(final(self).bounty_claimers@, a) == assoc_get(
                        old(self).bounty_claimers@,
                        a,
                    ));
                }
            }
            assert forall|i1: int, i2: int|
                0 <= i1 < i2 < final(self).bounty_claimers@.len() implies (
            #[trigger] final(self).bounty_claimers@[i1]).0@ != (
            #[trigger] final(self).bounty_claimers@[i2]).0@ by {
                assert(old(self).bounty_claimers@[i1].0@ != old(self).bounty_claimers@[i2].0@);
            }
            assert forall|i1: int, j1: int|
                0 <= i1 < self.bounty_claimers@.len() && 0 <= j1
                    < self.bounty_claimers@[i1].1@.len() implies (
            #[trigger] self.bounty_claimers@[i1].1@[j1]).bounty_id < self.bounties@.len() by {
                if i1 != i as int {
                    assert(old(self).bounty_claimers@[i1].1@[j1].bounty_id < old(
                        self,
                    ).bounties@.len());
                } else {
                    assert(new_claims@[j1].bounty_id < old(self).bounties@.len());
                }
            }
            crate::lemma_same_proposals(*old(self), *self);
            crate::lemma_same_bounties(*old(self), *self);
        }
    }

    /// Gives a claim up: the caller's earliest incomplete claim on bounty
    /// `id` is removed, freeing its slot; the bond comes back when the
    /// claim is young enough (within the forgiveness period of its start),
    /// capped by what is actually still held. A claim whose deadline has
    /// lapsed is already forfeited and can no longer be given up.
    pub fn bounty_giveup(&mut self, id: u64, claimer: String, now: u64) -> (r: Result<
        u128,
        DaoError,
    >)
        requires
            old(self).wf(),
        ensures
            final(self).wf(),
            r is Err ==> *final(self) == *old(self),
            ({
                let oldc = old(self).spec_claims_of(claimer@);
                let found = exists|j: int|
                    0 <= j < oldc.len() && (#[trigger] oldc[j]).bounty_id == id
                        && !oldc[j].completed;
                &&& (r == Result::<u128, DaoError>::Err(DaoError::NotClaimOwner) <==> !found)
                &&& (r == Result::<u128, DaoError>::Err(DaoError::InvalidTransition)
                    <==> exists|j: int|
                    {
                        &&& 0 <= j < oldc.len()
                        &&& (#[trigger] oldc[j]).bounty_id == id
                        &&& !oldc[j].completed
                        &&& forall|jj: int|
                            0 <= jj < j ==> !((#[trigger] oldc[jj]).bounty_id == id
                                && !oldc[jj].completed)
                        &&& now as int > oldc[j].start_time as int + oldc[j].deadline as int
                    })
                &&& r matches Result::Err(e) ==> (e == DaoError::NotClaimOwner || e
                    == DaoError::InvalidTransition)
                &&& r matches Result::Ok(refund) ==> exists|j: int|
                    {
                        &&& 0 <= j < oldc.len()
                        &&& (#[trigger] oldc[j]).bounty_id == id
                        &&& !oldc[j].completed
                        &&& forall|jj: int|
                            0 <= jj < j ==> !((#[trigger] oldc[jj]).bounty_id == id
                                && !oldc[jj].completed)
                        &&& now as int <= oldc[j].start_time as int + oldc[j].deadline as int
                        &&& refund == (if now as int <= oldc[j].start_time as int + old(
                            self,
                        ).policy.bounty_forgiveness_period as int {
                            if old(self).policy.bounty_bond <= old(self).locked_amount {
                                old(self).policy.bounty_bond
                            } else {
                                old(self).locked_amount
                            }
                        } else {
                            0u128
                        })
                        &&& final(self).locked_amount == old(self).locked_amount - refund
                        &&& final(self).spec_claims_of(claimer@) == oldc.remove(j)
                    }
                &&& r is Ok ==> {
                    &&& forall|a: Seq<char>|
                        a != claimer@ ==> final(self).spec_claims_of(a) == old(
                            self,
                        ).spec_claims_of(a)
                    &&& gov_unchanged(*old(self), *final(self))
                    &&& final(self).proposals@ == old(self).proposals@
                    &&& final(self).dispatched@ == old(self).dispatched@
                    &&& final(self).bounties@ == old(self).bounties@
                }
            }),
            bounty_times_non_increasing(*old(self), *final(self)),
    {
        let ij = match self.find_claim(&claimer, id, false) {
            Option::Some(ij) => ij,
            Option::None => {
                return Err(DaoError::NotClaimOwner);
            },
        };
        let (i, j) = ij;
        proof {
            lemma_assoc_get_at(self.bounty_claimers@, i as int);
        }
        let c = self.bounty_claimers[i].1[j];
        if (now as u128) > (c.start_time as u128) + (c.deadline as u128) {
            proof {
                let oldc = old(self).spec_claims_of(claimer@);
                assert(oldc[j as int].bounty_id == id && !oldc[j as int].completed && now as int
                    > oldc[j as int].start_time as int + oldc[j as int].deadline as int);
            }
            return Err(DaoError::InvalidTransition);
        }
        proof {
            // The first matching claim is unique, and it has not lapsed, so
            // no lapsed first matching claim exists.
            let oldc = old(self).spec_claims_of(claimer@);
            assert forall|j2: int|
                0 <= j2 < oldc.len() && (#[trigger] oldc[j2]).bounty_id == id
                    && !oldc[j2].completed && (forall|jj: int|
                    0 <= jj < j2 ==> !((#[trigger] oldc[jj]).bounty_id == id
                        && !oldc[jj].completed)) implies !(now as int > oldc[j2].start_time as int
                + oldc[j2].deadline as int) by {
                if j2 < j as int {
                    assert(!(oldc[j2].bounty_id == id && !oldc[j2].completed));
                } else if j2 > j as int {
                    assert(!(oldc[j as int].bounty_id == id && !oldc[j as int].completed));
                } else {
                    assert(oldc[j2] == oldc[j as int]);
                }
            }
        }
        let bond = self.policy.bounty_bond;
        let refund: u128 = if (now as u128) <= (c.start_time as u128) + (
        self.policy.bounty_forgiveness_period as u128) {
            if bond <= self.locked_amount {
                bond
            } else {
                self.locked_amount
            }
        } else {
            0
        };
        self.locked_amount = self.locked_amount - refund;
        proof {
            crate::lemma_wf_same_stores(*old(self), *self);
        }
        let ghost mid = *self;
        let mut new_claims: Vec<BountyClaim> = Vec::new();
        let src = &self.bounty_claimers[i].1;
        let mut k: usize = 0;
        while k < src.len()
            invariant
                0 <= k <= src@.len(),
                j < src@.len(),
                new_claims@ =~= (if k <= j {
                    src@.subrange(0, k as int)
                } else {
                    src@.remove(j as int).subrange(0, k as int - 1)
                }),
            decreases src@.len() - k,
        {
            if k != j {
                new_claims.push(src[k]);
            }
            proof {
                if k < j {
                    assert(new_claims@ =~= src@.subrange(0, k as int + 1));
                } else {
                    assert(new_claims@ =~= src@.remove(j as int).subrange(0, k as int));
                }
            }
            k += 1;
        }
        proof {
            assert(new_claims@ =~= src@.remove(j as int));
            assert forall|jj: int| 0 <= jj < new_claims@.len() implies (
            #[trigger] new_claims@[jj]).bounty_id < mid.bounties@.len() by {
                if jj < j {
                    assert(new_claims@[jj] == src@[jj]);
                } else {
                    assert(new_claims@[jj] == src@[jj + 1]);
                }
            }
        }
        self.replace_claims(i, new_claims);
        proof {
            crate::lemma_same_bounties(*old(self), *self);
        }
        Ok(refund)
    }

    /// Reports the caller's earliest incomplete claim on bounty `id` as
    /// done. A lapsed claim is simply removed. Otherwise the claim is
    /// marked completed and a `BountyDone` governance proposal is filed,
    /// whose approval and successful payout will consume the slot.
    pub fn bounty_done(
        &mut self,
        id: u64,
        account_id: Option<String>,
        description: String,
        caller: String,
        user_weight: u128,
        attached: u128,
        now: u64,
    ) -> (r: Result<Option<u64>, DaoError>)
        requires
            old(self).wf(),
            old(self).proposals@.len() < u64::MAX,
        ensures
            final(self).wf(),
            r is Err ==> *final(self) == *old(self),
            bounty_times_non_increasing(*old(self), *final(self)),
            ({
                let oldc = old(self).spec_claims_of(caller@);
                let found = exists|j: int|
                    0 <= j < oldc.len() && (#[trigger] oldc[j]).bounty_id == id
                        && !oldc[j].completed;
                let live = !(account_id matches Option::Some(a) && a@ != caller@) && exists|j: int|
                    {
                        &&& 0 <= j < oldc.len()
                        &&& (#[trigger] oldc[j]).bounty_id == id
                        &&& !oldc[j].completed
                        &&& forall|jj: int|
                            0 <= jj < j ==> !((#[trigger] oldc[jj]).bounty_id == id
                                && !oldc[jj].completed)
                        &&& now as int <= oldc[j].start_time as int + oldc[j].deadline as int
                    };
                let allowed = old(self).policy.spec_any_role_allows(
                    UserInfo { account_id: caller, amount: user_weight },
                    "bounty_done"@,
                    Action::AddProposal,
                );
                &&& (r == Result::<Option<u64>, DaoError>::Err(DaoError::NotClaimOwner) <==> ((
                account_id matches Option::Some(a) && a@ != caller@) || !found))
                &&& (r == Result::<Option<u64>, DaoError>::Err(DaoError::InsufficientBond)
                    <==> live && attached < old(self).policy.proposal_bond)
                &&& (r == Result::<Option<u64>, DaoError>::Err(DaoError::NoPermission) <==> live
                    && attached >= old(self).policy.proposal_bond && !allowed)
                &&& (r == Result::<Option<u64>, DaoError>::Err(DaoError::ArithmeticOverflow)
                    <==> live && attached >= old(self).policy.proposal_bond && allowed && old(
                    self,
                ).locked_amount + attached > u128::MAX)
                &&& r matches Result::Err(e) ==> (e == DaoError::NotClaimOwner || e
                    == DaoError::InsufficientBond || e == DaoError::NoPermission || e
                    == DaoError::ArithmeticOverflow)
                &&& r matches Result::Ok(out) ==> exists|j: int|
                    {
                        &&& 0 <= j < oldc.len()
                        &&& (#[trigger] oldc[j]).bounty_id == id
                        &&& !oldc[j].completed
                        &&& forall|jj: int|
                            0 <= jj < j ==> !((#[trigger] oldc[jj]).bounty_id == id
                                && !oldc[jj].completed)
                        &&& if now as int > oldc[j].start_time as int + oldc[j].deadline as int {
                            &&& out is None
                            &&& final(self).spec_claims_of(caller@) == oldc.remove(j)
                            &&& final(self).proposals@ == old(self).proposals@
                            &&& final(self).locked_amount == old(self).locked_amount
                        } else {
                            match out {
                                Option::Some(pid) => {
                                    &&& pid == old(self).proposals@.len()
                                    &&& final(self).spec_claims_of(caller@) == oldc.update(
                                        j,
                                        (BountyClaim { completed: true, ..oldc[j] }),
                                    )
                                    &&& final(self).proposals@.len() == old(self).proposals@.len()
                                        + 1
                                    &&& final(self).spec_proposal(pid as int).kind matches
                                        ProposalKind::BountyDone {
                                        bounty_id: b2,
                                        receiver_id: r2,
                                    } && b2 == id && r2@ == caller@
                                    &&& final(self).spec_proposal(pid as int).description
                                        == description
                                    &&& final(self).spec_proposal(pid as int).status
                                        == ProposalStatus::InProgress
                                    &&& final(self).spec_proposal(pid as int).votes@.len() == 0
                                    &&& final(self).locked_amount == old(self).locked_amount
                                        + attached
                                },
                                Option::None => false,
                            }
                        }
                    }
                &&& r is Ok ==> {
                    &&& forall|a: Seq<char>|
                        a != caller@ ==> final(self).spec_claims_of(a) == old(
                            self,
                        ).spec_claims_of(a)
                    &&& gov_unchanged(*old(self), *final(self))
                    &&& final(self).bounties@ == old(self).bounties@
                    &&& final(self).dispatched@ == old(self).dispatched@
                }
            }),
    {
        if let Option::Some(a) = &account_id {
            if !(*a == caller) {
                // Only the claimer may report their own claim as done.
                return Err(DaoError::NotClaimOwner);
            }
        }
        let ij = match self.find_claim(&caller, id, false) {
            Option::Some(ij) => ij,
            Option::None => {
                return Err(DaoError::NotClaimOwner);
            },
        };
        let (i, j) = ij;
        proof {
            lemma_assoc_get_at(self.bounty_claimers@, i as int);
        }
        let c = self.bounty_claimers[i].1[j];
        if (now as u128) > (c.start_time as u128) + (c.deadline as u128) {
            // The deadline has lapsed: the claim is forfeited and removed,
            // no proposal is filed.
            proof {
                // The first matching claim is unique and has lapsed, so no
                // live first matching claim exists.
                let oldc = old(self).spec_claims_of(caller@);
                assert forall|j2: int|
                    0 <= j2 < oldc.len() && (#[trigger] oldc[j2]).bounty_id == id
                        && !oldc[j2].completed && (forall|jj: int|
                        0 <= jj < j2 ==> !((#[trigger] oldc[jj]).bounty_id == id
                            && !oldc[jj].completed)) implies now as int
                    > oldc[j2].start_time as int + oldc[j2].deadline as int by {
                    if j2 < j as int {
                        assert(!(oldc[j2].bounty_id == id && !oldc[j2].completed));
                    } else if j2 > j as int {
                        assert(!(oldc[j as int].bounty_id == id && !oldc[j as int].completed));
                    } else {
                        assert(oldc[j2] == oldc[j as int]);
                    }
                }
            }
            let ghost mid = *self;
            let mut new_claims: Vec<BountyClaim> = Vec::new();
            let src = &self.bounty_claimers[i].1;
            let mut k: usize = 0;
            while k < src.len()
                invariant
                    0 <= k <= src@.len(),
                    j < src@.len(),
                    new_claims@ =~= (if k <= j {
                        src@.subrange(0, k as int)
                    } else {
                        src@.remove(j as int).subrange(0, k as int - 1)
                    }),
                decreases src@.len() - k,
            {
                if k != j {
                    new_claims.push(src[k]);
                }
                proof {
                    if k < j {
                        assert(new_claims@ =~= src@.subrange(0, k as int + 1));
                    } else {
                        assert(new_claims@ =~= src@.remove(j as int).subrange(0, k as int));
                    }
                }
                k += 1;
            }
            proof {
                assert(new_claims@ =~= src@.remove(j as int));
                assert forall|jj: int| 0 <= jj < new_claims@.len() implies (
                #[trigger] new_claims@[jj]).bounty_id < mid.bounties@.len() by {
                    if jj < j {
                        assert(new_claims@[jj] == src@[jj]);
                    } else {
                        assert(new_claims@[jj] == src@[jj + 1]);
                    }
                }
            }
            self.replace_claims(i, new_claims);
            proof {
                crate::lemma_same_bounties(*old(self), *self);
            }
            return Ok(None);
        }
        let ghost before_add = *self;
        let pid = match self.add_proposal(
            ProposalInput {
                description,
                kind: ProposalKind::BountyDone { bounty_id: id, receiver_id: caller.clone() },
            },
            caller.clone(),
            user_weight,
            attached,
            now,
        ) {
            Result::Ok(pid) => pid,
            Result::Err(e) => {
                proof {
                    let oldc = old(self).spec_claims_of(caller@);
                    assert(oldc[j as int].bounty_id == id && !oldc[j as int].completed
                        && now as int <= oldc[j as int].start_time as int
                        + oldc[j as int].deadline as int);
                }
                return Err(e);
            },
        };
        let mut new_claims: Vec<BountyClaim> = Vec::new();
        let src = &self.bounty_claimers[i].1;
        let nc = BountyClaim {
            bounty_id: c.bounty_id,
            start_time: c.start_time,
            deadline: c.deadline,
            completed: true,
        };
        let mut k: usize = 0;
        while k < src.len()
            invariant
                0 <= k <= src@.len(),
                j < src@.len(),
                nc == (BountyClaim { completed: true, ..src@[j as int] }),
                new_claims@ =~= src@.update(j as int, nc).subrange(0, k as int),
            decreases src@.len() - k,
        {
            if k == j {
                new_claims.push(nc);
            } else {
                new_claims.push(src[k]);
            }
            proof {
                assert(new_claims@ =~= src@.update(j as int, nc).subrange(0, k as int + 1));
            }
            k += 1;
        }
        proof {
            assert(new_claims@ =~= src@.update(j as int, nc));
            assert forall|jj: int| 0 <= jj < new_claims@.len() implies (
            #[trigger] new_claims@[jj]).bounty_id < self.bounties@.len() by {
                assert(src@[jj].bounty_id < self.bounties@.len());
            }
        }
        self.replace_claims(i, new_claims);
        proof {
            crate::lemma_same_bounties(*old(self), *self);
        }
        Ok(Some(pid))
    }
}

} // verus!
