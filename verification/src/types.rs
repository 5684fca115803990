use vstd::prelude::*;

verus! {

/// Account ids are plain strings; the empty string is the sentinel for the
/// chain's native asset when used as a token id.
pub type OldAccountId = String;

/// Errors a governance call can end with. Every failing call leaves the
/// contract state exactly as it was.
#[derive(Clone, Copy, PartialEq, Eq, Structural, Debug)]
pub enum DaoError {
    /// The caller is not a member of any role permitted for the action.
    NoPermission,
    /// The caller has already cast a vote on this proposal.
    AlreadyVoted,
    /// The value attached to the call is below the required bond.
    InsufficientBond,
    /// Every remaining slot of the bounty is taken (or `times` is zero).
    AllClaimed,
    /// The claimer-chosen deadline exceeds the bounty's maximum.
    DeadlineExceeded,
    /// The caller does not own a matching claim.
    NotClaimOwner,
    /// A second outcome notification arrived for one dispatched call.
    DoubleOutcome,
    /// The proposal's status does not admit the requested step.
    InvalidTransition,
    /// A checked arithmetic operation would wrap.
    ArithmeticOverflow,
}

/// What a caller asks the contract to do with a proposal.
#[derive(Clone, Copy, PartialEq, Eq, Structural, Debug)]
pub enum Action {
    AddProposal,
    RemoveProposal,
    VoteApprove,
    VoteReject,
    VoteRemove,
    Finalize,
}

impl Action {
    /// True for the three vote-casting actions.
    pub open spec fn spec_is_vote(&self) -> bool {
        *self == Action::VoteApprove || *self == Action::VoteReject || *self == Action::VoteRemove
    }

    #[verifier::when_used_as_spec(spec_is_vote)]
    pub fn is_vote(&self) -> (r: bool)
        ensures
            r == self.spec_is_vote(),
    {
        match self {
            Action::VoteApprove | Action::VoteReject | Action::VoteRemove => true,
            _ => false,
        }
    }
}

/// General DAO configuration.
pub struct Config {
    /// Name of the DAO.
    pub name: String,
    /// Purpose of the DAO.
    pub purpose: String,
    /// Generic metadata, interpreted only by clients.
    pub metadata: Vec<u8>,
}

impl Config {
    /// A minimal configuration, handy for exercising the contract.
    pub fn test_config() -> (c: Config)
        ensures
            c.name@ == "Test"@,
            c.purpose@ == ""@,
            c.metadata@ == Seq::<u8>::empty(),
    {
        Config { name: "Test".to_owned(), purpose: "".to_owned(), metadata: Vec::new() }
    }
}

/// Every element of `r` equals the element of `v` at the same place.
pub fn clone_bytes(v: &Vec<u8>) -> (r: Vec<u8>)
    ensures
        r@ == v@,
{
    let mut r: Vec<u8> = Vec::new();
    let mut i: usize = 0;
    while i < v.len()
        invariant
            0 <= i <= v@.len(),
            r@ =~= v@.subrange(0, i as int),
        decreases v@.len() - i,
    {
        r.push(v[i]);
        i += 1;
    }
    proof {
        assert(r@ =~= v@);
    }
    r
}

impl Config {
    /// The two configurations read the same.
    pub open spec fn equiv(self, other: Config) -> bool {
        self.name == other.name && self.purpose == other.purpose && self.metadata@
            == other.metadata@
    }

    /// A copy of this configuration reading the same.
    pub fn duplicate(&self) -> (r: Config)
        ensures
            r.equiv(*self),
    {
        Config {
            name: self.name.clone(),
            purpose: self.purpose.clone(),
            metadata: clone_bytes(&self.metadata),
        }
    }
}

/// True when `s` holds no pair whose key reads the same as an earlier key:
/// the sequence is a well-formed association list.
pub open spec fn keys_distinct<V>(s: Seq<(String, V)>) -> bool {
    forall|i: int, j: int| 0 <= i < j < s.len() ==> s[i].0@ != s[j].0@
}

/// True when some pair of `s` carries the key `k`.
pub open spec fn has_key<V>(s: Seq<(String, V)>, k: Seq<char>) -> bool {
    exists|i: int| 0 <= i < s.len() && s[i].0@ == k
}

/// The value stored under `k`, taken from the first pair carrying it.
pub open spec fn assoc_get<V>(s: Seq<(String, V)>, k: Seq<char>) -> V
    recommends
        has_key(s, k),
    decreases s.len(),
{
    if s.len() == 0 {
        arbitrary()
    } else if s[0].0@ == k {
        s[0].1
    } else {
        assoc_get(s.drop_first(), k)
    }
}

/// `assoc_get` agrees with the pair at the first index carrying its key.
pub proof fn lemma_assoc_get_at<V>(s: Seq<(String, V)>, i: int)
    requires
        0 <= i < s.len(),
        forall|j: int| 0 <= j < i ==> s[j].0@ != s[i].0@,
    ensures
        has_key(s, s[i].0@),
        assoc_get(s, s[i].0@) == s[i].1,
    decreases s.len(),
{
    if i == 0 {
    } else {
        assert(s.drop_first()[i - 1] == s[i]);
        assert(forall|j: int|
            0 <= j < i - 1 ==> #[trigger] s.drop_first()[j].0@ == s[j + 1].0@);
        lemma_assoc_get_at(s.drop_first(), i - 1);
    }
}

/// Pushing a pair leaves the lookup of every key already present unchanged.
pub proof fn lemma_assoc_get_push<V>(s: Seq<(String, V)>, p: (String, V), k: Seq<char>)
    requires
        has_key(s, k),
    ensures
        has_key(s.push(p), k),
        assoc_get(s.push(p), k) == assoc_get(s, k),
    decreases s.len(),
{
    if s.len() == 0 {
    } else if s[0].0@ == k {
        assert(s.push(p)[0] == s[0]);
    } else {
        assert(s.push(p).drop_first() =~= s.drop_first().push(p));
        let i = choose|i: int| 0 <= i < s.len() && s[i].0@ == k;
        assert(s.drop_first()[i - 1] == s[i]);
        lemma_assoc_get_push(s.drop_first(), p, k);
    }
}

/// Pushing a pair with a key not yet present makes the lookup of that key
/// return the pushed value.
pub proof fn lemma_assoc_get_push_fresh<V>(s: Seq<(String, V)>, p: (String, V))
    requires
        !has_key(s, p.0@),
    ensures
        has_key(s.push(p), p.0@),
        assoc_get(s.push(p), p.0@) == p.1,
    decreases s.len(),
{
    assert(s.push(p)[s.len() as int] == p);
    if s.len() == 0 {
    } else {
        assert(s.push(p).drop_first() =~= s.drop_first().push(p));
        assert(forall|j: int|
            0 <= j < s.drop_first().len() ==> #[trigger] s.drop_first()[j].0@ == s[j + 1].0@);
        lemma_assoc_get_push_fresh(s.drop_first(), p);
    }
}

/// Replacing the pair at the first index of its key changes only that key's
/// lookup; every other key keeps its presence and value.
pub proof fn lemma_assoc_update<V>(s: Seq<(String, V)>, i: int, p: (String, V))
    requires
        0 <= i < s.len(),
        p.0@ == s[i].0@,
        forall|j: int| 0 <= j < i ==> s[j].0@ != s[i].0@,
    ensures
        forall|k: Seq<char>| has_key(s.update(i, p), k) == has_key(s, k),
        assoc_get(s.update(i, p), s[i].0@) == p.1,
        forall|k: Seq<char>|
            k != s[i].0@ && has_key(s, k) ==> assoc_get(s.update(i, p), k) == assoc_get(s, k),
    decreases s.len(),
{
    let t = s.update(i, p);
    assert(forall|j: int| 0 <= j < s.len() ==> (#[trigger] t[j]).0@ == s[j].0@);
    assert forall|k: Seq<char>| has_key(t, k) == has_key(s, k) by {
        if has_key(s, k) {
            let w = choose|w: int| 0 <= w < s.len() && s[w].0@ == k;
            assert(t[w].0@ == k);
        }
        if has_key(t, k) {
            let w = choose|w: int| 0 <= w < t.len() && t[w].0@ == k;
            assert(s[w].0@ == k);
        }
    }
    if i == 0 {
        assert(t[0] == p);
        assert(t.drop_first() =~= s.drop_first());
        assert forall|k: Seq<char>|
            k != s[0].0@ && has_key(s, k) implies assoc_get(t, k) == assoc_get(s, k) by {}
    } else {
        assert(t[0] == s[0]);
        assert(t.drop_first() =~= s.drop_first().update(i - 1, p));
        assert(s.drop_first()[i - 1] == s[i]);
        assert(forall|j: int|
            0 <= j < i - 1 ==> #[trigger] s.drop_first()[j].0@ == s[j + 1].0@);
        lemma_assoc_update(s.drop_first(), i - 1, p);
        assert forall|k: Seq<char>|
            k != s[i].0@ && has_key(s, k) implies assoc_get(t, k) == assoc_get(s, k) by {
            if s[0].0@ == k {
                assert(assoc_get(t, k) == t[0].1);
                assert(assoc_get(s, k) == s[0].1);
            } else {
                let w = choose|w: int| 0 <= w < s.len() && s[w].0@ == k;
                assert(s.drop_first()[w - 1] == s[w]);
                assert(has_key(s.drop_first(), k));
                assert(s.drop_first()[i - 1].0@ == s[i].0@);
                assert(assoc_get(t, k) == assoc_get(t.drop_first(), k));
                assert(assoc_get(s, k) == assoc_get(s.drop_first(), k));
            }
        }
    }
}

} // verus!
