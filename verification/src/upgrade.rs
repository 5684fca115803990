use vstd::prelude::*;
use vstd::string::StrSliceExecFns;

verus! {

/// Info about the factory that deployed this contract and whether it may
/// auto-update it.
pub struct FactoryInfo {
    pub factory_id: String,
    pub auto_update: bool,
}

impl FactoryInfo {
    /// An equal copy of this factory info.
    pub fn duplicate(&self) -> (r: FactoryInfo)
        ensures
            r == *self,
    {
        FactoryInfo { factory_id: self.factory_id.clone(), auto_update: self.auto_update }
    }
}

/// True when `s` holds a `.` somewhere.
pub open spec fn has_dot(s: Seq<char>) -> bool {
    exists|i: int| 0 <= i < s.len() && s[i] == '.'
}

/// The factory account is everything after the first `.` of the contract's
/// own account id (for `mydao.factory.near` that is `factory.near`).
pub fn get_default_factory_id(dao_id: &str) -> (r: String)
    requires
        has_dot(dao_id@),
    ensures
        exists|i: int|
            0 <= i < dao_id@.len() && dao_id@[i] == '.' && (forall|j: int|
                0 <= j < i ==> dao_id@[j] != '.') && r@ == dao_id@.subrange(
                i + 1,
                dao_id@.len() as int,
            ),
{
    let len = dao_id.unicode_len();
    let mut i: usize = 0;
    while i < len && dao_id.get_char(i) != '.'
        invariant
            has_dot(dao_id@),
            len == dao_id@.len(),
            0 <= i <= len,
            forall|j: int| 0 <= j < i ==> dao_id@[j] != '.',
        decreases len - i,
    {
        i += 1;
    }
    proof {
        if i == len {
            let k = choose|k: int| 0 <= k < dao_id@.len() && dao_id@[k] == '.';
            assert(dao_id@[k] != '.');
        }
    }
    dao_id.substring_char(i + 1, len).to_owned()
}

/// The factory info assumed when none was ever stored: the deploying factory
/// with auto-update enabled.
pub fn default_factory_info(dao_id: &str) -> (r: FactoryInfo)
    requires
        has_dot(dao_id@),
    ensures
        r.auto_update,
        exists|i: int|
            0 <= i < dao_id@.len() && dao_id@[i] == '.' && (forall|j: int|
                0 <= j < i ==> dao_id@[j] != '.') && r.factory_id@ == dao_id@.subrange(
                i + 1,
                dao_id@.len() as int,
            ),
{
    FactoryInfo { factory_id: get_default_factory_id(dao_id), auto_update: true }
}

} // verus!
