//! Policy slots as byte programs, shared by the dispatchers.
use crate::error::{ErrorView, LiteError};
use crate::policy;
use vstd::prelude::*;

verus! {

/// The system-time scope of a read.
#[derive(Debug, Clone, Copy, PartialEq, Eq, Structural)]
pub enum SystemTimeScope {
    /// The latest version.
    Current,
    /// The version that was current at a time.
    AsOf(i64),
    /// Every version.
    AllVersions,
}

impl SystemTimeScope {
    /// The time that narrows the read, if any.
    pub open spec fn as_of(self) -> Option<i64> {
        match self {
            SystemTimeScope::AsOf(ms) => Some(ms),
            _ => None,
        }
    }

    /// The time that narrows the read. Only an explicit time does; every other
    /// scope reads the latest version.
    pub fn as_of_ms(self) -> (r: Option<i64>)
        ensures
            r == self.as_of(),
    {
        match self {
            SystemTimeScope::AsOf(ms) => Some(ms),
            SystemTimeScope::Current => None,
            SystemTimeScope::AllVersions => None,
        }
    }

    /// Whether the read asks for every version.
    pub fn is_all_versions(self) -> (r: bool)
        ensures
            r == (self == SystemTimeScope::AllVersions),
    {
        self == SystemTimeScope::AllVersions
    }
}

/// What becomes of an operation with these programs: `None` if it may run.
pub open spec fn policy_verdict(op: Seq<char>, returning: bool, programs: Seq<Seq<u8>>) -> Option<
    ErrorView,
> {
    if exists|i: int| 0 <= i < programs.len() && (#[trigger] programs[i]).len() > 0 {
        Some(policy::rls_refusal(op))
    } else if returning {
        Some(policy::returning_refusal(op))
    } else {
        None
    }
}

/// Refuses an operation with a non-empty program or a RETURNING projection.
pub fn verdict1(op: &str, returning: bool, program: &[u8]) -> (r: Result<(), LiteError>)
    ensures
        policy::refusal(r) == policy_verdict(op@, returning, seq![program@]),
{
    let slots: [&[u8]; 1] = [program];
    let r = policy::deny_policy(op, returning, &slots);
    proof {
        let programs = seq![program@];
        assert(slots@[0]@ == programs[0]);
        if policy::all_empty(slots@) {
            assert(slots@[0]@.len() == 0);
        }
        if !(exists|i: int| 0 <= i < programs.len() && (#[trigger] programs[i]).len() > 0) {
            assert(programs[0].len() == 0);
        }
    }
    r
}

/// Refuses an operation with a non-empty program or a RETURNING projection.
pub fn verdict2(op: &str, returning: bool, first: &[u8], second: &[u8]) -> (r: Result<
    (),
    LiteError,
>)
    ensures
        policy::refusal(r) == policy_verdict(op@, returning, seq![first@, second@]),
{
    let slots: [&[u8]; 2] = [first, second];
    let r = policy::deny_policy(op, returning, &slots);
    proof {
        let programs = seq![first@, second@];
        assert(slots@[0]@ == programs[0]);
        assert(slots@[1]@ == programs[1]);
        if policy::all_empty(slots@) {
            assert(slots@[0]@.len() == 0);
            assert(slots@[1]@.len() == 0);
        }
        if !(exists|i: int| 0 <= i < programs.len() && (#[trigger] programs[i]).len() > 0) {
            assert(programs[0].len() == 0);
            assert(programs[1].len() == 0);
        }
    }
    r
}

} // verus!
