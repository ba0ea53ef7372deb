//! Plan-policy slots that this engine does not execute.
//!
//! A plan may carry row-level-security programs and RETURNING projections. The
//! engine enforces neither. Executing the write while dropping the slot would
//! apply an unpoliced write, so a plan that carries one is refused.
use crate::error::{ErrorView, LiteError};
use crate::text;
use vstd::prelude::*;

verus! {

/// The row-level-security check attached to one write.
#[derive(Debug)]
pub enum RlsWriteCheck {
    /// A compiled predicate.
    Predicate(Vec<u8>),
    /// No write policy applies to this identity.
    NoPolicyApplies,
    /// The leader has already decided.
    AlreadyDecidedElsewhere,
    /// An earlier step of the same request has decided on the same row.
    DecidedEarlierInRequest,
    /// The collection is internal and no policy attaches to it.
    SystemInternalCollection,
    /// The policy pass has not run over the plan.
    PendingInjection,
}

/// What a write gate must do with a check.
#[derive(Debug, Clone, Copy, PartialEq, Eq, Structural)]
pub enum WriteGateDecision {
    /// Admit every row.
    AdmitAll,
    /// Evaluate the predicate against each row.
    Evaluate,
    /// Deny: the policy pass did not run.
    DenyNotInjected,
}

impl RlsWriteCheck {
    /// The decision that follows for a write.
    pub open spec fn decision_spec(&self) -> WriteGateDecision {
        match *self {
            RlsWriteCheck::Predicate(_) => WriteGateDecision::Evaluate,
            RlsWriteCheck::PendingInjection => WriteGateDecision::DenyNotInjected,
            _ => WriteGateDecision::AdmitAll,
        }
    }

    /// The decision that follows for a write.
    pub fn decision(&self) -> (r: WriteGateDecision)
        ensures
            r == self.decision_spec(),
    {
        match self {
            RlsWriteCheck::Predicate(_) => WriteGateDecision::Evaluate,
            RlsWriteCheck::NoPolicyApplies => WriteGateDecision::AdmitAll,
            RlsWriteCheck::AlreadyDecidedElsewhere => WriteGateDecision::AdmitAll,
            RlsWriteCheck::DecidedEarlierInRequest => WriteGateDecision::AdmitAll,
            RlsWriteCheck::SystemInternalCollection => WriteGateDecision::AdmitAll,
            RlsWriteCheck::PendingInjection => WriteGateDecision::DenyNotInjected,
        }
    }

    /// Whether the write may be made without evaluating anything.
    pub open spec fn admits(&self) -> bool {
        self.decision_spec() == WriteGateDecision::AdmitAll
    }
}

/// The refusal of a plan that carries a row-level-security program.
pub open spec fn rls_refusal(op: Seq<char>) -> ErrorView {
    ErrorView::Unsupported(
        op
            + ": row-level security is enforced by the Origin data plane and has no equivalent on the single-node Lite engine"@,
    )
}

/// The refusal of a plan that asks for a RETURNING projection.
pub open spec fn returning_refusal(op: Seq<char>) -> ErrorView {
    ErrorView::Unsupported(op + ": RETURNING is unsupported on the Lite engine"@)
}

/// Whether every program is empty.
pub open spec fn all_empty(rls: Seq<&[u8]>) -> bool {
    forall|i: int| 0 <= i < rls.len() ==> (#[trigger] rls[i])@.len() == 0
}

/// What becomes of a plan with these slots: `None` if it may run.
pub open spec fn policy_refusal(op: Seq<char>, returning: bool, rls: Seq<&[u8]>) -> Option<
    ErrorView,
> {
    if !all_empty(rls) {
        Some(rls_refusal(op))
    } else if returning {
        Some(returning_refusal(op))
    } else {
        None
    }
}

/// What a check yields.
pub open spec fn refusal(r: Result<(), LiteError>) -> Option<ErrorView> {
    match r {
        Ok(_) => None,
        Err(e) => Some(e@),
    }
}

fn refuse_rls(op: &str) -> (r: LiteError)
    ensures
        r@ == rls_refusal(op@),
{
    let detail = text::concat2(
        op,
        ": row-level security is enforced by the Origin data plane and has no equivalent on the single-node Lite engine",
    );
    LiteError::Unsupported { detail }
}

/// Refuses a plan that carries a slot which the engine cannot honour. `op`
/// names the operation in the message.
pub fn deny_policy(op: &str, returning: bool, rls: &[&[u8]]) -> (r: Result<(), LiteError>)
    ensures
        refusal(r) == policy_refusal(op@, returning, rls@),
{
    let mut i: usize = 0;
    while i < rls.len()
        invariant
            i <= rls@.len(),
            forall|j: int| 0 <= j < i ==> (#[trigger] rls@[j])@.len() == 0,
        decreases rls@.len() - i,
    {
        if rls[i].len() > 0 {
            proof {
                assert(rls@[i as int]@.len() > 0);
            }
            return Err(refuse_rls(op));
        }
        i = i + 1;
    }
    if returning {
        let detail = text::concat2(op, ": RETURNING is unsupported on the Lite engine");
        return Err(LiteError::Unsupported { detail });
    }
    Ok(())
}

/// Whether every check admits the write unconditionally.
pub open spec fn all_admit(checks: Seq<&RlsWriteCheck>) -> bool {
    forall|i: int| 0 <= i < checks.len() ==> (#[trigger] checks[i]).admits()
}

/// What becomes of a write with these checks: `None` if it may run.
pub open spec fn write_check_refusal(op: Seq<char>, checks: Seq<&RlsWriteCheck>) -> Option<
    ErrorView,
> {
    if all_admit(checks) {
        None
    } else {
        Some(rls_refusal(op))
    }
}

/// Refuses a write whose check is anything but "write unconditionally".
///
/// A predicate cannot be evaluated here, and a plan that the policy pass did
/// not see must not be run.
pub fn deny_write_check(op: &str, checks: &[&RlsWriteCheck]) -> (r: Result<(), LiteError>)
    ensures
        refusal(r) == write_check_refusal(op@, checks@),
{
    let mut i: usize = 0;
    while i < checks.len()
        invariant
            i <= checks@.len(),
            forall|j: int| 0 <= j < i ==> (#[trigger] checks@[j]).admits(),
        decreases checks@.len() - i,
    {
        if checks[i].decision() != WriteGateDecision::AdmitAll {
            proof {
                assert(!checks@[i as int].admits());
            }
            return Err(refuse_rls(op));
        }
        i = i + 1;
    }
    Ok(())
}

/// What becomes of a plan with read programs and a write check.
pub open spec fn gate_refusal(
    op: Seq<char>,
    returning: bool,
    rls: Seq<u8>,
    check: RlsWriteCheck,
) -> Option<ErrorView> {
    if rls.len() > 0 || !check.admits() {
        Some(rls_refusal(op))
    } else if returning {
        Some(returning_refusal(op))
    } else {
        None
    }
}

/// Refuses a plan with a read program, a write check that does not admit
/// unconditionally, or a RETURNING projection, in that order.
pub fn deny_gate(op: &str, returning: bool, rls: &[u8], check: &RlsWriteCheck) -> (r: Result<
    (),
    LiteError,
>)
    ensures
        refusal(r) == gate_refusal(op@, returning, rls@, *check),
{
    if rls.len() > 0 || check.decision() != WriteGateDecision::AdmitAll {
        return Err(refuse_rls(op));
    }
    if returning {
        let detail = text::concat2(op, ": RETURNING is unsupported on the Lite engine");
        return Err(LiteError::Unsupported { detail });
    }
    Ok(())
}

/// A plan runs only if none of its slots would be dropped: no read program, no
/// undecided write check, no projection.
pub proof fn nothing_is_dropped(op: Seq<char>, returning: bool, rls: Seq<u8>, check: RlsWriteCheck)
    ensures
        gate_refusal(op, returning, rls, check) is None <==> rls.len() == 0 && !returning
            && check.decision_spec() == WriteGateDecision::AdmitAll,
{
}

/// A plan passes just where it carries no program and asks for no rows back.
pub proof fn plans_with_programs_are_refused(
    op: &str,
    returning: bool,
    rls: &[&[u8]],
    r: Result<(), LiteError>,
)
    requires
        call_ensures(deny_policy, (op, returning, rls), r),
    ensures
        r is Ok <==> !returning && forall|i: int|
            0 <= i < rls@.len() ==> (#[trigger] rls@[i])@.len() == 0,
{
}

/// A write is let through just where every check leaves nothing to decide: it is
/// no predicate, and the policy pass has run.
pub proof fn undecided_writes_are_refused(
    op: &str,
    checks: &[&RlsWriteCheck],
    r: Result<(), LiteError>,
)
    requires
        call_ensures(deny_write_check, (op, checks), r),
    ensures
        r is Ok <==> forall|i: int|
            0 <= i < checks@.len() ==> !(*(#[trigger] checks@[i]) is Predicate) && !(*checks@[i]
                is PendingInjection),
{
    if r is Ok {
        assert forall|i: int| 0 <= i < checks@.len() implies !(*(
        #[trigger] checks@[i]) is Predicate) && !(*checks@[i] is PendingInjection) by {
            assert(checks@[i].admits());
        }
    }
}

/// A plan is let through just where it has no program, leaves nothing to decide
/// and asks for no rows back.
pub proof fn governed_plans_are_refused(
    op: &str,
    returning: bool,
    rls: &[u8],
    check: &RlsWriteCheck,
    r: Result<(), LiteError>,
)
    requires
        call_ensures(deny_gate, (op, returning, rls, check), r),
    ensures
        r is Ok <==> rls@.len() == 0 && !returning && !(*check is Predicate) && !(*check
            is PendingInjection),
{
}

} // verus!
