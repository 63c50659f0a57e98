//! The order of a run's phases: entities before members, a final re-read
//! before the tracking group is updated, and orphan removal last.
use vstd::prelude::*;
use crate::call::{Call, CallView, push_call, view_calls};
use crate::remote::Kind;

verus! {

/// One phase of a run.
#[derive(Clone, Copy, Debug, PartialEq, Eq, Structural)]
pub enum Phase {
    /// Create the tracking group if needed and read what it records.
    SetUpTracking,
    /// Create or delete groups.
    Groups,
    /// Create, delete and update persons.
    Persons,
    /// Create, recreate, delete and update OAuth2 clients.
    Oauth2s,
    /// Set group members, once every entity they may name exists.
    Members,
    /// Read every kind of entity again.
    FinalRefresh,
    /// Add the declared names to the tracking group.
    Track,
    /// Delete provisioned entities that are no longer declared.
    RemoveOrphans,
    Done,
}

/// The phase after `p`; orphan removal is skipped unless enabled.
pub open spec fn spec_next_phase(p: Phase, remove_orphans: bool) -> Phase {
    match p {
        Phase::SetUpTracking => Phase::Groups,
        Phase::Groups => Phase::Persons,
        Phase::Persons => Phase::Oauth2s,
        Phase::Oauth2s => Phase::Members,
        Phase::Members => Phase::FinalRefresh,
        Phase::FinalRefresh => Phase::Track,
        Phase::Track => if remove_orphans {
            Phase::RemoveOrphans
        } else {
            Phase::Done
        },
        Phase::RemoveOrphans => Phase::Done,
        Phase::Done => Phase::Done,
    }
}

/// The phase a run starts with.
pub fn first_phase() -> (r: Phase)
    ensures
        r == Phase::SetUpTracking,
{
    Phase::SetUpTracking
}

pub fn next_phase(p: Phase, remove_orphans: bool) -> (r: Phase)
    ensures
        r == spec_next_phase(p, remove_orphans),
{
    match p {
        Phase::SetUpTracking => Phase::Groups,
        Phase::Groups => Phase::Persons,
        Phase::Persons => Phase::Oauth2s,
        Phase::Oauth2s => Phase::Members,
        Phase::Members => Phase::FinalRefresh,
        Phase::FinalRefresh => Phase::Track,
        Phase::Track => if remove_orphans {
            Phase::RemoveOrphans
        } else {
            Phase::Done
        },
        Phase::RemoveOrphans => Phase::Done,
        Phase::Done => Phase::Done,
    }
}

/// The re-read of every kind that precedes the tracking update.
pub fn refresh_all() -> (r: Vec<Call>)
    ensures
        view_calls(r@) == seq![
            CallView::Refresh { kind: Kind::Group },
            CallView::Refresh { kind: Kind::Person },
            CallView::Refresh { kind: Kind::Oauth2 },
        ],
{
    let mut out: Vec<Call> = Vec::new();
    push_call(&mut out, Call::Refresh { kind: Kind::Group });
    push_call(&mut out, Call::Refresh { kind: Kind::Person });
    push_call(&mut out, Call::Refresh { kind: Kind::Oauth2 });
    assert(view_calls(out@) =~= seq![
        CallView::Refresh { kind: Kind::Group },
        CallView::Refresh { kind: Kind::Person },
        CallView::Refresh { kind: Kind::Oauth2 },
    ]);
    out
}

/// The `n`-th phase of a run.
pub open spec fn phase_at(n: nat, remove_orphans: bool) -> Phase
    decreases n,
{
    if n == 0 {
        Phase::SetUpTracking
    } else {
        spec_next_phase(phase_at((n - 1) as nat, remove_orphans), remove_orphans)
    }
}

/// A run visits its phases in the fixed order and then stays done: members
/// are set after every entity kind is reconciled, the tracking update follows
/// the final re-read, and orphan removal, when enabled, comes last.
pub proof fn lemma_phase_order(remove_orphans: bool)
    ensures
        phase_at(1, remove_orphans) == Phase::Groups,
        phase_at(2, remove_orphans) == Phase::Persons,
        phase_at(3, remove_orphans) == Phase::Oauth2s,
        phase_at(4, remove_orphans) == Phase::Members,
        phase_at(5, remove_orphans) == Phase::FinalRefresh,
        phase_at(6, remove_orphans) == Phase::Track,
        phase_at(7, remove_orphans) == if remove_orphans {
            Phase::RemoveOrphans
        } else {
            Phase::Done
        },
        phase_at(8, remove_orphans) == Phase::Done,
{
    reveal_with_fuel(phase_at, 9);
}

} // verus!
