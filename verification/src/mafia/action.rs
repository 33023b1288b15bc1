use vstd::prelude::*;

use super::phase::PhaseKind;
use super::role::RoleKind;

verus! {

/// A player's request, naming players by `P`.
#[derive(Debug, Clone, Copy)]
pub enum Action<P> {
    Vote { voter: P, ballot: Option<Option<P>> },
    Target { actor: P, choice: Option<P> },
    Scheme { killer: P, mark: Option<P> },
    Reveal { actor: P },
}

/// Why an action was refused.
#[derive(Debug, Clone, Copy, PartialEq, Eq, Structural)]
pub enum Error {
    InvalidPlayer { pid: u64 },
    DeadPlayer,
    InvalidPhase { expected: PhaseKind, actual: PhaseKind },
    ExpectedTargetingRole { actual: RoleKind },
    ExpectedSchemingRole { actual: RoleKind },
    ExpectedCeleb { actual: RoleKind },
    IneffectiveAction,
    InvalidTarget { idx: usize },
}

} // verus!
