use vstd::prelude::*;

use super::role::{role_team, Pid, Role, RoleKind, Team};
use crate::chance::{pick, shuffle};

verus! {

/// Deals a fixed list of roles to the players in order.
#[derive(Debug, Clone, PartialEq, Eq)]
pub struct DebugRoleGenConfig {
    pub roles: Vec<Role>,
}

impl DebugRoleGenConfig {
    pub fn new(roles: Vec<Role>) -> (c: Self)
        ensures
            c.roles@ == roles@,
    {
        Self { roles }
    }

    /// Pairs the players with the roles in order, as far as both reach.
    pub fn generate_roles(&self, pids: Vec<Pid>) -> (r: Vec<(Pid, Role)>)
        ensures
            r@.len() == if pids@.len() < self.roles@.len() { pids@.len() } else { self.roles@.len() },
            forall|i: int| 0 <= i < r@.len() ==> #[trigger] r@[i] == (pids@[i], self.roles@[i]),
    {
        let mut r: Vec<(Pid, Role)> = Vec::new();
        let mut i: usize = 0;
        while i < pids.len() && i < self.roles.len()
            invariant
                i <= pids.len(),
                i <= self.roles.len(),
                r@.len() == i,
                forall|j: int| 0 <= j < i ==> #[trigger] r@[j] == (pids@[j], self.roles@[j]),
            decreases pids.len() - i,
        {
            r.push((pids[i], self.roles[i]));
            i = i + 1;
        }
        r
    }
}

/// A role while a role set is drawn: a plain kind, or a guard or agent
/// whose charge is to come from a team.
#[derive(Debug, Clone, Copy, PartialEq, Eq, Hash, Structural)]
pub enum TempGenRole {
    Role(RoleKind),
    GuardCharged(Team),
    AgentCharged(Team),
}

impl TempGenRole {
    pub fn from_kind(kind: RoleKind) -> (r: Self)
        ensures
            r == TempGenRole::Role(kind),
    {
        TempGenRole::Role(kind)
    }

    /// A guard or agent charged with someone from `team`.
    pub fn from_charge(kind: RoleKind, team: Team) -> (r: Self)
        requires
            kind == RoleKind::GUARD || kind == RoleKind::AGENT,
        ensures
            kind == RoleKind::GUARD ==> r == TempGenRole::GuardCharged(team),
            kind == RoleKind::AGENT ==> r == TempGenRole::AgentCharged(team),
    {
        match kind {
            RoleKind::GUARD => TempGenRole::GuardCharged(team),
            _ => TempGenRole::AgentCharged(team),
        }
    }

    pub fn kind(&self) -> (k: RoleKind)
        ensures
            k == (match *self {
                TempGenRole::Role(k) => k,
                TempGenRole::GuardCharged(_) => RoleKind::GUARD,
                TempGenRole::AgentCharged(_) => RoleKind::AGENT,
            }),
    {
        match self {
            TempGenRole::Role(kind) => *kind,
            TempGenRole::GuardCharged(_) => RoleKind::GUARD,
            TempGenRole::AgentCharged(_) => RoleKind::AGENT,
        }
    }
}

/// Placeholder charge of a guard or agent meant for someone on the town.
pub const CHARGE_TOWN: u64 = 0;

/// Placeholder charge of a guard or agent meant for someone in the mafia.
pub const CHARGE_MAFIA: u64 = 1;

/// Placeholder charge of a guard or agent meant for anyone.
pub const CHARGE_ANY: u64 = 2;

/// The team a placeholder charge asks for.
pub open spec fn charge_team(c: Pid) -> Option<Team> {
    if c.0 == CHARGE_TOWN {
        Some(Team::Town)
    } else if c.0 == CHARGE_MAFIA {
        Some(Team::Mafia)
    } else {
        None
    }
}

/// A guard or agent with one of the placeholder charges.
pub open spec fn awaits_charge(r: Role) -> bool {
    match r {
        Role::GUARD(c) | Role::AGENT(c) => c.0 == CHARGE_TOWN || c.0 == CHARGE_MAFIA || c.0 == CHARGE_ANY,
        _ => false,
    }
}

/// The charge of a guard or agent.
pub open spec fn charge_of(r: Role) -> Pid {
    match r {
        Role::GUARD(c) | Role::AGENT(c) => c,
        _ => Pid(0),
    }
}

/// `r` with its charge replaced.
pub open spec fn recharged(r: Role, c: Pid) -> Role {
    match r {
        Role::GUARD(_) => Role::GUARD(c),
        Role::AGENT(_) => Role::AGENT(c),
        _ => r,
    }
}

/// Someone in `scratch` plays for `team`.
pub open spec fn team_present(scratch: Seq<(Pid, Role)>, team: Team) -> bool {
    exists|j: int| 0 <= j < scratch.len() && role_team((#[trigger] scratch[j]).1) == team
}

/// What charging `r` against `scratch` may give: a charge for a team goes
/// to someone on that team, or becomes "anyone" when the team has nobody;
/// "anyone" stays "anyone".
pub open spec fn charged(r: Role, scratch: Seq<(Pid, Role)>, out: Role) -> bool {
    match charge_team(charge_of(r)) {
        Some(t) => if team_present(scratch, t) {
            exists|j: int|
                0 <= j < scratch.len() && role_team((#[trigger] scratch[j]).1) == t && out == recharged(
                    r,
                    scratch[j].0,
                )
        } else {
            out == recharged(r, Pid(CHARGE_ANY))
        },
        None => out == recharged(r, Pid(CHARGE_ANY)),
    }
}

/// The ids of the players on `team`.
fn team_pids(scratch: &Vec<(Pid, Role)>, team: Team) -> (r: Vec<Pid>)
    ensures
        forall|k: int|
            0 <= k < r@.len() ==> exists|j: int|
                0 <= j < scratch@.len() && role_team((#[trigger] scratch@[j]).1) == team && scratch@[j].0
                    == #[trigger] r@[k],
        r@.len() == 0 <==> !team_present(scratch@, team),
{
    let mut r: Vec<Pid> = Vec::new();
    let mut i: usize = 0;
    while i < scratch.len()
        invariant
            i <= scratch.len(),
            forall|k: int|
                0 <= k < r@.len() ==> exists|j: int|
                    0 <= j < scratch@.len() && role_team((#[trigger] scratch@[j]).1) == team
                        && scratch@[j].0 == #[trigger] r@[k],
            r@.len() == 0 <==> !exists|j: int| 0 <= j < i && role_team((#[trigger] scratch@[j]).1) == team,
        decreases scratch.len() - i,
    {
        if scratch[i].1.team() == team {
            r.push(scratch[i].0);
            assert(role_team(scratch@[i as int].1) == team);
        }
        i = i + 1;
    }
    r
}

/// Gives a guard or agent its charge: a random player of the team its
/// placeholder asks for, or "anyone" when that team has nobody or the
/// placeholder already says "anyone".
pub fn assign_charge(role: &mut Role, scratch: &Vec<(Pid, Role)>)
    requires
        awaits_charge(*old(role)),
    ensures
        charged(*old(role), scratch@, *final(role)),
{
    let team = match *role {
        Role::GUARD(c) | Role::AGENT(c) => if c.0 == CHARGE_TOWN {
            Some(Team::Town)
        } else if c.0 == CHARGE_MAFIA {
            Some(Team::Mafia)
        } else {
            None
        },
        _ => None,
    };
    let pids = match team {
        Some(t) => team_pids(scratch, t),
        None => Vec::new(),
    };
    match pick(&pids) {
        Some(pid) => {
            let ghost k = choose|k: int| 0 <= k < pids@.len() && pids@[k] == pid;
            assert(pids@[k] == pid);
            *role = match *role {
                Role::GUARD(_) => Role::GUARD(pid),
                _ => Role::AGENT(pid),
            };
        },
        None => {
            *role = match *role {
                Role::GUARD(_) => Role::GUARD(Pid(CHARGE_ANY)),
                _ => Role::AGENT(Pid(CHARGE_ANY)),
            };
        },
    }
}

/// The registry that dealing `roles` to `users` in this order gives, each
/// guard or agent charged against the uncharged registry.
pub open spec fn dealt(users: Seq<Pid>, roles: Seq<Role>, r: Seq<(Pid, Role)>) -> bool {
    let n = if users.len() < roles.len() { users.len() } else { roles.len() };
    let scratch = Seq::new(n, |i: int| (users[i], roles[i]));
    &&& r.len() == n
    &&& forall|i: int|
        0 <= i < n ==> (#[trigger] r[i]).0 == users[i] && (if awaits_charge(roles[i]) {
            charged(roles[i], scratch, r[i].1)
        } else {
            r[i].1 == roles[i]
        })
}

/// Shuffles the players, deals them the roles in order, and charges every
/// guard and agent. Whatever the shuffle, the players come out in some
/// order of the given ones.
pub fn assign_roles(users: Vec<Pid>, roles: Vec<Role>) -> (r: Vec<(Pid, Role)>)
    requires
        forall|i: int|
            0 <= i < roles@.len() && (#[trigger] roles@[i] is GUARD || roles@[i] is AGENT) ==> awaits_charge(
                roles@[i],
            ),
    ensures
        exists|q: Seq<Pid>| q.to_multiset() == users@.to_multiset() && dealt(q, roles@, r@),
{
    let mut users = users;
    let ghost before = users@;
    shuffle(&mut users);
    let n = if users.len() < roles.len() {
        users.len()
    } else {
        roles.len()
    };
    let mut scratch: Vec<(Pid, Role)> = Vec::new();
    let mut i: usize = 0;
    while i < n
        invariant
            i <= n,
            n <= users.len(),
            n <= roles.len(),
            scratch@.len() == i,
            forall|j: int| 0 <= j < i ==> #[trigger] scratch@[j] == (users@[j], roles@[j]),
        decreases n - i,
    {
        scratch.push((users[i], roles[i]));
        i = i + 1;
    }
    let ghost sc = Seq::new(n as nat, |j: int| (users@[j], roles@[j]));
    assert(scratch@ =~= sc);
    let mut r: Vec<(Pid, Role)> = Vec::new();
    let mut i: usize = 0;
    while i < n
        invariant
            i <= n,
            n <= users.len(),
            n <= roles.len(),
            scratch@ == sc,
            sc == Seq::new(n as nat, |j: int| (users@[j], roles@[j])),
            forall|k: int|
                0 <= k < roles@.len() && (#[trigger] roles@[k] is GUARD || roles@[k] is AGENT) ==> awaits_charge(
                    roles@[k],
                ),
            r@.len() == i,
            forall|j: int|
                0 <= j < i ==> (#[trigger] r@[j]).0 == users@[j] && (if awaits_charge(roles@[j]) {
                    charged(roles@[j], sc, r@[j].1)
                } else {
                    r@[j].1 == roles@[j]
                }),
        decreases n - i,
    {
        let mut role = roles[i];
        if matches!(role, Role::GUARD(_) | Role::AGENT(_)) {
            assert(roles@[i as int] is GUARD || roles@[i as int] is AGENT);
            assign_charge(&mut role, &scratch);
        }
        r.push((users[i], role));
        i = i + 1;
    }
    assert(dealt(users@, roles@, r@));
    r
}

/// Makes one player misleading: after a shuffle, a plain town player in
/// front becomes a miller, or a plain mafioso a godfather; up to ten tries.
pub fn add_mislead(roles: &mut Vec<Role>)
    ensures
        exists|q: Seq<Role>|
            q.to_multiset() == old(roles)@.to_multiset() && (final(roles)@ == q || (q.len() > 0 && q[0]
                == Role::TOWN && final(roles)@ == q.update(0, Role::MILLER)) || (q.len() > 0 && q[0]
                == Role::MAFIA && final(roles)@ == q.update(0, Role::GODFATHER))),
{
    let ghost start = roles@;
    let ghost mut q: Seq<Role> = roles@;
    let mut tries: usize = 0;
    let mut done = false;
    while tries < 10 && !done
        invariant
            tries <= 10,
            q.to_multiset() == start.to_multiset(),
            roles@ == q || (q.len() > 0 && q[0] == Role::TOWN && roles@ == q.update(0, Role::MILLER))
                || (q.len() > 0 && q[0] == Role::MAFIA && roles@ == q.update(0, Role::GODFATHER)),
            !done ==> roles@ == q,
        decreases 10 - tries,
    {
        shuffle(roles);
        proof {
            q = roles@;
        }
        if roles.len() == 0 {
            done = true;
        } else if roles[0] == Role::TOWN {
            roles.set(0, Role::MILLER);
            done = true;
        } else if roles[0] == Role::MAFIA {
            roles.set(0, Role::GODFATHER);
            done = true;
        }
        tries = tries + 1;
    }
}

} // verus!
