use vstd::prelude::*;

use crate::text::{decimal, decimal_text};

verus! {

/// A player's id.
#[derive(Debug, Clone, Copy, Hash, PartialEq, Eq, PartialOrd, Ord, Structural)]
pub struct Pid(pub u64);

impl Pid {
    pub fn new() -> (p: Self)
        ensures
            p == Pid(0),
    {
        Self(0)
    }
}

impl From<Pid> for u64 {
    fn from(value: Pid) -> (r: u64) {
        value.0
    }
}

impl vstd::std_specs::convert::FromSpecImpl<Pid> for u64 {
    open spec fn obeys_from_spec() -> bool {
        true
    }

    open spec fn from_spec(v: Pid) -> u64 {
        v.0
    }
}

impl From<u64> for Pid {
    fn from(value: u64) -> (r: Pid) {
        Pid(value)
    }
}

impl vstd::std_specs::convert::FromSpecImpl<u64> for Pid {
    open spec fn obeys_from_spec() -> bool {
        true
    }

    open spec fn from_spec(v: u64) -> Pid {
        Pid(v)
    }
}

/// A player's choice: someone, or no one.
pub type Choice = Option<Pid>;

/// A vote: a choice, or (`None`) taking one's vote back.
pub type Ballot = Option<Choice>;

#[derive(Debug, Clone, Copy, PartialEq, Eq, PartialOrd, Ord, Hash, Structural)]
pub enum Role {
    TOWN,
    COP,
    DOCTOR,
    CELEB,
    MILKY,
    MILLER,
    MAFIA,
    STRIPPER,
    GODFATHER,
    GOON,
    IDIOT,
    SURVIVOR,
    GUARD(Pid),
    AGENT(Pid),
}

/// A role without its charge.
#[derive(Debug, Clone, Copy, PartialEq, Eq, Hash, Structural)]
pub enum RoleKind {
    TOWN,
    COP,
    DOCTOR,
    CELEB,
    MILKY,
    MILLER,
    MAFIA,
    STRIPPER,
    GODFATHER,
    GOON,
    IDIOT,
    SURVIVOR,
    GUARD,
    AGENT,
}

#[derive(Debug, Clone, Copy, PartialEq, Eq, Hash, Structural)]
pub enum Team {
    Town,
    Mafia,
    Rogue,
}

/// The kind of a role.
pub open spec fn kind_of(r: Role) -> RoleKind {
    match r {
        Role::TOWN => RoleKind::TOWN,
        Role::COP => RoleKind::COP,
        Role::DOCTOR => RoleKind::DOCTOR,
        Role::CELEB => RoleKind::CELEB,
        Role::MILKY => RoleKind::MILKY,
        Role::MILLER => RoleKind::MILLER,
        Role::MAFIA => RoleKind::MAFIA,
        Role::STRIPPER => RoleKind::STRIPPER,
        Role::GODFATHER => RoleKind::GODFATHER,
        Role::GOON => RoleKind::GOON,
        Role::IDIOT => RoleKind::IDIOT,
        Role::SURVIVOR => RoleKind::SURVIVOR,
        Role::GUARD(_) => RoleKind::GUARD,
        Role::AGENT(_) => RoleKind::AGENT,
    }
}

/// The team of a role kind.
pub open spec fn kind_team(k: RoleKind) -> Team {
    match k {
        RoleKind::TOWN | RoleKind::COP | RoleKind::DOCTOR | RoleKind::CELEB | RoleKind::MILKY
        | RoleKind::MILLER => Team::Town,
        RoleKind::MAFIA | RoleKind::STRIPPER | RoleKind::GODFATHER | RoleKind::GOON => Team::Mafia,
        RoleKind::IDIOT | RoleKind::SURVIVOR | RoleKind::GUARD | RoleKind::AGENT => Team::Rogue,
    }
}

/// The team of a role.
pub open spec fn role_team(r: Role) -> Team {
    kind_team(kind_of(r))
}

/// Roles that choose a target at night.
pub open spec fn targets_at_night(r: Role) -> bool {
    r == Role::COP || r == Role::DOCTOR || r == Role::MILKY || r == Role::STRIPPER
}

/// Roles that may name the mafia's kill.
pub open spec fn schemes(r: Role) -> bool {
    r == Role::MAFIA || r == Role::STRIPPER || r == Role::GODFATHER
}

/// Whether a cop sees the role as mafia.
pub open spec fn looks_mafia(r: Role) -> bool {
    match r {
        Role::GODFATHER => false,
        Role::MILLER => true,
        _ => role_team(r) == Team::Mafia,
    }
}

impl RoleKind {
    pub fn team(&self) -> (t: Team)
        ensures
            t == kind_team(*self),
    {
        match self {
            RoleKind::TOWN | RoleKind::COP | RoleKind::DOCTOR | RoleKind::CELEB | RoleKind::MILKY
            | RoleKind::MILLER => Team::Town,
            RoleKind::MAFIA | RoleKind::STRIPPER | RoleKind::GODFATHER | RoleKind::GOON => Team::Mafia,
            RoleKind::IDIOT | RoleKind::SURVIVOR | RoleKind::GUARD | RoleKind::AGENT => Team::Rogue,
        }
    }
}

impl Role {
    pub fn is_targeting(&self) -> (b: bool)
        ensures
            b == targets_at_night(*self),
    {
        matches!(self, Role::COP | Role::DOCTOR | Role::MILKY | Role::STRIPPER)
    }

    pub fn is_scheming(&self) -> (b: bool)
        ensures
            b == schemes(*self),
    {
        matches!(self, Role::MAFIA | Role::STRIPPER | Role::GODFATHER)
    }

    pub fn is_mafia(&self) -> (b: bool)
        ensures
            b == (role_team(*self) == Team::Mafia),
    {
        self.team() == Team::Mafia
    }

    pub fn team(&self) -> (t: Team)
        ensures
            t == role_team(*self),
    {
        self.kind().team()
    }

    pub fn kind(&self) -> (k: RoleKind)
        ensures
            k == kind_of(*self),
    {
        match self {
            Role::TOWN => RoleKind::TOWN,
            Role::COP => RoleKind::COP,
            Role::DOCTOR => RoleKind::DOCTOR,
            Role::CELEB => RoleKind::CELEB,
            Role::MILKY => RoleKind::MILKY,
            Role::MILLER => RoleKind::MILLER,
            Role::MAFIA => RoleKind::MAFIA,
            Role::STRIPPER => RoleKind::STRIPPER,
            Role::GODFATHER => RoleKind::GODFATHER,
            Role::GOON => RoleKind::GOON,
            Role::IDIOT => RoleKind::IDIOT,
            Role::SURVIVOR => RoleKind::SURVIVOR,
            Role::GUARD(_) => RoleKind::GUARD,
            Role::AGENT(_) => RoleKind::AGENT,
        }
    }

    pub fn appears_mafia(&self) -> (b: bool)
        ensures
            b == looks_mafia(*self),
    {
        match self {
            Role::GODFATHER => false,
            Role::MILLER => true,
            _ => self.team() == Team::Mafia,
        }
    }

    /// The role of a kind; a guard or agent gets the placeholder charge 0.
    pub fn from_kind(kind: RoleKind) -> (r: Role)
        ensures
            kind_of(r) == kind,
            (kind == RoleKind::GUARD ==> r == Role::GUARD(Pid(0))),
            (kind == RoleKind::AGENT ==> r == Role::AGENT(Pid(0))),
    {
        match kind {
            RoleKind::TOWN => Role::TOWN,
            RoleKind::COP => Role::COP,
            RoleKind::DOCTOR => Role::DOCTOR,
            RoleKind::CELEB => Role::CELEB,
            RoleKind::MILKY => Role::MILKY,
            RoleKind::MILLER => Role::MILLER,
            RoleKind::MAFIA => Role::MAFIA,
            RoleKind::STRIPPER => Role::STRIPPER,
            RoleKind::GODFATHER => Role::GODFATHER,
            RoleKind::GOON => Role::GOON,
            RoleKind::IDIOT => Role::IDIOT,
            RoleKind::SURVIVOR => Role::SURVIVOR,
            RoleKind::GUARD => Role::GUARD(Pid::new()),
            RoleKind::AGENT => Role::AGENT(Pid::new()),
        }
    }
}

/// The name a role kind is announced by.
pub open spec fn kind_name(k: RoleKind) -> Seq<char> {
    match k {
        RoleKind::TOWN => "TOWN"@,
        RoleKind::COP => "COP"@,
        RoleKind::DOCTOR => "DOCTOR"@,
        RoleKind::CELEB => "CELEB"@,
        RoleKind::MILKY => "MILKY"@,
        RoleKind::MILLER => "MILLER"@,
        RoleKind::MAFIA => "MAFIA"@,
        RoleKind::STRIPPER => "STRIPPER"@,
        RoleKind::GODFATHER => "GODFATHER"@,
        RoleKind::GOON => "GOON"@,
        RoleKind::IDIOT => "IDIOT"@,
        RoleKind::SURVIVOR => "SURVIVOR"@,
        RoleKind::GUARD => "GUARD"@,
        RoleKind::AGENT => "AGENT"@,
    }
}

/// The name a team is announced by.
pub open spec fn team_name(t: Team) -> Seq<char> {
    match t {
        Team::Town => "Town"@,
        Team::Mafia => "Mafia"@,
        Team::Rogue => "Rogue"@,
    }
}

impl Team {
    /// The name the team is announced by.
    pub fn text(&self) -> (s: String)
        ensures
            s@ == team_name(*self),
    {
        match self {
            Team::Town => "Town".to_owned(),
            Team::Mafia => "Mafia".to_owned(),
            Team::Rogue => "Rogue".to_owned(),
        }
    }
}

impl Pid {
    /// The id as it is written: in decimal.
    pub fn text(&self) -> (s: String)
        ensures
            s@ == decimal(self.0 as nat),
    {
        decimal_text(self.0 as u128)
    }
}

impl Role {
    /// The name the role is announced by; a guard's or agent's charge is
    /// not shown.
    pub fn text(&self) -> (s: String)
        ensures
            s@ == kind_name(kind_of(*self)),
    {
        self.kind().text()
    }
}

impl RoleKind {
    /// The name the role kind is announced by.
    pub fn text(&self) -> (s: String)
        ensures
            s@ == kind_name(*self),
    {
        match self {
            RoleKind::TOWN => "TOWN".to_owned(),
            RoleKind::COP => "COP".to_owned(),
            RoleKind::DOCTOR => "DOCTOR".to_owned(),
            RoleKind::CELEB => "CELEB".to_owned(),
            RoleKind::MILKY => "MILKY".to_owned(),
            RoleKind::MILLER => "MILLER".to_owned(),
            RoleKind::MAFIA => "MAFIA".to_owned(),
            RoleKind::STRIPPER => "STRIPPER".to_owned(),
            RoleKind::GODFATHER => "GODFATHER".to_owned(),
            RoleKind::GOON => "GOON".to_owned(),
            RoleKind::IDIOT => "IDIOT".to_owned(),
            RoleKind::SURVIVOR => "SURVIVOR".to_owned(),
            RoleKind::GUARD => "GUARD".to_owned(),
            RoleKind::AGENT => "AGENT".to_owned(),
        }
    }

    /// Whether a role is of this kind.
    pub fn is_kind_of(&self, role: &Role) -> (b: bool)
        ensures
            b == (*self == kind_of(*role)),
    {
        let k = role.kind();
        *self == k
    }
}

} // verus!
