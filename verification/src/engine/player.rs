use vstd::prelude::*;

verus! {

/// Index of a player in the game's player list.
pub type Pidx = usize;

/// Marker for the types that name a player (raw chat ids and indices).
pub trait RawPID {}

impl RawPID for u64 {}

impl RawPID for usize {}

#[derive(Debug, Clone, Copy, PartialEq, Eq, Hash, Structural)]
pub enum Role {
    TOWN,
    COP,
    DOCTOR,
    CELEB,
    MILLER,
    MASON,
    MAFIA,
    GODFATHER,
    STRIPPER,
    GOON,
    IDIOT,
    SURVIVOR,
    GUARD,
    AGENT,
}

#[derive(Debug, Clone, Copy, PartialEq, Eq, Hash, Structural)]
pub enum Team {
    Town,
    Mafia,
    Rogue,
}

/// The team a role plays for.
pub open spec fn role_team(role: Role) -> Team {
    match role {
        Role::TOWN | Role::COP | Role::DOCTOR | Role::CELEB | Role::MILLER | Role::MASON => Team::Town,
        Role::MAFIA | Role::GODFATHER | Role::GOON | Role::STRIPPER => Team::Mafia,
        Role::IDIOT | Role::SURVIVOR | Role::GUARD | Role::AGENT => Team::Rogue,
    }
}

/// The team a cop's investigation reports: the godfather reads as town,
/// the miller as mafia.
pub open spec fn investigated_team(role: Role) -> Team {
    match role {
        Role::GODFATHER => Team::Town,
        Role::MILLER => Team::Mafia,
        _ => role_team(role),
    }
}

/// Roles that choose a target at night.
pub open spec fn is_targeting(role: Role) -> bool {
    role == Role::COP || role == Role::DOCTOR || role == Role::STRIPPER
}

impl Role {
    pub fn team(&self) -> (t: Team)
        ensures
            t == role_team(*self),
    {
        match self {
            Role::TOWN | Role::COP | Role::DOCTOR | Role::CELEB => Team::Town,
            Role::MILLER | Role::MASON => Team::Town,
            Role::MAFIA | Role::GODFATHER | Role::GOON | Role::STRIPPER => Team::Mafia,
            Role::IDIOT | Role::SURVIVOR | Role::GUARD | Role::AGENT => Team::Rogue,
        }
    }

    pub fn investigate(&self) -> (t: Team)
        ensures
            t == investigated_team(*self),
    {
        match self {
            Role::GODFATHER => Team::Town,
            Role::MILLER => Team::Mafia,
            _ => self.team(),
        }
    }

    pub fn investigate_mafia(&self) -> (b: bool)
        ensures
            b == (investigated_team(*self) == Team::Mafia),
    {
        match self {
            Role::GODFATHER => false,
            Role::MILLER => true,
            _ => self.team() == Team::Mafia,
        }
    }

    pub fn targeting(&self) -> (b: bool)
        ensures
            b == is_targeting(*self),
    {
        matches!(self, Role::COP | Role::DOCTOR | Role::STRIPPER)
    }
}

#[derive(Debug, Clone, Copy, PartialEq, Eq, Structural)]
pub struct Player {
    pub raw_pid: u64,
    pub role: Role,
}

impl Player {
    pub fn new(raw_pid: u64, role: Role) -> (p: Self)
        ensures
            p.raw_pid == raw_pid,
            p.role == role,
    {
        Self { raw_pid, role }
    }
}

#[derive(Debug, Clone, Copy, PartialEq, Eq, Hash, Structural)]
pub enum Winner {
    Team(Team),
    Player(Pidx),
    NoOne,
}

/// A vote or a night choice: a player, or deliberately nobody.
#[derive(Debug, Clone, Copy, PartialEq, Eq, Hash)]
pub enum Choice<U> {
    Player(U),
    Abstain,
}

/// The player a choice names, if any.
pub open spec fn choice_player<U>(c: Choice<U>) -> Option<U> {
    match c {
        Choice::Player(p) => Some(p),
        Choice::Abstain => None,
    }
}

impl<U: Copy> Choice<U> {
    pub fn is_player(&self) -> (r: Option<U>)
        ensures
            r == choice_player(*self),
    {
        if let Choice::Player(p) = self {
            Some(*p)
        } else {
            None
        }
    }

    pub fn as_opt(&self) -> (r: Option<U>)
        ensures
            r == choice_player(*self),
    {
        if let Choice::Player(p) = self {
            Some(*p)
        } else {
            None
        }
    }
}

/// The player record a choice of index names, if any.
pub open spec fn choice_to_player(c: Choice<Pidx>, players: Seq<Player>) -> Option<Player> {
    match c {
        Choice::Player(p) => Some(players[p as int]),
        Choice::Abstain => None,
    }
}

/// A choice of index that points into the player list.
pub open spec fn choice_in_range(c: Choice<Pidx>, n: nat) -> bool {
    match c {
        Choice::Player(p) => p < n,
        Choice::Abstain => true,
    }
}

impl From<Choice<Pidx>> for Option<Pidx> {
    fn from(c: Choice<Pidx>) -> (r: Option<Pidx>) {
        match c {
            Choice::Player(p) => Some(p),
            Choice::Abstain => None,
        }
    }
}

impl vstd::std_specs::convert::FromSpecImpl<Choice<Pidx>> for Option<Pidx> {
    open spec fn obeys_from_spec() -> bool {
        true
    }

    open spec fn from_spec(c: Choice<Pidx>) -> Option<Pidx> {
        choice_player(c)
    }
}

impl Choice<Pidx> {
    /// Equality of two index choices.
    pub fn same(&self, other: &Self) -> (b: bool)
        ensures
            b == (*self == *other),
    {
        match (self, other) {
            (Choice::Player(a), Choice::Player(b)) => *a == *b,
            (Choice::Abstain, Choice::Abstain) => true,
            _ => false,
        }
    }

    pub fn to_p(&self, players: &Vec<Player>) -> (r: Option<Player>)
        requires
            choice_in_range(*self, players.len() as nat),
        ensures
            r == choice_to_player(*self, players@),
    {
        match self {
            Choice::Player(p) => Some(players[*p]),
            Choice::Abstain => None,
        }
    }
}

/// A raw action: who acts and on whom.
pub type Action<U> = (U, Choice<U>);

/// The day's votes, in the order they were cast.
pub type Votes = Vec<Action<Pidx>>;

} // verus!

verus! {

/// A fresh vector with the same elements.
pub fn copy_vec<T: Copy>(v: &Vec<T>) -> (r: Vec<T>)
    ensures
        r@ == v@,
{
    let mut r: Vec<T> = Vec::new();
    let mut i: usize = 0;
    while i < v.len()
        invariant
            i <= v.len(),
            r@ == v@.take(i as int),
        decreases v.len() - i,
    {
        r.push(v[i]);
        i = i + 1;
        assert(r@ =~= v@.take(i as int));
    }
    assert(v@.take(v.len() as int) =~= v@);
    r
}

} // verus!
