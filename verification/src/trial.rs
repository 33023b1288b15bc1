//! A trial game model: players are numbered by their position, the mafia
//! acts as one, and a stripper's target is blocked.
use vstd::prelude::*;

use crate::text::{decimal, decimal_text};
use vstd::string::StringExecFns;

verus! {

/// Why a request was refused.
#[derive(Debug, Clone)]
pub struct ValidationErr {
    pub msg: String,
}

impl ValidationErr {
    pub fn new(msg: &str) -> (e: Self)
        ensures
            e.msg@ == msg@,
    {
        ValidationErr { msg: msg.to_owned() }
    }
}

/// Where a request came from.
pub trait Source {}

/// An id type for players.
pub trait RawPID: Copy {
    /// Whether two ids name the same player.
    fn same(&self, other: &Self) -> (b: bool)
        ensures
            b == (*self == *other),
    ;

    /// The id as its debug text shows it.
    spec fn id_text(&self) -> Seq<char>;

    /// The id as debug text.
    fn debug_text(&self) -> (s: String)
        ensures
            s@ == self.id_text(),
    ;
}

/// A player's position in the game.
pub type Pidx = usize;

/// `Player 3 not found`, say.
pub open spec fn not_found_msg(id: Seq<char>) -> Seq<char> {
    "Player "@ + id + " not found"@
}

fn not_found_text(id: String) -> (s: String)
    ensures
        s@ == not_found_msg(id@),
{
    let mut s = "Player ".to_owned();
    s.append(id.as_str());
    s.append(" not found");
    s
}

impl RawPID for usize {
    fn same(&self, other: &Self) -> (b: bool) {
        *self == *other
    }

    open spec fn id_text(&self) -> Seq<char> {
        decimal(*self as nat)
    }

    fn debug_text(&self) -> (s: String) {
        decimal_text(*self as u128)
    }
}

impl RawPID for u64 {
    fn same(&self, other: &Self) -> (b: bool) {
        *self == *other
    }

    open spec fn id_text(&self) -> Seq<char> {
        decimal(*self as nat)
    }

    fn debug_text(&self) -> (s: String) {
        decimal_text(*self as u128)
    }
}

#[derive(Debug, Clone, Copy, PartialEq, Eq, Hash)]
pub enum Role<U: RawPID> {
    TOWN,
    COP,
    DOCTOR,
    CELEB,
    MILLER,
    MASON,
    MAFIA,
    GODFATHER,
    STRIPPER,
    GOON,
    IDIOT,
    SURVIVOR,
    GUARD(U),
    AGENT(U),
}

#[derive(Debug, Clone, Copy, PartialEq, Eq, Hash, Structural)]
pub enum Team {
    Town,
    Mafia,
    Rogue,
}

/// The team of a role.
pub open spec fn team_of<U: RawPID>(r: Role<U>) -> Team {
    match r {
        Role::TOWN | Role::COP | Role::DOCTOR | Role::CELEB | Role::MILLER | Role::MASON => Team::Town,
        Role::MAFIA | Role::GODFATHER | Role::GOON | Role::STRIPPER => Team::Mafia,
        Role::IDIOT | Role::SURVIVOR | Role::GUARD(_) | Role::AGENT(_) => Team::Rogue,
    }
}

impl<U: RawPID> Role<U> {
    pub fn team(&self) -> (t: Team)
        ensures
            t == team_of(*self),
    {
        match self {
            Role::TOWN | Role::COP | Role::DOCTOR | Role::CELEB => Team::Town,
            Role::MILLER | Role::MASON => Team::Town,
            Role::MAFIA | Role::GODFATHER | Role::GOON | Role::STRIPPER => Team::Mafia,
            Role::IDIOT | Role::SURVIVOR | Role::GUARD(_) | Role::AGENT(_) => Team::Rogue,
        }
    }

    /// What a cop learns: the godfather looks innocent, the miller guilty,
    /// everyone else as their team.
    pub fn investigate_mafia(&self) -> (b: bool)
        ensures
            b == (match *self {
                Role::GODFATHER => false,
                Role::MILLER => true,
                _ => team_of(*self) == Team::Mafia,
            }),
    {
        match self {
            Role::GODFATHER => false,
            Role::MILLER => true,
            _ => self.team() == Team::Mafia,
        }
    }

    /// Cops, doctors and strippers act at night.
    pub fn has_night_action(&self) -> (b: bool)
        ensures
            b == (*self is COP || *self is DOCTOR || *self is STRIPPER),
    {
        match self {
            Role::COP | Role::DOCTOR | Role::STRIPPER => true,
            _ => false,
        }
    }
}

#[derive(Debug, Clone, PartialEq, Eq)]
pub struct Player<U: RawPID> {
    pub raw_pid: U,
    pub name: String,
    pub role: Role<U>,
}

impl<U: RawPID> Player<U> {
    /// A copy of the player.
    pub fn duplicate(&self) -> (p: Self)
        ensures
            p == *self,
    {
        Player { raw_pid: self.raw_pid, name: self.name.clone(), role: self.role }
    }
}

#[derive(Debug, Clone, Copy, PartialEq, Eq, Hash, Structural)]
pub enum Winner {
    Team(Team),
    Player(Pidx),
}

#[derive(Debug, Clone, Copy, PartialEq, Eq, Hash)]
pub enum Ballot<U: RawPID> {
    Player(U),
    Abstain,
}

/// Who acts at night: a player, or the mafia through one of its members.
#[derive(Debug, Clone, Copy, PartialEq, Eq, Hash)]
pub enum Actor<U: RawPID> {
    Player(U),
    Mafia(U),
}

/// Two actors fill the same slot: the same player, or both the mafia.
pub open spec fn overlapping<U: RawPID>(a: Actor<U>, b: Actor<U>) -> bool {
    match (a, b) {
        (Actor::Player(p1), Actor::Player(p2)) => p1 == p2,
        (Actor::Mafia(_), Actor::Mafia(_)) => true,
        _ => false,
    }
}

impl<U: RawPID> Actor<U> {
    pub fn overlaps(&self, other: &Self) -> (b: bool)
        ensures
            b == overlapping(*self, *other),
    {
        match self {
            Actor::Player(p1) => match other {
                Actor::Player(p2) => p1.same(p2),
                _ => false,
            },
            Actor::Mafia(_) => match other {
                Actor::Mafia(_) => true,
                _ => false,
            },
        }
    }

    pub fn is_player(&self, p: U) -> (b: bool)
        ensures
            b == (*self == Actor::Player(p)),
    {
        match self {
            Actor::Player(p2) => p.same(p2),
            _ => false,
        }
    }

    pub fn is_mafia(&self) -> (b: bool)
        ensures
            b == (*self is Mafia),
    {
        match self {
            Actor::Mafia(_) => true,
            _ => false,
        }
    }
}

#[derive(Debug, Clone, Copy, PartialEq, Eq, Hash)]
pub enum Target<U: RawPID> {
    Player(U),
    NoTarget,
    Blocked,
}

pub type Votes = Vec<(Pidx, Ballot<Pidx>)>;

pub type Actions = Vec<(Actor<Pidx>, Target<Pidx>)>;

#[derive(Debug, Clone, Copy, PartialEq, Eq, Hash, Structural)]
pub enum Phase {
    Init,
    Day(usize),
    Night(usize),
    End(Winner),
}

/// A request: a vote, or a night action.
#[derive(Debug, Clone, PartialEq, Eq)]
pub enum Command<U: RawPID> {
    Vote(U, Option<Ballot<U>>),
    Action(Actor<U>, Option<Target<U>>),
}

/// A request with where it came from.
#[derive(Debug, Clone, PartialEq, Eq)]
pub struct Request<U: RawPID, S: Source> {
    pub cmd: Command<U>,
    pub src: S,
}

/// What the game announces.
#[derive(Debug, Clone, PartialEq, Eq)]
pub enum Event<U: RawPID> {
    Start { players: Vec<Player<U>>, phase: Phase },
    Day,
    Vote {
        voter: Pidx,
        ballot: Option<Ballot<Pidx>>,
        former: Option<Ballot<Pidx>>,
        threshold: usize,
        count: usize,
    },
    Elect { ballot: Ballot<Pidx> },
    Night,
    Action { actor: Actor<Pidx>, target: Option<Target<Pidx>> },
    Dawn,
    Strip,
    Save,
    Investigate,
    Kill,
    Eliminate { player: Pidx },
    Win,
    End,
    InvalidCommand,
}

/// An announcement with where the request came from.
#[derive(Debug, Clone, PartialEq, Eq)]
pub struct Response<U: RawPID, S: Source> {
    pub event: Event<U>,
    pub src: S,
}

/// The first player with id `raw`, or -1.
pub open spec fn raw_pos<U: RawPID>(s: Seq<Player<U>>, raw: U) -> int
    decreases s.len(),
{
    if s.len() == 0 {
        -1
    } else {
        let p = raw_pos(s.drop_last(), raw);
        if p >= 0 {
            p
        } else if s.last().raw_pid == raw {
            s.len() - 1
        } else {
            -1
        }
    }
}

proof fn lemma_raw_pos<U: RawPID>(s: Seq<Player<U>>, raw: U)
    ensures
        -1 <= raw_pos(s, raw) < s.len(),
        raw_pos(s, raw) >= 0 ==> s[raw_pos(s, raw)].raw_pid == raw,
    decreases s.len(),
{
    if s.len() > 0 {
        lemma_raw_pos(s.drop_last(), raw);
    }
}

/// The players that `add_player` admits from the list, in order: each id
/// once, the first time it comes.
pub open spec fn admitted<U: RawPID>(s: Seq<Player<U>>) -> Seq<Player<U>>
    decreases s.len(),
{
    if s.len() == 0 {
        Seq::empty()
    } else {
        let rest = admitted(s.drop_last());
        if raw_pos(rest, s.last().raw_pid) >= 0 {
            rest
        } else {
            rest.push(s.last())
        }
    }
}

/// A game: the players in order, and the phase.
#[derive(Debug)]
pub struct Game<U: RawPID> {
    pub players: Vec<Player<U>>,
    pub phase: Phase,
}

impl<U: RawPID> Game<U> {
    /// A game in `Init` with the players admitted in order.
    pub fn new(players: Vec<Player<U>>) -> (g: Self)
        ensures
            g.phase == Phase::Init,
            g.players@ == admitted(players@),
    {
        let mut game = Game { players: Vec::new(), phase: Phase::Init };
        let mut i: usize = 0;
        while i < players.len()
            invariant
                i <= players.len(),
                game.phase == Phase::Init,
                game.players@ == admitted(players@.take(i as int)),
            decreases players.len() - i,
        {
            assert(players@.take(i + 1).drop_last() =~= players@.take(i as int));
            let p = players[i].duplicate();
            let _ = game.add_player(p);
            i = i + 1;
        }
        assert(players@.take(players.len() as int) =~= players@);
        game
    }

    /// Adds a player before the game starts, unless the id is taken.
    pub fn add_player(&mut self, player: Player<U>) -> (r: Result<(), ValidationErr>)
        ensures
            final(self).phase == old(self).phase,
            old(self).phase != Phase::Init ==> (r matches Err(e) && e.msg@ == "Game already started"@)
                && final(self).players@ == old(self).players@,
            old(self).phase == Phase::Init && raw_pos(old(self).players@, player.raw_pid) >= 0 ==> (r matches Err(
                e,
            ) && e.msg@ == "Player already exists"@) && final(self).players@ == old(self).players@,
            old(self).phase == Phase::Init && raw_pos(old(self).players@, player.raw_pid) < 0 ==> r is Ok
                && final(self).players@ == old(self).players@.push(player),
    {
        if self.phase == Phase::Init {
            if Self::check_player(&self.players, &player.raw_pid).is_ok() {
                return Err(ValidationErr::new("Player already exists"));
            }
            self.players.push(player);
            Ok(())
        } else {
            Err(ValidationErr::new("Game already started"))
        }
    }

    /// The position of the player with id `raw_pid`.
    pub fn check_player(players: &Vec<Player<U>>, raw_pid: &U) -> (r: Result<Pidx, ValidationErr>)
        ensures
            r is Ok <==> raw_pos(players@, *raw_pid) >= 0,
            r matches Ok(i) ==> i == raw_pos(players@, *raw_pid),
            r matches Err(e) ==> e.msg@ == not_found_msg(raw_pid.id_text()),
    {
        proof {
            lemma_raw_pos(players@, *raw_pid);
        }
        let mut found: Option<usize> = None;
        let mut i: usize = 0;
        while i < players.len()
            invariant
                i <= players.len(),
                found is Some <==> raw_pos(players@.take(i as int), *raw_pid) >= 0,
                found matches Some(j) ==> j == raw_pos(players@.take(i as int), *raw_pid),
            decreases players.len() - i,
        {
            assert(players@.take(i + 1).drop_last() =~= players@.take(i as int));
            if found.is_none() && players[i].raw_pid.same(raw_pid) {
                found = Some(i);
            }
            i = i + 1;
        }
        assert(players@.take(players.len() as int) =~= players@);
        match found {
            Some(j) => Ok(j),
            None => Err(ValidationErr { msg: not_found_text(raw_pid.debug_text()) }),
        }
    }

    /// The players for which `f` holds, with their positions, in order.
    pub fn get_players_that<F: Fn((Pidx, Player<U>)) -> bool>(players: &Vec<Player<U>>, f: F) -> (r: Vec<(Pidx, Player<U>)>)
        requires
            forall|i: Pidx, p: Player<U>| #[trigger] f.requires(((i, p),)),
        ensures
            forall|k: int| 0 <= k < r@.len() ==> (#[trigger] r@[k]).0 < players@.len() && r@[k].1 == players@[r@[k].0 as int]
                && f.ensures(((r@[k].0, r@[k].1),), true),
            forall|k: int, l: int| 0 <= k < l < r@.len() ==> (#[trigger] r@[k]).0 < (#[trigger] r@[l]).0,
            forall|i: int|
                0 <= i < players@.len() ==> (exists|k: int| 0 <= k < r@.len() && (#[trigger] r@[k]).0 == i)
                    || f.ensures(((i as Pidx, players@[i]),), false),
    {
        let mut r: Vec<(Pidx, Player<U>)> = Vec::new();
        let mut i: usize = 0;
        while i < players.len()
            invariant
                i <= players.len(),
                forall|i: Pidx, p: Player<U>| #[trigger] f.requires(((i, p),)),
                forall|k: int| 0 <= k < r@.len() ==> (#[trigger] r@[k]).0 < i && r@[k].1 == players@[r@[k].0 as int]
                    && f.ensures(((r@[k].0, r@[k].1),), true),
                forall|k: int, l: int| 0 <= k < l < r@.len() ==> (#[trigger] r@[k]).0 < (#[trigger] r@[l]).0,
                forall|j: int|
                    0 <= j < i ==> (exists|k: int| 0 <= k < r@.len() && (#[trigger] r@[k]).0 == j)
                        || f.ensures(((j as Pidx, players@[j]),), false),
            decreases players.len() - i,
        {
            let p = players[i].duplicate();
            let ghost before = r@;
            let keep = f((i, p));
            if keep {
                let q = players[i].duplicate();
                r.push((i, q));
                assert(r@[r@.len() - 1].0 == i);
            }
            proof {
                assert forall|j: int|
                    0 <= j < i + 1 implies (exists|k: int| 0 <= k < r@.len() && (#[trigger] r@[k]).0 == j)
                        || f.ensures(((j as Pidx, players@[j]),), false) by {
                    if j < i {
                        if exists|k: int| 0 <= k < before.len() && (#[trigger] before[k]).0 == j {
                            let k = choose|k: int| 0 <= k < before.len() && (#[trigger] before[k]).0 == j;
                            assert(r@[k] == before[k]);
                        }
                    } else if keep {
                        assert(r@[r@.len() - 1].0 == j);
                    }
                }
            }
            i = i + 1;
        }
        r
    }
}

proof fn lemma_raw_pos_none<U: RawPID>(s: Seq<Player<U>>, raw: U, i: int)
    requires
        raw_pos(s, raw) == -1,
        0 <= i < s.len(),
    ensures
        s[i].raw_pid != raw,
    decreases s.len(),
{
    if i < s.len() - 1 {
        lemma_raw_pos_none(s.drop_last(), raw, i);
        assert(s.drop_last()[i] == s[i]);
    }
}

/// A game admits each id once: no two of its players share an id.
pub proof fn law_admitted_ids_distinct<U: RawPID>(s: Seq<Player<U>>)
    ensures
        forall|i: int, j: int|
            0 <= i < j < admitted(s).len() ==> #[trigger] admitted(s)[i].raw_pid != #[trigger] admitted(s)[j].raw_pid,
    decreases s.len(),
{
    if s.len() > 0 {
        let rest = admitted(s.drop_last());
        law_admitted_ids_distinct(s.drop_last());
        lemma_raw_pos(rest, s.last().raw_pid);
        if raw_pos(rest, s.last().raw_pid) < 0 {
            let a = rest.push(s.last());
            assert forall|i: int, j: int| 0 <= i < j < a.len() implies #[trigger] a[i].raw_pid != #[trigger] a[j].raw_pid by {
                if j == rest.len() {
                    lemma_raw_pos_none(rest, s.last().raw_pid, i);
                    assert(a[i] == rest[i]);
                } else {
                    assert(a[i] == rest[i] && a[j] == rest[j]);
                }
            }
        }
    }
}

} // verus!
