use vstd::prelude::*;

use super::action::Error;
use super::role::{role_team, Ballot, Choice, Pid, Role, Team};

verus! {

/// A seat at the table: who sits there, their role, and whether they still play.
#[derive(Debug, Clone, Copy, PartialEq, Eq, Structural)]
pub struct Seat {
    pub pid: Pid,
    pub role: Role,
    pub alive: bool,
}

/// Everyone dealt into the game, in seating order.
#[derive(Debug, Clone)]
pub struct Players {
    pub seats: Vec<Seat>,
}

/// The first seat under this id, or -1.
pub open spec fn seat_index(s: Seq<Seat>, pid: Pid) -> int
    decreases s.len(),
{
    if s.len() == 0 {
        -1
    } else {
        let p = seat_index(s.drop_last(), pid);
        if p >= 0 {
            p
        } else if s.last().pid == pid {
            s.len() - 1
        } else {
            -1
        }
    }
}

/// Someone sits under this id.
pub open spec fn seated(s: Seq<Seat>, pid: Pid) -> bool {
    seat_index(s, pid) >= 0
}

pub proof fn lemma_seat_index(s: Seq<Seat>, pid: Pid)
    ensures
        -1 <= seat_index(s, pid) < s.len(),
        seat_index(s, pid) >= 0 ==> s[seat_index(s, pid)].pid == pid,
        seat_index(s, pid) == -1 ==> forall|i: int| 0 <= i < s.len() ==> #[trigger] s[i].pid != pid,
    decreases s.len(),
{
    if s.len() > 0 {
        lemma_seat_index(s.drop_last(), pid);
        assert forall|i: int| 0 <= i < s.len() - 1 implies s.drop_last()[i] == #[trigger] s[i] by {}
    }
}

/// Seats with the same ids in the same places are found alike.
pub proof fn lemma_same_ids(s1: Seq<Seat>, s2: Seq<Seat>, pid: Pid)
    requires
        s1.len() == s2.len(),
        forall|i: int| 0 <= i < s1.len() ==> #[trigger] s1[i].pid == s2[i].pid,
    ensures
        seat_index(s1, pid) == seat_index(s2, pid),
    decreases s1.len(),
{
    if s1.len() > 0 {
        lemma_same_ids(s1.drop_last(), s2.drop_last(), pid);
    }
}

/// The role dealt to `pid`.
pub open spec fn role_at(s: Seq<Seat>, pid: Pid) -> Role {
    s[seat_index(s, pid)].role
}

/// `pid` sits at the table and still plays.
pub open spec fn alive_at(s: Seq<Seat>, pid: Pid) -> bool {
    seated(s, pid) && s[seat_index(s, pid)].alive
}

/// The living players with their roles, in seating order.
pub open spec fn alive_of(s: Seq<Seat>) -> Seq<(Pid, Role)>
    decreases s.len(),
{
    if s.len() == 0 {
        Seq::empty()
    } else {
        let rest = alive_of(s.drop_last());
        if s.last().alive {
            rest.push((s.last().pid, s.last().role))
        } else {
            rest
        }
    }
}

/// How many living players are on `team`.
pub open spec fn team_count(s: Seq<Seat>, team: Team) -> nat
    decreases s.len(),
{
    if s.len() == 0 {
        0
    } else {
        team_count(s.drop_last(), team) + if s.last().alive && role_team(s.last().role) == team {
            1nat
        } else {
            0nat
        }
    }
}

/// What checking a player id gives: the id if it names a living player.
pub open spec fn checked(s: Seq<Seat>, pid: Pid) -> Result<Pid, Error> {
    if !seated(s, pid) {
        Err(Error::InvalidPlayer { pid: pid.0 })
    } else if !alive_at(s, pid) {
        Err(Error::DeadPlayer)
    } else {
        Ok(pid)
    }
}

/// What checking a choice gives.
pub open spec fn checked_choice(s: Seq<Seat>, c: Choice) -> Result<Choice, Error> {
    match c {
        None => Ok(None),
        Some(p) => match checked(s, p) {
            Ok(p) => Ok(Some(p)),
            Err(e) => Err(e),
        },
    }
}

/// What checking a ballot gives.
pub open spec fn checked_ballot(s: Seq<Seat>, b: Ballot) -> Result<Ballot, Error> {
    match b {
        None => Ok(None),
        Some(c) => match checked_choice(s, c) {
            Ok(c) => Ok(Some(c)),
            Err(e) => Err(e),
        },
    }
}

pub proof fn lemma_alive_len(s: Seq<Seat>)
    ensures
        alive_of(s).len() <= s.len(),
    decreases s.len(),
{
    if s.len() > 0 {
        lemma_alive_len(s.drop_last());
    }
}

pub proof fn lemma_team_count_le(s: Seq<Seat>, team: Team)
    ensures
        team_count(s, team) <= alive_of(s).len(),
    decreases s.len(),
{
    if s.len() > 0 {
        lemma_team_count_le(s.drop_last(), team);
    }
}

impl Players {
    /// Everyone in the registry, alive, in its order.
    pub fn from_registry(registry: Vec<(Pid, Role)>) -> (p: Self)
        ensures
            p.seats@.len() == registry@.len(),
            forall|i: int|
                0 <= i < registry@.len() ==> #[trigger] p.seats@[i] == (Seat {
                    pid: registry@[i].0,
                    role: registry@[i].1,
                    alive: true,
                }),
    {
        let mut seats: Vec<Seat> = Vec::new();
        let mut i: usize = 0;
        while i < registry.len()
            invariant
                i <= registry.len(),
                seats@.len() == i,
                forall|j: int|
                    0 <= j < i ==> #[trigger] seats@[j] == (Seat {
                        pid: registry@[j].0,
                        role: registry@[j].1,
                        alive: true,
                    }),
            decreases registry.len() - i,
        {
            seats.push(Seat { pid: registry[i].0, role: registry[i].1, alive: true });
            i = i + 1;
        }
        Players { seats }
    }

    /// The seat of `pid`.
    pub fn find(&self, pid: Pid) -> (r: Option<usize>)
        ensures
            r is Some <==> seated(self.seats@, pid),
            r matches Some(i) ==> i == seat_index(self.seats@, pid) && i < self.seats@.len()
                && self.seats@[i as int].pid == pid,
    {
        proof {
            lemma_seat_index(self.seats@, pid);
        }
        let mut found: Option<usize> = None;
        let mut i: usize = 0;
        while i < self.seats.len()
            invariant
                i <= self.seats.len(),
                found is Some <==> seat_index(self.seats@.take(i as int), pid) >= 0,
                found matches Some(j) ==> j == seat_index(self.seats@.take(i as int), pid),
            decreases self.seats.len() - i,
        {
            assert(self.seats@.take(i + 1).drop_last() =~= self.seats@.take(i as int));
            if found.is_none() && self.seats[i].pid == pid {
                found = Some(i);
            }
            i = i + 1;
        }
        assert(self.seats@.take(self.seats.len() as int) =~= self.seats@);
        found
    }

    /// The role dealt to `pid`.
    pub fn get_role(&self, pid: Pid) -> (r: Role)
        requires
            seated(self.seats@, pid),
        ensures
            r == role_at(self.seats@, pid),
    {
        let i = self.find(pid);
        match i {
            Some(i) => self.seats[i].role,
            None => Role::TOWN,
        }
    }

    /// Whether `pid` sits at the table and still plays.
    pub fn is_alive(&self, pid: Pid) -> (b: bool)
        ensures
            b == alive_at(self.seats@, pid),
    {
        match self.find(pid) {
            Some(i) => self.seats[i].alive,
            None => false,
        }
    }

    /// The id, if it names a living player.
    pub fn validate(&self, pid: Pid) -> (r: Result<Pid, Error>)
        ensures
            r == checked(self.seats@, pid),
    {
        match self.find(pid) {
            None => Err(Error::InvalidPlayer { pid: pid.0 }),
            Some(i) => if self.seats[i].alive {
                Ok(pid)
            } else {
                Err(Error::DeadPlayer)
            },
        }
    }

    /// The choice, if it names no one or a living player.
    pub fn validate_choice(&self, c: Choice) -> (r: Result<Choice, Error>)
        ensures
            r == checked_choice(self.seats@, c),
    {
        match c {
            None => Ok(None),
            Some(p) => match self.validate(p) {
                Ok(p) => Ok(Some(p)),
                Err(e) => Err(e),
            },
        }
    }

    /// The ballot, if its choice is valid.
    pub fn validate_ballot(&self, b: Ballot) -> (r: Result<Ballot, Error>)
        ensures
            r == checked_ballot(self.seats@, b),
    {
        match b {
            None => Ok(None),
            Some(c) => match self.validate_choice(c) {
                Ok(c) => Ok(Some(c)),
                Err(e) => Err(e),
            },
        }
    }

    /// The living players with their roles.
    pub fn alive(&self) -> (r: Vec<(Pid, Role)>)
        ensures
            r@ == alive_of(self.seats@),
    {
        let mut r: Vec<(Pid, Role)> = Vec::new();
        let mut i: usize = 0;
        while i < self.seats.len()
            invariant
                i <= self.seats.len(),
                r@ == alive_of(self.seats@.take(i as int)),
            decreases self.seats.len() - i,
        {
            assert(self.seats@.take(i + 1).drop_last() =~= self.seats@.take(i as int));
            if self.seats[i].alive {
                r.push((self.seats[i].pid, self.seats[i].role));
            }
            i = i + 1;
        }
        assert(self.seats@.take(self.seats.len() as int) =~= self.seats@);
        r
    }

    /// How many players still play.
    pub fn n(&self) -> (n: usize)
        ensures
            n == alive_of(self.seats@).len(),
    {
        let a = self.alive();
        a.len()
    }

    /// How many living players are on `team`.
    pub fn count(&self, team: Team) -> (n: usize)
        ensures
            n == team_count(self.seats@, team),
    {
        let mut n: usize = 0;
        let mut i: usize = 0;
        while i < self.seats.len()
            invariant
                i <= self.seats.len(),
                n == team_count(self.seats@.take(i as int), team),
            decreases self.seats.len() - i,
        {
            assert(self.seats@.take(i + 1).drop_last() =~= self.seats@.take(i as int));
            proof {
                lemma_team_count_le(self.seats@.take(i + 1), team);
                lemma_alive_len(self.seats@.take(i + 1));
            }
            if self.seats[i].alive && self.seats[i].role.team() == team {
                n = n + 1;
            }
            i = i + 1;
        }
        assert(self.seats@.take(self.seats.len() as int) =~= self.seats@);
        n
    }

    /// Takes `pid` out of the game and gives back the role it had.
    pub fn eliminate(&mut self, pid: Pid) -> (r: Role)
        requires
            seated(old(self).seats@, pid),
        ensures
            r == role_at(old(self).seats@, pid),
            final(self).seats@ == old(self).seats@.update(
                seat_index(old(self).seats@, pid),
                Seat { pid, role: r, alive: false },
            ),
    {
        let i = self.find(pid);
        match i {
            Some(i) => {
                let role = self.seats[i].role;
                self.seats.set(i, Seat { pid, role, alive: false });
                role
            },
            None => Role::TOWN,
        }
    }
}

} // verus!
