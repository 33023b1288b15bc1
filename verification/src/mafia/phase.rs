use vstd::prelude::*;

use super::action::Error;
use super::role::{Choice, Pid, Team};

verus! {

/// The day's votes in casting order: voter and choice.
pub type Votes = Vec<(Pid, Option<Pid>)>;

/// Who blocked whom last night: blocked player and blockers.
pub type Blocks = Vec<(Pid, Vec<Pid>)>;

/// The night's targets: actor and choice.
pub type Targets = Vec<(Pid, Option<Pid>)>;

/// Each choice with the players who voted for it.
pub type VoteList = Vec<(Choice, Vec<Pid>)>;

/// A game phase. Times are milliseconds since the Unix epoch.
#[derive(Debug, Clone, Default)]
pub enum Phase {
    #[default]
    Init,
    Day { votes: Votes, blocks: Blocks, elect: Option<(Choice, Pid, i64)> },
    Night { targets: Targets, scheme: Option<(Pid, Choice)>, dawn: Option<i64> },
    Eclipse { avenger: Pid, hammer: Pid, guilty: Vec<Pid>, vengeance: Option<Pid> },
    End { winner: Team },
}

#[derive(Debug, Clone, Copy, PartialEq, Eq, Default, Structural)]
pub enum PhaseKind {
    #[default]
    Init,
    Day,
    Night,
    Eclipse,
    End,
}

pub open spec fn phase_kind(p: Phase) -> PhaseKind {
    match p {
        Phase::Init => PhaseKind::Init,
        Phase::Day { .. } => PhaseKind::Day,
        Phase::Night { .. } => PhaseKind::Night,
        Phase::Eclipse { .. } => PhaseKind::Eclipse,
        Phase::End { .. } => PhaseKind::End,
    }
}

/// The name a phase is announced by.
pub open spec fn phase_name(k: PhaseKind) -> Seq<char> {
    match k {
        PhaseKind::Init => "Init"@,
        PhaseKind::Day => "Day"@,
        PhaseKind::Night => "Night"@,
        PhaseKind::Eclipse => "Eclipse"@,
        PhaseKind::End => "End"@,
    }
}

impl PhaseKind {
    /// The name the phase is announced by.
    pub fn text(&self) -> (s: String)
        ensures
            s@ == phase_name(*self),
    {
        match self {
            PhaseKind::Init => "Init".to_owned(),
            PhaseKind::Day => "Day".to_owned(),
            PhaseKind::Night => "Night".to_owned(),
            PhaseKind::Eclipse => "Eclipse".to_owned(),
            PhaseKind::End => "End".to_owned(),
        }
    }
}

/// Who voted for `c`, in casting order.
pub open spec fn voters_with(votes: Seq<(Pid, Option<Pid>)>, c: Choice) -> Seq<Pid>
    decreases votes.len(),
{
    if votes.len() == 0 {
        Seq::empty()
    } else {
        let rest = voters_with(votes.drop_last(), c);
        if votes.last().1 == c {
            rest.push(votes.last().0)
        } else {
            rest
        }
    }
}

/// A tally: each key once, each with exactly its voters, and exactly the
/// keys `keys` admits.
pub open spec fn is_tally(r: Seq<(Choice, Vec<Pid>)>, votes: Seq<(Pid, Option<Pid>)>, keys: spec_fn(Choice) -> bool) -> bool {
    &&& forall|i: int, j: int| 0 <= i < j < r.len() ==> #[trigger] r[i].0 != #[trigger] r[j].0
    &&& forall|i: int| 0 <= i < r.len() ==> #[trigger] r[i].1@ == voters_with(votes, r[i].0)
    &&& forall|i: int| 0 <= i < r.len() ==> keys(#[trigger] r[i].0)
    &&& forall|c: Choice| #[trigger] keys(c) ==> has_key(r, c)
}

/// The tally has an entry for `x`.
pub open spec fn has_key(r: Seq<(Choice, Vec<Pid>)>, x: Choice) -> bool {
    exists|i: int| 0 <= i < r.len() && r[i].0 == x
}

/// Some vote chose `c`.
pub open spec fn voted(votes: Seq<(Pid, Option<Pid>)>, c: Choice) -> bool {
    exists|i: int| 0 <= i < votes.len() && #[trigger] votes[i].1 == c
}

/// Who voted for `c`, in casting order.
pub fn voters_for(votes: &Votes, c: Choice) -> (r: Vec<Pid>)
    ensures
        r@ == voters_with(votes@, c),
{
    let mut r: Vec<Pid> = Vec::new();
    let mut i: usize = 0;
    while i < votes.len()
        invariant
            i <= votes.len(),
            r@ == voters_with(votes@.take(i as int), c),
        decreases votes.len() - i,
    {
        assert(votes@.take(i + 1).drop_last() =~= votes@.take(i as int));
        if votes[i].1 == c {
            r.push(votes[i].0);
        }
        i = i + 1;
    }
    assert(votes@.take(votes.len() as int) =~= votes@);
    r
}

/// Whether the tally has an entry for `c`.
fn contains_key(r: &VoteList, c: Choice) -> (b: bool)
    ensures
        b == has_key(r@, c),
{
    let mut k: usize = 0;
    while k < r.len()
        invariant
            k <= r.len(),
            forall|m: int| 0 <= m < k ==> #[trigger] r@[m].0 != c,
        decreases r.len() - k,
    {
        if r[k].0 == c {
            return true;
        }
        k = k + 1;
    }
    false
}

/// Adds the key with its voters unless it is already in the tally.
pub fn add_key(r: &mut VoteList, votes: &Votes, c: Choice)
    requires
        forall|i: int, j: int| 0 <= i < j < old(r)@.len() ==> #[trigger] old(r)@[i].0 != #[trigger] old(r)@[j].0,
        forall|i: int| 0 <= i < old(r)@.len() ==> #[trigger] old(r)@[i].1@ == voters_with(votes@, old(r)@[i].0),
    ensures
        forall|i: int, j: int| 0 <= i < j < final(r)@.len() ==> #[trigger] final(r)@[i].0 != #[trigger] final(r)@[j].0,
        forall|i: int| 0 <= i < final(r)@.len() ==> #[trigger] final(r)@[i].1@ == voters_with(votes@, final(r)@[i].0),
        forall|x: Choice| #[trigger] has_key(final(r)@, x) <==> (has_key(old(r)@, x) || x == c),
{
    if contains_key(r, c) {
        return;
    }
    let voters = voters_for(votes, c);
    r.push((c, voters));
    proof {
        assert forall|x: Choice| has_key(r@, x) implies (has_key(old(r)@, x) || x == c) by {
            let i = choose|i: int| 0 <= i < r@.len() && r@[i].0 == x;
            if i < old(r)@.len() {
                assert(old(r)@[i].0 == x);
            }
        }
        assert forall|x: Choice| (has_key(old(r)@, x) || x == c) implies has_key(r@, x) by {
            if x == c {
                assert(r@[old(r)@.len() as int].0 == x);
            } else {
                let i = choose|i: int| 0 <= i < old(r)@.len() && old(r)@[i].0 == x;
                assert(r@[i].0 == x);
            }
        }
    }
}

/// Adds every voted choice to the tally.
pub fn add_voted_keys(r: &mut VoteList, votes: &Votes)
    requires
        forall|i: int, j: int| 0 <= i < j < old(r)@.len() ==> #[trigger] old(r)@[i].0 != #[trigger] old(r)@[j].0,
        forall|i: int| 0 <= i < old(r)@.len() ==> #[trigger] old(r)@[i].1@ == voters_with(votes@, old(r)@[i].0),
    ensures
        forall|i: int, j: int| 0 <= i < j < final(r)@.len() ==> #[trigger] final(r)@[i].0 != #[trigger] final(r)@[j].0,
        forall|i: int| 0 <= i < final(r)@.len() ==> #[trigger] final(r)@[i].1@ == voters_with(votes@, final(r)@[i].0),
        forall|x: Choice| #[trigger] has_key(final(r)@, x) <==> (has_key(old(r)@, x) || voted(votes@, x)),
{
    let mut i: usize = 0;
    while i < votes.len()
        invariant
            i <= votes.len(),
            forall|a: int, b: int| 0 <= a < b < r@.len() ==> #[trigger] r@[a].0 != #[trigger] r@[b].0,
            forall|a: int| 0 <= a < r@.len() ==> #[trigger] r@[a].1@ == voters_with(votes@, r@[a].0),
            forall|x: Choice| #[trigger] has_key(r@, x) <==> (has_key(old(r)@, x) || voted(votes@.take(i as int), x)),
        decreases votes.len() - i,
    {
        add_key(r, votes, votes[i].1);
        proof {
            let t = votes@.take(i as int);
            let t1 = votes@.take(i + 1);
            assert forall|x: Choice| voted(t1, x) <==> (voted(t, x) || x == votes@[i as int].1) by {
                if voted(t1, x) {
                    let a = choose|a: int| 0 <= a < t1.len() && #[trigger] t1[a].1 == x;
                    if a < i {
                        assert(t[a].1 == x);
                    }
                }
                if voted(t, x) {
                    let a = choose|a: int| 0 <= a < t.len() && #[trigger] t[a].1 == x;
                    assert(t1[a].1 == x);
                }
                if x == votes@[i as int].1 {
                    assert(t1[i as int].1 == x);
                }
            }
        }
        i = i + 1;
    }
    assert(votes@.take(votes.len() as int) =~= votes@);
}

/// The day's votes grouped by choice.
pub open spec fn vote_tally(r: Seq<(Choice, Vec<Pid>)>, votes: Seq<(Pid, Option<Pid>)>) -> bool {
    is_tally(r, votes, |c: Choice| voted(votes, c))
}

impl Phase {
    pub fn kind(&self) -> (k: PhaseKind)
        ensures
            k == phase_kind(*self),
    {
        match self {
            Phase::Init => PhaseKind::Init,
            Phase::Day { .. } => PhaseKind::Day,
            Phase::Night { .. } => PhaseKind::Night,
            Phase::Eclipse { .. } => PhaseKind::Eclipse,
            Phase::End { .. } => PhaseKind::End,
        }
    }

    /// The error for being in this phase when another was expected.
    pub fn expected<T>(&self, expected: PhaseKind) -> (r: Result<T, Error>)
        ensures
            (r matches Err(e) && e == (Error::InvalidPhase { expected, actual: phase_kind(*self) })),
    {
        Err(Error::InvalidPhase { expected, actual: self.kind() })
    }

    /// The day's votes grouped by choice.
    pub fn vote_list(&self) -> (r: Result<VoteList, Error>)
        ensures
            !(*self is Day) ==> (r matches Err(e) && e == (Error::InvalidPhase {
                expected: PhaseKind::Day,
                actual: phase_kind(*self),
            })),
            *self is Day ==> (r matches Ok(l) && vote_tally(l@, self->votes@)),
    {
        let votes = match self {
            Phase::Day { votes, .. } => votes,
            _ => return self.expected(PhaseKind::Day),
        };
        let mut map: VoteList = Vec::new();
        add_voted_keys(&mut map, votes);
        proof {
            assert forall|x: Choice| #[trigger] voted(votes@, x) implies has_key(map@, x) by {}
            assert forall|i: int| 0 <= i < map@.len() implies voted(votes@, #[trigger] map@[i].0) by {
                assert(has_key(map@, map@[i].0));
                if !has_key(Seq::<(Choice, Vec<Pid>)>::empty(), map@[i].0) {}
            }
        }
        Ok(map)
    }
}

} // verus!
