use vstd::prelude::*;

use super::comm::{Comm, Event};
use super::game::{
    check_team_numbers, elim_events, elim_order_of, remove_in_turn, removable, survivors, team_winner,
    ContractResult, Error,
};
use super::player::{
    choice_in_range, choice_to_player, copy_vec, is_targeting, Choice, Pidx, Player, Role, Votes,
    Winner,
};

verus! {

#[derive(Debug, Clone, Copy, PartialEq, Eq, Structural)]
pub enum PhaseKind {
    Init,
    Day,
    Night,
    End,
}

/// The name a phase is announced by.
pub open spec fn kind_name(k: PhaseKind) -> Seq<char> {
    match k {
        PhaseKind::Init => "Init"@,
        PhaseKind::Day => "Day"@,
        PhaseKind::Night => "Night"@,
        PhaseKind::End => "End"@,
    }
}

impl PhaseKind {
    /// The name the phase is announced by.
    pub fn text(&self) -> (s: String)
        ensures
            s@ == kind_name(*self),
    {
        match self {
            PhaseKind::Init => "Init".to_owned(),
            PhaseKind::Day => "Day".to_owned(),
            PhaseKind::Night => "Night".to_owned(),
            PhaseKind::End => "End".to_owned(),
        }
    }
}

/// How a vote ends the day, if it does.
pub enum DayResolution {
    /// The elected player, the electors, the hammer and the next phase.
    Elected(Pidx, Vec<Pidx>, Pidx, Phase),
    NoKill(Phase),
}

#[derive(Debug, Clone, PartialEq, Eq)]
pub struct Day {
    pub day_no: usize,
    pub votes: Votes,
    pub blocked: Vec<Pidx>,
}

/// A night action's effect on its target.
#[derive(Debug, Clone, Copy, PartialEq, Eq, Structural)]
pub enum Target {
    Strip(Pidx),
    Save(Pidx),
    Investigate(Pidx),
    Abstain,
}

/// Night targets by actor, in the order actors first chose.
pub type Targets = Vec<(Pidx, Target)>;

#[derive(Debug, Clone, PartialEq, Eq)]
pub struct Night {
    pub night_no: usize,
    pub targets: Targets,
    pub scheme: Option<(Pidx, Choice<Pidx>)>,
}

/// How the night ends once every action is in.
pub enum NightResolution {
    NoKill(Phase),
    /// The killer, the mark and the next phase.
    Kill(Pidx, Pidx, Phase),
}

#[derive(Debug, Clone, PartialEq, Eq)]
pub enum Phase {
    Init,
    Day(Day),
    Night(Night),
    End(Winner, Vec<ContractResult>),
}

/// The kind of a phase.
pub open spec fn phase_kind(p: Phase) -> PhaseKind {
    match p {
        Phase::Init => PhaseKind::Init,
        Phase::Day(_) => PhaseKind::Day,
        Phase::Night(_) => PhaseKind::Night,
        Phase::End(..) => PhaseKind::End,
    }
}

/// A day numbered `n` with no votes and the given blocked players.
pub open spec fn is_fresh_day(p: Phase, n: int, blocked: Seq<Pidx>) -> bool {
    &&& p is Day
    &&& p->Day_0.day_no == n
    &&& p->Day_0.votes@.len() == 0
    &&& p->Day_0.blocked@ == blocked
}

/// A night numbered `n` with no targets and no scheme.
pub open spec fn is_fresh_night(p: Phase, n: int) -> bool {
    &&& p is Night
    &&& p->Night_0.night_no == n
    &&& p->Night_0.targets@.len() == 0
    &&& p->Night_0.scheme is None
}

/// The phase with its votes, targets and scheme dropped.
pub open spec fn cleared(old_p: Phase, new_p: Phase) -> bool {
    match old_p {
        Phase::Day(d) => new_p is Day && new_p->Day_0.day_no == d.day_no
            && new_p->Day_0.votes@.len() == 0 && new_p->Day_0.blocked@ == d.blocked@,
        Phase::Night(n) => new_p is Night && new_p->Night_0.night_no == n.night_no
            && new_p->Night_0.targets@.len() == 0 && new_p->Night_0.scheme is None,
        _ => new_p == old_p,
    }
}

/// The same phase, field by field.
pub open spec fn same_phase(a: Phase, b: Phase) -> bool {
    match (a, b) {
        (Phase::Init, Phase::Init) => true,
        (Phase::Day(x), Phase::Day(y)) => x.day_no == y.day_no && x.votes@ == y.votes@
            && x.blocked@ == y.blocked@,
        (Phase::Night(x), Phase::Night(y)) => x.night_no == y.night_no && x.targets@
            == y.targets@ && x.scheme == y.scheme,
        (Phase::End(w1, r1), Phase::End(w2, r2)) => w1 == w2 && r1@ == r2@,
        _ => false,
    }
}

// ----- votes -----

/// The position of the voter's standing vote, or -1.
pub open spec fn vote_index(votes: Seq<(Pidx, Choice<Pidx>)>, voter: Pidx) -> int {
    if exists|i: int|
        0 <= i < votes.len() && #[trigger] votes[i].0 == voter && forall|j: int|
            0 <= j < i ==> #[trigger] votes[j].0 != voter {
        choose|i: int|
            0 <= i < votes.len() && votes[i].0 == voter && forall|j: int|
                0 <= j < i ==> #[trigger] votes[j].0 != voter
    } else {
        -1
    }
}

/// The votes with the voter's standing vote taken back.
pub open spec fn votes_without(votes: Seq<(Pidx, Choice<Pidx>)>, voter: Pidx) -> Seq<(Pidx, Choice<Pidx>)> {
    let i = vote_index(votes, voter);
    if i >= 0 {
        votes.remove(i)
    } else {
        votes
    }
}

/// The voter's standing ballot, if any.
pub open spec fn standing_ballot(votes: Seq<(Pidx, Choice<Pidx>)>, voter: Pidx) -> Option<Choice<Pidx>> {
    let i = vote_index(votes, voter);
    if i >= 0 {
        Some(votes[i].1)
    } else {
        None
    }
}

/// Who voted for `ballot`, in voting order.
pub open spec fn voters_for(votes: Seq<(Pidx, Choice<Pidx>)>, ballot: Choice<Pidx>) -> Seq<Pidx>
    decreases votes.len(),
{
    if votes.len() == 0 {
        Seq::empty()
    } else {
        let rest = voters_for(votes.drop_last(), ballot);
        if votes.last().1 == ballot {
            rest.push(votes.last().0)
        } else {
            rest
        }
    }
}

/// Votes needed to elect: a strict majority for a player, half
/// (rounded up) to abstain.
pub open spec fn vote_threshold(n: nat, ballot: Choice<Pidx>) -> nat {
    match ballot {
        Choice::Player(_) => n / 2 + 1,
        Choice::Abstain => (n + 1) / 2,
    }
}

/// The player records for a list of indices.
pub open spec fn players_at(idx: Seq<Pidx>, players: Seq<Player>) -> Seq<Player> {
    idx.map_values(|i: Pidx| players[i as int])
}

/// Every vote names players of the list.
pub open spec fn votes_in_range(votes: Seq<(Pidx, Choice<Pidx>)>, n: nat) -> bool {
    forall|i: int| 0 <= i < votes.len() ==> #[trigger] votes[i].0 < n && choice_in_range(votes[i].1, n)
}

/// The former-ballot field of vote events.
pub open spec fn former_field(former: Option<Choice<Pidx>>, players: Seq<Player>) -> Option<Option<Player>> {
    match former {
        Some(c) => Some(choice_to_player(c, players)),
        None => None,
    }
}

proof fn lemma_voters_for_push(votes: Seq<(Pidx, Choice<Pidx>)>, v: (Pidx, Choice<Pidx>), b: Choice<Pidx>)
    ensures
        voters_for(votes.push(v), b) == if v.1 == b { voters_for(votes, b).push(v.0) } else { voters_for(votes, b) },
{
    assert(votes.push(v).drop_last() =~= votes);
}

proof fn lemma_voters_for_in_range(votes: Seq<(Pidx, Choice<Pidx>)>, b: Choice<Pidx>, n: nat)
    requires
        votes_in_range(votes, n),
    ensures
        forall|i: int| 0 <= i < voters_for(votes, b).len() ==> #[trigger] voters_for(votes, b)[i] < n,
    decreases votes.len(),
{
    if votes.len() > 0 {
        let rest = votes.drop_last();
        assert(votes_in_range(rest, n)) by {
            assert forall|i: int| 0 <= i < rest.len() implies #[trigger] rest[i].0 < n && choice_in_range(rest[i].1, n) by {
                assert(rest[i] == votes[i]);
            }
        }
        lemma_voters_for_in_range(rest, b, n);
        assert(votes.last() == votes[votes.len() - 1]);
        let all = voters_for(votes, b);
        let part = voters_for(rest, b);
        assert forall|i: int| 0 <= i < all.len() implies #[trigger] all[i] < n by {
            if votes.last().1 == b {
                assert(all == part.push(votes.last().0));
                if i < part.len() {
                    assert(all[i] == part[i]);
                }
            } else {
                assert(all == part);
            }
        }
    }
}

impl Day {
    /// Records (or retracts, for `None`) a vote and reports whether it
    /// elects someone.
    pub fn resolve_vote(
        &mut self,
        players: &Vec<Player>,
        vote: (Pidx, Option<Choice<Pidx>>),
        comm: &mut Comm,
    ) -> (r: Option<DayResolution>)
        requires
            vote.0 < players.len(),
            votes_in_range(old(self).votes@, players.len() as nat),
            vote.1 matches Some(b) ==> choice_in_range(b, players.len() as nat),
        ensures
            final(self).day_no == old(self).day_no,
            final(self).blocked@ == old(self).blocked@,
            votes_in_range(final(self).votes@, players.len() as nat),
            final(comm).save == old(comm).save,
            ({
                let voter = vote.0;
                let ballot = vote.1;
                let base = votes_without(old(self).votes@, voter);
                let former = former_field(standing_ballot(old(self).votes@, voter), players@);
                match ballot {
                    None => {
                        &&& final(self).votes@ == base
                        &&& r is None
                        &&& final(comm).events@ == old(comm).events@.push(
                            Event::Retract { voter: players@[voter as int], former },
                        )
                    },
                    Some(b) => {
                        let electors = voters_for(final(self).votes@, b);
                        let count = electors.len();
                        let threshold = vote_threshold(players.len() as nat, b);
                        let vote_event = Event::Vote {
                            voter: players@[voter as int],
                            ballot: choice_to_player(b, players@),
                            former,
                            threshold: threshold as usize,
                            count: count as usize,
                        };
                        &&& final(self).votes@ == base.push((voter, b))
                        &&& electors.last() == voter
                        &&& if count < threshold {
                            &&& r is None
                            &&& final(comm).events@ == old(comm).events@.push(vote_event)
                        } else {
                            &&& final(comm).events@.len() == old(comm).events@.len() + 2
                            &&& final(comm).events@.take(old(comm).events@.len() + 1int)
                                == old(comm).events@.push(vote_event)
                            &&& final(comm).events@.last() matches Event::Election { electors: e, ballot: eb }
                                && e@ == players_at(electors, players@) && eb == choice_to_player(b, players@)
                            &&& match b {
                                Choice::Player(p) => r matches Some(DayResolution::Elected(x, es, h, next))
                                    && x == p && es@ == electors && h == voter
                                    && is_fresh_night(next, old(self).day_no as int),
                                Choice::Abstain => r matches Some(DayResolution::NoKill(next))
                                    && is_fresh_night(next, old(self).day_no as int),
                            }
                        }
                    },
                }
            }),
    {
        let (voter, ballot) = vote;
        let ghost old_votes = self.votes@;
        let n = players.len();
        let former = take_back_vote(&mut self.votes, voter);
        proof { lemma_votes_without_in_range(old_votes, voter, n as nat); }
        let former_p = match former {
            Some(c) => Some(c.to_p(players)),
            None => None,
        };
        let ballot = match ballot {
            Some(choice) => {
                self.votes.push((voter, choice));
                choice
            },
            None => {
                comm.tx(Event::Retract { voter: players[voter], former: former_p });
                return None;
            },
        };
        let threshold = match ballot {
            Choice::Player(_) => n / 2 + 1,
            Choice::Abstain => n / 2 + n % 2,
        };
        let electors = collect_electors(&self.votes, ballot);
        proof {
            lemma_voters_for_push(votes_without(old_votes, voter), (voter, ballot), ballot);
            lemma_voters_for_in_range(self.votes@, ballot, n as nat);
        }
        let count = electors.len();
        comm.tx(
            Event::Vote {
                voter: players[voter],
                ballot: ballot.to_p(players),
                former: former_p,
                count,
                threshold,
            },
        );
        if count < threshold {
            return None;
        }
        let hammer = electors[electors.len() - 1];
        let electors_p = players_of(&electors, players);
        comm.tx(Event::Election { electors: electors_p, ballot: ballot.to_p(players) });
        let next_phase = Phase::new_night(self.day_no);
        if let Choice::Player(elected) = ballot {
            Some(DayResolution::Elected(elected, electors, hammer, next_phase))
        } else {
            Some(DayResolution::NoKill(next_phase))
        }
    }
}

proof fn lemma_votes_without_in_range(votes: Seq<(Pidx, Choice<Pidx>)>, voter: Pidx, n: nat)
    requires
        votes_in_range(votes, n),
    ensures
        votes_in_range(votes_without(votes, voter), n),
        standing_ballot(votes, voter) matches Some(c) ==> choice_in_range(c, n),
{
    let i = vote_index(votes, voter);
    if i >= 0 {
        let r = votes.remove(i);
        assert forall|k: int| 0 <= k < r.len() implies #[trigger] r[k].0 < n && choice_in_range(r[k].1, n) by {
            if k < i {
                assert(r[k] == votes[k]);
            } else {
                assert(r[k] == votes[k + 1]);
            }
        }
    }
}

/// Takes the voter's standing vote out of the list, returning its ballot.
pub fn take_back_vote(votes: &mut Votes, voter: Pidx) -> (former: Option<Choice<Pidx>>)
    ensures
        final(votes)@ == votes_without(old(votes)@, voter),
        former == standing_ballot(old(votes)@, voter),
{
    let ghost old_votes = votes@;
    let mut pos: Option<usize> = None;
    let mut i: usize = 0;
    while i < votes.len()
        invariant_except_break
            pos is None,
        invariant
            i <= votes.len(),
            votes@ == old_votes,
            forall|j: int| 0 <= j < i ==> #[trigger] old_votes[j].0 != voter,
        ensures
            pos is None ==> i == votes.len(),
            pos matches Some(k) ==> k == i && i < votes.len() && old_votes[i as int].0 == voter,
        decreases votes.len() - i,
    {
        if votes[i].0 == voter {
            pos = Some(i);
            break;
        }
        i = i + 1;
    }
    proof {
        if pos is Some {
            assert(old_votes[i as int].0 == voter);
            let k = vote_index(old_votes, voter);
            assert(k == i) by {
                if k < i {
                } else if k > i {
                }
            }
        } else {
            assert(vote_index(old_votes, voter) == -1);
        }
    }
    match pos {
        Some(k) => Some(votes.remove(k).1),
        None => None,
    }
}

/// The voters for a ballot, in voting order.
pub fn collect_electors(votes: &Votes, ballot: Choice<Pidx>) -> (electors: Vec<Pidx>)
    ensures
        electors@ == voters_for(votes@, ballot),
{
    let mut electors: Vec<Pidx> = Vec::new();
    let mut j: usize = 0;
    while j < votes.len()
        invariant
            j <= votes.len(),
            electors@ == voters_for(votes@.take(j as int), ballot),
        decreases votes.len() - j,
    {
        proof {
            assert(votes@.take(j + 1).drop_last() =~= votes@.take(j as int));
        }
        if votes[j].1.same(&ballot) {
            electors.push(votes[j].0);
        }
        j = j + 1;
    }
    assert(votes@.take(votes.len() as int) =~= votes@);
    electors
}

/// The player records at the given indices.
pub fn players_of(idx: &Vec<Pidx>, players: &Vec<Player>) -> (r: Vec<Player>)
    requires
        forall|m: int| 0 <= m < idx.len() ==> #[trigger] idx@[m] < players.len(),
    ensures
        r@ == players_at(idx@, players@),
{
    let mut r: Vec<Player> = Vec::new();
    let mut k: usize = 0;
    while k < idx.len()
        invariant
            k <= idx.len(),
            forall|m: int| 0 <= m < idx.len() ==> #[trigger] idx@[m] < players.len(),
            r@ == players_at(idx@.take(k as int), players@),
        decreases idx.len() - k,
    {
        r.push(players[idx[k]]);
        k = k + 1;
        assert(r@ =~= players_at(idx@.take(k as int), players@));
    }
    assert(idx@.take(idx.len() as int) =~= idx@);
    r
}


// ----- night -----

/// The position of the actor's entry among the targets, or -1.
pub open spec fn target_index(ts: Seq<(Pidx, Target)>, actor: Pidx) -> int {
    if exists|i: int|
        0 <= i < ts.len() && #[trigger] ts[i].0 == actor && forall|j: int|
            0 <= j < i ==> #[trigger] ts[j].0 != actor {
        choose|i: int|
            0 <= i < ts.len() && ts[i].0 == actor && forall|j: int|
                0 <= j < i ==> #[trigger] ts[j].0 != actor
    } else {
        -1
    }
}

/// The targets with the actor's entry set to `t` (added at the end if
/// the actor had none).
pub open spec fn targets_set(ts: Seq<(Pidx, Target)>, actor: Pidx, t: Target) -> Seq<(Pidx, Target)> {
    let i = target_index(ts, actor);
    if i >= 0 {
        ts.update(i, (actor, t))
    } else {
        ts.push((actor, t))
    }
}

/// The targets with the actor's entry, if any, set to abstain.
pub open spec fn targets_retracted(ts: Seq<(Pidx, Target)>, actor: Pidx) -> Seq<(Pidx, Target)> {
    let i = target_index(ts, actor);
    if i >= 0 {
        ts.update(i, (actor, Target::Abstain))
    } else {
        ts
    }
}

/// The index a night target names, if any.
pub open spec fn target_of(t: Target) -> Option<Pidx> {
    match t {
        Target::Strip(p) | Target::Save(p) | Target::Investigate(p) => Some(p),
        Target::Abstain => None,
    }
}

/// Every actor has at most one entry.
pub open spec fn targets_unique(ts: Seq<(Pidx, Target)>) -> bool {
    forall|i: int, j: int| 0 <= i < j < ts.len() ==> #[trigger] ts[i].0 != #[trigger] ts[j].0
}

/// Every target entry and the scheme name players of the list.
pub open spec fn night_in_range(night: Night, n: nat) -> bool {
    &&& forall|i: int| 0 <= i < night.targets@.len() ==> #[trigger] night.targets@[i].0 < n
        && (target_of(night.targets@[i].1) matches Some(p) ==> p < n)
    &&& night.scheme matches Some(s) ==> s.0 < n && choice_in_range(s.1, n)
}

/// The night effect of a targeting role choosing a player.
pub open spec fn target_for(role: Role, c: Choice<Pidx>) -> Target {
    match c {
        Choice::Abstain => Target::Abstain,
        Choice::Player(p) => match role {
            Role::COP => Target::Investigate(p),
            Role::DOCTOR => Target::Save(p),
            _ => Target::Strip(p),
        },
    }
}

/// How many players hold a targeting role.
pub open spec fn count_targeting(players: Seq<Player>) -> nat
    decreases players.len(),
{
    if players.len() == 0 {
        0
    } else {
        count_targeting(players.drop_last()) + if is_targeting(players.last().role) { 1nat } else { 0nat }
    }
}

/// The strippers of `a`, in the order they acted.
pub open spec fn strippers_of(ts: Seq<(Pidx, Target)>, a: Pidx) -> Seq<Pidx>
    decreases ts.len(),
{
    if ts.len() == 0 {
        Seq::empty()
    } else {
        let rest = strippers_of(ts.drop_last(), a);
        if ts.last().1 == Target::Strip(a) {
            rest.push(ts.last().0)
        } else {
            rest
        }
    }
}

/// The stripped players, each once, in the order they were first stripped.
pub open spec fn stripped_list(ts: Seq<(Pidx, Target)>) -> Seq<Pidx>
    decreases ts.len(),
{
    if ts.len() == 0 {
        Seq::empty()
    } else {
        let rest = stripped_list(ts.drop_last());
        match ts.last().1 {
            Target::Strip(s) => if rest.contains(s) {
                rest
            } else {
                rest.push(s)
            },
            _ => rest,
        }
    }
}

/// Whether a save or an investigation is cancelled by a stripper.
pub open spec fn is_blocked(ts: Seq<(Pidx, Target)>, e: (Pidx, Target)) -> bool {
    (e.1 is Save || e.1 is Investigate) && strippers_of(ts, e.0).len() > 0
}

/// The non-strip actions of `part`, with blocked ones turned to abstain.
pub open spec fn effective(ts: Seq<(Pidx, Target)>, part: Seq<(Pidx, Target)>) -> Seq<(Pidx, Target)>
    decreases part.len(),
{
    if part.len() == 0 {
        Seq::empty()
    } else {
        let rest = effective(ts, part.drop_last());
        let e = part.last();
        if e.1 is Strip {
            rest
        } else if is_blocked(ts, e) {
            rest.push((e.0, Target::Abstain))
        } else {
            rest.push(e)
        }
    }
}

/// The strip announcements for one entry.
pub open spec fn strip_events_of(ts: Seq<(Pidx, Target)>, e: (Pidx, Target), players: Seq<Player>) -> Seq<Event> {
    if is_blocked(ts, e) {
        strippers_of(ts, e.0).map_values(
            |s: Pidx| Event::Strip { stripper: players[s as int], blocked: players[e.0 as int] },
        )
    } else {
        Seq::empty()
    }
}

/// The strip announcements for the entries of `part`, in order.
pub open spec fn strip_events(ts: Seq<(Pidx, Target)>, part: Seq<(Pidx, Target)>, players: Seq<Player>) -> Seq<Event>
    decreases part.len(),
{
    if part.len() == 0 {
        Seq::empty()
    } else {
        strip_events(ts, part.drop_last(), players) + strip_events_of(ts, part.last(), players)
    }
}

/// The investigation reports for the (effective) entries of `part`.
pub open spec fn investigate_events(part: Seq<(Pidx, Target)>, players: Seq<Player>) -> Seq<Event>
    decreases part.len(),
{
    if part.len() == 0 {
        Seq::empty()
    } else {
        let rest = investigate_events(part.drop_last(), players);
        match part.last().1 {
            Target::Investigate(s) => rest.push(
                Event::Investigate {
                    cop: players[part.last().0 as int],
                    suspect: players[s as int],
                    role: players[s as int].role,
                },
            ),
            _ => rest,
        }
    }
}

/// The doctors saving `m` among the (effective) entries of `part`.
pub open spec fn doctors_of(part: Seq<(Pidx, Target)>, m: Pidx) -> Seq<Pidx>
    decreases part.len(),
{
    if part.len() == 0 {
        Seq::empty()
    } else {
        let rest = doctors_of(part.drop_last(), m);
        if part.last().1 == Target::Save(m) {
            rest.push(part.last().0)
        } else {
            rest
        }
    }
}

/// Whether every night action is in: each targeting player has acted
/// (by entry count) and the mafia has schemed.
pub open spec fn dawn_ready_parts(ts: Seq<(Pidx, Target)>, scheme: Option<(Pidx, Choice<Pidx>)>, players: Seq<Player>) -> bool {
    ts.len() >= count_targeting(players) && scheme is Some
}

pub open spec fn dawn_ready(night: Night, players: Seq<Player>) -> bool {
    dawn_ready_parts(night.targets@, night.scheme, players)
}

/// The kill at dawn, if the mark was not saved: (killer, mark).
pub open spec fn dawn_kill(ts: Seq<(Pidx, Target)>, scheme: Option<(Pidx, Choice<Pidx>)>) -> Option<(Pidx, Pidx)> {
    match scheme {
        Some((killer, Choice::Player(mark))) => if doctors_of(effective(ts, ts), mark).len() > 0 {
            None
        } else {
            Some((killer, mark))
        },
        _ => None,
    }
}

/// The announcements of dawn: dawn itself, the strips, the
/// investigations, then the saves and "no kill", or the kill.
pub open spec fn dawn_events(ts: Seq<(Pidx, Target)>, scheme: Option<(Pidx, Choice<Pidx>)>, players: Seq<Player>) -> Seq<Event> {
    let eff = effective(ts, ts);
    let head = seq![Event::Dawn] + strip_events(ts, ts, players) + investigate_events(eff, players);
    match scheme {
        Some((killer, Choice::Player(mark))) => if doctors_of(eff, mark).len() > 0 {
            head + doctors_of(eff, mark).map_values(
                |d: Pidx| Event::Save { doctor: players[d as int], saved: players[mark as int] },
            ) + seq![Event::NoKill]
        } else {
            head + seq![Event::Kill { killer: players[killer as int], mark: players[mark as int] }]
        },
        _ => head + seq![Event::NoKill],
    }
}

/// The announcements and the outcome of dawn.
pub open spec fn dawn_outcome(
    night: Night,
    players: Seq<Player>,
    events: Seq<Event>,
    r: NightResolution,
) -> bool {
    let ts = night.targets@;
    &&& events == dawn_events(ts, night.scheme, players)
    &&& match dawn_kill(ts, night.scheme) {
        Some((killer, mark)) => r matches NightResolution::Kill(k, m, next) && k == killer && m == mark
            && is_fresh_day(next, night.night_no + 1, stripped_list(ts)),
        None => r matches NightResolution::NoKill(next) && is_fresh_day(next, night.night_no + 1, stripped_list(ts)),
    }
}

impl Phase {
    pub fn new_day(day_no: usize, blocked: Vec<Pidx>) -> (p: Self)
        ensures
            is_fresh_day(p, day_no as int, blocked@),
    {
        Phase::Day(Day { day_no, votes: Vec::new(), blocked })
    }

    pub fn new_night(night_no: usize) -> (p: Self)
        ensures
            is_fresh_night(p, night_no as int),
    {
        Phase::Night(Night { night_no, targets: Vec::new(), scheme: None })
    }

    pub fn kind(&self) -> (k: PhaseKind)
        ensures
            k == phase_kind(*self),
    {
        match self {
            Phase::Init => PhaseKind::Init,
            Phase::Day(_) => PhaseKind::Day,
            Phase::Night(_) => PhaseKind::Night,
            Phase::End(..) => PhaseKind::End,
        }
    }

    /// Drops the current votes, targets and scheme: they name players by
    /// index, and the indices change when a player leaves.
    pub fn clear(&mut self)
        ensures
            cleared(*old(self), *final(self)),
    {
        match self {
            Phase::Day(day) => day.votes.clear(),
            Phase::Night(night) => {
                night.targets.clear();
                night.scheme = None;
            },
            _ => {},
        }
    }

    /// A field-by-field copy.
    pub fn duplicate(&self) -> (p: Self)
        ensures
            same_phase(*self, p),
    {
        match self {
            Phase::Init => Phase::Init,
            Phase::Day(d) => Phase::Day(
                Day { day_no: d.day_no, votes: copy_vec(&d.votes), blocked: copy_vec(&d.blocked) },
            ),
            Phase::Night(n) => Phase::Night(
                Night { night_no: n.night_no, targets: copy_vec(&n.targets), scheme: n.scheme },
            ),
            Phase::End(w, r) => Phase::End(*w, copy_vec(r)),
        }
    }

    pub fn is_day(&mut self) -> (r: Result<&mut Day, Error>)
        ensures
            *old(self) is Day <==> r is Ok,
            r matches Ok(d) ==> *d == old(self)->Day_0 && *final(self) == Phase::Day(*final(d)),
            r matches Err(e) ==> *final(self) == *old(self) && (e matches Error::InvalidPhase { expected, found }
                && expected == PhaseKind::Day && same_phase(found, *old(self))),
    {
        if let Phase::Day(day) = self {
            Ok(day)
        } else {
            Err(Error::InvalidPhase { expected: PhaseKind::Day, found: self.duplicate() })
        }
    }

    pub fn is_night(&mut self) -> (r: Result<&mut Night, Error>)
        ensures
            *old(self) is Night <==> r is Ok,
            r matches Ok(n) ==> *n == old(self)->Night_0 && *final(self) == Phase::Night(*final(n)),
            r matches Err(e) ==> *final(self) == *old(self) && (e matches Error::InvalidPhase { expected, found }
                && expected == PhaseKind::Night && same_phase(found, *old(self))),
    {
        if let Phase::Night(night) = self {
            Ok(night)
        } else {
            Err(Error::InvalidPhase { expected: PhaseKind::Night, found: self.duplicate() })
        }
    }
}

} // verus!

verus! {

/// All entries and their targets name players below `n`.
pub open spec fn targets_in_range(ts: Seq<(Pidx, Target)>, n: nat) -> bool {
    forall|i: int| 0 <= i < ts.len() ==> #[trigger] ts[i].0 < n && (target_of(ts[i].1) matches Some(p) ==> p < n)
}

/// How many players hold a targeting role.
pub fn count_targeting_players(players: &Vec<Player>) -> (c: usize)
    ensures
        c == count_targeting(players@),
{
    let mut c: usize = 0;
    let mut i: usize = 0;
    while i < players.len()
        invariant
            i <= players.len(),
            c == count_targeting(players@.take(i as int)),
            c <= i,
        decreases players.len() - i,
    {
        assert(players@.take(i + 1).drop_last() =~= players@.take(i as int));
        if players[i].role.targeting() {
            c = c + 1;
        }
        i = i + 1;
    }
    assert(players@.take(players.len() as int) =~= players@);
    c
}

/// The strippers of `a`, in the order they acted.
pub fn strippers(ts: &Targets, a: Pidx, n: usize) -> (r: Vec<Pidx>)
    requires
        targets_in_range(ts@, n as nat),
    ensures
        r@ == strippers_of(ts@, a),
        forall|k: int| 0 <= k < r.len() ==> #[trigger] r@[k] < n,
{
    let mut r: Vec<Pidx> = Vec::new();
    let mut i: usize = 0;
    while i < ts.len()
        invariant
            i <= ts.len(),
            targets_in_range(ts@, n as nat),
            r@ == strippers_of(ts@.take(i as int), a),
            forall|k: int| 0 <= k < r.len() ==> #[trigger] r@[k] < n,
        decreases ts.len() - i,
    {
        assert(ts@.take(i + 1).drop_last() =~= ts@.take(i as int));
        assert(ts@[i as int].0 < n);
        if ts[i].1 == Target::Strip(a) {
            r.push(ts[i].0);
        }
        i = i + 1;
    }
    assert(ts@.take(ts.len() as int) =~= ts@);
    r
}

/// The stripped players, each once, in the order first stripped.
pub fn blocked_list(ts: &Targets, n: usize) -> (r: Vec<Pidx>)
    requires
        targets_in_range(ts@, n as nat),
    ensures
        r@ == stripped_list(ts@),
{
    let mut r: Vec<Pidx> = Vec::new();
    let mut i: usize = 0;
    while i < ts.len()
        invariant
            i <= ts.len(),
            r@ == stripped_list(ts@.take(i as int)),
        decreases ts.len() - i,
    {
        assert(ts@.take(i + 1).drop_last() =~= ts@.take(i as int));
        if let Target::Strip(s) = ts[i].1 {
            let mut found = false;
            let mut k: usize = 0;
            while k < r.len()
                invariant
                    k <= r.len(),
                    found == exists|m: int| 0 <= m < k && r@[m] == s,
                decreases r.len() - k,
            {
                if r[k] == s {
                    found = true;
                }
                k = k + 1;
            }
            assert(found == r@.contains(s));
            if !found {
                r.push(s);
            }
        }
        i = i + 1;
    }
    assert(ts@.take(ts.len() as int) =~= ts@);
    r
}

/// The doctors saving `m`, in the order they acted.
pub fn doctors(eff: &Targets, m: Pidx, n: usize) -> (r: Vec<Pidx>)
    requires
        targets_in_range(eff@, n as nat),
    ensures
        r@ == doctors_of(eff@, m),
        forall|k: int| 0 <= k < r.len() ==> #[trigger] r@[k] < n,
{
    let mut r: Vec<Pidx> = Vec::new();
    let mut i: usize = 0;
    while i < eff.len()
        invariant
            i <= eff.len(),
            targets_in_range(eff@, n as nat),
            r@ == doctors_of(eff@.take(i as int), m),
            forall|k: int| 0 <= k < r.len() ==> #[trigger] r@[k] < n,
        decreases eff.len() - i,
    {
        assert(eff@.take(i + 1).drop_last() =~= eff@.take(i as int));
        assert(eff@[i as int].0 < n);
        if eff[i].1 == Target::Save(m) {
            r.push(eff[i].0);
        }
        i = i + 1;
    }
    assert(eff@.take(eff.len() as int) =~= eff@);
    r
}

} // verus!

verus! {

proof fn lemma_effective_in_range(ts: Seq<(Pidx, Target)>, part: Seq<(Pidx, Target)>, n: nat)
    requires
        targets_in_range(part, n),
    ensures
        targets_in_range(effective(ts, part), n),
    decreases part.len(),
{
    if part.len() > 0 {
        let rest = part.drop_last();
        assert(targets_in_range(rest, n)) by {
            assert forall|i: int| 0 <= i < rest.len() implies #[trigger] rest[i].0 < n && (target_of(rest[i].1) matches Some(p) ==> p < n) by {
                assert(rest[i] == part[i]);
            }
        }
        lemma_effective_in_range(ts, rest, n);
        let e = part.last();
        assert(e == part[part.len() - 1]);
        let all = effective(ts, part);
        let pre = effective(ts, rest);
        assert forall|i: int| 0 <= i < all.len() implies #[trigger] all[i].0 < n && (target_of(all[i].1) matches Some(p) ==> p < n) by {
            if e.1 is Strip {
                assert(all == pre);
            } else if is_blocked(ts, e) {
                assert(all == pre.push((e.0, Target::Abstain)));
                if i < pre.len() {
                    assert(all[i] == pre[i]);
                }
            } else {
                assert(all == pre.push(e));
                if i < pre.len() {
                    assert(all[i] == pre[i]);
                }
            }
        }
    }
}

/// Cancels stripped saves and investigations, announcing each strip;
/// returns the remaining (non-strip) actions.
pub fn apply_strips(ts: &Targets, players: &Vec<Player>, comm: &mut Comm) -> (eff: Targets)
    requires
        targets_in_range(ts@, players.len() as nat),
    ensures
        eff@ == effective(ts@, ts@),
        targets_in_range(eff@, players.len() as nat),
        final(comm).events@ == old(comm).events@ + strip_events(ts@, ts@, players@),
        final(comm).save == old(comm).save,
{
    let n = players.len();
    let mut eff: Targets = Vec::new();
    let mut i: usize = 0;
    while i < ts.len()
        invariant
            i <= ts.len(),
            n == players.len(),
            targets_in_range(ts@, n as nat),
            eff@ == effective(ts@, ts@.take(i as int)),
            comm.events@ == old(comm).events@ + strip_events(ts@, ts@.take(i as int), players@),
            comm.save == old(comm).save,
        decreases ts.len() - i,
    {
        let ghost before = comm.events@;
        assert(ts@.take(i + 1).drop_last() =~= ts@.take(i as int));
        assert(ts@.take(i + 1).last() == ts@[i as int]);
        let (actor, target) = ts[i];
        assert(actor < n);
        match target {
            Target::Strip(_) => {
                assert(strip_events_of(ts@, ts@[i as int], players@) =~= Seq::<Event>::empty());
            },
            Target::Save(_) | Target::Investigate(_) => {
                let by = strippers(ts, actor, n);
                if by.len() > 0 {
                    let mut k: usize = 0;
                    while k < by.len()
                        invariant
                            k <= by.len(),
                            n == players.len(),
                            actor < n,
                            forall|m: int| 0 <= m < by.len() ==> #[trigger] by@[m] < n,
                            comm.events@ == before + by@.take(k as int).map_values(
                                |s: Pidx| Event::Strip { stripper: players@[s as int], blocked: players@[actor as int] },
                            ),
                            comm.save == old(comm).save,
                        decreases by.len() - k,
                    {
                        comm.tx(Event::Strip { stripper: players[by[k]], blocked: players[actor] });
                        k = k + 1;
                        assert(by@.take(k as int).map_values(
                            |s: Pidx| Event::Strip { stripper: players@[s as int], blocked: players@[actor as int] },
                        ) =~= by@.take(k - 1).map_values(
                            |s: Pidx| Event::Strip { stripper: players@[s as int], blocked: players@[actor as int] },
                        ).push(Event::Strip { stripper: players@[by@[k - 1] as int], blocked: players@[actor as int] }));
                    }
                    assert(by@.take(by.len() as int) =~= by@);
                    eff.push((actor, Target::Abstain));
                } else {
                    assert(strip_events_of(ts@, ts@[i as int], players@) =~= Seq::<Event>::empty());
                    eff.push((actor, target));
                }
            },
            Target::Abstain => {
                assert(strip_events_of(ts@, ts@[i as int], players@) =~= Seq::<Event>::empty());
                eff.push((actor, target));
            },
        }
        i = i + 1;
        assert(comm.events@ =~= old(comm).events@ + strip_events(ts@, ts@.take(i as int), players@));
    }
    assert(ts@.take(ts.len() as int) =~= ts@);
    proof { lemma_effective_in_range(ts@, ts@, n as nat); }
    eff
}

/// Announces each investigation among the (effective) actions.
pub fn announce_investigations(eff: &Targets, players: &Vec<Player>, comm: &mut Comm)
    requires
        targets_in_range(eff@, players.len() as nat),
    ensures
        final(comm).events@ == old(comm).events@ + investigate_events(eff@, players@),
        final(comm).save == old(comm).save,
{
    let mut i: usize = 0;
    while i < eff.len()
        invariant
            i <= eff.len(),
            targets_in_range(eff@, players.len() as nat),
            comm.events@ == old(comm).events@ + investigate_events(eff@.take(i as int), players@),
            comm.save == old(comm).save,
        decreases eff.len() - i,
    {
        assert(eff@.take(i + 1).drop_last() =~= eff@.take(i as int));
        assert(eff@.take(i + 1).last() == eff@[i as int]);
        let (cop, target) = eff[i];
        assert(cop < players.len());
        if let Target::Investigate(suspect) = target {
            comm.tx(Event::Investigate { cop: players[cop], suspect: players[suspect], role: players[suspect].role });
        }
        i = i + 1;
        assert(comm.events@ =~= old(comm).events@ + investigate_events(eff@.take(i as int), players@));
    }
    assert(eff@.take(eff.len() as int) =~= eff@);
}

/// Announces each doctor's successful save of `saved`.
pub fn announce_saves(docs: &Vec<Pidx>, saved: Pidx, players: &Vec<Player>, comm: &mut Comm)
    requires
        saved < players.len(),
        forall|m: int| 0 <= m < docs.len() ==> #[trigger] docs@[m] < players.len(),
    ensures
        final(comm).events@ == old(comm).events@ + docs@.map_values(
            |d: Pidx| Event::Save { doctor: players@[d as int], saved: players@[saved as int] },
        ),
        final(comm).save == old(comm).save,
{
    let mut k: usize = 0;
    while k < docs.len()
        invariant
            k <= docs.len(),
            saved < players.len(),
            forall|m: int| 0 <= m < docs.len() ==> #[trigger] docs@[m] < players.len(),
            comm.events@ == old(comm).events@ + docs@.take(k as int).map_values(
                |d: Pidx| Event::Save { doctor: players@[d as int], saved: players@[saved as int] },
            ),
            comm.save == old(comm).save,
        decreases docs.len() - k,
    {
        comm.tx(Event::Save { doctor: players[docs[k]], saved: players[saved] });
        k = k + 1;
        assert(docs@.take(k as int).map_values(
            |d: Pidx| Event::Save { doctor: players@[d as int], saved: players@[saved as int] },
        ) =~= docs@.take(k - 1).map_values(
            |d: Pidx| Event::Save { doctor: players@[d as int], saved: players@[saved as int] },
        ).push(Event::Save { doctor: players@[docs@[k - 1] as int], saved: players@[saved as int] }));
    }
    assert(docs@.take(docs.len() as int) =~= docs@);
}

} // verus!

verus! {

/// The position of the actor's entry, if any.
pub fn find_target(ts: &Targets, actor: Pidx) -> (r: Option<usize>)
    ensures
        r is None <==> target_index(ts@, actor) == -1,
        r matches Some(i) ==> i == target_index(ts@, actor) && i < ts.len(),
{
    let mut i: usize = 0;
    while i < ts.len()
        invariant
            i <= ts.len(),
            forall|j: int| 0 <= j < i ==> #[trigger] ts@[j].0 != actor,
        decreases ts.len() - i,
    {
        if ts[i].0 == actor {
            let ghost k = target_index(ts@, actor);
            assert(k == i) by {
                if k < i {
                } else if k > i {
                }
            }
            return Some(i);
        }
        i = i + 1;
    }
    None
}

/// Sets the actor's target, replacing a former one in place.
pub fn set_target(ts: &mut Targets, actor: Pidx, t: Target)
    ensures
        final(ts)@ == targets_set(old(ts)@, actor, t),
{
    match find_target(ts, actor) {
        Some(i) => ts.set(i, (actor, t)),
        None => ts.push((actor, t)),
    }
}

/// Turns the actor's target, if any, into an abstention.
pub fn retract_target(ts: &mut Targets, actor: Pidx)
    ensures
        final(ts)@ == targets_retracted(old(ts)@, actor),
{
    match find_target(ts, actor) {
        Some(i) => ts.set(i, (actor, Target::Abstain)),
        None => {},
    }
}

impl Night {
    /// Resolves the night once every action is in: strippers cancel saves
    /// and investigations, cops learn roles, and the mafia's mark dies
    /// unless a doctor saved them.
    pub fn resolve_dawn(&mut self, players: &Vec<Player>, comm: &mut Comm) -> (r: Option<NightResolution>)
        requires
            night_in_range(*old(self), players.len() as nat),
            dawn_ready(*old(self), players@) ==> old(self).night_no < usize::MAX,
        ensures
            *final(self) == *old(self),
            final(comm).save == old(comm).save,
            !dawn_ready(*old(self), players@) ==> r is None && final(comm).events@ == old(comm).events@,
            dawn_ready(*old(self), players@) ==> (r matches Some(res) && final(comm).events@.len()
                >= old(comm).events@.len() && final(comm).events@.take(old(comm).events@.len() as int)
                == old(comm).events@ && dawn_outcome(
                *old(self),
                players@,
                final(comm).events@.skip(old(comm).events@.len() as int),
                res,
            )),
    {
        let ghost base = comm.events@;
        let n = players.len();
        let night_action_players = count_targeting_players(players);
        let night_actions = self.targets.len();
        if night_actions < night_action_players || self.scheme.is_none() {
            return None;
        }
        assert(targets_in_range(self.targets@, n as nat));
        comm.tx(Event::Dawn);
        let eff = apply_strips(&self.targets, players, comm);
        announce_investigations(&eff, players, comm);
        let blocked = blocked_list(&self.targets, n);
        let next_phase = Phase::new_day(self.night_no + 1, blocked);
        let ghost ts = self.targets@;
        let ghost head = seq![Event::Dawn] + strip_events(ts, ts, players@) + investigate_events(eff@, players@);
        assert(comm.events@ =~= base + head);
        let resolution = match self.scheme {
            Some((killer, Choice::Player(mark))) => {
                let docs = doctors(&eff, mark, n);
                if docs.len() > 0 {
                    announce_saves(&docs, mark, players, comm);
                    comm.tx(Event::NoKill);
                    NightResolution::NoKill(next_phase)
                } else {
                    comm.tx(Event::Kill { killer: players[killer], mark: players[mark] });
                    NightResolution::Kill(killer, mark, next_phase)
                }
            },
            _ => {
                comm.tx(Event::NoKill);
                NightResolution::NoKill(next_phase)
            },
        };
        let ghost after = comm.events@;
        assert(after.take(base.len() as int) =~= base);
        assert(after.skip(base.len() as int) =~= after.subrange(base.len() as int, after.len() as int));
        proof {
            match self.scheme {
                Some((killer, Choice::Player(mark))) => {
                    let d = doctors_of(effective(ts, ts), mark);
                    if d.len() > 0 {
                        assert(after.skip(base.len() as int) =~= head + d.map_values(
                            |x: Pidx| Event::Save { doctor: players@[x as int], saved: players@[mark as int] },
                        ) + seq![Event::NoKill]);
                    } else {
                        assert(after.skip(base.len() as int) =~= head + seq![Event::Kill { killer: players@[killer as int], mark: players@[mark as int] }]);
                    }
                },
                _ => {
                    assert(after.skip(base.len() as int) =~= head + seq![Event::NoKill]);
                },
            }
        }
        Some(resolution)
    }
}

} // verus!

verus! {

/// The scheme after `actor` chooses a night target: a killer who
/// targets gives up the kill.
pub open spec fn scheme_after_target(scheme: Option<(Pidx, Choice<Pidx>)>, actor: Pidx) -> Option<(Pidx, Choice<Pidx>)> {
    match scheme {
        Some((killer, c)) => if killer == actor {
            Some((killer, Choice::Abstain))
        } else {
            Some((killer, c))
        },
        None => None,
    }
}

/// The announcements and outcome after one more night action, given the
/// night as it now stands.
pub open spec fn after_night_action(
    night: Night,
    players: Seq<Player>,
    old_events: Seq<Event>,
    new_events: Seq<Event>,
    announced: Event,
    r: Option<NightResolution>,
) -> bool {
    let pre = old_events.push(announced);
    if dawn_ready(night, players) {
        &&& r matches Some(res)
        &&& new_events.len() >= pre.len()
        &&& new_events.take(pre.len() as int) == pre
        &&& dawn_outcome(night, players, new_events.skip(pre.len() as int), res)
    } else {
        &&& r is None
        &&& new_events == pre
    }
}

proof fn lemma_set_in_range(ts: Seq<(Pidx, Target)>, actor: Pidx, t: Target, n: nat)
    requires
        targets_in_range(ts, n),
        actor < n,
        target_of(t) matches Some(p) ==> p < n,
    ensures
        targets_in_range(targets_set(ts, actor, t), n),
        targets_in_range(targets_retracted(ts, actor), n),
{
    let i = target_index(ts, actor);
    let a = targets_set(ts, actor, t);
    let b = targets_retracted(ts, actor);
    assert forall|k: int| 0 <= k < a.len() implies #[trigger] a[k].0 < n && (target_of(a[k].1) matches Some(p) ==> p < n) by {
        if i >= 0 {
            if k != i {
                assert(a[k] == ts[k]);
            }
        } else if k < ts.len() {
            assert(a[k] == ts[k]);
        }
    }
    assert forall|k: int| 0 <= k < b.len() implies #[trigger] b[k].0 < n && (target_of(b[k].1) matches Some(p) ==> p < n) by {
        if i >= 0 && k != i {
            assert(b[k] == ts[k]);
        }
    }
}

impl Night {
    /// Records a night target (a cop investigates, a doctor saves, a
    /// stripper blocks) and resolves dawn if every action is in.
    pub fn resolve_target(
        &mut self,
        players: &Vec<Player>,
        actor: Pidx,
        target: Choice<Pidx>,
        role: Role,
        comm: &mut Comm,
    ) -> (r: Option<NightResolution>)
        requires
            actor < players.len(),
            choice_in_range(target, players.len() as nat),
            night_in_range(*old(self), players.len() as nat),
            target is Player ==> is_targeting(role),
            old(self).night_no < usize::MAX,
        ensures
            final(self).night_no == old(self).night_no,
            final(self).targets@ == targets_set(old(self).targets@, actor, target_for(role, target)),
            final(self).scheme == scheme_after_target(old(self).scheme, actor),
            night_in_range(*final(self), players.len() as nat),
            final(comm).save == old(comm).save,
            after_night_action(
                *final(self),
                players@,
                old(comm).events@,
                final(comm).events@,
                Event::Target { actor: players@[actor as int], target: choice_to_player(target, players@) },
                r,
            ),
    {
        if let Some((killer, _)) = self.scheme {
            if killer == actor {
                self.scheme = Some((killer, Choice::Abstain));
            }
        }
        comm.tx(Event::Target { actor: players[actor], target: target.to_p(players) });
        let t = match target {
            Choice::Abstain => Target::Abstain,
            Choice::Player(p) => match role {
                Role::COP => Target::Investigate(p),
                Role::DOCTOR => Target::Save(p),
                _ => Target::Strip(p),
            },
        };
        proof { lemma_set_in_range(self.targets@, actor, t, players.len() as nat); }
        set_target(&mut self.targets, actor, t);
        self.resolve_dawn(players, comm)
    }

    /// Records the mafia's mark (any earlier night target of the killer is
    /// given up) and resolves dawn if every action is in.
    pub fn resolve_mark(
        &mut self,
        players: &Vec<Player>,
        killer: Pidx,
        mark: Choice<Pidx>,
        comm: &mut Comm,
    ) -> (r: Option<NightResolution>)
        requires
            killer < players.len(),
            choice_in_range(mark, players.len() as nat),
            night_in_range(*old(self), players.len() as nat),
            old(self).night_no < usize::MAX,
        ensures
            final(self).night_no == old(self).night_no,
            final(self).targets@ == targets_retracted(old(self).targets@, killer),
            final(self).scheme == Some((killer, mark)),
            night_in_range(*final(self), players.len() as nat),
            final(comm).save == old(comm).save,
            after_night_action(
                *final(self),
                players@,
                old(comm).events@,
                final(comm).events@,
                Event::Mark { killer: players@[killer as int], mark: choice_to_player(mark, players@) },
                r,
            ),
    {
        proof { lemma_set_in_range(self.targets@, killer, Target::Abstain, players.len() as nat); }
        retract_target(&mut self.targets, killer);
        self.scheme = Some((killer, mark));
        comm.tx(Event::Mark { killer: players[killer], mark: mark.to_p(players) });
        self.resolve_dawn(players, comm)
    }
}

} // verus!

verus! {

/// The announcement of entering a phase: its first event names the day
/// or night, or the winner and the contract results.
pub open spec fn announces(p: Phase, e: Event) -> bool {
    match p {
        Phase::Day(d) => e == Event::Day { day_no: d.day_no },
        Phase::Night(n) => e == Event::Night { night_no: n.night_no },
        Phase::End(w, rs) => e matches Event::End { winner, contract_results } && winner == w
            && contract_results@ == rs@,
        Phase::Init => false,
    }
}

impl Phase {
    /// Moves to the next phase and announces it.
    pub fn next_phase(&mut self, next_phase: Phase, comm: &mut Comm)
        requires
            !(next_phase is Init),
        ensures
            *final(self) == next_phase,
            final(comm).save == old(comm).save,
            final(comm).events@.len() == old(comm).events@.len() + 1,
            final(comm).events@.drop_last() == old(comm).events@,
            announces(next_phase, final(comm).events@.last()),
    {
        let event = match &next_phase {
            Phase::Day(d) => Event::Day { day_no: d.day_no },
            Phase::Night(n) => Event::Night { night_no: n.night_no },
            Phase::End(w, rs) => Event::End { winner: *w, contract_results: copy_vec(rs) },
            Phase::Init => Event::Dawn,
        };
        *self = next_phase;
        comm.tx(event);
        assert(comm.events@.drop_last() =~= old(comm).events@);
    }

    /// Removes the given players (announcing each, largest index first),
    /// clears the phase, and reports the end of the game if it is decided.
    pub fn eliminate(
        &mut self,
        players: &mut Vec<Player>,
        to_die: &[Pidx],
        _proxy: Pidx,
        comm: &mut Comm,
    ) -> (r: Option<Phase>)
        requires
            removable(to_die@, old(players)@.len()),
        ensures
            final(players)@ == survivors(old(players)@, to_die@),
            cleared(*old(self), *final(self)),
            final(comm).events@ == old(comm).events@ + elim_events(old(players)@, to_die@),
            final(comm).save == old(comm).save,
            r is None <==> team_winner(final(players)@) is None,
            r matches Some(p) ==> p matches Phase::End(w, rs) && Some(w) == team_winner(final(players)@)
                && rs@.len() == 0,
    {
        let order = elim_order_of(players.len(), to_die);
        let _ids = remove_in_turn(players, &order, comm);
        self.clear();
        match check_team_numbers(players) {
            Some(w) => Some(Phase::End(w, Vec::new())),
            None => None,
        }
    }
}

/// Each voter has at most one standing vote.
pub open spec fn voters_unique(votes: Seq<(Pidx, Choice<Pidx>)>) -> bool {
    forall|i: int, j: int| 0 <= i < j < votes.len() ==> #[trigger] votes[i].0 != #[trigger] votes[j].0
}

proof fn lemma_vote_index_absent(votes: Seq<(Pidx, Choice<Pidx>)>, voter: Pidx)
    requires
        forall|i: int| 0 <= i < votes.len() ==> #[trigger] votes[i].0 != voter,
    ensures
        vote_index(votes, voter) == -1,
{
}

proof fn lemma_vote_index_unique(votes: Seq<(Pidx, Choice<Pidx>)>, voter: Pidx, k: int)
    requires
        0 <= k < votes.len(),
        votes[k].0 == voter,
        forall|i: int| 0 <= i < votes.len() && i != k ==> #[trigger] votes[i].0 != voter,
    ensures
        vote_index(votes, voter) == k,
{
    assert(forall|j: int| 0 <= j < k ==> #[trigger] votes[j].0 != voter);
    let c = vote_index(votes, voter);
    assert(0 <= c < votes.len() && votes[c].0 == voter);
}

/// A vote is read back: once the voter's standing vote is taken back and a
/// ballot cast, that ballot is the voter's standing vote; taken back with
/// no new ballot, the voter has none; and each voter still stands once.
pub proof fn law_vote_reads_back(votes: Seq<(Pidx, Choice<Pidx>)>, voter: Pidx, ballot: Option<Choice<Pidx>>)
    requires
        voters_unique(votes),
    ensures
        ({
            let base = votes_without(votes, voter);
            let after = match ballot {
                Some(b) => base.push((voter, b)),
                None => base,
            };
            standing_ballot(after, voter) == ballot && voters_unique(after)
        }),
{
    let base = votes_without(votes, voter);
    let k = vote_index(votes, voter);
    if exists|i: int| 0 <= i < votes.len() && #[trigger] votes[i].0 == voter {
        let i = choose|i: int| 0 <= i < votes.len() && #[trigger] votes[i].0 == voter;
        lemma_vote_index_unique(votes, voter, i);
    } else {
        lemma_vote_index_absent(votes, voter);
    }
    assert forall|i: int| 0 <= i < base.len() implies #[trigger] base[i].0 != voter by {
        if k >= 0 {
            if i < k {
                assert(base[i] == votes[i]);
            } else {
                assert(base[i] == votes[i + 1]);
            }
        }
    }
    assert(voters_unique(base)) by {
        if k >= 0 {
            assert forall|i: int, j: int| 0 <= i < j < base.len() implies #[trigger] base[i].0 != #[trigger] base[j].0 by {
                let ii = if i < k { i } else { i + 1 };
                let jj = if j < k { j } else { j + 1 };
                assert(base[i] == votes[ii]);
                assert(base[j] == votes[jj]);
            }
        }
    }
    match ballot {
        Some(b) => {
            let after = base.push((voter, b));
            lemma_vote_index_unique(after, voter, base.len() as int);
            assert forall|i: int, j: int| 0 <= i < j < after.len() implies #[trigger] after[i].0 != #[trigger] after[j].0 by {
                if j == base.len() {
                    assert(after[i] == base[i]);
                } else {
                    assert(after[i] == base[i] && after[j] == base[j]);
                }
            }
        },
        None => {
            lemma_vote_index_absent(base, voter);
        },
    }
}

/// Electing a player takes a strict majority of the players; abstaining
/// takes half of them, rounded up.
pub proof fn law_vote_threshold(n: nat, b: Choice<Pidx>)
    ensures
        b is Player ==> 2 * vote_threshold(n, b) > n && 2 * (vote_threshold(n, b) - 1) <= n,
        b is Abstain ==> 2 * vote_threshold(n, b) >= n && 2 * (vote_threshold(n, b) - 1) < n,
{
}


proof fn lemma_stripper_listed(ts: Seq<(Pidx, Target)>, j: int, a: Pidx)
    requires
        0 <= j < ts.len(),
        ts[j].1 == Target::Strip(a),
    ensures
        strippers_of(ts, a).contains(ts[j].0),
    decreases ts.len(),
{
    let rest = strippers_of(ts.drop_last(), a);
    if j == ts.len() - 1 {
        assert(strippers_of(ts, a) == rest.push(ts[j].0));
        assert(strippers_of(ts, a)[rest.len() as int] == ts[j].0);
    } else {
        assert(ts.drop_last()[j] == ts[j]);
        lemma_stripper_listed(ts.drop_last(), j, a);
        let k = choose|k: int| 0 <= k < rest.len() && rest[k] == ts[j].0;
        if ts.last().1 == Target::Strip(a) {
            assert(strippers_of(ts, a)[k] == rest[k]);
        }
    }
}

proof fn lemma_saving_doctor_acted(ts: Seq<(Pidx, Target)>, part: Seq<(Pidx, Target)>, m: Pidx, x: Pidx)
    requires
        doctors_of(effective(ts, part), m).contains(x),
    ensures
        exists|k: int| 0 <= k < part.len() && #[trigger] part[k] == (x, Target::Save(m)) && strippers_of(ts, x).len() == 0,
    decreases part.len(),
{
    if part.len() == 0 {
        assert(effective(ts, part) =~= Seq::empty());
        assert(doctors_of(Seq::<(Pidx, Target)>::empty(), m) =~= Seq::empty());
    } else {
        let rest = effective(ts, part.drop_last());
        let e = part.last();
        let eff = effective(ts, part);
        let dr = doctors_of(rest, m);
        let i = choose|i: int| 0 <= i < doctors_of(eff, m).len() && doctors_of(eff, m)[i] == x;
        if e.1 is Strip {
            assert(eff == rest);
        } else if is_blocked(ts, e) {
            assert(eff == rest.push((e.0, Target::Abstain)));
            assert(eff.drop_last() == rest);
            assert(doctors_of(eff, m) == dr);
        } else {
            assert(eff == rest.push(e));
            assert(eff.drop_last() == rest);
        }
        if doctors_of(eff, m) == dr || i < dr.len() {
            if doctors_of(eff, m) != dr {
                assert(doctors_of(eff, m) == dr.push(e.0));
                assert(doctors_of(eff, m)[i] == dr[i]);
            }
            assert(dr.contains(x));
            lemma_saving_doctor_acted(ts, part.drop_last(), m, x);
            let k = choose|k: int| 0 <= k < part.drop_last().len() && #[trigger] part.drop_last()[k] == (x, Target::Save(m)) && strippers_of(ts, x).len() == 0;
            assert(part[k] == part.drop_last()[k]);
        } else {
            assert(eff.last() == e);
            assert(e.1 == Target::Save(m));
            assert(doctors_of(eff, m) == dr.push(e.0));
            assert(x == e.0);
            assert(!is_blocked(ts, e));
            assert(part[part.len() - 1] == (x, Target::Save(m)));
        }
    }
}

proof fn lemma_strip_events_hold(ts: Seq<(Pidx, Target)>, part: Seq<(Pidx, Target)>, players: Seq<Player>, i: int, k: int)
    requires
        0 <= i < part.len(),
        0 <= k < strip_events_of(ts, part[i], players).len(),
    ensures
        strip_events(ts, part, players).contains(strip_events_of(ts, part[i], players)[k]),
    decreases part.len(),
{
    let rest = strip_events(ts, part.drop_last(), players);
    let last = strip_events_of(ts, part.last(), players);
    assert(strip_events(ts, part, players) == rest + last);
    if i == part.len() - 1 {
        assert((rest + last)[rest.len() + k] == last[k]);
    } else {
        assert(part.drop_last()[i] == part[i]);
        lemma_strip_events_hold(ts, part.drop_last(), players, i, k);
        let q = choose|q: int| 0 <= q < rest.len() && rest[q] == strip_events_of(ts, part[i], players)[k];
        assert((rest + last)[q] == rest[q]);
    }
}

/// A stripped doctor saves nobody: whoever is stripped (`ts[j]` strips `d`)
/// is never among the doctors saving the mafia's mark, so a mark whom only
/// that doctor tried to save dies at dawn; and when the stripped player
/// tried to save or investigate, dawn announces that the stripper blocked
/// them.
pub proof fn law_stripped_doctor_saves_nobody(
    ts: Seq<(Pidx, Target)>,
    players: Seq<Player>,
    j: int,
    killer: Pidx,
    mark: Pidx,
)
    requires
        0 <= j < ts.len(),
        ts[j].1 is Strip,
    ensures
        !doctors_of(effective(ts, ts), mark).contains(ts[j].1->Strip_0),
        (forall|i: int| 0 <= i < ts.len() && #[trigger] ts[i].1 == Target::Save(mark) ==> ts[i].0 == ts[j].1->Strip_0)
            ==> dawn_kill(ts, Some((killer, Choice::Player(mark)))) == Some((killer, mark)),
        forall|i: int|
            0 <= i < ts.len() && #[trigger] ts[i].0 == ts[j].1->Strip_0 && (ts[i].1 is Save || ts[i].1 is Investigate)
                ==> dawn_events(ts, Some((killer, Choice::Player(mark))), players).contains(
                Event::Strip { stripper: players[ts[j].0 as int], blocked: players[ts[j].1->Strip_0 as int] },
            ),
{
    let d = ts[j].1->Strip_0;
    let s = ts[j].0;
    lemma_stripper_listed(ts, j, d);
    let sd = strippers_of(ts, d);
    assert(sd.len() > 0);
    let docs = doctors_of(effective(ts, ts), mark);
    if docs.contains(d) {
        lemma_saving_doctor_acted(ts, ts, mark, d);
    }
    if forall|i: int| 0 <= i < ts.len() && #[trigger] ts[i].1 == Target::Save(mark) ==> ts[i].0 == d {
        if docs.len() > 0 {
            assert(docs.contains(docs[0]));
            lemma_saving_doctor_acted(ts, ts, mark, docs[0]);
            let k = choose|k: int| 0 <= k < ts.len() && #[trigger] ts[k] == (docs[0], Target::Save(mark)) && strippers_of(ts, docs[0]).len() == 0;
            assert(ts[k].1 == Target::Save(mark));
        }
    }
    assert forall|i: int|
        0 <= i < ts.len() && #[trigger] ts[i].0 == d && (ts[i].1 is Save || ts[i].1 is Investigate)
            implies dawn_events(ts, Some((killer, Choice::Player(mark))), players).contains(
            Event::Strip { stripper: players[s as int], blocked: players[d as int] },
        ) by {
        let q = choose|q: int| 0 <= q < sd.len() && sd[q] == s;
        let of = strip_events_of(ts, ts[i], players);
        assert(is_blocked(ts, ts[i]));
        assert(of[q] == Event::Strip { stripper: players[s as int], blocked: players[d as int] });
        lemma_strip_events_hold(ts, ts, players, i, q);
        let se = strip_events(ts, ts, players);
        let w = choose|w: int| 0 <= w < se.len() && se[w] == of[q];
        let eff = effective(ts, ts);
        let head = seq![Event::Dawn] + se + investigate_events(eff, players);
        assert(head[1 + w] == se[w]);
        let all = dawn_events(ts, Some((killer, Choice::Player(mark))), players);
        if docs.len() > 0 {
            let tail = docs.map_values(
                |dd: Pidx| Event::Save { doctor: players[dd as int], saved: players[mark as int] },
            ) + seq![Event::NoKill];
            assert(all == head + tail);
            assert(all[1 + w] == head[1 + w]);
        } else {
            assert(all == head + seq![Event::Kill { killer: players[killer as int], mark: players[mark as int] }]);
            assert(all[1 + w] == head[1 + w]);
        }
    }
}


proof fn lemma_no_strippers(ts: Seq<(Pidx, Target)>, a: Pidx)
    requires
        forall|i: int| 0 <= i < ts.len() ==> #[trigger] ts[i].1 != Target::Strip(a),
    ensures
        strippers_of(ts, a).len() == 0,
    decreases ts.len(),
{
    if ts.len() > 0 {
        assert forall|i: int| 0 <= i < ts.drop_last().len() implies #[trigger] ts.drop_last()[i].1 != Target::Strip(a) by {
            assert(ts.drop_last()[i] == ts[i]);
        }
        lemma_no_strippers(ts.drop_last(), a);
        assert(ts.last() == ts[ts.len() - 1]);
    }
}

proof fn lemma_effective_keeps(ts: Seq<(Pidx, Target)>, part: Seq<(Pidx, Target)>, k: int)
    requires
        0 <= k < part.len(),
        !(part[k].1 is Strip),
        !is_blocked(ts, part[k]),
    ensures
        effective(ts, part).contains(part[k]),
    decreases part.len(),
{
    let rest = effective(ts, part.drop_last());
    if k == part.len() - 1 {
        assert(effective(ts, part) == rest.push(part[k]));
        assert(effective(ts, part)[rest.len() as int] == part[k]);
    } else {
        assert(part.drop_last()[k] == part[k]);
        lemma_effective_keeps(ts, part.drop_last(), k);
        let q = choose|q: int| 0 <= q < rest.len() && rest[q] == part[k];
        let e = part.last();
        if e.1 is Strip {
        } else if is_blocked(ts, e) {
            assert(effective(ts, part)[q] == rest[q]);
        } else {
            assert(effective(ts, part)[q] == rest[q]);
        }
    }
}

proof fn lemma_doctor_listed(x: Seq<(Pidx, Target)>, d: Pidx, m: Pidx)
    requires
        x.contains((d, Target::Save(m))),
    ensures
        doctors_of(x, m).contains(d),
    decreases x.len(),
{
    let k = choose|k: int| 0 <= k < x.len() && x[k] == (d, Target::Save(m));
    let rest = doctors_of(x.drop_last(), m);
    if k == x.len() - 1 {
        assert(doctors_of(x, m) == rest.push(d));
        assert(doctors_of(x, m)[rest.len() as int] == d);
    } else {
        assert(x.drop_last()[k] == x[k]);
        lemma_doctor_listed(x.drop_last(), d, m);
        let q = choose|q: int| 0 <= q < rest.len() && rest[q] == d;
        if x.last().1 == Target::Save(m) {
            assert(doctors_of(x, m)[q] == rest[q]);
        }
    }
}

proof fn lemma_report_listed(x: Seq<(Pidx, Target)>, players: Seq<Player>, c: Pidx, t: Pidx)
    requires
        x.contains((c, Target::Investigate(t))),
    ensures
        investigate_events(x, players).contains(
            Event::Investigate { cop: players[c as int], suspect: players[t as int], role: players[t as int].role },
        ),
    decreases x.len(),
{
    let k = choose|k: int| 0 <= k < x.len() && x[k] == (c, Target::Investigate(t));
    let rest = investigate_events(x.drop_last(), players);
    if k == x.len() - 1 {
        assert(investigate_events(x, players)[rest.len() as int] == Event::Investigate {
            cop: players[c as int],
            suspect: players[t as int],
            role: players[t as int].role,
        });
    } else {
        assert(x.drop_last()[k] == x[k]);
        lemma_report_listed(x.drop_last(), players, c, t);
        let q = choose|q: int| 0 <= q < rest.len() && rest[q] == Event::Investigate {
            cop: players[c as int],
            suspect: players[t as int],
            role: players[t as int].role,
        };
        match x.last().1 {
            Target::Investigate(_) => {
                assert(investigate_events(x, players)[q] == rest[q]);
            },
            _ => {},
        }
    }
}

/// An actor nobody strips keeps their action: a doctor saving the mafia's
/// mark saves them, so nobody dies at dawn, and a cop's investigation is
/// reported to the cop with the suspect's role.
pub proof fn law_unstripped_actions_stand(
    ts: Seq<(Pidx, Target)>,
    players: Seq<Player>,
    k: int,
    killer: Pidx,
    mark: Pidx,
)
    requires
        0 <= k < ts.len(),
        forall|i: int| 0 <= i < ts.len() ==> #[trigger] ts[i].1 != Target::Strip(ts[k].0),
    ensures
        ts[k].1 == Target::Save(mark) ==> doctors_of(effective(ts, ts), mark).contains(ts[k].0) && dawn_kill(
            ts,
            Some((killer, Choice::Player(mark))),
        ) is None,
        ts[k].1 matches Target::Investigate(t) ==> dawn_events(ts, Some((killer, Choice::Player(mark))), players).contains(
            Event::Investigate { cop: players[ts[k].0 as int], suspect: players[t as int], role: players[t as int].role },
        ),
{
    lemma_no_strippers(ts, ts[k].0);
    if ts[k].1 is Save || ts[k].1 is Investigate {
        lemma_effective_keeps(ts, ts, k);
    }
    let eff = effective(ts, ts);
    if ts[k].1 == Target::Save(mark) {
        lemma_doctor_listed(eff, ts[k].0, mark);
    }
    match ts[k].1 {
        Target::Investigate(t) => {
            lemma_report_listed(eff, players, ts[k].0, t);
            let ie = investigate_events(eff, players);
            let ev = Event::Investigate { cop: players[ts[k].0 as int], suspect: players[t as int], role: players[t as int].role };
            let q = choose|q: int| 0 <= q < ie.len() && ie[q] == ev;
            let se = strip_events(ts, ts, players);
            let head = seq![Event::Dawn] + se + ie;
            assert(head[1 + se.len() + q] == ev);
            let all = dawn_events(ts, Some((killer, Choice::Player(mark))), players);
            let docs = doctors_of(eff, mark);
            if docs.len() > 0 {
                let tail = docs.map_values(
                    |dd: Pidx| Event::Save { doctor: players[dd as int], saved: players[mark as int] },
                ) + seq![Event::NoKill];
                assert(all == head + tail);
                assert(all[1 + se.len() + q] == head[1 + se.len() + q]);
            } else {
                assert(all == head + seq![Event::Kill { killer: players[killer as int], mark: players[mark as int] }]);
                assert(all[1 + se.len() + q] == head[1 + se.len() + q]);
            }
        },
        _ => {},
    }
}

} // verus!
