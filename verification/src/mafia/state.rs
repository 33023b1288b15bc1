use vstd::prelude::*;

use super::action::{Action, Error};
use super::event::{log_view, Event2, EventView};
use super::night::{
    act_priority, acts_view, blocks_on, by_priority, initial_acts, of_priority, resolution,
    resolved, targets_fit, Act, ActView, NightAct, NightActView,
};
use super::phase::{
    add_key, add_voted_keys, has_key, is_tally, voted, voters_for, voters_with, Blocks, Phase,
    VoteList, Votes,
};
use super::phase::{phase_kind, phase_name, PhaseKind};
use crate::text::{decimal, decimal_text};
use vstd::string::StringExecFns;
use super::players::{
    alive_of, checked, checked_ballot, checked_choice, lemma_same_ids, lemma_seat_index,
    lemma_team_count_le, role_at, seat_index, seated, team_count, Players, Seat,
};
use super::role::{
    kind_of, role_team, schemes, targets_at_night, Ballot, Choice, Pid, Role, RoleKind, Team,
};

verus! {

/// Milliseconds between the vote that reaches the threshold and the election.
pub const ELECTION_DELAY: i64 = 1000;

/// Milliseconds between the last night action and dawn.
pub const DAWN_DELAY: i64 = 1000;

/// `now` moved on by `d` milliseconds, held at the largest time.
pub open spec fn later(now: i64, d: i64) -> i64 {
    if now <= i64::MAX - d {
        (now + d) as i64
    } else {
        i64::MAX
    }
}

fn add_delay(now: i64, d: i64) -> (r: i64)
    requires
        0 <= d,
    ensures
        r == later(now, d),
{
    if now <= i64::MAX - d {
        now + d
    } else {
        i64::MAX
    }
}

/// The votes needed to decide `choice` among `n` living players: a strict
/// majority to elect a player, half of them (rounded up) to abstain.
pub open spec fn threshold(n: int, choice: Choice) -> int {
    if choice is Some {
        n / 2 + 1
    } else {
        (n + 1) / 2
    }
}

/// The votes needed to decide `choice` among `n` living players.
pub fn thresh(n: usize, choice: &Choice) -> (r: usize)
    ensures
        r == threshold(n as int, *choice),
        choice is Some ==> 2 * r > n && 2 * (r - 1) <= n,
        choice is None ==> 2 * r >= n && 2 * (r - 1) < n,
{
    if choice.is_some() {
        n / 2 + 1
    } else {
        n / 2 + n % 2
    }
}

/// A key of a day's count: abstaining, a living player, or any choice voted.
pub open spec fn count_key(seats: Seq<Seat>, votes: Seq<(Pid, Choice)>, c: Choice) -> bool {
    ||| c is None
    ||| exists|i: int| 0 <= i < alive_of(seats).len() && c == Some(#[trigger] alive_of(seats)[i].0)
    ||| voted(votes, c)
}

/// `r` counts the day's votes: each key once, with exactly its voters in
/// casting order.
pub open spec fn day_count(r: Seq<(Choice, Vec<Pid>)>, seats: Seq<Seat>, votes: Seq<(Pid, Choice)>) -> bool {
    is_tally(r, votes, |c: Choice| count_key(seats, votes, c))
}

/// The day's votes counted for every living player, for abstaining, and for
/// any other choice someone voted.
pub fn count_votes(votes: &Votes, players: &Players) -> (r: VoteList)
    ensures
        day_count(r@, players.seats@, votes@),
{
    let alive = players.alive();
    let mut r: VoteList = Vec::new();
    let mut i: usize = 0;
    while i < alive.len()
        invariant
            i <= alive.len(),
            alive@ == alive_of(players.seats@),
            forall|a: int, b: int| 0 <= a < b < r@.len() ==> #[trigger] r@[a].0 != #[trigger] r@[b].0,
            forall|a: int| 0 <= a < r@.len() ==> #[trigger] r@[a].1@ == super::phase::voters_with(votes@, r@[a].0),
            forall|x: Choice|
                #[trigger] has_key(r@, x) <==> exists|j: int| 0 <= j < i && x == Some(#[trigger] alive@[j].0),
        decreases alive.len() - i,
    {
        add_key(&mut r, votes, Some(alive[i].0));
        proof {
            assert forall|x: Choice|
                #[trigger] has_key(r@, x) <==> exists|j: int| 0 <= j < i + 1 && x == Some(#[trigger] alive@[j].0) by {
                if x == Some(alive@[i as int].0) {
                    assert(exists|j: int| 0 <= j < i + 1 && x == Some(#[trigger] alive@[j].0));
                }
            }
        }
        i = i + 1;
    }
    add_key(&mut r, votes, None);
    add_voted_keys(&mut r, votes);
    proof {
        let keys = |c: Choice| count_key(players.seats@, votes@, c);
        assert forall|c: Choice| #[trigger] keys(c) implies has_key(r@, c) by {}
        assert forall|k: int| 0 <= k < r@.len() implies keys(#[trigger] r@[k].0) by {
            assert(has_key(r@, r@[k].0));
        }
    }
    r
}

/// The response to a performed action.
#[derive(Debug, Clone, Copy, PartialEq, Eq)]
pub enum ActionResp {
    Accepted,
    Vote { voter: Pid, ballot: Option<(Choice, usize)>, former: Option<(Choice, usize)> },
    Target { actor: Pid, choice: Choice },
    Scheme { killer: Pid, mark: Choice },
    Vengeance { avenger: Pid, victim: Pid },
}

/// A game in progress: the day number, the phase, and who plays.
#[derive(Debug, Clone)]
pub struct State {
    pub day: u32,
    pub phase: Phase,
    pub players: Players,
}

/// The seats once `pid` is taken out of the game.
pub open spec fn without(s: Seq<Seat>, pid: Pid) -> Seq<Seat> {
    s.update(seat_index(s, pid), Seat { pid, role: role_at(s, pid), alive: false })
}

/// Who has won at this point, if anyone: the town once no mafia is left,
/// the mafia once it is at least as many as everyone else.
pub open spec fn verdict(s: Seq<Seat>) -> Option<Team> {
    let m = team_count(s, Team::Mafia);
    let n = alive_of(s).len();
    if m == 0 {
        Some(Team::Town)
    } else if n - m <= m {
        Some(Team::Mafia)
    } else {
        None
    }
}

/// The start of a new day with the night's blocks.
pub open spec fn fresh_day(p: Phase, blocks: Blocks) -> bool {
    p matches Phase::Day { votes, blocks: b, elect } && votes@.len() == 0 && b == blocks && elect is None
}

/// The start of a new night.
pub open spec fn fresh_night(p: Phase) -> bool {
    p matches Phase::Night { targets, scheme, dawn } && targets@.len() == 0 && scheme is None
        && dawn is None
}

impl State {
    /// A game about to start, with the roles dealt in `registry`.
    pub fn new(registry: Vec<(Pid, Role)>) -> (s: Self)
        ensures
            s.day == 0,
            s.phase is Init,
            s.players.seats@.len() == registry@.len(),
            forall|i: int|
                0 <= i < registry@.len() ==> #[trigger] s.players.seats@[i] == (Seat {
                    pid: registry@[i].0,
                    role: registry@[i].1,
                    alive: true,
                }),
    {
        State { day: 0, phase: Phase::Init, players: Players::from_registry(registry) }
    }

    pub fn is_started(&self) -> (b: bool)
        ensures
            b == !(self.phase is Init),
    {
        !matches!(self.phase, Phase::Init)
    }

    pub fn is_ended(&self) -> (b: bool)
        ensures
            b == (self.phase is End),
    {
        matches!(self.phase, Phase::End { .. })
    }

    pub fn players(&self) -> (p: &Players)
        ensures
            p == &self.players,
    {
        &self.players
    }

    /// Takes `player` out of the game and announces the role it had.
    pub fn eliminate(&mut self, player: Pid, culpable: Pid, tx: &mut Vec<Event2>)
        requires
            seated(old(self).players.seats@, player),
        ensures
            final(self).players.seats@ == without(old(self).players.seats@, player),
            final(self).day == old(self).day,
            final(self).phase == old(self).phase,
            log_view(final(tx)@) == log_view(old(tx)@).push(
                EventView::Eliminate { player, role: kind_of(role_at(old(self).players.seats@, player)) },
            ),
    {
        let role = self.players.eliminate(player);
        let kind = role.kind();
        let ghost before = tx@;
        tx.push(Event2::Eliminate { player, role: kind });
        assert(log_view(tx@) =~= log_view(before).push(
            EventView::Eliminate { player, role: kind },
        ));
    }

    /// `killer` kills `mark` at night.
    pub fn kill(&mut self, mark: Pid, killer: Pid, tx: &mut Vec<Event2>)
        requires
            seated(old(self).players.seats@, mark),
        ensures
            final(self).players.seats@ == without(old(self).players.seats@, mark),
            final(self).day == old(self).day,
            final(self).phase == old(self).phase,
            log_view(final(tx)@) == log_view(old(tx)@).push(
                EventView::Eliminate { player: mark, role: kind_of(role_at(old(self).players.seats@, mark)) },
            ),
    {
        self.eliminate(mark, killer, tx);
    }

    /// The elected idiot gets to take one of the voters down.
    pub fn eclipse(&mut self, avenger: Pid, hammer: Pid, guilty: Vec<Pid>, tx: &mut Vec<Event2>)
        ensures
            final(self).phase matches Phase::Eclipse { avenger: a, hammer: h, guilty: g, vengeance }
                && a == avenger && h == hammer && g@ == guilty@ && vengeance is None,
            final(self).day == old(self).day,
            final(self).players == old(self).players,
            log_view(final(tx)@) == log_view(old(tx)@).push(
                EventView::Eclipse { avenger, hammer, guilty: guilty@ },
            ),
    {
        let g = crate::engine::player::copy_vec(&guilty);
        self.phase = Phase::Eclipse { avenger, hammer, guilty: g, vengeance: None };
        let ghost before = tx@;
        tx.push(Event2::Eclipse { avenger, hammer, guilty });
        assert(log_view(tx@) =~= log_view(before).push(
            EventView::Eclipse { avenger, hammer, guilty: guilty@ },
        ));
    }

    /// A new day begins with the night's blocks.
    pub fn day(&mut self, blocks: Blocks, tx: &mut Vec<Event2>)
        requires
            old(self).day < u32::MAX,
        ensures
            final(self).day == old(self).day + 1,
            fresh_day(final(self).phase, blocks),
            final(self).players == old(self).players,
            log_view(final(tx)@) == log_view(old(tx)@).push(
                EventView::Day { day: final(self).day, players: alive_of(old(self).players.seats@) },
            ),
    {
        self.day = self.day + 1;
        self.phase = Phase::Day { votes: Vec::new(), blocks, elect: None };
        let players = self.players.alive();
        let ghost before = tx@;
        let ghost pv = players@;
        tx.push(Event2::Day { day: self.day, players });
        assert(log_view(tx@) =~= log_view(before).push(EventView::Day { day: self.day, players: pv }));
    }

    /// Night falls.
    pub fn night(&mut self, tx: &mut Vec<Event2>)
        ensures
            final(self).day == old(self).day,
            fresh_night(final(self).phase),
            final(self).players == old(self).players,
            log_view(final(tx)@) == log_view(old(tx)@).push(
                EventView::Night { day: old(self).day, players: alive_of(old(self).players.seats@) },
            ),
    {
        self.phase = Phase::Night { targets: Vec::new(), scheme: None, dawn: None };
        let players = self.players.alive();
        let ghost before = tx@;
        let ghost pv = players@;
        tx.push(Event2::Night { day: self.day, players });
        assert(log_view(tx@) =~= log_view(before).push(EventView::Night { day: self.day, players: pv }));
    }

    /// Ends the game if a team has won, and says whether it did.
    pub fn check_end(&mut self, tx: &mut Vec<Event2>) -> (ended: bool)
        ensures
            ended == verdict(old(self).players.seats@) is Some,
            ended ==> final(self).phase == (Phase::End { winner: verdict(old(self).players.seats@)->0 }),
            !ended ==> final(self).phase == old(self).phase,
            final(self).day == old(self).day,
            final(self).players == old(self).players,
            final(tx)@ == old(tx)@,
    {
        let n_maf = self.players.count(Team::Mafia);
        let n = self.players.n();
        proof {
            lemma_team_count_le(self.players.seats@, Team::Mafia);
        }
        if n_maf == 0 {
            self.phase = Phase::End { winner: Team::Town };
            return true;
        } else if n - n_maf <= n_maf {
            self.phase = Phase::End { winner: Team::Mafia };
            return true;
        }
        false
    }

    /// Announces the players and begins with a day when their number is odd,
    /// with a night when it is even.
    pub fn start(&mut self, tx: &mut Vec<Event2>)
        requires
            old(self).day < u32::MAX,
        ensures
            final(self).players == old(self).players,
            alive_of(old(self).players.seats@).len() % 2 == 1 ==> final(self).day == old(self).day + 1
                && fresh_day(final(self).phase, final(self).phase->blocks)
                && final(self).phase->blocks@.len() == 0 && log_view(final(tx)@) == log_view(old(tx)@).push(
                EventView::Start { players: alive_of(old(self).players.seats@) },
            ).push(EventView::Day { day: final(self).day, players: alive_of(old(self).players.seats@) }),
            alive_of(old(self).players.seats@).len() % 2 == 0 ==> final(self).day == old(self).day
                && fresh_night(final(self).phase) && log_view(final(tx)@) == log_view(old(tx)@).push(
                EventView::Start { players: alive_of(old(self).players.seats@) },
            ).push(EventView::Night { day: old(self).day, players: alive_of(old(self).players.seats@) }),
    {
        let players = self.players.alive();
        let ghost before = tx@;
        let ghost pv = players@;
        tx.push(Event2::Start { players });
        assert(log_view(tx@) =~= log_view(before).push(EventView::Start { players: pv }));
        let n = self.players.n();
        if n % 2 == 1 {
            self.day(Vec::new(), tx);
        } else {
            self.night(tx);
        }
    }
}

/// A short account of a game: day, phase, and how many of each team live.
#[derive(Debug, Clone)]
pub struct Brief {
    pub day: u32,
    pub phase: super::phase::PhaseKind,
    pub counts: Vec<(Team, usize)>,
}

impl Brief {
    /// The account of `state`; a team is counted when someone on it lives.
    pub fn from_state(state: &State) -> (b: Self)
        ensures
            b.day == state.day,
            b.phase == super::phase::phase_kind(state.phase),
            forall|i: int|
                0 <= i < b.counts@.len() ==> #[trigger] b.counts@[i].1 == team_count(
                    state.players.seats@,
                    b.counts@[i].0,
                ) && b.counts@[i].1 > 0,
            forall|t: Team|
                team_count(state.players.seats@, t) > 0 ==> exists|i: int|
                    0 <= i < b.counts@.len() && (#[trigger] b.counts@[i]).0 == t,
            forall|i: int, j: int|
                0 <= i < j < b.counts@.len() ==> (#[trigger] b.counts@[i]).0 != (#[trigger] b.counts@[j]).0,
    {
        let mut counts: Vec<(Team, usize)> = Vec::new();
        let town = state.players.count(Team::Town);
        let mafia = state.players.count(Team::Mafia);
        let rogue = state.players.count(Team::Rogue);
        if town > 0 {
            counts.push((Team::Town, town));
        }
        if mafia > 0 {
            counts.push((Team::Mafia, mafia));
        }
        if rogue > 0 {
            counts.push((Team::Rogue, rogue));
        }
        proof {
            assert forall|t: Team| team_count(state.players.seats@, t) > 0 implies exists|i: int|
                0 <= i < counts@.len() && (#[trigger] counts@[i]).0 == t by {
                match t {
                    Team::Town => {
                        assert(counts@[0].0 == t);
                    },
                    Team::Mafia => {
                        if town > 0 {
                            assert(counts@[1].0 == t);
                        } else {
                            assert(counts@[0].0 == t);
                        }
                    },
                    Team::Rogue => {
                        let k: int = (if town > 0 { 1int } else { 0int }) + (if mafia > 0 { 1int } else { 0int });
                        assert(counts@[k].0 == t);
                    },
                }
            }
        }
        Brief { day: state.day, phase: state.phase.kind(), counts }
    }
}

/// The count the first entry for team `t` holds, if there is one.
pub open spec fn count_of(counts: Seq<(Team, usize)>, t: Team) -> Option<usize>
    decreases counts.len(),
{
    if counts.len() == 0 {
        None
    } else if counts[0].0 == t {
        Some(counts[0].1)
    } else {
        count_of(counts.drop_first(), t)
    }
}

/// ` Town:3`, say: the team's label and its count, when it has one.
pub open spec fn team_part(counts: Seq<(Team, usize)>, t: Team, label: Seq<char>) -> Seq<char> {
    match count_of(counts, t) {
        Some(n) => " "@ + label + ":"@ + decimal(n as nat),
        None => Seq::empty(),
    }
}

/// `Day 2 Town:3 Mafia:1`, say: phase, day, and the count of each team
/// that has one, town first, then mafia, then rogues.
pub open spec fn brief_text(b: Brief) -> Seq<char> {
    phase_name(b.phase) + " "@ + decimal(b.day as nat) + team_part(b.counts@, Team::Town, "Town"@)
        + team_part(b.counts@, Team::Mafia, "Mafia"@) + team_part(b.counts@, Team::Rogue, "Rogue"@)
}

/// The count of the first entry for `t`.
pub(crate) fn find_count(counts: &Vec<(Team, usize)>, t: Team) -> (r: Option<usize>)
    ensures
        r == count_of(counts@, t),
{
    let mut i: usize = 0;
    assert(counts@.skip(0) =~= counts@);
    while i < counts.len()
        invariant
            i <= counts.len(),
            count_of(counts@, t) == count_of(counts@.skip(i as int), t),
        decreases counts.len() - i,
    {
        assert(counts@.skip(i as int)[0] == counts@[i as int]);
        if counts[i].0 == t {
            return Some(counts[i].1);
        }
        assert(counts@.skip(i as int).drop_first() =~= counts@.skip(i + 1));
        i = i + 1;
    }
    None
}

/// Appends the team's part of a brief.
fn push_team_part(s: &mut String, counts: &Vec<(Team, usize)>, t: Team, label: &str)
    ensures
        final(s)@ == old(s)@ + team_part(counts@, t, label@),
{
    match find_count(counts, t) {
        Some(n) => {
            s.append(" ");
            s.append(label);
            s.append(":");
            let digits = decimal_text(n as u128);
            s.append(digits.as_str());
            assert(final(s)@ =~= old(s)@ + team_part(counts@, t, label@));
        },
        None => {
            assert(old(s)@ + team_part(counts@, t, label@) =~= old(s)@);
        },
    }
}

impl Brief {
    /// The brief as it is announced: phase and day, then the count of each
    /// team that has one.
    pub fn text(&self) -> (s: String)
        ensures
            s@ == brief_text(*self),
    {
        let mut s = self.phase.text();
        s.append(" ");
        let day = decimal_text(self.day as u128);
        s.append(day.as_str());
        push_team_part(&mut s, &self.counts, Team::Town, "Town");
        push_team_part(&mut s, &self.counts, Team::Mafia, "Mafia");
        push_team_part(&mut s, &self.counts, Team::Rogue, "Rogue");
        s
    }
}

impl State {
    /// The phase and the day, as the game is announced.
    pub fn text(&self) -> (s: String)
        ensures
            s@ == phase_name(phase_kind(self.phase)) + " "@ + decimal(self.day as nat),
    {
        let mut s = self.phase.kind().text();
        s.append(" ");
        let day = decimal_text(self.day as u128);
        s.append(day.as_str());
        s
    }
}

/// The first entry for `k`, or -1.
pub open spec fn entry_pos(s: Seq<(Pid, Choice)>, k: Pid) -> int
    decreases s.len(),
{
    if s.len() == 0 {
        -1
    } else {
        let p = entry_pos(s.drop_last(), k);
        if p >= 0 {
            p
        } else if s.last().0 == k {
            s.len() - 1
        } else {
            -1
        }
    }
}

/// The first entry for `k`, or -1.
pub open spec fn block_pos(s: Seq<(Pid, Vec<Pid>)>, k: Pid) -> int
    decreases s.len(),
{
    if s.len() == 0 {
        -1
    } else {
        let p = block_pos(s.drop_last(), k);
        if p >= 0 {
            p
        } else if s.last().0 == k {
            s.len() - 1
        } else {
            -1
        }
    }
}

pub proof fn lemma_entry_pos(s: Seq<(Pid, Choice)>, k: Pid)
    ensures
        -1 <= entry_pos(s, k) < s.len(),
        entry_pos(s, k) >= 0 ==> s[entry_pos(s, k)].0 == k,
        entry_pos(s, k) == -1 ==> forall|i: int| 0 <= i < s.len() ==> #[trigger] s[i].0 != k,
    decreases s.len(),
{
    if s.len() > 0 {
        lemma_entry_pos(s.drop_last(), k);
        assert forall|i: int| 0 <= i < s.len() - 1 implies s.drop_last()[i] == #[trigger] s[i] by {}
    }
}

pub proof fn lemma_block_pos(s: Seq<(Pid, Vec<Pid>)>, k: Pid)
    ensures
        -1 <= block_pos(s, k) < s.len(),
        block_pos(s, k) >= 0 ==> s[block_pos(s, k)].0 == k,
    decreases s.len(),
{
    if s.len() > 0 {
        lemma_block_pos(s.drop_last(), k);
    }
}

/// Where the first entry for `k` is.
fn find_entry(s: &Vec<(Pid, Choice)>, k: Pid) -> (r: Option<usize>)
    ensures
        r is Some <==> entry_pos(s@, k) >= 0,
        r matches Some(i) ==> i == entry_pos(s@, k) && i < s@.len() && s@[i as int].0 == k,
{
    proof {
        lemma_entry_pos(s@, k);
    }
    let mut found: Option<usize> = None;
    let mut i: usize = 0;
    while i < s.len()
        invariant
            i <= s.len(),
            found is Some <==> entry_pos(s@.take(i as int), k) >= 0,
            found matches Some(j) ==> j == entry_pos(s@.take(i as int), k),
        decreases s.len() - i,
    {
        assert(s@.take(i + 1).drop_last() =~= s@.take(i as int));
        if found.is_none() && s[i].0 == k {
            found = Some(i);
        }
        i = i + 1;
    }
    assert(s@.take(s.len() as int) =~= s@);
    found
}

/// Where the first entry for `k` is.
fn find_block(s: &Blocks, k: Pid) -> (r: Option<usize>)
    ensures
        r is Some <==> block_pos(s@, k) >= 0,
        r matches Some(i) ==> i == block_pos(s@, k) && i < s@.len() && s@[i as int].0 == k,
{
    proof {
        lemma_block_pos(s@, k);
    }
    let mut found: Option<usize> = None;
    let mut i: usize = 0;
    while i < s.len()
        invariant
            i <= s.len(),
            found is Some <==> block_pos(s@.take(i as int), k) >= 0,
            found matches Some(j) ==> j == block_pos(s@.take(i as int), k),
        decreases s.len() - i,
    {
        assert(s@.take(i + 1).drop_last() =~= s@.take(i as int));
        if found.is_none() && s[i].0 == k {
            found = Some(i);
        }
        i = i + 1;
    }
    assert(s@.take(s.len() as int) =~= s@);
    found
}

/// The ballot `voter` cast earlier today, if any.
pub open spec fn former_of(votes: Seq<(Pid, Choice)>, voter: Pid) -> Ballot {
    if entry_pos(votes, voter) >= 0 {
        Some(votes[entry_pos(votes, voter)].1)
    } else {
        None
    }
}

/// An action that passed its checks.
#[derive(Debug, Clone, Copy, PartialEq, Eq, Structural)]
pub enum Checked {
    Vote(Pid, Ballot),
    Reveal(Pid),
    Target(Pid, Choice),
    Scheme(Pid, Choice),
    EclipseVote(Pid),
}

/// An action that passed its checks against the state, ready to perform.
#[derive(Debug, Clone, Copy, PartialEq, Eq, Structural)]
pub struct ValidAction(pub Checked);

/// The error of being in `p` when `expected` was wanted.
pub open spec fn wrong_phase(p: Phase, expected: PhaseKind) -> Error {
    Error::InvalidPhase { expected, actual: phase_kind(p) }
}

/// What the idiot's vote during an eclipse comes to.
pub open spec fn eclipse_check(p: Phase, voter: Pid, ballot: Ballot) -> Result<Checked, Error> {
    match p {
        Phase::Eclipse { avenger, guilty, .. } => if voter != avenger {
            Err(Error::IneffectiveAction)
        } else {
            match ballot {
                Some(Some(victim)) => if victim == avenger || !guilty@.contains(victim) {
                    Err(Error::IneffectiveAction)
                } else {
                    Ok(Checked::EclipseVote(victim))
                },
                _ => Err(Error::IneffectiveAction),
            }
        },
        _ => Err(wrong_phase(p, PhaseKind::Eclipse)),
    }
}

/// What a vote comes to: both ids must name living players; by day the
/// ballot must differ from the voter's standing one; during an eclipse it
/// is the idiot's choice of victim.
pub open spec fn vote_check(s: State, voter: Pid, ballot: Ballot) -> Result<Checked, Error> {
    let seats = s.players.seats@;
    match checked(seats, voter) {
        Err(e) => Err(e),
        Ok(v) => match checked_ballot(seats, ballot) {
            Err(e) => Err(e),
            Ok(b) => match s.phase {
                Phase::Day { votes, .. } => if former_of(votes@, v) == b {
                    Err(Error::IneffectiveAction)
                } else {
                    Ok(Checked::Vote(v, b))
                },
                Phase::Eclipse { .. } => eclipse_check(s.phase, v, b),
                _ => Err(wrong_phase(s.phase, PhaseKind::Day)),
            },
        },
    }
}

/// What a reveal comes to: only a living celeb may reveal, and only by day.
pub open spec fn reveal_check(s: State, celeb: Pid) -> Result<Checked, Error> {
    let seats = s.players.seats@;
    match checked(seats, celeb) {
        Err(e) => Err(e),
        Ok(c) => if role_at(seats, c) != Role::CELEB {
            Err(Error::ExpectedCeleb { actual: kind_of(role_at(seats, c)) })
        } else if !(s.phase is Day) {
            Err(wrong_phase(s.phase, PhaseKind::Day))
        } else {
            Ok(Checked::Reveal(c))
        },
    }
}

/// What a night target comes to: a living targeting role, by night, once.
pub open spec fn target_check(s: State, actor: Pid, choice: Choice) -> Result<Checked, Error> {
    let seats = s.players.seats@;
    match checked(seats, actor) {
        Err(e) => Err(e),
        Ok(a) => match checked_choice(seats, choice) {
            Err(e) => Err(e),
            Ok(c) => if !targets_at_night(role_at(seats, a)) {
                Err(Error::ExpectedTargetingRole { actual: kind_of(role_at(seats, a)) })
            } else {
                match s.phase {
                    Phase::Night { targets, .. } => if entry_pos(targets@, a) >= 0 {
                        Err(Error::IneffectiveAction)
                    } else {
                        Ok(Checked::Target(a, c))
                    },
                    _ => Err(wrong_phase(s.phase, PhaseKind::Night)),
                }
            },
        },
    }
}

/// What naming the mafia's kill comes to: only a scheming role may name a
/// mark, by night, once.
pub open spec fn scheme_check(s: State, killer: Pid, mark: Choice) -> Result<Checked, Error> {
    let seats = s.players.seats@;
    match checked(seats, killer) {
        Err(e) => Err(e),
        Ok(k) => match checked_choice(seats, mark) {
            Err(e) => Err(e),
            Ok(m) => if !schemes(role_at(seats, k)) && m is Some {
                Err(Error::ExpectedSchemingRole { actual: kind_of(role_at(seats, k)) })
            } else {
                match s.phase {
                    Phase::Night { scheme, .. } => if scheme is Some {
                        Err(Error::IneffectiveAction)
                    } else {
                        Ok(Checked::Scheme(k, m))
                    },
                    _ => Err(wrong_phase(s.phase, PhaseKind::Night)),
                }
            },
        },
    }
}

/// What an action comes to.
pub open spec fn action_check(s: State, action: Action<Pid>) -> Result<Checked, Error> {
    match action {
        Action::Vote { voter, ballot } => vote_check(s, voter, ballot),
        Action::Target { actor, choice } => target_check(s, actor, choice),
        Action::Scheme { killer, mark } => scheme_check(s, killer, mark),
        Action::Reveal { actor } => reveal_check(s, actor),
    }
}

impl State {
    /// Checks an action against the state.
    pub fn validate_action(&self, action: Action<Pid>) -> (r: Result<ValidAction, Error>)
        ensures
            r matches Ok(v) ==> action_check(*self, action) == Ok::<Checked, Error>(v.0),
            r matches Err(e) ==> action_check(*self, action) == Err::<Checked, Error>(e),
    {
        let result = match action {
            Action::Vote { voter, ballot } => self.validate_vote(voter, ballot),
            Action::Target { actor, choice } => self.validate_target(actor, choice),
            Action::Scheme { killer, mark } => self.validate_scheme(killer, mark),
            Action::Reveal { actor } => self.validate_reveal(actor),
        };
        match result {
            Ok(c) => Ok(ValidAction(c)),
            Err(e) => Err(e),
        }
    }

    fn validate_vote(&self, voter: Pid, ballot: Ballot) -> (r: Result<Checked, Error>)
        ensures
            r == vote_check(*self, voter, ballot),
    {
        let voter = match self.players.validate(voter) {
            Ok(v) => v,
            Err(e) => return Err(e),
        };
        let ballot = match self.players.validate_ballot(ballot) {
            Ok(b) => b,
            Err(e) => return Err(e),
        };
        let votes = match &self.phase {
            Phase::Day { votes, .. } => votes,
            Phase::Eclipse { .. } => return self.validate_eclipse_vote(voter, ballot),
            _ => return self.phase.expected(PhaseKind::Day),
        };
        let former = match find_entry(votes, voter) {
            Some(i) => Some(votes[i].1),
            None => None,
        };
        if former == ballot {
            return Err(Error::IneffectiveAction);
        }
        Ok(Checked::Vote(voter, ballot))
    }

    fn validate_reveal(&self, celeb: Pid) -> (r: Result<Checked, Error>)
        ensures
            r == reveal_check(*self, celeb),
    {
        let celeb = match self.players.validate(celeb) {
            Ok(c) => c,
            Err(e) => return Err(e),
        };
        let role = self.players.get_role(celeb);
        if role != Role::CELEB {
            return Err(Error::ExpectedCeleb { actual: role.kind() });
        }
        if !matches!(self.phase, Phase::Day { .. }) {
            return self.phase.expected(PhaseKind::Day);
        }
        Ok(Checked::Reveal(celeb))
    }

    fn validate_target(&self, actor: Pid, choice: Choice) -> (r: Result<Checked, Error>)
        ensures
            r == target_check(*self, actor, choice),
    {
        let actor = match self.players.validate(actor) {
            Ok(a) => a,
            Err(e) => return Err(e),
        };
        let choice = match self.players.validate_choice(choice) {
            Ok(c) => c,
            Err(e) => return Err(e),
        };
        let role = self.players.get_role(actor);
        if !role.is_targeting() {
            return Err(Error::ExpectedTargetingRole { actual: role.kind() });
        }
        let targets = match &self.phase {
            Phase::Night { targets, .. } => targets,
            _ => return self.phase.expected(PhaseKind::Night),
        };
        if find_entry(targets, actor).is_some() {
            return Err(Error::IneffectiveAction);
        }
        Ok(Checked::Target(actor, choice))
    }

    fn validate_scheme(&self, killer: Pid, mark: Choice) -> (r: Result<Checked, Error>)
        ensures
            r == scheme_check(*self, killer, mark),
    {
        let killer = match self.players.validate(killer) {
            Ok(k) => k,
            Err(e) => return Err(e),
        };
        let mark = match self.players.validate_choice(mark) {
            Ok(m) => m,
            Err(e) => return Err(e),
        };
        let role = self.players.get_role(killer);
        if !role.is_scheming() && mark.is_some() {
            return Err(Error::ExpectedSchemingRole { actual: role.kind() });
        }
        let scheme = match &self.phase {
            Phase::Night { scheme, .. } => scheme,
            _ => return self.phase.expected(PhaseKind::Night),
        };
        if scheme.is_some() {
            return Err(Error::IneffectiveAction);
        }
        Ok(Checked::Scheme(killer, mark))
    }

    /// The idiot's choice of victim during an eclipse.
    pub fn validate_eclipse_vote(&self, voter: Pid, ballot: Ballot) -> (r: Result<Checked, Error>)
        ensures
            r == eclipse_check(self.phase, voter, ballot),
    {
        let (avenger, guilty) = match &self.phase {
            Phase::Eclipse { avenger, guilty, .. } => (*avenger, guilty),
            _ => return self.phase.expected(PhaseKind::Eclipse),
        };
        if voter != avenger {
            return Err(Error::IneffectiveAction);
        }
        match ballot {
            Some(Some(victim)) => {
                if victim == avenger {
                    return Err(Error::IneffectiveAction);
                }
                if !contains_pid(guilty, victim) {
                    return Err(Error::IneffectiveAction);
                }
                Ok(Checked::EclipseVote(victim))
            },
            _ => Err(Error::IneffectiveAction),
        }
    }
}

/// Whether `v` holds `p`.
pub fn contains_pid(v: &Vec<Pid>, p: Pid) -> (b: bool)
    ensures
        b == v@.contains(p),
{
    let mut i: usize = 0;
    while i < v.len()
        invariant
            i <= v.len(),
            forall|j: int| 0 <= j < i ==> v@[j] != p,
        decreases v.len() - i,
    {
        if v[i] == p {
            assert(v@[i as int] == p);
            return true;
        }
        i = i + 1;
    }
    false
}

/// The time now, in milliseconds since the Unix epoch, from `chrono`'s
/// `Local::now`. It rests on the clock, so nothing is stated of it.
#[verifier::external_body]
fn now_millis() -> i64 {
    chrono::Local::now().timestamp_millis()
}

/// The action's kind fits the phase it is performed in.
pub open spec fn fits_phase(c: Checked, p: Phase) -> bool {
    match c {
        Checked::Vote(..) | Checked::Reveal(..) => p is Day,
        Checked::Target(..) | Checked::Scheme(..) => p is Night,
        Checked::EclipseVote(..) => p is Eclipse,
    }
}

/// The day's votes once `voter` casts `ballot`: the standing vote is taken
/// back, and a new choice goes last.
pub open spec fn recast(votes: Seq<(Pid, Choice)>, voter: Pid, ballot: Ballot) -> Seq<(Pid, Choice)> {
    let w = if entry_pos(votes, voter) >= 0 {
        votes.remove(entry_pos(votes, voter))
    } else {
        votes
    };
    match ballot {
        Some(c) => w.push((voter, c)),
        None => w,
    }
}

/// The pending election once the votes stand at `votes` among `n` living
/// players: a pending one is called off when its choice falls below the
/// threshold, and a ballot whose choice reaches it schedules a new one.
pub open spec fn election_after(
    elect: Option<(Choice, Pid, i64)>,
    votes: Seq<(Pid, Choice)>,
    n: int,
    voter: Pid,
    ballot: Ballot,
    now: i64,
) -> Option<(Choice, Pid, i64)> {
    let kept = match elect {
        Some(e) => if voters_with(votes, e.0).len() < threshold(n, e.0) {
            None
        } else {
            elect
        },
        None => None,
    };
    match ballot {
        Some(c) => if voters_with(votes, c).len() >= threshold(n, c) {
            Some((c, voter, later(now, ELECTION_DELAY)))
        } else {
            kept
        },
        None => kept,
    }
}

/// A choice with its number of votes.
pub open spec fn tally_of(votes: Seq<(Pid, Choice)>, b: Ballot) -> Option<(Choice, usize)> {
    match b {
        Some(c) => Some((c, voters_with(votes, c).len() as usize)),
        None => None,
    }
}

/// Every living targeting role has a target, and the mafia has named its
/// kill.
pub open spec fn night_ready(seats: Seq<Seat>, targets: Seq<(Pid, Choice)>, scheme: Option<(Pid, Choice)>) -> bool {
    &&& scheme is Some
    &&& forall|i: int|
        0 <= i < alive_of(seats).len() && targets_at_night(#[trigger] alive_of(seats)[i].1) ==> entry_pos(
            targets,
            alive_of(seats)[i].0,
        ) >= 0
}

/// When dawn comes: once set it stays; otherwise it is set a delay after
/// `now` when the night is ready.
pub open spec fn dawn_after(
    dawn: Option<i64>,
    seats: Seq<Seat>,
    targets: Seq<(Pid, Choice)>,
    scheme: Option<(Pid, Choice)>,
    now: i64,
) -> Option<i64> {
    if dawn is Some {
        dawn
    } else if night_ready(seats, targets, scheme) {
        Some(later(now, DAWN_DELAY))
    } else {
        None
    }
}

/// What performing a checked action does to the state and what it answers.
pub open spec fn performed(old: State, new: State, c: Checked, now: i64, r: ActionResp) -> bool {
    &&& new.day == old.day
    &&& new.players == old.players
    &&& match c {
        Checked::Vote(voter, ballot) => {
            let votes = recast(old.phase->votes@, voter, ballot);
            &&& new.phase matches Phase::Day { votes: v, blocks, elect }
            &&& v@ == votes
            &&& blocks == old.phase->blocks
            &&& elect == election_after(
                old.phase->elect,
                votes,
                alive_of(old.players.seats@).len() as int,
                voter,
                ballot,
                now,
            )
            &&& r == ActionResp::Vote {
                voter,
                ballot: tally_of(votes, ballot),
                former: tally_of(votes, former_of(old.phase->votes@, voter)),
            }
        },
        Checked::Reveal(_) => new.phase == old.phase && r == ActionResp::Accepted,
        Checked::Target(actor, choice) => {
            let targets = old.phase->targets@.push((actor, choice));
            &&& new.phase matches Phase::Night { targets: t, scheme, dawn }
            &&& t@ == targets
            &&& scheme == old.phase->scheme
            &&& dawn == dawn_after(old.phase->dawn, old.players.seats@, targets, scheme, now)
            &&& r == ActionResp::Target { actor, choice }
        },
        Checked::Scheme(killer, mark) => {
            &&& new.phase matches Phase::Night { targets, scheme, dawn }
            &&& targets == old.phase->targets
            &&& scheme == Some((killer, mark))
            &&& dawn == dawn_after(old.phase->dawn, old.players.seats@, targets@, scheme, now)
            &&& r == ActionResp::Scheme { killer, mark }
        },
        Checked::EclipseVote(victim) => {
            &&& new.phase matches Phase::Eclipse { avenger, hammer, guilty, vengeance }
            &&& avenger == old.phase->avenger && hammer == old.phase->hammer
            &&& guilty == old.phase->guilty
            &&& vengeance == Some(victim)
            &&& r == ActionResp::Vengeance { avenger, victim }
        },
    }
}

/// What a reveal announces: the blockers of a blocked celeb, or the celeb.
pub open spec fn reveal_news(blocks: Seq<(Pid, Vec<Pid>)>, celeb: Pid) -> EventView {
    if block_pos(blocks, celeb) >= 0 {
        EventView::Block { blocked: celeb, blockers: blocks[block_pos(blocks, celeb)].1@ }
    } else {
        EventView::Reveal { player: celeb, role: RoleKind::CELEB }
    }
}

/// The choice with its number of votes.
fn tally(votes: &Votes, b: Ballot) -> (r: Option<(Choice, usize)>)
    ensures
        r == tally_of(votes@, b),
{
    match b {
        Some(c) => {
            let v = voters_for(votes, c);
            Some((c, v.len()))
        },
        None => None,
    }
}

impl State {
    /// Performs a checked action at the current time.
    pub fn perform_action(&mut self, action: ValidAction, tx: &mut Vec<Event2>) -> (r: ActionResp)
        requires
            fits_phase(action.0, old(self).phase),
        ensures
            exists|now: i64| performed(*old(self), *final(self), action.0, now, r),
            action.0 is Reveal ==> log_view(final(tx)@) == log_view(old(tx)@).push(
                reveal_news(old(self).phase->blocks@, action.0->Reveal_0),
            ),
            !(action.0 is Reveal) ==> final(tx)@ == old(tx)@,
    {
        let now = now_millis();
        self.perform_action_at(action, now, tx)
    }

    /// Performs a checked action at time `now`.
    pub fn perform_action_at(&mut self, action: ValidAction, now: i64, tx: &mut Vec<Event2>) -> (r: ActionResp)
        requires
            fits_phase(action.0, old(self).phase),
        ensures
            performed(*old(self), *final(self), action.0, now, r),
            action.0 is Reveal ==> log_view(final(tx)@) == log_view(old(tx)@).push(
                reveal_news(old(self).phase->blocks@, action.0->Reveal_0),
            ),
            !(action.0 is Reveal) ==> final(tx)@ == old(tx)@,
    {
        match action.0 {
            Checked::Vote(voter, ballot) => self.vote(voter, ballot, now),
            Checked::Target(actor, choice) => self.target(actor, choice, now),
            Checked::Scheme(killer, mark) => self.scheme(killer, mark, now),
            Checked::Reveal(celeb) => self.reveal_celeb(celeb, tx),
            Checked::EclipseVote(victim) => self.eclipse_vote(victim),
        }
    }

    fn vote(&mut self, voter: Pid, ballot: Ballot, now: i64) -> (r: ActionResp)
        requires
            old(self).phase is Day,
        ensures
            performed(*old(self), *final(self), Checked::Vote(voter, ballot), now, r),
    {
        let mut phase = Phase::Init;
        std::mem::swap(&mut phase, &mut self.phase);
        let (mut votes, blocks, elect) = match phase {
            Phase::Day { votes, blocks, elect } => (votes, blocks, elect),
            _ => {
                return ActionResp::Accepted;
            },
        };
        let ghost old_votes = votes@;
        let former = match find_entry(&votes, voter) {
            Some(i) => {
                let (_, c) = votes.remove(i);
                Some(c)
            },
            None => None,
        };
        match ballot {
            Some(c) => votes.push((voter, c)),
            None => {},
        }
        assert(votes@ =~= recast(old_votes, voter, ballot));
        let n = self.players.n();
        let mut elect = elect;
        match elect {
            Some((choice, _, _)) => {
                let v = voters_for(&votes, choice);
                if v.len() < thresh(n, &choice) {
                    elect = None;
                }
            },
            None => {},
        }
        match ballot {
            Some(c) => {
                let v = voters_for(&votes, c);
                if v.len() >= thresh(n, &c) {
                    elect = Some((c, voter, add_delay(now, ELECTION_DELAY)));
                }
            },
            None => {},
        }
        let ballot_check = tally(&votes, ballot);
        let former_check = tally(&votes, former);
        self.phase = Phase::Day { votes, blocks, elect };
        ActionResp::Vote { voter, ballot: ballot_check, former: former_check }
    }

    fn reveal_celeb(&mut self, celeb: Pid, tx: &mut Vec<Event2>) -> (r: ActionResp)
        requires
            old(self).phase is Day,
        ensures
            performed(*old(self), *final(self), Checked::Reveal(celeb), 0, r),
            log_view(final(tx)@) == log_view(old(tx)@).push(reveal_news(old(self).phase->blocks@, celeb)),
    {
        let blocks = match &self.phase {
            Phase::Day { blocks, .. } => blocks,
            _ => {
                return ActionResp::Accepted;
            },
        };
        let ghost before = tx@;
        let e = match find_block(blocks, celeb) {
            Some(i) => Event2::Block { blocked: celeb, blockers: crate::engine::player::copy_vec(&blocks[i].1) },
            None => Event2::Reveal { player: celeb, role: Role::CELEB.kind() },
        };
        tx.push(e);
        assert(log_view(tx@) =~= log_view(before).push(reveal_news(self.phase->blocks@, celeb)));
        ActionResp::Accepted
    }

    /// Sets dawn a delay after `now` once every living targeting role has a
    /// target and the kill is named.
    fn check_dawn(seats: &Players, targets: &Vec<(Pid, Choice)>, scheme: &Option<(Pid, Choice)>, dawn: Option<i64>, now: i64) -> (r: Option<i64>)
        ensures
            r == dawn_after(dawn, seats.seats@, targets@, *scheme, now),
    {
        if dawn.is_some() {
            return dawn;
        }
        let mut ready = scheme.is_some();
        let alive = seats.alive();
        let mut i: usize = 0;
        while i < alive.len()
            invariant
                i <= alive.len(),
                alive@ == alive_of(seats.seats@),
                ready == (scheme is Some && forall|j: int|
                    0 <= j < i && targets_at_night(#[trigger] alive@[j].1) ==> entry_pos(
                        targets@,
                        alive@[j].0,
                    ) >= 0),
            decreases alive.len() - i,
        {
            if alive[i].1.is_targeting() && find_entry(targets, alive[i].0).is_none() {
                ready = false;
            }
            i = i + 1;
        }
        if ready {
            Some(add_delay(now, DAWN_DELAY))
        } else {
            None
        }
    }

    fn target(&mut self, actor: Pid, choice: Choice, now: i64) -> (r: ActionResp)
        requires
            old(self).phase is Night,
        ensures
            performed(*old(self), *final(self), Checked::Target(actor, choice), now, r),
    {
        let mut phase = Phase::Init;
        std::mem::swap(&mut phase, &mut self.phase);
        let (mut targets, scheme, dawn) = match phase {
            Phase::Night { targets, scheme, dawn } => (targets, scheme, dawn),
            _ => {
                return ActionResp::Accepted;
            },
        };
        targets.push((actor, choice));
        let dawn = Self::check_dawn(&self.players, &targets, &scheme, dawn, now);
        self.phase = Phase::Night { targets, scheme, dawn };
        ActionResp::Target { actor, choice }
    }

    fn scheme(&mut self, killer: Pid, mark: Choice, now: i64) -> (r: ActionResp)
        requires
            old(self).phase is Night,
        ensures
            performed(*old(self), *final(self), Checked::Scheme(killer, mark), now, r),
    {
        let mut phase = Phase::Init;
        std::mem::swap(&mut phase, &mut self.phase);
        let (targets, dawn) = match phase {
            Phase::Night { targets, dawn, .. } => (targets, dawn),
            _ => {
                return ActionResp::Accepted;
            },
        };
        let scheme = Some((killer, mark));
        let dawn = Self::check_dawn(&self.players, &targets, &scheme, dawn, now);
        self.phase = Phase::Night { targets, scheme, dawn };
        ActionResp::Scheme { killer, mark }
    }

    fn eclipse_vote(&mut self, victim: Pid) -> (r: ActionResp)
        requires
            old(self).phase is Eclipse,
        ensures
            performed(*old(self), *final(self), Checked::EclipseVote(victim), 0, r),
    {
        let mut phase = Phase::Init;
        std::mem::swap(&mut phase, &mut self.phase);
        let (avenger, hammer, guilty) = match phase {
            Phase::Eclipse { avenger, hammer, guilty, .. } => (avenger, hammer, guilty),
            _ => {
                return ActionResp::Accepted;
            },
        };
        self.phase = Phase::Eclipse { avenger, hammer, guilty, vengeance: Some(victim) };
        ActionResp::Vengeance { avenger, victim }
    }
}

/// Taking a player out keeps everyone in their seat.
pub proof fn lemma_without_keeps_ids(s: Seq<Seat>, pid: Pid, other: Pid)
    requires
        seated(s, pid),
    ensures
        without(s, pid).len() == s.len(),
        seat_index(without(s, pid), other) == seat_index(s, other),
        seated(s, other) ==> role_at(without(s, pid), other) == role_at(s, other),
{
    lemma_seat_index(s, pid);
    let w = without(s, pid);
    assert forall|i: int| 0 <= i < s.len() implies #[trigger] w[i].pid == s[i].pid by {}
    lemma_same_ids(w, s, other);
    lemma_seat_index(s, other);
}

/// The choice and hammer of the pending election.
pub open spec fn pending(p: Phase) -> (Choice, Pid) {
    match p {
        Phase::Day { elect: Some((c, h, _)), .. } => (c, h),
        _ => (None, Pid(0)),
    }
}

/// What an election ends in, after it is announced: an elected idiot
/// starts an eclipse; an elected player is eliminated; then the game ends
/// if a team has won, else night falls.
pub open spec fn after_election(old: State, new: State, news: Seq<EventView>) -> bool {
    let choice = pending(old.phase).0;
    let hammer = pending(old.phase).1;
    let seats = old.players.seats@;
    let voters = voters_with(old.phase->votes@, choice);
    if choice is Some && role_at(seats, choice->0) == Role::IDIOT {
        &&& new.phase matches Phase::Eclipse { avenger, hammer: h, guilty, vengeance }
        &&& avenger == choice->0 && h == hammer && guilty@ == voters && vengeance is None
        &&& new.players == old.players
        &&& new.day == old.day
        &&& news == seq![EventView::Eclipse { avenger: choice->0, hammer, guilty: voters }]
    } else {
        let seats1 = if choice is Some {
            without(seats, choice->0)
        } else {
            seats
        };
        let out = if choice is Some {
            seq![EventView::Eliminate { player: choice->0, role: kind_of(role_at(seats, choice->0)) }]
        } else {
            Seq::empty()
        };
        &&& new.players.seats@ == seats1
        &&& new.day == old.day
        &&& match verdict(seats1) {
            Some(w) => new.phase == Phase::End { winner: w } && news == out,
            None => fresh_night(new.phase) && news == out.push(
                EventView::Night { day: old.day, players: alive_of(seats1) },
            ),
        }
    }
}

/// An election held: announced with the day's count, then as
/// `after_election` says.
pub open spec fn election_done(old: State, new: State, log0: Seq<EventView>, log1: Seq<EventView>) -> bool {
    &&& log1.len() > log0.len()
    &&& log1.take(log0.len() as int) == log0
    &&& log1[log0.len() as int] matches EventView::Election { choice, hammer, vote_list }
        && choice == pending(old.phase).0 && hammer == pending(old.phase).1
        && exists|l: Seq<(Choice, Vec<Pid>)>|
        day_count(l, old.players.seats@, old.phase->votes@) && vote_list == super::event::list_view(l)
    &&& after_election(old, new, log1.skip(log0.len() + 1int))
}

/// What the idiot's vengeance ends in: the victim and then the idiot are
/// eliminated; then the game ends if a team has won, else night falls.
pub open spec fn after_vengeance(old: State, new: State, news: Seq<EventView>, victim: Pid, avenger: Pid) -> bool {
    let s0 = old.players.seats@;
    let s1 = without(s0, victim);
    let s2 = without(s1, avenger);
    let out = seq![
        EventView::Eliminate { player: victim, role: kind_of(role_at(s0, victim)) },
        EventView::Eliminate { player: avenger, role: kind_of(role_at(s1, avenger)) },
    ];
    &&& new.players.seats@ == s2
    &&& new.day == old.day
    &&& match verdict(s2) {
        Some(w) => new.phase == Phase::End { winner: w } && news == out,
        None => fresh_night(new.phase) && news == out.push(
            EventView::Night { day: old.day, players: alive_of(s2) },
        ),
    }
}

/// The first kill of `mark`, or -1.
pub open spec fn kill_pos(k: Seq<(Pid, Pid)>, mark: Pid) -> int
    decreases k.len(),
{
    if k.len() == 0 {
        -1
    } else {
        let p = kill_pos(k.drop_last(), mark);
        if p >= 0 {
            p
        } else if k.last().0 == mark {
            k.len() - 1
        } else {
            -1
        }
    }
}

pub proof fn lemma_kill_pos(k: Seq<(Pid, Pid)>, mark: Pid)
    ensures
        -1 <= kill_pos(k, mark) < k.len(),
        kill_pos(k, mark) >= 0 ==> k[kill_pos(k, mark)].0 == mark,
    decreases k.len(),
{
    if k.len() > 0 {
        lemma_kill_pos(k.drop_last(), mark);
    }
}

/// The kills once `killer` kills `mark`: one killer per mark, the last one.
pub open spec fn put_kill(k: Seq<(Pid, Pid)>, mark: Pid, killer: Pid) -> Seq<(Pid, Pid)> {
    if kill_pos(k, mark) >= 0 {
        k.update(kill_pos(k, mark), (mark, killer))
    } else {
        k.push((mark, killer))
    }
}

/// The kills so far (mark, killer) and what has been announced.
pub struct Dusk {
    pub kills: Seq<(Pid, Pid)>,
    pub news: Seq<EventView>,
}

/// One resolved act carried out: an effective save whose doctor was
/// blocked tells the doctor so; a kill with no savior takes effect, one
/// with saviors is announced as a save; an investigation reports whether
/// the target is mafia, unless the cop dies tonight or was blocked; milk is
/// delivered unless the target dies, and a blocked milky who lives is told.
pub open spec fn dusk_step(d: Dusk, a: NightActView, seats: Seq<Seat>) -> Dusk {
    match a.act {
        ActView::Block => d,
        ActView::Save { effective } => if effective && a.blockers.len() > 0 {
            Dusk { kills: d.kills, news: d.news.push(EventView::Block { blocked: a.actor, blockers: a.blockers }) }
        } else {
            d
        },
        ActView::Kill { saviors } => if saviors.len() == 0 {
            Dusk { kills: put_kill(d.kills, a.target, a.actor), news: d.news }
        } else {
            Dusk { kills: d.kills, news: d.news.push(EventView::Save { saved: a.target, saviors }) }
        },
        ActView::Investigate => if kill_pos(d.kills, a.actor) >= 0 {
            d
        } else if a.blockers.len() == 0 {
            Dusk {
                kills: d.kills,
                news: d.news.push(
                    EventView::Investigate {
                        cop: a.actor,
                        target: a.target,
                        appears_mafia: role_team(role_at(seats, a.target)) == Team::Mafia,
                    },
                ),
            }
        } else {
            Dusk { kills: d.kills, news: d.news.push(EventView::Block { blocked: a.actor, blockers: a.blockers }) }
        },
        ActView::Milk => if kill_pos(d.kills, a.target) >= 0 {
            d
        } else if a.blockers.len() == 0 {
            Dusk { kills: d.kills, news: d.news.push(EventView::Milk { milky: a.actor, target: a.target }) }
        } else if kill_pos(d.kills, a.actor) < 0 {
            Dusk { kills: d.kills, news: d.news.push(EventView::Block { blocked: a.actor, blockers: a.blockers }) }
        } else {
            d
        },
    }
}

/// The acts carried out in order.
pub open spec fn dusk(acts: Seq<NightActView>, seats: Seq<Seat>) -> Dusk
    decreases acts.len(),
{
    if acts.len() == 0 {
        Dusk { kills: Seq::empty(), news: Seq::empty() }
    } else {
        dusk_step(dusk(acts.drop_last(), seats), acts.last(), seats)
    }
}

/// The seats once the marks are killed in order.
pub open spec fn slain(seats: Seq<Seat>, kills: Seq<(Pid, Pid)>) -> Seq<Seat>
    decreases kills.len(),
{
    if kills.len() == 0 {
        seats
    } else {
        without(slain(seats, kills.drop_last()), kills.last().0)
    }
}

/// The announcements of the kills: each kill, then the mark's role.
pub open spec fn death_news(seats: Seq<Seat>, kills: Seq<(Pid, Pid)>) -> Seq<EventView>
    decreases kills.len(),
{
    if kills.len() == 0 {
        Seq::empty()
    } else {
        let k = kills.last();
        death_news(seats, kills.drop_last()) + seq![
            EventView::Kill { killer: k.1, mark: k.0 },
            EventView::Eliminate { player: k.0, role: kind_of(role_at(slain(seats, kills.drop_last()), k.0)) },
        ]
    }
}

/// Every kill and investigation is aimed at someone at the table.
pub open spec fn aims_fit(seats: Seq<Seat>, acts: Seq<NightActView>) -> bool {
    forall|i: int|
        0 <= i < acts.len() && ((#[trigger] acts[i]).act is Kill || acts[i].act is Investigate)
            ==> seated(seats, acts[i].target)
}

/// The night's blocks: each blocked player once, with the players who
/// blocked them in order, and exactly the players someone blocked.
pub open spec fn block_tally(b: Seq<(Pid, Vec<Pid>)>, acts: Seq<NightActView>) -> bool {
    &&& forall|i: int, j: int| 0 <= i < j < b.len() ==> #[trigger] b[i].0 != #[trigger] b[j].0
    &&& forall|i: int| 0 <= i < b.len() ==> (#[trigger] b[i]).1@ == blocks_on(acts, b[i].0)
    &&& forall|p: Pid| (exists|i: int| 0 <= i < b.len() && (#[trigger] b[i]).0 == p) <==> blocks_on(acts, p).len() > 0
}

pub proof fn lemma_dusk_kills_fit(acts: Seq<NightActView>, seats: Seq<Seat>)
    requires
        aims_fit(seats, acts),
    ensures
        forall|j: int| 0 <= j < dusk(acts, seats).kills.len() ==> seated(seats, #[trigger] dusk(acts, seats).kills[j].0),
    decreases acts.len(),
{
    if acts.len() > 0 {
        let rest = acts.drop_last();
        assert forall|i: int| 0 <= i < rest.len() && ((#[trigger] rest[i]).act is Kill || rest[i].act is Investigate)
            implies seated(seats, rest[i].target) by {
            assert(acts[i] == rest[i]);
        }
        lemma_dusk_kills_fit(rest, seats);
        let d = dusk(rest, seats);
        lemma_kill_pos(d.kills, acts.last().target);
        assert(acts[acts.len() - 1] == acts.last());
    }
}

pub proof fn lemma_slain_keeps_ids(seats: Seq<Seat>, kills: Seq<(Pid, Pid)>, other: Pid)
    requires
        forall|j: int| 0 <= j < kills.len() ==> seated(seats, #[trigger] kills[j].0),
    ensures
        seat_index(slain(seats, kills), other) == seat_index(seats, other),
        slain(seats, kills).len() == seats.len(),
        seated(seats, other) ==> role_at(slain(seats, kills), other) == role_at(seats, other),
    decreases kills.len(),
{
    if kills.len() > 0 {
        let rest = kills.drop_last();
        assert forall|j: int| 0 <= j < rest.len() implies seated(seats, #[trigger] rest[j].0) by {
            assert(kills[j] == rest[j]);
        }
        lemma_slain_keeps_ids(seats, rest, other);
        lemma_slain_keeps_ids(seats, rest, kills.last().0);
        assert(kills[kills.len() - 1] == kills.last());
        lemma_without_keeps_ids(slain(seats, rest), kills.last().0, other);
    }
}

/// The night's blocks gathered from the acts.
fn collect_blocks(acts: &Vec<NightAct>) -> (r: Blocks)
    ensures
        block_tally(r@, acts_view(acts@)),
{
    let mut r: Blocks = Vec::new();
    let mut i: usize = 0;
    while i < acts.len()
        invariant
            i <= acts.len(),
            block_tally(r@, acts_view(acts@.take(i as int))),
        decreases acts.len() - i,
    {
        let ghost prev = acts_view(acts@.take(i as int));
        let ghost next = acts_view(acts@.take(i + 1));
        assert(next.drop_last() =~= prev);
        assert(next.last() == acts@[i as int]@);
        if matches!(acts[i].act, Act::Block) {
            let target = acts[i].target;
            let actor = acts[i].actor;
            match find_block(&r, target) {
                Some(j) => {
                    let mut l = crate::engine::player::copy_vec(&r[j].1);
                    l.push(actor);
                    let ghost before = r@;
                    r.set(j, (target, l));
                    proof {
                        assert forall|k: int| 0 <= k < r@.len() implies (#[trigger] r@[k]).1@ == blocks_on(next, r@[k].0) by {
                            if k != j {
                                assert(before[k].0 != target);
                            }
                        }
                        assert forall|p: Pid| (exists|k: int| 0 <= k < r@.len() && (#[trigger] r@[k]).0 == p)
                            <==> blocks_on(next, p).len() > 0 by {
                            if p == target {
                                assert(r@[j as int].0 == p);
                                assert(blocks_on(next, p).len() > 0);
                            } else {
                                assert(blocks_on(next, p) == blocks_on(prev, p));
                                if exists|k: int| 0 <= k < r@.len() && (#[trigger] r@[k]).0 == p {
                                    let k = choose|k: int| 0 <= k < r@.len() && (#[trigger] r@[k]).0 == p;
                                    assert(before[k].0 == p);
                                }
                                if blocks_on(next, p).len() > 0 {
                                    let k = choose|k: int| 0 <= k < before.len() && (#[trigger] before[k]).0 == p;
                                    assert(r@[k].0 == p);
                                }
                            }
                        }
                    }
                },
                None => {
                    let mut l: Vec<Pid> = Vec::new();
                    l.push(actor);
                    let ghost before = r@;
                    r.push((target, l));
                    proof {
                        assert(blocks_on(prev, target).len() == 0) by {
                            if blocks_on(prev, target).len() > 0 {
                                let k = choose|k: int| 0 <= k < before.len() && (#[trigger] before[k]).0 == target;
                                lemma_block_pos(before, target);
                                assert(false) by {
                                    lemma_block_pos_none(before, target, k);
                                }
                            }
                        }
                        assert(l@ =~= blocks_on(next, target));
                        assert forall|k: int| 0 <= k < r@.len() implies (#[trigger] r@[k]).1@ == blocks_on(next, r@[k].0) by {
                            if k < before.len() {
                                assert(r@[k] == before[k]);
                            }
                        }
                        assert forall|a: int, b: int| 0 <= a < b < r@.len() implies #[trigger] r@[a].0 != #[trigger] r@[b].0 by {
                            if b == before.len() {
                                if r@[a].0 == target {
                                    assert(before[a].0 == target);
                                }
                            } else {
                                assert(r@[a] == before[a] && r@[b] == before[b]);
                            }
                        }
                        assert forall|p: Pid| (exists|k: int| 0 <= k < r@.len() && (#[trigger] r@[k]).0 == p)
                            <==> blocks_on(next, p).len() > 0 by {
                            if exists|k: int| 0 <= k < r@.len() && (#[trigger] r@[k]).0 == p {
                                let k = choose|k: int| 0 <= k < r@.len() && (#[trigger] r@[k]).0 == p;
                                if k < before.len() {
                                    assert(before[k].0 == p);
                                }
                            }
                            if blocks_on(next, p).len() > 0 {
                                if p == target {
                                    assert(r@[before.len() as int].0 == p);
                                } else {
                                    assert(blocks_on(next, p) == blocks_on(prev, p));
                                    let k = choose|k: int| 0 <= k < before.len() && (#[trigger] before[k]).0 == p;
                                    assert(r@[k].0 == p);
                                }
                            }
                        }
                    }
                },
            }
        } else {
            proof {
                assert forall|p: Pid| blocks_on(next, p) == blocks_on(prev, p) by {}
            }
        }
        i = i + 1;
    }
    assert(acts@.take(acts.len() as int) =~= acts@);
    r
}

pub proof fn lemma_block_pos_none(s: Seq<(Pid, Vec<Pid>)>, k: Pid, i: int)
    requires
        block_pos(s, k) == -1,
        0 <= i < s.len(),
    ensures
        s[i].0 != k,
    decreases s.len(),
{
    if i < s.len() - 1 {
        lemma_block_pos_none(s.drop_last(), k, i);
        assert(s.drop_last()[i] == s[i]);
    }
}

/// Where the first kill of `mark` is.
fn find_kill(k: &Vec<(Pid, Pid)>, mark: Pid) -> (r: Option<usize>)
    ensures
        r is Some <==> kill_pos(k@, mark) >= 0,
        r matches Some(i) ==> i == kill_pos(k@, mark) && i < k@.len() && k@[i as int].0 == mark,
{
    proof {
        lemma_kill_pos(k@, mark);
    }
    let mut found: Option<usize> = None;
    let mut i: usize = 0;
    while i < k.len()
        invariant
            i <= k.len(),
            found is Some <==> kill_pos(k@.take(i as int), mark) >= 0,
            found matches Some(j) ==> j == kill_pos(k@.take(i as int), mark),
        decreases k.len() - i,
    {
        assert(k@.take(i + 1).drop_last() =~= k@.take(i as int));
        if found.is_none() && k[i].0 == mark {
            found = Some(i);
        }
        i = i + 1;
    }
    assert(k@.take(k.len() as int) =~= k@);
    found
}

/// The acts as they were announced at dawn.
fn copy_acts(acts: &Vec<NightAct>) -> (r: Vec<NightAct>)
    ensures
        acts_view(r@) == acts_view(acts@),
{
    let mut r: Vec<NightAct> = Vec::new();
    let mut i: usize = 0;
    while i < acts.len()
        invariant
            i <= acts.len(),
            acts_view(r@) == acts_view(acts@.take(i as int)),
        decreases acts.len() - i,
    {
        let a = acts[i].duplicate();
        let ghost before = r@;
        r.push(a);
        assert(acts_view(r@) =~= acts_view(before).push(a@));
        assert(acts_view(acts@.take(i + 1)) =~= acts_view(acts@.take(i as int)).push(acts@[i as int]@));
        i = i + 1;
    }
    assert(acts@.take(acts.len() as int) =~= acts@);
    r
}

impl State {
    /// Holds the pending election: announces it with the day's count, then
    /// starts an eclipse for an elected idiot, or eliminates the elected
    /// player and ends the game or lets night fall.
    pub fn election(&mut self, tx: &mut Vec<Event2>)
        requires
            old(self).phase is Day,
            old(self).phase->elect is Some,
            pending(old(self).phase).0 matches Some(p) ==> seated(old(self).players.seats@, p),
        ensures
            election_done(*old(self), *final(self), log_view(old(tx)@), log_view(final(tx)@)),
    {
        let (choice, hammer) = match &self.phase {
            Phase::Day { elect: Some((c, h, _)), .. } => (*c, *h),
            _ => {
                return;
            },
        };
        let votes = match &self.phase {
            Phase::Day { votes, .. } => votes,
            _ => {
                return;
            },
        };
        let vote_list = count_votes(votes, &self.players);
        let voters = voters_for(votes, choice);
        let ghost l0 = log_view(tx@);
        let ghost seats = self.players.seats@;
        let ghost vl = vote_list@;
        let ghost ev = EventView::Election { choice, hammer, vote_list: super::event::list_view(vote_list@) };
        let ghost before = tx@;
        tx.push(Event2::Election { choice, hammer, vote_list });
        assert(log_view(tx@) =~= l0.push(ev));
        let ghost l1 = log_view(tx@);
        match choice {
            Some(pid) => {
                if self.players.get_role(pid) == Role::IDIOT {
                    self.eclipse(pid, hammer, voters, tx);
                    assert(log_view(tx@).take(l0.len() as int) =~= l0);
                    assert(log_view(tx@).skip(l0.len() + 1int) =~= seq![
                        EventView::Eclipse { avenger: pid, hammer, guilty: voters@ },
                    ]);
                    return;
                } else {
                    self.eliminate(pid, hammer, tx);
                }
            },
            None => {},
        }
        let ghost l2 = log_view(tx@);
        assert(choice == pending(old(self).phase).0);
        assert(hammer == pending(old(self).phase).1);
        assert(self.players.seats@ == (if choice is Some { without(seats, choice->0) } else { seats }));
        let ended = self.check_end(tx);
        if !ended {
            self.night(tx);
        }
        assert(log_view(tx@).take(l0.len() as int) =~= l0);
        assert(log_view(tx@)[l0.len() as int] == ev);
        assert(log_view(tx@).skip(l0.len() + 1int) =~= l2.skip(l1.len() as int) + log_view(tx@).skip(l2.len() as int));
        assert(l2.skip(l1.len() as int) =~= (if choice is Some {
            seq![EventView::Eliminate { player: choice->0, role: kind_of(role_at(seats, choice->0)) }]
        } else {
            Seq::empty()
        }));
        proof {
            let out = if choice is Some {
                seq![EventView::Eliminate { player: choice->0, role: kind_of(role_at(seats, choice->0)) }]
            } else {
                Seq::empty()
            };
            if !ended {
                assert(log_view(tx@).skip(l2.len() as int) =~= seq![
                    EventView::Night { day: self.day, players: alive_of(self.players.seats@) },
                ]);
                assert(log_view(tx@).skip(l0.len() + 1int) =~= out.push(
                    EventView::Night { day: self.day, players: alive_of(self.players.seats@) },
                ));
            } else {
                assert(log_view(tx@).skip(l2.len() as int) =~= Seq::<EventView>::empty());
                assert(log_view(tx@).skip(l0.len() + 1int) =~= out);
            }
        }
    }

    /// The idiot takes the victim down and goes down too; then the game
    /// ends or night falls.
    pub fn vengeance(&mut self, victim: Pid, avenger: Pid, hammer: Pid, tx: &mut Vec<Event2>)
        requires
            seated(old(self).players.seats@, victim),
            seated(old(self).players.seats@, avenger),
        ensures
            log_view(final(tx)@) == log_view(old(tx)@) + log_view(final(tx)@).skip(old(tx)@.len() as int),
            after_vengeance(*old(self), *final(self), log_view(final(tx)@).skip(old(tx)@.len() as int), victim, avenger),
    {
        let ghost l0 = log_view(tx@);
        let ghost s0 = self.players.seats@;
        proof {
            lemma_without_keeps_ids(s0, victim, avenger);
        }
        self.eliminate(victim, avenger, tx);
        let ghost s1 = self.players.seats@;
        self.eliminate(avenger, hammer, tx);
        let ghost l2 = log_view(tx@);
        let ended = self.check_end(tx);
        if !ended {
            self.night(tx);
        }
        assert(log_view(tx@) =~= l0 + log_view(tx@).skip(l0.len() as int));
        proof {
            let out = seq![
                EventView::Eliminate { player: victim, role: kind_of(role_at(s0, victim)) },
                EventView::Eliminate { player: avenger, role: kind_of(role_at(s1, avenger)) },
            ];
            assert(l2 =~= l0 + out);
            if !ended {
                assert(log_view(tx@).skip(l0.len() as int) =~= out.push(
                    EventView::Night { day: self.day, players: alive_of(self.players.seats@) },
                ));
            } else {
                assert(log_view(tx@).skip(l0.len() as int) =~= out);
            }
        }
    }

    /// Carries out the night's resolved acts in order, kills the marks, and
    /// gives back the night's blocks.
    pub fn apply_night_actions(&mut self, night_actions: Vec<NightAct>, tx: &mut Vec<Event2>) -> (blocks: Blocks)
        requires
            aims_fit(old(self).players.seats@, acts_view(night_actions@)),
        ensures
            block_tally(blocks@, acts_view(night_actions@)),
            final(self).day == old(self).day,
            final(self).phase == old(self).phase,
            final(self).players.seats@ == slain(
                old(self).players.seats@,
                dusk(acts_view(night_actions@), old(self).players.seats@).kills,
            ),
            log_view(final(tx)@) == log_view(old(tx)@) + dusk(acts_view(night_actions@), old(self).players.seats@).news
                + (if dusk(acts_view(night_actions@), old(self).players.seats@).kills.len() == 0 {
                seq![EventView::NoKill]
            } else {
                Seq::empty()
            }) + death_news(
                old(self).players.seats@,
                dusk(acts_view(night_actions@), old(self).players.seats@).kills,
            ),
    {
        let blocks = collect_blocks(&night_actions);
        let ghost seats = self.players.seats@;
        let ghost av = acts_view(night_actions@);
        let ghost start = log_view(tx@);
        let mut kills: Vec<(Pid, Pid)> = Vec::new();
        let mut i: usize = 0;
        while i < night_actions.len()
            invariant
                i <= night_actions.len(),
                seats == self.players.seats@,
                av == acts_view(night_actions@),
                aims_fit(seats, av),
                self.day == old(self).day,
                self.phase == old(self).phase,
                self.players == old(self).players,
                kills@ == dusk(av.take(i as int), seats).kills,
                log_view(tx@) == start + dusk(av.take(i as int), seats).news,
            decreases night_actions.len() - i,
        {
            assert(av.take(i + 1).drop_last() =~= av.take(i as int));
            assert(av.take(i + 1).last() == av[i as int]);
            let na = &night_actions[i];
            assert(av[i as int] == na@);
            let ghost before = tx@;
            match &na.act {
                Act::Block => {},
                Act::Save { effective } => {
                    if *effective && na.blockers.len() > 0 {
                        tx.push(Event2::Block { blocked: na.actor, blockers: crate::engine::player::copy_vec(&na.blockers) });
                    }
                },
                Act::Kill { saviors } => {
                    if saviors.len() == 0 {
                        match find_kill(&kills, na.target) {
                            Some(j) => {
                                kills.set(j, (na.target, na.actor));
                            },
                            None => {
                                kills.push((na.target, na.actor));
                            },
                        }
                    } else {
                        tx.push(Event2::Save { saved: na.target, saviors: crate::engine::player::copy_vec(saviors) });
                    }
                },
                Act::Investigate => {
                    if find_kill(&kills, na.actor).is_none() {
                        assert(av[i as int].act is Investigate);
                        let role = self.players.get_role(na.target);
                        if na.blockers.len() == 0 {
                            tx.push(Event2::Investigate { cop: na.actor, target: na.target, appears_mafia: role.is_mafia() });
                        } else {
                            tx.push(Event2::Block { blocked: na.actor, blockers: crate::engine::player::copy_vec(&na.blockers) });
                        }
                    }
                },
                Act::Milk => {
                    if find_kill(&kills, na.target).is_none() {
                        if na.blockers.len() == 0 {
                            tx.push(Event2::Milk { milky: na.actor, target: na.target });
                        } else if find_kill(&kills, na.actor).is_none() {
                            tx.push(Event2::Block { blocked: na.actor, blockers: crate::engine::player::copy_vec(&na.blockers) });
                        }
                    }
                },
            }
            assert(log_view(tx@) =~= start + dusk(av.take(i + 1), seats).news) by {
                if tx@.len() > before.len() {
                    assert(log_view(tx@) =~= log_view(before).push(tx@.last()@));
                }
            }
            i = i + 1;
        }
        assert(av.take(night_actions.len() as int) =~= av);
        let ghost d = dusk(av, seats);
        if kills.len() == 0 {
            let ghost before = tx@;
            tx.push(Event2::NoKill);
            assert(log_view(tx@) =~= log_view(before).push(EventView::NoKill));
        }
        let ghost base = log_view(tx@);
        proof {
            lemma_dusk_kills_fit(av, seats);
        }
        let mut j: usize = 0;
        while j < kills.len()
            invariant
                j <= kills.len(),
                kills@ == d.kills,
                forall|m: int| 0 <= m < kills@.len() ==> seated(seats, #[trigger] kills@[m].0),
                self.day == old(self).day,
                self.phase == old(self).phase,
                self.players.seats@ == slain(seats, kills@.take(j as int)),
                log_view(tx@) == base + death_news(seats, kills@.take(j as int)),
            decreases kills.len() - j,
        {
            let (mark, killer) = kills[j];
            assert(kills@.take(j + 1).drop_last() =~= kills@.take(j as int));
            assert(kills@.take(j + 1).last() == (mark, killer));
            proof {
                lemma_slain_keeps_ids(seats, kills@.take(j as int), mark);
                assert forall|m: int| 0 <= m < kills@.take(j as int).len() implies seated(seats, #[trigger] kills@.take(j as int)[m].0) by {
                    assert(kills@.take(j as int)[m] == kills@[m]);
                }
            }
            let ghost before = tx@;
            tx.push(Event2::Kill { killer, mark });
            assert(log_view(tx@) =~= log_view(before).push(EventView::Kill { killer, mark }));
            self.kill(mark, killer, tx);
            assert(log_view(tx@) =~= base + death_news(seats, kills@.take(j + 1)));
            j = j + 1;
        }
        assert(kills@.take(kills.len() as int) =~= kills@);
        blocks
    }
}

/// What dawn ends in once the resolved acts are announced and carried
/// out: the game ends if a team has won, else a new day begins with the
/// night's blocks.
pub open spec fn after_dawn(old: State, new: State, news: Seq<EventView>, acts: Seq<NightActView>) -> bool {
    let seats = old.players.seats@;
    let d = dusk(acts, seats);
    let seats1 = slain(seats, d.kills);
    let told = seq![EventView::Dawn { night_actions: acts }] + d.news + (if d.kills.len() == 0 {
        seq![EventView::NoKill]
    } else {
        Seq::empty()
    }) + death_news(seats, d.kills);
    &&& new.players.seats@ == seats1
    &&& match verdict(seats1) {
        Some(w) => new.phase == Phase::End { winner: w } && new.day == old.day && news == told,
        None => {
            &&& new.day == old.day + 1
            &&& new.phase matches Phase::Day { votes, blocks, elect } && votes@.len() == 0 && elect is None
                && block_tally(blocks@, acts)
            &&& news == told.push(EventView::Day { day: new.day, players: alive_of(seats1) })
        },
    }
}

/// Dawn came: the acts are the resolution of some ordering of the night's
/// initial acts, and the rest is as `after_dawn` says.
pub open spec fn dawn_done(old: State, new: State, log0: Seq<EventView>, log1: Seq<EventView>) -> bool {
    &&& log1.len() >= log0.len()
    &&& log1.take(log0.len() as int) == log0
    &&& exists|q: Seq<NightActView>|
        q.to_multiset() == initial_acts(old.players.seats@, old.phase->targets@, old.phase->scheme).to_multiset()
            && after_dawn(old, new, log1.skip(log0.len() as int), resolution(q))
}

/// Dawn can be carried out: it is night, every targeting actor plays a
/// targeting role, every kill and investigation is aimed at someone at the
/// table, and the day count can grow.
pub open spec fn dawn_ready(s: State) -> bool {
    &&& s.phase is Night
    &&& targets_fit(s.players.seats@, s.phase->targets@)
    &&& aims_fit(s.players.seats@, initial_acts(s.players.seats@, s.phase->targets@, s.phase->scheme))
    &&& s.day < u32::MAX
}

pub proof fn lemma_aims_fit_perm(seats: Seq<Seat>, a: Seq<NightActView>, b: Seq<NightActView>)
    requires
        aims_fit(seats, a),
        b.to_multiset() == a.to_multiset(),
    ensures
        aims_fit(seats, b),
{
    assert forall|i: int| 0 <= i < b.len() && ((#[trigger] b[i]).act is Kill || b[i].act is Investigate)
        implies seated(seats, b[i].target) by {
        vstd::seq_lib::to_multiset_contains(b, b[i]);
        assert(b.contains(b[i]));
        vstd::seq_lib::to_multiset_contains(a, b[i]);
        let j = choose|j: int| 0 <= j < a.len() && a[j] == b[i];
        assert(a[j] == b[i]);
    }
}

pub proof fn lemma_aims_fit_priority(seats: Seq<Seat>, a: Seq<NightActView>, p: int)
    requires
        aims_fit(seats, a),
    ensures
        aims_fit(seats, of_priority(a, p)),
    decreases a.len(),
{
    if a.len() > 0 {
        let rest = a.drop_last();
        assert forall|i: int| 0 <= i < rest.len() && ((#[trigger] rest[i]).act is Kill || rest[i].act is Investigate)
            implies seated(seats, rest[i].target) by {
            assert(a[i] == rest[i]);
        }
        lemma_aims_fit_priority(seats, rest, p);
        assert(a[a.len() - 1] == a.last());
    }
}

pub proof fn lemma_aims_fit_resolution(seats: Seq<Seat>, q: Seq<NightActView>)
    requires
        aims_fit(seats, q),
    ensures
        aims_fit(seats, resolution(q)),
{
    lemma_aims_fit_priority(seats, q, 2);
    lemma_aims_fit_priority(seats, q, 1);
    lemma_aims_fit_priority(seats, q, 0);
    lemma_aims_fit_priority(seats, q, -1);
    lemma_aims_fit_priority(seats, q, -2);
    let t = by_priority(q);
    let p2 = of_priority(q, 2);
    let p1 = of_priority(q, 1);
    let p0 = of_priority(q, 0);
    let m1 = of_priority(q, -1);
    let m2 = of_priority(q, -2);
    assert forall|i: int| 0 <= i < t.len() && ((#[trigger] t[i]).act is Kill || t[i].act is Investigate)
        implies seated(seats, t[i].target) by {
        let a = p2.len();
        let b = a + p1.len();
        let c = b + p0.len();
        let d = c + m1.len();
        if i < a {
            assert(t[i] == p2[i]);
        } else if i < b {
            assert(t[i] == p1[i - a]);
        } else if i < c {
            assert(t[i] == p0[i - b]);
        } else if i < d {
            assert(t[i] == m1[i - c]);
        } else {
            assert(t[i] == m2[i - d]);
        }
    }
    let r = resolution(q);
    assert forall|i: int| 0 <= i < r.len() && ((#[trigger] r[i]).act is Kill || r[i].act is Investigate)
        implies seated(seats, r[i].target) by {
        assert(r[i] == resolved(t, t[i]));
    }
}

impl State {
    /// Dawn: the night's acts are resolved in some random order, announced,
    /// and carried out; then the game ends or a new day begins.
    pub fn dawn(&mut self, tx: &mut Vec<Event2>)
        requires
            dawn_ready(*old(self)),
        ensures
            dawn_done(*old(self), *final(self), log_view(old(tx)@), log_view(final(tx)@)),
    {
        let ghost old_state = *self;
        let ghost seats = self.players.seats@;
        let ghost initial = initial_acts(seats, self.phase->targets@, self.phase->scheme);
        let night_actions = NightAct::from_state(self);
        let ghost q = choose|q: Seq<NightActView>|
            q.to_multiset() == initial.to_multiset() && acts_view(night_actions@) == resolution(q);
        let ghost acts = acts_view(night_actions@);
        proof {
            lemma_aims_fit_perm(seats, initial, q);
            lemma_aims_fit_resolution(seats, q);
        }
        let ghost l0 = log_view(tx@);
        let shown = copy_acts(&night_actions);
        tx.push(Event2::Dawn { night_actions: shown });
        assert(log_view(tx@) =~= l0.push(EventView::Dawn { night_actions: acts }));
        let ghost l1 = log_view(tx@);
        let blocks = self.apply_night_actions(night_actions, tx);
        let ghost l2 = log_view(tx@);
        let ended = self.check_end(tx);
        if !ended {
            self.day(blocks, tx);
        }
        proof {
            let d = dusk(acts, seats);
            let told = seq![EventView::Dawn { night_actions: acts }] + d.news + (if d.kills.len() == 0 {
                seq![EventView::NoKill]
            } else {
                Seq::empty()
            }) + death_news(seats, d.kills);
            assert(l2 =~= l0 + told);
            assert(log_view(tx@).take(l0.len() as int) =~= l0);
            if ended {
                assert(log_view(tx@).skip(l0.len() as int) =~= told);
            } else {
                assert(log_view(tx@).skip(l0.len() as int) =~= told.push(
                    EventView::Day { day: self.day, players: alive_of(self.players.seats@) },
                ));
            }
            assert(after_dawn(old_state, *self, log_view(tx@).skip(l0.len() as int), resolution(q)));
        }
    }

    /// Moves the game on at the current time.
    pub fn update(&mut self, tx: &mut Vec<Event2>) -> (r: Option<i64>)
        requires
            update_ready(*old(self)),
        ensures
            r is None,
            exists|now: i64| updated(*old(self), *final(self), log_view(old(tx)@), log_view(final(tx)@), now),
    {
        let now = now_millis();
        self.update_at(now, tx)
    }

    /// Moves the game on at time `now`: holds an election or dawn that is
    /// due. It always answers `None`.
    pub fn update_at(&mut self, now: i64, tx: &mut Vec<Event2>) -> (r: Option<i64>)
        requires
            update_ready(*old(self)),
        ensures
            r is None,
            updated(*old(self), *final(self), log_view(old(tx)@), log_view(final(tx)@), now),
    {
        let due_election = match &self.phase {
            Phase::Day { elect: Some((_, _, time)), .. } => *time < now,
            _ => false,
        };
        let due_dawn = match &self.phase {
            Phase::Night { dawn: Some(time), .. } => *time < now,
            _ => false,
        };
        if due_election {
            self.election(tx);
        } else if due_dawn {
            self.dawn(tx);
        }
        None
    }
}

/// An election is due at `now`.
pub open spec fn election_due(p: Phase, now: i64) -> bool {
    p matches Phase::Day { elect: Some((_, _, time)), .. } && time < now
}

/// Dawn is due at `now`.
pub open spec fn dawn_due(p: Phase, now: i64) -> bool {
    p matches Phase::Night { dawn: Some(time), .. } && time < now
}

/// Whatever falls due can be carried out: an elected player sits at the
/// table, and dawn is ready.
pub open spec fn update_ready(s: State) -> bool {
    &&& (s.phase matches Phase::Day { elect: Some((Some(p), _, _)), .. } ==> seated(s.players.seats@, p))
    &&& (s.phase matches Phase::Night { dawn: Some(_), .. } ==> dawn_ready(s))
}

/// What moving the game on at `now` does: a due election is held, a due
/// dawn comes, and otherwise nothing changes.
pub open spec fn updated(old: State, new: State, log0: Seq<EventView>, log1: Seq<EventView>, now: i64) -> bool {
    if election_due(old.phase, now) {
        election_done(old, new, log0, log1)
    } else if dawn_due(old.phase, now) {
        dawn_done(old, new, log0, log1)
    } else {
        new == old && log1 == log0
    }
}

/// Each voter stands in the list at most once.
pub open spec fn voters_unique(votes: Seq<(Pid, Choice)>) -> bool {
    forall|i: int, j: int| 0 <= i < j < votes.len() ==> #[trigger] votes[i].0 != #[trigger] votes[j].0
}

proof fn lemma_entry_pos_absent(s: Seq<(Pid, Choice)>, k: Pid)
    requires
        forall|i: int| 0 <= i < s.len() ==> #[trigger] s[i].0 != k,
    ensures
        entry_pos(s, k) == -1,
    decreases s.len(),
{
    if s.len() > 0 {
        lemma_entry_pos_absent(s.drop_last(), k);
        assert(s[s.len() - 1] == s.last());
    }
}

/// Every action that passes its checks fits the phase it is performed in,
/// so it can be performed.
pub proof fn law_valid_actions_can_be_performed(s: State, a: Action<Pid>)
    ensures
        action_check(s, a) matches Ok(c) ==> fits_phase(c, s.phase),
{
}

/// A vote is read back: after `voter` casts `ballot`, their standing vote
/// is that ballot (none after taking it back), and every voter still
/// stands at most once.
pub proof fn law_vote_reads_back(votes: Seq<(Pid, Choice)>, voter: Pid, ballot: Ballot)
    requires
        voters_unique(votes),
    ensures
        former_of(recast(votes, voter, ballot), voter) == ballot,
        voters_unique(recast(votes, voter, ballot)),
{
    lemma_entry_pos(votes, voter);
    let w = if entry_pos(votes, voter) >= 0 {
        votes.remove(entry_pos(votes, voter))
    } else {
        votes
    };
    assert forall|i: int| 0 <= i < w.len() implies #[trigger] w[i].0 != voter by {
        if entry_pos(votes, voter) >= 0 {
            let p = entry_pos(votes, voter);
            if i < p {
                assert(w[i] == votes[i]);
            } else {
                assert(w[i] == votes[i + 1]);
            }
        }
    }
    assert(voters_unique(w)) by {
        if entry_pos(votes, voter) >= 0 {
            let p = entry_pos(votes, voter);
            assert forall|i: int, j: int| 0 <= i < j < w.len() implies #[trigger] w[i].0 != #[trigger] w[j].0 by {
                let ii = if i < p { i } else { i + 1 };
                let jj = if j < p { j } else { j + 1 };
                assert(w[i] == votes[ii]);
                assert(w[j] == votes[jj]);
            }
        }
    }
    lemma_entry_pos_absent(w, voter);
    match ballot {
        Some(c) => {
            let r = w.push((voter, c));
            lemma_entry_pos_absent(r.drop_last(), voter);
            assert(r.drop_last() =~= w);
            assert forall|i: int, j: int| 0 <= i < j < r.len() implies #[trigger] r[i].0 != #[trigger] r[j].0 by {
                if j == w.len() {
                    assert(r[i] == w[i]);
                } else {
                    assert(r[i] == w[i] && r[j] == w[j]);
                }
            }
        },
        None => {},
    }
}

/// The idiot's vengeance falls only on a guilty voter other than the idiot,
/// and only the idiot casts it.
pub proof fn law_vengeance_on_guilty(p: Phase, voter: Pid, ballot: Ballot)
    ensures
        eclipse_check(p, voter, ballot) matches Ok(Checked::EclipseVote(v)) ==> p is Eclipse && voter
            == p->avenger && v != p->avenger && p->guilty@.contains(v) && ballot == Some(Some(v)),
{
}

/// While no team has won, the mafia lives and is outnumbered.
pub proof fn law_game_goes_on(s: Seq<Seat>)
    ensures
        verdict(s) is None ==> 0 < team_count(s, Team::Mafia) && 2 * team_count(s, Team::Mafia) < alive_of(s).len(),
{
    lemma_team_count_le(s, Team::Mafia);
}


/// The game ends when a team has won: the town exactly when no mafioso
/// lives, the mafia when it lives and is at least as many as everyone
/// else alive.
pub proof fn law_winner_by_numbers(s: Seq<Seat>)
    ensures
        verdict(s) == Some(Team::Town) <==> team_count(s, Team::Mafia) == 0,
        0 < team_count(s, Team::Mafia) && alive_of(s).len() - team_count(s, Team::Mafia) <= team_count(
            s,
            Team::Mafia,
        ) ==> verdict(s) == Some(Team::Mafia),
        verdict(s) == Some(Team::Mafia) ==> 0 < team_count(s, Team::Mafia) && alive_of(s).len() <= 2
            * team_count(s, Team::Mafia),
        verdict(s) is Some ==> verdict(s) == Some(Team::Town) || verdict(s) == Some(Team::Mafia),
{
    lemma_team_count_le(s, Team::Mafia);
}

/// The choice a pending election is for.
pub open spec fn pending_choice(e: Option<(Choice, Pid, i64)>) -> Choice {
    match e {
        Some((c, _, _)) => c,
        None => None,
    }
}

/// The voter who called a pending election.
pub open spec fn pending_caller(e: Option<(Choice, Pid, i64)>) -> Pid {
    match e {
        Some((_, v, _)) => v,
        None => Pid(0),
    }
}

/// After any vote, a pending election's choice still has at least its
/// threshold of votes standing; a retraction never schedules an election,
/// it only keeps or calls off the pending one; a ballot whose choice
/// reaches its threshold schedules that choice's election, called by the
/// voter; and a pending election whose choice keeps its threshold stands
/// unless a new one is scheduled.
pub proof fn law_pending_election_has_its_votes(old: State, new: State, voter: Pid, ballot: Ballot, now: i64, r: ActionResp)
    requires
        performed(old, new, Checked::Vote(voter, ballot), now, r),
    ensures
        new.phase matches Phase::Day { votes, elect, .. } && (elect matches Some((c, _, _)) ==> voters_with(
            votes@,
            c,
        ).len() >= threshold(alive_of(new.players.seats@).len() as int, c)),
        ballot is None ==> new.phase->elect is None || new.phase->elect == old.phase->elect,
        ballot is Some && voters_with(new.phase->votes@, ballot->0).len() >= threshold(
            alive_of(new.players.seats@).len() as int,
            ballot->0,
        ) ==> (new.phase->elect is Some && pending_choice(new.phase->elect) == ballot->0 && pending_caller(new.phase->elect) == voter),
        old.phase->elect is Some && voters_with(new.phase->votes@, pending_choice(old.phase->elect)).len() >= threshold(
            alive_of(new.players.seats@).len() as int,
            pending_choice(old.phase->elect),
        ) && !(ballot is Some && voters_with(new.phase->votes@, ballot->0).len() >= threshold(
            alive_of(new.players.seats@).len() as int,
            ballot->0,
        )) ==> new.phase->elect == old.phase->elect,
{
}

} // verus!
