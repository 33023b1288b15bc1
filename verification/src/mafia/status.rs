//! The status of a game as it is reported on request: the phase and day,
//! the standing votes against their thresholds, and the teams' counts.
use vstd::prelude::*;
use vstd::string::StringExecFns;

use super::phase::{phase_kind, phase_name, vote_tally, PhaseKind};
use super::players::{alive_of, team_count};
use super::role::{Choice, Pid, Role, Team};
use super::state::{count_of, find_count, thresh, threshold, Brief, State};
use crate::text::{decimal, decimal_text};

verus! {

/// The report of a game: its day and phase, the votes (by day), the teams'
/// counts, the living players, and the players' names.
#[derive(Debug, Clone)]
pub struct Status {
    pub day: u32,
    pub phase: PhaseKind,
    pub votes: Option<Vec<(Choice, Vec<Pid>)>>,
    pub count: Vec<(Team, usize)>,
    pub players: Vec<Pid>,
    pub names: Vec<(Pid, String)>,
}

/// The name first given for `p`, or `???`.
pub open spec fn name_or_unknown(names: Seq<(Pid, String)>, p: Pid) -> Seq<char>
    decreases names.len(),
{
    if names.len() == 0 {
        "???"@
    } else if names[0].0 == p {
        names[0].1@
    } else {
        name_or_unknown(names.drop_first(), p)
    }
}

/// The names of `ps`, separated by a comma and a space.
pub open spec fn joined_names(names: Seq<(Pid, String)>, ps: Seq<Pid>) -> Seq<char>
    decreases ps.len(),
{
    if ps.len() == 0 {
        Seq::empty()
    } else if ps.len() == 1 {
        name_or_unknown(names, ps[0])
    } else {
        joined_names(names, ps.drop_last()) + ", "@ + name_or_unknown(names, ps.last())
    }
}

/// The voters first listed for `c`, if any.
pub open spec fn voters_of(list: Seq<(Choice, Vec<Pid>)>, c: Choice) -> Option<Seq<Pid>>
    decreases list.len(),
{
    if list.len() == 0 {
        None
    } else if list[0].0 == c {
        Some(list[0].1@)
    } else {
        voters_of(list.drop_first(), c)
    }
}

/// `    Ann(2/3): Bob, Cy`, say: a line for each player someone votes for,
/// in the players' order.
pub open spec fn vote_lines(
    names: Seq<(Pid, String)>,
    list: Seq<(Choice, Vec<Pid>)>,
    ps: Seq<Pid>,
    th: int,
) -> Seq<char>
    decreases ps.len(),
{
    if ps.len() == 0 {
        Seq::empty()
    } else {
        vote_lines(names, list, ps.drop_last(), th) + match voters_of(list, Some(ps.last())) {
            Some(v) => "    "@ + name_or_unknown(names, ps.last()) + "("@ + decimal(v.len()) + "/"@ + decimal(
                th as nat,
            ) + "): "@ + joined_names(names, v) + "\n"@,
            None => Seq::empty(),
        }
    }
}

/// The line of the votes to abstain, if there are any.
pub open spec fn abstain_line(names: Seq<(Pid, String)>, list: Seq<(Choice, Vec<Pid>)>, th: int) -> Seq<char> {
    match voters_of(list, None) {
        Some(v) => "    Abstain("@ + decimal(v.len()) + "/"@ + decimal(th as nat) + "): "@ + joined_names(names, v)
            + "\n"@,
        None => Seq::empty(),
    }
}

/// The line counting team `t`, when there is a count for it.
pub open spec fn team_line(count: Seq<(Team, usize)>, t: Team, label: Seq<char>) -> Seq<char> {
    match count_of(count, t) {
        Some(n) => label + decimal(n as nat) + "\n"@,
        None => Seq::empty(),
    }
}

/// The teams' counts, town, then mafia, then rogues.
pub open spec fn team_lines(count: Seq<(Team, usize)>) -> Seq<char> {
    "  Teams:\n"@ + team_line(count, Team::Town, "    Town: "@) + team_line(count, Team::Mafia, "    Mafia: "@)
        + team_line(count, Team::Rogue, "    Rogue: "@)
}

/// The votes part of the report: for each player voted for, the votes
/// against the threshold to elect among the players; then the votes to
/// abstain against theirs.
pub open spec fn votes_part(s: Status) -> Seq<char> {
    match s.votes {
        Some(list) => "  Votes:\n"@ + vote_lines(
            s.names@,
            list@,
            s.players@,
            threshold(s.players@.len() as int, Some(Pid(0))),
        ) + abstain_line(s.names@, list@, threshold(s.players@.len() as int, None)),
        None => Seq::empty(),
    }
}

/// The full report: phase and day, the votes, the teams.
pub open spec fn status_text(s: Status) -> Seq<char> {
    phase_name(s.phase) + " "@ + decimal(s.day as nat) + ":\n"@ + votes_part(s) + team_lines(s.count@)
}

/// The short report: phase and day, the teams.
pub open spec fn brief_text(s: Status) -> Seq<char> {
    phase_name(s.phase) + " "@ + decimal(s.day as nat) + ":\n  "@ + team_lines(s.count@)
}

/// Appends the decimal text of `n`.
fn push_decimal(s: &mut String, n: u128)
    ensures
        final(s)@ == old(s)@ + decimal(n as nat),
{
    let digits = decimal_text(n);
    s.append(digits.as_str());
}

/// The name first given for `p`, or `???`.
fn name_of(names: &Vec<(Pid, String)>, p: Pid) -> (r: String)
    ensures
        r@ == name_or_unknown(names@, p),
{
    let mut i: usize = 0;
    assert(names@.skip(0) =~= names@);
    while i < names.len()
        invariant
            i <= names.len(),
            name_or_unknown(names@, p) == name_or_unknown(names@.skip(i as int), p),
        decreases names.len() - i,
    {
        assert(names@.skip(i as int)[0] == names@[i as int]);
        if names[i].0 == p {
            return names[i].1.clone();
        }
        assert(names@.skip(i as int).drop_first() =~= names@.skip(i + 1));
        i = i + 1;
    }
    "???".to_owned()
}

/// The voters first listed for `c`.
fn find_voters(list: &Vec<(Choice, Vec<Pid>)>, c: Choice) -> (r: Option<usize>)
    ensures
        match r {
            Some(i) => i < list@.len() && voters_of(list@, c) == Some(list@[i as int].1@),
            None => voters_of(list@, c) is None,
        },
{
    let mut i: usize = 0;
    assert(list@.skip(0) =~= list@);
    while i < list.len()
        invariant
            i <= list.len(),
            voters_of(list@, c) == voters_of(list@.skip(i as int), c),
        decreases list.len() - i,
    {
        assert(list@.skip(i as int)[0] == list@[i as int]);
        if list[i].0 == c {
            return Some(i);
        }
        assert(list@.skip(i as int).drop_first() =~= list@.skip(i + 1));
        i = i + 1;
    }
    None
}

/// Appends the names of `ps`, separated by a comma and a space.
fn push_joined(s: &mut String, names: &Vec<(Pid, String)>, ps: &Vec<Pid>)
    ensures
        final(s)@ == old(s)@ + joined_names(names@, ps@),
{
    let ghost start = s@;
    let mut k: usize = 0;
    assert(ps@.take(0) =~= Seq::<Pid>::empty());
    while k < ps.len()
        invariant
            k <= ps.len(),
            s@ == start + joined_names(names@, ps@.take(k as int)),
        decreases ps.len() - k,
    {
        if k > 0 {
            s.append(", ");
        }
        let name = name_of(names, ps[k]);
        s.append(name.as_str());
        assert(ps@.take(k + 1).drop_last() =~= ps@.take(k as int));
        assert(s@ =~= start + joined_names(names@, ps@.take(k + 1)));
        k = k + 1;
    }
    assert(ps@.take(k as int) =~= ps@);
}

/// Appends the line counting team `t`, when there is a count for it.
fn push_team_line(s: &mut String, count: &Vec<(Team, usize)>, t: Team, label: &str)
    ensures
        final(s)@ == old(s)@ + team_line(count@, t, label@),
{
    match find_count(count, t) {
        Some(n) => {
            s.append(label);
            push_decimal(s, n as u128);
            s.append("\n");
            assert(final(s)@ =~= old(s)@ + team_line(count@, t, label@));
        },
        None => {
            assert(old(s)@ + team_line(count@, t, label@) =~= old(s)@);
        },
    }
}

/// Appends the teams' counts.
fn push_team_lines(s: &mut String, count: &Vec<(Team, usize)>)
    ensures
        final(s)@ == old(s)@ + team_lines(count@),
{
    s.append("  Teams:\n");
    push_team_line(s, count, Team::Town, "    Town: ");
    push_team_line(s, count, Team::Mafia, "    Mafia: ");
    push_team_line(s, count, Team::Rogue, "    Rogue: ");
    assert(final(s)@ =~= old(s)@ + team_lines(count@));
}

impl Status {
    /// Appends the line of votes for one player, if someone votes for them.
    fn push_vote_line(&self, s: &mut String, list: &Vec<(Choice, Vec<Pid>)>, p: Pid, th: usize)
        ensures
            final(s)@ == old(s)@ + match voters_of(list@, Some(p)) {
                Some(v) => "    "@ + name_or_unknown(self.names@, p) + "("@ + decimal(v.len()) + "/"@ + decimal(
                    th as nat,
                ) + "): "@ + joined_names(self.names@, v) + "\n"@,
                None => Seq::empty(),
            },
    {
        match find_voters(list, Some(p)) {
            Some(i) => {
                let voters = &list[i].1;
                s.append("    ");
                let name = name_of(&self.names, p);
                s.append(name.as_str());
                s.append("(");
                push_decimal(s, voters.len() as u128);
                s.append("/");
                push_decimal(s, th as u128);
                s.append("): ");
                push_joined(s, &self.names, voters);
                s.append("\n");
                assert(final(s)@ =~= old(s)@ + "    "@ + name_or_unknown(self.names@, p) + "("@ + decimal(
                    voters@.len(),
                ) + "/"@ + decimal(th as nat) + "): "@ + joined_names(self.names@, voters@) + "\n"@);
            },
            None => {
                assert(old(s)@ + Seq::<char>::empty() =~= old(s)@);
            },
        }
    }

    /// Appends the votes part of the report.
    fn push_votes(&self, s: &mut String)
        ensures
            final(s)@ == old(s)@ + votes_part(*self),
    {
        match &self.votes {
            Some(list) => {
                let n = self.players.len();
                let th = thresh(n, &Some(Pid(0)));
                let pth = thresh(n, &None);
                s.append("  Votes:\n");
                let ghost head = s@;
                let mut k: usize = 0;
                assert(self.players@.take(0) =~= Seq::<Pid>::empty());
                while k < self.players.len()
                    invariant
                        k <= self.players.len(),
                        n == self.players@.len(),
                        th == threshold(n as int, Some(Pid(0))),
                        s@ == head + vote_lines(self.names@, list@, self.players@.take(k as int), th as int),
                    decreases self.players.len() - k,
                {
                    self.push_vote_line(s, list, self.players[k], th);
                    assert(self.players@.take(k + 1).drop_last() =~= self.players@.take(k as int));
                    assert(s@ =~= head + vote_lines(self.names@, list@, self.players@.take(k + 1), th as int));
                    k = k + 1;
                }
                assert(self.players@.take(k as int) =~= self.players@);
                match find_voters(list, None) {
                    Some(i) => {
                        let voters = &list[i].1;
                        s.append("    Abstain(");
                        push_decimal(s, voters.len() as u128);
                        s.append("/");
                        push_decimal(s, pth as u128);
                        s.append("): ");
                        push_joined(s, &self.names, voters);
                        s.append("\n");
                    },
                    None => {},
                }
                assert(final(s)@ =~= old(s)@ + votes_part(*self));
            },
            None => {
                assert(old(s)@ + votes_part(*self) =~= old(s)@);
            },
        }
    }

    /// The report: phase and day; then, by day, a line for each player
    /// voted for with their votes against the threshold to elect and who
    /// cast them, and the votes to abstain against theirs; then the teams'
    /// counts.
    pub fn text(&self) -> (s: String)
        ensures
            s@ == status_text(*self),
    {
        let mut s = self.phase.text();
        s.append(" ");
        push_decimal(&mut s, self.day as u128);
        s.append(":\n");
        self.push_votes(&mut s);
        push_team_lines(&mut s, &self.count);
        assert(s@ =~= status_text(*self));
        s
    }

    /// The short report: phase and day, then the teams' counts.
    pub fn brief(&self) -> (s: String)
        ensures
            s@ == brief_text(*self),
    {
        let mut s = self.phase.text();
        s.append(" ");
        push_decimal(&mut s, self.day as u128);
        s.append(":\n  ");
        push_team_lines(&mut s, &self.count);
        assert(s@ =~= brief_text(*self));
        s
    }
}

impl State {
    /// The report of the game, with the players' names: the day and phase,
    /// the tally of the day's votes (none by night), the count of each team
    /// that has living players, and the living players in their seats'
    /// order.
    pub fn status(&self, names: Vec<(Pid, String)>) -> (st: Status)
        ensures
            st.day == self.day,
            st.phase == phase_kind(self.phase),
            st.votes is Some <==> self.phase is Day,
            st.votes matches Some(l) ==> vote_tally(l@, self.phase->votes@),
            forall|i: int|
                0 <= i < st.count@.len() ==> #[trigger] st.count@[i].1 == team_count(
                    self.players.seats@,
                    st.count@[i].0,
                ) && st.count@[i].1 > 0,
            forall|t: Team|
                team_count(self.players.seats@, t) > 0 ==> exists|i: int|
                    0 <= i < st.count@.len() && (#[trigger] st.count@[i]).0 == t,
            forall|i: int, j: int|
                0 <= i < j < st.count@.len() ==> (#[trigger] st.count@[i]).0 != (#[trigger] st.count@[j]).0,
            st.players@ == alive_of(self.players.seats@).map_values(|x: (Pid, Role)| x.0),
            st.names == names,
    {
        let brief = Brief::from_state(self);
        let votes = match self.phase.vote_list() {
            Ok(l) => Some(l),
            Err(_) => None,
        };
        let alive = self.players.alive();
        let mut players: Vec<Pid> = Vec::new();
        let mut k: usize = 0;
        while k < alive.len()
            invariant
                k <= alive.len(),
                players@ == alive@.take(k as int).map_values(|x: (Pid, Role)| x.0),
            decreases alive.len() - k,
        {
            players.push(alive[k].0);
            assert(players@ =~= alive@.take(k + 1).map_values(|x: (Pid, Role)| x.0));
            k = k + 1;
        }
        assert(alive@.take(k as int) =~= alive@);
        let st = Status { day: self.day, phase: self.phase.kind(), votes, count: brief.counts, players, names };
        assert forall|t: Team| team_count(self.players.seats@, t) > 0 implies exists|i: int|
            0 <= i < st.count@.len() && (#[trigger] st.count@[i]).0 == t by {
            let i = choose|i: int| 0 <= i < brief.counts@.len() && (#[trigger] brief.counts@[i]).0 == t;
            assert(st.count@[i].0 == t);
        }
        st
    }
}

} // verus!
