//! What the chats are told when something happens in a game: the main
//! chat hears the public news, the mafia chat the mafia's schemes, and each
//! player privately what only they may know.
use vstd::prelude::*;
use vstd::string::StringExecFns;

use super::game::GameId;
use super::role::{kind_name, kind_of, kind_team, role_team, targets_at_night, team_name, Choice, Pid, Role, RoleKind, Team};
use super::state::count_of;
use crate::groupme::ids::{GroupId, UserId};
use crate::text::{decimal, decimal_text, push_char};

verus! {

/// Something that happened in a game.
#[derive(Debug, Clone)]
pub enum Event {
    Start { players: Vec<(Pid, Role)> },
    Day { day: u32, counts: Vec<(Team, usize)> },
    Night { day: u32, counts: Vec<(Team, usize)> },
    Eclipse { avenger: Pid, hammer: Pid, guilty: Vec<Pid> },
    Vengeance { avenger: Pid, victim: Pid },
    Vote { voter: Pid, ballot: Option<(Choice, usize)>, former: Option<(Choice, usize)> },
    Reveal { celeb: Pid },
    Election { choice: Choice, hammer: Pid, voters: Vec<Pid> },
    Dawn,
    Eliminate { player: Pid, role: RoleKind },
    Target { actor: Pid, choice: Choice },
    Scheme { killer: Pid, mark: Choice },
    Block { blocked: Pid, blockers: Vec<Pid> },
    Save { saved: Pid, saviors: Vec<Pid> },
    NoKill,
    Kill { killer: Pid, mark: Pid },
    Investigate { cop: Pid, target: Pid, appears_mafia: bool },
    Milk { milky: Pid, target: Pid },
    End { winner: Team },
}

/// A message to send: to a group chat, or directly to a user.
#[derive(Debug, Clone, PartialEq, Eq)]
pub enum Outgoing {
    Group { group_id: GroupId, text: String },
    Direct { user_id: UserId, text: String },
}

/// A message to send, its text as characters.
pub enum Note {
    Group(GroupId, Seq<char>),
    Direct(UserId, Seq<char>),
}

impl Outgoing {
    pub open spec fn note(self) -> Note {
        match self {
            Outgoing::Group { group_id, text } => Note::Group(group_id, text@),
            Outgoing::Direct { user_id, text } => Note::Direct(user_id, text@),
        }
    }
}

/// The messages, as notes.
pub open spec fn notes(s: Seq<Outgoing>) -> Seq<Note> {
    s.map_values(|o: Outgoing| o.note())
}

/// The chat user a player is.
pub open spec fn user_of(p: Pid) -> UserId {
    UserId(p.0)
}

/// The name last remembered for `u`, if any.
pub open spec fn known_name(names: Seq<(UserId, String)>, u: UserId) -> Option<Seq<char>>
    decreases names.len(),
{
    if names.len() == 0 {
        None
    } else if names.last().0 == u {
        Some(names.last().1@)
    } else {
        known_name(names.drop_last(), u)
    }
}

/// How a player is named: by the name remembered for them, else as
/// `(Player ID 7)`.
pub open spec fn name_text(names: Seq<(UserId, String)>, p: Pid) -> Seq<char> {
    match known_name(names, user_of(p)) {
        Some(n) => n,
        None => "(Player ID "@ + decimal(p.0 as nat) + ")"@,
    }
}

/// Turns game events into messages for the chats of one game.
pub struct EventHandler {
    pub game_id: GameId,
    pub lobby_id: GroupId,
    pub main_chat_id: GroupId,
    pub mafia_chat_id: GroupId,
    /// The players the handler knows of, with their roles.
    pub players: Vec<(Pid, Role)>,
    /// The names of chat users, later entries standing over earlier ones.
    pub names: Vec<(UserId, String)>,
}

impl EventHandler {
    /// A handler that knows no players and no names yet.
    pub fn new(game_id: GameId, lobby_id: GroupId, main_chat_id: GroupId, mafia_chat_id: GroupId) -> (h: Self)
        ensures
            h.game_id == game_id,
            h.lobby_id == lobby_id,
            h.main_chat_id == main_chat_id,
            h.mafia_chat_id == mafia_chat_id,
            h.players@.len() == 0,
            h.names@.len() == 0,
    {
        EventHandler { game_id, lobby_id, main_chat_id, mafia_chat_id, players: Vec::new(), names: Vec::new() }
    }

    /// Remembers the names of a chat; a new name for a user stands over
    /// the old one.
    pub fn remember_names(&mut self, new_names: Vec<(UserId, String)>)
        ensures
            final(self).names@ == old(self).names@ + new_names@,
            final(self).players@ == old(self).players@,
            final(self).game_id == old(self).game_id,
            final(self).lobby_id == old(self).lobby_id,
            final(self).main_chat_id == old(self).main_chat_id,
            final(self).mafia_chat_id == old(self).mafia_chat_id,
    {
        let mut new_names = new_names;
        self.names.append(&mut new_names);
    }

    /// Whether a name is remembered for the player.
    pub fn knows_name(&self, pid: Pid) -> (b: bool)
        ensures
            b == (known_name(self.names@, user_of(pid)) is Some),
    {
        let u = UserId(pid.0);
        let mut i = self.names.len();
        assert(self.names@.take(i as int) =~= self.names@);
        while i > 0
            invariant
                i <= self.names.len(),
                u == user_of(pid),
                known_name(self.names@, u) == known_name(self.names@.take(i as int), u),
            decreases i,
        {
            i = i - 1;
            assert(self.names@.take(i + 1).drop_last() =~= self.names@.take(i as int));
            assert(self.names@.take(i + 1).last() == self.names@[i as int]);
            if self.names[i].0 == u {
                return true;
            }
        }
        false
    }

    /// The name of a player, or `(Player ID 7)` when none is remembered.
    pub fn get_name(&self, pid: Pid) -> (s: String)
        ensures
            s@ == name_text(self.names@, pid),
    {
        let u = UserId(pid.0);
        let mut i = self.names.len();
        assert(self.names@.take(i as int) =~= self.names@);
        while i > 0
            invariant
                i <= self.names.len(),
                u == user_of(pid),
                known_name(self.names@, u) == known_name(self.names@.take(i as int), u),
            decreases i,
        {
            i = i - 1;
            assert(self.names@.take(i + 1).drop_last() =~= self.names@.take(i as int));
            assert(self.names@.take(i + 1).last() == self.names@[i as int]);
            if self.names[i].0 == u {
                return self.names[i].1.clone();
            }
        }
        let mut s = "(Player ID ".to_owned();
        let digits = decimal_text(pid.0 as u128);
        s.append(digits.as_str());
        s.append(")");
        s
    }
}

/// What a player is told of their role at the start.
pub open spec fn start_text(names: Seq<(UserId, String)>, role: Role) -> Seq<char> {
    let r = kind_name(kind_of(role));
    let t = team_name(role_team(role));
    let base = "Your Role is "@ + r + ", "@ + "you are "@ + t + " aligned.\n"@ + "Use /help "@ + r + " or /help "@
        + t + " for more info"@;
    match role {
        Role::GUARD(c) => base + "Your charge is "@ + name_text(names, c),
        Role::AGENT(c) => base + "Your charge is "@ + name_text(names, c),
        _ => base,
    }
}

/// One line per player, each a newline, two spaces and the name.
pub open spec fn player_lines(names: Seq<(UserId, String)>, ps: Seq<(Pid, Role)>) -> Seq<char>
    decreases ps.len(),
{
    if ps.len() == 0 {
        Seq::empty()
    } else {
        player_lines(names, ps.drop_last()) + "\n  "@ + name_text(names, ps.last().0)
    }
}

/// Each player's start message, in order.
pub open spec fn start_dms(names: Seq<(UserId, String)>, ps: Seq<(Pid, Role)>) -> Seq<Note>
    decreases ps.len(),
{
    if ps.len() == 0 {
        Seq::empty()
    } else {
        start_dms(names, ps.drop_last()).push(Note::Direct(user_of(ps.last().0), start_text(names, ps.last().1)))
    }
}

/// The announcement of a new game and its players.
pub open spec fn game_intro(names: Seq<(UserId, String)>, game_id: GameId, ps: Seq<(Pid, Role)>) -> Seq<char> {
    "Game "@ + decimal(game_id.0 as nat) + " begins!\nPlayers:"@ + player_lines(names, ps)
}

/// The greeting of the mafia chat.
pub open spec fn welcome(game_id: GameId) -> Seq<char> {
    "Welcome to the Mafia Chat for game "@ + decimal(game_id.0 as nat) + "!"@
}

/// The line counting team `t`, when there is a count for it.
pub open spec fn count_line(counts: Seq<(Team, usize)>, t: Team, label: Seq<char>) -> Seq<char> {
    match count_of(counts, t) {
        Some(n) => label + decimal(n as nat) + "\n"@,
        None => Seq::empty(),
    }
}

/// The counts of town, mafia and rogues, one line each.
pub open spec fn count_lines(counts: Seq<(Team, usize)>) -> Seq<char> {
    count_line(counts, Team::Town, " Town: "@) + count_line(counts, Team::Mafia, " Mafia: "@) + count_line(
        counts,
        Team::Rogue,
        " Rogue: "@,
    )
}

/// The letter of the `k`-th option: `A`, `B`, ...
pub open spec fn option_letter(k: int) -> char {
    (65 + k) as char
}

/// One line per player, each a letter, a colon and the name.
pub open spec fn option_lines(names: Seq<(UserId, String)>, ps: Seq<(Pid, Role)>) -> Seq<char>
    decreases ps.len(),
{
    if ps.len() == 0 {
        Seq::empty()
    } else {
        option_lines(names, ps.drop_last()) + seq![option_letter(ps.len() - 1)] + ": "@ + name_text(names, ps.last().0)
            + "\n"@
    }
}

/// The choice of targets offered at night.
pub open spec fn option_text(names: Seq<(UserId, String)>, ps: Seq<(Pid, Role)>) -> Seq<char> {
    "Choose a target:\n"@ + option_lines(names, ps)
}

/// The choice of targets, sent to each player who acts at night.
pub open spec fn night_dms(ps: Seq<(Pid, Role)>, opt: Seq<char>) -> Seq<Note>
    decreases ps.len(),
{
    if ps.len() == 0 {
        Seq::empty()
    } else {
        let rest = night_dms(ps.drop_last(), opt);
        if targets_at_night(ps.last().1) {
            rest.push(Note::Direct(user_of(ps.last().0), opt))
        } else {
            rest
        }
    }
}

/// The votes a player needs to be elected among `n` players.
pub open spec fn vote_thresh(n: int) -> int {
    n / 2 + 1
}

/// The votes for peace needed among `n` players.
pub open spec fn peace_thresh(n: int) -> int {
    (n + 1) / 2
}

/// `count/thresh`.
pub open spec fn tally(count: usize, thresh: int) -> Seq<char> {
    decimal(count as nat) + "/"@ + decimal(thresh as nat)
}

/// A new ballot among `n` players: for whom, or for peace, with its tally;
/// or that the vote was taken back.
pub open spec fn cast_text(names: Seq<(UserId, String)>, n: int, ballot: Option<(Choice, usize)>) -> Seq<char> {
    match ballot {
        Some((Some(p), c)) => " votes for "@ + name_text(names, p) + " ("@ + tally(c, vote_thresh(n)) + ")"@,
        Some((None, c)) => " votes for peace.("@ + tally(c, peace_thresh(n)) + ")"@,
        None => " retracts their vote."@,
    }
}

/// What the former choice still has, among `n` players.
pub open spec fn left_text(names: Seq<(UserId, String)>, n: int, former: Option<(Choice, usize)>) -> Seq<char> {
    match former {
        Some((Some(p), c)) => "\n("@ + name_text(names, p) + " still has "@ + tally(c, vote_thresh(n)) + ")"@,
        Some((None, c)) => "\n(peace still has "@ + tally(c, peace_thresh(n)) + ")"@,
        None => Seq::empty(),
    }
}

/// The news of a vote among `n` players: the new ballot, then what the
/// former choice still has.
pub open spec fn vote_text(
    names: Seq<(UserId, String)>,
    n: int,
    voter: Pid,
    ballot: Option<(Choice, usize)>,
    former: Option<(Choice, usize)>,
) -> Seq<char> {
    name_text(names, voter) + cast_text(names, n, ballot) + left_text(names, n, former)
}

/// What the main chat is told of an event; empty when it is told nothing.
pub open spec fn main_text(h: EventHandler, e: Event) -> Seq<char> {
    let names = h.names@;
    match e {
        Event::Start { players } => game_intro(names, h.game_id, players@),
        Event::Day { day, counts } => "Day "@ + decimal(day as nat) + " proceeds...\n"@ + count_lines(counts@),
        Event::Night { day, .. } => "Night "@ + decimal(day as nat) + " falls...\n"@,
        Event::Eclipse { avenger, .. } => "The sky darkens as the moon eclipses the sun... "@ + name_text(
            names,
            avenger,
        ) + " will /vote one of their voters to die!\n"@,
        Event::Vengeance { avenger, victim } => name_text(names, avenger) + " has chosen "@ + name_text(names, victim)
            + " to die with them!\n"@,
        Event::Vote { voter, ballot, former } => vote_text(names, h.players@.len() as int, voter, ballot, former),
        Event::Reveal { celeb } => decimal(celeb.0 as nat) + " reveals, they are CELEB!\n"@,
        Event::Election { choice, .. } => match choice {
            Some(p) => name_text(names, p) + " is elected!"@,
            None => "Nobody has been elected."@,
        },
        Event::Dawn => "Dawn breaks..."@,
        Event::Eliminate { player, role } => name_text(names, player) + " was "@ + team_name(kind_team(role)) + "!"@,
        Event::NoKill => "Nobody was killed..."@,
        Event::Kill { mark, .. } => name_text(names, mark) + " was killed in the Night!"@,
        Event::Milk { target, .. } => name_text(names, target) + " received milk"@,
        Event::End { winner } => team_name(winner) + " wins!"@,
        _ => Seq::empty(),
    }
}

/// What a blocker is told, one message each.
pub open spec fn blocker_dms(bs: Seq<Pid>) -> Seq<Note> {
    Seq::new(bs.len(), |i: int| Note::Direct(user_of(bs[i]), "You blocked an action..."@))
}

/// The messages an event sends before the main chat's news: to players
/// directly, and to the mafia chat.
pub open spec fn side_notes(h: EventHandler, e: Event) -> Seq<Note> {
    let names = h.names@;
    match e {
        Event::Start { players } => start_dms(names, players@).push(Note::Group(h.mafia_chat_id, welcome(h.game_id))),
        Event::Night { .. } => night_dms(h.players@, option_text(names, h.players@)),
        Event::Target { actor, choice } => seq![
            Note::Direct(
                user_of(actor),
                match choice {
                    Some(p) => "You target "@ + name_text(names, p) + "..."@,
                    None => "You target nobody..."@,
                },
            ),
        ],
        Event::Scheme { killer, mark } => seq![
            Note::Group(
                h.mafia_chat_id,
                decimal(killer.0 as nat) + match mark {
                    Some(p) => " targets "@ + name_text(names, p) + "..."@,
                    None => " targets nobody..."@,
                },
            ),
        ],
        Event::Block { blocked, blockers } => seq![Note::Direct(user_of(blocked), "Your action was blocked..."@)]
            + blocker_dms(blockers@),
        Event::Investigate { cop, target, appears_mafia } => seq![
            Note::Direct(
                user_of(cop),
                name_text(names, target) + " is "@ + if appears_mafia {
                    "Mafia Aligned"@
                } else {
                    "Not Mafia Aligned"@
                },
            ),
        ],
        _ => Seq::empty(),
    }
}

/// Everything an event sends, in order: the side messages, then the main
/// chat's news when there is any.
pub open spec fn announced(h: EventHandler, e: Event) -> Seq<Note> {
    side_notes(h, e) + if main_text(h, e).len() > 0 {
        seq![Note::Group(h.main_chat_id, main_text(h, e))]
    } else {
        Seq::empty()
    }
}

/// The players without `pid`.
pub open spec fn without(ps: Seq<(Pid, Role)>, pid: Pid) -> Seq<(Pid, Role)>
    decreases ps.len(),
{
    if ps.len() == 0 {
        Seq::empty()
    } else if ps.last().0 == pid {
        without(ps.drop_last(), pid)
    } else {
        without(ps.drop_last(), pid).push(ps.last())
    }
}

/// Appends the decimal text of `n`.
fn push_decimal(s: &mut String, n: u128)
    ensures
        final(s)@ == old(s)@ + decimal(n as nat),
{
    let digits = decimal_text(n);
    s.append(digits.as_str());
}

impl EventHandler {
    /// Appends how the player is named.
    fn push_name(&self, s: &mut String, pid: Pid)
        ensures
            final(s)@ == old(s)@ + name_text(self.names@, pid),
    {
        let name = self.get_name(pid);
        s.append(name.as_str());
    }

    /// What a player is told of their role at the start.
    pub fn create_start_msg(&self, role: Role) -> (s: String)
        ensures
            s@ == start_text(self.names@, role),
    {
        let mut s = "Your Role is ".to_owned();
        let r = role.text();
        let t = role.team().text();
        s.append(r.as_str());
        s.append(", ");
        s.append("you are ");
        s.append(t.as_str());
        s.append(" aligned.\n");
        s.append("Use /help ");
        s.append(r.as_str());
        s.append(" or /help ");
        s.append(t.as_str());
        s.append(" for more info");
        let ghost base = s@;
        match role {
            Role::GUARD(charge) | Role::AGENT(charge) => {
                s.append("Your charge is ");
                self.push_name(&mut s, charge);
            },
            _ => {},
        }
        assert(s@ =~= start_text(self.names@, role));
        s
    }

    /// The choice of targets offered at night: a letter for each player
    /// the handler knows of, from `A` on.
    pub fn option_msg(&self) -> (s: String)
        requires
            self.players@.len() <= 190,
        ensures
            s@ == option_text(self.names@, self.players@),
    {
        let mut s = "Choose a target:\n".to_owned();
        let mut k: usize = 0;
        while k < self.players.len()
            invariant
                k <= self.players.len() <= 190,
                s@ == option_text(self.names@, self.players@.take(k as int)),
            decreases self.players.len() - k,
        {
            let ghost before = s@;
            let c: char = (65u8 + k as u8) as char;
            push_char(&mut s, c);
            s.append(": ");
            self.push_name(&mut s, self.players[k].0);
            s.append("\n");
            assert(self.players@.take(k + 1).drop_last() =~= self.players@.take(k as int));
            assert(s@ =~= option_text(self.names@, self.players@.take(k + 1)));
            k = k + 1;
        }
        assert(self.players@.take(k as int) =~= self.players@);
        s
    }
}

/// Appends the count line of team `t`, when there is a count for it.
fn push_count_line(s: &mut String, counts: &Vec<(Team, usize)>, t: Team, label: &str)
    ensures
        final(s)@ == old(s)@ + count_line(counts@, t, label@),
{
    match super::state::find_count(counts, t) {
        Some(n) => {
            s.append(label);
            push_decimal(s, n as u128);
            s.append("\n");
            assert(final(s)@ =~= old(s)@ + count_line(counts@, t, label@));
        },
        None => {
            assert(old(s)@ + count_line(counts@, t, label@) =~= old(s)@);
        },
    }
}

/// Appends `count/thresh`.
fn push_tally(s: &mut String, count: usize, thresh: usize)
    ensures
        final(s)@ == old(s)@ + tally(count, thresh as int),
{
    push_decimal(s, count as u128);
    s.append("/");
    push_decimal(s, thresh as u128);
    assert(final(s)@ =~= old(s)@ + tally(count, thresh as int));
}

impl EventHandler {
    /// Each player's start message, in order.
    fn start_messages(&self, players: &Vec<(Pid, Role)>) -> (out: Vec<Outgoing>)
        ensures
            notes(out@) == start_dms(self.names@, players@),
    {
        let mut out: Vec<Outgoing> = Vec::new();
        let mut k: usize = 0;
        while k < players.len()
            invariant
                k <= players.len(),
                notes(out@) == start_dms(self.names@, players@.take(k as int)),
            decreases players.len() - k,
        {
            let (pid, role) = players[k];
            let text = self.create_start_msg(role);
            out.push(Outgoing::Direct { user_id: UserId(pid.0), text });
            assert(players@.take(k + 1).drop_last() =~= players@.take(k as int));
            assert(notes(out@) =~= start_dms(self.names@, players@.take(k + 1)));
            k = k + 1;
        }
        assert(players@.take(k as int) =~= players@);
        out
    }

    /// The announcement of a new game and its players.
    fn game_intro_msg(&self, players: &Vec<(Pid, Role)>) -> (s: String)
        ensures
            s@ == game_intro(self.names@, self.game_id, players@),
    {
        let mut s = "Game ".to_owned();
        push_decimal(&mut s, self.game_id.0 as u128);
        s.append(" begins!\nPlayers:");
        let ghost head = s@;
        let mut k: usize = 0;
        while k < players.len()
            invariant
                k <= players.len(),
                s@ == head + player_lines(self.names@, players@.take(k as int)),
            decreases players.len() - k,
        {
            s.append("\n  ");
            self.push_name(&mut s, players[k].0);
            assert(players@.take(k + 1).drop_last() =~= players@.take(k as int));
            assert(s@ =~= head + player_lines(self.names@, players@.take(k + 1)));
            k = k + 1;
        }
        assert(players@.take(k as int) =~= players@);
        assert(s@ =~= game_intro(self.names@, self.game_id, players@));
        s
    }

    /// The choice of targets, sent to each player who acts at night.
    fn night_messages(&self, opt: &String) -> (out: Vec<Outgoing>)
        ensures
            notes(out@) == night_dms(self.players@, opt@),
    {
        let mut out: Vec<Outgoing> = Vec::new();
        let mut k: usize = 0;
        while k < self.players.len()
            invariant
                k <= self.players.len(),
                notes(out@) == night_dms(self.players@.take(k as int), opt@),
            decreases self.players.len() - k,
        {
            let (pid, role) = self.players[k];
            assert(self.players@.take(k + 1).drop_last() =~= self.players@.take(k as int));
            if role.is_targeting() {
                out.push(Outgoing::Direct { user_id: UserId(pid.0), text: opt.clone() });
            }
            assert(notes(out@) =~= night_dms(self.players@.take(k + 1), opt@));
            k = k + 1;
        }
        assert(self.players@.take(k as int) =~= self.players@);
        out
    }

    /// Appends the news of a new ballot.
    fn push_cast(&self, s: &mut String, ballot: Option<(Choice, usize)>)
        ensures
            final(s)@ == old(s)@ + cast_text(self.names@, self.players@.len() as int, ballot),
    {
        let n = self.players.len();
        match ballot {
            Some((Some(pid), count)) => {
                s.append(" votes for ");
                self.push_name(s, pid);
                s.append(" (");
                push_tally(s, count, n / 2 + 1);
                s.append(")");
            },
            Some((None, count)) => {
                s.append(" votes for peace.(");
                push_tally(s, count, n / 2 + n % 2);
                s.append(")");
            },
            None => {
                s.append(" retracts their vote.");
            },
        }
        assert(final(s)@ =~= old(s)@ + cast_text(self.names@, self.players@.len() as int, ballot));
    }

    /// Appends what the former choice still has.
    fn push_left(&self, s: &mut String, former: Option<(Choice, usize)>)
        ensures
            final(s)@ == old(s)@ + left_text(self.names@, self.players@.len() as int, former),
    {
        let n = self.players.len();
        match former {
            Some((Some(pid), count)) => {
                s.append("\n(");
                self.push_name(s, pid);
                s.append(" still has ");
                push_tally(s, count, n / 2 + 1);
                s.append(")");
            },
            Some((None, count)) => {
                s.append("\n(peace still has ");
                push_tally(s, count, n / 2 + n % 2);
                s.append(")");
            },
            None => {},
        }
        assert(final(s)@ =~= old(s)@ + left_text(self.names@, self.players@.len() as int, former));
    }

    /// The news of a vote among the players the handler knows of.
    fn vote_msg(&self, voter: Pid, ballot: Option<(Choice, usize)>, former: Option<(Choice, usize)>) -> (s: String)
        ensures
            s@ == vote_text(self.names@, self.players@.len() as int, voter, ballot, former),
    {
        let mut s = self.get_name(voter);
        self.push_cast(&mut s, ballot);
        self.push_left(&mut s, former);
        s
    }
}

impl EventHandler {
    /// What the main chat is told of an event; empty when it is told
    /// nothing.
    fn main_message(&self, event: &Event) -> (s: String)
        ensures
            s@ == main_text(*self, *event),
    {
        match event {
            Event::Start { players } => self.game_intro_msg(players),
            Event::Day { day, counts } => {
                let mut s = "Day ".to_owned();
                push_decimal(&mut s, *day as u128);
                s.append(" proceeds...\n");
                push_count_line(&mut s, counts, Team::Town, " Town: ");
                push_count_line(&mut s, counts, Team::Mafia, " Mafia: ");
                push_count_line(&mut s, counts, Team::Rogue, " Rogue: ");
                assert(s@ =~= main_text(*self, *event));
                s
            },
            Event::Night { day, .. } => {
                let mut s = "Night ".to_owned();
                push_decimal(&mut s, *day as u128);
                s.append(" falls...\n");
                s
            },
            Event::Eclipse { avenger, .. } => {
                let mut s = "The sky darkens as the moon eclipses the sun... ".to_owned();
                self.push_name(&mut s, *avenger);
                s.append(" will /vote one of their voters to die!\n");
                s
            },
            Event::Vengeance { avenger, victim } => {
                let mut s = self.get_name(*avenger);
                s.append(" has chosen ");
                self.push_name(&mut s, *victim);
                s.append(" to die with them!\n");
                s
            },
            Event::Vote { voter, ballot, former } => self.vote_msg(*voter, *ballot, *former),
            Event::Reveal { celeb } => {
                let mut s = celeb.text();
                s.append(" reveals, they are CELEB!\n");
                s
            },
            Event::Election { choice, .. } => match choice {
                Some(pid) => {
                    let mut s = self.get_name(*pid);
                    s.append(" is elected!");
                    s
                },
                None => "Nobody has been elected.".to_owned(),
            },
            Event::Dawn => "Dawn breaks...".to_owned(),
            Event::Eliminate { player, role } => {
                let mut s = self.get_name(*player);
                s.append(" was ");
                let team = role.team().text();
                s.append(team.as_str());
                s.append("!");
                s
            },
            Event::NoKill => "Nobody was killed...".to_owned(),
            Event::Kill { mark, .. } => {
                let mut s = self.get_name(*mark);
                s.append(" was killed in the Night!");
                s
            },
            Event::Milk { target, .. } => {
                let mut s = self.get_name(*target);
                s.append(" received milk");
                s
            },
            Event::End { winner } => {
                let mut s = winner.text();
                s.append(" wins!");
                s
            },
            _ => String::new(),
        }
    }
}

impl EventHandler {
    /// The messages an event sends before the main chat's news.
    fn side_messages(&self, event: &Event) -> (out: Vec<Outgoing>)
        requires
            event is Night ==> self.players@.len() <= 190,
        ensures
            notes(out@) == side_notes(*self, *event),
    {
        match event {
            Event::Start { players } => {
                let mut out = self.start_messages(players);
                let mut welcome_msg = "Welcome to the Mafia Chat for game ".to_owned();
                push_decimal(&mut welcome_msg, self.game_id.0 as u128);
                welcome_msg.append("!");
                let ghost before = out@;
                out.push(Outgoing::Group { group_id: self.mafia_chat_id, text: welcome_msg });
                assert(notes(out@) =~= notes(before).push(Note::Group(self.mafia_chat_id, welcome(self.game_id))));
                out
            },
            Event::Night { .. } => {
                let opt = self.option_msg();
                self.night_messages(&opt)
            },
            Event::Target { actor, choice } => {
                let text = match choice {
                    Some(pid) => {
                        let mut t = "You target ".to_owned();
                        self.push_name(&mut t, *pid);
                        t.append("...");
                        t
                    },
                    None => "You target nobody...".to_owned(),
                };
                let out = vec![Outgoing::Direct { user_id: UserId(actor.0), text }];
                assert(notes(out@) =~= side_notes(*self, *event));
                out
            },
            Event::Scheme { killer, mark } => {
                let mut text = killer.text();
                match mark {
                    Some(pid) => {
                        text.append(" targets ");
                        self.push_name(&mut text, *pid);
                        text.append("...");
                    },
                    None => {
                        text.append(" targets nobody...");
                    },
                }
                assert(text@ =~= decimal(killer.0 as nat) + match *mark {
                    Some(p) => " targets "@ + name_text(self.names@, p) + "..."@,
                    None => " targets nobody..."@,
                });
                let out = vec![Outgoing::Group { group_id: self.mafia_chat_id, text }];
                assert(notes(out@) =~= side_notes(*self, *event));
                out
            },
            Event::Block { blocked, blockers } => {
                let mut out = vec![
                    Outgoing::Direct { user_id: UserId(blocked.0), text: "Your action was blocked...".to_owned() },
                ];
                let ghost first = notes(out@);
                let mut k: usize = 0;
                while k < blockers.len()
                    invariant
                        k <= blockers.len(),
                        notes(out@) == first + blocker_dms(blockers@.take(k as int)),
                    decreases blockers.len() - k,
                {
                    let ghost before = out@;
                    out.push(
                        Outgoing::Direct { user_id: UserId(blockers[k].0), text: "You blocked an action...".to_owned() },
                    );
                    let ghost note = Note::Direct(user_of(blockers@[k as int]), "You blocked an action..."@);
                    assert(notes(out@) =~= notes(before).push(note));
                    assert(blocker_dms(blockers@.take(k + 1)) =~= blocker_dms(blockers@.take(k as int)).push(note));
                    assert(notes(out@) =~= first + blocker_dms(blockers@.take(k + 1)));
                    k = k + 1;
                }
                assert(blockers@.take(k as int) =~= blockers@);
                assert(notes(out@) =~= side_notes(*self, *event));
                out
            },
            Event::Investigate { cop, target, appears_mafia } => {
                let mut text = self.get_name(*target);
                text.append(" is ");
                if *appears_mafia {
                    text.append("Mafia Aligned");
                } else {
                    text.append("Not Mafia Aligned");
                }
                let out = vec![Outgoing::Direct { user_id: UserId(cop.0), text }];
                assert(notes(out@) =~= side_notes(*self, *event));
                out
            },
            _ => {
                let out: Vec<Outgoing> = Vec::new();
                assert(notes(out@) =~= side_notes(*self, *event));
                out
            },
        }
    }

    /// Forgets the player.
    fn remove_player(&mut self, pid: Pid)
        ensures
            final(self).players@ == without(old(self).players@, pid),
            final(self).names@ == old(self).names@,
            final(self).game_id == old(self).game_id,
            final(self).lobby_id == old(self).lobby_id,
            final(self).main_chat_id == old(self).main_chat_id,
            final(self).mafia_chat_id == old(self).mafia_chat_id,
    {
        let mut kept: Vec<(Pid, Role)> = Vec::new();
        let mut k: usize = 0;
        while k < self.players.len()
            invariant
                k <= self.players.len(),
                kept@ == without(self.players@.take(k as int), pid),
            decreases self.players.len() - k,
        {
            assert(self.players@.take(k + 1).drop_last() =~= self.players@.take(k as int));
            if self.players[k].0 != pid {
                kept.push(self.players[k]);
            }
            k = k + 1;
        }
        assert(self.players@.take(k as int) =~= self.players@);
        self.players = kept;
    }

    /// Turns an event into the messages the chats are sent, in order: first
    /// what goes to single players and to the mafia chat, then the main
    /// chat's news, if there is any. An eliminated player is forgotten.
    pub fn handle_event(&mut self, event: Event) -> (out: Vec<Outgoing>)
        requires
            event is Night ==> old(self).players@.len() <= 190,
        ensures
            notes(out@) == announced(*old(self), event),
            final(self).players@ == match event {
                Event::Eliminate { player, .. } => without(old(self).players@, player),
                _ => old(self).players@,
            },
            final(self).names@ == old(self).names@,
            final(self).game_id == old(self).game_id,
            final(self).lobby_id == old(self).lobby_id,
            final(self).main_chat_id == old(self).main_chat_id,
            final(self).mafia_chat_id == old(self).mafia_chat_id,
    {
        let mut out = self.side_messages(&event);
        let msg = self.main_message(&event);
        if let Event::Eliminate { player, .. } = event {
            self.remove_player(player);
        }
        let ghost side = out@;
        if !msg.as_str().is_empty() {
            out.push(Outgoing::Group { group_id: self.main_chat_id, text: msg });
        }
        assert(notes(out@) =~= announced(*old(self), event));
        out
    }
}

/// The players of a list.
pub open spec fn pids_of(ps: Seq<(Pid, Role)>) -> Seq<Pid> {
    ps.map_values(|x: (Pid, Role)| x.0)
}

/// The charges of the guards and agents of a list, in order.
pub open spec fn charges(ps: Seq<(Pid, Role)>) -> Seq<Pid>
    decreases ps.len(),
{
    if ps.len() == 0 {
        Seq::empty()
    } else {
        let rest = charges(ps.drop_last());
        match ps.last().1 {
            Role::GUARD(c) => rest.push(c),
            Role::AGENT(c) => rest.push(c),
            _ => rest,
        }
    }
}

/// The player a choice names, if any.
pub open spec fn choice_pids(c: Choice) -> Seq<Pid> {
    match c {
        Some(p) => seq![p],
        None => Seq::empty(),
    }
}

/// The player a ballot names, if any.
pub open spec fn ballot_pids(b: Option<(Choice, usize)>) -> Seq<Pid> {
    match b {
        Some((c, _)) => choice_pids(c),
        None => Seq::empty(),
    }
}

/// The players whose names the messages of an event look up, in order.
pub open spec fn named_in(h: EventHandler, e: Event) -> Seq<Pid> {
    match e {
        Event::Start { players } => pids_of(players@) + charges(players@),
        Event::Night { .. } => pids_of(h.players@),
        Event::Eclipse { avenger, .. } => seq![avenger],
        Event::Vengeance { avenger, victim } => seq![avenger, victim],
        Event::Vote { voter, ballot, former } => seq![voter] + ballot_pids(ballot) + ballot_pids(former),
        Event::Election { choice, .. } => choice_pids(choice),
        Event::Eliminate { player, .. } => seq![player],
        Event::Target { choice, .. } => choice_pids(choice),
        Event::Scheme { killer, mark } => seq![killer] + choice_pids(mark),
        Event::Kill { mark, .. } => seq![mark],
        Event::Investigate { target, .. } => seq![target],
        Event::Milk { target, .. } => seq![target],
        _ => Seq::empty(),
    }
}

/// Appends the player a choice names, if any.
fn push_choice(v: &mut Vec<Pid>, c: Choice)
    ensures
        final(v)@ == old(v)@ + choice_pids(c),
{
    if let Some(p) = c {
        v.push(p);
    }
    assert(final(v)@ =~= old(v)@ + choice_pids(c));
}

/// Appends the players of a list.
fn push_pids(v: &mut Vec<Pid>, ps: &Vec<(Pid, Role)>)
    ensures
        final(v)@ == old(v)@ + pids_of(ps@),
{
    let ghost start = v@;
    let mut k: usize = 0;
    while k < ps.len()
        invariant
            k <= ps.len(),
            v@ == start + pids_of(ps@.take(k as int)),
        decreases ps.len() - k,
    {
        v.push(ps[k].0);
        assert(v@ =~= start + pids_of(ps@.take(k + 1)));
        k = k + 1;
    }
    assert(ps@.take(k as int) =~= ps@);
}

/// Appends the charges of the guards and agents of a list.
fn push_charges(v: &mut Vec<Pid>, ps: &Vec<(Pid, Role)>)
    ensures
        final(v)@ == old(v)@ + charges(ps@),
{
    let ghost start = v@;
    let mut k: usize = 0;
    assert(start + charges(ps@.take(0)) =~= start);
    while k < ps.len()
        invariant
            k <= ps.len(),
            v@ == start + charges(ps@.take(k as int)),
        decreases ps.len() - k,
    {
        assert(ps@.take(k + 1).drop_last() =~= ps@.take(k as int));
        match ps[k].1 {
            Role::GUARD(c) | Role::AGENT(c) => {
                v.push(c);
            },
            _ => {},
        }
        assert(v@ =~= start + charges(ps@.take(k + 1)));
        k = k + 1;
    }
    assert(ps@.take(k as int) =~= ps@);
}

impl EventHandler {
    /// The players whose names the messages of an event look up, in order;
    /// a name that is not remembered shows as the player's id.
    pub fn names_used(&self, event: &Event) -> (r: Vec<Pid>)
        ensures
            r@ == named_in(*self, *event),
    {
        let mut r: Vec<Pid> = Vec::new();
        match event {
            Event::Start { players } => {
                push_pids(&mut r, players);
                push_charges(&mut r, players);
            },
            Event::Night { .. } => {
                push_pids(&mut r, &self.players);
            },
            Event::Eclipse { avenger, .. } => {
                r.push(*avenger);
            },
            Event::Vengeance { avenger, victim } => {
                r.push(*avenger);
                r.push(*victim);
            },
            Event::Vote { voter, ballot, former } => {
                r.push(*voter);
                if let Some((c, _)) = ballot {
                    push_choice(&mut r, *c);
                }
                if let Some((c, _)) = former {
                    push_choice(&mut r, *c);
                }
            },
            Event::Election { choice, .. } => {
                push_choice(&mut r, *choice);
            },
            Event::Eliminate { player, .. } => {
                r.push(*player);
            },
            Event::Target { choice, .. } => {
                push_choice(&mut r, *choice);
            },
            Event::Scheme { killer, mark } => {
                r.push(*killer);
                push_choice(&mut r, *mark);
            },
            Event::Kill { mark, .. } => {
                r.push(*mark);
            },
            Event::Investigate { target, .. } => {
                r.push(*target);
            },
            Event::Milk { target, .. } => {
                r.push(*target);
            },
            _ => {},
        }
        assert(r@ =~= named_in(*self, *event));
        r
    }
}

/// A message goes to a player, or to one of the game's own chats.
pub open spec fn stays_in_game(h: EventHandler, n: Note) -> bool {
    match n {
        Note::Group(g, _) => g == h.main_chat_id || g == h.mafia_chat_id,
        Note::Direct(..) => true,
    }
}

proof fn lemma_start_dms_direct(names: Seq<(UserId, String)>, ps: Seq<(Pid, Role)>)
    ensures
        forall|i: int| 0 <= i < start_dms(names, ps).len() ==> (#[trigger] start_dms(names, ps)[i]) is Direct,
    decreases ps.len(),
{
    if ps.len() > 0 {
        lemma_start_dms_direct(names, ps.drop_last());
    }
}

proof fn lemma_night_dms_direct(ps: Seq<(Pid, Role)>, opt: Seq<char>)
    ensures
        forall|i: int| 0 <= i < night_dms(ps, opt).len() ==> (#[trigger] night_dms(ps, opt)[i]) is Direct,
    decreases ps.len(),
{
    if ps.len() > 0 {
        lemma_night_dms_direct(ps.drop_last(), opt);
    }
}

/// Whatever an event sends goes to a player directly, or to the game's
/// main chat or mafia chat; never to another chat.
pub proof fn law_announcements_stay_in_game(h: EventHandler, e: Event)
    ensures
        forall|i: int| 0 <= i < announced(h, e).len() ==> stays_in_game(h, #[trigger] announced(h, e)[i]),
{
    lemma_start_dms_direct(h.names@, match e {
        Event::Start { players } => players@,
        _ => Seq::empty(),
    });
    lemma_night_dms_direct(h.players@, option_text(h.names@, h.players@));
    let a = announced(h, e);
    let side = side_notes(h, e);
    assert forall|i: int| 0 <= i < a.len() implies stays_in_game(h, #[trigger] a[i]) by {
        if i < side.len() {
            assert(a[i] == side[i]);
            match e {
                Event::Start { players } => {
                    if i < start_dms(h.names@, players@).len() {
                        assert(side[i] == start_dms(h.names@, players@)[i]);
                    }
                },
                Event::Block { blocked, blockers } => {
                    if i > 0 {
                        assert(side[i] == blocker_dms(blockers@)[i - 1]);
                    }
                },
                _ => {},
            }
        }
    }
}


/// Whether `text` ends in `tail`.
pub open spec fn ends_with(text: Seq<char>, tail: Seq<char>) -> bool {
    text.len() >= tail.len() && text.skip(text.len() - tail.len()) == tail
}

/// The cop's report follows the investigation: it goes to the cop alone,
/// it differs for a suspect who appears mafia and one who does not, and it
/// ends in "Not Mafia Aligned" exactly when the suspect does not appear
/// mafia.
pub proof fn law_cop_report_follows_investigation(h: EventHandler, cop: Pid, target: Pid, appears_mafia: bool)
    ensures
        announced(h, Event::Investigate { cop, target, appears_mafia }).len() == 1,
        announced(h, Event::Investigate { cop, target, appears_mafia }) != announced(
            h,
            Event::Investigate { cop, target, appears_mafia: !appears_mafia },
        ),
        announced(h, Event::Investigate { cop, target, appears_mafia })[0] matches Note::Direct(u, text)
            && u == UserId(cop.0) && (ends_with(text, "Not Mafia Aligned"@) <==> !appears_mafia),
{
    reveal_strlit("Not Mafia Aligned");
    reveal_strlit("Mafia Aligned");
    reveal_strlit(" is ");
    let yes = announced(h, Event::Investigate { cop, target, appears_mafia: true });
    let no = announced(h, Event::Investigate { cop, target, appears_mafia: false });
    let name = name_text(h.names@, target);
    let t_yes = name + " is "@ + "Mafia Aligned"@;
    let t_no = name + " is "@ + "Not Mafia Aligned"@;
    assert(main_text(h, Event::Investigate { cop, target, appears_mafia: true }).len() == 0);
    assert(main_text(h, Event::Investigate { cop, target, appears_mafia: false }).len() == 0);
    assert(yes =~= seq![Note::Direct(user_of(cop), t_yes)]);
    assert(no =~= seq![Note::Direct(user_of(cop), t_no)]);
    assert(t_no.skip(t_no.len() - 17) =~= "Not Mafia Aligned"@);
    assert(t_yes.skip(t_yes.len() - 17)[1] == 'i');
    assert("Not Mafia Aligned"@[1] == 'o');
    assert(t_yes.len() != t_no.len());
}

} // verus!
