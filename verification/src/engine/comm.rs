use vstd::prelude::*;

use super::game::{Contract, ContractResult};
use super::phase::PhaseKind;
use super::player::{Choice, Player, Role, Winner};

verus! {

/// When the host saves the game to a file.
#[derive(Debug, Clone, PartialEq, Eq, Default)]
pub enum SaveStrategy {
    #[default]
    Never,
    PerPhase(String),
    PerChange(String),
}

/// Marker for what a request came from (a chat, a direct message, ...).
pub trait Source {}

/// A command together with where it came from.
#[derive(Debug, Clone)]
pub struct Request<S> {
    pub cmd: Command,
    pub src: S,
}

#[derive(Debug, Clone, Copy, PartialEq, Eq, Structural)]
pub enum CommandKind {
    Vote,
    Retract,
    Reveal,
    Target,
    Mark,
}

/// A player's command, naming players by raw id.
#[derive(Debug, Clone, Copy, PartialEq, Eq)]
pub enum Command {
    Vote { voter: u64, ballot: Option<Choice<u64>> },
    Reveal { celeb: u64 },
    Target { actor: u64, target: Choice<u64> },
    Mark { killer: u64, mark: Choice<u64> },
}

pub open spec fn command_kind(cmd: Command) -> CommandKind {
    match cmd {
        Command::Vote { .. } => CommandKind::Vote,
        Command::Reveal { .. } => CommandKind::Reveal,
        Command::Target { .. } => CommandKind::Target,
        Command::Mark { .. } => CommandKind::Mark,
    }
}

impl Command {
    pub fn kind(&self) -> (k: CommandKind)
        ensures
            k == command_kind(*self),
    {
        match self {
            Command::Vote { .. } => CommandKind::Vote,
            Command::Reveal { .. } => CommandKind::Reveal,
            Command::Target { .. } => CommandKind::Target,
            Command::Mark { .. } => CommandKind::Mark,
        }
    }
}

/// An event together with the source of the command that caused it.
#[derive(Debug, Clone)]
pub struct Response<S> {
    pub event: Event,
    pub src: S,
}

/// What the game announces.
#[derive(Debug, Clone, PartialEq, Eq)]
pub enum Event {
    Init,
    Start { players: Vec<Player>, phase: PhaseKind },
    Day { day_no: usize },
    Vote {
        voter: Player,
        ballot: Option<Player>,
        former: Option<Option<Player>>,
        threshold: usize,
        count: usize,
    },
    Retract { voter: Player, former: Option<Option<Player>> },
    Reveal { celeb: Player },
    Election { electors: Vec<Player>, ballot: Option<Player> },
    Night { night_no: usize },
    Target { actor: Player, target: Option<Player> },
    Mark { killer: Player, mark: Option<Player> },
    Dawn,
    Strip { stripper: Player, blocked: Player },
    Block { blocked: Player },
    Save { doctor: Player, saved: Player },
    Investigate { cop: Player, suspect: Player, role: Role },
    Kill { killer: Player, mark: Player },
    NoKill,
    Eliminate { player: Player },
    Refocus { new_contract: Contract },
    End { winner: Winner, contract_results: Vec<ContractResult> },
}

/// The game's outbox: every event it announces, in order, and how the
/// host is asked to save it. The host drains `events` to its listeners.
#[derive(Debug)]
pub struct Comm {
    pub events: Vec<Event>,
    pub save: SaveStrategy,
}

impl Comm {
    pub fn new() -> (c: Self)
        ensures
            c.events@ == Seq::<Event>::empty(),
            c.save == SaveStrategy::Never,
    {
        Self { events: Vec::new(), save: SaveStrategy::Never }
    }

    pub fn tx(&mut self, event: Event)
        ensures
            final(self).events@ == old(self).events@.push(event),
            final(self).save == old(self).save,
    {
        self.events.push(event);
    }
}

/// A listener that prints each event.
pub struct DisplayEventHandler {}

impl DisplayEventHandler {
    pub fn new() -> (h: Self) {
        Self {}
    }
}

} // verus!
