use vstd::prelude::*;

use super::night::{acts_view, NightAct, NightActView};
use super::phase::VoteList;
use super::role::{Choice, Pid, Role, RoleKind, Team};

verus! {

/// What the game announces.
#[derive(Debug, Clone)]
pub enum Event2 {
    Start { players: Vec<(Pid, Role)> },
    Day { day: u32, players: Vec<(Pid, Role)> },
    Night { day: u32, players: Vec<(Pid, Role)> },
    Eclipse { avenger: Pid, hammer: Pid, guilty: Vec<Pid> },
    Election { choice: Choice, hammer: Pid, vote_list: VoteList },
    Eliminate { player: Pid, role: RoleKind },
    Dawn { night_actions: Vec<NightAct> },
    Block { blocked: Pid, blockers: Vec<Pid> },
    Save { saved: Pid, saviors: Vec<Pid> },
    NoKill,
    Kill { killer: Pid, mark: Pid },
    Investigate { cop: Pid, target: Pid, appears_mafia: bool },
    Milk { milky: Pid, target: Pid },
    End { winner: Team },
    Reveal { player: Pid, role: RoleKind },
    Debug(usize),
}

/// An announcement with its lists taken as sequences.
pub enum EventView {
    Start { players: Seq<(Pid, Role)> },
    Day { day: u32, players: Seq<(Pid, Role)> },
    Night { day: u32, players: Seq<(Pid, Role)> },
    Eclipse { avenger: Pid, hammer: Pid, guilty: Seq<Pid> },
    Election { choice: Choice, hammer: Pid, vote_list: Seq<(Choice, Seq<Pid>)> },
    Eliminate { player: Pid, role: RoleKind },
    Dawn { night_actions: Seq<NightActView> },
    Block { blocked: Pid, blockers: Seq<Pid> },
    Save { saved: Pid, saviors: Seq<Pid> },
    NoKill,
    Kill { killer: Pid, mark: Pid },
    Investigate { cop: Pid, target: Pid, appears_mafia: bool },
    Milk { milky: Pid, target: Pid },
    End { winner: Team },
    Reveal { player: Pid, role: RoleKind },
    Debug(usize),
}

/// A vote list with each voter list taken as a sequence.
pub open spec fn list_view(l: Seq<(Choice, Vec<Pid>)>) -> Seq<(Choice, Seq<Pid>)> {
    l.map_values(|e: (Choice, Vec<Pid>)| (e.0, e.1@))
}

impl View for Event2 {
    type V = EventView;

    open spec fn view(&self) -> EventView {
        match self {
            Event2::Start { players } => EventView::Start { players: players@ },
            Event2::Day { day, players } => EventView::Day { day: *day, players: players@ },
            Event2::Night { day, players } => EventView::Night { day: *day, players: players@ },
            Event2::Eclipse { avenger, hammer, guilty } => EventView::Eclipse {
                avenger: *avenger,
                hammer: *hammer,
                guilty: guilty@,
            },
            Event2::Election { choice, hammer, vote_list } => EventView::Election {
                choice: *choice,
                hammer: *hammer,
                vote_list: list_view(vote_list@),
            },
            Event2::Eliminate { player, role } => EventView::Eliminate { player: *player, role: *role },
            Event2::Dawn { night_actions } => EventView::Dawn {
                night_actions: acts_view(night_actions@),
            },
            Event2::Block { blocked, blockers } => EventView::Block {
                blocked: *blocked,
                blockers: blockers@,
            },
            Event2::Save { saved, saviors } => EventView::Save { saved: *saved, saviors: saviors@ },
            Event2::NoKill => EventView::NoKill,
            Event2::Kill { killer, mark } => EventView::Kill { killer: *killer, mark: *mark },
            Event2::Investigate { cop, target, appears_mafia } => EventView::Investigate {
                cop: *cop,
                target: *target,
                appears_mafia: *appears_mafia,
            },
            Event2::Milk { milky, target } => EventView::Milk { milky: *milky, target: *target },
            Event2::End { winner } => EventView::End { winner: *winner },
            Event2::Reveal { player, role } => EventView::Reveal { player: *player, role: *role },
            Event2::Debug(n) => EventView::Debug(*n),
        }
    }
}

/// A log of announcements taken by their views.
pub open spec fn log_view(s: Seq<Event2>) -> Seq<EventView> {
    s.map_values(|e: Event2| e@)
}

} // verus!
