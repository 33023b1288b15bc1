use mafia_bot::mafia::status::Status;
use mafia_bot::mafia::game::GameId;
use mafia_bot::mafia::state::Brief;
use mafia_bot::mafia::action::{Action, Error};
use mafia_bot::mafia::event::Event2;
use mafia_bot::mafia::night::{resolve, Act, NightAct};
use mafia_bot::mafia::phase::{Phase, PhaseKind};
use mafia_bot::mafia::role::{Pid, Role, RoleKind, Team};
use mafia_bot::mafia::state::{count_votes, thresh, ActionResp, Checked, State};

fn registry(roles: &[(u64, Role)]) -> Vec<(Pid, Role)> {
    roles.iter().map(|(p, r)| (Pid(*p), *r)).collect()
}

fn vote(state: &mut State, tx: &mut Vec<Event2>, voter: u64, ballot: Option<Option<u64>>, now: i64) -> ActionResp {
    let va = state
        .validate_action(Action::Vote { voter: Pid(voter), ballot: ballot.map(|c| c.map(Pid)) })
        .unwrap();
    state.perform_action_at(va, now, tx)
}

#[test]
fn basic_game() {
    let mut state = State::new(registry(&[(1, Role::TOWN), (2, Role::TOWN), (3, Role::MAFIA)]));
    let mut tx = Vec::new();
    state.start(&mut tx);
    assert_eq!(state.day, 1);
    assert_eq!(state.phase.kind(), PhaseKind::Day);

    let r = vote(&mut state, &mut tx, 1, Some(Some(3)), 0);
    assert_eq!(r, ActionResp::Vote { voter: Pid(1), ballot: Some((Some(Pid(3)), 1)), former: None });
    assert_eq!(state.update_at(10, &mut tx), None);

    let r = vote(&mut state, &mut tx, 2, Some(Some(3)), 100);
    assert_eq!(r, ActionResp::Vote { voter: Pid(2), ballot: Some((Some(Pid(3)), 2)), former: None });
    match &state.phase {
        Phase::Day { elect, .. } => assert_eq!(*elect, Some((Some(Pid(3)), Pid(2), 1100))),
        _ => panic!("expected a day"),
    }
    // Not yet due.
    state.update_at(1100, &mut tx);
    assert_eq!(state.phase.kind(), PhaseKind::Day);
    // Due: the mafioso is elected and the town wins.
    state.update_at(1101, &mut tx);
    assert!(matches!(state.phase, Phase::End { winner: Team::Town }));
    assert!(matches!(tx.last(), Some(Event2::Eliminate { player: Pid(3), role: RoleKind::MAFIA })));
}

#[test]
fn thresholds_are_majorities() {
    assert_eq!(thresh(5, &Some(Pid(1))), 3);
    assert_eq!(thresh(6, &Some(Pid(1))), 4);
    assert_eq!(thresh(5, &None), 3);
    assert_eq!(thresh(6, &None), 3);
    assert_eq!(thresh(0, &None), 0);
}

#[test]
fn count_votes_lists_every_living_player() {
    let state = State::new(registry(&[(1, Role::TOWN), (2, Role::TOWN), (3, Role::MAFIA)]));
    let votes = vec![(Pid(1), Some(Pid(3))), (Pid(2), None), (Pid(3), Some(Pid(3)))];
    let list = count_votes(&votes, &state.players);
    assert_eq!(list.len(), 4);
    let get = |c: Option<Pid>| list.iter().find(|(k, _)| *k == c).map(|(_, v)| v.clone());
    assert_eq!(get(Some(Pid(3))), Some(vec![Pid(1), Pid(3)]));
    assert_eq!(get(Some(Pid(1))), Some(vec![]));
    assert_eq!(get(None), Some(vec![Pid(2)]));
}

#[test]
fn validation_errors() {
    let mut state = State::new(registry(&[(1, Role::COP), (2, Role::CELEB), (3, Role::MAFIA)]));
    let mut tx = Vec::new();
    assert_eq!(
        state.validate_action(Action::Vote { voter: Pid(9), ballot: None }).err(),
        Some(Error::InvalidPlayer { pid: 9 })
    );
    assert_eq!(
        state.validate_action(Action::Vote { voter: Pid(1), ballot: Some(None) }).err(),
        Some(Error::InvalidPhase { expected: PhaseKind::Day, actual: PhaseKind::Init })
    );
    state.start(&mut tx);
    // A day: targets are refused, reveals of a non-celeb too.
    assert_eq!(
        state.validate_action(Action::Target { actor: Pid(1), choice: Some(Pid(3)) }).err(),
        Some(Error::InvalidPhase { expected: PhaseKind::Night, actual: PhaseKind::Day })
    );
    assert_eq!(
        state.validate_action(Action::Target { actor: Pid(2), choice: Some(Pid(3)) }).err(),
        Some(Error::ExpectedTargetingRole { actual: RoleKind::CELEB })
    );
    assert_eq!(
        state.validate_action(Action::Reveal { actor: Pid(1) }).err(),
        Some(Error::ExpectedCeleb { actual: RoleKind::COP })
    );
    assert_eq!(
        state.validate_action(Action::Scheme { killer: Pid(1), mark: Some(Pid(2)) }).err(),
        Some(Error::ExpectedSchemingRole { actual: RoleKind::COP })
    );
    // Taking back a vote never cast has no effect.
    assert_eq!(
        state.validate_action(Action::Vote { voter: Pid(1), ballot: None }).err(),
        Some(Error::IneffectiveAction)
    );
    let va = state.validate_action(Action::Reveal { actor: Pid(2) }).unwrap();
    assert_eq!(va.0, Checked::Reveal(Pid(2)));
    let before = tx.len();
    assert_eq!(state.perform_action_at(va, 0, &mut tx), ActionResp::Accepted);
    assert!(matches!(tx[before], Event2::Reveal { player: Pid(2), role: RoleKind::CELEB }));
}

fn act(act: Act, actor: u64, target: u64) -> NightAct {
    NightAct { act, actor: Pid(actor), target: Pid(target), blockers: vec![] }
}

#[test]
fn night_resolution_orders_and_blocks() {
    // Milk, kill, save, block, investigate in a jumbled order.
    let acts = vec![
        act(Act::Milk, 5, 1),
        act(Act::Kill { saviors: vec![] }, 3, 1),
        act(Act::Save { effective: false }, 2, 1),
        act(Act::Block, 4, 6),
        act(Act::Investigate, 6, 3),
    ];
    let r = resolve(&acts);
    let order: Vec<i32> = r.iter().map(|a| a.act.priority()).collect();
    assert_eq!(order, vec![2, 1, 0, -1, -2]);
    // The doctor saves the mark and the save is effective.
    assert!(matches!(r[1].act, Act::Save { effective: true }));
    match &r[2].act {
        Act::Kill { saviors } => assert_eq!(saviors, &vec![Pid(2)]),
        _ => panic!("expected the kill"),
    }
    // The cop is blocked by the stripper.
    assert_eq!(r[3].blockers, vec![Pid(4)]);
    assert!(r[0].blockers.is_empty());
}

#[test]
fn blocked_doctor_does_not_save() {
    let acts = vec![
        act(Act::Kill { saviors: vec![] }, 3, 1),
        act(Act::Save { effective: false }, 2, 1),
        act(Act::Block, 4, 2),
    ];
    let r = resolve(&acts);
    assert_eq!(r[1].blockers, vec![Pid(4)]);
    assert!(matches!(r[1].act, Act::Save { effective: true }));
    match &r[2].act {
        Act::Kill { saviors } => assert!(saviors.is_empty()),
        _ => panic!("expected the kill"),
    }
}

#[test]
fn night_then_dawn() {
    // Four players: the game starts at night.
    let mut state = State::new(registry(&[
        (1, Role::COP),
        (2, Role::DOCTOR),
        (3, Role::MAFIA),
        (4, Role::TOWN),
    ]));
    let mut tx = Vec::new();
    state.start(&mut tx);
    assert_eq!(state.phase.kind(), PhaseKind::Night);
    let va = state.validate_action(Action::Target { actor: Pid(1), choice: Some(Pid(3)) }).unwrap();
    state.perform_action_at(va, 0, &mut tx);
    let va = state.validate_action(Action::Target { actor: Pid(2), choice: Some(Pid(2)) }).unwrap();
    state.perform_action_at(va, 0, &mut tx);
    // Targeting twice is refused.
    assert_eq!(
        state.validate_action(Action::Target { actor: Pid(2), choice: Some(Pid(1)) }).err(),
        Some(Error::IneffectiveAction)
    );
    let va = state.validate_action(Action::Scheme { killer: Pid(3), mark: Some(Pid(4)) }).unwrap();
    state.perform_action_at(va, 50, &mut tx);
    match &state.phase {
        Phase::Night { dawn, .. } => assert_eq!(*dawn, Some(1050)),
        _ => panic!("expected the night"),
    }
    let start = tx.len();
    state.update_at(2000, &mut tx);
    let news = &tx[start..];
    assert!(matches!(news[0], Event2::Dawn { .. }));
    assert!(news.iter().any(|e| matches!(e, Event2::Investigate { cop: Pid(1), target: Pid(3), appears_mafia: true })));
    assert!(news.iter().any(|e| matches!(e, Event2::Kill { killer: Pid(3), mark: Pid(4) })));
    // Three remain: one mafioso against two; a new day begins.
    assert_eq!(state.day, 1);
    assert_eq!(state.phase.kind(), PhaseKind::Day);
}

#[test]
fn texts_announce_the_game() {
    assert_eq!(PhaseKind::Eclipse.text(), "Eclipse");
    assert_eq!(Pid(42).text(), "42");
    assert_eq!(GameId(7).text(), "7");
    assert_eq!(Role::GUARD(Pid(3)).text(), "GUARD");
    assert_eq!(RoleKind::GODFATHER.text(), "GODFATHER");

    let mut state = State::new(registry(&[(1, Role::TOWN), (2, Role::TOWN), (3, Role::MAFIA)]));
    assert_eq!(state.text(), "Init 0");
    let mut tx = Vec::new();
    state.start(&mut tx);
    assert_eq!(state.text(), "Day 1");
    let brief = Brief::from_state(&state);
    assert_eq!(brief.text(), "Day 1 Town:2 Mafia:1");
    let reordered = Brief { day: 12, phase: PhaseKind::Night, counts: vec![(Team::Rogue, 1), (Team::Town, 10)] };
    assert_eq!(reordered.text(), "Night 12 Town:10 Rogue:1");
}

#[test]
fn status_reports_votes_and_teams() {
    let st = Status {
        day: 2,
        phase: PhaseKind::Day,
        votes: Some(vec![(Some(Pid(3)), vec![Pid(1), Pid(2)]), (None, vec![Pid(4)])]),
        count: vec![(Team::Mafia, 1), (Team::Town, 3)],
        players: vec![Pid(1), Pid(2), Pid(3), Pid(4)],
        names: vec![(Pid(1), "Ann".to_string()), (Pid(2), "Bob".to_string()), (Pid(3), "Cy".to_string())],
    };
    assert_eq!(
        st.text(),
        "Day 2:\n  Votes:\n    Cy(2/3): Ann, Bob\n    Abstain(1/2): ???\n  Teams:\n    Town: 3\n    Mafia: 1\n"
    );
    assert_eq!(st.brief(), "Day 2:\n    Teams:\n    Town: 3\n    Mafia: 1\n");
    let night = Status { phase: PhaseKind::Night, votes: None, ..st };
    assert_eq!(night.text(), "Night 2:\n  Teams:\n    Town: 3\n    Mafia: 1\n");
}

#[test]
fn state_status_lists_the_living() {
    let mut state = State::new(registry(&[(1, Role::TOWN), (2, Role::TOWN), (3, Role::MAFIA)]));
    let mut tx = Vec::new();
    state.start(&mut tx);
    let r = vote(&mut state, &mut tx, 1, Some(Some(3)), 0);
    let _ = r;
    let st = state.status(vec![(Pid(1), "Ann".to_string()), (Pid(3), "Cy".to_string())]);
    assert_eq!(st.players, vec![Pid(1), Pid(2), Pid(3)]);
    assert_eq!(st.text(), "Day 1:\n  Votes:\n    Cy(1/2): Ann\n  Teams:\n    Town: 2\n    Mafia: 1\n");
}
