use mafia_bot::groupme::ids::{GroupId, UserId};
use mafia_bot::mafia::announce::{Event, EventHandler, Outgoing};
use mafia_bot::mafia::game::GameId;
use mafia_bot::mafia::role::{Pid, Role, RoleKind, Team};

const LOBBY: GroupId = GroupId(1);
const MAIN: GroupId = GroupId(2);
const MAFIA: GroupId = GroupId(3);

fn handler() -> EventHandler {
    let mut h = EventHandler::new(GameId(9), LOBBY, MAIN, MAFIA);
    h.remember_names(vec![
        (UserId(1), "Ann".to_string()),
        (UserId(2), "Bob".to_string()),
        (UserId(3), "Cy".to_string()),
    ]);
    h
}

fn main_msg(text: &str) -> Outgoing {
    Outgoing::Group { group_id: MAIN, text: text.to_string() }
}

fn dm(user: u64, text: &str) -> Outgoing {
    Outgoing::Direct { user_id: UserId(user), text: text.to_string() }
}

#[test]
fn names_fall_back_to_ids_and_newer_names_win() {
    let mut h = handler();
    assert_eq!(h.get_name(Pid(2)), "Bob");
    assert_eq!(h.get_name(Pid(7)), "(Player ID 7)");
    assert!(!h.knows_name(Pid(7)));
    h.remember_names(vec![(UserId(2), "Robert".to_string()), (UserId(7), "Gus".to_string())]);
    assert_eq!(h.get_name(Pid(2)), "Robert");
    assert!(h.knows_name(Pid(7)));
}

#[test]
fn start_tells_each_player_their_role() {
    let mut h = handler();
    let out = h.handle_event(Event::Start { players: vec![(Pid(1), Role::COP), (Pid(3), Role::GUARD(Pid(1)))] });
    assert_eq!(
        out,
        vec![
            dm(1, "Your Role is COP, you are Town aligned.\nUse /help COP or /help Town for more info"),
            dm(
                3,
                "Your Role is GUARD, you are Rogue aligned.\nUse /help GUARD or /help Rogue for more infoYour charge is Ann"
            ),
            Outgoing::Group { group_id: MAFIA, text: "Welcome to the Mafia Chat for game 9!".to_string() },
            main_msg("Game 9 begins!\nPlayers:\n  Ann\n  Cy"),
        ]
    );
    // The start does not teach the handler the players.
    assert!(h.players.is_empty());
}

#[test]
fn day_and_night_news() {
    let mut h = handler();
    let out = h.handle_event(Event::Day { day: 2, counts: vec![(Team::Mafia, 1), (Team::Town, 3)] });
    assert_eq!(out, vec![main_msg("Day 2 proceeds...\n Town: 3\n Mafia: 1\n")]);

    h.players = vec![(Pid(1), Role::COP), (Pid(2), Role::TOWN), (Pid(3), Role::STRIPPER)];
    let out = h.handle_event(Event::Night { day: 2, counts: vec![] });
    let options = "Choose a target:\nA: Ann\nB: Bob\nC: Cy\n";
    assert_eq!(out, vec![dm(1, options), dm(3, options), main_msg("Night 2 falls...\n")]);
}

#[test]
fn votes_show_tallies_against_thresholds() {
    let mut h = handler();
    h.players = vec![
        (Pid(1), Role::TOWN),
        (Pid(2), Role::TOWN),
        (Pid(3), Role::TOWN),
        (Pid(4), Role::MAFIA),
        (Pid(5), Role::TOWN),
    ];
    let out = h.handle_event(Event::Vote {
        voter: Pid(1),
        ballot: Some((Some(Pid(4)), 2)),
        former: Some((None, 1)),
    });
    assert_eq!(out, vec![main_msg("Ann votes for (Player ID 4) (2/3)\n(peace still has 1/3)")]);
    let out = h.handle_event(Event::Vote { voter: Pid(2), ballot: Some((None, 2)), former: None });
    assert_eq!(out, vec![main_msg("Bob votes for peace.(2/3)")]);
    let out = h.handle_event(Event::Vote { voter: Pid(3), ballot: None, former: Some((Some(Pid(1)), 1)) });
    assert_eq!(out, vec![main_msg("Cy retracts their vote.\n(Ann still has 1/3)")]);
}

#[test]
fn private_news_goes_to_players() {
    let mut h = handler();
    let out = h.handle_event(Event::Target { actor: Pid(1), choice: Some(Pid(2)) });
    assert_eq!(out, vec![dm(1, "You target Bob...")]);
    let out = h.handle_event(Event::Scheme { killer: Pid(3), mark: None });
    assert_eq!(out, vec![Outgoing::Group { group_id: MAFIA, text: "3 targets nobody...".to_string() }]);
    let out = h.handle_event(Event::Block { blocked: Pid(1), blockers: vec![Pid(3), Pid(2)] });
    assert_eq!(
        out,
        vec![
            dm(1, "Your action was blocked..."),
            dm(3, "You blocked an action..."),
            dm(2, "You blocked an action..."),
        ]
    );
    let out = h.handle_event(Event::Investigate { cop: Pid(1), target: Pid(3), appears_mafia: true });
    assert_eq!(out, vec![dm(1, "Cy is Mafia Aligned")]);
    let out = h.handle_event(Event::Save { saved: Pid(1), saviors: vec![Pid(2)] });
    assert!(out.is_empty());
}

#[test]
fn public_news_and_eliminations() {
    let mut h = handler();
    h.players = vec![(Pid(1), Role::COP), (Pid(2), Role::TOWN)];
    let out = h.handle_event(Event::Eliminate { player: Pid(1), role: RoleKind::COP });
    assert_eq!(out, vec![main_msg("Ann was Town!")]);
    assert_eq!(h.players, vec![(Pid(2), Role::TOWN)]);
    assert_eq!(h.handle_event(Event::Reveal { celeb: Pid(2) }), vec![main_msg("2 reveals, they are CELEB!\n")]);
    assert_eq!(h.handle_event(Event::Election { choice: None, hammer: Pid(1), voters: vec![] }), vec![
        main_msg("Nobody has been elected.")
    ]);
    assert_eq!(h.handle_event(Event::Kill { killer: Pid(3), mark: Pid(2) }), vec![main_msg(
        "Bob was killed in the Night!"
    )]);
    assert_eq!(h.handle_event(Event::Eclipse { avenger: Pid(2), hammer: Pid(1), guilty: vec![] }), vec![main_msg(
        "The sky darkens as the moon eclipses the sun... Bob will /vote one of their voters to die!\n"
    )]);
    assert_eq!(h.handle_event(Event::End { winner: Team::Mafia }), vec![main_msg("Mafia wins!")]);
    assert_eq!(h.handle_event(Event::Dawn), vec![main_msg("Dawn breaks...")]);
}

#[test]
fn names_used_lists_who_is_named() {
    let h = handler();
    let start = Event::Start { players: vec![(Pid(1), Role::AGENT(Pid(5))), (Pid(2), Role::TOWN)] };
    assert_eq!(h.names_used(&start), vec![Pid(1), Pid(2), Pid(5)]);
    let vote = Event::Vote { voter: Pid(1), ballot: Some((Some(Pid(2)), 1)), former: Some((None, 0)) };
    assert_eq!(h.names_used(&vote), vec![Pid(1), Pid(2)]);
    assert_eq!(h.names_used(&Event::Reveal { celeb: Pid(4) }), vec![]);
}
