use mafia_bot::trial::{Actor, Game, Phase, Player, Role, Team, ValidationErr};

fn player(id: usize, name: &str, role: Role<usize>) -> Player<usize> {
    Player { raw_pid: id, name: name.to_string(), role }
}

#[test]
fn trial_roles() {
    assert_eq!(Role::<usize>::STRIPPER.team(), Team::Mafia);
    assert!(!Role::<usize>::GODFATHER.investigate_mafia());
    assert!(Role::<usize>::MILLER.investigate_mafia());
    assert!(Role::<usize>::STRIPPER.has_night_action());
    assert!(!Role::<usize>::CELEB.has_night_action());
}

#[test]
fn trial_actors() {
    assert!(Actor::Mafia(1usize).overlaps(&Actor::Mafia(2)));
    assert!(!Actor::Player(1usize).overlaps(&Actor::Player(2)));
    assert!(Actor::Player(1usize).is_player(1));
    assert!(!Actor::Mafia(1usize).is_player(1));
    assert!(Actor::Mafia(3usize).is_mafia());
}

#[test]
fn trial_game_admits_each_id_once() {
    let g = Game::new(vec![
        player(7, "a", Role::TOWN),
        player(8, "b", Role::MAFIA),
        player(7, "c", Role::COP),
    ]);
    assert_eq!(g.phase, Phase::Init);
    assert_eq!(g.players.len(), 2);
    assert_eq!(Game::check_player(&g.players, &8).ok(), Some(1));
    let e: ValidationErr = Game::check_player(&g.players, &9).unwrap_err();
    assert_eq!(e.msg, "Player 9 not found");
    let mafia = Game::get_players_that(&g.players, |(_, p): (usize, Player<usize>)| p.role.team() == Team::Mafia);
    assert_eq!(mafia.len(), 1);
    assert_eq!(mafia[0].0, 1);
}

#[test]
fn trial_add_player_errors() {
    let mut g = Game::new(vec![player(1, "a", Role::TOWN)]);
    assert_eq!(g.add_player(player(1, "x", Role::COP)).unwrap_err().msg, "Player already exists");
    g.phase = Phase::Day(1);
    assert_eq!(g.add_player(player(2, "y", Role::COP)).unwrap_err().msg, "Game already started");
}
