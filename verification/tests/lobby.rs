use mafia_bot::lobby::{Game, MError, Phase, Player, Role, Rules, StartStep, Step, Target, UserID, UID};

fn chkps<U: UID + std::fmt::Debug>(game: &Game<U>, players: &[U], should: bool) {
    assert_eq!(check_players(game, players, should), Ok(()));
}

fn check_players<U: UID + std::fmt::Debug>(
    game: &Game<U>,
    players: &[U],
    should: bool,
) -> Result<(), MError> {
    for player in players {
        match game.check_player(player) {
            Ok(_) if should => Ok(()),
            Err(_) if !should => Ok(()),
            Ok(_) => Err(MError::new(&format!("Should not have player {:?}", player))),
            Err(_) => Err(MError::new(&format!("Should have player {:?}", player))),
        }?;
    }
    Ok(())
}

fn get_standard_game(uids: &[UserID]) -> Game<UserID> {
    let mut game = Game::<UserID>::new();
    let mut flag = true;
    for uid in uids {
        if flag {
            game.add_player(Player::new(uid, &Role::MAFIA)).expect("Should add player");
            flag = false;
            continue;
        }
        game.add_player(Player::new(uid, &Role::TOWN)).expect("Should add player");
    }
    game
}

#[test]
fn can_check_players() {
    let game = Game {
        players: vec![Player::new(&UserID(1), &Role::TOWN)],
        phase: Phase::Init,
        rules: Rules::default(),
    };

    assert!(game.check_player(&UserID(1)).is_ok());
}

#[test]
fn can_add_players() {
    let mut game = Game::<UserID>::new();
    assert!(game.check_player(&UserID(1)).is_err());
    game.add_player(Player::new(&UserID(1), &Role::TOWN)).expect("Should add player");
    assert!(game.check_player(&UserID(1)).is_ok());
}

#[test]
fn add_many_players() -> Result<(), MError> {
    let mut game = Game::<UserID>::new();

    let (u1, u2, u3) = (UserID(1), UserID(2), UserID(3));

    chkps(&game, &[u1], false);
    game.add_player(Player::new(&u1, &Role::TOWN))?;
    chkps(&game, &[u1], true);

    game.add_player(Player::new(&u2, &Role::COP))?;
    check_players(&game, &[u1, u2], true)?;
    check_players(&game, &[u3], false)?;

    game.add_player(Player::new(&u1, &Role::AGENT(u3.clone())))
        .expect_err("Should fail because u1 is already in the game");
    check_players(&game, &[u1, u2], true)?;
    check_players(&game, &[u3], false)?;

    game.add_player(Player::new(&u3, &Role::MAFIA))?;
    game.check_player(&u3)?;

    Ok(())
}

#[test]
fn start_game() -> Result<(), MError> {
    let mut game = get_standard_game(&[UserID(1), UserID(2), UserID(3), UserID(4)]);
    game.start()?;
    Ok(())
}

#[test]
fn vote() -> Result<(), MError> {
    let mut game = get_standard_game(&[UserID(1), UserID(2), UserID(3), UserID(4)]);
    game.start()?;
    // Fail night
    assert!(game.vote(&UserID(1), &Some(Target::Select(UserID(3)))).is_err());

    let mut game = get_standard_game(&[UserID(1), UserID(2), UserID(3)]);
    game.start()?;
    assert!(game.vote(&UserID(1), &Some(Target::Select(UserID(5)))).is_err());

    assert!(game.vote(&UserID(4), &Some(Target::Select(UserID(2)))).is_err());

    game.vote(&UserID(1), &Some(Target::Select(UserID(2))))?;

    Ok(())
}

#[test]
fn lobby_errors_name_the_reason() {
    let mut game = get_standard_game(&[UserID(1), UserID(2), UserID(3)]);
    assert_eq!(
        game.vote(&UserID(1), &None),
        Err(MError::new("Not in Play Phase"))
    );
    game.start().unwrap();
    assert_eq!(game.start(), Err(MError::new("Not in Init Phase")));
    assert_eq!(
        game.add_player(Player::new(&UserID(9), &Role::TOWN)),
        Err(MError::new("Not in Init Phase"))
    );
    assert_eq!(
        game.action(&UserID(1), &None),
        Err(MError::new("Not in Night Step"))
    );
    assert_eq!(
        game.vote(&UserID(7), &None),
        Err(MError::new("Player does not exist"))
    );
    assert_eq!(
        game.vote(&UserID(1), &Some(Target::Select(UserID(7)))),
        Err(MError::new("Target not playing"))
    );
}

#[test]
fn lobby_vote_replaces_and_retracts() {
    let mut game = get_standard_game(&[UserID(1), UserID(2), UserID(3)]);
    game.start().unwrap();
    game.vote(&UserID(1), &Some(Target::Select(UserID(2)))).unwrap();
    game.vote(&UserID(2), &Some(Target::Abstain)).unwrap();
    game.vote(&UserID(1), &Some(Target::Select(UserID(3)))).unwrap();
    match &game.phase {
        Phase::Play { day, step: Step::Day(d) } => {
            assert_eq!(*day, 1);
            assert_eq!(
                d.votes,
                vec![(UserID(1), Target::Select(UserID(3))), (UserID(2), Target::Abstain)]
            );
        }
        _ => panic!("expected a day"),
    }
    game.vote(&UserID(1), &None).unwrap();
    match &game.phase {
        Phase::Play { step: Step::Day(d), .. } => {
            assert_eq!(d.votes, vec![(UserID(2), Target::Abstain)]);
        }
        _ => panic!("expected a day"),
    }
}

#[test]
fn lobby_start_step_follows_rules() {
    let even = get_standard_game(&[UserID(1), UserID(2)]);
    let mut g = even.clone();
    g.start().unwrap();
    assert!(matches!(g.phase, Phase::Play { day: 1, step: Step::Night(_) }));
    let mut g = even;
    g.rules = Rules { start_step: StartStep::Day };
    g.start().unwrap();
    assert!(matches!(g.phase, Phase::Play { day: 1, step: Step::Day(_) }));
    let mut g = get_standard_game(&[UserID(1), UserID(2), UserID(3)]);
    g.rules = Rules { start_step: StartStep::NightIfOdd };
    g.start().unwrap();
    assert!(matches!(g.phase, Phase::Play { step: Step::Night(_), .. }));
    g = get_standard_game(&[UserID(1)]);
    g.start().unwrap();
    g.action(&UserID(1), &Some(Target::Abstain)).unwrap_err();
}
