use mafia_bot::engine::phase::PhaseKind;
use mafia_bot::engine::comm::{Comm, Event};
use mafia_bot::engine::game::{elim_order_of, ChargeStatus, Contract, ContractResult, Game, IdiotStatus};
use mafia_bot::engine::phase::Phase;
use mafia_bot::engine::player::{Choice, Player, Role, Team, Winner};

#[test]
fn test_refocus() {
    let players = vec![
        Player { raw_pid: 1u64, role: Role::TOWN },
        Player { raw_pid: 2u64, role: Role::GUARD },
        Player { raw_pid: 3u64, role: Role::GUARD },
        Player { raw_pid: 4u64, role: Role::AGENT },
        Player { raw_pid: 5u64, role: Role::AGENT },
        Player { raw_pid: 6u64, role: Role::IDIOT },
        Player { raw_pid: 7u64, role: Role::IDIOT },
        Player { raw_pid: 8u64, role: Role::MAFIA },
        Player { raw_pid: 9u64, role: Role::MAFIA },
    ];

    let mut contracts = vec![
        Contract::Protect { holder: 2u64, charge: 1, status: ChargeStatus::Alive },
        Contract::Protect { holder: 3, charge: 8, status: ChargeStatus::Alive },
        Contract::Assassinate { holder: 4, charge: 1, status: ChargeStatus::Alive },
        Contract::Assassinate { holder: 5, charge: 8, status: ChargeStatus::Alive },
        Contract::Elect { holder: 6, status: IdiotStatus::Unelected },
        Contract::Elect { holder: 7, status: IdiotStatus::Unelected },
    ];

    let comm = Comm::new();

    let mut game = Game { players, phase: Phase::new_night(1), contracts: contracts.clone(), comm };

    assert_eq!(game.contracts, contracts);

    assert!(game.handle_mark(8, Choice::Player(1)).is_ok());

    assert!(matches!(game.phase, Phase::Day(_)));

    contracts[0] = Contract::Assassinate { holder: 2, charge: 8, status: ChargeStatus::Alive };
    contracts[2] = Contract::Protect { holder: 4, charge: 8, status: ChargeStatus::Alive };

    assert_eq!(game.contracts, contracts);

    game.phase = Phase::new_night(2);
    assert!(game.handle_mark(9, Choice::Player(2)).is_ok());
    game.phase = Phase::new_night(3);
    assert!(game.handle_mark(9, Choice::Player(4)).is_ok());

    game.phase = Phase::new_night(4);
    assert!(game.handle_mark(9, Choice::Player(8)).is_ok());

    contracts[0] = Contract::Assassinate { holder: 2, charge: 8, status: ChargeStatus::Dead };
    contracts[1] = Contract::Assassinate { holder: 3, charge: 9, status: ChargeStatus::Alive };
    contracts[2] = Contract::Protect { holder: 4, charge: 8, status: ChargeStatus::Dead };
    contracts[3] = Contract::Protect { holder: 5, charge: 9, status: ChargeStatus::Alive };

    // 3,5,6,7,9

    assert_eq!(game.contracts, contracts);

    assert!(game.handle_vote(3, Some(Choice::Player(6))).is_ok());
    assert!(game.handle_vote(5, Some(Choice::Player(6))).is_ok());
    assert!(game.handle_vote(6, Some(Choice::Player(6))).is_ok());

    contracts[4] = Contract::Elect { holder: 6, status: IdiotStatus::Elected };

    assert_eq!(game.contracts, contracts);

    assert!(game.handle_mark(9, Choice::Player(9)).is_ok());

    assert_eq!(
        game.phase,
        Phase::End(
            Winner::Team(Team::Town),
            vec![
                ContractResult::Win { holder: 2 },
                ContractResult::Win { holder: 3 },
                ContractResult::Loss { holder: 4 },
                ContractResult::Loss { holder: 5 },
                ContractResult::Win { holder: 6 },
                ContractResult::Loss { holder: 7 },
            ]
        )
    );
}

#[test]
fn phase_kinds_and_choices() {
    assert_eq!(PhaseKind::Night.text(), "Night");
    assert_eq!(Option::<usize>::from(Choice::Player(4usize)), Some(4));
    assert_eq!(Option::<usize>::from(Choice::<usize>::Abstain), None);
}

#[test]
fn elimination_order_counts_repeats() {
    assert_eq!(elim_order_of(4, &[1, 1]), vec![1, 1]);
    assert_eq!(elim_order_of(4, &[0, 2, 1]), vec![2, 1, 0]);
    assert_eq!(elim_order_of(3, &[]), Vec::<usize>::new());
}

#[test]
fn repeated_index_removes_two_players() {
    let players = vec![
        Player { raw_pid: 1u64, role: Role::TOWN },
        Player { raw_pid: 2u64, role: Role::TOWN },
        Player { raw_pid: 3u64, role: Role::MAFIA },
        Player { raw_pid: 4u64, role: Role::TOWN },
    ];
    let mut game = Game { players, phase: Phase::new_night(1), contracts: vec![], comm: Comm::new() };
    game.eliminate(&[1, 1], 0);
    let left: Vec<u64> = game.players.iter().map(|p| p.raw_pid).collect();
    assert_eq!(left, vec![1, 4]);
    let gone: Vec<u64> = game
        .comm
        .events
        .iter()
        .filter_map(|e| match e {
            Event::Eliminate { player } => Some(player.raw_pid),
            _ => None,
        })
        .collect();
    assert_eq!(gone, vec![2, 3]);
}
