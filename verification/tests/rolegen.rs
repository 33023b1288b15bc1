use mafia_bot::rolegen::spice;
use mafia_bot::rolegen::{
    count_roles, create_mafia_list, create_rogue_list, create_town_list, full_roleset, gen_role_set,
    get_n_score, get_roles_set, get_roles_spice, get_rogue_roles, get_score, get_score_mod,
    get_score_of_roles, get_set_mafia_roles, get_set_town_roles, get_team_roles, get_team_roles_normals,
    get_teams_score, minimal_roleset, new_roleset, split_cop_doc, RoleClass, RoleGen,
    balance_fits_check, best_balanced, should_redraw, spice_fits_check, team_roles_fit_check, Flavor,
    fits_limits, team_try,
};

#[test]
fn test_team_score() {
    for i in 3..=15 {
        for j in 1..=i / 3 {
            println!("{},{}: {}", i, j, spice::get_town_v_maf_score(i, j));
        }
    }
}

#[test]
fn town_v_maf_score_values() {
    // Seven players with two mafia: two town kills needed, two mafia to find.
    assert_eq!(spice::get_town_v_maf_score(7, 2), 20 - 30);
    assert_eq!(spice::get_town_v_maf_score(3, 1), 10 - 15);
    assert_eq!(spice::get_town_v_maf_score(15, 5), 50 - 75);
}

#[test]
fn teams_scores() {
    assert_eq!(get_teams_score(5, 2, 0), 0 + 0);
    assert_eq!(get_teams_score(4, 2, 0), -10 - 10);
    assert_eq!(spice::get_teams_score(4, 2, 0), -10 - 8);
    assert_eq!(spice::get_teams_score(5, 1, 1), 20 + 0);
    assert_eq!(get_n_score(6, 2, -5), 10 - 5);
}

#[test]
fn lists_have_their_weights() {
    let t = create_town_list(8);
    assert_eq!(t.len(), 80 + 15 + 15 + 10 + 10);
    assert_eq!(count_roles(&t, RoleClass::TownPower), 50);
    let m = create_mafia_list(15);
    assert_eq!(m.len(), 155 + 45);
    assert_eq!(count_roles(&m, RoleClass::MafiaPower), 45);
    let r = create_rogue_list(&new_roleset());
    assert_eq!(r, vec![RoleGen::TOWN; 20]);
    let r = create_rogue_list(&full_roleset());
    assert_eq!(r.len(), 40 + 4 * 15);
}

#[test]
fn scores_of_sets() {
    assert_eq!(get_score_of_roles(&vec![RoleGen::COP, RoleGen::STRIPPER, RoleGen::GOON]), 20 - 20 + 25);
    // Plain standard map: cop 20, doctor 20, celeb 15.
    assert_eq!(get_score(&vec![RoleGen::COP, RoleGen::DOCTOR, RoleGen::CELEB]), 55);
    // One godfather halves the cop's value above 5: (150 / 2) / 10 + 5 = 12.
    assert_eq!(get_score(&vec![RoleGen::COP, RoleGen::GODFATHER]), 12);
    // The spice map: cop 16 above a floor of 8.
    assert_eq!(spice::get_score(&vec![RoleGen::COP]), 16);
    assert_eq!(spice::get_score(&vec![RoleGen::COP, RoleGen::MILLER]), 12);
    assert_eq!(spice::get_score(&vec![RoleGen::IDIOT, RoleGen::AGENT_Mafia]), 5);
}

#[test]
fn score_mod_counts_synergies() {
    // A cop with nothing spoiling it: 200 / 10 + 5, and 5 for the informed role.
    assert_eq!(get_score_mod(&vec![], &vec![RoleGen::COP]), 25 + 5);
    // With a godfather already in: 100 / 10 + 5.
    assert_eq!(get_score_mod(&vec![RoleGen::GODFATHER], &vec![RoleGen::COP]), 15 + 5);
    // A celeb with a stripper among the new roles: 40 / 10 + 2, stripper -20.
    assert_eq!(get_score_mod(&vec![], &vec![RoleGen::CELEB, RoleGen::STRIPPER]), 6 - 20 + 5);
}

#[test]
fn set_roles_follow_the_lineup() {
    let rs = minimal_roleset();
    assert_eq!(
        get_set_town_roles(5, &rs),
        vec![RoleGen::COP, RoleGen::DOCTOR, RoleGen::TOWN, RoleGen::TOWN, RoleGen::TOWN]
    );
    assert_eq!(get_set_mafia_roles(2, &rs), vec![RoleGen::MAFIA, RoleGen::MAFIA]);
    let full = full_roleset();
    assert_eq!(get_set_mafia_roles(5, &full).len(), 5);
    assert_eq!(get_set_mafia_roles(5, &full)[1], RoleGen::GODFATHER);
    assert_eq!(get_set_town_roles(17, &full)[16], RoleGen::TOWN);
}

#[test]
fn spice_draws_deal_everyone() {
    let rs = full_roleset();
    for n in 5..=12 {
        if let Ok((_, roles)) = get_roles_spice(n, 2, 1, n / 3, &rs) {
            assert_eq!(roles.len(), n);
            assert_eq!(count_roles(&roles, RoleClass::MafiaAll), 2);
        }
        if let Ok((_, roles)) = spice::get_roles_spice(n, 2, 1, n / 3, &rs) {
            assert_eq!(roles.len(), n);
            assert_eq!(count_roles(&roles, RoleClass::MafiaAll), 2);
        }
    }
}

#[test]
fn draws_fit_their_limits() {
    let rs = full_roleset();
    if let Ok(s) = gen_role_set(2, 1, 1, 3, &rs) {
        assert_eq!(s.len(), 3);
        assert!(count_roles(&s, RoleClass::TownPower) <= 2);
        assert!(count_roles(&s, RoleClass::MafiaPower) <= 1);
    }
    let (score, rogues) = get_rogue_roles(5, 2, 2, &rs);
    assert_eq!(rogues.len(), 2);
    assert!(score.abs() <= 20);
    let set = get_roles_set(9, 2, 1, &minimal_roleset());
    assert_eq!(set.len(), 9);
    assert_eq!(set[6], RoleGen::MAFIA);
    assert_eq!(set[8], RoleGen::TOWN);
}

#[test]
fn team_roles() {
    let (c, d) = split_cop_doc(7);
    assert_eq!(c + d, 7);
    assert_eq!(split_cop_doc(0), (0, 0));
    let (score, roles) = get_team_roles_normals(5, 2, 1, 1, 0, 0, &minimal_roleset());
    assert_eq!(score, 0);
    assert_eq!(
        roles,
        vec![RoleGen::COP, RoleGen::DOCTOR, RoleGen::TOWN, RoleGen::TOWN, RoleGen::TOWN, RoleGen::MAFIA, RoleGen::MAFIA]
    );
    let (_, roles) = get_team_roles_normals(2, 1, 3, 3, 0, 0, &minimal_roleset());
    assert_eq!(roles.len(), 3);
    assert_eq!(roles[2], RoleGen::MAFIA);
    // A noise far beyond any score never accepts the draw.
    assert!(get_team_roles(5, 2, 0, 100000).is_none());
}

/// The counts the normal draws centre on: about a third of the players are
/// mafia, and half of them get a power role.
fn spice_counts(n_players: usize) -> (usize, usize, usize) {
    let n_mafia = if n_players <= 5 { 1 } else { n_players / 3 };
    let n_spice = n_players / 2;
    (n_mafia, n_spice, n_spice)
}

#[test]
fn rolegen_gen_sets_n_spice() {
    let roleset = full_roleset();
    for n_players in 3..15 {
        let (n_mafia, n_rogue, n_spice) = spice_counts(n_players);
        let (score, roles) =
            get_roles_spice(n_players, n_mafia, n_rogue, n_spice, &roleset).expect("Should not fail?");
        println!("{}: ({}){:?}", n_players, score, roles);
        assert_eq!(roles.len(), n_players);
        assert_eq!(count_roles(&roles, RoleClass::MafiaAll), n_mafia);
    }
}

#[test]
fn spice_gen_sets_n_spice() {
    let roleset = full_roleset();
    for n_players in 7..=7 {
        for _ in 0..10 {
            let (n_mafia, n_rogue, n_spice) = spice_counts(n_players);
            let (score, roles) = spice::get_roles_spice(n_players, n_mafia, n_rogue, n_spice, &roleset)
                .expect("Should not fail?");
            println!("{}: ({}){:?}", n_players, score, roles);
            assert_eq!(roles.len(), n_players);
            assert_eq!(count_roles(&roles, RoleClass::MafiaAll), n_mafia);
        }
    }
}

#[test]
fn rogues_are_redrawn_while_they_lean_the_teams_way() {
    assert!(should_redraw(-5, -10, 0));
    assert!(should_redraw(10, 20, 99));
    assert!(!should_redraw(10, 20, 100));
    assert!(!should_redraw(-5, 10, 0));
    assert!(!should_redraw(0, 10, 0));
    assert!(!should_redraw(5, 0, 0));
}

#[test]
fn the_best_balanced_set_is_kept() {
    // Standard scores: a cop alone is 20, a stripper -20, a goon 20.
    let sets = vec![
        vec![RoleGen::COP],
        vec![RoleGen::STRIPPER],
        vec![RoleGen::GOON, RoleGen::STRIPPER],
        vec![RoleGen::TOWN],
    ];
    // Balances with -10: 10, -30, -10, -10; the first nearest is kept.
    assert_eq!(best_balanced(Flavor::Standard, &sets, -10), 0);
    // Balances with 20: 40, 0, 20, 20.
    assert_eq!(best_balanced(Flavor::Standard, &sets, 20), 1);
    // Balances with 0: 20, -20, 0, 0; ties keep the earlier.
    assert_eq!(best_balanced(Flavor::Standard, &sets, 0), 2);
}

#[test]
fn sums_are_checked_against_i32() {
    assert!(balance_fits_check(10, 3));
    assert!(!balance_fits_check(300_000_000, 0));
    assert!(!balance_fits_check(0, 2_000_000_000));
    assert!(team_roles_fit_check(40, 10, 0, 5));
    assert!(!team_roles_fit_check(200_000_000, 0, 100_000_000, 0));
    let rs = full_roleset();
    assert!(spice_fits_check(Flavor::Standard, 15, 4, 2, 6, &rs));
    assert!(spice_fits_check(Flavor::Spice, 15, 4, 2, 6, &rs));
    assert!(!spice_fits_check(Flavor::Standard, 300_000_000, 0, 0, 10, &rs));
}

#[test]
fn large_games_are_drawn() {
    let rs = full_roleset();
    let (score, rogues) = get_rogue_roles(60, 20, 5, &rs);
    assert_eq!(rogues.len(), 5);
    let _ = score;
    let mut kept = 0;
    for noise in -20..20 {
        if let Some((_, roles)) = get_team_roles(40, 15, 0, noise) {
            assert_eq!(roles.len(), 55);
            kept += 1;
        }
    }
    let _ = kept;
    let (_, roles) = get_team_roles_normals(40, 15, 3, 3, 1, 2, &rs);
    assert_eq!(roles.len(), 55);
}

#[test]
fn team_try_keeps_draws_near_even() {
    let vanilla = || {
        let mut v = vec![RoleGen::TOWN; 5];
        v.extend(vec![RoleGen::MAFIA; 2]);
        v
    };
    assert_eq!(team_try(5, 2, 0, 0, vanilla()), Some((0, vanilla())));
    assert_eq!(team_try(5, 2, 0, 9, vanilla()), Some((0, vanilla())));
    assert_eq!(team_try(5, 2, 0, 10, vanilla()), None);
    assert_eq!(team_try(5, 2, 0, -10, vanilla()), None);
    let mut with_cop = vanilla();
    with_cop[0] = RoleGen::COP;
    assert_eq!(team_try(5, 2, 0, 0, with_cop.clone()), None);
    assert_eq!(team_try(5, 2, 0, -25, with_cop.clone()), Some((30, with_cop)));
}

#[test]
fn drawn_sets_are_held_to_the_limits() {
    let roles = vec![RoleGen::COP, RoleGen::DOCTOR, RoleGen::TOWN];
    assert!(!fits_limits(&roles, 1, 0, 0));
    assert!(fits_limits(&roles, 2, 0, 0));
    assert!(fits_limits(&vec![], 0, 0, 0));
}
