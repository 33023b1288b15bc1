//! The "spice" draw: a number of power roles picked from one weighted
//! list, the set closest to balanced kept, the rest filled with plain town
//! and mafia.
use vstd::prelude::*;

use super::{
    can_misfit, create_spice_list_of, dealt_spice, drawn_from, gen_role_set_of, get_roles_spice_of, get_score_of,
    score_fits, set_score, spice_list, team_sizes, within, Flavor, RoleGen, RoleSet, balance_fits, fits_i32, spice_fits, fitting_draws, nearest, spice_core, total, informed_values,
};

verus! {

/// The balance of `n_town` town, `n_mafia` mafia and `n_rogue` rogues:
/// ten per town player beyond twice the mafia and one, and eight less when
/// the number of players is even.
pub open spec fn teams_score(n_town: int, n_mafia: int, n_rogue: int) -> int {
    (n_town - 1 - n_mafia * 2) * 10 + (-8 + ((n_town + n_mafia + n_rogue) % 2) * 8)
}

/// The balance of the teams.
pub fn get_teams_score(n_town: usize, n_mafia: usize, n_rogue: usize) -> (s: i32)
    requires
        n_town + n_mafia + n_rogue <= usize::MAX,
        balance_fits(n_town as int, n_mafia as int),
        fits_i32(teams_score(n_town as int, n_mafia as int, n_rogue as int)),
    ensures
        s == teams_score(n_town as int, n_mafia as int, n_rogue as int),
{
    let parity = ((n_town + n_mafia + n_rogue) % 2) as i32;
    let n = -8 + parity * 8;
    (n_town as i32 - 1 - n_mafia as i32 * 2) * 10 + n
}

/// The balance of `n_players` with `n_mafia` mafia: ten for each town kill
/// the mafia needs to win, less fifteen for each mafioso the town must find.
pub open spec fn town_v_maf_score(n_players: int, n_mafia: int) -> int {
    ((n_players - n_mafia) / 2) * 10 - n_mafia * 15
}

/// The balance of `n_players` with `n_mafia` mafia is computed in `i32`
/// without overflow: both counts convert exactly, and each product and the
/// difference fit.
pub open spec fn town_v_maf_fits(n_players: int, n_mafia: int) -> bool {
    &&& n_mafia <= i32::MAX
    &&& (n_players - n_mafia) / 2 <= i32::MAX
    &&& fits_i32(((n_players - n_mafia) / 2) * 10)
    &&& fits_i32(n_mafia * 15)
    &&& fits_i32(town_v_maf_score(n_players, n_mafia))
}

/// The balance of `n_players` with `n_mafia` mafia.
pub fn get_town_v_maf_score(n_players: usize, n_mafia: usize) -> (s: i32)
    requires
        n_mafia <= n_players,
        town_v_maf_fits(n_players as int, n_mafia as int),
    ensures
        s == town_v_maf_score(n_players as int, n_mafia as int),
{
    let kill_maf_needed = n_mafia as i32;
    let kill_town_needed = ((n_players - n_mafia) / 2) as i32;
    let kill_maf_difficulty: i32 = 15;
    let kill_town_difficulty: i32 = 10;
    kill_town_needed * kill_town_difficulty - kill_maf_needed * kill_maf_difficulty
}

/// The power roles of the set to draw from, with the spice weights.
pub fn create_spice_list(roleset: &RoleSet) -> (l: Vec<RoleGen>)
    requires
        roleset.wf(),
    ensures
        l@ == spice_list(Flavor::Spice, roleset.roles@),
{
    create_spice_list_of(Flavor::Spice, roleset)
}

/// The score of a set with the spice weights.
pub fn get_score(roles: &Vec<RoleGen>) -> (v: i32)
    requires
        score_fits(roles@),
        forall|k: int|
            0 <= k <= roles@.len() ==> #[trigger] fits_i32(
                total(roles@.take(k), informed_values(Flavor::Spice, roles@)),
            ),
    ensures
        v == set_score(Flavor::Spice, roles@),
{
    get_score_of(Flavor::Spice, roles)
}

/// The score of the roles themselves, which this draw leaves at zero.
pub fn get_roles_score(roles: &Vec<RoleGen>) -> (v: i32)
    ensures
        v == 0,
{
    0
}

/// Draws `n` power roles from the spice list; gives up after 1000 draws
/// that do not fit.
pub fn gen_role_set(max_town: usize, max_mafia: usize, max_rogue: usize, n: usize, roleset: &RoleSet) -> (r: Result<
    Vec<RoleGen>,
    (),
>)
    requires
        roleset.wf(),
    ensures
        r matches Ok(s) ==> drawn_from(spice_list(Flavor::Spice, roleset.roles@), n as int, s@) && within(
            s@,
            max_town as int,
            max_mafia as int,
            max_rogue as int,
        ),
        r is Err ==> can_misfit(
            spice_list(Flavor::Spice, roleset.roles@),
            n as int,
            max_town as int,
            max_mafia as int,
            max_rogue as int,
        ),
{
    gen_role_set_of(Flavor::Spice, 1000, max_town, max_mafia, max_rogue, n, roleset)
}

/// The spice draw with the spice weights and the town-versus-mafia balance.
pub fn get_roles_spice(n: usize, n_mafia: usize, n_rogue: usize, n_spice: usize, roleset: &RoleSet) -> (r: Result<
    (i32, Vec<RoleGen>),
    (),
>)
    requires
        roleset.wf(),
        n_mafia + n_rogue <= n,
        n_spice <= n,
        spice_fits(Flavor::Spice, roleset.roles@, n as int, n_mafia as int, n_rogue as int, n_spice as int),
    ensures
        r matches Ok((score, roles)) ==> dealt_spice(
            Flavor::Spice,
            roleset.roles@,
            n as int,
            n_mafia as int,
            n_rogue as int,
            n_spice as int,
            score as int,
            roles@,
        ),
        r matches Ok((score, roles)) ==> exists|sets: Seq<Seq<RoleGen>>|
            #[trigger] fitting_draws(
                Flavor::Spice,
                roleset.roles@,
                n as int,
                n_mafia as int,
                n_rogue as int,
                n_spice as int,
                sets,
            ) && spice_core(
                Flavor::Spice,
                roleset.roles@,
                n as int,
                n_mafia as int,
                n_rogue as int,
                n_spice as int,
                score as int,
                roles@,
                nearest(Flavor::Spice, n as int, n_mafia as int, n_rogue as int, sets),
            ),
        r is Err ==> can_misfit(
            spice_list(Flavor::Spice, roleset.roles@),
            n_spice as int,
            team_sizes(n as int, n_mafia as int, n_rogue as int).0,
            n_mafia as int,
            team_sizes(n as int, n_mafia as int, n_rogue as int).1,
        ),
{
    get_roles_spice_of(Flavor::Spice, 1000, n, n_mafia, n_rogue, n_spice, roleset)
}

} // verus!
