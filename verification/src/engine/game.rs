use vstd::prelude::*;

use super::comm::{Comm, Command, CommandKind, Event};
use super::phase::{
    announces, cleared, dawn_events, dawn_kill, dawn_ready_parts, former_field, is_fresh_day,
    is_fresh_night, night_in_range, phase_kind, players_at, same_phase, scheme_after_target,
    standing_ballot, stripped_list, target_for, targets_retracted, targets_set, vote_threshold,
    voters_for, votes_in_range, votes_without, DayResolution, NightResolution, Phase, PhaseKind,
    Target,
};
use super::player::{
    choice_in_range, choice_to_player, copy_vec, is_targeting, Choice, Pidx, Player, Role, Team,
    Winner,
};

verus! {

/// Why a command was refused.
#[derive(Debug)]
pub enum Error {
    InvalidPhase { expected: PhaseKind, found: Phase },
    InvalidCommand { command: CommandKind, phase: PhaseKind },
    PlayerNotFound { pid: u64 },
    InvalidRole { role: Role, command: CommandKind },
}

#[derive(Debug, Clone, Copy, PartialEq, Eq, Hash, Default, Structural)]
pub enum ChargeStatus {
    #[default]
    Alive,
    Dead,
}

#[derive(Debug, Clone, Copy, PartialEq, Eq, Hash, Default, Structural)]
pub enum IdiotStatus {
    #[default]
    Unelected,
    Elected,
}

/// A rogue's private win condition: keep the charge alive, see it dead,
/// or get elected.
#[derive(Debug, Clone, Copy, PartialEq, Eq, Hash, Structural)]
pub enum Contract {
    Protect { holder: u64, charge: u64, status: ChargeStatus },
    Assassinate { holder: u64, charge: u64, status: ChargeStatus },
    Elect { holder: u64, status: IdiotStatus },
}

#[derive(Debug, Clone, Copy, PartialEq, Eq, Structural)]
pub enum ContractResult {
    Win { holder: u64 },
    Loss { holder: u64 },
}

/// Whether a raw id belongs to a player in the list.
#[verifier::opaque]
pub open spec fn has_raw(players: Seq<Player>, raw: u64) -> bool {
    exists|i: int| 0 <= i < players.len() && #[trigger] players[i].raw_pid == raw
}

/// The first index holding a raw id, or -1.
#[verifier::opaque]
pub open spec fn raw_index(players: Seq<Player>, raw: u64) -> int {
    if exists|i: int|
        0 <= i < players.len() && #[trigger] players[i].raw_pid == raw && forall|j: int|
            0 <= j < i ==> #[trigger] players[j].raw_pid != raw {
        choose|i: int|
            0 <= i < players.len() && players[i].raw_pid == raw && forall|j: int|
                0 <= j < i ==> #[trigger] players[j].raw_pid != raw
    } else {
        -1
    }
}

/// The contract a guard or agent turns into when the charge dies:
/// a protector now hunts the new charge, an assassin now protects it.
pub open spec fn refocused(c: Contract, charge: u64) -> Contract {
    match c {
        Contract::Assassinate { holder, .. } => Contract::Protect {
            holder,
            charge,
            status: ChargeStatus::Alive,
        },
        Contract::Protect { holder, .. } => Contract::Assassinate {
            holder,
            charge,
            status: ChargeStatus::Alive,
        },
        Contract::Elect { .. } => c,
    }
}

/// The outcome of a contract at the end of the game.
pub open spec fn contract_outcome(c: Contract) -> ContractResult {
    match c {
        Contract::Assassinate { holder, status, .. } => if status == ChargeStatus::Dead {
            ContractResult::Win { holder }
        } else {
            ContractResult::Loss { holder }
        },
        Contract::Protect { holder, status, .. } => if status == ChargeStatus::Alive {
            ContractResult::Win { holder }
        } else {
            ContractResult::Loss { holder }
        },
        Contract::Elect { holder, status } => if status == IdiotStatus::Elected {
            ContractResult::Win { holder }
        } else {
            ContractResult::Loss { holder }
        },
    }
}

/// What a contract becomes when `died` is eliminated and `proxy` was the
/// one responsible, given the players still alive.
pub open spec fn contract_after_death(c: Contract, players: Seq<Player>, died: u64, proxy: u64) -> Contract {
    match c {
        Contract::Assassinate { holder, charge, status } | Contract::Protect { holder, charge, status } => {
            if charge == died {
                if has_raw(players, holder) {
                    refocused(c, if has_raw(players, proxy) { proxy } else { holder })
                } else {
                    match c {
                        Contract::Assassinate { holder, charge, .. } => Contract::Assassinate {
                            holder,
                            charge,
                            status: ChargeStatus::Dead,
                        },
                        Contract::Protect { holder, charge, .. } => Contract::Protect {
                            holder,
                            charge,
                            status: ChargeStatus::Dead,
                        },
                        Contract::Elect { .. } => c,
                    }
                }
            } else {
                c
            }
        },
        Contract::Elect { .. } => c,
    }
}

/// Whether the death makes the contract refocus (and so be announced).
pub open spec fn refocuses(c: Contract, players: Seq<Player>, died: u64) -> bool {
    match c {
        Contract::Assassinate { holder, charge, .. } | Contract::Protect { holder, charge, .. } => charge
            == died && has_raw(players, holder),
        Contract::Elect { .. } => false,
    }
}

/// Position of the player with the given raw id.
pub fn check(players: &Vec<Player>, raw_pid: u64) -> (r: Option<Pidx>)
    ensures
        r is Some <==> has_raw(players@, raw_pid),
        r matches Some(i) ==> i == raw_index(players@, raw_pid) && i < players.len()
            && players@[i as int].raw_pid == raw_pid,
{
    reveal(has_raw);
    reveal(raw_index);
    let mut i: usize = 0;
    while i < players.len()
        invariant
            i <= players.len(),
            forall|j: int| 0 <= j < i ==> #[trigger] players@[j].raw_pid != raw_pid,
        decreases players.len() - i,
    {
        if players[i].raw_pid == raw_pid {
            reveal(has_raw);
            reveal(raw_index);
            assert(has_raw(players@, raw_pid));
            let ghost k = raw_index(players@, raw_pid);
            assert(k == i as int) by {
                if k < i {
                } else if k > i {
                }
            }
            return Some(i);
        }
        i = i + 1;
    }
    None
}

impl Contract {
    pub fn to_refocused(&self, charge: u64) -> (c: Self)
        requires
            !(*self is Elect),
        ensures
            c == refocused(*self, charge),
    {
        match self {
            Contract::Assassinate { holder, .. } => Contract::Protect {
                holder: *holder,
                charge,
                status: ChargeStatus::Alive,
            },
            Contract::Protect { holder, .. } => Contract::Assassinate {
                holder: *holder,
                charge,
                status: ChargeStatus::Alive,
            },
            Contract::Elect { .. } => *self,
        }
    }

    pub fn check_win(&self) -> (r: ContractResult)
        ensures
            r == contract_outcome(*self),
    {
        match self {
            Contract::Assassinate { holder, status, .. } => if *status == ChargeStatus::Dead {
                ContractResult::Win { holder: *holder }
            } else {
                ContractResult::Loss { holder: *holder }
            },
            Contract::Protect { holder, status, .. } => if *status == ChargeStatus::Alive {
                ContractResult::Win { holder: *holder }
            } else {
                ContractResult::Loss { holder: *holder }
            },
            Contract::Elect { holder, status } => if *status == IdiotStatus::Elected {
                ContractResult::Win { holder: *holder }
            } else {
                ContractResult::Loss { holder: *holder }
            },
        }
    }

    /// Updates the contract for the death of `died`, for which `proxy` was
    /// responsible; a refocus is announced.
    pub fn refocus(&mut self, players: &Vec<Player>, died: u64, proxy: u64, comm: &mut Comm)
        ensures
            *final(self) == contract_after_death(*old(self), players@, died, proxy),
            final(comm).save == old(comm).save,
            final(comm).events@ == if refocuses(*old(self), players@, died) {
                old(comm).events@.push(Event::Refocus { new_contract: *final(self) })
            } else {
                old(comm).events@
            },
    {
        match *self {
            Contract::Assassinate { holder, charge, .. } | Contract::Protect { holder, charge, .. } => {
                if charge == died {
                    if check(players, holder).is_some() {
                        let new_charge = if check(players, proxy).is_some() {
                            proxy
                        } else {
                            holder
                        };
                        *self = self.to_refocused(new_charge);
                        comm.tx(Event::Refocus { new_contract: *self });
                    } else {
                        *self = match *self {
                            Contract::Assassinate { holder, charge, .. } => Contract::Assassinate {
                                holder,
                                charge,
                                status: ChargeStatus::Dead,
                            },
                            Contract::Protect { holder, charge, .. } => Contract::Protect {
                                holder,
                                charge,
                                status: ChargeStatus::Dead,
                            },
                            Contract::Elect { .. } => *self,
                        };
                    }
                }
            },
            Contract::Elect { .. } => {},
        }
    }
}

} // verus!

verus! {

/// How many players are on the mafia team.
pub open spec fn count_mafia(players: Seq<Player>) -> nat
    decreases players.len(),
{
    if players.len() == 0 {
        0
    } else {
        count_mafia(players.drop_last()) + if super::player::role_team(players.last().role) == Team::Mafia {
            1nat
        } else {
            0nat
        }
    }
}

/// The winning team, if the game is decided: town once no mafia is left,
/// mafia once it holds more than half of the others.
pub open spec fn team_winner(players: Seq<Player>) -> Option<Winner> {
    let m = count_mafia(players);
    if m == 0 {
        Some(Winner::Team(Team::Town))
    } else if m > (players.len() - 1) / 2 {
        Some(Winner::Team(Team::Mafia))
    } else {
        None
    }
}

/// How often `i` is listed in `dead`.
pub open spec fn times_listed(dead: Seq<Pidx>, i: Pidx) -> nat
    decreases dead.len(),
{
    if dead.len() == 0 {
        0
    } else {
        times_listed(dead.drop_last(), i) + if dead.last() == i {
            1nat
        } else {
            0nat
        }
    }
}

/// The listed indices below `k`, largest first, each as often as it is
/// listed: the list sorted, read from its end.
pub open spec fn elim_order(k: nat, dead: Seq<Pidx>) -> Seq<Pidx>
    decreases k,
{
    if k == 0 {
        Seq::empty()
    } else {
        let i = (k - 1) as nat;
        Seq::new(times_listed(dead, i as Pidx), |m: int| i as Pidx) + elim_order(i, dead)
    }
}

/// Each index of `order` names a player of what is left when its turn
/// comes: a list of `n` loses one player per turn.
pub open spec fn in_turn(order: Seq<Pidx>, n: int) -> bool {
    forall|i: int| 0 <= i < order.len() ==> #[trigger] order[i] + i < n
}

/// The players can be removed as listed: every listed index names a
/// player, and in the order of removal each still names one when its turn
/// comes (an index listed twice names, the second time, the player that
/// moved into its place).
pub open spec fn removable(dead: Seq<Pidx>, n: nat) -> bool {
    &&& forall|i: int| 0 <= i < dead.len() ==> #[trigger] dead[i] < n
    &&& in_turn(elim_order(n, dead), n as int)
}

/// The players removed, one per index of `order`, each from what is left.
pub open spec fn removed_in_turn(players: Seq<Player>, order: Seq<Pidx>) -> Seq<Player>
    decreases order.len(),
{
    if order.len() == 0 {
        Seq::empty()
    } else {
        seq![players[order[0] as int]] + removed_in_turn(players.remove(order[0] as int), order.drop_first())
    }
}

/// What is left after removing one player per index of `order`.
pub open spec fn left_in_turn(players: Seq<Player>, order: Seq<Pidx>) -> Seq<Player>
    decreases order.len(),
{
    if order.len() == 0 {
        players
    } else {
        left_in_turn(players.remove(order[0] as int), order.drop_first())
    }
}

/// The players left once those listed in `dead` are removed, largest index
/// first.
pub open spec fn survivors(players: Seq<Player>, dead: Seq<Pidx>) -> Seq<Player> {
    left_in_turn(players, elim_order(players.len(), dead))
}

/// The players removed, in the order of removal.
pub open spec fn eliminated_players(players: Seq<Player>, dead: Seq<Pidx>) -> Seq<Player> {
    removed_in_turn(players, elim_order(players.len(), dead))
}

/// The elimination announcements, in the order of removal.
pub open spec fn elim_events(players: Seq<Player>, dead: Seq<Pidx>) -> Seq<Event> {
    eliminated_players(players, dead).map_values(|p: Player| Event::Eliminate { player: p })
}

/// Whether `i` is in the list.
pub fn contains_index(v: &[Pidx], i: Pidx) -> (b: bool)
    ensures
        b == v@.contains(i),
{
    let mut k: usize = 0;
    while k < v.len()
        invariant
            k <= v.len(),
            forall|m: int| 0 <= m < k ==> #[trigger] v@[m] != i,
        decreases v.len() - k,
    {
        if v[k] == i {
            return true;
        }
        k = k + 1;
    }
    false
}

/// How many players are on the mafia team.
pub fn count_mafia_players(players: &Vec<Player>) -> (c: usize)
    ensures
        c == count_mafia(players@),
{
    let mut c: usize = 0;
    let mut i: usize = 0;
    while i < players.len()
        invariant
            i <= players.len(),
            c == count_mafia(players@.take(i as int)),
            c <= i,
        decreases players.len() - i,
    {
        assert(players@.take(i + 1).drop_last() =~= players@.take(i as int));
        if players[i].role.team() == Team::Mafia {
            c = c + 1;
        }
        i = i + 1;
    }
    assert(players@.take(players.len() as int) =~= players@);
    c
}

/// The winning team, if the game is decided.
pub fn check_team_numbers(players: &Vec<Player>) -> (w: Option<Winner>)
    ensures
        w == team_winner(players@),
{
    let n_players = players.len();
    let n_mafia = count_mafia_players(players);
    if n_mafia == 0 {
        Some(Winner::Team(Team::Town))
    } else if n_mafia > (n_players - 1) / 2 {
        Some(Winner::Team(Team::Mafia))
    } else {
        None
    }
}

proof fn lemma_count_mafia_bound(players: Seq<Player>)
    ensures
        count_mafia(players) <= players.len(),
    decreases players.len(),
{
    if players.len() > 0 {
        lemma_count_mafia_bound(players.drop_last());
    }
}

/// How often `i` is listed.
fn times_listed_of(v: &[Pidx], i: Pidx) -> (c: usize)
    ensures
        c == times_listed(v@, i),
{
    let mut c: usize = 0;
    let mut k: usize = 0;
    assert(v@.take(0) =~= Seq::<Pidx>::empty());
    while k < v.len()
        invariant
            k <= v.len(),
            c == times_listed(v@.take(k as int), i),
            c <= k,
        decreases v.len() - k,
    {
        assert(v@.take(k + 1).drop_last() =~= v@.take(k as int));
        if v[k] == i {
            c = c + 1;
        }
        k = k + 1;
    }
    assert(v@.take(k as int) =~= v@);
    c
}

/// The listed indices below `n`, largest first, each as often as listed.
pub fn elim_order_of(n: usize, to_die: &[Pidx]) -> (r: Vec<Pidx>)
    ensures
        r@ == elim_order(n as nat, to_die@),
{
    let mut r: Vec<Pidx> = Vec::new();
    let mut k: usize = n;
    while k > 0
        invariant
            k <= n,
            r@ + elim_order(k as nat, to_die@) == elim_order(n as nat, to_die@),
        decreases k,
    {
        let i = k - 1;
        let c = times_listed_of(to_die, i);
        let ghost before = r@;
        let mut m: usize = 0;
        while m < c
            invariant
                m <= c,
                r@ == before + Seq::new(m as nat, |x: int| i),
            decreases c - m,
        {
            r.push(i);
            m = m + 1;
            assert(r@ =~= before + Seq::new(m as nat, |x: int| i));
        }
        assert(elim_order(k as nat, to_die@) =~= Seq::new(c as nat, |x: int| i) + elim_order(i as nat, to_die@));
        assert(r@ + elim_order(i as nat, to_die@) =~= before + elim_order(k as nat, to_die@));
        k = i;
    }
    assert(r@ + Seq::<Pidx>::empty() =~= r@);
    r
}

/// Removes one player per index of `order`, each from what is left,
/// announcing each; gives the raw ids of the removed, in order.
pub fn remove_in_turn(players: &mut Vec<Player>, order: &Vec<Pidx>, comm: &mut Comm) -> (ids: Vec<u64>)
    requires
        in_turn(order@, old(players)@.len() as int),
    ensures
        final(players)@ == left_in_turn(old(players)@, order@),
        final(comm).events@ == old(comm).events@ + removed_in_turn(old(players)@, order@).map_values(
            |p: Player| Event::Eliminate { player: p },
        ),
        final(comm).save == old(comm).save,
        ids@ == removed_in_turn(old(players)@, order@).map_values(|p: Player| p.raw_pid),
{
    let mut ids: Vec<u64> = Vec::new();
    let mut k: usize = 0;
    let ghost all = old(players)@;
    let ghost ev0 = old(comm).events@;
    assert(order@.skip(0) =~= order@);
    while k < order.len()
        invariant
            k <= order@.len(),
            in_turn(order@, all.len() as int),
            players@.len() == all.len() - k,
            left_in_turn(all, order@) == left_in_turn(players@, order@.skip(k as int)),
            ev0 + removed_in_turn(all, order@).map_values(|p: Player| Event::Eliminate { player: p })
                == comm.events@ + removed_in_turn(players@, order@.skip(k as int)).map_values(
                |p: Player| Event::Eliminate { player: p },
            ),
            removed_in_turn(all, order@).map_values(|p: Player| p.raw_pid) == ids@ + removed_in_turn(
                players@,
                order@.skip(k as int),
            ).map_values(|p: Player| p.raw_pid),
            comm.save == old(comm).save,
        decreases order@.len() - k,
    {
        let p = order[k];
        assert(order@[k as int] + k < all.len());
        let ghost cur = players@;
        let ghost rest = order@.skip(k as int);
        assert(rest[0] == p);
        assert(rest.drop_first() =~= order@.skip(k + 1));
        let player = players.remove(p);
        ids.push(player.raw_pid);
        comm.tx(Event::Eliminate { player });
        let ghost tail = removed_in_turn(players@, order@.skip(k + 1));
        assert(removed_in_turn(cur, rest) == seq![player] + tail);
        assert(removed_in_turn(cur, rest).map_values(|q: Player| Event::Eliminate { player: q })
            =~= seq![Event::Eliminate { player }] + tail.map_values(|q: Player| Event::Eliminate { player: q }));
        assert(removed_in_turn(cur, rest).map_values(|q: Player| q.raw_pid) =~= seq![player.raw_pid]
            + tail.map_values(|q: Player| q.raw_pid));
        k = k + 1;
    }
    assert(order@.skip(k as int) =~= Seq::<Pidx>::empty());
    ids
}

} // verus!

verus! {

/// Every contract updated for one death.
pub open spec fn contracts_after_one(cs: Seq<Contract>, players: Seq<Player>, died: u64, proxy: u64) -> Seq<Contract> {
    cs.map_values(|c: Contract| contract_after_death(c, players, died, proxy))
}

/// The refocus announcements for one death, in contract order.
pub open spec fn refocus_events_one(cs: Seq<Contract>, players: Seq<Player>, died: u64, proxy: u64) -> Seq<Event>
    decreases cs.len(),
{
    if cs.len() == 0 {
        Seq::empty()
    } else {
        let rest = refocus_events_one(cs.drop_last(), players, died, proxy);
        if refocuses(cs.last(), players, died) {
            rest.push(Event::Refocus { new_contract: contract_after_death(cs.last(), players, died, proxy) })
        } else {
            rest
        }
    }
}

/// Every contract updated for each death in turn.
pub open spec fn contracts_after(cs: Seq<Contract>, players: Seq<Player>, died: Seq<u64>, proxy: u64) -> Seq<Contract>
    decreases died.len(),
{
    if died.len() == 0 {
        cs
    } else {
        contracts_after_one(contracts_after(cs, players, died.drop_last(), proxy), players, died.last(), proxy)
    }
}

/// The refocus announcements for each death in turn.
pub open spec fn refocus_events(cs: Seq<Contract>, players: Seq<Player>, died: Seq<u64>, proxy: u64) -> Seq<Event>
    decreases died.len(),
{
    if died.len() == 0 {
        Seq::empty()
    } else {
        refocus_events(cs, players, died.drop_last(), proxy) + refocus_events_one(
            contracts_after(cs, players, died.drop_last(), proxy),
            players,
            died.last(),
            proxy,
        )
    }
}

/// The raw ids of the eliminated, in elimination order.
pub open spec fn elim_ids(players: Seq<Player>, dead: Seq<Pidx>) -> Seq<u64> {
    eliminated_players(players, dead).map_values(|p: Player| p.raw_pid)
}

/// The idiots' contracts with the elected one's marked as won.
pub open spec fn elect_marked(cs: Seq<Contract>, id: u64) -> Seq<Contract> {
    cs.map_values(
        |c: Contract| match c {
            Contract::Elect { holder, .. } => if holder == id {
                Contract::Elect { holder, status: IdiotStatus::Elected }
            } else {
                c
            },
            _ => c,
        },
    )
}

/// The results of all contracts.
pub open spec fn contract_results(cs: Seq<Contract>) -> Seq<ContractResult> {
    cs.map_values(|c: Contract| contract_outcome(c))
}

/// A game: the players still alive, the phase, the rogues' contracts and
/// the outbox of announcements.
#[derive(Debug)]
pub struct Game {
    pub players: Vec<Player>,
    pub phase: Phase,
    pub contracts: Vec<Contract>,
    pub comm: Comm,
}

proof fn lemma_times_listed_single(i: Pidx, x: Pidx)
    ensures
        times_listed(seq![i], x) == if i == x { 1nat } else { 0nat },
{
    assert(seq![i].drop_last() =~= Seq::<Pidx>::empty());
    assert(times_listed(Seq::<Pidx>::empty(), x) == 0);
    assert(seq![i].last() == i);
}

proof fn lemma_elim_none(k: nat, i: Pidx)
    requires
        k <= i,
    ensures
        elim_order(k, seq![i]) == Seq::<Pidx>::empty(),
    decreases k,
{
    if k > 0 {
        lemma_elim_none((k - 1) as nat, i);
        lemma_times_listed_single(i, (k - 1) as Pidx);
        assert(elim_order(k, seq![i]) =~= Seq::<Pidx>::empty());
    }
}

/// A single death: the one player is removed, and the rest keep their order.
proof fn lemma_elim_single(players: Seq<Player>, i: Pidx)
    requires
        i < players.len(),
        players.len() <= usize::MAX,
    ensures
        removable(seq![i], players.len()),
        eliminated_players(players, seq![i]) == seq![players[i as int]],
        survivors(players, seq![i]) == players.remove(i as int),
{
    lemma_elim_order_single(players.len(), i);
    let order = seq![i];
    assert(order.drop_first() =~= Seq::<Pidx>::empty());
    assert(order[0] == i);
    assert(removed_in_turn(players.remove(i as int), Seq::<Pidx>::empty()) == Seq::<Player>::empty());
    assert(left_in_turn(players.remove(i as int), Seq::<Pidx>::empty()) == players.remove(i as int));
    assert(removed_in_turn(players, order) =~= seq![players[i as int]]);
    assert(left_in_turn(players, order) =~= players.remove(i as int));
}

proof fn lemma_elim_order_single(n: nat, i: Pidx)
    requires
        i < n,
        n <= usize::MAX,
    ensures
        elim_order(n, seq![i]) == seq![i],
    decreases n,
{
    lemma_times_listed_single(i, (n - 1) as Pidx);
    if n == i + 1 {
        lemma_elim_none(i as nat, i);
        assert(elim_order(n, seq![i]) =~= seq![i]);
    } else {
        lemma_elim_order_single((n - 1) as nat, i);
        assert(elim_order(n, seq![i]) =~= seq![i]);
    }
}

/// How many listed indices are below `k`.
pub open spec fn listed_below(dead: Seq<Pidx>, k: nat) -> nat
    decreases dead.len(),
{
    if dead.len() == 0 {
        0
    } else {
        listed_below(dead.drop_last(), k) + if dead.last() < k {
            1nat
        } else {
            0nat
        }
    }
}

proof fn lemma_below_step(dead: Seq<Pidx>, k: nat)
    requires
        0 < k <= usize::MAX + 1,
    ensures
        listed_below(dead, k) == listed_below(dead, (k - 1) as nat) + times_listed(dead, (k - 1) as Pidx),
    decreases dead.len(),
{
    if dead.len() > 0 {
        lemma_below_step(dead.drop_last(), k);
    }
}

proof fn lemma_order_len(k: nat, dead: Seq<Pidx>)
    requires
        k <= usize::MAX + 1,
    ensures
        elim_order(k, dead).len() == listed_below(dead, k),
    decreases k,
{
    if k == 0 {
        lemma_below_zero(dead);
    } else {
        lemma_order_len((k - 1) as nat, dead);
        lemma_below_step(dead, k);
    }
}

proof fn lemma_below_zero(dead: Seq<Pidx>)
    ensures
        listed_below(dead, 0) == 0,
    decreases dead.len(),
{
    if dead.len() > 0 {
        lemma_below_zero(dead.drop_last());
    }
}

proof fn lemma_below_all(dead: Seq<Pidx>, n: nat)
    requires
        forall|i: int| 0 <= i < dead.len() ==> #[trigger] dead[i] < n,
    ensures
        listed_below(dead, n) == dead.len(),
    decreases dead.len(),
{
    if dead.len() > 0 {
        let d = dead.drop_last();
        assert forall|i: int| 0 <= i < d.len() implies #[trigger] d[i] < n by {
            assert(d[i] == dead[i]);
        }
        lemma_below_all(d, n);
        assert(dead.last() == dead[dead.len() - 1]);
    }
}

proof fn lemma_in_turn_len(players: Seq<Player>, order: Seq<Pidx>)
    requires
        in_turn(order, players.len() as int),
    ensures
        left_in_turn(players, order).len() + order.len() == players.len(),
        removed_in_turn(players, order).len() == order.len(),
    decreases order.len(),
{
    if order.len() > 0 {
        let rest = order.drop_first();
        assert(order[0] + 0 < players.len());
        assert forall|i: int| 0 <= i < rest.len() implies #[trigger] rest[i] + i < players.len() - 1 by {
            assert(rest[i] == order[i + 1]);
            assert(order[i + 1] + (i + 1) < players.len());
        }
        lemma_in_turn_len(players.remove(order[0] as int), rest);
    }
}

/// Every listed index removes one player, an index listed twice removing
/// two: as many players are eliminated as indices are listed, and the rest
/// survive.
pub proof fn law_each_listed_index_removes_one(players: Seq<Player>, dead: Seq<Pidx>)
    requires
        players.len() <= usize::MAX,
        removable(dead, players.len()),
    ensures
        eliminated_players(players, dead).len() == dead.len(),
        survivors(players, dead).len() + dead.len() == players.len(),
{
    lemma_order_len(players.len(), dead);
    lemma_below_all(dead, players.len());
    lemma_in_turn_len(players, elim_order(players.len(), dead));
}

impl Game {
    /// Updates every contract for the death of `died`, for which `proxy`
    /// was responsible.
    pub fn check_contracts(&mut self, died: u64, proxy: u64)
        ensures
            final(self).players == old(self).players,
            final(self).phase == old(self).phase,
            final(self).contracts@ == contracts_after_one(old(self).contracts@, old(self).players@, died, proxy),
            final(self).comm.events@ == old(self).comm.events@ + refocus_events_one(
                old(self).contracts@,
                old(self).players@,
                died,
                proxy,
            ),
            final(self).comm.save == old(self).comm.save,
    {
        let ghost cs = self.contracts@;
        let ghost ev = self.comm.events@;
        let mut i: usize = 0;
        while i < self.contracts.len()
            invariant
                i <= self.contracts.len(),
                self.contracts.len() == cs.len(),
                forall|k: int| i <= k < cs.len() ==> #[trigger] self.contracts@[k] == cs[k],
                forall|k: int| 0 <= k < i ==> #[trigger] self.contracts@[k] == contract_after_death(cs[k], self.players@, died, proxy),
                self.comm.events@ == ev + refocus_events_one(cs.take(i as int), self.players@, died, proxy),
                self.players == old(self).players,
                self.phase == old(self).phase,
                self.comm.save == old(self).comm.save,
            decreases self.contracts.len() - i,
        {
            assert(cs.take(i + 1).drop_last() =~= cs.take(i as int));
            assert(cs.take(i + 1).last() == cs[i as int]);
            let mut c = self.contracts[i];
            c.refocus(&self.players, died, proxy, &mut self.comm);
            self.contracts.set(i, c);
            i = i + 1;
            assert(self.comm.events@ =~= ev + refocus_events_one(cs.take(i as int), self.players@, died, proxy));
        }
        assert(cs.take(cs.len() as int) =~= cs);
        assert(self.contracts@ =~= contracts_after_one(cs, self.players@, died, proxy));
    }

    /// Marks the elected idiot's contract as won.
    pub fn check_elect_contract(&mut self, elected: Pidx)
        requires
            elected < old(self).players.len(),
        ensures
            final(self).players == old(self).players,
            final(self).phase == old(self).phase,
            final(self).comm == old(self).comm,
            final(self).contracts@ == elect_marked(old(self).contracts@, old(self).players@[elected as int].raw_pid),
    {
        let elected_id = self.players[elected].raw_pid;
        let ghost cs = self.contracts@;
        let mut i: usize = 0;
        while i < self.contracts.len()
            invariant
                i <= self.contracts.len(),
                self.contracts.len() == cs.len(),
                forall|k: int| i <= k < cs.len() ==> #[trigger] self.contracts@[k] == cs[k],
                forall|k: int| 0 <= k < i ==> #[trigger] self.contracts@[k] == elect_marked(cs, elected_id)[k],
                self.players == old(self).players,
                self.phase == old(self).phase,
                self.comm == old(self).comm,
            decreases self.contracts.len() - i,
        {
            if let Contract::Elect { holder, .. } = self.contracts[i] {
                if holder == elected_id {
                    self.contracts.set(i, Contract::Elect { holder, status: IdiotStatus::Elected });
                }
            }
            i = i + 1;
        }
        assert(self.contracts@ =~= elect_marked(cs, elected_id));
    }
}

} // verus!

verus! {

/// The result of every contract, in order.
pub fn results_of(contracts: &Vec<Contract>) -> (r: Vec<ContractResult>)
    ensures
        r@ == contract_results(contracts@),
{
    let mut r: Vec<ContractResult> = Vec::new();
    let mut i: usize = 0;
    while i < contracts.len()
        invariant
            i <= contracts.len(),
            r@ == contract_results(contracts@.take(i as int)),
        decreases contracts.len() - i,
    {
        r.push(contracts[i].check_win());
        i = i + 1;
        assert(r@ =~= contract_results(contracts@.take(i as int)));
    }
    assert(contracts@.take(contracts.len() as int) =~= contracts@);
    r
}

/// The state of the game after `to_die` are eliminated with `proxy`
/// responsible, given the one before.
pub open spec fn eliminated(old_g: Game, new_g: Game, to_die: Seq<Pidx>, proxy: Pidx, r: Option<Phase>) -> bool {
    let surv = survivors(old_g.players@, to_die);
    let ids = elim_ids(old_g.players@, to_die);
    let proxy_id = old_g.players@[proxy as int].raw_pid;
    &&& new_g.players@ == surv
    &&& cleared(old_g.phase, new_g.phase)
    &&& new_g.contracts@ == contracts_after(old_g.contracts@, surv, ids, proxy_id)
    &&& new_g.comm.events@ == old_g.comm.events@ + elim_events(old_g.players@, to_die) + refocus_events(
        old_g.contracts@,
        surv,
        ids,
        proxy_id,
    )
    &&& new_g.comm.save == old_g.comm.save
    &&& r is None <==> team_winner(surv) is None
    &&& r matches Some(p) ==> p matches Phase::End(w, rs) && Some(w) == team_winner(surv) && rs@
        == contract_results(new_g.contracts@)
}

impl Game {
    /// Removes the given players (announcing each, largest index first),
    /// clears the phase (its indices are stale), updates the contracts of
    /// the guards and agents whose charge died, and reports the end of the
    /// game if it is decided, with every contract's result.
    pub fn eliminate(&mut self, to_die: &[Pidx], proxy: Pidx) -> (r: Option<Phase>)
        requires
            proxy < old(self).players.len(),
            removable(to_die@, old(self).players@.len()),
        ensures
            eliminated(*old(self), *final(self), to_die@, proxy, r),
    {
        let proxy_id = self.players[proxy].raw_pid;
        let order = elim_order_of(self.players.len(), to_die);
        let ids = remove_in_turn(&mut self.players, &order, &mut self.comm);
        self.phase.clear();
        let ghost cs = self.contracts@;
        let ghost ev = self.comm.events@;
        let mut k: usize = 0;
        while k < ids.len()
            invariant
                k <= ids.len(),
                self.contracts@ == contracts_after(cs, self.players@, ids@.take(k as int), proxy_id),
                self.comm.events@ == ev + refocus_events(cs, self.players@, ids@.take(k as int), proxy_id),
                self.players@ == survivors(old(self).players@, to_die@),
                cleared(old(self).phase, self.phase),
                self.comm.save == old(self).comm.save,
            decreases ids.len() - k,
        {
            assert(ids@.take(k + 1).drop_last() =~= ids@.take(k as int));
            assert(ids@.take(k + 1).last() == ids@[k as int]);
            self.check_contracts(ids[k], proxy_id);
            k = k + 1;
            assert(self.comm.events@ =~= ev + refocus_events(cs, self.players@, ids@.take(k as int), proxy_id));
        }
        assert(ids@.take(ids.len() as int) =~= ids@);
        assert(self.comm.events@ =~= old(self).comm.events@ + elim_events(old(self).players@, to_die@)
            + refocus_events(cs, self.players@, ids@, proxy_id));
        match check_team_numbers(&self.players) {
            Some(win) => {
                let results = results_of(&self.contracts);
                Some(Phase::End(win, results))
            },
            None => None,
        }
    }
}

} // verus!

verus! {

/// The index choice for a raw choice.
pub open spec fn choice_index(players: Seq<Player>, c: Choice<u64>) -> Choice<Pidx> {
    match c {
        Choice::Player(p) => Choice::Player(raw_index(players, p) as Pidx),
        Choice::Abstain => Choice::Abstain,
    }
}

/// The raw id a ballot names, if it names a player missing from the game.
pub open spec fn unknown_ballot(players: Seq<Player>, b: Option<Choice<u64>>) -> Option<u64> {
    match b {
        Some(c) => unknown_choice(players, c),
        None => None,
    }
}

/// Whether a raw choice names nobody or a player in the game.
pub open spec fn choice_known(players: Seq<Player>, c: Choice<u64>) -> bool {
    match c {
        Choice::Player(p) => has_raw(players, p),
        Choice::Abstain => true,
    }
}

/// The raw id a choice names, if it names a player missing from the game.
pub open spec fn unknown_choice(players: Seq<Player>, c: Choice<u64>) -> Option<u64> {
    match c {
        Choice::Player(p) => if has_raw(players, p) { None } else { Some(p) },
        Choice::Abstain => None,
    }
}

/// The phase's indices name players of a list of `n`, and its day or
/// night number can still be advanced.
pub open spec fn phase_in_range(p: Phase, n: nat) -> bool {
    match p {
        Phase::Day(d) => votes_in_range(d.votes@, n),
        Phase::Night(nt) => night_in_range(nt, n) && nt.night_no < usize::MAX,
        _ => true,
    }
}

/// The game is unchanged.
pub open spec fn unchanged(a: Game, b: Game) -> bool {
    a == b
}

/// A refused command: the game is unchanged and the error says why.
pub open spec fn refused_phase(old_g: Game, new_g: Game, r: Result<(), Error>, expected: PhaseKind) -> bool {
    &&& unchanged(old_g, new_g)
    &&& r matches Err(Error::InvalidPhase { expected: e, found }) && e == expected && same_phase(found, old_g.phase)
}

/// A refused command naming someone who is not playing.
pub open spec fn refused_player(old_g: Game, new_g: Game, r: Result<(), Error>, raw: u64) -> bool {
    &&& unchanged(old_g, new_g)
    &&& r matches Err(Error::PlayerNotFound { pid }) && pid == raw
}

/// The state after a day ends with `elected` voted out by `hammer`, the
/// electors' announcements already made (`head`).
pub open spec fn after_election(
    old_g: Game,
    new_g: Game,
    head: int,
    elected: Pidx,
    hammer: Pidx,
    day_no: usize,
) -> bool {
    let players = old_g.players@;
    let surv = survivors(players, seq![elected]);
    let ids = seq![players[elected as int].raw_pid];
    let proxy_id = players[hammer as int].raw_pid;
    let cs1 = elect_marked(old_g.contracts@, players[elected as int].raw_pid);
    let tail = elim_events(players, seq![elected]) + refocus_events(cs1, surv, ids, proxy_id);
    &&& new_g.players@ == surv
    &&& new_g.contracts@ == contracts_after(cs1, surv, ids, proxy_id)
    &&& new_g.comm.events@.len() == head + tail.len() + 1
    &&& new_g.comm.events@.subrange(head, head + tail.len()) == tail
    &&& announces(new_g.phase, new_g.comm.events@.last())
    &&& match team_winner(surv) {
        Some(w) => new_g.phase matches Phase::End(w2, rs) && w2 == w && rs@ == contract_results(new_g.contracts@),
        None => is_fresh_night(new_g.phase, day_no as int),
    }
}

/// The state after a day ends with no one voted out.
pub open spec fn after_peace(old_g: Game, new_g: Game, head: int, day_no: usize) -> bool {
    &&& new_g.players == old_g.players
    &&& new_g.contracts == old_g.contracts
    &&& is_fresh_night(new_g.phase, day_no as int)
    &&& new_g.comm.events@.len() == head + 1
    &&& new_g.comm.events@.last() == Event::Night { night_no: day_no }
}

/// The state after a vote that is accepted.
#[verifier::opaque]
pub open spec fn vote_handled(old_g: Game, new_g: Game, voter: Pidx, ballot: Option<Choice<Pidx>>) -> bool {
    let players = old_g.players@;
    let day = old_g.phase->Day_0;
    let base = votes_without(day.votes@, voter);
    let former = former_field(standing_ballot(day.votes@, voter), players);
    let old_ev = old_g.comm.events@;
    let new_ev = new_g.comm.events@;
    &&& new_g.comm.save == old_g.comm.save
    &&& match ballot {
        None => {
            &&& new_g.players == old_g.players
            &&& new_g.contracts == old_g.contracts
            &&& new_g.phase is Day && new_g.phase->Day_0.day_no == day.day_no
            &&& new_g.phase->Day_0.blocked@ == day.blocked@
            &&& new_g.phase->Day_0.votes@ == base
            &&& new_ev == old_ev.push(Event::Retract { voter: players[voter as int], former })
        },
        Some(c) => {
            let votes1 = base.push((voter, c));
            let electors = voters_for(votes1, c);
            let count = electors.len();
            let threshold = vote_threshold(players.len(), c);
            let vote_event = Event::Vote {
                voter: players[voter as int],
                ballot: choice_to_player(c, players),
                former,
                threshold: threshold as usize,
                count: count as usize,
            };
            if count < threshold {
                &&& new_g.players == old_g.players
                &&& new_g.contracts == old_g.contracts
                &&& new_g.phase is Day && new_g.phase->Day_0.day_no == day.day_no
                &&& new_g.phase->Day_0.blocked@ == day.blocked@
                &&& new_g.phase->Day_0.votes@ == votes1
                &&& new_ev == old_ev.push(vote_event)
            } else {
                &&& new_ev.len() > old_ev.len() + 1
                &&& new_ev.take(old_ev.len() + 1int) == old_ev.push(vote_event)
                &&& new_ev[old_ev.len() + 1int] matches Event::Election { electors: e, ballot: eb }
                    && e@ == players_at(electors, players) && eb == choice_to_player(c, players)
                &&& match c {
                    Choice::Player(p) => after_election(old_g, new_g, old_ev.len() + 2int, p, voter, day.day_no),
                    Choice::Abstain => after_peace(old_g, new_g, old_ev.len() + 2int, day.day_no),
                }
            }
        },
    }
}

} // verus!

verus! {

impl Game {
    /// A vote (or, with `None`, a retraction) by the player with raw id `v`.
    pub fn handle_vote(&mut self, v: u64, b: Option<Choice<u64>>) -> (r: Result<(), Error>)
        requires
            phase_in_range(old(self).phase, old(self).players.len() as nat),
        ensures
            vote_command(*old(self), *final(self), v, b, r),

    {
        if !matches!(self.phase, Phase::Day(_)) {
            return Err(Error::InvalidPhase { expected: PhaseKind::Day, found: self.phase.duplicate() });
        }
        let voter = match check(&self.players, v) {
            Some(i) => i,
            None => return Err(Error::PlayerNotFound { pid: v }),
        };
        let ballot = match b {
            Some(Choice::Player(p)) => match check(&self.players, p) {
                Some(i) => Some(Choice::Player(i)),
                None => return Err(Error::PlayerNotFound { pid: p }),
            },
            Some(Choice::Abstain) => Some(Choice::Abstain),
            None => None,
        };
        self.apply_vote(voter, ballot);
        Ok(())
    }

    /// Applies an accepted vote: records it and, if it elects, ends the day.
    pub fn apply_vote(&mut self, voter: Pidx, ballot: Option<Choice<Pidx>>)
        requires
            old(self).phase is Day,
            phase_in_range(old(self).phase, old(self).players.len() as nat),
            voter < old(self).players.len(),
            ballot matches Some(c) ==> choice_in_range(c, old(self).players.len() as nat),
        ensures
            vote_handled(*old(self), *final(self), voter, ballot),
    {
        reveal(vote_handled);
        let ghost g0 = *self;
        let day = match &mut self.phase {
            Phase::Day(d) => d,
            _ => { return; },
        };
        let day_resolution = day.resolve_vote(&self.players, (voter, ballot), &mut self.comm);
        let ghost g1 = *self;
        assert(g1.players == g0.players);
        assert(g1.contracts == g0.contracts);
        match day_resolution {
            Some(DayResolution::Elected(elected, _electors, hammer, next_phase)) => {
                self.finish_election(elected, hammer, next_phase);
                proof {
                    let old_ev = g0.comm.events@;
                    assert(self.comm.events@.take(old_ev.len() + 1int) =~= g1.comm.events@.take(old_ev.len() + 1int));
                    assert(self.comm.events@[old_ev.len() + 1int] == g1.comm.events@[old_ev.len() + 1int]);
                }
            },
            Some(DayResolution::NoKill(next_phase)) => {
                self.phase.next_phase(next_phase, &mut self.comm);
                proof {
                    let old_ev = g0.comm.events@;
                    assert(self.comm.events@.drop_last() == g1.comm.events@);
                    assert(self.comm.events@.take(old_ev.len() + 1int) =~= g1.comm.events@.take(old_ev.len() + 1int));
                    assert(self.comm.events@[old_ev.len() + 1int] == g1.comm.events@[old_ev.len() + 1int]);
                }
            },
            None => {},
        }
    }

    /// Ends the day with `elected` voted out by `hammer`.
    pub fn finish_election(&mut self, elected: Pidx, hammer: Pidx, next_phase: Phase)
        requires
            elected < old(self).players.len(),
            hammer < old(self).players.len(),
            is_fresh_night(next_phase, next_phase->Night_0.night_no as int),
        ensures
            after_election(
                *old(self),
                *final(self),
                old(self).comm.events@.len() as int,
                elected,
                hammer,
                next_phase->Night_0.night_no,
            ),
            final(self).comm.save == old(self).comm.save,
            final(self).comm.events@.take(old(self).comm.events@.len() as int) == old(self).comm.events@,
    {
        let ghost g0 = *self;
        self.check_elect_contract(elected);
        let ghost g1 = *self;
        let dead = [elected];
        assert(dead@ =~= seq![elected]);
        proof {
            lemma_elim_single(self.players@, elected);
        }
        let next = match self.eliminate(&dead, hammer) {
            Some(p) => p,
            None => next_phase,
        };
        let ghost g2 = *self;
        assert(eliminated(g1, g2, seq![elected], hammer, Some(next)) || eliminated(g1, g2, seq![elected], hammer, None));
        self.phase.next_phase(next, &mut self.comm);
        proof {
            let players = g0.players@;
            let surv = survivors(players, seq![elected]);
            let ids = seq![players[elected as int].raw_pid];
            assert(elim_ids(players, seq![elected]) =~= ids) by {
                lemma_elim_single(players, elected);
            }
            let proxy_id = players[hammer as int].raw_pid;
            let cs1 = elect_marked(g0.contracts@, players[elected as int].raw_pid);
            let tail = elim_events(players, seq![elected]) + refocus_events(cs1, surv, ids, proxy_id);
            let head = g0.comm.events@.len() as int;
            assert(g2.comm.events@ == g0.comm.events@ + tail);
            assert(self.comm.events@.drop_last() == g2.comm.events@);
            assert(self.comm.events@.len() == head + tail.len() + 1);
            assert forall|k: int| 0 <= k < tail.len() implies #[trigger] self.comm.events@.subrange(head, head + tail.len())[k] == tail[k] by {
                assert(self.comm.events@.subrange(head, head + tail.len())[k] == self.comm.events@[head + k]);
                assert(self.comm.events@[head + k] == g2.comm.events@[head + k]);
            }
            assert(self.comm.events@.subrange(head, head + tail.len()) =~= tail);
        }
    }
}

} // verus!

verus! {

/// The state after the mafia's mark is killed by `killer` at dawn, with
/// the dawn announcements already made (`head`).
pub open spec fn after_kill(
    old_g: Game,
    new_g: Game,
    head: int,
    mark: Pidx,
    killer: Pidx,
    day_no: int,
    blocked: Seq<Pidx>,
) -> bool {
    let players = old_g.players@;
    let surv = survivors(players, seq![mark]);
    let ids = seq![players[mark as int].raw_pid];
    let proxy_id = players[killer as int].raw_pid;
    let tail = elim_events(players, seq![mark]) + refocus_events(old_g.contracts@, surv, ids, proxy_id);
    &&& new_g.players@ == surv
    &&& new_g.contracts@ == contracts_after(old_g.contracts@, surv, ids, proxy_id)
    &&& new_g.comm.events@.len() == head + tail.len() + 1
    &&& new_g.comm.events@.subrange(head, head + tail.len()) == tail
    &&& announces(new_g.phase, new_g.comm.events@.last())
    &&& match team_winner(surv) {
        Some(w) => new_g.phase matches Phase::End(w2, rs) && w2 == w && rs@ == contract_results(new_g.contracts@),
        None => is_fresh_day(new_g.phase, day_no, blocked),
    }
}

/// The state after a night action is accepted: `ts` and `scheme` are the
/// night's targets and scheme with the action recorded, `announced` its
/// announcement; dawn follows if every action is in.
#[verifier::opaque]
pub open spec fn night_action_handled(
    old_g: Game,
    new_g: Game,
    ts: Seq<(Pidx, Target)>,
    scheme: Option<(Pidx, Choice<Pidx>)>,
    announced: Event,
) -> bool {
    let players = old_g.players@;
    let night_no = old_g.phase->Night_0.night_no;
    let pre = old_g.comm.events@.push(announced);
    &&& new_g.comm.save == old_g.comm.save
    &&& if !dawn_ready_parts(ts, scheme, players) {
        &&& new_g.players == old_g.players
        &&& new_g.contracts == old_g.contracts
        &&& new_g.phase is Night && new_g.phase->Night_0.night_no == night_no
        &&& new_g.phase->Night_0.targets@ == ts && new_g.phase->Night_0.scheme == scheme
        &&& new_g.comm.events@ == pre
    } else {
        let mid = pre + dawn_events(ts, scheme, players);
        &&& new_g.comm.events@.len() > mid.len()
        &&& new_g.comm.events@.take(mid.len() as int) == mid
        &&& match dawn_kill(ts, scheme) {
            Some((killer, mark)) => after_kill(
                old_g,
                new_g,
                mid.len() as int,
                mark,
                killer,
                night_no + 1,
                stripped_list(ts),
            ),
            None => {
                &&& new_g.players == old_g.players
                &&& new_g.contracts == old_g.contracts
                &&& is_fresh_day(new_g.phase, night_no + 1, stripped_list(ts))
                &&& new_g.comm.events@ == mid.push(Event::Day { day_no: (night_no + 1) as usize })
            },
        }
    }
}

/// A night target command is acceptable to the game: a player who names
/// someone must hold a targeting role.
pub open spec fn target_allowed(players: Seq<Player>, a: u64, t: Choice<u64>) -> bool {
    (has_raw(players, a) && t is Player && choice_known(players, t)) ==> is_targeting(
        players[raw_index(players, a)].role,
    )
}

impl Game {
    /// Moves on from the night: the mark dies unless saved.
    pub fn handle_dawn(&mut self, night_resolution: Option<NightResolution>)
        requires
            night_resolution matches Some(NightResolution::Kill(k, m, next)) ==> k < old(self).players.len()
                && m < old(self).players.len() && next is Day && next->Day_0.votes@.len() == 0,
            night_resolution matches Some(NightResolution::NoKill(next)) ==> next is Day,
        ensures
            final(self).comm.save == old(self).comm.save,
            final(self).comm.events@.len() >= old(self).comm.events@.len(),
            final(self).comm.events@.take(old(self).comm.events@.len() as int) == old(self).comm.events@,
            match night_resolution {
                None => *final(self) == *old(self),
                Some(NightResolution::NoKill(next)) => {
                    &&& final(self).players == old(self).players
                    &&& final(self).contracts == old(self).contracts
                    &&& final(self).phase == next
                    &&& final(self).comm.events@ == old(self).comm.events@.push(
                        Event::Day { day_no: next->Day_0.day_no },
                    )
                },
                Some(NightResolution::Kill(killer, mark, next)) => after_kill(
                    *old(self),
                    *final(self),
                    old(self).comm.events@.len() as int,
                    mark,
                    killer,
                    next->Day_0.day_no as int,
                    next->Day_0.blocked@,
                ),
            },
    {
        let ghost g0 = *self;
        let ghost res0 = night_resolution;
        let next_phase = match night_resolution {
            Some(NightResolution::Kill(killer, mark, phase)) => {
                let dead = [mark];
                assert(dead@ =~= seq![mark]);
                proof {
                    lemma_elim_single(self.players@, mark);
                }
                match self.eliminate(&dead, killer) {
                    Some(p) => p,
                    None => phase,
                }
            },
            Some(NightResolution::NoKill(phase)) => phase,
            None => return ,
        };
        let ghost g2 = *self;
        self.phase.next_phase(next_phase, &mut self.comm);
        proof {
            assert(g2.comm.events@.take(g0.comm.events@.len() as int) =~= g0.comm.events@);
            assert(self.comm.events@.take(g0.comm.events@.len() as int) =~= g0.comm.events@);
            if let Some(NightResolution::Kill(killer, mark, next)) = res0 {
                let players = g0.players@;
                let surv = survivors(players, seq![mark]);
                let ids = seq![players[mark as int].raw_pid];
                assert(elim_ids(players, seq![mark]) =~= ids) by {
                    lemma_elim_single(players, mark);
                }
                let proxy_id = players[killer as int].raw_pid;
                let tail = elim_events(players, seq![mark]) + refocus_events(g0.contracts@, surv, ids, proxy_id);
                let head = g0.comm.events@.len() as int;
                assert(g2.comm.events@ == g0.comm.events@ + tail);
                assert(self.comm.events@.drop_last() == g2.comm.events@);
                assert forall|k: int| 0 <= k < tail.len() implies #[trigger] self.comm.events@.subrange(head, head + tail.len())[k] == tail[k] by {
                    assert(self.comm.events@.subrange(head, head + tail.len())[k] == self.comm.events@[head + k]);
                    assert(self.comm.events@[head + k] == g2.comm.events@[head + k]);
                }
                assert(self.comm.events@.subrange(head, head + tail.len()) =~= tail);
            } else if let Some(NightResolution::NoKill(next)) = res0 {
                assert(self.comm.events@ =~= old(self).comm.events@.push(Event::Day { day_no: next->Day_0.day_no }));
            }
        }
    }
}

} // verus!

verus! {

/// A refused command: the role may not give it.
pub open spec fn refused_role(old_g: Game, new_g: Game, r: Result<(), Error>, role: Role, cmd: CommandKind) -> bool {
    &&& unchanged(old_g, new_g)
    &&& r matches Err(Error::InvalidRole { role: r2, command }) && r2 == role && command == cmd
}

/// The mark the mafia's command amounts to: a goon's kill always misses.
pub open spec fn effective_mark(role: Role, mark: Choice<Pidx>) -> Choice<Pidx> {
    if role == Role::GOON {
        Choice::Abstain
    } else {
        mark
    }
}

impl Game {
    /// Records an accepted night target and moves to dawn if it is due.
    pub fn apply_target(&mut self, actor: Pidx, target: Choice<Pidx>)
        requires
            old(self).phase is Night,
            phase_in_range(old(self).phase, old(self).players.len() as nat),
            actor < old(self).players.len(),
            choice_in_range(target, old(self).players.len() as nat),
            target is Player ==> is_targeting(old(self).players@[actor as int].role),
        ensures
            night_action_handled(
                *old(self),
                *final(self),
                targets_set(
                    old(self).phase->Night_0.targets@,
                    actor,
                    target_for(old(self).players@[actor as int].role, target),
                ),
                scheme_after_target(old(self).phase->Night_0.scheme, actor),
                Event::Target {
                    actor: old(self).players@[actor as int],
                    target: choice_to_player(target, old(self).players@),
                },
            ),
    {
        reveal(night_action_handled);
        let night = match &mut self.phase {
            Phase::Night(n) => n,
            _ => { return; },
        };
        let role = self.players[actor].role;
        let night_resolution = night.resolve_target(&self.players, actor, target, role, &mut self.comm);
        let ghost g1 = *self;
        proof {
            let ts = g1.phase->Night_0.targets@;
            let sc = g1.phase->Night_0.scheme;
            if dawn_ready_parts(ts, sc, g1.players@) {
                let n0 = old(self).comm.events@.len() + 1int;
                let ev = g1.comm.events@;
                assert(ev =~= ev.take(n0) + ev.skip(n0));
            }
        }
        self.handle_dawn(night_resolution);
    }

    /// Records an accepted mafia mark and moves to dawn if it is due.
    pub fn apply_mark(&mut self, killer: Pidx, mark: Choice<Pidx>)
        requires
            old(self).phase is Night,
            phase_in_range(old(self).phase, old(self).players.len() as nat),
            killer < old(self).players.len(),
            choice_in_range(mark, old(self).players.len() as nat),
        ensures
            night_action_handled(
                *old(self),
                *final(self),
                targets_retracted(old(self).phase->Night_0.targets@, killer),
                Some((killer, mark)),
                Event::Mark { killer: old(self).players@[killer as int], mark: choice_to_player(mark, old(self).players@) },
            ),
    {
        reveal(night_action_handled);
        let night = match &mut self.phase {
            Phase::Night(n) => n,
            _ => { return; },
        };
        let night_resolution = night.resolve_mark(&self.players, killer, mark, &mut self.comm);
        let ghost g1 = *self;
        proof {
            let ts = g1.phase->Night_0.targets@;
            let sc = g1.phase->Night_0.scheme;
            if dawn_ready_parts(ts, sc, g1.players@) {
                let n0 = old(self).comm.events@.len() + 1int;
                let ev = g1.comm.events@;
                assert(ev =~= ev.take(n0) + ev.skip(n0));
            }
        }
        self.handle_dawn(night_resolution);
    }
}

} // verus!

verus! {

/// What the game does with a vote (or retraction) by the player with raw
/// id `v`.
pub open spec fn vote_command(old_g: Game, new_g: Game, v: u64, b: Option<Choice<u64>>, r: Result<(), Error>) -> bool {
    let players = old_g.players@;
    if !(old_g.phase is Day) {
        refused_phase(old_g, new_g, r, PhaseKind::Day)
    } else if !has_raw(players, v) {
        refused_player(old_g, new_g, r, v)
    } else if unknown_ballot(players, b) is Some {
        refused_player(old_g, new_g, r, unknown_ballot(players, b)->0)
    } else {
        &&& r is Ok
        &&& vote_handled(
            old_g,
            new_g,
            raw_index(players, v) as Pidx,
            match b {
                Some(c) => Some(choice_index(players, c)),
                None => None,
            },
        )
    }
}

/// What the game does with a night target by the player with raw id `a`.
pub open spec fn target_command(old_g: Game, new_g: Game, a: u64, t: Choice<u64>, r: Result<(), Error>) -> bool {
    let players = old_g.players@;
    if !(old_g.phase is Night) {
        refused_phase(old_g, new_g, r, PhaseKind::Night)
    } else if !has_raw(players, a) {
        refused_player(old_g, new_g, r, a)
    } else if unknown_choice(players, t) is Some {
        refused_player(old_g, new_g, r, unknown_choice(players, t)->0)
    } else {
        let actor = raw_index(players, a) as Pidx;
        let target = choice_index(players, t);
        &&& r is Ok
        &&& night_action_handled(
            old_g,
            new_g,
            targets_set(old_g.phase->Night_0.targets@, actor, target_for(players[actor as int].role, target)),
            scheme_after_target(old_g.phase->Night_0.scheme, actor),
            Event::Target { actor: players[actor as int], target: choice_to_player(target, players) },
        )
    }
}

/// What the game does with the mafia's kill order from raw id `killer`.
pub open spec fn mark_command(old_g: Game, new_g: Game, killer: u64, mark: Choice<u64>, r: Result<(), Error>) -> bool {
    let players = old_g.players@;
    if !(old_g.phase is Night) {
        refused_phase(old_g, new_g, r, PhaseKind::Night)
    } else if !has_raw(players, killer) {
        refused_player(old_g, new_g, r, killer)
    } else if unknown_choice(players, mark) is Some {
        refused_player(old_g, new_g, r, unknown_choice(players, mark)->0)
    } else {
        let k = raw_index(players, killer) as Pidx;
        let role = players[k as int].role;
        if role != Role::GOON && super::player::role_team(role) != Team::Mafia {
            refused_role(old_g, new_g, r, role, CommandKind::Mark)
        } else {
            let m = effective_mark(role, choice_index(players, mark));
            &&& r is Ok
            &&& night_action_handled(
                old_g,
                new_g,
                targets_retracted(old_g.phase->Night_0.targets@, k),
                Some((k, m)),
                Event::Mark { killer: players[k as int], mark: choice_to_player(m, players) },
            )
        }
    }
}

/// What the game does with a reveal by raw id `celeb`.
pub open spec fn reveal_command(old_g: Game, new_g: Game, celeb: u64, r: Result<(), Error>) -> bool {
    let players = old_g.players@;
    if !(old_g.phase is Day) {
        refused_phase(old_g, new_g, r, PhaseKind::Day)
    } else if !has_raw(players, celeb) {
        refused_player(old_g, new_g, r, celeb)
    } else {
        let c = raw_index(players, celeb);
        if players[c].role != Role::CELEB {
            refused_role(old_g, new_g, r, players[c].role, CommandKind::Reveal)
        } else {
            &&& r is Ok
            &&& new_g.players == old_g.players
            &&& new_g.phase == old_g.phase
            &&& new_g.contracts == old_g.contracts
            &&& new_g.comm.save == old_g.comm.save
            &&& new_g.comm.events@ == old_g.comm.events@.push(
                if old_g.phase->Day_0.blocked@.contains(c as Pidx) {
                    Event::Block { blocked: players[c] }
                } else {
                    Event::Reveal { celeb: players[c] }
                },
            )
        }
    }
}

/// What the game does with a command.
pub open spec fn command_handled(old_g: Game, new_g: Game, cmd: Command, r: Result<(), Error>) -> bool {
    match cmd {
        Command::Vote { voter, ballot } => vote_command(old_g, new_g, voter, ballot, r),
        Command::Reveal { celeb } => reveal_command(old_g, new_g, celeb, r),
        Command::Target { actor, target } => target_command(old_g, new_g, actor, target, r),
        Command::Mark { killer, mark } => mark_command(old_g, new_g, killer, mark, r),
    }
}

/// A command the game can take without failing: a player who targets
/// someone at night holds a targeting role.
pub open spec fn command_allowed(phase: Phase, players: Seq<Player>, cmd: Command) -> bool {
    match cmd {
        Command::Target { actor, target } => phase is Night ==> target_allowed(players, actor, target),
        _ => true,
    }
}

impl Game {
    /// A night target by the player with raw id `a`.
    pub fn handle_target(&mut self, a: u64, t: Choice<u64>) -> (r: Result<(), Error>)
        requires
            phase_in_range(old(self).phase, old(self).players.len() as nat),
            old(self).phase is Night ==> target_allowed(old(self).players@, a, t),
        ensures
            target_command(*old(self), *final(self), a, t, r),

    {
        if !matches!(self.phase, Phase::Night(_)) {
            return Err(Error::InvalidPhase { expected: PhaseKind::Night, found: self.phase.duplicate() });
        }
        let actor = match check(&self.players, a) {
            Some(i) => i,
            None => return Err(Error::PlayerNotFound { pid: a }),
        };
        let target = match t {
            Choice::Player(p) => match check(&self.players, p) {
                Some(i) => Choice::Player(i),
                None => return Err(Error::PlayerNotFound { pid: p }),
            },
            Choice::Abstain => Choice::Abstain,
        };
        self.apply_target(actor, target);
        Ok(())
    }

    /// The mafia's kill order from the player with raw id `killer`.
    pub fn handle_mark(&mut self, killer: u64, mark: Choice<u64>) -> (r: Result<(), Error>)
        requires
            phase_in_range(old(self).phase, old(self).players.len() as nat),
        ensures
            mark_command(*old(self), *final(self), killer, mark, r),

    {
        if !matches!(self.phase, Phase::Night(_)) {
            return Err(Error::InvalidPhase { expected: PhaseKind::Night, found: self.phase.duplicate() });
        }
        let k = match check(&self.players, killer) {
            Some(i) => i,
            None => return Err(Error::PlayerNotFound { pid: killer }),
        };
        let mut m = match mark {
            Choice::Player(p) => match check(&self.players, p) {
                Some(i) => Choice::Player(i),
                None => return Err(Error::PlayerNotFound { pid: p }),
            },
            Choice::Abstain => Choice::Abstain,
        };
        let role = self.players[k].role;
        match role {
            Role::GOON => {
                m = Choice::Abstain;
            },
            _ => {
                if role.team() != Team::Mafia {
                    return Err(Error::InvalidRole { role, command: CommandKind::Mark });
                }
            },
        }
        self.apply_mark(k, m);
        Ok(())
    }

    /// A celeb's reveal: announced, unless the celeb was stripped last night.
    pub fn handle_reveal(&mut self, celeb: u64) -> (r: Result<(), Error>)
        ensures
            reveal_command(*old(self), *final(self), celeb, r),

    {
        if !matches!(self.phase, Phase::Day(_)) {
            return Err(Error::InvalidPhase { expected: PhaseKind::Day, found: self.phase.duplicate() });
        }
        let c = match check(&self.players, celeb) {
            Some(i) => i,
            None => return Err(Error::PlayerNotFound { pid: celeb }),
        };
        if self.players[c].role != Role::CELEB {
            return Err(Error::InvalidRole { role: self.players[c].role, command: CommandKind::Reveal });
        }
        let is_blocked = match &self.phase {
            Phase::Day(day) => contains_index(day.blocked.as_slice(), c),
            _ => false,
        };
        if is_blocked {
            self.comm.tx(Event::Block { blocked: self.players[c] });
            return Ok(());
        }
        self.comm.tx(Event::Reveal { celeb: self.players[c] });
        Ok(())
    }
}

} // verus!

verus! {

impl Game {
    /// A new game in its setup phase, announcing `Init`. Only players whose
    /// raw id is absent from the given list are taken in; every given player
    /// is in that list, so the game starts with no players.
    pub fn new(players: Vec<Player>, comm: Comm) -> (g: Self)
        ensures
            g.players@.len() == 0,
            g.phase == Phase::Init,
            g.contracts@.len() == 0,
            g.comm.save == comm.save,
            g.comm.events@ == comm.events@.push(Event::Init),
    {
        let mut game = Self { players: Vec::new(), phase: Phase::Init, contracts: Vec::new(), comm };
        game.comm.tx(Event::Init);
        let mut i: usize = 0;
        while i < players.len()
            invariant
                i <= players.len(),
                game.players@.len() == 0,
                game.phase == Phase::Init,
                game.contracts@.len() == 0,
                game.comm.save == comm.save,
                game.comm.events@ == comm.events@.push(Event::Init),
            decreases players.len() - i,
        {
            let player = players[i];
            proof {
                reveal(has_raw);
                assert(players@[i as int].raw_pid == player.raw_pid);
            }
            if check(&players, player.raw_pid).is_none() {
                game.players.push(player);
            }
            i = i + 1;
        }
        game
    }

    /// Starts the game: it needs the setup phase, at least three players
    /// and an undecided game. An even number of players starts at night,
    /// an odd one by day.
    pub fn start(&mut self) -> (r: Result<(), ()>)
        ensures
            r is Ok <==> (old(self).phase is Init && old(self).players.len() >= 3 && team_winner(
                old(self).players@,
            ) is None),
            r is Err ==> *final(self) == *old(self),
            r is Ok ==> ({
                let old_ev = old(self).comm.events@;
                let new_ev = final(self).comm.events@;
                let n = old(self).players.len();
                &&& final(self).players == old(self).players
                &&& final(self).contracts == old(self).contracts
                &&& final(self).comm.save == old(self).comm.save
                &&& if n % 2 == 0 {
                    is_fresh_night(final(self).phase, 1)
                } else {
                    is_fresh_day(final(self).phase, 1, Seq::empty())
                }
                &&& new_ev.len() == old_ev.len() + 2
                &&& new_ev.take(old_ev.len() as int) == old_ev
                &&& new_ev[old_ev.len() as int] matches Event::Start { players, phase } && players@
                    == old(self).players@ && phase == phase_kind(final(self).phase)
                &&& announces(final(self).phase, new_ev.last())
            }),
    {
        match self.phase {
            Phase::Init => {},
            _ => return Err(()),
        }
        if self.players.len() < 3 {
            return Err(());
        }
        if check_team_numbers(&self.players).is_some() {
            return Err(());
        }
        let next_phase = if self.players.len() % 2 == 0 {
            Phase::new_night(1)
        } else {
            Phase::new_day(1, Vec::new())
        };
        self.comm.tx(Event::Start { players: copy_vec(&self.players), phase: next_phase.kind() });
        let ghost mid = self.comm.events@;
        self.phase.next_phase(next_phase, &mut self.comm);
        assert(self.comm.events@.take(old(self).comm.events@.len() as int) =~= old(self).comm.events@);
        assert(self.comm.events@[old(self).comm.events@.len() as int] == mid.last());
        Ok(())
    }

    /// Carries out a player's command. (Saving after each change, when the
    /// save strategy asks for it, is the host's part.)
    pub fn handle(&mut self, cmd: Command) -> (r: Result<(), Error>)
        requires
            phase_in_range(old(self).phase, old(self).players.len() as nat),
            command_allowed(old(self).phase, old(self).players@, cmd),
        ensures
            command_handled(*old(self), *final(self), cmd, r),
    {
        match cmd {
            Command::Vote { voter, ballot } => self.handle_vote(voter, ballot),
            Command::Reveal { celeb } => self.handle_reveal(celeb),
            Command::Target { actor, target } => self.handle_target(actor, target),
            Command::Mark { killer, mark } => self.handle_mark(killer, mark),
        }
    }
}

/// When a charge dies, a guard turns assassin and an agent turns
/// protector, of the new charge, who is alive; refocusing again turns them
/// back.
pub proof fn law_refocus_flips(c: Contract, charge: u64, again: u64)
    requires
        !(c is Elect),
    ensures
        c is Protect ==> refocused(c, charge) == (Contract::Assassinate {
            holder: c->Protect_holder,
            charge,
            status: ChargeStatus::Alive,
        }),
        c is Assassinate ==> refocused(c, charge) == (Contract::Protect {
            holder: c->Assassinate_holder,
            charge,
            status: ChargeStatus::Alive,
        }),
        (c is Protect) == (refocused(refocused(c, charge), again) is Protect),
{
}

} // verus!
