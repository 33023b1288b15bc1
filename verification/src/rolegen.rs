//! Drawing a role set for a game: lists of roles weighted by copies,
//! scores that say how far a set leans to the town (positive) or to the
//! mafia (negative), and random draws that keep the better sets.
pub mod spice;

use vstd::multiset::Multiset;
use vstd::prelude::*;

use crate::chance::{gen_upto, pick_several};

verus! {

#[allow(non_camel_case_types)]
#[derive(Debug, Clone, Copy, PartialEq, Eq, PartialOrd, Ord, Hash, Structural)]
pub enum RoleGen {
    TOWN,
    COP,
    DOCTOR,
    CELEB,
    MILLER,
    MAFIA,
    GODFATHER,
    STRIPPER,
    GOON,
    IDIOT,
    GUARD_Town,
    GUARD_Mafia,
    AGENT_Town,
    AGENT_Mafia,
}

/// `x` fits an `i32`.
pub open spec fn fits_i32(x: int) -> bool {
    i32::MIN <= x <= i32::MAX
}

/// The teams' balance `(n_town - 1 - 2 n_mafia) * 10` is computed in `i32`
/// without overflow: each count converts exactly, and each step fits.
pub open spec fn balance_fits(n_town: int, n_mafia: int) -> bool {
    &&& n_town <= i32::MAX && n_mafia <= i32::MAX
    &&& fits_i32(n_mafia * 2)
    &&& fits_i32(n_town - 1 - n_mafia * 2)
    &&& fits_i32((n_town - 1 - n_mafia * 2) * 10)
}

/// A set of roles to draw from, each role once.
#[derive(Debug, Clone)]
pub struct RoleSet {
    pub roles: Vec<RoleGen>,
}

impl RoleSet {
    /// The roles as a set.
    pub open spec fn view(&self) -> Set<RoleGen> {
        self.roles@.to_set()
    }

    /// No role is held twice.
    pub open spec fn wf(&self) -> bool {
        self.roles@.no_duplicates()
    }

    pub fn new() -> (s: Self)
        ensures
            s.wf(),
            s.view() == Set::<RoleGen>::empty(),
    {
        let s = RoleSet { roles: Vec::new() };
        assert(s.view() =~= Set::<RoleGen>::empty());
        s
    }

    pub fn contains(&self, r: &RoleGen) -> (b: bool)
        ensures
            b == self.view().contains(*r),
    {
        let mut i: usize = 0;
        while i < self.roles.len()
            invariant
                i <= self.roles.len(),
                forall|j: int| 0 <= j < i ==> self.roles@[j] != *r,
            decreases self.roles.len() - i,
        {
            if self.roles[i] == *r {
                assert(self.roles@.contains(*r));
                return true;
            }
            i = i + 1;
        }
        false
    }

    /// Adds a role unless it is already in.
    pub fn insert(&mut self, r: RoleGen)
        requires
            old(self).wf(),
        ensures
            final(self).wf(),
            final(self).view() == old(self).view().insert(r),
    {
        if !self.contains(&r) {
            let ghost before = self.roles@;
            self.roles.push(r);
            proof {
                assert forall|i: int, j: int| 0 <= i < self.roles@.len() && 0 <= j < self.roles@.len() && i != j
                    implies self.roles@[i] != self.roles@[j] by {
                    if i < before.len() && j < before.len() {
                        assert(before[i] == self.roles@[i] && before[j] == self.roles@[j]);
                    } else if i < before.len() {
                        assert(before.contains(self.roles@[i]));
                    } else {
                        assert(before.contains(self.roles@[j]));
                    }
                }
                assert forall|x: RoleGen| self.view().contains(x) <==> old(self).view().insert(r).contains(x) by {
                    if self.roles@.contains(x) {
                        let k = choose|k: int| 0 <= k < self.roles@.len() && self.roles@[k] == x;
                        if k < before.len() {
                            assert(before[k] == x);
                        }
                    }
                    if before.contains(x) {
                        let k = choose|k: int| 0 <= k < before.len() && before[k] == x;
                        assert(self.roles@[k] == x);
                    }
                    if x == r {
                        assert(self.roles@[before.len() as int] == x);
                    }
                }
            }
        }
        assert(self.view() =~= old(self).view().insert(r));
    }
}

/// The vanilla set: plain town and plain mafia.
pub fn new_roleset() -> (s: RoleSet)
    ensures
        s.wf(),
        s.view() == set![RoleGen::TOWN, RoleGen::MAFIA],
{
    let mut s = RoleSet::new();
    s.insert(RoleGen::TOWN);
    s.insert(RoleGen::MAFIA);
    assert(s.view() =~= set![RoleGen::TOWN, RoleGen::MAFIA]);
    s
}

/// The vanilla set with a cop and a doctor.
pub fn minimal_roleset() -> (s: RoleSet)
    ensures
        s.wf(),
        s.view() == set![RoleGen::TOWN, RoleGen::MAFIA, RoleGen::COP, RoleGen::DOCTOR],
{
    let mut s = new_roleset();
    s.insert(RoleGen::COP);
    s.insert(RoleGen::DOCTOR);
    assert(s.view() =~= set![RoleGen::TOWN, RoleGen::MAFIA, RoleGen::COP, RoleGen::DOCTOR]);
    s
}

/// The minimal set with the celeb, miller, godfather, stripper and idiot.
pub fn basic_roleset() -> (s: RoleSet)
    ensures
        s.wf(),
        s.view() == set![
            RoleGen::TOWN,
            RoleGen::MAFIA,
            RoleGen::COP,
            RoleGen::DOCTOR,
            RoleGen::CELEB,
            RoleGen::MILLER,
            RoleGen::GODFATHER,
            RoleGen::STRIPPER,
            RoleGen::IDIOT,
        ],
{
    let mut s = minimal_roleset();
    s.insert(RoleGen::CELEB);
    s.insert(RoleGen::MILLER);
    s.insert(RoleGen::GODFATHER);
    s.insert(RoleGen::STRIPPER);
    s.insert(RoleGen::IDIOT);
    assert(s.view() =~= set![
        RoleGen::TOWN,
        RoleGen::MAFIA,
        RoleGen::COP,
        RoleGen::DOCTOR,
        RoleGen::CELEB,
        RoleGen::MILLER,
        RoleGen::GODFATHER,
        RoleGen::STRIPPER,
        RoleGen::IDIOT,
    ]);
    s
}

/// Every role.
pub fn full_roleset() -> (s: RoleSet)
    ensures
        s.wf(),
        forall|r: RoleGen| s.view().contains(r),
{
    let mut s = basic_roleset();
    s.insert(RoleGen::GOON);
    s.insert(RoleGen::GUARD_Town);
    s.insert(RoleGen::GUARD_Mafia);
    s.insert(RoleGen::AGENT_Town);
    s.insert(RoleGen::AGENT_Mafia);
    s
}

/// `n` copies of `r`.
pub open spec fn rep(r: RoleGen, n: nat) -> Seq<RoleGen> {
    Seq::new(n, |i: int| r)
}

/// Appends `n` copies of `r`.
fn push_copies(v: &mut Vec<RoleGen>, r: RoleGen, n: usize)
    ensures
        final(v)@ == old(v)@ + rep(r, n as nat),
{
    let mut i: usize = 0;
    while i < n
        invariant
            i <= n,
            v@ == old(v)@ + rep(r, i as nat),
        decreases n - i,
    {
        v.push(r);
        i = i + 1;
        assert(v@ =~= old(v)@ + rep(r, i as nat));
    }
}

/// The town roles to draw from: plain town weighted by `vanilla`, and the
/// town's power roles.
pub fn create_town_list(vanilla: usize) -> (l: Vec<RoleGen>)
    requires
        10 * vanilla <= usize::MAX,
    ensures
        l@ == rep(RoleGen::TOWN, 10 * vanilla as nat) + rep(RoleGen::COP, 15) + rep(RoleGen::DOCTOR, 15)
            + rep(RoleGen::CELEB, 10) + rep(RoleGen::MILLER, 10),
{
    let mut l: Vec<RoleGen> = Vec::new();
    push_copies(&mut l, RoleGen::TOWN, vanilla * 10);
    push_copies(&mut l, RoleGen::COP, 15);
    push_copies(&mut l, RoleGen::DOCTOR, 15);
    push_copies(&mut l, RoleGen::CELEB, 10);
    push_copies(&mut l, RoleGen::MILLER, 10);
    assert(l@ =~= Seq::<RoleGen>::empty() + rep(RoleGen::TOWN, 10 * vanilla as nat) + rep(RoleGen::COP, 15)
        + rep(RoleGen::DOCTOR, 15) + rep(RoleGen::CELEB, 10) + rep(RoleGen::MILLER, 10));
    assert(Seq::<RoleGen>::empty() + rep(RoleGen::TOWN, 10 * vanilla as nat) =~= rep(RoleGen::TOWN, 10 * vanilla as nat));
    l
}

/// The mafia roles to draw from: plain mafia weighted by `vanilla`, and
/// the mafia's power roles.
pub fn create_mafia_list(vanilla: usize) -> (l: Vec<RoleGen>)
    requires
        5 + 10 * vanilla <= usize::MAX,
    ensures
        l@ == rep(RoleGen::MAFIA, (5 + 10 * vanilla) as nat) + rep(RoleGen::GODFATHER, 15) + rep(
            RoleGen::STRIPPER,
            15,
        ) + rep(RoleGen::GOON, 15),
{
    let mut l: Vec<RoleGen> = Vec::new();
    push_copies(&mut l, RoleGen::MAFIA, 5 + vanilla * 10);
    push_copies(&mut l, RoleGen::GODFATHER, 15);
    push_copies(&mut l, RoleGen::STRIPPER, 15);
    push_copies(&mut l, RoleGen::GOON, 15);
    assert(Seq::<RoleGen>::empty() + rep(RoleGen::MAFIA, (5 + 10 * vanilla) as nat) =~= rep(
        RoleGen::MAFIA,
        (5 + 10 * vanilla) as nat,
    ));
    l
}

/// The copies of a rogue role in the rogue list.
pub open spec fn rogue_weight(r: RoleGen) -> nat {
    match r {
        RoleGen::IDIOT => 40,
        RoleGen::GUARD_Town | RoleGen::GUARD_Mafia | RoleGen::AGENT_Town | RoleGen::AGENT_Mafia => 15,
        _ => 0,
    }
}

/// The copies of `r` in `s` if the set allows it.
pub open spec fn if_allowed(s: Set<RoleGen>, r: RoleGen, n: nat) -> Seq<RoleGen> {
    if s.contains(r) {
        rep(r, n)
    } else {
        Seq::empty()
    }
}

/// The rogue roles the set allows, weighted; twenty plain town when it
/// allows none.
pub open spec fn rogue_list(s: Set<RoleGen>) -> Seq<RoleGen> {
    let l = if_allowed(s, RoleGen::IDIOT, 40) + if_allowed(s, RoleGen::GUARD_Town, 15) + if_allowed(
        s,
        RoleGen::GUARD_Mafia,
        15,
    ) + if_allowed(s, RoleGen::AGENT_Town, 15) + if_allowed(s, RoleGen::AGENT_Mafia, 15);
    if l.len() == 0 {
        rep(RoleGen::TOWN, 20)
    } else {
        l
    }
}

fn push_if_allowed(l: &mut Vec<RoleGen>, s: &RoleSet, r: RoleGen, n: usize)
    ensures
        final(l)@ == old(l)@ + if_allowed(s.view(), r, n as nat),
{
    if s.contains(&r) {
        push_copies(l, r, n);
    } else {
        assert(old(l)@ + Seq::<RoleGen>::empty() =~= old(l)@);
    }
}

/// The rogue roles to draw from.
pub fn create_rogue_list(roleset: &RoleSet) -> (l: Vec<RoleGen>)
    ensures
        l@ == rogue_list(roleset.view()),
{
    let mut l: Vec<RoleGen> = Vec::new();
    push_if_allowed(&mut l, roleset, RoleGen::IDIOT, 40);
    push_if_allowed(&mut l, roleset, RoleGen::GUARD_Town, 15);
    push_if_allowed(&mut l, roleset, RoleGen::GUARD_Mafia, 15);
    push_if_allowed(&mut l, roleset, RoleGen::AGENT_Town, 15);
    push_if_allowed(&mut l, roleset, RoleGen::AGENT_Mafia, 15);
    let ghost s = roleset.view();
    assert(l@ =~= if_allowed(s, RoleGen::IDIOT, 40) + if_allowed(s, RoleGen::GUARD_Town, 15) + if_allowed(
        s,
        RoleGen::GUARD_Mafia,
        15,
    ) + if_allowed(s, RoleGen::AGENT_Town, 15) + if_allowed(s, RoleGen::AGENT_Mafia, 15));
    if l.len() == 0 {
        push_copies(&mut l, RoleGen::TOWN, 20);
        assert(l@ =~= rep(RoleGen::TOWN, 20));
    }
    l
}

/// How often `r` occurs in `s`.
pub open spec fn occ(s: Seq<RoleGen>, r: RoleGen) -> nat {
    s.to_multiset().count(r)
}

/// The roles that mislead a cop: the godfather and the miller.
pub open spec fn deceivers(s: Seq<RoleGen>) -> nat {
    occ(s, RoleGen::GODFATHER) + occ(s, RoleGen::MILLER)
}

/// The roles that spoil a cop: the deceivers and the stripper.
pub open spec fn cop_spoilers(s: Seq<RoleGen>) -> nat {
    deceivers(s) + occ(s, RoleGen::STRIPPER)
}

/// The town's informed roles: cop, doctor and celeb.
pub open spec fn informed(s: Seq<RoleGen>) -> nat {
    occ(s, RoleGen::COP) + occ(s, RoleGen::DOCTOR) + occ(s, RoleGen::CELEB)
}

/// The town's power roles.
pub open spec fn town_power(s: Seq<RoleGen>) -> nat {
    occ(s, RoleGen::COP) + occ(s, RoleGen::DOCTOR) + occ(s, RoleGen::CELEB) + occ(s, RoleGen::MILLER)
}

/// The mafia's power roles.
pub open spec fn mafia_power(s: Seq<RoleGen>) -> nat {
    occ(s, RoleGen::GODFATHER) + occ(s, RoleGen::STRIPPER) + occ(s, RoleGen::GOON)
}

/// The rogue roles.
pub open spec fn rogues(s: Seq<RoleGen>) -> nat {
    occ(s, RoleGen::IDIOT) + occ(s, RoleGen::GUARD_Town) + occ(s, RoleGen::GUARD_Mafia) + occ(
        s,
        RoleGen::AGENT_Town,
    ) + occ(s, RoleGen::AGENT_Mafia)
}

/// Town roles, plain or not.
pub open spec fn town_all(s: Seq<RoleGen>) -> nat {
    occ(s, RoleGen::TOWN) + town_power(s)
}

/// Mafia roles, plain or not.
pub open spec fn mafia_all(s: Seq<RoleGen>) -> nat {
    occ(s, RoleGen::MAFIA) + mafia_power(s)
}

/// Which of the counted classes a role is in.
pub open spec fn in_class(c: RoleClass, r: RoleGen) -> bool {
    match c {
        RoleClass::Deceiver => r == RoleGen::GODFATHER || r == RoleGen::MILLER,
        RoleClass::Stripper => r == RoleGen::STRIPPER,
        RoleClass::CopSpoiler => r == RoleGen::GODFATHER || r == RoleGen::MILLER || r == RoleGen::STRIPPER,
        RoleClass::Informed => r == RoleGen::COP || r == RoleGen::DOCTOR || r == RoleGen::CELEB,
        RoleClass::TownPower => r == RoleGen::COP || r == RoleGen::DOCTOR || r == RoleGen::CELEB || r
            == RoleGen::MILLER,
        RoleClass::MafiaPower => r == RoleGen::GODFATHER || r == RoleGen::STRIPPER || r == RoleGen::GOON,
        RoleClass::Rogue => r == RoleGen::IDIOT || r == RoleGen::GUARD_Town || r == RoleGen::GUARD_Mafia
            || r == RoleGen::AGENT_Town || r == RoleGen::AGENT_Mafia,
        RoleClass::TownAll => r == RoleGen::TOWN || r == RoleGen::COP || r == RoleGen::DOCTOR || r
            == RoleGen::CELEB || r == RoleGen::MILLER,
        RoleClass::MafiaAll => r == RoleGen::MAFIA || r == RoleGen::GODFATHER || r == RoleGen::STRIPPER
            || r == RoleGen::GOON,
    }
}

/// How many roles of `s` are in the class.
pub open spec fn class_count(c: RoleClass, s: Seq<RoleGen>) -> nat {
    match c {
        RoleClass::Deceiver => deceivers(s),
        RoleClass::Stripper => occ(s, RoleGen::STRIPPER),
        RoleClass::CopSpoiler => cop_spoilers(s),
        RoleClass::Informed => informed(s),
        RoleClass::TownPower => town_power(s),
        RoleClass::MafiaPower => mafia_power(s),
        RoleClass::Rogue => rogues(s),
        RoleClass::TownAll => town_all(s),
        RoleClass::MafiaAll => mafia_all(s),
    }
}

/// The classes of roles that scores and draws count.
#[derive(Debug, Clone, Copy, PartialEq, Eq, Structural)]
pub enum RoleClass {
    Deceiver,
    Stripper,
    CopSpoiler,
    Informed,
    TownPower,
    MafiaPower,
    Rogue,
    TownAll,
    MafiaAll,
}

impl RoleClass {
    pub fn holds(&self, r: &RoleGen) -> (b: bool)
        ensures
            b == in_class(*self, *r),
    {
        match self {
            RoleClass::Deceiver => matches!(r, RoleGen::GODFATHER | RoleGen::MILLER),
            RoleClass::Stripper => matches!(r, RoleGen::STRIPPER),
            RoleClass::CopSpoiler => matches!(r, RoleGen::GODFATHER | RoleGen::MILLER | RoleGen::STRIPPER),
            RoleClass::Informed => matches!(r, RoleGen::COP | RoleGen::DOCTOR | RoleGen::CELEB),
            RoleClass::TownPower => matches!(r, RoleGen::COP | RoleGen::DOCTOR | RoleGen::CELEB | RoleGen::MILLER),
            RoleClass::MafiaPower => matches!(r, RoleGen::GODFATHER | RoleGen::STRIPPER | RoleGen::GOON),
            RoleClass::Rogue => matches!(
                r,
                RoleGen::IDIOT | RoleGen::GUARD_Town | RoleGen::GUARD_Mafia | RoleGen::AGENT_Town
                    | RoleGen::AGENT_Mafia
            ),
            RoleClass::TownAll => matches!(
                r,
                RoleGen::TOWN | RoleGen::COP | RoleGen::DOCTOR | RoleGen::CELEB | RoleGen::MILLER
            ),
            RoleClass::MafiaAll => matches!(
                r,
                RoleGen::MAFIA | RoleGen::GODFATHER | RoleGen::STRIPPER | RoleGen::GOON
            ),
        }
    }
}

pub proof fn lemma_occ_push(s: Seq<RoleGen>, r: RoleGen)
    ensures
        forall|x: RoleGen| #[trigger] occ(s.push(r), x) == occ(s, x) + if x == r { 1nat } else { 0nat },
{
    broadcast use vstd::seq_lib::group_to_multiset_ensures;

    assert(s.push(r).to_multiset() =~= s.to_multiset().insert(r));
}

pub proof fn lemma_class_count_push(c: RoleClass, s: Seq<RoleGen>, r: RoleGen)
    ensures
        class_count(c, s.push(r)) == class_count(c, s) + if in_class(c, r) { 1nat } else { 0nat },
{
    lemma_occ_push(s, r);
    let t = s.push(r);
    assert(occ(t, RoleGen::TOWN) == occ(s, RoleGen::TOWN) + if r == RoleGen::TOWN { 1nat } else { 0nat });
    assert(occ(t, RoleGen::COP) == occ(s, RoleGen::COP) + if r == RoleGen::COP { 1nat } else { 0nat });
    assert(occ(t, RoleGen::DOCTOR) == occ(s, RoleGen::DOCTOR) + if r == RoleGen::DOCTOR { 1nat } else { 0nat });
    assert(occ(t, RoleGen::CELEB) == occ(s, RoleGen::CELEB) + if r == RoleGen::CELEB { 1nat } else { 0nat });
    assert(occ(t, RoleGen::MILLER) == occ(s, RoleGen::MILLER) + if r == RoleGen::MILLER { 1nat } else { 0nat });
    assert(occ(t, RoleGen::MAFIA) == occ(s, RoleGen::MAFIA) + if r == RoleGen::MAFIA { 1nat } else { 0nat });
    assert(occ(t, RoleGen::GODFATHER) == occ(s, RoleGen::GODFATHER) + if r == RoleGen::GODFATHER { 1nat } else { 0nat });
    assert(occ(t, RoleGen::STRIPPER) == occ(s, RoleGen::STRIPPER) + if r == RoleGen::STRIPPER { 1nat } else { 0nat });
    assert(occ(t, RoleGen::GOON) == occ(s, RoleGen::GOON) + if r == RoleGen::GOON { 1nat } else { 0nat });
    assert(occ(t, RoleGen::IDIOT) == occ(s, RoleGen::IDIOT) + if r == RoleGen::IDIOT { 1nat } else { 0nat });
    assert(occ(t, RoleGen::GUARD_Town) == occ(s, RoleGen::GUARD_Town) + if r == RoleGen::GUARD_Town { 1nat } else { 0nat });
    assert(occ(t, RoleGen::GUARD_Mafia) == occ(s, RoleGen::GUARD_Mafia) + if r == RoleGen::GUARD_Mafia { 1nat } else { 0nat });
    assert(occ(t, RoleGen::AGENT_Town) == occ(s, RoleGen::AGENT_Town) + if r == RoleGen::AGENT_Town { 1nat } else { 0nat });
    assert(occ(t, RoleGen::AGENT_Mafia) == occ(s, RoleGen::AGENT_Mafia) + if r == RoleGen::AGENT_Mafia { 1nat } else { 0nat });
}

pub proof fn lemma_class_count_le(c: RoleClass, s: Seq<RoleGen>)
    ensures
        class_count(c, s) <= s.len(),
    decreases s.len(),
{
    if s.len() == 0 {
        broadcast use vstd::seq_lib::group_to_multiset_ensures;

        assert(s.to_multiset() =~= Multiset::empty());
    } else {
        lemma_class_count_le(c, s.drop_last());
        lemma_class_count_push(c, s.drop_last(), s.last());
        assert(s.drop_last().push(s.last()) =~= s);
    }
}

/// How many roles of `roles` are in the class.
pub fn count_roles(roles: &Vec<RoleGen>, class: RoleClass) -> (n: usize)
    ensures
        n == class_count(class, roles@),
{
    let mut n: usize = 0;
    let mut i: usize = 0;
    proof {
        broadcast use vstd::seq_lib::group_to_multiset_ensures;

        assert(roles@.take(0).to_multiset() =~= Multiset::empty());
    }
    while i < roles.len()
        invariant
            i <= roles.len(),
            n == class_count(class, roles@.take(i as int)),
        decreases roles.len() - i,
    {
        proof {
            lemma_class_count_push(class, roles@.take(i as int), roles@[i as int]);
            assert(roles@.take(i as int).push(roles@[i as int]) =~= roles@.take(i + 1));
            lemma_class_count_le(class, roles@.take(i as int));
        }
        if class.holds(&roles[i]) {
            n = n + 1;
        }
        i = i + 1;
    }
    assert(roles@.take(roles.len() as int) =~= roles@);
    n
}

/// 2 to the power `k`.
pub open spec fn two_to(k: nat) -> int
    decreases k,
{
    if k == 0 {
        1
    } else {
        2 * two_to((k - 1) as nat)
    }
}

pub proof fn lemma_two_to_grows(k: nat, m: nat)
    requires
        k <= m,
    ensures
        1 <= two_to(k) <= two_to(m),
    decreases m,
{
    if m > k {
        lemma_two_to_grows(k, (m - 1) as nat);
    } else if k > 0 {
        lemma_two_to_grows((k - 1) as nat, (k - 1) as nat);
    }
}

/// `2i32.pow(k)`.
fn pow2_i32(k: usize) -> (r: i32)
    requires
        k <= 30,
    ensures
        r == two_to(k as nat),
        r >= 1,
{
    proof {
        lemma_two_to_grows(k as nat, 30);
        assert(two_to(30) == 1073741824) by {
            reveal_with_fuel(two_to, 31);
        }
    }
    let mut r: i32 = 1;
    let mut i: usize = 0;
    while i < k
        invariant
            i <= k,
            k <= 30,
            r == two_to(i as nat),
            two_to(k as nat) <= 1073741824,
        decreases k - i,
    {
        proof {
            lemma_two_to_grows((i + 1) as nat, k as nat);
        }
        r = r * 2;
        i = i + 1;
    }
    proof {
        lemma_two_to_grows(k as nat, k as nat);
    }
    r
}

/// `2u32.pow(k)`.
fn pow2_u32(k: usize) -> (r: u32)
    requires
        k <= 31,
    ensures
        r == two_to(k as nat),
        r >= 1,
{
    proof {
        lemma_two_to_grows(k as nat, 31);
        assert(two_to(31) == 2147483648) by {
            reveal_with_fuel(two_to, 32);
        }
    }
    let mut r: u32 = 1;
    let mut i: usize = 0;
    while i < k
        invariant
            i <= k,
            k <= 31,
            r == two_to(i as nat),
            two_to(k as nat) <= 2147483648,
        decreases k - i,
    {
        proof {
            lemma_two_to_grows((i + 1) as nat, k as nat);
        }
        r = r * 2;
        i = i + 1;
    }
    proof {
        lemma_two_to_grows(k as nat, k as nat);
    }
    r
}

/// What a role adds to a set on its own, without synergies.
pub open spec fn base_score(r: RoleGen) -> int {
    match r {
        RoleGen::COP | RoleGen::DOCTOR => 20,
        RoleGen::CELEB => 10,
        RoleGen::STRIPPER => -20,
        RoleGen::GOON => 25,
        _ => 0,
    }
}

/// The roles' base scores added up.
pub open spec fn roles_score(s: Seq<RoleGen>) -> int
    decreases s.len(),
{
    if s.len() == 0 {
        0
    } else {
        roles_score(s.drop_last()) + base_score(s.last())
    }
}

fn base_score_of(r: &RoleGen) -> (v: i32)
    ensures
        v == base_score(*r),
{
    match r {
        RoleGen::TOWN | RoleGen::MAFIA => 0,
        RoleGen::COP | RoleGen::DOCTOR => 20,
        RoleGen::CELEB => 10,
        RoleGen::MILLER => 0,
        RoleGen::GODFATHER => 0,
        RoleGen::STRIPPER => -20,
        RoleGen::GOON => 25,
        _ => 0,
    }
}

/// The roles' base scores added up.
pub fn get_score_of_roles(roles: &Vec<RoleGen>) -> (v: i32)
    requires
        forall|k: int| 0 <= k <= roles@.len() ==> #[trigger] fits_i32(roles_score(roles@.take(k))),
    ensures
        v == roles_score(roles@),
{
    let mut v: i32 = 0;
    let mut i: usize = 0;
    assert(roles@.take(0) =~= Seq::<RoleGen>::empty());
    while i < roles.len()
        invariant
            i <= roles.len(),
            forall|k: int| 0 <= k <= roles@.len() ==> #[trigger] fits_i32(roles_score(roles@.take(k))),
            v == roles_score(roles@.take(i as int)),
        decreases roles.len() - i,
    {
        assert(roles@.take(i + 1).drop_last() =~= roles@.take(i as int));
        assert(fits_i32(roles_score(roles@.take(i + 1))));
        v = v + base_score_of(&roles[i]);
        i = i + 1;
    }
    assert(roles@.take(roles.len() as int) =~= roles@);
    v
}

/// What a new role adds to a set that will hold `all`: a cop is worth
/// less for every role that spoils investigations, a doctor or celeb for
/// every stripper; other roles add their base score.
pub open spec fn role_mod(r: RoleGen, all: Seq<RoleGen>) -> int {
    match r {
        RoleGen::COP => (200int / two_to(cop_spoilers(all))) / 10 + 5,
        RoleGen::DOCTOR => (200int / two_to(occ(all, RoleGen::STRIPPER))) / 10 + 5,
        RoleGen::CELEB => (80int / two_to(occ(all, RoleGen::STRIPPER))) / 10 + 2,
        _ => base_score(r),
    }
}

/// The new roles' additions added up.
pub open spec fn mods(new: Seq<RoleGen>, all: Seq<RoleGen>) -> int
    decreases new.len(),
{
    if new.len() == 0 {
        0
    } else {
        mods(new.drop_last(), all) + role_mod(new.last(), all)
    }
}

/// Five for every informed role; none when their number does not fit an
/// `i32`.
pub open spec fn synergy(k: nat) -> int {
    if k <= i32::MAX {
        5 * (k as int)
    } else {
        0
    }
}

/// What adding `new` to `roles` is worth: each new role's addition, and
/// five for every informed role in the whole set.
pub open spec fn score_mod(roles: Seq<RoleGen>, new: Seq<RoleGen>) -> int {
    mods(new, roles + new) + synergy(informed(roles + new))
}

/// The sums that the worth of adding `new` to `roles` is computed with fit
/// an `i32`: every running total of the additions, the synergy, and the
/// whole.
pub open spec fn score_mod_fits(roles: Seq<RoleGen>, new: Seq<RoleGen>) -> bool {
    &&& roles.len() + new.len() <= usize::MAX
    &&& forall|k: int| 0 <= k <= new.len() ==> #[trigger] fits_i32(mods(new.take(k), roles + new))
    &&& fits_i32(synergy(informed(roles + new)))
    &&& fits_i32(score_mod(roles, new))
}

/// The powers of two the additions of `new` compute fit their types.
pub open spec fn mod_fits(roles: Seq<RoleGen>, new: Seq<RoleGen>) -> bool {
    &&& occ(new, RoleGen::COP) > 0 ==> cop_spoilers(roles + new) <= 30
    &&& occ(new, RoleGen::DOCTOR) > 0 ==> occ(roles + new, RoleGen::STRIPPER) <= 30
    &&& occ(new, RoleGen::CELEB) > 0 ==> occ(roles + new, RoleGen::STRIPPER) <= 31
}

pub proof fn lemma_class_count_add(c: RoleClass, a: Seq<RoleGen>, b: Seq<RoleGen>)
    ensures
        class_count(c, a + b) == class_count(c, a) + class_count(c, b),
{
    vstd::seq_lib::lemma_multiset_commutative(a, b);
}

pub proof fn lemma_occ_in(s: Seq<RoleGen>, i: int)
    requires
        0 <= i < s.len(),
    ensures
        occ(s, s[i]) > 0,
{
    vstd::seq_lib::to_multiset_contains(s, s[i]);
    assert(s.contains(s[i]));
}

/// What adding `new_roles` to `roles` is worth.
#[verifier::rlimit(30)]
pub fn get_score_mod(roles: &Vec<RoleGen>, new_roles: &Vec<RoleGen>) -> (v: i32)
    requires
        mod_fits(roles@, new_roles@),
        score_mod_fits(roles@, new_roles@),
    ensures
        v == score_mod(roles@, new_roles@),
{
    let ghost all = roles@ + new_roles@;
    proof {
        lemma_class_count_le(RoleClass::CopSpoiler, roles@);
        lemma_class_count_le(RoleClass::CopSpoiler, new_roles@);
        lemma_class_count_le(RoleClass::Stripper, roles@);
        lemma_class_count_le(RoleClass::Stripper, new_roles@);
        lemma_class_count_le(RoleClass::Informed, roles@);
        lemma_class_count_le(RoleClass::Informed, new_roles@);
    }
    let spoilers = count_roles(roles, RoleClass::CopSpoiler) + count_roles(new_roles, RoleClass::CopSpoiler);
    let strippers = count_roles(roles, RoleClass::Stripper) + count_roles(new_roles, RoleClass::Stripper);
    let informed_n = count_roles(roles, RoleClass::Informed) + count_roles(new_roles, RoleClass::Informed);
    proof {
        lemma_class_count_add(RoleClass::CopSpoiler, roles@, new_roles@);
        lemma_class_count_add(RoleClass::Stripper, roles@, new_roles@);
        lemma_class_count_add(RoleClass::Informed, roles@, new_roles@);
        lemma_class_count_le(RoleClass::Informed, all);
    }
    let mut v: i32 = 0;
    let mut i: usize = 0;
    assert(new_roles@.take(0) =~= Seq::<RoleGen>::empty());
    while i < new_roles.len()
        invariant
            i <= new_roles.len(),
            all == roles@ + new_roles@,
            mod_fits(roles@, new_roles@),
            score_mod_fits(roles@, new_roles@),
            spoilers == cop_spoilers(all),
            strippers == occ(all, RoleGen::STRIPPER),
            v == mods(new_roles@.take(i as int), all),
        decreases new_roles.len() - i,
    {
        assert(new_roles@.take(i + 1).drop_last() =~= new_roles@.take(i as int));
        assert(fits_i32(mods(new_roles@.take(i + 1), all)));
        let r = new_roles[i];
        proof {
            lemma_occ_in(new_roles@, i as int);
        }
        let add: i32 = match r {
            RoleGen::COP => {
                let p = pow2_i32(spoilers);
                proof {
                    vstd::arithmetic::div_mod::lemma_div_pos_is_pos(200, p as int);
                    vstd::arithmetic::div_mod::lemma_div_nonincreasing(200, p as int);
                }
                ((20 * 10) / p) / 10 + 5
            },
            RoleGen::DOCTOR => {
                let p = pow2_i32(strippers);
                proof {
                    vstd::arithmetic::div_mod::lemma_div_pos_is_pos(200, p as int);
                    vstd::arithmetic::div_mod::lemma_div_nonincreasing(200, p as int);
                }
                ((20 * 10) / p) / 10 + 5
            },
            RoleGen::CELEB => {
                let p = pow2_u32(strippers);
                proof {
                    vstd::arithmetic::div_mod::lemma_div_pos_is_pos(80, p as int);
                    vstd::arithmetic::div_mod::lemma_div_nonincreasing(80, p as int);
                }
                ((80 / p) / 10 + 2) as i32
            },
            _ => base_score_of(&r),
        };
        v = v + add;
        i = i + 1;
    }
    assert(new_roles@.take(new_roles.len() as int) =~= new_roles@);
    let syn: i32 = if informed_n <= 2147483647 {
        (informed_n as i32) * 5
    } else {
        0
    };
    v + syn
}

/// Which of the two weightings a draw uses: the standard one, or the spice
/// one.
#[derive(Debug, Clone, Copy, PartialEq, Eq, Structural)]
pub enum Flavor {
    Standard,
    Spice,
}

/// The copies of a power role in the spice list.
pub open spec fn spice_weight(f: Flavor, r: RoleGen) -> nat {
    match f {
        Flavor::Standard => match r {
            RoleGen::COP | RoleGen::DOCTOR | RoleGen::STRIPPER => 20,
            RoleGen::CELEB | RoleGen::MILLER | RoleGen::GODFATHER | RoleGen::GOON | RoleGen::GUARD_Town
            | RoleGen::AGENT_Town => 15,
            RoleGen::IDIOT | RoleGen::GUARD_Mafia | RoleGen::AGENT_Mafia => 10,
            _ => 0,
        },
        Flavor::Spice => match r {
            RoleGen::COP | RoleGen::DOCTOR => 30,
            RoleGen::STRIPPER => 25,
            RoleGen::CELEB | RoleGen::GOON => 20,
            RoleGen::MILLER | RoleGen::GODFATHER | RoleGen::IDIOT => 10,
            RoleGen::GUARD_Town | RoleGen::AGENT_Town => 8,
            RoleGen::GUARD_Mafia | RoleGen::AGENT_Mafia => 5,
            _ => 0,
        },
    }
}

fn spice_weight_of(f: Flavor, r: RoleGen) -> (w: usize)
    ensures
        w == spice_weight(f, r),
{
    match f {
        Flavor::Standard => match r {
            RoleGen::COP | RoleGen::DOCTOR | RoleGen::STRIPPER => 20,
            RoleGen::CELEB | RoleGen::MILLER | RoleGen::GODFATHER | RoleGen::GOON | RoleGen::GUARD_Town
            | RoleGen::AGENT_Town => 15,
            RoleGen::IDIOT | RoleGen::GUARD_Mafia | RoleGen::AGENT_Mafia => 10,
            _ => 0,
        },
        Flavor::Spice => match r {
            RoleGen::COP | RoleGen::DOCTOR => 30,
            RoleGen::STRIPPER => 25,
            RoleGen::CELEB | RoleGen::GOON => 20,
            RoleGen::MILLER | RoleGen::GODFATHER | RoleGen::IDIOT => 10,
            RoleGen::GUARD_Town | RoleGen::AGENT_Town => 8,
            RoleGen::GUARD_Mafia | RoleGen::AGENT_Mafia => 5,
            _ => 0,
        },
    }
}

/// The power roles of the set, each as often as its weight, in the set's
/// order.
pub open spec fn spice_list(f: Flavor, roles: Seq<RoleGen>) -> Seq<RoleGen>
    decreases roles.len(),
{
    if roles.len() == 0 {
        Seq::empty()
    } else {
        spice_list(f, roles.drop_last()) + rep(roles.last(), spice_weight(f, roles.last()))
    }
}

/// Appends `n` copies of `r`, counting them.
fn push_counted(v: &mut Vec<RoleGen>, r: RoleGen, n: usize)
    ensures
        final(v)@ == old(v)@ + rep(r, n as nat),
        forall|x: RoleGen| #[trigger] occ(final(v)@, x) == occ(old(v)@, x) + if x == r { n as nat } else { 0nat },
{
    let mut i: usize = 0;
    while i < n
        invariant
            i <= n,
            v@ == old(v)@ + rep(r, i as nat),
            forall|x: RoleGen| #[trigger] occ(v@, x) == occ(old(v)@, x) + if x == r { i as nat } else { 0nat },
        decreases n - i,
    {
        proof {
            lemma_occ_push(v@, r);
        }
        v.push(r);
        i = i + 1;
        assert(v@ =~= old(v)@ + rep(r, i as nat));
    }
}

/// The power roles of the set to draw from, weighted.
pub fn create_spice_list_of(f: Flavor, roleset: &RoleSet) -> (l: Vec<RoleGen>)
    requires
        roleset.wf(),
    ensures
        l@ == spice_list(f, roleset.roles@),
        forall|x: RoleGen|
            #[trigger] occ(l@, x) == if roleset.view().contains(x) { spice_weight(f, x) } else { 0 },
{
    let mut l: Vec<RoleGen> = Vec::new();
    proof {
        broadcast use vstd::seq_lib::group_to_multiset_ensures;

        assert(l@.to_multiset() =~= Multiset::empty());
    }
    let mut i: usize = 0;
    while i < roleset.roles.len()
        invariant
            i <= roleset.roles.len(),
            roleset.wf(),
            l@ == spice_list(f, roleset.roles@.take(i as int)),
            forall|x: RoleGen|
                #[trigger] occ(l@, x) == if roleset.roles@.take(i as int).contains(x) {
                    spice_weight(f, x)
                } else {
                    0
                },
        decreases roleset.roles.len() - i,
    {
        let r = roleset.roles[i];
        let ghost pre = roleset.roles@.take(i as int);
        let ghost post = roleset.roles@.take(i + 1);
        assert(post.drop_last() =~= pre);
        assert(post.last() == r);
        push_counted(&mut l, r, spice_weight_of(f, r));
        proof {
            assert(!pre.contains(r)) by {
                if pre.contains(r) {
                    let k = choose|k: int| 0 <= k < pre.len() && pre[k] == r;
                    assert(roleset.roles@[k] == roleset.roles@[i as int]);
                }
            }
            assert forall|x: RoleGen| post.contains(x) <==> (pre.contains(x) || x == r) by {
                if post.contains(x) {
                    let k = choose|k: int| 0 <= k < post.len() && post[k] == x;
                    if k < i {
                        assert(pre[k] == x);
                    }
                }
                if pre.contains(x) {
                    let k = choose|k: int| 0 <= k < pre.len() && pre[k] == x;
                    assert(post[k] == x);
                }
                if x == r {
                    assert(post[i as int] == x);
                }
            }
        }
        i = i + 1;
    }
    assert(roleset.roles@.take(roleset.roles.len() as int) =~= roleset.roles@);
    l
}

/// The power roles of the set to draw from, with the standard weights.
pub fn create_spice_list(roleset: &RoleSet) -> (l: Vec<RoleGen>)
    requires
        roleset.wf(),
    ensures
        l@ == spice_list(Flavor::Standard, roleset.roles@),
{
    create_spice_list_of(Flavor::Standard, roleset)
}

/// `v` brought toward `floor`: the part above it halved `k` times (kept
/// to tenths, then truncated).
pub open spec fn adjust(v: int, floor: int, k: nat) -> int {
    ((v - floor) * 10) / two_to(k) / 10 + floor
}

/// The values of the cop, doctor and celeb in a set: a cop loses value to
/// deceivers; with a stripper in the set the cop, doctor and celeb lose
/// value again, by the same number of halvings.
pub open spec fn informed_values(f: Flavor, s: Seq<RoleGen>) -> (int, int, int) {
    let nd = deceivers(s);
    let ns = occ(s, RoleGen::STRIPPER);
    let (cop, doc, celeb, cf) = match f {
        Flavor::Standard => (20int, 20int, 15int, 5int),
        Flavor::Spice => (16int, 16int, 12int, 8int),
    };
    let cop1 = if nd > 0 { adjust(cop, cf, nd) } else { cop };
    if ns > 0 {
        (adjust(cop1, cf, nd), adjust(doc, 5, nd), adjust(celeb, 8, nd))
    } else {
        (cop1, doc, celeb)
    }
}

/// The score of one role given the values of the informed roles.
pub open spec fn mapped(r: RoleGen, t: (int, int, int)) -> int {
    match r {
        RoleGen::COP => t.0,
        RoleGen::DOCTOR => t.1,
        RoleGen::CELEB => t.2,
        RoleGen::STRIPPER => -20,
        RoleGen::GOON => 20,
        RoleGen::IDIOT => -5,
        RoleGen::GUARD_Town | RoleGen::AGENT_Mafia => 10,
        RoleGen::GUARD_Mafia | RoleGen::AGENT_Town => -10,
        _ => 0,
    }
}

/// The roles' scores added up.
pub open spec fn total(s: Seq<RoleGen>, t: (int, int, int)) -> int
    decreases s.len(),
{
    if s.len() == 0 {
        0
    } else {
        total(s.drop_last(), t) + mapped(s.last(), t)
    }
}

/// The score of a set: each role's value in that set, added up.
pub open spec fn set_score(f: Flavor, s: Seq<RoleGen>) -> int {
    total(s, informed_values(f, s))
}

/// The halvings the score of a set computes fit an `i32`.
pub open spec fn score_fits(s: Seq<RoleGen>) -> bool {
    (deceivers(s) > 0 || occ(s, RoleGen::STRIPPER) > 0) ==> deceivers(s) <= 30
}

fn adjust_exec(v: i32, floor: i32, k: usize) -> (r: i32)
    requires
        0 <= floor <= v <= 100,
        k <= 30,
    ensures
        r == adjust(v as int, floor as int, k as nat),
        floor <= r <= v,
{
    let p = pow2_i32(k);
    proof {
        vstd::arithmetic::div_mod::lemma_div_pos_is_pos((v - floor) * 10, p as int);
        vstd::arithmetic::div_mod::lemma_div_nonincreasing((v - floor) * 10, p as int);
    }
    ((v - floor) * 10) / p / 10 + floor
}

fn mapped_of(r: &RoleGen, cop: i32, doc: i32, celeb: i32) -> (v: i32)
    ensures
        v == mapped(*r, (cop as int, doc as int, celeb as int)),
{
    match r {
        RoleGen::COP => cop,
        RoleGen::DOCTOR => doc,
        RoleGen::CELEB => celeb,
        RoleGen::STRIPPER => -20,
        RoleGen::GOON => 20,
        RoleGen::IDIOT => -5,
        RoleGen::GUARD_Town | RoleGen::AGENT_Mafia => 10,
        RoleGen::GUARD_Mafia | RoleGen::AGENT_Town => -10,
        _ => 0,
    }
}

/// The score of a set with the given weighting.
pub fn get_score_of(f: Flavor, roles: &Vec<RoleGen>) -> (v: i32)
    requires
        score_fits(roles@),
        forall|k: int|
            0 <= k <= roles@.len() ==> #[trigger] fits_i32(total(roles@.take(k), informed_values(f, roles@))),
    ensures
        v == set_score(f, roles@),
        -20 * roles@.len() <= v <= 20 * roles@.len(),
{
    let nd = count_roles(roles, RoleClass::Deceiver);
    let ns = count_roles(roles, RoleClass::Stripper);
    let (mut cop, mut doc, mut celeb, cf): (i32, i32, i32, i32) = match f {
        Flavor::Standard => (20, 20, 15, 5),
        Flavor::Spice => (16, 16, 12, 8),
    };
    if nd > 0 {
        cop = adjust_exec(cop, cf, nd);
    }
    if ns > 0 {
        cop = adjust_exec(cop, cf, nd);
        doc = adjust_exec(doc, 5, nd);
        celeb = adjust_exec(celeb, 8, nd);
    }
    let ghost t = (cop as int, doc as int, celeb as int);
    assert(t == informed_values(f, roles@));
    let mut v: i32 = 0;
    let mut i: usize = 0;
    assert(roles@.take(0) =~= Seq::<RoleGen>::empty());
    while i < roles.len()
        invariant
            i <= roles.len(),
            t == (cop as int, doc as int, celeb as int),
            t == informed_values(f, roles@),
            0 <= cop <= 20 && 0 <= doc <= 20 && 0 <= celeb <= 15,
            forall|k: int| 0 <= k <= roles@.len() ==> #[trigger] fits_i32(total(roles@.take(k), t)),
            v == total(roles@.take(i as int), t),
            -20 * i <= v <= 20 * i,
        decreases roles.len() - i,
    {
        assert(roles@.take(i + 1).drop_last() =~= roles@.take(i as int));
        assert(fits_i32(total(roles@.take(i + 1), t)));
        v = v + mapped_of(&roles[i], cop, doc, celeb);
        i = i + 1;
    }
    assert(roles@.take(roles.len() as int) =~= roles@);
    v
}

/// The score of a set with the standard weighting.
pub fn get_score(roles: &Vec<RoleGen>) -> (v: i32)
    requires
        score_fits(roles@),
        forall|k: int|
            0 <= k <= roles@.len() ==> #[trigger] fits_i32(
                total(roles@.take(k), informed_values(Flavor::Standard, roles@)),
            ),
    ensures
        v == set_score(Flavor::Standard, roles@),
{
    get_score_of(Flavor::Standard, roles)
}

/// A drawn set fits the limits: no more town, mafia and rogue power roles
/// than the teams have room for.
pub open spec fn within(s: Seq<RoleGen>, max_town: int, max_mafia: int, max_rogue: int) -> bool {
    town_power(s) <= max_town && mafia_power(s) <= max_mafia && rogues(s) <= max_rogue
}

/// What a draw of `n` from `list` may give: as many as asked (all when
/// there are fewer), each taken at most as often as the list holds it.
pub open spec fn drawn_from(list: Seq<RoleGen>, n: int, s: Seq<RoleGen>) -> bool {
    &&& s.len() == if n < list.len() { n } else { list.len() as int }
    &&& s.to_multiset().subset_of(list.to_multiset())
}

/// A draw of `n` from `list` that breaks one of the limits.
pub open spec fn misfit(list: Seq<RoleGen>, n: int, max_town: int, max_mafia: int, max_rogue: int, s: Seq<RoleGen>) -> bool {
    drawn_from(list, n, s) && !within(s, max_town, max_mafia, max_rogue)
}

/// Some draw of `n` from `list` can break one of the limits; when none can,
/// the first draw fits.
pub open spec fn can_misfit(list: Seq<RoleGen>, n: int, max_town: int, max_mafia: int, max_rogue: int) -> bool {
    exists|s: Seq<RoleGen>| #[trigger] misfit(list, n, max_town, max_mafia, max_rogue, s)
}

/// Whether a drawn set fits the limits.
pub fn fits_limits(roles: &Vec<RoleGen>, max_town: usize, max_mafia: usize, max_rogue: usize) -> (b: bool)
    ensures
        b == within(roles@, max_town as int, max_mafia as int, max_rogue as int),
{
    let n_town = count_roles(roles, RoleClass::TownPower);
    let n_mafia = count_roles(roles, RoleClass::MafiaPower);
    let n_rogue = count_roles(roles, RoleClass::Rogue);
    n_town <= max_town && n_mafia <= max_mafia && n_rogue <= max_rogue
}

/// Draws `n` power roles from the set's spice list until the draw fits the
/// limits, giving up after `tries` draws that do not.
pub fn gen_role_set_of(
    f: Flavor,
    tries: usize,
    max_town: usize,
    max_mafia: usize,
    max_rogue: usize,
    n: usize,
    roleset: &RoleSet,
) -> (r: Result<Vec<RoleGen>, ()>)
    requires
        roleset.wf(),
        tries > 0,
    ensures
        r matches Ok(s) ==> drawn_from(spice_list(f, roleset.roles@), n as int, s@) && within(
            s@,
            max_town as int,
            max_mafia as int,
            max_rogue as int,
        ),
        r is Err ==> can_misfit(
            spice_list(f, roleset.roles@),
            n as int,
            max_town as int,
            max_mafia as int,
            max_rogue as int,
        ),
{
    let list = create_spice_list_of(f, roleset);
    let mut failed: usize = 0;
    loop
        invariant
            list@ == spice_list(f, roleset.roles@),
            failed < tries,
        decreases tries - failed,
    {
        let roles = pick_several(&list, n);
        if !fits_limits(&roles, max_town, max_mafia, max_rogue) {
            assert(misfit(list@, n as int, max_town as int, max_mafia as int, max_rogue as int, roles@));
            failed = failed + 1;
            if failed >= tries {
                return Err(());
            }
            continue;
        }
        return Ok(roles);
    }
}

/// Draws `n` power roles from the standard spice list; gives up after 100
/// draws that do not fit.
pub fn gen_role_set(max_town: usize, max_mafia: usize, max_rogue: usize, n: usize, roleset: &RoleSet) -> (r: Result<
    Vec<RoleGen>,
    (),
>)
    requires
        roleset.wf(),
    ensures
        r matches Ok(s) ==> drawn_from(spice_list(Flavor::Standard, roleset.roles@), n as int, s@)
            && within(s@, max_town as int, max_mafia as int, max_rogue as int),
        r is Err ==> can_misfit(
            spice_list(Flavor::Standard, roleset.roles@),
            n as int,
            max_town as int,
            max_mafia as int,
            max_rogue as int,
        ),
{
    gen_role_set_of(Flavor::Standard, 100, max_town, max_mafia, max_rogue, n, roleset)
}

/// The balance of `n_town` town, `n_mafia` mafia and `n_rogue` rogues:
/// ten per town player beyond twice the mafia and one, and ten less when
/// the number of players is even.
pub open spec fn teams_score(n_town: int, n_mafia: int, n_rogue: int) -> int {
    (n_town - 1 - n_mafia * 2) * 10 + (-10 + ((n_town + n_mafia + n_rogue) % 2) * 10)
}

/// The balance of the teams.
pub fn get_teams_score(n_town: usize, n_mafia: usize, n_rogue: usize) -> (s: i32)
    requires
        n_town + n_mafia + n_rogue <= usize::MAX,
        balance_fits(n_town as int, n_mafia as int),
        fits_i32(teams_score(n_town as int, n_mafia as int, n_rogue as int)),
    ensures
        s == teams_score(n_town as int, n_mafia as int, n_rogue as int),
{
    let parity = ((n_town + n_mafia + n_rogue) % 2) as i32;
    let n = -10 + parity * 10;
    (n_town as i32 - 1 - n_mafia as i32 * 2) * 10 + n
}

/// The balance of the teams with the rogues' score.
pub open spec fn n_score(n_town: int, n_mafia: int, rogue_score: int) -> int {
    (n_town - 1 - n_mafia * 2) * 10 + rogue_score
}

/// The balance of the teams with the rogues' score.
pub fn get_n_score(n_town: usize, n_mafia: usize, rogue_score: i32) -> (s: i32)
    requires
        balance_fits(n_town as int, n_mafia as int),
        fits_i32(n_score(n_town as int, n_mafia as int, rogue_score as int)),
    ensures
        s == n_score(n_town as int, n_mafia as int, rogue_score as int),
{
    (n_town as i32 - 1 - n_mafia as i32 * 2) * 10 + rogue_score
}

/// The team sizes for `n` players with `n_mafia` mafia and `n_rogue`
/// rogues: town and rogues; with no room left for town, the rogues play
/// town instead.
pub open spec fn team_sizes(n: int, n_mafia: int, n_rogue: int) -> (int, int) {
    let t = n - n_mafia - n_rogue;
    if t == 0 {
        (n_rogue, 0)
    } else {
        (t, n_rogue)
    }
}

/// The team balance a flavor of the spice draw adds.
pub open spec fn team_balance(f: Flavor, n: int, n_town: int, n_mafia: int, n_rogue: int) -> int {
    match f {
        Flavor::Standard => teams_score(n_town, n_mafia, n_rogue),
        Flavor::Spice => super::rolegen::spice::town_v_maf_score(n, n_mafia),
    }
}

/// What a spice draw deals: a drawn set of power roles that fits the teams,
/// then plain town for the rest of the town and rogues, then plain mafia
/// for the rest of the mafia; the score is the set's score and the team
/// balance.
pub open spec fn dealt_spice(
    f: Flavor,
    roleset: Seq<RoleGen>,
    n: int,
    n_mafia: int,
    n_rogue: int,
    n_spice: int,
    score: int,
    roles: Seq<RoleGen>,
) -> bool {
    exists|core: Seq<RoleGen>| #[trigger] spice_core(f, roleset, n, n_mafia, n_rogue, n_spice, score, roles, core)
}

/// `roles` is `core` dealt as `dealt_spice` says.
pub open spec fn spice_core(
    f: Flavor,
    roleset: Seq<RoleGen>,
    n: int,
    n_mafia: int,
    n_rogue: int,
    n_spice: int,
    score: int,
    roles: Seq<RoleGen>,
    core: Seq<RoleGen>,
) -> bool {
    let t = team_sizes(n, n_mafia, n_rogue).0;
    let r = team_sizes(n, n_mafia, n_rogue).1;
    &&& drawn_from(spice_list(f, roleset), n_spice, core)
    &&& within(core, t, n_mafia, r)
    &&& roles == core + rep(RoleGen::TOWN, (t + r - town_power(core) - rogues(core)) as nat) + rep(
        RoleGen::MAFIA,
        (n_mafia - mafia_power(core)) as nat,
    )
    &&& score == set_score(f, core) + team_balance(f, n, t, n_mafia, r)
}

pub proof fn lemma_occ_rep(r: RoleGen, k: nat)
    ensures
        forall|x: RoleGen| #[trigger] occ(rep(r, k), x) == if x == r { k } else { 0 },
    decreases k,
{
    if k == 0 {
        broadcast use vstd::seq_lib::group_to_multiset_ensures;

        assert(rep(r, 0).to_multiset() =~= Multiset::empty());
    } else {
        lemma_occ_rep(r, (k - 1) as nat);
        lemma_occ_push(rep(r, (k - 1) as nat), r);
        assert(rep(r, (k - 1) as nat).push(r) =~= rep(r, k));
    }
}

pub proof fn lemma_occ_add(a: Seq<RoleGen>, b: Seq<RoleGen>)
    ensures
        forall|x: RoleGen| #[trigger] occ(a + b, x) == occ(a, x) + occ(b, x),
{
    vstd::seq_lib::lemma_multiset_commutative(a, b);
}

/// Every role is counted once among the fourteen.
pub open spec fn occ_sum(s: Seq<RoleGen>) -> nat {
    occ(s, RoleGen::TOWN) + town_power(s) + occ(s, RoleGen::MAFIA) + mafia_power(s) + rogues(s)
}

pub proof fn lemma_len_is_occ_sum(s: Seq<RoleGen>)
    ensures
        s.len() == occ_sum(s),
    decreases s.len(),
{
    if s.len() == 0 {
        broadcast use vstd::seq_lib::group_to_multiset_ensures;

        assert(s.to_multiset() =~= Multiset::empty());
    } else {
        lemma_len_is_occ_sum(s.drop_last());
        lemma_occ_push(s.drop_last(), s.last());
        assert(s.drop_last().push(s.last()) =~= s);
    }
}

/// A spice draw deals every player a role: as many roles as players,
/// exactly `n_mafia` of them mafia, and the rest town or rogue.
pub proof fn law_spice_deals_everyone(
    f: Flavor,
    roleset: Seq<RoleGen>,
    n: int,
    n_mafia: int,
    n_rogue: int,
    n_spice: int,
    score: int,
    roles: Seq<RoleGen>,
)
    requires
        0 <= n_mafia,
        0 <= n_rogue,
        n_mafia + n_rogue <= n,
        dealt_spice(f, roleset, n, n_mafia, n_rogue, n_spice, score, roles),
    ensures
        roles.len() == n,
        mafia_all(roles) == n_mafia,
        town_all(roles) + rogues(roles) == n - n_mafia,
{
    let t = team_sizes(n, n_mafia, n_rogue).0;
    let r = team_sizes(n, n_mafia, n_rogue).1;
    let core = choose|core: Seq<RoleGen>| spice_core(f, roleset, n, n_mafia, n_rogue, n_spice, score, roles, core);
    let list = spice_list(f, roleset);
    lemma_spice_list_plain(f, roleset);
    assert(occ(core, RoleGen::TOWN) <= occ(list, RoleGen::TOWN));
    assert(occ(core, RoleGen::MAFIA) <= occ(list, RoleGen::MAFIA));
    lemma_len_is_occ_sum(core);
    let towns = rep(RoleGen::TOWN, (t + r - town_power(core) - rogues(core)) as nat);
    let mafias = rep(RoleGen::MAFIA, (n_mafia - mafia_power(core)) as nat);
    lemma_occ_rep(RoleGen::TOWN, (t + r - town_power(core) - rogues(core)) as nat);
    lemma_occ_rep(RoleGen::MAFIA, (n_mafia - mafia_power(core)) as nat);
    lemma_occ_add(core, towns);
    lemma_occ_add(core + towns, mafias);
    assert(roles == (core + towns) + mafias);
}

/// The spice list holds no plain town and no plain mafia.
pub proof fn lemma_spice_list_plain(f: Flavor, roles: Seq<RoleGen>)
    ensures
        occ(spice_list(f, roles), RoleGen::TOWN) == 0,
        occ(spice_list(f, roles), RoleGen::MAFIA) == 0,
    decreases roles.len(),
{
    if roles.len() == 0 {
        broadcast use vstd::seq_lib::group_to_multiset_ensures;

        assert(spice_list(f, roles).to_multiset() =~= Multiset::empty());
    } else {
        lemma_spice_list_plain(f, roles.drop_last());
        lemma_occ_add(spice_list(f, roles.drop_last()), rep(roles.last(), spice_weight(f, roles.last())));
        lemma_occ_rep(roles.last(), spice_weight(f, roles.last()));
    }
}

fn abs_i32(x: i32) -> (r: i32)
    requires
        x > i32::MIN,
    ensures
        r == if x < 0 { -x } else { x as int },
{
    if x < 0 {
        -x
    } else {
        x
    }
}

pub proof fn lemma_adjust_range(v: int, floor: int, k: nat)
    requires
        0 <= floor <= v,
    ensures
        floor <= adjust(v, floor, k) <= v,
{
    lemma_two_to_grows(0, k);
    vstd::arithmetic::div_mod::lemma_div_pos_is_pos((v - floor) * 10, two_to(k));
    vstd::arithmetic::div_mod::lemma_div_nonincreasing((v - floor) * 10, two_to(k));
    vstd::arithmetic::div_mod::lemma_div_pos_is_pos(((v - floor) * 10) / two_to(k), 10);
    vstd::arithmetic::div_mod::lemma_div_nonincreasing(((v - floor) * 10) / two_to(k), 10);
    assert(((v - floor) * 10) / 10 == v - floor);
    vstd::arithmetic::div_mod::lemma_div_is_ordered(((v - floor) * 10) / two_to(k), (v - floor) * 10, 10);
}

/// The cop, doctor and celeb are each worth between nothing and twenty.
pub proof fn lemma_informed_range(f: Flavor, s: Seq<RoleGen>)
    ensures
        0 <= informed_values(f, s).0 <= 20,
        0 <= informed_values(f, s).1 <= 20,
        0 <= informed_values(f, s).2 <= 20,
{
    let nd = deceivers(s);
    let (cop, cf): (int, int) = match f {
        Flavor::Standard => (20int, 5int),
        Flavor::Spice => (16int, 8int),
    };
    lemma_adjust_range(cop, cf, nd);
    let cop1 = if nd > 0 { adjust(cop, cf, nd) } else { cop };
    lemma_adjust_range(cop1, cf, nd);
    match f {
        Flavor::Standard => {
            lemma_adjust_range(20, 5, nd);
            lemma_adjust_range(15, 8, nd);
        },
        Flavor::Spice => {
            lemma_adjust_range(16, 5, nd);
            lemma_adjust_range(12, 8, nd);
        },
    }
}

/// Each role is worth at most twenty either way, so a set's total is at
/// most twenty per role either way.
pub proof fn lemma_total_bound(s: Seq<RoleGen>, t: (int, int, int))
    requires
        0 <= t.0 <= 20,
        0 <= t.1 <= 20,
        0 <= t.2 <= 20,
    ensures
        -20 * s.len() <= total(s, t) <= 20 * s.len(),
    decreases s.len(),
{
    if s.len() > 0 {
        lemma_total_bound(s.drop_last(), t);
    }
}

/// A set of at most `d` roles, where twenty per role fits an `i32`, is
/// scored without overflow.
pub proof fn lemma_score_sums_fit(f: Flavor, s: Seq<RoleGen>, d: int)
    requires
        s.len() <= d,
        20 * d <= i32::MAX,
    ensures
        forall|k: int| 0 <= k <= s.len() ==> #[trigger] fits_i32(total(s.take(k), informed_values(f, s))),
        -20 * s.len() <= set_score(f, s) <= 20 * s.len(),
{
    lemma_informed_range(f, s);
    assert forall|k: int| 0 <= k <= s.len() implies #[trigger] fits_i32(total(s.take(k), informed_values(f, s))) by {
        lemma_total_bound(s.take(k), informed_values(f, s));
    }
    lemma_total_bound(s, informed_values(f, s));
}

/// `|x|`.
pub open spec fn abs_int(x: int) -> int {
    if x < 0 {
        -x
    } else {
        x
    }
}

/// How far a set is from even with the teams' balance `team_score`.
pub open spec fn imbalance(f: Flavor, team_score: int, s: Seq<RoleGen>) -> int {
    abs_int(set_score(f, s) + team_score)
}

/// The set nearest to even: the first of the sets, replaced by each later
/// one that is strictly nearer.
pub open spec fn best_of(f: Flavor, team_score: int, sets: Seq<Seq<RoleGen>>) -> int
    decreases sets.len(),
{
    if sets.len() <= 1 {
        0
    } else {
        let b = best_of(f, team_score, sets.drop_last());
        if imbalance(f, team_score, sets[b]) > imbalance(f, team_score, sets.last()) {
            sets.len() - 1
        } else {
            b
        }
    }
}

/// The best set is one of the sets, and no set is nearer to even.
pub proof fn lemma_best_of(f: Flavor, team_score: int, sets: Seq<Seq<RoleGen>>)
    requires
        sets.len() > 0,
    ensures
        0 <= best_of(f, team_score, sets) < sets.len(),
        forall|i: int|
            0 <= i < sets.len() ==> imbalance(f, team_score, sets[best_of(f, team_score, sets)]) <= imbalance(
                f,
                team_score,
                #[trigger] sets[i],
            ),
    decreases sets.len(),
{
    if sets.len() > 1 {
        lemma_best_of(f, team_score, sets.drop_last());
        assert forall|i: int| 0 <= i < sets.len() - 1 implies sets.drop_last()[i] == #[trigger] sets[i] by {}
    }
}

/// The contents of the drawn sets.
pub open spec fn sets_view(sets: Seq<Vec<RoleGen>>) -> Seq<Seq<RoleGen>> {
    sets.map_values(|v: Vec<RoleGen>| v@)
}

/// A set is scored, and its balance with `team_score` taken, without
/// overflow.
pub open spec fn balance_computes(f: Flavor, team_score: int, s: Seq<RoleGen>) -> bool {
    &&& score_fits(s)
    &&& forall|k: int| 0 <= k <= s.len() ==> #[trigger] fits_i32(total(s.take(k), informed_values(f, s)))
    &&& -i32::MAX <= set_score(f, s) + team_score <= i32::MAX
}

/// The position of the set nearest to even with the teams' balance
/// `team_score`: the first such set.
pub fn best_balanced(f: Flavor, sets: &Vec<Vec<RoleGen>>, team_score: i32) -> (b: usize)
    requires
        sets@.len() > 0,
        forall|i: int| 0 <= i < sets@.len() ==> #[trigger] balance_computes(f, team_score as int, sets@[i]@),
    ensures
        b == best_of(f, team_score as int, sets_view(sets@)),
        b < sets@.len(),
{
    let ghost v = sets_view(sets@);
    assert(balance_computes(f, team_score as int, sets@[0]@));
    let mut best: usize = 0;
    let mut best_score = abs_i32(get_score_of(f, &sets[0]) + team_score);
    let mut k: usize = 1;
    assert(v.take(1).drop_last().len() == 0);
    while k < sets.len()
        invariant
            1 <= k <= sets@.len(),
            v == sets_view(sets@),
            forall|i: int| 0 <= i < sets@.len() ==> #[trigger] balance_computes(f, team_score as int, sets@[i]@),
            best == best_of(f, team_score as int, v.take(k as int)),
            best < k,
            best_score == imbalance(f, team_score as int, v[best as int]),
        decreases sets@.len() - k,
    {
        assert(balance_computes(f, team_score as int, sets@[k as int]@));
        let score = abs_i32(get_score_of(f, &sets[k]) + team_score);
        assert(v.take(k + 1).drop_last() =~= v.take(k as int));
        assert(v.take(k + 1)[best as int] == v[best as int]);
        if best_score > score {
            best = k;
            best_score = score;
        }
        k = k + 1;
    }
    assert(v.take(k as int) =~= v);
    best
}

/// A drawn set stays within the spice list, so its score fits.
proof fn lemma_drawn_fits(f: Flavor, roleset: RoleSet, list: Seq<RoleGen>, n: int, core: Seq<RoleGen>)
    requires
        roleset.wf(),
        forall|x: RoleGen|
            #[trigger] occ(list, x) == if roleset.view().contains(x) { spice_weight(f, x) } else { 0 },
        drawn_from(list, n, core),
    ensures
        score_fits(core),
        core.len() <= list.len(),
{
    assert(occ(core, RoleGen::GODFATHER) <= occ(list, RoleGen::GODFATHER));
    assert(occ(core, RoleGen::MILLER) <= occ(list, RoleGen::MILLER));
}

/// The sums of a spice draw fit an `i32` whatever is drawn: the teams'
/// balance is computed without overflow, and stays far enough from the
/// ends that a drawn set's score (at most twenty per drawn role either
/// way) can be added to it. The doubled number of players fits a `usize`.
pub open spec fn spice_fits(f: Flavor, roles: Seq<RoleGen>, n: int, n_mafia: int, n_rogue: int, n_spice: int) -> bool {
    let t = team_sizes(n, n_mafia, n_rogue).0;
    let r = team_sizes(n, n_mafia, n_rogue).1;
    let list_len = spice_list(f, roles).len() as int;
    let d = if n_spice < list_len { n_spice } else { list_len };
    &&& 2 * n <= usize::MAX
    &&& match f {
        Flavor::Standard => balance_fits(t, n_mafia) && fits_i32(teams_score(t, n_mafia, r)),
        Flavor::Spice => super::rolegen::spice::town_v_maf_fits(n, n_mafia),
    }
    &&& 20 * d - i32::MAX <= team_balance(f, n, t, n_mafia, r) <= i32::MAX - 20 * d
}

/// `sets` are `2n + 1` drawn sets that fit the teams.
pub open spec fn fitting_draws(
    f: Flavor,
    roleset: Seq<RoleGen>,
    n: int,
    n_mafia: int,
    n_rogue: int,
    n_spice: int,
    sets: Seq<Seq<RoleGen>>,
) -> bool {
    let t = team_sizes(n, n_mafia, n_rogue).0;
    let r = team_sizes(n, n_mafia, n_rogue).1;
    &&& sets.len() == 2 * n + 1
    &&& forall|i: int|
        0 <= i < sets.len() ==> drawn_from(spice_list(f, roleset), n_spice, #[trigger] sets[i]) && within(
            sets[i],
            t,
            n_mafia,
            r,
        )
}

/// The set nearest to even among `sets`, with the teams' balance.
pub open spec fn nearest(f: Flavor, n: int, n_mafia: int, n_rogue: int, sets: Seq<Seq<RoleGen>>) -> Seq<RoleGen> {
    let t = team_sizes(n, n_mafia, n_rogue).0;
    let r = team_sizes(n, n_mafia, n_rogue).1;
    sets[best_of(f, team_balance(f, n, t, n_mafia, r), sets)]
}

/// `roles` and `score` are dealt from the set nearest to even among
/// `2n + 1` drawn sets that fit the teams.
pub open spec fn dealt_best(
    f: Flavor,
    roleset: Seq<RoleGen>,
    n: int,
    n_mafia: int,
    n_rogue: int,
    n_spice: int,
    score: int,
    roles: Seq<RoleGen>,
    sets: Seq<Seq<RoleGen>>,
) -> bool {
    &&& fitting_draws(f, roleset, n, n_mafia, n_rogue, n_spice, sets)
    &&& spice_core(f, roleset, n, n_mafia, n_rogue, n_spice, score, roles, nearest(f, n, n_mafia, n_rogue, sets))
}

/// The spice draw: keeps the best-balanced of `2n + 1` drawn sets, then
/// fills the teams with plain roles. `n_mafia`, `n_rogue` and `n_spice` are
/// the drawn numbers of mafia, rogues and power roles.
pub fn get_roles_spice_of(
    f: Flavor,
    tries: usize,
    n: usize,
    n_mafia: usize,
    n_rogue: usize,
    n_spice: usize,
    roleset: &RoleSet,
) -> (r: Result<(i32, Vec<RoleGen>), ()>)
    requires
        roleset.wf(),
        tries > 0,
        n_mafia + n_rogue <= n,
        n_spice <= n,
        spice_fits(f, roleset.roles@, n as int, n_mafia as int, n_rogue as int, n_spice as int),
    ensures
        r matches Ok((score, roles)) ==> dealt_spice(
            f,
            roleset.roles@,
            n as int,
            n_mafia as int,
            n_rogue as int,
            n_spice as int,
            score as int,
            roles@,
        ),
        r matches Ok((score, roles)) ==> exists|sets: Seq<Seq<RoleGen>>|
            #[trigger] fitting_draws(f, roleset.roles@, n as int, n_mafia as int, n_rogue as int, n_spice as int, sets)
                && spice_core(
                f,
                roleset.roles@,
                n as int,
                n_mafia as int,
                n_rogue as int,
                n_spice as int,
                score as int,
                roles@,
                nearest(f, n as int, n_mafia as int, n_rogue as int, sets),
            ),
        r is Err ==> can_misfit(
            spice_list(f, roleset.roles@),
            n_spice as int,
            team_sizes(n as int, n_mafia as int, n_rogue as int).0,
            n_mafia as int,
            team_sizes(n as int, n_mafia as int, n_rogue as int).1,
        ),
{
    let mut rogue_team = n_rogue;
    let mut n_town = n - n_mafia - rogue_team;
    if n_town == 0 {
        n_town = rogue_team;
        rogue_team = 0;
    }
    assert(team_sizes(n as int, n_mafia as int, n_rogue as int) == (n_town as int, rogue_team as int));
    let ghost list = spice_list(f, roleset.roles@);
    let first = match gen_role_set_of(f, tries, n_town, n_mafia, rogue_team, n_spice, roleset) {
        Ok(s) => s,
        Err(e) => {
            return Err(e);
        },
    };
    let mut sets: Vec<Vec<RoleGen>> = Vec::new();
    sets.push(first);
    let mut k: usize = 0;
    #[verifier::loop_isolation(false)]
    while k < 2 * n
        invariant
            sets@.len() == k + 1,
            k <= 2 * n,
            forall|i: int|
                0 <= i < sets@.len() ==> drawn_from(list, n_spice as int, #[trigger] sets@[i]@) && within(
                    sets@[i]@,
                    n_town as int,
                    n_mafia as int,
                    rogue_team as int,
                ),
        decreases 2 * n - k,
    {
        let set = match gen_role_set_of(f, tries, n_town, n_mafia, rogue_team, n_spice, roleset) {
            Ok(s) => s,
            Err(e) => {
                return Err(e);
            },
        };
        sets.push(set);
        k = k + 1;
    }
    let ghost drawn = sets_view(sets@);
    let (score, roles) = deal_best(f, n, n_mafia, n_rogue, n_spice, roleset, sets);
    assert(dealt_best(
        f,
        roleset.roles@,
        n as int,
        n_mafia as int,
        n_rogue as int,
        n_spice as int,
        score as int,
        roles@,
        drawn,
    ));
    Ok((score, roles))
}

/// Keeps the set nearest to even among the drawn `sets`, then fills the
/// teams with plain roles.
fn deal_best(
    f: Flavor,
    n: usize,
    n_mafia: usize,
    n_rogue: usize,
    n_spice: usize,
    roleset: &RoleSet,
    sets: Vec<Vec<RoleGen>>,
) -> (r: (i32, Vec<RoleGen>))
    requires
        roleset.wf(),
        n_mafia + n_rogue <= n,
        n_spice <= n,
        spice_fits(f, roleset.roles@, n as int, n_mafia as int, n_rogue as int, n_spice as int),
        sets@.len() == 2 * n + 1,
        forall|i: int|
            0 <= i < sets@.len() ==> drawn_from(spice_list(f, roleset.roles@), n_spice as int, #[trigger] sets@[i]@)
                && within(
                sets@[i]@,
                team_sizes(n as int, n_mafia as int, n_rogue as int).0,
                n_mafia as int,
                team_sizes(n as int, n_mafia as int, n_rogue as int).1,
            ),
    ensures
        dealt_spice(
            f,
            roleset.roles@,
            n as int,
            n_mafia as int,
            n_rogue as int,
            n_spice as int,
            r.0 as int,
            r.1@,
        ),
        dealt_best(
            f,
            roleset.roles@,
            n as int,
            n_mafia as int,
            n_rogue as int,
            n_spice as int,
            r.0 as int,
            r.1@,
            sets_view(sets@),
        ),
{
    let ghost given_rogue = n_rogue as int;
    let mut n_rogue = n_rogue;
    let mut n_town = n - n_mafia - n_rogue;
    if n_town == 0 {
        n_town = n_rogue;
        n_rogue = 0;
    }
    assert(team_sizes(n as int, n_mafia as int, given_rogue) == (n_town as int, n_rogue as int));
    let team_score = match f {
        Flavor::Standard => get_teams_score(n_town, n_mafia, n_rogue),
        Flavor::Spice => super::rolegen::spice::get_town_v_maf_score(n, n_mafia),
    };
    let ghost list = spice_list(f, roleset.roles@);
    let ghost d = if (n_spice as int) < list.len() { n_spice as int } else { list.len() as int };
    let exec_list = create_spice_list_of(f, roleset);
    proof {
        assert forall|i: int| 0 <= i < sets@.len() implies #[trigger] balance_computes(
            f,
            team_score as int,
            sets@[i]@,
        ) by {
            assert(drawn_from(list, n_spice as int, sets@[i]@));
            lemma_drawn_fits(f, *roleset, exec_list@, n_spice as int, sets@[i]@);
            lemma_score_sums_fit(f, sets@[i]@, d);
        }
    }
    let b = best_balanced(f, &sets, team_score);
    let ghost all = sets_view(sets@);
    let ghost old_sets = sets@;
    let mut sets = sets;
    let mut best_set = sets.remove(b);
    assert(best_set@ == all[b as int]);
    proof {
        assert(balance_computes(f, team_score as int, old_sets[b as int]@));
        assert(drawn_from(list, n_spice as int, old_sets[b as int]@));
    }
    let best_score = get_score_of(f, &best_set) + team_score;
    let current_town = count_roles(&best_set, RoleClass::TownAll);
    let current_mafia = count_roles(&best_set, RoleClass::MafiaAll);
    let current_rogue = count_roles(&best_set, RoleClass::Rogue);
    proof {
        lemma_spice_list_plain(f, roleset.roles@);
        assert(occ(best_set@, RoleGen::TOWN) <= occ(list, RoleGen::TOWN));
        assert(occ(best_set@, RoleGen::MAFIA) <= occ(list, RoleGen::MAFIA));
    }
    let ghost core = best_set@;
    assert(current_town == town_power(core));
    assert(current_mafia == mafia_power(core));
    assert(within(core, n_town as int, n_mafia as int, n_rogue as int));
    push_copies(&mut best_set, RoleGen::TOWN, n_town + n_rogue - current_town - current_rogue);
    push_copies(&mut best_set, RoleGen::MAFIA, n_mafia - current_mafia);
    assert(best_set@ == core + rep(
        RoleGen::TOWN,
        (n_town + n_rogue - town_power(core) - rogues(core)) as nat,
    ) + rep(RoleGen::MAFIA, (n_mafia - mafia_power(core)) as nat));
    assert(drawn_from(spice_list(f, roleset.roles@), n_spice as int, core));
    assert(best_score == set_score(f, core) + team_balance(f, n as int, n_town as int, n_mafia as int, n_rogue as int));
    assert(spice_core(
        f,
        roleset.roles@,
        n as int,
        n_mafia as int,
        given_rogue,
        n_spice as int,
        best_score as int,
        best_set@,
        core,
    ));
    assert(core == all[best_of(f, team_score as int, all)]);
    assert forall|i: int| 0 <= i < all.len() implies drawn_from(
        spice_list(f, roleset.roles@),
        n_spice as int,
        #[trigger] all[i],
    ) && within(all[i], n_town as int, n_mafia as int, n_rogue as int) by {
        assert(all[i] == old_sets[i]@);
    }
    (best_score, best_set)
}

/// `x` fits an `i32`.
fn fits_i32_check(x: i128) -> (b: bool)
    ensures
        b == fits_i32(x as int),
{
    -2147483648 <= x && x <= 2147483647
}

/// Whether the teams' balance is computed in `i32` without overflow.
pub fn balance_fits_check(n_town: usize, n_mafia: usize) -> (b: bool)
    ensures
        b == balance_fits(n_town as int, n_mafia as int),
{
    let t = n_town as i128;
    let m = n_mafia as i128;
    t <= 2147483647 && m <= 2147483647 && fits_i32_check(m * 2) && fits_i32_check(t - 1 - m * 2)
        && fits_i32_check((t - 1 - m * 2) * 10)
}

/// Whether one try of the team draw computes its sums in `i32` whatever is
/// drawn.
pub fn team_roles_fit_check(n_town: usize, n_mafia: usize, rogue_score: i32, noise: i32) -> (b: bool)
    ensures
        b == team_roles_fit(n_town as int, n_mafia as int, rogue_score as int, noise as int),
{
    if !balance_fits_check(n_town, n_mafia) {
        return false;
    }
    let ns = (n_town as i128 - 1 - n_mafia as i128 * 2) * 10 + rogue_score as i128;
    let a = ns + rogue_score as i128;
    let abs_a = if a < 0 { -a } else { a };
    let abs_noise = if noise < 0 { -(noise as i128) } else { noise as i128 };
    fits_i32_check(ns) && abs_a + abs_noise + 10000 <= 2147483647
}

/// Whether a spice draw computes its sums in `i32` whatever is drawn.
pub fn spice_fits_check(f: Flavor, n: usize, n_mafia: usize, n_rogue: usize, n_spice: usize, roleset: &RoleSet) -> (b: bool)
    requires
        roleset.wf(),
        n_mafia + n_rogue <= n,
    ensures
        b == spice_fits(f, roleset.roles@, n as int, n_mafia as int, n_rogue as int, n_spice as int),
{
    let mut t = n - n_mafia - n_rogue;
    let mut r = n_rogue;
    if t == 0 {
        t = n_rogue;
        r = 0;
    }
    assert(team_sizes(n as int, n_mafia as int, n_rogue as int) == (t as int, r as int));
    let list = create_spice_list_of(f, roleset);
    let d: i128 = if n_spice < list.len() { n_spice as i128 } else { list.len() as i128 };
    if n as i128 * 2 > usize::MAX as i128 {
        return false;
    }
    let m = n_mafia as i128;
    let balance: i128 = match f {
        Flavor::Standard => {
            if !balance_fits_check(t, n_mafia) {
                return false;
            }
            let tt = t as i128;
            let score = (tt - 1 - m * 2) * 10 + (-10 + ((tt + m + r as i128) % 2) * 10);
            if !fits_i32_check(score) {
                return false;
            }
            score
        },
        Flavor::Spice => {
            let half = (n as i128 - m) / 2;
            let score = half * 10 - m * 15;
            if !(m <= 2147483647 && half <= 2147483647 && fits_i32_check(half * 10) && fits_i32_check(m * 15)
                && fits_i32_check(score)) {
                return false;
            }
            score
        },
    };
    assert(balance == team_balance(f, n as int, t as int, n_mafia as int, r as int));
    assert(list@.len() == spice_list(f, roleset.roles@).len());
    assert(2 * n <= usize::MAX);
    assert(match f {
        Flavor::Standard => balance_fits(t as int, n_mafia as int) && fits_i32(teams_score(t as int, n_mafia as int, r as int)),
        Flavor::Spice => super::rolegen::spice::town_v_maf_fits(n as int, n_mafia as int),
    });
    20 * d - 2147483647 <= balance && balance <= 2147483647 - 20 * d
}

/// The spice draw with the standard weights; gives up when 100 draws in a
/// row do not fit.
pub fn get_roles_spice(n: usize, n_mafia: usize, n_rogue: usize, n_spice: usize, roleset: &RoleSet) -> (r: Result<
    (i32, Vec<RoleGen>),
    (),
>)
    requires
        roleset.wf(),
        n_mafia + n_rogue <= n,
        n_spice <= n,
        spice_fits(Flavor::Standard, roleset.roles@, n as int, n_mafia as int, n_rogue as int, n_spice as int),
    ensures
        r matches Ok((score, roles)) ==> dealt_spice(
            Flavor::Standard,
            roleset.roles@,
            n as int,
            n_mafia as int,
            n_rogue as int,
            n_spice as int,
            score as int,
            roles@,
        ),
        r matches Ok((score, roles)) ==> exists|sets: Seq<Seq<RoleGen>>|
            #[trigger] fitting_draws(
                Flavor::Standard,
                roleset.roles@,
                n as int,
                n_mafia as int,
                n_rogue as int,
                n_spice as int,
                sets,
            ) && spice_core(
                Flavor::Standard,
                roleset.roles@,
                n as int,
                n_mafia as int,
                n_rogue as int,
                n_spice as int,
                score as int,
                roles@,
                nearest(Flavor::Standard, n as int, n_mafia as int, n_rogue as int, sets),
            ),
        r is Err ==> can_misfit(
            spice_list(Flavor::Standard, roleset.roles@),
            n_spice as int,
            team_sizes(n as int, n_mafia as int, n_rogue as int).0,
            n_mafia as int,
            team_sizes(n as int, n_mafia as int, n_rogue as int).1,
        ),
{
    get_roles_spice_of(Flavor::Standard, 100, n, n_mafia, n_rogue, n_spice, roleset)
}

/// What a rogue role adds to the balance.
pub open spec fn rogue_score_of(r: RoleGen) -> int {
    match r {
        RoleGen::IDIOT => -5,
        RoleGen::GUARD_Town => 10,
        RoleGen::GUARD_Mafia => -10,
        RoleGen::AGENT_Town => -5,
        RoleGen::AGENT_Mafia => 10,
        _ => 0,
    }
}

/// The rogues' additions added up.
pub open spec fn rogue_total(s: Seq<RoleGen>) -> int
    decreases s.len(),
{
    if s.len() == 0 {
        0
    } else {
        rogue_total(s.drop_last()) + rogue_score_of(s.last())
    }
}

fn rogue_total_of(roles: &Vec<RoleGen>) -> (v: i32)
    requires
        10 * roles@.len() <= i32::MAX,
    ensures
        v == rogue_total(roles@),
        -10 * roles@.len() <= v <= 10 * roles@.len(),
{
    let mut v: i32 = 0;
    let mut i: usize = 0;
    while i < roles.len()
        invariant
            i <= roles.len(),
            10 * roles@.len() <= i32::MAX,
            v == rogue_total(roles@.take(i as int)),
            -10 * i <= v <= 10 * i,
        decreases roles.len() - i,
    {
        assert(roles@.take(i + 1).drop_last() =~= roles@.take(i as int));
        let add: i32 = match roles[i] {
            RoleGen::IDIOT => -5,
            RoleGen::GUARD_Town => 10,
            RoleGen::GUARD_Mafia => -10,
            RoleGen::AGENT_Town => -5,
            RoleGen::AGENT_Mafia => 10,
            _ => 0,
        };
        v = v + add;
        i = i + 1;
    }
    assert(roles@.take(roles.len() as int) =~= roles@);
    v
}

/// The teams' own lean: ten per town player beyond twice the mafia and
/// one; below zero it favours the mafia, above zero the town.
pub open spec fn team_lean(n_town: int, n_mafia: int) -> int {
    (n_town - 1 - n_mafia * 2) * 10
}

/// The rogues lean the same way as the teams.
pub open spec fn same_lean(rogue_score: int, team_score: int) -> bool {
    rogue_score < 0 && team_score < 0 || rogue_score > 0 && team_score > 0
}

/// A rogue draw is drawn again when it leans the teams' way and fewer than
/// a hundred redraws have been made.
pub open spec fn redraws(rogue_score: int, team_score: int, tries: int) -> bool {
    same_lean(rogue_score, team_score) && tries < 100
}

/// Whether a rogue draw with score `rogue_score` is drawn again, after
/// `tries` redraws, when the teams' own lean is `team_score`.
pub fn should_redraw(rogue_score: i32, team_score: i32, tries: usize) -> (b: bool)
    ensures
        b == redraws(rogue_score as int, team_score as int, tries as int),
{
    (rogue_score < 0 && team_score < 0 || rogue_score > 0 && team_score > 0) && tries < 100
}

/// A hundred rogue draws were made and each leaned the teams' way.
pub open spec fn redrawn_out(list: Seq<RoleGen>, n_rogue: int, team_score: int, rejected: Seq<Seq<RoleGen>>) -> bool {
    &&& rejected.len() == 100
    &&& forall|i: int|
        0 <= i < rejected.len() ==> drawn_from(list, n_rogue, #[trigger] rejected[i]) && same_lean(
            rogue_total(rejected[i]),
            team_score,
        )
}

/// Draws `n_rogue` rogues, and draws again (up to 100 times) while they
/// lean the same way as the teams do; gives the rogues' score and roles.
/// Rogues that lean the teams' way come out only after a hundred draws
/// that all did.
pub fn get_rogue_roles(n_town: usize, n_mafia: usize, n_rogue: usize, roleset: &RoleSet) -> (r: (i32, Vec<RoleGen>))
    requires
        balance_fits(n_town as int, n_mafia as int),
    ensures
        drawn_from(rogue_list(roleset.view()), n_rogue as int, r.1@),
        r.0 == rogue_total(r.1@),
        same_lean(r.0 as int, team_lean(n_town as int, n_mafia as int)) ==> exists|rejected: Seq<Seq<RoleGen>>|
            #[trigger] redrawn_out(
                rogue_list(roleset.view()),
                n_rogue as int,
                team_lean(n_town as int, n_mafia as int),
                rejected,
            ),
{
    let maf_score = (n_town as i32 - 1 - n_mafia as i32 * 2) * 10;
    let list = create_rogue_list(roleset);
    let ghost lean = team_lean(n_town as int, n_mafia as int);
    assert(list@.len() <= 100);
    let mut tries: usize = 0;
    let ghost mut rejected: Seq<Seq<RoleGen>> = Seq::empty();
    loop
        invariant
            tries <= 100,
            list@ == rogue_list(roleset.view()),
            list@.len() <= 100,
            maf_score == lean,
            lean == team_lean(n_town as int, n_mafia as int),
            rejected.len() == tries,
            forall|i: int|
                0 <= i < rejected.len() ==> drawn_from(list@, n_rogue as int, #[trigger] rejected[i]) && same_lean(
                    rogue_total(rejected[i]),
                    lean,
                ),
        decreases 100 - tries,
    {
        let roles = pick_several(&list, n_rogue);
        let rogue_score = rogue_total_of(&roles);
        if should_redraw(rogue_score, maf_score, tries) {
            proof {
                rejected = rejected.push(roles@);
                assert(rejected[tries as int] == roles@);
            }
            tries = tries + 1;
            continue;
        }
        proof {
            if same_lean(rogue_score as int, lean) {
                assert(redrawn_out(rogue_list(roleset.view()), n_rogue as int, lean, rejected));
            }
        }
        return (rogue_score, roles);
    }
}

/// The fixed town line-up, in order.
pub open spec fn town_lineup() -> Seq<RoleGen> {
    seq![
        RoleGen::COP,
        RoleGen::DOCTOR,
        RoleGen::TOWN,
        RoleGen::MILLER,
        RoleGen::TOWN,
        RoleGen::CELEB,
        RoleGen::MILLER,
        RoleGen::COP,
        RoleGen::TOWN,
        RoleGen::DOCTOR,
        RoleGen::TOWN,
        RoleGen::CELEB,
        RoleGen::TOWN,
        RoleGen::TOWN,
        RoleGen::MILLER,
    ]
}

/// The fixed mafia line-up, in order.
pub open spec fn mafia_lineup() -> Seq<RoleGen> {
    seq![RoleGen::MAFIA, RoleGen::GODFATHER, RoleGen::STRIPPER, RoleGen::GOON]
}

/// The first `n` of a line-up (padded with `plain`), each role the set does
/// not allow replaced by `plain`.
pub open spec fn lineup_roles(lineup: Seq<RoleGen>, n: nat, plain: RoleGen, allowed: Set<RoleGen>) -> Seq<RoleGen> {
    Seq::new(
        n,
        |i: int|
            {
                let r = if i < lineup.len() { lineup[i] } else { plain };
                if allowed.contains(r) { r } else { plain }
            },
    )
}

fn lineup_exec(lineup: Vec<RoleGen>, n: usize, plain: RoleGen, roleset: &RoleSet) -> (r: Vec<RoleGen>)
    ensures
        r@ == lineup_roles(lineup@, n as nat, plain, roleset.view()),
{
    let mut r: Vec<RoleGen> = Vec::new();
    let mut i: usize = 0;
    while i < n
        invariant
            i <= n,
            r@ == lineup_roles(lineup@, n as nat, plain, roleset.view()).take(i as int),
        decreases n - i,
    {
        let role = if i < lineup.len() {
            lineup[i]
        } else {
            plain
        };
        let role = if roleset.contains(&role) {
            role
        } else {
            plain
        };
        r.push(role);
        i = i + 1;
        assert(r@ =~= lineup_roles(lineup@, n as nat, plain, roleset.view()).take(i as int));
    }
    assert(lineup_roles(lineup@, n as nat, plain, roleset.view()).take(n as int) =~= lineup_roles(
        lineup@,
        n as nat,
        plain,
        roleset.view(),
    ));
    r
}

/// The town roles of the fixed line-up for `n_town` players.
pub fn get_set_town_roles(n_town: usize, roleset: &RoleSet) -> (r: Vec<RoleGen>)
    ensures
        r@ == lineup_roles(town_lineup(), n_town as nat, RoleGen::TOWN, roleset.view()),
{
    let lineup = vec![
        RoleGen::COP,
        RoleGen::DOCTOR,
        RoleGen::TOWN,
        RoleGen::MILLER,
        RoleGen::TOWN,
        RoleGen::CELEB,
        RoleGen::MILLER,
        RoleGen::COP,
        RoleGen::TOWN,
        RoleGen::DOCTOR,
        RoleGen::TOWN,
        RoleGen::CELEB,
        RoleGen::TOWN,
        RoleGen::TOWN,
        RoleGen::MILLER,
    ];
    assert(lineup@ =~= town_lineup());
    lineup_exec(lineup, n_town, RoleGen::TOWN, roleset)
}

/// The mafia roles of the fixed line-up for `n_mafia` players.
pub fn get_set_mafia_roles(n_mafia: usize, roleset: &RoleSet) -> (r: Vec<RoleGen>)
    ensures
        r@ == lineup_roles(mafia_lineup(), n_mafia as nat, RoleGen::MAFIA, roleset.view()),
{
    let lineup = vec![RoleGen::MAFIA, RoleGen::GODFATHER, RoleGen::STRIPPER, RoleGen::GOON];
    assert(lineup@ =~= mafia_lineup());
    lineup_exec(lineup, n_mafia, RoleGen::MAFIA, roleset)
}

/// The fixed line-up for a game: town, then mafia, then drawn rogues.
pub fn get_roles_set(n: usize, n_mafia: usize, n_rogue: usize, roleset: &RoleSet) -> (r: Vec<RoleGen>)
    requires
        n_mafia + n_rogue <= n,
        balance_fits((n - n_mafia - n_rogue) as int, n_mafia as int),
    ensures
        exists|rogue: Seq<RoleGen>|
            drawn_from(rogue_list(roleset.view()), n_rogue as int, rogue) && r@ == lineup_roles(
                town_lineup(),
                (n - n_mafia - n_rogue) as nat,
                RoleGen::TOWN,
                roleset.view(),
            ) + lineup_roles(mafia_lineup(), n_mafia as nat, RoleGen::MAFIA, roleset.view()) + rogue,
{
    let n_town = n - n_mafia - n_rogue;
    let (_rogue_score, mut rogue_roles) = get_rogue_roles(n_town, n_mafia, n_rogue, roleset);
    let ghost rogue = rogue_roles@;
    let mut town_roles = get_set_town_roles(n_town, roleset);
    let mut mafia_roles = get_set_mafia_roles(n_mafia, roleset);
    town_roles.append(&mut mafia_roles);
    town_roles.append(&mut rogue_roles);
    town_roles
}

/// How a set of `n_cop + n_doctor` informed roles is split: a cop count as
/// the sum of two dice, the rest doctors.
pub fn split_cop_doc(n: usize) -> (r: (usize, usize))
    ensures
        r.0 + r.1 == n,
        r.0 <= n / 2 + n % 2 + n / 2,
{
    if n == 0 {
        return (0, 0);
    }
    let d1 = n / 2 + n % 2;
    let d2 = n / 2;
    let c = gen_upto(d1) + gen_upto(d2);
    (c, n - c)
}

/// The town and mafia roles for drawn numbers of cops, doctors, celebs and
/// millers (those the set does not allow count as none): the power roles,
/// cut down at random to `n_town` or filled up with plain town, then plain
/// mafia. The score is always zero.
pub fn get_team_roles_normals(
    n_town: usize,
    n_mafia: usize,
    n_cop: usize,
    n_doctor: usize,
    n_celeb: usize,
    n_miller: usize,
    roleset: &RoleSet,
) -> (r: (i32, Vec<RoleGen>))
    ensures
        r.0 == 0,
        r.1@.len() == n_town + n_mafia,
        r.1@.skip(n_town as int) == rep(RoleGen::MAFIA, n_mafia as nat),
        ({
            let power = rep(RoleGen::COP, (if roleset.view().contains(RoleGen::COP) { n_cop } else { 0 }) as nat)
                + rep(RoleGen::DOCTOR, (if roleset.view().contains(RoleGen::DOCTOR) { n_doctor } else { 0 }) as nat)
                + rep(RoleGen::CELEB, (if roleset.view().contains(RoleGen::CELEB) { n_celeb } else { 0 }) as nat)
                + rep(RoleGen::MILLER, (if roleset.view().contains(RoleGen::MILLER) { n_miller } else { 0 }) as nat);
            if power.len() > n_town {
                drawn_from(power, n_town as int, r.1@.take(n_town as int))
            } else {
                r.1@.take(n_town as int) == power + rep(RoleGen::TOWN, (n_town - power.len()) as nat)
            }
        }),
{
    let n_cop = if roleset.contains(&RoleGen::COP) { n_cop } else { 0 };
    let n_doctor = if roleset.contains(&RoleGen::DOCTOR) { n_doctor } else { 0 };
    let n_celeb = if roleset.contains(&RoleGen::CELEB) { n_celeb } else { 0 };
    let n_miller = if roleset.contains(&RoleGen::MILLER) { n_miller } else { 0 };
    let mut roles: Vec<RoleGen> = Vec::new();
    push_copies(&mut roles, RoleGen::COP, n_cop);
    push_copies(&mut roles, RoleGen::DOCTOR, n_doctor);
    push_copies(&mut roles, RoleGen::CELEB, n_celeb);
    push_copies(&mut roles, RoleGen::MILLER, n_miller);
    let ghost power = roles@;
    assert(power =~= rep(RoleGen::COP, n_cop as nat) + rep(RoleGen::DOCTOR, n_doctor as nat) + rep(
        RoleGen::CELEB,
        n_celeb as nat,
    ) + rep(RoleGen::MILLER, n_miller as nat));
    if roles.len() > n_town {
        roles = pick_several(&roles, n_town);
    } else {
        let n_more = n_town - roles.len();
        push_copies(&mut roles, RoleGen::TOWN, n_more);
    }
    let ghost town_part = roles@;
    push_copies(&mut roles, RoleGen::MAFIA, n_mafia);
    assert(roles@.take(n_town as int) =~= town_part);
    assert(roles@.skip(n_town as int) =~= rep(RoleGen::MAFIA, n_mafia as nat));
    (0, roles)
}

/// The town roles the standard team draw picks from.
pub open spec fn town_pool() -> Seq<RoleGen> {
    rep(RoleGen::TOWN, 80) + rep(RoleGen::COP, 15) + rep(RoleGen::DOCTOR, 15) + rep(RoleGen::CELEB, 10) + rep(
        RoleGen::MILLER,
        10,
    )
}

/// The mafia roles the standard team draw picks from.
pub open spec fn mafia_pool() -> Seq<RoleGen> {
    rep(RoleGen::MAFIA, 155) + rep(RoleGen::GODFATHER, 15) + rep(RoleGen::STRIPPER, 15) + rep(RoleGen::GOON, 15)
}

/// The balance of a team draw: the teams' score, the rogues' score, and
/// what the drawn roles add.
pub open spec fn team_draw_score(n_town: int, n_mafia: int, rogue_score: int, roles: Seq<RoleGen>) -> int {
    n_score(n_town, n_mafia, rogue_score) + rogue_score + score_mod(Seq::empty(), roles)
}

/// What one try of the team draw gives for the drawn `town` and `mafia`:
/// the roles and their balance when the balance with the noise is within
/// ten of even, nothing otherwise.
pub open spec fn team_outcome(
    n_town: int,
    n_mafia: int,
    rogue_score: int,
    noise: int,
    town: Seq<RoleGen>,
    mafia: Seq<RoleGen>,
    r: Option<(i32, Vec<RoleGen>)>,
) -> bool {
    let score = team_draw_score(n_town, n_mafia, rogue_score, town + mafia);
    &&& drawn_from(town_pool(), n_town, town)
    &&& drawn_from(mafia_pool(), n_mafia, mafia)
    &&& (r is Some <==> mod_fits(Seq::empty(), town + mafia) && -10 < score + noise < 10)
    &&& r matches Some((s, roles)) ==> roles@ == town + mafia && s == score
}

/// The sums of one try of the team draw fit an `i32` whatever is drawn:
/// the teams' balance is computed without overflow, and it, the rogues'
/// score and the noise stay far enough from the ends that what the drawn
/// roles add (less than ten thousand either way: at most 330 roles can be
/// drawn) can be added to them.
pub open spec fn team_roles_fit(n_town: int, n_mafia: int, rogue_score: int, noise: int) -> bool {
    &&& balance_fits(n_town, n_mafia)
    &&& fits_i32(n_score(n_town, n_mafia, rogue_score))
    &&& abs_int(n_score(n_town, n_mafia, rogue_score) + rogue_score) + abs_int(noise) + 10000 <= i32::MAX
}

/// Whether `r` is among the roles.
fn holds_role(roles: &Vec<RoleGen>, r: RoleGen) -> (b: bool)
    ensures
        b == (occ(roles@, r) > 0),
{
    let mut i: usize = 0;
    while i < roles.len()
        invariant
            i <= roles.len(),
            forall|j: int| 0 <= j < i ==> roles@[j] != r,
        decreases roles.len() - i,
    {
        if roles[i] == r {
            proof {
                lemma_occ_in(roles@, i as int);
            }
            return true;
        }
        i = i + 1;
    }
    proof {
        vstd::seq_lib::to_multiset_contains(roles@, r);
        if occ(roles@, r) > 0 {
            vstd::seq_lib::lemma_multiset_commutative(roles@, Seq::empty());
            assert(roles@.to_multiset().contains(r));
            assert(roles@.contains(r));
        }
    }
    false
}

/// What one try of the team draw gives for the drawn `roles`: the roles
/// and their balance when the teams' balance with the roles' score and the
/// noise `noise` comes within ten of even, nothing otherwise; nothing too
/// for roles whose halvings would not fit (31 or more spoilers with a cop,
/// or as many strippers with a doctor or celeb).
pub fn team_try(n_town: usize, n_mafia: usize, rogue_score: i32, noise: i32, roles: Vec<RoleGen>) -> (r: Option<(i32, Vec<RoleGen>)>)
    requires
        team_roles_fit(n_town as int, n_mafia as int, rogue_score as int, noise as int),
        roles@.len() <= 330,
    ensures
        r is Some <==> (mod_fits(Seq::empty(), roles@) && -10 < team_draw_score(
            n_town as int,
            n_mafia as int,
            rogue_score as int,
            roles@,
        ) + noise < 10),
        r matches Some((s, rs)) ==> rs@ == roles@ && s == team_draw_score(
            n_town as int,
            n_mafia as int,
            rogue_score as int,
            roles@,
        ),
{
    let maf_score = get_n_score(n_town, n_mafia, rogue_score);
    let score = maf_score + rogue_score;
    let empty: Vec<RoleGen> = Vec::new();
    assert(empty@ + roles@ =~= roles@);
    let spoilers = count_roles(&roles, RoleClass::CopSpoiler);
    let strippers = count_roles(&roles, RoleClass::Stripper);
    let fits = (!holds_role(&roles, RoleGen::COP) || spoilers <= 30) && (!holds_role(
        &roles,
        RoleGen::DOCTOR,
    ) || strippers <= 30) && (!holds_role(&roles, RoleGen::CELEB) || strippers <= 31);
    assert(fits == mod_fits(Seq::<RoleGen>::empty(), roles@));
    if !fits {
        None
    } else {
        proof {
            lemma_class_count_le(RoleClass::Informed, roles@);
            lemma_mods_bound(roles@, roles@);
            assert forall|k: int| 0 <= k <= roles@.len() implies #[trigger] fits_i32(
                mods(roles@.take(k), empty@ + roles@),
            ) by {
                lemma_mods_bound(roles@.take(k), roles@);
            }
        }
        let score_mod = get_score_mod(&empty, &roles);
        let total = score_mod + score + noise;
        if -10 < total && total < 10 {
            Some((score + score_mod, roles))
        } else {
            None
        }
    }
}

/// One try of the standard team draw: all town and mafia roles drawn from
/// the weighted lists, then judged by `team_try`.
pub fn get_team_roles(n_town: usize, n_mafia: usize, rogue_score: i32, noise: i32) -> (r: Option<(i32, Vec<RoleGen>)>)
    requires
        team_roles_fit(n_town as int, n_mafia as int, rogue_score as int, noise as int),
    ensures
        exists|town: Seq<RoleGen>, mafia: Seq<RoleGen>|
            #[trigger] team_outcome(n_town as int, n_mafia as int, rogue_score as int, noise as int, town, mafia, r),
{
    let town_list = create_town_list(8);
    let mafia_list = create_mafia_list(15);
    let mut temp_roles = pick_several(&town_list, n_town);
    let ghost town = temp_roles@;
    let mut mafia = pick_several(&mafia_list, n_mafia);
    let ghost maf = mafia@;
    temp_roles.append(&mut mafia);
    assert(temp_roles@ == town + maf);
    assert(drawn_from(town_pool(), n_town as int, town));
    assert(drawn_from(mafia_pool(), n_mafia as int, maf));
    assert(temp_roles@.len() <= 330);
    let r = team_try(n_town, n_mafia, rogue_score, noise, temp_roles);
    assert(team_outcome(n_town as int, n_mafia as int, rogue_score as int, noise as int, town, maf, r));
    r
}

pub proof fn lemma_mods_bound(new: Seq<RoleGen>, all: Seq<RoleGen>)
    ensures
        -20 * new.len() <= mods(new, all) <= 25 * new.len(),
    decreases new.len(),
{
    if new.len() > 0 {
        lemma_mods_bound(new.drop_last(), all);
        let r = new.last();
        lemma_two_to_grows(0, cop_spoilers(all));
        lemma_two_to_grows(0, occ(all, RoleGen::STRIPPER));
        vstd::arithmetic::div_mod::lemma_div_pos_is_pos(200, two_to(cop_spoilers(all)));
        vstd::arithmetic::div_mod::lemma_div_nonincreasing(200, two_to(cop_spoilers(all)));
        vstd::arithmetic::div_mod::lemma_div_pos_is_pos(200, two_to(occ(all, RoleGen::STRIPPER)));
        vstd::arithmetic::div_mod::lemma_div_nonincreasing(200, two_to(occ(all, RoleGen::STRIPPER)));
        vstd::arithmetic::div_mod::lemma_div_pos_is_pos(80, two_to(occ(all, RoleGen::STRIPPER)));
        vstd::arithmetic::div_mod::lemma_div_nonincreasing(80, two_to(occ(all, RoleGen::STRIPPER)));
    }
}

} // verus!
