use vstd::prelude::*;

use super::phase::Phase;
use super::players::{role_at, seated, Seat};
use super::role::{targets_at_night, Choice, Pid, Role};
use super::state::State;
use crate::chance::shuffle;
use crate::engine::player::copy_vec;

verus! {

/// What a night action does. Acts of higher priority take effect on those
/// of lower priority: blocks, then saves, kills, investigations and milk
/// deliveries.
#[derive(Debug, Clone)]
pub enum Act {
    Block,
    /// `effective` once a kill was aimed at the same player.
    Save { effective: bool },
    Kill { saviors: Vec<Pid> },
    Investigate,
    Milk,
}

/// An act with its list of saviors taken as a sequence.
pub enum ActView {
    Block,
    Save { effective: bool },
    Kill { saviors: Seq<Pid> },
    Investigate,
    Milk,
}

impl View for Act {
    type V = ActView;

    open spec fn view(&self) -> ActView {
        match self {
            Act::Block => ActView::Block,
            Act::Save { effective } => ActView::Save { effective: *effective },
            Act::Kill { saviors } => ActView::Kill { saviors: saviors@ },
            Act::Investigate => ActView::Investigate,
            Act::Milk => ActView::Milk,
        }
    }
}

/// One player's act at night, with who blocked it.
#[derive(Debug, Clone)]
pub struct NightAct {
    pub act: Act,
    pub actor: Pid,
    pub target: Pid,
    pub blockers: Vec<Pid>,
}

/// A night act with its lists taken as sequences.
pub struct NightActView {
    pub act: ActView,
    pub actor: Pid,
    pub target: Pid,
    pub blockers: Seq<Pid>,
}

impl View for NightAct {
    type V = NightActView;

    open spec fn view(&self) -> NightActView {
        NightActView { act: self.act@, actor: self.actor, target: self.target, blockers: self.blockers@ }
    }
}

/// Night acts taken by their views.
pub open spec fn acts_view(s: Seq<NightAct>) -> Seq<NightActView> {
    s.map_values(|a: NightAct| a@)
}

/// The order in which acts take effect: higher first.
pub open spec fn act_priority(a: ActView) -> int {
    match a {
        ActView::Block => 2,
        ActView::Save { .. } => 1,
        ActView::Kill { .. } => 0,
        ActView::Investigate => -1,
        ActView::Milk => -2,
    }
}

/// The act a targeting role performs.
pub open spec fn act_of_role(role: Role) -> ActView {
    match role {
        Role::STRIPPER => ActView::Block,
        Role::DOCTOR => ActView::Save { effective: false },
        Role::COP => ActView::Investigate,
        _ => ActView::Milk,
    }
}

/// The acts of priority `p`, in their order.
pub open spec fn of_priority(s: Seq<NightActView>, p: int) -> Seq<NightActView>
    decreases s.len(),
{
    if s.len() == 0 {
        Seq::empty()
    } else {
        let rest = of_priority(s.drop_last(), p);
        if act_priority(s.last().act) == p {
            rest.push(s.last())
        } else {
            rest
        }
    }
}

/// The acts sorted by priority, highest first; acts of equal priority keep
/// their order.
pub open spec fn by_priority(s: Seq<NightActView>) -> Seq<NightActView> {
    of_priority(s, 2) + of_priority(s, 1) + of_priority(s, 0) + of_priority(s, -1) + of_priority(
        s,
        -2,
    )
}

/// Who blocks `p`: the actors of the blocks aimed at `p`, in order.
pub open spec fn blocks_on(s: Seq<NightActView>, p: Pid) -> Seq<Pid>
    decreases s.len(),
{
    if s.len() == 0 {
        Seq::empty()
    } else {
        let rest = blocks_on(s.drop_last(), p);
        if s.last().act is Block && s.last().target == p {
            rest.push(s.last().actor)
        } else {
            rest
        }
    }
}

/// Some kill is aimed at `t`.
pub open spec fn kill_on(s: Seq<NightActView>, t: Pid) -> bool {
    exists|i: int| 0 <= i < s.len() && (#[trigger] s[i]).act is Kill && s[i].target == t
}

/// No one blocks the act, before or during this night.
pub open spec fn unblocked(all: Seq<NightActView>, a: NightActView) -> bool {
    a.blockers.len() == 0 && blocks_on(all, a.actor).len() == 0
}

/// The doctors of `s` who save `t` and are not blocked in `all`, in order.
pub open spec fn saviors_in(s: Seq<NightActView>, all: Seq<NightActView>, t: Pid) -> Seq<Pid>
    decreases s.len(),
{
    if s.len() == 0 {
        Seq::empty()
    } else {
        let rest = saviors_in(s.drop_last(), all, t);
        let a = s.last();
        if a.act is Save && a.target == t && unblocked(all, a) {
            rest.push(a.actor)
        } else {
            rest
        }
    }
}

/// An act once the acts of higher priority in `s` have taken effect on it:
/// blocks aimed at its actor are added to its blockers (a block itself is
/// not blocked), a save becomes effective when a kill is aimed at its
/// target, and a kill gains the unblocked doctors who save its mark.
pub open spec fn resolved(s: Seq<NightActView>, a: NightActView) -> NightActView {
    match a.act {
        ActView::Block => a,
        ActView::Save { effective } => NightActView {
            act: ActView::Save { effective: effective || kill_on(s, a.target) },
            actor: a.actor,
            target: a.target,
            blockers: a.blockers + blocks_on(s, a.actor),
        },
        ActView::Kill { saviors } => NightActView {
            act: ActView::Kill { saviors: saviors + saviors_in(s, s, a.target) },
            actor: a.actor,
            target: a.target,
            blockers: a.blockers + blocks_on(s, a.actor),
        },
        _ => NightActView {
            act: a.act,
            actor: a.actor,
            target: a.target,
            blockers: a.blockers + blocks_on(s, a.actor),
        },
    }
}

/// The night's acts sorted by priority, each resolved against the others.
pub open spec fn resolution(s: Seq<NightActView>) -> Seq<NightActView> {
    let t = by_priority(s);
    t.map_values(|a: NightActView| resolved(t, a))
}

impl Act {
    /// The order in which acts take effect: higher first.
    pub fn priority(&self) -> (p: i32)
        ensures
            p == act_priority(self@),
    {
        match self {
            Act::Block => 2,
            Act::Save { .. } => 1,
            Act::Kill { .. } => 0,
            Act::Investigate => -1,
            Act::Milk => -2,
        }
    }

    fn duplicate(&self) -> (r: Act)
        ensures
            r@ == self@,
    {
        match self {
            Act::Block => Act::Block,
            Act::Save { effective } => Act::Save { effective: *effective },
            Act::Kill { saviors } => Act::Kill { saviors: copy_vec(saviors) },
            Act::Investigate => Act::Investigate,
            Act::Milk => Act::Milk,
        }
    }
}

impl NightAct {
    /// The act of a targeting role aimed at `target`.
    pub fn from_target(role: Role, actor: Pid, target: Pid) -> (r: Self)
        requires
            targets_at_night(role),
        ensures
            r@ == (NightActView { act: act_of_role(role), actor, target, blockers: Seq::empty() }),
    {
        let act = match role {
            Role::STRIPPER => Act::Block,
            Role::DOCTOR => Act::Save { effective: false },
            Role::COP => Act::Investigate,
            _ => Act::Milk,
        };
        let r = NightAct { act, actor, target, blockers: Vec::new() };
        assert(r@.blockers =~= Seq::<Pid>::empty());
        r
    }

    /// Records that `blocker` blocked this act.
    pub fn block(&mut self, blocker: Pid)
        ensures
            final(self)@ == (NightActView { blockers: old(self)@.blockers.push(blocker), ..old(self)@ }),
    {
        self.blockers.push(blocker);
    }

    /// Records that `savior` saved the mark of this act, if it is a kill.
    pub fn save(&mut self, savior: Pid)
        ensures
            final(self)@ == (match old(self)@.act {
                ActView::Kill { saviors } => NightActView {
                    act: ActView::Kill { saviors: saviors.push(savior) },
                    ..old(self)@
                },
                _ => old(self)@,
            }),
    {
        match &mut self.act {
            Act::Kill { saviors } => saviors.push(savior),
            _ => {},
        }
    }

    pub fn duplicate(&self) -> (r: NightAct)
        ensures
            r@ == self@,
    {
        NightAct {
            act: self.act.duplicate(),
            actor: self.actor,
            target: self.target,
            blockers: copy_vec(&self.blockers),
        }
    }
}

/// Appends the acts of priority `p`.
fn push_priority(r: &mut Vec<NightAct>, acts: &Vec<NightAct>, p: i32)
    ensures
        acts_view(final(r)@) == acts_view(old(r)@) + of_priority(acts_view(acts@), p as int),
{
    let ghost start = acts_view(r@);
    let mut i: usize = 0;
    while i < acts.len()
        invariant
            i <= acts.len(),
            acts_view(r@) == start + of_priority(acts_view(acts@.take(i as int)), p as int),
        decreases acts.len() - i,
    {
        assert(acts_view(acts@.take(i + 1)).drop_last() =~= acts_view(acts@.take(i as int)));
        assert(acts_view(acts@.take(i + 1)).last() == acts@[i as int]@);
        if acts[i].act.priority() == p {
            let a = acts[i].duplicate();
            let ghost before = r@;
            r.push(a);
            assert(acts_view(r@) =~= acts_view(before).push(a@));
        }
        i = i + 1;
    }
    assert(acts@.take(acts.len() as int) =~= acts@);
}

/// The acts sorted by priority, highest first, acts of equal priority in
/// their order.
pub fn sort_by_priority(acts: &Vec<NightAct>) -> (r: Vec<NightAct>)
    ensures
        acts_view(r@) == by_priority(acts_view(acts@)),
{
    let mut r: Vec<NightAct> = Vec::new();
    assert(acts_view(r@) =~= Seq::<NightActView>::empty());
    push_priority(&mut r, acts, 2);
    push_priority(&mut r, acts, 1);
    push_priority(&mut r, acts, 0);
    push_priority(&mut r, acts, -1);
    push_priority(&mut r, acts, -2);
    assert(acts_view(r@) =~= by_priority(acts_view(acts@)));
    r
}

/// Who blocks `p`.
fn blockers_of(t: &Vec<NightAct>, p: Pid) -> (r: Vec<Pid>)
    ensures
        r@ == blocks_on(acts_view(t@), p),
{
    let mut r: Vec<Pid> = Vec::new();
    let mut i: usize = 0;
    while i < t.len()
        invariant
            i <= t.len(),
            r@ == blocks_on(acts_view(t@.take(i as int)), p),
        decreases t.len() - i,
    {
        assert(acts_view(t@.take(i + 1)).drop_last() =~= acts_view(t@.take(i as int)));
        assert(acts_view(t@.take(i + 1)).last() == t@[i as int]@);
        if matches!(t[i].act, Act::Block) && t[i].target == p {
            r.push(t[i].actor);
        }
        i = i + 1;
    }
    assert(t@.take(t.len() as int) =~= t@);
    r
}

/// Whether some kill is aimed at `target`.
fn killed_at(t: &Vec<NightAct>, target: Pid) -> (b: bool)
    ensures
        b == kill_on(acts_view(t@), target),
{
    let mut i: usize = 0;
    while i < t.len()
        invariant
            i <= t.len(),
            forall|j: int|
                0 <= j < i ==> !((#[trigger] acts_view(t@)[j]).act is Kill && acts_view(t@)[j].target
                    == target),
        decreases t.len() - i,
    {
        if matches!(t[i].act, Act::Kill { .. }) && t[i].target == target {
            assert(acts_view(t@)[i as int].act is Kill);
            return true;
        }
        i = i + 1;
    }
    false
}

/// The unblocked doctors who save `target`.
fn saviors_from(t: &Vec<NightAct>, target: Pid) -> (r: Vec<Pid>)
    ensures
        r@ == saviors_in(acts_view(t@), acts_view(t@), target),
{
    let ghost all = acts_view(t@);
    let mut r: Vec<Pid> = Vec::new();
    let mut i: usize = 0;
    while i < t.len()
        invariant
            i <= t.len(),
            all == acts_view(t@),
            r@ == saviors_in(acts_view(t@.take(i as int)), all, target),
        decreases t.len() - i,
    {
        assert(acts_view(t@.take(i + 1)).drop_last() =~= acts_view(t@.take(i as int)));
        assert(acts_view(t@.take(i + 1)).last() == t@[i as int]@);
        if matches!(t[i].act, Act::Save { .. }) && t[i].target == target && t[i].blockers.len() == 0 {
            let b = blockers_of(t, t[i].actor);
            if b.len() == 0 {
                r.push(t[i].actor);
            }
        }
        i = i + 1;
    }
    assert(t@.take(t.len() as int) =~= t@);
    r
}

/// One act once the acts of higher priority in `t` have taken effect on it.
fn resolve_one(t: &Vec<NightAct>, a: &NightAct) -> (r: NightAct)
    ensures
        r@ == resolved(acts_view(t@), a@),
{
    if matches!(a.act, Act::Block) {
        return a.duplicate();
    }
    let mut blockers = copy_vec(&a.blockers);
    let mut more = blockers_of(t, a.actor);
    blockers.append(&mut more);
    let act = match &a.act {
        Act::Save { effective } => {
            let hit = killed_at(t, a.target);
            Act::Save { effective: *effective || hit }
        },
        Act::Kill { saviors } => {
            let mut s = copy_vec(saviors);
            let mut extra = saviors_from(t, a.target);
            s.append(&mut extra);
            Act::Kill { saviors: s }
        },
        _ => a.act.duplicate(),
    };
    NightAct { act, actor: a.actor, target: a.target, blockers }
}

/// The night's acts sorted by priority, each resolved against the others.
pub fn resolve(acts: &Vec<NightAct>) -> (r: Vec<NightAct>)
    ensures
        acts_view(r@) == resolution(acts_view(acts@)),
{
    let t = sort_by_priority(acts);
    let ghost tv = acts_view(t@);
    let mut r: Vec<NightAct> = Vec::new();
    let mut i: usize = 0;
    while i < t.len()
        invariant
            i <= t.len(),
            tv == acts_view(t@),
            tv == by_priority(acts_view(acts@)),
            acts_view(r@) == tv.take(i as int).map_values(|a: NightActView| resolved(tv, a)),
        decreases t.len() - i,
    {
        let a = resolve_one(&t, &t[i]);
        let ghost before = r@;
        r.push(a);
        assert(acts_view(r@) =~= acts_view(before).push(a@));
        assert(tv.take(i + 1).map_values(|a: NightActView| resolved(tv, a)) =~= tv.take(
            i as int,
        ).map_values(|a: NightActView| resolved(tv, a)).push(resolved(tv, tv[i as int])));
        i = i + 1;
    }
    assert(tv.take(t.len() as int) =~= tv);
    r
}

/// The acts of the night's targets, in order: each target chosen by an
/// actor becomes the act of the actor's role.
pub open spec fn target_acts(seats: Seq<Seat>, targets: Seq<(Pid, Choice)>) -> Seq<NightActView>
    decreases targets.len(),
{
    if targets.len() == 0 {
        Seq::empty()
    } else {
        let rest = target_acts(seats, targets.drop_last());
        let (a, t) = targets.last();
        match t {
            Some(t) => rest.push(
                NightActView { act: act_of_role(role_at(seats, a)), actor: a, target: t, blockers: Seq::empty() },
            ),
            None => rest,
        }
    }
}

/// The night's acts before they are resolved: the targets' acts, then the
/// mafia's kill when it named a mark.
pub open spec fn initial_acts(seats: Seq<Seat>, targets: Seq<(Pid, Choice)>, scheme: Option<(Pid, Choice)>) -> Seq<NightActView> {
    let base = target_acts(seats, targets);
    match scheme {
        Some((killer, Some(mark))) => base.push(
            NightActView {
                act: ActView::Kill { saviors: Seq::empty() },
                actor: killer,
                target: mark,
                blockers: Seq::empty(),
            },
        ),
        _ => base,
    }
}

/// Every actor with a target sits at the table and plays a targeting role.
pub open spec fn targets_fit(seats: Seq<Seat>, targets: Seq<(Pid, Choice)>) -> bool {
    forall|i: int|
        0 <= i < targets.len() && (#[trigger] targets[i]).1 is Some ==> seated(seats, targets[i].0)
            && targets_at_night(role_at(seats, targets[i].0))
}

impl NightAct {
    /// The night's acts, put in a random order and then resolved: each
    /// outcome is the resolution of some ordering of the initial acts.
    pub fn from_state(state: &State) -> (r: Vec<NightAct>)
        requires
            state.phase is Night,
            targets_fit(state.players.seats@, state.phase->targets@),
        ensures
            exists|q: Seq<NightActView>|
                q.to_multiset() == initial_acts(
                    state.players.seats@,
                    state.phase->targets@,
                    state.phase->scheme,
                ).to_multiset() && acts_view(r@) == resolution(q),
    {
        let (targets, scheme) = match &state.phase {
            Phase::Night { targets, scheme, .. } => (targets, scheme),
            _ => {
                return Vec::new();
            },
        };
        let ghost seats = state.players.seats@;
        let mut acts: Vec<NightAct> = Vec::new();
        let mut i: usize = 0;
        while i < targets.len()
            invariant
                i <= targets.len(),
                seats == state.players.seats@,
                targets_fit(seats, targets@),
                acts_view(acts@) == target_acts(seats, targets@.take(i as int)),
            decreases targets.len() - i,
        {
            assert(targets@.take(i + 1).drop_last() =~= targets@.take(i as int));
            let (a, t) = targets[i];
            match t {
                Some(t) => {
                    assert(targets@[i as int].1 is Some);
                    let role = state.players.get_role(a);
                    let na = NightAct::from_target(role, a, t);
                    let ghost before = acts@;
                    acts.push(na);
                    assert(acts_view(acts@) =~= acts_view(before).push(na@));
                },
                None => {},
            }
            i = i + 1;
        }
        assert(targets@.take(targets.len() as int) =~= targets@);
        match scheme {
            Some((killer, Some(mark))) => {
                let na = NightAct {
                    act: Act::Kill { saviors: Vec::new() },
                    actor: *killer,
                    target: *mark,
                    blockers: Vec::new(),
                };
                let ghost before = acts@;
                acts.push(na);
                assert(na@.blockers =~= Seq::<Pid>::empty());
                assert(na.act@ =~= ActView::Kill { saviors: Seq::empty() });
                assert(acts_view(acts@) =~= acts_view(before).push(na@));
            },
            _ => {},
        }
        let ghost initial = acts_view(acts@);
        let ghost unshuffled = acts@;
        shuffle(&mut acts);
        proof {
            crate::chance::lemma_map_same_items(acts@, unshuffled, |a: NightAct| a@);
        }
        let r = resolve(&acts);
        r
    }
}

proof fn lemma_of_priority_len(s: Seq<NightActView>)
    ensures
        of_priority(s, 2).len() + of_priority(s, 1).len() + of_priority(s, 0).len() + of_priority(s, -1).len()
            + of_priority(s, -2).len() == s.len(),
    decreases s.len(),
{
    if s.len() > 0 {
        lemma_of_priority_len(s.drop_last());
    }
}

proof fn lemma_of_priority_all(s: Seq<NightActView>, p: int)
    ensures
        forall|i: int| 0 <= i < of_priority(s, p).len() ==> act_priority((#[trigger] of_priority(s, p)[i]).act) == p,
    decreases s.len(),
{
    if s.len() > 0 {
        lemma_of_priority_all(s.drop_last(), p);
    }
}

/// Resolving a night keeps every act: as many resolved acts as acts.
pub proof fn law_resolution_keeps_every_act(s: Seq<NightActView>)
    ensures
        resolution(s).len() == s.len(),
{
    lemma_of_priority_len(s);
}

/// Resolved acts come in priority order: blocks, saves, kills,
/// investigations, milk deliveries.
pub proof fn law_resolution_in_priority_order(s: Seq<NightActView>, i: int, j: int)
    requires
        0 <= i < j < resolution(s).len(),
    ensures
        act_priority(resolution(s)[i].act) >= act_priority(resolution(s)[j].act),
{
    let t = by_priority(s);
    let p2 = of_priority(s, 2);
    let p1 = of_priority(s, 1);
    let p0 = of_priority(s, 0);
    let m1 = of_priority(s, -1);
    let m2 = of_priority(s, -2);
    lemma_of_priority_all(s, 2);
    lemma_of_priority_all(s, 1);
    lemma_of_priority_all(s, 0);
    lemma_of_priority_all(s, -1);
    lemma_of_priority_all(s, -2);
    let a = p2.len();
    let b = a + p1.len();
    let c = b + p0.len();
    let d = c + m1.len();
    assert forall|k: int| 0 <= k < t.len() implies act_priority((#[trigger] t[k]).act) == (if k < a {
        2int
    } else if k < b {
        1int
    } else if k < c {
        0int
    } else if k < d {
        -1int
    } else {
        -2int
    }) by {
        if k < a {
            assert(t[k] == p2[k]);
        } else if k < b {
            assert(t[k] == p1[k - a]);
        } else if k < c {
            assert(t[k] == p0[k - b]);
        } else if k < d {
            assert(t[k] == m1[k - c]);
        } else {
            assert(t[k] == m2[k - d]);
        }
    }
    assert(resolution(s)[i] == resolved(t, t[i]));
    assert(resolution(s)[j] == resolved(t, t[j]));
}

/// A kill is saved exactly when an unblocked doctor aims at its mark: the
/// saviors a kill gains are the unblocked doctors who save the mark.
pub proof fn law_saved_iff_unblocked_doctor(t: Seq<NightActView>, mark: Pid)
    ensures
        saviors_in(t, t, mark).len() > 0 <==> exists|j: int|
            0 <= j < t.len() && (#[trigger] t[j]).act is Save && t[j].target == mark && unblocked(t, t[j]),
{
    lemma_saviors_in(t, t, mark);
}

proof fn lemma_saviors_in(s: Seq<NightActView>, all: Seq<NightActView>, mark: Pid)
    ensures
        saviors_in(s, all, mark).len() > 0 <==> exists|j: int|
            0 <= j < s.len() && (#[trigger] s[j]).act is Save && s[j].target == mark && unblocked(all, s[j]),
    decreases s.len(),
{
    if s.len() > 0 {
        let rest = s.drop_last();
        lemma_saviors_in(rest, all, mark);
        if exists|j: int| 0 <= j < rest.len() && (#[trigger] rest[j]).act is Save && rest[j].target == mark
            && unblocked(all, rest[j]) {
            let j = choose|j: int| 0 <= j < rest.len() && (#[trigger] rest[j]).act is Save && rest[j].target == mark
                && unblocked(all, rest[j]);
            assert(s[j] == rest[j]);
        }
        if exists|j: int| 0 <= j < s.len() && (#[trigger] s[j]).act is Save && s[j].target == mark && unblocked(all, s[j]) {
            let j = choose|j: int| 0 <= j < s.len() && (#[trigger] s[j]).act is Save && s[j].target == mark && unblocked(
                all,
                s[j],
            );
            if j < rest.len() {
                assert(rest[j] == s[j]);
            } else {
                assert(s[j] == s.last());
            }
        }
    }
}

/// Blocks are never blocked: a resolved block is the block itself.
pub proof fn law_blocks_stand(s: Seq<NightActView>, a: NightActView)
    requires
        a.act is Block,
    ensures
        resolved(s, a) == a,
{
}

} // verus!
