//! The first game model: players named by any id type, joining during
//! `Init`, then votes by day and actions by night.
use vstd::prelude::*;

verus! {

/// A Discord user id.
#[derive(Debug, Clone, Copy, PartialEq, Eq, Hash, Structural)]
pub struct UserID(pub u64);

/// An id type for players.
pub trait UID: Copy {
    /// Whether two ids name the same player.
    fn same(&self, other: &Self) -> (b: bool)
        ensures
            b == (*self == *other),
    ;
}

impl UID for UserID {
    fn same(&self, other: &Self) -> (b: bool) {
        self.0 == other.0
    }
}

impl UID for u64 {
    fn same(&self, other: &Self) -> (b: bool) {
        *self == *other
    }
}

/// Whether the game starts by day or by night.
#[derive(Debug, Clone, Copy, PartialEq, Eq, Hash, Default, Structural)]
pub enum StartStep {
    Day,
    Night,
    #[default]
    NightIfEven,
    NightIfOdd,
}

/// The game starts by night for `len` players.
pub open spec fn starts_at_night(s: StartStep, len: int) -> bool {
    match s {
        StartStep::Day => false,
        StartStep::Night => true,
        StartStep::NightIfEven => len % 2 == 0,
        StartStep::NightIfOdd => len % 2 == 1,
    }
}

impl StartStep {
    /// The first step of a game with `len` players.
    pub fn step<U: UID>(&self, len: usize) -> (s: Step<U>)
        ensures
            fresh_step(s, starts_at_night(*self, len as int)),
    {
        match self {
            StartStep::Night => Step::Night(Night::default()),
            StartStep::NightIfEven => if len % 2 == 0 {
                Step::Night(Night::default())
            } else {
                Step::Day(Day::default())
            },
            StartStep::NightIfOdd => if len % 2 == 1 {
                Step::Night(Night::default())
            } else {
                Step::Day(Day::default())
            },
            StartStep::Day => Step::Day(Day::default()),
        }
    }
}

/// How a game is played.
#[derive(Debug, Clone, Copy, PartialEq, Eq, Hash, Default, Structural)]
pub struct Rules {
    pub start_step: StartStep,
}

/// Why a request was refused.
#[derive(Debug, Clone, PartialEq, Eq, Hash)]
pub struct MError(pub String);

impl MError {
    pub fn new(msg: &str) -> (e: Self)
        ensures
            e.0@ == msg@,
    {
        MError(msg.to_owned())
    }
}

#[derive(Debug, Clone, Copy, PartialEq, Eq, Hash)]
pub enum Role<U: UID> {
    TOWN,
    COP,
    DOCTOR,
    CELEB,
    MILLER,
    MASON,
    MAFIA,
    GODFATHER,
    GOON,
    IDIOT,
    SURVIVOR,
    GUARD(U),
    AGENT(U),
}

#[derive(Debug, Clone, Copy, PartialEq, Eq, Hash, Structural)]
pub enum Team {
    Town,
    Mafia,
    Rogue,
}

/// The team of a role.
pub open spec fn team_of<U: UID>(r: Role<U>) -> Team {
    match r {
        Role::TOWN | Role::COP | Role::DOCTOR | Role::CELEB | Role::MILLER | Role::MASON => Team::Town,
        Role::MAFIA | Role::GODFATHER | Role::GOON => Team::Mafia,
        Role::IDIOT | Role::SURVIVOR | Role::GUARD(_) | Role::AGENT(_) => Team::Rogue,
    }
}

impl<U: UID> Role<U> {
    pub fn team(&self) -> (t: Team)
        ensures
            t == team_of(*self),
    {
        match self {
            Role::TOWN | Role::COP | Role::DOCTOR | Role::CELEB => Team::Town,
            Role::MILLER | Role::MASON => Team::Town,
            Role::MAFIA | Role::GODFATHER | Role::GOON => Team::Mafia,
            Role::IDIOT | Role::SURVIVOR | Role::GUARD(_) | Role::AGENT(_) => Team::Rogue,
        }
    }
}

#[derive(Debug, Clone, Copy, PartialEq, Eq)]
pub struct Player<U: UID> {
    pub uid: U,
    pub role: Role<U>,
}

impl<U: UID> Player<U> {
    pub fn new(uid: &U, role: &Role<U>) -> (p: Self)
        ensures
            p.uid == *uid,
            p.role == *role,
    {
        Player { uid: *uid, role: *role }
    }
}

/// A vote or night action: someone, or no one.
#[derive(Debug, Clone, Copy, PartialEq, Eq)]
pub enum Target<U: UID> {
    Select(U),
    Abstain,
}

/// Who voted for what today, in the order the votes stand.
#[derive(Debug, Clone)]
pub struct Day<U: UID> {
    pub votes: Vec<(U, Target<U>)>,
}

/// Tonight's actions and the mafia's target.
#[derive(Debug, Clone)]
pub struct Night<U: UID> {
    pub actions: Vec<(U, Target<U>)>,
    pub mafia_target: Option<Target<U>>,
}

/// The step starts fresh: a day with no votes, or a night with no actions
/// and no mafia target.
pub open spec fn fresh_step<U: UID>(s: Step<U>, night: bool) -> bool {
    if night {
        s matches Step::Night(n) && n.actions@.len() == 0 && n.mafia_target is None
    } else {
        s matches Step::Day(d) && d.votes@.len() == 0
    }
}

impl<U: UID> Default for Day<U> {
    fn default() -> (d: Self)
        ensures
            d.votes@.len() == 0,
    {
        Day { votes: Vec::new() }
    }
}

impl<U: UID> Default for Night<U> {
    fn default() -> (n: Self)
        ensures
            n.actions@.len() == 0,
            n.mafia_target is None,
    {
        Night { actions: Vec::new(), mafia_target: None }
    }
}

#[derive(Debug, Clone)]
pub enum Step<U: UID> {
    Day(Day<U>),
    Night(Night<U>),
}

#[derive(Debug, Clone)]
pub enum Phase<U: UID> {
    Init,
    Play { day: u32, step: Step<U> },
    End,
}

/// The phase a game with `len` players starts in: day 1, by night or by
/// day as the rules say.
pub open spec fn first_phase<U: UID>(p: Phase<U>, rules: Rules, len: int) -> bool {
    p matches Phase::Play { day, step } && day == 1 && fresh_step(step, starts_at_night(rules.start_step, len))
}

impl<U: UID> Phase<U> {
    fn init(&self) -> (r: Result<(), MError>)
        ensures
            r is Ok <==> *self is Init,
            r matches Err(e) ==> e.0@ == "Not in Init Phase"@,
    {
        match self {
            Phase::Init => Ok(()),
            _ => Err(MError::new("Not in Init Phase")),
        }
    }

    fn play(&mut self) -> (r: Result<&mut Step<U>, MError>)
        ensures
            *old(self) is Play <==> r is Ok,
            r matches Ok(s) ==> *s == old(self)->step && *final(self) == (Phase::Play {
                day: old(self)->day,
                step: *final(s),
            }),
            r matches Err(e) ==> *final(self) == *old(self) && e.0@ == "Not in Play Phase"@,
    {
        match self {
            Phase::Play { step, .. } => Ok(step),
            _ => Err(MError::new("Not in Play Phase")),
        }
    }
}

impl<U: UID> Step<U> {
    fn day(&mut self) -> (r: Result<&mut Day<U>, MError>)
        ensures
            *old(self) is Day <==> r is Ok,
            r matches Ok(d) ==> *d == old(self)->Day_0 && *final(self) == Step::Day(*final(d)),
            r matches Err(e) ==> *final(self) == *old(self) && e.0@ == "Not in Day Step"@,
    {
        match self {
            Step::Day(day) => Ok(day),
            _ => Err(MError::new("Not in Day Step")),
        }
    }

    fn night(&mut self) -> (r: Result<&mut Night<U>, MError>)
        ensures
            *old(self) is Night <==> r is Ok,
            r matches Ok(n) ==> *n == old(self)->Night_0 && *final(self) == Step::Night(*final(n)),
            r matches Err(e) ==> *final(self) == *old(self) && e.0@ == "Not in Night Step"@,
    {
        match self {
            Step::Night(night) => Ok(night),
            _ => Err(MError::new("Not in Night Step")),
        }
    }
}

/// The first entry for `k`, or -1.
pub open spec fn key_pos<U: UID>(s: Seq<(U, Target<U>)>, k: U) -> int
    decreases s.len(),
{
    if s.len() == 0 {
        -1
    } else {
        let p = key_pos(s.drop_last(), k);
        if p >= 0 {
            p
        } else if s.last().0 == k {
            s.len() - 1
        } else {
            -1
        }
    }
}

/// The entries once `k`'s entry is taken out.
pub open spec fn without_key<U: UID>(s: Seq<(U, Target<U>)>, k: U) -> Seq<(U, Target<U>)> {
    if key_pos(s, k) >= 0 {
        s.remove(key_pos(s, k))
    } else {
        s
    }
}

/// The entries once `k` is set to `t`: its entry is replaced in place, or
/// a new one goes last.
pub open spec fn with_key<U: UID>(s: Seq<(U, Target<U>)>, k: U, t: Target<U>) -> Seq<(U, Target<U>)> {
    if key_pos(s, k) >= 0 {
        s.update(key_pos(s, k), (k, t))
    } else {
        s.push((k, t))
    }
}

proof fn lemma_key_pos<U: UID>(s: Seq<(U, Target<U>)>, k: U)
    ensures
        -1 <= key_pos(s, k) < s.len(),
        key_pos(s, k) >= 0 ==> s[key_pos(s, k)].0 == k,
    decreases s.len(),
{
    if s.len() > 0 {
        lemma_key_pos(s.drop_last(), k);
    }
}

fn find_key<U: UID>(s: &Vec<(U, Target<U>)>, k: &U) -> (r: Option<usize>)
    ensures
        r is Some <==> key_pos(s@, *k) >= 0,
        r matches Some(i) ==> i == key_pos(s@, *k) && i < s@.len(),
{
    proof {
        lemma_key_pos(s@, *k);
    }
    let mut found: Option<usize> = None;
    let mut i: usize = 0;
    while i < s.len()
        invariant
            i <= s.len(),
            found is Some <==> key_pos(s@.take(i as int), *k) >= 0,
            found matches Some(j) ==> j == key_pos(s@.take(i as int), *k),
        decreases s.len() - i,
    {
        assert(s@.take(i + 1).drop_last() =~= s@.take(i as int));
        if found.is_none() && s[i].0.same(k) {
            found = Some(i);
        }
        i = i + 1;
    }
    assert(s@.take(s.len() as int) =~= s@);
    found
}

/// Takes `k`'s entry out.
fn remove_key<U: UID>(s: &mut Vec<(U, Target<U>)>, k: &U)
    ensures
        final(s)@ == without_key(old(s)@, *k),
{
    match find_key(s, k) {
        Some(i) => {
            s.remove(i);
        },
        None => {},
    }
}

/// Sets `k` to `t`.
fn insert_key<U: UID>(s: &mut Vec<(U, Target<U>)>, k: &U, t: &Target<U>)
    ensures
        final(s)@ == with_key(old(s)@, *k, *t),
{
    match find_key(s, k) {
        Some(i) => {
            s.set(i, (*k, *t));
        },
        None => {
            s.push((*k, *t));
        },
    }
}

/// The first player with id `uid`, or -1.
pub open spec fn player_pos<U: UID>(s: Seq<Player<U>>, uid: U) -> int
    decreases s.len(),
{
    if s.len() == 0 {
        -1
    } else {
        let p = player_pos(s.drop_last(), uid);
        if p >= 0 {
            p
        } else if s.last().uid == uid {
            s.len() - 1
        } else {
            -1
        }
    }
}

/// Someone plays under `uid`.
pub open spec fn plays<U: UID>(s: Seq<Player<U>>, uid: U) -> bool {
    player_pos(s, uid) >= 0
}

proof fn lemma_player_pos<U: UID>(s: Seq<Player<U>>, uid: U)
    ensures
        -1 <= player_pos(s, uid) < s.len(),
        player_pos(s, uid) >= 0 ==> s[player_pos(s, uid)].uid == uid,
    decreases s.len(),
{
    if s.len() > 0 {
        lemma_player_pos(s.drop_last(), uid);
    }
}

/// What a vote or action by `who` for `target` comes to, once the phase
/// and step fit: the player must play, and a selected target too.
pub open spec fn choice_error<U: UID>(players: Seq<Player<U>>, who: U, target: Option<Target<U>>) -> Option<Seq<char>> {
    if !plays(players, who) {
        Some("Player does not exist"@)
    } else if target matches Some(Target::Select(uid)) && !plays(players, uid) {
        Some("Target not playing"@)
    } else {
        None
    }
}

/// The list once `who` chooses `target`: no target takes the entry out.
pub open spec fn chosen<U: UID>(s: Seq<(U, Target<U>)>, who: U, target: Option<Target<U>>) -> Seq<(U, Target<U>)> {
    match target {
        None => without_key(s, who),
        Some(t) => with_key(s, who, t),
    }
}

#[derive(Debug, Clone)]
pub struct Game<U: UID> {
    pub players: Vec<Player<U>>,
    pub phase: Phase<U>,
    pub rules: Rules,
}

impl<U: UID> Game<U> {
    pub fn new() -> (g: Self)
        ensures
            g.players@.len() == 0,
            g.phase is Init,
            g.rules == Rules::default_spec(),
    {
        Game { players: Vec::new(), phase: Phase::Init, rules: Rules { start_step: StartStep::NightIfEven } }
    }

    /// Adds a player while the game has not started and the id is free.
    pub fn add_player(&mut self, player: Player<U>) -> (r: Result<(), MError>)
        ensures
            !(old(self).phase is Init) ==> (r matches Err(e) && e.0@ == "Not in Init Phase"@),
            old(self).phase is Init && plays(old(self).players@, player.uid) ==> (r matches Err(e)
                && e.0@ == "Player already exists"@),
            r is Ok <==> old(self).phase is Init && !plays(old(self).players@, player.uid),
            r is Ok ==> final(self).players@ == old(self).players@.push(player),
            r is Err ==> final(self).players@ == old(self).players@,
            final(self).phase == old(self).phase,
            final(self).rules == old(self).rules,
    {
        match self.phase.init() {
            Ok(()) => {},
            Err(e) => {
                return Err(e);
            },
        }
        if self.check_player(&player.uid).is_ok() {
            return Err(MError::new("Player already exists"));
        }
        self.players.push(player);
        Ok(())
    }

    /// The player with id `uid`.
    pub fn check_player(&self, uid: &U) -> (r: Result<&Player<U>, MError>)
        ensures
            r is Ok <==> plays(self.players@, *uid),
            r matches Ok(p) ==> *p == self.players@[player_pos(self.players@, *uid)],
            r matches Err(e) ==> e.0@ == "Player does not exist"@,
    {
        proof {
            lemma_player_pos(self.players@, *uid);
        }
        let mut found: Option<usize> = None;
        let mut i: usize = 0;
        while i < self.players.len()
            invariant
                i <= self.players.len(),
                found is Some <==> player_pos(self.players@.take(i as int), *uid) >= 0,
                found matches Some(j) ==> j == player_pos(self.players@.take(i as int), *uid),
            decreases self.players.len() - i,
        {
            assert(self.players@.take(i + 1).drop_last() =~= self.players@.take(i as int));
            if found.is_none() && self.players[i].uid.same(uid) {
                found = Some(i);
            }
            i = i + 1;
        }
        assert(self.players@.take(self.players.len() as int) =~= self.players@);
        match found {
            Some(j) => Ok(&self.players[j]),
            None => Err(MError::new("Player does not exist")),
        }
    }

    /// Starts the game on day 1 with the step the rules give.
    pub fn start(&mut self) -> (r: Result<(), MError>)
        ensures
            r is Ok <==> old(self).phase is Init,
            r matches Err(e) ==> e.0@ == "Not in Init Phase"@ && *final(self) == *old(self),
            r is Ok ==> first_phase(final(self).phase, old(self).rules, old(self).players@.len() as int)
                && final(self).players == old(self).players && final(self).rules == old(self).rules,
    {
        match self.phase.init() {
            Ok(()) => {},
            Err(e) => {
                return Err(e);
            },
        }
        let step = self.rules.start_step.step(self.players.len());
        self.phase = Phase::Play { day: 1, step };
        Ok(())
    }

    /// A vote by day: no target takes the voter's vote back.
    pub fn vote(&mut self, voter: &U, target: &Option<Target<U>>) -> (r: Result<(), MError>)
        ensures
            voted(*old(self), *final(self), *voter, *target, r),
    {
        match &self.phase {
            Phase::Play { step: Step::Day(_), .. } => {},
            Phase::Play { .. } => {
                return Err(MError::new("Not in Day Step"));
            },
            _ => {
                return Err(MError::new("Not in Play Phase"));
            },
        };
        match self.check_player(voter) {
            Ok(_) => {},
            Err(e) => {
                return Err(e);
            },
        }
        match target {
            Some(Target::Select(uid)) => {
                if self.check_player(uid).is_err() {
                    return Err(MError::new("Target not playing"));
                }
            },
            _ => {},
        }
        let step = match self.phase.play() {
            Ok(s) => s,
            Err(e) => {
                return Err(e);
            },
        };
        let day = match step.day() {
            Ok(d) => d,
            Err(e) => {
                return Err(e);
            },
        };
        match target {
            None => remove_key(&mut day.votes, voter),
            Some(t) => insert_key(&mut day.votes, voter, t),
        }
        Ok(())
    }

    /// An action by night: no target takes the actor's action back.
    pub fn action(&mut self, actor: &U, target: &Option<Target<U>>) -> (r: Result<(), MError>)
        ensures
            acted(*old(self), *final(self), *actor, *target, r),
    {
        match &self.phase {
            Phase::Play { step: Step::Night(_), .. } => {},
            Phase::Play { .. } => {
                return Err(MError::new("Not in Night Step"));
            },
            _ => {
                return Err(MError::new("Not in Play Phase"));
            },
        }
        match self.check_player(actor) {
            Ok(_) => {},
            Err(e) => {
                return Err(e);
            },
        }
        match target {
            Some(Target::Select(uid)) => {
                if self.check_player(uid).is_err() {
                    return Err(MError::new("Target not playing"));
                }
            },
            _ => {},
        }
        let step = match self.phase.play() {
            Ok(s) => s,
            Err(e) => {
                return Err(e);
            },
        };
        let night = match step.night() {
            Ok(n) => n,
            Err(e) => {
                return Err(e);
            },
        };
        match target {
            None => remove_key(&mut night.actions, actor),
            Some(t) => insert_key(&mut night.actions, actor, t),
        }
        Ok(())
    }
}

impl Rules {
    /// The rules a new game gets.
    pub open spec fn default_spec() -> Rules {
        Rules { start_step: StartStep::NightIfEven }
    }
}

/// The error a request gets, if any: first the phase and step, then the
/// players named.
pub open spec fn request_error<U: UID>(g: Game<U>, by_night: bool, who: U, target: Option<Target<U>>) -> Option<Seq<char>> {
    if !(g.phase is Play) {
        Some("Not in Play Phase"@)
    } else if by_night && !(g.phase->step is Night) {
        Some("Not in Night Step"@)
    } else if !by_night && !(g.phase->step is Day) {
        Some("Not in Day Step"@)
    } else {
        choice_error(g.players@, who, target)
    }
}

/// What a vote does: refused with the error `request_error` gives, and
/// otherwise the day's votes become `chosen`.
pub open spec fn voted<U: UID>(old: Game<U>, new: Game<U>, voter: U, target: Option<Target<U>>, r: Result<(), MError>) -> bool {
    &&& new.players == old.players
    &&& new.rules == old.rules
    &&& match request_error(old, false, voter, target) {
        Some(m) => (r matches Err(e) && e.0@ == m) && new.phase == old.phase,
        None => {
            &&& r is Ok
            &&& new.phase is Play && new.phase->day == old.phase->day && new.phase->step is Day
            &&& new.phase->step->Day_0.votes@ == chosen(old.phase->step->Day_0.votes@, voter, target)
        },
    }
}

/// What a night action does: refused with the error `request_error` gives,
/// and otherwise the night's actions become `chosen`.
pub open spec fn acted<U: UID>(old: Game<U>, new: Game<U>, actor: U, target: Option<Target<U>>, r: Result<(), MError>) -> bool {
    &&& new.players == old.players
    &&& new.rules == old.rules
    &&& match request_error(old, true, actor, target) {
        Some(m) => (r matches Err(e) && e.0@ == m) && new.phase == old.phase,
        None => {
            &&& r is Ok
            &&& new.phase is Play && new.phase->day == old.phase->day && new.phase->step is Night
            &&& new.phase->step->Night_0.actions@ == chosen(old.phase->step->Night_0.actions@, actor, target)
            &&& new.phase->step->Night_0.mafia_target == old.phase->step->Night_0.mafia_target
        },
    }
}

/// Each id has at most one entry.
pub open spec fn keys_unique<U: UID>(s: Seq<(U, Target<U>)>) -> bool {
    forall|i: int, j: int| 0 <= i < j < s.len() ==> #[trigger] s[i].0 != #[trigger] s[j].0
}

proof fn lemma_key_pos_only<U: UID>(s: Seq<(U, Target<U>)>, k: U, p: int)
    requires
        -1 <= p < s.len(),
        p >= 0 ==> s[p].0 == k,
        forall|i: int| 0 <= i < s.len() && i != p ==> #[trigger] s[i].0 != k,
    ensures
        key_pos(s, k) == p,
    decreases s.len(),
{
    if s.len() > 0 {
        let rest = s.drop_last();
        if p == s.len() - 1 {
            lemma_key_pos_only(rest, k, -1);
        } else {
            assert forall|i: int| 0 <= i < rest.len() && i != p implies #[trigger] rest[i].0 != k by {
                assert(rest[i] == s[i]);
            }
            lemma_key_pos_only(rest, k, p);
            assert(s[s.len() - 1] == s.last());
        }
    }
}

/// A choice is read back: after `who` chooses a target it is their entry,
/// after choosing none they have no entry, and each id keeps at most one.
pub proof fn law_choice_reads_back<U: UID>(s: Seq<(U, Target<U>)>, who: U, target: Option<Target<U>>)
    requires
        keys_unique(s),
    ensures
        keys_unique(chosen(s, who, target)),
        match target {
            Some(t) => key_pos(chosen(s, who, target), who) >= 0 && chosen(s, who, target)[key_pos(
                chosen(s, who, target),
                who,
            )] == (who, t),
            None => key_pos(chosen(s, who, target), who) == -1,
        },
{
    lemma_key_pos(s, who);
    let p = key_pos(s, who);
    assert(forall|i: int| 0 <= i < s.len() && i != p ==> #[trigger] s[i].0 != who) by {
        if p < 0 {
            assert forall|i: int| 0 <= i < s.len() && i != p implies #[trigger] s[i].0 != who by {
                if s[i].0 == who {
                    lemma_key_pos_only(s, who, i);
                }
            }
        }
    }
    match target {
        None => {
            let w = without_key(s, who);
            assert forall|i: int| 0 <= i < w.len() implies #[trigger] w[i].0 != who by {
                if p >= 0 {
                    if i < p {
                        assert(w[i] == s[i]);
                    } else {
                        assert(w[i] == s[i + 1]);
                    }
                }
            }
            assert forall|i: int, j: int| 0 <= i < j < w.len() implies #[trigger] w[i].0 != #[trigger] w[j].0 by {
                if p >= 0 {
                    let ii = if i < p { i } else { i + 1 };
                    let jj = if j < p { j } else { j + 1 };
                    assert(w[i] == s[ii]);
                    assert(w[j] == s[jj]);
                }
            }
            lemma_key_pos_only(w, who, -1);
        },
        Some(t) => {
            let w = with_key(s, who, t);
            if p >= 0 {
                assert forall|i: int, j: int| 0 <= i < j < w.len() implies #[trigger] w[i].0 != #[trigger] w[j].0 by {
                    if i != p && j != p {
                        assert(w[i] == s[i] && w[j] == s[j]);
                    } else if i == p {
                        assert(w[j] == s[j]);
                    } else {
                        assert(w[i] == s[i]);
                    }
                }
                lemma_key_pos_only(w, who, p);
            } else {
                assert forall|i: int, j: int| 0 <= i < j < w.len() implies #[trigger] w[i].0 != #[trigger] w[j].0 by {
                    if j == s.len() {
                        assert(w[i] == s[i]);
                    } else {
                        assert(w[i] == s[i] && w[j] == s[j]);
                    }
                }
                lemma_key_pos_only(w, who, s.len() as int);
            }
        },
    }
}


proof fn lemma_choice_keeps_others<U: UID>(s: Seq<(U, Target<U>)>, who: U, target: Option<Target<U>>)
    ensures
        forall|i: int| 0 <= i < s.len() && #[trigger] s[i].0 != who ==> chosen(s, who, target).contains(s[i]),
        forall|i: int|
            0 <= i < chosen(s, who, target).len() && #[trigger] chosen(s, who, target)[i].0 != who ==> s.contains(
                chosen(s, who, target)[i],
            ),
{
    lemma_key_pos(s, who);
    let p = key_pos(s, who);
    let w = chosen(s, who, target);
    assert forall|i: int| 0 <= i < s.len() && #[trigger] s[i].0 != who implies w.contains(s[i]) by {
        match target {
            None => {
                if p >= 0 {
                    if i < p {
                        assert(w[i] == s[i]);
                    } else {
                        assert(i != p);
                        assert(w[i - 1] == s[i]);
                    }
                } else {
                    assert(w[i] == s[i]);
                }
            },
            Some(t) => {
                if p >= 0 {
                    assert(i != p);
                    assert(w[i] == s[i]);
                } else {
                    assert(w[i] == s[i]);
                }
            },
        }
    }
    assert forall|i: int| 0 <= i < w.len() && #[trigger] w[i].0 != who implies s.contains(w[i]) by {
        match target {
            None => {
                if p >= 0 {
                    if i < p {
                        assert(w[i] == s[i]);
                    } else {
                        assert(w[i] == s[i + 1]);
                    }
                } else {
                    assert(w[i] == s[i]);
                }
            },
            Some(t) => {
                if p >= 0 {
                    assert(i != p);
                    assert(w[i] == s[i]);
                } else {
                    assert(i < s.len());
                    assert(w[i] == s[i]);
                }
            },
        }
    }
}

/// An accepted night action reads back: a target becomes the actor's one
/// entry among the night's actions, and no target takes the actor's entry
/// away; each actor keeps at most one entry, and every other actor's
/// entry stays as it was.
pub proof fn law_night_action_reads_back<U: UID>(
    old: Game<U>,
    new: Game<U>,
    actor: U,
    target: Option<Target<U>>,
    r: Result<(), MError>,
)
    requires
        acted(old, new, actor, target, r),
        keys_unique(old.phase->step->Night_0.actions@),
    ensures
        r is Ok ==> {
            let a = new.phase->step->Night_0.actions@;
            &&& keys_unique(a)
            &&& match target {
                Some(t) => key_pos(a, actor) >= 0 && a[key_pos(a, actor)] == (actor, t),
                None => key_pos(a, actor) == -1,
            }
            &&& forall|i: int| 0 <= i < a.len() && #[trigger] a[i].0 != actor ==> old.phase->step->Night_0.actions@.contains(a[i])
            &&& forall|i: int|
                0 <= i < old.phase->step->Night_0.actions@.len() && #[trigger] old.phase->step->Night_0.actions@[i].0 != actor
                    ==> a.contains(old.phase->step->Night_0.actions@[i])
        },
{
    law_choice_reads_back(old.phase->step->Night_0.actions@, actor, target);
    lemma_choice_keeps_others(old.phase->step->Night_0.actions@, actor, target);
}

/// An accepted vote reads back: a ballot becomes the voter's one entry
/// among the day's votes, and no ballot takes the voter's vote away; each
/// voter keeps at most one vote, and every other voter's vote stays as it
/// was.
pub proof fn law_vote_reads_back<U: UID>(
    old: Game<U>,
    new: Game<U>,
    voter: U,
    target: Option<Target<U>>,
    r: Result<(), MError>,
)
    requires
        voted(old, new, voter, target, r),
        keys_unique(old.phase->step->Day_0.votes@),
    ensures
        r is Ok ==> {
            let v = new.phase->step->Day_0.votes@;
            &&& keys_unique(v)
            &&& match target {
                Some(t) => key_pos(v, voter) >= 0 && v[key_pos(v, voter)] == (voter, t),
                None => key_pos(v, voter) == -1,
            }
            &&& forall|i: int| 0 <= i < v.len() && #[trigger] v[i].0 != voter ==> old.phase->step->Day_0.votes@.contains(v[i])
            &&& forall|i: int|
                0 <= i < old.phase->step->Day_0.votes@.len() && #[trigger] old.phase->step->Day_0.votes@[i].0 != voter
                    ==> v.contains(old.phase->step->Day_0.votes@[i])
        },
{
    law_choice_reads_back(old.phase->step->Day_0.votes@, voter, target);
    lemma_choice_keeps_others(old.phase->step->Day_0.votes@, voter, target);
}

} // verus!
