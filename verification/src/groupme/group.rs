use vstd::prelude::*;

use super::ids::{GroupId, UserId};

verus! {

/// A member of a group.
#[derive(Debug, Clone, PartialEq, Eq)]
pub struct Member {
    pub nickname: String,
    pub user_id: UserId,
    /// Membership id, used to kick.
    pub membership_id: Option<String>,
}

impl Member {
    pub fn new(nickname: String, user_id: UserId) -> (m: Self)
        ensures
            m.nickname == nickname,
            m.user_id == user_id,
            m.membership_id is None,
    {
        Member { nickname, user_id, membership_id: None }
    }

    /// A copy of the member.
    pub fn duplicate(&self) -> (m: Self)
        ensures
            m == *self,
    {
        let membership_id = match &self.membership_id {
            Some(s) => Some(s.clone()),
            None => None,
        };
        Member { nickname: self.nickname.clone(), user_id: self.user_id, membership_id }
    }
}

impl From<(String, UserId)> for Member {
    fn from(value: (String, UserId)) -> (m: Member) {
        let (nickname, user_id) = value;
        Member { nickname, user_id, membership_id: None }
    }
}

impl vstd::std_specs::convert::FromSpecImpl<(String, UserId)> for Member {
    open spec fn obeys_from_spec() -> bool {
        true
    }

    open spec fn from_spec(v: (String, UserId)) -> Member {
        Member { nickname: v.0, user_id: v.1, membership_id: None }
    }
}

/// A group chat: its id, its members, and the names it knows them by.
#[derive(Debug, Clone)]
pub struct Group {
    pub id: GroupId,
    pub members: Vec<Member>,
    pub names: Vec<(UserId, String)>,
}

/// The first name entry for `u`, or -1.
pub open spec fn name_pos(s: Seq<(UserId, String)>, u: UserId) -> int
    decreases s.len(),
{
    if s.len() == 0 {
        -1
    } else {
        let p = name_pos(s.drop_last(), u);
        if p >= 0 {
            p
        } else if s.last().0 == u {
            s.len() - 1
        } else {
            -1
        }
    }
}

proof fn lemma_name_pos(s: Seq<(UserId, String)>, u: UserId)
    ensures
        -1 <= name_pos(s, u) < s.len(),
        name_pos(s, u) >= 0 ==> s[name_pos(s, u)].0 == u,
    decreases s.len(),
{
    if s.len() > 0 {
        lemma_name_pos(s.drop_last(), u);
    }
}

/// The names once `u` is called `name`: an entry is replaced in place, or a
/// new one goes last.
pub open spec fn named(s: Seq<(UserId, String)>, u: UserId, name: String) -> Seq<(UserId, String)> {
    if name_pos(s, u) >= 0 {
        s.update(name_pos(s, u), (u, name))
    } else {
        s.push((u, name))
    }
}

/// The names once each member is called by their nickname, in order.
pub open spec fn named_all(s: Seq<(UserId, String)>, members: Seq<Member>) -> Seq<(UserId, String)>
    decreases members.len(),
{
    if members.len() == 0 {
        s
    } else {
        let m = members.last();
        named(named_all(s, members.drop_last()), m.user_id, m.nickname)
    }
}

/// The first member with id `u`, or -1.
pub open spec fn member_pos(s: Seq<Member>, u: UserId) -> int
    decreases s.len(),
{
    if s.len() == 0 {
        -1
    } else {
        let p = member_pos(s.drop_last(), u);
        if p >= 0 {
            p
        } else if s.last().user_id == u {
            s.len() - 1
        } else {
            -1
        }
    }
}

proof fn lemma_member_pos(s: Seq<Member>, u: UserId)
    ensures
        -1 <= member_pos(s, u) < s.len(),
    decreases s.len(),
{
    if s.len() > 0 {
        lemma_member_pos(s.drop_last(), u);
    }
}

fn find_name(s: &Vec<(UserId, String)>, u: UserId) -> (r: Option<usize>)
    ensures
        r is Some <==> name_pos(s@, u) >= 0,
        r matches Some(i) ==> i == name_pos(s@, u) && i < s@.len(),
{
    proof {
        lemma_name_pos(s@, u);
    }
    let mut found: Option<usize> = None;
    let mut i: usize = 0;
    while i < s.len()
        invariant
            i <= s.len(),
            found is Some <==> name_pos(s@.take(i as int), u) >= 0,
            found matches Some(j) ==> j == name_pos(s@.take(i as int), u),
        decreases s.len() - i,
    {
        assert(s@.take(i + 1).drop_last() =~= s@.take(i as int));
        if found.is_none() && s[i].0 == u {
            found = Some(i);
        }
        i = i + 1;
    }
    assert(s@.take(s.len() as int) =~= s@);
    found
}

/// Calls `u` by `name`.
fn insert_name(s: &mut Vec<(UserId, String)>, u: UserId, name: String)
    ensures
        final(s)@ == named(old(s)@, u, name),
{
    match find_name(s, u) {
        Some(i) => s.set(i, (u, name)),
        None => s.push((u, name)),
    }
}

/// Calls each member by their nickname, in order.
fn insert_names(s: &mut Vec<(UserId, String)>, members: &Vec<Member>)
    ensures
        final(s)@ == named_all(old(s)@, members@),
{
    let mut i: usize = 0;
    while i < members.len()
        invariant
            i <= members.len(),
            s@ == named_all(old(s)@, members@.take(i as int)),
        decreases members.len() - i,
    {
        assert(members@.take(i + 1).drop_last() =~= members@.take(i as int));
        insert_name(s, members[i].user_id, members[i].nickname.clone());
        i = i + 1;
    }
    assert(members@.take(members.len() as int) =~= members@);
}

impl Group {
    /// A group as the API describes it: its members, each known by their
    /// nickname.
    pub fn from_members(id: GroupId, members: Vec<Member>) -> (g: Self)
        ensures
            g.id == id,
            g.members@ == members@,
            g.names@ == named_all(Seq::empty(), members@),
    {
        let mut names: Vec<(UserId, String)> = Vec::new();
        insert_names(&mut names, &members);
        Group { id, members, names }
    }

    pub fn id(&self) -> (g: GroupId)
        ensures
            g == self.id,
    {
        self.id
    }

    /// The name the group knows `user_id` by.
    pub fn name(&self, user_id: &UserId) -> (r: Option<String>)
        ensures
            name_pos(self.names@, *user_id) >= 0 ==> r == Some(self.names@[name_pos(self.names@, *user_id)].1),
            name_pos(self.names@, *user_id) < 0 ==> r is None,
    {
        match find_name(&self.names, *user_id) {
            Some(i) => Some(self.names[i].1.clone()),
            None => None,
        }
    }

    /// Everyone the group knows, with their names.
    pub fn names(&self) -> (r: Vec<(UserId, String)>)
        ensures
            r@ == self.names@,
    {
        let mut r: Vec<(UserId, String)> = Vec::new();
        let mut i: usize = 0;
        while i < self.names.len()
            invariant
                i <= self.names.len(),
                r@ == self.names@.take(i as int),
            decreases self.names.len() - i,
        {
            r.push((self.names[i].0, self.names[i].1.clone()));
            i = i + 1;
            assert(r@ =~= self.names@.take(i as int));
        }
        assert(self.names@.take(self.names.len() as int) =~= self.names@);
        r
    }

    /// The member with id `user_id`.
    pub fn get_member(&self, user_id: &UserId) -> (r: Option<&Member>)
        ensures
            member_pos(self.members@, *user_id) >= 0 ==> r == Some(
                &self.members@[member_pos(self.members@, *user_id)],
            ),
            member_pos(self.members@, *user_id) < 0 ==> r is None,
    {
        proof {
            lemma_member_pos(self.members@, *user_id);
        }
        let mut found: Option<usize> = None;
        let mut i: usize = 0;
        while i < self.members.len()
            invariant
                i <= self.members.len(),
                found is Some <==> member_pos(self.members@.take(i as int), *user_id) >= 0,
                found matches Some(j) ==> j == member_pos(self.members@.take(i as int), *user_id),
            decreases self.members.len() - i,
        {
            assert(self.members@.take(i + 1).drop_last() =~= self.members@.take(i as int));
            if found.is_none() && self.members[i].user_id == *user_id {
                found = Some(i);
            }
            i = i + 1;
        }
        assert(self.members@.take(self.members.len() as int) =~= self.members@);
        match found {
            Some(j) => Some(&self.members[j]),
            None => None,
        }
    }

    /// Learns the nicknames of members being added.
    pub fn remember_names(&mut self, members: &Vec<Member>)
        ensures
            final(self).names@ == named_all(old(self).names@, members@),
            final(self).id == old(self).id,
            final(self).members == old(self).members,
    {
        insert_names(&mut self.names, members);
    }
}

} // verus!
