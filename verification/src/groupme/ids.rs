use vstd::prelude::*;

use crate::text::{decimal, decimal_parse, decimal_text, law_decimal_reads_back, parse_decimal};

verus! {

#[derive(Debug, Clone, Copy, PartialEq, Eq, PartialOrd, Ord, Hash, Structural)]
pub struct UserId(pub u64);

#[derive(Debug, Clone, Copy, PartialEq, Eq, Hash, Structural)]
pub struct GroupId(pub u64);

#[derive(Debug, Clone, Copy, PartialEq, Eq, Hash, Structural)]
pub struct MessageId(pub u128);

/// The user id of the bot's own account.
pub const MODERATOR_UID: u64 = 43040067;

pub const BRIAN_UID: u64 = 21642197;

pub const LOBBY_CHAT_ID: u64 = 25833774;

pub const MAIN_CHAT_ID: u64 = 105362524;

pub const MAFIA_CHAT_ID: u64 = 105362533;

pub const TEST_LOBBY_CHAT_ID: u64 = 105412553;

impl From<UserId> for u64 {
    fn from(u: UserId) -> (r: u64) {
        u.0
    }
}

impl vstd::std_specs::convert::FromSpecImpl<UserId> for u64 {
    open spec fn obeys_from_spec() -> bool {
        true
    }

    open spec fn from_spec(v: UserId) -> u64 {
        v.0
    }
}

impl From<u64> for UserId {
    fn from(u: u64) -> (r: UserId) {
        UserId(u)
    }
}

impl vstd::std_specs::convert::FromSpecImpl<u64> for UserId {
    open spec fn obeys_from_spec() -> bool {
        true
    }

    open spec fn from_spec(v: u64) -> UserId {
        UserId(v)
    }
}

impl From<UserId> for crate::mafia::role::Pid {
    fn from(u: UserId) -> (p: crate::mafia::role::Pid) {
        crate::mafia::role::Pid(u.0)
    }
}

impl vstd::std_specs::convert::FromSpecImpl<UserId> for crate::mafia::role::Pid {
    open spec fn obeys_from_spec() -> bool {
        true
    }

    open spec fn from_spec(v: UserId) -> crate::mafia::role::Pid {
        crate::mafia::role::Pid(v.0)
    }
}

impl UserId {
    /// The id a text names, read as std reads a `u64`; nothing when the
    /// text is not such a number.
    pub fn from_text(s: &str) -> (r: Option<UserId>)
        ensures
            match r {
                Some(u) => decimal_parse(s@, u64::MAX as int) == Some(u.0 as int),
                None => decimal_parse(s@, u64::MAX as int) is None,
            },
    {
        match parse_decimal(s, u64::MAX as u128) {
            Some(v) => Some(UserId(v as u64)),
            None => None,
        }
    }

    /// The id as the chat writes it: in decimal.
    pub fn text(&self) -> (s: String)
        ensures
            s@ == decimal(self.0 as nat),
    {
        decimal_text(self.0 as u128)
    }

    /// The player id of this user in a game.
    pub fn pid(&self) -> (p: crate::mafia::role::Pid)
        ensures
            p == crate::mafia::role::Pid(self.0),
    {
        crate::mafia::role::Pid(self.0)
    }
}

impl GroupId {
    /// The id a text names, read as std reads a `u64`; nothing when the
    /// text is not such a number.
    pub fn from_text(s: &str) -> (r: Option<GroupId>)
        ensures
            match r {
                Some(g) => decimal_parse(s@, u64::MAX as int) == Some(g.0 as int),
                None => decimal_parse(s@, u64::MAX as int) is None,
            },
    {
        match parse_decimal(s, u64::MAX as u128) {
            Some(v) => Some(GroupId(v as u64)),
            None => None,
        }
    }

    /// The id as the chat writes it: in decimal.
    pub fn text(&self) -> (s: String)
        ensures
            s@ == decimal(self.0 as nat),
    {
        decimal_text(self.0 as u128)
    }
}

impl MessageId {
    /// The id a text names, read as std reads a `u128`; nothing when the
    /// text is not such a number.
    pub fn from_text(s: &str) -> (r: Option<MessageId>)
        ensures
            match r {
                Some(m) => decimal_parse(s@, u128::MAX as int) == Some(m.0 as int),
                None => decimal_parse(s@, u128::MAX as int) is None,
            },
    {
        match parse_decimal(s, u128::MAX) {
            Some(v) => Some(MessageId(v)),
            None => None,
        }
    }

    /// The decimal text of the id before this one.
    pub fn prev(&self) -> (s: String)
        requires
            self.0 > 0,
        ensures
            s@ == decimal((self.0 - 1) as nat),
    {
        decimal_text(self.0 - 1)
    }

    /// The decimal text of the id after this one.
    pub fn next(&self) -> (s: String)
        requires
            self.0 < u128::MAX,
        ensures
            s@ == decimal((self.0 + 1) as nat),
    {
        decimal_text(self.0 + 1)
    }

    /// The decimal text of the id.
    pub fn text(&self) -> (s: String)
        ensures
            s@ == decimal(self.0 as nat),
    {
        decimal_text(self.0)
    }
}

/// The next and previous ids undo each other: the text of the id after
/// `m` reads back as that id, whose previous id is `m` again; and the text
/// of the id before `m` reads back as that id, whose next id is `m`.
pub proof fn law_next_prev_undo(m: MessageId)
    requires
        1 <= m.0 < u128::MAX,
    ensures
        decimal_parse(decimal((m.0 + 1) as nat), u128::MAX as int) == Some(m.0 + 1),
        decimal_parse(decimal((m.0 - 1) as nat), u128::MAX as int) == Some(m.0 - 1),
        decimal(((m.0 + 1) - 1) as nat) == decimal(m.0 as nat),
        decimal(((m.0 - 1) + 1) as nat) == decimal(m.0 as nat),
{
    law_decimal_reads_back((m.0 + 1) as nat, u128::MAX as int);
    law_decimal_reads_back((m.0 - 1) as nat, u128::MAX as int);
}

} // verus!
