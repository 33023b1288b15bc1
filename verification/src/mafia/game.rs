use vstd::prelude::*;

use crate::text::{decimal, decimal_text};

verus! {

/// The number of a game, kept from one game to the next.
#[derive(Debug, Clone, Copy, Default, Hash, PartialEq, Eq, Structural)]
pub struct GameId(pub u64);

impl From<GameId> for u64 {
    fn from(value: GameId) -> (r: u64) {
        value.0
    }
}

impl vstd::std_specs::convert::FromSpecImpl<GameId> for u64 {
    open spec fn obeys_from_spec() -> bool {
        true
    }

    open spec fn from_spec(v: GameId) -> u64 {
        v.0
    }
}

impl From<u64> for GameId {
    fn from(value: u64) -> (r: GameId) {
        GameId(value)
    }
}

impl vstd::std_specs::convert::FromSpecImpl<u64> for GameId {
    open spec fn obeys_from_spec() -> bool {
        true
    }

    open spec fn from_spec(v: u64) -> GameId {
        GameId(v)
    }
}

impl GameId {
    /// The number as it is written: in decimal.
    pub fn text(&self) -> (s: String)
        ensures
            s@ == decimal(self.0 as nat),
    {
        decimal_text(self.0 as u128)
    }

    /// The number the next game gets.
    pub fn next(&self) -> (r: Option<GameId>)
        ensures
            self.0 < u64::MAX ==> r == Some(GameId((self.0 + 1) as u64)),
            self.0 == u64::MAX ==> r is None,
    {
        if self.0 < u64::MAX {
            Some(GameId(self.0 + 1))
        } else {
            None
        }
    }
}

} // verus!
