use vstd::prelude::*;

use super::ids::{GroupId, MessageId, UserId};
use crate::text::{hex, hex_text};

verus! {

/// The number of a message on the push channel.
#[derive(Debug, Clone, Copy, Default, PartialEq, Eq, Structural)]
pub struct PushId(pub u64);

impl PushId {
    pub fn new() -> (p: Self)
        ensures
            p == PushId(0),
    {
        PushId(0)
    }

    /// Moves on to the next number and gives it.
    pub fn inc_and_clone(&mut self) -> (p: Self)
        requires
            old(self).0 < u64::MAX,
        ensures
            final(self).0 == old(self).0 + 1,
            p == *final(self),
    {
        self.0 = self.0 + 1;
        PushId(self.0)
    }

    /// The number as it is written on the channel: lower-case hexadecimal.
    pub fn text(&self) -> (s: String)
        ensures
            s@ == hex(self.0 as nat),
    {
        hex_text(self.0)
    }
}

/// The channel a push message belongs to.
#[derive(Debug, Clone, Default, PartialEq, Eq)]
pub enum Channel {
    #[default]
    Handshake,
    Subscribe,
    Connect,
    Moderator,
    Unknown(String),
}

/// The path a known channel is written as.
pub open spec fn known_path(c: Channel) -> Seq<char> {
    match c {
        Channel::Handshake => "/meta/handshake"@,
        Channel::Subscribe => "/meta/subscribe"@,
        Channel::Connect => "/meta/connect"@,
        Channel::Moderator => "/user/43040067"@,
        Channel::Unknown(s) => s@,
    }
}

impl Channel {
    /// The path the channel is written as; an unknown channel is its own path.
    pub fn path(&self) -> (s: String)
        ensures
            s@ == known_path(*self),
    {
        match self {
            Channel::Handshake => "/meta/handshake".to_owned(),
            Channel::Subscribe => "/meta/subscribe".to_owned(),
            Channel::Connect => "/meta/connect".to_owned(),
            Channel::Moderator => "/user/43040067".to_owned(),
            Channel::Unknown(s) => s.clone(),
        }
    }

    /// The channel a path names; any other path is an unknown channel.
    pub fn from_path(path: &str) -> (c: Self)
        ensures
            known_path(c) == path@,
            !(c is Unknown) || (path@ != "/meta/handshake"@ && path@ != "/meta/subscribe"@ && path@
                != "/meta/connect"@ && path@ != "/user/43040067"@),
    {
        let p = path.to_owned();
        if p == "/meta/handshake".to_owned() {
            Channel::Handshake
        } else if p == "/meta/subscribe".to_owned() {
            Channel::Subscribe
        } else if p == "/meta/connect".to_owned() {
            Channel::Connect
        } else if p == "/user/43040067".to_owned() {
            Channel::Moderator
        } else {
            Channel::Unknown(p)
        }
    }
}

/// How the server wants the client to reconnect.
#[derive(Debug, Clone, PartialEq, Eq)]
pub struct Advice {
    pub reconnect: String,
    pub interval: u32,
    pub timeout: u32,
}

/// The credentials sent with a subscription.
#[derive(Debug, Clone, PartialEq, Eq)]
pub struct Ext {
    pub access_token: String,
    pub timestamp: u64,
}

impl Ext {
    pub fn new(access_token: String, timestamp: u64) -> (e: Self)
        ensures
            e.access_token == access_token,
            e.timestamp == timestamp,
    {
        Ext { access_token, timestamp }
    }
}

/// A mention or another attachment of a pushed message.
#[derive(Debug, Clone, PartialEq, Eq)]
pub enum Attachment {
    Mentions { user_ids: Vec<u64> },
    Unknown,
}

/// What a pushed message carries: a group message, a direct message, or
/// something else.
#[derive(Debug, Clone, PartialEq, Eq)]
pub enum Data {
    GroupMsg {
        attachments: Vec<Attachment>,
        group_id: GroupId,
        created_at: u64,
        id: MessageId,
        name: String,
        text: String,
        user_id: UserId,
    },
    DirectMsg {
        attachments: Vec<Attachment>,
        created_at: u64,
        id: MessageId,
        name: String,
        text: String,
        user_id: UserId,
    },
    Unknown,
}

/// A message on the push channel.
#[derive(Debug, Clone, Default)]
pub struct PushMessage {
    pub id: PushId,
    pub channel: Channel,
    pub client_id: Option<String>,
    pub version: Option<String>,
    pub supported_connection_types: Option<Vec<String>>,
    pub subscription: Option<String>,
    pub advice: Option<Advice>,
    pub successful: Option<bool>,
    pub ext: Option<Ext>,
    pub connection_type: Option<String>,
    pub data: Option<Data>,
}

impl PushMessage {
    /// A message on `channel` with the next number of `id` and nothing else.
    pub fn new(id: &mut PushId, channel: Channel) -> (m: Self)
        requires
            old(id).0 < u64::MAX,
        ensures
            final(id).0 == old(id).0 + 1,
            m.id == *final(id),
            m.channel == channel,
            m.client_id is None && m.version is None && m.supported_connection_types is None,
            m.subscription is None && m.advice is None && m.successful is None,
            m.ext is None && m.connection_type is None && m.data is None,
    {
        PushMessage {
            id: id.inc_and_clone(),
            channel,
            client_id: None,
            version: None,
            supported_connection_types: None,
            subscription: None,
            advice: None,
            successful: None,
            ext: None,
            connection_type: None,
            data: None,
        }
    }

    pub fn data(&self) -> (d: &Option<Data>)
        ensures
            d == &self.data,
    {
        &self.data
    }

    pub fn version(self, version: &str) -> (m: Self)
        ensures
            m.version matches Some(v) && v@ == version@,
            m == (PushMessage { version: m.version, ..self }),
    {
        let mut m = self;
        m.version = Some(version.to_owned());
        m
    }

    pub fn supported_connection_types(self, value: &[&str]) -> (m: Self)
        ensures
            m.supported_connection_types matches Some(v) && v@.len() == value@.len() && forall|i: int|
                0 <= i < value@.len() ==> (#[trigger] v@[i])@ == value@[i]@,
            m == (PushMessage { supported_connection_types: m.supported_connection_types, ..self }),
    {
        let mut v: Vec<String> = Vec::new();
        let mut i: usize = 0;
        while i < value.len()
            invariant
                i <= value@.len(),
                v@.len() == i,
                forall|j: int| 0 <= j < i ==> (#[trigger] v@[j])@ == value@[j]@,
            decreases value@.len() - i,
        {
            v.push(value[i].to_owned());
            i = i + 1;
        }
        let mut m = self;
        m.supported_connection_types = Some(v);
        m
    }

    pub fn subscription(self, subscription: &str) -> (m: Self)
        ensures
            m.subscription matches Some(v) && v@ == subscription@,
            m == (PushMessage { subscription: m.subscription, ..self }),
    {
        let mut m = self;
        m.subscription = Some(subscription.to_owned());
        m
    }

    pub fn client_id(self, client_id: &str) -> (m: Self)
        ensures
            m.client_id matches Some(v) && v@ == client_id@,
            m == (PushMessage { client_id: m.client_id, ..self }),
    {
        let mut m = self;
        m.client_id = Some(client_id.to_owned());
        m
    }

    pub fn ext(self, ext: Ext) -> (m: Self)
        ensures
            m == (PushMessage { ext: Some(ext), ..self }),
    {
        let mut m = self;
        m.ext = Some(ext);
        m
    }

    pub fn connection_type(self, connection_type: &str) -> (m: Self)
        ensures
            m.connection_type matches Some(v) && v@ == connection_type@,
            m == (PushMessage { connection_type: m.connection_type, ..self }),
    {
        let mut m = self;
        m.connection_type = Some(connection_type.to_owned());
        m
    }
}

/// The known channels have distinct paths, so a known channel is read back
/// from its path.
pub proof fn law_known_paths_distinct(c1: Channel, c2: Channel)
    requires
        !(c1 is Unknown),
        !(c2 is Unknown),
        known_path(c1) == known_path(c2),
    ensures
        c1 == c2,
{
    reveal_strlit("/meta/handshake");
    reveal_strlit("/meta/subscribe");
    reveal_strlit("/meta/connect");
    reveal_strlit("/user/43040067");
    if c1 != c2 {
        let p1 = known_path(c1);
        let p2 = known_path(c2);
        assert(p1.len() != p2.len() || p1[1] != p2[1] || p1[6] != p2[6]);
    }
}

} // verus!
