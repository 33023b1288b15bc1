//! The push channel's listener: the handshake that gets a client id, the
//! one subscription to the moderator's channel, and where each pushed
//! message goes. The socket itself, and the waiting, are the caller's.
use vstd::prelude::*;
use vstd::string::StringExecFns;

use super::ids::MODERATOR_UID;
use super::push::{Channel, Data, Ext, PushId, PushMessage};
use crate::text::{decimal, decimal_text};

verus! {

/// Seconds a client id is kept before the handshake is made again.
pub const RENEW_SECS: u64 = 2700;

/// What the listener does next.
#[derive(Debug, Clone)]
pub enum SubscriberAction {
    Send(PushMessage),
    Sleep { secs: u64 },
}

/// Where a pushed message goes: its data to the listeners of the
/// moderator's channel, anything else to the handshake.
#[derive(Debug, Clone)]
pub enum Routed {
    Listeners(Data),
    Meta(PushMessage),
}

/// The data of a message on the moderator's channel goes to the listeners;
/// a message on any other channel goes to the handshake.
pub fn route(msg: PushMessage) -> (r: Routed)
    requires
        msg.channel is Moderator ==> msg.data is Some,
    ensures
        msg.channel is Moderator ==> r == Routed::Listeners(msg.data.unwrap()),
        !(msg.channel is Moderator) ==> r == Routed::Meta(msg),
{
    if matches!(msg.channel, Channel::Moderator) {
        match msg.data {
            Some(data) => Routed::Listeners(data),
            None => Routed::Meta(msg),
        }
    } else {
        Routed::Meta(msg)
    }
}

/// A handshake request: version 1.0, over a websocket.
pub open spec fn handshake_request(m: PushMessage, id: PushId) -> bool {
    &&& m.id == id
    &&& m.channel == Channel::Handshake
    &&& m.version matches Some(v) && v@ == "1.0"@
    &&& m.supported_connection_types matches Some(t) && t@.len() == 1 && t@[0]@ == "websocket"@
    &&& m.client_id is None && m.subscription is None && m.advice is None && m.successful is None
    &&& m.ext is None && m.connection_type is None && m.data is None
}

/// The path of the moderator's channel.
pub open spec fn moderator_path() -> Seq<char> {
    "/user/"@ + decimal(MODERATOR_UID as nat)
}

/// A subscription of `client_id` to the moderator's channel.
pub open spec fn subscribe_request(m: PushMessage, id: PushId, client_id: Seq<char>, ext: Ext) -> bool {
    &&& m.id == id
    &&& m.channel == Channel::Subscribe
    &&& m.client_id matches Some(c) && c@ == client_id
    &&& m.subscription matches Some(s) && s@ == moderator_path()
    &&& m.ext == Some(ext)
    &&& m.version is None && m.supported_connection_types is None && m.advice is None
    &&& m.successful is None && m.connection_type is None && m.data is None
}

/// The subscription is sent first, then the listener sleeps.
pub open spec fn subscribes_first(acts: Seq<SubscriberAction>, id: PushId, client_id: Seq<char>, ext: Ext) -> bool {
    &&& acts.len() == 2
    &&& acts[0] matches SubscriberAction::Send(m) && subscribe_request(m, id, client_id, ext)
}

/// The handshake's state: the last message number, whether the moderator's
/// channel is subscribed, and whether a handshake answer is awaited.
#[derive(Debug, Clone)]
pub struct Subscriber {
    pub id: PushId,
    pub subscribed: bool,
    pub waiting: bool,
}

impl Subscriber {
    pub fn new() -> (s: Self)
        ensures
            s.id == PushId(0),
            !s.subscribed,
            !s.waiting,
    {
        Subscriber { id: PushId::new(), subscribed: false, waiting: false }
    }

    /// Starts a handshake, at first and whenever the renewal sleep is over.
    pub fn handshake(&mut self) -> (m: PushMessage)
        requires
            old(self).id.0 < u64::MAX,
        ensures
            final(self).id.0 == old(self).id.0 + 1,
            final(self).waiting,
            final(self).subscribed == old(self).subscribed,
            handshake_request(m, final(self).id),
    {
        let m = PushMessage::new(&mut self.id, Channel::Handshake).version("1.0").supported_connection_types(
            &["websocket"],
        );
        self.waiting = true;
        m
    }

    /// A message that did not come on the moderator's channel. While a
    /// handshake is awaited, its answer brings the client id: the first
    /// time it is used to subscribe to the moderator's channel; either way
    /// the listener then sleeps until the id is to be renewed. Any other
    /// message is ignored. The credentials are needed only until the
    /// subscription is made.
    pub fn on_meta(&mut self, msg: &PushMessage, ext: Option<Ext>) -> (acts: Vec<SubscriberAction>)
        requires
            old(self).waiting && msg.channel is Handshake ==> msg.client_id is Some,
            old(self).waiting && msg.channel is Handshake && !old(self).subscribed ==> ext is Some,
            old(self).id.0 < u64::MAX,
        ensures
            !(old(self).waiting && msg.channel is Handshake) ==> acts@.len() == 0 && final(self).id == old(self).id
                && final(self).subscribed == old(self).subscribed && final(self).waiting == old(self).waiting,
            old(self).waiting && msg.channel is Handshake ==> {
                &&& !final(self).waiting
                &&& final(self).subscribed
                &&& acts@.last() == (SubscriberAction::Sleep { secs: RENEW_SECS })
                &&& old(self).subscribed ==> acts@.len() == 1 && final(self).id == old(self).id
                &&& !old(self).subscribed ==> final(self).id.0 == old(self).id.0 + 1 && subscribes_first(
                    acts@,
                    final(self).id,
                    msg.client_id.unwrap()@,
                    ext.unwrap(),
                )
            },
    {
        let mut acts: Vec<SubscriberAction> = Vec::new();
        if self.waiting && matches!(msg.channel, Channel::Handshake) {
            if let Some(client_id) = &msg.client_id {
                if !self.subscribed && ext.is_some() {
                    let mut sub = "/user/".to_owned();
                    let digits = decimal_text(MODERATOR_UID as u128);
                    sub.append(digits.as_str());
                    let req = PushMessage::new(&mut self.id, Channel::Subscribe).client_id(client_id.as_str()).subscription(
                        sub.as_str(),
                    ).ext(ext.unwrap());
                    acts.push(SubscriberAction::Send(req));
                    self.subscribed = true;
                }
                acts.push(SubscriberAction::Sleep { secs: RENEW_SECS });
                self.waiting = false;
            }
        }
        acts
    }
}

} // verus!
