use vstd::prelude::*;

use super::group::Member;
use super::ids::{GroupId, MessageId, UserId};

verus! {

/// `uuid::Uuid::new_v4().to_string()`: a fresh random id, written as 36
/// characters with hyphens at 8, 13, 18 and 23 and the version digit `4`
/// at 14 (the crate's hyphenated form of a version 4 id). Which id comes
/// out rests on chance.
#[verifier::external_body]
fn uuid() -> (s: String)
    ensures
        s@.len() == 36,
        s@[8] == '-' && s@[13] == '-' && s@[18] == '-' && s@[23] == '-',
        s@[14] == '4',
{
    uuid::Uuid::new_v4().to_string()
}

/// A mention or another attachment of a message.
#[derive(Debug, Clone, PartialEq, Eq)]
pub enum Attachment {
    Mentions { user_ids: Vec<UserId> },
    Unknown,
}

/// A message to post: in a group, or directly to a user.
#[derive(Debug, Clone)]
pub enum Payload {
    Message { text: String, source_guid: String, attachments: Vec<Attachment> },
    DirectMsg { text: String, source_guid: String, recipient_id: UserId, attachments: Vec<Attachment> },
}

/// A fresh message id in the form `uuid` gives.
pub open spec fn fresh_guid(s: Seq<char>) -> bool {
    &&& s.len() == 36
    &&& s[8] == '-' && s[13] == '-' && s[18] == '-' && s[23] == '-'
    &&& s[14] == '4'
}

impl Payload {
    /// A group message with a fresh id and no attachments.
    pub fn new_message(text: String) -> (p: Self)
        ensures
            p matches Payload::Message { text: t, source_guid, attachments } && t == text
                && fresh_guid(source_guid@) && attachments@.len() == 0,
    {
        Payload::Message { text, attachments: Vec::new(), source_guid: uuid() }
    }

    /// A direct message to `user_id` with a fresh id and no attachments.
    pub fn new_dm(user_id: &UserId, text: String) -> (p: Self)
        ensures
            p matches Payload::DirectMsg { text: t, source_guid, recipient_id, attachments } && t == text
                && fresh_guid(source_guid@) && recipient_id == *user_id && attachments@.len() == 0,
    {
        Payload::DirectMsg { text, source_guid: uuid(), recipient_id: *user_id, attachments: Vec::new() }
    }
}

/// A group as the API describes it.
#[derive(Debug, Clone)]
pub struct GroupResp {
    pub name: String,
    pub id: Option<GroupId>,
    pub members: Vec<Member>,
}

/// A message as the API describes it.
#[derive(Debug, Clone)]
pub struct MessageResp {
    pub text: String,
    pub attachments: Vec<Attachment>,
    pub source_guid: String,
    pub id: MessageId,
    pub user_id: UserId,
    pub group_id: GroupId,
    pub favorited_by: Vec<UserId>,
}

} // verus!
