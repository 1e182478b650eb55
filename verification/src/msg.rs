//! Conversation messages.
//!
//! A conversation is an ordered list of role-tagged messages, oldest
//! first. Message content is carried as raw bytes; the terminal layer
//! turns it into text for display.

use vstd::prelude::*;

use crate::ascii::ascii_seq;
use crate::ascii::ascii_bytes;

verus! {

/// The author of a message.
#[derive(Clone, Copy, PartialEq, Eq, Structural, Debug)]
pub enum Role {
    System,
    User,
    Assistant,
}

/// The mathematical model of a message: a role and a byte sequence.
pub struct MsgV {
    pub role: Role,
    pub content: Seq<u8>,
}

/// One message of a conversation. Immutable once appended; the order
/// of messages within a conversation is significant.
pub struct Message {
    pub role: Role,
    pub content: Vec<u8>,
}

impl DeepView for Message {
    type V = MsgV;

    open spec fn deep_view(&self) -> MsgV {
        MsgV { role: self.role, content: self.content@ }
    }
}

impl Message {
    pub fn new(role: Role, content: Vec<u8>) -> (m: Message)
        ensures
            m.deep_view() == (MsgV { role, content: content@ }),
    {
        Message { role, content }
    }
}

impl Clone for Message {
    fn clone(&self) -> (m: Message)
        ensures
            m.deep_view() == self.deep_view(),
    {
        let content = vstd::slice::slice_to_vec(self.content.as_slice());
        Message { role: self.role, content }
    }
}

/// The tag under which a role is written in the persisted form.
pub open spec fn spec_role_name(r: Role) -> Seq<char> {
    match r {
        Role::System => "system"@,
        Role::User => "user"@,
        Role::Assistant => "assistant"@,
    }
}

/// The bytes of a role's tag.
pub open spec fn spec_role_bytes(r: Role) -> Seq<u8> {
    ascii_seq(spec_role_name(r))
}

/// Materializes the tag bytes of a role.
pub fn role_bytes(r: Role) -> (v: Vec<u8>)
    ensures
        v@ == spec_role_bytes(r),
{
    match r {
        Role::System => {
            proof {
                reveal_strlit("system");
            }
            ascii_bytes("system")
        },
        Role::User => {
            proof {
                reveal_strlit("user");
            }
            ascii_bytes("user")
        },
        Role::Assistant => {
            proof {
                reveal_strlit("assistant");
            }
            ascii_bytes("assistant")
        },
    }
}

/// The three role tags are pairwise distinct byte sequences.
pub proof fn lemma_role_bytes_distinct(a: Role, b: Role)
    ensures
        a != b ==> spec_role_bytes(a) != spec_role_bytes(b),
{
    reveal_strlit("system");
    reveal_strlit("user");
    reveal_strlit("assistant");
    if a != b {
        assert(spec_role_bytes(Role::System).len() == 6);
        assert(spec_role_bytes(Role::User).len() == 4);
        assert(spec_role_bytes(Role::Assistant).len() == 9);
    }
}

/// The deep views of messages in a vector, in order.
pub open spec fn msgs_view(v: Vec<Message>) -> Seq<MsgV> {
    v.deep_view()
}

} // verus!
