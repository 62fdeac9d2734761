//! The message data model: a chat message with a role, a text content and an
//! optional author name, plus the constructors for the three roles.  Content
//! is immutable except for the incremental append used while an assistant
//! reply is streaming.

use vstd::prelude::*;

use crate::MsgRole;
use crate::agents::{AgentName, NameView};

verus! {

/// Mathematical model of a [`ChatMsg`].
pub ghost struct MsgView {
    pub role: MsgRole,
    pub content: Seq<char>,
    pub author: Option<Seq<char>>,
}

/// One chat message, owned by the message store of a conversation.
#[derive(Debug)]
pub struct ChatMsg {
    pub role: MsgRole,
    pub content: String,
    pub author: Option<String>,
}

impl View for ChatMsg {
    type V = MsgView;

    open spec fn view(&self) -> MsgView {
        MsgView {
            role: self.role,
            content: self.content@,
            author: match self.author {
                Some(ref n) => Some(n@),
                None => None,
            },
        }
    }
}

impl Clone for ChatMsg {
    fn clone(&self) -> (r: Self)
        ensures
            r@ == self@,
    {
        ChatMsg {
            role: self.role,
            content: self.content.clone(),
            author: match &self.author {
                Some(n) => Some(n.clone()),
                None => None,
            },
        }
    }
}

impl ChatMsg {
    /// Appends one streamed fragment to the content, leaving role and author
    /// untouched.  Fragments are strictly appended, never reordered.
    pub fn append_delta(&mut self, delta: &str)
        ensures
            final(self)@.role == old(self)@.role,
            final(self)@.author == old(self)@.author,
            final(self)@.content == old(self)@.content + delta@,
    {
        self.content.append(delta);
    }
}

/// The author field a display name maps to on a message: explicit names are
/// carried, the defaults are left anonymous.
pub open spec fn author_of(name: NameView) -> Option<Seq<char>> {
    match name {
        NameView::Named(n) => Some(n),
        NameView::UserDefault => None,
        NameView::AssistantDefault => None,
    }
}

/// A system message: no author, role `System`.
pub fn sys_msg(string: String) -> (r: ChatMsg)
    ensures
        r@ == (MsgView { role: MsgRole::System, content: string@, author: None }),
{
    ChatMsg { role: MsgRole::System, content: string, author: None }
}

/// A message authored by the user agent.  The assistant default name never
/// denotes a user, so it is not accepted here.
pub fn user_msg(string: String, name: AgentName) -> (r: ChatMsg)
    requires
        !(name@ is AssistantDefault),
    ensures
        r@ == (MsgView { role: MsgRole::User, content: string@, author: author_of(name@) }),
{
    let author = match name {
        AgentName::Named(n) => Some(n),
        AgentName::UserDefault => None,
        AgentName::AssistantDefault => None,
    };
    ChatMsg { role: MsgRole::User, content: string, author }
}

/// A message authored by an assistant agent.  The user default name never
/// denotes an assistant, so it is not accepted here.
pub fn assistant_msg(string: String, name: AgentName) -> (r: ChatMsg)
    requires
        !(name@ is UserDefault),
    ensures
        r@ == (MsgView { role: MsgRole::Assistant, content: string@, author: author_of(name@) }),
{
    let author = match name {
        AgentName::Named(n) => Some(n),
        AgentName::UserDefault => None,
        AgentName::AssistantDefault => None,
    };
    ChatMsg { role: MsgRole::Assistant, content: string, author }
}

} // verus!
