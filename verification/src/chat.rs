//! The conversation aggregate: a shared message store owned by exactly one
//! conversation, the set of agent instances, and per-agent histories of
//! references into the store.

use vstd::prelude::*;

use crate::MsgRole;
use crate::agents::{
    AgentConfig, AgentID, AgentInstance, AgentName, AgentType, ConfigView, InstanceView,
    Instructions, NameView, PersonaView, TypeView, history_view, sys_prompt_spec,
};
use crate::datetime::DatetimeString;
use crate::msg::{ChatMsg, MsgView, sys_msg};

verus! {

/// Reference to a message in a conversation's store.  Identifiers are minted
/// at insertion time, are never reused, and compare by identity only.
#[derive(Clone, Copy, Debug, PartialEq, Eq, Structural, Hash)]
pub struct MessageID(pub usize);

impl View for MessageID {
    type V = int;

    open spec fn view(&self) -> int {
        self.0 as int
    }
}

/// Whether `id` is minted and still present in a store.
pub open spec fn store_contains(store: Seq<Option<MsgView>>, id: int) -> bool {
    0 <= id < store.len() && store[id] is Some
}

/// The message a present identifier refers to.
pub open spec fn store_at(store: Seq<Option<MsgView>>, id: int) -> MsgView {
    store[id]->Some_0
}

/// The model of one store slot.
pub open spec fn slot_view(m: Option<ChatMsg>) -> Option<MsgView> {
    match m {
        Some(msg) => Some(msg@),
        None => None,
    }
}

/// The shared message store of one conversation: an arena mapping each
/// [`MessageID`] minted so far to its message, or to an empty slot once the
/// message was removed.  A fresh identifier is the count of identifiers
/// minted so far, so an insertion can never silently overwrite an existing
/// entry, and an identifier is never reused.
#[derive(Debug)]
pub struct MessageManager {
    messages: Vec<Option<ChatMsg>>,
}

impl View for MessageManager {
    type V = Seq<Option<MsgView>>;

    closed spec fn view(&self) -> Seq<Option<MsgView>> {
        self.messages@.map_values(|m: Option<ChatMsg>| slot_view(m))
    }
}

impl Clone for MessageManager {
    fn clone(&self) -> (r: Self)
        ensures
            r@ == self@,
    {
        let mut messages: Vec<Option<ChatMsg>> = Vec::new();
        let mut i: usize = 0;
        while i < self.messages.len()
            invariant
                i <= self.messages.len(),
                messages@.len() == i as int,
                forall|j: int| 0 <= j < i as int ==> #[trigger] slot_view(messages@[j])
                    == slot_view(self.messages@[j]),
            decreases self.messages.len() - i,
        {
            let slot = match &self.messages[i] {
                Some(m) => Some(m.clone()),
                None => None,
            };
            messages.push(slot);
            i += 1;
        }
        let r = MessageManager { messages };
        proof {
            assert(r@ =~= self@);
        }
        r
    }
}

impl MessageManager {
    /// An empty store with no identifiers minted yet.
    pub fn new() -> (r: Self)
        ensures
            r@ == Seq::<Option<MsgView>>::empty(),
    {
        let r = MessageManager { messages: Vec::new() };
        proof {
            assert(r@ =~= Seq::<Option<MsgView>>::empty());
        }
        r
    }

    /// A store rehydrated from persisted slots: slot `i` holds the message
    /// minted under identifier `i`, or nothing where one was removed.
    pub fn from_slots(slots: Vec<Option<ChatMsg>>) -> (r: Self)
        ensures
            r@ == slots@.map_values(|m: Option<ChatMsg>| slot_view(m)),
    {
        MessageManager { messages: slots }
    }

    /// How many identifiers have been minted; also the next fresh identifier.
    pub fn len(&self) -> (r: usize)
        ensures
            r == self@.len(),
    {
        self.messages.len()
    }

    /// Inserts a message under a freshly minted identifier, which is returned.
    pub fn insert(&mut self, msg: ChatMsg) -> (id: MessageID)
        ensures
            id@ == old(self)@.len(),
            final(self)@ == old(self)@.push(Some(msg@)),
    {
        let id = MessageID(self.messages.len());
        self.messages.push(Some(msg));
        proof {
            assert(self@ =~= old(self)@.push(Some(msg@)));
        }
        id
    }

    /// Point lookup; not-found for identifiers never minted or removed.
    pub fn get(&self, id: &MessageID) -> (r: Option<&ChatMsg>)
        ensures
            (match r {
                Some(m) => store_contains(self@, id@) && m@ == store_at(self@, id@),
                None => !store_contains(self@, id@),
            }),
    {
        if id.0 < self.messages.len() {
            match &self.messages[id.0] {
                Some(m) => Some(m),
                None => None,
            }
        } else {
            None
        }
    }

    /// Replaces the message under an already-minted identifier, returning the
    /// previous message if the slot was still occupied.
    pub fn update(&mut self, id: &MessageID, msg: ChatMsg) -> (r: Option<ChatMsg>)
        requires
            id@ < old(self)@.len(),
        ensures
            final(self)@ == old(self)@.update(id@, Some(msg@)),
            (match r {
                Some(m) => store_contains(old(self)@, id@) && m@ == store_at(old(self)@, id@),
                None => !store_contains(old(self)@, id@),
            }),
    {
        let prev = match &self.messages[id.0] {
            Some(m) => Some(m.clone()),
            None => None,
        };
        self.messages.set(id.0, Some(msg));
        proof {
            assert(self@ =~= old(self)@.update(id@, Some(msg@)));
        }
        prev
    }

    /// Removes the message under an identifier, if present.  The identifier
    /// stays minted and is never handed out again.
    pub fn remove(&mut self, id: &MessageID) -> (r: Option<ChatMsg>)
        ensures
            id@ < old(self)@.len() ==> final(self)@ == old(self)@.update(id@, None::<MsgView>),
            id@ >= old(self)@.len() ==> final(self)@ == old(self)@,
            (match r {
                Some(m) => store_contains(old(self)@, id@) && m@ == store_at(old(self)@, id@),
                None => !store_contains(old(self)@, id@),
            }),
    {
        if id.0 < self.messages.len() {
            let prev = match &self.messages[id.0] {
                Some(m) => Some(m.clone()),
                None => None,
            };
            self.messages.set(id.0, None);
            proof {
                assert(self@ =~= old(self)@.update(id@, None::<MsgView>));
            }
            prev
        } else {
            None
        }
    }

    /// Appends one streamed fragment to the message under `id`, in place.
    /// Visible to any reader holding the same identifier; fragments are
    /// strictly appended, never reordered.
    pub fn append_delta(&mut self, id: &MessageID, delta: &str)
        requires
            store_contains(old(self)@, id@),
        ensures
            final(self)@ == old(self)@.update(id@, Some(MsgView {
                role: store_at(old(self)@, id@).role,
                content: store_at(old(self)@, id@).content + delta@,
                author: store_at(old(self)@, id@).author,
            })),
    {
        let updated = match &self.messages[id.0] {
            Some(m) => {
                let mut c = m.clone();
                c.append_delta(delta);
                c
            },
            None => {
                // excluded by the precondition: the identifier is present
                proof {
                    assert(false);
                }
                sys_msg(String::new())
            },
        };
        self.messages.set(id.0, Some(updated));
        proof {
            assert(self@ =~= old(self)@.update(id@, Some(MsgView {
                role: store_at(old(self)@, id@).role,
                content: store_at(old(self)@, id@).content + delta@,
                author: store_at(old(self)@, id@).author,
            })));
        }
    }
}

/// Mathematical model of a [`Chat`].
pub ghost struct ChatView {
    pub id: int,
    pub store: Seq<Option<MsgView>>,
    pub topic: Seq<char>,
    pub date: Seq<char>,
    pub agents: Seq<InstanceView>,
}

/// Every agent sits at the index its identity names, and every history entry
/// refers to a message present in the shared store: no dangling references.
pub open spec fn agents_wf(agents: Seq<InstanceView>, store: Seq<Option<MsgView>>) -> bool {
    &&& forall|i: int| 0 <= i < agents.len() ==> (#[trigger] agents[i]).id == i
    &&& forall|i: int, j: int|
        0 <= i < agents.len() && 0 <= j < agents[i].history.len() ==> store_contains(
            store,
            #[trigger] agents[i].history[j],
        )
}

/// Whether an instance holds the user role.
pub open spec fn is_user_inst(a: InstanceView) -> bool {
    a.config.agent_type is User
}

/// The identities of the agents of one role, in table order: the user's when
/// `want_user` is set, the assistants' otherwise.
pub open spec fn role_ids(agents: Seq<InstanceView>, want_user: bool) -> Seq<int>
    decreases agents.len(),
{
    if agents.len() == 0 {
        Seq::empty()
    } else {
        let rest = role_ids(agents.drop_last(), want_user);
        if is_user_inst(agents.last()) == want_user {
            rest.push(agents.last().id)
        } else {
            rest
        }
    }
}

/// The identities of the user agents of a conversation.
pub open spec fn user_ids_spec(c: ChatView) -> Seq<int> {
    role_ids(c.agents, true)
}

/// The identities of the assistant agents of a conversation.
pub open spec fn assistant_ids_spec(c: ChatView) -> Seq<int> {
    role_ids(c.agents, false)
}

/// The single-user invariant: exactly one agent instance holds the user role.
pub open spec fn sole_user(c: ChatView) -> bool {
    user_ids_spec(c).len() == 1
}

/// The identities a vector of [`AgentID`] denotes.
pub open spec fn ids_view(s: Seq<AgentID>) -> Seq<int> {
    s.map_values(|a: AgentID| a@)
}

/// Extending an agent table extends its role projection at the end.
pub proof fn lemma_role_ids_push(agents: Seq<InstanceView>, a: InstanceView, want_user: bool)
    ensures
        role_ids(agents.push(a), want_user) == (if is_user_inst(a) == want_user {
            role_ids(agents, want_user).push(a.id)
        } else {
            role_ids(agents, want_user)
        }),
{
    assert(agents.push(a).drop_last() =~= agents);
    assert(agents.push(a).last() == a);
}

/// The configuration a seeded assistant persona produces.
pub open spec fn seeded_assistant_config(p: PersonaView) -> ConfigView {
    ConfigView {
        name: NameView::Named(p.name),
        description: Seq::empty(),
        agent_type: TypeView::Assistant { instructions: p.instructions },
    }
}

/// The configuration of the default user agent.
pub open spec fn default_user_config() -> ConfigView {
    ConfigView {
        name: NameView::UserDefault,
        description: Seq::empty(),
        agent_type: TypeView::User,
    }
}

/// The system-prompt message seeded into the store for a persona.
pub open spec fn seeded_sys_msg(p: PersonaView) -> MsgView {
    MsgView {
        role: MsgRole::System,
        content: sys_prompt_spec(seeded_assistant_config(p)),
        author: None,
    }
}

/// Relies on `uuid::Uuid::new_v4` for a fresh random conversation identity,
/// taken as its 128-bit value via `Uuid::as_u128`.  The result is random, so
/// nothing is promised of it.
#[verifier::external_body]
fn fresh_chat_id_bits() -> u128 {
    uuid::Uuid::new_v4().as_u128()
}

/// One conversation: the shared message store, a topic, a creation
/// timestamp, and the agent instances with their histories.
#[derive(Debug)]
pub struct Chat {
    pub id: u128,
    pub message_manager: MessageManager,
    pub topic: String,
    pub date: DatetimeString,
    pub agents: Vec<AgentInstance>,
}

impl View for Chat {
    type V = ChatView;

    open spec fn view(&self) -> ChatView {
        ChatView {
            id: self.id as int,
            store: self.message_manager@,
            topic: self.topic@,
            date: self.date@,
            agents: self.agents@.map_values(|a: AgentInstance| a@),
        }
    }
}

impl Chat {
    /// Structural integrity of the conversation graph.
    pub open spec fn wf(&self) -> bool {
        agents_wf(self@.agents, self@.store)
    }

    /// The conversation's identity.
    pub fn id(&self) -> (r: u128)
        ensures
            r as int == self@.id,
    {
        self.id
    }

    /// The identities of the agents holding the user role, in table order.
    /// Callers must treat any count other than one as a fatal precondition
    /// violation.
    pub fn user_agent_ids(&self) -> (r: Vec<AgentID>)
        ensures
            ids_view(r@) == user_ids_spec(self@),
    {
        let mut out: Vec<AgentID> = Vec::new();
        let mut i: usize = 0;
        while i < self.agents.len()
            invariant
                i <= self.agents.len(),
                ids_view(out@) =~= role_ids(self@.agents.take(i as int), true),
            decreases self.agents.len() - i,
        {
            proof {
                assert(self@.agents.take(i as int + 1).drop_last() =~= self@.agents.take(
                    i as int,
                ));
                assert(self@.agents.take(i as int + 1).last() == self@.agents[i as int]);
            }
            match &self.agents[i].config.agent_type {
                AgentType::User => {
                    out.push(self.agents[i].id);
                },
                AgentType::Assistant { .. } => {},
            }
            i += 1;
        }
        proof {
            assert(self@.agents.take(self.agents.len() as int) =~= self@.agents);
        }
        out
    }

    /// The identities of the agents holding the assistant role, in table
    /// order.
    pub fn assistant_agent_ids(&self) -> (r: Vec<AgentID>)
        ensures
            ids_view(r@) == assistant_ids_spec(self@),
    {
        let mut out: Vec<AgentID> = Vec::new();
        let mut i: usize = 0;
        while i < self.agents.len()
            invariant
                i <= self.agents.len(),
                ids_view(out@) =~= role_ids(self@.agents.take(i as int), false),
            decreases self.agents.len() - i,
        {
            proof {
                assert(self@.agents.take(i as int + 1).drop_last() =~= self@.agents.take(
                    i as int,
                ));
                assert(self@.agents.take(i as int + 1).last() == self@.agents[i as int]);
            }
            match &self.agents[i].config.agent_type {
                AgentType::User => {},
                AgentType::Assistant { .. } => {
                    out.push(self.agents[i].id);
                },
            }
            i += 1;
        }
        proof {
            assert(self@.agents.take(self.agents.len() as int) =~= self@.agents);
        }
        out
    }

    /// Every agent's identity, in table order.
    pub fn agent_ids(&self) -> (r: Vec<AgentID>)
        ensures
            ids_view(r@) == self@.agents.map_values(|a: InstanceView| a.id),
    {
        let mut out: Vec<AgentID> = Vec::new();
        let mut i: usize = 0;
        while i < self.agents.len()
            invariant
                i <= self.agents.len(),
                ids_view(out@) =~= self@.agents.take(i as int).map_values(
                    |a: InstanceView| a.id,
                ),
            decreases self.agents.len() - i,
        {
            out.push(self.agents[i].id);
            proof {
                assert(self@.agents.take(i as int + 1).map_values(|a: InstanceView| a.id)
                    =~= self@.agents.take(i as int).map_values(|a: InstanceView| a.id).push(
                    self@.agents[i as int].id,
                ));
            }
            i += 1;
        }
        proof {
            assert(self@.agents.take(self.agents.len() as int) =~= self@.agents);
        }
        out
    }

    /// A fresh conversation seeded with one assistant per persona — each with
    /// its system prompt pre-inserted into the shared store and referenced
    /// only by that assistant's own initial history — plus exactly one
    /// default user agent with an empty history.  Also returns each created
    /// configuration under its display name, for later recovery.
    pub fn default_chat_and_configs(personas: &Instructions) -> (r: (
        Chat,
        Vec<(AgentName, AgentConfig)>,
    ))
        ensures
            r.0.wf(),
            sole_user(r.0@),
            r.0@.agents.len() == personas@.len() + 1,
            r.0@.store.len() == personas@.len(),
            r.0@.topic == "New Chat"@,
            forall|i: int| 0 <= i < personas@.len() ==> (#[trigger] r.0@.agents[i]).config
                == seeded_assistant_config(personas@[i]),
            forall|i: int| 0 <= i < personas@.len() ==> (#[trigger] r.0@.agents[i]).history
                == seq![i],
            forall|i: int| 0 <= i < personas@.len() ==> #[trigger] r.0@.store[i]
                == Some(seeded_sys_msg(personas@[i])),
            r.0@.agents[personas@.len() as int].config == default_user_config(),
            r.0@.agents[personas@.len() as int].history == Seq::<int>::empty(),
            user_ids_spec(r.0@) == seq![personas@.len() as int],
            assistant_ids_spec(r.0@) == Seq::new(personas@.len(), |i: int| i),
            r.1@.len() == personas@.len() + 1,
            forall|i: int| 0 <= i < personas@.len() ==> (#[trigger] r.1@[i]).0@
                == NameView::Named(personas@[i].name) && r.1@[i].1@ == seeded_assistant_config(
                personas@[i],
            ),
            r.1@[personas@.len() as int].0@ == NameView::UserDefault,
            r.1@[personas@.len() as int].1@ == default_user_config(),
    {
        let ghost pviews = personas@;
        let mut message_manager = MessageManager::new();
        let mut agents: Vec<AgentInstance> = Vec::new();
        let mut configs: Vec<(AgentName, AgentConfig)> = Vec::new();
        let n = personas.agent_config.len();
        let mut i: usize = 0;
        while i < n
            invariant
                n == personas.agent_config.len(),
                i <= n,
                pviews == personas@,
                pviews.len() == n as int,
                message_manager@.len() == i as int,
                agents@.len() == i as int,
                configs@.len() == i as int,
                forall|j: int| 0 <= j < i as int ==> (#[trigger] agents@[j])@.id == j,
                forall|j: int| 0 <= j < i as int ==> (#[trigger] agents@[j])@.config
                    == seeded_assistant_config(pviews[j]),
                forall|j: int| 0 <= j < i as int ==> (#[trigger] agents@[j])@.history
                    == seq![j],
                forall|j: int| 0 <= j < i as int ==> #[trigger] message_manager@[j]
                    == Some(seeded_sys_msg(pviews[j])),
                forall|j: int| 0 <= j < i as int ==> (#[trigger] configs@[j]).0@
                    == NameView::Named(pviews[j].name) && configs@[j].1@
                    == seeded_assistant_config(pviews[j]),
                role_ids(agents@.map_values(|a: AgentInstance| a@), true)
                    =~= Seq::<int>::empty(),
                role_ids(agents@.map_values(|a: AgentInstance| a@), false)
                    =~= Seq::new(i as nat, |k: int| k),
            decreases n - i,
        {
            let persona = &personas.agent_config[i];
            let agent_name = AgentName::Named(persona.name.clone());
            let agent_config = AgentConfig::new_assistant(
                agent_name.clone(),
                persona.instructions.clone(),
                String::new(),
            );
            let sys_prompt = agent_config.simple_sys_prompt();
            let sys_prompt_id = message_manager.insert(sys_msg(sys_prompt));
            let mut history: Vec<MessageID> = Vec::new();
            history.push(sys_prompt_id);
            let config_copy = agent_config.clone();
            let agent = AgentInstance::new(AgentID { id: i }, agent_config, history);
            proof {
                lemma_role_ids_push(
                    agents@.map_values(|a: AgentInstance| a@),
                    agent@,
                    true,
                );
                lemma_role_ids_push(
                    agents@.map_values(|a: AgentInstance| a@),
                    agent@,
                    false,
                );
                assert(agents@.push(agent).map_values(|a: AgentInstance| a@)
                    =~= agents@.map_values(|a: AgentInstance| a@).push(agent@));
                assert(Seq::new(i as nat, |k: int| k).push(i as int)
                    =~= Seq::new(i as nat + 1, |k: int| k));
                assert(agent@.history =~= seq![i as int]);
            }
            configs.push((agent_name, config_copy));
            agents.push(agent);
            i += 1;
        }
        let user_config = AgentConfig::new_user(AgentName::UserDefault, String::new());
        let user_config_copy = user_config.clone();
        let user = AgentInstance::new(AgentID { id: n }, user_config, Vec::new());
        proof {
            lemma_role_ids_push(agents@.map_values(|a: AgentInstance| a@), user@, true);
            lemma_role_ids_push(agents@.map_values(|a: AgentInstance| a@), user@, false);
            assert(agents@.push(user).map_values(|a: AgentInstance| a@)
                =~= agents@.map_values(|a: AgentInstance| a@).push(user@));
            assert(user@.history =~= Seq::<int>::empty());
        }
        configs.push((AgentName::UserDefault, user_config_copy));
        agents.push(user);
        let chat = Chat {
            id: fresh_chat_id_bits(),
            message_manager,
            topic: String::from_str("New Chat"),
            date: DatetimeString::get_now(),
            agents,
        };
        proof {
            assert(user_ids_spec(chat@) =~= seq![pviews.len() as int]);
            assert(assistant_ids_spec(chat@) =~= Seq::new(pviews.len(), |k: int| k));
        }
        (chat, configs)
    }
}

impl Clone for Chat {
    /// A clone is a fork, not an alias: message content, topic and histories
    /// are value-copied, while a fresh identity and a fresh timestamp are
    /// minted.
    fn clone(&self) -> (r: Self)
        ensures
            r@.store == self@.store,
            r@.topic == self@.topic,
            r@.agents == self@.agents,
    {
        let mut agents: Vec<AgentInstance> = Vec::new();
        let mut i: usize = 0;
        while i < self.agents.len()
            invariant
                i <= self.agents.len(),
                agents@.len() == i as int,
                forall|j: int| 0 <= j < i as int ==> (#[trigger] agents@[j])@
                    == self.agents@[j]@,
            decreases self.agents.len() - i,
        {
            agents.push(self.agents[i].clone());
            i += 1;
        }
        let r = Chat {
            id: fresh_chat_id_bits(),
            message_manager: self.message_manager.clone(),
            topic: self.topic.clone(),
            date: DatetimeString::get_now(),
            agents,
        };
        proof {
            assert(r@.agents =~= self@.agents);
        }
        r
    }
}

} // verus!
