//! Agent identity and configuration: display names, the user/assistant role
//! split, and the deterministic system prompt computed for an assistant.

use vstd::prelude::*;

use crate::chat::MessageID;

verus! {

/// Mathematical model of an [`AgentName`].
pub ghost enum NameView {
    UserDefault,
    AssistantDefault,
    Named(Seq<char>),
}

/// Display/lookup key of an agent, distinct from its [`AgentID`].  Persisted
/// configuration that is not embedded per-chat is recovered through it.
#[derive(Debug)]
pub enum AgentName {
    UserDefault,
    AssistantDefault,
    Named(String),
}

impl View for AgentName {
    type V = NameView;

    open spec fn view(&self) -> NameView {
        match self {
            AgentName::UserDefault => NameView::UserDefault,
            AgentName::AssistantDefault => NameView::AssistantDefault,
            AgentName::Named(s) => NameView::Named(s@),
        }
    }
}

impl Clone for AgentName {
    fn clone(&self) -> (r: Self)
        ensures
            r@ == self@,
    {
        match self {
            AgentName::UserDefault => AgentName::UserDefault,
            AgentName::AssistantDefault => AgentName::AssistantDefault,
            AgentName::Named(s) => AgentName::Named(s.clone()),
        }
    }
}

impl PartialEq for AgentName {
    fn eq(&self, other: &Self) -> (r: bool) {
        match (self, other) {
            (AgentName::UserDefault, AgentName::UserDefault) => true,
            (AgentName::AssistantDefault, AgentName::AssistantDefault) => true,
            (AgentName::Named(a), AgentName::Named(b)) => *a == *b,
            _ => false,
        }
    }
}

impl vstd::std_specs::cmp::PartialEqSpecImpl for AgentName {
    open spec fn obeys_eq_spec() -> bool {
        true
    }

    open spec fn eq_spec(&self, other: &Self) -> bool {
        self@ == other@
    }
}

impl AgentName {
    /// An assistant's display name: the given text, or the default when none
    /// is given.
    pub fn assistant(name: Option<String>) -> (r: Self)
        ensures
            r@ == (match name {
                Some(n) => NameView::Named(n@),
                None => NameView::AssistantDefault,
            }),
    {
        match name {
            Some(n) => AgentName::Named(n),
            None => AgentName::AssistantDefault,
        }
    }

    /// A user's display name: the given text, or the default when none is
    /// given.
    pub fn user(name: Option<String>) -> (r: Self)
        ensures
            r@ == (match name {
                Some(n) => NameView::Named(n@),
                None => NameView::UserDefault,
            }),
    {
        match name {
            Some(n) => AgentName::Named(n),
            None => AgentName::UserDefault,
        }
    }
}

/// Mathematical model of an [`AgentType`].
pub ghost enum TypeView {
    User,
    Assistant { instructions: Seq<char> },
}

/// Role of an agent: the sole human participant, or an assistant carrying its
/// free-text instructions.  The role decides message role mapping and whether
/// the agent is dispatched to for a reply.
#[non_exhaustive]
#[derive(Debug)]
pub enum AgentType {
    User,
    Assistant { instructions: String },
}

impl View for AgentType {
    type V = TypeView;

    open spec fn view(&self) -> TypeView {
        match self {
            AgentType::User => TypeView::User,
            AgentType::Assistant { instructions } => TypeView::Assistant {
                instructions: instructions@,
            },
        }
    }
}

impl Clone for AgentType {
    fn clone(&self) -> (r: Self)
        ensures
            r@ == self@,
    {
        match self {
            AgentType::User => AgentType::User,
            AgentType::Assistant { instructions } => AgentType::Assistant {
                instructions: instructions.clone(),
            },
        }
    }
}

impl AgentType {
    /// The role as display text.
    pub fn str(&self) -> (r: &'static str)
        ensures
            self@ is User ==> r@ == "User"@,
            self@ is Assistant ==> r@ == "Assistant"@,
    {
        match self {
            AgentType::User => "User",
            AgentType::Assistant { .. } => "Assistant",
        }
    }
}

/// Identity of an agent instance, stable for its lifetime: the index the
/// instance occupies in its conversation's agent table.
#[derive(Clone, Copy, Debug, PartialEq, Eq, Structural, Hash)]
pub struct AgentID {
    pub id: usize,
}

impl View for AgentID {
    type V = int;

    open spec fn view(&self) -> int {
        self.id as int
    }
}

/// Mathematical model of an [`AgentConfig`].
pub ghost struct ConfigView {
    pub name: NameView,
    pub description: Seq<char>,
    pub agent_type: TypeView,
}

/// What defines an agent independently of any one conversation: its name,
/// a description, and its role.
#[derive(Debug)]
pub struct AgentConfig {
    pub name: AgentName,
    pub description: String,
    pub agent_type: AgentType,
}

impl View for AgentConfig {
    type V = ConfigView;

    open spec fn view(&self) -> ConfigView {
        ConfigView {
            name: self.name@,
            description: self.description@,
            agent_type: self.agent_type@,
        }
    }
}

impl Clone for AgentConfig {
    fn clone(&self) -> (r: Self)
        ensures
            r@ == self@,
    {
        AgentConfig {
            name: self.name.clone(),
            description: self.description.clone(),
            agent_type: self.agent_type.clone(),
        }
    }
}

/// The clause naming the assistant inside its system prompt: present only for
/// an explicitly named agent.
pub open spec fn name_clause_spec(name: NameView) -> Seq<char> {
    match name {
        NameView::Named(n) => "Your name is "@ + n + ". "@,
        NameView::UserDefault => Seq::empty(),
        NameView::AssistantDefault => Seq::empty(),
    }
}

/// The system prompt computed for a configuration: empty for the user, and
/// for an assistant the template's two slots filled with the name clause and
/// the instructions.  Deterministic in the name and the instructions.
pub open spec fn sys_prompt_spec(c: ConfigView) -> Seq<char> {
    match c.agent_type {
        TypeView::User => Seq::empty(),
        TypeView::Assistant { instructions } => name_clause_spec(c.name) + instructions,
    }
}

impl AgentConfig {
    /// Configuration of a user agent.
    pub fn new_user(name: AgentName, description: String) -> (r: Self)
        ensures
            r@ == (ConfigView {
                name: name@,
                description: description@,
                agent_type: TypeView::User,
            }),
    {
        AgentConfig { name, description, agent_type: AgentType::User }
    }

    /// Configuration of an assistant agent with the given instructions.
    pub fn new_assistant(name: AgentName, instructions: String, description: String) -> (r: Self)
        ensures
            r@ == (ConfigView {
                name: name@,
                description: description@,
                agent_type: TypeView::Assistant { instructions: instructions@ },
            }),
    {
        AgentConfig { name, description, agent_type: AgentType::Assistant { instructions } }
    }

    /// The system prompt seeded into an assistant's history, computed from
    /// the template: the optional name clause followed by the instructions.
    pub fn simple_sys_prompt(&self) -> (r: String)
        ensures
            r@ == sys_prompt_spec(self@),
    {
        match &self.agent_type {
            AgentType::User => String::new(),
            AgentType::Assistant { instructions } => {
                let filled = match &self.name {
                    AgentName::Named(n) => String::from_str("Your name is ")
                        .concat(n.as_str())
                        .concat(". "),
                    AgentName::UserDefault => String::new(),
                    AgentName::AssistantDefault => String::new(),
                };
                filled.concat(instructions.as_str())
            },
        }
    }
}

/// Mathematical model of an [`AgentInstance`]: its identity, configuration
/// and history of message references.
pub ghost struct InstanceView {
    pub id: int,
    pub config: ConfigView,
    pub history: Seq<int>,
}

/// An agent's ordered list of references into the shared message store.
pub type LinkedChatHistory = Vec<MessageID>;

/// One agent participating in a conversation: identity, configuration, and
/// an exclusively owned history of references into the shared message store.
#[derive(Debug)]
pub struct AgentInstance {
    pub id: AgentID,
    pub config: AgentConfig,
    pub history: LinkedChatHistory,
}

/// The sequence of message ids a history refers to, as mathematical values.
pub open spec fn history_view(h: Seq<MessageID>) -> Seq<int> {
    h.map_values(|m: MessageID| m@)
}

impl View for AgentInstance {
    type V = InstanceView;

    open spec fn view(&self) -> InstanceView {
        InstanceView { id: self.id@, config: self.config@, history: history_view(self.history@) }
    }
}

impl Clone for AgentInstance {
    fn clone(&self) -> (r: Self)
        ensures
            r@ == self@,
    {
        let mut history: Vec<MessageID> = Vec::new();
        let mut i: usize = 0;
        while i < self.history.len()
            invariant
                i <= self.history.len(),
                history@ == self.history@.take(i as int),
            decreases self.history.len() - i,
        {
            history.push(self.history[i]);
            i += 1;
        }
        proof {
            assert(history@ =~= self.history@);
            assert(history_view(history@) =~= history_view(self.history@));
        }
        AgentInstance { id: self.id, config: self.config.clone(), history }
    }
}

impl AgentInstance {
    /// A new instance under the given identity.
    pub fn new(id: AgentID, config: AgentConfig, history: LinkedChatHistory) -> (r: Self)
        ensures
            r@ == (InstanceView { id: id@, config: config@, history: history_view(history@) }),
    {
        AgentInstance { id, config, history }
    }

    /// The display name of this instance.
    pub fn get_name(&self) -> (r: AgentName)
        ensures
            r@ == self@.config.name,
    {
        self.config.name.clone()
    }

    /// An assistant with the stock instructions, its system prompt inserted
    /// into the shared store and referenced as its sole initial history
    /// entry.
    pub fn default_assistant(
        id: AgentID,
        name: AgentName,
        message_manager: &mut crate::chat::MessageManager,
    ) -> (r: Self)
        ensures
            r@.id == id@,
            r@.config == (ConfigView {
                name: name@,
                description: Seq::empty(),
                agent_type: TypeView::Assistant {
                    instructions: "You are a helpful assistant."@,
                },
            }),
            r@.history == seq![old(message_manager)@.len() as int],
            final(message_manager)@ == old(message_manager)@.push(Some(crate::msg::MsgView {
                role: crate::MsgRole::System,
                content: sys_prompt_spec(r@.config),
                author: None,
            })),
    {
        let config = AgentConfig::new_assistant(
            name,
            String::from_str("You are a helpful assistant."),
            String::new(),
        );
        let sys_prompt_id = message_manager.insert(crate::msg::sys_msg(
            config.simple_sys_prompt(),
        ));
        let mut history: Vec<MessageID> = Vec::new();
        history.push(sys_prompt_id);
        let r = Self::new(id, config, history);
        proof {
            assert(r@.history =~= seq![old(message_manager)@.len() as int]);
        }
        r
    }

    /// A user agent under the default name, with an empty history.
    pub fn default_user(id: AgentID) -> (r: Self)
        ensures
            r@.id == id@,
            r@.config == (ConfigView {
                name: NameView::UserDefault,
                description: Seq::empty(),
                agent_type: TypeView::User,
            }),
            r@.history == Seq::<int>::empty(),
    {
        let config = AgentConfig::new_user(AgentName::UserDefault, String::new());
        let r = Self::new(id, config, Vec::new());
        proof {
            assert(r@.history =~= Seq::<int>::empty());
        }
        r
    }
}

/// One assistant persona as configured by the operator: a name and free-text
/// instructions.
#[derive(Debug)]
pub struct AgentInstructions {
    pub name: String,
    pub instructions: String,
}

/// Mathematical model of an [`AgentInstructions`].
pub ghost struct PersonaView {
    pub name: Seq<char>,
    pub instructions: Seq<char>,
}

impl View for AgentInstructions {
    type V = PersonaView;

    open spec fn view(&self) -> PersonaView {
        PersonaView { name: self.name@, instructions: self.instructions@ }
    }
}

impl Clone for AgentInstructions {
    fn clone(&self) -> (r: Self)
        ensures
            r@ == self@,
    {
        AgentInstructions { name: self.name.clone(), instructions: self.instructions.clone() }
    }
}

/// The set of assistant personas a fresh conversation is seeded with.
#[derive(Debug)]
pub struct Instructions {
    pub agent_config: Vec<AgentInstructions>,
}

impl View for Instructions {
    type V = Seq<PersonaView>;

    open spec fn view(&self) -> Seq<PersonaView> {
        self.agent_config@.map_values(|p: AgentInstructions| p@)
    }
}

} // verus!
