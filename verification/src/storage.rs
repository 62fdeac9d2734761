//! The persistence schema: the flattened, string-keyed shape of the data
//! model that a plain key-value store can hold, and the conversion between
//! it and the rich in-memory graph.  Agent configuration is persisted once,
//! keyed by display name, and recovered when a conversation is rehydrated.

use vstd::prelude::*;

use crate::agents::{
    AgentConfig, AgentID, AgentInstance, AgentName, ConfigView, InstanceView, NameView,
};
use crate::agents::Instructions;
use crate::auth::Auth;
use crate::chat::{
    Chat, ChatView, MessageID, MessageManager, slot_view, store_contains,
};
use crate::customization::Customization;
use crate::datetime::DatetimeString;
use crate::settings::{GPTService, OpenAIModel};
use crate::idstr::{
    dec_digits, dec_value, format_id, lemma_dec_digits_value, lemma_dec_value_digits, parse_id,
    valid_dec,
};
use crate::msg::{ChatMsg, MsgView};

verus! {

/// Mathematical model of a [`RawAgentInstance`].
pub ghost struct RawInstView {
    pub id: int,
    pub name: NameView,
    pub history: Seq<Seq<char>>,
}

/// The persisted form of an agent instance.  Its configuration is not
/// embedded: only the display name is kept, under which the configuration is
/// recovered at rehydration time.
#[derive(Debug)]
pub struct RawAgentInstance {
    pub id: AgentID,
    pub name: AgentName,
    pub history: Vec<String>,
}

impl View for RawAgentInstance {
    type V = RawInstView;

    open spec fn view(&self) -> RawInstView {
        RawInstView {
            id: self.id@,
            name: self.name@,
            history: self.history@.map_values(|s: String| s@),
        }
    }
}

/// Mathematical model of a [`RawChat`].
pub ghost struct RawChatView {
    pub id: int,
    pub messages: Seq<(Seq<char>, MsgView)>,
    pub topic: Seq<char>,
    pub date: Seq<char>,
    pub agents: Seq<(Seq<char>, RawInstView)>,
}

/// The persisted form of one conversation: opaque identifiers carried as
/// canonical decimal strings, message entries listed in ascending identifier
/// order.
#[derive(Debug)]
pub struct RawChat {
    pub id: u128,
    pub messages: Vec<(String, ChatMsg)>,
    pub topic: String,
    pub date: DatetimeString,
    pub agents: Vec<(String, RawAgentInstance)>,
}

impl View for RawChat {
    type V = RawChatView;

    open spec fn view(&self) -> RawChatView {
        RawChatView {
            id: self.id as int,
            messages: self.messages@.map_values(|p: (String, ChatMsg)| (p.0@, p.1@)),
            topic: self.topic@,
            date: self.date@,
            agents: self.agents@.map_values(|p: (String, RawAgentInstance)| (p.0@, p.1@)),
        }
    }
}

/// The text an agent display name is persisted as: explicit names verbatim,
/// the defaults as reserved markers.
pub open spec fn raw_name_spec(n: NameView) -> Seq<char> {
    match n {
        NameView::Named(s) => s,
        NameView::UserDefault => "_USER"@,
        NameView::AssistantDefault => "_ASSISTANT"@,
    }
}

/// The display name a persisted text denotes.
pub open spec fn name_of_raw_spec(s: Seq<char>) -> NameView {
    if s == "_USER"@ {
        NameView::UserDefault
    } else if s == "_ASSISTANT"@ {
        NameView::AssistantDefault
    } else {
        NameView::Named(s)
    }
}

/// An explicit name that does not collide with the reserved markers.
pub open spec fn name_raw_ok(n: NameView) -> bool {
    n is Named ==> n->Named_0 != "_USER"@ && n->Named_0 != "_ASSISTANT"@
}

/// Persisting a non-colliding name and reading it back yields the name.
pub proof fn lemma_name_round_trip(n: NameView)
    requires
        name_raw_ok(n),
    ensures
        name_of_raw_spec(raw_name_spec(n)) == n,
{
    proof_strlit_distinct();
}

/// The two reserved markers differ.
proof fn proof_strlit_distinct()
    ensures
        "_USER"@ != "_ASSISTANT"@,
{
    reveal_strlit("_USER");
    reveal_strlit("_ASSISTANT");
    assert("_USER"@.len() == 5);
    assert("_ASSISTANT"@.len() == 10);
}

/// Persists an agent display name as text.
pub fn agent_name_to_raw(name: &AgentName) -> (r: String)
    ensures
        r@ == raw_name_spec(name@),
{
    match name {
        AgentName::Named(s) => s.clone(),
        AgentName::UserDefault => String::from_str("_USER"),
        AgentName::AssistantDefault => String::from_str("_ASSISTANT"),
    }
}

/// Reads an agent display name back from its persisted text.
pub fn agent_name_from_raw(s: String) -> (r: AgentName)
    ensures
        r@ == name_of_raw_spec(s@),
{
    if s == String::from_str("_USER") {
        AgentName::UserDefault
    } else if s == String::from_str("_ASSISTANT") {
        AgentName::AssistantDefault
    } else {
        AgentName::Named(s)
    }
}

/// The persisted message entries of a store: one per present slot, keyed by
/// the slot's identifier in canonical decimal, ascending.
pub open spec fn raw_messages_of(store: Seq<Option<MsgView>>) -> Seq<(Seq<char>, MsgView)>
    decreases store.len(),
{
    if store.len() == 0 {
        Seq::empty()
    } else {
        let rest = raw_messages_of(store.drop_last());
        match store.last() {
            Some(m) => rest.push((dec_digits((store.len() - 1) as nat), m)),
            None => rest,
        }
    }
}

/// A history as persisted: each reference in canonical decimal.
pub open spec fn raw_history_of(h: Seq<int>) -> Seq<Seq<char>> {
    h.map_values(|id: int| dec_digits(id as nat))
}

/// An instance as persisted: configuration dropped, name kept.
pub open spec fn raw_inst_of(a: InstanceView) -> RawInstView {
    RawInstView { id: a.id, name: a.config.name, history: raw_history_of(a.history) }
}

/// The persisted agent table: each instance keyed by its identifier.
pub open spec fn raw_agents_of(agents: Seq<InstanceView>) -> Seq<(Seq<char>, RawInstView)> {
    agents.map_values(|a: InstanceView| (dec_digits(a.id as nat), raw_inst_of(a)))
}

/// The persisted form of a conversation.
pub open spec fn chat_to_raw_spec(c: ChatView) -> RawChatView {
    RawChatView {
        id: c.id,
        messages: raw_messages_of(c.store),
        topic: c.topic,
        date: c.date,
        agents: raw_agents_of(c.agents),
    }
}

/// Flattens a conversation into its persisted form.
pub fn chat_to_raw(chat: &Chat) -> (r: RawChat)
    ensures
        r@ == chat_to_raw_spec(chat@),
{
    let mut messages: Vec<(String, ChatMsg)> = Vec::new();
    let n = chat.message_manager.len();
    let mut i: usize = 0;
    while i < n
        invariant
            n == chat@.store.len(),
            i <= n,
            messages@.map_values(|p: (String, ChatMsg)| (p.0@, p.1@)) =~= raw_messages_of(
                chat@.store.take(i as int),
            ),
        decreases n - i,
    {
        proof {
            assert(chat@.store.take(i as int + 1).drop_last() =~= chat@.store.take(i as int));
            assert(chat@.store.take(i as int + 1).last() == chat@.store[i as int]);
        }
        match chat.message_manager.get(&MessageID(i)) {
            Some(m) => {
                messages.push((format_id(i), m.clone()));
            },
            None => {},
        }
        proof {
            assert(messages@.map_values(|p: (String, ChatMsg)| (p.0@, p.1@))
                =~= raw_messages_of(chat@.store.take(i as int + 1)));
        }
        i += 1;
    }
    proof {
        assert(chat@.store.take(chat@.store.len() as int) =~= chat@.store);
    }
    let mut agents: Vec<(String, RawAgentInstance)> = Vec::new();
    let mut k: usize = 0;
    while k < chat.agents.len()
        invariant
            k <= chat.agents.len(),
            agents@.map_values(|p: (String, RawAgentInstance)| (p.0@, p.1@)) =~= raw_agents_of(
                chat@.agents.take(k as int),
            ),
        decreases chat.agents.len() - k,
    {
        let a = &chat.agents[k];
        let mut history: Vec<String> = Vec::new();
        let mut j: usize = 0;
        while j < a.history.len()
            invariant
                j <= a.history.len(),
                history@.map_values(|s: String| s@) =~= raw_history_of(
                    crate::agents::history_view(a.history@).take(j as int),
                ),
            decreases a.history.len() - j,
        {
            let entry = format_id(a.history[j].0);
            proof {
                assert(entry@ == dec_digits(a.history@[j as int].0 as nat));
            }
            let ghost history0 = history@;
            history.push(entry);
            proof {
                let hv = crate::agents::history_view(a.history@);
                assert(hv[j as int] == a.history@[j as int].0 as int);
                assert(entry@ == dec_digits(hv[j as int] as nat));
                assert(history0.map_values(|s: String| s@).len() == history0.len());
                assert(raw_history_of(hv.take(j as int)).len() == hv.take(j as int).len());
                assert(hv.len() == a.history@.len());
                assert(hv.take(j as int).len() == j as int);
                assert(history0.len() == j as int);
                assert(history@.len() == j as int + 1);
                assert forall|m: int| 0 <= m < history@.len() implies history@.map_values(
                    |s: String| s@,
                )[m] == #[trigger] raw_history_of(hv.take(j as int + 1))[m] by {
                    if m < j as int {
                        assert(history@[m] == history0[m]);
                        assert(history0.map_values(|s: String| s@)[m] == raw_history_of(
                            hv.take(j as int),
                        )[m]);
                        assert(raw_history_of(hv.take(j as int))[m] == dec_digits(
                            hv.take(j as int)[m] as nat,
                        ));
                        assert(hv.take(j as int)[m] == hv.take(j as int + 1)[m]);
                        assert(raw_history_of(hv.take(j as int + 1))[m] == dec_digits(
                            hv.take(j as int + 1)[m] as nat,
                        ));
                    } else {
                        assert(history@[m] == entry);
                        assert(hv.take(j as int + 1)[m] == hv[j as int]);
                        assert(raw_history_of(hv.take(j as int + 1))[m] == dec_digits(
                            hv.take(j as int + 1)[m] as nat,
                        ));
                    }
                }
                assert(history@.map_values(|s: String| s@) =~= raw_history_of(
                    hv.take(j as int + 1),
                ));
            }
            j += 1;
        }
        proof {
            let hv = crate::agents::history_view(a.history@);
            assert(hv.take(hv.len() as int) =~= hv);
        }
        let raw_inst = RawAgentInstance { id: a.id, name: a.config.name.clone(), history };
        agents.push((format_id(a.id.id), raw_inst));
        proof {
            assert(chat@.agents.take(k as int + 1) =~= chat@.agents.take(k as int).push(
                chat@.agents[k as int],
            ));
            assert(raw_agents_of(chat@.agents.take(k as int + 1)) =~= raw_agents_of(
                chat@.agents.take(k as int),
            ).push((dec_digits(chat@.agents[k as int].id as nat), raw_inst_of(
                chat@.agents[k as int],
            ))));
            assert(agents@.map_values(|p: (String, RawAgentInstance)| (p.0@, p.1@))
                =~= raw_agents_of(chat@.agents.take(k as int + 1)));
        }
        k += 1;
    }
    proof {
        assert(chat@.agents.take(chat@.agents.len() as int) =~= chat@.agents);
    }
    let r = RawChat {
        id: chat.id,
        messages,
        topic: chat.topic.clone(),
        date: chat.date.clone(),
        agents,
    };
    proof {
        assert(r@.messages =~= chat_to_raw_spec(chat@).messages);
        assert(r@.agents =~= chat_to_raw_spec(chat@).agents);
    }
    r
}

/// Canonical, strictly ascending, machine-sized message keys.
pub open spec fn raw_msgs_wf(ms: Seq<(Seq<char>, MsgView)>) -> bool {
    &&& forall|k: int| 0 <= k < ms.len() ==> valid_dec((#[trigger] ms[k]).0) && dec_value(
        ms[k].0,
    ) <= usize::MAX as int
    &&& forall|k1: int, k2: int| 0 <= k1 < k2 < ms.len() ==> dec_value((#[trigger] ms[k1]).0)
        < dec_value((#[trigger] ms[k2]).0)
}

/// The store a persisted message list denotes: each entry at the slot its
/// key names, removed identifiers as empty slots in between.
pub open spec fn raw_store_of(ms: Seq<(Seq<char>, MsgView)>) -> Seq<Option<MsgView>>
    decreases ms.len(),
{
    if ms.len() == 0 {
        Seq::empty()
    } else {
        let rest = raw_store_of(ms.drop_last());
        let v = dec_value(ms.last().0);
        rest + Seq::new((v - rest.len()) as nat, |i: int| None::<MsgView>) + seq![
            Some(ms.last().1),
        ]
    }
}

/// The first configuration persisted under a display name.
pub open spec fn lookup_config(configs: Seq<(NameView, ConfigView)>, name: NameView) -> Option<
    ConfigView,
>
    decreases configs.len(),
{
    if configs.len() == 0 {
        None
    } else if configs.first().0 == name {
        Some(configs.first().1)
    } else {
        lookup_config(configs.drop_first(), name)
    }
}

/// The model of a configuration table.
pub open spec fn configs_view(cs: Seq<(AgentName, AgentConfig)>) -> Seq<(NameView, ConfigView)> {
    cs.map_values(|p: (AgentName, AgentConfig)| (p.0@, p.1@))
}

/// Looks a display name up in the configuration table, first match.
pub fn find_config(configs: &Vec<(AgentName, AgentConfig)>, name: &AgentName) -> (r: Option<
    AgentConfig,
>)
    ensures
        (match r {
            Some(c) => lookup_config(configs_view(configs@), name@) == Some(c@),
            None => lookup_config(configs_view(configs@), name@) is None,
        }),
{
    let ghost cv = configs_view(configs@);
    proof {
        assert(cv.skip(0) =~= cv);
    }
    let mut i: usize = 0;
    while i < configs.len()
        invariant
            i <= configs.len(),
            cv == configs_view(configs@),
            lookup_config(cv, name@) == lookup_config(cv.skip(i as int), name@),
        decreases configs.len() - i,
    {
        proof {
            assert(cv.skip(i as int).first() == cv[i as int]);
            assert(cv.skip(i as int).drop_first() =~= cv.skip(i as int + 1));
        }
        if configs[i].0 == *name {
            return Some(configs[i].1.clone());
        }
        i += 1;
    }
    proof {
        assert(cv.skip(configs@.len() as int) =~= Seq::<(NameView, ConfigView)>::empty());
    }
    None
}

/// Well-formed persisted agents against a store and a configuration table:
/// keyed contiguously by their table position, each name recoverable, each
/// history reference canonical, machine-sized and present in the store.
pub open spec fn raw_agents_wf(
    agents: Seq<(Seq<char>, RawInstView)>,
    store: Seq<Option<MsgView>>,
    configs: Seq<(NameView, ConfigView)>,
) -> bool {
    &&& forall|k: int| 0 <= k < agents.len() ==> (#[trigger] agents[k]).0 == dec_digits(k as nat)
    &&& forall|k: int| 0 <= k < agents.len() ==> (#[trigger] agents[k]).1.id == k
    &&& forall|k: int| 0 <= k < agents.len() ==> lookup_config(
        configs,
        (#[trigger] agents[k]).1.name,
    ) is Some
    &&& forall|k: int, j: int|
        0 <= k < agents.len() && 0 <= j < agents[k].1.history.len() ==> valid_dec(
            #[trigger] agents[k].1.history[j],
        ) && dec_value(agents[k].1.history[j]) <= usize::MAX as int && store_contains(
            store,
            dec_value(agents[k].1.history[j]),
        )
}

/// A persisted conversation that can be rehydrated against a configuration
/// table.
pub open spec fn raw_chat_wf(r: RawChatView, configs: Seq<(NameView, ConfigView)>) -> bool {
    &&& raw_msgs_wf(r.messages)
    &&& raw_agents_wf(r.agents, raw_store_of(r.messages), configs)
}

/// The conversation a well-formed persisted form denotes.
pub open spec fn raw_to_chat_spec(r: RawChatView, configs: Seq<(NameView, ConfigView)>) -> ChatView {
    ChatView {
        id: r.id,
        store: raw_store_of(r.messages),
        topic: r.topic,
        date: r.date,
        agents: Seq::new(r.agents.len(), |k: int| InstanceView {
            id: k,
            config: lookup_config(configs, r.agents[k].1.name)->Some_0,
            history: r.agents[k].1.history.map_values(|s: Seq<char>| dec_value(s)),
        }),
    }
}

/// Rehydrates a conversation from its persisted form, recovering each
/// agent's configuration by display name.  Succeeds exactly on well-formed
/// input; any reference-integrity violation is refused rather than patched
/// over.
pub fn raw_to_chat(raw: &RawChat, configs: &Vec<(AgentName, AgentConfig)>) -> (r: Option<Chat>)
    ensures
        r is Some <==> raw_chat_wf(raw@, configs_view(configs@)),
        r is Some ==> (r->0)@ == raw_to_chat_spec(raw@, configs_view(configs@)) && (r->0).wf(),
{
    let ghost rv = raw@;
    let ghost cv = configs_view(configs@);
    let mut slots: Vec<Option<ChatMsg>> = Vec::new();
    let n = raw.messages.len();
    let mut i: usize = 0;
    while i < n
        invariant
            n == rv.messages.len(),
            rv == raw@,
            cv == configs_view(configs@),
            i <= n,
            slots@.map_values(|m: Option<ChatMsg>| slot_view(m)) =~= raw_store_of(
                rv.messages.take(i as int),
            ),
            i == 0 ==> slots@.len() == 0,
            i > 0 ==> slots@.len() == dec_value(rv.messages[i as int - 1].0) + 1,
            forall|k: int| 0 <= k < i as int ==> valid_dec((#[trigger] rv.messages[k]).0)
                && dec_value(rv.messages[k].0) <= usize::MAX as int,
            forall|k1: int, k2: int| 0 <= k1 < k2 < i as int ==> dec_value((
            #[trigger] rv.messages[k1]).0) < dec_value((#[trigger] rv.messages[k2]).0),
        decreases n - i,
    {
        let pair = &raw.messages[i];
        let key = &pair.0;
        let msg = &pair.1;
        proof {
            assert(key@ == rv.messages[i as int].0);
            assert(msg@ == rv.messages[i as int].1);
        }
        let v = match parse_id(key.as_str()) {
            Some(v) => v,
            None => {
                proof {
                    assert(!(valid_dec(rv.messages[i as int].0) && dec_value(rv.messages[
                    i as int].0) <= usize::MAX as int));
                    assert(!raw_msgs_wf(rv.messages));
                }
                return None;
            },
        };
        if v < slots.len() {
            proof {
                assert(v as int == dec_value(rv.messages[i as int].0));
                assert(i > 0);
                assert(dec_value(rv.messages[i as int - 1].0) >= dec_value(rv.messages[
                i as int].0));
                assert(!raw_msgs_wf(rv.messages));
            }
            return None;
        }
        let ghost slots0 = slots@;
        while slots.len() < v
            invariant
                slots0.len() <= slots@.len() <= v,
                forall|k: int| 0 <= k < slots0.len() ==> #[trigger] slots@[k] == slots0[k],
                forall|k: int| slots0.len() <= k < slots@.len() ==> #[trigger] slots@[k]
                    is None,
            decreases v - slots.len(),
        {
            slots.push(None);
        }
        slots.push(Some(msg.clone()));
        proof {
            assert(rv.messages.take(i as int + 1).drop_last() =~= rv.messages.take(i as int));
            assert(rv.messages.take(i as int + 1).last() == rv.messages[i as int]);
            assert(slots@.map_values(|m: Option<ChatMsg>| slot_view(m)) =~= raw_store_of(
                rv.messages.take(i as int + 1),
            ));
        }
        i += 1;
    }
    proof {
        assert(rv.messages.take(rv.messages.len() as int) =~= rv.messages);
    }
    let message_manager = MessageManager::from_slots(slots);
    let ghost store = raw_store_of(rv.messages);
    let mut agents: Vec<AgentInstance> = Vec::new();
    let an = raw.agents.len();
    let mut k: usize = 0;
    while k < an
        invariant
            an == rv.agents.len(),
            rv == raw@,
            cv == configs_view(configs@),
            k <= an,
            store == raw_store_of(rv.messages),
            message_manager@ == store,
            raw_msgs_wf(rv.messages),
            agents@.len() == k as int,
            forall|j: int| 0 <= j < k as int ==> (#[trigger] agents@[j])@ == (InstanceView {
                id: j,
                config: lookup_config(cv, rv.agents[j].1.name)->Some_0,
                history: rv.agents[j].1.history.map_values(|s: Seq<char>| dec_value(s)),
            }),
            forall|j: int| 0 <= j < k as int ==> (#[trigger] rv.agents[j]).0 == dec_digits(
                j as nat,
            ) && rv.agents[j].1.id == j && lookup_config(cv, rv.agents[j].1.name) is Some,
            forall|j: int, h: int|
                0 <= j < k as int && 0 <= h < rv.agents[j].1.history.len() ==> valid_dec(
                    #[trigger] rv.agents[j].1.history[h],
                ) && dec_value(rv.agents[j].1.history[h]) <= usize::MAX as int && store_contains(
                    store,
                    dec_value(rv.agents[j].1.history[h]),
                ),
        decreases an - k,
    {
        let (key, raw_inst) = &raw.agents[k];
        let matches_index = match parse_id(key.as_str()) {
            Some(v) => v == k,
            None => false,
        };
        if !matches_index {
            proof {
                lemma_dec_digits_value(k as nat);
                if rv.agents[k as int].0 == dec_digits(k as nat) {
                    assert(valid_dec(key@) && dec_value(key@) == k as int);
                }
                assert(!raw_agents_wf(rv.agents, store, cv));
            }
            return None;
        }
        proof {
            lemma_dec_value_digits(key@);
            assert(rv.agents[k as int].0 == dec_digits(k as nat));
        }
        if raw_inst.id.id != k {
            proof {
                assert(rv.agents[k as int].1.id != k as int);
                assert(!raw_agents_wf(rv.agents, store, cv));
            }
            return None;
        }
        let config = match find_config(configs, &raw_inst.name) {
            Some(c) => c,
            None => {
                proof {
                    assert(lookup_config(cv, rv.agents[k as int].1.name) is None);
                    assert(!raw_agents_wf(rv.agents, store, cv));
                }
                return None;
            },
        };
        let mut history: Vec<MessageID> = Vec::new();
        let hn = raw_inst.history.len();
        let mut h: usize = 0;
        while h < hn
            invariant
                hn == rv.agents[k as int].1.history.len(),
                rv == raw@,
                k < rv.agents.len(),
                rv.agents[k as int].1 == raw_inst@,
                h <= hn,
                store == raw_store_of(rv.messages),
                message_manager@ == store,
                crate::agents::history_view(history@) =~= rv.agents[k as int].1.history.take(
                    h as int,
                ).map_values(|s: Seq<char>| dec_value(s)),
                forall|j: int| 0 <= j < h as int ==> valid_dec(
                    (#[trigger] rv.agents[k as int].1.history[j]),
                ) && dec_value(rv.agents[k as int].1.history[j]) <= usize::MAX as int
                    && store_contains(store, dec_value(rv.agents[k as int].1.history[j])),
            decreases hn - h,
        {
            let entry = &raw_inst.history[h];
            proof {
                assert(entry@ == rv.agents[k as int].1.history[h as int]);
            }
            let v = match parse_id(entry.as_str()) {
                Some(v) => v,
                None => {
                    proof {
                        assert(!(valid_dec(rv.agents[k as int].1.history[h as int]) && dec_value(
                            rv.agents[k as int].1.history[h as int],
                        ) <= usize::MAX as int));
                        assert(!raw_agents_wf(rv.agents, store, cv));
                    }
                    return None;
                },
            };
            let present = match message_manager.get(&MessageID(v)) {
                Some(_) => true,
                None => false,
            };
            if !present {
                proof {
                    assert(!store_contains(store, dec_value(rv.agents[k as int].1.history[
                    h as int])));
                    assert(!raw_agents_wf(rv.agents, store, cv));
                }
                return None;
            }
            let ghost history0 = history@;
            history.push(MessageID(v));
            proof {
                let hs = rv.agents[k as int].1.history;
                assert(crate::agents::history_view(history0).len() == history0.len());
                assert(hs.take(h as int).map_values(|s: Seq<char>| dec_value(s)).len()
                    == hs.take(h as int).len());
                assert(hs.take(h as int).len() == h as int);
                assert(history0.len() == h as int);
                assert(history@.len() == h as int + 1);
                assert(v as int == dec_value(hs[h as int]));
                assert forall|m: int| #![trigger history@[m]] 0 <= m < history@.len()
                    implies crate::agents::history_view(history@)[m] == hs.take(
                    h as int + 1,
                ).map_values(|s: Seq<char>| dec_value(s))[m] by {
                    assert(hs.take(h as int + 1)[m] == hs[m]);
                    if m < h as int {
                        assert(history@[m] == history0[m]);
                        assert(crate::agents::history_view(history0)[m] == hs.take(
                            h as int,
                        ).map_values(|s: Seq<char>| dec_value(s))[m]);
                        assert(hs.take(h as int)[m] == hs[m]);
                    } else {
                        assert(history@[m] == MessageID(v));
                    }
                }
                assert(crate::agents::history_view(history@) =~= hs.take(h as int + 1).map_values(
                    |s: Seq<char>| dec_value(s),
                ));
            }
            h += 1;
        }
        proof {
            let hs = rv.agents[k as int].1.history;
            assert(hs.take(hs.len() as int) =~= hs);
        }
        let inst = AgentInstance::new(AgentID { id: k }, config, history);
        agents.push(inst);
        k += 1;
    }
    let chat = Chat {
        id: raw.id,
        message_manager,
        topic: raw.topic.clone(),
        date: raw.date.clone(),
        agents,
    };
    proof {
        assert(raw_chat_wf(rv, cv));
        assert(chat@.agents =~= raw_to_chat_spec(rv, cv).agents);
        assert(chat@ == raw_to_chat_spec(rv, cv));
        assert forall|i2: int, j: int|
            0 <= i2 < chat@.agents.len() && 0 <= j < chat@.agents[i2].history.len()
            implies store_contains(chat@.store, #[trigger] chat@.agents[i2].history[j]) by {
            assert(chat@.agents[i2].history[j] == dec_value(rv.agents[i2].1.history[j]));
        }
    }
    Some(chat)
}

/// The persisted application settings, stored under their own key.
#[derive(Debug)]
pub struct RawAppSettings {
    pub run_count: usize,
    pub customization: Customization,
    pub auth: Option<Auth>,
    pub selected_service: Option<GPTService>,
    pub openai_model: Option<OpenAIModel>,
}

/// The model of optional credentials.
pub open spec fn opt_auth_view(a: Option<Auth>) -> Option<crate::auth::AuthView> {
    match a {
        Some(x) => Some(x@),
        None => None,
    }
}

/// Mathematical model of a [`RawAppSettings`].
pub ghost struct SettingsView {
    pub run_count: int,
    pub customization: Seq<Seq<char>>,
    pub auth: Option<crate::auth::AuthView>,
    pub selected_service: Option<GPTService>,
    pub openai_model: Option<OpenAIModel>,
}

impl View for RawAppSettings {
    type V = SettingsView;

    open spec fn view(&self) -> SettingsView {
        SettingsView {
            run_count: self.run_count as int,
            customization: self.customization@,
            auth: opt_auth_view(self.auth),
            selected_service: self.selected_service,
            openai_model: self.openai_model,
        }
    }
}

impl RawAppSettings {
    /// The settings read from the store, or — when no prior key exists or
    /// the value could not be read — a fresh default: no runs counted, the
    /// default customization, and nothing configured.
    pub fn get_or_init(found: Option<RawAppSettings>) -> (r: Self)
        ensures
            (match found {
                Some(s) => r@ == s@,
                None => r@ == (SettingsView {
                    run_count: 0,
                    customization: seq!["."@, ".."@, "..."@],
                    auth: None,
                    selected_service: None,
                    openai_model: None,
                }),
            }),
    {
        match found {
            Some(s) => s,
            None => RawAppSettings {
                run_count: 0,
                customization: Customization::default(),
                auth: None,
                selected_service: None,
                openai_model: None,
            },
        }
    }
}

/// The persisted conversations, stored under their own key.
#[derive(Debug)]
pub struct RawChats {
    pub chats: Vec<RawChat>,
}

/// The models of a persisted conversation list.
pub open spec fn raw_chats_view(chats: Seq<RawChat>) -> Seq<RawChatView> {
    chats.map_values(|c: RawChat| c@)
}

impl RawChats {
    /// The conversations read from the store, or — when no prior key exists
    /// or the value could not be read — a single freshly seeded default
    /// conversation, flattened for storage.
    pub fn get_or_init(found: Option<RawChats>, personas: &Instructions) -> (r: Self)
        ensures
            (match found {
                Some(c) => raw_chats_view(r.chats@) == raw_chats_view(c.chats@),
                None => ({
                    &&& r.chats@.len() == 1
                    &&& (exists|c: ChatView|
                        #[trigger] chat_to_raw_spec(c) == r.chats@[0]@
                            && crate::chat::agents_wf(c.agents, c.store)
                            && crate::chat::sole_user(c) && c.agents.len() == personas@.len() + 1
                            && c.topic == "Default Chat"@)
                }),
            }),
    {
        match found {
            Some(c) => c,
            None => {
                let (mut default_chat, _name_to_configs) = Chat::default_chat_and_configs(
                    personas,
                );
                default_chat.topic = String::from_str("Default Chat");
                let raw = chat_to_raw(&default_chat);
                let mut chats: Vec<RawChat> = Vec::new();
                proof {
                    assert(chat_to_raw_spec(default_chat@) == raw@);
                }
                chats.push(raw);
                RawChats { chats }
            },
        }
    }
}

/// The persisted agent configurations, stored once under their own key and
/// keyed by display name, so that instruction text is not duplicated across
/// conversations.
#[derive(Debug)]
pub struct RawAgentConfigs {
    pub name_to_configs: Vec<(String, AgentConfig)>,
}

/// The model of a persisted configuration table.
pub open spec fn raw_configs_view(cs: Seq<(String, AgentConfig)>) -> Seq<(Seq<char>, ConfigView)> {
    cs.map_values(|p: (String, AgentConfig)| (p.0@, p.1@))
}

impl RawAgentConfigs {
    /// The configuration table read from the store, or — when no prior key
    /// exists or the value could not be read — the table of a freshly
    /// seeded default conversation, each configuration filed under the
    /// persisted form of its display name.
    pub fn get_or_init(found: Option<RawAgentConfigs>, personas: &Instructions) -> (r: Self)
        ensures
            (match found {
                Some(c) => raw_configs_view(r.name_to_configs@) == raw_configs_view(
                    c.name_to_configs@,
                ),
                None => ({
                    &&& r.name_to_configs@.len() == personas@.len() + 1
                    &&& (forall|i: int| 0 <= i < personas@.len()
                        ==> (#[trigger] r.name_to_configs@[i]).0@ == personas@[i].name
                            && r.name_to_configs@[i].1@ == crate::chat::seeded_assistant_config(
                            personas@[i],
                        ))
                    &&& r.name_to_configs@[personas@.len() as int].0@ == "_USER"@
                    &&& r.name_to_configs@[personas@.len() as int].1@
                        == crate::chat::default_user_config()
                }),
            }),
    {
        match found {
            Some(c) => c,
            None => {
                let (_default_chat, name_to_configs) = Chat::default_chat_and_configs(personas);
                let mut raw_pairs: Vec<(String, AgentConfig)> = Vec::new();
                let mut i: usize = 0;
                while i < name_to_configs.len()
                    invariant
                        i <= name_to_configs.len(),
                        raw_pairs@.len() == i as int,
                        forall|j: int| 0 <= j < i as int ==> (#[trigger] raw_pairs@[j]).0@
                            == raw_name_spec(name_to_configs@[j].0@) && raw_pairs@[j].1@
                            == name_to_configs@[j].1@,
                    decreases name_to_configs.len() - i,
                {
                    let pair = &name_to_configs[i];
                    raw_pairs.push((agent_name_to_raw(&pair.0), pair.1.clone()));
                    i += 1;
                }
                RawAgentConfigs { name_to_configs: raw_pairs }
            },
        }
    }
}

/// Everything the application persists, in its flat form.
#[derive(Debug)]
pub struct RawStoredStates {
    pub raw_app_settings: RawAppSettings,
    pub raw_chats: RawChats,
    pub raw_agent_configs: RawAgentConfigs,
}

/// Everything the application holds in memory.
#[derive(Debug)]
pub struct StoredStates {
    pub run_count: usize,
    pub customization: Customization,
    pub name_to_configs: Vec<(AgentName, AgentConfig)>,
    pub chats: Vec<Chat>,
    pub auth: Option<Auth>,
    pub selected_service: Option<GPTService>,
    pub openai_model: Option<OpenAIModel>,
}

/// Reads a persisted configuration table back into display names.
pub fn configs_from_raw(raw: &RawAgentConfigs) -> (r: Vec<(AgentName, AgentConfig)>)
    ensures
        r@.len() == raw.name_to_configs@.len(),
        forall|i: int| 0 <= i < r@.len() ==> (#[trigger] r@[i]).0@ == name_of_raw_spec(
            raw.name_to_configs@[i].0@,
        ) && r@[i].1@ == raw.name_to_configs@[i].1@,
{
    let mut out: Vec<(AgentName, AgentConfig)> = Vec::new();
    let mut i: usize = 0;
    while i < raw.name_to_configs.len()
        invariant
            i <= raw.name_to_configs.len(),
            out@.len() == i as int,
            forall|j: int| 0 <= j < i as int ==> (#[trigger] out@[j]).0@ == name_of_raw_spec(
                raw.name_to_configs@[j].0@,
            ) && out@[j].1@ == raw.name_to_configs@[j].1@,
        decreases raw.name_to_configs.len() - i,
    {
        let pair = &raw.name_to_configs[i];
        out.push((agent_name_from_raw(pair.0.clone()), pair.1.clone()));
        i += 1;
    }
    out
}

/// Rehydrates every persisted conversation, or nothing as soon as one of
/// them is not well-formed against the configuration table.
pub fn chats_from_raw(raw: &RawChats, configs: &Vec<(AgentName, AgentConfig)>) -> (r: Option<
    Vec<Chat>,
>)
    ensures
        r is Some <==> (forall|i: int| 0 <= i < raw.chats@.len() ==> raw_chat_wf(
            (#[trigger] raw.chats@[i])@,
            configs_view(configs@),
        )),
        r is Some ==> ({
            &&& (r->0)@.len() == raw.chats@.len()
            &&& forall|i: int| 0 <= i < raw.chats@.len() ==> ((#[trigger] (r->0)@[i])@
                == raw_to_chat_spec(raw.chats@[i]@, configs_view(configs@)) && (r->0)@[i].wf())
        }),
{
    let mut out: Vec<Chat> = Vec::new();
    let mut i: usize = 0;
    while i < raw.chats.len()
        invariant
            i <= raw.chats.len(),
            out@.len() == i as int,
            forall|j: int| 0 <= j < i as int ==> raw_chat_wf(
                (#[trigger] raw.chats@[j])@,
                configs_view(configs@),
            ),
            forall|j: int| 0 <= j < i as int ==> ((#[trigger] out@[j])@ == raw_to_chat_spec(
                raw.chats@[j]@,
                configs_view(configs@),
            ) && out@[j].wf()),
        decreases raw.chats.len() - i,
    {
        match raw_to_chat(&raw.chats[i], configs) {
            Some(c) => {
                out.push(c);
            },
            None => {
                return None;
            },
        }
        i += 1;
    }
    Some(out)
}

/// The display names a persisted configuration table denotes.
pub open spec fn parsed_configs(raw: Seq<(Seq<char>, ConfigView)>) -> Seq<(NameView, ConfigView)> {
    raw.map_values(|p: (Seq<char>, ConfigView)| (name_of_raw_spec(p.0), p.1))
}

/// The configuration table a fresh default conversation persists.
pub open spec fn default_raw_configs(personas: Seq<crate::agents::PersonaView>) -> Seq<
    (Seq<char>, ConfigView),
> {
    Seq::new(personas.len() + 1, |i: int| if i < personas.len() {
        (personas[i].name, crate::chat::seeded_assistant_config(personas[i]))
    } else {
        ("_USER"@, crate::chat::default_user_config())
    })
}

/// The persisted configuration table that `get_or_init` works from: what
/// was found, or the default table.
pub open spec fn found_raw_configs(
    configs: Option<RawAgentConfigs>,
    personas: Seq<crate::agents::PersonaView>,
) -> Seq<(Seq<char>, ConfigView)> {
    match configs {
        Some(c) => raw_configs_view(c.name_to_configs@),
        None => default_raw_configs(personas),
    }
}

/// The shape of the conversation list synthesized when nothing usable was
/// persisted: one fresh default conversation.
pub open spec fn default_chats_shape(
    chats: Seq<Chat>,
    personas: Seq<crate::agents::PersonaView>,
) -> bool {
    &&& chats.len() == 1
    &&& chats[0].wf()
    &&& crate::chat::sole_user(chats[0]@)
    &&& chats[0]@.agents.len() == personas.len() + 1
    &&& chats[0]@.topic == "Default Chat"@
}

/// The full contract of `get_or_init`: settings taken over or defaulted,
/// the configuration table read back into display names, and the
/// conversations rehydrated exactly when the persisted list was present and
/// well-formed — anything else falls back to one fresh default
/// conversation, never a startup failure.
pub open spec fn get_or_init_post(
    r: StoredStates,
    settings: Option<RawAppSettings>,
    chats: Option<RawChats>,
    configs: Option<RawAgentConfigs>,
    personas: Seq<crate::agents::PersonaView>,
) -> bool {
    &&& (match settings {
        Some(s) => r.run_count == s.run_count && r.customization@ == s.customization@
            && opt_auth_view(r.auth) == opt_auth_view(s.auth) && r.selected_service
            == s.selected_service && r.openai_model == s.openai_model,
        None => r.run_count == 0 && r.customization@ == seq!["."@, ".."@, "..."@] && r.auth
            is None && r.selected_service is None && r.openai_model is None,
    })
    &&& configs_view(r.name_to_configs@) == parsed_configs(found_raw_configs(configs, personas))
    &&& forall|i: int| 0 <= i < r.chats@.len() ==> (#[trigger] r.chats@[i]).wf()
    &&& (match chats {
        Some(rc) => ({
            let table = parsed_configs(found_raw_configs(configs, personas));
            if forall|i: int| 0 <= i < rc.chats@.len() ==> raw_chat_wf(
                (#[trigger] rc.chats@[i])@,
                table,
            ) {
                r.chats@.len() == rc.chats@.len() && (forall|i: int| 0 <= i < rc.chats@.len()
                    ==> (#[trigger] r.chats@[i])@ == raw_to_chat_spec(rc.chats@[i]@, table))
            } else {
                default_chats_shape(r.chats@, personas)
            }
        }),
        None => default_chats_shape(r.chats@, personas),
    })
}

/// One fresh default conversation, as the fallback conversation list.
fn default_chat_vec(personas: &Instructions) -> (r: Vec<Chat>)
    ensures
        default_chats_shape(r@, personas@),
{
    let (mut default_chat, _name_to_configs) = Chat::default_chat_and_configs(personas);
    default_chat.topic = String::from_str("Default Chat");
    let mut chats: Vec<Chat> = Vec::new();
    chats.push(default_chat);
    chats
}

impl RawStoredStates {
    /// Assembles the in-memory state from whatever the store held, seeding
    /// defaults for anything missing or unreadable: a missing key is never
    /// a fatal startup error.
    pub fn get_or_init(
        settings: Option<RawAppSettings>,
        chats: Option<RawChats>,
        configs: Option<RawAgentConfigs>,
        personas: &Instructions,
    ) -> (r: StoredStates)
        ensures
            get_or_init_post(r, settings, chats, configs, personas@),
    {
        let ghost found = found_raw_configs(configs, personas@);
        let raw_app_settings = RawAppSettings::get_or_init(settings);
        let raw_agent_configs = RawAgentConfigs::get_or_init(configs, personas);
        proof {
            if configs is None {
                assert(raw_configs_view(raw_agent_configs.name_to_configs@)
                    =~= default_raw_configs(personas@));
            }
            assert(raw_configs_view(raw_agent_configs.name_to_configs@) == found);
        }
        let name_to_configs = configs_from_raw(&raw_agent_configs);
        proof {
            assert(configs_view(name_to_configs@) =~= parsed_configs(found));
        }
        let chats_rich: Vec<Chat> = match chats {
            Some(rc) => {
                match chats_from_raw(&rc, &name_to_configs) {
                    Some(cs) => cs,
                    None => default_chat_vec(personas),
                }
            },
            None => default_chat_vec(personas),
        };
        let RawAppSettings { run_count, customization, auth, selected_service, openai_model } =
            raw_app_settings;
        StoredStates {
            run_count,
            customization,
            name_to_configs,
            chats: chats_rich,
            auth,
            selected_service,
            openai_model,
        }
    }

    /// Flattens the in-memory state for storage.
    pub fn from_states(s: &StoredStates) -> (r: RawStoredStates)
        ensures
            r.raw_app_settings@ == (SettingsView {
                run_count: s.run_count as int,
                customization: s.customization@,
                auth: opt_auth_view(s.auth),
                selected_service: s.selected_service,
                openai_model: s.openai_model,
            }),
            raw_chats_view(r.raw_chats.chats@) == s.chats@.map_values(
                |c: Chat| chat_to_raw_spec(c@),
            ),
            raw_configs_view(r.raw_agent_configs.name_to_configs@) == configs_view(
                s.name_to_configs@,
            ).map_values(|p: (NameView, ConfigView)| (raw_name_spec(p.0), p.1)),
    {
        let raw_app_settings = RawAppSettings {
            run_count: s.run_count,
            customization: s.customization.clone(),
            auth: match &s.auth {
                Some(a) => Some(a.clone()),
                None => None,
            },
            selected_service: s.selected_service,
            openai_model: s.openai_model,
        };
        let mut chats: Vec<RawChat> = Vec::new();
        let mut i: usize = 0;
        while i < s.chats.len()
            invariant
                i <= s.chats.len(),
                chats@.len() == i as int,
                forall|j: int| 0 <= j < i as int ==> (#[trigger] chats@[j])@ == chat_to_raw_spec(
                    s.chats@[j]@,
                ),
            decreases s.chats.len() - i,
        {
            chats.push(chat_to_raw(&s.chats[i]));
            i += 1;
        }
        let mut name_to_configs: Vec<(String, AgentConfig)> = Vec::new();
        let mut k: usize = 0;
        while k < s.name_to_configs.len()
            invariant
                k <= s.name_to_configs.len(),
                name_to_configs@.len() == k as int,
                forall|j: int| 0 <= j < k as int ==> (#[trigger] name_to_configs@[j]).0@
                    == raw_name_spec(s.name_to_configs@[j].0@) && name_to_configs@[j].1@
                    == s.name_to_configs@[j].1@,
            decreases s.name_to_configs.len() - k,
        {
            let pair = &s.name_to_configs[k];
            name_to_configs.push((agent_name_to_raw(&pair.0), pair.1.clone()));
            k += 1;
        }
        let r = RawStoredStates {
            raw_app_settings,
            raw_chats: RawChats { chats },
            raw_agent_configs: RawAgentConfigs { name_to_configs },
        };
        proof {
            assert(raw_chats_view(r.raw_chats.chats@) =~= s.chats@.map_values(
                |c: Chat| chat_to_raw_spec(c@),
            ));
            assert(raw_configs_view(r.raw_agent_configs.name_to_configs@) =~= configs_view(
                s.name_to_configs@,
            ).map_values(|p: (NameView, ConfigView)| (raw_name_spec(p.0), p.1)));
        }
        r
    }
}

impl StoredStates {
    /// Assembles the in-memory state from whatever the store held; see
    /// [`RawStoredStates::get_or_init`].
    pub fn get_or_init(
        settings: Option<RawAppSettings>,
        chats: Option<RawChats>,
        configs: Option<RawAgentConfigs>,
        personas: &Instructions,
    ) -> (r: StoredStates)
        ensures
            get_or_init_post(r, settings, chats, configs, personas@),
    {
        RawStoredStates::get_or_init(settings, chats, configs, personas)
    }

    /// Flattens this state for storage; see [`RawStoredStates::from_states`].
    pub fn save(&self) -> (r: RawStoredStates)
        ensures
            raw_chats_view(r.raw_chats.chats@) == self.chats@.map_values(
                |c: Chat| chat_to_raw_spec(c@),
            ),
            raw_configs_view(r.raw_agent_configs.name_to_configs@) == configs_view(
                self.name_to_configs@,
            ).map_values(|p: (NameView, ConfigView)| (raw_name_spec(p.0), p.1)),
            r.raw_app_settings@ == (SettingsView {
                run_count: self.run_count as int,
                customization: self.customization@,
                auth: opt_auth_view(self.auth),
                selected_service: self.selected_service,
                openai_model: self.openai_model,
            }),
    {
        RawStoredStates::from_states(self)
    }
}

/// A store with its trailing empty slots dropped.
pub open spec fn trim_store(store: Seq<Option<MsgView>>) -> Seq<Option<MsgView>>
    decreases store.len(),
{
    if store.len() == 0 {
        store
    } else if store.last() is Some {
        store
    } else {
        trim_store(store.drop_last())
    }
}

/// Trimming keeps a prefix of the store and drops only empty slots.
pub proof fn lemma_trim_props(store: Seq<Option<MsgView>>)
    ensures
        trim_store(store).len() <= store.len(),
        forall|i: int| 0 <= i < trim_store(store).len() ==> #[trigger] trim_store(store)[i]
            == store[i],
        forall|i: int| trim_store(store).len() <= i < store.len() ==> #[trigger] store[i]
            is None,
        store.len() > 0 && store.last() is Some ==> trim_store(store) == store,
    decreases store.len(),
{
    if store.len() == 0 {
    } else if store.last() is Some {
    } else {
        lemma_trim_props(store.drop_last());
        assert(forall|i: int| 0 <= i < store.drop_last().len() ==> #[trigger] store.drop_last()[i]
            == store[i]);
        assert forall|i: int| trim_store(store).len() <= i < store.len() implies #[trigger] store[i]
            is None by {
            if i < store.len() - 1 {
                assert(store.drop_last()[i] is None);
            } else {
                assert(store[i] == store.last());
            }
        }
    }
}

/// The persisted entries of a store: canonical keys naming present slots,
/// strictly ascending.
pub proof fn lemma_raw_messages_props(store: Seq<Option<MsgView>>)
    ensures
        forall|k: int| 0 <= k < raw_messages_of(store).len() ==> valid_dec(
            (#[trigger] raw_messages_of(store)[k]).0,
        ),
        forall|k: int| 0 <= k < raw_messages_of(store).len() ==> 0 <= dec_value(
            (#[trigger] raw_messages_of(store)[k]).0,
        ) < store.len(),
        forall|k: int| 0 <= k < raw_messages_of(store).len() ==> store[dec_value(
            (#[trigger] raw_messages_of(store)[k]).0,
        )] == Some(raw_messages_of(store)[k].1),
        forall|k1: int, k2: int| 0 <= k1 < k2 < raw_messages_of(store).len() ==> dec_value(
            (#[trigger] raw_messages_of(store)[k1]).0,
        ) < dec_value((#[trigger] raw_messages_of(store)[k2]).0),
    decreases store.len(),
{
    if store.len() > 0 {
        let prefix = store.drop_last();
        lemma_raw_messages_props(prefix);
        let rest = raw_messages_of(prefix);
        let whole = raw_messages_of(store);
        assert(forall|i: int| 0 <= i < prefix.len() ==> #[trigger] prefix[i] == store[i]);
        if store.last() is Some {
            lemma_dec_digits_value((store.len() - 1) as nat);
            assert(whole == rest.push((dec_digits((store.len() - 1) as nat), store.last()->Some_0)));
            assert(dec_value(whole.last().0) == store.len() - 1);
            assert forall|k: int| 0 <= k < whole.len() implies valid_dec(
                (#[trigger] whole[k]).0,
            ) && 0 <= dec_value(whole[k].0) < store.len() && store[dec_value(whole[k].0)]
                == Some(whole[k].1) by {
                if k < rest.len() {
                    assert(whole[k] == rest[k]);
                }
            }
            assert forall|k1: int, k2: int| 0 <= k1 < k2 < whole.len() implies dec_value(
                (#[trigger] whole[k1]).0,
            ) < dec_value((#[trigger] whole[k2]).0) by {
                if k2 < rest.len() {
                    assert(whole[k1] == rest[k1]);
                    assert(whole[k2] == rest[k2]);
                } else {
                    assert(whole[k1] == rest[k1]);
                    assert(dec_value(whole[k1].0) < prefix.len());
                }
            }
        } else {
            assert(whole == rest);
        }
    }
}

/// Flattening a store and rebuilding from the entries restores the store up
/// to its trailing empty slots.
pub proof fn lemma_store_round_trip(store: Seq<Option<MsgView>>)
    ensures
        raw_store_of(raw_messages_of(store)) == trim_store(store),
    decreases store.len(),
{
    lemma_trim_props(store);
    if store.len() == 0 {
        assert(raw_store_of(raw_messages_of(store)) =~= trim_store(store));
    } else {
        let prefix = store.drop_last();
        lemma_store_round_trip(prefix);
        lemma_trim_props(prefix);
        lemma_raw_messages_props(prefix);
        let rest = raw_messages_of(prefix);
        let whole = raw_messages_of(store);
        if store.last() is Some {
            let m = store.last()->Some_0;
            lemma_dec_digits_value((store.len() - 1) as nat);
            assert(whole == rest.push((dec_digits((store.len() - 1) as nat), m)));
            assert(whole.drop_last() =~= rest);
            assert(whole.last() == (dec_digits((store.len() - 1) as nat), m));
            let v = dec_value(whole.last().0);
            assert(v == store.len() - 1);
            let rebuilt = raw_store_of(whole);
            assert(rebuilt == trim_store(prefix) + Seq::new(
                (v - trim_store(prefix).len()) as nat,
                |i: int| None::<MsgView>,
            ) + seq![Some(m)]);
            assert(trim_store(prefix).len() <= prefix.len());
            assert forall|i: int| 0 <= i < store.len() implies #[trigger] rebuilt[i]
                == store[i] by {
                if i < trim_store(prefix).len() {
                    assert(rebuilt[i] == trim_store(prefix)[i]);
                    assert(trim_store(prefix)[i] == prefix[i]);
                    assert(prefix[i] == store[i]);
                } else if i < v {
                    assert(rebuilt[i] is None);
                    assert(prefix[i] is None);
                    assert(store[i] == prefix[i]);
                } else {
                    assert(rebuilt[i] == Some(m));
                }
            }
            assert(rebuilt.len() == store.len());
            assert(rebuilt =~= store);
            assert(trim_store(store) == store);
        } else {
            assert(whole == rest);
            assert(trim_store(store) == trim_store(prefix));
        }
    }
}

/// Appending empty slots to a store adds no persisted entries.
pub proof fn lemma_raw_messages_pad(x: Seq<Option<MsgView>>, count: nat)
    ensures
        raw_messages_of(x + Seq::new(count, |i: int| None::<MsgView>)) == raw_messages_of(x),
    decreases count,
{
    if count == 0 {
        assert(x + Seq::new(0, |i: int| None::<MsgView>) =~= x);
    } else {
        let padded = x + Seq::new(count, |i: int| None::<MsgView>);
        assert(padded.last() is None);
        assert(padded.drop_last() =~= x + Seq::new((count - 1) as nat, |i: int| None::<MsgView>));
        lemma_raw_messages_pad(x, (count - 1) as nat);
    }
}

/// Rebuilding a store from well-formed entries and flattening it again
/// restores the entries exactly.
pub proof fn lemma_messages_round_trip(ms: Seq<(Seq<char>, MsgView)>)
    requires
        raw_msgs_wf(ms),
    ensures
        raw_messages_of(raw_store_of(ms)) == ms,
        raw_store_of(ms).len() == (if ms.len() == 0 {
            0int
        } else {
            dec_value(ms.last().0) + 1
        }),
        ms.len() > 0 ==> raw_store_of(ms).last() == Some(ms.last().1),
    decreases ms.len(),
{
    if ms.len() == 0 {
        assert(raw_messages_of(raw_store_of(ms)) =~= ms);
    } else {
        let rest_ms = ms.drop_last();
        assert(forall|k: int| 0 <= k < rest_ms.len() ==> #[trigger] rest_ms[k] == ms[k]);
        lemma_messages_round_trip(rest_ms);
        let rebuilt_rest = raw_store_of(rest_ms);
        let v = dec_value(ms.last().0);
        lemma_dec_value_digits(ms.last().0);
        assert(v >= 0);
        if rest_ms.len() > 0 {
            assert(dec_value(rest_ms.last().0) < v);
        }
        assert(rebuilt_rest.len() <= v);
        let s = raw_store_of(ms);
        assert(s == rebuilt_rest + Seq::new((v - rebuilt_rest.len()) as nat, |i: int| None::<
            MsgView,
        >) + seq![Some(ms.last().1)]);
        assert(s.len() == v + 1);
        assert(s.last() == Some(ms.last().1));
        assert(s.drop_last() =~= rebuilt_rest + Seq::new(
            (v - rebuilt_rest.len()) as nat,
            |i: int| None::<MsgView>,
        ));
        lemma_raw_messages_pad(rebuilt_rest, (v - rebuilt_rest.len()) as nat);
        assert(raw_messages_of(s.drop_last()) == rest_ms);
        assert(raw_messages_of(s) == rest_ms.push((dec_digits((s.len() - 1) as nat), ms.last().1)));
        assert(dec_digits(v as nat) == ms.last().0);
        assert(raw_messages_of(s) =~= ms);
    }
}

/// A configuration table is faithful for a conversation when every agent's
/// configuration is exactly what a lookup of its display name recovers.
pub open spec fn configs_faithful(c: ChatView, configs: Seq<(NameView, ConfigView)>) -> bool {
    forall|i: int| 0 <= i < c.agents.len() ==> lookup_config(
        configs,
        (#[trigger] c.agents[i]).config.name,
    ) == Some(c.agents[i].config)
}

/// Round trip of the rich direction: flattening a well-formed conversation
/// graph and rehydrating it against a faithful configuration table
/// reproduces the graph — same identifiers, same histories, same message
/// content.  The one shape not restored is a store whose *last* minted
/// message was removed: such trailing empty slots are not persisted.
pub proof fn lemma_chat_round_trip(c: ChatView, configs: Seq<(NameView, ConfigView)>)
    requires
        crate::chat::agents_wf(c.agents, c.store),
        c.store.len() == 0 || c.store.last() is Some,
        c.store.len() <= usize::MAX as int + 1,
        configs_faithful(c, configs),
    ensures
        raw_chat_wf(chat_to_raw_spec(c), configs),
        raw_to_chat_spec(chat_to_raw_spec(c), configs) == c,
{
    let r = chat_to_raw_spec(c);
    lemma_raw_messages_props(c.store);
    lemma_store_round_trip(c.store);
    lemma_trim_props(c.store);
    assert(raw_store_of(r.messages) == c.store);
    assert(raw_msgs_wf(r.messages)) by {
        assert forall|k: int| 0 <= k < r.messages.len() implies valid_dec(
            (#[trigger] r.messages[k]).0,
        ) && dec_value(r.messages[k].0) <= usize::MAX as int by {
            assert(dec_value(r.messages[k].0) < c.store.len());
        }
    }
    assert(r.agents == raw_agents_of(c.agents));
    assert forall|k: int| 0 <= k < r.agents.len() implies (#[trigger] r.agents[k]).0
        == dec_digits(k as nat) && r.agents[k].1.id == k && lookup_config(
        configs,
        r.agents[k].1.name,
    ) is Some by {
        assert(r.agents[k] == (dec_digits(c.agents[k].id as nat), raw_inst_of(c.agents[k])));
        assert(c.agents[k].id == k);
    }
    assert forall|k: int, j: int|
        0 <= k < r.agents.len() && 0 <= j < r.agents[k].1.history.len() implies valid_dec(
        #[trigger] r.agents[k].1.history[j],
    ) && dec_value(r.agents[k].1.history[j]) <= usize::MAX as int && store_contains(
        raw_store_of(r.messages),
        dec_value(r.agents[k].1.history[j]),
    ) by {
        assert(r.agents[k] == (dec_digits(c.agents[k].id as nat), raw_inst_of(c.agents[k])));
        let id = c.agents[k].history[j];
        assert(store_contains(c.store, id));
        assert(r.agents[k].1.history[j] == dec_digits(id as nat));
        lemma_dec_digits_value(id as nat);
    }
    assert(raw_chat_wf(r, configs));
    let back = raw_to_chat_spec(r, configs);
    assert forall|k: int| 0 <= k < back.agents.len() implies #[trigger] back.agents[k]
        == c.agents[k] by {
        assert(r.agents[k] == (dec_digits(c.agents[k].id as nat), raw_inst_of(c.agents[k])));
        assert(lookup_config(configs, r.agents[k].1.name) == Some(c.agents[k].config));
        assert forall|j: int| #![trigger c.agents[k].history[j]] 0 <= j < c.agents[k].history.len()
            implies r.agents[k].1.history.map_values(|s: Seq<char>| dec_value(s))[j]
            == c.agents[k].history[j] by {
            let id = c.agents[k].history[j];
            assert(store_contains(c.store, id));
            assert(r.agents[k].1.history[j] == dec_digits(id as nat));
            lemma_dec_digits_value(id as nat);
        }
        assert(r.agents[k].1.history.map_values(|s: Seq<char>| dec_value(s))
            =~= c.agents[k].history);
    }
    assert(back.agents =~= c.agents);
    assert(back == c);
}

/// Round trip of the raw direction: rehydrating a well-formed persisted
/// conversation and flattening it again reproduces the persisted form
/// exactly, provided each configuration carries the display name it is
/// filed under.
pub proof fn lemma_raw_round_trip(r: RawChatView, configs: Seq<(NameView, ConfigView)>)
    requires
        raw_chat_wf(r, configs),
        forall|k: int| 0 <= k < r.agents.len() ==> (lookup_config(
            configs,
            (#[trigger] r.agents[k]).1.name,
        ))->Some_0.name == r.agents[k].1.name,
    ensures
        chat_to_raw_spec(raw_to_chat_spec(r, configs)) == r,
{
    let c = raw_to_chat_spec(r, configs);
    lemma_messages_round_trip(r.messages);
    assert(c.store == raw_store_of(r.messages));
    assert(raw_messages_of(c.store) == r.messages);
    let again = chat_to_raw_spec(c);
    assert forall|k: int| 0 <= k < again.agents.len() implies #[trigger] again.agents[k]
        == r.agents[k] by {
        assert(c.agents[k] == (InstanceView {
            id: k,
            config: lookup_config(configs, r.agents[k].1.name)->Some_0,
            history: r.agents[k].1.history.map_values(|s: Seq<char>| dec_value(s)),
        }));
        assert(again.agents[k] == (dec_digits(c.agents[k].id as nat), raw_inst_of(c.agents[k])));
        assert(r.agents[k].0 == dec_digits(k as nat));
        assert(c.agents[k].config.name == r.agents[k].1.name);
        assert forall|j: int| 0 <= j < r.agents[k].1.history.len()
            implies #[trigger] raw_history_of(c.agents[k].history)[j] == r.agents[k].1.history[j] by {
            let s = r.agents[k].1.history[j];
            assert(valid_dec(s));
            lemma_dec_value_digits(s);
            assert(c.agents[k].history[j] == dec_value(s));
        }
        assert(raw_history_of(c.agents[k].history) =~= r.agents[k].1.history);
    }
    assert(again.agents =~= r.agents);
    assert(again == r);
}

} // verus!
