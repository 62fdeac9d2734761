//! The request-dispatch protocol: one user submission per turn is fanned out
//! to every assistant agent, each reply streams into a placeholder message,
//! and the completed replies are linearized by completion order into every
//! assistant's history.
//!
//! The functions here are the synchronous decision steps of the protocol;
//! a driver performs the network streaming between them and hands each
//! received fragment back in.  A [`Turn`] value is live exactly while a turn
//! is streaming: while one exists for a conversation, new user submissions
//! and conversation switches must be rejected.

use vstd::prelude::*;

use vstd::multiset::Multiset;

use crate::agents::{AgentID, InstanceView};
use crate::auth::Auth;
use crate::chat::{
    Chat, ChatView, MessageID, MessageManager, assistant_ids_spec, ids_view, is_user_inst,
    role_ids, sole_user, store_at, store_contains, user_ids_spec,
};
use crate::MsgRole;
use crate::msg::{ChatMsg, MsgView, assistant_msg, author_of, user_msg};

verus! {

/// Why a dispatch was refused.  A refusal aborts the turn before any
/// mutation of the conversation.
#[derive(Clone, Copy, Debug, PartialEq, Eq, Structural)]
pub enum DispatchError {
    /// No credentials are configured for the generation service.
    NoCredentials,
    /// The conversation does not hold exactly one user agent.
    UserAgentCardinality,
}

/// One completed reply: the assistant, its reply message, and the completion
/// sequence number assigned when its stream finished.
pub type Reply = (AgentID, MessageID, usize);

/// The in-flight state of one turn, handed out by [`begin_turn`] and
/// consumed by [`finish_turn`].
pub struct Turn {
    /// The sole user agent of the conversation.
    pub user_agent: AgentID,
    /// The assistant agents the request was fanned out to.
    pub assistants: Vec<AgentID>,
    /// The user message every agent replies from.
    pub user_msg_id: MessageID,
    /// The reply placeholders opened so far, one per assistant.
    pub opened: Vec<(AgentID, MessageID)>,
    /// The completion records gathered so far, in completion order.
    pub replies: Vec<Reply>,
}

/// Whether agent index `i` already has a reply placeholder in this turn.
pub open spec fn opened_agent(t: &Turn, i: int) -> bool {
    exists|k: int| 0 <= k < t.opened@.len() && (#[trigger] t.opened@[k]).0@ == i
}

impl Turn {
    /// The tie between a live turn and its conversation.
    pub open spec fn wf(&self, c: ChatView) -> bool {
        &&& 0 <= self.user_agent@ < c.agents.len()
        &&& is_user_inst(c.agents[self.user_agent@])
        &&& ids_view(self.assistants@) == assistant_ids_spec(c)
        &&& store_contains(c.store, self.user_msg_id@)
        &&& store_at(c.store, self.user_msg_id@).role is User
        &&& forall|k: int| 0 <= k < self.opened@.len() ==> ids_view(self.assistants@).contains(
            (#[trigger] self.opened@[k]).0@,
        )
        &&& forall|k: int| 0 <= k < self.opened@.len() ==> (#[trigger] self.opened@[k]).1@
            > self.user_msg_id@
        &&& forall|k: int| 0 <= k < self.opened@.len() ==> store_contains(
            c.store,
            (#[trigger] self.opened@[k]).1@,
        )
        &&& forall|k1: int, k2: int| 0 <= k1 < k2 < self.opened@.len() ==> (
        #[trigger] self.opened@[k1]).0@ != (#[trigger] self.opened@[k2]).0@
        &&& forall|i: int, j: int|
            0 <= i < c.agents.len() && !is_user_inst(c.agents[i]) && !opened_agent(self, i) && 0
                <= j < c.agents[i].history.len() ==> #[trigger] c.agents[i].history[j]
                <= self.user_msg_id@
        &&& forall|k: int| 0 <= k < self.replies@.len() ==> (#[trigger] self.replies@[k]).2
            == k
        &&& forall|k: int| #![trigger self.replies@[k]] 0 <= k < self.replies@.len() ==> (exists|
            j: int,
        | 0 <= j < self.opened@.len() && (#[trigger] self.opened@[j]).0 == self.replies@[k].0
            && self.opened@[j].1 == self.replies@[k].1)
        &&& forall|k1: int, k2: int| 0 <= k1 < k2 < self.replies@.len() ==> (
        #[trigger] self.replies@[k1]).0 != (#[trigger] self.replies@[k2]).0
    }
}

/// The names a conversation's agents carry never cross their role defaults:
/// a user agent is never named by the assistant default, nor an assistant by
/// the user default.
pub open spec fn names_ok(c: ChatView) -> bool {
    forall|i: int| 0 <= i < c.agents.len() ==> ((is_user_inst(#[trigger] c.agents[i])
        ==> !((c.agents[i]).config.name is AssistantDefault)) && (!is_user_inst(c.agents[i])
        ==> !((c.agents[i]).config.name is UserDefault)))
}

/// The role projection of an agent table where every agent sits at the index
/// its identity names: each projected identity is a valid index, holds the
/// requested role, and the projection is strictly increasing.
pub proof fn lemma_role_ids_props(agents: Seq<InstanceView>, want_user: bool)
    requires
        forall|i: int| 0 <= i < agents.len() ==> (#[trigger] agents[i]).id == i,
    ensures
        forall|k: int| 0 <= k < role_ids(agents, want_user).len() ==> 0 <= #[trigger] role_ids(
            agents,
            want_user,
        )[k] < agents.len(),
        forall|k: int| 0 <= k < role_ids(agents, want_user).len() ==> is_user_inst(
            agents[role_ids(agents, want_user)[k]],
        ) == want_user,
        forall|k1: int, k2: int| 0 <= k1 < k2 < role_ids(agents, want_user).len()
            ==> #[trigger] role_ids(agents, want_user)[k1] < #[trigger] role_ids(
            agents,
            want_user,
        )[k2],
    decreases agents.len(),
{
    if agents.len() > 0 {
        let prefix = agents.drop_last();
        assert(forall|i: int| 0 <= i < prefix.len() ==> (#[trigger] prefix[i]).id == i);
        lemma_role_ids_props(prefix, want_user);
        assert(agents.last().id == agents.len() - 1);
        let rest = role_ids(prefix, want_user);
        let whole = role_ids(agents, want_user);
        if is_user_inst(agents.last()) == want_user {
            assert(whole == rest.push(agents.last().id));
        } else {
            assert(whole == rest);
        }
        assert forall|k: int| 0 <= k < whole.len() implies 0 <= #[trigger] whole[k]
            < agents.len() && is_user_inst(agents[whole[k]]) == want_user by {
            if k < rest.len() {
                assert(whole[k] == rest[k]);
                assert(agents[rest[k]] == prefix[rest[k]]);
            } else {
                assert(whole[k] == agents.last().id);
            }
        }
        assert forall|k1: int, k2: int| 0 <= k1 < k2 < whole.len() implies #[trigger] whole[k1]
            < #[trigger] whole[k2] by {
            if k2 < rest.len() {
            } else {
                assert(whole[k1] == rest[k1]);
                assert(rest[k1] < prefix.len());
            }
        }
    }
}

/// Two agent tables of the same roles and identities project the same role
/// identities, whatever their histories hold.
pub proof fn lemma_role_ids_same_roles(a1: Seq<InstanceView>, a2: Seq<InstanceView>, want_user: bool)
    requires
        a1.len() == a2.len(),
        forall|i: int| 0 <= i < a1.len() ==> (#[trigger] a1[i]).id == a2[i].id && a1[i].config.agent_type
            == a2[i].config.agent_type,
    ensures
        role_ids(a1, want_user) == role_ids(a2, want_user),
    decreases a1.len(),
{
    if a1.len() > 0 {
        let p1 = a1.drop_last();
        let p2 = a2.drop_last();
        assert(forall|i: int| 0 <= i < p1.len() ==> (#[trigger] p1[i]).id == p2[i].id
            && p1[i].config.agent_type == p2[i].config.agent_type);
        lemma_role_ids_same_roles(p1, p2, want_user);
        assert(a1.last().id == a2.last().id);
        assert(is_user_inst(a1.last()) == is_user_inst(a2.last()));
    }
}

/// How often `x` occurs in a history.
pub open spec fn occurrences(s: Seq<int>, x: int) -> nat {
    s.to_multiset().count(x)
}

/// Appending a value that a sequence nowhere holds makes it occur exactly
/// once.
pub proof fn lemma_occurrences_push_fresh(s: Seq<int>, x: int)
    requires
        forall|j: int| 0 <= j < s.len() ==> #[trigger] s[j] != x,
    ensures
        occurrences(s.push(x), x) == 1,
{
    broadcast use vstd::seq_lib::group_to_multiset_ensures;
    broadcast use vstd::multiset::group_multiset_axioms;

    assert(!s.contains(x));
    assert(s.to_multiset().count(x) == 0);
    assert(s.push(x).to_multiset() == s.to_multiset().insert(x));
}

/// Appends one message reference to the history of the agent `agent_id`
/// names, leaving everything else in the conversation untouched.
pub fn push_history(chat: &mut Chat, agent_id: &AgentID, msg_id: MessageID)
    requires
        0 <= agent_id@ < old(chat)@.agents.len(),
    ensures
        final(chat)@.agents == old(chat)@.agents.update(agent_id@, InstanceView {
            id: old(chat)@.agents[agent_id@].id,
            config: old(chat)@.agents[agent_id@].config,
            history: old(chat)@.agents[agent_id@].history.push(msg_id@),
        }),
        final(chat)@.store == old(chat)@.store,
        final(chat)@.topic == old(chat)@.topic,
        final(chat)@.date == old(chat)@.date,
        final(chat)@.id == old(chat)@.id,
{
    let idx = agent_id.id;
    let mut inst = chat.agents[idx].clone();
    inst.history.push(msg_id);
    proof {
        assert(inst@.history =~= old(chat)@.agents[agent_id@].history.push(msg_id@));
    }
    chat.agents.set(idx, inst);
    proof {
        assert(chat@.agents =~= old(chat)@.agents.update(agent_id@, InstanceView {
            id: old(chat)@.agents[agent_id@].id,
            config: old(chat)@.agents[agent_id@].config,
            history: old(chat)@.agents[agent_id@].history.push(msg_id@),
        }));
    }
}

/// Opens a turn: resolves the sole user agent and the assistants, inserts
/// the user's message into the shared store, and appends it to every
/// agent's history, establishing the shared causal point all assistants
/// reply from.  Missing credentials or a violated single-user invariant
/// abort the turn before any mutation.
///
/// The inserted user message appears in the history of the user agent and
/// of every assistant agent exactly once.
pub fn begin_turn(chat: &mut Chat, auth: &Option<Auth>, request: String) -> (r: Result<
    Turn,
    DispatchError,
>)
    requires
        old(chat).wf(),
        names_ok(old(chat)@),
    ensures
        r is Err ==> final(chat)@ == old(chat)@,
        r == Err::<Turn, DispatchError>(DispatchError::NoCredentials) <==> auth is None,
        auth is Some ==> (r == Err::<Turn, DispatchError>(DispatchError::UserAgentCardinality)
            <==> !sole_user(old(chat)@)),
        r is Ok <==> auth is Some && sole_user(old(chat)@),
        r is Ok ==> ({
            let t = r->Ok_0;
            &&& final(chat).wf()
            &&& names_ok(final(chat)@)
            &&& t.wf(final(chat)@)
            &&& t.user_agent@ == user_ids_spec(old(chat)@)[0]
            &&& ids_view(t.assistants@) == assistant_ids_spec(old(chat)@)
            &&& user_ids_spec(final(chat)@) == user_ids_spec(old(chat)@)
            &&& assistant_ids_spec(final(chat)@) == assistant_ids_spec(old(chat)@)
            &&& t.user_msg_id@ == old(chat)@.store.len()
            &&& t.opened@ == Seq::<(AgentID, MessageID)>::empty()
            &&& t.replies@ == Seq::<Reply>::empty()
            &&& final(chat)@.store == old(chat)@.store.push(Some(MsgView {
                role: MsgRole::User,
                content: request@,
                author: author_of(old(chat)@.agents[t.user_agent@].config.name),
            }))
            &&& final(chat)@.agents.len() == old(chat)@.agents.len()
            &&& forall|i: int| 0 <= i < old(chat)@.agents.len() ==> (
            #[trigger] final(chat)@.agents[i]) == (InstanceView {
                id: old(chat)@.agents[i].id,
                config: old(chat)@.agents[i].config,
                history: old(chat)@.agents[i].history.push(t.user_msg_id@),
            })
            &&& forall|i: int| 0 <= i < final(chat)@.agents.len() ==> occurrences(
                (#[trigger] final(chat)@.agents[i]).history,
                t.user_msg_id@,
            ) == 1
            &&& final(chat)@.topic == old(chat)@.topic
            &&& final(chat)@.date == old(chat)@.date
            &&& final(chat)@.id == old(chat)@.id
        }),
{
    if auth.is_none() {
        return Err(DispatchError::NoCredentials);
    }
    let users = chat.user_agent_ids();
    if users.len() != 1 {
        return Err(DispatchError::UserAgentCardinality);
    }
    let user_agent = users[0];
    proof {
        lemma_role_ids_props(old(chat)@.agents, true);
        assert(ids_view(users@)[0] == users@[0]@);
        assert(user_agent@ == user_ids_spec(old(chat)@)[0]);
    }
    let user_name = chat.agents[user_agent.id].get_name();
    let user_query = user_msg(request, user_name);
    let user_msg_id = chat.message_manager.insert(user_query);
    let ghost store1 = chat@.store;
    let n = chat.agents.len();
    let mut i: usize = 0;
    while i < n
        invariant
            n as int == chat@.agents.len(),
            i <= n,
            chat@.store == store1,
            chat@.topic == old(chat)@.topic,
            chat@.date == old(chat)@.date,
            chat@.id == old(chat)@.id,
            chat@.agents.len() == old(chat)@.agents.len(),
            user_msg_id@ == old(chat)@.store.len(),
            forall|j: int| 0 <= j < i as int ==> (#[trigger] chat@.agents[j]) == (InstanceView {
                id: old(chat)@.agents[j].id,
                config: old(chat)@.agents[j].config,
                history: old(chat)@.agents[j].history.push(user_msg_id@),
            }),
            forall|j: int| i as int <= j < n as int ==> (#[trigger] chat@.agents[j])
                == old(chat)@.agents[j],
        decreases n - i,
    {
        push_history(chat, &AgentID { id: i }, user_msg_id);
        i += 1;
    }
    let assistants = chat.assistant_agent_ids();
    let turn = Turn {
        user_agent,
        assistants,
        user_msg_id,
        opened: Vec::new(),
        replies: Vec::new(),
    };
    proof {
        let c0 = old(chat)@;
        let c1 = chat@;
        lemma_role_ids_same_roles(c1.agents, c0.agents, true);
        lemma_role_ids_same_roles(c1.agents, c0.agents, false);
        // structural integrity: the old references are still present in the
        // extended store, and the new reference is the pushed message
        assert forall|i2: int, j: int|
            0 <= i2 < c1.agents.len() && 0 <= j < c1.agents[i2].history.len() implies store_contains(
            c1.store,
            #[trigger] c1.agents[i2].history[j],
        ) by {
            if j < c1.agents[i2].history.len() - 1 {
                assert(c1.agents[i2].history[j] == c0.agents[i2].history[j]);
            } else {
                assert(c1.agents[i2].history[j] == user_msg_id@);
            }
        }
        // the user message is fresh to every history, so it occurs once
        assert forall|i2: int| 0 <= i2 < c1.agents.len() implies occurrences(
            (#[trigger] c1.agents[i2]).history,
            user_msg_id@,
        ) == 1 by {
            assert(forall|j: int| 0 <= j < c0.agents[i2].history.len()
                ==> #[trigger] c0.agents[i2].history[j] != user_msg_id@);
            lemma_occurrences_push_fresh(c0.agents[i2].history, user_msg_id@);
        }
    }
    Ok(turn)
}

/// The ordered message contents an agent's history refers to: the request
/// context sent to the generation service.
pub open spec fn context_of(c: ChatView, i: int) -> Seq<MsgView> {
    c.agents[i].history.map_values(|id: int| store_at(c.store, id))
}

/// The models of a vector of messages.
pub open spec fn msgs_view(s: Seq<ChatMsg>) -> Seq<MsgView> {
    s.map_values(|m: ChatMsg| m@)
}

/// Resolves a history into the ordered list of messages it references.
pub fn map_chat_messages(chat_msgs: &Vec<MessageID>, message_manager: &MessageManager) -> (r: Vec<
    ChatMsg,
>)
    requires
        forall|k: int| 0 <= k < chat_msgs@.len() ==> store_contains(
            message_manager@,
            (#[trigger] chat_msgs@[k])@,
        ),
    ensures
        msgs_view(r@) == crate::agents::history_view(chat_msgs@).map_values(
            |id: int| store_at(message_manager@, id),
        ),
{
    let mut out: Vec<ChatMsg> = Vec::new();
    let mut i: usize = 0;
    while i < chat_msgs.len()
        invariant
            i <= chat_msgs.len(),
            forall|k: int| 0 <= k < chat_msgs@.len() ==> store_contains(
                message_manager@,
                (#[trigger] chat_msgs@[k])@,
            ),
            out@.len() == i as int,
            msgs_view(out@) =~= crate::agents::history_view(chat_msgs@.take(i as int)).map_values(
                |id: int| store_at(message_manager@, id),
            ),
        decreases chat_msgs.len() - i,
    {
        let ghost out0 = out@;
        let m = match message_manager.get(&chat_msgs[i]) {
            Some(m) => m.clone(),
            None => {
                // excluded by the precondition: every reference is present
                proof {
                    assert(false);
                }
                crate::msg::sys_msg(String::new())
            },
        };
        out.push(m);
        proof {
            assert(m@ == store_at(message_manager@, chat_msgs@[i as int]@));
            assert(crate::agents::history_view(chat_msgs@.take(i as int + 1))
                =~= crate::agents::history_view(chat_msgs@.take(i as int)).push(chat_msgs@[
                i as int]@));
            assert forall|k: int| 0 <= k < out@.len() implies #[trigger] msgs_view(out@)[k]
                == crate::agents::history_view(chat_msgs@.take(i as int + 1)).map_values(
                |id: int| store_at(message_manager@, id),
            )[k] by {
                if k < i as int {
                    assert(out@[k] == out0[k]);
                    assert(msgs_view(out0)[k] == crate::agents::history_view(chat_msgs@.take(
                        i as int,
                    )).map_values(|id: int| store_at(message_manager@, id))[k]);
                } else {
                    assert(out@[k] == m);
                }
            }
            assert(msgs_view(out@) =~= crate::agents::history_view(chat_msgs@.take(
                i as int + 1,
            )).map_values(|id: int| store_at(message_manager@, id)));
        }
        i += 1;
    }
    proof {
        assert(chat_msgs@.take(chat_msgs@.len() as int) =~= chat_msgs@);
    }
    out
}

/// Opens one assistant's reply: builds the request context from that
/// assistant's *own* history, inserts an empty placeholder message, and
/// appends the placeholder to the assistant's and the user's histories only.
///
/// Isolation: every message the context draws from predates the turn's user
/// message, so no reply of the same turn — this assistant's or a sibling's —
/// can appear in it.
pub fn open_reply(chat: &mut Chat, turn: &mut Turn, assistant: AgentID) -> (r: (
    Vec<ChatMsg>,
    MessageID,
))
    requires
        old(chat).wf(),
        names_ok(old(chat)@),
        old(turn).wf(old(chat)@),
        ids_view(old(turn).assistants@).contains(assistant@),
        !opened_agent(old(turn), assistant@),
    ensures
        final(chat).wf(),
        names_ok(final(chat)@),
        user_ids_spec(final(chat)@) == user_ids_spec(old(chat)@),
        assistant_ids_spec(final(chat)@) == assistant_ids_spec(old(chat)@),
        final(turn).wf(final(chat)@),
        msgs_view(r.0@) == context_of(old(chat)@, assistant@),
        forall|k: int| 0 <= k < old(chat)@.agents[assistant@].history.len()
            ==> #[trigger] old(chat)@.agents[assistant@].history[k] <= old(turn).user_msg_id@,
        r.1@ == old(chat)@.store.len(),
        final(chat)@.store == old(chat)@.store.push(Some(MsgView {
            role: MsgRole::Assistant,
            content: Seq::empty(),
            author: author_of(old(chat)@.agents[assistant@].config.name),
        })),
        final(chat)@.agents == old(chat)@.agents.update(assistant@, InstanceView {
            id: old(chat)@.agents[assistant@].id,
            config: old(chat)@.agents[assistant@].config,
            history: old(chat)@.agents[assistant@].history.push(r.1@),
        }).update(old(turn).user_agent@, InstanceView {
            id: old(chat)@.agents[old(turn).user_agent@].id,
            config: old(chat)@.agents[old(turn).user_agent@].config,
            history: old(chat)@.agents[old(turn).user_agent@].history.push(r.1@),
        }),
        final(chat)@.topic == old(chat)@.topic,
        final(chat)@.date == old(chat)@.date,
        final(chat)@.id == old(chat)@.id,
        final(turn).user_agent == old(turn).user_agent,
        final(turn).assistants@ == old(turn).assistants@,
        final(turn).user_msg_id == old(turn).user_msg_id,
        final(turn).opened@ == old(turn).opened@.push((assistant, r.1)),
        final(turn).replies@ == old(turn).replies@,
{
    proof {
        lemma_role_ids_props(old(chat)@.agents, false);
        assert(0 <= assistant@ < old(chat)@.agents.len());
        assert(!is_user_inst(old(chat)@.agents[assistant@]));
        assert(old(chat)@.agents[assistant@].id == assistant@);
    }
    let idx = assistant.id;
    proof {
        assert forall|k: int| 0 <= k < chat.agents@[idx as int].history@.len() implies store_contains(
            chat.message_manager@,
            (#[trigger] chat.agents@[idx as int].history@[k])@,
        ) by {
            assert(chat@.agents[idx as int].history[k] == chat.agents@[idx as int].history@[k]@);
            assert(store_contains(chat@.store, chat@.agents[idx as int].history[k]));
        }
    }
    let context = map_chat_messages(&chat.agents[idx].history, &chat.message_manager);
    let agent_name = chat.agents[idx].get_name();
    let placeholder = chat.message_manager.insert(assistant_msg(String::new(), agent_name));
    push_history(chat, &assistant, placeholder);
    push_history(chat, &turn.user_agent, placeholder);
    turn.opened.push((assistant, placeholder));
    proof {
        let c0 = old(chat)@;
        let c1 = chat@;
        let t0 = old(turn);
        assert(c1.agents.len() == c0.agents.len());
        assert(is_user_inst(c0.agents[t0.user_agent@]));
        assert(t0.user_agent@ != assistant@);
        lemma_role_ids_same_roles(c1.agents, c0.agents, true);
        lemma_role_ids_same_roles(c1.agents, c0.agents, false);
        // structural integrity of the two extended histories
        assert forall|i2: int, j: int|
            0 <= i2 < c1.agents.len() && 0 <= j < c1.agents[i2].history.len() implies store_contains(
            c1.store,
            #[trigger] c1.agents[i2].history[j],
        ) by {
            if (i2 == assistant@ || i2 == t0.user_agent@) && j == c1.agents[i2].history.len()
                - 1 {
                assert(c1.agents[i2].history[j] == placeholder@);
            } else {
                assert(c1.agents[i2].history[j] == c0.agents[i2].history[j]);
            }
        }
        // the new placeholder's agent was not opened before, so the opened
        // agents stay distinct, and every still-unopened assistant's history
        // is untouched
        assert(turn.opened@.last() == (assistant, placeholder));
        assert forall|i2: int, j: int|
            0 <= i2 < c1.agents.len() && !is_user_inst(c1.agents[i2]) && !opened_agent(
                turn,
                i2,
            ) && 0 <= j < c1.agents[i2].history.len() implies #[trigger] c1.agents[i2].history[j]
            <= turn.user_msg_id@ by {
            if opened_agent(t0, i2) {
                let k = choose|k: int| 0 <= k < t0.opened@.len() && (#[trigger] t0.opened@[k]).0@
                    == i2;
                assert(turn.opened@[k].0@ == i2);
                assert(opened_agent(turn, i2));
            }
            assert(!opened_agent(t0, i2));
            assert(turn.opened@[t0.opened@.len() as int].0@ == assistant@);
            assert(i2 != assistant@);
            assert(c1.agents[i2].history == c0.agents[i2].history);
        }
        // completion records still cite their placeholder: the opened list
        // only grew at the end
        assert forall|k: int| #![trigger turn.replies@[k]] 0 <= k < turn.replies@.len() implies (
        exists|j: int|
            0 <= j < turn.opened@.len() && (#[trigger] turn.opened@[j]).0 == turn.replies@[k].0
                && turn.opened@[j].1 == turn.replies@[k].1) by {
            assert(t0.replies@[k] == turn.replies@[k]);
            let j = choose|j: int|
                0 <= j < t0.opened@.len() && (#[trigger] t0.opened@[j]).0 == t0.replies@[k].0
                    && t0.opened@[j].1 == t0.replies@[k].1;
            assert(turn.opened@[j] == t0.opened@[j]);
        }
        assert(msgs_view(context@) =~= context_of(c0, assistant@));
    }
    (context, placeholder)
}

/// Appends one streamed fragment to a reply message in place.  The exclusive
/// access a driver must hold spans only this in-memory append, never a
/// network wait.
pub fn apply_delta(chat: &mut Chat, id: &MessageID, delta: &str)
    requires
        store_contains(old(chat)@.store, id@),
    ensures
        final(chat)@.store == old(chat)@.store.update(id@, Some(MsgView {
            role: store_at(old(chat)@.store, id@).role,
            content: store_at(old(chat)@.store, id@).content + delta@,
            author: store_at(old(chat)@.store, id@).author,
        })),
        final(chat)@.agents == old(chat)@.agents,
        final(chat)@.topic == old(chat)@.topic,
        final(chat)@.date == old(chat)@.date,
        final(chat)@.id == old(chat)@.id,
{
    chat.message_manager.append_delta(id, delta);
}

/// The concatenation of a sequence of fragments.
pub open spec fn concat_all(deltas: Seq<Seq<char>>) -> Seq<char>
    decreases deltas.len(),
{
    if deltas.len() == 0 {
        Seq::empty()
    } else {
        concat_all(deltas.drop_last()) + deltas.last()
    }
}

/// Streaming monotonicity: applying fragments in receipt order leaves the
/// message holding exactly their concatenation, appended to what it held
/// before, whatever the timing between the applications was.
pub fn apply_deltas(chat: &mut Chat, id: &MessageID, deltas: &Vec<String>)
    requires
        store_contains(old(chat)@.store, id@),
    ensures
        final(chat)@.store == old(chat)@.store.update(id@, Some(MsgView {
            role: store_at(old(chat)@.store, id@).role,
            content: store_at(old(chat)@.store, id@).content + concat_all(deltas@.map_values(
                |s: String| s@,
            )),
            author: store_at(old(chat)@.store, id@).author,
        })),
        final(chat)@.agents == old(chat)@.agents,
        final(chat)@.topic == old(chat)@.topic,
        final(chat)@.date == old(chat)@.date,
        final(chat)@.id == old(chat)@.id,
{
    let ghost all = deltas@.map_values(|s: String| s@);
    let mut i: usize = 0;
    while i < deltas.len()
        invariant
            i <= deltas.len(),
            all == deltas@.map_values(|s: String| s@),
            store_contains(old(chat)@.store, id@),
            store_contains(chat@.store, id@),
            chat@.store =~= old(chat)@.store.update(id@, Some(MsgView {
                role: store_at(old(chat)@.store, id@).role,
                content: store_at(old(chat)@.store, id@).content + concat_all(all.take(i as int)),
                author: store_at(old(chat)@.store, id@).author,
            })),
            chat@.agents == old(chat)@.agents,
            chat@.topic == old(chat)@.topic,
            chat@.date == old(chat)@.date,
            chat@.id == old(chat)@.id,
        decreases deltas.len() - i,
    {
        apply_delta(chat, id, deltas[i].as_str());
        proof {
            assert(all.take(i as int + 1).drop_last() =~= all.take(i as int));
            assert(all.take(i as int + 1).last() == deltas@[i as int]@);
            assert(store_at(old(chat)@.store, id@).content + concat_all(all.take(i as int + 1))
                =~= store_at(old(chat)@.store, id@).content + concat_all(all.take(i as int))
                + deltas@[i as int]@);
            assert(chat@.store =~= old(chat)@.store.update(id@, Some(MsgView {
                role: store_at(old(chat)@.store, id@).role,
                content: store_at(old(chat)@.store, id@).content + concat_all(all.take(
                    i as int + 1,
                )),
                author: store_at(old(chat)@.store, id@).author,
            })));
        }
        i += 1;
    }
    proof {
        assert(all.take(deltas@.len() as int) =~= all);
        assert(chat@.store =~= old(chat)@.store.update(id@, Some(MsgView {
            role: store_at(old(chat)@.store, id@).role,
            content: store_at(old(chat)@.store, id@).content + concat_all(all),
            author: store_at(old(chat)@.store, id@).author,
        })));
    }
}

/// Records that an assistant's stream finished — successfully or not — and
/// atomically assigns it the next completion sequence number.
pub fn complete_reply(turn: &mut Turn, assistant: AgentID, reply: MessageID) -> (order: usize)
    requires
        exists|j: int| 0 <= j < old(turn).opened@.len() && (#[trigger] old(turn).opened@[j]).0
            == assistant && old(turn).opened@[j].1 == reply,
        forall|k: int| 0 <= k < old(turn).replies@.len() ==> (#[trigger] old(turn).replies@[k]).0
            != assistant,
    ensures
        order == old(turn).replies@.len(),
        final(turn).replies@ == old(turn).replies@.push((assistant, reply, order)),
        final(turn).user_agent == old(turn).user_agent,
        final(turn).assistants@ == old(turn).assistants@,
        final(turn).user_msg_id == old(turn).user_msg_id,
        final(turn).opened@ == old(turn).opened@,
        forall|c: ChatView| old(turn).wf(c) ==> #[trigger] final(turn).wf(c),
    {
    let order = turn.replies.len();
    turn.replies.push((assistant, reply, order));
    proof {
        let t0 = old(turn);
        assert forall|c: ChatView| t0.wf(c) implies #[trigger] turn.wf(c) by {
            assert(turn.replies@ == t0.replies@.push((assistant, reply, order)));
            assert forall|k: int| #![trigger turn.replies@[k]] 0 <= k < turn.replies@.len() implies (
            exists|j: int|
                0 <= j < turn.opened@.len() && (#[trigger] turn.opened@[j]).0
                    == turn.replies@[k].0 && turn.opened@[j].1 == turn.replies@[k].1) by {
                if k < t0.replies@.len() {
                    assert(turn.replies@[k] == t0.replies@[k]);
                    let j = choose|j: int|
                        0 <= j < t0.opened@.len() && (#[trigger] t0.opened@[j]).0
                            == t0.replies@[k].0 && t0.opened@[j].1 == t0.replies@[k].1;
                    assert(turn.opened@[j] == t0.opened@[j]);
                } else {
                    assert(turn.replies@[k] == (assistant, reply, order));
                    let j = choose|j: int|
                        0 <= j < t0.opened@.len() && (#[trigger] t0.opened@[j]).0 == assistant
                            && t0.opened@[j].1 == reply;
                    assert(turn.opened@[j].0 == assistant);
                }
            }
            assert forall|k1: int, k2: int| 0 <= k1 < k2 < turn.replies@.len() implies (
            #[trigger] turn.replies@[k1]).0 != (#[trigger] turn.replies@[k2]).0 by {
                if k2 == t0.replies@.len() as int {
                    assert(turn.replies@[k1] == t0.replies@[k1]);
                }
            }
        }
    }
    order
}

/// Whether a gathered reply sequence is ordered by completion number.
pub open spec fn sorted_by_order(s: Seq<Reply>) -> bool {
    forall|k1: int, k2: int| 0 <= k1 < k2 < s.len() ==> (#[trigger] s[k1]).2 <= (
    #[trigger] s[k2]).2
}

/// Whether all completion numbers in a reply sequence differ.
pub open spec fn distinct_orders(s: Seq<Reply>) -> bool {
    forall|k1: int, k2: int| 0 <= k1 < k2 < s.len() ==> (#[trigger] s[k1]).2 != (
    #[trigger] s[k2]).2
}

/// The reply messages of a reply sequence, in its order.
pub open spec fn reply_msgs(s: Seq<Reply>) -> Seq<MessageID> {
    s.map_values(|t: Reply| t.1)
}

/// What it means for `out` to linearize `input`: `out` lists the reply
/// messages of a completion-order-sorted rearrangement `s` of `input`.
pub open spec fn is_linearization(input: Seq<Reply>, s: Seq<Reply>, out: Seq<MessageID>) -> bool {
    &&& s.to_multiset() == input.to_multiset()
    &&& sorted_by_order(s)
    &&& out == reply_msgs(s)
}

/// No two distinct replies of the collection share a completion number.
pub open spec fn strictly_timed(m: Multiset<Reply>) -> bool {
    forall|r1: Reply, r2: Reply| #[trigger] m.contains(r1) && #[trigger] m.contains(r2) && r1
        != r2 ==> r1.2 != r2.2
}

/// Distinct completion numbers position-wise make the collection strictly
/// timed.
pub proof fn lemma_distinct_orders_strictly_timed(s: Seq<Reply>)
    requires
        distinct_orders(s),
    ensures
        strictly_timed(s.to_multiset()),
{
    broadcast use vstd::seq_lib::group_to_multiset_ensures;

    assert forall|r1: Reply, r2: Reply| #[trigger] s.to_multiset().contains(r1)
        && #[trigger] s.to_multiset().contains(r2) && r1 != r2 implies r1.2 != r2.2 by {
        assert(s.contains(r1));
        assert(s.contains(r2));
        let k1 = choose|k: int| 0 <= k < s.len() && s[k] == r1;
        let k2 = choose|k: int| 0 <= k < s.len() && s[k] == r2;
        assert(k1 != k2);
    }
}

/// Two completion-order-sorted rearrangements of one strictly timed
/// collection are the same sequence.
pub proof fn lemma_sorted_strictly_timed_unique(s1: Seq<Reply>, s2: Seq<Reply>)
    requires
        s1.to_multiset() == s2.to_multiset(),
        sorted_by_order(s1),
        sorted_by_order(s2),
        strictly_timed(s1.to_multiset()),
    ensures
        s1 =~= s2,
    decreases s1.len(),
{
    broadcast use vstd::seq_lib::group_to_multiset_ensures;
    broadcast use vstd::multiset::group_multiset_axioms;

    assert(s1.to_multiset().len() == s1.len());
    assert(s2.to_multiset().len() == s2.len());
    if s1.len() == 0 || s2.len() == 0 {
        assert(s1.len() == s2.len());
        assert(s1 =~= s2);
    } else {
        assert(s1.to_multiset().contains(s1[0]));
        assert(s1.to_multiset().contains(s2[0]));
        let i = choose|i: int| 0 <= i < s1.len() && s1[i] == s2[0];
        let j = choose|j: int| 0 <= j < s2.len() && s2[j] == s1[0];
        assert(s1[0].2 <= s1[i].2);
        assert(s2[0].2 <= s2[j].2);
        assert(s1[0].2 == s2[0].2);
        assert(s1[0] == s2[0]);
        assert(s1.drop_first() =~= s1.remove(0));
        assert(s2.drop_first() =~= s2.remove(0));
        vstd::seq_lib::to_multiset_remove(s1, 0);
        vstd::seq_lib::to_multiset_remove(s2, 0);
        assert(s1.drop_first().to_multiset() =~= s1.to_multiset().remove(s1[0]));
        assert(s2.drop_first().to_multiset() =~= s2.to_multiset().remove(s2[0]));
        assert forall|r1: Reply, r2: Reply| #[trigger] s1.drop_first().to_multiset().contains(
            r1,
        ) && #[trigger] s1.drop_first().to_multiset().contains(r2) && r1 != r2 implies r1.2
            != r2.2 by {
            assert(s1.to_multiset().contains(r1));
            assert(s1.to_multiset().contains(r2));
        }
        lemma_sorted_strictly_timed_unique(s1.drop_first(), s2.drop_first());
        assert(s1 =~= Seq::<Reply>::empty().push(s1.first()).add(s1.drop_first()));
        assert(s2 =~= Seq::<Reply>::empty().push(s2.first()).add(s2.drop_first()));
    }
}

/// Linearization determinism: when all completion numbers differ — strictly
/// ordered completion times — every linearization of the same collection of
/// replies yields the same message order, however the replies were gathered.
pub proof fn lemma_linearization_deterministic(
    input1: Seq<Reply>,
    input2: Seq<Reply>,
    s1: Seq<Reply>,
    s2: Seq<Reply>,
    out1: Seq<MessageID>,
    out2: Seq<MessageID>,
)
    requires
        input1.to_multiset() == input2.to_multiset(),
        distinct_orders(input1),
        is_linearization(input1, s1, out1),
        is_linearization(input2, s2, out2),
    ensures
        out1 == out2,
{
    lemma_distinct_orders_strictly_timed(input1);
    lemma_sorted_strictly_timed_unique(s1, s2);
    assert(out1 =~= out2);
}

/// Sorts the gathered replies by completion number and lists their messages
/// in that order: the single total order every participant's history will
/// see.
pub fn linearize_replies(replies: Vec<Reply>) -> (r: Vec<MessageID>)
    ensures
        r@.len() == replies@.len(),
        exists|s: Seq<Reply>| #[trigger] is_linearization(replies@, s, r@),
        sorted_by_order(replies@) && distinct_orders(replies@) ==> r@ == reply_msgs(replies@),
{
    broadcast use vstd::seq_lib::group_to_multiset_ensures;

    let mut sorted: Vec<Reply> = Vec::new();
    let mut i: usize = 0;
    while i < replies.len()
        invariant
            i <= replies.len(),
            sorted@.len() == i as int,
            sorted@.to_multiset() == replies@.take(i as int).to_multiset(),
            sorted_by_order(sorted@),
        decreases replies.len() - i,
    {
        broadcast use vstd::seq_lib::group_to_multiset_ensures;

        let x = replies[i];
        let mut j: usize = 0;
        while j < sorted.len() && sorted[j].2 <= x.2
            invariant
                j <= sorted.len(),
                forall|k: int| 0 <= k < j as int ==> (#[trigger] sorted@[k]).2 <= x.2,
            decreases sorted.len() - j,
        {
            j += 1;
        }
        let ghost sorted0 = sorted@;
        sorted.insert(j, x);
        proof {
            assert(replies@.take(i as int + 1) =~= replies@.take(i as int).push(x));
            vstd::seq_lib::to_multiset_insert(sorted0, j as int, x);
            assert(sorted@.to_multiset() == replies@.take(i as int + 1).to_multiset());
            assert forall|k1: int, k2: int| 0 <= k1 < k2 < sorted@.len() implies (
            #[trigger] sorted@[k1]).2 <= (#[trigger] sorted@[k2]).2 by {
                if k2 < j as int {
                } else if k1 > j as int {
                } else if k1 == j as int && k2 > j as int {
                    assert(sorted@[k2] == sorted0[k2 - 1]);
                    assert(j as int <= k2 - 1 < sorted0.len());
                    if (j as int) < sorted0.len() {
                        assert(sorted0[j as int].2 > x.2);
                    }
                    assert(sorted_by_order(sorted0));
                    assert(sorted0[j as int].2 <= sorted0[k2 - 1].2);
                } else if k2 == j as int {
                    assert(sorted@[k1] == sorted0[k1]);
                    assert(sorted0[k1].2 <= x.2);
                } else {
                    assert(sorted@[k1] == sorted0[k1]);
                    assert(sorted@[k2] == sorted0[k2 - 1]);
                    if k1 < j as int && (j as int) < sorted0.len() && k2 - 1 >= j as int {
                        if k1 == k2 - 1 {
                            assert(sorted0[k1].2 <= x.2);
                            assert(sorted0[j as int].2 > x.2);
                        }
                    }
                    assert(sorted0[k1].2 <= sorted0[k2 - 1].2 || k1 == k2 - 1);
                }
            }
        }
        i += 1;
    }
    proof {
        assert(replies@.take(replies@.len() as int) =~= replies@);
    }
    let mut out: Vec<MessageID> = Vec::new();
    let mut k: usize = 0;
    while k < sorted.len()
        invariant
            k <= sorted.len(),
            out@ =~= reply_msgs(sorted@.take(k as int)),
        decreases sorted.len() - k,
    {
        out.push(sorted[k].1);
        proof {
            assert(reply_msgs(sorted@.take(k as int + 1)) =~= reply_msgs(sorted@.take(
                k as int,
            )).push(sorted@[k as int].1));
        }
        k += 1;
    }
    proof {
        assert(sorted@.take(sorted@.len() as int) =~= sorted@);
        assert(out@ =~= reply_msgs(sorted@));
        assert(is_linearization(replies@, sorted@, out@));
        if sorted_by_order(replies@) && distinct_orders(replies@) {
            lemma_distinct_orders_strictly_timed(replies@);
            lemma_sorted_strictly_timed_unique(sorted@, replies@);
            assert(out@ =~= reply_msgs(replies@));
        }
    }
    out
}

/// Closes a turn once every assistant's stream has finished: linearizes the
/// replies by completion order and appends that one ordering to **every**
/// assistant's history, so each assistant subsequently sees all peers'
/// replies of this turn.  The user's history already received each reply at
/// dispatch time and is untouched.  Returns the linearized reply messages.
pub fn finish_turn(chat: &mut Chat, turn: Turn) -> (r: Vec<MessageID>)
    requires
        old(chat).wf(),
        turn.wf(old(chat)@),
        turn.replies@.len() == turn.assistants@.len(),
    ensures
        final(chat).wf(),
        names_ok(old(chat)@) ==> names_ok(final(chat)@),
        user_ids_spec(final(chat)@) == user_ids_spec(old(chat)@),
        assistant_ids_spec(final(chat)@) == assistant_ids_spec(old(chat)@),
        r@ == reply_msgs(turn.replies@),
        final(chat)@.store == old(chat)@.store,
        final(chat)@.topic == old(chat)@.topic,
        final(chat)@.date == old(chat)@.date,
        final(chat)@.id == old(chat)@.id,
        final(chat)@.agents.len() == old(chat)@.agents.len(),
        forall|i: int| 0 <= i < old(chat)@.agents.len() && !ids_view(turn.assistants@).contains(
            i,
        ) ==> #[trigger] final(chat)@.agents[i] == old(chat)@.agents[i],
        forall|i: int| 0 <= i < old(chat)@.agents.len() && ids_view(turn.assistants@).contains(i)
            ==> #[trigger] final(chat)@.agents[i] == (InstanceView {
            id: old(chat)@.agents[i].id,
            config: old(chat)@.agents[i].config,
            history: old(chat)@.agents[i].history + crate::agents::history_view(reply_msgs(
                turn.replies@,
            )),
        }),
{
    let linearized = linearize_replies_of(&turn);
    let ghost lin = crate::agents::history_view(linearized@);
    proof {
        assert forall|k: int| 0 <= k < lin.len() implies store_contains(
            old(chat)@.store,
            #[trigger] lin[k],
        ) by {
            assert(lin[k] == turn.replies@[k].1@);
            let j = choose|j: int|
                0 <= j < turn.opened@.len() && (#[trigger] turn.opened@[j]).0
                    == turn.replies@[k].0 && turn.opened@[j].1 == turn.replies@[k].1;
            assert(store_contains(old(chat)@.store, turn.opened@[j].1@));
        }
    }
    let n = turn.assistants.len();
    let mut ai: usize = 0;
    while ai < n
        invariant
            n == turn.assistants@.len(),
            ai <= n,
            old(chat).wf(),
            turn.wf(old(chat)@),
            lin == crate::agents::history_view(linearized@),
            forall|k: int| 0 <= k < lin.len() ==> store_contains(old(chat)@.store, #[trigger] lin[k]),
            chat@.store == old(chat)@.store,
            chat@.topic == old(chat)@.topic,
            chat@.date == old(chat)@.date,
            chat@.id == old(chat)@.id,
            chat@.agents.len() == old(chat)@.agents.len(),
            forall|i: int| 0 <= i < old(chat)@.agents.len() && !appended_so_far(
                turn.assistants@,
                ai as int,
                i,
            ) ==> #[trigger] chat@.agents[i] == old(chat)@.agents[i],
            forall|i: int| 0 <= i < old(chat)@.agents.len() && appended_so_far(
                turn.assistants@,
                ai as int,
                i,
            ) ==> #[trigger] chat@.agents[i] == (InstanceView {
                id: old(chat)@.agents[i].id,
                config: old(chat)@.agents[i].config,
                history: old(chat)@.agents[i].history + lin,
            }),
        decreases n - ai,
    {
        let a = turn.assistants[ai];
        proof {
            lemma_role_ids_props(old(chat)@.agents, false);
            assert(ids_view(turn.assistants@)[ai as int] == a@);
            assert(role_ids(old(chat)@.agents, false)[ai as int] == a@);
            assert(0 <= a@ < old(chat)@.agents.len());
            // earlier identities are strictly smaller, so this agent has not
            // been appended to yet
            if appended_so_far(turn.assistants@, ai as int, a@) {
                let k = choose|k: int|
                    0 <= k < ai as int && k < turn.assistants@.len() && (
                    #[trigger] turn.assistants@[k])@ == a@;
                assert(role_ids(old(chat)@.agents, false)[k] == a@);
                assert(false);
            }
            assert(chat@.agents[a@] == old(chat)@.agents[a@]);
        }
        let ghost agents_before = chat@.agents;
        let mut mi: usize = 0;
        while mi < linearized.len()
            invariant
                mi <= linearized.len(),
                0 <= a@ < chat@.agents.len(),
                lin == crate::agents::history_view(linearized@),
                chat@.agents.len() == agents_before.len(),
                chat@.store == old(chat)@.store,
                chat@.topic == old(chat)@.topic,
                chat@.date == old(chat)@.date,
                chat@.id == old(chat)@.id,
                forall|i: int| 0 <= i < agents_before.len() && i != a@
                    ==> #[trigger] chat@.agents[i] == agents_before[i],
                chat@.agents[a@] == (InstanceView {
                    id: agents_before[a@].id,
                    config: agents_before[a@].config,
                    history: agents_before[a@].history + lin.take(mi as int),
                }),
            decreases linearized.len() - mi,
        {
            push_history(chat, &a, linearized[mi]);
            proof {
                assert(agents_before[a@].history + lin.take(mi as int + 1)
                    =~= (agents_before[a@].history + lin.take(mi as int)).push(lin[mi as int]));
            }
            mi += 1;
        }
        proof {
            assert(lin.take(linearized@.len() as int) =~= lin);
            assert forall|i: int|
                0 <= i < old(chat)@.agents.len() && appended_so_far(
                    turn.assistants@,
                    ai as int + 1,
                    i,
                ) implies #[trigger] chat@.agents[i] == (InstanceView {
                id: old(chat)@.agents[i].id,
                config: old(chat)@.agents[i].config,
                history: old(chat)@.agents[i].history + lin,
            }) by {
                if i != a@ {
                    let k = choose|k: int|
                        0 <= k < ai as int + 1 && k < turn.assistants@.len() && (
                        #[trigger] turn.assistants@[k])@ == i;
                    assert(k != ai as int);
                    assert(appended_so_far(turn.assistants@, ai as int, i));
                }
            }
            assert forall|i: int|
                0 <= i < old(chat)@.agents.len() && !appended_so_far(
                    turn.assistants@,
                    ai as int + 1,
                    i,
                ) implies #[trigger] chat@.agents[i] == old(chat)@.agents[i] by {
                assert((turn.assistants@[ai as int])@ == a@);
                assert(i != a@);
                if appended_so_far(turn.assistants@, ai as int, i) {
                    let k = choose|k: int|
                        0 <= k < ai as int && k < turn.assistants@.len() && (
                        #[trigger] turn.assistants@[k])@ == i;
                    assert(appended_so_far(turn.assistants@, ai as int + 1, i));
                    assert(false);
                }
            }
        }
        ai += 1;
    }
    proof {
        let c1 = chat@;
        let c0 = old(chat)@;
        assert forall|i2: int, j: int|
            0 <= i2 < c1.agents.len() && 0 <= j < c1.agents[i2].history.len() implies store_contains(
            c1.store,
            #[trigger] c1.agents[i2].history[j],
        ) by {
            if appended_so_far(turn.assistants@, n as int, i2) {
                if j < c0.agents[i2].history.len() {
                    assert(c1.agents[i2].history[j] == c0.agents[i2].history[j]);
                } else {
                    assert(c1.agents[i2].history[j] == lin[j - c0.agents[i2].history.len()]);
                }
            } else {
                assert(c1.agents[i2] == c0.agents[i2]);
            }
        }
        assert forall|i: int|
            0 <= i < old(chat)@.agents.len() && ids_view(turn.assistants@).contains(i) implies (
        appended_so_far(turn.assistants@, n as int, i)) by {
            let k = choose|k: int|
                0 <= k < ids_view(turn.assistants@).len() && ids_view(turn.assistants@)[k] == i;
            assert((turn.assistants@[k])@ == i);
        }
        assert forall|i: int|
            0 <= i < old(chat)@.agents.len() && appended_so_far(
                turn.assistants@,
                n as int,
                i,
            ) implies ids_view(turn.assistants@).contains(i) by {
            let k = choose|k: int|
                0 <= k < n as int && k < turn.assistants@.len() && (
                #[trigger] turn.assistants@[k])@ == i;
            assert(ids_view(turn.assistants@)[k] == i);
        }
        // roles and identities are untouched, so the role projections and
        // the naming discipline survive the turn
        assert forall|i: int| 0 <= i < c1.agents.len() implies (#[trigger] c1.agents[i]).id
            == c0.agents[i].id && c1.agents[i].config == c0.agents[i].config by {
            if appended_so_far(turn.assistants@, n as int, i) {
            } else {
                assert(c1.agents[i] == c0.agents[i]);
            }
        }
        lemma_role_ids_same_roles(c1.agents, c0.agents, true);
        lemma_role_ids_same_roles(c1.agents, c0.agents, false);
    }
    linearized
}

/// Whether agent index `i` is among the first `upto` assistants of the turn.
pub open spec fn appended_so_far(assistants: Seq<AgentID>, upto: int, i: int) -> bool {
    exists|k: int| 0 <= k < upto && k < assistants.len() && (#[trigger] assistants[k])@ == i
}

/// Linearizes the replies of a finished turn.  Because completion numbers
/// were assigned atomically in completion order, the gathered replies are
/// already sorted and the linearization is exactly their message sequence.
fn linearize_replies_of(turn: &Turn) -> (r: Vec<MessageID>)
    requires
        forall|k: int| 0 <= k < turn.replies@.len() ==> (#[trigger] turn.replies@[k]).2 == k,
    ensures
        r@ == reply_msgs(turn.replies@),
{
    let mut copy: Vec<Reply> = Vec::new();
    let mut i: usize = 0;
    while i < turn.replies.len()
        invariant
            i <= turn.replies.len(),
            copy@ =~= turn.replies@.take(i as int),
        decreases turn.replies.len() - i,
    {
        copy.push(turn.replies[i]);
        i += 1;
    }
    proof {
        assert(turn.replies@.take(turn.replies@.len() as int) =~= turn.replies@);
        assert(copy@ == turn.replies@);
    }
    let r = linearize_replies(copy);
    proof {
        assert(sorted_by_order(turn.replies@));
        assert(distinct_orders(turn.replies@));
    }
    r
}

/// Finds the position of the conversation carrying `id`, scanning in order.
pub fn find_chat_idx_by_id(chats: &Vec<Chat>, id: u128) -> (r: Option<usize>)
    ensures
        (match r {
            Some(i) => 0 <= i < chats@.len() && chats@[i as int]@.id == id as int && (forall|
                j: int,
            | 0 <= j < i ==> (#[trigger] chats@[j])@.id != id as int),
            None => forall|j: int| 0 <= j < chats@.len() ==> (#[trigger] chats@[j])@.id
                != id as int,
        }),
{
    let mut i: usize = 0;
    while i < chats.len()
        invariant
            i <= chats.len(),
            forall|j: int| 0 <= j < i as int ==> (#[trigger] chats@[j])@.id != id as int,
        decreases chats.len() - i,
    {
        if chats[i].id() == id {
            return Some(i);
        }
        i += 1;
    }
    None
}

/// Isolation as a turn-level fact: while an assistant has no reply
/// placeholder opened yet, every reference in its history — the context its
/// reply will be generated from — predates the turn's user message, and so
/// can never be a reply placeholder of this turn.
pub proof fn lemma_isolation(c: ChatView, t: &Turn, a: int, k: int, j: int)
    requires
        t.wf(c),
        0 <= a < c.agents.len(),
        !is_user_inst(c.agents[a]),
        !opened_agent(t, a),
        0 <= k < c.agents[a].history.len(),
        0 <= j < t.opened@.len(),
    ensures
        c.agents[a].history[k] != t.opened@[j].1@,
{
    assert(c.agents[a].history[k] <= t.user_msg_id@);
    assert(t.opened@[j].1@ > t.user_msg_id@);
}

} // verus!

