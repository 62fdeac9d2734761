use chitchai::agents::{AgentInstructions, Instructions};
use chitchai::auth::Auth;
use chitchai::chat::{Chat, MessageID, MessageManager};
use chitchai::dispatch::{
    DispatchError, apply_delta, apply_deltas, begin_turn, complete_reply, find_chat_idx_by_id,
    finish_turn, linearize_replies, open_reply,
};
use chitchai::datetime::DatetimeString;
use chitchai::msg::sys_msg;
use chitchai::MsgRole;

fn personas(pairs: &[(&str, &str)]) -> Instructions {
    Instructions {
        agent_config: pairs
            .iter()
            .map(|(n, i)| AgentInstructions {
                name: String::from(*n),
                instructions: String::from(*i),
            })
            .collect(),
    }
}

fn test_auth() -> Option<Auth> {
    Some(Auth::OpenAI { api_key: String::from("SECRET-REDACTED"), org_id: None, api_base: None })
}

fn content_of(chat: &Chat, id: MessageID) -> String {
    chat.message_manager.get(&id).expect("message must exist").content.clone()
}

#[test]
fn default_chat_shape() {
    let (chat, configs) = Chat::default_chat_and_configs(&personas(&[("Alice", "Be brief.")]));
    assert_eq!(chat.agents.len(), 2);
    assert_eq!(configs.len(), 2);
    assert_eq!(chat.user_agent_ids().len(), 1);
    assert_eq!(chat.assistant_agent_ids().len(), 1);
    // the assistant's system prompt is seeded into the shared store and
    // referenced only by its own history
    assert_eq!(chat.agents[0].history.len(), 1);
    assert_eq!(chat.agents[1].history.len(), 0);
    let sys = content_of(&chat, chat.agents[0].history[0]);
    assert_eq!(sys, "Your name is Alice. Be brief.");
}

#[test]
fn scenario_two_assistants_completion_order() {
    // one user agent, two assistants; the user sends "hello"; Bob's stream
    // completes first, Alice's second
    let (mut chat, _) = Chat::default_chat_and_configs(&personas(&[
        ("Alice", "Be brief."),
        ("Bob", "Be verbose."),
    ]));
    let alice = chat.agents[0].id;
    let bob = chat.agents[1].id;
    let user = chat.agents[2].id;
    let auth = test_auth();
    let mut turn = begin_turn(&mut chat, &auth, String::from("hello")).expect("dispatch");
    let hello = turn.user_msg_id;
    assert_eq!(content_of(&chat, hello), "hello");

    let (bob_ctx, bob_ph) = open_reply(&mut chat, &mut turn, bob);
    let (alice_ctx, alice_ph) = open_reply(&mut chat, &mut turn, alice);
    // each assistant's context is its own system prompt plus the user message
    assert_eq!(bob_ctx.len(), 2);
    assert_eq!(alice_ctx.len(), 2);
    assert_eq!(bob_ctx[0].content, "Your name is Bob. Be verbose.");
    assert_eq!(bob_ctx[1].content, "hello");
    assert_eq!(alice_ctx[0].content, "Your name is Alice. Be brief.");
    assert_eq!(alice_ctx[1].content, "hello");
    // isolation: neither context contains any same-turn placeholder
    assert!(matches!(bob_ctx[0].role, MsgRole::System));
    assert!(matches!(bob_ctx[1].role, MsgRole::User));

    apply_delta(&mut chat, &bob_ph, "Hi ");
    apply_delta(&mut chat, &bob_ph, "there!");
    let bob_order = complete_reply(&mut turn, bob, bob_ph);
    apply_delta(&mut chat, &alice_ph, "Hello.");
    let alice_order = complete_reply(&mut turn, alice, alice_ph);
    assert_eq!(bob_order, 0);
    assert_eq!(alice_order, 1);

    let linearized = finish_turn(&mut chat, turn);
    assert_eq!(linearized, vec![bob_ph, alice_ph]);

    assert_eq!(content_of(&chat, bob_ph), "Hi there!");
    assert_eq!(content_of(&chat, alice_ph), "Hello.");

    // the user's history got each placeholder at dispatch time
    let user_history = &chat.agents[user.id].history;
    assert_eq!(user_history[user_history.len() - 3..], [hello, bob_ph, alice_ph]);
    // every assistant's history ends with the one linearized ordering:
    // Bob's reply first, Alice's second
    let alice_history = &chat.agents[alice.id].history;
    assert_eq!(alice_history[alice_history.len() - 2..], [bob_ph, alice_ph]);
    let bob_history = &chat.agents[bob.id].history;
    assert_eq!(bob_history[bob_history.len() - 2..], [bob_ph, alice_ph]);
    // and each assistant replied from the shared causal point
    assert_eq!(alice_history[1], hello);
    assert_eq!(bob_history[1], hello);
}

#[test]
fn scenario_zero_assistants() {
    // dispatching with no assistants is a no-op for fan-out but still
    // records the user message
    let (mut chat, _) = Chat::default_chat_and_configs(&personas(&[]));
    let auth = test_auth();
    let turn = begin_turn(&mut chat, &auth, String::from("anyone here?")).expect("dispatch");
    assert_eq!(turn.assistants.len(), 0);
    let user_msg = turn.user_msg_id;
    let linearized = finish_turn(&mut chat, turn);
    assert!(linearized.is_empty());
    assert_eq!(chat.agents[0].history, vec![user_msg]);
    assert_eq!(content_of(&chat, user_msg), "anyone here?");
}

#[test]
fn scenario_one_stream_fails() {
    // one assistant's stream errors with zero chunks delivered: its reply
    // stays empty, the other completes normally, the turn still closes
    let (mut chat, _) = Chat::default_chat_and_configs(&personas(&[
        ("Alice", "Be brief."),
        ("Bob", "Be verbose."),
    ]));
    let alice = chat.agents[0].id;
    let bob = chat.agents[1].id;
    let auth = test_auth();
    let mut turn = begin_turn(&mut chat, &auth, String::from("hello")).expect("dispatch");
    let (_actx, alice_ph) = open_reply(&mut chat, &mut turn, alice);
    let (_bctx, bob_ph) = open_reply(&mut chat, &mut turn, bob);
    // Alice's stream fails before any delta arrives; it is still completed
    // and linearized by its failure time
    complete_reply(&mut turn, alice, alice_ph);
    apply_delta(&mut chat, &bob_ph, "fine");
    complete_reply(&mut turn, bob, bob_ph);
    let linearized = finish_turn(&mut chat, turn);
    assert_eq!(linearized, vec![alice_ph, bob_ph]);
    assert_eq!(content_of(&chat, alice_ph), "");
    assert_eq!(content_of(&chat, bob_ph), "fine");
}

#[test]
fn shared_reference_appears_once() {
    // the user message inserted by a turn appears exactly once in every
    // agent's history
    let (mut chat, _) = Chat::default_chat_and_configs(&personas(&[
        ("Alice", "Be brief."),
        ("Bob", "Be verbose."),
    ]));
    let auth = test_auth();
    let turn = begin_turn(&mut chat, &auth, String::from("ping")).expect("dispatch");
    for agent in &chat.agents {
        let occurrences = agent.history.iter().filter(|m| **m == turn.user_msg_id).count();
        assert_eq!(occurrences, 1);
    }
}

#[test]
fn streaming_concatenates_in_order() {
    // a delta sequence applied in receipt order yields exactly its
    // concatenation
    let mut chat = Chat {
        id: 7,
        message_manager: MessageManager::new(),
        topic: String::from("t"),
        date: DatetimeString(String::from("2024-01-01T00:00:00+00:00")),
        agents: Vec::new(),
    };
    let id = chat.message_manager.insert(sys_msg(String::from("x")));
    let deltas = vec![String::from("a"), String::from("bc"), String::from(""), String::from("d")];
    apply_deltas(&mut chat, &id, &deltas);
    assert_eq!(content_of(&chat, id), "xabcd");
}

#[test]
fn linearization_sorts_by_completion() {
    let a0 = chitchai::agents::AgentID { id: 0 };
    let a1 = chitchai::agents::AgentID { id: 1 };
    let a2 = chitchai::agents::AgentID { id: 2 };
    let replies = vec![
        (a1, MessageID(11), 2usize),
        (a2, MessageID(12), 0usize),
        (a0, MessageID(10), 1usize),
    ];
    let out = linearize_replies(replies);
    assert_eq!(out, vec![MessageID(12), MessageID(10), MessageID(11)]);
    // a permutation of the same replies linearizes identically
    let permuted = vec![
        (a0, MessageID(10), 1usize),
        (a1, MessageID(11), 2usize),
        (a2, MessageID(12), 0usize),
    ];
    let out2 = linearize_replies(permuted);
    assert_eq!(out2, vec![MessageID(12), MessageID(10), MessageID(11)]);
}

#[test]
fn dispatch_without_credentials_is_refused() {
    let (mut chat, _) = Chat::default_chat_and_configs(&personas(&[("Alice", "Be brief.")]));
    let before = chat.agents[0].history.clone();
    let r = begin_turn(&mut chat, &None, String::from("hello"));
    assert_eq!(r.err(), Some(DispatchError::NoCredentials));
    // refused before any mutation
    assert_eq!(chat.agents[0].history, before);
    assert_eq!(chat.message_manager.len(), 1);
}

#[test]
fn dispatch_without_user_agent_is_refused() {
    let mut chat = Chat {
        id: 1,
        message_manager: MessageManager::new(),
        topic: String::from("empty"),
        date: DatetimeString(String::from("2024-01-01T00:00:00+00:00")),
        agents: Vec::new(),
    };
    let auth = test_auth();
    let r = begin_turn(&mut chat, &auth, String::from("hello"));
    assert_eq!(r.err(), Some(DispatchError::UserAgentCardinality));
    assert_eq!(chat.message_manager.len(), 0);
}

#[test]
fn find_chat_by_id() {
    let (chat_a, _) = Chat::default_chat_and_configs(&personas(&[]));
    let (chat_b, _) = Chat::default_chat_and_configs(&personas(&[]));
    let id_b = chat_b.id();
    let chats = vec![chat_a, chat_b];
    assert_eq!(find_chat_idx_by_id(&chats, id_b), Some(1));
    let mut absent = 0u128;
    while absent == chats[0].id() || absent == id_b {
        absent += 1;
    }
    assert_eq!(find_chat_idx_by_id(&chats, absent), None);
}

#[test]
fn fork_mints_new_identity() {
    let (chat, _) = Chat::default_chat_and_configs(&personas(&[("Alice", "Be brief.")]));
    let fork = chat.clone();
    assert_eq!(fork.topic, chat.topic);
    assert_eq!(fork.agents.len(), chat.agents.len());
    assert_eq!(fork.agents[0].history, chat.agents[0].history);
    // a clone is a fork, not an alias
    assert_ne!(fork.id(), chat.id());
}
