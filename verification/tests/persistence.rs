use chitchai::agents::{AgentInstructions, AgentName, Instructions};
use chitchai::auth::Auth;
use chitchai::chat::Chat;
use chitchai::dispatch::{apply_delta, begin_turn, complete_reply, finish_turn, open_reply};
use chitchai::idstr::{format_id, parse_id};
use chitchai::storage::{
    RawChat, StoredStates, agent_name_from_raw, agent_name_to_raw, chat_to_raw, chats_from_raw,
    configs_from_raw, raw_to_chat,
};

fn personas(pairs: &[(&str, &str)]) -> Instructions {
    Instructions {
        agent_config: pairs
            .iter()
            .map(|(n, i)| AgentInstructions {
                name: String::from(*n),
                instructions: String::from(*i),
            })
            .collect(),
    }
}

fn assert_chats_equal(a: &Chat, b: &Chat) {
    assert_eq!(a.id(), b.id());
    assert_eq!(a.topic, b.topic);
    assert_eq!(a.date.0, b.date.0);
    assert_eq!(a.agents.len(), b.agents.len());
    for (x, y) in a.agents.iter().zip(b.agents.iter()) {
        assert_eq!(x.id, y.id);
        assert_eq!(x.history, y.history);
        assert_eq!(x.config.description, y.config.description);
    }
    assert_eq!(a.message_manager.len(), b.message_manager.len());
    for i in 0..a.message_manager.len() {
        let id = chitchai::chat::MessageID(i);
        match (a.message_manager.get(&id), b.message_manager.get(&id)) {
            (Some(ma), Some(mb)) => {
                assert_eq!(ma.content, mb.content);
                assert_eq!(ma.author, mb.author);
            },
            (None, None) => {},
            _ => panic!("store slot {} differs", i),
        }
    }
}

fn assert_raw_chats_equal(a: &RawChat, b: &RawChat) {
    assert_eq!(a.id, b.id);
    assert_eq!(a.topic, b.topic);
    assert_eq!(a.date.0, b.date.0);
    assert_eq!(a.messages.len(), b.messages.len());
    for (x, y) in a.messages.iter().zip(b.messages.iter()) {
        assert_eq!(x.0, y.0);
        assert_eq!(x.1.content, y.1.content);
    }
    assert_eq!(a.agents.len(), b.agents.len());
    for (x, y) in a.agents.iter().zip(b.agents.iter()) {
        assert_eq!(x.0, y.0);
        assert_eq!(x.1.id, y.1.id);
        assert_eq!(x.1.history, y.1.history);
    }
}

#[test]
fn identifier_text_round_trip() {
    assert_eq!(format_id(0), "0");
    assert_eq!(format_id(7), "7");
    assert_eq!(format_id(10), "10");
    assert_eq!(format_id(12345), "12345");
    assert_eq!(format_id(usize::MAX), usize::MAX.to_string());
    assert_eq!(parse_id("0"), Some(0));
    assert_eq!(parse_id("12345"), Some(12345));
    assert_eq!(parse_id(&format_id(usize::MAX)), Some(usize::MAX));
}

#[test]
fn identifier_text_rejects_noncanonical() {
    assert_eq!(parse_id(""), None);
    assert_eq!(parse_id("007"), None);
    assert_eq!(parse_id("1x2"), None);
    assert_eq!(parse_id("-1"), None);
    assert_eq!(parse_id("99999999999999999999999999999"), None);
}

#[test]
fn display_name_text_round_trip() {
    let named = AgentName::Named(String::from("Alice"));
    assert_eq!(agent_name_to_raw(&named), "Alice");
    assert!(matches!(
        agent_name_from_raw(String::from("Alice")),
        AgentName::Named(n) if n == "Alice"
    ));
    assert_eq!(agent_name_to_raw(&AgentName::UserDefault), "_USER");
    assert_eq!(agent_name_to_raw(&AgentName::AssistantDefault), "_ASSISTANT");
    assert!(matches!(agent_name_from_raw(String::from("_USER")), AgentName::UserDefault));
    assert!(matches!(
        agent_name_from_raw(String::from("_ASSISTANT")),
        AgentName::AssistantDefault
    ));
}

#[test]
fn conversation_round_trip_after_turn() {
    // run a full turn, then flatten and rehydrate: identifiers, histories
    // and message content all survive
    let (mut chat, configs) = Chat::default_chat_and_configs(&personas(&[
        ("Alice", "Be brief."),
        ("Bob", "Be verbose."),
    ]));
    let alice = chat.agents[0].id;
    let bob = chat.agents[1].id;
    let auth = Some(Auth::OpenAI {
        api_key: String::from("SECRET-REDACTED"),
        org_id: None,
        api_base: None,
    });
    let mut turn = begin_turn(&mut chat, &auth, String::from("hello")).expect("dispatch");
    let (_c1, ph_a) = open_reply(&mut chat, &mut turn, alice);
    let (_c2, ph_b) = open_reply(&mut chat, &mut turn, bob);
    apply_delta(&mut chat, &ph_b, "first!");
    complete_reply(&mut turn, bob, ph_b);
    apply_delta(&mut chat, &ph_a, "second");
    complete_reply(&mut turn, alice, ph_a);
    finish_turn(&mut chat, turn);

    let raw = chat_to_raw(&chat);
    let back = raw_to_chat(&raw, &configs).expect("well-formed persisted form");
    assert_chats_equal(&chat, &back);
    let raw_again = chat_to_raw(&back);
    assert_raw_chats_equal(&raw, &raw_again);
}

#[test]
fn round_trip_preserves_removed_slots() {
    // a message removed from the middle of the store stays a gap across the
    // persistence boundary, and identifiers are not renumbered
    let (mut chat, configs) = Chat::default_chat_and_configs(&personas(&[
        ("Alice", "Be brief."),
        ("Bob", "Be verbose."),
    ]));
    let first_sys = chat.agents[0].history[0];
    let removed = chat.message_manager.remove(&first_sys);
    assert!(removed.is_some());
    // drop the dangling reference so the graph stays well-formed
    chat.agents[0].history.clear();
    let raw = chat_to_raw(&chat);
    assert_eq!(raw.messages.len(), 1);
    assert_eq!(raw.messages[0].0, "1");
    let back = raw_to_chat(&raw, &configs).expect("well-formed persisted form");
    assert!(back.message_manager.get(&first_sys).is_none());
    assert_eq!(back.message_manager.len(), 2);
}

#[test]
fn rehydration_refuses_corrupt_input() {
    let (chat, configs) = Chat::default_chat_and_configs(&personas(&[("Alice", "Be brief.")]));
    // a malformed message key
    let mut raw = chat_to_raw(&chat);
    raw.messages[0].0 = String::from("zero");
    assert!(raw_to_chat(&raw, &configs).is_none());
    // a history entry pointing to a missing message
    let mut raw = chat_to_raw(&chat);
    raw.agents[0].1.history.push(String::from("999"));
    assert!(raw_to_chat(&raw, &configs).is_none());
    // a configuration that cannot be recovered
    let raw = chat_to_raw(&chat);
    assert!(raw_to_chat(&raw, &Vec::new()).is_none());
}

#[test]
fn get_or_init_synthesizes_default() {
    // no prior key anywhere: a default conversation with one assistant and
    // exactly one user agent is synthesized, and it survives a raw read
    let p = personas(&[("Alice", "Be brief.")]);
    let states = StoredStates::get_or_init(None, None, None, &p);
    assert_eq!(states.run_count, 0);
    assert_eq!(states.chats.len(), 1);
    let chat = &states.chats[0];
    assert_eq!(chat.topic, "Default Chat");
    assert_eq!(chat.user_agent_ids().len(), 1);
    assert_eq!(chat.assistant_agent_ids().len(), 1);

    let raw = states.save();
    assert_eq!(raw.raw_chats.chats.len(), 1);
    let table = configs_from_raw(&raw.raw_agent_configs);
    let reread = chats_from_raw(&raw.raw_chats, &table).expect("default must reread");
    assert_eq!(reread.len(), 1);
    assert_chats_equal(chat, &reread[0]);
}

#[test]
fn get_or_init_keeps_found_state() {
    let p = personas(&[("Alice", "Be brief.")]);
    let first = StoredStates::get_or_init(None, None, None, &p);
    let mut raw = first.save();
    raw.raw_app_settings.run_count = 41;
    let second = StoredStates::get_or_init(
        Some(raw.raw_app_settings),
        Some(raw.raw_chats),
        Some(raw.raw_agent_configs),
        &p,
    );
    assert_eq!(second.run_count, 41);
    assert_eq!(second.chats.len(), 1);
    assert_chats_equal(&first.chats[0], &second.chats[0]);
}

#[test]
fn get_or_init_falls_back_on_corrupt_chats() {
    let p = personas(&[("Alice", "Be brief.")]);
    let first = StoredStates::get_or_init(None, None, None, &p);
    let mut raw = first.save();
    raw.raw_chats.chats[0].messages[0].0 = String::from("not a key");
    let second = StoredStates::get_or_init(
        Some(raw.raw_app_settings),
        Some(raw.raw_chats),
        Some(raw.raw_agent_configs),
        &p,
    );
    // corruption is recovered by a fresh default, never a startup failure
    assert_eq!(second.chats.len(), 1);
    assert_eq!(second.chats[0].topic, "Default Chat");
    assert_eq!(second.chats[0].user_agent_ids().len(), 1);
}
