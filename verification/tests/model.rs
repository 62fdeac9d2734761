use chitchai::MsgRole;
use chitchai::agents::{AgentConfig, AgentID, AgentName, AgentType};
use chitchai::chat::MessageManager;
use chitchai::customization::Customization;
use chitchai::msg::{assistant_msg, sys_msg, user_msg};
use chitchai::settings::OpenAIModel;

#[test]
fn message_constructors_map_roles_and_authors() {
    let s = sys_msg(String::from("be nice"));
    assert!(matches!(s.role, MsgRole::System));
    assert_eq!(s.content, "be nice");
    assert_eq!(s.author, None);

    let u = user_msg(String::from("hi"), AgentName::UserDefault);
    assert!(matches!(u.role, MsgRole::User));
    assert_eq!(u.author, None);
    let u2 = user_msg(String::from("hi"), AgentName::Named(String::from("Sam")));
    assert_eq!(u2.author, Some(String::from("Sam")));

    let a = assistant_msg(String::from("hello"), AgentName::AssistantDefault);
    assert!(matches!(a.role, MsgRole::Assistant));
    assert_eq!(a.author, None);
    let a2 = assistant_msg(String::from("hello"), AgentName::Named(String::from("Alice")));
    assert_eq!(a2.author, Some(String::from("Alice")));
}

#[test]
fn delta_append_grows_content() {
    let mut m = sys_msg(String::from(""));
    m.append_delta("ab");
    m.append_delta("");
    m.append_delta("c");
    assert_eq!(m.content, "abc");
    assert!(matches!(m.role, MsgRole::System));
}

#[test]
fn store_operations() {
    let mut mm = MessageManager::new();
    let a = mm.insert(sys_msg(String::from("one")));
    let b = mm.insert(sys_msg(String::from("two")));
    assert_ne!(a, b);
    assert_eq!(mm.len(), 2);
    assert_eq!(mm.get(&a).unwrap().content, "one");
    let old = mm.update(&a, sys_msg(String::from("uno")));
    assert_eq!(old.unwrap().content, "one");
    assert_eq!(mm.get(&a).unwrap().content, "uno");
    let removed = mm.remove(&a);
    assert_eq!(removed.unwrap().content, "uno");
    assert!(mm.get(&a).is_none());
    // an identifier is never reused: the next insertion mints a fresh one
    let c = mm.insert(sys_msg(String::from("three")));
    assert_ne!(c, a);
    assert_ne!(c, b);
    // in-place appends are visible to readers holding the identifier
    mm.append_delta(&b, "!");
    assert_eq!(mm.get(&b).unwrap().content, "two!");
}

#[test]
fn agent_names_and_roles() {
    assert!(matches!(AgentName::assistant(None), AgentName::AssistantDefault));
    assert!(matches!(AgentName::user(None), AgentName::UserDefault));
    assert!(matches!(
        AgentName::assistant(Some(String::from("Bo"))),
        AgentName::Named(n) if n == "Bo"
    ));
    assert_eq!(AgentType::User.str(), "User");
    assert_eq!(AgentType::Assistant { instructions: String::from("x") }.str(), "Assistant");
    assert_eq!(AgentID { id: 3 }, AgentID { id: 3 });
    assert_ne!(AgentID { id: 3 }, AgentID { id: 4 });
}

#[test]
fn system_prompt_is_deterministic_template() {
    let named = AgentConfig::new_assistant(
        AgentName::Named(String::from("Alice")),
        String::from("Be brief."),
        String::from(""),
    );
    assert_eq!(named.simple_sys_prompt(), "Your name is Alice. Be brief.");
    assert_eq!(named.simple_sys_prompt(), named.simple_sys_prompt());

    let unnamed = AgentConfig::new_assistant(
        AgentName::AssistantDefault,
        String::from("Be brief."),
        String::from(""),
    );
    assert_eq!(unnamed.simple_sys_prompt(), "Be brief.");

    let user = AgentConfig::new_user(AgentName::UserDefault, String::from(""));
    assert_eq!(user.simple_sys_prompt(), "");
}

#[test]
fn model_identifiers() {
    assert_eq!(OpenAIModel::GPT35.model_str(), "gpt-3.5-turbo");
    assert_eq!(OpenAIModel::GPT35_16k.model_str(), "gpt-3.5-turbo-16k");
    assert_eq!(OpenAIModel::GPT4.model_str(), "gpt-4");
    assert_eq!(OpenAIModel::GPT4_32k.model_str(), "gpt-4-32k");
    assert_eq!(OpenAIModel::all_models().len(), 4);
    assert_eq!(OpenAIModel::gpt35_models(), vec![OpenAIModel::GPT35, OpenAIModel::GPT35_16k]);
    assert_eq!(OpenAIModel::gpt4_models(), vec![OpenAIModel::GPT4, OpenAIModel::GPT4_32k]);
}

#[test]
fn default_customization() {
    let c = Customization::default();
    assert_eq!(c.waiting_icons, vec![".", "..", "..."]);
}
