use chat_relay::errors::RelayError;
use chat_relay::msg::{Message, Role, WireRole};
use chat_relay::reply::{Candidate, WireCall};
use chat_relay::store::{Conversation, Store, DEFAULT_MAX_TOKENS, DEFAULT_MODEL};

#[test]
fn db_test_conversation() {
    let mut db = Store::new();
    let c1 = db
        .find_or_create("test")
        .expect("failed to find conversation");
    let c2 = db
        .find_or_create("test")
        .expect("failed to find conversation");
    assert_eq!(c1, c2);
}

#[test]
fn schema_test_conversation() {
    let mut schema = Store::new();
    let c1 = schema
        .find_or_create("test")
        .expect("failed to find conversation");
    let c2 = schema
        .find_or_create("test")
        .expect("failed to find conversation");
    assert_eq!(c1, c2);
}

#[test]
fn test_history() {
    let mut db = Store::new();
    let conversation = db
        .find_or_create("test")
        .expect("failed to define conversation");
    let message = Message::new(Role::System, "test");
    db.append(conversation, message).expect("failed to add message");
    let candidate = Candidate {
        role: WireRole::Assistant,
        content: None,
        function_call: Some(WireCall {
            name: "react".to_owned(),
            args: "{\n  \"reaction_name\": \":thinking:\"\n}".to_owned(),
        }),
    };
    let message = chat_relay::reply::candidate_to_message(&candidate).unwrap();
    db.append(conversation, message).expect("failed to add message");

    let messages = db.history(conversation);
    assert_eq!(messages.len(), 2);
    assert_eq!(messages[0].role(), Role::System);
    assert_eq!(messages[1].role(), Role::Assistant);
}

#[test]
fn distinct_names_get_distinct_ids() {
    let mut store = Store::new();
    let a = store.find_or_create("#general").unwrap();
    let b = store.find_or_create("#random").unwrap();
    assert_ne!(a, b);
    let a2 = store.find_or_create("#general").unwrap();
    assert_eq!(a, a2);
}

#[test]
fn history_keeps_append_order() {
    let mut store = Store::new();
    let c = store.find_or_create("#general").unwrap();
    let other = store.find_or_create("#random").unwrap();
    store.append(c, Message::new(Role::User, "one")).unwrap();
    store.append(other, Message::new(Role::User, "noise")).unwrap();
    store.append(c, Message::new(Role::Assistant, "two")).unwrap();
    store.append(c, Message::new(Role::User, "three")).unwrap();
    let h = store.history(c);
    assert_eq!(h.len(), 3);
    assert_eq!(h[0].content(), "one");
    assert_eq!(h[1].content(), "two");
    assert_eq!(h[2].content(), "three");
    let hn = store.history(other);
    assert_eq!(hn.len(), 1);
    assert_eq!(hn[0].content(), "noise");
}

#[test]
fn empty_history_is_empty_not_an_error() {
    let mut store = Store::new();
    let c = store.find_or_create("#fresh").unwrap();
    assert!(store.history(c).is_empty());
}

#[test]
fn settings_default_until_set() {
    let mut store = Store::new();
    let c = store.find_or_create("#general").unwrap();
    assert_eq!(store.model(c), DEFAULT_MODEL);
    assert_eq!(store.max_tokens(c), DEFAULT_MAX_TOKENS);
    assert!(store.get_prompt(c).is_none());
    store.set_prompt(c, "You are a careful assistant.");
    assert_eq!(store.get_prompt(c).unwrap(), "You are a careful assistant.");
    store.set_prompt(c, "Updated.");
    assert_eq!(store.get_prompt(c).unwrap(), "Updated.");
    assert_eq!(store.model(c), DEFAULT_MODEL);
}

#[test]
fn settings_update_in_place() {
    let mut store = Store::new();
    let c = store.find_or_create("#general").unwrap();
    store.set_model(c, "gpt-4");
    store.set_max_tokens(c, 1024);
    assert_eq!(store.model(c), "gpt-4");
    assert_eq!(store.max_tokens(c), 1024);
    store.set_model(c, "gpt-4-turbo");
    assert_eq!(store.model(c), "gpt-4-turbo");
    assert_eq!(store.max_tokens(c), 1024);
    // Another conversation keeps its own defaults.
    let other = store.find_or_create("#random").unwrap();
    assert_eq!(store.model(other), DEFAULT_MODEL);
    assert_eq!(store.max_tokens(other), DEFAULT_MAX_TOKENS);
}

#[test]
fn error_kinds_describe_themselves() {
    assert_eq!(RelayError::Persistence.describe(), "conversation store failure");
    assert_eq!(RelayError::Completion.describe(), "completion service failure");
    assert_eq!(RelayError::NoReply.describe(), "no usable completion candidate");
    assert_eq!(RelayError::Template.describe(), "prompt template failure");
    assert_eq!(RelayError::Gateway.describe(), "gateway lookup failure");
}

#[test]
fn conversation_ids_are_stable_across_other_inserts() {
    let mut store = Store::new();
    let a = store.find_or_create("alpha").unwrap();
    let _ = store.find_or_create("beta").unwrap();
    let _ = store.find_or_create("gamma").unwrap();
    let a2 = store.find_or_create("alpha").unwrap();
    assert_eq!(a, a2);
}

#[test]
fn conversation_is_plain_data() {
    let c = Conversation(7);
    assert_eq!(c.0, 7);
}
