use chat_relay::errors::RelayError;
use chat_relay::mentions::{decode, unresolved_tokens, MentionTable};
use chat_relay::msg::{Role, WireRole};
use chat_relay::prompt::{default_template, PromptVars};
use chat_relay::reply::{
    assemble_request, conversation_name, deflect_reply, handle_completion, handle_input_verdict,
    handle_output_verdict, Candidate, ChannelInfo, InputOutcome, OutputOutcome, WireCall,
    TEMPERATURE_PERMILLE,
};
use chat_relay::store::{Store, DEFAULT_MAX_TOKENS, DEFAULT_MODEL};

fn test_vars() -> PromptVars {
    PromptVars {
        user_nick: "@dylan".to_owned(),
        bot_nick: "@HorseNPC".to_owned(),
        date: "Today is Monday, the 1st of January, 2021. The time is 12:00 PM".to_owned(),
        server_name: Some("Test Server".to_owned()),
        channel_name: Some("#test".to_owned()),
        channel_topic: Some("This is a test channel".to_owned()),
    }
}

const CATALOG: [&str; 5] = [
    "Let's talk about something else.",
    "I'd rather not get into that one.",
    "How about a different topic?",
    "That's not something I can help with.",
    "Crikey, I'm not sure what to say.",
];

#[test]
fn flagged_input_short_circuits_to_a_stock_phrase() {
    let mut store = Store::new();
    let c = store.find_or_create("#general").unwrap();
    let outcome = handle_input_verdict(&mut store, c, "@Ada hi", true).unwrap();
    assert!(matches!(outcome, InputOutcome::Flagged));
    // Nothing was persisted and no request exists to send anywhere.
    assert!(store.history(c).is_empty());
    let reply = deflect_reply();
    assert!(CATALOG.contains(&reply.as_str()));
}

#[test]
fn happy_path_persists_both_turns_and_returns_the_text() {
    let mut store = Store::new();
    let mut table = MentionTable::new();
    let c = store.find_or_create("#general").unwrap();
    assert!(store.history(c).is_empty());

    // Resolve the one unknown token the way the gateway would.
    let input = "<@42> hi";
    let ids = unresolved_tokens(input, &table);
    assert_eq!(ids, vec![42]);
    assert!(table.insert(42, "Ada"));
    let decoded = decode(input, &table);
    assert_eq!(decoded, "@Ada hi");

    // Moderation stub never flags.
    let outcome = handle_input_verdict(&mut store, c, &decoded, false).unwrap();
    let template = match outcome {
        InputOutcome::Proceed { template } => template,
        InputOutcome::Flagged => panic!("input was not flagged"),
    };
    assert_eq!(template, default_template());

    let req = assemble_request(&store, c, &template, &test_vars(), Vec::new()).unwrap();
    assert_eq!(req.model, DEFAULT_MODEL);
    assert_eq!(req.max_tokens, DEFAULT_MAX_TOKENS);
    assert_eq!(req.temperature_permille, TEMPERATURE_PERMILLE);
    assert_eq!(req.messages.len(), 2);
    assert_eq!(req.messages[0].role, WireRole::System);
    assert_eq!(
        req.messages[0].content.as_deref().unwrap(),
        "You are @HorseNPC, a friendly conversational partner in a group chat. \
         Today is Monday, the 1st of January, 2021. The time is 12:00 PM. \
         You are talking with @dylan. Keep replies short, helpful and in character."
    );
    assert_eq!(req.messages[1].role, WireRole::User);
    assert_eq!(req.messages[1].content.as_deref().unwrap(), "@Ada hi");

    // Completion stub returns one assistant candidate.
    let candidates = vec![Candidate {
        role: WireRole::Assistant,
        content: Some("Hello!".to_owned()),
        function_call: None,
    }];
    let (text, persisted) = handle_completion(&mut store, c, Some(candidates)).unwrap();
    assert_eq!(text, "Hello!");
    assert_eq!(persisted.role(), Role::Assistant);
    assert_eq!(persisted.content(), "Hello!");

    // Output moderation stub never flags; nothing to re-encode.
    match handle_output_verdict(&text, false, &table) {
        OutputOutcome::Deliver { text } => assert_eq!(text, "Hello!"),
        OutputOutcome::Deflect => panic!("output was not flagged"),
    }

    let history = store.history(c);
    assert_eq!(history.len(), 2);
    assert_eq!(history[0].role(), Role::User);
    assert_eq!(history[0].content(), "@Ada hi");
    assert_eq!(history[1].role(), Role::Assistant);
    assert_eq!(history[1].content(), "Hello!");
}

#[test]
fn empty_candidate_list_fails_with_no_reply() {
    let mut store = Store::new();
    let c = store.find_or_create("#general").unwrap();
    handle_input_verdict(&mut store, c, "hi", false).unwrap();
    let r = handle_completion(&mut store, c, Some(Vec::new()));
    assert_eq!(r.unwrap_err(), RelayError::NoReply);
    let history = store.history(c);
    assert_eq!(history.len(), 1);
    assert_eq!(history[0].role(), Role::User);
}

#[test]
fn transport_failure_is_a_completion_error_with_no_side_effect() {
    let mut store = Store::new();
    let c = store.find_or_create("#general").unwrap();
    handle_input_verdict(&mut store, c, "hi", false).unwrap();
    let r = handle_completion(&mut store, c, None);
    assert_eq!(r.unwrap_err(), RelayError::Completion);
    assert_eq!(store.history(c).len(), 1);
}

#[test]
fn malformed_candidate_is_a_completion_error() {
    let mut store = Store::new();
    let c = store.find_or_create("#general").unwrap();
    let both = Candidate {
        role: WireRole::Assistant,
        content: Some("text".to_owned()),
        function_call: Some(WireCall { name: "f".to_owned(), args: "{}".to_owned() }),
    };
    let r = handle_completion(&mut store, c, Some(vec![both]));
    assert_eq!(r.unwrap_err(), RelayError::Completion);
    assert!(store.history(c).is_empty());
}

#[test]
fn ineligible_candidates_are_skipped() {
    let mut store = Store::new();
    let c = store.find_or_create("#general").unwrap();
    let user_noise = Candidate {
        role: WireRole::User,
        content: Some("noise".to_owned()),
        function_call: None,
    };
    let good = Candidate {
        role: WireRole::Assistant,
        content: Some("useful".to_owned()),
        function_call: None,
    };
    let (text, _) = handle_completion(&mut store, c, Some(vec![user_noise, good])).unwrap();
    assert_eq!(text, "useful");
}

#[test]
fn function_candidate_is_persisted_and_rendered() {
    let mut store = Store::new();
    let c = store.find_or_create("#general").unwrap();
    let call = Candidate {
        role: WireRole::Assistant,
        content: None,
        function_call: Some(WireCall {
            name: "react".to_owned(),
            args: "{\"reaction_name\": \":thinking:\"}".to_owned(),
        }),
    };
    let (text, _) = handle_completion(&mut store, c, Some(vec![call])).unwrap();
    assert_eq!(text, "react({\"reaction_name\": \":thinking:\"})");
    let history = store.history(c);
    assert_eq!(history.len(), 1);
    assert_eq!(history[0].role(), Role::Assistant);
}

#[test]
fn flagged_output_is_discarded_but_the_record_stands() {
    let mut store = Store::new();
    let table = MentionTable::new();
    let c = store.find_or_create("#general").unwrap();
    let good = Candidate {
        role: WireRole::Assistant,
        content: Some("something rude".to_owned()),
        function_call: None,
    };
    let (text, _) = handle_completion(&mut store, c, Some(vec![good])).unwrap();
    assert!(matches!(
        handle_output_verdict(&text, true, &table),
        OutputOutcome::Deflect
    ));
    // The persisted record of what the model said is not rolled back.
    assert_eq!(store.history(c).len(), 1);
    let reply = deflect_reply();
    assert!(CATALOG.contains(&reply.as_str()));
}

#[test]
fn output_mentions_are_encoded_back() {
    let mut table = MentionTable::new();
    assert!(table.insert(42, "Ada"));
    match handle_output_verdict("ask @Ada about it", false, &table) {
        OutputOutcome::Deliver { text } => assert_eq!(text, "ask <@42> about it"),
        OutputOutcome::Deflect => panic!("output was not flagged"),
    }
}

#[test]
fn custom_prompt_override_is_used() {
    let mut store = Store::new();
    let c = store.find_or_create("#general").unwrap();
    store.set_prompt(c, "Speak like {{ bot_nick }}.");
    let outcome = handle_input_verdict(&mut store, c, "hi", false).unwrap();
    let template = match outcome {
        InputOutcome::Proceed { template } => template,
        InputOutcome::Flagged => panic!("input was not flagged"),
    };
    assert_eq!(template, "Speak like {{ bot_nick }}.");
    let req = assemble_request(&store, c, &template, &test_vars(), Vec::new()).unwrap();
    assert_eq!(
        req.messages[0].content.as_deref().unwrap(),
        "Speak like @HorseNPC."
    );
}

#[test]
fn configured_settings_reach_the_request() {
    let mut store = Store::new();
    let c = store.find_or_create("#general").unwrap();
    store.set_model(c, "gpt-4");
    store.set_max_tokens(c, 1024);
    let req = assemble_request(&store, c, "hi", &test_vars(), Vec::new()).unwrap();
    assert_eq!(req.model, "gpt-4");
    assert_eq!(req.max_tokens, 1024);
}

#[test]
fn malformed_template_is_a_template_error() {
    let mut store = Store::new();
    let c = store.find_or_create("#general").unwrap();
    let r = assemble_request(&store, c, "{% if %}", &test_vars(), Vec::new());
    assert_eq!(r.unwrap_err(), RelayError::Template);
}

#[test]
fn conversation_names_follow_the_channel_shape() {
    let thread = ChannelInfo::Guild {
        name: "help".to_owned(),
        parent: Some("general".to_owned()),
    };
    assert_eq!(conversation_name(&thread), "#general:help");
    let channel = ChannelInfo::Guild { name: "general".to_owned(), parent: None };
    assert_eq!(conversation_name(&channel), "#general");
    let dm = ChannelInfo::Private { recipient: "Ada".to_owned() };
    assert_eq!(conversation_name(&dm), "Ada");
    assert_eq!(conversation_name(&ChannelInfo::Unknown), "unknown");
}

#[test]
fn deflections_come_only_from_the_catalog() {
    for _ in 0..32 {
        let reply = deflect_reply();
        assert!(CATALOG.contains(&reply.as_str()));
    }
}
