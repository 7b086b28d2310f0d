use chat_relay::msg::{decode_payload, encode_payload, Message, Role};

#[test]
fn text_payload_round_trips() {
    let m = Message::new(Role::User, "hello there");
    let blob = encode_payload(&m);
    assert_eq!(blob, "thello there");
    let back = decode_payload(&blob, Role::User).unwrap();
    assert_eq!(back.role(), Role::User);
    assert_eq!(back.content(), "hello there");
}

#[test]
fn text_payload_may_start_like_a_function_tag() {
    let m = Message::new(Role::Assistant, "f5:ake text");
    let blob = encode_payload(&m);
    let back = decode_payload(&blob, Role::Assistant).unwrap();
    assert_eq!(back.content(), "f5:ake text");
}

#[test]
fn function_payload_round_trips() {
    let m = Message::Function {
        role: Role::Assistant,
        fn_name: "react".to_owned(),
        fn_args: "{\"reaction_name\": \":thinking:\"}".to_owned(),
    };
    let blob = encode_payload(&m);
    assert_eq!(blob, "f5:react{\"reaction_name\": \":thinking:\"}");
    let back = decode_payload(&blob, Role::Assistant).unwrap();
    match back {
        Message::Function { role, fn_name, fn_args } => {
            assert_eq!(role, Role::Assistant);
            assert_eq!(fn_name, "react");
            assert_eq!(fn_args, "{\"reaction_name\": \":thinking:\"}");
        }
        _ => panic!("expected a function payload"),
    }
}

#[test]
fn function_payload_with_odd_name_round_trips() {
    let m = Message::Function {
        role: Role::Function,
        fn_name: "a:b(c".to_owned(),
        fn_args: String::new(),
    };
    let blob = encode_payload(&m);
    let back = decode_payload(&blob, Role::Function).unwrap();
    match back {
        Message::Function { fn_name, fn_args, .. } => {
            assert_eq!(fn_name, "a:b(c");
            assert_eq!(fn_args, "");
        }
        _ => panic!("expected a function payload"),
    }
}

#[test]
fn malformed_payloads_are_decode_failures() {
    assert!(decode_payload("", Role::User).is_none());
    assert!(decode_payload("x?", Role::User).is_none());
    assert!(decode_payload("f", Role::User).is_none());
    assert!(decode_payload("f:name", Role::User).is_none());
    assert!(decode_payload("f9:ab", Role::User).is_none());
    assert!(decode_payload("f2react", Role::User).is_none());
    assert!(decode_payload("f99999999999999999999999:x", Role::User).is_none());
}

#[test]
fn empty_text_round_trips() {
    let m = Message::new(Role::System, "");
    let blob = encode_payload(&m);
    assert_eq!(blob, "t");
    let back = decode_payload(&blob, Role::System).unwrap();
    assert_eq!(back.content(), "");
}
