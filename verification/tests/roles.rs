use chat_relay::msg::{Message, Role, WireRole};

#[test]
fn test_roles() {
    let role = Role::System;
    let role: u8 = role.to_byte();
    assert_eq!(role, 0);
    let role: Role = Role::from_byte(role).unwrap();
    assert_eq!(role, Role::System);

    let role = Role::User;
    let role: u8 = role.to_byte();
    assert_eq!(role, 1);
    let role: Role = Role::from_byte(role).unwrap();
    assert_eq!(role, Role::User);

    let role = Role::Assistant;
    let role: u8 = role.to_byte();
    assert_eq!(role, 2);
    let role: Role = Role::from_byte(role).unwrap();
    assert_eq!(role, Role::Assistant);
}

#[test]
fn function_role_round_trips() {
    assert_eq!(Role::Function.to_byte(), 3);
    assert_eq!(Role::from_byte(3).unwrap(), Role::Function);
}

#[test]
fn malformed_role_byte_is_rejected() {
    assert!(Role::from_byte(4).is_none());
    assert!(Role::from_byte(255).is_none());
}

#[test]
fn wire_role_round_trips_both_ways() {
    for role in [Role::System, Role::User, Role::Assistant, Role::Function] {
        assert_eq!(Role::from_wire(role.to_wire()), role);
    }
    for wire in [
        WireRole::System,
        WireRole::User,
        WireRole::Assistant,
        WireRole::Function,
    ] {
        assert_eq!(Role::from_wire(wire).to_wire(), wire);
    }
}

#[test]
fn message_accessors_report_role_and_text() {
    let m = Message::new(Role::User, "hello");
    assert_eq!(m.role(), Role::User);
    assert_eq!(m.content(), "hello");
    let f = Message::Function {
        role: Role::Assistant,
        fn_name: "react".to_owned(),
        fn_args: "{}".to_owned(),
    };
    assert_eq!(f.role(), Role::Assistant);
    assert_eq!(f.content(), "react({})");
}
