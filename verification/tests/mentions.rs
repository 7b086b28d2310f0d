use chat_relay::mentions::{decode, encode, unresolved_tokens, MentionTable};

fn table_with(pairs: &[(u64, &str)]) -> MentionTable {
    let mut t = MentionTable::new();
    for (id, name) in pairs {
        assert!(t.insert(*id, name));
    }
    t
}

#[test]
fn decode_rewrites_cached_tokens() {
    let t = table_with(&[(42, "Ada")]);
    assert_eq!(decode("<@42> hi", &t), "@Ada hi");
    assert_eq!(decode("hi <@42>!", &t), "hi @Ada!");
    assert_eq!(decode("<@42><@42>", &t), "@Ada@Ada");
}

#[test]
fn decode_leaves_unresolved_tokens_as_written() {
    let t = table_with(&[(42, "Ada")]);
    assert_eq!(decode("<@7> hi", &t), "<@7> hi");
    assert_eq!(decode("<@> <@x> <@12", &t), "<@> <@x> <@12");
    assert_eq!(decode("<@99999999999999999999999>", &t), "<@99999999999999999999999>");
}

#[test]
fn unresolved_tokens_are_distinct_and_uncached() {
    let t = table_with(&[(42, "Ada")]);
    let ids = unresolved_tokens("<@7> <@42> <@7> <@8>", &t);
    assert_eq!(ids.len(), 2);
    assert!(ids.contains(&7));
    assert!(ids.contains(&8));
    assert!(!ids.contains(&42));
}

#[test]
fn insert_reuses_the_first_writer_entry() {
    let mut t = MentionTable::new();
    assert!(t.insert(42, "Ada"));
    assert!(!t.insert(42, "Someone Else"));
    assert_eq!(t.lookup(42).unwrap(), "@Ada");
    assert!(t.lookup(7).is_none());
}

#[test]
fn insert_refuses_a_case_colliding_name_for_another_token() {
    let mut t = MentionTable::new();
    assert!(t.insert(1, "Ada"));
    assert!(!t.insert(2, "ADA"));
    assert!(t.lookup(2).is_none());
    assert!(t.insert(2, "Grace"));
}

#[test]
fn encode_restores_tokens() {
    let t = table_with(&[(42, "Ada")]);
    assert_eq!(encode("@Ada hi", &t), "<@42> hi");
    assert_eq!(encode("no names here", &t), "no names here");
}

#[test]
fn encode_is_case_insensitive() {
    let t = table_with(&[(42, "Ada")]);
    assert_eq!(encode("@ADA hi", &t), "<@42> hi");
    assert_eq!(encode("@ada hi", &t), "<@42> hi");
}

#[test]
fn encode_prefers_the_longest_match() {
    let t = table_with(&[(1, "Ada"), (2, "Ada Lovelace")]);
    assert_eq!(encode("@Ada Lovelace spoke", &t), "<@2> spoke");
    assert_eq!(encode("@Ada spoke", &t), "<@1> spoke");
}

#[test]
fn mention_round_trip_restores_tokens() {
    let t = table_with(&[(42, "Ada"), (7, "Grace")]);
    for text in [
        "<@42> hi",
        "hello <@42> and <@7>!",
        "<@42><@7>",
        "plain text",
        "<@9> stays, <@42> goes",
    ] {
        assert_eq!(encode(&decode(text, &t), &t), text);
    }
}
