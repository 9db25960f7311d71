use lolcoin_indexer::events::{
    event_from_record, events_from_json, events_in_line, extract_events, Event, EventKind,
    ReceiptOutcome,
};
use lolcoin_indexer::indexer::{block_events, Block, Shard};
use lolcoin_indexer::json::{find_field, JsonValue};

const MINT_LINE: &str = r#"EVENT_JSON:{"standard":"nep141","version":"1.0.0","event":"ft_mint","data":[{"owner_id":"alice","amount":"100"}]}"#;

fn outcome(receiver: &str, logs: &[&str]) -> ReceiptOutcome {
    ReceiptOutcome {
        receiver: receiver.to_string(),
        logs: logs.iter().map(|s| s.to_string()).collect(),
    }
}

fn block(height: u64, outcomes: Vec<ReceiptOutcome>) -> Block {
    Block { height, shards: vec![Shard { outcomes }] }
}

#[test]
fn mint_line_yields_one_mint() {
    assert_eq!(
        events_in_line(MINT_LINE),
        vec![Event::Mint { account: "alice".to_string(), amount: 100 }]
    );
}

#[test]
fn matching_receiver_yields_events_and_others_none() {
    let b = block(1, vec![outcome("token.near", &[MINT_LINE])]);
    assert_eq!(
        block_events(&b, "token.near"),
        vec![Event::Mint { account: "alice".to_string(), amount: 100 }]
    );
    assert_eq!(block_events(&b, "other.near"), vec![]);
}

#[test]
fn invalid_json_after_tag_is_dropped() {
    let bad = "EVENT_JSON:{\"standard\":\"nep141\",";
    assert_eq!(events_in_line(bad), vec![]);
    let o = outcome("t", &[bad, MINT_LINE, "plain log line"]);
    assert_eq!(
        extract_events(&o),
        vec![Event::Mint { account: "alice".to_string(), amount: 100 }]
    );
}

#[test]
fn surrounding_white_space_is_trimmed() {
    let line = format!("  \t{}\n", MINT_LINE.replace("EVENT_JSON:", "EVENT_JSON:   "));
    assert_eq!(events_in_line(&line).len(), 1);
    assert_eq!(events_in_line(" event_json:{}"), vec![]);
}

#[test]
fn transfer_and_burn_records() {
    let t = r#"EVENT_JSON:{"standard":"nep141","version":"1.0.0","event":"ft_transfer","data":[{"old_owner_id":"a","new_owner_id":"b","amount":"7","memo":"hi"},{"old_owner_id":"b","new_owner_id":"c","amount":"2","memo":null}]}"#;
    assert_eq!(
        events_in_line(t),
        vec![
            Event::Transfer { from: "a".to_string(), to: "b".to_string(), amount: 7 },
            Event::Transfer { from: "b".to_string(), to: "c".to_string(), amount: 2 },
        ]
    );
    let b = r#"EVENT_JSON:{"standard":"nep141","version":"1.0.0","event":"ft_burn","data":[{"owner_id":"a","amount":"340282366920938463463374607431768211455"}]}"#;
    assert_eq!(
        events_in_line(b),
        vec![Event::Burn { account: "a".to_string(), amount: u128::MAX }]
    );
}

#[test]
fn malformed_documents_give_no_events() {
    let cases = [
        r#"EVENT_JSON:{"standard":"nep171","version":"1.0.0","event":"ft_mint","data":[{"owner_id":"a","amount":"1"}]}"#,
        r#"EVENT_JSON:{"standard":"nep141","event":"ft_mint","data":[{"owner_id":"a","amount":"1"}]}"#,
        r#"EVENT_JSON:{"standard":"nep141","version":"1.0.0","event":"nft_mint","data":[]}"#,
        r#"EVENT_JSON:{"standard":"nep141","version":"1.0.0","event":"ft_mint","data":[{"owner_id":"a","amount":1}]}"#,
        r#"EVENT_JSON:{"standard":"nep141","version":"1.0.0","event":"ft_mint","data":[{"owner_id":"a","amount":"340282366920938463463374607431768211456"}]}"#,
        r#"EVENT_JSON:{"standard":"nep141","version":"1.0.0","event":"ft_mint","data":[{"owner_id":"a","amount":"1","memo":5}]}"#,
        r#"EVENT_JSON:{"standard":"nep141","version":"1.0.0","event":"ft_mint","data":[{"owner_id":"a","amount":"1"},{"amount":"2"}]}"#,
        r#"EVENT_JSON:{"standard":"nep141","version":"1.0.0","event":"ft_mint","data":{}}"#,
        r#"EVENT_JSON:[1,2]"#,
    ];
    for c in cases {
        assert_eq!(events_in_line(c), vec![], "{}", c);
    }
}

#[test]
fn empty_data_gives_no_events() {
    let e = r#"EVENT_JSON:{"standard":"nep141","version":"1.0.0","event":"ft_mint","data":[]}"#;
    assert_eq!(events_in_line(e), vec![]);
}

#[test]
fn documents_read_from_the_model() {
    let rec = JsonValue::Object(vec![
        ("amount".to_string(), JsonValue::Str("12".to_string())),
        ("owner_id".to_string(), JsonValue::Str("zed".to_string())),
    ]);
    assert_eq!(
        event_from_record(EventKind::Burn, &rec),
        Some(Event::Burn { account: "zed".to_string(), amount: 12 })
    );
    assert_eq!(event_from_record(EventKind::Transfer, &rec), None);
    let doc = JsonValue::Object(vec![
        ("data".to_string(), JsonValue::Array(vec![rec])),
        ("event".to_string(), JsonValue::Str("ft_mint".to_string())),
        ("standard".to_string(), JsonValue::Str("nep141".to_string())),
        ("version".to_string(), JsonValue::Str("1.0.0".to_string())),
    ]);
    assert_eq!(
        events_from_json(&doc),
        Some(vec![Event::Mint { account: "zed".to_string(), amount: 12 }])
    );
    assert_eq!(events_from_json(&JsonValue::Null), None);
}

#[test]
fn first_member_of_a_name_is_found() {
    let f = vec![
        ("b".to_string(), JsonValue::Bool(true)),
        ("a".to_string(), JsonValue::Str("x".to_string())),
        ("a".to_string(), JsonValue::Null),
    ];
    assert_eq!(find_field(&f, "a"), Some(1));
    assert_eq!(find_field(&f, "b"), Some(0));
    assert_eq!(find_field(&f, "c"), None);
}
