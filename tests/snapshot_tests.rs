use lolcoin_indexer::json::JsonValue;
use lolcoin_indexer::ledger::{Ledger, User};
use lolcoin_indexer::snapshot::user_from_json;

fn user(a: &str, name: &str, grade: &str, b: u128) -> User {
    User {
        full_name: name.to_string(),
        school_grade: grade.to_string(),
        account_id: a.to_string(),
        balance: b,
    }
}

#[test]
fn snapshot_round_trip() {
    let l = Ledger::from_users(vec![
        user("alice.near", "Alice A", "5", 100),
        user("bob.near", "Bob", "", u128::MAX),
        user("zero.near", "Zero", "11", 0),
    ])
    .unwrap();
    let text = l.to_text();
    assert!(text.contains("\"accountId\": \"alice.near\""));
    assert!(text.contains("\"balance\": \"340282366920938463463374607431768211455\""));
    let back = Ledger::from_text(&text).unwrap();
    assert_eq!(back.users(), l.users());
    let back = Ledger::from_json(&l.to_json()).unwrap();
    assert_eq!(back.users(), l.users());
}

#[test]
fn snapshot_with_members_in_any_order() {
    let text = r#"[
      {"fullName": "Alice", "schoolGrade": "5", "accountId": "alice", "balance": "60"},
      {"fullName": "Bob", "schoolGrade": "6", "accountId": "bob", "balance": "40", "extra": 1}
    ]"#;
    let l = Ledger::from_text(text).unwrap();
    assert_eq!(l.balance("alice"), Some(60));
    assert_eq!(l.balance("bob"), Some(40));
    assert_eq!(l.users()[0].full_name, "Alice");
}

#[test]
fn empty_snapshot() {
    let l = Ledger::from_text("[]").unwrap();
    assert_eq!(l.len(), 0);
    assert_eq!(Ledger::new().to_text(), "[]");
}

#[test]
fn malformed_snapshots_are_refused() {
    assert!(Ledger::from_text("").is_none());
    assert!(Ledger::from_text("{}").is_none());
    assert!(Ledger::from_text(r#"[{"fullName":"A","schoolGrade":"","accountId":"a","balance":60}]"#).is_none());
    assert!(Ledger::from_text(r#"[{"fullName":"A","schoolGrade":"","accountId":"a"}]"#).is_none());
    assert!(Ledger::from_text(
        r#"[{"fullName":"A","schoolGrade":"","accountId":"a","balance":"1"},{"fullName":"B","schoolGrade":"","accountId":"a","balance":"2"}]"#
    )
    .is_none());
    assert!(user_from_json(&JsonValue::Array(vec![])).is_none());
}
