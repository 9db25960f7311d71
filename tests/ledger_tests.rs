use lolcoin_indexer::events::Event;
use lolcoin_indexer::ledger::{Ledger, LedgerError, User};

fn mint(a: &str, n: u128) -> Event {
    Event::Mint { account: a.to_string(), amount: n }
}

fn burn(a: &str, n: u128) -> Event {
    Event::Burn { account: a.to_string(), amount: n }
}

fn transfer(f: &str, t: &str, n: u128) -> Event {
    Event::Transfer { from: f.to_string(), to: t.to_string(), amount: n }
}

fn total(l: &Ledger) -> u128 {
    l.users().iter().map(|u| u.balance).sum()
}

#[test]
fn supply_is_minted_minus_burned() {
    let mut l = Ledger::new();
    let es = vec![
        mint("alice", 100),
        mint("bob", 30),
        transfer("alice", "carol", 25),
        burn("bob", 10),
        transfer("carol", "bob", 5),
        mint("alice", 7),
        burn("alice", 2),
    ];
    for e in &es {
        let before = total(&l);
        l.apply_event(e).unwrap();
        if let Event::Transfer { .. } = e {
            assert_eq!(total(&l), before);
        }
    }
    assert_eq!(total(&l), 100 + 30 + 7 - 10 - 2);
    assert_eq!(l.balance("alice"), Some(80));
    assert_eq!(l.balance("bob"), Some(25));
    assert_eq!(l.balance("carol"), Some(20));
}

#[test]
fn mint_overflow_is_fatal() {
    let mut l = Ledger::new();
    assert_eq!(l.apply_event(&mint("bob", u128::MAX)), Ok(()));
    assert_eq!(l.apply_event(&mint("bob", 1)), Err(LedgerError::Overflow));
    assert_eq!(l.balance("bob"), Some(u128::MAX));
}

#[test]
fn transfer_from_unknown_account_is_fatal() {
    let mut l = Ledger::new();
    l.apply_event(&mint("bob", 5)).unwrap();
    assert_eq!(
        l.apply_event(&transfer("unknown", "bob", 50)),
        Err(LedgerError::UnknownAccount)
    );
    assert_eq!(l.balance("bob"), Some(5));
    assert_eq!(l.len(), 1);
}

#[test]
fn transfer_moves_balance() {
    let mut l = Ledger::new();
    l.apply_event(&mint("alice", 100)).unwrap();
    l.apply_event(&transfer("alice", "bob", 40)).unwrap();
    assert_eq!(l.balance("alice"), Some(60));
    assert_eq!(l.balance("bob"), Some(40));
    assert_eq!(l.len(), 2);
    let bob = &l.users()[1];
    assert_eq!(bob.account_id, "bob");
    assert_eq!(bob.full_name, "bob");
    assert_eq!(bob.school_grade, "");
}

#[test]
fn burn_below_zero_is_fatal() {
    let mut l = Ledger::new();
    l.apply_event(&mint("alice", 10)).unwrap();
    assert_eq!(l.apply_event(&burn("alice", 11)), Err(LedgerError::Underflow));
    assert_eq!(l.balance("alice"), Some(10));
    assert_eq!(l.apply_event(&burn("alice", 10)), Ok(()));
    assert_eq!(l.balance("alice"), Some(0));
}

#[test]
fn burn_of_unknown_account_is_fatal() {
    let mut l = Ledger::new();
    assert_eq!(l.apply_event(&burn("ghost", 1)), Err(LedgerError::UnknownAccount));
    assert_eq!(l.len(), 0);
}

#[test]
fn transfer_overdraft_is_fatal_and_changes_nothing() {
    let mut l = Ledger::new();
    l.apply_event(&mint("alice", 10)).unwrap();
    assert_eq!(l.apply_event(&transfer("alice", "bob", 11)), Err(LedgerError::Underflow));
    assert_eq!(l.balance("alice"), Some(10));
    assert_eq!(l.balance("bob"), None);
}

#[test]
fn transfer_credit_overflow_leaves_debit_undone() {
    let mut l = Ledger::new();
    l.apply_event(&mint("alice", 10)).unwrap();
    l.apply_event(&mint("bob", u128::MAX)).unwrap();
    assert_eq!(l.apply_event(&transfer("alice", "bob", 1)), Err(LedgerError::Overflow));
    assert_eq!(l.balance("alice"), Some(10));
    assert_eq!(l.balance("bob"), Some(u128::MAX));
}

#[test]
fn transfer_to_self_keeps_balance() {
    let mut l = Ledger::new();
    l.apply_event(&mint("alice", u128::MAX)).unwrap();
    assert_eq!(l.apply_event(&transfer("alice", "alice", 5)), Ok(()));
    assert_eq!(l.balance("alice"), Some(u128::MAX));
    assert_eq!(l.apply_event(&transfer("alice", "alice", 0)), Ok(()));
}

#[test]
fn apply_events_is_all_or_nothing() {
    let mut l = Ledger::new();
    l.apply_event(&mint("alice", 10)).unwrap();
    let es = vec![mint("alice", 5), transfer("alice", "bob", 3), burn("carol", 1)];
    assert_eq!(l.apply_events(&es), Err(LedgerError::UnknownAccount));
    assert_eq!(l.balance("alice"), Some(10));
    assert_eq!(l.balance("bob"), None);
    let es = vec![mint("alice", 5), transfer("alice", "bob", 3)];
    assert_eq!(l.apply_events(&es), Ok(()));
    assert_eq!(l.balance("alice"), Some(12));
    assert_eq!(l.balance("bob"), Some(3));
}

#[test]
fn from_users_rejects_repeated_ids() {
    let u = |a: &str, b: u128| User {
        full_name: a.to_string(),
        school_grade: "7".to_string(),
        account_id: a.to_string(),
        balance: b,
    };
    assert!(Ledger::from_users(vec![u("a", 1), u("b", 2), u("a", 3)]).is_none());
    let l = Ledger::from_users(vec![u("a", 1), u("b", 2)]).unwrap();
    assert_eq!(l.balance("b"), Some(2));
    assert_eq!(l.balance("c"), None);
    let c = l.copied();
    assert_eq!(c.users(), l.users());
}
