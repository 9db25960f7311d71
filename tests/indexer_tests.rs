use lolcoin_indexer::decimal::{format_u128, parse_u128};
use lolcoin_indexer::errors::{Error, ErrorKind};
use lolcoin_indexer::events::ReceiptOutcome;
use lolcoin_indexer::indexer::{
    checkpoint_from_text, checkpoint_text, resume_height, Block, BlockOutcome, Indexer, Shard,
};
use lolcoin_indexer::ledger::{Ledger, LedgerError};

const TARGET: &str = "token.near";

fn line(kind: &str, data: &str) -> String {
    format!(
        r#"EVENT_JSON:{{"standard":"nep141","version":"1.0.0","event":"{}","data":[{}]}}"#,
        kind, data
    )
}

fn block(height: u64, logs: Vec<String>) -> Block {
    Block {
        height,
        shards: vec![Shard {
            outcomes: vec![ReceiptOutcome { receiver: TARGET.to_string(), logs }],
        }],
    }
}

#[test]
fn replaying_a_block_applies_nothing_twice() {
    let mut ix = Indexer::new(Ledger::new(), 10);
    let b = block(11, vec![line("ft_mint", r#"{"owner_id":"alice","amount":"100"}"#)]);
    assert_eq!(ix.handle_block(&b, TARGET), Ok(BlockOutcome::Applied { events: 1 }));
    assert_eq!(ix.checkpoint(), 11);
    assert_eq!(ix.handle_block(&b, TARGET), Ok(BlockOutcome::AlreadyApplied));
    assert_eq!(ix.ledger().balance("alice"), Some(100));
    assert_eq!(ix.checkpoint(), 11);
    let old = block(5, vec![line("ft_mint", r#"{"owner_id":"alice","amount":"1"}"#)]);
    assert_eq!(ix.handle_block(&old, TARGET), Ok(BlockOutcome::AlreadyApplied));
    assert_eq!(ix.ledger().balance("alice"), Some(100));
}

#[test]
fn block_without_events_moves_checkpoint() {
    let mut ix = Indexer::new(Ledger::new(), 0);
    assert_eq!(ix.handle_block(&block(3, vec![]), TARGET), Ok(BlockOutcome::Applied { events: 0 }));
    assert_eq!(ix.checkpoint(), 3);
}

#[test]
fn failing_block_changes_nothing() {
    let mut ix = Indexer::new(Ledger::new(), 0);
    let b = block(
        1,
        vec![
            line("ft_mint", r#"{"owner_id":"bob","amount":"5"}"#),
            line("ft_transfer", r#"{"old_owner_id":"unknown","new_owner_id":"bob","amount":"50"}"#),
        ],
    );
    assert_eq!(ix.handle_block(&b, TARGET), Err(LedgerError::UnknownAccount));
    assert_eq!(ix.checkpoint(), 0);
    assert_eq!(ix.ledger().len(), 0);
}

#[test]
fn checkpoint_text_is_read_back() {
    assert_eq!(checkpoint_from_text(" 123\n", 5), 123);
    assert_eq!(checkpoint_from_text("", 97362869), 97362869);
    assert_eq!(checkpoint_from_text("12a", 7), 7);
    assert_eq!(checkpoint_from_text("18446744073709551616", 7), 7);
    assert_eq!(checkpoint_from_text(&checkpoint_text(u64::MAX), 0), u64::MAX);
    assert_eq!(checkpoint_text(0), "0");
    assert_eq!(checkpoint_text(97362869), "97362869");
}

#[test]
fn resume_starts_after_checkpoint() {
    assert_eq!(resume_height(97362869), Some(97362870));
    assert_eq!(resume_height(u64::MAX), None);
}

#[test]
fn decimal_amounts() {
    assert_eq!(parse_u128("0"), Some(0));
    assert_eq!(parse_u128("007"), Some(7));
    assert_eq!(parse_u128("340282366920938463463374607431768211455"), Some(u128::MAX));
    assert_eq!(parse_u128("340282366920938463463374607431768211456"), None);
    assert_eq!(parse_u128(""), None);
    assert_eq!(parse_u128("-1"), None);
    assert_eq!(parse_u128("1 "), None);
    assert_eq!(format_u128(u128::MAX), "340282366920938463463374607431768211455");
    assert_eq!(format_u128(100), "100");
}

#[test]
fn error_kinds_get_codes() {
    let e = Error::from_error_kind(ErrorKind::InvalidInput("bad".to_string()));
    assert_eq!(e, Error { code: 400, message: "Invalid Input: bad".to_string(), retriable: false });
    let e = Error::from_error_kind(ErrorKind::InternalError("x".to_string()));
    assert_eq!(e, Error { code: 500, message: "Internal Error: x".to_string(), retriable: true });
    let e = Error::from_error_kind(ErrorKind::RPCError("y".to_string()));
    assert_eq!(e, Error { code: 500, message: "RPC error: y".to_string(), retriable: true });
}

#[test]
fn errors_read_as_one_line() {
    let e = Error::from_error_kind(ErrorKind::RPCError("down".to_string()));
    assert_eq!(e.describe(), "Error #500 (retriable): RPC error: down");
    let e = Error::from_error_kind(ErrorKind::InvalidInput("x".to_string()));
    assert_eq!(e.describe(), "Error #400: Invalid Input: x");
}
