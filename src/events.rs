use vstd::prelude::*;
use crate::decimal::{decimal_value, is_decimal, parse_u128};
use crate::json::{field, find_field, json_parse, parse_json, text_field, JsonValue};
use crate::text::{strip_text_prefix, trim_text, trimmed};

verus! {

/// A movement of tokens, as the token contract reports it.
#[derive(Debug, Clone, PartialEq, Eq)]
pub enum Event {
    Mint { account: String, amount: u128 },
    Burn { account: String, amount: u128 },
    Transfer { from: String, to: String, amount: u128 },
}

/// The three kinds of event record, named by the `event` member.
#[derive(PartialEq, Eq, Structural, Clone, Copy)]
pub enum EventKind {
    Mint,
    Transfer,
    Burn,
}

/// The kind that an `event` member names.
pub open spec fn kind_named(name: Seq<char>) -> Option<EventKind> {
    if name == "ft_mint"@ {
        Some(EventKind::Mint)
    } else if name == "ft_transfer"@ {
        Some(EventKind::Transfer)
    } else if name == "ft_burn"@ {
        Some(EventKind::Burn)
    } else {
        None
    }
}

/// The amount that a string member writes in decimal digits.
pub open spec fn amount_of(s: String) -> Option<u128> {
    if is_decimal(s@) && decimal_value(s@) <= u128::MAX {
        Some(decimal_value(s@) as u128)
    } else {
        None
    }
}

/// The text member `key` of a record, read as an amount.
pub open spec fn amount_field(fields: Seq<(String, JsonValue)>, key: Seq<char>) -> Option<u128> {
    match text_field(fields, key) {
        Some(s) => amount_of(s),
        None => None,
    }
}

/// Whether a record's optional `memo` is absent, null or a string.
pub open spec fn memo_ok(fields: Seq<(String, JsonValue)>) -> bool {
    match field(fields, "memo"@) {
        None => true,
        Some(JsonValue::Null) => true,
        Some(JsonValue::Str(_)) => true,
        _ => false,
    }
}

/// The event that one record of the `data` array stands for.
pub open spec fn record_event(kind: EventKind, v: JsonValue) -> Option<Event> {
    match v {
        JsonValue::Object(f) => {
            let amount = amount_field(f@, "amount"@);
            if !memo_ok(f@) || amount is None {
                None
            } else {
                match kind {
                    EventKind::Mint => match text_field(f@, "owner_id"@) {
                        Some(a) => Some(Event::Mint { account: a, amount: amount->0 }),
                        None => None,
                    },
                    EventKind::Burn => match text_field(f@, "owner_id"@) {
                        Some(a) => Some(Event::Burn { account: a, amount: amount->0 }),
                        None => None,
                    },
                    EventKind::Transfer => match (
                        text_field(f@, "old_owner_id"@),
                        text_field(f@, "new_owner_id"@),
                    ) {
                        (Some(a), Some(b)) => Some(
                            Event::Transfer { from: a, to: b, amount: amount->0 },
                        ),
                        _ => None,
                    },
                }
            }
        },
        _ => None,
    }
}

/// The events of a `data` array, in order: `None` where one record is malformed.
pub open spec fn records_events(kind: EventKind, items: Seq<JsonValue>) -> Option<Seq<Event>>
    decreases items.len(),
{
    if items.len() == 0 {
        Some(Seq::empty())
    } else {
        match (records_events(kind, items.drop_last()), record_event(kind, items.last())) {
            (Some(es), Some(e)) => Some(es.push(e)),
            _ => None,
        }
    }
}

/// The events of a tagged document: an object whose `standard` is "nep141",
/// whose `version` is a string, whose `event` names a kind and whose `data` is
/// an array of records of that kind. `None` where it is anything else.
pub open spec fn document_events(v: JsonValue) -> Option<Seq<Event>> {
    match v {
        JsonValue::Object(f) => {
            let standard = text_field(f@, "standard"@);
            let kind = match text_field(f@, "event"@) {
                Some(name) => kind_named(name@),
                None => None,
            };
            if !(standard matches Some(s) && s@ == "nep141"@) || text_field(f@, "version"@) is None
                || kind is None {
                None
            } else {
                match field(f@, "data"@) {
                    Some(JsonValue::Array(items)) => records_events(kind->0, items@),
                    _ => None,
                }
            }
        },
        _ => None,
    }
}

/// The events of one log line: a line that, trimmed, starts with the tag
/// "EVENT_JSON:" followed by a tagged document. Any other line, and a tagged
/// line whose document is not valid, gives none.
pub open spec fn line_events(line: Seq<char>) -> Seq<Event> {
    let t = trimmed(line);
    let tag = "EVENT_JSON:"@;
    if tag.is_prefix_of(t) {
        match json_parse(trimmed(t.subrange(tag.len() as int, t.len() as int))) {
            Some(v) => match document_events(v) {
                Some(es) => es,
                None => Seq::empty(),
            },
            None => Seq::empty(),
        }
    } else {
        Seq::empty()
    }
}

/// The events of a sequence of log lines, in log order.
pub open spec fn logs_events(logs: Seq<String>) -> Seq<Event>
    decreases logs.len(),
{
    if logs.len() == 0 {
        Seq::empty()
    } else {
        logs_events(logs.drop_last()) + line_events(logs.last()@)
    }
}

/// The events of two runs of log lines, one after the other, are those of
/// the first run followed by those of the second.
pub proof fn lemma_logs_events_concat(a: Seq<String>, b: Seq<String>)
    ensures
        logs_events(a + b) == logs_events(a) + logs_events(b),
    decreases b.len(),
{
    if b.len() == 0 {
        assert(a + b =~= a);
        assert(logs_events(a) + Seq::<Event>::empty() =~= logs_events(a));
    } else {
        assert((a + b).drop_last() =~= a + b.drop_last());
        lemma_logs_events_concat(a, b.drop_last());
        assert(logs_events(a) + logs_events(b.drop_last()) + line_events(b.last()@) =~= logs_events(a)
            + (logs_events(b.drop_last()) + line_events(b.last()@)));
    }
}

/// A tagged line whose document is not valid JSON is dropped, and nothing
/// else: a receipt's events are then those of the lines before it followed by
/// those of the lines after it.
pub proof fn lemma_invalid_json_line_dropped(logs: Seq<String>, i: int)
    requires
        0 <= i < logs.len(),
        "EVENT_JSON:"@.is_prefix_of(trimmed(logs[i]@)),
        json_parse(
            trimmed(
                trimmed(logs[i]@).subrange("EVENT_JSON:"@.len() as int, trimmed(logs[i]@).len() as int),
            ),
        ) is None,
    ensures
        line_events(logs[i]@) == Seq::<Event>::empty(),
        logs_events(logs) == logs_events(logs.subrange(0, i)) + logs_events(
            logs.subrange(i + 1, logs.len() as int),
        ),
{
    let (a, c) = (logs.subrange(0, i), logs.subrange(i + 1, logs.len() as int));
    let l = seq![logs[i]];
    assert(logs =~= a + l + c);
    lemma_logs_events_concat(a + l, c);
    lemma_logs_events_concat(a, l);
    assert(l.drop_last() =~= Seq::<String>::empty());
    assert(l.last() == logs[i]);
    assert(logs_events(l.drop_last()) == Seq::<Event>::empty());
    assert(logs_events(l) =~= Seq::<Event>::empty() + line_events(logs[i]@));
    assert(logs_events(a) + Seq::<Event>::empty() =~= logs_events(a));
}

/// The text member `key` of a record.
fn text_member(fields: &Vec<(String, JsonValue)>, key: &str) -> (r: Option<String>)
    ensures
        r == text_field(fields@, key@),
{
    match find_field(fields, key) {
        Some(i) => match &fields[i].1 {
            JsonValue::Str(s) => Some(s.clone()),
            _ => None,
        },
        None => None,
    }
}

/// The text member `key` of a record, read as an amount.
fn amount_member(fields: &Vec<(String, JsonValue)>, key: &str) -> (r: Option<u128>)
    ensures
        r == amount_field(fields@, key@),
{
    match text_member(fields, key) {
        Some(s) => parse_u128(s.as_str()),
        None => None,
    }
}

/// Whether a record's optional `memo` is absent, null or a string.
fn memo_valid(fields: &Vec<(String, JsonValue)>) -> (r: bool)
    ensures
        r == memo_ok(fields@),
{
    match find_field(fields, "memo") {
        Some(i) => match &fields[i].1 {
            JsonValue::Null => true,
            JsonValue::Str(_) => true,
            _ => false,
        },
        None => true,
    }
}

/// Reads one record of the `data` array as an event of the given kind.
pub fn event_from_record(kind: EventKind, v: &JsonValue) -> (r: Option<Event>)
    ensures
        r == record_event(kind, *v),
{
    match v {
        JsonValue::Object(f) => {
            let amount = amount_member(f, "amount");
            if !memo_valid(f) {
                return None;
            }
            let amount = match amount {
                Some(n) => n,
                None => return None,
            };
            match kind {
                EventKind::Mint => match text_member(f, "owner_id") {
                    Some(a) => Some(Event::Mint { account: a, amount }),
                    None => None,
                },
                EventKind::Burn => match text_member(f, "owner_id") {
                    Some(a) => Some(Event::Burn { account: a, amount }),
                    None => None,
                },
                EventKind::Transfer => {
                    let from = text_member(f, "old_owner_id");
                    let to = text_member(f, "new_owner_id");
                    match (from, to) {
                        (Some(a), Some(b)) => Some(Event::Transfer { from: a, to: b, amount }),
                        _ => None,
                    }
                },
            }
        },
        _ => None,
    }
}

/// Reads a tagged document as the events it reports, in order; `None` where
/// it is not a valid one.
pub fn events_from_json(doc: &JsonValue) -> (r: Option<Vec<Event>>)
    ensures
        match r {
            Some(es) => document_events(*doc) == Some(es@),
            None => document_events(*doc) is None,
        },
{
    let f = match doc {
        JsonValue::Object(f) => f,
        _ => return None,
    };
    let standard_ok = match text_member(f, "standard") {
        Some(s) => s == String::from_str("nep141"),
        None => false,
    };
    let version = text_member(f, "version");
    let kind = match text_member(f, "event") {
        Some(name) => if name == String::from_str("ft_mint") {
            Some(EventKind::Mint)
        } else if name == String::from_str("ft_transfer") {
            Some(EventKind::Transfer)
        } else if name == String::from_str("ft_burn") {
            Some(EventKind::Burn)
        } else {
            None
        },
        None => None,
    };
    if !standard_ok || version.is_none() {
        return None;
    }
    let kind = match kind {
        Some(k) => k,
        None => return None,
    };
    let items = match find_field(f, "data") {
        Some(i) => match &f[i].1 {
            JsonValue::Array(items) => items,
            _ => return None,
        },
        None => return None,
    };
    let mut out: Vec<Event> = Vec::new();
    let mut i: usize = 0;
    while i < items.len()
        invariant
            0 <= i <= items@.len(),
            document_events(*doc) == records_events(kind, items@),
            records_events(kind, items@.subrange(0, i as int)) == Some(out@),
        decreases items@.len() - i,
    {
        assert(items@.subrange(0, i + 1).drop_last() =~= items@.subrange(0, i as int));
        match event_from_record(kind, &items[i]) {
            Some(e) => out.push(e),
            None => {
                proof {
                    lemma_records_failure_persists(kind, items@, i + 1);
                }
                return None;
            },
        }
        i = i + 1;
    }
    assert(items@.subrange(0, items@.len() as int) =~= items@);
    Some(out)
}

/// Once a prefix of the records holds a malformed one, so does every longer prefix.
proof fn lemma_records_failure_persists(kind: EventKind, items: Seq<JsonValue>, j: int)
    requires
        0 <= j <= items.len(),
        records_events(kind, items.subrange(0, j)) is None,
    ensures
        records_events(kind, items) is None,
    decreases items.len() - j,
{
    if j < items.len() {
        assert(items.subrange(0, j + 1).drop_last() =~= items.subrange(0, j));
        lemma_records_failure_persists(kind, items, j + 1);
    } else {
        assert(items.subrange(0, j) =~= items);
    }
}

/// The events that one log line reports; none where the line is untagged or
/// its document is not valid.
pub fn events_in_line(line: &str) -> (r: Vec<Event>)
    ensures
        r@ == line_events(line@),
{
    let t = trim_text(line);
    match strip_text_prefix(t, "EVENT_JSON:") {
        Some(rest) => {
            proof {
                reveal_strlit("EVENT_JSON:");
            }
            match parse_json(trim_text(rest)) {
                Some(doc) => match events_from_json(&doc) {
                    Some(es) => es,
                    None => Vec::new(),
                },
                None => Vec::new(),
            }
        },
        None => Vec::new(),
    }
}

/// What one executed receipt left behind: the account that received it, and
/// the lines that it logged.
pub struct ReceiptOutcome {
    pub receiver: String,
    pub logs: Vec<String>,
}

/// The events that a receipt's log lines report, in log order.
pub fn extract_events(outcome: &ReceiptOutcome) -> (r: Vec<Event>)
    ensures
        r@ == logs_events(outcome.logs@),
{
    let logs = &outcome.logs;
    let mut out: Vec<Event> = Vec::new();
    let mut i: usize = 0;
    while i < logs.len()
        invariant
            0 <= i <= logs@.len(),
            out@ == logs_events(logs@.subrange(0, i as int)),
        decreases logs@.len() - i,
    {
        assert(logs@.subrange(0, i + 1).drop_last() =~= logs@.subrange(0, i as int));
        let mut es = events_in_line(logs[i].as_str());
        out.append(&mut es);
        i = i + 1;
    }
    assert(logs@.subrange(0, logs@.len() as int) =~= logs@);
    out
}

} // verus!
