use vstd::prelude::*;
use crate::decimal::{decimal_value, format_u128, is_canonical_decimal};
use crate::events::amount_of;
use crate::json::{field, find_field, json_parse, json_pretty_text, parse_json, text_field, to_pretty_json, JsonValue};
use crate::ledger::{keys_unique, Ledger, User, UserView};

verus! {

/// The account that a snapshot record stands for: an object whose string
/// members `accountId`, `balance` (in decimal digits), `fullName` and
/// `schoolGrade` give its fields. `None` where the record is anything else.
pub open spec fn entry_of(v: JsonValue) -> Option<UserView> {
    match v {
        JsonValue::Object(f) => match (
            text_field(f@, "accountId"@),
            text_field(f@, "balance"@),
            text_field(f@, "fullName"@),
            text_field(f@, "schoolGrade"@),
        ) {
            (Some(a), Some(b), Some(n), Some(g)) => match amount_of(b) {
                Some(x) => Some(
                    UserView { full_name: n@, school_grade: g@, account_id: a@, balance: x },
                ),
                None => None,
            },
            _ => None,
        },
        _ => None,
    }
}

/// The accounts of a sequence of snapshot records, in order.
pub open spec fn entries_of(items: Seq<JsonValue>) -> Option<Seq<UserView>>
    decreases items.len(),
{
    if items.len() == 0 {
        Some(Seq::empty())
    } else {
        match (entries_of(items.drop_last()), entry_of(items.last())) {
            (Some(s), Some(u)) => Some(s.push(u)),
            _ => None,
        }
    }
}

/// The ledger that a snapshot document stands for: an array of records with
/// no account id twice.
pub open spec fn snapshot_of(v: JsonValue) -> Option<Seq<UserView>> {
    match v {
        JsonValue::Array(items) => match entries_of(items@) {
            Some(s) => if keys_unique(s) {
                Some(s)
            } else {
                None
            },
            None => None,
        },
        _ => None,
    }
}

/// Whether a member is the string `text` under the name `key`.
pub open spec fn member_is(m: (String, JsonValue), key: Seq<char>, text: Seq<char>) -> bool {
    m.0@ == key && (m.1 matches JsonValue::Str(t) && t@ == text)
}

/// Whether `v` is the record that the library writes for the account `u`:
/// its id, its balance in decimal digits without leading zeros, its name and
/// its grade, under the names `accountId`, `balance`, `fullName`, `schoolGrade`.
pub open spec fn encodes_user(v: JsonValue, u: UserView) -> bool {
    v matches JsonValue::Object(f) && f@.len() == 4 && member_is(f@[0], "accountId"@, u.account_id)
        && f@[1].0@ == "balance"@ && (f@[1].1 matches JsonValue::Str(b) && is_canonical_decimal(b@)
        && decimal_value(b@) == u.balance) && member_is(f@[2], "fullName"@, u.full_name)
        && member_is(f@[3], "schoolGrade"@, u.school_grade)
}

/// Whether `v` is the snapshot document that the library writes for the
/// ledger `s`: an array of one record per account, in ledger order.
pub open spec fn encodes(v: JsonValue, s: Seq<UserView>) -> bool {
    v matches JsonValue::Array(items) && items@.len() == s.len() && forall|i: int|
        0 <= i < s.len() ==> #[trigger] encodes_user(items@[i], s[i])
}

proof fn lemma_entry_round_trip(v: JsonValue, u: UserView)
    requires
        encodes_user(v, u),
    ensures
        entry_of(v) == Some(u),
{
    reveal_strlit("accountId");
    reveal_strlit("balance");
    reveal_strlit("fullName");
    reveal_strlit("schoolGrade");
    assert("accountId"@.len() == 9 && "balance"@.len() == 7);
    assert("fullName"@.len() == 8 && "schoolGrade"@.len() == 11);
    if let JsonValue::Object(f) = v {
        let s0 = f@;
        let s1 = s0.drop_first();
        let s2 = s1.drop_first();
        let s3 = s2.drop_first();
        assert(s1[0] == s0[1] && s2[0] == s0[2] && s3[0] == s0[3]);
        assert(field(s0, "accountId"@) == Some(s0[0].1));
        assert(field(s1, "balance"@) == Some(s0[1].1));
        assert(field(s0, "balance"@) == Some(s0[1].1));
        assert(field(s2, "fullName"@) == Some(s0[2].1));
        assert(field(s1, "fullName"@) == Some(s0[2].1));
        assert(field(s0, "fullName"@) == Some(s0[2].1));
        assert(field(s3, "schoolGrade"@) == Some(s0[3].1));
        assert(field(s2, "schoolGrade"@) == Some(s0[3].1));
        assert(field(s1, "schoolGrade"@) == Some(s0[3].1));
        assert(field(s0, "schoolGrade"@) == Some(s0[3].1));
    }
}

/// Round trip of snapshots: the document that the library writes for a
/// well-formed ledger reads back as the same accounts, in the same order,
/// with the same balances.
pub proof fn lemma_snapshot_round_trip(v: JsonValue, s: Seq<UserView>)
    requires
        encodes(v, s),
        keys_unique(s),
    ensures
        snapshot_of(v) == Some(s),
{
    if let JsonValue::Array(items) = v {
        lemma_entries_round_trip(items@, s);
    }
}

proof fn lemma_entries_round_trip(items: Seq<JsonValue>, s: Seq<UserView>)
    requires
        items.len() == s.len(),
        forall|i: int| 0 <= i < s.len() ==> #[trigger] encodes_user(items[i], s[i]),
    ensures
        entries_of(items) == Some(s),
    decreases items.len(),
{
    if items.len() > 0 {
        let (t, r) = (items.drop_last(), s.drop_last());
        assert forall|i: int| 0 <= i < r.len() implies #[trigger] encodes_user(t[i], r[i]) by {
            assert(t[i] == items[i] && r[i] == s[i]);
        }
        lemma_entries_round_trip(t, r);
        assert(encodes_user(items[items.len() - 1], s[s.len() - 1]));
        lemma_entry_round_trip(items.last(), s.last());
        assert(r.push(s.last()) =~= s);
    }
}

/// The snapshot record of one account.
fn user_to_json(u: &User) -> (r: JsonValue)
    ensures
        encodes_user(r, u@),
{
    let f = vec![
        (String::from_str("accountId"), JsonValue::Str(u.account_id.clone())),
        (String::from_str("balance"), JsonValue::Str(format_u128(u.balance))),
        (String::from_str("fullName"), JsonValue::Str(u.full_name.clone())),
        (String::from_str("schoolGrade"), JsonValue::Str(u.school_grade.clone())),
    ];
    JsonValue::Object(f)
}

/// The text member `key` of a record.
fn text_of(fields: &Vec<(String, JsonValue)>, key: &str) -> (r: Option<String>)
    ensures
        r == text_field(fields@, key@),
{
    match find_field(fields, key) {
        Some(i) => match &fields[i].1 {
            JsonValue::Str(s) => Some(s.clone()),
            _ => None,
        },
        None => None,
    }
}

/// Reads one snapshot record as an account.
pub fn user_from_json(v: &JsonValue) -> (r: Option<User>)
    ensures
        match r {
            Some(u) => entry_of(*v) == Some(u@),
            None => entry_of(*v) is None,
        },
{
    let f = match v {
        JsonValue::Object(f) => f,
        _ => return None,
    };
    let a = text_of(f, "accountId");
    let b = text_of(f, "balance");
    let n = text_of(f, "fullName");
    let g = text_of(f, "schoolGrade");
    match (a, b, n, g) {
        (Some(a), Some(b), Some(n), Some(g)) => match crate::decimal::parse_u128(b.as_str()) {
            Some(x) => Some(User { full_name: n, school_grade: g, account_id: a, balance: x }),
            None => None,
        },
        _ => None,
    }
}

impl Ledger {
    /// The snapshot document of this ledger: one record per account, in
    /// ledger order.
    pub fn to_json(&self) -> (r: JsonValue)
        ensures
            encodes(r, self@),
    {
        let users = self.users();
        let mut items: Vec<JsonValue> = Vec::new();
        let mut i: usize = 0;
        while i < users.len()
            invariant
                0 <= i <= users@.len(),
                users@.map_values(|u: User| u@) == self@,
                items@.len() == i,
                forall|k: int| 0 <= k < i ==> #[trigger] encodes_user(items@[k], self@[k]),
            decreases users@.len() - i,
        {
            items.push(user_to_json(&users[i]));
            i = i + 1;
        }
        JsonValue::Array(items)
    }

    /// Reads a snapshot document; `None` where a record is malformed or two
    /// records share an account id.
    pub fn from_json(v: &JsonValue) -> (r: Option<Ledger>)
        ensures
            match r {
                Some(l) => l.wf() && snapshot_of(*v) == Some(l@),
                None => snapshot_of(*v) is None,
            },
    {
        let items = match v {
            JsonValue::Array(items) => items,
            _ => return None,
        };
        let mut users: Vec<User> = Vec::new();
        let mut i: usize = 0;
        while i < items.len()
            invariant
                0 <= i <= items@.len(),
                *v == JsonValue::Array(*items),
                entries_of(items@.subrange(0, i as int)) == Some(
                    users@.map_values(|u: User| u@),
                ),
            decreases items@.len() - i,
        {
            assert(items@.subrange(0, i + 1).drop_last() =~= items@.subrange(0, i as int));
            match user_from_json(&items[i]) {
                Some(u) => {
                    let ghost prev = users@;
                    users.push(u);
                    assert(users@.map_values(|u: User| u@) =~= prev.map_values(|u: User| u@).push(
                        u@,
                    ));
                },
                None => {
                    proof {
                        lemma_entries_failure_persists(items@, i + 1);
                    }
                    return None;
                },
            }
            i = i + 1;
        }
        assert(items@.subrange(0, items@.len() as int) =~= items@);
        Ledger::from_users(users)
    }

    /// The snapshot of this ledger as pretty-printed JSON text.
    pub fn to_text(&self) -> (r: String)
        ensures
            exists|v: JsonValue| encodes(v, self@) && r@ == json_pretty_text(v),
    {
        let v = self.to_json();
        to_pretty_json(&v)
    }

    /// Reads a ledger from the text of a snapshot; `None` where the text is no
    /// JSON or not a valid snapshot.
    pub fn from_text(s: &str) -> (r: Option<Ledger>)
        ensures
            match r {
                Some(l) => l.wf() && (json_parse(s@) matches Some(v) && snapshot_of(v) == Some(l@)),
                None => !(json_parse(s@) matches Some(v) && snapshot_of(v) is Some),
            },
    {
        match parse_json(s) {
            Some(v) => Ledger::from_json(&v),
            None => None,
        }
    }
}

proof fn lemma_entries_failure_persists(items: Seq<JsonValue>, j: int)
    requires
        0 <= j <= items.len(),
        entries_of(items.subrange(0, j)) is None,
    ensures
        entries_of(items) is None,
    decreases items.len() - j,
{
    if j < items.len() {
        assert(items.subrange(0, j + 1).drop_last() =~= items.subrange(0, j));
        lemma_entries_failure_persists(items, j + 1);
    } else {
        assert(items.subrange(0, j) =~= items);
    }
}

} // verus!
