use vstd::prelude::*;
use crate::events::Event;

verus! {

/// One account of the ledger: its id, its balance, and descriptive details
/// that the ledger keeps but never reads.
#[derive(Debug, Clone, PartialEq, Eq)]
pub struct User {
    pub full_name: String,
    pub school_grade: String,
    pub account_id: String,
    pub balance: u128,
}

/// An account as the contracts speak of it.
pub struct UserView {
    pub full_name: Seq<char>,
    pub school_grade: Seq<char>,
    pub account_id: Seq<char>,
    pub balance: u128,
}

impl View for User {
    type V = UserView;

    open spec fn view(&self) -> UserView {
        UserView {
            full_name: self.full_name@,
            school_grade: self.school_grade@,
            account_id: self.account_id@,
            balance: self.balance,
        }
    }
}

impl User {
    /// A copy of this account.
    pub fn copied(&self) -> (r: User)
        ensures
            r@ == self@,
    {
        User {
            full_name: self.full_name.clone(),
            school_grade: self.school_grade.clone(),
            account_id: self.account_id.clone(),
            balance: self.balance,
        }
    }
}

/// Why an event cannot be applied to the ledger. Each of them means that the
/// ledger and the chain disagree, and stops the indexer.
#[derive(Debug, Clone, Copy, PartialEq, Eq, Structural)]
pub enum LedgerError {
    /// A credit would take a balance above `u128::MAX`.
    Overflow,
    /// A debit would take a balance below zero.
    Underflow,
    /// A debit names an account that the ledger does not hold.
    UnknownAccount,
}

/// Whether no two accounts share an id.
pub open spec fn keys_unique(s: Seq<UserView>) -> bool {
    forall|i: int, j: int|
        0 <= i < s.len() && 0 <= j < s.len() && i != j ==> s[i].account_id != s[j].account_id
}

/// Where the account `a` stands in the ledger, if it is there.
pub open spec fn find(s: Seq<UserView>, a: Seq<char>) -> Option<int>
    decreases s.len(),
{
    if s.len() == 0 {
        None
    } else if s.last().account_id == a {
        Some(s.len() - 1)
    } else {
        find(s.drop_last(), a)
    }
}

/// The balance of the account `a`, if the ledger holds it.
pub open spec fn balance_of(s: Seq<UserView>, a: Seq<char>) -> Option<u128> {
    match find(s, a) {
        Some(i) => Some(s[i].balance),
        None => None,
    }
}

/// The account `u` with the balance `b`.
pub open spec fn with_balance(u: UserView, b: u128) -> UserView {
    UserView { balance: b, ..u }
}

/// An account that the ledger did not hold, created by a credit of `x`: its
/// name stands for its id until the details are filled in.
pub open spec fn new_user(a: Seq<char>, x: u128) -> UserView {
    UserView { full_name: a, school_grade: Seq::empty(), account_id: a, balance: x }
}

/// Adds `x` to the account `a`, creating it where it is absent.
pub open spec fn credit(s: Seq<UserView>, a: Seq<char>, x: u128) -> Result<
    Seq<UserView>,
    LedgerError,
> {
    match find(s, a) {
        Some(i) => if s[i].balance + x > u128::MAX {
            Err(LedgerError::Overflow)
        } else {
            Ok(s.update(i, with_balance(s[i], (s[i].balance + x) as u128)))
        },
        None => Ok(s.push(new_user(a, x))),
    }
}

/// Takes `x` from the account `a`.
pub open spec fn debit(s: Seq<UserView>, a: Seq<char>, x: u128) -> Result<
    Seq<UserView>,
    LedgerError,
> {
    match find(s, a) {
        Some(i) => if s[i].balance < x {
            Err(LedgerError::Underflow)
        } else {
            Ok(s.update(i, with_balance(s[i], (s[i].balance - x) as u128)))
        },
        None => Err(LedgerError::UnknownAccount),
    }
}

/// The ledger after one event: a mint credits, a burn debits, and a transfer
/// debits and then credits, standing only where both legs stand.
pub open spec fn apply(s: Seq<UserView>, e: Event) -> Result<Seq<UserView>, LedgerError> {
    match e {
        Event::Mint { account, amount } => credit(s, account@, amount),
        Event::Burn { account, amount } => debit(s, account@, amount),
        Event::Transfer { from, to, amount } => match debit(s, from@, amount) {
            Ok(s1) => credit(s1, to@, amount),
            Err(err) => Err(err),
        },
    }
}

/// The ledger after a sequence of events, or the error of the first one that
/// cannot be applied.
pub open spec fn apply_all(s: Seq<UserView>, es: Seq<Event>) -> Result<
    Seq<UserView>,
    LedgerError,
>
    decreases es.len(),
{
    if es.len() == 0 {
        Ok(s)
    } else {
        match apply_all(s, es.drop_last()) {
            Ok(s1) => apply(s1, es.last()),
            Err(err) => Err(err),
        }
    }
}

/// The sum of all balances.
pub open spec fn total(s: Seq<UserView>) -> int
    decreases s.len(),
{
    if s.len() == 0 {
        0
    } else {
        total(s.drop_last()) + s.last().balance
    }
}

/// What an event adds to the sum of balances.
pub open spec fn supply_change(e: Event) -> int {
    match e {
        Event::Mint { amount, .. } => amount as int,
        Event::Burn { amount, .. } => -(amount as int),
        Event::Transfer { .. } => 0,
    }
}

/// The sum of the amounts minted by a sequence of events.
pub open spec fn minted(es: Seq<Event>) -> int
    decreases es.len(),
{
    if es.len() == 0 {
        0
    } else {
        minted(es.drop_last()) + match es.last() {
            Event::Mint { amount, .. } => amount as int,
            _ => 0,
        }
    }
}

/// The sum of the amounts burned by a sequence of events.
pub open spec fn burned(es: Seq<Event>) -> int
    decreases es.len(),
{
    if es.len() == 0 {
        0
    } else {
        burned(es.drop_last()) + match es.last() {
            Event::Burn { amount, .. } => amount as int,
            _ => 0,
        }
    }
}

proof fn lemma_find_found(s: Seq<UserView>, a: Seq<char>)
    ensures
        find(s, a) matches Some(i) ==> 0 <= i < s.len() && s[i].account_id == a,
        find(s, a) is None ==> forall|k: int| 0 <= k < s.len() ==> s[k].account_id != a,
    decreases s.len(),
{
    if s.len() > 0 {
        lemma_find_found(s.drop_last(), a);
        assert forall|k: int| 0 <= k < s.len() - 1 implies s[k] == s.drop_last()[k] by {}
    }
}

proof fn lemma_find_unique(s: Seq<UserView>, a: Seq<char>, k: int)
    requires
        keys_unique(s),
        0 <= k < s.len(),
        s[k].account_id == a,
    ensures
        find(s, a) == Some(k),
    decreases s.len(),
{
    if k < s.len() - 1 {
        let t = s.drop_last();
        assert(t[k] == s[k]);
        assert(keys_unique(t)) by {
            assert forall|i: int, j: int|
                0 <= i < t.len() && 0 <= j < t.len() && i != j implies t[i].account_id
                != t[j].account_id by {
                assert(t[i] == s[i] && t[j] == s[j]);
            }
        }
        lemma_find_unique(t, a, k);
    }
}

proof fn lemma_find_same_keys(s: Seq<UserView>, t: Seq<UserView>, a: Seq<char>)
    requires
        s.len() == t.len(),
        forall|k: int| 0 <= k < s.len() ==> #[trigger] s[k].account_id == t[k].account_id,
    ensures
        find(s, a) == find(t, a),
    decreases s.len(),
{
    if s.len() > 0 {
        let (s1, t1) = (s.drop_last(), t.drop_last());
        assert forall|k: int| 0 <= k < s1.len() implies #[trigger] s1[k].account_id
            == t1[k].account_id by {
            assert(s1[k] == s[k] && t1[k] == t[k]);
        }
        lemma_find_same_keys(s1, t1, a);
    }
}

proof fn lemma_total_update(s: Seq<UserView>, i: int, u: UserView)
    requires
        0 <= i < s.len(),
    ensures
        total(s.update(i, u)) == total(s) - s[i].balance + u.balance,
    decreases s.len(),
{
    let t = s.update(i, u);
    if i < s.len() - 1 {
        assert(t.drop_last() =~= s.drop_last().update(i, u));
        lemma_total_update(s.drop_last(), i, u);
    } else {
        assert(t.drop_last() =~= s.drop_last());
    }
}

proof fn lemma_total_push(s: Seq<UserView>, u: UserView)
    ensures
        total(s.push(u)) == total(s) + u.balance,
{
    assert(s.push(u).drop_last() =~= s);
}

proof fn lemma_credit_total(s: Seq<UserView>, a: Seq<char>, x: u128)
    ensures
        credit(s, a, x) matches Ok(s1) ==> total(s1) == total(s) + x,
{
    lemma_find_found(s, a);
    match find(s, a) {
        Some(i) => {
            if s[i].balance + x <= u128::MAX {
                lemma_total_update(s, i, with_balance(s[i], (s[i].balance + x) as u128));
            }
        },
        None => lemma_total_push(s, new_user(a, x)),
    }
}

proof fn lemma_debit_total(s: Seq<UserView>, a: Seq<char>, x: u128)
    ensures
        debit(s, a, x) matches Ok(s1) ==> total(s1) == total(s) - x,
{
    lemma_find_found(s, a);
    if let Some(i) = find(s, a) {
        if s[i].balance >= x {
            lemma_total_update(s, i, with_balance(s[i], (s[i].balance - x) as u128));
        }
    }
}

/// Applying an event changes the sum of balances by what it mints or burns:
/// a transfer leaves the sum as it was.
pub proof fn lemma_apply_supply(s: Seq<UserView>, e: Event)
    ensures
        apply(s, e) matches Ok(s1) ==> total(s1) == total(s) + supply_change(e),
{
    match e {
        Event::Mint { account, amount } => lemma_credit_total(s, account@, amount),
        Event::Burn { account, amount } => lemma_debit_total(s, account@, amount),
        Event::Transfer { from, to, amount } => {
            lemma_debit_total(s, from@, amount);
            if let Ok(s1) = debit(s, from@, amount) {
                lemma_credit_total(s1, to@, amount);
            }
        },
    }
}

/// Conservation of supply: whatever sequence of events is applied, where all
/// of them apply, the sum of balances grows by what was minted and shrinks by
/// what was burned. From an empty ledger the sum is minted minus burned.
pub proof fn lemma_supply_conservation(s: Seq<UserView>, es: Seq<Event>)
    ensures
        apply_all(s, es) matches Ok(s1) ==> total(s1) == total(s) + minted(es) - burned(es),
        apply_all(Seq::empty(), es) matches Ok(s1) ==> total(s1) == minted(es) - burned(es),
    decreases es.len(),
{
    if es.len() > 0 {
        lemma_supply_conservation(s, es.drop_last());
        if let Ok(s1) = apply_all(s, es.drop_last()) {
            lemma_apply_supply(s1, es.last());
        }
        lemma_supply_conservation(Seq::empty(), es.drop_last());
        if let Ok(s1) = apply_all(Seq::empty(), es.drop_last()) {
            lemma_apply_supply(s1, es.last());
        }
    }
}

/// The balance ledger: accounts in the order in which they were first seen,
/// each id at most once.
pub struct Ledger {
    users: Vec<User>,
}

impl View for Ledger {
    type V = Seq<UserView>;

    closed spec fn view(&self) -> Seq<UserView> {
        self.users@.map_values(|u: User| u@)
    }
}

impl Ledger {
    /// Whether no two accounts share an id.
    pub open spec fn wf(&self) -> bool {
        keys_unique(self@)
    }

    /// An empty ledger.
    pub fn new() -> (r: Ledger)
        ensures
            r@ == Seq::<UserView>::empty(),
            r.wf(),
    {
        let r = Ledger { users: Vec::new() };
        assert(r@ =~= Seq::<UserView>::empty());
        r
    }

    /// A ledger of the given accounts, in their order; `None` where two of
    /// them share an id.
    pub fn from_users(users: Vec<User>) -> (r: Option<Ledger>)
        ensures
            r is Some <==> keys_unique(users@.map_values(|u: User| u@)),
            r matches Some(l) ==> l@ == users@.map_values(|u: User| u@),
    {
        let ghost v = users@.map_values(|u: User| u@);
        let n = users.len();
        let mut i: usize = 0;
        while i < n
            invariant
                n == users@.len(),
                v == users@.map_values(|u: User| u@),
                0 <= i <= n,
                forall|a: int, b: int|
                    0 <= a < i && 0 <= b < n && a != b ==> v[a].account_id != v[b].account_id,
            decreases n - i,
        {
            let mut j: usize = 0;
            while j < n
                invariant
                    n == users@.len(),
                    v == users@.map_values(|u: User| u@),
                    0 <= i < n,
                    0 <= j <= n,
                    forall|a: int, b: int|
                        0 <= a < i && 0 <= b < n && a != b ==> v[a].account_id != v[b].account_id,
                    forall|b: int| 0 <= b < j && b != i ==> v[i as int].account_id != v[b].account_id,
                decreases n - j,
            {
                if j != i && users[i].account_id == users[j].account_id {
                    assert(v[i as int].account_id == v[j as int].account_id);
                    return None;
                }
                j = j + 1;
            }
            i = i + 1;
        }
        let r = Ledger { users };
        Some(r)
    }

    /// The accounts, in ledger order.
    pub fn users(&self) -> (r: &Vec<User>)
        ensures
            r@.map_values(|u: User| u@) == self@,
    {
        &self.users
    }

    /// The number of accounts.
    pub fn len(&self) -> (r: usize)
        ensures
            r == self@.len(),
    {
        self.users.len()
    }

    /// A copy of this ledger.
    pub fn copied(&self) -> (r: Ledger)
        ensures
            r@ == self@,
    {
        let mut users: Vec<User> = Vec::new();
        let mut i: usize = 0;
        while i < self.users.len()
            invariant
                0 <= i <= self.users@.len(),
                users@.len() == i,
                users@.map_values(|u: User| u@) =~= self@.subrange(0, i as int),
                self@ == self.users@.map_values(|u: User| u@),
            decreases self.users@.len() - i,
        {
            let ghost prev = users@;
            let c = self.users[i].copied();
            users.push(c);
            assert forall|k: int| 0 <= k < i + 1 implies users@.map_values(|u: User| u@)[k]
                == self@[k] by {
                if k < i {
                    assert(users@[k] == prev[k]);
                    assert(prev.map_values(|u: User| u@)[k] == self@.subrange(0, i as int)[k]);
                }
            }
            assert(users@.map_values(|u: User| u@) =~= self@.subrange(0, i + 1));
            i = i + 1;
        }
        let r = Ledger { users };
        assert(r@ =~= self@);
        r
    }

    /// Where the account stands in the ledger, if it is there.
    fn position(&self, account: &String) -> (r: Option<usize>)
        requires
            self.wf(),
        ensures
            match r {
                Some(i) => find(self@, account@) == Some(i as int) && i < self@.len(),
                None => find(self@, account@) is None,
            },
    {
        let mut i: usize = 0;
        while i < self.users.len()
            invariant
                0 <= i <= self.users@.len(),
                self.wf(),
                self@ == self.users@.map_values(|u: User| u@),
                forall|k: int| 0 <= k < i ==> self@[k].account_id != account@,
            decreases self.users@.len() - i,
        {
            if self.users[i].account_id == *account {
                proof {
                    lemma_find_unique(self@, account@, i as int);
                }
                return Some(i);
            }
            i = i + 1;
        }
        proof {
            lemma_find_found(self@, account@);
            if let Some(k) = find(self@, account@) {
                assert(self@[k].account_id != account@);
            }
        }
        None
    }

    /// The balance of an account, if the ledger holds it.
    pub fn balance(&self, account: &str) -> (r: Option<u128>)
        requires
            self.wf(),
        ensures
            r == balance_of(self@, account@),
    {
        match self.position(&String::from_str(account)) {
            Some(i) => Some(self.users[i].balance),
            None => None,
        }
    }

    /// Sets the balance of the account at `i`.
    fn set_balance(&mut self, i: usize, b: u128)
        requires
            i < old(self)@.len(),
        ensures
            final(self)@ == old(self)@.update(i as int, with_balance(old(self)@[i as int], b)),
    {
        let u = User {
            full_name: self.users[i].full_name.clone(),
            school_grade: self.users[i].school_grade.clone(),
            account_id: self.users[i].account_id.clone(),
            balance: b,
        };
        self.users.set(i, u);
        assert(self@ =~= old(self)@.update(i as int, with_balance(old(self)@[i as int], b)));
    }

    /// Adds an account that the ledger does not hold, with the balance `x`.
    fn add_user(&mut self, account: &String, x: u128)
        requires
            old(self).wf(),
            find(old(self)@, account@) is None,
        ensures
            final(self)@ == old(self)@.push(new_user(account@, x)),
            final(self).wf(),
    {
        proof {
            lemma_find_found(old(self)@, account@);
        }
        let u = User {
            full_name: account.clone(),
            school_grade: String::new(),
            account_id: account.clone(),
            balance: x,
        };
        self.users.push(u);
        assert(self@ =~= old(self)@.push(new_user(account@, x)));
    }

    /// Applies one event. A mint credits its account, creating it where it is
    /// absent; a burn debits its account; a transfer debits one account and
    /// credits the other, and changes nothing unless both legs stand. On an
    /// error the ledger is left as it was.
    pub fn apply_event(&mut self, e: &Event) -> (r: Result<(), LedgerError>)
        requires
            old(self).wf(),
        ensures
            final(self).wf(),
            match apply(old(self)@, *e) {
                Ok(s) => r is Ok && final(self)@ == s,
                Err(err) => r == Err::<(), LedgerError>(err) && final(self)@ == old(self)@,
            },
    {
        match e {
            Event::Mint { account, amount } => self.credit_account(account, *amount),
            Event::Burn { account, amount } => {
                let i = match self.position(account) {
                    Some(i) => i,
                    None => return Err(LedgerError::UnknownAccount),
                };
                let b = self.users[i].balance;
                if b < *amount {
                    return Err(LedgerError::Underflow);
                }
                self.set_balance(i, b - *amount);
                Ok(())
            },
            Event::Transfer { from, to, amount } => {
                let i = match self.position(from) {
                    Some(i) => i,
                    None => return Err(LedgerError::UnknownAccount),
                };
                let b = self.users[i].balance;
                if b < *amount {
                    return Err(LedgerError::Underflow);
                }
                let ghost s0 = self@;
                let ghost s1 = s0.update(i as int, with_balance(s0[i as int], (b - *amount) as u128));
                proof {
                    lemma_find_same_keys(s0, s1, to@);
                    lemma_find_found(s0, from@);
                    lemma_find_found(s0, to@);
                }
                if *from == *to {
                    assert(s1.update(i as int, with_balance(s1[i as int], b)) =~= s0);
                    return Ok(());
                }
                match self.position(to) {
                    Some(j) => {
                        let c = self.users[j].balance;
                        if c > u128::MAX - *amount {
                            return Err(LedgerError::Overflow);
                        }
                        self.set_balance(i, b - *amount);
                        self.set_balance(j, c + *amount);
                        Ok(())
                    },
                    None => {
                        self.set_balance(i, b - *amount);
                        proof {
                            lemma_find_found(s0, to@);
                        }
                        self.add_user(to, *amount);
                        Ok(())
                    },
                }
            },
        }
    }

    /// Adds `x` to an account, creating it where it is absent.
    fn credit_account(&mut self, account: &String, x: u128) -> (r: Result<(), LedgerError>)
        requires
            old(self).wf(),
        ensures
            final(self).wf(),
            match credit(old(self)@, account@, x) {
                Ok(s) => r is Ok && final(self)@ == s,
                Err(err) => r == Err::<(), LedgerError>(err) && final(self)@ == old(self)@,
            },
    {
        match self.position(account) {
            Some(i) => {
                let b = self.users[i].balance;
                if b > u128::MAX - x {
                    return Err(LedgerError::Overflow);
                }
                self.set_balance(i, b + x);
                Ok(())
            },
            None => {
                self.add_user(account, x);
                Ok(())
            },
        }
    }

    /// Applies a sequence of events in order, all or none: on the first error
    /// the ledger is left as it was.
    pub fn apply_events(&mut self, es: &Vec<Event>) -> (r: Result<(), LedgerError>)
        requires
            old(self).wf(),
        ensures
            final(self).wf(),
            match apply_all(old(self)@, es@) {
                Ok(s) => r is Ok && final(self)@ == s,
                Err(err) => r == Err::<(), LedgerError>(err) && final(self)@ == old(self)@,
            },
    {
        let mut work = self.copied();
        let mut i: usize = 0;
        while i < es.len()
            invariant
                0 <= i <= es@.len(),
                work.wf(),
                self.wf(),
                apply_all(self@, es@.subrange(0, i as int)) == Ok::<Seq<UserView>, LedgerError>(
                    work@,
                ),
            decreases es@.len() - i,
        {
            assert(es@.subrange(0, i + 1).drop_last() =~= es@.subrange(0, i as int));
            match work.apply_event(&es[i]) {
                Ok(()) => {},
                Err(err) => {
                    proof {
                        lemma_apply_all_failure_persists(self@, es@, i + 1);
                    }
                    return Err(err);
                },
            }
            i = i + 1;
        }
        assert(es@.subrange(0, es@.len() as int) =~= es@);
        *self = work;
        Ok(())
    }
}

proof fn lemma_apply_all_failure_persists(s: Seq<UserView>, es: Seq<Event>, j: int)
    requires
        0 <= j <= es.len(),
        apply_all(s, es.subrange(0, j)) is Err,
    ensures
        apply_all(s, es) == apply_all(s, es.subrange(0, j)),
    decreases es.len() - j,
{
    if j < es.len() {
        assert(es.subrange(0, j + 1).drop_last() =~= es.subrange(0, j));
        lemma_apply_all_failure_persists(s, es, j + 1);
    } else {
        assert(es.subrange(0, j) =~= es);
    }
}

} // verus!
