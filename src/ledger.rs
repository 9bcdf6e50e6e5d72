//! The ledger: each user's balance and the state of the durable record that
//! mirrors it.
use std::collections::HashMap;

use vstd::prelude::*;

use crate::backlog::{backlog_view, lemma_replay_fails_at, replay, BootstrapError, StoredRecord};
use crate::catalog::{value_in, Catalog};
use crate::record::parse_record;

verus! {

broadcast use vstd::std_specs::hash::group_hash_axioms;

/// Where a user's durable record stands.
#[derive(Clone, Copy, Debug, PartialEq, Eq, Structural)]
pub enum RecordState {
    /// No record exists, and none is being written.
    Absent,
    /// A record is being written; its identifier is not known yet.
    Creating,
    /// The record with this identifier holds the user's balance.
    Stored(u64),
}

/// A user's balance and the state of their durable record.
#[derive(Clone, Copy, Debug, PartialEq, Eq, Structural)]
pub struct Account {
    pub balance: u64,
    pub record: RecordState,
}

/// What the durable log needs after a change of balance.
#[derive(Clone, Copy, Debug, PartialEq, Eq, Structural)]
pub enum Persist {
    /// Nothing: a write already under way will carry the change.
    Skip,
    /// Write a new record for the user, then report its identifier.
    Create,
    /// Rewrite the record with this identifier.
    Update(u64),
}

/// A committed earn or purchase: the new balance and the write it calls for.
#[derive(Clone, Copy, Debug, PartialEq, Eq, Structural)]
pub struct Receipt {
    pub balance: u64,
    pub persist: Persist,
}

/// An earn whose sum does not fit in a `u64`; nothing was changed.
#[derive(Clone, Copy, Debug, PartialEq, Eq, Structural)]
pub struct BalanceOverflow {
    pub balance: u64,
    pub value: u64,
}

/// What became of a purchase.
#[derive(Clone, Copy, Debug, PartialEq, Eq, Structural)]
pub enum SpendOutcome {
    /// The cost was taken from the balance.
    Purchased(Receipt),
    /// The balance, unchanged, is below the cost.
    Insufficient { balance: u64 },
    /// The trigger is not a registered reward; nothing was changed.
    UnknownReward,
}

/// The account of `user`: a fresh one, with nothing and no record, where
/// `m` has none.
pub open spec fn account_in(m: Map<u64, Account>, user: u64) -> Account {
    if m.contains_key(user) {
        m[user]
    } else {
        Account { balance: 0, record: RecordState::Absent }
    }
}

/// The write that a change of balance calls for, given the record's state.
pub open spec fn persist_for(s: RecordState) -> Persist {
    match s {
        RecordState::Absent => Persist::Create,
        RecordState::Creating => Persist::Skip,
        RecordState::Stored(id) => Persist::Update(id),
    }
}

/// The record's state once that write has been handed out.
pub open spec fn claimed(s: RecordState) -> RecordState {
    match s {
        RecordState::Absent => RecordState::Creating,
        _ => s,
    }
}

/// Whether the record of `user` is being created.
pub open spec fn creating(m: Map<u64, Account>, user: u64) -> bool {
    m.contains_key(user) && m[user].record == RecordState::Creating
}

/// Each user's balance, as an integer.
pub open spec fn balances_of(m: Map<u64, Account>) -> Map<u64, int> {
    Map::new(|u: u64| m.contains_key(u), |u: u64| m[u].balance as int)
}

/// The balance of `user` in `b`, 0 where there is none.
pub open spec fn balance_in(b: Map<u64, int>, user: u64) -> int {
    if b.contains_key(user) {
        b[user]
    } else {
        0
    }
}

/// Balances after `user` earns on `trigger`: the trigger's value (0 where it
/// is no task) is added, and the user gets an account if they had none.
pub open spec fn earn_step(b: Map<u64, int>, tasks: Map<u64, u64>, trigger: u64, user: u64) -> Map<
    u64,
    int,
> {
    b.insert(user, balance_in(b, user) + value_in(tasks, trigger))
}

/// Balances after `user` buys `trigger`: the cost is taken where the trigger
/// is a reward and the balance covers it; otherwise nothing changes.
pub open spec fn spend_step(b: Map<u64, int>, rewards: Map<u64, u64>, trigger: u64, user: u64) -> Map<
    u64,
    int,
> {
    if rewards.contains_key(trigger) && balance_in(b, user) >= rewards[trigger] {
        b.insert(user, balance_in(b, user) - rewards[trigger])
    } else {
        b
    }
}

/// What an earn by `user` on `trigger` gives: the new balance and the write
/// it calls for, or an overflow where the sum does not fit in a `u64`.
pub open spec fn earn_of(m: Map<u64, Account>, tasks: Map<u64, u64>, trigger: u64, user: u64) -> Result<
    Receipt,
    BalanceOverflow,
> {
    let a = account_in(m, user);
    let v = value_in(tasks, trigger);
    if a.balance + v > u64::MAX {
        Err(BalanceOverflow { balance: a.balance, value: v as u64 })
    } else {
        Ok(Receipt { balance: (a.balance + v) as u64, persist: persist_for(a.record) })
    }
}

/// The accounts after that earn.
pub open spec fn after_earn(m: Map<u64, Account>, tasks: Map<u64, u64>, trigger: u64, user: u64) -> Map<
    u64,
    Account,
> {
    match earn_of(m, tasks, trigger, user) {
        Ok(receipt) => m.insert(
            user,
            Account { balance: receipt.balance, record: claimed(account_in(m, user).record) },
        ),
        Err(_) => m,
    }
}

/// What a purchase of `trigger` by `user` gives.
pub open spec fn spend_of(m: Map<u64, Account>, rewards: Map<u64, u64>, trigger: u64, user: u64) -> SpendOutcome {
    let a = account_in(m, user);
    if !rewards.contains_key(trigger) {
        SpendOutcome::UnknownReward
    } else if a.balance < rewards[trigger] {
        SpendOutcome::Insufficient { balance: a.balance }
    } else {
        SpendOutcome::Purchased(
            Receipt { balance: (a.balance - rewards[trigger]) as u64, persist: persist_for(a.record) },
        )
    }
}

/// The accounts after that purchase.
pub open spec fn after_spend(m: Map<u64, Account>, rewards: Map<u64, u64>, trigger: u64, user: u64) -> Map<
    u64,
    Account,
> {
    match spend_of(m, rewards, trigger, user) {
        SpendOutcome::Purchased(receipt) => m.insert(
            user,
            Account { balance: receipt.balance, record: claimed(account_in(m, user).record) },
        ),
        _ => m,
    }
}

/// The accounts that a backlog of ledger records describes: each record's
/// text names a user and their balance, and the record's identifier becomes
/// that user's record. A later record overrides an earlier one. Fails on the
/// first record that cannot be read.
pub open spec fn ledger_replay(b: Seq<(u64, Seq<u8>)>) -> Result<Map<u64, Account>, BootstrapError> {
    replay(b, Map::<u64, Account>::empty(), add_ledger_record())
}

/// One ledger record read back: the user named in its text gets the balance
/// and the record.
pub open spec fn add_ledger_record() -> spec_fn(Map<u64, Account>, u64, (u64, u64)) -> Map<
    u64,
    Account,
> {
    |m: Map<u64, Account>, id: u64, pair: (u64, u64)|
        m.insert(pair.0, Account { balance: pair.1, record: RecordState::Stored(id) })
}

proof fn lemma_balances_insert(m: Map<u64, Account>, user: u64, a: Account)
    ensures
        balances_of(m.insert(user, a)) == balances_of(m).insert(user, a.balance as int),
        balance_in(balances_of(m), user) == account_in(m, user).balance,
{
    assert(balances_of(m.insert(user, a)) =~= balances_of(m).insert(user, a.balance as int));
}

/// The write that a change of balance calls for, and the record's state
/// once that write is handed out.
fn claim(s: RecordState) -> (r: (Persist, RecordState))
    ensures
        r == (persist_for(s), claimed(s)),
{
    match s {
        RecordState::Absent => (Persist::Create, RecordState::Creating),
        RecordState::Creating => (Persist::Skip, RecordState::Creating),
        RecordState::Stored(id) => (Persist::Update(id), RecordState::Stored(id)),
    }
}

/// Users' accounts.
pub struct Ledger {
    accounts: HashMap<u64, Account>,
}

impl View for Ledger {
    type V = Map<u64, Account>;

    closed spec fn view(&self) -> Map<u64, Account> {
        self.accounts@
    }
}

impl Ledger {
    /// A ledger with no accounts.
    pub fn new() -> (r: Ledger)
        ensures
            r@ == Map::<u64, Account>::empty(),
    {
        Ledger { accounts: HashMap::new() }
    }

    /// The account of `user`, if they have one.
    pub fn account(&self, user: u64) -> (r: Option<Account>)
        ensures
            r == (if self@.contains_key(user) {
                Some(self@[user])
            } else {
                None::<Account>
            }),
    {
        match self.accounts.get(&user) {
            Some(a) => Some(*a),
            None => None,
        }
    }

    /// The balance of `user`, 0 where they have no account.
    pub fn balance(&self, user: u64) -> (r: u64)
        ensures
            r == account_in(self@, user).balance,
    {
        match self.accounts.get(&user) {
            Some(a) => a.balance,
            None => 0,
        }
    }

    /// The number of accounts.
    pub fn len(&self) -> (r: usize)
        ensures
            r == self@.len(),
    {
        self.accounts.len()
    }

    /// `user` earns the value of `trigger` in `tasks` (nothing where it is no
    /// task), and gets an account if they had none. Fails, changing nothing,
    /// where the new balance would not fit in a `u64`.
    pub fn earn(&mut self, tasks: &Catalog, trigger: u64, user: u64) -> (r: Result<
        Receipt,
        BalanceOverflow,
    >)
        ensures
            r == earn_of(old(self)@, tasks@, trigger, user),
            final(self)@ == after_earn(old(self)@, tasks@, trigger, user),
            r is Ok ==> balances_of(final(self)@) == earn_step(
                balances_of(old(self)@),
                tasks@,
                trigger,
                user,
            ),
            r is Err ==> final(self)@ == old(self)@,
    {
        let value = tasks.value_or_zero(trigger);
        let a = match self.accounts.get(&user) {
            Some(a) => *a,
            None => Account { balance: 0, record: RecordState::Absent },
        };
        match a.balance.checked_add(value) {
            None => Err(BalanceOverflow { balance: a.balance, value }),
            Some(balance) => {
                let (persist, record) = claim(a.record);
                let updated = Account { balance, record };
                proof {
                    lemma_balances_insert(self@, user, updated);
                }
                self.accounts.insert(user, updated);
                Ok(Receipt { balance, persist })
            },
        }
    }

    /// `user` buys `trigger` from `rewards`: where it is a reward whose cost
    /// the balance covers, the cost is taken; otherwise nothing changes.
    pub fn spend(&mut self, rewards: &Catalog, trigger: u64, user: u64) -> (r: SpendOutcome)
        ensures
            r == spend_of(old(self)@, rewards@, trigger, user),
            final(self)@ == after_spend(old(self)@, rewards@, trigger, user),
            balances_of(final(self)@) == spend_step(balances_of(old(self)@), rewards@, trigger, user),
    {
        proof {
            lemma_balances_insert(self@, user, account_in(self@, user));
        }
        let cost = match rewards.lookup(trigger) {
            None => return SpendOutcome::UnknownReward,
            Some(c) => c,
        };
        let a = match self.accounts.get(&user) {
            Some(a) => *a,
            None => Account { balance: 0, record: RecordState::Absent },
        };
        if a.balance < cost {
            return SpendOutcome::Insufficient { balance: a.balance };
        }
        let balance = a.balance - cost;
        let (persist, record) = claim(a.record);
        let updated = Account { balance, record };
        proof {
            lemma_balances_insert(self@, user, updated);
        }
        self.accounts.insert(user, updated);
        SpendOutcome::Purchased(Receipt { balance, persist })
    }

    /// The record for `user` was written with the balance `written` and got
    /// the identifier `id`. Returns the rewrite still owed where the balance
    /// has changed since. Changes nothing, and owes nothing, unless the
    /// user's record is being created: a second record is never taken on.
    pub fn record_created(&mut self, user: u64, id: u64, written: u64) -> (r: Persist)
        ensures
            creating(old(self)@, user) ==> {
                &&& final(self)@ == old(self)@.insert(
                    user,
                    Account { balance: old(self)@[user].balance, record: RecordState::Stored(id) },
                )
                &&& r == (if old(self)@[user].balance == written {
                    Persist::Skip
                } else {
                    Persist::Update(id)
                })
            },
            !creating(old(self)@, user) ==> final(self)@ == old(self)@ && r == Persist::Skip,
    {
        match self.accounts.get(&user) {
            Some(a) => {
                if a.record == RecordState::Creating {
                    let balance = a.balance;
                    self.accounts.insert(user, Account { balance, record: RecordState::Stored(id) });
                    if balance == written {
                        Persist::Skip
                    } else {
                        Persist::Update(id)
                    }
                } else {
                    Persist::Skip
                }
            },
            None => Persist::Skip,
        }
    }

    /// Writing the record for `user` failed: the next change of their
    /// balance asks for a new one.
    pub fn record_failed(&mut self, user: u64)
        ensures
            creating(old(self)@, user) ==> final(self)@ == old(self)@.insert(
                user,
                Account { balance: old(self)@[user].balance, record: RecordState::Absent },
            ),
            !creating(old(self)@, user) ==> final(self)@ == old(self)@,
    {
        match self.accounts.get(&user) {
            Some(a) => {
                if a.record == RecordState::Creating {
                    let balance = a.balance;
                    self.accounts.insert(user, Account { balance, record: RecordState::Absent });
                }
            },
            None => {},
        }
    }

    /// The ledger that `records` describe, read in order.
    pub fn from_backlog(records: &Vec<StoredRecord>) -> (r: Result<Ledger, BootstrapError>)
        ensures
            match r {
                Ok(l) => ledger_replay(backlog_view(records@)) == Ok::<
                    Map<u64, Account>,
                    BootstrapError,
                >(l@),
                Err(e) => ledger_replay(backlog_view(records@)) == Err::<
                    Map<u64, Account>,
                    BootstrapError,
                >(e),
            },
    {
        let ghost b = backlog_view(records@);
        let mut l = Ledger::new();
        let n = records.len();
        let mut i: usize = 0;
        assert(b.subrange(0, 0) =~= Seq::<(u64, Seq<u8>)>::empty());
        while i < n
            invariant
                n == records@.len(),
                b == backlog_view(records@),
                0 <= i <= n,
                ledger_replay(b.subrange(0, i as int)) == Ok::<Map<u64, Account>, BootstrapError>(
                    l@,
                ),
            decreases n - i,
        {
            let ghost prefix = b.subrange(0, i + 1);
            assert(prefix.drop_last() =~= b.subrange(0, i as int));
            assert(prefix.last() == (records@[i as int].id, records@[i as int].content@));
            let id = records[i].id;
            match parse_record(records[i].content.as_slice()) {
                Err(reason) => {
                    let e = BootstrapError { index: i, reason };
                    proof {
                        lemma_replay_fails_at(
                            b,
                            Map::<u64, Account>::empty(),
                            add_ledger_record(),
                            i as int,
                            e,
                        );
                    }
                    return Err(e);
                },
                Ok(pair) => {
                    l.accounts.insert(
                        pair.0,
                        Account { balance: pair.1, record: RecordState::Stored(id) },
                    );
                },
            }
            i = i + 1;
        }
        assert(b.subrange(0, n as int) =~= b);
        Ok(l)
    }
}

} // verus!
