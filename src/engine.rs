//! The decisions taken on each event: which operation a reaction makes, what
//! must be written to the durable log, what the user is told, and whether
//! the reaction is withdrawn.
use vstd::prelude::*;

use crate::backlog::{backlog_view, BootstrapError, StoredRecord};
use crate::catalog::{catalog_replay, Catalog};
use crate::ledger::{
    account_in, after_earn, after_spend, creating, earn_of, ledger_replay, spend_of, Account,
    BalanceOverflow, Ledger, Persist, Receipt, RecordState, SpendOutcome,
};

verus! {

/// The channels whose posts are tasks and rewards, the bot's own user, and
/// whether a purchase withdraws the reaction that made it.
#[derive(Clone, Copy, Debug, PartialEq, Eq, Structural)]
pub struct Config {
    pub tasks_channel: u64,
    pub rewards_channel: u64,
    pub bot_id: u64,
    pub withdraw_after_purchase: bool,
}

/// What the acting user is told.
#[derive(Clone, Copy, Debug, PartialEq, Eq, Structural)]
pub enum Notice {
    /// Nothing: the event was not for the ledger.
    Silent,
    TaskComplete { balance: u64 },
    RewardPurchased { balance: u64 },
    InsufficientPoints { balance: u64 },
    UnknownReward,
    /// The earn would overflow the balance and was refused.
    EarnRefused,
}

/// The work that follows a reaction once the ledger has been changed: the
/// write to the durable log (of the balance `balance`), the notice, and
/// whether the reaction is to be withdrawn.
#[derive(Clone, Copy, Debug, PartialEq, Eq, Structural)]
pub struct Plan {
    pub persist: Persist,
    pub balance: u64,
    pub notice: Notice,
    pub withdraw: bool,
}

/// A reply to a posted message.
#[derive(Clone, Copy, Debug, PartialEq, Eq, Structural)]
pub enum Reply {
    /// The bot's own message: no reply.
    Ignore,
    Help,
    Balance { balance: u64 },
    Unknown,
}

/// Which of the three backlogs could not be read.
#[derive(Clone, Copy, Debug, PartialEq, Eq, Structural)]
pub enum ReloadError {
    Tasks(BootstrapError),
    Rewards(BootstrapError),
    Ledger(BootstrapError),
}

/// The plan for a reaction that is not for the ledger.
pub open spec fn idle_plan() -> Plan {
    Plan { persist: Persist::Skip, balance: 0, notice: Notice::Silent, withdraw: false }
}

/// The plan after an earn: the reaction is withdrawn whatever came of it.
pub open spec fn earn_plan(r: Result<Receipt, BalanceOverflow>) -> Plan {
    match r {
        Ok(receipt) => Plan {
            persist: receipt.persist,
            balance: receipt.balance,
            notice: Notice::TaskComplete { balance: receipt.balance },
            withdraw: true,
        },
        Err(e) => Plan {
            persist: Persist::Skip,
            balance: e.balance,
            notice: Notice::EarnRefused,
            withdraw: true,
        },
    }
}

/// The plan after a purchase: a refused one is withdrawn, a made one only
/// where `withdraw_after_purchase` says so, one of an unknown reward never.
pub open spec fn spend_plan(o: SpendOutcome, withdraw_after_purchase: bool) -> Plan {
    match o {
        SpendOutcome::Purchased(receipt) => Plan {
            persist: receipt.persist,
            balance: receipt.balance,
            notice: Notice::RewardPurchased { balance: receipt.balance },
            withdraw: withdraw_after_purchase,
        },
        SpendOutcome::Insufficient { balance } => Plan {
            persist: Persist::Skip,
            balance,
            notice: Notice::InsufficientPoints { balance },
            withdraw: true,
        },
        SpendOutcome::UnknownReward => Plan {
            persist: Persist::Skip,
            balance: 0,
            notice: Notice::UnknownReward,
            withdraw: false,
        },
    }
}

/// The text of the help command, `!help`.
pub open spec fn help_command() -> Seq<u8> {
    seq![33u8, 104u8, 101u8, 108u8, 112u8]
}

/// The text of the balance command, `!balance`.
pub open spec fn balance_command() -> Seq<u8> {
    seq![33u8, 98u8, 97u8, 108u8, 97u8, 110u8, 99u8, 101u8]
}

fn help_bytes() -> (r: Vec<u8>)
    ensures
        r@ == help_command(),
{
    let r: Vec<u8> = vec![33u8, 104u8, 101u8, 108u8, 112u8];
    assert(r@ =~= help_command());
    r
}

fn balance_bytes() -> (r: Vec<u8>)
    ensures
        r@ == balance_command(),
{
    let r: Vec<u8> = vec![33u8, 98u8, 97u8, 108u8, 97u8, 110u8, 99u8, 101u8];
    assert(r@ =~= balance_command());
    r
}

/// Whether `a` and `b` hold the same bytes.
pub fn bytes_equal(a: &[u8], b: &[u8]) -> (r: bool)
    ensures
        r == (a@ == b@),
{
    if a.len() != b.len() {
        return false;
    }
    let mut i: usize = 0;
    while i < a.len()
        invariant
            a@.len() == b@.len(),
            0 <= i <= a@.len(),
            forall|j: int| 0 <= j < i ==> a@[j] == b@[j],
        decreases a@.len() - i,
    {
        if a[i] != b[i] {
            return false;
        }
        i = i + 1;
    }
    assert(a@ =~= b@);
    true
}

/// The catalogs, the ledger and the settings that route events to them.
pub struct Engine {
    pub config: Config,
    pub tasks: Catalog,
    pub rewards: Catalog,
    pub ledger: Ledger,
}

impl Engine {
    /// An engine with empty catalogs and no accounts.
    pub fn new(config: Config) -> (r: Engine)
        ensures
            r.config == config,
            r.tasks@ == Map::<u64, u64>::empty(),
            r.rewards@ == Map::<u64, u64>::empty(),
            r.ledger@ == Map::<u64, Account>::empty(),
    {
        Engine { config, tasks: Catalog::new(), rewards: Catalog::new(), ledger: Ledger::new() }
    }

    /// Makes the post `trigger` a task worth `value`.
    pub fn register_task(&mut self, trigger: u64, value: u64)
        ensures
            final(self).tasks@ == old(self).tasks@.insert(trigger, value),
            final(self).rewards@ == old(self).rewards@,
            final(self).ledger@ == old(self).ledger@,
            final(self).config == old(self).config,
    {
        self.tasks.register(trigger, value);
    }

    /// Makes the post `trigger` a reward that costs `value`.
    pub fn register_reward(&mut self, trigger: u64, value: u64)
        ensures
            final(self).rewards@ == old(self).rewards@.insert(trigger, value),
            final(self).tasks@ == old(self).tasks@,
            final(self).ledger@ == old(self).ledger@,
            final(self).config == old(self).config,
    {
        self.rewards.register(trigger, value);
    }

    /// The balance of `user`, 0 where they have no account.
    pub fn balance(&self, user: u64) -> (r: u64)
        ensures
            r == account_in(self.ledger@, user).balance,
    {
        self.ledger.balance(user)
    }

    /// Handles a reaction by `user` (absent where the event names none) on
    /// the post `message` of `channel`: an earn in the tasks channel, a
    /// purchase in the rewards channel, nothing elsewhere.
    pub fn on_reaction(&mut self, channel: u64, message: u64, user: Option<u64>) -> (r: Plan)
        ensures
            final(self).config == old(self).config,
            final(self).tasks@ == old(self).tasks@,
            final(self).rewards@ == old(self).rewards@,
            match user {
                None => r == idle_plan() && final(self).ledger@ == old(self).ledger@,
                Some(u) => if channel == old(self).config.rewards_channel {
                    &&& r == spend_plan(
                        spend_of(old(self).ledger@, old(self).rewards@, message, u),
                        old(self).config.withdraw_after_purchase,
                    )
                    &&& final(self).ledger@ == after_spend(
                        old(self).ledger@,
                        old(self).rewards@,
                        message,
                        u,
                    )
                } else if channel == old(self).config.tasks_channel {
                    &&& r == earn_plan(earn_of(old(self).ledger@, old(self).tasks@, message, u))
                    &&& final(self).ledger@ == after_earn(
                        old(self).ledger@,
                        old(self).tasks@,
                        message,
                        u,
                    )
                } else {
                    r == idle_plan() && final(self).ledger@ == old(self).ledger@
                },
            },
    {
        let u = match user {
            None => {
                return Plan {
                    persist: Persist::Skip,
                    balance: 0,
                    notice: Notice::Silent,
                    withdraw: false,
                };
            },
            Some(u) => u,
        };
        if channel == self.config.rewards_channel {
            match self.ledger.spend(&self.rewards, message, u) {
                SpendOutcome::Purchased(receipt) => Plan {
                    persist: receipt.persist,
                    balance: receipt.balance,
                    notice: Notice::RewardPurchased { balance: receipt.balance },
                    withdraw: self.config.withdraw_after_purchase,
                },
                SpendOutcome::Insufficient { balance } => Plan {
                    persist: Persist::Skip,
                    balance,
                    notice: Notice::InsufficientPoints { balance },
                    withdraw: true,
                },
                SpendOutcome::UnknownReward => Plan {
                    persist: Persist::Skip,
                    balance: 0,
                    notice: Notice::UnknownReward,
                    withdraw: false,
                },
            }
        } else if channel == self.config.tasks_channel {
            match self.ledger.earn(&self.tasks, message, u) {
                Ok(receipt) => Plan {
                    persist: receipt.persist,
                    balance: receipt.balance,
                    notice: Notice::TaskComplete { balance: receipt.balance },
                    withdraw: true,
                },
                Err(e) => Plan {
                    persist: Persist::Skip,
                    balance: e.balance,
                    notice: Notice::EarnRefused,
                    withdraw: true,
                },
            }
        } else {
            Plan { persist: Persist::Skip, balance: 0, notice: Notice::Silent, withdraw: false }
        }
    }

    /// The reply to the message `content` posted by `author`: none to the
    /// bot itself, help, the author's balance, or a note that the command is
    /// unknown.
    pub fn on_message(&self, author: u64, content: &[u8]) -> (r: Reply)
        ensures
            r == (if author == self.config.bot_id {
                Reply::Ignore
            } else if content@ == help_command() {
                Reply::Help
            } else if content@ == balance_command() {
                Reply::Balance { balance: account_in(self.ledger@, author).balance }
            } else {
                Reply::Unknown
            }),
    {
        if author == self.config.bot_id {
            return Reply::Ignore;
        }
        let help = help_bytes();
        if bytes_equal(content, help.as_slice()) {
            return Reply::Help;
        }
        let bal = balance_bytes();
        if bytes_equal(content, bal.as_slice()) {
            return Reply::Balance { balance: self.ledger.balance(author) };
        }
        Reply::Unknown
    }

    /// Rebuilds both catalogs and the ledger from their backlogs, replacing
    /// what was there. Where a backlog cannot be read, nothing is changed.
    pub fn reload(
        &mut self,
        tasks: &Vec<StoredRecord>,
        rewards: &Vec<StoredRecord>,
        ledger: &Vec<StoredRecord>,
    ) -> (r: Result<(), ReloadError>)
        ensures
            final(self).config == old(self).config,
            match r {
                Ok(()) => {
                    &&& catalog_replay(backlog_view(tasks@)) == Ok::<
                        Map<u64, u64>,
                        BootstrapError,
                    >(final(self).tasks@)
                    &&& catalog_replay(backlog_view(rewards@)) == Ok::<
                        Map<u64, u64>,
                        BootstrapError,
                    >(final(self).rewards@)
                    &&& ledger_replay(backlog_view(ledger@)) == Ok::<
                        Map<u64, Account>,
                        BootstrapError,
                    >(final(self).ledger@)
                },
                Err(e) => {
                    &&& final(self).tasks@ == old(self).tasks@
                    &&& final(self).rewards@ == old(self).rewards@
                    &&& final(self).ledger@ == old(self).ledger@
                    &&& match e {
                        ReloadError::Tasks(b) => catalog_replay(backlog_view(tasks@)) == Err::<
                            Map<u64, u64>,
                            BootstrapError,
                        >(b),
                        ReloadError::Rewards(b) => {
                            &&& catalog_replay(backlog_view(tasks@)) is Ok
                            &&& catalog_replay(backlog_view(rewards@)) == Err::<
                                Map<u64, u64>,
                                BootstrapError,
                            >(b)
                        },
                        ReloadError::Ledger(b) => {
                            &&& catalog_replay(backlog_view(tasks@)) is Ok
                            &&& catalog_replay(backlog_view(rewards@)) is Ok
                            &&& ledger_replay(backlog_view(ledger@)) == Err::<
                                Map<u64, Account>,
                                BootstrapError,
                            >(b)
                        },
                    }
                },
            },
    {
        let t = match Catalog::from_backlog(tasks) {
            Ok(c) => c,
            Err(b) => return Err(ReloadError::Tasks(b)),
        };
        let w = match Catalog::from_backlog(rewards) {
            Ok(c) => c,
            Err(b) => return Err(ReloadError::Rewards(b)),
        };
        let l = match Ledger::from_backlog(ledger) {
            Ok(l) => l,
            Err(b) => return Err(ReloadError::Ledger(b)),
        };
        self.tasks = t;
        self.rewards = w;
        self.ledger = l;
        Ok(())
    }

    /// The record for `user`, written with the balance `written`, got the
    /// identifier `id`; returns the rewrite still owed, if any. Only a
    /// record that is being created takes the identifier.
    pub fn record_created(&mut self, user: u64, id: u64, written: u64) -> (r: Persist)
        ensures
            final(self).config == old(self).config,
            final(self).tasks@ == old(self).tasks@,
            final(self).rewards@ == old(self).rewards@,
            creating(old(self).ledger@, user) ==> {
                &&& final(self).ledger@ == old(self).ledger@.insert(
                    user,
                    Account {
                        balance: old(self).ledger@[user].balance,
                        record: RecordState::Stored(id),
                    },
                )
                &&& r == (if old(self).ledger@[user].balance == written {
                    Persist::Skip
                } else {
                    Persist::Update(id)
                })
            },
            !creating(old(self).ledger@, user) ==> final(self).ledger@ == old(self).ledger@ && r
                == Persist::Skip,
    {
        self.ledger.record_created(user, id, written)
    }

    /// Writing the record for `user` failed: the next change of their
    /// balance asks for a new one.
    pub fn record_failed(&mut self, user: u64)
        ensures
            final(self).config == old(self).config,
            final(self).tasks@ == old(self).tasks@,
            final(self).rewards@ == old(self).rewards@,
            creating(old(self).ledger@, user) ==> final(self).ledger@ == old(self).ledger@.insert(
                user,
                Account { balance: old(self).ledger@[user].balance, record: RecordState::Absent },
            ),
            !creating(old(self).ledger@, user) ==> final(self).ledger@ == old(self).ledger@,
    {
        self.ledger.record_failed(user)
    }
}

} // verus!
