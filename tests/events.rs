use points_ledger::backlog::{BootstrapError, StoredRecord};
use points_ledger::engine::{bytes_equal, Config, Engine, Notice, Plan, ReloadError, Reply};
use points_ledger::ledger::{Account, Persist, RecordState};
use points_ledger::record::RecordError;

const TASKS: u64 = 11;
const REWARDS: u64 = 22;
const BOT: u64 = 99;

fn engine(withdraw_after_purchase: bool) -> Engine {
    Engine::new(Config {
        tasks_channel: TASKS,
        rewards_channel: REWARDS,
        bot_id: BOT,
        withdraw_after_purchase,
    })
}

fn rec(id: u64, text: &str) -> StoredRecord {
    StoredRecord::new(id, text.as_bytes().to_vec())
}

/// An engine in which user 5 holds `balance`, through a stored record 400.
fn engine_with_balance(balance: u64) -> Engine {
    let mut e = engine(false);
    e.reload(&vec![], &vec![], &vec![rec(400, &format!("5 - {}", balance))]).unwrap();
    e
}

#[test]
fn earn_on_task_adds_value_and_withdraws() {
    let mut e = engine_with_balance(10);
    e.register_task(300, 5);
    let p = e.on_reaction(TASKS, 300, Some(5));
    assert_eq!(
        p,
        Plan {
            persist: Persist::Update(400),
            balance: 15,
            notice: Notice::TaskComplete { balance: 15 },
            withdraw: true,
        }
    );
    assert_eq!(e.balance(5), 15);
}

#[test]
fn earn_on_unknown_task_changes_nothing() {
    let mut e = engine_with_balance(10);
    let p = e.on_reaction(TASKS, 301, Some(5));
    assert_eq!(p.balance, 10);
    assert!(p.withdraw);
    assert_eq!(e.balance(5), 10);
}

#[test]
fn purchase_takes_cost_and_keeps_reaction() {
    let mut e = engine_with_balance(10);
    e.register_reward(700, 7);
    let p = e.on_reaction(REWARDS, 700, Some(5));
    assert_eq!(
        p,
        Plan {
            persist: Persist::Update(400),
            balance: 3,
            notice: Notice::RewardPurchased { balance: 3 },
            withdraw: false,
        }
    );
    assert_eq!(e.balance(5), 3);
}

#[test]
fn purchase_withdraws_where_configured() {
    let mut e = engine(true);
    e.register_task(300, 9);
    e.register_reward(700, 7);
    e.on_reaction(TASKS, 300, Some(5));
    let p = e.on_reaction(REWARDS, 700, Some(5));
    assert_eq!(p.notice, Notice::RewardPurchased { balance: 2 });
    assert!(p.withdraw);
}

#[test]
fn purchase_beyond_balance_is_refused() {
    let mut e = engine_with_balance(3);
    e.register_reward(700, 7);
    let p = e.on_reaction(REWARDS, 700, Some(5));
    assert_eq!(
        p,
        Plan {
            persist: Persist::Skip,
            balance: 3,
            notice: Notice::InsufficientPoints { balance: 3 },
            withdraw: true,
        }
    );
    assert_eq!(e.balance(5), 3);
}

#[test]
fn purchase_of_unknown_reward_is_reported() {
    let mut e = engine_with_balance(3);
    let p = e.on_reaction(REWARDS, 701, Some(5));
    assert_eq!(p.notice, Notice::UnknownReward);
    assert!(!p.withdraw);
    assert_eq!(e.balance(5), 3);
}

#[test]
fn overflowing_earn_is_refused_and_withdrawn() {
    let mut e = engine_with_balance(u64::MAX);
    e.register_task(300, 1);
    let p = e.on_reaction(TASKS, 300, Some(5));
    assert_eq!(p.notice, Notice::EarnRefused);
    assert_eq!(p.persist, Persist::Skip);
    assert!(p.withdraw);
    assert_eq!(e.balance(5), u64::MAX);
}

#[test]
fn reaction_elsewhere_or_without_user_is_ignored() {
    let mut e = engine(false);
    e.register_task(300, 5);
    let idle = Plan { persist: Persist::Skip, balance: 0, notice: Notice::Silent, withdraw: false };
    assert_eq!(e.on_reaction(33, 300, Some(5)), idle);
    assert_eq!(e.on_reaction(TASKS, 300, None), idle);
    assert_eq!(e.balance(5), 0);
    assert_eq!(e.ledger.len(), 0);
}

#[test]
fn first_earn_creates_record_once() {
    let mut e = engine(false);
    e.register_task(300, 2);
    assert_eq!(e.on_reaction(TASKS, 300, Some(5)).persist, Persist::Create);
    assert_eq!(e.on_reaction(TASKS, 300, Some(5)).persist, Persist::Skip);
    assert_eq!(e.record_created(5, 401, 2), Persist::Update(401));
    assert_eq!(e.on_reaction(TASKS, 300, Some(5)).persist, Persist::Update(401));
}

#[test]
fn failed_creation_is_retried() {
    let mut e = engine(false);
    e.register_task(300, 2);
    assert_eq!(e.on_reaction(TASKS, 300, Some(5)).persist, Persist::Create);
    e.record_failed(5);
    assert_eq!(
        e.ledger.account(5),
        Some(Account { balance: 2, record: RecordState::Absent })
    );
    assert_eq!(e.on_reaction(TASKS, 300, Some(5)).persist, Persist::Create);
}

#[test]
fn repeated_earns_of_one_are_not_lost() {
    let mut e = engine_with_balance(4);
    e.register_task(300, 1);
    e.register_task(301, 1);
    e.register_task(302, 7);
    e.on_reaction(TASKS, 302, Some(6));
    for i in 0..100u64 {
        e.on_reaction(TASKS, 300 + i % 2, Some(5));
    }
    assert_eq!(e.balance(5), 104);
    assert_eq!(e.balance(6), 7);
}

#[test]
fn commands_are_answered() {
    let e = engine_with_balance(12);
    assert_eq!(e.on_message(5, b"!help"), Reply::Help);
    assert_eq!(e.on_message(5, b"!balance"), Reply::Balance { balance: 12 });
    assert_eq!(e.on_message(6, b"!balance"), Reply::Balance { balance: 0 });
    assert_eq!(e.on_message(5, b"!balances"), Reply::Unknown);
    assert_eq!(e.on_message(5, b""), Reply::Unknown);
    assert_eq!(e.on_message(BOT, b"!help"), Reply::Ignore);
}

#[test]
fn bytes_equal_compares_contents() {
    assert!(bytes_equal(b"abc", b"abc"));
    assert!(!bytes_equal(b"abc", b"abd"));
    assert!(!bytes_equal(b"abc", b"ab"));
    assert!(bytes_equal(b"", b""));
}

#[test]
fn reload_replaces_all_stores() {
    let mut e = engine(false);
    e.register_task(1, 1);
    e.reload(
        &vec![rec(300, "1 - 5")],
        &vec![rec(700, "1 - 7")],
        &vec![rec(400, "5 - 10"), rec(401, "6 - 1")],
    )
    .unwrap();
    assert_eq!(e.tasks.lookup(1), None);
    assert_eq!(e.tasks.lookup(300), Some(5));
    assert_eq!(e.rewards.lookup(700), Some(7));
    assert_eq!(e.balance(5), 10);
    assert_eq!(e.balance(6), 1);
    assert_eq!(e.on_reaction(TASKS, 300, Some(6)).balance, 6);
    assert_eq!(e.on_reaction(REWARDS, 700, Some(5)).notice, Notice::RewardPurchased { balance: 3 });
}

#[test]
fn reload_refuses_record_with_extra_field() {
    let mut e = engine(false);
    let bad = vec![rec(300, "1 - 2 - 3")];
    assert_eq!(
        e.reload(&bad, &vec![], &vec![]),
        Err(ReloadError::Tasks(BootstrapError { index: 0, reason: RecordError::BadValue }))
    );
}

#[test]
fn late_record_is_not_taken_over_a_stored_one() {
    let mut e = engine_with_balance(4);
    assert_eq!(e.record_created(5, 999, 4), Persist::Skip);
    assert_eq!(
        e.ledger.account(5),
        Some(Account { balance: 4, record: RecordState::Stored(400) })
    );
}

#[test]
fn reload_errors_name_the_backlog_and_change_nothing() {
    let mut e = engine(false);
    e.register_task(1, 1);
    let good = vec![rec(300, "1 - 5")];
    let bad = vec![rec(300, "1 - 5"), rec(301, "oops")];
    assert_eq!(
        e.reload(&bad, &good, &good),
        Err(ReloadError::Tasks(BootstrapError { index: 1, reason: RecordError::MissingValue }))
    );
    assert_eq!(
        e.reload(&good, &bad, &good),
        Err(ReloadError::Rewards(BootstrapError { index: 1, reason: RecordError::MissingValue }))
    );
    assert_eq!(
        e.reload(&good, &good, &bad),
        Err(ReloadError::Ledger(BootstrapError { index: 1, reason: RecordError::MissingValue }))
    );
    assert_eq!(e.tasks.lookup(1), Some(1));
    assert_eq!(e.tasks.lookup(300), None);
    assert_eq!(e.ledger.len(), 0);
}
