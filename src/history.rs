//! Sequences of earns and purchases, and what holds of every such sequence.
use vstd::prelude::*;

use crate::backlog::BootstrapError;
use crate::ledger::{
    account_in, after_earn, balances_of, earn_step, ledger_replay, spend_step, Account,
    RecordState,
};
use crate::record::{lemma_record_round_trip, record_text_of};

verus! {

/// One operation on the ledger.
#[derive(Clone, Copy, Debug, PartialEq, Eq, Structural)]
pub enum Op {
    Earn { trigger: u64, user: u64 },
    Spend { trigger: u64, user: u64 },
}

/// Balances after one operation.
pub open spec fn step(b: Map<u64, int>, tasks: Map<u64, u64>, rewards: Map<u64, u64>, op: Op) -> Map<
    u64,
    int,
> {
    match op {
        Op::Earn { trigger, user } => earn_step(b, tasks, trigger, user),
        Op::Spend { trigger, user } => spend_step(b, rewards, trigger, user),
    }
}

/// Balances after the operations `ops`, applied in order from `b`.
pub open spec fn run(b: Map<u64, int>, tasks: Map<u64, u64>, rewards: Map<u64, u64>, ops: Seq<Op>) -> Map<
    u64,
    int,
>
    decreases ops.len(),
{
    if ops.len() == 0 {
        b
    } else {
        step(run(b, tasks, rewards, ops.drop_last()), tasks, rewards, ops.last())
    }
}

pub open spec fn all_nonnegative(b: Map<u64, int>) -> bool {
    forall|u: u64| b.contains_key(u) ==> b[u] >= 0
}

proof fn lemma_run_nonnegative(
    b: Map<u64, int>,
    tasks: Map<u64, u64>,
    rewards: Map<u64, u64>,
    ops: Seq<Op>,
)
    requires
        all_nonnegative(b),
    ensures
        all_nonnegative(run(b, tasks, rewards, ops)),
    decreases ops.len(),
{
    if ops.len() > 0 {
        lemma_run_nonnegative(b, tasks, rewards, ops.drop_last());
    }
}

/// From balances that are all at least 0, every balance seen after any
/// prefix of any sequence of earns and purchases is at least 0.
pub proof fn lemma_balances_never_negative(
    b: Map<u64, int>,
    tasks: Map<u64, u64>,
    rewards: Map<u64, u64>,
    ops: Seq<Op>,
)
    requires
        all_nonnegative(b),
    ensures
        forall|k: int, u: u64|
            0 <= k <= ops.len() && #[trigger] run(b, tasks, rewards, ops.take(k)).contains_key(u)
                ==> run(b, tasks, rewards, ops.take(k))[u] >= 0,
{
    assert forall|k: int, u: u64|
        0 <= k <= ops.len() && #[trigger] run(b, tasks, rewards, ops.take(k)).contains_key(
            u,
        ) implies run(b, tasks, rewards, ops.take(k))[u] >= 0 by {
        lemma_run_nonnegative(b, tasks, rewards, ops.take(k));
    }
}

/// Running two sequences one after the other is running their concatenation.
pub proof fn lemma_run_append(
    b: Map<u64, int>,
    tasks: Map<u64, u64>,
    rewards: Map<u64, u64>,
    first: Seq<Op>,
    second: Seq<Op>,
)
    ensures
        run(run(b, tasks, rewards, first), tasks, rewards, second) == run(
            b,
            tasks,
            rewards,
            first + second,
        ),
    decreases second.len(),
{
    if second.len() == 0 {
        assert(first + second =~= first);
    } else {
        lemma_run_append(b, tasks, rewards, first, second.drop_last());
        assert((first + second).drop_last() =~= first + second.drop_last());
        assert((first + second).last() == second.last());
    }
}

/// The accounts after `user` earns on each of `triggers`, one at a time,
/// in order.
pub open spec fn earn_each(m: Map<u64, Account>, tasks: Map<u64, u64>, triggers: Seq<u64>, user: u64) -> Map<
    u64,
    Account,
>
    decreases triggers.len(),
{
    if triggers.len() == 0 {
        m
    } else {
        after_earn(earn_each(m, tasks, triggers.drop_last(), user), tasks, triggers.last(), user)
    }
}

/// Where each of `triggers` is a task worth 1, the earns of one user on
/// them, taken one at a time, raise that user's balance by exactly their
/// number, so long as the sum fits: no earn is lost, and no other account
/// changes.
pub proof fn lemma_earns_of_one_all_count(
    m: Map<u64, Account>,
    tasks: Map<u64, u64>,
    triggers: Seq<u64>,
    user: u64,
)
    requires
        forall|i: int|
            0 <= i < triggers.len() ==> tasks.contains_key(#[trigger] triggers[i]) && tasks[triggers[i]]
                == 1,
        account_in(m, user).balance + triggers.len() <= u64::MAX,
    ensures
        account_in(earn_each(m, tasks, triggers, user), user).balance == account_in(m, user).balance
            + triggers.len(),
        forall|w: u64|
            w != user ==> #[trigger] account_in(earn_each(m, tasks, triggers, user), w)
                == account_in(m, w),
    decreases triggers.len(),
{
    if triggers.len() > 0 {
        let rest = triggers.drop_last();
        assert forall|i: int| 0 <= i < rest.len() implies tasks.contains_key(
            #[trigger] rest[i],
        ) && tasks[rest[i]] == 1 by {
            assert(rest[i] == triggers[i]);
        }
        lemma_earns_of_one_all_count(m, tasks, rest, user);
        assert(tasks.contains_key(triggers[triggers.len() - 1]));
        let prev = earn_each(m, tasks, rest, user);
        assert forall|w: u64| w != user implies #[trigger] account_in(
            earn_each(m, tasks, triggers, user),
            w,
        ) == account_in(m, w) by {
            assert(account_in(prev, w) == account_in(m, w));
        }
    }
}

/// The backlog that writes, for each `users[i]`, the record `ids[i]` holding
/// that user's balance in `b`.
pub open spec fn backlog_of(users: Seq<u64>, ids: Seq<u64>, b: Map<u64, int>) -> Seq<
    (u64, Seq<u8>),
> {
    Seq::new(users.len(), |i: int| (ids[i], record_text_of(users[i], b[users[i]] as u64)))
}

/// Whether `users` lists exactly the users of `b`, each once, each balance
/// fitting in a `u64`.
pub open spec fn lists_accounts(users: Seq<u64>, b: Map<u64, int>) -> bool {
    &&& users.no_duplicates()
    &&& forall|i: int| 0 <= i < users.len() ==> b.contains_key(#[trigger] users[i])
    &&& forall|u: u64| b.contains_key(u) ==> exists|i: int| 0 <= i < users.len() && users[i] == u
    &&& forall|u: u64| b.contains_key(u) ==> 0 <= #[trigger] b[u] <= u64::MAX
}

proof fn lemma_replay_prefix(users: Seq<u64>, ids: Seq<u64>, b: Map<u64, int>, k: int)
    requires
        ids.len() == users.len(),
        lists_accounts(users, b),
        0 <= k <= users.len(),
    ensures
        ledger_replay(backlog_of(users, ids, b).take(k)) is Ok,
        forall|u: u64|
            #[trigger] ledger_replay(backlog_of(users, ids, b).take(k))->Ok_0.contains_key(u) <==> exists|
                i: int,
            |
                0 <= i < k && users[i] == u,
        forall|u: u64|
            #[trigger] ledger_replay(backlog_of(users, ids, b).take(k))->Ok_0.contains_key(u)
                ==> ledger_replay(backlog_of(users, ids, b).take(k))->Ok_0[u].balance == b[u],
        forall|i: int|
            0 <= i < k ==> ledger_replay(backlog_of(users, ids, b).take(k))->Ok_0[#[trigger] users[i]].record
                == RecordState::Stored(ids[i]),
    decreases k,
{
    let full = backlog_of(users, ids, b);
    if k == 0 {
        assert(full.take(0) =~= Seq::<(u64, Seq<u8>)>::empty());
    } else {
        lemma_replay_prefix(users, ids, b, k - 1);
        let t = full.take(k);
        assert(t.drop_last() =~= full.take(k - 1));
        let u = users[k - 1];
        assert(b.contains_key(u));
        let v = b[u] as u64;
        lemma_record_round_trip(u, v);
        assert(t.last().1 == record_text_of(u, v));
        let prev = ledger_replay(full.take(k - 1))->Ok_0;
        let cur = ledger_replay(t)->Ok_0;
        assert(cur == prev.insert(u, Account { balance: v, record: RecordState::Stored(ids[k - 1]) }));
        assert forall|w: u64| #[trigger] cur.contains_key(w) <==> exists|i: int|
            0 <= i < k && users[i] == w by {
            if cur.contains_key(w) && w != u {
                let i = choose|i: int| 0 <= i < k - 1 && users[i] == w;
                assert(0 <= i < k && users[i] == w);
            }
            if exists|i: int| 0 <= i < k && users[i] == w {
                let i = choose|i: int| 0 <= i < k && users[i] == w;
                if i < k - 1 {
                    assert(prev.contains_key(w));
                }
            }
        }
        assert forall|i: int| 0 <= i < k implies cur[#[trigger] users[i]].record
            == RecordState::Stored(ids[i]) by {
            if i < k - 1 {
                assert(users[i] != users[k - 1]);
            }
        }
    }
}

/// Replaying the records that hold the balances reached by `done` gives
/// each user that balance and the record it was read from; running `more`
/// after that leaves the balances that running `done` and then `more` from
/// empty stores leaves.
pub proof fn lemma_replay_then_run(
    tasks: Map<u64, u64>,
    rewards: Map<u64, u64>,
    done: Seq<Op>,
    more: Seq<Op>,
    users: Seq<u64>,
    ids: Seq<u64>,
)
    requires
        ids.len() == users.len(),
        lists_accounts(users, run(Map::empty(), tasks, rewards, done)),
    ensures
        ({
            let reached = run(Map::empty(), tasks, rewards, done);
            let replayed = ledger_replay(backlog_of(users, ids, reached));
            &&& replayed is Ok
            &&& balances_of(replayed->Ok_0) == reached
            &&& forall|i: int|
                0 <= i < users.len() ==> replayed->Ok_0[#[trigger] users[i]] == Account {
                    balance: reached[users[i]] as u64,
                    record: RecordState::Stored(ids[i]),
                }
            &&& run(balances_of(replayed->Ok_0), tasks, rewards, more) == run(
                Map::empty(),
                tasks,
                rewards,
                done + more,
            )
        }),
{
    let reached = run(Map::empty(), tasks, rewards, done);
    let full = backlog_of(users, ids, reached);
    lemma_replay_prefix(users, ids, reached, users.len() as int);
    assert(full.take(users.len() as int) =~= full);
    let m = ledger_replay(full)->Ok_0;
    assert(balances_of(m) =~= reached);
    assert forall|i: int| 0 <= i < users.len() implies m[#[trigger] users[i]] == Account {
        balance: reached[users[i]] as u64,
        record: RecordState::Stored(ids[i]),
    } by {
        assert(m.contains_key(users[i]));
        assert(reached.contains_key(users[i]));
    }
    lemma_run_append(Map::empty(), tasks, rewards, done, more);
}

} // verus!
