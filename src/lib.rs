//! A points ledger driven by reactions: users earn points on task posts and
//! spend them on reward posts, and each balance is mirrored in a durable
//! record whose text is `<id> - <value>`.
//!
//! - `record`: reading and writing the text of a record.
//! - `backlog`: records read back from the durable log.
//! - `catalog`: trigger values, for tasks and for rewards.
//! - `ledger`: balances, earns, purchases and the state of each record.
//! - `history`: sequences of operations and the laws that hold of them.
//! - `engine`: the decision taken on each reaction or command.
pub mod record;
pub mod backlog;
pub mod catalog;
pub mod ledger;
pub mod history;
pub mod engine;
