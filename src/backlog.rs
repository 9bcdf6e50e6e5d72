//! The durable records read back at start-up, in the log's own order.
use vstd::prelude::*;

use crate::record::{record_of, RecordError};

verus! {

/// One record of an outside log: the identifier the log gave it and its text.
#[derive(Debug)]
pub struct StoredRecord {
    pub id: u64,
    pub content: Vec<u8>,
}

/// A backlog as values: each record's identifier and text.
pub open spec fn backlog_view(recs: Seq<StoredRecord>) -> Seq<(u64, Seq<u8>)> {
    recs.map_values(|r: StoredRecord| (r.id, r.content@))
}

/// A backlog that could not be read: the position of its first bad record,
/// and what is wrong with that record.
#[derive(Clone, Copy, Debug, PartialEq, Eq, Structural)]
pub struct BootstrapError {
    pub index: usize,
    pub reason: RecordError,
}

/// What replaying a backlog gives: from `start`, each record's identifier
/// and the pair that its text reads as are handed to `step`, in order. Fails
/// on the first record whose text cannot be read.
pub open spec fn replay<M>(
    b: Seq<(u64, Seq<u8>)>,
    start: M,
    step: spec_fn(M, u64, (u64, u64)) -> M,
) -> Result<M, BootstrapError>
    decreases b.len(),
{
    if b.len() == 0 {
        Ok(start)
    } else {
        match replay(b.drop_last(), start, step) {
            Err(e) => Err(e),
            Ok(m) => match record_of(b.last().1) {
                Err(reason) => Err(BootstrapError { index: (b.len() - 1) as usize, reason }),
                Ok(pair) => Ok(step(m, b.last().0, pair)),
            },
        }
    }
}

/// A failure at one record of a backlog is the failure of the whole backlog.
pub proof fn lemma_replay_fails_at<M>(
    b: Seq<(u64, Seq<u8>)>,
    start: M,
    step: spec_fn(M, u64, (u64, u64)) -> M,
    i: int,
    e: BootstrapError,
)
    requires
        0 <= i < b.len(),
        replay(b.subrange(0, i + 1), start, step) == Err::<M, BootstrapError>(e),
    ensures
        replay(b, start, step) == Err::<M, BootstrapError>(e),
    decreases b.len(),
{
    if i + 1 < b.len() {
        assert(b.drop_last().subrange(0, i + 1) =~= b.subrange(0, i + 1));
        lemma_replay_fails_at(b.drop_last(), start, step, i, e);
    } else {
        assert(b.subrange(0, i + 1) =~= b);
    }
}

impl StoredRecord {
    /// A record with the given identifier and text.
    pub fn new(id: u64, content: Vec<u8>) -> (r: StoredRecord)
        ensures
            r.id == id,
            r.content@ == content@,
    {
        StoredRecord { id, content }
    }
}

} // verus!
