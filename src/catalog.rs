//! A catalog: the point value of each trigger (a task post or a reward post).
use std::collections::HashMap;

use vstd::prelude::*;

use crate::backlog::{backlog_view, lemma_replay_fails_at, replay, BootstrapError, StoredRecord};
use crate::record::parse_record;

verus! {

broadcast use vstd::std_specs::hash::group_hash_axioms;

/// The entry of `trigger` in `c`, if it has one.
pub open spec fn entry_of(c: Map<u64, u64>, trigger: u64) -> Option<u64> {
    if c.contains_key(trigger) {
        Some(c[trigger])
    } else {
        None
    }
}

/// The points that `trigger` confers: its value, or nothing where it is not
/// in `c`.
pub open spec fn value_in(c: Map<u64, u64>, trigger: u64) -> int {
    if c.contains_key(trigger) {
        c[trigger] as int
    } else {
        0
    }
}

/// The catalog that a backlog of catalog records describes: each record is
/// the post of a trigger, so the record's own identifier is the trigger and
/// the value field of its text is the trigger's value (the id field must be
/// a number too). A later record overrides an earlier one. Fails on the
/// first record that cannot be read.
pub open spec fn catalog_replay(b: Seq<(u64, Seq<u8>)>) -> Result<Map<u64, u64>, BootstrapError> {
    replay(b, Map::<u64, u64>::empty(), add_catalog_record())
}

/// One catalog record read back: the record's identifier gets the value.
pub open spec fn add_catalog_record() -> spec_fn(Map<u64, u64>, u64, (u64, u64)) -> Map<u64, u64> {
    |m: Map<u64, u64>, id: u64, pair: (u64, u64)| m.insert(id, pair.1)
}

/// Registering a trigger twice with one value leaves the catalog as one
/// registration does.
pub proof fn lemma_register_idempotent(c: Map<u64, u64>, trigger: u64, value: u64)
    ensures
        c.insert(trigger, value).insert(trigger, value) == c.insert(trigger, value),
{
    assert(c.insert(trigger, value).insert(trigger, value) =~= c.insert(trigger, value));
}

/// Trigger identifiers and their point values.
pub struct Catalog {
    entries: HashMap<u64, u64>,
}

impl View for Catalog {
    type V = Map<u64, u64>;

    closed spec fn view(&self) -> Map<u64, u64> {
        self.entries@
    }
}

impl Catalog {
    /// An empty catalog.
    pub fn new() -> (r: Catalog)
        ensures
            r@ == Map::<u64, u64>::empty(),
    {
        Catalog { entries: HashMap::new() }
    }

    /// Sets the value of `trigger`, replacing any earlier one.
    pub fn register(&mut self, trigger: u64, value: u64)
        ensures
            final(self)@ == old(self)@.insert(trigger, value),
    {
        self.entries.insert(trigger, value);
    }

    /// The value of `trigger`, if it is registered.
    pub fn lookup(&self, trigger: u64) -> (r: Option<u64>)
        ensures
            r == entry_of(self@, trigger),
    {
        match self.entries.get(&trigger) {
            Some(v) => Some(*v),
            None => None,
        }
    }

    /// The value of `trigger`, or 0 where it is not registered.
    pub fn value_or_zero(&self, trigger: u64) -> (r: u64)
        ensures
            r as int == value_in(self@, trigger),
    {
        match self.lookup(trigger) {
            Some(v) => v,
            None => 0,
        }
    }

    /// The number of registered triggers.
    pub fn len(&self) -> (r: usize)
        ensures
            r == self@.len(),
    {
        self.entries.len()
    }

    /// The catalog that `records` describe, read in order.
    pub fn from_backlog(records: &Vec<StoredRecord>) -> (r: Result<Catalog, BootstrapError>)
        ensures
            match r {
                Ok(c) => catalog_replay(backlog_view(records@)) == Ok::<Map<u64, u64>, BootstrapError>(c@),
                Err(e) => catalog_replay(backlog_view(records@)) == Err::<Map<u64, u64>, BootstrapError>(e),
            },
    {
        let ghost b = backlog_view(records@);
        let mut c = Catalog::new();
        let n = records.len();
        let mut i: usize = 0;
        assert(b.subrange(0, 0) =~= Seq::<(u64, Seq<u8>)>::empty());
        while i < n
            invariant
                n == records@.len(),
                b == backlog_view(records@),
                0 <= i <= n,
                catalog_replay(b.subrange(0, i as int)) == Ok::<Map<u64, u64>, BootstrapError>(c@),
            decreases n - i,
        {
            let ghost prefix = b.subrange(0, i + 1);
            assert(prefix.drop_last() =~= b.subrange(0, i as int));
            assert(prefix.last() == (records@[i as int].id, records@[i as int].content@));
            match parse_record(records[i].content.as_slice()) {
                Err(reason) => {
                    let e = BootstrapError { index: i, reason };
                    proof {
                        lemma_replay_fails_at(
                            b,
                            Map::<u64, u64>::empty(),
                            add_catalog_record(),
                            i as int,
                            e,
                        );
                    }
                    return Err(e);
                },
                Ok(pair) => {
                    c.register(records[i].id, pair.1);
                },
            }
            i = i + 1;
        }
        assert(b.subrange(0, n as int) =~= b);
        Ok(c)
    }
}

} // verus!
