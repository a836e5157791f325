//! Single-slot, multi-reader "latest value" publish/subscribe primitive.
//!
//! Holds the current live state table together with a version counter that
//! moves on every mutation. Readers keep the last version they saw and poll
//! [`StateBroadcaster::changed`]; only the latest value matters, bursts
//! coalesce.

use vstd::prelude::*;

use crate::common::{ServerState, ServerStatus};

verus! {

/// The version counter after one more publication.
pub open spec fn next_version(v: u64) -> u64 {
    if v == u64::MAX {
        0
    } else {
        (v + 1) as u64
    }
}

/// Value-preserving copy of a state table.
pub fn duplicate_states(v: &Vec<ServerState>) -> (r: Vec<ServerState>)
    ensures
        r@ == v@,
{
    let mut r: Vec<ServerState> = Vec::new();
    let mut i: usize = 0;
    while i < v.len()
        invariant
            i <= v.len(),
            r@ == v@.subrange(0, i as int),
        decreases v.len() - i,
    {
        r.push(v[i].duplicate());
        proof {
            assert(r@ =~= v@.subrange(0, i + 1 as int));
        }
        i = i + 1;
    }
    proof {
        assert(r@ =~= v@);
    }
    r
}

/// Latest-value slot for the live state table, with a change counter.
pub struct StateBroadcaster {
    current: Vec<ServerState>,
    version: u64,
}

impl StateBroadcaster {
    /// The table as last published.
    pub closed spec fn spec_table(&self) -> Seq<ServerState> {
        self.current@
    }

    /// The current change counter.
    pub closed spec fn spec_version(&self) -> u64 {
        self.version
    }

    /// An empty slot.
    pub fn new() -> (r: StateBroadcaster)
        ensures
            r.spec_table() == Seq::<ServerState>::empty(),
            r.spec_version() == 0,
    {
        StateBroadcaster { current: Vec::new(), version: 0 }
    }

    /// A point-in-time copy of the table, safe to hand to any reader.
    pub fn snapshot(&self) -> (r: Vec<ServerState>)
        ensures
            r@ == self.spec_table(),
    {
        duplicate_states(&self.current)
    }

    /// Read-only access to the current table.
    pub fn latest(&self) -> (r: &Vec<ServerState>)
        ensures
            r@ == self.spec_table(),
    {
        &self.current
    }

    /// The current change counter; remember it to poll for changes.
    pub fn version(&self) -> (r: u64)
        ensures
            r == self.spec_version(),
    {
        self.version
    }

    /// Whether the table has been mutated since a reader last saw
    /// version `since`.
    pub fn changed(&self, since: u64) -> (r: bool)
        ensures
            r == (self.spec_version() != since),
    {
        self.version != since
    }

    /// Appends a row and notifies readers.
    pub fn push_row(&mut self, row: ServerState)
        ensures
            final(self).spec_table() == old(self).spec_table().push(row),
            final(self).spec_version() == next_version(old(self).spec_version()),
    {
        self.current.push(row);
        self.bump();
    }

    /// Removes the row at `i` and notifies readers.
    pub fn remove_row(&mut self, i: usize)
        requires
            i < old(self).spec_table().len(),
        ensures
            final(self).spec_table() == old(self).spec_table().remove(i as int),
            final(self).spec_version() == next_version(old(self).spec_version()),
    {
        self.current.remove(i);
        self.bump();
    }

    /// Replaces the status of the row at `i` and notifies readers.
    pub fn set_status(&mut self, i: usize, status: ServerStatus)
        requires
            i < old(self).spec_table().len(),
        ensures
            final(self).spec_table() == old(self).spec_table().update(
                i as int,
                ServerState {
                    status,
                    ..old(self).spec_table()[i as int]
                },
            ),
            final(self).spec_version() == next_version(old(self).spec_version()),
    {
        let ghost pre = self.current@;
        let mut row = self.current.remove(i);
        row.status = status;
        self.current.insert(i, row);
        proof {
            assert(self.current@ =~= pre.update(
                i as int,
                ServerState { status, ..pre[i as int] },
            ));
        }
        self.bump();
    }

    /// Moves the change counter.
    fn bump(&mut self)
        ensures
            final(self).spec_version() == next_version(old(self).spec_version()),
            final(self).spec_table() == old(self).spec_table(),
    {
        if self.version == u64::MAX {
            self.version = 0;
        } else {
            self.version = self.version + 1;
        }
    }
}

} // verus!
