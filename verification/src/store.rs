//! The ledger store: an append-only log of records, keyed by 1-based
//! sequential position. The backing medium (files, an embedded store) is an
//! outside collaborator's concern; the chain manager works against this
//! in-memory mirror, and whoever owns the durable bytes loads and drains it.

use vstd::prelude::*;

verus! {

/// A sequential-integer-keyed record store. Record `i` (1-based) is the
/// `i - 1`-th element of the view.
#[derive(Debug, Clone, PartialEq, Eq)]
pub struct LedgerStore {
    records: Vec<Vec<char>>,
}

impl View for LedgerStore {
    type V = Seq<Seq<char>>;

    closed spec fn view(&self) -> Seq<Seq<char>> {
        Seq::new(self.records@.len(), |i: int| self.records@[i]@)
    }
}

impl LedgerStore {
    /// An empty store.
    pub fn new() -> (s: LedgerStore)
        ensures
            s@.len() == 0,
    {
        LedgerStore { records: Vec::new() }
    }

    /// How many records are persisted.
    pub fn count(&self) -> (n: usize)
        ensures
            n == self@.len(),
    {
        self.records.len()
    }

    /// Whether record `index` is present.
    pub fn has_record(&self, index: usize) -> (r: bool)
        ensures
            r == (1 <= index <= self@.len()),
    {
        1 <= index && index <= self.records.len()
    }

    /// Record `index`, or a not-found signal if it is absent.
    pub fn read(&self, index: usize) -> (r: Option<&Vec<char>>)
        ensures
            match r {
                Some(v) => 1 <= index <= self@.len() && v@ == self@[index - 1],
                None => !(1 <= index <= self@.len()),
            },
    {
        if 1 <= index && index <= self.records.len() {
            Some(&self.records[index - 1])
        } else {
            None
        }
    }

    /// Persists `record` at `index`: appended if it is the next position,
    /// overwritten in place if it already exists.
    pub fn write(&mut self, index: usize, record: Vec<char>)
        requires
            1 <= index <= old(self)@.len() + 1,
        ensures
            final(self)@ == if index == old(self)@.len() + 1 {
                old(self)@.push(record@)
            } else {
                old(self)@.update(index - 1, record@)
            },
    {
        if index - 1 == self.records.len() {
            self.records.push(record);
            proof {
                assert(self@ =~= old(self)@.push(record@));
            }
        } else {
            let slot = &mut self.records[index - 1];
            *slot = record;
            proof {
                assert(self@ =~= old(self)@.update(index - 1, record@));
            }
        }
    }
}

} // verus!
