//! Queries and the pool-owned request id space.

use vstd::prelude::*;

verus! {

/// The logical ledger partition a query addresses.
#[derive(Clone, Copy, PartialEq, Eq, Structural, Debug)]
pub enum LedgerType {
    Pool,
    Domain,
    Config,
}

/// One ledger query: the partition, the transaction sequence number asked
/// for, and a process-unique request id allocated by the owning pool.
pub struct Request {
    pub req_id: u64,
    pub ledger_type: LedgerType,
    pub seq_no: u64,
}

/// The monotonic request id counter owned by one pool instance. Ids start at
/// one and are never reused within the pool's lifetime.
pub struct RequestIdCounter {
    next: u64,
}

impl RequestIdCounter {
    /// The id the next allocation will return.
    pub closed spec fn view(&self) -> int {
        self.next as int
    }

    /// A fresh counter, whose first id is one.
    pub fn new() -> (r: RequestIdCounter)
        ensures
            r@ == 1,
    {
        RequestIdCounter { next: 1 }
    }

    /// The id the next allocation will return, without allocating it.
    pub fn current(&self) -> (r: u64)
        ensures
            r as int == self@,
    {
        self.next
    }

    /// Allocates the next request id. The counter moves strictly forward
    /// until the id space is exhausted, which is unreachable in practice; at
    /// the last id it stays put rather than wrap around and reuse ids.
    pub fn next_id(&mut self) -> (id: u64)
        ensures
            id as int == old(self)@,
            final(self)@ == if old(self)@ < u64::MAX { old(self)@ + 1 } else { old(self)@ },
            final(self)@ >= old(self)@,
    {
        let id = self.next;
        if self.next < u64::MAX {
            self.next = self.next + 1;
        }
        id
    }
}

/// Request ids issued by one pool instance are strictly increasing and never
/// repeat, under either concurrency regime: if one allocation turns counter
/// state `a` into `b`, the counter then only moves forward to some state `c`
/// (as every operation guarantees), and a later allocation turns `c` into
/// `d`, then the second id is strictly greater than the first. This holds as
/// long as the first allocation happened below the end of the id space,
/// which a pool cannot reach in practice.
pub proof fn lemma_request_ids_strictly_increase(
    a: RequestIdCounter,
    b: RequestIdCounter,
    c: RequestIdCounter,
    d: RequestIdCounter,
    id1: u64,
    id2: u64,
)
    requires
        a@ < u64::MAX,
        id1 as int == a@,
        b@ == a@ + 1,
        b@ <= c@,
        id2 as int == c@,
        d@ == if c@ < u64::MAX { c@ + 1 } else { c@ },
    ensures
        id2 > id1,
{
}

} // verus!
