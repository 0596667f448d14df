//! The shared ownership variant of a pool handle: a reference-counted,
//! clonable handle whose clones all drive the same pool. Every operation
//! takes the pool under an exclusive lock, so the request id counter and the
//! networker state are mutated under lock discipline. The lock's predicate
//! carries the handle's model — the validator count, the per-node outcomes
//! and the configuration, all of which every pool operation preserves — so
//! each query's contract speaks of that model exactly as the exclusive
//! pool's contracts do.

use vstd::prelude::*;
use vstd::rwlock::{RwLock, RwLockPredicate};
use std::sync::Arc;
use crate::consensus::{
    elapsed_of, first_quorum, first_raw_upto, norm_of, raw_of, tally_matches, NodeOutcome,
};
use crate::errors::{LedgerError, LedgerResult};
use crate::networker::InMemoryNetworker;
use crate::pool::{all_unreachable, entry_matches, timing_entries, AbstractPool};
use crate::registry::quorum;
use crate::requests::LedgerType;

verus! {

/// The exclusive ownership variant: one owner, no synchronization.
pub type LocalPool = AbstractPool<InMemoryNetworker>;

/// The model a shared handle's lock maintains: the validator count, the
/// outcome each node delivers, and the configuration. Every pool stored in
/// the lock is well formed and agrees with this model; the query operations
/// preserve all three, so the model is an invariant of the handle.
pub struct PoolModel {
    pub node_count: int,
    pub outcomes: Seq<NodeOutcome>,
    pub config: crate::config::PoolConfig,
}

impl RwLockPredicate<LocalPool> for PoolModel {
    open spec fn inv(self, v: LocalPool) -> bool {
        &&& v.wf()
        &&& v.node_count_spec() == self.node_count
        &&& v.outcomes_spec() == self.outcomes
        &&& v.config_spec() == self.config
    }
}

/// A clonable, thread-safe pool handle. Cloning shares the underlying pool:
/// all clones draw request ids from the one counter inside the lock, whose
/// exclusive acquisition means the counter only moves forward between any
/// two allocations — each query advances it as `AbstractPool`'s contracts
/// state — so `lemma_request_ids_strictly_increase` applies to any two
/// queries made through any clones, in any interleaving. The lock's model
/// cannot carry the counter's changing value itself, so no `SharedPool`
/// contract names it; `next_request_id` lets a caller observe it.
#[derive(Clone)]
pub struct SharedPool {
    inner: Arc<RwLock<LocalPool, PoolModel>>,
}

impl SharedPool {
    /// The model the lock maintains.
    pub closed spec fn model(&self) -> PoolModel {
        self.inner.pred()
    }

    /// The number of validators of the shared pool.
    pub open spec fn node_count_spec(&self) -> int {
        self.model().node_count
    }

    /// What each node delivers for a query sent through this handle.
    pub open spec fn outcomes_spec(&self) -> Seq<NodeOutcome> {
        self.model().outcomes
    }

    /// The configuration the shared pool was built with.
    pub open spec fn config_spec(&self) -> crate::config::PoolConfig {
        self.model().config
    }

    /// A handle is well formed when its model describes a viable validator
    /// set: at least four nodes, one outcome per node.
    pub open spec fn wf(&self) -> bool {
        &&& self.node_count_spec() >= 4
        &&& self.outcomes_spec().len() == self.node_count_spec()
    }

    /// Wraps a well-formed pool for shared use. The handle's model is the
    /// given pool's validator count, outcomes and configuration.
    pub fn new(pool: LocalPool) -> (r: SharedPool)
        requires
            pool.wf(),
        ensures
            r.wf(),
            r.node_count_spec() == pool.node_count_spec(),
            r.outcomes_spec() == pool.outcomes_spec(),
            r.config_spec() == pool.config_spec(),
    {
        proof {
            pool.lemma_wf_bounds();
        }
        let ghost model = PoolModel {
            node_count: pool.node_count_spec(),
            outcomes: pool.outcomes_spec(),
            config: pool.config_spec(),
        };
        SharedPool { inner: Arc::new(RwLock::new(pool, Ghost(model))) }
    }

    /// The number of validators.
    pub fn node_count(&self) -> (r: usize)
        ensures
            r == self.node_count_spec(),
    {
        let (pool, handle) = self.inner.acquire_write();
        let n = pool.node_count();
        handle.release_write(pool);
        n
    }

    /// The id the next query through any clone will be dispatched under.
    /// The value depends on how many queries other clones have already
    /// made, so no more than its existence can be promised here.
    pub fn next_request_id(&self) -> u64 {
        let (pool, handle) = self.inner.acquire_write();
        let id = pool.next_request_id();
        handle.release_write(pool);
        id
    }

    /// Fault tolerance `f` of the shared pool's validator set.
    pub fn max_faulty(&self) -> (r: usize)
        ensures
            r == crate::registry::max_faulty(self.node_count_spec()),
    {
        let (pool, handle) = self.inner.acquire_write();
        let f = pool.max_faulty();
        handle.release_write(pool);
        f
    }

    /// Quorum threshold `q` of the shared pool's validator set.
    pub fn quorum(&self) -> (r: usize)
        ensures
            r == quorum(self.node_count_spec()),
    {
        let (pool, handle) = self.inner.acquire_write();
        let q = pool.quorum();
        handle.release_write(pool);
        q
    }

    /// Single strategy under the lock: one node is contacted round robin —
    /// which one depends on the interleaving with other handles — and its
    /// raw reply is returned with that node's timing entry, or
    /// `ConnectionError` exactly when that node is unreachable.
    pub fn get_txn(&self, ledger_type: LedgerType, seq_no: u64) -> (r: LedgerResult<
        (String, Vec<(usize, u64)>),
    >)
        requires
            seq_no >= 1,
        ensures
            r matches Ok(pt) ==> exists|i: int|
                0 <= i < self.outcomes_spec().len() && raw_of(
                    #[trigger] self.outcomes_spec()[i],
                ) == Some(pt.0@) && pt.1@ == seq![
                    (i as usize, elapsed_of(self.outcomes_spec()[i])),
                ],
            r matches Err(e) ==> e is ConnectionError && exists|i: int|
                0 <= i < self.outcomes_spec().len() && raw_of(
                    #[trigger] self.outcomes_spec()[i],
                ) is None,
    {
        let (mut pool, handle) = self.inner.acquire_write();
        proof {
            pool.lemma_wf_bounds();
        }
        let ghost node = pool.rr_node();
        let r = pool.get_txn(ledger_type, seq_no);
        handle.release_write(pool);
        proof {
            assert(0 <= node < self.outcomes_spec().len());
        }
        r
    }

    /// Quorum strategy under the lock, with the exclusive pool's contract
    /// over this handle's model: the representative raw response of the
    /// first normalized value reported by `q` distinct nodes, with one
    /// timing entry per contacted node, or `NoConsensus` carrying the
    /// per-value tally of every observed reply.
    pub fn get_txn_consensus(&self, ledger_type: LedgerType, seq_no: u64) -> (r: LedgerResult<
        (String, Vec<(usize, u64)>),
    >)
        requires
            seq_no >= 1,
        ensures
            ({
                let evs = self.outcomes_spec();
                let q = quorum(self.node_count_spec());
                &&& (first_quorum(evs, q) matches Some(k) ==> (r matches Ok(pt) && norm_of(
                    evs[k - 1],
                ) matches Some(v) && first_raw_upto(evs, k, v) == Some(pt.0@) && pt.1@
                    == timing_entries(evs, k)))
                &&& (first_quorum(evs, q) is None ==> (r matches Err(e) && e matches
                    LedgerError::NoConsensus(t) && tally_matches(t@, evs, evs.len() as int)))
            }),
    {
        let (mut pool, handle) = self.inner.acquire_write();
        proof {
            pool.lemma_wf_bounds();
        }
        let r = pool.get_txn_consensus(ledger_type, seq_no);
        handle.release_write(pool);
        r
    }

    /// Full-set strategy under the lock: one outcome entry and one timing
    /// entry per node of this handle's validator set, in node order, each
    /// matching that node's outcome; it fails as a whole — with
    /// `ConnectionError` — exactly when every node is unreachable.
    pub fn get_txn_full(&self, ledger_type: LedgerType, seq_no: u64) -> (r: LedgerResult<
        (Vec<(usize, LedgerResult<String>)>, Vec<(usize, u64)>),
    >)
        requires
            seq_no >= 1,
        ensures
            r is Err <==> all_unreachable(self.outcomes_spec()),
            r matches Err(e) ==> e is ConnectionError,
            r matches Ok(pt) ==> ({
                let evs = self.outcomes_spec();
                &&& pt.0@.len() == evs.len()
                &&& forall|i: int|
                    0 <= i < evs.len() ==> (#[trigger] pt.0@[i]).0 == i && entry_matches(
                        evs[i],
                        pt.0@[i].1,
                    )
                &&& pt.1@ == timing_entries(evs, evs.len() as int)
            }),
    {
        let (mut pool, handle) = self.inner.acquire_write();
        let r = pool.get_txn_full(ledger_type, seq_no);
        handle.release_write(pool);
        r
    }
}

} // verus!
