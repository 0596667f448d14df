//! The networker abstraction: how a query reaches validator nodes.
//!
//! A networker owns the connections to the validator set. The dispatcher
//! sends a request to chosen nodes, receives completions as they arrive, and
//! may cancel whatever is still outstanding once the answer is settled. The
//! in-memory implementation here simulates the exchange deterministically:
//! each node is scripted with the outcome it will deliver, and completions
//! arrive in send order. It is the test double the consensus algorithm is
//! exercised with; a transport-backed implementation lives outside the
//! verified core.

use vstd::prelude::*;
use crate::config::PoolConfig;
use crate::consensus::NodeOutcome;
use crate::requests::Request;

verus! {

/// Contacting validator nodes for one query at a time.
///
/// `outcomes()` is the model of what each node would deliver were it
/// contacted now; `in_flight()` are the nodes with an outstanding send in
/// delivery order, and `recv` yields the completion at its front. A
/// transport whose completions finish out of order is modelled by the order
/// it enqueues them in `in_flight()`: delivery order, not send order, is
/// what the model fixes, and the consensus algorithm's behaviour under an
/// arbitrary arrival order is stated separately by `aggregate_quorum`,
/// which takes the arrival order as an input. Sending never alters what
/// nodes deliver; cancelling drops every outstanding send without blocking,
/// and cancelling twice, or with nothing outstanding, is a no-op.
pub trait Networker: Sized {
    /// What each node delivers for a send: its reply, or that it is
    /// unreachable (a per-node timeout counts as unreachable).
    spec fn outcomes(&self) -> Seq<NodeOutcome>;

    /// Nodes with an outstanding send, oldest first.
    spec fn in_flight(&self) -> Seq<usize>;

    /// The size of the validator set this networker is connected to.
    fn node_count(&self) -> (r: usize)
        ensures
            r == self.outcomes().len(),
    ;

    /// Dispatches `req` to one node. The send is queued; its completion is
    /// observed through `recv`.
    fn send(&mut self, node: usize, req: &Request)
        requires
            node < old(self).outcomes().len(),
        ensures
            final(self).outcomes() == old(self).outcomes(),
            final(self).in_flight() == old(self).in_flight().push(node),
    ;

    /// Yields the completion of the oldest outstanding send, or nothing when
    /// no send is outstanding.
    fn recv(&mut self) -> (r: Option<(usize, NodeOutcome)>)
        ensures
            final(self).outcomes() == old(self).outcomes(),
            old(self).in_flight().len() == 0 ==> r is None && final(self).in_flight()
                == old(self).in_flight(),
            old(self).in_flight().len() > 0 ==> ({
                let node = old(self).in_flight()[0];
                &&& r is Some
                &&& final(self).in_flight() == old(self).in_flight().drop_first()
                &&& node < old(self).outcomes().len() ==> r == Some(
                    (node, old(self).outcomes()[node as int]),
                )
            }),
    ;

    /// Abandons every outstanding send of `req_id`. Never blocks, and
    /// cancelling twice (or with nothing outstanding) is a no-op.
    fn cancel(&mut self, req_id: u64)
        ensures
            final(self).outcomes() == old(self).outcomes(),
            final(self).in_flight().len() == 0,
    ;
}

/// The deterministic in-memory networker: every node's outcome is scripted,
/// and completions are delivered in send order. Nodes start unreachable until a
/// script gives them a reply, which mirrors a pool whose transport is not
/// connected.
pub struct InMemoryNetworker {
    config: PoolConfig,
    scripted: Vec<NodeOutcome>,
    pending: Vec<usize>,
}

impl InMemoryNetworker {
    /// Builds a networker for `node_count` nodes, all initially unreachable.
    pub fn create(config: PoolConfig, node_count: usize) -> (r: InMemoryNetworker)
        ensures
            r.outcomes().len() == node_count,
            forall|i: int| 0 <= i < node_count ==> r.outcomes()[i] is Unreachable,
            r.in_flight().len() == 0,
    {
        let mut scripted: Vec<NodeOutcome> = Vec::new();
        let mut i: usize = 0;
        while i < node_count
            invariant
                0 <= i <= node_count,
                scripted@.len() == i,
                forall|j: int| 0 <= j < i ==> scripted@[j] is Unreachable,
            decreases node_count - i,
        {
            scripted.push(NodeOutcome::Unreachable { elapsed_ms: 0 });
            i += 1;
        }
        InMemoryNetworker { config, scripted, pending: Vec::new() }
    }

    /// Scripts what one node will deliver from now on.
    pub fn set_outcome(&mut self, node: usize, outcome: NodeOutcome)
        requires
            node < old(self).outcomes().len(),
        ensures
            final(self).outcomes() == old(self).outcomes().update(node as int, outcome),
            final(self).in_flight() == old(self).in_flight(),
    {
        self.scripted[node] = outcome;
    }
}

impl Networker for InMemoryNetworker {
    closed spec fn outcomes(&self) -> Seq<NodeOutcome> {
        self.scripted@
    }

    closed spec fn in_flight(&self) -> Seq<usize> {
        self.pending@
    }

    fn node_count(&self) -> (r: usize) {
        self.scripted.len()
    }

    fn send(&mut self, node: usize, req: &Request) {
        self.pending.push(node);
    }

    fn recv(&mut self) -> (r: Option<(usize, NodeOutcome)>) {
        if self.pending.len() == 0 {
            None
        } else {
            let node = self.pending.remove(0);
            let outcome = if node < self.scripted.len() {
                self.outcome_of(node)
            } else {
                NodeOutcome::Unreachable { elapsed_ms: 0 }
            };
            proof {
                assert(self.pending@ =~= old(self).pending@.drop_first());
            }
            Some((node, outcome))
        }
    }

    fn cancel(&mut self, req_id: u64) {
        self.pending.clear();
    }
}

impl InMemoryNetworker {
    /// A copy of the scripted outcome of one node.
    fn outcome_of(&self, node: usize) -> (r: NodeOutcome)
        requires
            node < self.outcomes().len(),
        ensures
            r == self.outcomes()[node as int],
    {
        match &self.scripted[node] {
            NodeOutcome::Reply { raw, normalized, elapsed_ms } => NodeOutcome::Reply {
                raw: raw.clone(),
                normalized: normalized.clone(),
                elapsed_ms: *elapsed_ms,
            },
            NodeOutcome::Unreachable { elapsed_ms } => NodeOutcome::Unreachable {
                elapsed_ms: *elapsed_ms,
            },
        }
    }
}

} // verus!
