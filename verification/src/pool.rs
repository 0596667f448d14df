//! The request dispatcher: one pool instance owning a validator registry, a
//! networker and the request id space, and the three query strategies over
//! them — trust-first-reply, Byzantine quorum, and full collection.

use vstd::prelude::*;
use crate::config::PoolConfig;
use crate::consensus::{
    count_norm, elapsed_of, first_quorum, first_quorum_upto, first_raw_upto, norm_of,
    quorum_reached_at, raw_of, tally_matches, lemma_count_norm_bounds, lemma_count_norm_monotone,
    lemma_first_quorum_stable, lemma_first_raw_stable, lemma_quorum_found_if_any, NodeOutcome,
    Tally,
};
use crate::errors::{LedgerError, LedgerResult};
use crate::networker::Networker;
use crate::registry::{quorum, ValidatorRegistry};
use crate::requests::{LedgerType, Request, RequestIdCounter};

verus! {

/// Whether every node of the set is unreachable.
pub open spec fn all_unreachable(evs: Seq<NodeOutcome>) -> bool {
    forall|i: int| 0 <= i < evs.len() ==> (#[trigger] evs[i]) is Unreachable
}

/// How one node's outcome appears in a full-set result: the raw payload of
/// its reply, or a connection error when it was unreachable.
pub open spec fn entry_matches(o: NodeOutcome, r: LedgerResult<String>) -> bool {
    match o {
        NodeOutcome::Reply { raw, normalized: _, elapsed_ms: _ } => r matches Ok(s) && s@ == raw@,
        NodeOutcome::Unreachable { elapsed_ms: _ } => r matches Err(e) && e is ConnectionError,
    }
}

/// The per-node timing record of a query that observed the completions of
/// the first `k` contacted nodes: exactly one entry per contacted node, in
/// node order, carrying the elapsed time the transport measured for its
/// exchange.
pub open spec fn timing_entries(evs: Seq<NodeOutcome>, k: int) -> Seq<(usize, u64)> {
    Seq::new(k as nat, |i: int| (i as usize, elapsed_of(evs[i])))
}

/// One configured pool over a validator set: the registry and configuration
/// are immutable for its lifetime, the networker carries its connections,
/// and the id counter owns the request id space.
pub struct AbstractPool<N: Networker> {
    config: PoolConfig,
    registry: ValidatorRegistry,
    networker: N,
    ids: RequestIdCounter,
    next_node: usize,
}

impl<N: Networker> AbstractPool<N> {
    /// The number of validators.
    pub closed spec fn node_count_spec(&self) -> int {
        self.registry@.len() as int
    }

    /// What each node would deliver for a query sent now.
    pub closed spec fn outcomes_spec(&self) -> Seq<NodeOutcome> {
        self.networker.outcomes()
    }

    /// The id the next query will be dispatched under.
    pub closed spec fn next_req_id(&self) -> int {
        self.ids@
    }

    /// The node the single-reply strategy will contact next (round robin).
    pub closed spec fn rr_node(&self) -> int {
        self.next_node as int
    }

    /// The configuration the pool was built with.
    pub closed spec fn config_spec(&self) -> PoolConfig {
        self.config
    }

    /// A pool is well formed when its registry holds a viable validator set,
    /// its networker is connected to exactly those validators with no send
    /// outstanding, and the round-robin pointer addresses a node.
    pub closed spec fn wf(&self) -> bool {
        &&& self.registry.wf()
        &&& self.networker.outcomes().len() == self.registry@.len()
        &&& self.networker.in_flight().len() == 0
        &&& self.next_node < self.registry@.len()
    }

    /// Assembles a pool from its parts. The networker must be connected to
    /// exactly the registry's validators and idle.
    pub fn new(config: PoolConfig, registry: ValidatorRegistry, networker: N) -> (r: AbstractPool<
        N,
    >)
        requires
            registry.wf(),
            networker.outcomes().len() == registry@.len(),
            networker.in_flight().len() == 0,
        ensures
            r.wf(),
            r.outcomes_spec() == networker.outcomes(),
            r.node_count_spec() == registry@.len(),
            r.next_req_id() == 1,
            r.rr_node() == 0,
            r.config_spec() == config,
    {
        AbstractPool {
            config,
            registry,
            networker,
            ids: RequestIdCounter::new(),
            next_node: 0,
        }
    }

    /// The number of validators.
    pub fn node_count(&self) -> (r: usize)
        ensures
            r == self.node_count_spec(),
    {
        self.registry.node_count()
    }

    /// Fault tolerance `f` of this pool's validator set.
    pub fn max_faulty(&self) -> (r: usize)
        requires
            self.wf(),
        ensures
            r == crate::registry::max_faulty(self.node_count_spec()),
    {
        self.registry.max_faulty()
    }

    /// Quorum threshold `q` of this pool's validator set.
    pub fn quorum(&self) -> (r: usize)
        requires
            self.wf(),
        ensures
            r == quorum(self.node_count_spec()),
    {
        self.registry.quorum()
    }

    /// The id the next query will be dispatched under.
    pub fn next_request_id(&self) -> (r: u64)
        ensures
            r as int == self.next_req_id(),
    {
        self.ids.current()
    }

    /// What well-formedness guarantees, for callers outside this module: at
    /// least four validators, a networker connected to exactly those
    /// validators, and a round-robin pointer addressing one of them.
    pub proof fn lemma_wf_bounds(&self)
        requires
            self.wf(),
        ensures
            self.node_count_spec() >= 4,
            self.outcomes_spec().len() == self.node_count_spec(),
            0 <= self.rr_node() < self.node_count_spec(),
    {
    }

    /// Single strategy: contacts exactly one node, chosen round robin, and
    /// returns its raw reply unverified — the fastest query with the weakest
    /// guarantee. Fails with `ConnectionError` when that node is
    /// unreachable; no other node is tried. A successful result carries the
    /// raw reply and the timing record of the one contacted node.
    pub fn get_txn(&mut self, ledger_type: LedgerType, seq_no: u64) -> (r: LedgerResult<
        (String, Vec<(usize, u64)>),
    >)
        requires
            old(self).wf(),
            seq_no >= 1,
        ensures
            final(self).wf(),
            final(self).outcomes_spec() == old(self).outcomes_spec(),
            final(self).node_count_spec() == old(self).node_count_spec(),
            final(self).config_spec() == old(self).config_spec(),
            final(self).next_req_id() == if old(self).next_req_id() < u64::MAX {
                old(self).next_req_id() + 1
            } else {
                old(self).next_req_id()
            },
            final(self).rr_node() == if old(self).rr_node() + 1 == old(self).node_count_spec() {
                0int
            } else {
                old(self).rr_node() + 1
            },
            match raw_of(old(self).outcomes_spec()[old(self).rr_node()]) {
                Some(p) => r matches Ok(pt) && pt.0@ == p && pt.1@ == seq![
                    (
                        old(self).rr_node() as usize,
                        elapsed_of(old(self).outcomes_spec()[old(self).rr_node()]),
                    ),
                ],
                None => r matches Err(e) && e is ConnectionError,
            },
    {
        let req_id = self.ids.next_id();
        let n = self.registry.node_count();
        let node = self.next_node;
        self.next_node = if node + 1 == n {
            0
        } else {
            node + 1
        };
        let req = Request { req_id, ledger_type, seq_no };
        self.networker.send(node, &req);
        let ev = self.networker.recv();
        match ev {
            Some((_, NodeOutcome::Reply { raw, normalized, elapsed_ms })) => {
                let mut timing: Vec<(usize, u64)> = Vec::new();
                timing.push((node, elapsed_ms));
                proof {
                    assert(timing@ =~= seq![(node, elapsed_ms)]);
                }
                Ok((raw, timing))
            },
            Some((_, NodeOutcome::Unreachable { elapsed_ms })) => Err(
                LedgerError::ConnectionError,
            ),
            None => {
                proof {
                    assert(false);
                }
                Err(LedgerError::ConnectionError)
            }
        }
    }

    /// Quorum strategy: contacts an initial batch of `q` nodes (throttled by
    /// the configured in-flight limit) and expands to further not-yet-tried
    /// nodes while no normalized value has gathered `q` matching replies.
    /// Returns the representative raw response of the first value reaching
    /// the quorum, the moment it does, cancelling every other outstanding
    /// send; once all nodes are exhausted without a quorum it fails with
    /// `NoConsensus` carrying the per-value tally of every observed reply.
    /// A successful result carries one timing entry per contacted node.
    pub fn get_txn_consensus(&mut self, ledger_type: LedgerType, seq_no: u64) -> (r: LedgerResult<
        (String, Vec<(usize, u64)>),
    >)
        requires
            old(self).wf(),
            seq_no >= 1,
        ensures
            final(self).wf(),
            final(self).outcomes_spec() == old(self).outcomes_spec(),
            final(self).node_count_spec() == old(self).node_count_spec(),
            final(self).config_spec() == old(self).config_spec(),
            final(self).rr_node() == old(self).rr_node(),
            final(self).next_req_id() == if old(self).next_req_id() < u64::MAX {
                old(self).next_req_id() + 1
            } else {
                old(self).next_req_id()
            },
            ({
                let evs = old(self).outcomes_spec();
                let q = quorum(evs.len() as int);
                &&& (first_quorum(evs, q) matches Some(k) ==> (r matches Ok(pt) && norm_of(
                    evs[k - 1],
                ) matches Some(v) && first_raw_upto(evs, k, v) == Some(pt.0@) && pt.1@
                    == timing_entries(evs, k)))
                &&& (first_quorum(evs, q) is None ==> (r matches Err(e) && e matches
                    LedgerError::NoConsensus(t) && tally_matches(t@, evs, evs.len() as int)))
                &&& (r matches Ok(pt) ==> exists|v: Seq<char>|
                    #[trigger] count_norm(evs, evs.len() as int, v) >= q && first_raw_upto(
                        evs,
                        evs.len() as int,
                        v,
                    ) == Some(pt.0@))
                &&& ((exists|v: Seq<char>| #[trigger] count_norm(evs, evs.len() as int, v) >= q)
                    ==> r is Ok)
            }),
    {
        let req_id = self.ids.next_id();
        let n = self.registry.node_count();
        let q = self.registry.quorum();
        let limit = if self.config.conn_limit >= 1 {
            self.config.conn_limit
        } else {
            1
        };
        let cap = if q < limit {
            q
        } else {
            limit
        };
        let req = Request { req_id, ledger_type, seq_no };
        let ghost evs = self.networker.outcomes();

        let mut tally = Tally::new();
        let mut timing: Vec<(usize, u64)> = Vec::new();
        let mut sent: usize = 0;
        let mut resolved: usize = 0;
        while resolved < n
            invariant
                timing@ =~= timing_entries(evs, resolved as int),
                self.registry == old(self).registry,
                self.config == old(self).config,
                self.ids@ == if old(self).next_req_id() < u64::MAX {
                    old(self).next_req_id() + 1
                } else {
                    old(self).next_req_id()
                },
                self.next_node == old(self).next_node,
                self.networker.outcomes() == evs,
                evs == old(self).outcomes_spec(),
                evs.len() == n,
                n == self.registry@.len(),
                old(self).wf(),
                q == quorum(n as int),
                2 <= q <= n,
                1 <= cap <= q,
                0 <= resolved <= sent <= n,
                sent - resolved <= cap,
                self.networker.in_flight() =~= Seq::new(
                    (sent - resolved) as nat,
                    |j: int| (resolved + j) as usize,
                ),
                tally.wf(),
                forall|v: Seq<char>| #[trigger] tally.count_of(v) == count_norm(
                    evs,
                    resolved as int,
                    v,
                ),
                forall|v: Seq<char>| #[trigger] tally.rep_of(v) == first_raw_upto(
                    evs,
                    resolved as int,
                    v,
                ),
                first_quorum_upto(evs, q as int, resolved as int) is None,
            decreases n - resolved,
        {
            while sent < n && sent - resolved < cap
                invariant
                    self.registry == old(self).registry,
                    self.config == old(self).config,
                    self.ids@ == if old(self).next_req_id() < u64::MAX {
                        old(self).next_req_id() + 1
                    } else {
                        old(self).next_req_id()
                    },
                    self.next_node == old(self).next_node,
                    self.networker.outcomes() == evs,
                    evs == old(self).outcomes_spec(),
                    evs.len() == n,
                    n == self.registry@.len(),
                    old(self).wf(),
                    1 <= cap,
                    resolved < n,
                    0 <= resolved <= sent <= n,
                    sent - resolved <= cap,
                    self.networker.in_flight() =~= Seq::new(
                        (sent - resolved) as nat,
                        |j: int| (resolved + j) as usize,
                    ),
                decreases n - sent,
            {
                self.networker.send(sent, &req);
                proof {
                    assert(self.networker.in_flight() =~= Seq::new(
                        ((sent + 1) - resolved) as nat,
                        |j: int| (resolved + j) as usize,
                    ));
                }
                sent += 1;
            }
            proof {
                assert(sent > resolved);
            }
            let ghost pre_tally = tally;
            let ghost pre_flight = self.networker.in_flight();
            let ev = self.networker.recv();
            proof {
                assert(pre_flight[0] == resolved);
                assert(self.networker.in_flight() =~= Seq::new(
                    (sent - (resolved + 1)) as nat,
                    |j: int| ((resolved + 1) + j) as usize,
                ));
            }
            match ev {
                Some((node, NodeOutcome::Reply { raw, normalized, elapsed_ms })) => {
                    timing.push((node, elapsed_ms));
                    proof {
                        assert(norm_of(evs[resolved as int]) == Some(normalized@));
                        assert(timing@ =~= timing_entries(evs, resolved + 1));
                        lemma_count_norm_bounds(evs, resolved as int, normalized@);
                    }
                    let c = tally.record(&normalized, &raw);
                    proof {
                        assert forall|v: Seq<char>| #[trigger] tally.count_of(v) == count_norm(
                            evs,
                            resolved + 1,
                            v,
                        ) by {
                            assert(pre_tally.count_of(v) == count_norm(evs, resolved as int, v));
                            if v != normalized@ {
                                assert(tally.count_of(v) == pre_tally.count_of(v));
                            }
                        }
                        assert forall|v: Seq<char>| #[trigger] tally.rep_of(v) == first_raw_upto(
                            evs,
                            resolved + 1,
                            v,
                        ) by {
                            assert(pre_tally.rep_of(v) == first_raw_upto(evs, resolved as int, v));
                            if v != normalized@ {
                                assert(tally.rep_of(v) == pre_tally.rep_of(v));
                            } else {
                                pre_tally.lemma_bucket_presence(v);
                                if pre_tally.has(v) {
                                    assert(first_raw_upto(evs, resolved as int, v) is Some);
                                } else {
                                    assert(first_raw_upto(evs, resolved as int, v) is None);
                                    assert(first_raw_upto(evs, resolved + 1, v) == raw_of(
                                        evs[resolved as int],
                                    ));
                                }
                            }
                        }
                    }
                    if c >= q {
                        proof {
                            assert(count_norm(evs, resolved + 1, normalized@) >= q);
                            assert(quorum_reached_at(evs, q as int, resolved + 1));
                            assert(first_quorum_upto(evs, q as int, resolved + 1) == Some(
                                resolved + 1,
                            ));
                            lemma_first_quorum_stable(
                                evs,
                                q as int,
                                resolved + 1,
                                evs.len() as int,
                            );
                            lemma_count_norm_monotone(
                                evs,
                                resolved + 1,
                                evs.len() as int,
                                normalized@,
                            );
                            lemma_first_raw_stable(evs, resolved + 1, evs.len() as int, normalized@);
                        }
                        let rep = tally.representative(&normalized);
                        self.networker.cancel(req_id);
                        return Ok((rep, timing));
                    }
                    proof {
                        assert(count_norm(evs, resolved + 1, normalized@) < q);
                        assert(first_quorum_upto(evs, q as int, resolved + 1) is None);
                    }
                }
                Some((node, NodeOutcome::Unreachable { elapsed_ms })) => {
                    timing.push((node, elapsed_ms));
                    proof {
                        assert(norm_of(evs[resolved as int]) is None);
                        assert(timing@ =~= timing_entries(evs, resolved + 1));
                        assert forall|v: Seq<char>| #[trigger] tally.count_of(v) == count_norm(
                            evs,
                            resolved + 1,
                            v,
                        ) by {
                            assert(tally.count_of(v) == count_norm(evs, resolved as int, v));
                        }
                        assert forall|v: Seq<char>| #[trigger] tally.rep_of(v) == first_raw_upto(
                            evs,
                            resolved + 1,
                            v,
                        ) by {
                            assert(tally.rep_of(v) == first_raw_upto(evs, resolved as int, v));
                        }
                        assert(!quorum_reached_at(evs, q as int, resolved + 1));
                        assert(first_quorum_upto(evs, q as int, resolved + 1) is None);
                    }
                }
                None => {
                    proof {
                        assert(false);
                    }
                }
            }
            resolved += 1;
        }
        proof {
            assert(resolved == n);
            if exists|v: Seq<char>| #[trigger] count_norm(evs, evs.len() as int, v) >= q as int {
                let v = choose|v: Seq<char>|
                    #[trigger] count_norm(evs, evs.len() as int, v) >= q as int;
                lemma_quorum_found_if_any(evs, q as int, evs.len() as int, v);
            }
        }
        Err(LedgerError::NoConsensus(tally.into_counts()))
    }

    /// Full-set strategy: contacts every node, never more than the
    /// configured in-flight limit at once, waits for each completion and
    /// returns exactly one entry per node — its reply, or its own error —
    /// never more and never fewer. It fails as a whole only when not a
    /// single node could be contacted. A successful result carries one
    /// timing entry per node beside the per-node outcomes.
    pub fn get_txn_full(&mut self, ledger_type: LedgerType, seq_no: u64) -> (r: LedgerResult<
        (Vec<(usize, LedgerResult<String>)>, Vec<(usize, u64)>),
    >)
        requires
            old(self).wf(),
            seq_no >= 1,
        ensures
            final(self).wf(),
            final(self).outcomes_spec() == old(self).outcomes_spec(),
            final(self).node_count_spec() == old(self).node_count_spec(),
            final(self).config_spec() == old(self).config_spec(),
            final(self).rr_node() == old(self).rr_node(),
            final(self).next_req_id() == if old(self).next_req_id() < u64::MAX {
                old(self).next_req_id() + 1
            } else {
                old(self).next_req_id()
            },
            r is Err <==> all_unreachable(old(self).outcomes_spec()),
            r matches Err(e) ==> e is ConnectionError,
            r matches Ok(pt) ==> ({
                let evs = old(self).outcomes_spec();
                &&& pt.0@.len() == evs.len()
                &&& forall|i: int|
                    0 <= i < evs.len() ==> (#[trigger] pt.0@[i]).0 == i && entry_matches(
                        evs[i],
                        pt.0@[i].1,
                    )
                &&& pt.1@ == timing_entries(evs, evs.len() as int)
            }),
    {
        let req_id = self.ids.next_id();
        let n = self.registry.node_count();
        let limit = if self.config.conn_limit >= 1 {
            self.config.conn_limit
        } else {
            1
        };
        let req = Request { req_id, ledger_type, seq_no };
        let ghost evs = self.networker.outcomes();

        let mut entries: Vec<(usize, LedgerResult<String>)> = Vec::new();
        let mut timing: Vec<(usize, u64)> = Vec::new();
        let mut any_reply = false;
        let mut sent: usize = 0;
        let mut resolved: usize = 0;
        while resolved < n
            invariant
                timing@ =~= timing_entries(evs, resolved as int),
                self.registry == old(self).registry,
                self.config == old(self).config,
                self.ids@ == if old(self).next_req_id() < u64::MAX {
                    old(self).next_req_id() + 1
                } else {
                    old(self).next_req_id()
                },
                self.next_node == old(self).next_node,
                self.networker.outcomes() == evs,
                evs == old(self).outcomes_spec(),
                evs.len() == n,
                n == self.registry@.len(),
                old(self).wf(),
                1 <= limit,
                0 <= resolved <= sent <= n,
                sent - resolved <= limit,
                self.networker.in_flight() =~= Seq::new(
                    (sent - resolved) as nat,
                    |j: int| (resolved + j) as usize,
                ),
                entries@.len() == resolved,
                forall|i: int|
                    0 <= i < resolved ==> (#[trigger] entries@[i]).0 == i && entry_matches(
                        evs[i],
                        entries@[i].1,
                    ),
                any_reply <==> !(forall|i: int|
                    0 <= i < resolved ==> (#[trigger] evs[i]) is Unreachable),
            decreases n - resolved,
        {
            while sent < n && sent - resolved < limit
                invariant
                    self.registry == old(self).registry,
                    self.config == old(self).config,
                    self.ids@ == if old(self).next_req_id() < u64::MAX {
                        old(self).next_req_id() + 1
                    } else {
                        old(self).next_req_id()
                    },
                    self.next_node == old(self).next_node,
                    self.networker.outcomes() == evs,
                    evs == old(self).outcomes_spec(),
                    evs.len() == n,
                    n == self.registry@.len(),
                    old(self).wf(),
                    1 <= limit,
                    resolved < n,
                    0 <= resolved <= sent <= n,
                    sent - resolved <= limit,
                    self.networker.in_flight() =~= Seq::new(
                        (sent - resolved) as nat,
                        |j: int| (resolved + j) as usize,
                    ),
                decreases n - sent,
            {
                self.networker.send(sent, &req);
                proof {
                    assert(self.networker.in_flight() =~= Seq::new(
                        ((sent + 1) - resolved) as nat,
                        |j: int| (resolved + j) as usize,
                    ));
                }
                sent += 1;
            }
            proof {
                assert(sent > resolved);
            }
            let ghost pre_flight = self.networker.in_flight();
            let ev = self.networker.recv();
            proof {
                assert(pre_flight[0] == resolved);
                assert(self.networker.in_flight() =~= Seq::new(
                    (sent - (resolved + 1)) as nat,
                    |j: int| ((resolved + 1) + j) as usize,
                ));
            }
            match ev {
                Some((node, NodeOutcome::Reply { raw, normalized, elapsed_ms })) => {
                    entries.push((node, Ok(raw)));
                    timing.push((node, elapsed_ms));
                    any_reply = true;
                    proof {
                        assert(!((evs[resolved as int]) is Unreachable));
                        assert(timing@ =~= timing_entries(evs, resolved + 1));
                    }
                }
                Some((node, NodeOutcome::Unreachable { elapsed_ms })) => {
                    entries.push((node, Err(LedgerError::ConnectionError)));
                    timing.push((node, elapsed_ms));
                    proof {
                        assert((evs[resolved as int]) is Unreachable);
                        assert(timing@ =~= timing_entries(evs, resolved + 1));
                    }
                }
                None => {
                    proof {
                        assert(false);
                    }
                }
            }
            resolved += 1;
        }
        if any_reply {
            Ok((entries, timing))
        } else {
            Err(LedgerError::ConnectionError)
        }
    }
}

} // verus!
