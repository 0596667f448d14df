//! Byzantine-quorum consensus aggregation.
//!
//! A query fans out to validator nodes and their outcomes stream back in some
//! arrival order. Each successful reply carries the raw payload together with
//! its normalized form (node-specific material already stripped by the
//! transport collaborator); agreement is decided over the normalized forms.
//! The aggregator keeps a tally from normalized value to its count and a
//! representative raw response, and stops at the first value reported by `q`
//! distinct nodes.

use vstd::prelude::*;
use crate::errors::{LedgerError, LedgerResult};

verus! {

/// What one contacted node contributed to a query: a reply, or nothing
/// because the node was unreachable (or timed out, which is treated the same
/// way for that node). `elapsed_ms` is how long the exchange with that node
/// took, as the transport measured it — in the simulated transport it is
/// scripted, and nothing is promised of its value.
pub enum NodeOutcome {
    Reply { raw: String, normalized: String, elapsed_ms: u64 },
    Unreachable { elapsed_ms: u64 },
}

/// The normalized payload of an outcome, if any.
pub open spec fn norm_of(o: NodeOutcome) -> Option<Seq<char>> {
    match o {
        NodeOutcome::Reply { raw: _, normalized, elapsed_ms: _ } => Some(normalized@),
        NodeOutcome::Unreachable { elapsed_ms: _ } => None,
    }
}

/// The raw payload of an outcome, if any.
pub open spec fn raw_of(o: NodeOutcome) -> Option<Seq<char>> {
    match o {
        NodeOutcome::Reply { raw, normalized: _, elapsed_ms: _ } => Some(raw@),
        NodeOutcome::Unreachable { elapsed_ms: _ } => None,
    }
}

/// How long the exchange with the node took, reply or failure alike.
pub open spec fn elapsed_of(o: NodeOutcome) -> u64 {
    match o {
        NodeOutcome::Reply { raw: _, normalized: _, elapsed_ms } => elapsed_ms,
        NodeOutcome::Unreachable { elapsed_ms } => elapsed_ms,
    }
}

/// How many of the first `k` outcomes reply with normalized value `v`.
pub open spec fn count_norm(evs: Seq<NodeOutcome>, k: int, v: Seq<char>) -> int
    decreases k,
{
    if k <= 0 {
        0
    } else {
        count_norm(evs, k - 1, v) + if norm_of(evs[k - 1]) == Some(v) { 1int } else { 0int }
    }
}

/// How many of the first `k` outcomes reply with a normalized value other
/// than `v`: the deviating replies, which byzantine or inconsistent nodes
/// produce.
pub open spec fn count_deviating(evs: Seq<NodeOutcome>, k: int, v: Seq<char>) -> int
    decreases k,
{
    if k <= 0 {
        0
    } else {
        count_deviating(evs, k - 1, v) + match norm_of(evs[k - 1]) {
            Some(w) => if w != v { 1int } else { 0int },
            None => 0int,
        }
    }
}

/// The outcome arriving at position `k - 1` completes a quorum of `q`
/// matching normalized values within the first `k` outcomes.
pub open spec fn quorum_reached_at(evs: Seq<NodeOutcome>, q: int, k: int) -> bool {
    &&& 1 <= k <= evs.len()
    &&& match norm_of(evs[k - 1]) {
        Some(v) => count_norm(evs, k, v) >= q,
        None => false,
    }
}

/// The least position (as a prefix length, at most `k`) at which some
/// normalized value first gathers `q` matching replies.
pub open spec fn first_quorum_upto(evs: Seq<NodeOutcome>, q: int, k: int) -> Option<int>
    decreases k,
{
    if k <= 0 {
        None
    } else {
        match first_quorum_upto(evs, q, k - 1) {
            Some(j) => Some(j),
            None => if quorum_reached_at(evs, q, k) { Some(k) } else { None },
        }
    }
}

/// The least prefix length at which some normalized value gathers a quorum
/// of `q` matching replies, over the whole arrival order.
pub open spec fn first_quorum(evs: Seq<NodeOutcome>, q: int) -> Option<int> {
    first_quorum_upto(evs, q, evs.len() as int)
}

/// The raw payload of the earliest reply among the first `k` whose
/// normalized form is `v`: the representative response of that value.
pub open spec fn first_raw_upto(evs: Seq<NodeOutcome>, k: int, v: Seq<char>) -> Option<Seq<char>>
    decreases k,
{
    if k <= 0 {
        None
    } else {
        match first_raw_upto(evs, k - 1, v) {
            Some(r) => Some(r),
            None => if norm_of(evs[k - 1]) == Some(v) { raw_of(evs[k - 1]) } else { None },
        }
    }
}

/// Counts over a prefix never exceed its length and never drop below zero.
pub proof fn lemma_count_norm_bounds(evs: Seq<NodeOutcome>, k: int, v: Seq<char>)
    ensures
        0 <= count_norm(evs, k, v),
        k >= 0 ==> count_norm(evs, k, v) <= k,
    decreases k,
{
    if k > 0 {
        lemma_count_norm_bounds(evs, k - 1, v);
    }
}

/// Extending the arrival prefix never loses matching replies.
pub proof fn lemma_count_norm_monotone(evs: Seq<NodeOutcome>, k1: int, k2: int, v: Seq<char>)
    requires
        k1 <= k2,
    ensures
        count_norm(evs, k1, v) <= count_norm(evs, k2, v),
    decreases k2 - k1,
{
    if k1 < k2 {
        lemma_count_norm_monotone(evs, k1, k2 - 1, v);
    }
}

/// Once a quorum has been found within a prefix, every longer prefix reports
/// the same first quorum position.
pub proof fn lemma_first_quorum_stable(evs: Seq<NodeOutcome>, q: int, k: int, k2: int)
    requires
        k <= k2,
        first_quorum_upto(evs, q, k) is Some,
    ensures
        first_quorum_upto(evs, q, k2) == first_quorum_upto(evs, q, k),
    decreases k2 - k,
{
    if k < k2 {
        lemma_first_quorum_stable(evs, q, k, k2 - 1);
    }
}

/// Once a value has a representative response within a prefix, every longer
/// prefix reports the same representative.
pub proof fn lemma_first_raw_stable(evs: Seq<NodeOutcome>, k: int, k2: int, v: Seq<char>)
    requires
        k <= k2,
        first_raw_upto(evs, k, v) is Some,
    ensures
        first_raw_upto(evs, k2, v) == first_raw_upto(evs, k, v),
    decreases k2 - k,
{
    if k < k2 {
        lemma_first_raw_stable(evs, k, k2 - 1, v);
    }
}

/// The winner of a query gathered a full quorum: if the first quorum is
/// reached at position `k`, the value replied there holds at least `q`
/// matching replies within every prefix from `k` on.
pub proof fn lemma_winner_has_quorum(evs: Seq<NodeOutcome>, q: int, k: int)
    requires
        first_quorum_upto(evs, q, evs.len() as int) == Some(k),
    ensures
        quorum_reached_at(evs, q, k),
        norm_of(evs[k - 1]) matches Some(v) && count_norm(evs, evs.len() as int, v) >= q,
    decreases evs.len(),
{
    lemma_first_quorum_some_reached(evs, q, evs.len() as int, k);
    let v = norm_of(evs[k - 1])->0;
    lemma_count_norm_monotone(evs, k, evs.len() as int, v);
}

/// A `Some` answer of `first_quorum_upto` always points at a position where
/// a quorum is completed, within the prefix searched.
pub proof fn lemma_first_quorum_some_reached(evs: Seq<NodeOutcome>, q: int, k: int, j: int)
    requires
        first_quorum_upto(evs, q, k) == Some(j),
    ensures
        quorum_reached_at(evs, q, j),
        j <= k,
    decreases k,
{
    if k > 0 {
        if first_quorum_upto(evs, q, k - 1) is Some {
            lemma_first_quorum_some_reached(evs, q, k - 1, j);
        }
    }
}

/// Completeness of the search: whenever some value holds at least `q >= 1`
/// matching replies within the first `k` outcomes, a first quorum position
/// exists within that prefix.
pub proof fn lemma_quorum_found_if_any(evs: Seq<NodeOutcome>, q: int, k: int, v: Seq<char>)
    requires
        q >= 1,
        0 <= k <= evs.len(),
        count_norm(evs, k, v) >= q,
    ensures
        first_quorum_upto(evs, q, k) is Some,
    decreases k,
{
    if k > 0 {
        if first_quorum_upto(evs, q, k - 1) is Some {
            lemma_first_quorum_stable(evs, q, k - 1, k);
        } else {
            if count_norm(evs, k - 1, v) >= q {
                lemma_quorum_found_if_any(evs, q, k - 1, v);
            } else {
                lemma_count_norm_bounds(evs, k - 1, v);
                assert(norm_of(evs[k - 1]) == Some(v));
                assert(quorum_reached_at(evs, q, k));
            }
        }
    }
}

/// Replies for a value other than `v` are deviating replies.
pub proof fn lemma_count_other_le_deviating(
    evs: Seq<NodeOutcome>,
    k: int,
    v: Seq<char>,
    w: Seq<char>,
)
    requires
        w != v,
    ensures
        count_norm(evs, k, w) <= count_deviating(evs, k, v),
    decreases k,
{
    if k > 0 {
        lemma_count_other_le_deviating(evs, k - 1, v, w);
    }
}

/// At most one value can gather a quorum while byzantine behaviour is
/// bounded: if at most `f` of the outcomes deviate from the honest value `v`,
/// then no other value reaches the quorum threshold `q = f + 1`, so the first
/// value to reach `q` is the unique possible answer and no tie-break is ever
/// needed.
pub proof fn lemma_at_most_one_quorum_value(
    evs: Seq<NodeOutcome>,
    f: int,
    k: int,
    v: Seq<char>,
    w: Seq<char>,
)
    requires
        count_deviating(evs, k, v) <= f,
        w != v,
    ensures
        count_norm(evs, k, w) < f + 1,
{
    lemma_count_other_le_deviating(evs, k, v, w);
}

/// The per-value counts observed for a query: each normalized value seen at
/// least once, with its number of matching replies. Keys are distinct.
pub struct Tally {
    entries: Vec<(String, usize, String)>,
}

impl Tally {
    /// The normalized values present, in insertion order.
    pub closed spec fn keys(self) -> Seq<Seq<char>> {
        self.entries@.map_values(|e: (String, usize, String)| e.0@)
    }

    /// Whether value `v` has been recorded.
    pub closed spec fn has(self, v: Seq<char>) -> bool {
        exists|i: int| 0 <= i < self.entries@.len() && self.entries@[i].0@ == v
    }

    /// The bucket index of a recorded value.
    pub closed spec fn idx_of(self, v: Seq<char>) -> int {
        choose|i: int| 0 <= i < self.entries@.len() && self.entries@[i].0@ == v
    }

    /// How many replies reported value `v`.
    pub closed spec fn count_of(self, v: Seq<char>) -> int {
        if self.has(v) {
            self.entries@[self.idx_of(v)].1 as int
        } else {
            0
        }
    }

    /// The representative raw response of value `v`: the raw payload of the
    /// first reply that opened its bucket.
    pub closed spec fn rep_of(self, v: Seq<char>) -> Option<Seq<char>> {
        if self.has(v) {
            Some(self.entries@[self.idx_of(v)].2@)
        } else {
            None
        }
    }

    /// Buckets are distinct and never empty.
    pub closed spec fn wf(self) -> bool {
        &&& forall|i: int, j: int|
            0 <= i < j < self.entries@.len() ==> self.entries@[i].0@ != self.entries@[j].0@
        &&& forall|i: int| 0 <= i < self.entries@.len() ==> self.entries@[i].1 >= 1
    }

    /// An empty tally: nothing recorded yet.
    pub fn new() -> (r: Tally)
        ensures
            r.wf(),
            forall|v: Seq<char>| !(#[trigger] r.has(v)),
            forall|v: Seq<char>| #[trigger] r.count_of(v) == 0,
            forall|v: Seq<char>| #[trigger] r.rep_of(v) is None,
    {
        Tally { entries: Vec::new() }
    }

    /// Two buckets with the same key are the same bucket.
    proof fn lemma_key_unique(self, j1: int, j2: int)
        requires
            self.wf(),
            0 <= j1 < self.entries@.len(),
            0 <= j2 < self.entries@.len(),
            self.entries@[j1].0@ == self.entries@[j2].0@,
        ensures
            j1 == j2,
    {
        if j1 < j2 {
            assert(self.entries@[j1].0@ != self.entries@[j2].0@);
        }
        if j2 < j1 {
            assert(self.entries@[j2].0@ != self.entries@[j1].0@);
        }
    }

    /// Records one reply: the bucket of its normalized value grows by one,
    /// opening with this raw payload as representative if it is new; every
    /// other bucket is untouched. Returns the new count of that value.
    pub fn record(&mut self, normalized: &String, raw: &String) -> (c: usize)
        requires
            old(self).wf(),
            old(self).count_of(normalized@) < usize::MAX,
        ensures
            final(self).wf(),
            c == final(self).count_of(normalized@),
            final(self).count_of(normalized@) == old(self).count_of(normalized@) + 1,
            forall|w: Seq<char>|
                w != normalized@ ==> #[trigger] final(self).count_of(w) == old(self).count_of(w),
            final(self).rep_of(normalized@) == if old(self).has(normalized@) {
                old(self).rep_of(normalized@)
            } else {
                Some(raw@)
            },
            forall|w: Seq<char>|
                w != normalized@ ==> #[trigger] final(self).rep_of(w) == old(self).rep_of(w),
            forall|w: Seq<char>|
                #[trigger] final(self).has(w) <==> (old(self).has(w) || w == normalized@),
    {
        let ghost pre = *self;
        let mut i: usize = 0;
        while i < self.entries.len()
            invariant
                *self == pre,
                pre == *old(self),
                pre.wf(),
                0 <= i <= self.entries@.len(),
                pre.count_of(normalized@) < usize::MAX,
                forall|j: int| 0 <= j < i ==> self.entries@[j].0@ != normalized@,
            decreases self.entries@.len() - i,
        {
            if self.entries[i].0 == *normalized {
                proof {
                    assert(pre.has(normalized@));
                    pre.lemma_key_unique(pre.idx_of(normalized@), i as int);
                    assert(pre.idx_of(normalized@) == i);
                    assert(pre.entries@[i as int].1 < usize::MAX);
                }
                let key = self.entries[i].0.clone();
                let cnt = self.entries[i].1 + 1;
                let rep = self.entries[i].2.clone();
                self.entries[i] = (key, cnt, rep);
                proof {
                    let post = *self;
                    assert(post.entries@.len() == pre.entries@.len());
                    assert(forall|j: int|
                        0 <= j < post.entries@.len() ==> (#[trigger] post.entries@[j]).0@
                            == pre.entries@[j].0@);
                    assert forall|a: int, b: int|
                        0 <= a < b < post.entries@.len() implies post.entries@[a].0@
                        != post.entries@[b].0@ by {
                        assert(pre.entries@[a].0@ != pre.entries@[b].0@);
                    }
                    assert forall|a: int| 0 <= a < post.entries@.len() implies post.entries@[a].1
                        >= 1 by {
                        assert(pre.entries@[a].1 >= 1);
                    }
                    assert(post.wf());
                    assert forall|w: Seq<char>| #[trigger] post.has(w) <==> pre.has(w) by {
                        if post.has(w) {
                            let j = post.idx_of(w);
                            assert(pre.entries@[j].0@ == w);
                        }
                        if pre.has(w) {
                            let j = pre.idx_of(w);
                            assert(post.entries@[j].0@ == w);
                        }
                    }
                    assert forall|w: Seq<char>| #[trigger] post.has(w) implies post.idx_of(w)
                        == pre.idx_of(w) by {
                        let j1 = post.idx_of(w);
                        assert(post.entries@[j1].0@ == w);
                        assert(pre.entries@[j1].0@ == w);
                        pre.lemma_key_unique(j1, pre.idx_of(w));
                    }
                    assert(post.idx_of(normalized@) == i);
                    assert(post.count_of(normalized@) == pre.count_of(normalized@) + 1);
                    assert(post.rep_of(normalized@) == pre.rep_of(normalized@));
                    assert forall|w: Seq<char>| w != normalized@ implies #[trigger] post.count_of(w)
                        == pre.count_of(w) && #[trigger] post.rep_of(w) == pre.rep_of(w) by {
                        if post.has(w) {
                            let j = post.idx_of(w);
                            assert(j != i as int);
                            assert(post.entries@[j] == pre.entries@[j]);
                        }
                    }
                }
                return cnt;
            }
            i += 1;
        }
        self.entries.push((normalized.clone(), 1, raw.clone()));
        proof {
            let post = *self;
            let n = pre.entries@.len() as int;
            assert(post.entries@.len() == n + 1);
            assert(forall|j: int| 0 <= j < n ==> post.entries@[j] == pre.entries@[j]);
            assert(post.entries@[n].0@ == normalized@);
            assert(post.entries@[n].1 == 1);
            assert(post.entries@[n].2@ == raw@);
            assert(!pre.has(normalized@));
            assert forall|a: int, b: int| 0 <= a < b < post.entries@.len() implies
                post.entries@[a].0@ != post.entries@[b].0@ by {
                if b < n {
                    assert(pre.entries@[a].0@ != pre.entries@[b].0@);
                } else {
                    assert(post.entries@[a].0@ != normalized@);
                }
            }
            assert forall|a: int| 0 <= a < post.entries@.len() implies post.entries@[a].1 >= 1 by {
                if a < n {
                    assert(pre.entries@[a].1 >= 1);
                }
            }
            assert(post.wf());
            assert forall|w: Seq<char>| #[trigger] post.has(w) <==> (pre.has(w) || w
                == normalized@) by {
                if post.has(w) {
                    let j = post.idx_of(w);
                    if j < n {
                        assert(pre.entries@[j].0@ == w);
                    }
                }
                if pre.has(w) {
                    let j = pre.idx_of(w);
                    assert(post.entries@[j].0@ == w);
                }
            }
            assert(post.has(normalized@));
            post.lemma_key_unique(post.idx_of(normalized@), n);
            assert(post.idx_of(normalized@) == n);
            assert(post.count_of(normalized@) == 1);
            assert(pre.count_of(normalized@) == 0);
            assert(post.rep_of(normalized@) == Some(raw@));
            assert forall|w: Seq<char>| w != normalized@ implies #[trigger] post.count_of(w)
                == pre.count_of(w) && #[trigger] post.rep_of(w) == pre.rep_of(w) by {
                if post.has(w) {
                    let j = post.idx_of(w);
                    assert(post.entries@[j].0@ == w);
                    assert(j != n);
                    assert(pre.entries@[j].0@ == w);
                    pre.lemma_key_unique(j, pre.idx_of(w));
                    assert(post.entries@[j] == pre.entries@[j]);
                }
            }
        }
        1
    }

    /// A value is recorded exactly when its bucket is non-empty, and then
    /// it has a representative response.
    pub proof fn lemma_bucket_presence(self, v: Seq<char>)
        requires
            self.wf(),
        ensures
            self.has(v) <==> self.count_of(v) >= 1,
            self.has(v) <==> self.rep_of(v) is Some,
    {
        if self.has(v) {
            let j = self.idx_of(v);
            assert(0 <= j < self.entries@.len() && self.entries@[j].0@ == v);
            assert(self.entries@[j].1 >= 1);
        }
    }

    /// The representative raw response of a recorded value, cloned out.
    pub fn representative(&self, normalized: &String) -> (r: String)
        requires
            self.wf(),
            self.has(normalized@),
        ensures
            Some(r@) == self.rep_of(normalized@),
    {
        let mut i: usize = 0;
        while i < self.entries.len()
            invariant
                self.wf(),
                self.has(normalized@),
                0 <= i <= self.entries@.len(),
                forall|j: int| 0 <= j < i ==> self.entries@[j].0@ != normalized@,
            decreases self.entries@.len() - i,
        {
            if self.entries[i].0 == *normalized {
                proof {
                    self.lemma_key_unique(self.idx_of(normalized@), i as int);
                }
                return self.entries[i].2.clone();
            }
            i += 1;
        }
        proof {
            let j = self.idx_of(normalized@);
            assert(0 <= j < self.entries@.len() && self.entries@[j].0@ == normalized@);
            assert(false);
        }
        String::new()
    }

    pub fn into_counts(self) -> (r: Vec<(String, usize)>)
        requires
            self.wf(),
        ensures
            pairs_distinct(r@),
            forall|i: int| 0 <= i < r@.len() ==> r@[i].1 >= 1,
            forall|v: Seq<char>| #[trigger] pairs_count(r@, v) == self.count_of(v),
    {
        let mut r: Vec<(String, usize)> = Vec::new();
        let mut i: usize = 0;
        while i < self.entries.len()
            invariant
                self.wf(),
                0 <= i <= self.entries@.len(),
                r@.len() == i,
                forall|j: int|
                    0 <= j < i ==> (#[trigger] r@[j]).0@ == self.entries@[j].0@ && r@[j].1
                        == self.entries@[j].1,
            decreases self.entries@.len() - i,
        {
            let key = self.entries[i].0.clone();
            let cnt = self.entries[i].1;
            r.push((key, cnt));
            i += 1;
        }
        proof {
            assert forall|v: Seq<char>| #[trigger] pairs_count(r@, v) == self.count_of(v) by {
                if pairs_has(r@, v) {
                    let j = pairs_idx(r@, v);
                    assert(0 <= j < r@.len() && r@[j].0@ == v);
                    assert(self.entries@[j].0@ == v);
                    assert(self.has(v));
                    let j2 = self.idx_of(v);
                    assert(self.entries@[j2].0@ == v);
                    if j != j2 {
                        if j < j2 {
                            assert(self.entries@[j].0@ != self.entries@[j2].0@);
                        } else {
                            assert(self.entries@[j2].0@ != self.entries@[j].0@);
                        }
                    }
                } else {
                    if self.has(v) {
                        let j = self.idx_of(v);
                        assert(self.entries@[j].0@ == v);
                        assert(r@[j].0@ == v);
                        assert(pairs_has(r@, v));
                    }
                }
            }
            assert forall|i1: int, j1: int| 0 <= i1 < j1 < r@.len() implies r@[i1].0@ != r@[j1].0@
            by {
                assert(self.entries@[i1].0@ != self.entries@[j1].0@);
            }
        }
        r
    }
}

/// The keys of a value/count list are distinct.
pub open spec fn pairs_distinct(t: Seq<(String, usize)>) -> bool {
    forall|i: int, j: int| 0 <= i < j < t.len() ==> t[i].0@ != t[j].0@
}

/// Whether a value/count list holds an entry for `v`.
pub open spec fn pairs_has(t: Seq<(String, usize)>, v: Seq<char>) -> bool {
    exists|i: int| 0 <= i < t.len() && t[i].0@ == v
}

/// The index of the entry for `v`.
pub open spec fn pairs_idx(t: Seq<(String, usize)>, v: Seq<char>) -> int {
    choose|i: int| 0 <= i < t.len() && t[i].0@ == v
}

/// The count a value/count list reports for `v`, zero when absent.
pub open spec fn pairs_count(t: Seq<(String, usize)>, v: Seq<char>) -> int {
    if pairs_has(t, v) {
        t[pairs_idx(t, v)].1 as int
    } else {
        0
    }
}

/// A diagnostic tally faithfully describes the first `k` outcomes: distinct
/// keys, no empty buckets, and for every value exactly the number of matching
/// replies observed.
pub open spec fn tally_matches(t: Seq<(String, usize)>, evs: Seq<NodeOutcome>, k: int) -> bool {
    &&& pairs_distinct(t)
    &&& forall|i: int| 0 <= i < t.len() ==> t[i].1 >= 1
    &&& forall|v: Seq<char>| #[trigger] pairs_count(t, v) == count_norm(evs, k, v)
}

/// Runs the quorum strategy over a stream of node outcomes in their arrival
/// order: returns the representative raw response of the first normalized
/// value reported by `q` distinct nodes, and otherwise — once the stream is
/// exhausted without any value reaching `q` — fails with `NoConsensus`
/// carrying the per-value tally of every observed reply.
pub fn aggregate_quorum(events: &Vec<NodeOutcome>, q: usize) -> (r: LedgerResult<String>)
    requires
        q >= 1,
    ensures
        first_quorum(events@, q as int) matches Some(k) ==> (r matches Ok(raw)
            && norm_of(events@[k - 1]) matches Some(v) && first_raw_upto(events@, k, v) == Some(
            raw@,
        )),
        first_quorum(events@, q as int) is None ==> (r matches Err(e) && e matches
            LedgerError::NoConsensus(t) && tally_matches(t@, events@, events@.len() as int)),
        r matches Ok(raw) ==> exists|v: Seq<char>|
            #[trigger] count_norm(events@, events@.len() as int, v) >= q && first_raw_upto(
                events@,
                events@.len() as int,
                v,
            ) == Some(raw@),
        (exists|v: Seq<char>| #[trigger] count_norm(events@, events@.len() as int, v) >= q) ==> r
            is Ok,
{
    let ghost evs = events@;
    let mut tally = Tally::new();
    let mut i: usize = 0;
    while i < events.len()
        invariant
            evs == events@,
            q >= 1,
            0 <= i <= evs.len(),
            tally.wf(),
            forall|v: Seq<char>| #[trigger] tally.count_of(v) == count_norm(evs, i as int, v),
            forall|v: Seq<char>| #[trigger] tally.rep_of(v) == first_raw_upto(evs, i as int, v),
            first_quorum_upto(evs, q as int, i as int) is None,
        decreases evs.len() - i,
    {
        let ghost pre_tally = tally;
        match &events[i] {
            NodeOutcome::Reply { raw, normalized, elapsed_ms: _ } => {
                proof {
                    lemma_count_norm_bounds(evs, i as int, normalized@);
                }
                let c = tally.record(normalized, raw);
                proof {
                    assert(norm_of(evs[i as int]) == Some(normalized@));
                    assert forall|v: Seq<char>| #[trigger] tally.count_of(v) == count_norm(
                        evs,
                        i + 1,
                        v,
                    ) by {
                        assert(pre_tally.count_of(v) == count_norm(evs, i as int, v));
                        if v != normalized@ {
                            assert(tally.count_of(v) == pre_tally.count_of(v));
                        }
                    }
                    assert forall|v: Seq<char>| #[trigger] tally.rep_of(v) == first_raw_upto(
                        evs,
                        i + 1,
                        v,
                    ) by {
                        assert(pre_tally.rep_of(v) == first_raw_upto(evs, i as int, v));
                        if v != normalized@ {
                            assert(tally.rep_of(v) == pre_tally.rep_of(v));
                        } else {
                            if pre_tally.has(v) {
                                assert(pre_tally.count_of(v) >= 1);
                                assert(first_raw_upto(evs, i as int, v) is Some);
                            } else {
                                assert(pre_tally.count_of(v) == 0);
                                assert(pre_tally.rep_of(v) is None);
                                assert(first_raw_upto(evs, i as int, v) is None);
                                assert(first_raw_upto(evs, i + 1, v) == raw_of(evs[i as int]));
                            }
                        }
                    }
                }
                if c >= q {
                    proof {
                        assert(count_norm(evs, i + 1, normalized@) >= q);
                        assert(quorum_reached_at(evs, q as int, i + 1));
                        assert(first_quorum_upto(evs, q as int, i + 1) == Some(i + 1));
                        lemma_first_quorum_stable(evs, q as int, i + 1, evs.len() as int);
                        lemma_count_norm_monotone(evs, i + 1, evs.len() as int, normalized@);
                        lemma_first_raw_stable(evs, i + 1, evs.len() as int, normalized@);
                    }
                    let rep = tally.representative(normalized);
                    return Ok(rep);
                }
                proof {
                    assert(count_norm(evs, i + 1, normalized@) < q);
                    assert(first_quorum_upto(evs, q as int, i + 1) is None);
                }
            }
            NodeOutcome::Unreachable { elapsed_ms: _ } => {
                proof {
                    assert(norm_of(evs[i as int]) is None);
                    assert forall|v: Seq<char>| #[trigger] tally.count_of(v) == count_norm(
                        evs,
                        i + 1,
                        v,
                    ) by {
                        assert(tally.count_of(v) == count_norm(evs, i as int, v));
                    }
                    assert forall|v: Seq<char>| #[trigger] tally.rep_of(v) == first_raw_upto(
                        evs,
                        i + 1,
                        v,
                    ) by {
                        assert(tally.rep_of(v) == first_raw_upto(evs, i as int, v));
                    }
                    assert(!quorum_reached_at(evs, q as int, i + 1));
                    assert(first_quorum_upto(evs, q as int, i + 1) is None);
                }
            }
        }
        i += 1;
    }
    proof {
        if exists|v: Seq<char>| #[trigger] count_norm(evs, evs.len() as int, v) >= q as int {
            let v = choose|v: Seq<char>| #[trigger] count_norm(evs, evs.len() as int, v) >= q as int;
            lemma_quorum_found_if_any(evs, q as int, evs.len() as int, v);
        }
    }
    Err(LedgerError::NoConsensus(tally.into_counts()))
}

} // verus!
