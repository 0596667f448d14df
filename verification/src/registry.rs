//! Validator registry: the ordered validator set derived from the genesis
//! transaction list, together with the fault-tolerance bound `f` and the
//! quorum threshold `q`.

use vstd::prelude::*;
use crate::errors::LedgerError;

verus! {

/// Maximum number of byzantine validators tolerated among `n`:
/// `f = floor((n - 1) / 3)`.
pub open spec fn max_faulty(n: int) -> int {
    (n - 1) / 3
}

/// Quorum threshold: `q = f + 1` matching responses are required before a
/// value is trusted.
pub open spec fn quorum(n: int) -> int {
    max_faulty(n) + 1
}

/// The validator set, built once from the ordered genesis transaction list
/// and immutable afterwards. Each transaction identifies one validator.
pub struct ValidatorRegistry {
    transactions: Vec<String>,
}

impl ValidatorRegistry {
    /// The ordered list of validator transactions this registry was built from.
    pub closed spec fn view(&self) -> Seq<Seq<char>> {
        self.transactions@.map_values(|t: String| t@)
    }

    /// A registry is well formed when it has at least four validators, the
    /// least count for which a positive fault bound `f` exists.
    pub open spec fn wf(&self) -> bool {
        self@.len() >= 4
    }

    /// Builds the registry from the ordered transaction list. Fails with
    /// `InvalidStructure` when fewer than four validators are given, since no
    /// positive `f` exists below four and consensus would be undefined.
    pub fn new(transactions: Vec<String>) -> (r: Result<ValidatorRegistry, LedgerError>)
        ensures
            transactions@.len() >= 4 <==> r is Ok,
            r matches Ok(reg) ==> reg.wf() && reg@ == transactions@.map_values(|t: String| t@),
            r matches Err(e) ==> e == LedgerError::InvalidStructure,
    {
        if transactions.len() < 4 {
            Err(LedgerError::InvalidStructure)
        } else {
            Ok(ValidatorRegistry { transactions })
        }
    }

    /// Number of validators `n`.
    pub fn node_count(&self) -> (r: usize)
        ensures
            r == self@.len(),
    {
        self.transactions.len()
    }

    /// Fault tolerance `f = floor((n - 1) / 3)`, derived from `n` alone.
    pub fn max_faulty(&self) -> (r: usize)
        requires
            self.wf(),
        ensures
            r == max_faulty(self@.len() as int),
    {
        (self.transactions.len() - 1) / 3
    }

    /// Quorum threshold `q = f + 1`, derived from `n` alone.
    pub fn quorum(&self) -> (r: usize)
        requires
            self.wf(),
        ensures
            r == quorum(self@.len() as int),
            r >= 2,
            r <= self@.len(),
    {
        proof {
            lemma_quorum_bounds(self@.len() as int);
        }
        (self.transactions.len() - 1) / 3 + 1
    }

    /// The transaction record of one validator, by index.
    pub fn transaction(&self, i: usize) -> (r: &String)
        requires
            i < self@.len(),
        ensures
            r@ == self@[i as int],
    {
        &self.transactions[i]
    }
}

/// For every validator count `n >= 4` the derived thresholds are positive and
/// a quorum is always attainable: `1 <= f`, `2 <= q <= n`, and `q <= n - f`,
/// so up to `f` unreachable or byzantine validators still leave enough honest
/// ones to form a quorum.
pub proof fn lemma_quorum_bounds(n: int)
    requires
        n >= 4,
    ensures
        1 <= max_faulty(n),
        2 <= quorum(n),
        quorum(n) <= n - max_faulty(n),
        quorum(n) <= n,
{
    assert(1 <= (n - 1) / 3 && 3 * ((n - 1) / 3) <= n - 1) by (nonlinear_arith)
        requires n >= 4;
}

} // verus!
