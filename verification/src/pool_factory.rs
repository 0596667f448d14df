//! The pool factory: holds the configuration and the validated genesis
//! transaction list, and builds pool instances in either ownership variant.

use vstd::prelude::*;
use crate::config::{protocol_version_number, PoolConfig, ProtocolVersion};
use crate::errors::{LedgerError, LedgerResult};
use crate::genesis::{kept_records, records_well_formed, transactions_from_genesis};
use crate::networker::InMemoryNetworker;
use crate::pool::AbstractPool;
use crate::registry::ValidatorRegistry;
use crate::shared::{LocalPool, SharedPool};

verus! {

/// Builds pools over one validated genesis transaction list. The
/// configuration can be adjusted before pools are created; every pool
/// created from this factory shares the same validator set.
pub struct PoolFactory {
    pub config: PoolConfig,
    pub transactions: Vec<String>,
}

impl PoolFactory {
    /// The transaction list as the factory's model.
    pub open spec fn txns(&self) -> Seq<Seq<char>> {
        self.transactions@.map_values(|t: String| t@)
    }

    /// Builds a factory from the raw lines of a genesis document: blank
    /// lines are dropped, every record must be a JSON object, and at least
    /// one record must remain — otherwise construction fails with
    /// `InvalidStructure`. The configuration starts from the default.
    pub fn from_genesis_lines(lines: &Vec<String>) -> (r: LedgerResult<PoolFactory>)
        ensures
            ({
                let lvs = lines@.map_values(|l: String| l@);
                let records = kept_records(lvs, lvs.len() as int);
                &&& (r is Ok <==> records_well_formed(lvs, lvs.len() as int) && records.len() > 0)
                &&& (r matches Ok(f) ==> f.txns() == records && f.config
                    == PoolConfig::default_spec())
                &&& (r matches Err(e) ==> e is InvalidStructure)
            }),
    {
        let txns = match transactions_from_genesis(lines) {
            Ok(txns) => txns,
            Err(e) => {
                return Err(e);
            },
        };
        if txns.len() == 0 {
            return Err(LedgerError::InvalidStructure);
        }
        Ok(PoolFactory { config: PoolConfig::default(), transactions: txns })
    }

    /// Fixes the protocol generation announced by pools created later.
    pub fn set_protocol_version(&mut self, version: ProtocolVersion)
        ensures
            final(self).config.protocol_version == protocol_version_number(version),
            final(self).config.ack_timeout_ms == old(self).config.ack_timeout_ms,
            final(self).config.reply_timeout_ms == old(self).config.reply_timeout_ms,
            final(self).config.conn_limit == old(self).config.conn_limit,
            final(self).transactions == old(self).transactions,
    {
        self.config.protocol_version = version.as_number();
    }

    /// Creates an exclusively owned pool over this factory's validator set.
    /// Fails with `InvalidStructure` when the set holds fewer than four
    /// validators, the least count for which a fault bound exists. The
    /// pool's nodes deliver nothing until its transport is scripted.
    pub fn create_local(&self) -> (r: LedgerResult<LocalPool>)
        ensures
            self.txns().len() >= 4 <==> r is Ok,
            r matches Err(e) ==> e is InvalidStructure,
            r matches Ok(p) ==> ({
                &&& p.wf()
                &&& p.node_count_spec() == self.txns().len()
                &&& p.next_req_id() == 1
                &&& p.rr_node() == 0
                &&& p.config_spec() == self.config
                &&& p.outcomes_spec().len() == self.txns().len()
                &&& forall|i: int|
                    0 <= i < p.outcomes_spec().len() ==> (#[trigger] p.outcomes_spec()[i])
                        is Unreachable
            }),
    {
        let registry = match ValidatorRegistry::new(self.transactions.clone()) {
            Ok(reg) => reg,
            Err(e) => {
                return Err(e);
            },
        };
        let networker = InMemoryNetworker::create(self.config, registry.node_count());
        Ok(AbstractPool::new(self.config, registry, networker))
    }

    /// Creates a shared, clonable pool handle over this factory's validator
    /// set; fails like `create_local` when the set is too small. The
    /// handle's model is this factory's validator count and configuration,
    /// with every node unreachable until its transport is scripted.
    pub fn create_shared(&self) -> (r: LedgerResult<SharedPool>)
        ensures
            self.txns().len() >= 4 <==> r is Ok,
            r matches Err(e) ==> e is InvalidStructure,
            r matches Ok(h) ==> ({
                &&& h.wf()
                &&& h.node_count_spec() == self.txns().len()
                &&& h.config_spec() == self.config
                &&& h.outcomes_spec().len() == self.txns().len()
                &&& forall|i: int|
                    0 <= i < h.outcomes_spec().len() ==> (#[trigger] h.outcomes_spec()[i])
                        is Unreachable
            }),
    {
        let pool = match self.create_local() {
            Ok(pool) => pool,
            Err(e) => {
                return Err(e);
            },
        };
        Ok(SharedPool::new(pool))
    }
}

} // verus!
