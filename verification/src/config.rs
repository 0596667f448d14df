//! Static pool parameters, fixed at construction and shared read-only by
//! every query.

use vstd::prelude::*;

verus! {

/// The node protocol generations a pool can speak.
#[derive(Clone, Copy, PartialEq, Eq, Structural, Debug)]
pub enum ProtocolVersion {
    Node1_3,
    Node1_4,
}

/// The number a protocol generation is announced as on the wire.
pub open spec fn protocol_version_number(v: ProtocolVersion) -> int {
    match v {
        ProtocolVersion::Node1_3 => 1,
        ProtocolVersion::Node1_4 => 2,
    }
}

impl ProtocolVersion {
    /// The number this generation is announced as on the wire.
    pub fn as_number(&self) -> (r: u64)
        ensures
            r == protocol_version_number(*self),
    {
        match self {
            ProtocolVersion::Node1_3 => 1,
            ProtocolVersion::Node1_4 => 2,
        }
    }
}

/// Static parameters of a pool: protocol version, per-node timeout, overall
/// query deadline and the cap on concurrently contacted nodes. A plain value
/// with copy semantics, immutable after construction.
#[derive(Clone, Copy, PartialEq, Eq, Structural, Debug)]
pub struct PoolConfig {
    pub protocol_version: u64,
    pub ack_timeout_ms: u64,
    pub reply_timeout_ms: u64,
    pub conn_limit: usize,
}

impl PoolConfig {
    /// The stock configuration: protocol version 2, five seconds per node,
    /// a one minute query deadline and at most eight nodes in flight.
    pub open spec fn default_spec() -> PoolConfig {
        PoolConfig {
            protocol_version: 2,
            ack_timeout_ms: 5000,
            reply_timeout_ms: 60000,
            conn_limit: 8,
        }
    }
}

impl Default for PoolConfig {
    /// The stock configuration.
    fn default() -> (r: PoolConfig)
        ensures
            r == PoolConfig::default_spec(),
    {
        PoolConfig { protocol_version: 2, ack_timeout_ms: 5000, reply_timeout_ms: 60000, conn_limit: 8 }
    }
}

} // verus!
