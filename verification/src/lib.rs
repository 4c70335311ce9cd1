//! Durable state encoding and diff engine for a shared-log-backed storage
//! client. Shard state and state diffs are serialized to framed binary
//! records (varints and length-prefixed byte fields); decoding tolerates
//! older wire shapes by synthesizing defaults, gates on the writer's
//! version stamp, and checks codec identity before exposing a typed view.

use vstd::prelude::*;

pub mod antichain;
pub mod codec;
pub mod encoding;
pub mod error;
pub mod ids;
pub mod proto;
pub mod state;
pub mod state_diff;
pub mod trace;
pub mod version;
pub mod wire;

pub use ids::ShardId;
pub use ids::WriterId;

verus! {

/// The default read-lease duration in milliseconds, synthesized when a
/// leased-reader wire record predates the lease-duration field.
pub const DEFAULT_READ_LEASE_DURATION_MS: u64 = 900000;

/// One record of the consensus store: a sequence number and the bytes
/// stored at it.
#[derive(Clone, Debug, PartialEq, Eq)]
pub struct VersionedData {
    pub seqno: state::SeqNo,
    pub data: Vec<u8>,
}

/// The configuration the state machinery needs: which code version this
/// process runs.
#[derive(Clone, Debug)]
pub struct PersistConfig {
    pub build_version: version::Version,
}

impl PersistConfig {
    pub fn new(build_version: version::Version) -> (r: PersistConfig)
        ensures
            r.build_version == build_version,
    {
        PersistConfig { build_version }
    }
}

} // verus!
