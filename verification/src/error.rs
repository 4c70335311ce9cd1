//! The error surface of decoding and codec checking.

use vstd::prelude::*;
use crate::version::{Version, VersionView};

verus! {

/// A structural failure while turning a wire record into typed state.
#[derive(Clone, Debug, PartialEq, Eq)]
pub enum TryFromProtoError {
    /// An identifier failed prefix or UUID validation; carries the offending
    /// string. One variant serves all identifier kinds; the caller knows
    /// which field it was decoding.
    InvalidShardId(String),
    /// An applier-version string did not parse; carries the offending string.
    InvalidSemverVersion(String),
    /// A structural invariant was violated (a required sub-record missing,
    /// a since-monotonicity failure, a diff-array length mismatch); carries
    /// the name of the offending field or check.
    InvalidPersistState(String),
}

/// The mathematical contents of a [`TryFromProtoError`].
pub enum TryFromProtoErrorView {
    InvalidShardId(Seq<char>),
    InvalidSemverVersion(Seq<char>),
    InvalidPersistState(Seq<char>),
}

impl View for TryFromProtoError {
    type V = TryFromProtoErrorView;

    open spec fn view(&self) -> TryFromProtoErrorView {
        match self {
            TryFromProtoError::InvalidShardId(s) => TryFromProtoErrorView::InvalidShardId(s@),
            TryFromProtoError::InvalidSemverVersion(s) => TryFromProtoErrorView::InvalidSemverVersion(
                s@,
            ),
            TryFromProtoError::InvalidPersistState(s) => TryFromProtoErrorView::InvalidPersistState(
                s@,
            ),
        }
    }
}

/// One of the four codec names stored in a shard's state does not match the
/// one the caller requested. Carries both full tuples, in the order
/// (key, value, timestamp, diff).
#[derive(Debug, PartialEq, Eq)]
pub struct CodecMismatch {
    pub requested: (String, String, String, String),
    pub actual: (String, String, String, String),
}

/// The timestamp-only variant of [`CodecMismatch`].
#[derive(Clone, Debug, PartialEq, Eq)]
pub struct CodecMismatchT {
    pub requested: String,
    pub actual: String,
}

/// Why a state or diff record could not be decoded.
#[derive(Clone, Debug, PartialEq, Eq)]
pub enum StateDecodeErr {
    /// The bytes were not a well-formed record at all. Durable data is
    /// expected to always decode; the caller should fail loudly.
    Undecodable,
    /// The record parsed but violated a structural rule.
    Invalid(TryFromProtoError),
    /// The record was stamped by a process newer than this one. This is the
    /// fatal arm of the version gate: the caller must halt the process
    /// rather than continue, since re-encoding a record it does not fully
    /// understand could silently drop fields and corrupt the shard.
    FutureVersion { build: Version, state: Version },
}

/// The mathematical contents of a [`StateDecodeErr`].
pub enum StateDecodeErrView {
    Undecodable,
    Invalid(TryFromProtoErrorView),
    FutureVersion { build: VersionView, state: VersionView },
}

impl View for StateDecodeErr {
    type V = StateDecodeErrView;

    open spec fn view(&self) -> StateDecodeErrView {
        match self {
            StateDecodeErr::Undecodable => StateDecodeErrView::Undecodable,
            StateDecodeErr::Invalid(e) => StateDecodeErrView::Invalid(e@),
            StateDecodeErr::FutureVersion { build, state } => (StateDecodeErrView::FutureVersion {
                build: build@,
                state: state@,
            }),
        }
    }
}

} // verus!
