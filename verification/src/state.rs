//! The authoritative per-shard state record and its pieces: lease tables
//! for readers and writers, rollup locations, and the hollow batches whose
//! payloads live in blob storage.

use vstd::prelude::*;
use core::marker::PhantomData;
use crate::antichain::{Antichain, Description, DescriptionView};
use crate::codec::{Codec, Codec64, Timestamp};
use crate::ids::{bytes16_eq, IdempotencyToken, PartialBatchKey, PartialRollupKey, ShardId};
use crate::trace::{Trace, TraceView};
use crate::version::{Version, VersionView};

verus! {

/// A 64-bit monotone sequence number; one per successful compare-and-set.
#[derive(Clone, Copy, Debug, PartialEq, Eq, Hash, Structural)]
pub struct SeqNo(pub u64);

/// A caller-defined 8-byte fencing token attached to a critical reader,
/// compared bytewise.
#[derive(Clone, Copy, Debug, PartialEq, Eq)]
pub struct OpaqueState(pub [u8; 8]);

/// Hostname and purpose of the process holding a handle; purely diagnostic.
#[derive(Debug, PartialEq, Eq)]
pub struct HandleDebugState {
    pub hostname: String,
    pub purpose: String,
}

pub struct HandleDebugStateView {
    pub hostname: Seq<char>,
    pub purpose: Seq<char>,
}

impl View for HandleDebugState {
    type V = HandleDebugStateView;

    open spec fn view(&self) -> HandleDebugStateView {
        HandleDebugStateView { hostname: self.hostname@, purpose: self.purpose@ }
    }
}

impl HandleDebugState {
    /// The default: empty hostname and purpose, synthesized when a wire
    /// record predates the debug fields.
    pub fn empty() -> (r: HandleDebugState)
        ensures
            r@.hostname == Seq::<char>::empty(),
            r@.purpose == Seq::<char>::empty(),
    {
        HandleDebugState { hostname: String::new(), purpose: String::new() }
    }
}

impl Clone for HandleDebugState {
    fn clone(&self) -> (r: Self)
        ensures
            r@ == self@,
    {
        HandleDebugState { hostname: self.hostname.clone(), purpose: self.purpose.clone() }
    }
}

/// The state of one leased reader: a seqno pin, a since frontier, and the
/// heartbeat that keeps the lease alive.
#[derive(Debug, PartialEq, Eq)]
pub struct LeasedReaderState<T> {
    pub seqno: SeqNo,
    pub since: Antichain<T>,
    pub last_heartbeat_timestamp_ms: u64,
    pub lease_duration_ms: u64,
    pub debug: HandleDebugState,
}

pub struct LeasedReaderStateView<T> {
    pub seqno: SeqNo,
    pub since: Seq<T>,
    pub last_heartbeat_timestamp_ms: u64,
    pub lease_duration_ms: u64,
    pub debug: HandleDebugStateView,
}

impl<T> View for LeasedReaderState<T> {
    type V = LeasedReaderStateView<T>;

    open spec fn view(&self) -> LeasedReaderStateView<T> {
        LeasedReaderStateView {
            seqno: self.seqno,
            since: self.since@,
            last_heartbeat_timestamp_ms: self.last_heartbeat_timestamp_ms,
            lease_duration_ms: self.lease_duration_ms,
            debug: self.debug@,
        }
    }
}

impl<T: Timestamp> Clone for LeasedReaderState<T> {
    fn clone(&self) -> (r: Self)
        ensures
            r@ == self@,
    {
        LeasedReaderState {
            seqno: self.seqno,
            since: self.since.clone(),
            last_heartbeat_timestamp_ms: self.last_heartbeat_timestamp_ms,
            lease_duration_ms: self.lease_duration_ms,
            debug: self.debug.clone(),
        }
    }
}

/// The state of one critical reader: no lease; updates are fenced by the
/// caller-defined opaque token instead.
#[derive(Debug, PartialEq, Eq)]
pub struct CriticalReaderState<T> {
    pub since: Antichain<T>,
    pub opaque: OpaqueState,
    pub opaque_codec: String,
    pub debug: HandleDebugState,
}

pub struct CriticalReaderStateView<T> {
    pub since: Seq<T>,
    pub opaque: Seq<u8>,
    pub opaque_codec: Seq<char>,
    pub debug: HandleDebugStateView,
}

impl<T> View for CriticalReaderState<T> {
    type V = CriticalReaderStateView<T>;

    open spec fn view(&self) -> CriticalReaderStateView<T> {
        CriticalReaderStateView {
            since: self.since@,
            opaque: self.opaque.0@,
            opaque_codec: self.opaque_codec@,
            debug: self.debug@,
        }
    }
}

impl<T: Timestamp> Clone for CriticalReaderState<T> {
    fn clone(&self) -> (r: Self)
        ensures
            r@ == self@,
    {
        CriticalReaderState {
            since: self.since.clone(),
            opaque: self.opaque,
            opaque_codec: self.opaque_codec.clone(),
            debug: self.debug.clone(),
        }
    }
}

/// The state of one writer: its lease heartbeat plus the idempotency token
/// and upper frontier of its most recent write.
#[derive(Debug, PartialEq, Eq)]
pub struct WriterState<T> {
    pub last_heartbeat_timestamp_ms: u64,
    pub lease_duration_ms: u64,
    pub most_recent_write_token: IdempotencyToken,
    pub most_recent_write_upper: Antichain<T>,
    pub debug: HandleDebugState,
}

pub struct WriterStateView<T> {
    pub last_heartbeat_timestamp_ms: u64,
    pub lease_duration_ms: u64,
    pub most_recent_write_token: Seq<u8>,
    pub most_recent_write_upper: Seq<T>,
    pub debug: HandleDebugStateView,
}

impl<T> View for WriterState<T> {
    type V = WriterStateView<T>;

    open spec fn view(&self) -> WriterStateView<T> {
        WriterStateView {
            last_heartbeat_timestamp_ms: self.last_heartbeat_timestamp_ms,
            lease_duration_ms: self.lease_duration_ms,
            most_recent_write_token: self.most_recent_write_token.0@,
            most_recent_write_upper: self.most_recent_write_upper@,
            debug: self.debug@,
        }
    }
}

impl<T: Timestamp> Clone for WriterState<T> {
    fn clone(&self) -> (r: Self)
        ensures
            r@ == self@,
    {
        WriterState {
            last_heartbeat_timestamp_ms: self.last_heartbeat_timestamp_ms,
            lease_duration_ms: self.lease_duration_ms,
            most_recent_write_token: self.most_recent_write_token,
            most_recent_write_upper: self.most_recent_write_upper.clone(),
            debug: self.debug.clone(),
        }
    }
}

/// One part of a hollow batch: the blob key of its payload and that
/// payload's encoded size.
#[derive(Debug, PartialEq, Eq)]
pub struct HollowBatchPart {
    pub key: PartialBatchKey,
    pub encoded_size_bytes: u64,
}

pub struct HollowBatchPartView {
    pub key: Seq<char>,
    pub encoded_size_bytes: u64,
}

impl View for HollowBatchPart {
    type V = HollowBatchPartView;

    open spec fn view(&self) -> HollowBatchPartView {
        HollowBatchPartView { key: self.key@, encoded_size_bytes: self.encoded_size_bytes }
    }
}

impl Clone for HollowBatchPart {
    fn clone(&self) -> (r: Self)
        ensures
            r@ == self@,
    {
        HollowBatchPart { key: self.key.clone(), encoded_size_bytes: self.encoded_size_bytes }
    }
}

/// Batch metadata without the payload: its description, part references,
/// row count, and the part indices at which compaction runs begin.
#[derive(Debug, PartialEq, Eq)]
pub struct HollowBatch<T> {
    pub desc: Description<T>,
    pub parts: Vec<HollowBatchPart>,
    pub len: u64,
    pub runs: Vec<u64>,
}

/// The views of a sequence of batch parts.
pub open spec fn parts_view(s: Seq<HollowBatchPart>) -> Seq<HollowBatchPartView> {
    Seq::new(s.len(), |i: int| s[i]@)
}

pub struct HollowBatchView<T> {
    pub desc: DescriptionView<T>,
    pub parts: Seq<HollowBatchPartView>,
    pub len: u64,
    pub runs: Seq<u64>,
}

impl<T> View for HollowBatch<T> {
    type V = HollowBatchView<T>;

    open spec fn view(&self) -> HollowBatchView<T> {
        HollowBatchView {
            desc: self.desc@,
            parts: parts_view(self.parts@),
            len: self.len,
            runs: self.runs@,
        }
    }
}

impl<T: Timestamp> HollowBatch<T> {
    pub open spec fn wf(self) -> bool {
        self.desc.wf()
    }
}

impl<T: Timestamp> Clone for HollowBatch<T> {
    fn clone(&self) -> (r: Self)
        ensures
            r@ == self@,
    {
        let mut parts: Vec<HollowBatchPart> = Vec::new();
        let mut i: usize = 0;
        while i < self.parts.len()
            invariant
                i <= self.parts@.len(),
                parts@.len() == i,
                forall|j: int| 0 <= j < i ==> (#[trigger] parts@[j])@ == self.parts@[j]@,
            decreases self.parts@.len() - i,
        {
            parts.push(self.parts[i].clone());
            i = i + 1;
        }
        let mut runs: Vec<u64> = Vec::new();
        let mut j: usize = 0;
        while j < self.runs.len()
            invariant
                j <= self.runs@.len(),
                runs@ == self.runs@.take(j as int),
            decreases self.runs@.len() - j,
        {
            runs.push(self.runs[j]);
            assert(runs@ =~= self.runs@.take(j as int + 1));
            j = j + 1;
        }
        proof {
            assert(parts_view(parts@) =~= parts_view(self.parts@));
            assert(runs@ =~= self.runs@);
        }
        assert(parts_view(parts@) == parts_view(self.parts@));
        HollowBatch { desc: self.desc.clone(), parts, len: self.len, runs }
    }
}

/// True iff `k` occurs as a key of the keyed-sequence `s`.
pub open spec fn key_in<W>(s: Seq<(Seq<u8>, W)>, k: Seq<u8>) -> bool {
    exists|i: int| 0 <= i < s.len() && #[trigger] s[i].0 == k
}

/// Keys of `s` are pairwise distinct.
pub open spec fn keys_unique<W>(s: Seq<(Seq<u8>, W)>) -> bool {
    forall|i: int, j: int| 0 <= i < j < s.len() ==> #[trigger] s[i].0 != #[trigger] s[j].0
}

/// An insertion-ordered mapping keyed by 16-byte identifiers, with keys
/// unique. Wire records preserve the stored order.
#[derive(Debug, PartialEq, Eq)]
pub struct IdMap<V> {
    entries: Vec<([u8; 16], V)>,
}

impl<V: View> View for IdMap<V> {
    type V = Seq<(Seq<u8>, V::V)>;

    closed spec fn view(&self) -> Seq<(Seq<u8>, V::V)> {
        Seq::new(self.entries@.len(), |i: int| (self.entries@[i].0@, self.entries@[i].1@))
    }
}

impl<V: View> IdMap<V> {
    pub open spec fn wf(self) -> bool {
        keys_unique(self@)
    }

    pub fn new() -> (r: IdMap<V>)
        ensures
            r@ == Seq::<(Seq<u8>, V::V)>::empty(),
            r.wf(),
    {
        let r = IdMap { entries: Vec::new() };
        proof {
            assert(r@ =~= Seq::<(Seq<u8>, V::V)>::empty());
        }
        r
    }

    pub fn len(&self) -> (r: usize)
        ensures
            r == self@.len(),
    {
        self.entries.len()
    }

    /// Borrows the entries in stored order; entry `i` views to `self@[i]`.
    pub fn entries(&self) -> (r: &Vec<([u8; 16], V)>)
        ensures
            r@.len() == self@.len(),
            forall|i: int|
                0 <= i < r@.len() ==> (#[trigger] r@[i].0)@ == self@[i].0 && r@[i].1@
                    == self@[i].1,
    {
        &self.entries
    }

    pub fn contains(&self, k: &[u8; 16]) -> (r: bool)
        ensures
            r == key_in(self@, k@),
    {
        let mut i: usize = 0;
        while i < self.entries.len()
            invariant
                i <= self@.len(),
                forall|j: int| 0 <= j < i ==> #[trigger] self@[j].0 != k@,
            decreases self@.len() - i,
        {
            if bytes16_eq(&self.entries[i].0, k) {
                assert(self@[i as int].0 == k@);
                return true;
            }
            i = i + 1;
        }
        false
    }

    /// Appends an entry whose key is not yet present.
    pub fn insert_new(&mut self, k: [u8; 16], v: V)
        requires
            !key_in(old(self)@, k@),
        ensures
            final(self)@ == old(self)@.push((k@, v@)),
            old(self).wf() ==> final(self).wf(),
    {
        let ghost vview = v@;
        self.entries.push((k, v));
        proof {
            assert(self@ =~= old(self)@.push((k@, vview)));
            if old(self).wf() {
                assert forall|i: int, j: int| 0 <= i < j < self@.len() implies #[trigger] self@[i].0
                    != #[trigger] self@[j].0 by {
                    if j == self@.len() - 1 {
                        assert(!key_in(old(self)@, k@));
                        assert(old(self)@[i].0 != k@);
                    }
                }
            }
        }
    }

    /// The index of `k`'s entry, if present.
    pub fn find(&self, k: &[u8; 16]) -> (r: Option<usize>)
        ensures
            match r {
                Some(ix) => key_index(self@, k@) == ix && 0 <= ix < self@.len(),
                None => key_index(self@, k@) == -1,
            },
    {
        let mut i: usize = 0;
        while i < self.entries.len()
            invariant
                i <= self@.len(),
                forall|j: int| 0 <= j < i ==> #[trigger] self@[j].0 != k@,
            decreases self@.len() - i,
        {
            if bytes16_eq(&self.entries[i].0, k) {
                proof {
                    lemma_key_index_char(self@, k@, i as int);
                }
                return Some(i);
            }
            i = i + 1;
        }
        proof {
            lemma_key_index_none(self@, k@);
        }
        None
    }

    /// Replaces the entry at `ix`.
    pub fn update_at(&mut self, ix: usize, k: [u8; 16], v: V)
        requires
            ix < old(self)@.len(),
        ensures
            final(self)@ == old(self)@.update(ix as int, (k@, v@)),
    {
        let ghost vview = v@;
        self.entries.remove(ix);
        self.entries.insert(ix, (k, v));
        proof {
            assert(self@ =~= old(self)@.update(ix as int, (k@, vview)));
        }
    }

    /// Removes the entry at `ix`.
    pub fn remove_at(&mut self, ix: usize)
        requires
            ix < old(self)@.len(),
        ensures
            final(self)@ == old(self)@.remove(ix as int),
    {
        self.entries.remove(ix);
        proof {
            assert(self@ =~= old(self)@.remove(ix as int));
        }
    }
}

/// The first index holding key `k`, or -1.
pub open spec fn key_index<W>(m: Seq<(Seq<u8>, W)>, k: Seq<u8>) -> int
    decreases m.len(),
{
    if m.len() == 0 {
        -1
    } else if m[0].0 == k {
        0
    } else {
        let r = key_index(m.drop_first(), k);
        if r == -1 {
            -1
        } else {
            r + 1
        }
    }
}

pub proof fn lemma_key_index_char<W>(m: Seq<(Seq<u8>, W)>, k: Seq<u8>, ix: int)
    requires
        0 <= ix < m.len(),
        m[ix].0 == k,
        forall|j: int| 0 <= j < ix ==> (#[trigger] m[j]).0 != k,
    ensures
        key_index(m, k) == ix,
    decreases m.len(),
{
    if ix > 0 {
        assert(m[0].0 != k);
        assert(m.drop_first()[ix - 1].0 == k);
        assert forall|j: int| 0 <= j < ix - 1 implies (#[trigger] m.drop_first()[j]).0 != k by {
            assert(m[j + 1].0 != k);
        }
        lemma_key_index_char(m.drop_first(), k, ix - 1);
    }
}

pub proof fn lemma_key_index_none<W>(m: Seq<(Seq<u8>, W)>, k: Seq<u8>)
    requires
        forall|j: int| 0 <= j < m.len() ==> (#[trigger] m[j]).0 != k,
    ensures
        key_index(m, k) == -1,
    decreases m.len(),
{
    if m.len() > 0 {
        assert forall|j: int| 0 <= j < m.drop_first().len() implies (#[trigger] m.drop_first()[j]).0
            != k by {
            assert(m[j + 1].0 != k);
        }
        lemma_key_index_none(m.drop_first(), k);
    }
}

/// The first index of the rollup map holding seqno `k`, or -1.
pub open spec fn rollup_index(m: Seq<(u64, Seq<char>)>, k: u64) -> int
    decreases m.len(),
{
    if m.len() == 0 {
        -1
    } else if m[0].0 == k {
        0
    } else {
        let r = rollup_index(m.drop_first(), k);
        if r == -1 {
            -1
        } else {
            r + 1
        }
    }
}

pub proof fn lemma_rollup_index_char(m: Seq<(u64, Seq<char>)>, k: u64, ix: int)
    requires
        0 <= ix < m.len(),
        m[ix].0 == k,
        forall|j: int| 0 <= j < ix ==> (#[trigger] m[j]).0 != k,
    ensures
        rollup_index(m, k) == ix,
    decreases m.len(),
{
    if ix > 0 {
        assert(m[0].0 != k);
        assert(m.drop_first()[ix - 1].0 == k);
        assert forall|j: int| 0 <= j < ix - 1 implies (#[trigger] m.drop_first()[j]).0 != k by {
            assert(m[j + 1].0 != k);
        }
        lemma_rollup_index_char(m.drop_first(), k, ix - 1);
    }
}

pub proof fn lemma_rollup_index_none(m: Seq<(u64, Seq<char>)>, k: u64)
    requires
        forall|j: int| 0 <= j < m.len() ==> (#[trigger] m[j]).0 != k,
    ensures
        rollup_index(m, k) == -1,
    decreases m.len(),
{
    if m.len() > 0 {
        assert forall|j: int| 0 <= j < m.drop_first().len() implies (#[trigger] m.drop_first()[j]).0
            != k by {
            assert(m[j + 1].0 != k);
        }
        lemma_rollup_index_none(m.drop_first(), k);
    }
}

/// The position at which seqno `k` belongs in the ascending rollup map:
/// the count of entries with smaller seqnos.
pub open spec fn rollup_pos(m: Seq<(u64, Seq<char>)>, k: u64) -> int
    decreases m.len(),
{
    if m.len() == 0 {
        0
    } else if m[0].0 < k {
        1 + rollup_pos(m.drop_first(), k)
    } else {
        0
    }
}

pub proof fn lemma_rollup_pos_char(m: Seq<(u64, Seq<char>)>, k: u64, ix: int)
    requires
        0 <= ix <= m.len(),
        forall|j: int| 0 <= j < ix ==> (#[trigger] m[j]).0 < k,
        ix < m.len() ==> m[ix].0 >= k,
    ensures
        rollup_pos(m, k) == ix,
    decreases m.len(),
{
    if m.len() > 0 && ix > 0 {
        assert(m[0].0 < k);
        assert forall|j: int| 0 <= j < ix - 1 implies (#[trigger] m.drop_first()[j]).0 < k by {
            assert(m[j + 1].0 < k);
        }
        assert(ix - 1 < m.drop_first().len() ==> m.drop_first()[ix - 1].0 >= k);
        lemma_rollup_pos_char(m.drop_first(), k, ix - 1);
    }
}

/// A mapping from sequence number to the rollup key written at it, kept in
/// strictly ascending seqno order.
#[derive(Debug, PartialEq, Eq)]
pub struct RollupMap {
    entries: Vec<(SeqNo, PartialRollupKey)>,
}

/// Keys strictly ascend.
pub open spec fn rollups_sorted(s: Seq<(u64, Seq<char>)>) -> bool {
    forall|i: int, j: int| 0 <= i < j < s.len() ==> (#[trigger] s[i]).0 < (#[trigger] s[j]).0
}

impl View for RollupMap {
    type V = Seq<(u64, Seq<char>)>;

    closed spec fn view(&self) -> Seq<(u64, Seq<char>)> {
        Seq::new(self.entries@.len(), |i: int| (self.entries@[i].0.0, self.entries@[i].1@))
    }
}

impl RollupMap {
    pub open spec fn wf(self) -> bool {
        rollups_sorted(self@)
    }

    pub fn new() -> (r: RollupMap)
        ensures
            r@ == Seq::<(u64, Seq<char>)>::empty(),
            r.wf(),
    {
        let r = RollupMap { entries: Vec::new() };
        proof {
            assert(r@ =~= Seq::<(u64, Seq<char>)>::empty());
        }
        r
    }

    pub fn len(&self) -> (r: usize)
        ensures
            r == self@.len(),
    {
        self.entries.len()
    }

    pub fn entries(&self) -> (r: &Vec<(SeqNo, PartialRollupKey)>)
        ensures
            r@.len() == self@.len(),
            forall|i: int|
                0 <= i < r@.len() ==> (#[trigger] r@[i].0).0 == self@[i].0 && r@[i].1@
                    == self@[i].1,
    {
        &self.entries
    }

    /// Appends an entry whose seqno exceeds every stored one.
    pub fn append(&mut self, seqno: SeqNo, key: PartialRollupKey)
        requires
            old(self).wf(),
            forall|i: int| 0 <= i < old(self)@.len() ==> (#[trigger] old(self)@[i]).0 < seqno.0,
        ensures
            final(self)@ == old(self)@.push((seqno.0, key@)),
            final(self).wf(),
    {
        let ghost kview = key@;
        self.entries.push((seqno, key));
        proof {
            assert(self@ =~= old(self)@.push((seqno.0, kview)));
        }
    }

    /// The seqno of the last (greatest) entry, if any.
    pub fn last_seqno(&self) -> (r: Option<SeqNo>)
        ensures
            match r {
                Some(s) => self@.len() > 0 && s.0 == self@[self@.len() - 1].0,
                None => self@.len() == 0,
            },
    {
        if self.entries.len() == 0 {
            None
        } else {
            Some(self.entries[self.entries.len() - 1].0)
        }
    }

    /// The key of the last (greatest) entry, if any.
    pub fn last_key(&self) -> (r: Option<&PartialRollupKey>)
        ensures
            match r {
                Some(k) => self@.len() > 0 && k@ == self@[self@.len() - 1].1,
                None => self@.len() == 0,
            },
    {
        if self.entries.len() == 0 {
            None
        } else {
            Some(&self.entries[self.entries.len() - 1].1)
        }
    }

    /// The index of the entry with seqno `k`, if present.
    pub fn find(&self, k: u64) -> (r: Option<usize>)
        ensures
            match r {
                Some(ix) => rollup_index(self@, k) == ix && 0 <= ix < self@.len(),
                None => rollup_index(self@, k) == -1,
            },
    {
        let mut i: usize = 0;
        while i < self.entries.len()
            invariant
                i <= self@.len(),
                forall|j: int| 0 <= j < i ==> (#[trigger] self@[j]).0 != k,
            decreases self@.len() - i,
        {
            if self.entries[i].0.0 == k {
                proof {
                    lemma_rollup_index_char(self@, k, i as int);
                }
                return Some(i);
            }
            i = i + 1;
        }
        proof {
            lemma_rollup_index_none(self@, k);
        }
        None
    }

    /// Inserts an entry whose seqno is not yet present at its sorted
    /// position, so a sorted-unique map stays sorted and unique.
    pub fn insert_sorted(&mut self, k: SeqNo, key: PartialRollupKey)
        requires
            rollup_index(old(self)@, k.0) == -1,
        ensures
            final(self)@ == old(self)@.insert(rollup_pos(old(self)@, k.0), (k.0, key@)),
    {
        let mut i: usize = 0;
        while i < self.entries.len() && self.entries[i].0.0 < k.0
            invariant
                i <= self@.len(),
                forall|j: int| 0 <= j < i ==> (#[trigger] self@[j]).0 < k.0,
            decreases self@.len() - i,
        {
            i = i + 1;
        }
        proof {
            lemma_rollup_pos_char(self@, k.0, i as int);
        }
        let ghost kview = key@;
        self.entries.insert(i, (k, key));
        proof {
            assert(self@ =~= old(self)@.insert(rollup_pos(old(self)@, k.0), (k.0, kview)));
        }
    }

    /// Replaces the entry at `ix`.
    pub fn update_at(&mut self, ix: usize, k: SeqNo, key: PartialRollupKey)
        requires
            ix < old(self)@.len(),
        ensures
            final(self)@ == old(self)@.update(ix as int, (k.0, key@)),
    {
        let ghost kview = key@;
        self.entries.remove(ix);
        self.entries.insert(ix, (k, key));
        proof {
            assert(self@ =~= old(self)@.update(ix as int, (k.0, kview)));
        }
    }

    /// Removes the entry at `ix`.
    pub fn remove_at(&mut self, ix: usize)
        requires
            ix < old(self)@.len(),
        ensures
            final(self)@ == old(self)@.remove(ix as int),
    {
        self.entries.remove(ix);
        proof {
            assert(self@ =~= old(self)@.remove(ix as int));
        }
    }
}

/// The collections a shard's state is made of.
#[derive(Debug, PartialEq, Eq)]
pub struct StateCollections<T> {
    pub rollups: RollupMap,
    pub last_gc_req: SeqNo,
    pub leased_readers: IdMap<LeasedReaderState<T>>,
    pub critical_readers: IdMap<CriticalReaderState<T>>,
    pub writers: IdMap<WriterState<T>>,
    pub trace: Trace<T>,
}

pub struct StateCollectionsView<T> {
    pub rollups: Seq<(u64, Seq<char>)>,
    pub last_gc_req: SeqNo,
    pub leased_readers: Seq<(Seq<u8>, LeasedReaderStateView<T>)>,
    pub critical_readers: Seq<(Seq<u8>, CriticalReaderStateView<T>)>,
    pub writers: Seq<(Seq<u8>, WriterStateView<T>)>,
    pub trace: TraceView<T>,
}

impl<T> View for StateCollections<T> {
    type V = StateCollectionsView<T>;

    open spec fn view(&self) -> StateCollectionsView<T> {
        StateCollectionsView {
            rollups: self.rollups@,
            last_gc_req: self.last_gc_req,
            leased_readers: self.leased_readers@,
            critical_readers: self.critical_readers@,
            writers: self.writers@,
            trace: self.trace@,
        }
    }
}

impl<T: Timestamp> StateCollectionsView<T> {
    /// Structural well-formedness: rollup keys strictly ascend, lease-table
    /// keys are unique, and every frontier is one of a total order.
    pub open spec fn wf(self) -> bool {
        &&& rollups_sorted(self.rollups)
        &&& keys_unique(self.leased_readers)
        &&& keys_unique(self.critical_readers)
        &&& keys_unique(self.writers)
        &&& forall|i: int|
            0 <= i < self.leased_readers.len() ==> (#[trigger] self.leased_readers[i]).1.since.len()
                <= 1
        &&& forall|i: int|
            0 <= i < self.critical_readers.len() ==> (
            #[trigger] self.critical_readers[i]).1.since.len() <= 1 && self.critical_readers[i].1.opaque.len() == 8
        &&& forall|i: int|
            0 <= i < self.writers.len() ==> (
            #[trigger] self.writers[i]).1.most_recent_write_upper.len() <= 1 && self.writers[i].1.most_recent_write_token.len() == 16
        &&& self.trace.since.len() <= 1
        &&& forall|i: int|
            0 <= i < self.trace.spine.len() ==> {
                &&& (#[trigger] self.trace.spine[i]).desc.lower.len() <= 1
                &&& self.trace.spine[i].desc.upper.len() <= 1
                &&& self.trace.spine[i].desc.since.len() <= 1
            }
    }
}

/// The authoritative state of one shard at one sequence number.
#[derive(Debug, PartialEq, Eq)]
pub struct State<T> {
    pub applier_version: Version,
    pub shard_id: ShardId,
    pub seqno: SeqNo,
    pub walltime_ms: u64,
    pub hostname: String,
    pub collections: StateCollections<T>,
}

pub struct StateView<T> {
    pub applier_version: VersionView,
    pub shard_id: Seq<u8>,
    pub seqno: SeqNo,
    pub walltime_ms: u64,
    pub hostname: Seq<char>,
    pub collections: StateCollectionsView<T>,
}

impl<T> View for State<T> {
    type V = StateView<T>;

    open spec fn view(&self) -> StateView<T> {
        StateView {
            applier_version: self.applier_version@,
            shard_id: self.shard_id.0@,
            seqno: self.seqno,
            walltime_ms: self.walltime_ms,
            hostname: self.hostname@,
            collections: self.collections@,
        }
    }
}

impl<T: Timestamp> StateView<T> {
    pub open spec fn wf(self) -> bool {
        self.collections.wf() && self.shard_id.len() == 16
    }

    /// No field holds a value the decoder would rewrite to a migration
    /// default: a round-tripped state equals the original exactly when this
    /// holds (the only such value is a zero read-lease duration).
    pub open spec fn canonical(self) -> bool {
        forall|i: int|
            0 <= i < self.collections.leased_readers.len() ==> (
            #[trigger] self.collections.leased_readers[i]).1.lease_duration_ms != 0
    }
}

impl<T: Timestamp> State<T> {
    /// The state a shard is created with: the given applier version, seqno
    /// zero, empty collections, the trace's `since` at the minimum time.
    pub fn new(applier_version: Version, shard_id: ShardId, hostname: String, walltime_ms: u64) -> (
        r: State<T>)
        ensures
            r@.applier_version == applier_version@,
            r@.shard_id == shard_id.0@,
            r@.seqno == SeqNo(0),
            r@.walltime_ms == walltime_ms,
            r@.hostname == hostname@,
            r@.collections.rollups.len() == 0,
            r@.collections.last_gc_req == SeqNo(0),
            r@.collections.leased_readers.len() == 0,
            r@.collections.critical_readers.len() == 0,
            r@.collections.writers.len() == 0,
            r@.collections.trace.since == seq![T::minimum_spec()],
            r@.collections.trace.spine.len() == 0,
            r@.wf(),
            r@.canonical(),
    {
        State {
            applier_version,
            shard_id,
            seqno: SeqNo(0),
            walltime_ms,
            hostname,
            collections: StateCollections {
                rollups: RollupMap::new(),
                last_gc_req: SeqNo(0),
                leased_readers: IdMap::new(),
                critical_readers: IdMap::new(),
                writers: IdMap::new(),
                trace: Trace::default(),
            },
        }
    }
}

/// State whose codecs have been checked: the typed view the rest of the
/// client works with.
#[derive(Debug, PartialEq, Eq)]
pub struct TypedState<K, V, T, D> {
    pub state: State<T>,
    pub _phantom: PhantomData<(K, V, D)>,
}

impl<K, V, T, D> View for TypedState<K, V, T, D> {
    type V = StateView<T>;

    open spec fn view(&self) -> StateView<T> {
        self.state@
    }
}

impl<K: Codec, V: Codec, T: Timestamp, D: Codec64> TypedState<K, V, T, D> {
    /// A freshly created shard at seqno zero with empty collections.
    pub fn new(applier_version: Version, shard_id: ShardId, hostname: String, walltime_ms: u64) -> (
        r: TypedState<K, V, T, D>)
        ensures
            r@.applier_version == applier_version@,
            r@.shard_id == shard_id.0@,
            r@.seqno == SeqNo(0),
            r@.walltime_ms == walltime_ms,
            r@.hostname == hostname@,
            r@.collections.rollups.len() == 0,
            r@.collections.last_gc_req == SeqNo(0),
            r@.collections.leased_readers.len() == 0,
            r@.collections.critical_readers.len() == 0,
            r@.collections.writers.len() == 0,
            r@.collections.trace.since == seq![T::minimum_spec()],
            r@.collections.trace.spine.len() == 0,
            r@.wf(),
            r@.canonical(),
    {
        TypedState {
            state: State::new(applier_version, shard_id, hostname, walltime_ms),
            _phantom: PhantomData,
        }
    }
}

} // verus!
