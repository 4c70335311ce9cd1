//! State diffs: the compact delta between two adjacent sequence numbers of
//! one shard, expressed as per-field insert/update/delete tuples, plus the
//! engine that applies diffs to an in-memory state.
//!
//! On the wire a diff is a parallel-array record: `fields[i]` names the
//! state field the `i`-th delta targets, `diff_types[i]` its kind, and each
//! delta consumes one key chunk plus one (insert/delete) or two (update)
//! value chunks from the concatenated data stream.

use vstd::prelude::*;
use vstd::utf8::{decode_utf8, encode_utf8, valid_utf8};
use vstd::utf8::{encode_utf8_decode_utf8, encode_utf8_valid_utf8};
use vstd::string::StrSliceExecFns;
use crate::antichain::Antichain;
use crate::codec::Timestamp;
use crate::encoding::{
    version_from_chars, ac_from_proto, ac_to_proto, batch_from_proto, batch_to_proto, crs_from_proto, crs_to_proto,
    lrs_from_proto, lrs_to_proto, ws_from_proto, ws_to_proto,
};
use crate::error::{StateDecodeErr, StateDecodeErrView, TryFromProtoError, TryFromProtoErrorView};
use crate::ids::{
    id_chars, id_from_chars, parsed_uuid, uuid_chars, CriticalReaderId, LeasedReaderId,
    PartialRollupKey, WriterId,
};
use crate::proto::{
    ProtoHollowBatch, ProtoHollowBatchView, ProtoLeasedReaderState, ProtoLeasedReaderStateView,
    ProtoCriticalReaderState, ProtoCriticalReaderStateView, ProtoStateDiff, ProtoStateDiffView,
    ProtoStateFieldDiffs, ProtoStateFieldDiffsView, ProtoStateRollup, ProtoU64Antichain,
    ProtoWriterState, ProtoWriterStateView,
};
use crate::state::{
    IdMap, RollupMap, State, StateCollections, key_in, key_index, lemma_key_index_char, lemma_key_index_none, rollup_index, rollup_pos, CriticalReaderState, CriticalReaderStateView, HollowBatch, HollowBatchView,
    LeasedReaderState, LeasedReaderStateView, SeqNo, StateCollectionsView, StateView, WriterState,
    WriterStateView,
};
use crate::trace::{Trace, TraceView};
use crate::version::{parsed_version, version_chars, Version, VersionView};
use crate::wire::{
    bytes_enc, items_enc, lemma_varint_enc_len, list_enc, varint_enc, varint_parse, read_varint,
    write_varint, Wire,
};

verus! {

/// One delta's effect on a single key: what it becomes, what it was and
/// becomes, or what it was.
#[derive(Debug, PartialEq, Eq)]
pub enum StateFieldValDiff<V> {
    Insert(V),
    Update(V, V),
    Delete(V),
}

/// One delta: a key of the targeted field and its value change.
#[derive(Debug, PartialEq, Eq)]
pub struct StateFieldDiff<K, V> {
    pub key: K,
    pub val: StateFieldValDiff<V>,
}

pub enum ValDiffView<V> {
    Insert(V),
    Update(V, V),
    Delete(V),
}

pub struct FieldDiffView<K, V> {
    pub key: K,
    pub val: ValDiffView<V>,
}

/// A value that can stand in a diff's data stream as one chunk.
pub trait DiffChunk: Sized {
    /// The mathematical contents of the value.
    type CV;

    spec fn cv(self) -> Self::CV;

    spec fn chunk_enc(v: Self::CV) -> Seq<u8>;

    /// What the trusted formatters promise of this chunk's contents (the
    /// parsers invert them); `true` where no formatter is involved.
    spec fn chunk_facts(v: Self::CV) -> bool;

    fn chunk_vec(&self) -> (r: Vec<u8>)
        ensures
            r@ == Self::chunk_enc(self.cv()),
            Self::chunk_facts(self.cv()),
    ;

    /// What decoding one chunk yields.
    spec fn chunk_parse(b: Seq<u8>) -> Result<Self::CV, TryFromProtoErrorView>;

    /// The contents a chunk can carry faithfully.
    spec fn chunk_wf(v: Self::CV) -> bool;

    fn chunk_read(b: Vec<u8>) -> (r: Result<Self, TryFromProtoError>)
        ensures
            match r {
                Ok(v) => Self::chunk_parse(b@) == Ok::<Self::CV, TryFromProtoErrorView>(v.cv()),
                Err(e) => Self::chunk_parse(b@) == Err::<Self::CV, TryFromProtoErrorView>(e@),
            },
    ;

    proof fn chunk_rt(v: Self::CV)
        requires
            Self::chunk_wf(v),
            Self::chunk_facts(v),
        ensures
            Self::chunk_parse(Self::chunk_enc(v)) == Ok::<Self::CV, TryFromProtoErrorView>(v),
    ;
}

/// The one structural error a malformed chunk reports.
pub open spec fn chunk_err() -> TryFromProtoErrorView {
    TryFromProtoErrorView::InvalidPersistState("field_diff"@)
}

fn chunk_err_exec() -> (r: TryFromProtoError)
    ensures
        r@ == chunk_err(),
{
    TryFromProtoError::InvalidPersistState("field_diff".to_owned())
}

impl<K: DiffChunk, V: DiffChunk> View for StateFieldDiff<K, V> {
    type V = FieldDiffView<K::CV, V::CV>;

    open spec fn view(&self) -> FieldDiffView<K::CV, V::CV> {
        FieldDiffView {
            key: self.key.cv(),
            val: match self.val {
                StateFieldValDiff::Insert(ref to) => ValDiffView::Insert(to.cv()),
                StateFieldValDiff::Update(ref from, ref to) => ValDiffView::Update(
                    from.cv(),
                    to.cv(),
                ),
                StateFieldValDiff::Delete(ref from) => ValDiffView::Delete(from.cv()),
            },
        }
    }
}

/// The views of a list of deltas.
pub open spec fn fd_views<K: DiffChunk, V: DiffChunk>(s: Seq<StateFieldDiff<K, V>>) -> Seq<
    FieldDiffView<K::CV, V::CV>,
> {
    Seq::new(s.len(), |i: int| s[i]@)
}

impl DiffChunk for () {
    type CV = ();

    open spec fn cv(self) -> () {
        ()
    }

    open spec fn chunk_enc(v: ()) -> Seq<u8> {
        Seq::empty()
    }

    open spec fn chunk_facts(v: ()) -> bool {
        true
    }

    fn chunk_vec(&self) -> (r: Vec<u8>) {
        let r: Vec<u8> = Vec::new();
        proof {
            assert(r@ =~= Seq::<u8>::empty());
        }
        r
    }

    open spec fn chunk_parse(b: Seq<u8>) -> Result<(), TryFromProtoErrorView> {
        if b.len() == 0 {
            Ok(())
        } else {
            Err(chunk_err())
        }
    }

    open spec fn chunk_wf(v: ()) -> bool {
        true
    }

    fn chunk_read(b: Vec<u8>) -> (r: Result<(), TryFromProtoError>) {
        if b.len() == 0 {
            Ok(())
        } else {
            Err(chunk_err_exec())
        }
    }

    proof fn chunk_rt(v: ()) {
    }
}

impl DiffChunk for SeqNo {
    type CV = SeqNo;

    open spec fn cv(self) -> SeqNo {
        self
    }

    open spec fn chunk_enc(v: SeqNo) -> Seq<u8> {
        varint_enc(v.0)
    }

    open spec fn chunk_facts(v: SeqNo) -> bool {
        true
    }

    fn chunk_vec(&self) -> (r: Vec<u8>) {
        let mut r: Vec<u8> = Vec::new();
        write_varint(&mut r, self.0);
        proof {
            assert(r@ =~= varint_enc(self.0));
        }
        r
    }

    open spec fn chunk_parse(b: Seq<u8>) -> Result<SeqNo, TryFromProtoErrorView> {
        match varint_parse(b) {
            Some((x, rest)) => if rest.len() == 0 {
                Ok(SeqNo(x))
            } else {
                Err(chunk_err())
            },
            None => Err(chunk_err()),
        }
    }

    open spec fn chunk_wf(v: SeqNo) -> bool {
        true
    }

    fn chunk_read(b: Vec<u8>) -> (r: Result<SeqNo, TryFromProtoError>) {
        proof {
            assert(b@.skip(0) =~= b@);
        }
        match read_varint(&b, 0) {
            Some((x, end)) => {
                if end == b.len() {
                    proof {
                        assert(b@.skip(end as int).len() == 0);
                    }
                    Ok(SeqNo(x))
                } else {
                    proof {
                        assert(b@.skip(end as int).len() != 0);
                    }
                    Err(chunk_err_exec())
                }
            },
            None => Err(chunk_err_exec()),
        }
    }

    proof fn chunk_rt(v: SeqNo) {
        crate::wire::lemma_varint_round_trip(v.0, Seq::empty());
        assert(varint_enc(v.0) + Seq::<u8>::empty() =~= varint_enc(v.0));
    }
}

impl DiffChunk for String {
    type CV = Seq<char>;

    open spec fn cv(self) -> Seq<char> {
        self@
    }

    open spec fn chunk_enc(v: Seq<char>) -> Seq<u8> {
        encode_utf8(v)
    }

    open spec fn chunk_facts(v: Seq<char>) -> bool {
        true
    }

    fn chunk_vec(&self) -> (r: Vec<u8>) {
        self.as_str().as_bytes_vec()
    }

    open spec fn chunk_parse(b: Seq<u8>) -> Result<Seq<char>, TryFromProtoErrorView> {
        if valid_utf8(b) {
            Ok(decode_utf8(b))
        } else {
            Err(chunk_err())
        }
    }

    open spec fn chunk_wf(v: Seq<char>) -> bool {
        true
    }

    fn chunk_read(b: Vec<u8>) -> (r: Result<String, TryFromProtoError>) {
        let ghost bv = b@;
        match crate::wire::string_from_utf8(b) {
            Some(s) => {
                proof {
                    broadcast use encode_utf8_decode_utf8;

                    assert(decode_utf8(bv) == s@);
                }
                Ok(s)
            },
            None => Err(chunk_err_exec()),
        }
    }

    proof fn chunk_rt(v: Seq<char>) {
        broadcast use encode_utf8_valid_utf8, encode_utf8_decode_utf8;

    }
}

impl DiffChunk for PartialRollupKey {
    type CV = Seq<char>;

    open spec fn cv(self) -> Seq<char> {
        self@
    }

    open spec fn chunk_enc(v: Seq<char>) -> Seq<u8> {
        encode_utf8(v)
    }

    open spec fn chunk_facts(v: Seq<char>) -> bool {
        true
    }

    fn chunk_vec(&self) -> (r: Vec<u8>) {
        self.0.as_str().as_bytes_vec()
    }

    open spec fn chunk_parse(b: Seq<u8>) -> Result<Seq<char>, TryFromProtoErrorView> {
        if valid_utf8(b) {
            Ok(decode_utf8(b))
        } else {
            Err(chunk_err())
        }
    }

    open spec fn chunk_wf(v: Seq<char>) -> bool {
        true
    }

    fn chunk_read(b: Vec<u8>) -> (r: Result<PartialRollupKey, TryFromProtoError>) {
        let ghost bv = b@;
        match crate::wire::string_from_utf8(b) {
            Some(s) => {
                proof {
                    broadcast use encode_utf8_decode_utf8;

                    assert(decode_utf8(bv) == s@);
                }
                Ok(PartialRollupKey(s))
            },
            None => Err(chunk_err_exec()),
        }
    }

    proof fn chunk_rt(v: Seq<char>) {
        broadcast use encode_utf8_valid_utf8, encode_utf8_decode_utf8;

    }
}

impl DiffChunk for LeasedReaderId {
    type CV = Seq<u8>;

    open spec fn cv(self) -> Seq<u8> {
        self.0@
    }

    open spec fn chunk_enc(v: Seq<u8>) -> Seq<u8> {
        encode_utf8(id_chars('r', v))
    }

    open spec fn chunk_facts(v: Seq<u8>) -> bool {
        parsed_uuid(uuid_chars(v)) == Some(v)
    }

    fn chunk_vec(&self) -> (r: Vec<u8>) {
        let s = self.into_proto();
        proof {
            assert(s@.skip(1) =~= uuid_chars(self.0@));
            assert(s@ =~= id_chars('r', self.0@));
        }
        s.as_str().as_bytes_vec()
    }

    open spec fn chunk_parse(b: Seq<u8>) -> Result<Seq<u8>, TryFromProtoErrorView> {
        if valid_utf8(b) {
            match id_from_chars('r', decode_utf8(b)) {
                Some(k) => Ok(k),
                None => Err(TryFromProtoErrorView::InvalidShardId(decode_utf8(b))),
            }
        } else {
            Err(chunk_err())
        }
    }

    open spec fn chunk_wf(v: Seq<u8>) -> bool {
        true
    }

    fn chunk_read(b: Vec<u8>) -> (r: Result<LeasedReaderId, TryFromProtoError>) {
        let ghost bv = b@;
        let st = match crate::wire::string_from_utf8(b) {
            Some(s) => s,
            None => {
                return Err(chunk_err_exec());
            },
        };
        proof {
            broadcast use encode_utf8_decode_utf8;

            assert(decode_utf8(bv) == st@);
        }
        match crate::ids::parse_id('r', st.as_str()) {
            Some(k) => Ok(LeasedReaderId(k)),
            None => Err(TryFromProtoError::InvalidShardId(st)),
        }
    }

    proof fn chunk_rt(v: Seq<u8>) {
        broadcast use encode_utf8_valid_utf8, encode_utf8_decode_utf8;

        let s = id_chars('r', v);
        assert(s[0] == 'r');
        assert(s.skip(1) =~= uuid_chars(v));
    }
}

impl DiffChunk for CriticalReaderId {
    type CV = Seq<u8>;

    open spec fn cv(self) -> Seq<u8> {
        self.0@
    }

    open spec fn chunk_enc(v: Seq<u8>) -> Seq<u8> {
        encode_utf8(id_chars('c', v))
    }

    open spec fn chunk_facts(v: Seq<u8>) -> bool {
        parsed_uuid(uuid_chars(v)) == Some(v)
    }

    fn chunk_vec(&self) -> (r: Vec<u8>) {
        let s = self.into_proto();
        proof {
            assert(s@.skip(1) =~= uuid_chars(self.0@));
            assert(s@ =~= id_chars('c', self.0@));
        }
        s.as_str().as_bytes_vec()
    }

    open spec fn chunk_parse(b: Seq<u8>) -> Result<Seq<u8>, TryFromProtoErrorView> {
        if valid_utf8(b) {
            match id_from_chars('c', decode_utf8(b)) {
                Some(k) => Ok(k),
                None => Err(TryFromProtoErrorView::InvalidShardId(decode_utf8(b))),
            }
        } else {
            Err(chunk_err())
        }
    }

    open spec fn chunk_wf(v: Seq<u8>) -> bool {
        true
    }

    fn chunk_read(b: Vec<u8>) -> (r: Result<CriticalReaderId, TryFromProtoError>) {
        let ghost bv = b@;
        let st = match crate::wire::string_from_utf8(b) {
            Some(s) => s,
            None => {
                return Err(chunk_err_exec());
            },
        };
        proof {
            broadcast use encode_utf8_decode_utf8;

            assert(decode_utf8(bv) == st@);
        }
        match crate::ids::parse_id('c', st.as_str()) {
            Some(k) => Ok(CriticalReaderId(k)),
            None => Err(TryFromProtoError::InvalidShardId(st)),
        }
    }

    proof fn chunk_rt(v: Seq<u8>) {
        broadcast use encode_utf8_valid_utf8, encode_utf8_decode_utf8;

        let s = id_chars('c', v);
        assert(s[0] == 'c');
        assert(s.skip(1) =~= uuid_chars(v));
    }
}

impl DiffChunk for WriterId {
    type CV = Seq<u8>;

    open spec fn cv(self) -> Seq<u8> {
        self.0@
    }

    open spec fn chunk_enc(v: Seq<u8>) -> Seq<u8> {
        encode_utf8(id_chars('w', v))
    }

    open spec fn chunk_facts(v: Seq<u8>) -> bool {
        parsed_uuid(uuid_chars(v)) == Some(v)
    }

    fn chunk_vec(&self) -> (r: Vec<u8>) {
        let s = self.into_proto();
        proof {
            assert(s@.skip(1) =~= uuid_chars(self.0@));
            assert(s@ =~= id_chars('w', self.0@));
        }
        s.as_str().as_bytes_vec()
    }

    open spec fn chunk_parse(b: Seq<u8>) -> Result<Seq<u8>, TryFromProtoErrorView> {
        if valid_utf8(b) {
            match id_from_chars('w', decode_utf8(b)) {
                Some(k) => Ok(k),
                None => Err(TryFromProtoErrorView::InvalidShardId(decode_utf8(b))),
            }
        } else {
            Err(chunk_err())
        }
    }

    open spec fn chunk_wf(v: Seq<u8>) -> bool {
        true
    }

    fn chunk_read(b: Vec<u8>) -> (r: Result<WriterId, TryFromProtoError>) {
        let ghost bv = b@;
        let st = match crate::wire::string_from_utf8(b) {
            Some(s) => s,
            None => {
                return Err(chunk_err_exec());
            },
        };
        proof {
            broadcast use encode_utf8_decode_utf8;

            assert(decode_utf8(bv) == st@);
        }
        match crate::ids::parse_id('w', st.as_str()) {
            Some(k) => Ok(WriterId(k)),
            None => Err(TryFromProtoError::InvalidShardId(st)),
        }
    }

    proof fn chunk_rt(v: Seq<u8>) {
        broadcast use encode_utf8_valid_utf8, encode_utf8_decode_utf8;

        let s = id_chars('w', v);
        assert(s[0] == 'w');
        assert(s.skip(1) =~= uuid_chars(v));
    }
}

impl<T: Timestamp> DiffChunk for LeasedReaderState<T> {
    type CV = LeasedReaderStateView<T>;

    open spec fn cv(self) -> LeasedReaderStateView<T> {
        self@
    }

    open spec fn chunk_enc(v: LeasedReaderStateView<T>) -> Seq<u8> {
        ProtoLeasedReaderState::enc(lrs_to_proto(v))
    }

    open spec fn chunk_facts(v: LeasedReaderStateView<T>) -> bool {
        true
    }

    fn chunk_vec(&self) -> (r: Vec<u8>) {
        let p = self.into_proto();
        let mut r: Vec<u8> = Vec::new();
        p.write(&mut r);
        proof {
            assert(r@ =~= ProtoLeasedReaderState::enc(lrs_to_proto(self@)));
        }
        r
    }

    open spec fn chunk_parse(b: Seq<u8>) -> Result<LeasedReaderStateView<T>, TryFromProtoErrorView> {
        match ProtoLeasedReaderState::parse(b) {
            Some(pv) => lrs_from_proto::<T>(pv),
            None => Err(chunk_err()),
        }
    }

    open spec fn chunk_wf(v: LeasedReaderStateView<T>) -> bool {
        v.since.len() <= 1 && v.lease_duration_ms != 0 && <ProtoLeasedReaderState as Wire>::bounded(lrs_to_proto(v))
    }

    fn chunk_read(b: Vec<u8>) -> (r: Result<LeasedReaderState<T>, TryFromProtoError>) {
        match ProtoLeasedReaderState::read(&b) {
            Some(p) => LeasedReaderState::<T>::from_proto(p),
            None => Err(chunk_err_exec()),
        }
    }

    proof fn chunk_rt(v: LeasedReaderStateView<T>) {
        ProtoLeasedReaderState::round_trip(lrs_to_proto(v));
        crate::encoding::lemma_lrs_round_trip::<T>(v);
    }
}

impl<T: Timestamp> DiffChunk for CriticalReaderState<T> {
    type CV = CriticalReaderStateView<T>;

    open spec fn cv(self) -> CriticalReaderStateView<T> {
        self@
    }

    open spec fn chunk_enc(v: CriticalReaderStateView<T>) -> Seq<u8> {
        ProtoCriticalReaderState::enc(crs_to_proto(v))
    }

    open spec fn chunk_facts(v: CriticalReaderStateView<T>) -> bool {
        true
    }

    fn chunk_vec(&self) -> (r: Vec<u8>) {
        let p = self.into_proto();
        let mut r: Vec<u8> = Vec::new();
        p.write(&mut r);
        proof {
            assert(r@ =~= ProtoCriticalReaderState::enc(crs_to_proto(self@)));
        }
        r
    }

    open spec fn chunk_parse(b: Seq<u8>) -> Result<CriticalReaderStateView<T>, TryFromProtoErrorView> {
        match ProtoCriticalReaderState::parse(b) {
            Some(pv) => crs_from_proto::<T>(pv),
            None => Err(chunk_err()),
        }
    }

    open spec fn chunk_wf(v: CriticalReaderStateView<T>) -> bool {
        v.since.len() <= 1 && <ProtoCriticalReaderState as Wire>::bounded(crs_to_proto(v))
    }

    fn chunk_read(b: Vec<u8>) -> (r: Result<CriticalReaderState<T>, TryFromProtoError>) {
        match ProtoCriticalReaderState::read(&b) {
            Some(p) => CriticalReaderState::<T>::from_proto(p),
            None => Err(chunk_err_exec()),
        }
    }

    proof fn chunk_rt(v: CriticalReaderStateView<T>) {
        ProtoCriticalReaderState::round_trip(crs_to_proto(v));
        crate::encoding::lemma_crs_round_trip::<T>(v);
    }
}

impl<T: Timestamp> DiffChunk for WriterState<T> {
    type CV = WriterStateView<T>;

    open spec fn cv(self) -> WriterStateView<T> {
        self@
    }

    open spec fn chunk_enc(v: WriterStateView<T>) -> Seq<u8> {
        ProtoWriterState::enc(ws_to_proto(v))
    }

    open spec fn chunk_facts(v: WriterStateView<T>) -> bool {
        parsed_uuid(uuid_chars(v.most_recent_write_token)) == Some(v.most_recent_write_token)
    }

    fn chunk_vec(&self) -> (r: Vec<u8>) {
        let p = self.into_proto();
        let mut r: Vec<u8> = Vec::new();
        p.write(&mut r);
        proof {
            assert(r@ =~= ProtoWriterState::enc(ws_to_proto(self@)));
        }
        r
    }

    open spec fn chunk_parse(b: Seq<u8>) -> Result<WriterStateView<T>, TryFromProtoErrorView> {
        match ProtoWriterState::parse(b) {
            Some(pv) => ws_from_proto::<T>(pv),
            None => Err(chunk_err()),
        }
    }

    open spec fn chunk_wf(v: WriterStateView<T>) -> bool {
        v.most_recent_write_upper.len() <= 1 && v.most_recent_write_token.len() == 16 && <ProtoWriterState as Wire>::bounded(ws_to_proto(v))
    }

    fn chunk_read(b: Vec<u8>) -> (r: Result<WriterState<T>, TryFromProtoError>) {
        match ProtoWriterState::read(&b) {
            Some(p) => WriterState::<T>::from_proto(p),
            None => Err(chunk_err_exec()),
        }
    }

    proof fn chunk_rt(v: WriterStateView<T>) {
        ProtoWriterState::round_trip(ws_to_proto(v));
        crate::encoding::lemma_ws_round_trip::<T>(v);
    }
}

impl<T: Timestamp> DiffChunk for Antichain<T> {
    type CV = Seq<T>;

    open spec fn cv(self) -> Seq<T> {
        self@
    }

    open spec fn chunk_enc(v: Seq<T>) -> Seq<u8> {
        ProtoU64Antichain::enc(ac_to_proto(v))
    }

    open spec fn chunk_facts(v: Seq<T>) -> bool {
        true
    }

    fn chunk_vec(&self) -> (r: Vec<u8>) {
        let p = self.into_proto();
        let mut r: Vec<u8> = Vec::new();
        p.write(&mut r);
        proof {
            assert(r@ =~= ProtoU64Antichain::enc(ac_to_proto(self@)));
        }
        r
    }

    open spec fn chunk_parse(b: Seq<u8>) -> Result<Seq<T>, TryFromProtoErrorView> {
        match ProtoU64Antichain::parse(b) {
            Some(pv) => Ok(ac_from_proto::<T>(pv)),
            None => Err(chunk_err()),
        }
    }

    open spec fn chunk_wf(v: Seq<T>) -> bool {
        v.len() <= 1
    }

    fn chunk_read(b: Vec<u8>) -> (r: Result<Antichain<T>, TryFromProtoError>) {
        match ProtoU64Antichain::read(&b) {
            Some(p) => Ok(Antichain::<T>::from_proto(&p)),
            None => Err(chunk_err_exec()),
        }
    }

    proof fn chunk_rt(v: Seq<T>) {
        let pv = ac_to_proto(v);
        assert forall|i: int| 0 <= i < pv.len() implies (#[trigger] pv[i]).len() == 8 by {
            v[i].lemma_enc64_len();
        }
        lemma_varint_enc_len(pv.len() as u64);
        if pv.len() == 0 {
            assert(items_enc::<[u8; 8]>(pv) == Seq::<u8>::empty());
        } else {
            assert(pv.drop_first() =~= Seq::<Seq<u8>>::empty());
            assert(items_enc::<[u8; 8]>(Seq::<Seq<u8>>::empty()) == Seq::<u8>::empty());
            assert(items_enc::<[u8; 8]>(pv) =~= bytes_enc(pv[0]));
            lemma_varint_enc_len(8);
        }
        assert(list_enc::<[u8; 8]>(pv).len() <= u64::MAX);
        ProtoU64Antichain::round_trip(pv);
        crate::encoding::lemma_ac_round_trip::<T>(v);
    }
}

impl<T: Timestamp> DiffChunk for HollowBatch<T> {
    type CV = HollowBatchView<T>;

    open spec fn cv(self) -> HollowBatchView<T> {
        self@
    }

    open spec fn chunk_enc(v: HollowBatchView<T>) -> Seq<u8> {
        ProtoHollowBatch::enc(batch_to_proto(v))
    }

    open spec fn chunk_facts(v: HollowBatchView<T>) -> bool {
        true
    }

    fn chunk_vec(&self) -> (r: Vec<u8>) {
        let p = self.into_proto();
        let mut r: Vec<u8> = Vec::new();
        p.write(&mut r);
        proof {
            assert(r@ =~= ProtoHollowBatch::enc(batch_to_proto(self@)));
        }
        r
    }

    open spec fn chunk_parse(b: Seq<u8>) -> Result<HollowBatchView<T>, TryFromProtoErrorView> {
        match ProtoHollowBatch::parse(b) {
            Some(pv) => batch_from_proto::<T>(pv),
            None => Err(chunk_err()),
        }
    }

    open spec fn chunk_wf(v: HollowBatchView<T>) -> bool {
        v.desc.lower.len() <= 1 && v.desc.upper.len() <= 1 && v.desc.since.len() <= 1
            && <ProtoHollowBatch as Wire>::bounded(batch_to_proto(v))
    }

    fn chunk_read(b: Vec<u8>) -> (r: Result<HollowBatch<T>, TryFromProtoError>) {
        match ProtoHollowBatch::read(&b) {
            Some(p) => HollowBatch::<T>::from_proto(p),
            None => Err(chunk_err_exec()),
        }
    }

    proof fn chunk_rt(v: HollowBatchView<T>) {
        ProtoHollowBatch::round_trip(batch_to_proto(v));
        crate::encoding::lemma_batch_round_trip::<T>(v);
    }
}

// ---------------------------------------------------------------------------
// The diff record.
// ---------------------------------------------------------------------------

/// Which state field a delta targets.
#[derive(Clone, Copy, Debug, PartialEq, Eq)]
pub enum ProtoStateField {
    Hostname,
    LastGcReq,
    Rollups,
    LeasedReaders,
    CriticalReaders,
    Writers,
    Since,
    Spine,
}

/// The kind of a delta.
#[derive(Clone, Copy, Debug, PartialEq, Eq)]
pub enum ProtoStateFieldDiffType {
    Insert,
    Update,
    Delete,
}

pub open spec fn field_code(f: ProtoStateField) -> u64 {
    match f {
        ProtoStateField::Hostname => 0,
        ProtoStateField::LastGcReq => 1,
        ProtoStateField::Rollups => 2,
        ProtoStateField::LeasedReaders => 3,
        ProtoStateField::CriticalReaders => 4,
        ProtoStateField::Writers => 5,
        ProtoStateField::Since => 6,
        ProtoStateField::Spine => 7,
    }
}

pub open spec fn diff_type_code(t: ProtoStateFieldDiffType) -> u64 {
    match t {
        ProtoStateFieldDiffType::Insert => 0,
        ProtoStateFieldDiffType::Update => 1,
        ProtoStateFieldDiffType::Delete => 2,
    }
}

/// An update consumes a key chunk and two value chunks; inserts and
/// deletes a key chunk and one value chunk.
pub open spec fn chunk_count(typ: u64) -> int {
    if typ == 1 {
        3
    } else {
        2
    }
}

/// A compact delta between two adjacent seqnos of one shard.
#[derive(Debug, PartialEq, Eq)]
pub struct StateDiff<T> {
    pub applier_version: Version,
    pub seqno_from: SeqNo,
    pub seqno_to: SeqNo,
    pub walltime_ms: u64,
    pub latest_rollup_key: PartialRollupKey,
    pub rollups: Vec<StateFieldDiff<SeqNo, PartialRollupKey>>,
    pub hostname: Vec<StateFieldDiff<(), String>>,
    pub last_gc_req: Vec<StateFieldDiff<(), SeqNo>>,
    pub leased_readers: Vec<StateFieldDiff<LeasedReaderId, LeasedReaderState<T>>>,
    pub critical_readers: Vec<StateFieldDiff<CriticalReaderId, CriticalReaderState<T>>>,
    pub writers: Vec<StateFieldDiff<WriterId, WriterState<T>>>,
    pub since: Vec<StateFieldDiff<(), Antichain<T>>>,
    pub spine: Vec<StateFieldDiff<HollowBatch<T>, ()>>,
}

pub struct StateDiffView<T> {
    pub applier_version: VersionView,
    pub seqno_from: SeqNo,
    pub seqno_to: SeqNo,
    pub walltime_ms: u64,
    pub latest_rollup_key: Seq<char>,
    pub rollups: Seq<FieldDiffView<SeqNo, Seq<char>>>,
    pub hostname: Seq<FieldDiffView<(), Seq<char>>>,
    pub last_gc_req: Seq<FieldDiffView<(), SeqNo>>,
    pub leased_readers: Seq<FieldDiffView<Seq<u8>, LeasedReaderStateView<T>>>,
    pub critical_readers: Seq<FieldDiffView<Seq<u8>, CriticalReaderStateView<T>>>,
    pub writers: Seq<FieldDiffView<Seq<u8>, WriterStateView<T>>>,
    pub since: Seq<FieldDiffView<(), Seq<T>>>,
    pub spine: Seq<FieldDiffView<HollowBatchView<T>, ()>>,
}

impl<T: Timestamp> View for StateDiff<T> {
    type V = StateDiffView<T>;

    open spec fn view(&self) -> StateDiffView<T> {
        StateDiffView {
            applier_version: self.applier_version@,
            seqno_from: self.seqno_from,
            seqno_to: self.seqno_to,
            walltime_ms: self.walltime_ms,
            latest_rollup_key: self.latest_rollup_key@,
            rollups: fd_views(self.rollups@),
            hostname: fd_views(self.hostname@),
            last_gc_req: fd_views(self.last_gc_req@),
            leased_readers: fd_views(self.leased_readers@),
            critical_readers: fd_views(self.critical_readers@),
            writers: fd_views(self.writers@),
            since: fd_views(self.since@),
            spine: fd_views(self.spine@),
        }
    }
}

impl<T: Timestamp> StateDiff<T> {
    /// An empty diff between the two seqnos: no field deltas.
    pub fn new(
        applier_version: Version,
        seqno_from: SeqNo,
        seqno_to: SeqNo,
        walltime_ms: u64,
        latest_rollup_key: PartialRollupKey,
    ) -> (r: StateDiff<T>)
        ensures
            r@ == diff_base::<T>(
                applier_version@,
                seqno_from,
                seqno_to,
                walltime_ms,
                latest_rollup_key@,
            ),
    {
        let r = StateDiff {
            applier_version,
            seqno_from,
            seqno_to,
            walltime_ms,
            latest_rollup_key,
            rollups: Vec::new(),
            hostname: Vec::new(),
            last_gc_req: Vec::new(),
            leased_readers: Vec::new(),
            critical_readers: Vec::new(),
            writers: Vec::new(),
            since: Vec::new(),
            spine: Vec::new(),
        };
        proof {
            assert(r@.rollups =~= diff_base::<T>(
                applier_version@,
                seqno_from,
                seqno_to,
                walltime_ms,
                r.latest_rollup_key@,
            ).rollups);
            assert(r@.hostname =~= Seq::<FieldDiffView<(), Seq<char>>>::empty());
            assert(r@.last_gc_req =~= Seq::<FieldDiffView<(), SeqNo>>::empty());
            assert(r@.leased_readers =~= Seq::<
                FieldDiffView<Seq<u8>, LeasedReaderStateView<T>>,
            >::empty());
            assert(r@.critical_readers =~= Seq::<
                FieldDiffView<Seq<u8>, CriticalReaderStateView<T>>,
            >::empty());
            assert(r@.writers =~= Seq::<FieldDiffView<Seq<u8>, WriterStateView<T>>>::empty());
            assert(r@.since =~= Seq::<FieldDiffView<(), Seq<T>>>::empty());
            assert(r@.spine =~= Seq::<FieldDiffView<HollowBatchView<T>, ()>>::empty());
        }
        r
    }
}

/// A diff with the given header fields and no deltas.
pub open spec fn diff_base<T: Timestamp>(
    applier_version: VersionView,
    seqno_from: SeqNo,
    seqno_to: SeqNo,
    walltime_ms: u64,
    latest_rollup_key: Seq<char>,
) -> StateDiffView<T> {
    StateDiffView {
        applier_version,
        seqno_from,
        seqno_to,
        walltime_ms,
        latest_rollup_key,
        rollups: Seq::empty(),
        hostname: Seq::empty(),
        last_gc_req: Seq::empty(),
        leased_readers: Seq::empty(),
        critical_readers: Seq::empty(),
        writers: Seq::empty(),
        since: Seq::empty(),
        spine: Seq::empty(),
    }
}

// ---------------------------------------------------------------------------
// Entry-level model of the parallel arrays.
// ---------------------------------------------------------------------------

/// One delta as it stands in the parallel arrays: its field tag, kind, and
/// data chunks (key first).
pub struct DiffEntry {
    pub field: u64,
    pub typ: u64,
    pub chunks: Seq<Seq<u8>>,
}

pub open spec fn entry_of_fd<K: DiffChunk, V: DiffChunk>(
    field: u64,
    fd: FieldDiffView<K::CV, V::CV>,
) -> DiffEntry {
    match fd.val {
        ValDiffView::Insert(to) => DiffEntry {
            field,
            typ: 0,
            chunks: seq![K::chunk_enc(fd.key), V::chunk_enc(to)],
        },
        ValDiffView::Update(from, to) => DiffEntry {
            field,
            typ: 1,
            chunks: seq![K::chunk_enc(fd.key), V::chunk_enc(from), V::chunk_enc(to)],
        },
        ValDiffView::Delete(from) => DiffEntry {
            field,
            typ: 2,
            chunks: seq![K::chunk_enc(fd.key), V::chunk_enc(from)],
        },
    }
}

pub open spec fn entries_of_field<K: DiffChunk, V: DiffChunk>(
    field: u64,
    fds: Seq<FieldDiffView<K::CV, V::CV>>,
) -> Seq<DiffEntry> {
    Seq::new(fds.len(), |i: int| entry_of_fd::<K, V>(field, fds[i]))
}

/// The canonical entry order: hostname, last_gc_req, rollups, readers,
/// writers, since, spine. A stability aid only; the decoder dispatches on
/// each entry's field tag and does not rely on it.
pub open spec fn entries_of_diff<T: Timestamp>(d: StateDiffView<T>) -> Seq<DiffEntry> {
    entries_of_field::<(), String>(0, d.hostname) + entries_of_field::<(), SeqNo>(
        1,
        d.last_gc_req,
    ) + entries_of_field::<SeqNo, PartialRollupKey>(2, d.rollups) + entries_of_field::<
        LeasedReaderId,
        LeasedReaderState<T>,
    >(3, d.leased_readers) + entries_of_field::<CriticalReaderId, CriticalReaderState<T>>(
        4,
        d.critical_readers,
    ) + entries_of_field::<WriterId, WriterState<T>>(5, d.writers) + entries_of_field::<
        (),
        Antichain<T>,
    >(6, d.since) + entries_of_field::<HollowBatch<T>, ()>(7, d.spine)
}

pub open spec fn cat(cs: Seq<Seq<u8>>) -> Seq<u8>
    decreases cs.len(),
{
    if cs.len() == 0 {
        Seq::empty()
    } else {
        cs[0] + cat(cs.drop_first())
    }
}

pub open spec fn lens_list(cs: Seq<Seq<u8>>) -> Seq<u64> {
    Seq::new(cs.len(), |i: int| cs[i].len() as u64)
}

pub open spec fn allchunks(es: Seq<DiffEntry>) -> Seq<Seq<u8>>
    decreases es.len(),
{
    if es.len() == 0 {
        Seq::empty()
    } else {
        es[0].chunks + allchunks(es.drop_first())
    }
}

/// The parallel-array record carrying the given entries.
pub open spec fn flatten_entries(es: Seq<DiffEntry>) -> ProtoStateFieldDiffsView {
    ProtoStateFieldDiffsView {
        fields: Seq::new(es.len(), |i: int| es[i].field),
        diff_types: Seq::new(es.len(), |i: int| es[i].typ),
        data_lens: lens_list(allchunks(es)),
        data_bytes: cat(allchunks(es)),
    }
}

/// Appends one entry to a parallel-array record.
pub open spec fn push_entry(p: ProtoStateFieldDiffsView, e: DiffEntry) -> ProtoStateFieldDiffsView {
    ProtoStateFieldDiffsView {
        fields: p.fields.push(e.field),
        diff_types: p.diff_types.push(e.typ),
        data_lens: p.data_lens + lens_list(e.chunks),
        data_bytes: p.data_bytes + cat(e.chunks),
    }
}

pub open spec fn push_entries(p: ProtoStateFieldDiffsView, es: Seq<DiffEntry>) -> ProtoStateFieldDiffsView
    decreases es.len(),
{
    if es.len() == 0 {
        p
    } else {
        push_entries(push_entry(p, es[0]), es.drop_first())
    }
}

// ---------------------------------------------------------------------------
// Concatenation lemmas for the parallel arrays.
// ---------------------------------------------------------------------------

pub proof fn lemma_cat2(a: Seq<u8>, b: Seq<u8>)
    ensures
        cat(seq![a, b]) == a + b,
{
    assert(seq![a, b].drop_first() =~= seq![b]);
    assert(seq![b].drop_first() =~= Seq::<Seq<u8>>::empty());
    assert(cat(Seq::<Seq<u8>>::empty()) == Seq::<u8>::empty());
    assert(b + Seq::<u8>::empty() =~= b);
    assert(cat(seq![b]) =~= b);
    assert(a + (b + Seq::<u8>::empty()) =~= a + b);
    assert(cat(seq![a, b]) =~= a + b);
}

pub proof fn lemma_cat3(a: Seq<u8>, b: Seq<u8>, c: Seq<u8>)
    ensures
        cat(seq![a, b, c]) == a + (b + c),
{
    assert(seq![a, b, c].drop_first() =~= seq![b, c]);
    lemma_cat2(b, c);
    assert(cat(seq![a, b, c]) =~= a + (b + c));
}

pub proof fn lemma_cat_app(c1: Seq<Seq<u8>>, c2: Seq<Seq<u8>>)
    ensures
        cat(c1 + c2) == cat(c1) + cat(c2),
    decreases c1.len(),
{
    if c1.len() == 0 {
        assert(c1 + c2 =~= c2);
        assert(cat(c1) + cat(c2) =~= cat(c2));
    } else {
        assert((c1 + c2).drop_first() =~= c1.drop_first() + c2);
        assert((c1 + c2)[0] == c1[0]);
        lemma_cat_app(c1.drop_first(), c2);
        assert(c1[0] + (cat(c1.drop_first()) + cat(c2)) =~= (c1[0] + cat(c1.drop_first())) + cat(
            c2,
        ));
    }
}

pub proof fn lemma_allchunks_app(a: Seq<DiffEntry>, b: Seq<DiffEntry>)
    ensures
        allchunks(a + b) == allchunks(a) + allchunks(b),
    decreases a.len(),
{
    if a.len() == 0 {
        assert(a + b =~= b);
        assert(allchunks(a) + allchunks(b) =~= allchunks(b));
    } else {
        assert((a + b).drop_first() =~= a.drop_first() + b);
        assert((a + b)[0] == a[0]);
        lemma_allchunks_app(a.drop_first(), b);
        assert(a[0].chunks + (allchunks(a.drop_first()) + allchunks(b)) =~= (a[0].chunks
            + allchunks(a.drop_first())) + allchunks(b));
    }
}

/// Concatenates two parallel-array records.
pub open spec fn fd_combine(p: ProtoStateFieldDiffsView, q: ProtoStateFieldDiffsView) -> ProtoStateFieldDiffsView {
    ProtoStateFieldDiffsView {
        fields: p.fields + q.fields,
        diff_types: p.diff_types + q.diff_types,
        data_lens: p.data_lens + q.data_lens,
        data_bytes: p.data_bytes + q.data_bytes,
    }
}

pub open spec fn fd_empty() -> ProtoStateFieldDiffsView {
    ProtoStateFieldDiffsView {
        fields: Seq::empty(),
        diff_types: Seq::empty(),
        data_lens: Seq::empty(),
        data_bytes: Seq::empty(),
    }
}

pub proof fn lemma_push_entries_combine(p: ProtoStateFieldDiffsView, es: Seq<DiffEntry>)
    ensures
        push_entries(p, es) == fd_combine(p, flatten_entries(es)),
    decreases es.len(),
{
    if es.len() == 0 {
        assert(fd_combine(p, flatten_entries(es)).fields =~= p.fields);
        assert(fd_combine(p, flatten_entries(es)).diff_types =~= p.diff_types);
        assert(fd_combine(p, flatten_entries(es)).data_lens =~= p.data_lens);
        assert(fd_combine(p, flatten_entries(es)).data_bytes =~= p.data_bytes);
    } else {
        let e0 = es[0];
        let rest = es.drop_first();
        lemma_push_entries_combine(push_entry(p, e0), rest);
        assert(allchunks(es) == e0.chunks + allchunks(rest));
        lemma_cat_app(e0.chunks, allchunks(rest));
        assert(fd_combine(push_entry(p, e0), flatten_entries(rest)).fields =~= fd_combine(
            p,
            flatten_entries(es),
        ).fields);
        assert(fd_combine(push_entry(p, e0), flatten_entries(rest)).diff_types =~= fd_combine(
            p,
            flatten_entries(es),
        ).diff_types);
        assert(fd_combine(push_entry(p, e0), flatten_entries(rest)).data_lens =~= fd_combine(
            p,
            flatten_entries(es),
        ).data_lens);
        assert(fd_combine(push_entry(p, e0), flatten_entries(rest)).data_bytes =~= fd_combine(
            p,
            flatten_entries(es),
        ).data_bytes);
    }
}

pub proof fn lemma_push_entries_app(p: ProtoStateFieldDiffsView, a: Seq<DiffEntry>, b: Seq<
    DiffEntry,
>)
    ensures
        push_entries(push_entries(p, a), b) == push_entries(p, a + b),
{
    lemma_push_entries_combine(p, a);
    lemma_push_entries_combine(push_entries(p, a), b);
    lemma_push_entries_combine(p, a + b);
    lemma_allchunks_app(a, b);
    lemma_cat_app(allchunks(a), allchunks(b));
    let lhs = fd_combine(fd_combine(p, flatten_entries(a)), flatten_entries(b));
    let rhs = fd_combine(p, flatten_entries(a + b));
    assert(lhs.fields =~= rhs.fields);
    assert(lhs.diff_types =~= rhs.diff_types);
    assert(lhs.data_lens =~= rhs.data_lens);
    assert(lhs.data_bytes =~= rhs.data_bytes);
}

// ---------------------------------------------------------------------------
// Building the parallel arrays.
// ---------------------------------------------------------------------------

impl ProtoStateFieldDiffs {
    pub fn empty() -> (r: ProtoStateFieldDiffs)
        ensures
            r.vv() == fd_empty(),
    {
        let r = ProtoStateFieldDiffs {
            fields: Vec::new(),
            diff_types: Vec::new(),
            data_lens: Vec::new(),
            data_bytes: Vec::new(),
        };
        proof {
            assert(r.vv().fields =~= fd_empty().fields);
            assert(r.vv().diff_types =~= fd_empty().diff_types);
            assert(r.vv().data_lens =~= fd_empty().data_lens);
            assert(r.vv().data_bytes =~= fd_empty().data_bytes);
        }
        r
    }

    /// Appends one data chunk and records its length.
    pub fn push_data(&mut self, data: Vec<u8>)
        ensures
            final(self).vv() == (ProtoStateFieldDiffsView {
                data_lens: old(self).vv().data_lens.push(data@.len() as u64),
                data_bytes: old(self).vv().data_bytes + data@,
                ..old(self).vv()
            }),
    {
        self.data_lens.push(data.len() as u64);
        crate::wire::write_raw(&mut self.data_bytes, &data);
        proof {
            assert(self.vv().fields == old(self).vv().fields);
            assert(self.vv().diff_types == old(self).vv().diff_types);
            assert(self.vv().data_lens =~= old(self).vv().data_lens.push(data@.len() as u64));
            assert(self.vv().data_bytes == old(self).vv().data_bytes + data@);
        }
    }
}

/// What the trusted formatters promise of one delta's contents.
pub open spec fn fd_facts<K: DiffChunk, V: DiffChunk>(fd: FieldDiffView<K::CV, V::CV>) -> bool {
    &&& K::chunk_facts(fd.key)
    &&& match fd.val {
        ValDiffView::Insert(to) => V::chunk_facts(to),
        ValDiffView::Update(from, to) => V::chunk_facts(from) && V::chunk_facts(to),
        ValDiffView::Delete(from) => V::chunk_facts(from),
    }
}

/// Appends one delta to the parallel arrays: its field tag, its key chunk,
/// its kind, and its value chunk or chunks.
pub fn field_diff_into_proto<K: DiffChunk, V: DiffChunk>(
    field: ProtoStateField,
    diff: &StateFieldDiff<K, V>,
    proto: &mut ProtoStateFieldDiffs,
)
    ensures
        final(proto).vv() == push_entry(
            old(proto).vv(),
            entry_of_fd::<K, V>(field_code(field), diff@),
        ),
        fd_facts::<K, V>(diff@),
{
    let code: u64 = match field {
        ProtoStateField::Hostname => 0,
        ProtoStateField::LastGcReq => 1,
        ProtoStateField::Rollups => 2,
        ProtoStateField::LeasedReaders => 3,
        ProtoStateField::CriticalReaders => 4,
        ProtoStateField::Writers => 5,
        ProtoStateField::Since => 6,
        ProtoStateField::Spine => 7,
    };
    proto.fields.push(code);
    proto.push_data(diff.key.chunk_vec());
    match &diff.val {
        StateFieldValDiff::Insert(to) => {
            proto.diff_types.push(0);
            proto.push_data(to.chunk_vec());
        },
        StateFieldValDiff::Update(from, to) => {
            proto.diff_types.push(1);
            proto.push_data(from.chunk_vec());
            proto.push_data(to.chunk_vec());
        },
        StateFieldValDiff::Delete(from) => {
            proto.diff_types.push(2);
            proto.push_data(from.chunk_vec());
        },
    }
    proof {
        let e = entry_of_fd::<K, V>(field_code(field), diff@);
        let target = push_entry(old(proto).vv(), e);
        if e.typ == 1 {
            assert(e.chunks =~= seq![e.chunks[0], e.chunks[1], e.chunks[2]]);
            lemma_cat3(e.chunks[0], e.chunks[1], e.chunks[2]);
        } else {
            assert(e.chunks =~= seq![e.chunks[0], e.chunks[1]]);
            lemma_cat2(e.chunks[0], e.chunks[1]);
        }
        assert(proto.vv().fields =~= target.fields);
        assert(proto.vv().diff_types =~= target.diff_types);
        assert(proto.vv().data_lens =~= target.data_lens);
        assert(proto.vv().data_bytes =~= target.data_bytes);
    }
}

/// Appends every delta of one field's list, in order.
#[verifier::loop_isolation(false)]
pub fn field_diffs_into_proto<K: DiffChunk, V: DiffChunk>(
    field: ProtoStateField,
    diffs: &Vec<StateFieldDiff<K, V>>,
    proto: &mut ProtoStateFieldDiffs,
)
    ensures
        final(proto).vv() == push_entries(
            old(proto).vv(),
            entries_of_field::<K, V>(field_code(field), fd_views(diffs@)),
        ),
        forall|i: int| 0 <= i < diffs@.len() ==> fd_facts::<K, V>((#[trigger] diffs@[i])@),
{
    let ghost all = entries_of_field::<K, V>(field_code(field), fd_views(diffs@));
    let mut i: usize = 0;
    while i < diffs.len()
        invariant
            i <= diffs@.len(),
            proto.vv() == push_entries(old(proto).vv(), all.take(i as int)),
            forall|j: int| 0 <= j < i ==> fd_facts::<K, V>((#[trigger] diffs@[j])@),
        decreases diffs@.len() - i,
    {
        let ghost pre = proto.vv();
        field_diff_into_proto::<K, V>(field, &diffs[i], proto);
        proof {
            let e = entry_of_fd::<K, V>(field_code(field), diffs@[i as int]@);
            assert(all[i as int] == e);
            lemma_push_entries_app(old(proto).vv(), all.take(i as int), seq![e]);
            assert(all.take(i as int) + seq![e] =~= all.take(i as int + 1));
            assert(seq![e].drop_first() =~= Seq::<DiffEntry>::empty());
            assert(push_entries(push_entry(pre, e), Seq::<DiffEntry>::empty()) == push_entry(
                pre,
                e,
            ));
            assert(push_entries(pre, seq![e]) == push_entry(pre, e));
        }
        i = i + 1;
    }
    proof {
        assert(all.take(diffs@.len() as int) =~= all);
    }
}

// ---------------------------------------------------------------------------
// Decoding the parallel arrays.
// ---------------------------------------------------------------------------

/// One delta parsed from its key chunk and value chunk or chunks.
#[verifier::opaque]
pub open spec fn fd_parse<K: DiffChunk, V: DiffChunk>(typ: u64, chunks: Seq<Seq<u8>>) -> Result<
    FieldDiffView<K::CV, V::CV>,
    TryFromProtoErrorView,
> {
    match K::chunk_parse(chunks[0]) {
        Err(e) => Err(e),
        Ok(key) => if typ == 0 {
            match V::chunk_parse(chunks[1]) {
                Err(e) => Err(e),
                Ok(to) => Ok((FieldDiffView { key, val: ValDiffView::Insert(to) })),
            }
        } else if typ == 1 {
            match V::chunk_parse(chunks[1]) {
                Err(e) => Err(e),
                Ok(from) => match V::chunk_parse(chunks[2]) {
                    Err(e) => Err(e),
                    Ok(to) => Ok((FieldDiffView { key, val: ValDiffView::Update(from, to) })),
                },
            }
        } else if typ == 2 {
            match V::chunk_parse(chunks[1]) {
                Err(e) => Err(e),
                Ok(from) => Ok((FieldDiffView { key, val: ValDiffView::Delete(from) })),
            }
        } else {
            Err(TryFromProtoErrorView::InvalidPersistState("diff_types"@))
        },
    }
}

fn read_fd<K: DiffChunk, V: DiffChunk>(typ: u64, key_c: Vec<u8>, v1: Vec<u8>, v2: Option<Vec<u8>>)
    -> (r: Result<StateFieldDiff<K, V>, TryFromProtoError>)
    requires
        typ == 1 ==> v2 is Some,
    ensures
        ({
            let chunks = match v2 {
                Some(c2) => seq![key_c@, v1@, c2@],
                None => seq![key_c@, v1@],
            };
            match r {
                Ok(fd) => fd_parse::<K, V>(typ, chunks) == Ok::<_, TryFromProtoErrorView>(fd@),
                Err(e) => fd_parse::<K, V>(typ, chunks) == Err::<
                    FieldDiffView<K::CV, V::CV>,
                    _,
                >(e@),
            }
        }),
{
    proof {
        reveal(fd_parse);
    }
    let key = match K::chunk_read(key_c) {
        Ok(k) => k,
        Err(e) => {
            return Err(e);
        },
    };
    if typ == 0 {
        match V::chunk_read(v1) {
            Ok(to) => Ok(StateFieldDiff { key, val: StateFieldValDiff::Insert(to) }),
            Err(e) => Err(e),
        }
    } else if typ == 1 {
        let from = match V::chunk_read(v1) {
            Ok(x) => x,
            Err(e) => {
                return Err(e);
            },
        };
        match V::chunk_read(v2.unwrap()) {
            Ok(to) => Ok(StateFieldDiff { key, val: StateFieldValDiff::Update(from, to) }),
            Err(e) => Err(e),
        }
    } else if typ == 2 {
        match V::chunk_read(v1) {
            Ok(from) => Ok(StateFieldDiff { key, val: StateFieldValDiff::Delete(from) }),
            Err(e) => Err(e),
        }
    } else {
        Err(TryFromProtoError::InvalidPersistState("diff_types".to_owned()))
    }
}

/// Applies one parsed delta to the diff under construction, dispatching on
/// the field tag.
#[verifier::opaque]
pub open spec fn entry_dispatch<T: Timestamp>(
    field: u64,
    typ: u64,
    chunks: Seq<Seq<u8>>,
    acc: StateDiffView<T>,
) -> Result<StateDiffView<T>, TryFromProtoErrorView> {
    if field == 0 {
        match fd_parse::<(), String>(typ, chunks) {
            Err(e) => Err(e),
            Ok(fd) => Ok((StateDiffView { hostname: acc.hostname.push(fd), ..acc })),
        }
    } else if field == 1 {
        match fd_parse::<(), SeqNo>(typ, chunks) {
            Err(e) => Err(e),
            Ok(fd) => Ok((StateDiffView { last_gc_req: acc.last_gc_req.push(fd), ..acc })),
        }
    } else if field == 2 {
        match fd_parse::<SeqNo, PartialRollupKey>(typ, chunks) {
            Err(e) => Err(e),
            Ok(fd) => Ok((StateDiffView { rollups: acc.rollups.push(fd), ..acc })),
        }
    } else if field == 3 {
        match fd_parse::<LeasedReaderId, LeasedReaderState<T>>(typ, chunks) {
            Err(e) => Err(e),
            Ok(fd) => Ok((StateDiffView { leased_readers: acc.leased_readers.push(fd), ..acc })),
        }
    } else if field == 4 {
        match fd_parse::<CriticalReaderId, CriticalReaderState<T>>(typ, chunks) {
            Err(e) => Err(e),
            Ok(fd) => Ok(
                (StateDiffView { critical_readers: acc.critical_readers.push(fd), ..acc }),
            ),
        }
    } else if field == 5 {
        match fd_parse::<WriterId, WriterState<T>>(typ, chunks) {
            Err(e) => Err(e),
            Ok(fd) => Ok((StateDiffView { writers: acc.writers.push(fd), ..acc })),
        }
    } else if field == 6 {
        match fd_parse::<(), Antichain<T>>(typ, chunks) {
            Err(e) => Err(e),
            Ok(fd) => Ok((StateDiffView { since: acc.since.push(fd), ..acc })),
        }
    } else if field == 7 {
        match fd_parse::<HollowBatch<T>, ()>(typ, chunks) {
            Err(e) => Err(e),
            Ok(fd) => Ok((StateDiffView { spine: acc.spine.push(fd), ..acc })),
        }
    } else {
        Err(TryFromProtoErrorView::InvalidPersistState("fields"@))
    }
}


#[verifier::rlimit(100)]
#[verifier::spinoff_prover]
fn apply_entry_hostname<T: Timestamp>(
    d: &mut StateDiff<T>,
    t: u64,
    c0: Vec<u8>,
    c1: Vec<u8>,
    c2: Option<Vec<u8>>,
) -> (r: Result<(), TryFromProtoError>)
    requires
        t == 1 ==> c2 is Some,
    ensures
        ({
            let echunks = match c2 {
                Some(cc2) => seq![c0@, c1@, cc2@],
                None => seq![c0@, c1@],
            };
            match r {
                Ok(_) => entry_dispatch::<T>(0, t, echunks, old(d)@) == Ok::<
                    _,
                    TryFromProtoErrorView,
                >(final(d)@),
                Err(e) => entry_dispatch::<T>(0, t, echunks, old(d)@) == Err::<
                    StateDiffView<T>,
                    _,
                >(e@),
            }
        }),
{
    let fd = match read_fd::<(), String>(t, c0, c1, c2) {
        Ok(x) => x,
        Err(e) => {
            proof {
                reveal(entry_dispatch);
            }
            return Err(e);
        },
    };
    let ghost fdv = fd@;
    d.hostname.push(fd);
    proof {
        reveal(entry_dispatch);
        assert(fd_views(d.hostname@) =~= old(d)@.hostname.push(fdv));
        assert(d@ == (StateDiffView { hostname: old(d)@.hostname.push(fdv), ..old(d)@ }));
    }
    Ok(())
}

#[verifier::rlimit(100)]
#[verifier::spinoff_prover]
fn apply_entry_last_gc_req<T: Timestamp>(
    d: &mut StateDiff<T>,
    t: u64,
    c0: Vec<u8>,
    c1: Vec<u8>,
    c2: Option<Vec<u8>>,
) -> (r: Result<(), TryFromProtoError>)
    requires
        t == 1 ==> c2 is Some,
    ensures
        ({
            let echunks = match c2 {
                Some(cc2) => seq![c0@, c1@, cc2@],
                None => seq![c0@, c1@],
            };
            match r {
                Ok(_) => entry_dispatch::<T>(1, t, echunks, old(d)@) == Ok::<
                    _,
                    TryFromProtoErrorView,
                >(final(d)@),
                Err(e) => entry_dispatch::<T>(1, t, echunks, old(d)@) == Err::<
                    StateDiffView<T>,
                    _,
                >(e@),
            }
        }),
{
    let fd = match read_fd::<(), SeqNo>(t, c0, c1, c2) {
        Ok(x) => x,
        Err(e) => {
            proof {
                reveal(entry_dispatch);
            }
            return Err(e);
        },
    };
    let ghost fdv = fd@;
    d.last_gc_req.push(fd);
    proof {
        reveal(entry_dispatch);
        assert(fd_views(d.last_gc_req@) =~= old(d)@.last_gc_req.push(fdv));
        assert(d@ == (StateDiffView { last_gc_req: old(d)@.last_gc_req.push(fdv), ..old(d)@ }));
    }
    Ok(())
}

#[verifier::rlimit(100)]
#[verifier::spinoff_prover]
fn apply_entry_rollups<T: Timestamp>(
    d: &mut StateDiff<T>,
    t: u64,
    c0: Vec<u8>,
    c1: Vec<u8>,
    c2: Option<Vec<u8>>,
) -> (r: Result<(), TryFromProtoError>)
    requires
        t == 1 ==> c2 is Some,
    ensures
        ({
            let echunks = match c2 {
                Some(cc2) => seq![c0@, c1@, cc2@],
                None => seq![c0@, c1@],
            };
            match r {
                Ok(_) => entry_dispatch::<T>(2, t, echunks, old(d)@) == Ok::<
                    _,
                    TryFromProtoErrorView,
                >(final(d)@),
                Err(e) => entry_dispatch::<T>(2, t, echunks, old(d)@) == Err::<
                    StateDiffView<T>,
                    _,
                >(e@),
            }
        }),
{
    let fd = match read_fd::<SeqNo, PartialRollupKey>(t, c0, c1, c2) {
        Ok(x) => x,
        Err(e) => {
            proof {
                reveal(entry_dispatch);
            }
            return Err(e);
        },
    };
    let ghost fdv = fd@;
    d.rollups.push(fd);
    proof {
        reveal(entry_dispatch);
        assert(fd_views(d.rollups@) =~= old(d)@.rollups.push(fdv));
        assert(d@ == (StateDiffView { rollups: old(d)@.rollups.push(fdv), ..old(d)@ }));
    }
    Ok(())
}

#[verifier::rlimit(100)]
#[verifier::spinoff_prover]
fn apply_entry_leased_readers<T: Timestamp>(
    d: &mut StateDiff<T>,
    t: u64,
    c0: Vec<u8>,
    c1: Vec<u8>,
    c2: Option<Vec<u8>>,
) -> (r: Result<(), TryFromProtoError>)
    requires
        t == 1 ==> c2 is Some,
    ensures
        ({
            let echunks = match c2 {
                Some(cc2) => seq![c0@, c1@, cc2@],
                None => seq![c0@, c1@],
            };
            match r {
                Ok(_) => entry_dispatch::<T>(3, t, echunks, old(d)@) == Ok::<
                    _,
                    TryFromProtoErrorView,
                >(final(d)@),
                Err(e) => entry_dispatch::<T>(3, t, echunks, old(d)@) == Err::<
                    StateDiffView<T>,
                    _,
                >(e@),
            }
        }),
{
    let fd = match read_fd::<LeasedReaderId, LeasedReaderState<T>>(t, c0, c1, c2) {
        Ok(x) => x,
        Err(e) => {
            proof {
                reveal(entry_dispatch);
            }
            return Err(e);
        },
    };
    let ghost fdv = fd@;
    d.leased_readers.push(fd);
    proof {
        reveal(entry_dispatch);
        assert(fd_views(d.leased_readers@) =~= old(d)@.leased_readers.push(fdv));
        assert(d@ == (StateDiffView { leased_readers: old(d)@.leased_readers.push(fdv), ..old(d)@ }));
    }
    Ok(())
}

#[verifier::rlimit(100)]
#[verifier::spinoff_prover]
fn apply_entry_critical_readers<T: Timestamp>(
    d: &mut StateDiff<T>,
    t: u64,
    c0: Vec<u8>,
    c1: Vec<u8>,
    c2: Option<Vec<u8>>,
) -> (r: Result<(), TryFromProtoError>)
    requires
        t == 1 ==> c2 is Some,
    ensures
        ({
            let echunks = match c2 {
                Some(cc2) => seq![c0@, c1@, cc2@],
                None => seq![c0@, c1@],
            };
            match r {
                Ok(_) => entry_dispatch::<T>(4, t, echunks, old(d)@) == Ok::<
                    _,
                    TryFromProtoErrorView,
                >(final(d)@),
                Err(e) => entry_dispatch::<T>(4, t, echunks, old(d)@) == Err::<
                    StateDiffView<T>,
                    _,
                >(e@),
            }
        }),
{
    let fd = match read_fd::<CriticalReaderId, CriticalReaderState<T>>(t, c0, c1, c2) {
        Ok(x) => x,
        Err(e) => {
            proof {
                reveal(entry_dispatch);
            }
            return Err(e);
        },
    };
    let ghost fdv = fd@;
    d.critical_readers.push(fd);
    proof {
        reveal(entry_dispatch);
        assert(fd_views(d.critical_readers@) =~= old(d)@.critical_readers.push(fdv));
        assert(d@ == (StateDiffView { critical_readers: old(d)@.critical_readers.push(fdv), ..old(d)@ }));
    }
    Ok(())
}

#[verifier::rlimit(100)]
#[verifier::spinoff_prover]
fn apply_entry_writers<T: Timestamp>(
    d: &mut StateDiff<T>,
    t: u64,
    c0: Vec<u8>,
    c1: Vec<u8>,
    c2: Option<Vec<u8>>,
) -> (r: Result<(), TryFromProtoError>)
    requires
        t == 1 ==> c2 is Some,
    ensures
        ({
            let echunks = match c2 {
                Some(cc2) => seq![c0@, c1@, cc2@],
                None => seq![c0@, c1@],
            };
            match r {
                Ok(_) => entry_dispatch::<T>(5, t, echunks, old(d)@) == Ok::<
                    _,
                    TryFromProtoErrorView,
                >(final(d)@),
                Err(e) => entry_dispatch::<T>(5, t, echunks, old(d)@) == Err::<
                    StateDiffView<T>,
                    _,
                >(e@),
            }
        }),
{
    let fd = match read_fd::<WriterId, WriterState<T>>(t, c0, c1, c2) {
        Ok(x) => x,
        Err(e) => {
            proof {
                reveal(entry_dispatch);
            }
            return Err(e);
        },
    };
    let ghost fdv = fd@;
    d.writers.push(fd);
    proof {
        reveal(entry_dispatch);
        assert(fd_views(d.writers@) =~= old(d)@.writers.push(fdv));
        assert(d@ == (StateDiffView { writers: old(d)@.writers.push(fdv), ..old(d)@ }));
    }
    Ok(())
}

#[verifier::rlimit(100)]
#[verifier::spinoff_prover]
fn apply_entry_since<T: Timestamp>(
    d: &mut StateDiff<T>,
    t: u64,
    c0: Vec<u8>,
    c1: Vec<u8>,
    c2: Option<Vec<u8>>,
) -> (r: Result<(), TryFromProtoError>)
    requires
        t == 1 ==> c2 is Some,
    ensures
        ({
            let echunks = match c2 {
                Some(cc2) => seq![c0@, c1@, cc2@],
                None => seq![c0@, c1@],
            };
            match r {
                Ok(_) => entry_dispatch::<T>(6, t, echunks, old(d)@) == Ok::<
                    _,
                    TryFromProtoErrorView,
                >(final(d)@),
                Err(e) => entry_dispatch::<T>(6, t, echunks, old(d)@) == Err::<
                    StateDiffView<T>,
                    _,
                >(e@),
            }
        }),
{
    let fd = match read_fd::<(), Antichain<T>>(t, c0, c1, c2) {
        Ok(x) => x,
        Err(e) => {
            proof {
                reveal(entry_dispatch);
            }
            return Err(e);
        },
    };
    let ghost fdv = fd@;
    d.since.push(fd);
    proof {
        reveal(entry_dispatch);
        assert(fd_views(d.since@) =~= old(d)@.since.push(fdv));
        assert(d@ == (StateDiffView { since: old(d)@.since.push(fdv), ..old(d)@ }));
    }
    Ok(())
}

#[verifier::rlimit(100)]
#[verifier::spinoff_prover]
fn apply_entry_spine<T: Timestamp>(
    d: &mut StateDiff<T>,
    t: u64,
    c0: Vec<u8>,
    c1: Vec<u8>,
    c2: Option<Vec<u8>>,
) -> (r: Result<(), TryFromProtoError>)
    requires
        t == 1 ==> c2 is Some,
    ensures
        ({
            let echunks = match c2 {
                Some(cc2) => seq![c0@, c1@, cc2@],
                None => seq![c0@, c1@],
            };
            match r {
                Ok(_) => entry_dispatch::<T>(7, t, echunks, old(d)@) == Ok::<
                    _,
                    TryFromProtoErrorView,
                >(final(d)@),
                Err(e) => entry_dispatch::<T>(7, t, echunks, old(d)@) == Err::<
                    StateDiffView<T>,
                    _,
                >(e@),
            }
        }),
{
    let fd = match read_fd::<HollowBatch<T>, ()>(t, c0, c1, c2) {
        Ok(x) => x,
        Err(e) => {
            proof {
                reveal(entry_dispatch);
            }
            return Err(e);
        },
    };
    let ghost fdv = fd@;
    d.spine.push(fd);
    proof {
        reveal(entry_dispatch);
        assert(fd_views(d.spine@) =~= old(d)@.spine.push(fdv));
        assert(d@ == (StateDiffView { spine: old(d)@.spine.push(fdv), ..old(d)@ }));
    }
    Ok(())
}
/// Walks the parallel arrays front to back, dispatching each delta; both
/// tag arrays and the chunk stream must be consumed exactly.
pub open spec fn fd_arrays_parse<T: Timestamp>(
    fields: Seq<u64>,
    types: Seq<u64>,
    chunks: Seq<Seq<u8>>,
    acc: StateDiffView<T>,
) -> Result<StateDiffView<T>, TryFromProtoErrorView>
    decreases fields.len(),
{
    if fields.len() == 0 {
        if types.len() == 0 && chunks.len() == 0 {
            Ok(acc)
        } else {
            Err(TryFromProtoErrorView::InvalidPersistState("field_diffs"@))
        }
    } else if types.len() == 0 {
        Err(TryFromProtoErrorView::InvalidPersistState("diff_types"@))
    } else {
        let k = chunk_count(types[0]);
        if chunks.len() >= k {
            match entry_dispatch::<T>(fields[0], types[0], chunks.take(k), acc) {
                Err(e) => Err(e),
                Ok(acc2) => fd_arrays_parse::<T>(
                    fields.drop_first(),
                    types.drop_first(),
                    chunks.skip(k),
                    acc2,
                ),
            }
        } else {
            Err(TryFromProtoErrorView::InvalidPersistState("data_lens"@))
        }
    }
}

/// Splits the data stream into chunks of the recorded lengths; the stream
/// must be consumed exactly.
pub open spec fn chunks_of(lens: Seq<u64>, bytes: Seq<u8>) -> Option<Seq<Seq<u8>>>
    decreases lens.len(),
{
    if lens.len() == 0 {
        if bytes.len() == 0 {
            Some(Seq::empty())
        } else {
            None
        }
    } else if lens[0] <= bytes.len() {
        match chunks_of(lens.drop_first(), bytes.skip(lens[0] as int)) {
            None => None,
            Some(cs) => Some(seq![bytes.take(lens[0] as int)] + cs),
        }
    } else {
        None
    }
}

pub open spec fn vecs_view(s: Seq<Vec<u8>>) -> Seq<Seq<u8>> {
    Seq::new(s.len(), |i: int| s[i]@)
}

#[verifier::loop_isolation(false)]
fn split_chunks(lens: &Vec<u64>, bytes: &Vec<u8>) -> (r: Option<Vec<Vec<u8>>>)
    ensures
        match r {
            Some(cs) => chunks_of(lens@, bytes@) == Some(vecs_view(cs@)),
            None => chunks_of(lens@, bytes@) is None,
        },
{
    let mut acc: Vec<Vec<u8>> = Vec::new();
    let mut off: usize = 0;
    let mut i: usize = 0;
    proof {
        assert(lens@.skip(0) =~= lens@);
        assert(bytes@.skip(0) =~= bytes@);
        match chunks_of(lens@, bytes@) {
            Some(rest) => {
                assert(vecs_view(acc@) + rest =~= rest);
            },
            None => {},
        }
    }
    while i < lens.len()
        invariant
            i <= lens@.len(),
            off <= bytes@.len(),
            match chunks_of(lens@.skip(i as int), bytes@.skip(off as int)) {
                Some(rest) => chunks_of(lens@, bytes@) == Some(vecs_view(acc@) + rest),
                None => chunks_of(lens@, bytes@) is None,
            },
        decreases lens@.len() - i,
    {
        let l = lens[i];
        if l > (bytes.len() - off) as u64 {
            proof {
                assert(lens@.skip(i as int)[0] == l);
                assert(bytes@.skip(off as int).len() == bytes@.len() - off);
            }
            return None;
        }
        let l_us: usize = l as usize;
        let chunk = vstd::slice::slice_to_vec(
            vstd::slice::slice_subrange(bytes.as_slice(), off, off + l_us),
        );
        let ghost accpre = vecs_view(acc@);
        acc.push(chunk);
        proof {
            assert(lens@.skip(i as int)[0] == l);
            assert(lens@.skip(i as int).drop_first() =~= lens@.skip(i as int + 1));
            assert(bytes@.skip(off as int).take(l as int) =~= bytes@.subrange(
                off as int,
                off + l_us,
            ));
            assert(bytes@.skip(off as int).skip(l as int) =~= bytes@.skip(off + l_us));
            assert(vecs_view(acc@) =~= accpre.push(bytes@.subrange(off as int, off + l_us)));
            match chunks_of(lens@.skip(i as int + 1), bytes@.skip(off + l_us)) {
                Some(rest) => {
                    assert(accpre + (seq![bytes@.skip(off as int).take(l as int)] + rest)
                        =~= vecs_view(acc@) + rest);
                },
                None => {},
            }
        }
        off = off + l_us;
        i = i + 1;
    }
    if off != bytes.len() {
        proof {
            assert(bytes@.skip(off as int).len() != 0);
        }
        return None;
    }
    proof {
        assert(bytes@.skip(off as int).len() == 0);
        assert(lens@.skip(i as int).len() == 0);
        assert(vecs_view(acc@) + Seq::<Seq<u8>>::empty() =~= vecs_view(acc@));
    }
    Some(acc)
}

// ---------------------------------------------------------------------------
// The diff record's conversions.
// ---------------------------------------------------------------------------

/// True of every value of a delta.
pub open spec fn val_all<W>(v: ValDiffView<W>, p: spec_fn(W) -> bool) -> bool {
    match v {
        ValDiffView::Insert(to) => p(to),
        ValDiffView::Update(from, to) => p(from) && p(to),
        ValDiffView::Delete(from) => p(from),
    }
}

pub open spec fn diff_to_proto<T: Timestamp>(d: StateDiffView<T>) -> ProtoStateDiffView {
    ProtoStateDiffView {
        applier_version: version_chars(
            d.applier_version.major,
            d.applier_version.minor,
            d.applier_version.patch,
            d.applier_version.pre,
            d.applier_version.build,
        ),
        seqno_from: d.seqno_from.0,
        seqno_to: d.seqno_to.0,
        walltime_ms: d.walltime_ms,
        latest_rollup_key: d.latest_rollup_key,
        field_diffs: Some(flatten_entries(entries_of_diff(d))),
    }
}

pub open spec fn diff_from_proto<T: Timestamp>(p: ProtoStateDiffView) -> Result<
    StateDiffView<T>,
    TryFromProtoErrorView,
> {
    match version_from_chars(p.applier_version) {
        Err(e) => Err(e),
        Ok(av) => {
            let base = diff_base::<T>(
                av,
                SeqNo(p.seqno_from),
                SeqNo(p.seqno_to),
                p.walltime_ms,
                p.latest_rollup_key,
            );
            match p.field_diffs {
                None => Ok(base),
                Some(fd) => match chunks_of(fd.data_lens, fd.data_bytes) {
                    None => Err(TryFromProtoErrorView::InvalidPersistState("data_lens"@)),
                    Some(chunks) => fd_arrays_parse::<T>(fd.fields, fd.diff_types, chunks, base),
                },
            }
        },
    }
}

/// What the trusted formatters guarantee of every id and version a diff
/// encoder writes.
pub open spec fn diff_fmt_facts<T: Timestamp>(d: StateDiffView<T>) -> bool {
    &&& (d.applier_version.wf() ==> parsed_version(
        version_chars(
            d.applier_version.major,
            d.applier_version.minor,
            d.applier_version.patch,
            d.applier_version.pre,
            d.applier_version.build,
        ),
    ) == Some(d.applier_version))
    &&& forall|i: int|
        0 <= i < d.leased_readers.len() ==> fd_facts::<LeasedReaderId, LeasedReaderState<T>>(
            #[trigger] d.leased_readers[i],
        )
    &&& forall|i: int|
        0 <= i < d.critical_readers.len() ==> fd_facts::<CriticalReaderId, CriticalReaderState<T>>(
            #[trigger] d.critical_readers[i],
        )
    &&& forall|i: int|
        0 <= i < d.writers.len() ==> fd_facts::<WriterId, WriterState<T>>(
            #[trigger] d.writers[i],
        )
}

impl<T: Timestamp> StateDiff<T> {
    #[verifier::rlimit(100)]
    pub fn into_proto(&self) -> (r: ProtoStateDiff)
        ensures
            r.vv() == diff_to_proto(self@),
            diff_fmt_facts(self@),
    {
        let mut field_diffs = ProtoStateFieldDiffs::empty();
        let ghost e0 = entries_of_field::<(), String>(0, fd_views(self.hostname@));
        let ghost e1 = entries_of_field::<(), SeqNo>(1, fd_views(self.last_gc_req@));
        let ghost e2 = entries_of_field::<SeqNo, PartialRollupKey>(2, fd_views(self.rollups@));
        let ghost e3 = entries_of_field::<LeasedReaderId, LeasedReaderState<T>>(
            3,
            fd_views(self.leased_readers@),
        );
        let ghost e4 = entries_of_field::<CriticalReaderId, CriticalReaderState<T>>(
            4,
            fd_views(self.critical_readers@),
        );
        let ghost e5 = entries_of_field::<WriterId, WriterState<T>>(5, fd_views(self.writers@));
        let ghost e6 = entries_of_field::<(), Antichain<T>>(6, fd_views(self.since@));
        let ghost e7 = entries_of_field::<HollowBatch<T>, ()>(7, fd_views(self.spine@));
        field_diffs_into_proto::<(), String>(
            ProtoStateField::Hostname,
            &self.hostname,
            &mut field_diffs,
        );
        field_diffs_into_proto::<(), SeqNo>(
            ProtoStateField::LastGcReq,
            &self.last_gc_req,
            &mut field_diffs,
        );
        proof {
            lemma_push_entries_app(fd_empty(), e0, e1);
        }
        field_diffs_into_proto::<SeqNo, PartialRollupKey>(
            ProtoStateField::Rollups,
            &self.rollups,
            &mut field_diffs,
        );
        proof {
            lemma_push_entries_app(fd_empty(), e0 + e1, e2);
        }
        field_diffs_into_proto::<LeasedReaderId, LeasedReaderState<T>>(
            ProtoStateField::LeasedReaders,
            &self.leased_readers,
            &mut field_diffs,
        );
        proof {
            lemma_push_entries_app(fd_empty(), e0 + e1 + e2, e3);
        }
        field_diffs_into_proto::<CriticalReaderId, CriticalReaderState<T>>(
            ProtoStateField::CriticalReaders,
            &self.critical_readers,
            &mut field_diffs,
        );
        proof {
            lemma_push_entries_app(fd_empty(), e0 + e1 + e2 + e3, e4);
        }
        field_diffs_into_proto::<WriterId, WriterState<T>>(
            ProtoStateField::Writers,
            &self.writers,
            &mut field_diffs,
        );
        proof {
            lemma_push_entries_app(fd_empty(), e0 + e1 + e2 + e3 + e4, e5);
        }
        field_diffs_into_proto::<(), Antichain<T>>(
            ProtoStateField::Since,
            &self.since,
            &mut field_diffs,
        );
        proof {
            lemma_push_entries_app(fd_empty(), e0 + e1 + e2 + e3 + e4 + e5, e6);
        }
        field_diffs_into_proto::<HollowBatch<T>, ()>(
            ProtoStateField::Spine,
            &self.spine,
            &mut field_diffs,
        );
        proof {
            lemma_push_entries_app(fd_empty(), e0 + e1 + e2 + e3 + e4 + e5 + e6, e7);
            lemma_push_entries_combine(fd_empty(), entries_of_diff(self@));
            let q = flatten_entries(entries_of_diff(self@));
            assert(fd_combine(fd_empty(), q).fields =~= q.fields);
            assert(fd_combine(fd_empty(), q).diff_types =~= q.diff_types);
            assert(fd_combine(fd_empty(), q).data_lens =~= q.data_lens);
            assert(fd_combine(fd_empty(), q).data_bytes =~= q.data_bytes);
        }
        ProtoStateDiff {
            applier_version: self.applier_version.into_proto(),
            seqno_from: self.seqno_from.0,
            seqno_to: self.seqno_to.0,
            walltime_ms: self.walltime_ms,
            latest_rollup_key: self.latest_rollup_key.into_proto(),
            field_diffs: Some(field_diffs),
        }
    }

    #[verifier::loop_isolation(false)]
    #[verifier::rlimit(100)]
    pub fn from_proto(proto: ProtoStateDiff) -> (r: Result<StateDiff<T>, TryFromProtoError>)
        ensures
            match r {
                Ok(d) => diff_from_proto::<T>(proto.vv()) == Ok::<_, TryFromProtoErrorView>(d@),
                Err(e) => diff_from_proto::<T>(proto.vv()) == Err::<StateDiffView<T>, _>(e@),
            },
    {
        let ghost pvv = proto.vv();
        let applier_version = match crate::encoding::applier_version_from_proto(
            proto.applier_version,
        ) {
            Ok(v) => v,
            Err(e) => {
                return Err(e);
            },
        };
        let mut d = StateDiff::<T>::new(
            applier_version,
            SeqNo(proto.seqno_from),
            SeqNo(proto.seqno_to),
            proto.walltime_ms,
            PartialRollupKey(proto.latest_rollup_key),
        );
        let ghost base = d@;
        let fdp = match proto.field_diffs {
            None => {
                return Ok(d);
            },
            Some(x) => x,
        };
        proof {
            assert(version_from_chars(pvv.applier_version) == Ok::<
                VersionView,
                TryFromProtoErrorView,
            >(applier_version@));
            assert(pvv.field_diffs == Some(fdp.vv()));
            assert(fdp.vv().data_lens =~= fdp.data_lens@);
            assert(fdp.vv().data_bytes == fdp.data_bytes@);
            assert(fdp.vv().fields =~= fdp.fields@);
            assert(fdp.vv().diff_types =~= fdp.diff_types@);
            assert(base == diff_base::<T>(
                applier_version@,
                SeqNo(pvv.seqno_from),
                SeqNo(pvv.seqno_to),
                pvv.walltime_ms,
                pvv.latest_rollup_key,
            ));
        }
        let chunks = match split_chunks(&fdp.data_lens, &fdp.data_bytes) {
            Some(cs) => cs,
            None => {
                proof {
                    assert(chunks_of(fdp.vv().data_lens, fdp.vv().data_bytes) is None);
                    assert(diff_from_proto::<T>(pvv) == Err::<StateDiffView<T>, _>(
                        TryFromProtoErrorView::InvalidPersistState("data_lens"@),
                    ));
                }
                return Err(TryFromProtoError::InvalidPersistState("data_lens".to_owned()));
            },
        };
        proof {
            assert(chunks_of(fdp.vv().data_lens, fdp.vv().data_bytes) == Some(vecs_view(chunks@)));
            assert(diff_from_proto::<T>(pvv) == fd_arrays_parse::<T>(
                fdp.vv().fields,
                fdp.vv().diff_types,
                vecs_view(chunks@),
                base,
            ));
            assert(fd_arrays_parse::<T>(fdp.vv().fields, fdp.vv().diff_types, vecs_view(chunks@), base)
                == fd_arrays_parse::<T>(fdp.fields@, fdp.diff_types@, vecs_view(chunks@), base));
        }
        match apply_entries::<T>(&mut d, fdp.fields, fdp.diff_types, chunks) {
            Ok(_) => Ok(d),
            Err(e) => Err(e),
        }
    }
}

/// Walks the arrays, applying each delta to the diff under construction.
#[verifier::loop_isolation(false)]
#[verifier::rlimit(100)]
fn apply_entries<T: Timestamp>(
    d: &mut StateDiff<T>,
    fields: Vec<u64>,
    types: Vec<u64>,
    chunks: Vec<Vec<u8>>,
) -> (r: Result<(), TryFromProtoError>)
    ensures
        match r {
            Ok(_) => fd_arrays_parse::<T>(fields@, types@, vecs_view(chunks@), old(d)@) == Ok::<
                _,
                TryFromProtoErrorView,
            >(final(d)@),
            Err(e) => fd_arrays_parse::<T>(fields@, types@, vecs_view(chunks@), old(d)@) == Err::<
                StateDiffView<T>,
                _,
            >(e@),
        },
{
    let ghost allfields = fields@;
    let ghost alltypes = types@;
    let ghost allchunkvs = vecs_view(chunks@);
    let ghost base = d@;
    let mut fields = fields;
    let mut types = types;
    let mut chunks = chunks;
    while fields.len() > 0
        invariant
            fd_arrays_parse::<T>(fields@, types@, vecs_view(chunks@), d@) == fd_arrays_parse::<T>(
                allfields,
                alltypes,
                allchunkvs,
                base,
            ),
        decreases fields@.len(),
    {
        let ghost prefields = fields@;
        let ghost pretypes = types@;
        let ghost prechunks = vecs_view(chunks@);
        let ghost dpre = d@;
        let f = fields.remove(0);
        if types.len() == 0 {
            proof {
                assert(fd_arrays_parse::<T>(prefields, pretypes, prechunks, dpre) == Err::<
                    StateDiffView<T>,
                    _,
                >(TryFromProtoErrorView::InvalidPersistState("diff_types"@)));
            }
            return Err(TryFromProtoError::InvalidPersistState("diff_types".to_owned()));
        }
        let t = types.remove(0);
        let k: usize = if t == 1 {
            3
        } else {
            2
        };
        proof {
            assert(fields@ =~= prefields.drop_first());
            assert(types@ =~= pretypes.drop_first());
        }
        if chunks.len() < k {
            proof {
                assert(pretypes[0] == t);
                assert(chunk_count(t) == k);
                assert(prechunks.len() < k);
                assert(fd_arrays_parse::<T>(prefields, pretypes, prechunks, dpre) == Err::<
                    StateDiffView<T>,
                    _,
                >(TryFromProtoErrorView::InvalidPersistState("data_lens"@)));
            }
            return Err(TryFromProtoError::InvalidPersistState("data_lens".to_owned()));
        }
        let c0 = chunks.remove(0);
        let c1 = chunks.remove(0);
        let c2 = if t == 1 {
            Some(chunks.remove(0))
        } else {
            None
        };
        let ghost echunks = prechunks.take(k as int);
        proof {
            assert(vecs_view(chunks@) =~= prechunks.skip(k as int));
            match &c2 {
                Some(cc2) => {
                    assert(echunks =~= seq![c0@, c1@, cc2@]);
                },
                None => {
                    assert(echunks =~= seq![c0@, c1@]);
                },
            }
        }
            if f == 0 {
                match apply_entry_hostname::<T>(d, t, c0, c1, c2) {
                    Ok(_) => {},
                    Err(e) => {
                        proof {
                            assert(fd_arrays_parse::<T>(prefields, pretypes, prechunks, dpre)
                                == Err::<StateDiffView<T>, _>(e@));
                        }
                        return Err(e);
                    },
                }
            }
            else if f == 1 {
                match apply_entry_last_gc_req::<T>(d, t, c0, c1, c2) {
                    Ok(_) => {},
                    Err(e) => {
                        proof {
                            assert(fd_arrays_parse::<T>(prefields, pretypes, prechunks, dpre)
                                == Err::<StateDiffView<T>, _>(e@));
                        }
                        return Err(e);
                    },
                }
            }
            else if f == 2 {
                match apply_entry_rollups::<T>(d, t, c0, c1, c2) {
                    Ok(_) => {},
                    Err(e) => {
                        proof {
                            assert(fd_arrays_parse::<T>(prefields, pretypes, prechunks, dpre)
                                == Err::<StateDiffView<T>, _>(e@));
                        }
                        return Err(e);
                    },
                }
            }
            else if f == 3 {
                match apply_entry_leased_readers::<T>(d, t, c0, c1, c2) {
                    Ok(_) => {},
                    Err(e) => {
                        proof {
                            assert(fd_arrays_parse::<T>(prefields, pretypes, prechunks, dpre)
                                == Err::<StateDiffView<T>, _>(e@));
                        }
                        return Err(e);
                    },
                }
            }
            else if f == 4 {
                match apply_entry_critical_readers::<T>(d, t, c0, c1, c2) {
                    Ok(_) => {},
                    Err(e) => {
                        proof {
                            assert(fd_arrays_parse::<T>(prefields, pretypes, prechunks, dpre)
                                == Err::<StateDiffView<T>, _>(e@));
                        }
                        return Err(e);
                    },
                }
            }
            else if f == 5 {
                match apply_entry_writers::<T>(d, t, c0, c1, c2) {
                    Ok(_) => {},
                    Err(e) => {
                        proof {
                            assert(fd_arrays_parse::<T>(prefields, pretypes, prechunks, dpre)
                                == Err::<StateDiffView<T>, _>(e@));
                        }
                        return Err(e);
                    },
                }
            }
            else if f == 6 {
                match apply_entry_since::<T>(d, t, c0, c1, c2) {
                    Ok(_) => {},
                    Err(e) => {
                        proof {
                            assert(fd_arrays_parse::<T>(prefields, pretypes, prechunks, dpre)
                                == Err::<StateDiffView<T>, _>(e@));
                        }
                        return Err(e);
                    },
                }
            }
            else if f == 7 {
                match apply_entry_spine::<T>(d, t, c0, c1, c2) {
                    Ok(_) => {},
                    Err(e) => {
                        proof {
                            assert(fd_arrays_parse::<T>(prefields, pretypes, prechunks, dpre)
                                == Err::<StateDiffView<T>, _>(e@));
                        }
                        return Err(e);
                    },
                }
            }
            else {
            proof {
                reveal(entry_dispatch);
                assert(entry_dispatch::<T>(f, t, echunks, dpre) == Err::<StateDiffView<T>, _>(
                    TryFromProtoErrorView::InvalidPersistState("fields"@),
                ));
                assert(fd_arrays_parse::<T>(prefields, pretypes, prechunks, dpre) == Err::<
                    StateDiffView<T>,
                    _,
                >(TryFromProtoErrorView::InvalidPersistState("fields"@)));
            }
            return Err(TryFromProtoError::InvalidPersistState("fields".to_owned()));
        }
        proof {
            assert(fd_arrays_parse::<T>(prefields, pretypes, prechunks, dpre)
                == fd_arrays_parse::<T>(fields@, types@, vecs_view(chunks@), d@));
        }
    }
    if types.len() != 0 {
        proof {
            assert(fd_arrays_parse::<T>(fields@, types@, vecs_view(chunks@), d@) == Err::<
                StateDiffView<T>,
                _,
            >(TryFromProtoErrorView::InvalidPersistState("field_diffs"@)));
        }
        return Err(TryFromProtoError::InvalidPersistState("field_diffs".to_owned()));
    }
    if chunks.len() != 0 {
        proof {
            assert(vecs_view(chunks@).len() != 0);
            assert(fd_arrays_parse::<T>(fields@, types@, vecs_view(chunks@), d@) == Err::<
                StateDiffView<T>,
                _,
            >(TryFromProtoErrorView::InvalidPersistState("field_diffs"@)));
        }
        return Err(TryFromProtoError::InvalidPersistState("field_diffs".to_owned()));
    }
    proof {
        assert(vecs_view(chunks@).len() == 0);
        assert(fd_arrays_parse::<T>(fields@, types@, vecs_view(chunks@), d@) == Ok::<
            _,
            TryFromProtoErrorView,
        >(d@));
    }
    Ok(())

}

/// What decoding a diff record does, including the version gate.
#[verifier::opaque]
pub open spec fn diff_decode<T: Timestamp>(build: VersionView, bytes: Seq<u8>) -> Result<
    StateDiffView<T>,
    StateDecodeErrView,
> {
    match ProtoStateDiff::parse(bytes) {
        None => Err(StateDecodeErrView::Undecodable),
        Some(pv) => match diff_from_proto::<T>(pv) {
            Err(e) => Err(StateDecodeErrView::Invalid(e)),
            Ok(d) => if build.lt_spec(d.applier_version) {
                Err((StateDecodeErrView::FutureVersion { build, state: d.applier_version }))
            } else {
                Ok(d)
            },
        },
    }
}

impl<T: Timestamp> StateDiff<T> {
    /// Serializes this diff as one wire record appended to `buf`.
    pub fn encode(&self, buf: &mut Vec<u8>)
        ensures
            final(buf)@ == old(buf)@ + ProtoStateDiff::enc(diff_to_proto(self@)),
            diff_fmt_facts(self@),
    {
        let p = self.into_proto();
        p.write(buf);
    }

    /// Decodes a diff record, or refuses; a record stamped by a newer
    /// version is the fatal [`StateDecodeErr::FutureVersion`], which the
    /// caller must treat as an instruction to halt the process.
    pub fn decode(build_version: &Version, buf: &Vec<u8>) -> (r: Result<
        StateDiff<T>,
        StateDecodeErr,
    >)
        ensures
            match r {
                Ok(d) => diff_decode::<T>(build_version@, buf@) == Ok::<_, StateDecodeErrView>(d@),
                Err(e) => diff_decode::<T>(build_version@, buf@) == Err::<StateDiffView<T>, _>(
                    e@,
                ),
            },
    {
        proof {
            reveal(diff_decode);
        }
        let proto = match ProtoStateDiff::read(buf) {
            Some(x) => x,
            None => {
                return Err(StateDecodeErr::Undecodable);
            },
        };
        let diff = match Self::from_proto(proto) {
            Ok(d) => d,
            Err(e) => {
                return Err(StateDecodeErr::Invalid(e));
            },
        };
        if crate::encoding::check_applier_version(build_version, &diff.applier_version) {
            let state_version = diff.applier_version;
            return Err(
                StateDecodeErr::FutureVersion {
                    build: build_version.clone(),
                    state: state_version,
                },
            );
        }
        Ok(diff)
    }
}

// ---------------------------------------------------------------------------
// Applying diffs.
// ---------------------------------------------------------------------------

/// Why a diff could not be applied.
#[derive(Clone, Copy, Debug, PartialEq, Eq, Structural)]
pub enum ApplyDiffErr {
    /// The diff was cut against a different seqno than the state holds.
    /// Diffs are not idempotent: they apply exactly once, in order.
    SeqnoMismatch { expected: SeqNo, got: SeqNo },
    /// An insert's key is already present.
    KeyExists,
    /// An update or delete names an absent key.
    MissingKey,
    /// A delta kind that is meaningless for its field.
    InvalidDelta,
}




/// Applies the deltas of one scalar field in order; only updates are
/// meaningful, and the last one wins.
pub open spec fn apply_scalar<W>(cur: W, ds: Seq<FieldDiffView<(), W>>) -> Result<W, ApplyDiffErr>
    decreases ds.len(),
{
    if ds.len() == 0 {
        Ok(cur)
    } else {
        match ds[0].val {
            ValDiffView::Update(from, to) => apply_scalar(to, ds.drop_first()),
            _ => Err(ApplyDiffErr::InvalidDelta),
        }
    }
}

/// Applies the deltas of one id-keyed table in order.
pub open spec fn apply_idmap<W>(m: Seq<(Seq<u8>, W)>, ds: Seq<FieldDiffView<Seq<u8>, W>>) -> Result<
    Seq<(Seq<u8>, W)>,
    ApplyDiffErr,
>
    decreases ds.len(),
{
    if ds.len() == 0 {
        Ok(m)
    } else {
        match ds[0].val {
            ValDiffView::Insert(to) => if key_in(m, ds[0].key) {
                Err(ApplyDiffErr::KeyExists)
            } else {
                apply_idmap(m.push((ds[0].key, to)), ds.drop_first())
            },
            ValDiffView::Update(from, to) => {
                let ix = key_index(m, ds[0].key);
                if ix == -1 {
                    Err(ApplyDiffErr::MissingKey)
                } else {
                    apply_idmap(m.update(ix, (ds[0].key, to)), ds.drop_first())
                }
            },
            ValDiffView::Delete(from) => {
                let ix = key_index(m, ds[0].key);
                if ix == -1 {
                    Err(ApplyDiffErr::MissingKey)
                } else {
                    apply_idmap(m.remove(ix), ds.drop_first())
                }
            },
        }
    }
}




/// The position at which seqno `k` belongs in the ascending rollup map:

/// Applies the deltas of the rollup map in order, keeping it sorted.
pub open spec fn apply_rollups(m: Seq<(u64, Seq<char>)>, ds: Seq<FieldDiffView<SeqNo, Seq<char>>>)
    -> Result<Seq<(u64, Seq<char>)>, ApplyDiffErr>
    decreases ds.len(),
{
    if ds.len() == 0 {
        Ok(m)
    } else {
        let k = ds[0].key.0;
        match ds[0].val {
            ValDiffView::Insert(to) => if rollup_index(m, k) != -1 {
                Err(ApplyDiffErr::KeyExists)
            } else {
                apply_rollups(m.insert(rollup_pos(m, k), (k, to)), ds.drop_first())
            },
            ValDiffView::Update(from, to) => {
                let ix = rollup_index(m, k);
                if ix == -1 {
                    Err(ApplyDiffErr::MissingKey)
                } else {
                    apply_rollups(m.update(ix, (k, to)), ds.drop_first())
                }
            },
            ValDiffView::Delete(from) => {
                let ix = rollup_index(m, k);
                if ix == -1 {
                    Err(ApplyDiffErr::MissingKey)
                } else {
                    apply_rollups(m.remove(ix), ds.drop_first())
                }
            },
        }
    }
}

/// Structural equality of batch views.
pub open spec fn batch_eq<T>(a: HollowBatchView<T>, b: HollowBatchView<T>) -> bool {
    &&& a.desc.lower == b.desc.lower
    &&& a.desc.upper == b.desc.upper
    &&& a.desc.since == b.desc.since
    &&& a.parts.len() == b.parts.len()
    &&& (forall|i: int|
        0 <= i < a.parts.len() ==> (#[trigger] a.parts[i]).key == b.parts[i].key
            && a.parts[i].encoded_size_bytes == b.parts[i].encoded_size_bytes)
    &&& a.len == b.len
    &&& a.runs == b.runs
}

/// The first index of a spine batch structurally equal to `b`, or -1.
pub open spec fn batch_index<T>(sp: Seq<HollowBatchView<T>>, b: HollowBatchView<T>) -> int
    decreases sp.len(),
{
    if sp.len() == 0 {
        -1
    } else if batch_eq(sp[0], b) {
        0
    } else {
        let r = batch_index(sp.drop_first(), b);
        if r == -1 {
            -1
        } else {
            r + 1
        }
    }
}

pub proof fn lemma_batch_index_char<T>(sp: Seq<HollowBatchView<T>>, b: HollowBatchView<T>, ix: int)
    requires
        0 <= ix < sp.len(),
        batch_eq(sp[ix], b),
        forall|j: int| 0 <= j < ix ==> !batch_eq(#[trigger] sp[j], b),
    ensures
        batch_index(sp, b) == ix,
    decreases sp.len(),
{
    if ix > 0 {
        assert(!batch_eq(sp[0], b));
        assert(batch_eq(sp.drop_first()[ix - 1], b));
        assert forall|j: int| 0 <= j < ix - 1 implies !batch_eq(
            #[trigger] sp.drop_first()[j],
            b,
        ) by {
            assert(!batch_eq(sp[j + 1], b));
        }
        lemma_batch_index_char(sp.drop_first(), b, ix - 1);
    }
}

pub proof fn lemma_batch_index_none<T>(sp: Seq<HollowBatchView<T>>, b: HollowBatchView<T>)
    requires
        forall|j: int| 0 <= j < sp.len() ==> !batch_eq(#[trigger] sp[j], b),
    ensures
        batch_index(sp, b) == -1,
    decreases sp.len(),
{
    if sp.len() > 0 {
        assert forall|j: int| 0 <= j < sp.drop_first().len() implies !batch_eq(
            #[trigger] sp.drop_first()[j],
            b,
        ) by {
            assert(!batch_eq(sp[j + 1], b));
        }
        lemma_batch_index_none(sp.drop_first(), b);
    }
}

/// Applies the spine deltas in order: inserts append, deletes remove the
/// structurally equal batch.
pub open spec fn apply_spine<T>(
    sp: Seq<HollowBatchView<T>>,
    ds: Seq<FieldDiffView<HollowBatchView<T>, ()>>,
) -> Result<Seq<HollowBatchView<T>>, ApplyDiffErr>
    decreases ds.len(),
{
    if ds.len() == 0 {
        Ok(sp)
    } else {
        match ds[0].val {
            ValDiffView::Insert(to) => apply_spine(sp.push(ds[0].key), ds.drop_first()),
            ValDiffView::Update(from, to) => Err(ApplyDiffErr::InvalidDelta),
            ValDiffView::Delete(from) => {
                let ix = batch_index(sp, ds[0].key);
                if ix == -1 {
                    Err(ApplyDiffErr::MissingKey)
                } else {
                    apply_spine(sp.remove(ix), ds.drop_first())
                }
            },
        }
    }
}

/// What applying a diff does: fails unless the diff was cut against
/// exactly the state's seqno, else advances the seqno and walltime and
/// applies every field's deltas in order.
#[verifier::opaque]
pub open spec fn apply_diff_spec<T: Timestamp>(s: StateView<T>, d: StateDiffView<T>) -> Result<
    StateView<T>,
    ApplyDiffErr,
> {
    if d.seqno_from != s.seqno {
        Err((ApplyDiffErr::SeqnoMismatch { expected: s.seqno, got: d.seqno_from }))
    } else {
        match apply_scalar(s.hostname, d.hostname) {
            Err(e) => Err(e),
            Ok(hostname) => match apply_scalar(s.collections.last_gc_req, d.last_gc_req) {
                Err(e) => Err(e),
                Ok(last_gc_req) => match apply_rollups(s.collections.rollups, d.rollups) {
                    Err(e) => Err(e),
                    Ok(rollups) => match apply_idmap(
                        s.collections.leased_readers,
                        d.leased_readers,
                    ) {
                        Err(e) => Err(e),
                        Ok(leased_readers) => match apply_idmap(
                            s.collections.critical_readers,
                            d.critical_readers,
                        ) {
                            Err(e) => Err(e),
                            Ok(critical_readers) => match apply_idmap(
                                s.collections.writers,
                                d.writers,
                            ) {
                                Err(e) => Err(e),
                                Ok(writers) => match apply_scalar(
                                    s.collections.trace.since,
                                    d.since,
                                ) {
                                    Err(e) => Err(e),
                                    Ok(since) => match apply_spine(
                                        s.collections.trace.spine,
                                        d.spine,
                                    ) {
                                        Err(e) => Err(e),
                                        Ok(spine) => Ok(
                                            (StateView {
                                                applier_version: s.applier_version,
                                                shard_id: s.shard_id,
                                                seqno: d.seqno_to,
                                                walltime_ms: d.walltime_ms,
                                                hostname,
                                                collections: (StateCollectionsView {
                                                    rollups,
                                                    last_gc_req,
                                                    leased_readers,
                                                    critical_readers,
                                                    writers,
                                                    trace: (TraceView { since, spine }),
                                                }),
                                            }),
                                        ),
                                    },
                                },
                            },
                        },
                    },
                },
            },
        }
    }
}

/// Applying a diff advances the state's seqno to `seqno_to`, so applying
/// the same diff again fails with a seqno mismatch: diffs are not
/// idempotent, by design.
pub proof fn lemma_apply_diff_not_idempotent<T: Timestamp>(
    s: StateView<T>,
    d: StateDiffView<T>,
    s2: StateView<T>,
)
    requires
        apply_diff_spec(s, d) == Ok::<StateView<T>, ApplyDiffErr>(s2),
        d.seqno_from != d.seqno_to,
    ensures
        apply_diff_spec(s2, d) == Err::<StateView<T>, _>(
            (ApplyDiffErr::SeqnoMismatch { expected: d.seqno_to, got: d.seqno_from }),
        ),
{
    reveal(apply_diff_spec);
}

/// Compares two antichains' element lists.
fn ac_elems_eq<T: Timestamp>(a: &Antichain<T>, b: &Antichain<T>) -> (r: bool)
    ensures
        r == (a@ == b@),
{
    let ae = a.elements();
    let be = b.elements();
    if ae.len() != be.len() {
        return false;
    }
    let mut i: usize = 0;
    while i < ae.len()
        invariant
            i <= ae@.len(),
            ae@.len() == be@.len(),
            ae@ == a@ && be@ == b@,
            forall|j: int| 0 <= j < i ==> a@[j] == b@[j],
        decreases ae@.len() - i,
    {
        if !crate::antichain::ts_eq(&ae[i], &be[i]) {
            return false;
        }
        i = i + 1;
    }
    proof {
        assert(a@ =~= b@);
    }
    true
}

/// Compares two batches structurally.
fn batch_equal<T: Timestamp>(a: &HollowBatch<T>, b: &HollowBatch<T>) -> (r: bool)
    ensures
        r == batch_eq(a@, b@),
{
    if !ac_elems_eq(a.desc.lower(), b.desc.lower()) {
        return false;
    }
    if !ac_elems_eq(a.desc.upper(), b.desc.upper()) {
        return false;
    }
    if !ac_elems_eq(a.desc.since(), b.desc.since()) {
        return false;
    }
    if a.len != b.len {
        return false;
    }
    if a.parts.len() != b.parts.len() {
        return false;
    }
    let mut i: usize = 0;
    while i < a.parts.len()
        invariant
            i <= a.parts@.len(),
            a.parts@.len() == b.parts@.len(),
            forall|j: int|
                0 <= j < i ==> (#[trigger] a@.parts[j]).key == b@.parts[j].key
                    && a@.parts[j].encoded_size_bytes == b@.parts[j].encoded_size_bytes,
        decreases a.parts@.len() - i,
    {
        if !(a.parts[i].key.0 == b.parts[i].key.0) {
            proof {
                assert(a@.parts[i as int].key != b@.parts[i as int].key);
            }
            return false;
        }
        if a.parts[i].encoded_size_bytes != b.parts[i].encoded_size_bytes {
            proof {
                assert(a@.parts[i as int].encoded_size_bytes != b@.parts[
                    i as int
                ].encoded_size_bytes);
            }
            return false;
        }
        i = i + 1;
    }
    if a.runs.len() != b.runs.len() {
        return false;
    }
    let mut j: usize = 0;
    while j < a.runs.len()
        invariant
            j <= a.runs@.len(),
            a.runs@.len() == b.runs@.len(),
            forall|x: int| 0 <= x < j ==> a.runs@[x] == b.runs@[x],
        decreases a.runs@.len() - j,
    {
        if a.runs[j] != b.runs[j] {
            proof {
                assert(a@.runs[j as int] != b@.runs[j as int]);
            }
            return false;
        }
        j = j + 1;
    }
    proof {
        assert(a@.runs =~= b@.runs);
    }
    true
}

#[verifier::loop_isolation(false)]
fn apply_hostname(cur: String, ds: &Vec<StateFieldDiff<(), String>>) -> (r: Result<
    String,
    ApplyDiffErr,
>)
    ensures
        match r {
            Ok(h) => apply_scalar(cur@, fd_views(ds@)) == Ok::<Seq<char>, ApplyDiffErr>(h@),
            Err(e) => apply_scalar(cur@, fd_views(ds@)) == Err::<Seq<char>, _>(e),
        },
{
    let mut h = cur;
    let mut i: usize = 0;
    proof {
        assert(fd_views(ds@).skip(0) =~= fd_views(ds@));
    }
    while i < ds.len()
        invariant
            i <= ds@.len(),
            apply_scalar(h@, fd_views(ds@).skip(i as int)) == apply_scalar(cur@, fd_views(ds@)),
        decreases ds@.len() - i,
    {
        proof {
            assert(fd_views(ds@).skip(i as int)[0] == ds@[i as int]@);
            assert(fd_views(ds@).skip(i as int).drop_first() =~= fd_views(ds@).skip(i as int + 1));
        }
        match &ds[i].val {
            StateFieldValDiff::Update(_, to) => {
                h = to.clone();
            },
            _ => {
                return Err(ApplyDiffErr::InvalidDelta);
            },
        }
        i = i + 1;
    }
    Ok(h)
}

#[verifier::loop_isolation(false)]
fn apply_last_gc_req(cur: SeqNo, ds: &Vec<StateFieldDiff<(), SeqNo>>) -> (r: Result<
    SeqNo,
    ApplyDiffErr,
>)
    ensures
        match r {
            Ok(v) => apply_scalar(cur, fd_views(ds@)) == Ok::<SeqNo, ApplyDiffErr>(v),
            Err(e) => apply_scalar(cur, fd_views(ds@)) == Err::<SeqNo, _>(e),
        },
{
    let mut v = cur;
    let mut i: usize = 0;
    proof {
        assert(fd_views(ds@).skip(0) =~= fd_views(ds@));
    }
    while i < ds.len()
        invariant
            i <= ds@.len(),
            apply_scalar(v, fd_views(ds@).skip(i as int)) == apply_scalar(cur, fd_views(ds@)),
        decreases ds@.len() - i,
    {
        proof {
            assert(fd_views(ds@).skip(i as int)[0] == ds@[i as int]@);
            assert(fd_views(ds@).skip(i as int).drop_first() =~= fd_views(ds@).skip(i as int + 1));
        }
        match &ds[i].val {
            StateFieldValDiff::Update(_, to) => {
                v = *to;
            },
            _ => {
                return Err(ApplyDiffErr::InvalidDelta);
            },
        }
        i = i + 1;
    }
    Ok(v)
}

#[verifier::loop_isolation(false)]
fn apply_since<T: Timestamp>(cur: Antichain<T>, ds: &Vec<StateFieldDiff<(), Antichain<T>>>) -> (r:
    Result<Antichain<T>, ApplyDiffErr>)
    ensures
        match r {
            Ok(a) => apply_scalar(cur@, fd_views(ds@)) == Ok::<Seq<T>, ApplyDiffErr>(a@),
            Err(e) => apply_scalar(cur@, fd_views(ds@)) == Err::<Seq<T>, _>(e),
        },
{
    let mut a = cur;
    let mut i: usize = 0;
    proof {
        assert(fd_views(ds@).skip(0) =~= fd_views(ds@));
    }
    while i < ds.len()
        invariant
            i <= ds@.len(),
            apply_scalar(a@, fd_views(ds@).skip(i as int)) == apply_scalar(cur@, fd_views(ds@)),
        decreases ds@.len() - i,
    {
        proof {
            assert(fd_views(ds@).skip(i as int)[0] == ds@[i as int]@);
            assert(fd_views(ds@).skip(i as int).drop_first() =~= fd_views(ds@).skip(i as int + 1));
        }
        match &ds[i].val {
            StateFieldValDiff::Update(_, to) => {
                a = to.clone();
            },
            _ => {
                return Err(ApplyDiffErr::InvalidDelta);
            },
        }
        i = i + 1;
    }
    Ok(a)
}

#[verifier::loop_isolation(false)]
fn apply_rollups_exec(m: RollupMap, ds: &Vec<StateFieldDiff<SeqNo, PartialRollupKey>>) -> (r:
    Result<RollupMap, ApplyDiffErr>)
    ensures
        match r {
            Ok(m2) => apply_rollups(m@, fd_views(ds@)) == Ok::<_, ApplyDiffErr>(m2@),
            Err(e) => apply_rollups(m@, fd_views(ds@)) == Err::<Seq<(u64, Seq<char>)>, _>(e),
        },
{
    let mut cur = m;
    let mut i: usize = 0;
    proof {
        assert(fd_views(ds@).skip(0) =~= fd_views(ds@));
    }
    while i < ds.len()
        invariant
            i <= ds@.len(),
            apply_rollups(cur@, fd_views(ds@).skip(i as int)) == apply_rollups(
                m@,
                fd_views(ds@),
            ),
        decreases ds@.len() - i,
    {
        proof {
            assert(fd_views(ds@).skip(i as int)[0] == ds@[i as int]@);
            assert(fd_views(ds@).skip(i as int).drop_first() =~= fd_views(ds@).skip(i as int + 1));
        }
        let k = ds[i].key;
        match &ds[i].val {
            StateFieldValDiff::Insert(to) => {
                match cur.find(k.0) {
                    Some(_) => {
                        return Err(ApplyDiffErr::KeyExists);
                    },
                    None => {
                        cur.insert_sorted(k, to.clone());
                    },
                }
            },
            StateFieldValDiff::Update(_, to) => {
                match cur.find(k.0) {
                    Some(ix) => {
                        cur.update_at(ix, k, to.clone());
                    },
                    None => {
                        return Err(ApplyDiffErr::MissingKey);
                    },
                }
            },
            StateFieldValDiff::Delete(_) => {
                match cur.find(k.0) {
                    Some(ix) => {
                        cur.remove_at(ix);
                    },
                    None => {
                        return Err(ApplyDiffErr::MissingKey);
                    },
                }
            },
        }
        i = i + 1;
    }
    Ok(cur)
}

#[verifier::loop_isolation(false)]
fn apply_spine_exec<T: Timestamp>(tr: Trace<T>, ds: &Vec<StateFieldDiff<HollowBatch<T>, ()>>) -> (
    r: Result<Trace<T>, ApplyDiffErr>)
    ensures
        match r {
            Ok(t2) => t2@.since == tr@.since && apply_spine(tr@.spine, fd_views(ds@)) == Ok::<
                _,
                ApplyDiffErr,
            >(t2@.spine),
            Err(e) => apply_spine(tr@.spine, fd_views(ds@)) == Err::<Seq<HollowBatchView<T>>, _>(
                e,
            ),
        },
{
    let mut cur = tr;
    let mut i: usize = 0;
    proof {
        assert(fd_views(ds@).skip(0) =~= fd_views(ds@));
    }
    while i < ds.len()
        invariant
            i <= ds@.len(),
            cur@.since == tr@.since,
            apply_spine(cur@.spine, fd_views(ds@).skip(i as int)) == apply_spine(
                tr@.spine,
                fd_views(ds@),
            ),
        decreases ds@.len() - i,
    {
        proof {
            assert(fd_views(ds@).skip(i as int)[0] == ds@[i as int]@);
            assert(fd_views(ds@).skip(i as int).drop_first() =~= fd_views(ds@).skip(i as int + 1));
        }
        match &ds[i].val {
            StateFieldValDiff::Insert(_) => {
                cur.push_batch(ds[i].key.clone());
            },
            StateFieldValDiff::Update(_, _) => {
                return Err(ApplyDiffErr::InvalidDelta);
            },
            StateFieldValDiff::Delete(_) => {
                let batches = cur.batches();
                let mut ix: usize = 0;
                let mut found: bool = false;
                while ix < batches.len() && !found
                    invariant
                        ix <= batches@.len(),
                        batches@.len() == cur@.spine.len(),
                        forall|j: int| 0 <= j < batches@.len() ==> (#[trigger] batches@[j])@
                            == cur@.spine[j],
                        found ==> ix < batches@.len() && batch_eq(
                            cur@.spine[ix as int],
                            ds@[i as int]@.key,
                        ),
                        forall|j: int|
                            0 <= j < ix ==> !batch_eq(#[trigger] cur@.spine[j], ds@[i as int]@.key),
                    decreases batches@.len() - ix + (if found {
                        0int
                    } else {
                        1int
                    }),
                {
                    if batch_equal(&batches[ix], &ds[i].key) {
                        found = true;
                    } else {
                        ix = ix + 1;
                    }
                }
                if !found {
                    proof {
                        lemma_batch_index_none(cur@.spine, ds@[i as int]@.key);
                    }
                    return Err(ApplyDiffErr::MissingKey);
                }
                proof {
                    lemma_batch_index_char(cur@.spine, ds@[i as int]@.key, ix as int);
                }
                cur.remove_batch_at(ix);
            },
        }
        i = i + 1;
    }
    Ok(cur)
}


#[verifier::loop_isolation(false)]
fn apply_idmap_lrs<T: Timestamp>(m: IdMap<LeasedReaderState<T>>, ds: &Vec<StateFieldDiff<LeasedReaderId, LeasedReaderState<T>>>) -> (r:
    Result<IdMap<LeasedReaderState<T>>, ApplyDiffErr>)
    ensures
        match r {
            Ok(m2) => apply_idmap(m@, fd_views(ds@)) == Ok::<_, ApplyDiffErr>(m2@),
            Err(e) => apply_idmap(m@, fd_views(ds@)) == Err::<Seq<(Seq<u8>, LeasedReaderStateView<T>)>, _>(e),
        },
{
    let mut cur = m;
    let mut i: usize = 0;
    proof {
        assert(fd_views(ds@).skip(0) =~= fd_views(ds@));
    }
    while i < ds.len()
        invariant
            i <= ds@.len(),
            apply_idmap(cur@, fd_views(ds@).skip(i as int)) == apply_idmap(m@, fd_views(ds@)),
        decreases ds@.len() - i,
    {
        proof {
            assert(fd_views(ds@).skip(i as int)[0] == ds@[i as int]@);
            assert(fd_views(ds@).skip(i as int).drop_first() =~= fd_views(ds@).skip(i as int + 1));
        }
        let k = ds[i].key.0;
        match &ds[i].val {
            StateFieldValDiff::Insert(to) => {
                if cur.contains(&k) {
                    return Err(ApplyDiffErr::KeyExists);
                }
                cur.insert_new(k, to.clone());
            },
            StateFieldValDiff::Update(_, to) => {
                match cur.find(&k) {
                    Some(ix) => {
                        cur.update_at(ix, k, to.clone());
                    },
                    None => {
                        return Err(ApplyDiffErr::MissingKey);
                    },
                }
            },
            StateFieldValDiff::Delete(_) => {
                match cur.find(&k) {
                    Some(ix) => {
                        cur.remove_at(ix);
                    },
                    None => {
                        return Err(ApplyDiffErr::MissingKey);
                    },
                }
            },
        }
        i = i + 1;
    }
    Ok(cur)
}

#[verifier::loop_isolation(false)]
fn apply_idmap_crs<T: Timestamp>(m: IdMap<CriticalReaderState<T>>, ds: &Vec<StateFieldDiff<CriticalReaderId, CriticalReaderState<T>>>) -> (r:
    Result<IdMap<CriticalReaderState<T>>, ApplyDiffErr>)
    ensures
        match r {
            Ok(m2) => apply_idmap(m@, fd_views(ds@)) == Ok::<_, ApplyDiffErr>(m2@),
            Err(e) => apply_idmap(m@, fd_views(ds@)) == Err::<Seq<(Seq<u8>, CriticalReaderStateView<T>)>, _>(e),
        },
{
    let mut cur = m;
    let mut i: usize = 0;
    proof {
        assert(fd_views(ds@).skip(0) =~= fd_views(ds@));
    }
    while i < ds.len()
        invariant
            i <= ds@.len(),
            apply_idmap(cur@, fd_views(ds@).skip(i as int)) == apply_idmap(m@, fd_views(ds@)),
        decreases ds@.len() - i,
    {
        proof {
            assert(fd_views(ds@).skip(i as int)[0] == ds@[i as int]@);
            assert(fd_views(ds@).skip(i as int).drop_first() =~= fd_views(ds@).skip(i as int + 1));
        }
        let k = ds[i].key.0;
        match &ds[i].val {
            StateFieldValDiff::Insert(to) => {
                if cur.contains(&k) {
                    return Err(ApplyDiffErr::KeyExists);
                }
                cur.insert_new(k, to.clone());
            },
            StateFieldValDiff::Update(_, to) => {
                match cur.find(&k) {
                    Some(ix) => {
                        cur.update_at(ix, k, to.clone());
                    },
                    None => {
                        return Err(ApplyDiffErr::MissingKey);
                    },
                }
            },
            StateFieldValDiff::Delete(_) => {
                match cur.find(&k) {
                    Some(ix) => {
                        cur.remove_at(ix);
                    },
                    None => {
                        return Err(ApplyDiffErr::MissingKey);
                    },
                }
            },
        }
        i = i + 1;
    }
    Ok(cur)
}

#[verifier::loop_isolation(false)]
fn apply_idmap_ws<T: Timestamp>(m: IdMap<WriterState<T>>, ds: &Vec<StateFieldDiff<WriterId, WriterState<T>>>) -> (r:
    Result<IdMap<WriterState<T>>, ApplyDiffErr>)
    ensures
        match r {
            Ok(m2) => apply_idmap(m@, fd_views(ds@)) == Ok::<_, ApplyDiffErr>(m2@),
            Err(e) => apply_idmap(m@, fd_views(ds@)) == Err::<Seq<(Seq<u8>, WriterStateView<T>)>, _>(e),
        },
{
    let mut cur = m;
    let mut i: usize = 0;
    proof {
        assert(fd_views(ds@).skip(0) =~= fd_views(ds@));
    }
    while i < ds.len()
        invariant
            i <= ds@.len(),
            apply_idmap(cur@, fd_views(ds@).skip(i as int)) == apply_idmap(m@, fd_views(ds@)),
        decreases ds@.len() - i,
    {
        proof {
            assert(fd_views(ds@).skip(i as int)[0] == ds@[i as int]@);
            assert(fd_views(ds@).skip(i as int).drop_first() =~= fd_views(ds@).skip(i as int + 1));
        }
        let k = ds[i].key.0;
        match &ds[i].val {
            StateFieldValDiff::Insert(to) => {
                if cur.contains(&k) {
                    return Err(ApplyDiffErr::KeyExists);
                }
                cur.insert_new(k, to.clone());
            },
            StateFieldValDiff::Update(_, to) => {
                match cur.find(&k) {
                    Some(ix) => {
                        cur.update_at(ix, k, to.clone());
                    },
                    None => {
                        return Err(ApplyDiffErr::MissingKey);
                    },
                }
            },
            StateFieldValDiff::Delete(_) => {
                match cur.find(&k) {
                    Some(ix) => {
                        cur.remove_at(ix);
                    },
                    None => {
                        return Err(ApplyDiffErr::MissingKey);
                    },
                }
            },
        }
        i = i + 1;
    }
    Ok(cur)
}

impl<T: Timestamp> State<T> {
    /// Applies one diff. The diff must have been cut against exactly this
    /// state's seqno; on any error the state is consumed and the caller
    /// must re-read from consensus.
    pub fn apply_diff(self, diff: &StateDiff<T>) -> (r: Result<State<T>, ApplyDiffErr>)
        ensures
            match r {
                Ok(s2) => apply_diff_spec(self@, diff@) == Ok::<StateView<T>, ApplyDiffErr>(s2@),
                Err(e) => apply_diff_spec(self@, diff@) == Err::<StateView<T>, _>(e),
            },
    {
        proof {
            reveal(apply_diff_spec);
        }
        if diff.seqno_from.0 != self.seqno.0 {
            return Err(
                ApplyDiffErr::SeqnoMismatch { expected: self.seqno, got: diff.seqno_from },
            );
        }
        let State { applier_version, shard_id, seqno, walltime_ms, hostname, collections } = self;
        let StateCollections {
            rollups,
            last_gc_req,
            leased_readers,
            critical_readers,
            writers,
            trace,
        } = collections;
        let hostname = match apply_hostname(hostname, &diff.hostname) {
            Ok(x) => x,
            Err(e) => {
                return Err(e);
            },
        };
        let last_gc_req = match apply_last_gc_req(last_gc_req, &diff.last_gc_req) {
            Ok(x) => x,
            Err(e) => {
                return Err(e);
            },
        };
        let rollups = match apply_rollups_exec(rollups, &diff.rollups) {
            Ok(x) => x,
            Err(e) => {
                return Err(e);
            },
        };
        let leased_readers = match apply_idmap_lrs(leased_readers, &diff.leased_readers) {
            Ok(x) => x,
            Err(e) => {
                return Err(e);
            },
        };
        let critical_readers = match apply_idmap_crs(critical_readers, &diff.critical_readers) {
            Ok(x) => x,
            Err(e) => {
                return Err(e);
            },
        };
        let writers = match apply_idmap_ws(writers, &diff.writers) {
            Ok(x) => x,
            Err(e) => {
                return Err(e);
            },
        };
        let since = match apply_since(trace.since().clone(), &diff.since) {
            Ok(x) => x,
            Err(e) => {
                return Err(e);
            },
        };
        let mut trace = match apply_spine_exec(trace, &diff.spine) {
            Ok(x) => x,
            Err(e) => {
                return Err(e);
            },
        };
        trace.downgrade_since(&since);
        Ok(
            State {
                applier_version,
                shard_id,
                seqno: diff.seqno_to,
                walltime_ms: diff.walltime_ms,
                hostname,
                collections: StateCollections {
                    rollups,
                    last_gc_req,
                    leased_readers,
                    critical_readers,
                    writers,
                    trace,
                },
            },
        )
    }
}

/// Why a batch of encoded diffs could not be applied.
#[derive(Debug, PartialEq, Eq)]
pub enum ApplyDiffsErr {
    /// One record failed to decode (or came from the future; see
    /// [`StateDecodeErr::FutureVersion`]).
    Decode(StateDecodeErr),
    /// One decoded diff did not apply.
    Apply(ApplyDiffErr),
}

pub enum ApplyDiffsErrView {
    Decode(StateDecodeErrView),
    Apply(ApplyDiffErr),
}

impl View for ApplyDiffsErr {
    type V = ApplyDiffsErrView;

    open spec fn view(&self) -> ApplyDiffsErrView {
        match self {
            ApplyDiffsErr::Decode(e) => ApplyDiffsErrView::Decode(e@),
            ApplyDiffsErr::Apply(e) => ApplyDiffsErrView::Apply(*e),
        }
    }
}

/// What applying a sequence of encoded diffs does: decode each record
/// (gating on the build version), then apply it, in order.
pub open spec fn apply_encoded_diffs_spec<T: Timestamp>(
    s: StateView<T>,
    build: VersionView,
    datas: Seq<Seq<u8>>,
) -> Result<StateView<T>, ApplyDiffsErrView>
    decreases datas.len(),
{
    if datas.len() == 0 {
        Ok(s)
    } else {
        match diff_decode::<T>(build, datas[0]) {
            Err(e) => Err(ApplyDiffsErrView::Decode(e)),
            Ok(d) => match apply_diff_spec(s, d) {
                Err(e) => Err(ApplyDiffsErrView::Apply(e)),
                Ok(s2) => apply_encoded_diffs_spec::<T>(s2, build, datas.drop_first()),
            },
        }
    }
}

/// The data payloads of a batch of consensus records.
pub open spec fn vd_datas(s: Seq<crate::VersionedData>) -> Seq<Seq<u8>> {
    Seq::new(s.len(), |i: int| s[i].data@)
}

impl<T: Timestamp> crate::encoding::UntypedState<T> {
    /// Applies encoded diffs in order. A silent no-op if the stored
    /// timestamp codec is not `T`'s: diffs from an alien shard must not
    /// corrupt an unvalidated in-memory state. On an error the state must
    /// be discarded and re-read.
    #[verifier::loop_isolation(false)]
    pub fn apply_encoded_diffs(&mut self, cfg: &crate::PersistConfig, diffs: &Vec<
        crate::VersionedData,
    >) -> (r: Result<(), ApplyDiffsErr>)
        ensures
            old(self)@.ts_codec != T::codec_name_spec() ==> r is Ok && final(self)@ == old(
                self,
            )@,
            old(self)@.ts_codec == T::codec_name_spec() ==> match r {
                Ok(_) => apply_encoded_diffs_spec::<T>(
                    old(self)@.state,
                    cfg.build_version@,
                    vd_datas(diffs@),
                ) == Ok::<StateView<T>, ApplyDiffsErrView>(final(self)@.state) && final(self)@.key_codec
                    == old(self)@.key_codec && final(self)@.val_codec == old(self)@.val_codec
                    && final(self)@.ts_codec == old(self)@.ts_codec && final(self)@.diff_codec
                    == old(self)@.diff_codec,
                Err(e) => apply_encoded_diffs_spec::<T>(
                    old(self)@.state,
                    cfg.build_version@,
                    vd_datas(diffs@),
                ) == Err::<StateView<T>, _>(e@),
            },
    {
        let tname = T::codec_name();
        if !(tname == *self.ts_codec_ref()) {
            return Ok(());
        }
        let mut i: usize = 0;
        proof {
            assert(vd_datas(diffs@).skip(0) =~= vd_datas(diffs@));
        }
        while i < diffs.len()
            invariant
                i <= diffs@.len(),
                self@.key_codec == old(self)@.key_codec,
                self@.val_codec == old(self)@.val_codec,
                self@.ts_codec == old(self)@.ts_codec,
                self@.diff_codec == old(self)@.diff_codec,
                apply_encoded_diffs_spec::<T>(
                    self@.state,
                    cfg.build_version@,
                    vd_datas(diffs@).skip(i as int),
                ) == apply_encoded_diffs_spec::<T>(
                    old(self)@.state,
                    cfg.build_version@,
                    vd_datas(diffs@),
                ),
            decreases diffs@.len() - i,
        {
            proof {
                assert(vd_datas(diffs@).skip(i as int)[0] == diffs@[i as int].data@);
                assert(vd_datas(diffs@).skip(i as int).drop_first() =~= vd_datas(diffs@).skip(
                    i as int + 1,
                ));
            }
            let d = match StateDiff::<T>::decode(&cfg.build_version, &diffs[i].data) {
                Ok(x) => x,
                Err(e) => {
                    return Err(ApplyDiffsErr::Decode(e));
                },
            };
            match self.apply_one(&d) {
                Ok(_) => {},
                Err(e) => {
                    return Err(ApplyDiffsErr::Apply(e));
                },
            }
            i = i + 1;
        }
        Ok(())
    }
}


// ---------------------------------------------------------------------------
// The diff record round trip.
// ---------------------------------------------------------------------------

/// The contents one chunk can carry faithfully.
pub open spec fn chunk_ok<A: DiffChunk>(v: A::CV) -> bool {
    &&& A::chunk_wf(v)
    &&& A::chunk_facts(v)
    &&& A::chunk_enc(v).len() <= u64::MAX
}

/// The contents one delta can carry faithfully.
pub open spec fn fd_ok<K: DiffChunk, V: DiffChunk>(fd: FieldDiffView<K::CV, V::CV>) -> bool {
    &&& chunk_ok::<K>(fd.key)
    &&& match fd.val {
        ValDiffView::Insert(to) => chunk_ok::<V>(to),
        ValDiffView::Update(from, to) => chunk_ok::<V>(from) && chunk_ok::<V>(to),
        ValDiffView::Delete(from) => chunk_ok::<V>(from),
    }
}

/// The contents a whole diff can carry faithfully: the version formatter
/// fact plus per-delta well-formedness for every field.
pub open spec fn diff_ok<T: Timestamp>(d: StateDiffView<T>) -> bool {
    &&& d.applier_version.wf()
    &&& (d.applier_version.wf() ==> parsed_version(
        version_chars(
            d.applier_version.major,
            d.applier_version.minor,
            d.applier_version.patch,
            d.applier_version.pre,
            d.applier_version.build,
        ),
    ) == Some(d.applier_version))
    &&& forall|i: int|
        0 <= i < d.hostname.len() ==> fd_ok::<(), String>(#[trigger] d.hostname[i])
    &&& forall|i: int|
        0 <= i < d.last_gc_req.len() ==> fd_ok::<(), SeqNo>(#[trigger] d.last_gc_req[i])
    &&& forall|i: int|
        0 <= i < d.rollups.len() ==> fd_ok::<SeqNo, PartialRollupKey>(#[trigger] d.rollups[i])
    &&& forall|i: int|
        0 <= i < d.leased_readers.len() ==> fd_ok::<LeasedReaderId, LeasedReaderState<T>>(
            #[trigger] d.leased_readers[i],
        )
    &&& forall|i: int|
        0 <= i < d.critical_readers.len() ==> fd_ok::<CriticalReaderId, CriticalReaderState<T>>(
            #[trigger] d.critical_readers[i],
        )
    &&& forall|i: int|
        0 <= i < d.writers.len() ==> fd_ok::<WriterId, WriterState<T>>(#[trigger] d.writers[i])
    &&& forall|i: int|
        0 <= i < d.since.len() ==> fd_ok::<(), Antichain<T>>(#[trigger] d.since[i])
    &&& forall|i: int|
        0 <= i < d.spine.len() ==> fd_ok::<HollowBatch<T>, ()>(#[trigger] d.spine[i])
}

/// Every chunk of an entry fits a length prefix.
pub open spec fn entry_chunks_ok(e: DiffEntry) -> bool {
    forall|j: int| 0 <= j < e.chunks.len() ==> (#[trigger] e.chunks[j]).len() <= u64::MAX
}

proof fn lemma_section_chunks_ok<K: DiffChunk, V: DiffChunk>(
    code: u64,
    fds: Seq<FieldDiffView<K::CV, V::CV>>,
)
    requires
        forall|i: int| 0 <= i < fds.len() ==> fd_ok::<K, V>(#[trigger] fds[i]),
    ensures
        forall|i: int|
            0 <= i < entries_of_field::<K, V>(code, fds).len() ==> entry_chunks_ok(
                #[trigger] entries_of_field::<K, V>(code, fds)[i],
            ),
{
    assert forall|i: int| 0 <= i < entries_of_field::<K, V>(code, fds).len() implies entry_chunks_ok(
        #[trigger] entries_of_field::<K, V>(code, fds)[i],
    ) by {
        let e = entry_of_fd::<K, V>(code, fds[i]);
        assert(fd_ok::<K, V>(fds[i]));
        assert forall|j: int| 0 <= j < e.chunks.len() implies (#[trigger] e.chunks[j]).len()
            <= u64::MAX by {
            match fds[i].val {
                ValDiffView::Insert(to) => {},
                ValDiffView::Update(from, to) => {},
                ValDiffView::Delete(from) => {},
            }
        }
    }
}

proof fn lemma_entries_app_ok(a: Seq<DiffEntry>, b: Seq<DiffEntry>)
    requires
        forall|i: int| 0 <= i < a.len() ==> entry_chunks_ok(#[trigger] a[i]),
        forall|i: int| 0 <= i < b.len() ==> entry_chunks_ok(#[trigger] b[i]),
    ensures
        forall|i: int| 0 <= i < (a + b).len() ==> entry_chunks_ok(#[trigger] (a + b)[i]),
{
    assert forall|i: int| 0 <= i < (a + b).len() implies entry_chunks_ok(#[trigger] (a + b)[i]) by {
        if i < a.len() {
            assert((a + b)[i] == a[i]);
        } else {
            assert((a + b)[i] == b[i - a.len()]);
        }
    }
}

proof fn lemma_allchunks_ok(es: Seq<DiffEntry>)
    requires
        forall|i: int| 0 <= i < es.len() ==> entry_chunks_ok(#[trigger] es[i]),
    ensures
        forall|j: int| 0 <= j < allchunks(es).len() ==> (#[trigger] allchunks(es)[j]).len()
            <= u64::MAX,
    decreases es.len(),
{
    if es.len() > 0 {
        assert forall|i: int| 0 <= i < es.drop_first().len() implies entry_chunks_ok(
            #[trigger] es.drop_first()[i],
        ) by {
            assert(entry_chunks_ok(es[i + 1]));
        }
        lemma_allchunks_ok(es.drop_first());
        assert(entry_chunks_ok(es[0]));
        assert forall|j: int| 0 <= j < allchunks(es).len() implies (#[trigger] allchunks(
            es,
        )[j]).len() <= u64::MAX by {
            if j < es[0].chunks.len() {
                assert(allchunks(es)[j] == es[0].chunks[j]);
            } else {
                assert(allchunks(es)[j] == allchunks(es.drop_first())[j - es[0].chunks.len()]);
            }
        }
    }
}

/// Splitting the concatenated chunks by their recorded lengths restores
/// them exactly.
proof fn lemma_chunks_of_rt(cs: Seq<Seq<u8>>)
    requires
        forall|i: int| 0 <= i < cs.len() ==> (#[trigger] cs[i]).len() <= u64::MAX,
    ensures
        chunks_of(lens_list(cs), cat(cs)) == Some(cs),
    decreases cs.len(),
{
    if cs.len() == 0 {
        assert(lens_list(cs) =~= Seq::<u64>::empty());
        assert(cat(cs) =~= Seq::<u8>::empty());
        assert(chunks_of(lens_list(cs), cat(cs)) =~= Some(Seq::<Seq<u8>>::empty()));
    } else {
        let rest = cs.drop_first();
        assert forall|i: int| 0 <= i < rest.len() implies (#[trigger] rest[i]).len()
            <= u64::MAX by {
            assert(cs[i + 1].len() <= u64::MAX);
        }
        lemma_chunks_of_rt(rest);
        let lens = lens_list(cs);
        let bytes = cat(cs);
        assert(lens[0] == cs[0].len() as u64);
        assert(bytes =~= cs[0] + cat(rest));
        assert(bytes.take(cs[0].len() as int) =~= cs[0]);
        assert(bytes.skip(cs[0].len() as int) =~= cat(rest));
        assert(lens.drop_first() =~= lens_list(rest));
        assert(seq![cs[0]] + rest =~= cs);
    }
}

/// Parsing concatenated arrays equals parsing the first part and then the
/// second, when the first part parses.
proof fn lemma_arrays_parse_app<T: Timestamp>(
    f1: Seq<u64>,
    t1: Seq<u64>,
    c1: Seq<Seq<u8>>,
    f2: Seq<u64>,
    t2: Seq<u64>,
    c2: Seq<Seq<u8>>,
    acc: StateDiffView<T>,
    a: StateDiffView<T>,
)
    requires
        fd_arrays_parse::<T>(f1, t1, c1, acc) == Ok::<StateDiffView<T>, TryFromProtoErrorView>(a),
    ensures
        fd_arrays_parse::<T>(f1 + f2, t1 + t2, c1 + c2, acc) == fd_arrays_parse::<T>(
            f2,
            t2,
            c2,
            a,
        ),
    decreases f1.len(),
{
    if f1.len() == 0 {
        assert(t1.len() == 0 && c1.len() == 0);
        assert(f1 + f2 =~= f2);
        assert(t1 + t2 =~= t2);
        assert(c1 + c2 =~= c2);
        assert(a == acc);
    } else {
        assert(t1.len() > 0);
        let k = chunk_count(t1[0]);
        assert(c1.len() >= k);
        assert((f1 + f2)[0] == f1[0]);
        assert((t1 + t2)[0] == t1[0]);
        assert((c1 + c2).len() >= k);
        assert((c1 + c2).take(k) =~= c1.take(k));
        assert((f1 + f2).drop_first() =~= f1.drop_first() + f2);
        assert((t1 + t2).drop_first() =~= t1.drop_first() + t2);
        assert((c1 + c2).skip(k) =~= c1.skip(k) + c2);
        match entry_dispatch::<T>(f1[0], t1[0], c1.take(k), acc) {
            Ok(acc2) => {
                lemma_arrays_parse_app::<T>(
                    f1.drop_first(),
                    t1.drop_first(),
                    c1.skip(k),
                    f2,
                    t2,
                    c2,
                    acc2,
                    a,
                );
            },
            Err(e) => {
                assert(false);
            },
        }
    }
}


proof fn lemma_fd_parse_rt<K: DiffChunk, V: DiffChunk>(code: u64, fd: FieldDiffView<K::CV, V::CV>)
    requires
        fd_ok::<K, V>(fd),
    ensures
        ({
            let e = entry_of_fd::<K, V>(code, fd);
            &&& e.field == code
            &&& e.chunks.len() == chunk_count(e.typ)
            &&& e.typ <= 2
            &&& fd_parse::<K, V>(e.typ, e.chunks) == Ok::<
                FieldDiffView<K::CV, V::CV>,
                TryFromProtoErrorView,
            >(fd)
        }),
{
    reveal(fd_parse);
    K::chunk_rt(fd.key);
    match fd.val {
        ValDiffView::Insert(to) => {
            V::chunk_rt(to);
        },
        ValDiffView::Update(from, to) => {
            V::chunk_rt(from);
            V::chunk_rt(to);
        },
        ValDiffView::Delete(from) => {
            V::chunk_rt(from);
        },
    }
    assert(fd == (FieldDiffView { key: fd.key, val: fd.val }));
}

#[verifier::rlimit(100)]
#[verifier::spinoff_prover]
proof fn lemma_section_rt_hostname<T: Timestamp>(
    fds: Seq<FieldDiffView<(), Seq<char>>>,
    acc: StateDiffView<T>,
)
    requires
        forall|i: int| 0 <= i < fds.len() ==> fd_ok::<(), String>(#[trigger] fds[i]),
    ensures
        ({
            let es = entries_of_field::<(), String>(0, fds);
            fd_arrays_parse::<T>(
                Seq::new(es.len(), |i: int| es[i].field),
                Seq::new(es.len(), |i: int| es[i].typ),
                allchunks(es),
                acc,
            ) == Ok::<_, TryFromProtoErrorView>(
                (StateDiffView { hostname: acc.hostname + fds, ..acc }),
            )
        }),
    decreases fds.len(),
{
    let es = entries_of_field::<(), String>(0, fds);
    let fseq = Seq::new(es.len(), |i: int| es[i].field);
    let tseq = Seq::new(es.len(), |i: int| es[i].typ);
    if fds.len() == 0 {
        assert(allchunks(es) =~= Seq::<Seq<u8>>::empty());
        assert(acc.hostname + fds =~= acc.hostname);
        assert((StateDiffView { hostname: acc.hostname + fds, ..acc }) == acc);
    } else {
        let fd = fds[0];
        let e0 = es[0];
        lemma_fd_parse_rt::<(), String>(0, fd);
        let k = chunk_count(e0.typ);
        assert(e0.chunks.len() == k);
        assert(allchunks(es).take(k) =~= e0.chunks);
        assert(allchunks(es).skip(k) =~= allchunks(es.drop_first()));
        let acc2 = StateDiffView { hostname: acc.hostname.push(fd), ..acc };
        assert(entry_dispatch::<T>(e0.field, e0.typ, e0.chunks, acc) == Ok::<
            _,
            TryFromProtoErrorView,
        >(acc2)) by {
            reveal(entry_dispatch);
        }
        assert forall|i: int| 0 <= i < fds.drop_first().len() implies fd_ok::<(), String>(
            #[trigger] fds.drop_first()[i],
        ) by {
            assert(fd_ok::<(), String>(fds[i + 1]));
        }
        lemma_section_rt_hostname::<T>(fds.drop_first(), acc2);
        let es2 = entries_of_field::<(), String>(0, fds.drop_first());
        assert(es.drop_first() =~= es2);
        assert(fseq.drop_first() =~= Seq::new(es2.len(), |i: int| es2[i].field));
        assert(tseq.drop_first() =~= Seq::new(es2.len(), |i: int| es2[i].typ));
        assert(acc2.hostname + fds.drop_first() =~= acc.hostname + fds);
        assert((StateDiffView { hostname: acc2.hostname + fds.drop_first(), ..acc2 })
            == (StateDiffView { hostname: acc.hostname + fds, ..acc }));
    }
}

#[verifier::rlimit(100)]
#[verifier::spinoff_prover]
proof fn lemma_section_rt_last_gc_req<T: Timestamp>(
    fds: Seq<FieldDiffView<(), SeqNo>>,
    acc: StateDiffView<T>,
)
    requires
        forall|i: int| 0 <= i < fds.len() ==> fd_ok::<(), SeqNo>(#[trigger] fds[i]),
    ensures
        ({
            let es = entries_of_field::<(), SeqNo>(1, fds);
            fd_arrays_parse::<T>(
                Seq::new(es.len(), |i: int| es[i].field),
                Seq::new(es.len(), |i: int| es[i].typ),
                allchunks(es),
                acc,
            ) == Ok::<_, TryFromProtoErrorView>(
                (StateDiffView { last_gc_req: acc.last_gc_req + fds, ..acc }),
            )
        }),
    decreases fds.len(),
{
    let es = entries_of_field::<(), SeqNo>(1, fds);
    let fseq = Seq::new(es.len(), |i: int| es[i].field);
    let tseq = Seq::new(es.len(), |i: int| es[i].typ);
    if fds.len() == 0 {
        assert(allchunks(es) =~= Seq::<Seq<u8>>::empty());
        assert(acc.last_gc_req + fds =~= acc.last_gc_req);
        assert((StateDiffView { last_gc_req: acc.last_gc_req + fds, ..acc }) == acc);
    } else {
        let fd = fds[0];
        let e0 = es[0];
        lemma_fd_parse_rt::<(), SeqNo>(1, fd);
        let k = chunk_count(e0.typ);
        assert(e0.chunks.len() == k);
        assert(allchunks(es).take(k) =~= e0.chunks);
        assert(allchunks(es).skip(k) =~= allchunks(es.drop_first()));
        let acc2 = StateDiffView { last_gc_req: acc.last_gc_req.push(fd), ..acc };
        assert(entry_dispatch::<T>(e0.field, e0.typ, e0.chunks, acc) == Ok::<
            _,
            TryFromProtoErrorView,
        >(acc2)) by {
            reveal(entry_dispatch);
        }
        assert forall|i: int| 0 <= i < fds.drop_first().len() implies fd_ok::<(), SeqNo>(
            #[trigger] fds.drop_first()[i],
        ) by {
            assert(fd_ok::<(), SeqNo>(fds[i + 1]));
        }
        lemma_section_rt_last_gc_req::<T>(fds.drop_first(), acc2);
        let es2 = entries_of_field::<(), SeqNo>(1, fds.drop_first());
        assert(es.drop_first() =~= es2);
        assert(fseq.drop_first() =~= Seq::new(es2.len(), |i: int| es2[i].field));
        assert(tseq.drop_first() =~= Seq::new(es2.len(), |i: int| es2[i].typ));
        assert(acc2.last_gc_req + fds.drop_first() =~= acc.last_gc_req + fds);
        assert((StateDiffView { last_gc_req: acc2.last_gc_req + fds.drop_first(), ..acc2 })
            == (StateDiffView { last_gc_req: acc.last_gc_req + fds, ..acc }));
    }
}

#[verifier::rlimit(100)]
#[verifier::spinoff_prover]
proof fn lemma_section_rt_rollups<T: Timestamp>(
    fds: Seq<FieldDiffView<SeqNo, Seq<char>>>,
    acc: StateDiffView<T>,
)
    requires
        forall|i: int| 0 <= i < fds.len() ==> fd_ok::<SeqNo, PartialRollupKey>(#[trigger] fds[i]),
    ensures
        ({
            let es = entries_of_field::<SeqNo, PartialRollupKey>(2, fds);
            fd_arrays_parse::<T>(
                Seq::new(es.len(), |i: int| es[i].field),
                Seq::new(es.len(), |i: int| es[i].typ),
                allchunks(es),
                acc,
            ) == Ok::<_, TryFromProtoErrorView>(
                (StateDiffView { rollups: acc.rollups + fds, ..acc }),
            )
        }),
    decreases fds.len(),
{
    let es = entries_of_field::<SeqNo, PartialRollupKey>(2, fds);
    let fseq = Seq::new(es.len(), |i: int| es[i].field);
    let tseq = Seq::new(es.len(), |i: int| es[i].typ);
    if fds.len() == 0 {
        assert(allchunks(es) =~= Seq::<Seq<u8>>::empty());
        assert(acc.rollups + fds =~= acc.rollups);
        assert((StateDiffView { rollups: acc.rollups + fds, ..acc }) == acc);
    } else {
        let fd = fds[0];
        let e0 = es[0];
        lemma_fd_parse_rt::<SeqNo, PartialRollupKey>(2, fd);
        let k = chunk_count(e0.typ);
        assert(e0.chunks.len() == k);
        assert(allchunks(es).take(k) =~= e0.chunks);
        assert(allchunks(es).skip(k) =~= allchunks(es.drop_first()));
        let acc2 = StateDiffView { rollups: acc.rollups.push(fd), ..acc };
        assert(entry_dispatch::<T>(e0.field, e0.typ, e0.chunks, acc) == Ok::<
            _,
            TryFromProtoErrorView,
        >(acc2)) by {
            reveal(entry_dispatch);
        }
        assert forall|i: int| 0 <= i < fds.drop_first().len() implies fd_ok::<SeqNo, PartialRollupKey>(
            #[trigger] fds.drop_first()[i],
        ) by {
            assert(fd_ok::<SeqNo, PartialRollupKey>(fds[i + 1]));
        }
        lemma_section_rt_rollups::<T>(fds.drop_first(), acc2);
        let es2 = entries_of_field::<SeqNo, PartialRollupKey>(2, fds.drop_first());
        assert(es.drop_first() =~= es2);
        assert(fseq.drop_first() =~= Seq::new(es2.len(), |i: int| es2[i].field));
        assert(tseq.drop_first() =~= Seq::new(es2.len(), |i: int| es2[i].typ));
        assert(acc2.rollups + fds.drop_first() =~= acc.rollups + fds);
        assert((StateDiffView { rollups: acc2.rollups + fds.drop_first(), ..acc2 })
            == (StateDiffView { rollups: acc.rollups + fds, ..acc }));
    }
}

#[verifier::rlimit(100)]
#[verifier::spinoff_prover]
proof fn lemma_section_rt_leased_readers<T: Timestamp>(
    fds: Seq<FieldDiffView<Seq<u8>, LeasedReaderStateView<T>>>,
    acc: StateDiffView<T>,
)
    requires
        forall|i: int| 0 <= i < fds.len() ==> fd_ok::<LeasedReaderId, LeasedReaderState<T>>(#[trigger] fds[i]),
    ensures
        ({
            let es = entries_of_field::<LeasedReaderId, LeasedReaderState<T>>(3, fds);
            fd_arrays_parse::<T>(
                Seq::new(es.len(), |i: int| es[i].field),
                Seq::new(es.len(), |i: int| es[i].typ),
                allchunks(es),
                acc,
            ) == Ok::<_, TryFromProtoErrorView>(
                (StateDiffView { leased_readers: acc.leased_readers + fds, ..acc }),
            )
        }),
    decreases fds.len(),
{
    let es = entries_of_field::<LeasedReaderId, LeasedReaderState<T>>(3, fds);
    let fseq = Seq::new(es.len(), |i: int| es[i].field);
    let tseq = Seq::new(es.len(), |i: int| es[i].typ);
    if fds.len() == 0 {
        assert(allchunks(es) =~= Seq::<Seq<u8>>::empty());
        assert(acc.leased_readers + fds =~= acc.leased_readers);
        assert((StateDiffView { leased_readers: acc.leased_readers + fds, ..acc }) == acc);
    } else {
        let fd = fds[0];
        let e0 = es[0];
        lemma_fd_parse_rt::<LeasedReaderId, LeasedReaderState<T>>(3, fd);
        let k = chunk_count(e0.typ);
        assert(e0.chunks.len() == k);
        assert(allchunks(es).take(k) =~= e0.chunks);
        assert(allchunks(es).skip(k) =~= allchunks(es.drop_first()));
        let acc2 = StateDiffView { leased_readers: acc.leased_readers.push(fd), ..acc };
        assert(entry_dispatch::<T>(e0.field, e0.typ, e0.chunks, acc) == Ok::<
            _,
            TryFromProtoErrorView,
        >(acc2)) by {
            reveal(entry_dispatch);
        }
        assert forall|i: int| 0 <= i < fds.drop_first().len() implies fd_ok::<LeasedReaderId, LeasedReaderState<T>>(
            #[trigger] fds.drop_first()[i],
        ) by {
            assert(fd_ok::<LeasedReaderId, LeasedReaderState<T>>(fds[i + 1]));
        }
        lemma_section_rt_leased_readers::<T>(fds.drop_first(), acc2);
        let es2 = entries_of_field::<LeasedReaderId, LeasedReaderState<T>>(3, fds.drop_first());
        assert(es.drop_first() =~= es2);
        assert(fseq.drop_first() =~= Seq::new(es2.len(), |i: int| es2[i].field));
        assert(tseq.drop_first() =~= Seq::new(es2.len(), |i: int| es2[i].typ));
        assert(acc2.leased_readers + fds.drop_first() =~= acc.leased_readers + fds);
        assert((StateDiffView { leased_readers: acc2.leased_readers + fds.drop_first(), ..acc2 })
            == (StateDiffView { leased_readers: acc.leased_readers + fds, ..acc }));
    }
}

#[verifier::rlimit(100)]
#[verifier::spinoff_prover]
proof fn lemma_section_rt_critical_readers<T: Timestamp>(
    fds: Seq<FieldDiffView<Seq<u8>, CriticalReaderStateView<T>>>,
    acc: StateDiffView<T>,
)
    requires
        forall|i: int| 0 <= i < fds.len() ==> fd_ok::<CriticalReaderId, CriticalReaderState<T>>(#[trigger] fds[i]),
    ensures
        ({
            let es = entries_of_field::<CriticalReaderId, CriticalReaderState<T>>(4, fds);
            fd_arrays_parse::<T>(
                Seq::new(es.len(), |i: int| es[i].field),
                Seq::new(es.len(), |i: int| es[i].typ),
                allchunks(es),
                acc,
            ) == Ok::<_, TryFromProtoErrorView>(
                (StateDiffView { critical_readers: acc.critical_readers + fds, ..acc }),
            )
        }),
    decreases fds.len(),
{
    let es = entries_of_field::<CriticalReaderId, CriticalReaderState<T>>(4, fds);
    let fseq = Seq::new(es.len(), |i: int| es[i].field);
    let tseq = Seq::new(es.len(), |i: int| es[i].typ);
    if fds.len() == 0 {
        assert(allchunks(es) =~= Seq::<Seq<u8>>::empty());
        assert(acc.critical_readers + fds =~= acc.critical_readers);
        assert((StateDiffView { critical_readers: acc.critical_readers + fds, ..acc }) == acc);
    } else {
        let fd = fds[0];
        let e0 = es[0];
        lemma_fd_parse_rt::<CriticalReaderId, CriticalReaderState<T>>(4, fd);
        let k = chunk_count(e0.typ);
        assert(e0.chunks.len() == k);
        assert(allchunks(es).take(k) =~= e0.chunks);
        assert(allchunks(es).skip(k) =~= allchunks(es.drop_first()));
        let acc2 = StateDiffView { critical_readers: acc.critical_readers.push(fd), ..acc };
        assert(entry_dispatch::<T>(e0.field, e0.typ, e0.chunks, acc) == Ok::<
            _,
            TryFromProtoErrorView,
        >(acc2)) by {
            reveal(entry_dispatch);
        }
        assert forall|i: int| 0 <= i < fds.drop_first().len() implies fd_ok::<CriticalReaderId, CriticalReaderState<T>>(
            #[trigger] fds.drop_first()[i],
        ) by {
            assert(fd_ok::<CriticalReaderId, CriticalReaderState<T>>(fds[i + 1]));
        }
        lemma_section_rt_critical_readers::<T>(fds.drop_first(), acc2);
        let es2 = entries_of_field::<CriticalReaderId, CriticalReaderState<T>>(4, fds.drop_first());
        assert(es.drop_first() =~= es2);
        assert(fseq.drop_first() =~= Seq::new(es2.len(), |i: int| es2[i].field));
        assert(tseq.drop_first() =~= Seq::new(es2.len(), |i: int| es2[i].typ));
        assert(acc2.critical_readers + fds.drop_first() =~= acc.critical_readers + fds);
        assert((StateDiffView { critical_readers: acc2.critical_readers + fds.drop_first(), ..acc2 })
            == (StateDiffView { critical_readers: acc.critical_readers + fds, ..acc }));
    }
}

#[verifier::rlimit(100)]
#[verifier::spinoff_prover]
proof fn lemma_section_rt_writers<T: Timestamp>(
    fds: Seq<FieldDiffView<Seq<u8>, WriterStateView<T>>>,
    acc: StateDiffView<T>,
)
    requires
        forall|i: int| 0 <= i < fds.len() ==> fd_ok::<WriterId, WriterState<T>>(#[trigger] fds[i]),
    ensures
        ({
            let es = entries_of_field::<WriterId, WriterState<T>>(5, fds);
            fd_arrays_parse::<T>(
                Seq::new(es.len(), |i: int| es[i].field),
                Seq::new(es.len(), |i: int| es[i].typ),
                allchunks(es),
                acc,
            ) == Ok::<_, TryFromProtoErrorView>(
                (StateDiffView { writers: acc.writers + fds, ..acc }),
            )
        }),
    decreases fds.len(),
{
    let es = entries_of_field::<WriterId, WriterState<T>>(5, fds);
    let fseq = Seq::new(es.len(), |i: int| es[i].field);
    let tseq = Seq::new(es.len(), |i: int| es[i].typ);
    if fds.len() == 0 {
        assert(allchunks(es) =~= Seq::<Seq<u8>>::empty());
        assert(acc.writers + fds =~= acc.writers);
        assert((StateDiffView { writers: acc.writers + fds, ..acc }) == acc);
    } else {
        let fd = fds[0];
        let e0 = es[0];
        lemma_fd_parse_rt::<WriterId, WriterState<T>>(5, fd);
        let k = chunk_count(e0.typ);
        assert(e0.chunks.len() == k);
        assert(allchunks(es).take(k) =~= e0.chunks);
        assert(allchunks(es).skip(k) =~= allchunks(es.drop_first()));
        let acc2 = StateDiffView { writers: acc.writers.push(fd), ..acc };
        assert(entry_dispatch::<T>(e0.field, e0.typ, e0.chunks, acc) == Ok::<
            _,
            TryFromProtoErrorView,
        >(acc2)) by {
            reveal(entry_dispatch);
        }
        assert forall|i: int| 0 <= i < fds.drop_first().len() implies fd_ok::<WriterId, WriterState<T>>(
            #[trigger] fds.drop_first()[i],
        ) by {
            assert(fd_ok::<WriterId, WriterState<T>>(fds[i + 1]));
        }
        lemma_section_rt_writers::<T>(fds.drop_first(), acc2);
        let es2 = entries_of_field::<WriterId, WriterState<T>>(5, fds.drop_first());
        assert(es.drop_first() =~= es2);
        assert(fseq.drop_first() =~= Seq::new(es2.len(), |i: int| es2[i].field));
        assert(tseq.drop_first() =~= Seq::new(es2.len(), |i: int| es2[i].typ));
        assert(acc2.writers + fds.drop_first() =~= acc.writers + fds);
        assert((StateDiffView { writers: acc2.writers + fds.drop_first(), ..acc2 })
            == (StateDiffView { writers: acc.writers + fds, ..acc }));
    }
}

#[verifier::rlimit(100)]
#[verifier::spinoff_prover]
proof fn lemma_section_rt_since<T: Timestamp>(
    fds: Seq<FieldDiffView<(), Seq<T>>>,
    acc: StateDiffView<T>,
)
    requires
        forall|i: int| 0 <= i < fds.len() ==> fd_ok::<(), Antichain<T>>(#[trigger] fds[i]),
    ensures
        ({
            let es = entries_of_field::<(), Antichain<T>>(6, fds);
            fd_arrays_parse::<T>(
                Seq::new(es.len(), |i: int| es[i].field),
                Seq::new(es.len(), |i: int| es[i].typ),
                allchunks(es),
                acc,
            ) == Ok::<_, TryFromProtoErrorView>(
                (StateDiffView { since: acc.since + fds, ..acc }),
            )
        }),
    decreases fds.len(),
{
    let es = entries_of_field::<(), Antichain<T>>(6, fds);
    let fseq = Seq::new(es.len(), |i: int| es[i].field);
    let tseq = Seq::new(es.len(), |i: int| es[i].typ);
    if fds.len() == 0 {
        assert(allchunks(es) =~= Seq::<Seq<u8>>::empty());
        assert(acc.since + fds =~= acc.since);
        assert((StateDiffView { since: acc.since + fds, ..acc }) == acc);
    } else {
        let fd = fds[0];
        let e0 = es[0];
        lemma_fd_parse_rt::<(), Antichain<T>>(6, fd);
        let k = chunk_count(e0.typ);
        assert(e0.chunks.len() == k);
        assert(allchunks(es).take(k) =~= e0.chunks);
        assert(allchunks(es).skip(k) =~= allchunks(es.drop_first()));
        let acc2 = StateDiffView { since: acc.since.push(fd), ..acc };
        assert(entry_dispatch::<T>(e0.field, e0.typ, e0.chunks, acc) == Ok::<
            _,
            TryFromProtoErrorView,
        >(acc2)) by {
            reveal(entry_dispatch);
        }
        assert forall|i: int| 0 <= i < fds.drop_first().len() implies fd_ok::<(), Antichain<T>>(
            #[trigger] fds.drop_first()[i],
        ) by {
            assert(fd_ok::<(), Antichain<T>>(fds[i + 1]));
        }
        lemma_section_rt_since::<T>(fds.drop_first(), acc2);
        let es2 = entries_of_field::<(), Antichain<T>>(6, fds.drop_first());
        assert(es.drop_first() =~= es2);
        assert(fseq.drop_first() =~= Seq::new(es2.len(), |i: int| es2[i].field));
        assert(tseq.drop_first() =~= Seq::new(es2.len(), |i: int| es2[i].typ));
        assert(acc2.since + fds.drop_first() =~= acc.since + fds);
        assert((StateDiffView { since: acc2.since + fds.drop_first(), ..acc2 })
            == (StateDiffView { since: acc.since + fds, ..acc }));
    }
}

#[verifier::rlimit(100)]
#[verifier::spinoff_prover]
proof fn lemma_section_rt_spine<T: Timestamp>(
    fds: Seq<FieldDiffView<HollowBatchView<T>, ()>>,
    acc: StateDiffView<T>,
)
    requires
        forall|i: int| 0 <= i < fds.len() ==> fd_ok::<HollowBatch<T>, ()>(#[trigger] fds[i]),
    ensures
        ({
            let es = entries_of_field::<HollowBatch<T>, ()>(7, fds);
            fd_arrays_parse::<T>(
                Seq::new(es.len(), |i: int| es[i].field),
                Seq::new(es.len(), |i: int| es[i].typ),
                allchunks(es),
                acc,
            ) == Ok::<_, TryFromProtoErrorView>(
                (StateDiffView { spine: acc.spine + fds, ..acc }),
            )
        }),
    decreases fds.len(),
{
    let es = entries_of_field::<HollowBatch<T>, ()>(7, fds);
    let fseq = Seq::new(es.len(), |i: int| es[i].field);
    let tseq = Seq::new(es.len(), |i: int| es[i].typ);
    if fds.len() == 0 {
        assert(allchunks(es) =~= Seq::<Seq<u8>>::empty());
        assert(acc.spine + fds =~= acc.spine);
        assert((StateDiffView { spine: acc.spine + fds, ..acc }) == acc);
    } else {
        let fd = fds[0];
        let e0 = es[0];
        lemma_fd_parse_rt::<HollowBatch<T>, ()>(7, fd);
        let k = chunk_count(e0.typ);
        assert(e0.chunks.len() == k);
        assert(allchunks(es).take(k) =~= e0.chunks);
        assert(allchunks(es).skip(k) =~= allchunks(es.drop_first()));
        let acc2 = StateDiffView { spine: acc.spine.push(fd), ..acc };
        assert(entry_dispatch::<T>(e0.field, e0.typ, e0.chunks, acc) == Ok::<
            _,
            TryFromProtoErrorView,
        >(acc2)) by {
            reveal(entry_dispatch);
        }
        assert forall|i: int| 0 <= i < fds.drop_first().len() implies fd_ok::<HollowBatch<T>, ()>(
            #[trigger] fds.drop_first()[i],
        ) by {
            assert(fd_ok::<HollowBatch<T>, ()>(fds[i + 1]));
        }
        lemma_section_rt_spine::<T>(fds.drop_first(), acc2);
        let es2 = entries_of_field::<HollowBatch<T>, ()>(7, fds.drop_first());
        assert(es.drop_first() =~= es2);
        assert(fseq.drop_first() =~= Seq::new(es2.len(), |i: int| es2[i].field));
        assert(tseq.drop_first() =~= Seq::new(es2.len(), |i: int| es2[i].typ));
        assert(acc2.spine + fds.drop_first() =~= acc.spine + fds);
        assert((StateDiffView { spine: acc2.spine + fds.drop_first(), ..acc2 })
            == (StateDiffView { spine: acc.spine + fds, ..acc }));
    }
}

/// Round trip of a diff record at the record level: converting a diff
/// whose contents the chunks can carry faithfully to its wire record and
/// back restores it exactly.
#[verifier::rlimit(100)]
pub proof fn lemma_diff_round_trip<T: Timestamp>(d: StateDiffView<T>)
    requires
        diff_ok(d),
    ensures
        diff_from_proto::<T>(diff_to_proto(d)) == Ok::<StateDiffView<T>, TryFromProtoErrorView>(
            d,
        ),
{
    let p = diff_to_proto(d);
    crate::version::lemma_dec_chars_len(d.applier_version.major);
    assert(p.applier_version.len() > 0);
    assert(version_from_chars(p.applier_version) == Ok::<VersionView, TryFromProtoErrorView>(
        d.applier_version,
    ));
    let base = diff_base::<T>(
        d.applier_version,
        d.seqno_from,
        d.seqno_to,
        d.walltime_ms,
        d.latest_rollup_key,
    );
    assert(SeqNo(p.seqno_from) == d.seqno_from);
    assert(SeqNo(p.seqno_to) == d.seqno_to);
    let es1 = entries_of_field::<(), String>(0, d.hostname);
    let fs1 = Seq::new(es1.len(), |i: int| es1[i].field);
    let ts1 = Seq::new(es1.len(), |i: int| es1[i].typ);
    let cs1 = allchunks(es1);
    lemma_section_chunks_ok::<(), String>(0, d.hostname);
    let es2 = entries_of_field::<(), SeqNo>(1, d.last_gc_req);
    let fs2 = Seq::new(es2.len(), |i: int| es2[i].field);
    let ts2 = Seq::new(es2.len(), |i: int| es2[i].typ);
    let cs2 = allchunks(es2);
    lemma_section_chunks_ok::<(), SeqNo>(1, d.last_gc_req);
    let es3 = entries_of_field::<SeqNo, PartialRollupKey>(2, d.rollups);
    let fs3 = Seq::new(es3.len(), |i: int| es3[i].field);
    let ts3 = Seq::new(es3.len(), |i: int| es3[i].typ);
    let cs3 = allchunks(es3);
    lemma_section_chunks_ok::<SeqNo, PartialRollupKey>(2, d.rollups);
    let es4 = entries_of_field::<LeasedReaderId, LeasedReaderState<T>>(3, d.leased_readers);
    let fs4 = Seq::new(es4.len(), |i: int| es4[i].field);
    let ts4 = Seq::new(es4.len(), |i: int| es4[i].typ);
    let cs4 = allchunks(es4);
    lemma_section_chunks_ok::<LeasedReaderId, LeasedReaderState<T>>(3, d.leased_readers);
    let es5 = entries_of_field::<CriticalReaderId, CriticalReaderState<T>>(4, d.critical_readers);
    let fs5 = Seq::new(es5.len(), |i: int| es5[i].field);
    let ts5 = Seq::new(es5.len(), |i: int| es5[i].typ);
    let cs5 = allchunks(es5);
    lemma_section_chunks_ok::<CriticalReaderId, CriticalReaderState<T>>(4, d.critical_readers);
    let es6 = entries_of_field::<WriterId, WriterState<T>>(5, d.writers);
    let fs6 = Seq::new(es6.len(), |i: int| es6[i].field);
    let ts6 = Seq::new(es6.len(), |i: int| es6[i].typ);
    let cs6 = allchunks(es6);
    lemma_section_chunks_ok::<WriterId, WriterState<T>>(5, d.writers);
    let es7 = entries_of_field::<(), Antichain<T>>(6, d.since);
    let fs7 = Seq::new(es7.len(), |i: int| es7[i].field);
    let ts7 = Seq::new(es7.len(), |i: int| es7[i].typ);
    let cs7 = allchunks(es7);
    lemma_section_chunks_ok::<(), Antichain<T>>(6, d.since);
    let es8 = entries_of_field::<HollowBatch<T>, ()>(7, d.spine);
    let fs8 = Seq::new(es8.len(), |i: int| es8[i].field);
    let ts8 = Seq::new(es8.len(), |i: int| es8[i].typ);
    let cs8 = allchunks(es8);
    lemma_section_chunks_ok::<HollowBatch<T>, ()>(7, d.spine);
    let all1 = es1;
    let all2 = all1 + es2;
    lemma_allchunks_app(all1, es2);
    lemma_entries_app_ok(all1, es2);
    let all3 = all2 + es3;
    lemma_allchunks_app(all2, es3);
    lemma_entries_app_ok(all2, es3);
    let all4 = all3 + es4;
    lemma_allchunks_app(all3, es4);
    lemma_entries_app_ok(all3, es4);
    let all5 = all4 + es5;
    lemma_allchunks_app(all4, es5);
    lemma_entries_app_ok(all4, es5);
    let all6 = all5 + es6;
    lemma_allchunks_app(all5, es6);
    lemma_entries_app_ok(all5, es6);
    let all7 = all6 + es7;
    lemma_allchunks_app(all6, es7);
    lemma_entries_app_ok(all6, es7);
    let all8 = all7 + es8;
    lemma_allchunks_app(all7, es8);
    lemma_entries_app_ok(all7, es8);
    assert(entries_of_diff(d) == all8);
    lemma_allchunks_ok(all8);
    lemma_chunks_of_rt(allchunks(all8));
    let acc1 = StateDiffView { hostname: base.hostname + d.hostname, ..base };
    lemma_section_rt_hostname::<T>(d.hostname, base);
    let acc2 = StateDiffView { last_gc_req: acc1.last_gc_req + d.last_gc_req, ..acc1 };
    lemma_section_rt_last_gc_req::<T>(d.last_gc_req, acc1);
    let acc3 = StateDiffView { rollups: acc2.rollups + d.rollups, ..acc2 };
    lemma_section_rt_rollups::<T>(d.rollups, acc2);
    let acc4 = StateDiffView { leased_readers: acc3.leased_readers + d.leased_readers, ..acc3 };
    lemma_section_rt_leased_readers::<T>(d.leased_readers, acc3);
    let acc5 = StateDiffView { critical_readers: acc4.critical_readers + d.critical_readers, ..acc4 };
    lemma_section_rt_critical_readers::<T>(d.critical_readers, acc4);
    let acc6 = StateDiffView { writers: acc5.writers + d.writers, ..acc5 };
    lemma_section_rt_writers::<T>(d.writers, acc5);
    let acc7 = StateDiffView { since: acc6.since + d.since, ..acc6 };
    lemma_section_rt_since::<T>(d.since, acc6);
    let acc8 = StateDiffView { spine: acc7.spine + d.spine, ..acc7 };
    lemma_section_rt_spine::<T>(d.spine, acc7);
    let af1 = fs1;
    let at1 = ts1;
    let ac1 = cs1;
    let af2 = af1 + fs2;
    let at2 = at1 + ts2;
    let ac2 = ac1 + cs2;
    assert(allchunks(all2) == ac2);
    lemma_arrays_parse_app::<T>(af1, at1, ac1, fs2, ts2, cs2, base, acc1);
    let af3 = af2 + fs3;
    let at3 = at2 + ts3;
    let ac3 = ac2 + cs3;
    assert(allchunks(all3) == ac3);
    lemma_arrays_parse_app::<T>(af2, at2, ac2, fs3, ts3, cs3, base, acc2);
    let af4 = af3 + fs4;
    let at4 = at3 + ts4;
    let ac4 = ac3 + cs4;
    assert(allchunks(all4) == ac4);
    lemma_arrays_parse_app::<T>(af3, at3, ac3, fs4, ts4, cs4, base, acc3);
    let af5 = af4 + fs5;
    let at5 = at4 + ts5;
    let ac5 = ac4 + cs5;
    assert(allchunks(all5) == ac5);
    lemma_arrays_parse_app::<T>(af4, at4, ac4, fs5, ts5, cs5, base, acc4);
    let af6 = af5 + fs6;
    let at6 = at5 + ts6;
    let ac6 = ac5 + cs6;
    assert(allchunks(all6) == ac6);
    lemma_arrays_parse_app::<T>(af5, at5, ac5, fs6, ts6, cs6, base, acc5);
    let af7 = af6 + fs7;
    let at7 = at6 + ts7;
    let ac7 = ac6 + cs7;
    assert(allchunks(all7) == ac7);
    lemma_arrays_parse_app::<T>(af6, at6, ac6, fs7, ts7, cs7, base, acc6);
    let af8 = af7 + fs8;
    let at8 = at7 + ts8;
    let ac8 = ac7 + cs8;
    assert(allchunks(all8) == ac8);
    lemma_arrays_parse_app::<T>(af7, at7, ac7, fs8, ts8, cs8, base, acc7);
    assert(fd_arrays_parse::<T>(af8, at8, ac8, base) == Ok::<
        StateDiffView<T>,
        TryFromProtoErrorView,
    >(acc8));
    let fl = flatten_entries(all8);
    assert(fl.fields =~= af8);
    assert(fl.diff_types =~= at8);
    assert(fl.data_lens == lens_list(allchunks(all8)));
    assert(fl.data_bytes == cat(allchunks(all8)));
    assert(base.hostname + d.hostname =~= d.hostname);
    assert(base.last_gc_req + d.last_gc_req =~= d.last_gc_req);
    assert(base.rollups + d.rollups =~= d.rollups);
    assert(acc1.leased_readers + d.leased_readers =~= d.leased_readers);
    assert(acc1.critical_readers + d.critical_readers =~= d.critical_readers);
    assert(acc1.writers + d.writers =~= d.writers);
    assert(acc1.since + d.since =~= d.since);
    assert(acc1.spine + d.spine =~= d.spine);
    assert(acc8 == d);
}

/// Composition: a decodable chain of diffs (one from `a` to `b`, one from
/// `b` to `c`) applied to the state at `a` yields exactly the state whose
/// rollup record at `c` decodes to, the rollup at `c` being that state's
/// own encoding.
proof fn lemma_apply_two<T: Timestamp>(
    s: StateView<T>,
    b1: Seq<u8>,
    b2: Seq<u8>,
    build: VersionView,
    d1: StateDiffView<T>,
    d2: StateDiffView<T>,
    s2: StateView<T>,
    sc: StateView<T>,
)
    requires
        diff_decode::<T>(build, b1) == Ok::<StateDiffView<T>, StateDecodeErrView>(d1),
        apply_diff_spec(s, d1) == Ok::<StateView<T>, ApplyDiffErr>(s2),
        diff_decode::<T>(build, b2) == Ok::<StateDiffView<T>, StateDecodeErrView>(d2),
        apply_diff_spec(s2, d2) == Ok::<StateView<T>, ApplyDiffErr>(sc),
    ensures
        apply_encoded_diffs_spec::<T>(s, build, seq![b1, b2]) == Ok::<
            StateView<T>,
            ApplyDiffsErrView,
        >(sc),
{
    let e0 = Seq::<Seq<u8>>::empty();
    assert(apply_encoded_diffs_spec::<T>(sc, build, e0) == Ok::<StateView<T>, ApplyDiffsErrView>(
        sc,
    ));
    assert(seq![b2][0] == b2);
    assert(seq![b2].drop_first() =~= e0);
    assert(apply_encoded_diffs_spec::<T>(s2, build, seq![b2]) == Ok::<
        StateView<T>,
        ApplyDiffsErrView,
    >(sc));
    assert(seq![b1, b2][0] == b1);
    assert(seq![b1, b2].drop_first() =~= seq![b2]);
}

#[verifier::rlimit(100)]
#[verifier::spinoff_prover]
pub proof fn lemma_diff_chain_matches_rollup<T: Timestamp>(
    s: StateView<T>,
    b1: Seq<u8>,
    b2: Seq<u8>,
    build: VersionView,
    d1: StateDiffView<T>,
    d2: StateDiffView<T>,
    s2: StateView<T>,
    sc: StateView<T>,
    key_codec: Seq<char>,
    val_codec: Seq<char>,
    diff_codec: Seq<char>,
)
    requires
        diff_decode::<T>(build, b1) == Ok::<StateDiffView<T>, StateDecodeErrView>(d1),
        apply_diff_spec(s, d1) == Ok::<StateView<T>, ApplyDiffErr>(s2),
        diff_decode::<T>(build, b2) == Ok::<StateDiffView<T>, StateDecodeErrView>(d2),
        apply_diff_spec(s2, d2) == Ok::<StateView<T>, ApplyDiffErr>(sc),
        sc.wf(),
        sc.canonical(),
        sc.applier_version.wf(),
        crate::encoding::fmt_facts(sc),
        crate::encoding::trace_monotone(sc.collections.trace),
        !build.lt_spec(sc.applier_version),
        <ProtoStateRollup as Wire>::bounded(
            crate::encoding::state_to_proto::<T>(sc, key_codec, val_codec, diff_codec),
        ),
    ensures
        apply_encoded_diffs_spec::<T>(s, build, seq![b1, b2]) == Ok::<
            StateView<T>,
            ApplyDiffsErrView,
        >(sc),
        ({
            let rollup_at_c = ProtoStateRollup::enc(
                crate::encoding::state_to_proto::<T>(sc, key_codec, val_codec, diff_codec),
            );
            match crate::encoding::untyped_decode::<T>(build, rollup_at_c) {
                Ok(u) => u.state == sc,
                Err(_) => false,
            }
        }),
{
    lemma_apply_two::<T>(s, b1, b2, build, d1, d2, s2, sc);
    crate::encoding::lemma_state_encode_decode::<T>(sc, build, key_codec, val_codec, diff_codec);
}

} // verus!
