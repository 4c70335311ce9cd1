//! Conversions between the state model and its wire records, including the
//! migrations that fill defaults for fields older writers did not know, and
//! the version and codec gates that make cross-version decoding safe.
//!
//! Each `into_proto` is pinned to a spec-level `*_to_proto` function of the
//! value's view, and each `from_proto` to a total spec-level `*_from_proto`
//! function that says exactly which records decode and to what. The
//! `lemma_*_round_trip` lemmas show that decoding an encoding restores the
//! original view.

use vstd::prelude::*;
use crate::antichain::{
    ac_le, lemma_ac_le_elim, lemma_ac_le_total, min_antichain, Antichain, Description,
    DescriptionView,
};
use crate::codec::{Codec64, Timestamp};
use crate::error::{TryFromProtoError, TryFromProtoErrorView};
use crate::ids::{
    hex_digit, hex_pair, hex_str, id_chars, id_from_chars, parsed_uuid, uuid_chars,
    CriticalReaderId, IdempotencyToken, LeasedReaderId, PartialBatchKey, PartialRollupKey,
    WriterId,
};
use crate::proto::{
    ProtoHandleDebugState, ProtoHollowBatch, ProtoHollowBatchPart, ProtoHollowBatchPartView,
    ProtoHollowBatchView, ProtoLeasedReaderState, ProtoLeasedReaderStateView, ProtoMapEntry,
    ProtoCriticalReaderState, ProtoCriticalReaderStateView, ProtoRollupEntry,
    ProtoRollupEntryView, ProtoStateRollup, ProtoStateRollupView, ProtoTrace, ProtoTraceView,
    ProtoU64Antichain, ProtoU64Description, ProtoU64DescriptionView, ProtoWriterState,
    ProtoWriterStateView,
};
use core::marker::PhantomData;
use crate::error::{CodecMismatch, CodecMismatchT, StateDecodeErr, StateDecodeErrView};
use crate::codec::Codec;
use crate::ids::ShardId;
use crate::state::{
    key_in, keys_unique, parts_view, rollups_sorted, CriticalReaderState, CriticalReaderStateView,
    HandleDebugState, HandleDebugStateView, HollowBatch, HollowBatchPart, HollowBatchPartView,
    HollowBatchView, IdMap, LeasedReaderState, LeasedReaderStateView, OpaqueState, RollupMap,
    SeqNo, State, StateCollections, StateCollectionsView, StateView, TypedState, WriterState,
    WriterStateView,
};
use crate::trace::{spine_view, Trace, TraceView};
use crate::version::{lemma_dec_chars_len, parsed_version, version_chars, Version, VersionView};
use crate::wire::{opt_vv, vvs_of, Wire};
use crate::DEFAULT_READ_LEASE_DURATION_MS;

verus! {

/// The fatal arm of the version gate: a record from the future (an applier
/// version strictly newer than the build version) must not be processed.
pub fn check_applier_version(build_version: &Version, applier_version: &Version) -> (r: bool)
    ensures
        r == build_version@.lt_spec(applier_version@),
{
    build_version.lt(applier_version)
}

// ---------------------------------------------------------------------------
// Antichains.
// ---------------------------------------------------------------------------

/// Each timestamp as its 8-byte encoding.
pub open spec fn ac_to_proto<T: Timestamp>(a: Seq<T>) -> Seq<Seq<u8>> {
    Seq::new(a.len(), |i: int| a[i].enc64_spec())
}

pub open spec fn ac_decoded<T: Timestamp>(v: Seq<Seq<u8>>) -> Seq<T> {
    Seq::new(v.len(), |i: int| T::dec64_spec(v[i]))
}

/// Decoding keeps the minimal elements of whatever list the wire carried.
pub open spec fn ac_from_proto<T: Timestamp>(v: Seq<Seq<u8>>) -> Seq<T> {
    min_antichain(ac_decoded::<T>(v))
}

pub proof fn lemma_ac_round_trip<T: Timestamp>(a: Seq<T>)
    requires
        a.len() <= 1,
    ensures
        ac_from_proto::<T>(ac_to_proto(a)) == a,
{
    let d = ac_decoded::<T>(ac_to_proto(a));
    if a.len() == 0 {
        assert(ac_from_proto::<T>(ac_to_proto(a)) =~= a);
    } else {
        a[0].lemma_enc64_round_trip();
        assert(d =~= seq![a[0]]);
        assert(d.drop_first() =~= Seq::<T>::empty());
        assert(min_antichain(d) =~= a);
    }
}

impl<T: Timestamp> Antichain<T> {
    pub fn into_proto(&self) -> (r: ProtoU64Antichain)
        ensures
            r.vv() == ac_to_proto(self@),
    {
        let els = self.elements();
        let mut elements: Vec<[u8; 8]> = Vec::new();
        let mut i: usize = 0;
        while i < els.len()
            invariant
                i <= els@.len(),
                els@.len() == self@.len(),
                elements@.len() == i,
                forall|j: int| 0 <= j < i ==> (#[trigger] elements@[j])@ == self@[j].enc64_spec(),
                forall|j: int| 0 <= j < els@.len() ==> els@[j] == self@[j],
            decreases els@.len() - i,
        {
            elements.push(els[i].enc64());
            i = i + 1;
        }
        let r = ProtoU64Antichain { elements };
        proof {
            assert(r.vv() =~= ac_to_proto(self@));
        }
        r
    }

    pub fn from_proto(proto: &ProtoU64Antichain) -> (r: Antichain<T>)
        ensures
            r@ == ac_from_proto::<T>(proto.vv()),
            r.wf(),
    {
        let mut ts: Vec<T> = Vec::new();
        let mut i: usize = 0;
        while i < proto.elements.len()
            invariant
                i <= proto.elements@.len(),
                ts@.len() == i,
                forall|j: int| 0 <= j < i ==> #[trigger] ts@[j] == T::dec64_spec(
                    proto.elements@[j]@,
                ),
            decreases proto.elements@.len() - i,
        {
            ts.push(T::dec64(&proto.elements[i]));
            i = i + 1;
        }
        proof {
            assert(ts@ =~= ac_decoded::<T>(proto.vv()));
        }
        Antichain::from_vec(&ts)
    }
}

// ---------------------------------------------------------------------------
// Descriptions.
// ---------------------------------------------------------------------------

pub open spec fn desc_to_proto<T: Timestamp>(d: DescriptionView<T>) -> ProtoU64DescriptionView {
    ProtoU64DescriptionView {
        lower: Some(ac_to_proto(d.lower)),
        upper: Some(ac_to_proto(d.upper)),
        since: Some(ac_to_proto(d.since)),
    }
}

pub open spec fn desc_from_proto<T: Timestamp>(p: ProtoU64DescriptionView) -> Result<
    DescriptionView<T>,
    TryFromProtoErrorView,
> {
    match p.lower {
        None => Err(TryFromProtoErrorView::InvalidPersistState("lower"@)),
        Some(lower) => match p.upper {
            None => Err(TryFromProtoErrorView::InvalidPersistState("upper"@)),
            Some(upper) => match p.since {
                None => Err(TryFromProtoErrorView::InvalidPersistState("since"@)),
                Some(since) => Ok(
                    (DescriptionView {
                        lower: ac_from_proto::<T>(lower),
                        upper: ac_from_proto::<T>(upper),
                        since: ac_from_proto::<T>(since),
                    }),
                ),
            },
        },
    }
}

pub proof fn lemma_desc_round_trip<T: Timestamp>(d: DescriptionView<T>)
    requires
        d.lower.len() <= 1,
        d.upper.len() <= 1,
        d.since.len() <= 1,
    ensures
        desc_from_proto::<T>(desc_to_proto(d)) == Ok::<_, TryFromProtoErrorView>(d),
{
    lemma_ac_round_trip::<T>(d.lower);
    lemma_ac_round_trip::<T>(d.upper);
    lemma_ac_round_trip::<T>(d.since);
}

impl<T: Timestamp> Description<T> {
    pub fn into_proto(&self) -> (r: ProtoU64Description)
        ensures
            r.vv() == desc_to_proto(self@),
    {
        ProtoU64Description {
            lower: Some(self.lower().into_proto()),
            upper: Some(self.upper().into_proto()),
            since: Some(self.since().into_proto()),
        }
    }

    pub fn from_proto(proto: ProtoU64Description) -> (r: Result<Description<T>, TryFromProtoError>)
        ensures
            match r {
                Ok(d) => desc_from_proto::<T>(proto.vv()) == Ok::<_, TryFromProtoErrorView>(d@)
                    && d.wf(),
                Err(e) => desc_from_proto::<T>(proto.vv()) == Err::<DescriptionView<T>, _>(e@),
            },
    {
        let lower = match proto.lower {
            Some(x) => Antichain::<T>::from_proto(&x),
            None => {
                return Err(TryFromProtoError::InvalidPersistState("lower".to_owned()));
            },
        };
        let upper = match proto.upper {
            Some(x) => Antichain::<T>::from_proto(&x),
            None => {
                return Err(TryFromProtoError::InvalidPersistState("upper".to_owned()));
            },
        };
        let since = match proto.since {
            Some(x) => Antichain::<T>::from_proto(&x),
            None => {
                return Err(TryFromProtoError::InvalidPersistState("since".to_owned()));
            },
        };
        Ok(Description::new(lower, upper, since))
    }
}

// ---------------------------------------------------------------------------
// Debug state.
// ---------------------------------------------------------------------------

pub open spec fn debug_default() -> HandleDebugStateView {
    HandleDebugStateView { hostname: Seq::empty(), purpose: Seq::empty() }
}

impl HandleDebugState {
    pub fn into_proto(&self) -> (r: ProtoHandleDebugState)
        ensures
            r.vv() == self@,
    {
        ProtoHandleDebugState { hostname: self.hostname.clone(), purpose: self.purpose.clone() }
    }

    pub fn from_proto(proto: ProtoHandleDebugState) -> (r: HandleDebugState)
        ensures
            r@ == proto.vv(),
    {
        HandleDebugState { hostname: proto.hostname, purpose: proto.purpose }
    }
}

// ---------------------------------------------------------------------------
// Hollow batches.
// ---------------------------------------------------------------------------

pub open spec fn part_to_proto(p: HollowBatchPartView) -> ProtoHollowBatchPartView {
    ProtoHollowBatchPartView { key: p.key, encoded_size_bytes: p.encoded_size_bytes }
}

pub open spec fn part_from_proto(p: ProtoHollowBatchPartView) -> HollowBatchPartView {
    HollowBatchPartView { key: p.key, encoded_size_bytes: p.encoded_size_bytes }
}

impl HollowBatchPart {
    pub fn into_proto(&self) -> (r: ProtoHollowBatchPart)
        ensures
            r.vv() == part_to_proto(self@),
    {
        ProtoHollowBatchPart {
            key: self.key.into_proto(),
            encoded_size_bytes: self.encoded_size_bytes,
        }
    }

    pub fn from_proto(proto: ProtoHollowBatchPart) -> (r: HollowBatchPart)
        ensures
            r@ == part_from_proto(proto.vv()),
    {
        HollowBatchPart {
            key: PartialBatchKey::from_proto(proto.key),
            encoded_size_bytes: proto.encoded_size_bytes,
        }
    }
}

pub open spec fn batch_to_proto<T: Timestamp>(b: HollowBatchView<T>) -> ProtoHollowBatchView {
    ProtoHollowBatchView {
        desc: Some(desc_to_proto(b.desc)),
        parts: Seq::new(b.parts.len(), |i: int| part_to_proto(b.parts[i])),
        len: b.len,
        runs: b.runs,
        deprecated_keys: Seq::empty(),
    }
}

/// Decoded parts: the structured `parts`, then one zero-sized part per
/// legacy `deprecated_keys` entry, in that order.
pub open spec fn batch_parts_from_proto(p: ProtoHollowBatchView) -> Seq<HollowBatchPartView> {
    Seq::new(p.parts.len(), |i: int| part_from_proto(p.parts[i])) + Seq::new(
        p.deprecated_keys.len(),
        |i: int| (HollowBatchPartView { key: p.deprecated_keys[i], encoded_size_bytes: 0 }),
    )
}

pub open spec fn batch_from_proto<T: Timestamp>(p: ProtoHollowBatchView) -> Result<
    HollowBatchView<T>,
    TryFromProtoErrorView,
> {
    match p.desc {
        None => Err(TryFromProtoErrorView::InvalidPersistState("desc"@)),
        Some(d) => match desc_from_proto::<T>(d) {
            Err(e) => Err(e),
            Ok(desc) => Ok(
                (HollowBatchView { desc, parts: batch_parts_from_proto(p), len: p.len, runs: p.runs
                }),
            ),
        },
    }
}

pub proof fn lemma_batch_round_trip<T: Timestamp>(b: HollowBatchView<T>)
    requires
        b.desc.lower.len() <= 1,
        b.desc.upper.len() <= 1,
        b.desc.since.len() <= 1,
    ensures
        batch_from_proto::<T>(batch_to_proto(b)) == Ok::<_, TryFromProtoErrorView>(b),
{
    lemma_desc_round_trip::<T>(b.desc);
    assert(batch_parts_from_proto(batch_to_proto(b)) =~= b.parts);
    match batch_from_proto::<T>(batch_to_proto(b)) {
        Ok(b2) => {
            assert(b2 == b);
        },
        Err(_) => {
            assert(false);
        },
    }
}

impl<T: Timestamp> HollowBatch<T> {
    pub fn into_proto(&self) -> (r: ProtoHollowBatch)
        ensures
            r.vv() == batch_to_proto(self@),
    {
        let mut parts: Vec<ProtoHollowBatchPart> = Vec::new();
        let mut i: usize = 0;
        while i < self.parts.len()
            invariant
                i <= self.parts@.len(),
                parts@.len() == i,
                forall|j: int| 0 <= j < i ==> (#[trigger] parts@[j]).vv() == part_to_proto(
                    self.parts@[j]@,
                ),
            decreases self.parts@.len() - i,
        {
            parts.push(self.parts[i].into_proto());
            i = i + 1;
        }
        let mut runs: Vec<u64> = Vec::new();
        let mut j: usize = 0;
        while j < self.runs.len()
            invariant
                j <= self.runs@.len(),
                runs@ == self.runs@.take(j as int),
            decreases self.runs@.len() - j,
        {
            runs.push(self.runs[j]);
            assert(runs@ =~= self.runs@.take(j as int + 1));
            j = j + 1;
        }
        let r = ProtoHollowBatch {
            desc: Some(self.desc.into_proto()),
            parts,
            len: self.len,
            runs,
            deprecated_keys: Vec::new(),
        };
        proof {
            assert(r.vv().runs =~= batch_to_proto(self@).runs);
            assert(r.vv().parts =~= batch_to_proto(self@).parts);
            assert(r.vv().deprecated_keys =~= batch_to_proto(self@).deprecated_keys);
            assert(r.vv().desc == batch_to_proto(self@).desc);
            assert(r.vv().len == batch_to_proto(self@).len);
        }
        r
    }

    pub fn from_proto(proto: ProtoHollowBatch) -> (r: Result<HollowBatch<T>, TryFromProtoError>)
        ensures
            match r {
                Ok(b) => batch_from_proto::<T>(proto.vv()) == Ok::<_, TryFromProtoErrorView>(b@)
                    && b.wf(),
                Err(e) => batch_from_proto::<T>(proto.vv()) == Err::<HollowBatchView<T>, _>(e@),
            },
    {
        let ghost pvv = proto.vv();
        let desc = match proto.desc {
            Some(d) => {
                proof {
                    assert(pvv.desc == Some(d.vv()));
                }
                match Description::<T>::from_proto(d) {
                    Ok(x) => x,
                    Err(e) => {
                        proof {
                            assert(batch_from_proto::<T>(pvv) == Err::<HollowBatchView<T>, _>(e@));
                        }
                        return Err(e);
                    },
                }
            },
            None => {
                return Err(TryFromProtoError::InvalidPersistState("desc".to_owned()));
            },
        };
        let mut parts: Vec<HollowBatchPart> = Vec::new();
        let proto_parts = proto.parts;
        let mut i: usize = 0;
        while i < proto_parts.len()
            invariant
                i <= proto_parts@.len(),
                parts@.len() == i,
                forall|j: int| 0 <= j < i ==> (#[trigger] parts@[j])@ == part_from_proto(
                    proto_parts@[j].vv(),
                ),
            decreases proto_parts@.len() - i,
        {
            let ghost pre = parts@.len();
            let p = &proto_parts[i];
            parts.push(
                HollowBatchPart {
                    key: PartialBatchKey(p.key.clone()),
                    encoded_size_bytes: p.encoded_size_bytes,
                },
            );
            i = i + 1;
        }
        let dep = proto.deprecated_keys;
        let mut k: usize = 0;
        while k < dep.len()
            invariant
                k <= dep@.len(),
                parts@.len() == proto_parts@.len() + k,
                forall|j: int| 0 <= j < proto_parts@.len() ==> (#[trigger] parts@[j])@
                    == part_from_proto(proto_parts@[j].vv()),
                forall|j: int|
                    proto_parts@.len() <= j < parts@.len() ==> (#[trigger] parts@[j])@ == (
                    HollowBatchPartView {
                        key: dep@[j - proto_parts@.len()]@,
                        encoded_size_bytes: 0,
                    }),
            decreases dep@.len() - k,
        {
            parts.push(HollowBatchPart { key: PartialBatchKey(dep[k].clone()), encoded_size_bytes: 0 });
            k = k + 1;
        }
        let b = HollowBatch { desc, parts, len: proto.len, runs: proto.runs };
        proof {
            assert(parts_view(b.parts@) =~= batch_parts_from_proto(pvv));
            assert(b@.desc == desc@);
            assert(b@.len == pvv.len && b@.runs == pvv.runs);
            assert(batch_from_proto::<T>(pvv) == Ok::<_, TryFromProtoErrorView>(b@));
        }
        Ok(b)
    }
}

// ---------------------------------------------------------------------------
// The trace.
// ---------------------------------------------------------------------------

pub proof fn lemma_hex_snoc(bs: Seq<u8>, x: u8)
    ensures
        hex_str(bs.push(x)) == hex_str(bs) + hex_pair(x),
    decreases bs.len(),
{
    if bs.len() == 0 {
        assert(bs.push(x)[0] == x);
        assert(bs.push(x).drop_first() =~= Seq::<u8>::empty());
        assert(hex_str(Seq::<u8>::empty()) == Seq::<char>::empty());
        assert(bs =~= Seq::<u8>::empty());
        assert(hex_str(bs.push(x)) =~= hex_str(bs) + hex_pair(x));
    } else {
        assert(bs.push(x)[0] == bs[0]);
        assert(bs.push(x).drop_first() =~= bs.drop_first().push(x));
        lemma_hex_snoc(bs.drop_first(), x);
        assert(hex_pair(bs[0]) + (hex_str(bs.drop_first()) + hex_pair(x)) =~= (hex_pair(bs[0])
            + hex_str(bs.drop_first())) + hex_pair(x));
        assert(hex_str(bs.push(x)) =~= hex_str(bs) + hex_pair(x));
    }
}

/// Appends one lower-case hexadecimal digit (for `n < 16`).
fn append_hex_digit(s: &mut String, n: u8)
    requires
        n < 16,
    ensures
        final(s)@ == old(s)@ + seq![hex_digit(n)],
{
    if n == 0 {
        proof {
            reveal_strlit("0");
        }
        s.append("0");
        assert(s@ =~= old(s)@ + seq![hex_digit(n)]);
    } else if n == 1 {
        proof {
            reveal_strlit("1");
        }
        s.append("1");
        assert(s@ =~= old(s)@ + seq![hex_digit(n)]);
    } else if n == 2 {
        proof {
            reveal_strlit("2");
        }
        s.append("2");
        assert(s@ =~= old(s)@ + seq![hex_digit(n)]);
    } else if n == 3 {
        proof {
            reveal_strlit("3");
        }
        s.append("3");
        assert(s@ =~= old(s)@ + seq![hex_digit(n)]);
    } else if n == 4 {
        proof {
            reveal_strlit("4");
        }
        s.append("4");
        assert(s@ =~= old(s)@ + seq![hex_digit(n)]);
    } else if n == 5 {
        proof {
            reveal_strlit("5");
        }
        s.append("5");
        assert(s@ =~= old(s)@ + seq![hex_digit(n)]);
    } else if n == 6 {
        proof {
            reveal_strlit("6");
        }
        s.append("6");
        assert(s@ =~= old(s)@ + seq![hex_digit(n)]);
    } else if n == 7 {
        proof {
            reveal_strlit("7");
        }
        s.append("7");
        assert(s@ =~= old(s)@ + seq![hex_digit(n)]);
    } else if n == 8 {
        proof {
            reveal_strlit("8");
        }
        s.append("8");
        assert(s@ =~= old(s)@ + seq![hex_digit(n)]);
    } else if n == 9 {
        proof {
            reveal_strlit("9");
        }
        s.append("9");
        assert(s@ =~= old(s)@ + seq![hex_digit(n)]);
    } else if n == 10 {
        proof {
            reveal_strlit("a");
        }
        s.append("a");
        assert(s@ =~= old(s)@ + seq![hex_digit(n)]);
    } else if n == 11 {
        proof {
            reveal_strlit("b");
        }
        s.append("b");
        assert(s@ =~= old(s)@ + seq![hex_digit(n)]);
    } else if n == 12 {
        proof {
            reveal_strlit("c");
        }
        s.append("c");
        assert(s@ =~= old(s)@ + seq![hex_digit(n)]);
    } else if n == 13 {
        proof {
            reveal_strlit("d");
        }
        s.append("d");
        assert(s@ =~= old(s)@ + seq![hex_digit(n)]);
    } else if n == 14 {
        proof {
            reveal_strlit("e");
        }
        s.append("e");
        assert(s@ =~= old(s)@ + seq![hex_digit(n)]);
    } else {
        proof {
            reveal_strlit("f");
        }
        s.append("f");
        assert(s@ =~= old(s)@ + seq![hex_digit(n)]);
    }
}

fn append_hex_byte(s: &mut String, b: u8)
    ensures
        final(s)@ == old(s)@ + hex_pair(b),
{
    append_hex_digit(s, b / 16);
    append_hex_digit(s, b % 16);
    assert(s@ =~= old(s)@ + hex_pair(b));
}

fn append_hex8(s: &mut String, b: &[u8; 8])
    ensures
        final(s)@ == old(s)@ + hex_str(b@),
{
    let mut i: usize = 0;
    while i < 8
        invariant
            i <= 8,
            s@ == old(s)@ + hex_str(b@.take(i as int)),
        decreases 8 - i,
    {
        let ghost pre = b@.take(i as int);
        append_hex_byte(s, b[i]);
        proof {
            lemma_hex_snoc(pre, b@[i as int]);
            assert(b@.take(i as int + 1) =~= pre.push(b@[i as int]));
            assert(s@ =~= old(s)@ + hex_str(b@.take(i as int + 1)));
        }
        i = i + 1;
    }
    proof {
        assert(b@.take(8) =~= b@);
    }
}

/// A frontier rendered for diagnostics: the hex of its timestamp's 8-byte
/// encoding, or `empty` for the empty frontier.
pub open spec fn frontier_chars<T: Timestamp>(a: Seq<T>) -> Seq<char> {
    if a.len() == 0 {
        "empty"@
    } else {
        hex_str(a[0].enc64_spec())
    }
}

fn append_frontier<T: Timestamp>(s: &mut String, a: &Antichain<T>)
    ensures
        final(s)@ == old(s)@ + frontier_chars(a@),
{
    let els = a.elements();
    if els.len() == 0 {
        s.append("empty");
    } else {
        let bytes = els[0].enc64();
        append_hex8(s, &bytes);
    }
}

/// The since-gate diagnostic, naming the trace's frontier and the
/// offending batch's.
pub open spec fn spine_gate_msg<T: Timestamp>(since: Seq<T>, bsince: Seq<T>) -> Seq<char> {
    "spine since "@ + frontier_chars(since) + " batch since "@ + frontier_chars(bsince)
}

fn spine_gate_err<T: Timestamp>(since: &Antichain<T>, bsince: &Antichain<T>) -> (r: String)
    ensures
        r@ == spine_gate_msg(since@, bsince@),
{
    let mut s = String::from_str("spine since ");
    append_frontier(&mut s, since);
    s.append(" batch since ");
    append_frontier(&mut s, bsince);
    proof {
        assert(s@ =~= spine_gate_msg(since@, bsince@));
    }
    s
}

/// Rebuilds the spine in order, rejecting any batch whose `since` the
/// trace's own `since` strictly exceeds.
pub open spec fn spine_from_proto<T: Timestamp>(since: Seq<T>, batches: Seq<ProtoHollowBatchView>)
    -> Result<Seq<HollowBatchView<T>>, TryFromProtoErrorView>
    decreases batches.len(),
{
    if batches.len() == 0 {
        Ok(Seq::empty())
    } else {
        match batch_from_proto::<T>(batches[0]) {
            Err(e) => Err(e),
            Ok(b) => if ac_le(b.desc.since, since) && b.desc.since != since {
                Err(TryFromProtoErrorView::InvalidPersistState(spine_gate_msg(since, b.desc.since)))
            } else {
                match spine_from_proto::<T>(since, batches.drop_first()) {
                    Err(e) => Err(e),
                    Ok(rest) => Ok(seq![b] + rest),
                }
            },
        }
    }
}

pub open spec fn trace_from_proto<T: Timestamp>(p: ProtoTraceView) -> Result<
    TraceView<T>,
    TryFromProtoErrorView,
> {
    match p.since {
        None => Err(TryFromProtoErrorView::InvalidPersistState("since"@)),
        Some(s) => {
            let since = ac_from_proto::<T>(s);
            match spine_from_proto::<T>(since, p.spine) {
                Err(e) => Err(e),
                Ok(spine) => Ok((TraceView { since, spine })),
            }
        },
    }
}

pub open spec fn trace_to_proto<T: Timestamp>(t: TraceView<T>) -> ProtoTraceView {
    ProtoTraceView {
        since: Some(ac_to_proto(t.since)),
        spine: Seq::new(t.spine.len(), |i: int| batch_to_proto(t.spine[i])),
    }
}

impl<T: Timestamp> Trace<T> {
    pub fn into_proto(&self) -> (r: ProtoTrace)
        ensures
            r.vv() == trace_to_proto(self@),
    {
        let batches = self.batches();
        let mut spine: Vec<ProtoHollowBatch> = Vec::new();
        let mut i: usize = 0;
        while i < batches.len()
            invariant
                i <= batches@.len(),
                batches@.len() == self@.spine.len(),
                spine@.len() == i,
                forall|j: int| 0 <= j < batches@.len() ==> (#[trigger] batches@[j])@
                    == self@.spine[j],
                forall|j: int| 0 <= j < i ==> (#[trigger] spine@[j]).vv() == batch_to_proto(
                    self@.spine[j],
                ),
            decreases batches@.len() - i,
        {
            spine.push(batches[i].into_proto());
            i = i + 1;
        }
        let r = ProtoTrace { since: Some(self.since().into_proto()), spine };
        proof {
            assert(vvs_of(r.spine@) =~= trace_to_proto(self@).spine);
        }
        r
    }

    #[verifier::loop_isolation(false)]
    pub fn from_proto(proto: ProtoTrace) -> (r: Result<Trace<T>, TryFromProtoError>)
        ensures
            match r {
                Ok(t) => trace_from_proto::<T>(proto.vv()) == Ok::<_, TryFromProtoErrorView>(t@)
                    && t.wf() && t.since_monotone(),
                Err(e) => trace_from_proto::<T>(proto.vv()) == Err::<TraceView<T>, _>(e@),
            },
    {
        let ghost pvv = proto.vv();
        let since = match proto.since {
            Some(s) => {
                proof {
                    assert(pvv.since == Some(s.vv()));
                }
                Antichain::<T>::from_proto(&s)
            },
            None => {
                return Err(TryFromProtoError::InvalidPersistState("since".to_owned()));
            },
        };
        let mut ret = Trace::<T>::default();
        ret.downgrade_since(&since);
        let mut spine = proto.spine;
        let ghost allvv = vvs_of(spine@);
        proof {
            assert(allvv == pvv.spine);
        }
        while spine.len() > 0
            invariant
                match pvv.since {
                    Some(svv) => ac_from_proto::<T>(svv) == since@,
                    None => false,
                },
                allvv == pvv.spine,
                ret@.since == since@,
                since.wf(),
                ret.wf(),
                ret.since_monotone(),
                vvs_of(spine@) == allvv.skip(allvv.len() - spine@.len()),
                spine@.len() <= allvv.len(),
                (spine_from_proto::<T>(since@, vvs_of(spine@)) matches Ok(rest)
                    ==> spine_from_proto::<T>(since@, allvv) == Ok::<_, TryFromProtoErrorView>(
                    ret@.spine + rest,
                )),
                (spine_from_proto::<T>(since@, vvs_of(spine@)) matches Err(e)
                    ==> spine_from_proto::<T>(since@, allvv) == Err::<Seq<HollowBatchView<T>>, _>(
                    e,
                )),
            decreases spine@.len(),
        {
            let ghost prevv = vvs_of(spine@);
            let pb = spine.remove(0);
            proof {
                assert(vvs_of(spine@) =~= prevv.drop_first());
                assert(vvs_of(spine@) =~= allvv.skip(allvv.len() - spine@.len()));
                assert(prevv[0] == pb.vv());
            }
            let b = match HollowBatch::<T>::from_proto(pb) {
                Ok(x) => x,
                Err(e) => {
                    proof {
                        assert(spine_from_proto::<T>(since@, prevv) == Err::<
                            Seq<HollowBatchView<T>>,
                            _,
                        >(e@));
                        assert(spine_from_proto::<T>(since@, allvv) == Err::<
                            Seq<HollowBatchView<T>>,
                            _,
                        >(e@));
                        assert(trace_from_proto::<T>(pvv) == Err::<TraceView<T>, _>(e@));
                    }
                    return Err(e);
                },
            };
            if b.desc.since().less_than(&since) {
                proof {
                    let ev = TryFromProtoErrorView::InvalidPersistState(
                        spine_gate_msg(since@, b@.desc.since),
                    );
                    assert(spine_from_proto::<T>(since@, prevv) == Err::<
                        Seq<HollowBatchView<T>>,
                        _,
                    >(ev));
                    assert(spine_from_proto::<T>(since@, allvv) == Err::<
                        Seq<HollowBatchView<T>>,
                        _,
                    >(ev));
                    assert(trace_from_proto::<T>(pvv) == Err::<TraceView<T>, _>(ev));
                }
                return Err(
                    TryFromProtoError::InvalidPersistState(spine_gate_err(&since, b.desc.since())),
                );
            }
            proof {
                lemma_ac_le_total::<T>(since@, b@.desc.since);
                if !ac_le(since@, b@.desc.since) {
                    assert(ac_le(b@.desc.since, since@));
                    lemma_ac_le_refl::<T>(since@);
                    assert(b@.desc.since != since@);
                    assert(false);
                }
            }
            let ghost bv = b@;
            let ghost spinepre = ret@.spine;
            ret.push_batch(b);
            proof {
                match spine_from_proto::<T>(since@, vvs_of(spine@)) {
                    Ok(rest) => {
                        assert(spine_from_proto::<T>(since@, prevv) == Ok::<
                            _,
                            TryFromProtoErrorView,
                        >(seq![bv] + rest));
                        assert(spinepre + (seq![bv] + rest) =~= ret@.spine + rest);
                    },
                    Err(e) => {
                        assert(spine_from_proto::<T>(since@, prevv) == Err::<
                            Seq<HollowBatchView<T>>,
                            _,
                        >(e));
                    },
                }
            }
        }
        proof {
            assert(vvs_of(spine@).len() == 0);
            assert(spine_from_proto::<T>(since@, vvs_of(spine@)) == Ok::<
                _,
                TryFromProtoErrorView,
            >(Seq::<HollowBatchView<T>>::empty()));
            assert(ret@.spine + Seq::<HollowBatchView<T>>::empty() =~= ret@.spine);
            assert(spine_from_proto::<T>(since@, allvv) == Ok::<_, TryFromProtoErrorView>(
                ret@.spine,
            ));
            assert(trace_from_proto::<T>(pvv) == Ok::<_, TryFromProtoErrorView>(ret@));
        }
        Ok(ret)
    }
}

// ---------------------------------------------------------------------------
// Reader and writer lease records.
// ---------------------------------------------------------------------------

pub open spec fn lrs_to_proto<T: Timestamp>(v: LeasedReaderStateView<T>) -> ProtoLeasedReaderStateView {
    ProtoLeasedReaderStateView {
        seqno: v.seqno.0,
        since: Some(ac_to_proto(v.since)),
        last_heartbeat_timestamp_ms: v.last_heartbeat_timestamp_ms,
        lease_duration_ms: v.lease_duration_ms,
        debug: Some(v.debug),
    }
}

/// A zero lease duration and an absent debug record are older wire shapes;
/// decoding fills the platform default and an empty debug record.
pub open spec fn lrs_from_proto<T: Timestamp>(p: ProtoLeasedReaderStateView) -> Result<
    LeasedReaderStateView<T>,
    TryFromProtoErrorView,
> {
    match p.since {
        None => Err(TryFromProtoErrorView::InvalidPersistState("ProtoLeasedReaderState::since"@)),
        Some(s) => Ok(
            (LeasedReaderStateView {
                seqno: SeqNo(p.seqno),
                since: ac_from_proto::<T>(s),
                last_heartbeat_timestamp_ms: p.last_heartbeat_timestamp_ms,
                lease_duration_ms: if p.lease_duration_ms == 0 {
                    DEFAULT_READ_LEASE_DURATION_MS
                } else {
                    p.lease_duration_ms
                },
                debug: match p.debug {
                    Some(d) => d,
                    None => debug_default(),
                },
            }),
        ),
    }
}

pub proof fn lemma_lrs_round_trip<T: Timestamp>(v: LeasedReaderStateView<T>)
    requires
        v.since.len() <= 1,
        v.lease_duration_ms != 0,
    ensures
        lrs_from_proto::<T>(lrs_to_proto(v)) == Ok::<_, TryFromProtoErrorView>(v),
{
    lemma_ac_round_trip::<T>(v.since);
}

impl<T: Timestamp> LeasedReaderState<T> {
    pub fn into_proto(&self) -> (r: ProtoLeasedReaderState)
        ensures
            r.vv() == lrs_to_proto(self@),
    {
        ProtoLeasedReaderState {
            seqno: self.seqno.0,
            since: Some(self.since.into_proto()),
            last_heartbeat_timestamp_ms: self.last_heartbeat_timestamp_ms,
            lease_duration_ms: self.lease_duration_ms,
            debug: Some(self.debug.into_proto()),
        }
    }

    pub fn from_proto(proto: ProtoLeasedReaderState) -> (r: Result<
        LeasedReaderState<T>,
        TryFromProtoError,
    >)
        ensures
            match r {
                Ok(s) => lrs_from_proto::<T>(proto.vv()) == Ok::<_, TryFromProtoErrorView>(s@)
                    && s.since.wf() && s.lease_duration_ms != 0,
                Err(e) => lrs_from_proto::<T>(proto.vv()) == Err::<LeasedReaderStateView<T>, _>(
                    e@,
                ),
            },
    {
        let since = match proto.since {
            Some(s) => Antichain::<T>::from_proto(&s),
            None => {
                return Err(
                    TryFromProtoError::InvalidPersistState(
                        "ProtoLeasedReaderState::since".to_owned(),
                    ),
                );
            },
        };
        let lease_duration_ms = if proto.lease_duration_ms == 0 {
            DEFAULT_READ_LEASE_DURATION_MS
        } else {
            proto.lease_duration_ms
        };
        let debug = match proto.debug {
            Some(d) => HandleDebugState::from_proto(d),
            None => HandleDebugState::empty(),
        };
        Ok(
            LeasedReaderState {
                seqno: SeqNo(proto.seqno),
                since,
                last_heartbeat_timestamp_ms: proto.last_heartbeat_timestamp_ms,
                lease_duration_ms,
                debug,
            },
        )
    }
}

pub open spec fn crs_to_proto<T: Timestamp>(v: CriticalReaderStateView<T>) -> ProtoCriticalReaderStateView {
    ProtoCriticalReaderStateView {
        since: Some(ac_to_proto(v.since)),
        opaque: v.opaque,
        opaque_codec: v.opaque_codec,
        debug: Some(v.debug),
    }
}

pub open spec fn crs_from_proto<T: Timestamp>(p: ProtoCriticalReaderStateView) -> Result<
    CriticalReaderStateView<T>,
    TryFromProtoErrorView,
> {
    match p.since {
        None => Err(TryFromProtoErrorView::InvalidPersistState("ProtoCriticalReaderState::since"@)),
        Some(s) => Ok(
            (CriticalReaderStateView {
                since: ac_from_proto::<T>(s),
                opaque: p.opaque,
                opaque_codec: p.opaque_codec,
                debug: match p.debug {
                    Some(d) => d,
                    None => debug_default(),
                },
            }),
        ),
    }
}

pub proof fn lemma_crs_round_trip<T: Timestamp>(v: CriticalReaderStateView<T>)
    requires
        v.since.len() <= 1,
    ensures
        crs_from_proto::<T>(crs_to_proto(v)) == Ok::<_, TryFromProtoErrorView>(v),
{
    lemma_ac_round_trip::<T>(v.since);
}

impl<T: Timestamp> CriticalReaderState<T> {
    pub fn into_proto(&self) -> (r: ProtoCriticalReaderState)
        ensures
            r.vv() == crs_to_proto(self@),
    {
        ProtoCriticalReaderState {
            since: Some(self.since.into_proto()),
            opaque: self.opaque.0,
            opaque_codec: self.opaque_codec.clone(),
            debug: Some(self.debug.into_proto()),
        }
    }

    pub fn from_proto(proto: ProtoCriticalReaderState) -> (r: Result<
        CriticalReaderState<T>,
        TryFromProtoError,
    >)
        ensures
            match r {
                Ok(s) => crs_from_proto::<T>(proto.vv()) == Ok::<_, TryFromProtoErrorView>(s@)
                    && s.since.wf(),
                Err(e) => crs_from_proto::<T>(proto.vv()) == Err::<CriticalReaderStateView<T>, _>(
                    e@,
                ),
            },
    {
        let since = match proto.since {
            Some(s) => Antichain::<T>::from_proto(&s),
            None => {
                return Err(
                    TryFromProtoError::InvalidPersistState(
                        "ProtoCriticalReaderState::since".to_owned(),
                    ),
                );
            },
        };
        let debug = match proto.debug {
            Some(d) => HandleDebugState::from_proto(d),
            None => HandleDebugState::empty(),
        };
        Ok(
            CriticalReaderState {
                since,
                opaque: OpaqueState(proto.opaque),
                opaque_codec: proto.opaque_codec,
                debug,
            },
        )
    }
}

pub open spec fn ws_to_proto<T: Timestamp>(v: WriterStateView<T>) -> ProtoWriterStateView {
    ProtoWriterStateView {
        last_heartbeat_timestamp_ms: v.last_heartbeat_timestamp_ms,
        lease_duration_ms: v.lease_duration_ms,
        most_recent_write_token: id_chars('i', v.most_recent_write_token),
        most_recent_write_upper: Some(ac_to_proto(v.most_recent_write_upper)),
        debug: Some(v.debug),
    }
}

/// An empty token and an absent upper are older wire shapes; decoding fills
/// the sentinel token and the minimum frontier.
pub open spec fn ws_from_proto<T: Timestamp>(p: ProtoWriterStateView) -> Result<
    WriterStateView<T>,
    TryFromProtoErrorView,
> {
    let token = if p.most_recent_write_token.len() == 0 {
        Ok(Seq::new(16, |i: int| 0u8))
    } else {
        match id_from_chars('i', p.most_recent_write_token) {
            Some(b) => Ok(b),
            None => Err(TryFromProtoErrorView::InvalidShardId(p.most_recent_write_token)),
        }
    };
    match token {
        Err(e) => Err(e),
        Ok(most_recent_write_token) => Ok(
            (WriterStateView {
                last_heartbeat_timestamp_ms: p.last_heartbeat_timestamp_ms,
                lease_duration_ms: p.lease_duration_ms,
                most_recent_write_token,
                most_recent_write_upper: match p.most_recent_write_upper {
                    Some(x) => ac_from_proto::<T>(x),
                    None => seq![T::minimum_spec()],
                },
                debug: match p.debug {
                    Some(d) => d,
                    None => debug_default(),
                },
            }),
        ),
    }
}

pub proof fn lemma_ws_round_trip<T: Timestamp>(v: WriterStateView<T>)
    requires
        v.most_recent_write_upper.len() <= 1,
        v.most_recent_write_token.len() == 16,
        parsed_uuid(uuid_chars(v.most_recent_write_token)) == Some(v.most_recent_write_token),
    ensures
        ws_from_proto::<T>(ws_to_proto(v)) == Ok::<_, TryFromProtoErrorView>(v),
{
    lemma_ac_round_trip::<T>(v.most_recent_write_upper);
    let ts = id_chars('i', v.most_recent_write_token);
    assert(ts.len() > 0);
    assert(ts[0] == 'i');
    assert(ts.skip(1) =~= uuid_chars(v.most_recent_write_token));
    assert(id_from_chars('i', ts) == Some(v.most_recent_write_token));
}

impl<T: Timestamp> WriterState<T> {
    pub fn into_proto(&self) -> (r: ProtoWriterState)
        ensures
            r.vv() == ws_to_proto(self@),
            parsed_uuid(uuid_chars(self@.most_recent_write_token)) == Some(
                self@.most_recent_write_token,
            ),
    {
        let token = IdempotencyToken(self.most_recent_write_token.0);
        let r = ProtoWriterState {
            last_heartbeat_timestamp_ms: self.last_heartbeat_timestamp_ms,
            lease_duration_ms: self.lease_duration_ms,
            most_recent_write_token: token.into_proto(),
            most_recent_write_upper: Some(self.most_recent_write_upper.into_proto()),
            debug: Some(self.debug.into_proto()),
        };
        proof {
            assert(r.most_recent_write_token@ =~= id_chars('i', self@.most_recent_write_token));
            assert(r.most_recent_write_token@.skip(1) =~= uuid_chars(
                self@.most_recent_write_token,
            ));
        }
        r
    }

    pub fn from_proto(proto: ProtoWriterState) -> (r: Result<WriterState<T>, TryFromProtoError>)
        ensures
            match r {
                Ok(s) => ws_from_proto::<T>(proto.vv()) == Ok::<_, TryFromProtoErrorView>(s@)
                    && s.most_recent_write_upper.wf(),
                Err(e) => ws_from_proto::<T>(proto.vv()) == Err::<WriterStateView<T>, _>(e@),
            },
    {
        let most_recent_write_token = if proto.most_recent_write_token.as_str().is_empty() {
            IdempotencyToken::sentinel()
        } else {
            match IdempotencyToken::from_proto(proto.most_recent_write_token) {
                Ok(t) => t,
                Err(e) => {
                    return Err(e);
                },
            }
        };
        let most_recent_write_upper = match proto.most_recent_write_upper {
            Some(x) => Antichain::<T>::from_proto(&x),
            None => Antichain::from_elem(T::minimum()),
        };
        let debug = match proto.debug {
            Some(d) => HandleDebugState::from_proto(d),
            None => HandleDebugState::empty(),
        };
        Ok(
            WriterState {
                last_heartbeat_timestamp_ms: proto.last_heartbeat_timestamp_ms,
                lease_duration_ms: proto.lease_duration_ms,
                most_recent_write_token,
                most_recent_write_upper,
                debug,
            },
        )
    }
}

// ---------------------------------------------------------------------------
// The full state record.
// ---------------------------------------------------------------------------

/// The empty applier-version string is the oldest wire shape and decodes as
/// version zero; anything else must be a semantic version.
pub open spec fn version_from_chars(s: Seq<char>) -> Result<VersionView, TryFromProtoErrorView> {
    if s.len() == 0 {
        Ok(
            (VersionView {
                major: 0,
                minor: 0,
                patch: 0,
                pre: Seq::empty(),
                build: Seq::empty(),
            }),
        )
    } else {
        match parsed_version(s) {
            Some(vv) => Ok(vv),
            None => Err(TryFromProtoErrorView::InvalidSemverVersion(s)),
        }
    }
}

pub(crate) fn applier_version_from_proto(s: String) -> (r: Result<Version, TryFromProtoError>)
    ensures
        match r {
            Ok(v) => version_from_chars(s@) == Ok::<_, TryFromProtoErrorView>(v@) && v@.wf(),
            Err(e) => version_from_chars(s@) == Err::<VersionView, _>(e@),
        },
{
    if s.as_str().is_empty() {
        Ok(Version::new(0, 0, 0))
    } else {
        match Version::from_proto(s.as_str()) {
            Some(v) => Ok(v),
            None => Err(TryFromProtoError::InvalidSemverVersion(s)),
        }
    }
}

/// Rollup entries must arrive in strictly ascending seqno order. This is
/// deliberately strict: every encoder of this format writes the map in
/// ascending order, so out-of-order or duplicate seqnos can only mean a
/// corrupt or foreign record, which is refused as a structural error
/// rather than silently reordered.
pub open spec fn rollups_from_proto(es: Seq<ProtoRollupEntryView>) -> Result<
    Seq<(u64, Seq<char>)>,
    TryFromProtoErrorView,
> {
    let mapped = Seq::new(es.len(), |i: int| (es[i].seqno, es[i].key));
    if rollups_sorted(mapped) {
        Ok(mapped)
    } else {
        Err(TryFromProtoErrorView::InvalidPersistState("rollups"@))
    }
}

#[verifier::loop_isolation(false)]
fn decode_rollups(entries: &Vec<ProtoRollupEntry>) -> (r: Result<RollupMap, TryFromProtoError>)
    ensures
        match r {
            Ok(m) => rollups_from_proto(vvs_of(entries@)) == Ok::<_, TryFromProtoErrorView>(m@)
                && m.wf(),
            Err(e) => rollups_from_proto(vvs_of(entries@)) == Err::<Seq<(u64, Seq<char>)>, _>(e@),
        },
{
    let ghost mapped = Seq::new(vvs_of(entries@).len(), |i: int| (vvs_of(entries@)[i].seqno,
        vvs_of(entries@)[i].key));
    let mut m = RollupMap::new();
    let mut i: usize = 0;
    while i < entries.len()
        invariant
            i <= entries@.len(),
            m.wf(),
            m@.len() == i,
            forall|j: int| 0 <= j < i ==> m@[j] == mapped[j],
        decreases entries@.len() - i,
    {
        let e = &entries[i];
        match m.last_seqno() {
            Some(last) => {
                if e.seqno <= last.0 {
                    proof {
                        assert(mapped[i as int - 1].0 >= mapped[i as int].0);
                        assert(!rollups_sorted(mapped));
                    }
                    return Err(TryFromProtoError::InvalidPersistState("rollups".to_owned()));
                }
            },
            None => {},
        }
        proof {
            assert forall|j: int| 0 <= j < m@.len() implies (#[trigger] m@[j]).0 < e.seqno by {
                if j < i - 1 {
                    assert(m@[j].0 < m@[i - 1].0);
                }
            }
        }
        m.append(SeqNo(e.seqno), PartialRollupKey(e.key.clone()));
        i = i + 1;
    }
    proof {
        assert(m@ =~= mapped);
    }
    Ok(m)
}

/// Decodes one id-keyed table front to back: parse the id string, reject a
/// key already seen, convert the value, append. Rejecting a duplicate is
/// deliberate: the tables' keys are unique by invariant and every encoder
/// of this format writes each key once, so a duplicate can only mean a
/// corrupt or foreign record; refusing it is safer than letting either
/// occurrence silently win.
pub open spec fn idmap_from_proto_rec<PV, W>(
    done: Seq<(Seq<u8>, W)>,
    prefix: char,
    entries: Seq<(Seq<char>, PV)>,
    conv: spec_fn(PV) -> Result<W, TryFromProtoErrorView>,
) -> Result<Seq<(Seq<u8>, W)>, TryFromProtoErrorView>
    decreases entries.len(),
{
    if entries.len() == 0 {
        Ok(done)
    } else {
        match id_from_chars(prefix, entries[0].0) {
            None => Err(TryFromProtoErrorView::InvalidShardId(entries[0].0)),
            Some(k) => if key_in(done, k) {
                Err(TryFromProtoErrorView::InvalidPersistState(entries[0].0))
            } else {
                match conv(entries[0].1) {
                    Err(e) => Err(e),
                    Ok(w) => idmap_from_proto_rec(
                        done.push((k, w)),
                        prefix,
                        entries.drop_first(),
                        conv,
                    ),
                }
            },
        }
    }
}

pub open spec fn lrs_conv<T: Timestamp>() -> spec_fn(ProtoLeasedReaderStateView) -> Result<
    LeasedReaderStateView<T>,
    TryFromProtoErrorView,
> {
    |pv: ProtoLeasedReaderStateView| lrs_from_proto::<T>(pv)
}

pub open spec fn crs_conv<T: Timestamp>() -> spec_fn(ProtoCriticalReaderStateView) -> Result<
    CriticalReaderStateView<T>,
    TryFromProtoErrorView,
> {
    |pv: ProtoCriticalReaderStateView| crs_from_proto::<T>(pv)
}

pub open spec fn ws_conv<T: Timestamp>() -> spec_fn(ProtoWriterStateView) -> Result<
    WriterStateView<T>,
    TryFromProtoErrorView,
> {
    |pv: ProtoWriterStateView| ws_from_proto::<T>(pv)
}

#[verifier::loop_isolation(false)]
fn decode_leased_readers<T: Timestamp>(entries: Vec<ProtoMapEntry<ProtoLeasedReaderState>>) -> (r:
    Result<IdMap<LeasedReaderState<T>>, TryFromProtoError>)
    ensures
        match r {
            Ok(m) => idmap_from_proto_rec(Seq::empty(), 'r', vvs_of(entries@), lrs_conv::<T>())
                == Ok::<_, TryFromProtoErrorView>(m@) && m.wf() && (forall|i: int|
                0 <= i < m@.len() ==> (#[trigger] m@[i]).1.since.len() <= 1
                    && m@[i].1.lease_duration_ms != 0),
            Err(e) => idmap_from_proto_rec(Seq::empty(), 'r', vvs_of(entries@), lrs_conv::<T>())
                == Err::<Seq<(Seq<u8>, LeasedReaderStateView<T>)>, _>(e@),
        },
{
    let ghost allvv = vvs_of(entries@);
    let mut m = IdMap::<LeasedReaderState<T>>::new();
    let mut es = entries;
    while es.len() > 0
        invariant
            m.wf(),
            forall|i: int| 0 <= i < m@.len() ==> (#[trigger] m@[i]).1.since.len() <= 1
                && m@[i].1.lease_duration_ms != 0,
            vvs_of(es@) == allvv.skip(allvv.len() - es@.len()),
            es@.len() <= allvv.len(),
            idmap_from_proto_rec(m@, 'r', vvs_of(es@), lrs_conv::<T>()) == idmap_from_proto_rec(
                Seq::empty(),
                'r',
                allvv,
                lrs_conv::<T>(),
            ),
        decreases es@.len(),
    {
        let ghost prevv = vvs_of(es@);
        let entry = es.remove(0);
        proof {
            assert(vvs_of(es@) =~= prevv.drop_first());
            assert(vvs_of(es@) =~= allvv.skip(allvv.len() - es@.len()));
            assert(prevv[0] == entry.vv());
        }
        let kdup = entry.key.clone();
        let key_b = match LeasedReaderId::from_proto(entry.key) {
            Ok(id) => id.0,
            Err(e) => {
                return Err(e);
            },
        };
        if m.contains(&key_b) {
            return Err(TryFromProtoError::InvalidPersistState(kdup));
        }
        let v = match LeasedReaderState::<T>::from_proto(entry.value) {
            Ok(v) => v,
            Err(e) => {
                return Err(e);
            },
        };
        let ghost mpre = m@;
        m.insert_new(key_b, v);
        proof {
            assert(idmap_from_proto_rec(mpre, 'r', prevv, lrs_conv::<T>())
                == idmap_from_proto_rec(m@, 'r', vvs_of(es@), lrs_conv::<T>()));
        }
    }
    proof {
        assert(vvs_of(es@).len() == 0);
    }
    Ok(m)
}

#[verifier::loop_isolation(false)]
fn decode_critical_readers<T: Timestamp>(entries: Vec<ProtoMapEntry<ProtoCriticalReaderState>>) -> (
    r: Result<IdMap<CriticalReaderState<T>>, TryFromProtoError>)
    ensures
        match r {
            Ok(m) => idmap_from_proto_rec(Seq::empty(), 'c', vvs_of(entries@), crs_conv::<T>())
                == Ok::<_, TryFromProtoErrorView>(m@) && m.wf() && (forall|i: int|
                0 <= i < m@.len() ==> (#[trigger] m@[i]).1.since.len() <= 1
                    && m@[i].1.opaque.len() == 8),
            Err(e) => idmap_from_proto_rec(Seq::empty(), 'c', vvs_of(entries@), crs_conv::<T>())
                == Err::<Seq<(Seq<u8>, CriticalReaderStateView<T>)>, _>(e@),
        },
{
    let ghost allvv = vvs_of(entries@);
    let mut m = IdMap::<CriticalReaderState<T>>::new();
    let mut es = entries;
    while es.len() > 0
        invariant
            m.wf(),
            forall|i: int| 0 <= i < m@.len() ==> (#[trigger] m@[i]).1.since.len() <= 1
                && m@[i].1.opaque.len() == 8,
            vvs_of(es@) == allvv.skip(allvv.len() - es@.len()),
            es@.len() <= allvv.len(),
            idmap_from_proto_rec(m@, 'c', vvs_of(es@), crs_conv::<T>()) == idmap_from_proto_rec(
                Seq::empty(),
                'c',
                allvv,
                crs_conv::<T>(),
            ),
        decreases es@.len(),
    {
        let ghost prevv = vvs_of(es@);
        let entry = es.remove(0);
        proof {
            assert(vvs_of(es@) =~= prevv.drop_first());
            assert(vvs_of(es@) =~= allvv.skip(allvv.len() - es@.len()));
            assert(prevv[0] == entry.vv());
        }
        let kdup = entry.key.clone();
        let key_b = match CriticalReaderId::from_proto(entry.key) {
            Ok(id) => id.0,
            Err(e) => {
                return Err(e);
            },
        };
        if m.contains(&key_b) {
            return Err(TryFromProtoError::InvalidPersistState(kdup));
        }
        let v = match CriticalReaderState::<T>::from_proto(entry.value) {
            Ok(v) => v,
            Err(e) => {
                return Err(e);
            },
        };
        let ghost mpre = m@;
        m.insert_new(key_b, v);
        proof {
            assert(idmap_from_proto_rec(mpre, 'c', prevv, crs_conv::<T>())
                == idmap_from_proto_rec(m@, 'c', vvs_of(es@), crs_conv::<T>()));
        }
    }
    proof {
        assert(vvs_of(es@).len() == 0);
    }
    Ok(m)
}

#[verifier::loop_isolation(false)]
fn decode_writers<T: Timestamp>(entries: Vec<ProtoMapEntry<ProtoWriterState>>) -> (r: Result<
    IdMap<WriterState<T>>,
    TryFromProtoError,
>)
    ensures
        match r {
            Ok(m) => idmap_from_proto_rec(Seq::empty(), 'w', vvs_of(entries@), ws_conv::<T>())
                == Ok::<_, TryFromProtoErrorView>(m@) && m.wf() && (forall|i: int|
                0 <= i < m@.len() ==> (#[trigger] m@[i]).1.most_recent_write_upper.len() <= 1
                    && m@[i].1.most_recent_write_token.len() == 16),
            Err(e) => idmap_from_proto_rec(Seq::empty(), 'w', vvs_of(entries@), ws_conv::<T>())
                == Err::<Seq<(Seq<u8>, WriterStateView<T>)>, _>(e@),
        },
{
    let ghost allvv = vvs_of(entries@);
    let mut m = IdMap::<WriterState<T>>::new();
    let mut es = entries;
    while es.len() > 0
        invariant
            m.wf(),
            forall|i: int| 0 <= i < m@.len() ==> (#[trigger] m@[i]).1.most_recent_write_upper.len()
                <= 1 && m@[i].1.most_recent_write_token.len() == 16,
            vvs_of(es@) == allvv.skip(allvv.len() - es@.len()),
            es@.len() <= allvv.len(),
            idmap_from_proto_rec(m@, 'w', vvs_of(es@), ws_conv::<T>()) == idmap_from_proto_rec(
                Seq::empty(),
                'w',
                allvv,
                ws_conv::<T>(),
            ),
        decreases es@.len(),
    {
        let ghost prevv = vvs_of(es@);
        let entry = es.remove(0);
        proof {
            assert(vvs_of(es@) =~= prevv.drop_first());
            assert(vvs_of(es@) =~= allvv.skip(allvv.len() - es@.len()));
            assert(prevv[0] == entry.vv());
        }
        let kdup = entry.key.clone();
        let key_b = match WriterId::from_proto(entry.key) {
            Ok(id) => id.0,
            Err(e) => {
                return Err(e);
            },
        };
        if m.contains(&key_b) {
            return Err(TryFromProtoError::InvalidPersistState(kdup));
        }
        let v = match WriterState::<T>::from_proto(entry.value) {
            Ok(v) => v,
            Err(e) => {
                return Err(e);
            },
        };
        let ghost mpre = m@;
        m.insert_new(key_b, v);
        proof {
            assert(idmap_from_proto_rec(mpre, 'w', prevv, ws_conv::<T>())
                == idmap_from_proto_rec(m@, 'w', vvs_of(es@), ws_conv::<T>()));
        }
    }
    proof {
        assert(vvs_of(es@).len() == 0);
    }
    Ok(m)
}

pub open spec fn state_to_proto<T: Timestamp>(
    v: StateView<T>,
    key_codec: Seq<char>,
    val_codec: Seq<char>,
    diff_codec: Seq<char>,
) -> ProtoStateRollupView {
    ProtoStateRollupView {
        applier_version: version_chars(
            v.applier_version.major,
            v.applier_version.minor,
            v.applier_version.patch,
            v.applier_version.pre,
            v.applier_version.build,
        ),
        shard_id: id_chars('s', v.shard_id),
        seqno: v.seqno.0,
        walltime_ms: v.walltime_ms,
        hostname: v.hostname,
        key_codec,
        val_codec,
        ts_codec: T::codec_name_spec(),
        diff_codec,
        last_gc_req: v.collections.last_gc_req.0,
        rollups: Seq::new(
            v.collections.rollups.len(),
            |i: int|
                (ProtoRollupEntryView {
                    seqno: v.collections.rollups[i].0,
                    key: v.collections.rollups[i].1,
                }),
        ),
        leased_readers: Seq::new(
            v.collections.leased_readers.len(),
            |i: int|
                (
                    id_chars('r', v.collections.leased_readers[i].0),
                    lrs_to_proto(v.collections.leased_readers[i].1),
                ),
        ),
        critical_readers: Seq::new(
            v.collections.critical_readers.len(),
            |i: int|
                (
                    id_chars('c', v.collections.critical_readers[i].0),
                    crs_to_proto(v.collections.critical_readers[i].1),
                ),
        ),
        writers: Seq::new(
            v.collections.writers.len(),
            |i: int|
                (id_chars('w', v.collections.writers[i].0), ws_to_proto(v.collections.writers[i].1)),
        ),
        trace: Some(trace_to_proto(v.collections.trace)),
    }
}

/// What the trusted formatters guarantee of every id and version a state
/// encoder writes: the parsers invert them. Established as a postcondition
/// of `State::into_proto`, since each format call promises it for its own
/// output; the round-trip lemmas take it as a hypothesis.
pub open spec fn fmt_facts<T: Timestamp>(v: StateView<T>) -> bool {
    &&& (v.applier_version.wf() ==> parsed_version(
        version_chars(
            v.applier_version.major,
            v.applier_version.minor,
            v.applier_version.patch,
            v.applier_version.pre,
            v.applier_version.build,
        ),
    ) == Some(v.applier_version))
    &&& parsed_uuid(uuid_chars(v.shard_id)) == Some(v.shard_id)
    &&& forall|i: int|
        0 <= i < v.collections.leased_readers.len() ==> parsed_uuid(
            uuid_chars((#[trigger] v.collections.leased_readers[i]).0),
        ) == Some(v.collections.leased_readers[i].0)
    &&& forall|i: int|
        0 <= i < v.collections.critical_readers.len() ==> parsed_uuid(
            uuid_chars((#[trigger] v.collections.critical_readers[i]).0),
        ) == Some(v.collections.critical_readers[i].0)
    &&& forall|i: int|
        0 <= i < v.collections.writers.len() ==> parsed_uuid(
            uuid_chars((#[trigger] v.collections.writers[i]).0),
        ) == Some(v.collections.writers[i].0)
    &&& forall|i: int|
        0 <= i < v.collections.writers.len() ==> parsed_uuid(
            uuid_chars((#[trigger] v.collections.writers[i]).1.most_recent_write_token),
        ) == Some(v.collections.writers[i].1.most_recent_write_token)
}

impl<T: Timestamp> State<T> {
    #[verifier::loop_isolation(false)]
    #[verifier::rlimit(100)]
    pub fn into_proto(&self, key_codec: String, val_codec: String, diff_codec: String) -> (r:
        ProtoStateRollup)
        ensures
            r.vv() == state_to_proto::<T>(self@, key_codec@, val_codec@, diff_codec@),
            fmt_facts(self@),
    {
        let rentries = self.collections.rollups.entries();
        let mut rollups: Vec<ProtoRollupEntry> = Vec::new();
        let mut i: usize = 0;
        while i < rentries.len()
            invariant
                i <= rentries@.len(),
                rollups@.len() == i,
                forall|j: int| 0 <= j < i ==> (#[trigger] rollups@[j]).vv() == (
                ProtoRollupEntryView {
                    seqno: self@.collections.rollups[j].0,
                    key: self@.collections.rollups[j].1,
                }),
            decreases rentries@.len() - i,
        {
            rollups.push(
                ProtoRollupEntry { seqno: rentries[i].0.0, key: rentries[i].1.into_proto() },
            );
            i = i + 1;
        }
        let lentries = self.collections.leased_readers.entries();
        let mut leased_readers: Vec<ProtoMapEntry<ProtoLeasedReaderState>> = Vec::new();
        let mut i2: usize = 0;
        while i2 < lentries.len()
            invariant
                i2 <= lentries@.len(),
                leased_readers@.len() == i2,
                forall|j: int| 0 <= j < i2 ==> (#[trigger] leased_readers@[j]).vv() == (
                    id_chars('r', self@.collections.leased_readers[j].0),
                    lrs_to_proto(self@.collections.leased_readers[j].1),
                ),
                forall|j: int| 0 <= j < i2 ==> parsed_uuid(
                    uuid_chars((#[trigger] self@.collections.leased_readers[j]).0),
                ) == Some(self@.collections.leased_readers[j].0),
            decreases lentries@.len() - i2,
        {
            let id = LeasedReaderId(lentries[i2].0);
            let key = id.into_proto();
            proof {
                assert(key@ =~= id_chars('r', self@.collections.leased_readers[i2 as int].0));
                assert(key@.skip(1) =~= uuid_chars(self@.collections.leased_readers[i2 as int].0));
            }
            leased_readers.push(ProtoMapEntry { key, value: lentries[i2].1.into_proto() });
            i2 = i2 + 1;
        }
        let centries = self.collections.critical_readers.entries();
        let mut critical_readers: Vec<ProtoMapEntry<ProtoCriticalReaderState>> = Vec::new();
        let mut i3: usize = 0;
        while i3 < centries.len()
            invariant
                i3 <= centries@.len(),
                critical_readers@.len() == i3,
                forall|j: int| 0 <= j < i3 ==> (#[trigger] critical_readers@[j]).vv() == (
                    id_chars('c', self@.collections.critical_readers[j].0),
                    crs_to_proto(self@.collections.critical_readers[j].1),
                ),
                forall|j: int| 0 <= j < i3 ==> parsed_uuid(
                    uuid_chars((#[trigger] self@.collections.critical_readers[j]).0),
                ) == Some(self@.collections.critical_readers[j].0),
            decreases centries@.len() - i3,
        {
            let id = CriticalReaderId(centries[i3].0);
            let key = id.into_proto();
            proof {
                assert(key@ =~= id_chars('c', self@.collections.critical_readers[i3 as int].0));
                assert(key@.skip(1) =~= uuid_chars(
                    self@.collections.critical_readers[i3 as int].0,
                ));
            }
            critical_readers.push(ProtoMapEntry { key, value: centries[i3].1.into_proto() });
            i3 = i3 + 1;
        }
        let wentries = self.collections.writers.entries();
        let mut writers: Vec<ProtoMapEntry<ProtoWriterState>> = Vec::new();
        let mut i4: usize = 0;
        while i4 < wentries.len()
            invariant
                i4 <= wentries@.len(),
                writers@.len() == i4,
                forall|j: int| 0 <= j < i4 ==> (#[trigger] writers@[j]).vv() == (
                    id_chars('w', self@.collections.writers[j].0),
                    ws_to_proto(self@.collections.writers[j].1),
                ),
                forall|j: int| 0 <= j < i4 ==> parsed_uuid(
                    uuid_chars((#[trigger] self@.collections.writers[j]).0),
                ) == Some(self@.collections.writers[j].0),
                forall|j: int| 0 <= j < i4 ==> parsed_uuid(
                    uuid_chars((#[trigger] self@.collections.writers[j]).1.most_recent_write_token),
                ) == Some(self@.collections.writers[j].1.most_recent_write_token),
            decreases wentries@.len() - i4,
        {
            let id = WriterId(wentries[i4].0);
            let key = id.into_proto();
            proof {
                assert(key@ =~= id_chars('w', self@.collections.writers[i4 as int].0));
                assert(key@.skip(1) =~= uuid_chars(self@.collections.writers[i4 as int].0));
            }
            writers.push(ProtoMapEntry { key, value: wentries[i4].1.into_proto() });
            i4 = i4 + 1;
        }
        let r = ProtoStateRollup {
            applier_version: self.applier_version.into_proto(),
            shard_id: self.shard_id.into_proto(),
            seqno: self.seqno.0,
            walltime_ms: self.walltime_ms,
            hostname: self.hostname.clone(),
            key_codec,
            val_codec,
            ts_codec: T::codec_name(),
            diff_codec,
            last_gc_req: self.collections.last_gc_req.0,
            rollups,
            leased_readers,
            critical_readers,
            writers,
            trace: Some(self.collections.trace.into_proto()),
        };
        proof {
            let target = state_to_proto::<T>(self@, key_codec@, val_codec@, diff_codec@);
            assert(r.shard_id@ =~= id_chars('s', self@.shard_id));
            assert(r.shard_id@.skip(1) =~= uuid_chars(self@.shard_id));
            assert(vvs_of(r.rollups@) =~= target.rollups);
            assert(vvs_of(r.leased_readers@) =~= target.leased_readers);
            assert(vvs_of(r.critical_readers@) =~= target.critical_readers);
            assert(vvs_of(r.writers@) =~= target.writers);
            assert(r.vv() == target);
        }
        r
    }
}

/// Decoded state whose timestamp and payload codecs have not yet been
/// checked against the ones the caller expects. Nothing that depends on the
/// timestamp type is exposed until one of the check methods succeeds.
#[derive(Debug, PartialEq, Eq)]
pub struct UntypedState<T> {
    pub(crate) key_codec: String,
    pub(crate) val_codec: String,
    pub(crate) ts_codec: String,
    pub(crate) diff_codec: String,
    state: State<T>,
}

pub struct UntypedStateView<T> {
    pub key_codec: Seq<char>,
    pub val_codec: Seq<char>,
    pub ts_codec: Seq<char>,
    pub diff_codec: Seq<char>,
    pub state: StateView<T>,
}

impl<T> View for UntypedState<T> {
    type V = UntypedStateView<T>;

    closed spec fn view(&self) -> UntypedStateView<T> {
        UntypedStateView {
            key_codec: self.key_codec@,
            val_codec: self.val_codec@,
            ts_codec: self.ts_codec@,
            diff_codec: self.diff_codec@,
            state: self.state@,
        }
    }
}

pub open spec fn state_from_proto<T: Timestamp>(p: ProtoStateRollupView) -> Result<
    UntypedStateView<T>,
    TryFromProtoErrorView,
> {
    match version_from_chars(p.applier_version) {
        Err(e) => Err(e),
        Ok(applier_version) => match rollups_from_proto(p.rollups) {
            Err(e) => Err(e),
            Ok(rollups) => match idmap_from_proto_rec(
                Seq::empty(),
                'r',
                p.leased_readers,
                lrs_conv::<T>(),
            ) {
                Err(e) => Err(e),
                Ok(leased_readers) => match idmap_from_proto_rec(
                    Seq::empty(),
                    'c',
                    p.critical_readers,
                    crs_conv::<T>(),
                ) {
                    Err(e) => Err(e),
                    Ok(critical_readers) => match idmap_from_proto_rec(
                        Seq::empty(),
                        'w',
                        p.writers,
                        ws_conv::<T>(),
                    ) {
                        Err(e) => Err(e),
                        Ok(writers) => match p.trace {
                            None => Err(TryFromProtoErrorView::InvalidPersistState("trace"@)),
                            Some(tp) => match trace_from_proto::<T>(tp) {
                                Err(e) => Err(e),
                                Ok(trace) => match id_from_chars('s', p.shard_id) {
                                    None => Err(
                                        TryFromProtoErrorView::InvalidShardId(p.shard_id),
                                    ),
                                    Some(shard_id) => Ok(
                                        (UntypedStateView {
                                            key_codec: p.key_codec,
                                            val_codec: p.val_codec,
                                            ts_codec: p.ts_codec,
                                            diff_codec: p.diff_codec,
                                            state: (StateView {
                                                applier_version,
                                                shard_id,
                                                seqno: SeqNo(p.seqno),
                                                walltime_ms: p.walltime_ms,
                                                hostname: p.hostname,
                                                collections: (StateCollectionsView {
                                                    rollups,
                                                    last_gc_req: SeqNo(p.last_gc_req),
                                                    leased_readers,
                                                    critical_readers,
                                                    writers,
                                                    trace,
                                                }),
                                            }),
                                        }),
                                    ),
                                },
                            },
                        },
                    },
                },
            },
        },
    }
}

/// What decoding a full record does: parse the bytes (which must be exactly
/// one record), rebuild the state, and gate on the applier version.
pub open spec fn untyped_decode<T: Timestamp>(build: VersionView, bytes: Seq<u8>) -> Result<
    UntypedStateView<T>,
    StateDecodeErrView,
> {
    match ProtoStateRollup::parse(bytes) {
        None => Err(StateDecodeErrView::Undecodable),
        Some(pv) => match state_from_proto::<T>(pv) {
            Err(e) => Err(StateDecodeErrView::Invalid(e)),
            Ok(u) => if build.lt_spec(u.state.applier_version) {
                Err((StateDecodeErrView::FutureVersion { build, state: u.state.applier_version }))
            } else {
                Ok(u)
            },
        },
    }
}

impl<T: Timestamp> UntypedState<T> {
    pub fn seqno(&self) -> (r: SeqNo)
        ensures
            r == self@.state.seqno,
    {
        self.state.seqno
    }

    pub fn rollups(&self) -> (r: &RollupMap)
        ensures
            r@ == self@.state.collections.rollups,
    {
        &self.state.collections.rollups
    }

    pub fn into_proto(&self) -> (r: ProtoStateRollup)
        ensures
            r.vv() == state_to_proto::<T>(
                self@.state,
                self@.key_codec,
                self@.val_codec,
                self@.diff_codec,
            ),
            fmt_facts(self@.state),
    {
        self.state.into_proto(
            self.key_codec.clone(),
            self.val_codec.clone(),
            self.diff_codec.clone(),
        )
    }

    pub fn from_proto(x: ProtoStateRollup) -> (r: Result<UntypedState<T>, TryFromProtoError>)
        ensures
            match r {
                Ok(u) => state_from_proto::<T>(x.vv()) == Ok::<_, TryFromProtoErrorView>(u@)
                    && u@.state.wf() && u@.state.canonical(),
                Err(e) => state_from_proto::<T>(x.vv()) == Err::<UntypedStateView<T>, _>(e@),
            },
    {
        let ghost pvv = x.vv();
        let applier_version = match applier_version_from_proto(x.applier_version) {
            Ok(v) => v,
            Err(e) => {
                return Err(e);
            },
        };
        let rollups = match decode_rollups(&x.rollups) {
            Ok(m) => m,
            Err(e) => {
                return Err(e);
            },
        };
        let leased_readers = match decode_leased_readers::<T>(x.leased_readers) {
            Ok(m) => m,
            Err(e) => {
                return Err(e);
            },
        };
        let critical_readers = match decode_critical_readers::<T>(x.critical_readers) {
            Ok(m) => m,
            Err(e) => {
                return Err(e);
            },
        };
        let writers = match decode_writers::<T>(x.writers) {
            Ok(m) => m,
            Err(e) => {
                return Err(e);
            },
        };
        let trace = match x.trace {
            Some(tp) => match Trace::<T>::from_proto(tp) {
                Ok(t) => t,
                Err(e) => {
                    return Err(e);
                },
            },
            None => {
                return Err(TryFromProtoError::InvalidPersistState("trace".to_owned()));
            },
        };
        let shard_id = match crate::ids::ShardId::from_proto(x.shard_id) {
            Ok(id) => id,
            Err(e) => {
                return Err(e);
            },
        };
        let u = UntypedState {
            key_codec: x.key_codec,
            val_codec: x.val_codec,
            ts_codec: x.ts_codec,
            diff_codec: x.diff_codec,
            state: State {
                applier_version,
                shard_id,
                seqno: SeqNo(x.seqno),
                walltime_ms: x.walltime_ms,
                hostname: x.hostname,
                collections: StateCollections {
                    rollups,
                    last_gc_req: SeqNo(x.last_gc_req),
                    leased_readers,
                    critical_readers,
                    writers,
                    trace,
                },
            },
        };
        proof {
            assert(state_from_proto::<T>(pvv) == Ok::<_, TryFromProtoErrorView>(u@));
            assert(u@.state.shard_id.len() == 16);
            assert(u@.state.collections.wf());
            assert(u@.state.canonical());
        }
        Ok(u)
    }

    /// Decodes a full state record, or refuses: corrupt bytes and
    /// structural violations are errors, and a record stamped by a newer
    /// version is the fatal [`StateDecodeErr::FutureVersion`], which the
    /// caller must treat as an instruction to halt the process.
    pub fn decode(build_version: &Version, buf: &Vec<u8>) -> (r: Result<
        UntypedState<T>,
        StateDecodeErr,
    >)
        ensures
            match r {
                Ok(u) => untyped_decode::<T>(build_version@, buf@) == Ok::<_, StateDecodeErrView>(
                    u@,
                ) && u@.state.wf() && u@.state.canonical(),
                Err(e) => untyped_decode::<T>(build_version@, buf@) == Err::<
                    UntypedStateView<T>,
                    _,
                >(e@),
            },
    {
        let proto = match ProtoStateRollup::read(buf) {
            Some(x) => x,
            None => {
                return Err(StateDecodeErr::Undecodable);
            },
        };
        let state = match Self::from_proto(proto) {
            Ok(u) => u,
            Err(e) => {
                return Err(StateDecodeErr::Invalid(e));
            },
        };
        if check_applier_version(build_version, &state.state.applier_version) {
            let state_version = state.state.applier_version;
            return Err(
                StateDecodeErr::FutureVersion {
                    build: build_version.clone(),
                    state: state_version,
                },
            );
        }
        Ok(state)
    }

    /// The codec gate: compares all four stored codec names against the
    /// requested ones and exposes typed state only when every one matches.
    pub fn check_codecs<K: Codec, V: Codec, D: Codec64>(self, shard_id: &ShardId) -> (r: Result<
        TypedState<K, V, T, D>,
        Box<CodecMismatch>,
    >)
        requires
            shard_id.0@ == self@.state.shard_id,
        ensures
            (r is Ok) <==> (K::codec_name_spec() == self@.key_codec && V::codec_name_spec()
                == self@.val_codec && T::codec_name_spec() == self@.ts_codec
                && D::codec_name_spec() == self@.diff_codec),
            match r {
                Ok(t) => t@ == self@.state,
                Err(e) => {
                    &&& (*e).requested.0@ == K::codec_name_spec()
                    &&& (*e).requested.1@ == V::codec_name_spec()
                    &&& (*e).requested.2@ == T::codec_name_spec()
                    &&& (*e).requested.3@ == D::codec_name_spec()
                    &&& (*e).actual.0@ == self@.key_codec
                    &&& (*e).actual.1@ == self@.val_codec
                    &&& (*e).actual.2@ == self@.ts_codec
                    &&& (*e).actual.3@ == self@.diff_codec
                },
            },
    {
        let k = K::codec_name();
        let v = V::codec_name();
        let t = T::codec_name();
        let d = D::codec_name();
        if !(k == self.key_codec) || !(v == self.val_codec) || !(t == self.ts_codec) || !(d
            == self.diff_codec) {
            return Err(
                Box::new(
                    CodecMismatch {
                        requested: (k, v, t, d),
                        actual: (self.key_codec, self.val_codec, self.ts_codec, self.diff_codec),
                    },
                ),
            );
        }
        Ok(TypedState { state: self.state, _phantom: PhantomData })
    }

    pub(crate) fn ts_codec_ref(&self) -> (r: &String)
        ensures
            r@ == self@.ts_codec,
    {
        &self.ts_codec
    }

    /// Applies one decoded diff to the held state.
    pub(crate) fn apply_one(&mut self, d: &crate::state_diff::StateDiff<T>) -> (r: Result<
        (),
        crate::state_diff::ApplyDiffErr,
    >)
        ensures
            final(self)@.key_codec == old(self)@.key_codec,
            final(self)@.val_codec == old(self)@.val_codec,
            final(self)@.ts_codec == old(self)@.ts_codec,
            final(self)@.diff_codec == old(self)@.diff_codec,
            match r {
                Ok(_) => crate::state_diff::apply_diff_spec(old(self)@.state, d@) == Ok::<
                    StateView<T>,
                    crate::state_diff::ApplyDiffErr,
                >(final(self)@.state),
                Err(e) => crate::state_diff::apply_diff_spec(old(self)@.state, d@) == Err::<
                    StateView<T>,
                    _,
                >(e),
            },
    {
        let mut tmp: State<T> = State::new(
            Version::new(0, 0, 0),
            ShardId(IdempotencyToken::sentinel().0),
            String::new(),
            0,
        );
        core::mem::swap(&mut tmp, &mut self.state);
        match tmp.apply_diff(d) {
            Ok(s2) => {
                self.state = s2;
                Ok(())
            },
            Err(e) => Err(e),
        }
    }

    /// The weaker timestamp-only gate, for callers that read metadata but
    /// do not decode payloads.
    pub fn check_ts_codec(self, shard_id: &ShardId) -> (r: Result<State<T>, CodecMismatchT>)
        requires
            shard_id.0@ == self@.state.shard_id,
        ensures
            (r is Ok) <==> T::codec_name_spec() == self@.ts_codec,
            match r {
                Ok(s) => s@ == self@.state,
                Err(e) => e.requested@ == T::codec_name_spec() && e.actual@ == self@.ts_codec,
            },
    {
        let t = T::codec_name();
        if !(t == self.ts_codec) {
            return Err(CodecMismatchT { requested: t, actual: self.ts_codec });
        }
        Ok(self.state)
    }
}

impl<K: Codec, V: Codec, T: Timestamp, D: Codec64> TypedState<K, V, T, D> {
    pub fn into_proto(&self) -> (r: ProtoStateRollup)
        ensures
            r.vv() == state_to_proto::<T>(
                self@,
                K::codec_name_spec(),
                V::codec_name_spec(),
                D::codec_name_spec(),
            ),
            fmt_facts(self@),
    {
        self.state.into_proto(K::codec_name(), V::codec_name(), D::codec_name())
    }

    /// Serializes this state as one wire record appended to `buf`.
    pub fn encode(&self, buf: &mut Vec<u8>)
        ensures
            final(buf)@ == old(buf)@ + ProtoStateRollup::enc(
                state_to_proto::<T>(
                    self@,
                    K::codec_name_spec(),
                    V::codec_name_spec(),
                    D::codec_name_spec(),
                ),
            ),
            fmt_facts(self@),
    {
        let p = self.into_proto();
        p.write(buf);
    }
}

/// The frontier order is reflexive on well-formed antichains.
pub proof fn lemma_ac_le_refl<T: Timestamp>(a: Seq<T>)
    requires
        a.len() <= 1,
    ensures
        ac_le(a, a),
{
    if a.len() == 1 {
        T::lemma_le_total(a[0], a[0]);
        assert forall|i: int| #![trigger a[i]]
            0 <= i < a.len() implies exists|j: int| 0 <= j < a.len() && a[j].le_spec(a[i]) by {
            assert(a[0].le_spec(a[i]));
        }
    }
}

} // verus!

verus! {

/// A batch a writer hands to another process, so that process can append
/// it: the shard it belongs to and the batch itself.
#[derive(Debug, PartialEq, Eq)]
pub struct WriterEnrichedHollowBatch<T> {
    pub shard_id: ShardId,
    pub batch: HollowBatch<T>,
}

/// The transferable form of a [`WriterEnrichedHollowBatch`]: the batch is
/// carried as one encoded wire record, so the surrounding process can ship
/// it through any byte transport.
#[derive(Debug, PartialEq, Eq)]
pub struct SerdeWriterEnrichedHollowBatch {
    pub shard_id: ShardId,
    pub batch: Vec<u8>,
}

impl<T: Timestamp> WriterEnrichedHollowBatch<T> {
    /// Packs the batch as bytes for transfer.
    pub fn into_serde(self) -> (r: SerdeWriterEnrichedHollowBatch)
        ensures
            r.shard_id == self.shard_id,
            r.batch@ == ProtoHollowBatch::enc(batch_to_proto(self.batch@)),
    {
        let proto = self.batch.into_proto();
        let mut buf: Vec<u8> = Vec::new();
        proto.write(&mut buf);
        proof {
            assert(buf@ =~= ProtoHollowBatch::enc(batch_to_proto(self.batch@)));
        }
        SerdeWriterEnrichedHollowBatch { shard_id: self.shard_id, batch: buf }
    }
}

impl SerdeWriterEnrichedHollowBatch {
    pub fn new(shard_id: ShardId, batch: Vec<u8>) -> (r: SerdeWriterEnrichedHollowBatch)
        ensures
            r.shard_id == shard_id,
            r.batch@ == batch@,
    {
        SerdeWriterEnrichedHollowBatch { shard_id, batch }
    }

    pub fn shard_id(&self) -> (r: ShardId)
        ensures
            r == self.shard_id,
    {
        self.shard_id
    }

    pub fn batch_bytes(&self) -> (r: &Vec<u8>)
        ensures
            r@ == self.batch@,
    {
        &self.batch
    }

    /// Unpacks the carried batch. Fails exactly when the carried bytes are
    /// not one well-formed batch record that rebuilds, so bytes produced by
    /// `into_serde` always unpack.
    pub fn into_batch<T: Timestamp>(self) -> (r: Result<
        WriterEnrichedHollowBatch<T>,
        TryFromProtoError,
    >)
        ensures
            match r {
                Ok(w) => w.shard_id == self.shard_id && (match ProtoHollowBatch::parse(
                    self.batch@,
                ) {
                    Some(pv) => batch_from_proto::<T>(pv) == Ok::<_, TryFromProtoErrorView>(
                        w.batch@,
                    ),
                    None => false,
                }),
                Err(e) => match ProtoHollowBatch::parse(self.batch@) {
                    None => e@ == TryFromProtoErrorView::InvalidPersistState("batch"@),
                    Some(pv) => batch_from_proto::<T>(pv) == Err::<HollowBatchView<T>, _>(e@),
                },
            },
    {
        let proto = match ProtoHollowBatch::read(&self.batch) {
            Some(x) => x,
            None => {
                return Err(TryFromProtoError::InvalidPersistState("batch".to_owned()));
            },
        };
        let batch = match HollowBatch::<T>::from_proto(proto) {
            Ok(b) => b,
            Err(e) => {
                return Err(e);
            },
        };
        Ok(WriterEnrichedHollowBatch { shard_id: self.shard_id, batch })
    }
}

/// The frontier order is antisymmetric on well-formed antichains.
pub proof fn lemma_ac_le_antisym<T: Timestamp>(a: Seq<T>, b: Seq<T>)
    requires
        a.len() <= 1,
        b.len() <= 1,
        ac_le(a, b),
        ac_le(b, a),
    ensures
        a == b,
{
    if b.len() == 0 {
        if a.len() > 0 {
            lemma_ac_le_elim::<T>(b, a);
            assert(false);
        }
        assert(a =~= b);
    } else if a.len() == 0 {
        lemma_ac_le_elim::<T>(a, b);
        assert(false);
    } else {
        lemma_ac_le_elim::<T>(a, b);
        let j1 = choose|j: int| 0 <= j < a.len() && a[j].le_spec(b[0]);
        lemma_ac_le_elim::<T>(b, a);
        let j2 = choose|j: int| 0 <= j < b.len() && b[j].le_spec(a[0]);
        assert(j1 == 0 && j2 == 0);
        T::lemma_le_antisymmetric(a[0], b[0]);
        assert(a =~= b);
    }
}

/// Decoding an encoded id-keyed table front to back restores it exactly.
pub proof fn lemma_idmap_rt<PV, W>(
    done: Seq<(Seq<u8>, W)>,
    prefix: char,
    m: Seq<(Seq<u8>, W)>,
    entries: Seq<(Seq<char>, PV)>,
    conv: spec_fn(PV) -> Result<W, TryFromProtoErrorView>,
)
    requires
        entries.len() == m.len(),
        forall|i: int| 0 <= i < m.len() ==> (#[trigger] entries[i]).0 == id_chars(
            prefix,
            m[i].0,
        ),
        forall|i: int| 0 <= i < m.len() ==> conv((#[trigger] entries[i]).1) == Ok::<
            W,
            TryFromProtoErrorView,
        >(m[i].1),
        forall|i: int| 0 <= i < m.len() ==> parsed_uuid(uuid_chars((#[trigger] m[i]).0)) == Some(
            m[i].0,
        ),
        keys_unique(done + m),
    ensures
        idmap_from_proto_rec(done, prefix, entries, conv) == Ok::<_, TryFromProtoErrorView>(
            done + m,
        ),
    decreases m.len(),
{
    if m.len() == 0 {
        assert(done + m =~= done);
    } else {
        let k0 = m[0].0;
        assert(entries[0].0 == id_chars(prefix, k0));
        assert(entries[0].0[0] == prefix);
        assert(entries[0].0.skip(1) =~= uuid_chars(k0));
        assert(id_from_chars(prefix, entries[0].0) == Some(k0));
        assert(!key_in(done, k0)) by {
            if key_in(done, k0) {
                let i = choose|i: int| 0 <= i < done.len() && #[trigger] done[i].0 == k0;
                assert((done + m)[i].0 == k0);
                assert((done + m)[done.len() as int].0 == k0);
                assert(false);
            }
        }
        assert(conv(entries[0].1) == Ok::<W, TryFromProtoErrorView>(m[0].1));
        let done2 = done.push((k0, m[0].1));
        assert(m[0] == (m[0].0, m[0].1));
        assert(done2 + m.drop_first() =~= done + m);
        assert forall|i: int| 0 <= i < m.drop_first().len() implies (#[trigger] entries.drop_first()[i]).0
            == id_chars(prefix, m.drop_first()[i].0) by {
            assert(entries[i + 1].0 == id_chars(prefix, m[i + 1].0));
        }
        assert forall|i: int| 0 <= i < m.drop_first().len() implies conv(
            (#[trigger] entries.drop_first()[i]).1,
        ) == Ok::<W, TryFromProtoErrorView>(m.drop_first()[i].1) by {
            assert(conv(entries[i + 1].1) == Ok::<W, TryFromProtoErrorView>(m[i + 1].1));
        }
        assert forall|i: int| 0 <= i < m.drop_first().len() implies parsed_uuid(
            uuid_chars((#[trigger] m.drop_first()[i]).0),
        ) == Some(m.drop_first()[i].0) by {
            assert(parsed_uuid(uuid_chars(m[i + 1].0)) == Some(m[i + 1].0));
        }
        lemma_idmap_rt(done2, prefix, m.drop_first(), entries.drop_first(), conv);
    }
}

/// Rehydrating an encoded spine whose batches all respect the trace's
/// `since` restores it exactly.
pub proof fn lemma_spine_rt<T: Timestamp>(since: Seq<T>, m: Seq<HollowBatchView<T>>)
    requires
        since.len() <= 1,
        forall|i: int|
            0 <= i < m.len() ==> (#[trigger] m[i]).desc.lower.len() <= 1 && m[i].desc.upper.len()
                <= 1 && m[i].desc.since.len() <= 1,
        forall|i: int| 0 <= i < m.len() ==> ac_le(since, (#[trigger] m[i]).desc.since),
    ensures
        spine_from_proto::<T>(since, Seq::new(m.len(), |i: int| batch_to_proto(m[i]))) == Ok::<
            _,
            TryFromProtoErrorView,
        >(m),
    decreases m.len(),
{
    let enc = Seq::new(m.len(), |i: int| batch_to_proto(m[i]));
    if m.len() == 0 {
        assert(m =~= Seq::<HollowBatchView<T>>::empty());
        assert(enc.len() == 0);
    } else {
        lemma_batch_round_trip::<T>(m[0]);
        assert(enc[0] == batch_to_proto(m[0]));
        if ac_le(m[0].desc.since, since) && m[0].desc.since != since {
            lemma_ac_le_antisym::<T>(since, m[0].desc.since);
            assert(false);
        }
        assert(enc.drop_first() =~= Seq::new(
            m.drop_first().len(),
            |i: int| batch_to_proto(m.drop_first()[i]),
        ));
        lemma_spine_rt::<T>(since, m.drop_first());
        assert(seq![m[0]] + m.drop_first() =~= m);
    }
}

/// Every batch's `since` is at or beyond the trace's own.
pub open spec fn trace_monotone<T: Timestamp>(t: TraceView<T>) -> bool {
    forall|i: int| 0 <= i < t.spine.len() ==> ac_le(t.since, (#[trigger] t.spine[i]).desc.since)
}

pub proof fn lemma_trace_round_trip<T: Timestamp>(t: TraceView<T>)
    requires
        t.since.len() <= 1,
        forall|i: int|
            0 <= i < t.spine.len() ==> (#[trigger] t.spine[i]).desc.lower.len() <= 1
                && t.spine[i].desc.upper.len() <= 1 && t.spine[i].desc.since.len() <= 1,
        trace_monotone(t),
    ensures
        trace_from_proto::<T>(trace_to_proto(t)) == Ok::<_, TryFromProtoErrorView>(t),
{
    lemma_ac_round_trip::<T>(t.since);
    lemma_spine_rt::<T>(t.since, t.spine);
    assert((TraceView { since: t.since, spine: t.spine }) == t);
}

/// Round trip of a full state record at the record level: converting a
/// well-formed, canonical state to its wire record and back restores it,
/// together with the four codec names.
pub proof fn lemma_state_round_trip<T: Timestamp>(
    v: StateView<T>,
    key_codec: Seq<char>,
    val_codec: Seq<char>,
    diff_codec: Seq<char>,
)
    requires
        v.wf(),
        v.canonical(),
        v.applier_version.wf(),
        fmt_facts(v),
        trace_monotone(v.collections.trace),
    ensures
        state_from_proto::<T>(state_to_proto::<T>(v, key_codec, val_codec, diff_codec)) == Ok::<
            _,
            TryFromProtoErrorView,
        >(
            (UntypedStateView {
                key_codec,
                val_codec,
                ts_codec: T::codec_name_spec(),
                diff_codec,
                state: v,
            }),
        ),
{
    let p = state_to_proto::<T>(v, key_codec, val_codec, diff_codec);
    let c = v.collections;
    lemma_dec_chars_len(v.applier_version.major);
    assert(p.applier_version.len() > 0);
    assert(version_from_chars(p.applier_version) == Ok::<_, TryFromProtoErrorView>(
        v.applier_version,
    ));
    let mapped = Seq::new(p.rollups.len(), |i: int| (p.rollups[i].seqno, p.rollups[i].key));
    assert(mapped =~= c.rollups);
    assert(rollups_from_proto(p.rollups) == Ok::<_, TryFromProtoErrorView>(c.rollups));
    assert(Seq::<(Seq<u8>, LeasedReaderStateView<T>)>::empty() + c.leased_readers
        =~= c.leased_readers);
    assert forall|i: int| 0 <= i < c.leased_readers.len() implies lrs_conv::<T>()(
        (#[trigger] p.leased_readers[i]).1,
    ) == Ok::<LeasedReaderStateView<T>, TryFromProtoErrorView>(c.leased_readers[i].1) by {
        lemma_lrs_round_trip::<T>(c.leased_readers[i].1);
    }
    lemma_idmap_rt(
        Seq::<(Seq<u8>, LeasedReaderStateView<T>)>::empty(),
        'r',
        c.leased_readers,
        p.leased_readers,
        lrs_conv::<T>(),
    );
    assert(Seq::<(Seq<u8>, CriticalReaderStateView<T>)>::empty() + c.critical_readers
        =~= c.critical_readers);
    assert forall|i: int| 0 <= i < c.critical_readers.len() implies crs_conv::<T>()(
        (#[trigger] p.critical_readers[i]).1,
    ) == Ok::<CriticalReaderStateView<T>, TryFromProtoErrorView>(c.critical_readers[i].1) by {
        lemma_crs_round_trip::<T>(c.critical_readers[i].1);
    }
    lemma_idmap_rt(
        Seq::<(Seq<u8>, CriticalReaderStateView<T>)>::empty(),
        'c',
        c.critical_readers,
        p.critical_readers,
        crs_conv::<T>(),
    );
    assert(Seq::<(Seq<u8>, WriterStateView<T>)>::empty() + c.writers =~= c.writers);
    assert forall|i: int| 0 <= i < c.writers.len() implies ws_conv::<T>()(
        (#[trigger] p.writers[i]).1,
    ) == Ok::<WriterStateView<T>, TryFromProtoErrorView>(c.writers[i].1) by {
        lemma_ws_round_trip::<T>(c.writers[i].1);
    }
    lemma_idmap_rt(
        Seq::<(Seq<u8>, WriterStateView<T>)>::empty(),
        'w',
        c.writers,
        p.writers,
        ws_conv::<T>(),
    );
    lemma_trace_round_trip::<T>(c.trace);
    assert(p.shard_id[0] == 's');
    assert(p.shard_id.skip(1) =~= uuid_chars(v.shard_id));
    assert(id_from_chars('s', p.shard_id) == Some(v.shard_id));
    assert(SeqNo(p.seqno) == v.seqno);
    assert(SeqNo(p.last_gc_req) == c.last_gc_req);
    assert((StateCollectionsView {
        rollups: c.rollups,
        last_gc_req: c.last_gc_req,
        leased_readers: c.leased_readers,
        critical_readers: c.critical_readers,
        writers: c.writers,
        trace: c.trace,
    }) == c);
    assert((StateView {
        applier_version: v.applier_version,
        shard_id: v.shard_id,
        seqno: v.seqno,
        walltime_ms: v.walltime_ms,
        hostname: v.hostname,
        collections: c,
    }) == v);
}

/// Round trip of a full state record at the byte level, provided the
/// reading process's build version admits the state's applier version.
#[verifier::rlimit(100)]
#[verifier::spinoff_prover]
pub proof fn lemma_state_encode_decode<T: Timestamp>(
    v: StateView<T>,
    build: VersionView,
    key_codec: Seq<char>,
    val_codec: Seq<char>,
    diff_codec: Seq<char>,
)
    requires
        v.wf(),
        v.canonical(),
        v.applier_version.wf(),
        fmt_facts(v),
        trace_monotone(v.collections.trace),
        !build.lt_spec(v.applier_version),
        <ProtoStateRollup as Wire>::bounded(state_to_proto::<T>(v, key_codec, val_codec, diff_codec)),
    ensures
        untyped_decode::<T>(
            build,
            ProtoStateRollup::enc(state_to_proto::<T>(v, key_codec, val_codec, diff_codec)),
        ) == Ok::<_, StateDecodeErrView>(
            (UntypedStateView {
                key_codec,
                val_codec,
                ts_codec: T::codec_name_spec(),
                diff_codec,
                state: v,
            }),
        ),
{
    let p = state_to_proto::<T>(v, key_codec, val_codec, diff_codec);
    ProtoStateRollup::round_trip(p);
    lemma_state_round_trip::<T>(v, key_codec, val_codec, diff_codec);
}

/// The version gate: the same bytes read by a build older than the state's
/// applier version are refused with the fatal sentinel.
#[verifier::rlimit(100)]
#[verifier::spinoff_prover]
pub proof fn lemma_version_gate<T: Timestamp>(
    v: StateView<T>,
    build: VersionView,
    key_codec: Seq<char>,
    val_codec: Seq<char>,
    diff_codec: Seq<char>,
)
    requires
        v.wf(),
        v.canonical(),
        v.applier_version.wf(),
        fmt_facts(v),
        trace_monotone(v.collections.trace),
        build.lt_spec(v.applier_version),
        <ProtoStateRollup as Wire>::bounded(state_to_proto::<T>(v, key_codec, val_codec, diff_codec)),
    ensures
        untyped_decode::<T>(
            build,
            ProtoStateRollup::enc(state_to_proto::<T>(v, key_codec, val_codec, diff_codec)),
        ) == Err::<UntypedStateView<T>, _>(
            (StateDecodeErrView::FutureVersion { build, state: v.applier_version }),
        ),
{
    let p = state_to_proto::<T>(v, key_codec, val_codec, diff_codec);
    ProtoStateRollup::round_trip(p);
    lemma_state_round_trip::<T>(v, key_codec, val_codec, diff_codec);
}

} // verus!
