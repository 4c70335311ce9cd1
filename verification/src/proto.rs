//! The wire records. Each record has a plain struct (what encoders fill
//! in), a view struct (its mathematical contents), and a [`Wire`] impl
//! giving it a spec-level encoding and parser with executable functions
//! proved equal to them; `Wire::round_trip` shows that parsing an encoding
//! returns the original contents.
//!
//! Every field stands under a stable numeric tag with its content
//! length-prefixed, in ascending tag order. A new field gets the next
//! number, is appended, and must be optional with a defined default;
//! decoders discard trailing fields whose tags they do not know, which is
//! why the applier-version gate exists. Optional sub-records carry a
//! presence byte; lists carry a count and length-prefixed items.

use vstd::prelude::*;
use vstd::utf8::encode_utf8;
use crate::state::HandleDebugStateView;
use crate::wire::{
    field_enc, field_take, read_field, write_field, read_skip_unknown, skip_unknown, varint_enc,
    lemma_varint_enc_len, opt_enc, opt_parse, opt_vv, read_opt, write_opt, list_enc, list_parse,
    vvs_of, read_list, write_list, write_raw, Wire, lemma_concat_assoc, lemma_field_take,
    lemma_opt_round_trip, lemma_list_round_trip,
};

verus! {

/// A frontier: its timestamps, each as the timestamp codec's 8 bytes.
#[derive(Debug, PartialEq, Eq)]
pub struct ProtoU64Antichain {
    pub elements: Vec<[u8; 8]>,
}

impl Wire for ProtoU64Antichain {
    type VV = Seq<Seq<u8>>;

    open spec fn vv(self) -> Seq<Seq<u8>> {
        vvs_of(self.elements@)
    }

    open spec fn bounded(v: Seq<Seq<u8>>) -> bool {
        &&& v.len() <= u64::MAX
        &&& (forall|i: int| 0 <= i < v.len() ==> (#[trigger] v[i]).len() == 8)
        &&& list_enc::<[u8; 8]>(v).len() <= u64::MAX
    }

    open spec fn enc(v: Seq<Seq<u8>>) -> Seq<u8> {
        field_enc(1, list_enc::<[u8; 8]>(v))
    }

    open spec fn parse(s: Seq<u8>) -> Option<Seq<Seq<u8>>> {
        match field_take(s, 1) {
            None => None,
            Some((p1, s1)) => match list_parse::<[u8; 8]>(p1) {
                None => None,
                Some(elements) => if skip_unknown(s1, 1) {
                    Some(elements)
                } else {
                    None
                },
            },
        }
    }

    fn write(&self, buf: &mut Vec<u8>) {
        let mut tmp1: Vec<u8> = Vec::new();
        write_list::<[u8; 8]>(&mut tmp1, &self.elements);
        write_field(buf, 1, &tmp1);
        assert(buf@ =~= old(buf)@ + Self::enc(self.vv()));
    }

    fn read(buf: &Vec<u8>) -> (r: Option<ProtoU64Antichain>) {
        proof {
            assert(buf@.skip(0) =~= buf@);
        }
        let (payload1, p1) = match read_field(buf, 0, 1) {
            Some(x) => x,
            None => {
                return None;
            },
        };
        let elements = match read_list::<[u8; 8]>(&payload1) {
            Some(x) => x,
            None => {
                return None;
            },
        };
        if !read_skip_unknown(buf, p1, 1) {
            return None;
        }
        Some(ProtoU64Antichain { elements })
    }

    proof fn round_trip(v: Seq<Seq<u8>>) {
        assert(Self::enc(v) + Seq::<u8>::empty() =~= Self::enc(v));
        lemma_list_round_trip::<[u8; 8]>(v);
        lemma_field_take(1, list_enc::<[u8; 8]>(v), Seq::empty());
    }
}

/// Diagnostic hostname and purpose of a handle.
#[derive(Debug, PartialEq, Eq)]
pub struct ProtoHandleDebugState {
    pub hostname: String,
    pub purpose: String,
}

impl Wire for ProtoHandleDebugState {
    type VV = HandleDebugStateView;

    open spec fn vv(self) -> HandleDebugStateView {
        HandleDebugStateView {
            hostname: self.hostname@,
            purpose: self.purpose@,
        }
    }

    open spec fn bounded(v: HandleDebugStateView) -> bool {
        &&& encode_utf8(v.hostname).len() <= u64::MAX
        &&& encode_utf8(v.purpose).len() <= u64::MAX
    }

    open spec fn enc(v: HandleDebugStateView) -> Seq<u8> {
        field_enc(1, encode_utf8(v.hostname)) + field_enc(2, encode_utf8(v.purpose))
    }

    open spec fn parse(s: Seq<u8>) -> Option<HandleDebugStateView> {
        match field_take(s, 1) {
            None => None,
            Some((p1, s1)) => match <String as Wire>::parse(p1) {
                None => None,
                Some(f_hostname) => 
                match field_take(s1, 2) {
                    None => None,
                    Some((p2, s2)) => match <String as Wire>::parse(p2) {
                        None => None,
                        Some(f_purpose) => 
                        if skip_unknown(s2, 2) {
                            Some(((HandleDebugStateView { hostname: f_hostname, purpose: f_purpose })))
                        } else {
                            None
                        }
                    },
                },
            },
        }
    }

    fn write(&self, buf: &mut Vec<u8>) {
        let mut tmp1: Vec<u8> = Vec::new();
        self.hostname.write(&mut tmp1);
        write_field(buf, 1, &tmp1);
        let mut tmp2: Vec<u8> = Vec::new();
        self.purpose.write(&mut tmp2);
        write_field(buf, 2, &tmp2);
        assert(buf@ =~= old(buf)@ + Self::enc(self.vv()));
    }

    fn read(buf: &Vec<u8>) -> (r: Option<ProtoHandleDebugState>) {
        proof {
            assert(buf@.skip(0) =~= buf@);
        }
        let (payload1, p1) = match read_field(buf, 0, 1) {
            Some(x) => x,
            None => {
                return None;
            },
        };
        let f_hostname = match <String as Wire>::read(&payload1) {
            Some(x) => x,
            None => {
                return None;
            },
        };
        let (payload2, p2) = match read_field(buf, p1, 2) {
            Some(x) => x,
            None => {
                return None;
            },
        };
        let f_purpose = match <String as Wire>::read(&payload2) {
            Some(x) => x,
            None => {
                return None;
            },
        };
        if !read_skip_unknown(buf, p2, 2) {
            return None;
        }
        Some(ProtoHandleDebugState { hostname: f_hostname, purpose: f_purpose })
    }

    proof fn round_trip(v: HandleDebugStateView) {
        let r2 = Seq::<u8>::empty();
        let r1 = field_enc(2, encode_utf8(v.purpose)) + r2;
        lemma_concat_assoc(field_enc(1, encode_utf8(v.hostname)), field_enc(2, encode_utf8(v.purpose)), r2);
        assert(Self::enc(v) + Seq::<u8>::empty() =~= Self::enc(v));
        assert(Self::enc(v) == field_enc(1, encode_utf8(v.hostname)) + r1);
        <String as Wire>::round_trip(v.hostname);
        lemma_field_take(1, encode_utf8(v.hostname), r1);
        <String as Wire>::round_trip(v.purpose);
        lemma_field_take(2, encode_utf8(v.purpose), r2);
    }
}

/// A batch description: lower, upper and since frontiers.
#[derive(Debug, PartialEq, Eq)]
pub struct ProtoU64Description {
    pub lower: Option<ProtoU64Antichain>,
    pub upper: Option<ProtoU64Antichain>,
    pub since: Option<ProtoU64Antichain>,
}

pub struct ProtoU64DescriptionView {
    pub lower: Option<Seq<Seq<u8>>>,
    pub upper: Option<Seq<Seq<u8>>>,
    pub since: Option<Seq<Seq<u8>>>,
}

impl Wire for ProtoU64Description {
    type VV = ProtoU64DescriptionView;

    open spec fn vv(self) -> ProtoU64DescriptionView {
        ProtoU64DescriptionView {
            lower: opt_vv(self.lower),
            upper: opt_vv(self.upper),
            since: opt_vv(self.since),
        }
    }

    open spec fn bounded(v: ProtoU64DescriptionView) -> bool {
        &&& (v.lower matches Some(x) ==> <ProtoU64Antichain as Wire>::bounded(x))
        &&& opt_enc::<ProtoU64Antichain>(v.lower).len() <= u64::MAX
        &&& (v.upper matches Some(x) ==> <ProtoU64Antichain as Wire>::bounded(x))
        &&& opt_enc::<ProtoU64Antichain>(v.upper).len() <= u64::MAX
        &&& (v.since matches Some(x) ==> <ProtoU64Antichain as Wire>::bounded(x))
        &&& opt_enc::<ProtoU64Antichain>(v.since).len() <= u64::MAX
    }

    open spec fn enc(v: ProtoU64DescriptionView) -> Seq<u8> {
        field_enc(1, opt_enc::<ProtoU64Antichain>(v.lower)) + field_enc(2, opt_enc::<ProtoU64Antichain>(v.upper)) + field_enc(3, opt_enc::<ProtoU64Antichain>(v.since))
    }

    open spec fn parse(s: Seq<u8>) -> Option<ProtoU64DescriptionView> {
        match field_take(s, 1) {
            None => None,
            Some((p1, s1)) => match opt_parse::<ProtoU64Antichain>(p1) {
                None => None,
                Some(f_lower) => 
                match field_take(s1, 2) {
                    None => None,
                    Some((p2, s2)) => match opt_parse::<ProtoU64Antichain>(p2) {
                        None => None,
                        Some(f_upper) => 
                        match field_take(s2, 3) {
                            None => None,
                            Some((p3, s3)) => match opt_parse::<ProtoU64Antichain>(p3) {
                                None => None,
                                Some(f_since) => 
                                if skip_unknown(s3, 3) {
                                    Some(((ProtoU64DescriptionView { lower: f_lower, upper: f_upper, since: f_since })))
                                } else {
                                    None
                                }
                            },
                        },
                    },
                },
            },
        }
    }

    fn write(&self, buf: &mut Vec<u8>) {
        let mut tmp1: Vec<u8> = Vec::new();
        write_opt::<ProtoU64Antichain>(&mut tmp1, &self.lower);
        write_field(buf, 1, &tmp1);
        let mut tmp2: Vec<u8> = Vec::new();
        write_opt::<ProtoU64Antichain>(&mut tmp2, &self.upper);
        write_field(buf, 2, &tmp2);
        let mut tmp3: Vec<u8> = Vec::new();
        write_opt::<ProtoU64Antichain>(&mut tmp3, &self.since);
        write_field(buf, 3, &tmp3);
        assert(buf@ =~= old(buf)@ + Self::enc(self.vv()));
    }

    fn read(buf: &Vec<u8>) -> (r: Option<ProtoU64Description>) {
        proof {
            assert(buf@.skip(0) =~= buf@);
        }
        let (payload1, p1) = match read_field(buf, 0, 1) {
            Some(x) => x,
            None => {
                return None;
            },
        };
        let f_lower = match read_opt::<ProtoU64Antichain>(&payload1) {
            Some(x) => x,
            None => {
                return None;
            },
        };
        let (payload2, p2) = match read_field(buf, p1, 2) {
            Some(x) => x,
            None => {
                return None;
            },
        };
        let f_upper = match read_opt::<ProtoU64Antichain>(&payload2) {
            Some(x) => x,
            None => {
                return None;
            },
        };
        let (payload3, p3) = match read_field(buf, p2, 3) {
            Some(x) => x,
            None => {
                return None;
            },
        };
        let f_since = match read_opt::<ProtoU64Antichain>(&payload3) {
            Some(x) => x,
            None => {
                return None;
            },
        };
        if !read_skip_unknown(buf, p3, 3) {
            return None;
        }
        Some(ProtoU64Description { lower: f_lower, upper: f_upper, since: f_since })
    }

    proof fn round_trip(v: ProtoU64DescriptionView) {
        let r3 = Seq::<u8>::empty();
        let r2 = field_enc(3, opt_enc::<ProtoU64Antichain>(v.since)) + r3;
        let r1 = field_enc(2, opt_enc::<ProtoU64Antichain>(v.upper)) + r2;
        lemma_concat_assoc(field_enc(1, opt_enc::<ProtoU64Antichain>(v.lower)) + field_enc(2, opt_enc::<ProtoU64Antichain>(v.upper)), field_enc(3, opt_enc::<ProtoU64Antichain>(v.since)), r3);
        lemma_concat_assoc(field_enc(1, opt_enc::<ProtoU64Antichain>(v.lower)), field_enc(2, opt_enc::<ProtoU64Antichain>(v.upper)), r2);
        assert(Self::enc(v) + Seq::<u8>::empty() =~= Self::enc(v));
        assert(Self::enc(v) == field_enc(1, opt_enc::<ProtoU64Antichain>(v.lower)) + r1);
        lemma_opt_round_trip::<ProtoU64Antichain>(v.lower);
        lemma_field_take(1, opt_enc::<ProtoU64Antichain>(v.lower), r1);
        lemma_opt_round_trip::<ProtoU64Antichain>(v.upper);
        lemma_field_take(2, opt_enc::<ProtoU64Antichain>(v.upper), r2);
        lemma_opt_round_trip::<ProtoU64Antichain>(v.since);
        lemma_field_take(3, opt_enc::<ProtoU64Antichain>(v.since), r3);
    }
}

/// One part reference of a hollow batch.
#[derive(Debug, PartialEq, Eq)]
pub struct ProtoHollowBatchPart {
    pub key: String,
    pub encoded_size_bytes: u64,
}

pub struct ProtoHollowBatchPartView {
    pub key: Seq<char>,
    pub encoded_size_bytes: u64,
}

impl Wire for ProtoHollowBatchPart {
    type VV = ProtoHollowBatchPartView;

    open spec fn vv(self) -> ProtoHollowBatchPartView {
        ProtoHollowBatchPartView {
            key: self.key@,
            encoded_size_bytes: self.encoded_size_bytes,
        }
    }

    open spec fn bounded(v: ProtoHollowBatchPartView) -> bool {
        &&& encode_utf8(v.key).len() <= u64::MAX
    }

    open spec fn enc(v: ProtoHollowBatchPartView) -> Seq<u8> {
        field_enc(1, encode_utf8(v.key)) + field_enc(2, varint_enc(v.encoded_size_bytes))
    }

    open spec fn parse(s: Seq<u8>) -> Option<ProtoHollowBatchPartView> {
        match field_take(s, 1) {
            None => None,
            Some((p1, s1)) => match <String as Wire>::parse(p1) {
                None => None,
                Some(f_key) => 
                match field_take(s1, 2) {
                    None => None,
                    Some((p2, s2)) => match <u64 as Wire>::parse(p2) {
                        None => None,
                        Some(f_encoded_size_bytes) => 
                        if skip_unknown(s2, 2) {
                            Some(((ProtoHollowBatchPartView { key: f_key, encoded_size_bytes: f_encoded_size_bytes })))
                        } else {
                            None
                        }
                    },
                },
            },
        }
    }

    fn write(&self, buf: &mut Vec<u8>) {
        let mut tmp1: Vec<u8> = Vec::new();
        self.key.write(&mut tmp1);
        write_field(buf, 1, &tmp1);
        let mut tmp2: Vec<u8> = Vec::new();
        self.encoded_size_bytes.write(&mut tmp2);
        write_field(buf, 2, &tmp2);
        assert(buf@ =~= old(buf)@ + Self::enc(self.vv()));
    }

    fn read(buf: &Vec<u8>) -> (r: Option<ProtoHollowBatchPart>) {
        proof {
            assert(buf@.skip(0) =~= buf@);
        }
        let (payload1, p1) = match read_field(buf, 0, 1) {
            Some(x) => x,
            None => {
                return None;
            },
        };
        let f_key = match <String as Wire>::read(&payload1) {
            Some(x) => x,
            None => {
                return None;
            },
        };
        let (payload2, p2) = match read_field(buf, p1, 2) {
            Some(x) => x,
            None => {
                return None;
            },
        };
        let f_encoded_size_bytes = match <u64 as Wire>::read(&payload2) {
            Some(x) => x,
            None => {
                return None;
            },
        };
        if !read_skip_unknown(buf, p2, 2) {
            return None;
        }
        Some(ProtoHollowBatchPart { key: f_key, encoded_size_bytes: f_encoded_size_bytes })
    }

    proof fn round_trip(v: ProtoHollowBatchPartView) {
        let r2 = Seq::<u8>::empty();
        let r1 = field_enc(2, varint_enc(v.encoded_size_bytes)) + r2;
        lemma_concat_assoc(field_enc(1, encode_utf8(v.key)), field_enc(2, varint_enc(v.encoded_size_bytes)), r2);
        assert(Self::enc(v) + Seq::<u8>::empty() =~= Self::enc(v));
        assert(Self::enc(v) == field_enc(1, encode_utf8(v.key)) + r1);
        <String as Wire>::round_trip(v.key);
        lemma_field_take(1, encode_utf8(v.key), r1);
        lemma_varint_enc_len(v.encoded_size_bytes);
        <u64 as Wire>::round_trip(v.encoded_size_bytes);
        lemma_field_take(2, varint_enc(v.encoded_size_bytes), r2);
    }
}

/// A hollow batch; `deprecated_keys` is the legacy shape of `parts`.
#[derive(Debug, PartialEq, Eq)]
pub struct ProtoHollowBatch {
    pub desc: Option<ProtoU64Description>,
    pub parts: Vec<ProtoHollowBatchPart>,
    pub len: u64,
    pub runs: Vec<u64>,
    pub deprecated_keys: Vec<String>,
}

pub struct ProtoHollowBatchView {
    pub desc: Option<ProtoU64DescriptionView>,
    pub parts: Seq<ProtoHollowBatchPartView>,
    pub len: u64,
    pub runs: Seq<u64>,
    pub deprecated_keys: Seq<Seq<char>>,
}

impl Wire for ProtoHollowBatch {
    type VV = ProtoHollowBatchView;

    open spec fn vv(self) -> ProtoHollowBatchView {
        ProtoHollowBatchView {
            desc: opt_vv(self.desc),
            parts: vvs_of(self.parts@),
            len: self.len,
            runs: vvs_of(self.runs@),
            deprecated_keys: vvs_of(self.deprecated_keys@),
        }
    }

    open spec fn bounded(v: ProtoHollowBatchView) -> bool {
        &&& (v.desc matches Some(x) ==> <ProtoU64Description as Wire>::bounded(x))
        &&& opt_enc::<ProtoU64Description>(v.desc).len() <= u64::MAX
        &&& v.parts.len() <= u64::MAX
        &&& (forall|i: int| 0 <= i < v.parts.len() ==> <ProtoHollowBatchPart as Wire>::bounded(#[trigger] v.parts[i]) && <ProtoHollowBatchPart as Wire>::enc(v.parts[i]).len() <= u64::MAX)
        &&& list_enc::<ProtoHollowBatchPart>(v.parts).len() <= u64::MAX
        &&& v.runs.len() <= u64::MAX
        &&& (forall|i: int| 0 <= i < v.runs.len() ==> <u64 as Wire>::bounded(#[trigger] v.runs[i]) && <u64 as Wire>::enc(v.runs[i]).len() <= u64::MAX)
        &&& list_enc::<u64>(v.runs).len() <= u64::MAX
        &&& v.deprecated_keys.len() <= u64::MAX
        &&& (forall|i: int| 0 <= i < v.deprecated_keys.len() ==> <String as Wire>::bounded(#[trigger] v.deprecated_keys[i]) && <String as Wire>::enc(v.deprecated_keys[i]).len() <= u64::MAX)
        &&& list_enc::<String>(v.deprecated_keys).len() <= u64::MAX
    }

    open spec fn enc(v: ProtoHollowBatchView) -> Seq<u8> {
        field_enc(1, opt_enc::<ProtoU64Description>(v.desc)) + field_enc(2, list_enc::<ProtoHollowBatchPart>(v.parts)) + field_enc(3, varint_enc(v.len)) + field_enc(4, list_enc::<u64>(v.runs)) + field_enc(5, list_enc::<String>(v.deprecated_keys))
    }

    open spec fn parse(s: Seq<u8>) -> Option<ProtoHollowBatchView> {
        match field_take(s, 1) {
            None => None,
            Some((p1, s1)) => match opt_parse::<ProtoU64Description>(p1) {
                None => None,
                Some(f_desc) => 
                match field_take(s1, 2) {
                    None => None,
                    Some((p2, s2)) => match list_parse::<ProtoHollowBatchPart>(p2) {
                        None => None,
                        Some(f_parts) => 
                        match field_take(s2, 3) {
                            None => None,
                            Some((p3, s3)) => match <u64 as Wire>::parse(p3) {
                                None => None,
                                Some(f_len) => 
                                match field_take(s3, 4) {
                                    None => None,
                                    Some((p4, s4)) => match list_parse::<u64>(p4) {
                                        None => None,
                                        Some(f_runs) => 
                                        match field_take(s4, 5) {
                                            None => None,
                                            Some((p5, s5)) => match list_parse::<String>(p5) {
                                                None => None,
                                                Some(f_deprecated_keys) => 
                                                if skip_unknown(s5, 5) {
                                                    Some(((ProtoHollowBatchView { desc: f_desc, parts: f_parts, len: f_len, runs: f_runs, deprecated_keys: f_deprecated_keys })))
                                                } else {
                                                    None
                                                }
                                            },
                                        },
                                    },
                                },
                            },
                        },
                    },
                },
            },
        }
    }

    fn write(&self, buf: &mut Vec<u8>) {
        let mut tmp1: Vec<u8> = Vec::new();
        write_opt::<ProtoU64Description>(&mut tmp1, &self.desc);
        write_field(buf, 1, &tmp1);
        let mut tmp2: Vec<u8> = Vec::new();
        write_list::<ProtoHollowBatchPart>(&mut tmp2, &self.parts);
        write_field(buf, 2, &tmp2);
        let mut tmp3: Vec<u8> = Vec::new();
        self.len.write(&mut tmp3);
        write_field(buf, 3, &tmp3);
        let mut tmp4: Vec<u8> = Vec::new();
        write_list::<u64>(&mut tmp4, &self.runs);
        write_field(buf, 4, &tmp4);
        let mut tmp5: Vec<u8> = Vec::new();
        write_list::<String>(&mut tmp5, &self.deprecated_keys);
        write_field(buf, 5, &tmp5);
        assert(buf@ =~= old(buf)@ + Self::enc(self.vv()));
    }

    fn read(buf: &Vec<u8>) -> (r: Option<ProtoHollowBatch>) {
        proof {
            assert(buf@.skip(0) =~= buf@);
        }
        let (payload1, p1) = match read_field(buf, 0, 1) {
            Some(x) => x,
            None => {
                return None;
            },
        };
        let f_desc = match read_opt::<ProtoU64Description>(&payload1) {
            Some(x) => x,
            None => {
                return None;
            },
        };
        let (payload2, p2) = match read_field(buf, p1, 2) {
            Some(x) => x,
            None => {
                return None;
            },
        };
        let f_parts = match read_list::<ProtoHollowBatchPart>(&payload2) {
            Some(x) => x,
            None => {
                return None;
            },
        };
        let (payload3, p3) = match read_field(buf, p2, 3) {
            Some(x) => x,
            None => {
                return None;
            },
        };
        let f_len = match <u64 as Wire>::read(&payload3) {
            Some(x) => x,
            None => {
                return None;
            },
        };
        let (payload4, p4) = match read_field(buf, p3, 4) {
            Some(x) => x,
            None => {
                return None;
            },
        };
        let f_runs = match read_list::<u64>(&payload4) {
            Some(x) => x,
            None => {
                return None;
            },
        };
        let (payload5, p5) = match read_field(buf, p4, 5) {
            Some(x) => x,
            None => {
                return None;
            },
        };
        let f_deprecated_keys = match read_list::<String>(&payload5) {
            Some(x) => x,
            None => {
                return None;
            },
        };
        if !read_skip_unknown(buf, p5, 5) {
            return None;
        }
        Some(ProtoHollowBatch { desc: f_desc, parts: f_parts, len: f_len, runs: f_runs, deprecated_keys: f_deprecated_keys })
    }

    proof fn round_trip(v: ProtoHollowBatchView) {
        let r5 = Seq::<u8>::empty();
        let r4 = field_enc(5, list_enc::<String>(v.deprecated_keys)) + r5;
        let r3 = field_enc(4, list_enc::<u64>(v.runs)) + r4;
        let r2 = field_enc(3, varint_enc(v.len)) + r3;
        let r1 = field_enc(2, list_enc::<ProtoHollowBatchPart>(v.parts)) + r2;
        lemma_concat_assoc(field_enc(1, opt_enc::<ProtoU64Description>(v.desc)) + field_enc(2, list_enc::<ProtoHollowBatchPart>(v.parts)) + field_enc(3, varint_enc(v.len)) + field_enc(4, list_enc::<u64>(v.runs)), field_enc(5, list_enc::<String>(v.deprecated_keys)), r5);
        lemma_concat_assoc(field_enc(1, opt_enc::<ProtoU64Description>(v.desc)) + field_enc(2, list_enc::<ProtoHollowBatchPart>(v.parts)) + field_enc(3, varint_enc(v.len)), field_enc(4, list_enc::<u64>(v.runs)), r4);
        lemma_concat_assoc(field_enc(1, opt_enc::<ProtoU64Description>(v.desc)) + field_enc(2, list_enc::<ProtoHollowBatchPart>(v.parts)), field_enc(3, varint_enc(v.len)), r3);
        lemma_concat_assoc(field_enc(1, opt_enc::<ProtoU64Description>(v.desc)), field_enc(2, list_enc::<ProtoHollowBatchPart>(v.parts)), r2);
        assert(Self::enc(v) + Seq::<u8>::empty() =~= Self::enc(v));
        assert(Self::enc(v) == field_enc(1, opt_enc::<ProtoU64Description>(v.desc)) + r1);
        lemma_opt_round_trip::<ProtoU64Description>(v.desc);
        lemma_field_take(1, opt_enc::<ProtoU64Description>(v.desc), r1);
        lemma_list_round_trip::<ProtoHollowBatchPart>(v.parts);
        lemma_field_take(2, list_enc::<ProtoHollowBatchPart>(v.parts), r2);
        lemma_varint_enc_len(v.len);
        <u64 as Wire>::round_trip(v.len);
        lemma_field_take(3, varint_enc(v.len), r3);
        lemma_list_round_trip::<u64>(v.runs);
        lemma_field_take(4, list_enc::<u64>(v.runs), r4);
        lemma_list_round_trip::<String>(v.deprecated_keys);
        lemma_field_take(5, list_enc::<String>(v.deprecated_keys), r5);
    }
}

/// The trace: its since frontier and ordered batches.
#[derive(Debug, PartialEq, Eq)]
pub struct ProtoTrace {
    pub since: Option<ProtoU64Antichain>,
    pub spine: Vec<ProtoHollowBatch>,
}

pub struct ProtoTraceView {
    pub since: Option<Seq<Seq<u8>>>,
    pub spine: Seq<ProtoHollowBatchView>,
}

impl Wire for ProtoTrace {
    type VV = ProtoTraceView;

    open spec fn vv(self) -> ProtoTraceView {
        ProtoTraceView {
            since: opt_vv(self.since),
            spine: vvs_of(self.spine@),
        }
    }

    open spec fn bounded(v: ProtoTraceView) -> bool {
        &&& (v.since matches Some(x) ==> <ProtoU64Antichain as Wire>::bounded(x))
        &&& opt_enc::<ProtoU64Antichain>(v.since).len() <= u64::MAX
        &&& v.spine.len() <= u64::MAX
        &&& (forall|i: int| 0 <= i < v.spine.len() ==> <ProtoHollowBatch as Wire>::bounded(#[trigger] v.spine[i]) && <ProtoHollowBatch as Wire>::enc(v.spine[i]).len() <= u64::MAX)
        &&& list_enc::<ProtoHollowBatch>(v.spine).len() <= u64::MAX
    }

    open spec fn enc(v: ProtoTraceView) -> Seq<u8> {
        field_enc(1, opt_enc::<ProtoU64Antichain>(v.since)) + field_enc(2, list_enc::<ProtoHollowBatch>(v.spine))
    }

    open spec fn parse(s: Seq<u8>) -> Option<ProtoTraceView> {
        match field_take(s, 1) {
            None => None,
            Some((p1, s1)) => match opt_parse::<ProtoU64Antichain>(p1) {
                None => None,
                Some(f_since) => 
                match field_take(s1, 2) {
                    None => None,
                    Some((p2, s2)) => match list_parse::<ProtoHollowBatch>(p2) {
                        None => None,
                        Some(f_spine) => 
                        if skip_unknown(s2, 2) {
                            Some(((ProtoTraceView { since: f_since, spine: f_spine })))
                        } else {
                            None
                        }
                    },
                },
            },
        }
    }

    fn write(&self, buf: &mut Vec<u8>) {
        let mut tmp1: Vec<u8> = Vec::new();
        write_opt::<ProtoU64Antichain>(&mut tmp1, &self.since);
        write_field(buf, 1, &tmp1);
        let mut tmp2: Vec<u8> = Vec::new();
        write_list::<ProtoHollowBatch>(&mut tmp2, &self.spine);
        write_field(buf, 2, &tmp2);
        assert(buf@ =~= old(buf)@ + Self::enc(self.vv()));
    }

    fn read(buf: &Vec<u8>) -> (r: Option<ProtoTrace>) {
        proof {
            assert(buf@.skip(0) =~= buf@);
        }
        let (payload1, p1) = match read_field(buf, 0, 1) {
            Some(x) => x,
            None => {
                return None;
            },
        };
        let f_since = match read_opt::<ProtoU64Antichain>(&payload1) {
            Some(x) => x,
            None => {
                return None;
            },
        };
        let (payload2, p2) = match read_field(buf, p1, 2) {
            Some(x) => x,
            None => {
                return None;
            },
        };
        let f_spine = match read_list::<ProtoHollowBatch>(&payload2) {
            Some(x) => x,
            None => {
                return None;
            },
        };
        if !read_skip_unknown(buf, p2, 2) {
            return None;
        }
        Some(ProtoTrace { since: f_since, spine: f_spine })
    }

    proof fn round_trip(v: ProtoTraceView) {
        let r2 = Seq::<u8>::empty();
        let r1 = field_enc(2, list_enc::<ProtoHollowBatch>(v.spine)) + r2;
        lemma_concat_assoc(field_enc(1, opt_enc::<ProtoU64Antichain>(v.since)), field_enc(2, list_enc::<ProtoHollowBatch>(v.spine)), r2);
        assert(Self::enc(v) + Seq::<u8>::empty() =~= Self::enc(v));
        assert(Self::enc(v) == field_enc(1, opt_enc::<ProtoU64Antichain>(v.since)) + r1);
        lemma_opt_round_trip::<ProtoU64Antichain>(v.since);
        lemma_field_take(1, opt_enc::<ProtoU64Antichain>(v.since), r1);
        lemma_list_round_trip::<ProtoHollowBatch>(v.spine);
        lemma_field_take(2, list_enc::<ProtoHollowBatch>(v.spine), r2);
    }
}

/// One leased reader; `lease_duration_ms` zero and `debug` absent are legacy shapes.
#[derive(Debug, PartialEq, Eq)]
pub struct ProtoLeasedReaderState {
    pub seqno: u64,
    pub since: Option<ProtoU64Antichain>,
    pub last_heartbeat_timestamp_ms: u64,
    pub lease_duration_ms: u64,
    pub debug: Option<ProtoHandleDebugState>,
}

pub struct ProtoLeasedReaderStateView {
    pub seqno: u64,
    pub since: Option<Seq<Seq<u8>>>,
    pub last_heartbeat_timestamp_ms: u64,
    pub lease_duration_ms: u64,
    pub debug: Option<HandleDebugStateView>,
}

impl Wire for ProtoLeasedReaderState {
    type VV = ProtoLeasedReaderStateView;

    open spec fn vv(self) -> ProtoLeasedReaderStateView {
        ProtoLeasedReaderStateView {
            seqno: self.seqno,
            since: opt_vv(self.since),
            last_heartbeat_timestamp_ms: self.last_heartbeat_timestamp_ms,
            lease_duration_ms: self.lease_duration_ms,
            debug: opt_vv(self.debug),
        }
    }

    open spec fn bounded(v: ProtoLeasedReaderStateView) -> bool {
        &&& (v.since matches Some(x) ==> <ProtoU64Antichain as Wire>::bounded(x))
        &&& opt_enc::<ProtoU64Antichain>(v.since).len() <= u64::MAX
        &&& (v.debug matches Some(x) ==> <ProtoHandleDebugState as Wire>::bounded(x))
        &&& opt_enc::<ProtoHandleDebugState>(v.debug).len() <= u64::MAX
    }

    open spec fn enc(v: ProtoLeasedReaderStateView) -> Seq<u8> {
        field_enc(1, varint_enc(v.seqno)) + field_enc(2, opt_enc::<ProtoU64Antichain>(v.since)) + field_enc(3, varint_enc(v.last_heartbeat_timestamp_ms)) + field_enc(4, varint_enc(v.lease_duration_ms)) + field_enc(5, opt_enc::<ProtoHandleDebugState>(v.debug))
    }

    open spec fn parse(s: Seq<u8>) -> Option<ProtoLeasedReaderStateView> {
        match field_take(s, 1) {
            None => None,
            Some((p1, s1)) => match <u64 as Wire>::parse(p1) {
                None => None,
                Some(f_seqno) => 
                match field_take(s1, 2) {
                    None => None,
                    Some((p2, s2)) => match opt_parse::<ProtoU64Antichain>(p2) {
                        None => None,
                        Some(f_since) => 
                        match field_take(s2, 3) {
                            None => None,
                            Some((p3, s3)) => match <u64 as Wire>::parse(p3) {
                                None => None,
                                Some(f_last_heartbeat_timestamp_ms) => 
                                match field_take(s3, 4) {
                                    None => None,
                                    Some((p4, s4)) => match <u64 as Wire>::parse(p4) {
                                        None => None,
                                        Some(f_lease_duration_ms) => 
                                        match field_take(s4, 5) {
                                            None => None,
                                            Some((p5, s5)) => match opt_parse::<ProtoHandleDebugState>(p5) {
                                                None => None,
                                                Some(f_debug) => 
                                                if skip_unknown(s5, 5) {
                                                    Some(((ProtoLeasedReaderStateView { seqno: f_seqno, since: f_since, last_heartbeat_timestamp_ms: f_last_heartbeat_timestamp_ms, lease_duration_ms: f_lease_duration_ms, debug: f_debug })))
                                                } else {
                                                    None
                                                }
                                            },
                                        },
                                    },
                                },
                            },
                        },
                    },
                },
            },
        }
    }

    fn write(&self, buf: &mut Vec<u8>) {
        let mut tmp1: Vec<u8> = Vec::new();
        self.seqno.write(&mut tmp1);
        write_field(buf, 1, &tmp1);
        let mut tmp2: Vec<u8> = Vec::new();
        write_opt::<ProtoU64Antichain>(&mut tmp2, &self.since);
        write_field(buf, 2, &tmp2);
        let mut tmp3: Vec<u8> = Vec::new();
        self.last_heartbeat_timestamp_ms.write(&mut tmp3);
        write_field(buf, 3, &tmp3);
        let mut tmp4: Vec<u8> = Vec::new();
        self.lease_duration_ms.write(&mut tmp4);
        write_field(buf, 4, &tmp4);
        let mut tmp5: Vec<u8> = Vec::new();
        write_opt::<ProtoHandleDebugState>(&mut tmp5, &self.debug);
        write_field(buf, 5, &tmp5);
        assert(buf@ =~= old(buf)@ + Self::enc(self.vv()));
    }

    fn read(buf: &Vec<u8>) -> (r: Option<ProtoLeasedReaderState>) {
        proof {
            assert(buf@.skip(0) =~= buf@);
        }
        let (payload1, p1) = match read_field(buf, 0, 1) {
            Some(x) => x,
            None => {
                return None;
            },
        };
        let f_seqno = match <u64 as Wire>::read(&payload1) {
            Some(x) => x,
            None => {
                return None;
            },
        };
        let (payload2, p2) = match read_field(buf, p1, 2) {
            Some(x) => x,
            None => {
                return None;
            },
        };
        let f_since = match read_opt::<ProtoU64Antichain>(&payload2) {
            Some(x) => x,
            None => {
                return None;
            },
        };
        let (payload3, p3) = match read_field(buf, p2, 3) {
            Some(x) => x,
            None => {
                return None;
            },
        };
        let f_last_heartbeat_timestamp_ms = match <u64 as Wire>::read(&payload3) {
            Some(x) => x,
            None => {
                return None;
            },
        };
        let (payload4, p4) = match read_field(buf, p3, 4) {
            Some(x) => x,
            None => {
                return None;
            },
        };
        let f_lease_duration_ms = match <u64 as Wire>::read(&payload4) {
            Some(x) => x,
            None => {
                return None;
            },
        };
        let (payload5, p5) = match read_field(buf, p4, 5) {
            Some(x) => x,
            None => {
                return None;
            },
        };
        let f_debug = match read_opt::<ProtoHandleDebugState>(&payload5) {
            Some(x) => x,
            None => {
                return None;
            },
        };
        if !read_skip_unknown(buf, p5, 5) {
            return None;
        }
        Some(ProtoLeasedReaderState { seqno: f_seqno, since: f_since, last_heartbeat_timestamp_ms: f_last_heartbeat_timestamp_ms, lease_duration_ms: f_lease_duration_ms, debug: f_debug })
    }

    proof fn round_trip(v: ProtoLeasedReaderStateView) {
        let r5 = Seq::<u8>::empty();
        let r4 = field_enc(5, opt_enc::<ProtoHandleDebugState>(v.debug)) + r5;
        let r3 = field_enc(4, varint_enc(v.lease_duration_ms)) + r4;
        let r2 = field_enc(3, varint_enc(v.last_heartbeat_timestamp_ms)) + r3;
        let r1 = field_enc(2, opt_enc::<ProtoU64Antichain>(v.since)) + r2;
        lemma_concat_assoc(field_enc(1, varint_enc(v.seqno)) + field_enc(2, opt_enc::<ProtoU64Antichain>(v.since)) + field_enc(3, varint_enc(v.last_heartbeat_timestamp_ms)) + field_enc(4, varint_enc(v.lease_duration_ms)), field_enc(5, opt_enc::<ProtoHandleDebugState>(v.debug)), r5);
        lemma_concat_assoc(field_enc(1, varint_enc(v.seqno)) + field_enc(2, opt_enc::<ProtoU64Antichain>(v.since)) + field_enc(3, varint_enc(v.last_heartbeat_timestamp_ms)), field_enc(4, varint_enc(v.lease_duration_ms)), r4);
        lemma_concat_assoc(field_enc(1, varint_enc(v.seqno)) + field_enc(2, opt_enc::<ProtoU64Antichain>(v.since)), field_enc(3, varint_enc(v.last_heartbeat_timestamp_ms)), r3);
        lemma_concat_assoc(field_enc(1, varint_enc(v.seqno)), field_enc(2, opt_enc::<ProtoU64Antichain>(v.since)), r2);
        assert(Self::enc(v) + Seq::<u8>::empty() =~= Self::enc(v));
        assert(Self::enc(v) == field_enc(1, varint_enc(v.seqno)) + r1);
        lemma_varint_enc_len(v.seqno);
        <u64 as Wire>::round_trip(v.seqno);
        lemma_field_take(1, varint_enc(v.seqno), r1);
        lemma_opt_round_trip::<ProtoU64Antichain>(v.since);
        lemma_field_take(2, opt_enc::<ProtoU64Antichain>(v.since), r2);
        lemma_varint_enc_len(v.last_heartbeat_timestamp_ms);
        <u64 as Wire>::round_trip(v.last_heartbeat_timestamp_ms);
        lemma_field_take(3, varint_enc(v.last_heartbeat_timestamp_ms), r3);
        lemma_varint_enc_len(v.lease_duration_ms);
        <u64 as Wire>::round_trip(v.lease_duration_ms);
        lemma_field_take(4, varint_enc(v.lease_duration_ms), r4);
        lemma_opt_round_trip::<ProtoHandleDebugState>(v.debug);
        lemma_field_take(5, opt_enc::<ProtoHandleDebugState>(v.debug), r5);
    }
}

/// One critical reader; `debug` absent is a legacy shape.
#[derive(Debug, PartialEq, Eq)]
pub struct ProtoCriticalReaderState {
    pub since: Option<ProtoU64Antichain>,
    pub opaque: [u8; 8],
    pub opaque_codec: String,
    pub debug: Option<ProtoHandleDebugState>,
}

pub struct ProtoCriticalReaderStateView {
    pub since: Option<Seq<Seq<u8>>>,
    pub opaque: Seq<u8>,
    pub opaque_codec: Seq<char>,
    pub debug: Option<HandleDebugStateView>,
}

impl Wire for ProtoCriticalReaderState {
    type VV = ProtoCriticalReaderStateView;

    open spec fn vv(self) -> ProtoCriticalReaderStateView {
        ProtoCriticalReaderStateView {
            since: opt_vv(self.since),
            opaque: self.opaque@,
            opaque_codec: self.opaque_codec@,
            debug: opt_vv(self.debug),
        }
    }

    open spec fn bounded(v: ProtoCriticalReaderStateView) -> bool {
        &&& (v.since matches Some(x) ==> <ProtoU64Antichain as Wire>::bounded(x))
        &&& opt_enc::<ProtoU64Antichain>(v.since).len() <= u64::MAX
        &&& v.opaque.len() == 8
        &&& encode_utf8(v.opaque_codec).len() <= u64::MAX
        &&& (v.debug matches Some(x) ==> <ProtoHandleDebugState as Wire>::bounded(x))
        &&& opt_enc::<ProtoHandleDebugState>(v.debug).len() <= u64::MAX
    }

    open spec fn enc(v: ProtoCriticalReaderStateView) -> Seq<u8> {
        field_enc(1, opt_enc::<ProtoU64Antichain>(v.since)) + field_enc(2, v.opaque) + field_enc(3, encode_utf8(v.opaque_codec)) + field_enc(4, opt_enc::<ProtoHandleDebugState>(v.debug))
    }

    open spec fn parse(s: Seq<u8>) -> Option<ProtoCriticalReaderStateView> {
        match field_take(s, 1) {
            None => None,
            Some((p1, s1)) => match opt_parse::<ProtoU64Antichain>(p1) {
                None => None,
                Some(f_since) => 
                match field_take(s1, 2) {
                    None => None,
                    Some((p2, s2)) => match <[u8; 8] as Wire>::parse(p2) {
                        None => None,
                        Some(f_opaque) => 
                        match field_take(s2, 3) {
                            None => None,
                            Some((p3, s3)) => match <String as Wire>::parse(p3) {
                                None => None,
                                Some(f_opaque_codec) => 
                                match field_take(s3, 4) {
                                    None => None,
                                    Some((p4, s4)) => match opt_parse::<ProtoHandleDebugState>(p4) {
                                        None => None,
                                        Some(f_debug) => 
                                        if skip_unknown(s4, 4) {
                                            Some(((ProtoCriticalReaderStateView { since: f_since, opaque: f_opaque, opaque_codec: f_opaque_codec, debug: f_debug })))
                                        } else {
                                            None
                                        }
                                    },
                                },
                            },
                        },
                    },
                },
            },
        }
    }

    fn write(&self, buf: &mut Vec<u8>) {
        let mut tmp1: Vec<u8> = Vec::new();
        write_opt::<ProtoU64Antichain>(&mut tmp1, &self.since);
        write_field(buf, 1, &tmp1);
        let mut tmp2: Vec<u8> = Vec::new();
        self.opaque.write(&mut tmp2);
        write_field(buf, 2, &tmp2);
        let mut tmp3: Vec<u8> = Vec::new();
        self.opaque_codec.write(&mut tmp3);
        write_field(buf, 3, &tmp3);
        let mut tmp4: Vec<u8> = Vec::new();
        write_opt::<ProtoHandleDebugState>(&mut tmp4, &self.debug);
        write_field(buf, 4, &tmp4);
        assert(buf@ =~= old(buf)@ + Self::enc(self.vv()));
    }

    fn read(buf: &Vec<u8>) -> (r: Option<ProtoCriticalReaderState>) {
        proof {
            assert(buf@.skip(0) =~= buf@);
        }
        let (payload1, p1) = match read_field(buf, 0, 1) {
            Some(x) => x,
            None => {
                return None;
            },
        };
        let f_since = match read_opt::<ProtoU64Antichain>(&payload1) {
            Some(x) => x,
            None => {
                return None;
            },
        };
        let (payload2, p2) = match read_field(buf, p1, 2) {
            Some(x) => x,
            None => {
                return None;
            },
        };
        let f_opaque = match <[u8; 8] as Wire>::read(&payload2) {
            Some(x) => x,
            None => {
                return None;
            },
        };
        let (payload3, p3) = match read_field(buf, p2, 3) {
            Some(x) => x,
            None => {
                return None;
            },
        };
        let f_opaque_codec = match <String as Wire>::read(&payload3) {
            Some(x) => x,
            None => {
                return None;
            },
        };
        let (payload4, p4) = match read_field(buf, p3, 4) {
            Some(x) => x,
            None => {
                return None;
            },
        };
        let f_debug = match read_opt::<ProtoHandleDebugState>(&payload4) {
            Some(x) => x,
            None => {
                return None;
            },
        };
        if !read_skip_unknown(buf, p4, 4) {
            return None;
        }
        Some(ProtoCriticalReaderState { since: f_since, opaque: f_opaque, opaque_codec: f_opaque_codec, debug: f_debug })
    }

    proof fn round_trip(v: ProtoCriticalReaderStateView) {
        let r4 = Seq::<u8>::empty();
        let r3 = field_enc(4, opt_enc::<ProtoHandleDebugState>(v.debug)) + r4;
        let r2 = field_enc(3, encode_utf8(v.opaque_codec)) + r3;
        let r1 = field_enc(2, v.opaque) + r2;
        lemma_concat_assoc(field_enc(1, opt_enc::<ProtoU64Antichain>(v.since)) + field_enc(2, v.opaque) + field_enc(3, encode_utf8(v.opaque_codec)), field_enc(4, opt_enc::<ProtoHandleDebugState>(v.debug)), r4);
        lemma_concat_assoc(field_enc(1, opt_enc::<ProtoU64Antichain>(v.since)) + field_enc(2, v.opaque), field_enc(3, encode_utf8(v.opaque_codec)), r3);
        lemma_concat_assoc(field_enc(1, opt_enc::<ProtoU64Antichain>(v.since)), field_enc(2, v.opaque), r2);
        assert(Self::enc(v) + Seq::<u8>::empty() =~= Self::enc(v));
        assert(Self::enc(v) == field_enc(1, opt_enc::<ProtoU64Antichain>(v.since)) + r1);
        lemma_opt_round_trip::<ProtoU64Antichain>(v.since);
        lemma_field_take(1, opt_enc::<ProtoU64Antichain>(v.since), r1);
        <[u8; 8] as Wire>::round_trip(v.opaque);
        lemma_field_take(2, v.opaque, r2);
        <String as Wire>::round_trip(v.opaque_codec);
        lemma_field_take(3, encode_utf8(v.opaque_codec), r3);
        lemma_opt_round_trip::<ProtoHandleDebugState>(v.debug);
        lemma_field_take(4, opt_enc::<ProtoHandleDebugState>(v.debug), r4);
    }
}

/// One writer; an empty token and an absent upper are legacy shapes.
#[derive(Debug, PartialEq, Eq)]
pub struct ProtoWriterState {
    pub last_heartbeat_timestamp_ms: u64,
    pub lease_duration_ms: u64,
    pub most_recent_write_token: String,
    pub most_recent_write_upper: Option<ProtoU64Antichain>,
    pub debug: Option<ProtoHandleDebugState>,
}

pub struct ProtoWriterStateView {
    pub last_heartbeat_timestamp_ms: u64,
    pub lease_duration_ms: u64,
    pub most_recent_write_token: Seq<char>,
    pub most_recent_write_upper: Option<Seq<Seq<u8>>>,
    pub debug: Option<HandleDebugStateView>,
}

impl Wire for ProtoWriterState {
    type VV = ProtoWriterStateView;

    open spec fn vv(self) -> ProtoWriterStateView {
        ProtoWriterStateView {
            last_heartbeat_timestamp_ms: self.last_heartbeat_timestamp_ms,
            lease_duration_ms: self.lease_duration_ms,
            most_recent_write_token: self.most_recent_write_token@,
            most_recent_write_upper: opt_vv(self.most_recent_write_upper),
            debug: opt_vv(self.debug),
        }
    }

    open spec fn bounded(v: ProtoWriterStateView) -> bool {
        &&& encode_utf8(v.most_recent_write_token).len() <= u64::MAX
        &&& (v.most_recent_write_upper matches Some(x) ==> <ProtoU64Antichain as Wire>::bounded(x))
        &&& opt_enc::<ProtoU64Antichain>(v.most_recent_write_upper).len() <= u64::MAX
        &&& (v.debug matches Some(x) ==> <ProtoHandleDebugState as Wire>::bounded(x))
        &&& opt_enc::<ProtoHandleDebugState>(v.debug).len() <= u64::MAX
    }

    open spec fn enc(v: ProtoWriterStateView) -> Seq<u8> {
        field_enc(1, varint_enc(v.last_heartbeat_timestamp_ms)) + field_enc(2, varint_enc(v.lease_duration_ms)) + field_enc(3, encode_utf8(v.most_recent_write_token)) + field_enc(4, opt_enc::<ProtoU64Antichain>(v.most_recent_write_upper)) + field_enc(5, opt_enc::<ProtoHandleDebugState>(v.debug))
    }

    open spec fn parse(s: Seq<u8>) -> Option<ProtoWriterStateView> {
        match field_take(s, 1) {
            None => None,
            Some((p1, s1)) => match <u64 as Wire>::parse(p1) {
                None => None,
                Some(f_last_heartbeat_timestamp_ms) => 
                match field_take(s1, 2) {
                    None => None,
                    Some((p2, s2)) => match <u64 as Wire>::parse(p2) {
                        None => None,
                        Some(f_lease_duration_ms) => 
                        match field_take(s2, 3) {
                            None => None,
                            Some((p3, s3)) => match <String as Wire>::parse(p3) {
                                None => None,
                                Some(f_most_recent_write_token) => 
                                match field_take(s3, 4) {
                                    None => None,
                                    Some((p4, s4)) => match opt_parse::<ProtoU64Antichain>(p4) {
                                        None => None,
                                        Some(f_most_recent_write_upper) => 
                                        match field_take(s4, 5) {
                                            None => None,
                                            Some((p5, s5)) => match opt_parse::<ProtoHandleDebugState>(p5) {
                                                None => None,
                                                Some(f_debug) => 
                                                if skip_unknown(s5, 5) {
                                                    Some(((ProtoWriterStateView { last_heartbeat_timestamp_ms: f_last_heartbeat_timestamp_ms, lease_duration_ms: f_lease_duration_ms, most_recent_write_token: f_most_recent_write_token, most_recent_write_upper: f_most_recent_write_upper, debug: f_debug })))
                                                } else {
                                                    None
                                                }
                                            },
                                        },
                                    },
                                },
                            },
                        },
                    },
                },
            },
        }
    }

    fn write(&self, buf: &mut Vec<u8>) {
        let mut tmp1: Vec<u8> = Vec::new();
        self.last_heartbeat_timestamp_ms.write(&mut tmp1);
        write_field(buf, 1, &tmp1);
        let mut tmp2: Vec<u8> = Vec::new();
        self.lease_duration_ms.write(&mut tmp2);
        write_field(buf, 2, &tmp2);
        let mut tmp3: Vec<u8> = Vec::new();
        self.most_recent_write_token.write(&mut tmp3);
        write_field(buf, 3, &tmp3);
        let mut tmp4: Vec<u8> = Vec::new();
        write_opt::<ProtoU64Antichain>(&mut tmp4, &self.most_recent_write_upper);
        write_field(buf, 4, &tmp4);
        let mut tmp5: Vec<u8> = Vec::new();
        write_opt::<ProtoHandleDebugState>(&mut tmp5, &self.debug);
        write_field(buf, 5, &tmp5);
        assert(buf@ =~= old(buf)@ + Self::enc(self.vv()));
    }

    fn read(buf: &Vec<u8>) -> (r: Option<ProtoWriterState>) {
        proof {
            assert(buf@.skip(0) =~= buf@);
        }
        let (payload1, p1) = match read_field(buf, 0, 1) {
            Some(x) => x,
            None => {
                return None;
            },
        };
        let f_last_heartbeat_timestamp_ms = match <u64 as Wire>::read(&payload1) {
            Some(x) => x,
            None => {
                return None;
            },
        };
        let (payload2, p2) = match read_field(buf, p1, 2) {
            Some(x) => x,
            None => {
                return None;
            },
        };
        let f_lease_duration_ms = match <u64 as Wire>::read(&payload2) {
            Some(x) => x,
            None => {
                return None;
            },
        };
        let (payload3, p3) = match read_field(buf, p2, 3) {
            Some(x) => x,
            None => {
                return None;
            },
        };
        let f_most_recent_write_token = match <String as Wire>::read(&payload3) {
            Some(x) => x,
            None => {
                return None;
            },
        };
        let (payload4, p4) = match read_field(buf, p3, 4) {
            Some(x) => x,
            None => {
                return None;
            },
        };
        let f_most_recent_write_upper = match read_opt::<ProtoU64Antichain>(&payload4) {
            Some(x) => x,
            None => {
                return None;
            },
        };
        let (payload5, p5) = match read_field(buf, p4, 5) {
            Some(x) => x,
            None => {
                return None;
            },
        };
        let f_debug = match read_opt::<ProtoHandleDebugState>(&payload5) {
            Some(x) => x,
            None => {
                return None;
            },
        };
        if !read_skip_unknown(buf, p5, 5) {
            return None;
        }
        Some(ProtoWriterState { last_heartbeat_timestamp_ms: f_last_heartbeat_timestamp_ms, lease_duration_ms: f_lease_duration_ms, most_recent_write_token: f_most_recent_write_token, most_recent_write_upper: f_most_recent_write_upper, debug: f_debug })
    }

    proof fn round_trip(v: ProtoWriterStateView) {
        let r5 = Seq::<u8>::empty();
        let r4 = field_enc(5, opt_enc::<ProtoHandleDebugState>(v.debug)) + r5;
        let r3 = field_enc(4, opt_enc::<ProtoU64Antichain>(v.most_recent_write_upper)) + r4;
        let r2 = field_enc(3, encode_utf8(v.most_recent_write_token)) + r3;
        let r1 = field_enc(2, varint_enc(v.lease_duration_ms)) + r2;
        lemma_concat_assoc(field_enc(1, varint_enc(v.last_heartbeat_timestamp_ms)) + field_enc(2, varint_enc(v.lease_duration_ms)) + field_enc(3, encode_utf8(v.most_recent_write_token)) + field_enc(4, opt_enc::<ProtoU64Antichain>(v.most_recent_write_upper)), field_enc(5, opt_enc::<ProtoHandleDebugState>(v.debug)), r5);
        lemma_concat_assoc(field_enc(1, varint_enc(v.last_heartbeat_timestamp_ms)) + field_enc(2, varint_enc(v.lease_duration_ms)) + field_enc(3, encode_utf8(v.most_recent_write_token)), field_enc(4, opt_enc::<ProtoU64Antichain>(v.most_recent_write_upper)), r4);
        lemma_concat_assoc(field_enc(1, varint_enc(v.last_heartbeat_timestamp_ms)) + field_enc(2, varint_enc(v.lease_duration_ms)), field_enc(3, encode_utf8(v.most_recent_write_token)), r3);
        lemma_concat_assoc(field_enc(1, varint_enc(v.last_heartbeat_timestamp_ms)), field_enc(2, varint_enc(v.lease_duration_ms)), r2);
        assert(Self::enc(v) + Seq::<u8>::empty() =~= Self::enc(v));
        assert(Self::enc(v) == field_enc(1, varint_enc(v.last_heartbeat_timestamp_ms)) + r1);
        lemma_varint_enc_len(v.last_heartbeat_timestamp_ms);
        <u64 as Wire>::round_trip(v.last_heartbeat_timestamp_ms);
        lemma_field_take(1, varint_enc(v.last_heartbeat_timestamp_ms), r1);
        lemma_varint_enc_len(v.lease_duration_ms);
        <u64 as Wire>::round_trip(v.lease_duration_ms);
        lemma_field_take(2, varint_enc(v.lease_duration_ms), r2);
        <String as Wire>::round_trip(v.most_recent_write_token);
        lemma_field_take(3, encode_utf8(v.most_recent_write_token), r3);
        lemma_opt_round_trip::<ProtoU64Antichain>(v.most_recent_write_upper);
        lemma_field_take(4, opt_enc::<ProtoU64Antichain>(v.most_recent_write_upper), r4);
        lemma_opt_round_trip::<ProtoHandleDebugState>(v.debug);
        lemma_field_take(5, opt_enc::<ProtoHandleDebugState>(v.debug), r5);
    }
}

/// One rollup pointer: the seqno it was taken at and its blob key.
#[derive(Debug, PartialEq, Eq)]
pub struct ProtoRollupEntry {
    pub seqno: u64,
    pub key: String,
}

pub struct ProtoRollupEntryView {
    pub seqno: u64,
    pub key: Seq<char>,
}

impl Wire for ProtoRollupEntry {
    type VV = ProtoRollupEntryView;

    open spec fn vv(self) -> ProtoRollupEntryView {
        ProtoRollupEntryView {
            seqno: self.seqno,
            key: self.key@,
        }
    }

    open spec fn bounded(v: ProtoRollupEntryView) -> bool {
        &&& encode_utf8(v.key).len() <= u64::MAX
    }

    open spec fn enc(v: ProtoRollupEntryView) -> Seq<u8> {
        field_enc(1, varint_enc(v.seqno)) + field_enc(2, encode_utf8(v.key))
    }

    open spec fn parse(s: Seq<u8>) -> Option<ProtoRollupEntryView> {
        match field_take(s, 1) {
            None => None,
            Some((p1, s1)) => match <u64 as Wire>::parse(p1) {
                None => None,
                Some(f_seqno) => 
                match field_take(s1, 2) {
                    None => None,
                    Some((p2, s2)) => match <String as Wire>::parse(p2) {
                        None => None,
                        Some(f_key) => 
                        if skip_unknown(s2, 2) {
                            Some(((ProtoRollupEntryView { seqno: f_seqno, key: f_key })))
                        } else {
                            None
                        }
                    },
                },
            },
        }
    }

    fn write(&self, buf: &mut Vec<u8>) {
        let mut tmp1: Vec<u8> = Vec::new();
        self.seqno.write(&mut tmp1);
        write_field(buf, 1, &tmp1);
        let mut tmp2: Vec<u8> = Vec::new();
        self.key.write(&mut tmp2);
        write_field(buf, 2, &tmp2);
        assert(buf@ =~= old(buf)@ + Self::enc(self.vv()));
    }

    fn read(buf: &Vec<u8>) -> (r: Option<ProtoRollupEntry>) {
        proof {
            assert(buf@.skip(0) =~= buf@);
        }
        let (payload1, p1) = match read_field(buf, 0, 1) {
            Some(x) => x,
            None => {
                return None;
            },
        };
        let f_seqno = match <u64 as Wire>::read(&payload1) {
            Some(x) => x,
            None => {
                return None;
            },
        };
        let (payload2, p2) = match read_field(buf, p1, 2) {
            Some(x) => x,
            None => {
                return None;
            },
        };
        let f_key = match <String as Wire>::read(&payload2) {
            Some(x) => x,
            None => {
                return None;
            },
        };
        if !read_skip_unknown(buf, p2, 2) {
            return None;
        }
        Some(ProtoRollupEntry { seqno: f_seqno, key: f_key })
    }

    proof fn round_trip(v: ProtoRollupEntryView) {
        let r2 = Seq::<u8>::empty();
        let r1 = field_enc(2, encode_utf8(v.key)) + r2;
        lemma_concat_assoc(field_enc(1, varint_enc(v.seqno)), field_enc(2, encode_utf8(v.key)), r2);
        assert(Self::enc(v) + Seq::<u8>::empty() =~= Self::enc(v));
        assert(Self::enc(v) == field_enc(1, varint_enc(v.seqno)) + r1);
        lemma_varint_enc_len(v.seqno);
        <u64 as Wire>::round_trip(v.seqno);
        lemma_field_take(1, varint_enc(v.seqno), r1);
        <String as Wire>::round_trip(v.key);
        lemma_field_take(2, encode_utf8(v.key), r2);
    }
}

/// One entry of an id-keyed table: the id's string form and its record.
#[derive(Debug, PartialEq, Eq)]
pub struct ProtoMapEntry<M> {
    pub key: String,
    pub value: M,
}

impl<M: Wire> Wire for ProtoMapEntry<M> {
    type VV = (Seq<char>, M::VV);

    open spec fn vv(self) -> (Seq<char>, M::VV) {
        (self.key@, self.value.vv())
    }

    open spec fn bounded(v: (Seq<char>, M::VV)) -> bool {
        &&& encode_utf8(v.0).len() <= u64::MAX
        &&& M::bounded(v.1)
        &&& M::enc(v.1).len() <= u64::MAX
    }

    open spec fn enc(v: (Seq<char>, M::VV)) -> Seq<u8> {
        field_enc(1, encode_utf8(v.0)) + field_enc(2, M::enc(v.1))
    }

    open spec fn parse(s: Seq<u8>) -> Option<(Seq<char>, M::VV)> {
        match field_take(s, 1) {
            None => None,
            Some((p1, s1)) => match <String as Wire>::parse(p1) {
                None => None,
                Some(k) => match field_take(s1, 2) {
                    None => None,
                    Some((p2, s2)) => match M::parse(p2) {
                        None => None,
                        Some(mv) => if skip_unknown(s2, 2) {
                            Some(((k, mv)))
                        } else {
                            None
                        },
                    },
                },
            },
        }
    }

    fn write(&self, buf: &mut Vec<u8>) {
        let mut tmp1: Vec<u8> = Vec::new();
        self.key.write(&mut tmp1);
        write_field(buf, 1, &tmp1);
        let mut tmp2: Vec<u8> = Vec::new();
        self.value.write(&mut tmp2);
        write_field(buf, 2, &tmp2);
        assert(buf@ =~= old(buf)@ + Self::enc(self.vv()));
    }

    fn read(buf: &Vec<u8>) -> (r: Option<ProtoMapEntry<M>>) {
        proof {
            assert(buf@.skip(0) =~= buf@);
        }
        let (payload1, p1) = match read_field(buf, 0, 1) {
            Some(x) => x,
            None => {
                return None;
            },
        };
        let key = match <String as Wire>::read(&payload1) {
            Some(x) => x,
            None => {
                return None;
            },
        };
        let (payload2, p2) = match read_field(buf, p1, 2) {
            Some(x) => x,
            None => {
                return None;
            },
        };
        let value = match M::read(&payload2) {
            Some(x) => x,
            None => {
                return None;
            },
        };
        if !read_skip_unknown(buf, p2, 2) {
            return None;
        }
        Some(ProtoMapEntry { key, value })
    }

    proof fn round_trip(v: (Seq<char>, M::VV)) {
        let r2 = Seq::<u8>::empty();
        let r1 = field_enc(2, M::enc(v.1)) + r2;
        lemma_concat_assoc(field_enc(1, encode_utf8(v.0)), field_enc(2, M::enc(v.1)), r2);
        assert(Self::enc(v) + Seq::<u8>::empty() =~= Self::enc(v));
        assert(Self::enc(v) == field_enc(1, encode_utf8(v.0)) + r1);
        <String as Wire>::round_trip(v.0);
        lemma_field_take(1, encode_utf8(v.0), r1);
        M::round_trip(v.1);
        lemma_field_take(2, M::enc(v.1), r2);
    }
}

/// A full state snapshot.
#[derive(Debug, PartialEq, Eq)]
pub struct ProtoStateRollup {
    pub applier_version: String,
    pub shard_id: String,
    pub seqno: u64,
    pub walltime_ms: u64,
    pub hostname: String,
    pub key_codec: String,
    pub val_codec: String,
    pub ts_codec: String,
    pub diff_codec: String,
    pub last_gc_req: u64,
    pub rollups: Vec<ProtoRollupEntry>,
    pub leased_readers: Vec<ProtoMapEntry<ProtoLeasedReaderState>>,
    pub critical_readers: Vec<ProtoMapEntry<ProtoCriticalReaderState>>,
    pub writers: Vec<ProtoMapEntry<ProtoWriterState>>,
    pub trace: Option<ProtoTrace>,
}

pub struct ProtoStateRollupView {
    pub applier_version: Seq<char>,
    pub shard_id: Seq<char>,
    pub seqno: u64,
    pub walltime_ms: u64,
    pub hostname: Seq<char>,
    pub key_codec: Seq<char>,
    pub val_codec: Seq<char>,
    pub ts_codec: Seq<char>,
    pub diff_codec: Seq<char>,
    pub last_gc_req: u64,
    pub rollups: Seq<ProtoRollupEntryView>,
    pub leased_readers: Seq<(Seq<char>, ProtoLeasedReaderStateView)>,
    pub critical_readers: Seq<(Seq<char>, ProtoCriticalReaderStateView)>,
    pub writers: Seq<(Seq<char>, ProtoWriterStateView)>,
    pub trace: Option<ProtoTraceView>,
}

impl Wire for ProtoStateRollup {
    type VV = ProtoStateRollupView;

    open spec fn vv(self) -> ProtoStateRollupView {
        ProtoStateRollupView {
            applier_version: self.applier_version@,
            shard_id: self.shard_id@,
            seqno: self.seqno,
            walltime_ms: self.walltime_ms,
            hostname: self.hostname@,
            key_codec: self.key_codec@,
            val_codec: self.val_codec@,
            ts_codec: self.ts_codec@,
            diff_codec: self.diff_codec@,
            last_gc_req: self.last_gc_req,
            rollups: vvs_of(self.rollups@),
            leased_readers: vvs_of(self.leased_readers@),
            critical_readers: vvs_of(self.critical_readers@),
            writers: vvs_of(self.writers@),
            trace: opt_vv(self.trace),
        }
    }

    open spec fn bounded(v: ProtoStateRollupView) -> bool {
        &&& encode_utf8(v.applier_version).len() <= u64::MAX
        &&& encode_utf8(v.shard_id).len() <= u64::MAX
        &&& encode_utf8(v.hostname).len() <= u64::MAX
        &&& encode_utf8(v.key_codec).len() <= u64::MAX
        &&& encode_utf8(v.val_codec).len() <= u64::MAX
        &&& encode_utf8(v.ts_codec).len() <= u64::MAX
        &&& encode_utf8(v.diff_codec).len() <= u64::MAX
        &&& v.rollups.len() <= u64::MAX
        &&& (forall|i: int| 0 <= i < v.rollups.len() ==> <ProtoRollupEntry as Wire>::bounded(#[trigger] v.rollups[i]) && <ProtoRollupEntry as Wire>::enc(v.rollups[i]).len() <= u64::MAX)
        &&& list_enc::<ProtoRollupEntry>(v.rollups).len() <= u64::MAX
        &&& v.leased_readers.len() <= u64::MAX
        &&& (forall|i: int| 0 <= i < v.leased_readers.len() ==> <ProtoMapEntry<ProtoLeasedReaderState> as Wire>::bounded(#[trigger] v.leased_readers[i]) && <ProtoMapEntry<ProtoLeasedReaderState> as Wire>::enc(v.leased_readers[i]).len() <= u64::MAX)
        &&& list_enc::<ProtoMapEntry<ProtoLeasedReaderState>>(v.leased_readers).len() <= u64::MAX
        &&& v.critical_readers.len() <= u64::MAX
        &&& (forall|i: int| 0 <= i < v.critical_readers.len() ==> <ProtoMapEntry<ProtoCriticalReaderState> as Wire>::bounded(#[trigger] v.critical_readers[i]) && <ProtoMapEntry<ProtoCriticalReaderState> as Wire>::enc(v.critical_readers[i]).len() <= u64::MAX)
        &&& list_enc::<ProtoMapEntry<ProtoCriticalReaderState>>(v.critical_readers).len() <= u64::MAX
        &&& v.writers.len() <= u64::MAX
        &&& (forall|i: int| 0 <= i < v.writers.len() ==> <ProtoMapEntry<ProtoWriterState> as Wire>::bounded(#[trigger] v.writers[i]) && <ProtoMapEntry<ProtoWriterState> as Wire>::enc(v.writers[i]).len() <= u64::MAX)
        &&& list_enc::<ProtoMapEntry<ProtoWriterState>>(v.writers).len() <= u64::MAX
        &&& (v.trace matches Some(x) ==> <ProtoTrace as Wire>::bounded(x))
        &&& opt_enc::<ProtoTrace>(v.trace).len() <= u64::MAX
    }

    open spec fn enc(v: ProtoStateRollupView) -> Seq<u8> {
        field_enc(1, encode_utf8(v.applier_version)) + field_enc(2, encode_utf8(v.shard_id)) + field_enc(3, varint_enc(v.seqno)) + field_enc(4, varint_enc(v.walltime_ms)) + field_enc(5, encode_utf8(v.hostname)) + field_enc(6, encode_utf8(v.key_codec)) + field_enc(7, encode_utf8(v.val_codec)) + field_enc(8, encode_utf8(v.ts_codec)) + field_enc(9, encode_utf8(v.diff_codec)) + field_enc(10, varint_enc(v.last_gc_req)) + field_enc(11, list_enc::<ProtoRollupEntry>(v.rollups)) + field_enc(12, list_enc::<ProtoMapEntry<ProtoLeasedReaderState>>(v.leased_readers)) + field_enc(13, list_enc::<ProtoMapEntry<ProtoCriticalReaderState>>(v.critical_readers)) + field_enc(14, list_enc::<ProtoMapEntry<ProtoWriterState>>(v.writers)) + field_enc(15, opt_enc::<ProtoTrace>(v.trace))
    }

    open spec fn parse(s: Seq<u8>) -> Option<ProtoStateRollupView> {
        match field_take(s, 1) {
            None => None,
            Some((p1, s1)) => match <String as Wire>::parse(p1) {
                None => None,
                Some(f_applier_version) => 
                match field_take(s1, 2) {
                    None => None,
                    Some((p2, s2)) => match <String as Wire>::parse(p2) {
                        None => None,
                        Some(f_shard_id) => 
                        match field_take(s2, 3) {
                            None => None,
                            Some((p3, s3)) => match <u64 as Wire>::parse(p3) {
                                None => None,
                                Some(f_seqno) => 
                                match field_take(s3, 4) {
                                    None => None,
                                    Some((p4, s4)) => match <u64 as Wire>::parse(p4) {
                                        None => None,
                                        Some(f_walltime_ms) => 
                                        match field_take(s4, 5) {
                                            None => None,
                                            Some((p5, s5)) => match <String as Wire>::parse(p5) {
                                                None => None,
                                                Some(f_hostname) => 
                                                match field_take(s5, 6) {
                                                    None => None,
                                                    Some((p6, s6)) => match <String as Wire>::parse(p6) {
                                                        None => None,
                                                        Some(f_key_codec) => 
                                                        match field_take(s6, 7) {
                                                            None => None,
                                                            Some((p7, s7)) => match <String as Wire>::parse(p7) {
                                                                None => None,
                                                                Some(f_val_codec) => 
                                                                match field_take(s7, 8) {
                                                                    None => None,
                                                                    Some((p8, s8)) => match <String as Wire>::parse(p8) {
                                                                        None => None,
                                                                        Some(f_ts_codec) => 
                                                                        match field_take(s8, 9) {
                                                                            None => None,
                                                                            Some((p9, s9)) => match <String as Wire>::parse(p9) {
                                                                                None => None,
                                                                                Some(f_diff_codec) => 
                                                                                match field_take(s9, 10) {
                                                                                    None => None,
                                                                                    Some((p10, s10)) => match <u64 as Wire>::parse(p10) {
                                                                                        None => None,
                                                                                        Some(f_last_gc_req) => 
                                                                                        match field_take(s10, 11) {
                                                                                            None => None,
                                                                                            Some((p11, s11)) => match list_parse::<ProtoRollupEntry>(p11) {
                                                                                                None => None,
                                                                                                Some(f_rollups) => 
                                                                                                match field_take(s11, 12) {
                                                                                                    None => None,
                                                                                                    Some((p12, s12)) => match list_parse::<ProtoMapEntry<ProtoLeasedReaderState>>(p12) {
                                                                                                        None => None,
                                                                                                        Some(f_leased_readers) => 
                                                                                                        match field_take(s12, 13) {
                                                                                                            None => None,
                                                                                                            Some((p13, s13)) => match list_parse::<ProtoMapEntry<ProtoCriticalReaderState>>(p13) {
                                                                                                                None => None,
                                                                                                                Some(f_critical_readers) => 
                                                                                                                match field_take(s13, 14) {
                                                                                                                    None => None,
                                                                                                                    Some((p14, s14)) => match list_parse::<ProtoMapEntry<ProtoWriterState>>(p14) {
                                                                                                                        None => None,
                                                                                                                        Some(f_writers) => 
                                                                                                                        match field_take(s14, 15) {
                                                                                                                            None => None,
                                                                                                                            Some((p15, s15)) => match opt_parse::<ProtoTrace>(p15) {
                                                                                                                                None => None,
                                                                                                                                Some(f_trace) => 
                                                                                                                                if skip_unknown(s15, 15) {
                                                                                                                                    Some(((ProtoStateRollupView { applier_version: f_applier_version, shard_id: f_shard_id, seqno: f_seqno, walltime_ms: f_walltime_ms, hostname: f_hostname, key_codec: f_key_codec, val_codec: f_val_codec, ts_codec: f_ts_codec, diff_codec: f_diff_codec, last_gc_req: f_last_gc_req, rollups: f_rollups, leased_readers: f_leased_readers, critical_readers: f_critical_readers, writers: f_writers, trace: f_trace })))
                                                                                                                                } else {
                                                                                                                                    None
                                                                                                                                }
                                                                                                                            },
                                                                                                                        },
                                                                                                                    },
                                                                                                                },
                                                                                                            },
                                                                                                        },
                                                                                                    },
                                                                                                },
                                                                                            },
                                                                                        },
                                                                                    },
                                                                                },
                                                                            },
                                                                        },
                                                                    },
                                                                },
                                                            },
                                                        },
                                                    },
                                                },
                                            },
                                        },
                                    },
                                },
                            },
                        },
                    },
                },
            },
        }
    }

    fn write(&self, buf: &mut Vec<u8>) {
        let mut tmp1: Vec<u8> = Vec::new();
        self.applier_version.write(&mut tmp1);
        write_field(buf, 1, &tmp1);
        let mut tmp2: Vec<u8> = Vec::new();
        self.shard_id.write(&mut tmp2);
        write_field(buf, 2, &tmp2);
        let mut tmp3: Vec<u8> = Vec::new();
        self.seqno.write(&mut tmp3);
        write_field(buf, 3, &tmp3);
        let mut tmp4: Vec<u8> = Vec::new();
        self.walltime_ms.write(&mut tmp4);
        write_field(buf, 4, &tmp4);
        let mut tmp5: Vec<u8> = Vec::new();
        self.hostname.write(&mut tmp5);
        write_field(buf, 5, &tmp5);
        let mut tmp6: Vec<u8> = Vec::new();
        self.key_codec.write(&mut tmp6);
        write_field(buf, 6, &tmp6);
        let mut tmp7: Vec<u8> = Vec::new();
        self.val_codec.write(&mut tmp7);
        write_field(buf, 7, &tmp7);
        let mut tmp8: Vec<u8> = Vec::new();
        self.ts_codec.write(&mut tmp8);
        write_field(buf, 8, &tmp8);
        let mut tmp9: Vec<u8> = Vec::new();
        self.diff_codec.write(&mut tmp9);
        write_field(buf, 9, &tmp9);
        let mut tmp10: Vec<u8> = Vec::new();
        self.last_gc_req.write(&mut tmp10);
        write_field(buf, 10, &tmp10);
        let mut tmp11: Vec<u8> = Vec::new();
        write_list::<ProtoRollupEntry>(&mut tmp11, &self.rollups);
        write_field(buf, 11, &tmp11);
        let mut tmp12: Vec<u8> = Vec::new();
        write_list::<ProtoMapEntry<ProtoLeasedReaderState>>(&mut tmp12, &self.leased_readers);
        write_field(buf, 12, &tmp12);
        let mut tmp13: Vec<u8> = Vec::new();
        write_list::<ProtoMapEntry<ProtoCriticalReaderState>>(&mut tmp13, &self.critical_readers);
        write_field(buf, 13, &tmp13);
        let mut tmp14: Vec<u8> = Vec::new();
        write_list::<ProtoMapEntry<ProtoWriterState>>(&mut tmp14, &self.writers);
        write_field(buf, 14, &tmp14);
        let mut tmp15: Vec<u8> = Vec::new();
        write_opt::<ProtoTrace>(&mut tmp15, &self.trace);
        write_field(buf, 15, &tmp15);
        assert(buf@ =~= old(buf)@ + Self::enc(self.vv()));
    }

    fn read(buf: &Vec<u8>) -> (r: Option<ProtoStateRollup>) {
        proof {
            assert(buf@.skip(0) =~= buf@);
        }
        let (payload1, p1) = match read_field(buf, 0, 1) {
            Some(x) => x,
            None => {
                return None;
            },
        };
        let f_applier_version = match <String as Wire>::read(&payload1) {
            Some(x) => x,
            None => {
                return None;
            },
        };
        let (payload2, p2) = match read_field(buf, p1, 2) {
            Some(x) => x,
            None => {
                return None;
            },
        };
        let f_shard_id = match <String as Wire>::read(&payload2) {
            Some(x) => x,
            None => {
                return None;
            },
        };
        let (payload3, p3) = match read_field(buf, p2, 3) {
            Some(x) => x,
            None => {
                return None;
            },
        };
        let f_seqno = match <u64 as Wire>::read(&payload3) {
            Some(x) => x,
            None => {
                return None;
            },
        };
        let (payload4, p4) = match read_field(buf, p3, 4) {
            Some(x) => x,
            None => {
                return None;
            },
        };
        let f_walltime_ms = match <u64 as Wire>::read(&payload4) {
            Some(x) => x,
            None => {
                return None;
            },
        };
        let (payload5, p5) = match read_field(buf, p4, 5) {
            Some(x) => x,
            None => {
                return None;
            },
        };
        let f_hostname = match <String as Wire>::read(&payload5) {
            Some(x) => x,
            None => {
                return None;
            },
        };
        let (payload6, p6) = match read_field(buf, p5, 6) {
            Some(x) => x,
            None => {
                return None;
            },
        };
        let f_key_codec = match <String as Wire>::read(&payload6) {
            Some(x) => x,
            None => {
                return None;
            },
        };
        let (payload7, p7) = match read_field(buf, p6, 7) {
            Some(x) => x,
            None => {
                return None;
            },
        };
        let f_val_codec = match <String as Wire>::read(&payload7) {
            Some(x) => x,
            None => {
                return None;
            },
        };
        let (payload8, p8) = match read_field(buf, p7, 8) {
            Some(x) => x,
            None => {
                return None;
            },
        };
        let f_ts_codec = match <String as Wire>::read(&payload8) {
            Some(x) => x,
            None => {
                return None;
            },
        };
        let (payload9, p9) = match read_field(buf, p8, 9) {
            Some(x) => x,
            None => {
                return None;
            },
        };
        let f_diff_codec = match <String as Wire>::read(&payload9) {
            Some(x) => x,
            None => {
                return None;
            },
        };
        let (payload10, p10) = match read_field(buf, p9, 10) {
            Some(x) => x,
            None => {
                return None;
            },
        };
        let f_last_gc_req = match <u64 as Wire>::read(&payload10) {
            Some(x) => x,
            None => {
                return None;
            },
        };
        let (payload11, p11) = match read_field(buf, p10, 11) {
            Some(x) => x,
            None => {
                return None;
            },
        };
        let f_rollups = match read_list::<ProtoRollupEntry>(&payload11) {
            Some(x) => x,
            None => {
                return None;
            },
        };
        let (payload12, p12) = match read_field(buf, p11, 12) {
            Some(x) => x,
            None => {
                return None;
            },
        };
        let f_leased_readers = match read_list::<ProtoMapEntry<ProtoLeasedReaderState>>(&payload12) {
            Some(x) => x,
            None => {
                return None;
            },
        };
        let (payload13, p13) = match read_field(buf, p12, 13) {
            Some(x) => x,
            None => {
                return None;
            },
        };
        let f_critical_readers = match read_list::<ProtoMapEntry<ProtoCriticalReaderState>>(&payload13) {
            Some(x) => x,
            None => {
                return None;
            },
        };
        let (payload14, p14) = match read_field(buf, p13, 14) {
            Some(x) => x,
            None => {
                return None;
            },
        };
        let f_writers = match read_list::<ProtoMapEntry<ProtoWriterState>>(&payload14) {
            Some(x) => x,
            None => {
                return None;
            },
        };
        let (payload15, p15) = match read_field(buf, p14, 15) {
            Some(x) => x,
            None => {
                return None;
            },
        };
        let f_trace = match read_opt::<ProtoTrace>(&payload15) {
            Some(x) => x,
            None => {
                return None;
            },
        };
        if !read_skip_unknown(buf, p15, 15) {
            return None;
        }
        Some(ProtoStateRollup { applier_version: f_applier_version, shard_id: f_shard_id, seqno: f_seqno, walltime_ms: f_walltime_ms, hostname: f_hostname, key_codec: f_key_codec, val_codec: f_val_codec, ts_codec: f_ts_codec, diff_codec: f_diff_codec, last_gc_req: f_last_gc_req, rollups: f_rollups, leased_readers: f_leased_readers, critical_readers: f_critical_readers, writers: f_writers, trace: f_trace })
    }

    #[verifier::rlimit(100)]
    proof fn round_trip(v: ProtoStateRollupView) {
        let r15 = Seq::<u8>::empty();
        let r14 = field_enc(15, opt_enc::<ProtoTrace>(v.trace)) + r15;
        let r13 = field_enc(14, list_enc::<ProtoMapEntry<ProtoWriterState>>(v.writers)) + r14;
        let r12 = field_enc(13, list_enc::<ProtoMapEntry<ProtoCriticalReaderState>>(v.critical_readers)) + r13;
        let r11 = field_enc(12, list_enc::<ProtoMapEntry<ProtoLeasedReaderState>>(v.leased_readers)) + r12;
        let r10 = field_enc(11, list_enc::<ProtoRollupEntry>(v.rollups)) + r11;
        let r9 = field_enc(10, varint_enc(v.last_gc_req)) + r10;
        let r8 = field_enc(9, encode_utf8(v.diff_codec)) + r9;
        let r7 = field_enc(8, encode_utf8(v.ts_codec)) + r8;
        let r6 = field_enc(7, encode_utf8(v.val_codec)) + r7;
        let r5 = field_enc(6, encode_utf8(v.key_codec)) + r6;
        let r4 = field_enc(5, encode_utf8(v.hostname)) + r5;
        let r3 = field_enc(4, varint_enc(v.walltime_ms)) + r4;
        let r2 = field_enc(3, varint_enc(v.seqno)) + r3;
        let r1 = field_enc(2, encode_utf8(v.shard_id)) + r2;
        lemma_concat_assoc(field_enc(1, encode_utf8(v.applier_version)) + field_enc(2, encode_utf8(v.shard_id)) + field_enc(3, varint_enc(v.seqno)) + field_enc(4, varint_enc(v.walltime_ms)) + field_enc(5, encode_utf8(v.hostname)) + field_enc(6, encode_utf8(v.key_codec)) + field_enc(7, encode_utf8(v.val_codec)) + field_enc(8, encode_utf8(v.ts_codec)) + field_enc(9, encode_utf8(v.diff_codec)) + field_enc(10, varint_enc(v.last_gc_req)) + field_enc(11, list_enc::<ProtoRollupEntry>(v.rollups)) + field_enc(12, list_enc::<ProtoMapEntry<ProtoLeasedReaderState>>(v.leased_readers)) + field_enc(13, list_enc::<ProtoMapEntry<ProtoCriticalReaderState>>(v.critical_readers)) + field_enc(14, list_enc::<ProtoMapEntry<ProtoWriterState>>(v.writers)), field_enc(15, opt_enc::<ProtoTrace>(v.trace)), r15);
        lemma_concat_assoc(field_enc(1, encode_utf8(v.applier_version)) + field_enc(2, encode_utf8(v.shard_id)) + field_enc(3, varint_enc(v.seqno)) + field_enc(4, varint_enc(v.walltime_ms)) + field_enc(5, encode_utf8(v.hostname)) + field_enc(6, encode_utf8(v.key_codec)) + field_enc(7, encode_utf8(v.val_codec)) + field_enc(8, encode_utf8(v.ts_codec)) + field_enc(9, encode_utf8(v.diff_codec)) + field_enc(10, varint_enc(v.last_gc_req)) + field_enc(11, list_enc::<ProtoRollupEntry>(v.rollups)) + field_enc(12, list_enc::<ProtoMapEntry<ProtoLeasedReaderState>>(v.leased_readers)) + field_enc(13, list_enc::<ProtoMapEntry<ProtoCriticalReaderState>>(v.critical_readers)), field_enc(14, list_enc::<ProtoMapEntry<ProtoWriterState>>(v.writers)), r14);
        lemma_concat_assoc(field_enc(1, encode_utf8(v.applier_version)) + field_enc(2, encode_utf8(v.shard_id)) + field_enc(3, varint_enc(v.seqno)) + field_enc(4, varint_enc(v.walltime_ms)) + field_enc(5, encode_utf8(v.hostname)) + field_enc(6, encode_utf8(v.key_codec)) + field_enc(7, encode_utf8(v.val_codec)) + field_enc(8, encode_utf8(v.ts_codec)) + field_enc(9, encode_utf8(v.diff_codec)) + field_enc(10, varint_enc(v.last_gc_req)) + field_enc(11, list_enc::<ProtoRollupEntry>(v.rollups)) + field_enc(12, list_enc::<ProtoMapEntry<ProtoLeasedReaderState>>(v.leased_readers)), field_enc(13, list_enc::<ProtoMapEntry<ProtoCriticalReaderState>>(v.critical_readers)), r13);
        lemma_concat_assoc(field_enc(1, encode_utf8(v.applier_version)) + field_enc(2, encode_utf8(v.shard_id)) + field_enc(3, varint_enc(v.seqno)) + field_enc(4, varint_enc(v.walltime_ms)) + field_enc(5, encode_utf8(v.hostname)) + field_enc(6, encode_utf8(v.key_codec)) + field_enc(7, encode_utf8(v.val_codec)) + field_enc(8, encode_utf8(v.ts_codec)) + field_enc(9, encode_utf8(v.diff_codec)) + field_enc(10, varint_enc(v.last_gc_req)) + field_enc(11, list_enc::<ProtoRollupEntry>(v.rollups)), field_enc(12, list_enc::<ProtoMapEntry<ProtoLeasedReaderState>>(v.leased_readers)), r12);
        lemma_concat_assoc(field_enc(1, encode_utf8(v.applier_version)) + field_enc(2, encode_utf8(v.shard_id)) + field_enc(3, varint_enc(v.seqno)) + field_enc(4, varint_enc(v.walltime_ms)) + field_enc(5, encode_utf8(v.hostname)) + field_enc(6, encode_utf8(v.key_codec)) + field_enc(7, encode_utf8(v.val_codec)) + field_enc(8, encode_utf8(v.ts_codec)) + field_enc(9, encode_utf8(v.diff_codec)) + field_enc(10, varint_enc(v.last_gc_req)), field_enc(11, list_enc::<ProtoRollupEntry>(v.rollups)), r11);
        lemma_concat_assoc(field_enc(1, encode_utf8(v.applier_version)) + field_enc(2, encode_utf8(v.shard_id)) + field_enc(3, varint_enc(v.seqno)) + field_enc(4, varint_enc(v.walltime_ms)) + field_enc(5, encode_utf8(v.hostname)) + field_enc(6, encode_utf8(v.key_codec)) + field_enc(7, encode_utf8(v.val_codec)) + field_enc(8, encode_utf8(v.ts_codec)) + field_enc(9, encode_utf8(v.diff_codec)), field_enc(10, varint_enc(v.last_gc_req)), r10);
        lemma_concat_assoc(field_enc(1, encode_utf8(v.applier_version)) + field_enc(2, encode_utf8(v.shard_id)) + field_enc(3, varint_enc(v.seqno)) + field_enc(4, varint_enc(v.walltime_ms)) + field_enc(5, encode_utf8(v.hostname)) + field_enc(6, encode_utf8(v.key_codec)) + field_enc(7, encode_utf8(v.val_codec)) + field_enc(8, encode_utf8(v.ts_codec)), field_enc(9, encode_utf8(v.diff_codec)), r9);
        lemma_concat_assoc(field_enc(1, encode_utf8(v.applier_version)) + field_enc(2, encode_utf8(v.shard_id)) + field_enc(3, varint_enc(v.seqno)) + field_enc(4, varint_enc(v.walltime_ms)) + field_enc(5, encode_utf8(v.hostname)) + field_enc(6, encode_utf8(v.key_codec)) + field_enc(7, encode_utf8(v.val_codec)), field_enc(8, encode_utf8(v.ts_codec)), r8);
        lemma_concat_assoc(field_enc(1, encode_utf8(v.applier_version)) + field_enc(2, encode_utf8(v.shard_id)) + field_enc(3, varint_enc(v.seqno)) + field_enc(4, varint_enc(v.walltime_ms)) + field_enc(5, encode_utf8(v.hostname)) + field_enc(6, encode_utf8(v.key_codec)), field_enc(7, encode_utf8(v.val_codec)), r7);
        lemma_concat_assoc(field_enc(1, encode_utf8(v.applier_version)) + field_enc(2, encode_utf8(v.shard_id)) + field_enc(3, varint_enc(v.seqno)) + field_enc(4, varint_enc(v.walltime_ms)) + field_enc(5, encode_utf8(v.hostname)), field_enc(6, encode_utf8(v.key_codec)), r6);
        lemma_concat_assoc(field_enc(1, encode_utf8(v.applier_version)) + field_enc(2, encode_utf8(v.shard_id)) + field_enc(3, varint_enc(v.seqno)) + field_enc(4, varint_enc(v.walltime_ms)), field_enc(5, encode_utf8(v.hostname)), r5);
        lemma_concat_assoc(field_enc(1, encode_utf8(v.applier_version)) + field_enc(2, encode_utf8(v.shard_id)) + field_enc(3, varint_enc(v.seqno)), field_enc(4, varint_enc(v.walltime_ms)), r4);
        lemma_concat_assoc(field_enc(1, encode_utf8(v.applier_version)) + field_enc(2, encode_utf8(v.shard_id)), field_enc(3, varint_enc(v.seqno)), r3);
        lemma_concat_assoc(field_enc(1, encode_utf8(v.applier_version)), field_enc(2, encode_utf8(v.shard_id)), r2);
        assert(Self::enc(v) + Seq::<u8>::empty() =~= Self::enc(v));
        assert(Self::enc(v) == field_enc(1, encode_utf8(v.applier_version)) + r1);
        <String as Wire>::round_trip(v.applier_version);
        lemma_field_take(1, encode_utf8(v.applier_version), r1);
        <String as Wire>::round_trip(v.shard_id);
        lemma_field_take(2, encode_utf8(v.shard_id), r2);
        lemma_varint_enc_len(v.seqno);
        <u64 as Wire>::round_trip(v.seqno);
        lemma_field_take(3, varint_enc(v.seqno), r3);
        lemma_varint_enc_len(v.walltime_ms);
        <u64 as Wire>::round_trip(v.walltime_ms);
        lemma_field_take(4, varint_enc(v.walltime_ms), r4);
        <String as Wire>::round_trip(v.hostname);
        lemma_field_take(5, encode_utf8(v.hostname), r5);
        <String as Wire>::round_trip(v.key_codec);
        lemma_field_take(6, encode_utf8(v.key_codec), r6);
        <String as Wire>::round_trip(v.val_codec);
        lemma_field_take(7, encode_utf8(v.val_codec), r7);
        <String as Wire>::round_trip(v.ts_codec);
        lemma_field_take(8, encode_utf8(v.ts_codec), r8);
        <String as Wire>::round_trip(v.diff_codec);
        lemma_field_take(9, encode_utf8(v.diff_codec), r9);
        lemma_varint_enc_len(v.last_gc_req);
        <u64 as Wire>::round_trip(v.last_gc_req);
        lemma_field_take(10, varint_enc(v.last_gc_req), r10);
        lemma_list_round_trip::<ProtoRollupEntry>(v.rollups);
        lemma_field_take(11, list_enc::<ProtoRollupEntry>(v.rollups), r11);
        lemma_list_round_trip::<ProtoMapEntry<ProtoLeasedReaderState>>(v.leased_readers);
        lemma_field_take(12, list_enc::<ProtoMapEntry<ProtoLeasedReaderState>>(v.leased_readers), r12);
        lemma_list_round_trip::<ProtoMapEntry<ProtoCriticalReaderState>>(v.critical_readers);
        lemma_field_take(13, list_enc::<ProtoMapEntry<ProtoCriticalReaderState>>(v.critical_readers), r13);
        lemma_list_round_trip::<ProtoMapEntry<ProtoWriterState>>(v.writers);
        lemma_field_take(14, list_enc::<ProtoMapEntry<ProtoWriterState>>(v.writers), r14);
        lemma_opt_round_trip::<ProtoTrace>(v.trace);
        lemma_field_take(15, opt_enc::<ProtoTrace>(v.trace), r15);
    }
}

/// The parallel-array layout of the per-field deltas: the target field of each delta, its kind, and the concatenated data chunks each delta consumes.
#[derive(Debug, PartialEq, Eq)]
pub struct ProtoStateFieldDiffs {
    pub fields: Vec<u64>,
    pub diff_types: Vec<u64>,
    pub data_lens: Vec<u64>,
    pub data_bytes: Vec<u8>,
}

pub struct ProtoStateFieldDiffsView {
    pub fields: Seq<u64>,
    pub diff_types: Seq<u64>,
    pub data_lens: Seq<u64>,
    pub data_bytes: Seq<u8>,
}

impl Wire for ProtoStateFieldDiffs {
    type VV = ProtoStateFieldDiffsView;

    open spec fn vv(self) -> ProtoStateFieldDiffsView {
        ProtoStateFieldDiffsView {
            fields: vvs_of(self.fields@),
            diff_types: vvs_of(self.diff_types@),
            data_lens: vvs_of(self.data_lens@),
            data_bytes: self.data_bytes@,
        }
    }

    open spec fn bounded(v: ProtoStateFieldDiffsView) -> bool {
        &&& v.fields.len() <= u64::MAX
        &&& (forall|i: int| 0 <= i < v.fields.len() ==> <u64 as Wire>::bounded(#[trigger] v.fields[i]) && <u64 as Wire>::enc(v.fields[i]).len() <= u64::MAX)
        &&& list_enc::<u64>(v.fields).len() <= u64::MAX
        &&& v.diff_types.len() <= u64::MAX
        &&& (forall|i: int| 0 <= i < v.diff_types.len() ==> <u64 as Wire>::bounded(#[trigger] v.diff_types[i]) && <u64 as Wire>::enc(v.diff_types[i]).len() <= u64::MAX)
        &&& list_enc::<u64>(v.diff_types).len() <= u64::MAX
        &&& v.data_lens.len() <= u64::MAX
        &&& (forall|i: int| 0 <= i < v.data_lens.len() ==> <u64 as Wire>::bounded(#[trigger] v.data_lens[i]) && <u64 as Wire>::enc(v.data_lens[i]).len() <= u64::MAX)
        &&& list_enc::<u64>(v.data_lens).len() <= u64::MAX
        &&& v.data_bytes.len() <= u64::MAX
    }

    open spec fn enc(v: ProtoStateFieldDiffsView) -> Seq<u8> {
        field_enc(1, list_enc::<u64>(v.fields)) + field_enc(2, list_enc::<u64>(v.diff_types)) + field_enc(3, list_enc::<u64>(v.data_lens)) + field_enc(4, v.data_bytes)
    }

    open spec fn parse(s: Seq<u8>) -> Option<ProtoStateFieldDiffsView> {
        match field_take(s, 1) {
            None => None,
            Some((p1, s1)) => match list_parse::<u64>(p1) {
                None => None,
                Some(f_fields) => 
                match field_take(s1, 2) {
                    None => None,
                    Some((p2, s2)) => match list_parse::<u64>(p2) {
                        None => None,
                        Some(f_diff_types) => 
                        match field_take(s2, 3) {
                            None => None,
                            Some((p3, s3)) => match list_parse::<u64>(p3) {
                                None => None,
                                Some(f_data_lens) => 
                                match field_take(s3, 4) {
                                    None => None,
                                    Some((f_data_bytes, s4)) => 
                                    if skip_unknown(s4, 4) {
                                        Some(((ProtoStateFieldDiffsView { fields: f_fields, diff_types: f_diff_types, data_lens: f_data_lens, data_bytes: f_data_bytes })))
                                    } else {
                                        None
                                    }
                                },
                            },
                        },
                    },
                },
            },
        }
    }

    fn write(&self, buf: &mut Vec<u8>) {
        let mut tmp1: Vec<u8> = Vec::new();
        write_list::<u64>(&mut tmp1, &self.fields);
        write_field(buf, 1, &tmp1);
        let mut tmp2: Vec<u8> = Vec::new();
        write_list::<u64>(&mut tmp2, &self.diff_types);
        write_field(buf, 2, &tmp2);
        let mut tmp3: Vec<u8> = Vec::new();
        write_list::<u64>(&mut tmp3, &self.data_lens);
        write_field(buf, 3, &tmp3);
        let mut tmp4: Vec<u8> = Vec::new();
        write_raw(&mut tmp4, &self.data_bytes);
        write_field(buf, 4, &tmp4);
        assert(buf@ =~= old(buf)@ + Self::enc(self.vv()));
    }

    fn read(buf: &Vec<u8>) -> (r: Option<ProtoStateFieldDiffs>) {
        proof {
            assert(buf@.skip(0) =~= buf@);
        }
        let (payload1, p1) = match read_field(buf, 0, 1) {
            Some(x) => x,
            None => {
                return None;
            },
        };
        let f_fields = match read_list::<u64>(&payload1) {
            Some(x) => x,
            None => {
                return None;
            },
        };
        let (payload2, p2) = match read_field(buf, p1, 2) {
            Some(x) => x,
            None => {
                return None;
            },
        };
        let f_diff_types = match read_list::<u64>(&payload2) {
            Some(x) => x,
            None => {
                return None;
            },
        };
        let (payload3, p3) = match read_field(buf, p2, 3) {
            Some(x) => x,
            None => {
                return None;
            },
        };
        let f_data_lens = match read_list::<u64>(&payload3) {
            Some(x) => x,
            None => {
                return None;
            },
        };
        let (payload4, p4) = match read_field(buf, p3, 4) {
            Some(x) => x,
            None => {
                return None;
            },
        };
        let f_data_bytes = payload4;
        if !read_skip_unknown(buf, p4, 4) {
            return None;
        }
        Some(ProtoStateFieldDiffs { fields: f_fields, diff_types: f_diff_types, data_lens: f_data_lens, data_bytes: f_data_bytes })
    }

    proof fn round_trip(v: ProtoStateFieldDiffsView) {
        let r4 = Seq::<u8>::empty();
        let r3 = field_enc(4, v.data_bytes) + r4;
        let r2 = field_enc(3, list_enc::<u64>(v.data_lens)) + r3;
        let r1 = field_enc(2, list_enc::<u64>(v.diff_types)) + r2;
        lemma_concat_assoc(field_enc(1, list_enc::<u64>(v.fields)) + field_enc(2, list_enc::<u64>(v.diff_types)) + field_enc(3, list_enc::<u64>(v.data_lens)), field_enc(4, v.data_bytes), r4);
        lemma_concat_assoc(field_enc(1, list_enc::<u64>(v.fields)) + field_enc(2, list_enc::<u64>(v.diff_types)), field_enc(3, list_enc::<u64>(v.data_lens)), r3);
        lemma_concat_assoc(field_enc(1, list_enc::<u64>(v.fields)), field_enc(2, list_enc::<u64>(v.diff_types)), r2);
        assert(Self::enc(v) + Seq::<u8>::empty() =~= Self::enc(v));
        assert(Self::enc(v) == field_enc(1, list_enc::<u64>(v.fields)) + r1);
        lemma_list_round_trip::<u64>(v.fields);
        lemma_field_take(1, list_enc::<u64>(v.fields), r1);
        lemma_list_round_trip::<u64>(v.diff_types);
        lemma_field_take(2, list_enc::<u64>(v.diff_types), r2);
        lemma_list_round_trip::<u64>(v.data_lens);
        lemma_field_take(3, list_enc::<u64>(v.data_lens), r3);
        lemma_field_take(4, v.data_bytes, r4);
    }
}

/// A state diff between two adjacent seqnos.
#[derive(Debug, PartialEq, Eq)]
pub struct ProtoStateDiff {
    pub applier_version: String,
    pub seqno_from: u64,
    pub seqno_to: u64,
    pub walltime_ms: u64,
    pub latest_rollup_key: String,
    pub field_diffs: Option<ProtoStateFieldDiffs>,
}

pub struct ProtoStateDiffView {
    pub applier_version: Seq<char>,
    pub seqno_from: u64,
    pub seqno_to: u64,
    pub walltime_ms: u64,
    pub latest_rollup_key: Seq<char>,
    pub field_diffs: Option<ProtoStateFieldDiffsView>,
}

impl Wire for ProtoStateDiff {
    type VV = ProtoStateDiffView;

    open spec fn vv(self) -> ProtoStateDiffView {
        ProtoStateDiffView {
            applier_version: self.applier_version@,
            seqno_from: self.seqno_from,
            seqno_to: self.seqno_to,
            walltime_ms: self.walltime_ms,
            latest_rollup_key: self.latest_rollup_key@,
            field_diffs: opt_vv(self.field_diffs),
        }
    }

    open spec fn bounded(v: ProtoStateDiffView) -> bool {
        &&& encode_utf8(v.applier_version).len() <= u64::MAX
        &&& encode_utf8(v.latest_rollup_key).len() <= u64::MAX
        &&& (v.field_diffs matches Some(x) ==> <ProtoStateFieldDiffs as Wire>::bounded(x))
        &&& opt_enc::<ProtoStateFieldDiffs>(v.field_diffs).len() <= u64::MAX
    }

    open spec fn enc(v: ProtoStateDiffView) -> Seq<u8> {
        field_enc(1, encode_utf8(v.applier_version)) + field_enc(2, varint_enc(v.seqno_from)) + field_enc(3, varint_enc(v.seqno_to)) + field_enc(4, varint_enc(v.walltime_ms)) + field_enc(5, encode_utf8(v.latest_rollup_key)) + field_enc(6, opt_enc::<ProtoStateFieldDiffs>(v.field_diffs))
    }

    open spec fn parse(s: Seq<u8>) -> Option<ProtoStateDiffView> {
        match field_take(s, 1) {
            None => None,
            Some((p1, s1)) => match <String as Wire>::parse(p1) {
                None => None,
                Some(f_applier_version) => 
                match field_take(s1, 2) {
                    None => None,
                    Some((p2, s2)) => match <u64 as Wire>::parse(p2) {
                        None => None,
                        Some(f_seqno_from) => 
                        match field_take(s2, 3) {
                            None => None,
                            Some((p3, s3)) => match <u64 as Wire>::parse(p3) {
                                None => None,
                                Some(f_seqno_to) => 
                                match field_take(s3, 4) {
                                    None => None,
                                    Some((p4, s4)) => match <u64 as Wire>::parse(p4) {
                                        None => None,
                                        Some(f_walltime_ms) => 
                                        match field_take(s4, 5) {
                                            None => None,
                                            Some((p5, s5)) => match <String as Wire>::parse(p5) {
                                                None => None,
                                                Some(f_latest_rollup_key) => 
                                                match field_take(s5, 6) {
                                                    None => None,
                                                    Some((p6, s6)) => match opt_parse::<ProtoStateFieldDiffs>(p6) {
                                                        None => None,
                                                        Some(f_field_diffs) => 
                                                        if skip_unknown(s6, 6) {
                                                            Some(((ProtoStateDiffView { applier_version: f_applier_version, seqno_from: f_seqno_from, seqno_to: f_seqno_to, walltime_ms: f_walltime_ms, latest_rollup_key: f_latest_rollup_key, field_diffs: f_field_diffs })))
                                                        } else {
                                                            None
                                                        }
                                                    },
                                                },
                                            },
                                        },
                                    },
                                },
                            },
                        },
                    },
                },
            },
        }
    }

    fn write(&self, buf: &mut Vec<u8>) {
        let mut tmp1: Vec<u8> = Vec::new();
        self.applier_version.write(&mut tmp1);
        write_field(buf, 1, &tmp1);
        let mut tmp2: Vec<u8> = Vec::new();
        self.seqno_from.write(&mut tmp2);
        write_field(buf, 2, &tmp2);
        let mut tmp3: Vec<u8> = Vec::new();
        self.seqno_to.write(&mut tmp3);
        write_field(buf, 3, &tmp3);
        let mut tmp4: Vec<u8> = Vec::new();
        self.walltime_ms.write(&mut tmp4);
        write_field(buf, 4, &tmp4);
        let mut tmp5: Vec<u8> = Vec::new();
        self.latest_rollup_key.write(&mut tmp5);
        write_field(buf, 5, &tmp5);
        let mut tmp6: Vec<u8> = Vec::new();
        write_opt::<ProtoStateFieldDiffs>(&mut tmp6, &self.field_diffs);
        write_field(buf, 6, &tmp6);
        assert(buf@ =~= old(buf)@ + Self::enc(self.vv()));
    }

    fn read(buf: &Vec<u8>) -> (r: Option<ProtoStateDiff>) {
        proof {
            assert(buf@.skip(0) =~= buf@);
        }
        let (payload1, p1) = match read_field(buf, 0, 1) {
            Some(x) => x,
            None => {
                return None;
            },
        };
        let f_applier_version = match <String as Wire>::read(&payload1) {
            Some(x) => x,
            None => {
                return None;
            },
        };
        let (payload2, p2) = match read_field(buf, p1, 2) {
            Some(x) => x,
            None => {
                return None;
            },
        };
        let f_seqno_from = match <u64 as Wire>::read(&payload2) {
            Some(x) => x,
            None => {
                return None;
            },
        };
        let (payload3, p3) = match read_field(buf, p2, 3) {
            Some(x) => x,
            None => {
                return None;
            },
        };
        let f_seqno_to = match <u64 as Wire>::read(&payload3) {
            Some(x) => x,
            None => {
                return None;
            },
        };
        let (payload4, p4) = match read_field(buf, p3, 4) {
            Some(x) => x,
            None => {
                return None;
            },
        };
        let f_walltime_ms = match <u64 as Wire>::read(&payload4) {
            Some(x) => x,
            None => {
                return None;
            },
        };
        let (payload5, p5) = match read_field(buf, p4, 5) {
            Some(x) => x,
            None => {
                return None;
            },
        };
        let f_latest_rollup_key = match <String as Wire>::read(&payload5) {
            Some(x) => x,
            None => {
                return None;
            },
        };
        let (payload6, p6) = match read_field(buf, p5, 6) {
            Some(x) => x,
            None => {
                return None;
            },
        };
        let f_field_diffs = match read_opt::<ProtoStateFieldDiffs>(&payload6) {
            Some(x) => x,
            None => {
                return None;
            },
        };
        if !read_skip_unknown(buf, p6, 6) {
            return None;
        }
        Some(ProtoStateDiff { applier_version: f_applier_version, seqno_from: f_seqno_from, seqno_to: f_seqno_to, walltime_ms: f_walltime_ms, latest_rollup_key: f_latest_rollup_key, field_diffs: f_field_diffs })
    }

    #[verifier::rlimit(60)]
    proof fn round_trip(v: ProtoStateDiffView) {
        let r6 = Seq::<u8>::empty();
        let r5 = field_enc(6, opt_enc::<ProtoStateFieldDiffs>(v.field_diffs)) + r6;
        let r4 = field_enc(5, encode_utf8(v.latest_rollup_key)) + r5;
        let r3 = field_enc(4, varint_enc(v.walltime_ms)) + r4;
        let r2 = field_enc(3, varint_enc(v.seqno_to)) + r3;
        let r1 = field_enc(2, varint_enc(v.seqno_from)) + r2;
        lemma_concat_assoc(field_enc(1, encode_utf8(v.applier_version)) + field_enc(2, varint_enc(v.seqno_from)) + field_enc(3, varint_enc(v.seqno_to)) + field_enc(4, varint_enc(v.walltime_ms)) + field_enc(5, encode_utf8(v.latest_rollup_key)), field_enc(6, opt_enc::<ProtoStateFieldDiffs>(v.field_diffs)), r6);
        lemma_concat_assoc(field_enc(1, encode_utf8(v.applier_version)) + field_enc(2, varint_enc(v.seqno_from)) + field_enc(3, varint_enc(v.seqno_to)) + field_enc(4, varint_enc(v.walltime_ms)), field_enc(5, encode_utf8(v.latest_rollup_key)), r5);
        lemma_concat_assoc(field_enc(1, encode_utf8(v.applier_version)) + field_enc(2, varint_enc(v.seqno_from)) + field_enc(3, varint_enc(v.seqno_to)), field_enc(4, varint_enc(v.walltime_ms)), r4);
        lemma_concat_assoc(field_enc(1, encode_utf8(v.applier_version)) + field_enc(2, varint_enc(v.seqno_from)), field_enc(3, varint_enc(v.seqno_to)), r3);
        lemma_concat_assoc(field_enc(1, encode_utf8(v.applier_version)), field_enc(2, varint_enc(v.seqno_from)), r2);
        assert(Self::enc(v) + Seq::<u8>::empty() =~= Self::enc(v));
        assert(Self::enc(v) == field_enc(1, encode_utf8(v.applier_version)) + r1);
        <String as Wire>::round_trip(v.applier_version);
        lemma_field_take(1, encode_utf8(v.applier_version), r1);
        lemma_varint_enc_len(v.seqno_from);
        <u64 as Wire>::round_trip(v.seqno_from);
        lemma_field_take(2, varint_enc(v.seqno_from), r2);
        lemma_varint_enc_len(v.seqno_to);
        <u64 as Wire>::round_trip(v.seqno_to);
        lemma_field_take(3, varint_enc(v.seqno_to), r3);
        lemma_varint_enc_len(v.walltime_ms);
        <u64 as Wire>::round_trip(v.walltime_ms);
        lemma_field_take(4, varint_enc(v.walltime_ms), r4);
        <String as Wire>::round_trip(v.latest_rollup_key);
        lemma_field_take(5, encode_utf8(v.latest_rollup_key), r5);
        lemma_opt_round_trip::<ProtoStateFieldDiffs>(v.field_diffs);
        lemma_field_take(6, opt_enc::<ProtoStateFieldDiffs>(v.field_diffs), r6);
    }
}

} // verus!