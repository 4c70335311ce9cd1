//! Schema codecs. A [`Codec`] names the serialization of a key or value
//! column; the name acts as a schema fingerprint and is compared by the
//! codec gate. A [`Codec64`] additionally fixes an 8-byte little-endian
//! encoding, and a [`Timestamp`] is an 8-byte codec with a total order and
//! a minimum element, as the frontier logic requires.

use vstd::prelude::*;
use vstd::string::StringExecFns;

verus! {

/// A named serialization format. The name is stable and acts as a schema
/// fingerprint: two processes agree on a column's encoding iff they agree
/// on its codec name.
pub trait Codec: Sized {
    spec fn codec_name_spec() -> Seq<char>;

    fn codec_name() -> (r: String)
        ensures
            r@ == Self::codec_name_spec(),
    ;
}

/// A codec whose values encode as exactly 8 bytes.
pub trait Codec64: Codec + Copy {
    spec fn enc64_spec(self) -> Seq<u8>;

    spec fn dec64_spec(b: Seq<u8>) -> Self;

    fn enc64(&self) -> (r: [u8; 8])
        ensures
            r@ == self.enc64_spec(),
    ;

    fn dec64(b: &[u8; 8]) -> (r: Self)
        ensures
            r == Self::dec64_spec(b@),
    ;

    proof fn lemma_enc64_len(self)
        ensures
            self.enc64_spec().len() == 8,
    ;

    proof fn lemma_enc64_round_trip(self)
        ensures
            Self::dec64_spec(self.enc64_spec()) == self,
    ;
}

/// A timestamp type: an 8-byte codec with a total order and a minimum.
pub trait Timestamp: Codec64 {
    spec fn le_spec(self, other: Self) -> bool;

    spec fn minimum_spec() -> Self;

    fn ts_le(&self, other: &Self) -> (r: bool)
        ensures
            r == self.le_spec(*other),
    ;

    fn minimum() -> (r: Self)
        ensures
            r == Self::minimum_spec(),
    ;

    proof fn lemma_le_total(a: Self, b: Self)
        ensures
            a.le_spec(b) || b.le_spec(a),
    ;

    proof fn lemma_le_antisymmetric(a: Self, b: Self)
        ensures
            a.le_spec(b) && b.le_spec(a) ==> a == b,
    ;

    proof fn lemma_le_transitive(a: Self, b: Self, c: Self)
        ensures
            a.le_spec(b) && b.le_spec(c) ==> a.le_spec(c),
    ;

    proof fn lemma_minimum(a: Self)
        ensures
            Self::minimum_spec().le_spec(a),
    ;
}

/// The 8 little-endian bytes of `x`.
pub open spec fn u64_le_bytes(x: u64) -> Seq<u8> {
    seq![
        (x & 0xff) as u8,
        ((x >> 8) & 0xff) as u8,
        ((x >> 16) & 0xff) as u8,
        ((x >> 24) & 0xff) as u8,
        ((x >> 32) & 0xff) as u8,
        ((x >> 40) & 0xff) as u8,
        ((x >> 48) & 0xff) as u8,
        ((x >> 56) & 0xff) as u8,
    ]
}

/// The `u64` read back from 8 little-endian bytes.
pub open spec fn u64_from_le_bytes(b: Seq<u8>) -> u64 {
    ((b[0] as u64) | ((b[1] as u64) << 8) | ((b[2] as u64) << 16) | ((b[3] as u64) << 24) | ((
    b[4] as u64) << 32) | ((b[5] as u64) << 40) | ((b[6] as u64) << 48) | ((b[7] as u64) << 56))
        as u64
}

pub proof fn lemma_u64_le_round_trip(x: u64)
    ensures
        u64_from_le_bytes(u64_le_bytes(x)) == x,
{
    assert((((((x & 0xff) as u8) as u64) | ((((x >> 8) & 0xff) as u8) as u64) << 8 | ((((x >> 16)
        & 0xff) as u8) as u64) << 16 | ((((x >> 24) & 0xff) as u8) as u64) << 24 | ((((x >> 32)
        & 0xff) as u8) as u64) << 32 | ((((x >> 40) & 0xff) as u8) as u64) << 40 | ((((x >> 48)
        & 0xff) as u8) as u64) << 48 | ((((x >> 56) & 0xff) as u8) as u64) << 56) as u64) == x)
        by (bit_vector);
}

impl Codec for () {
    open spec fn codec_name_spec() -> Seq<char> {
        "()"@
    }

    fn codec_name() -> (r: String) {
        String::from_str("()")
    }
}

impl Codec for u64 {
    open spec fn codec_name_spec() -> Seq<char> {
        "u64"@
    }

    fn codec_name() -> (r: String) {
        String::from_str("u64")
    }
}

impl Codec64 for u64 {
    open spec fn enc64_spec(self) -> Seq<u8> {
        u64_le_bytes(self)
    }

    open spec fn dec64_spec(b: Seq<u8>) -> u64 {
        u64_from_le_bytes(b)
    }

    fn enc64(&self) -> (r: [u8; 8]) {
        let x = *self;
        let r: [u8; 8] = [
            (x & 0xff) as u8,
            ((x >> 8) & 0xff) as u8,
            ((x >> 16) & 0xff) as u8,
            ((x >> 24) & 0xff) as u8,
            ((x >> 32) & 0xff) as u8,
            ((x >> 40) & 0xff) as u8,
            ((x >> 48) & 0xff) as u8,
            ((x >> 56) & 0xff) as u8,
        ];
        assert(r@ =~= u64_le_bytes(x));
        r
    }

    fn dec64(b: &[u8; 8]) -> (r: u64) {
        (b[0] as u64) | ((b[1] as u64) << 8) | ((b[2] as u64) << 16) | ((b[3] as u64) << 24) | ((
        b[4] as u64) << 32) | ((b[5] as u64) << 40) | ((b[6] as u64) << 48) | ((b[7] as u64) << 56)
    }

    proof fn lemma_enc64_len(self) {
    }

    proof fn lemma_enc64_round_trip(self) {
        lemma_u64_le_round_trip(self);
    }
}

impl Timestamp for u64 {
    open spec fn le_spec(self, other: u64) -> bool {
        self <= other
    }

    open spec fn minimum_spec() -> u64 {
        0
    }

    fn ts_le(&self, other: &u64) -> (r: bool) {
        *self <= *other
    }

    fn minimum() -> (r: u64) {
        0
    }

    proof fn lemma_le_total(a: u64, b: u64) {
    }

    proof fn lemma_le_antisymmetric(a: u64, b: u64) {
    }

    proof fn lemma_le_transitive(a: u64, b: u64, c: u64) {
    }

    proof fn lemma_minimum(a: u64) {
    }
}

impl Codec for i64 {
    open spec fn codec_name_spec() -> Seq<char> {
        "i64"@
    }

    fn codec_name() -> (r: String) {
        String::from_str("i64")
    }
}

impl Timestamp for i64 {
    open spec fn le_spec(self, other: i64) -> bool {
        self <= other
    }

    open spec fn minimum_spec() -> i64 {
        i64::MIN
    }

    fn ts_le(&self, other: &i64) -> (r: bool) {
        *self <= *other
    }

    fn minimum() -> (r: i64) {
        i64::MIN
    }

    proof fn lemma_le_total(a: i64, b: i64) {
    }

    proof fn lemma_le_antisymmetric(a: i64, b: i64) {
    }

    proof fn lemma_le_transitive(a: i64, b: i64, c: i64) {
    }

    proof fn lemma_minimum(a: i64) {
    }
}

impl Codec64 for i64 {
    open spec fn enc64_spec(self) -> Seq<u8> {
        u64_le_bytes(self as u64)
    }

    open spec fn dec64_spec(b: Seq<u8>) -> i64 {
        u64_from_le_bytes(b) as i64
    }

    fn enc64(&self) -> (r: [u8; 8]) {
        let x = *self as u64;
        let r: [u8; 8] = [
            (x & 0xff) as u8,
            ((x >> 8) & 0xff) as u8,
            ((x >> 16) & 0xff) as u8,
            ((x >> 24) & 0xff) as u8,
            ((x >> 32) & 0xff) as u8,
            ((x >> 40) & 0xff) as u8,
            ((x >> 48) & 0xff) as u8,
            ((x >> 56) & 0xff) as u8,
        ];
        assert(r@ =~= u64_le_bytes(x));
        r
    }

    fn dec64(b: &[u8; 8]) -> (r: i64) {
        ((b[0] as u64) | ((b[1] as u64) << 8) | ((b[2] as u64) << 16) | ((b[3] as u64) << 24) | ((
        b[4] as u64) << 32) | ((b[5] as u64) << 40) | ((b[6] as u64) << 48) | ((b[7] as u64) << 56))
            as i64
    }

    proof fn lemma_enc64_len(self) {
    }

    proof fn lemma_enc64_round_trip(self) {
        lemma_u64_le_round_trip(self as u64);
        assert((self as u64) as i64 == self) by (bit_vector);
    }
}

} // verus!
