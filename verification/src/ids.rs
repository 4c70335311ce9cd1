//! Typed identifiers: 128-bit UUIDs carrying a one-character domain prefix
//! when stringified — shard (`s`), leased reader (`r`), critical reader
//! (`c`), writer (`w`), idempotency token (`i`) — plus the partial blob-key
//! wrappers. Equality is by raw bytes; the string form is the prefix
//! followed by the canonical hyphenated lower-case UUID.

use vstd::prelude::*;
use vstd::string::StrSliceExecFns;
use vstd::string::StringExecFns;
use crate::error::TryFromProtoError;

verus! {

/// The lower-case hexadecimal digit of `n` (for `n < 16`).
pub open spec fn hex_digit(n: u8) -> char {
    if n < 10 {
        ((n + 48) as u8) as char
    } else {
        ((n + 87) as u8) as char
    }
}

/// Both hexadecimal digits of one byte, high nibble first.
pub open spec fn hex_pair(b: u8) -> Seq<char> {
    seq![hex_digit(b / 16), hex_digit(b % 16)]
}

pub open spec fn hex_str(bs: Seq<u8>) -> Seq<char>
    decreases bs.len(),
{
    if bs.len() == 0 {
        Seq::empty()
    } else {
        hex_pair(bs[0]) + hex_str(bs.drop_first())
    }
}

/// The canonical hyphenated lower-case form of a 16-byte UUID:
/// 8-4-4-4-12 hexadecimal digits.
pub open spec fn uuid_chars(b: Seq<u8>) -> Seq<char> {
    hex_str(b.subrange(0, 4)) + seq!['-'] + hex_str(b.subrange(4, 6)) + seq!['-'] + hex_str(
        b.subrange(6, 8),
    ) + seq!['-'] + hex_str(b.subrange(8, 10)) + seq!['-'] + hex_str(b.subrange(10, 16))
}

/// What `uuid`'s parser makes of a string: the 16 bytes of the UUID it
/// denotes, or nothing if it denotes none.
pub uninterp spec fn parsed_uuid(s: Seq<char>) -> Option<Seq<u8>>;

/// Relies on `uuid::Uuid::from_bytes` and `Display`: the hyphenated
/// lower-case hexadecimal form of exactly the given bytes; and on
/// `uuid::Uuid::parse_str`: that canonical form parses back to the same
/// bytes.
#[verifier::external_body]
fn uuid_to_string(b: &[u8; 16]) -> (r: String)
    ensures
        r@ == uuid_chars(b@),
        parsed_uuid(r@) == Some(b@),
{
    uuid::Uuid::from_bytes(*b).to_string()
}

/// Relies on `uuid::Uuid::parse_str`: returns the bytes of the UUID the
/// string denotes (in any of the formats the parser accepts), or an error
/// if it denotes none.
#[verifier::external_body]
fn uuid_parse(s: &str) -> (r: Option<[u8; 16]>)
    ensures
        match r {
            Some(b) => parsed_uuid(s@) == Some(b@),
            None => parsed_uuid(s@) is None,
        },
{
    match uuid::Uuid::parse_str(s) {
        Ok(u) => Some(*u.as_bytes()),
        Err(_) => None,
    }
}

/// Relies on `uuid::Uuid::new_v4`: fresh random bytes with the version
/// bits set, so the result is never all zeros; beyond that nothing can be
/// promised of the value.
#[verifier::external_body]
fn uuid_new_random() -> (r: [u8; 16])
    ensures
        r@ != Seq::new(16, |i: int| 0u8),
{
    *uuid::Uuid::new_v4().as_bytes()
}

/// What decoding an id string yields: the UUID bytes of the remainder when
/// the one-character prefix matches, nothing otherwise.
pub open spec fn id_from_chars(prefix: char, s: Seq<char>) -> Option<Seq<u8>> {
    if s.len() >= 1 && s[0] == prefix {
        parsed_uuid(s.skip(1))
    } else {
        None
    }
}

/// The string form of an id: its prefix and the canonical UUID digits.
pub open spec fn id_chars(prefix: char, b: Seq<u8>) -> Seq<char> {
    seq![prefix] + uuid_chars(b)
}

/// Strips the one-character `id_prefix` and parses the remainder as a UUID.
pub fn parse_id(id_prefix: char, encoded: &str) -> (r: Option<[u8; 16]>)
    ensures
        match r {
            Some(b) => encoded@.len() >= 1 && encoded@[0] == id_prefix && parsed_uuid(
                encoded@.skip(1),
            ) == Some(b@),
            None => encoded@.len() == 0 || encoded@[0] != id_prefix || parsed_uuid(
                encoded@.skip(1),
            ) is None,
        },
{
    let n = encoded.unicode_len();
    if n == 0 {
        return None;
    }
    let c = encoded.get_char(0);
    if c != id_prefix {
        return None;
    }
    let rest = encoded.substring_char(1, n);
    assert(rest@ =~= encoded@.skip(1));
    uuid_parse(rest)
}

/// Builds `prefix` + canonical UUID string; `prefix` must be one character.
fn encode_id(prefix: &str, b: &[u8; 16]) -> (r: String)
    requires
        prefix@.len() == 1,
    ensures
        r@ == prefix@ + uuid_chars(b@),
        r@.len() >= 1,
        r@[0] == prefix@[0],
        parsed_uuid(r@.skip(1)) == Some(b@),
{
    let u = uuid_to_string(b);
    let mut s = String::from_str(prefix);
    s.append(u.as_str());
    assert(s@.skip(1) =~= u@);
    s
}

/// Compares two 16-byte identifiers.
pub fn bytes16_eq(a: &[u8; 16], b: &[u8; 16]) -> (r: bool)
    ensures
        r == (a@ == b@),
{
    let mut i: usize = 0;
    while i < 16
        invariant
            i <= 16,
            forall|j: int| 0 <= j < i ==> a@[j] == b@[j],
        decreases 16 - i,
    {
        if a[i] != b[i] {
            assert(a@ != b@);
            return false;
        }
        i = i + 1;
    }
    assert(a@ =~= b@);
    true
}

/// An identifier of one shard.
#[derive(Clone, Copy, Debug, PartialEq, Eq, Hash)]
pub struct ShardId(pub [u8; 16]);

/// An identifier of one leased-reader handle.
#[derive(Clone, Copy, Debug, PartialEq, Eq, Hash)]
pub struct LeasedReaderId(pub [u8; 16]);

/// An identifier of one critical-reader handle.
#[derive(Clone, Copy, Debug, PartialEq, Eq, Hash)]
pub struct CriticalReaderId(pub [u8; 16]);

/// An identifier of one writer handle.
#[derive(Clone, Copy, Debug, PartialEq, Eq, Hash)]
pub struct WriterId(pub [u8; 16]);

/// A tag a writer attaches to its most recent write so retries of the same
/// write can be recognized.
#[derive(Clone, Copy, Debug, PartialEq, Eq, Hash)]
pub struct IdempotencyToken(pub [u8; 16]);

impl ShardId {
    pub open spec fn chars_spec(self) -> Seq<char> {
        seq!['s'] + uuid_chars(self.0@)
    }

    /// A fresh random shard id; never the all-zeros sentinel value.
    pub fn new() -> (r: ShardId)
        ensures
            r.0@ != Seq::new(16, |i: int| 0u8),
    {
        ShardId(uuid_new_random())
    }

    pub fn into_proto(&self) -> (r: String)
        ensures
            r@ == self.chars_spec(),
            r@.len() >= 1 && r@[0] == 's' && parsed_uuid(r@.skip(1)) == Some(self.0@),
    {
        proof {
            reveal_strlit("s");
        }
        encode_id("s", &self.0)
    }

    pub fn from_proto(proto: String) -> (r: Result<ShardId, TryFromProtoError>)
        ensures
            match r {
                Ok(id) => proto@.len() >= 1 && proto@[0] == 's' && parsed_uuid(proto@.skip(1))
                    == Some(id.0@),
                Err(e) => (proto@.len() == 0 || proto@[0] != 's' || parsed_uuid(
                    proto@.skip(1),
                ) is None) && e == TryFromProtoError::InvalidShardId(proto),
            },
    {
        match parse_id('s', proto.as_str()) {
            Some(b) => Ok(ShardId(b)),
            None => Err(TryFromProtoError::InvalidShardId(proto)),
        }
    }
}

impl LeasedReaderId {
    pub open spec fn chars_spec(self) -> Seq<char> {
        seq!['r'] + uuid_chars(self.0@)
    }

    pub fn into_proto(&self) -> (r: String)
        ensures
            r@ == self.chars_spec(),
            r@.len() >= 1 && r@[0] == 'r' && parsed_uuid(r@.skip(1)) == Some(self.0@),
    {
        proof {
            reveal_strlit("r");
        }
        encode_id("r", &self.0)
    }

    pub fn from_proto(proto: String) -> (r: Result<LeasedReaderId, TryFromProtoError>)
        ensures
            match r {
                Ok(id) => proto@.len() >= 1 && proto@[0] == 'r' && parsed_uuid(proto@.skip(1))
                    == Some(id.0@),
                Err(e) => (proto@.len() == 0 || proto@[0] != 'r' || parsed_uuid(
                    proto@.skip(1),
                ) is None) && e == TryFromProtoError::InvalidShardId(proto),
            },
    {
        match parse_id('r', proto.as_str()) {
            Some(b) => Ok(LeasedReaderId(b)),
            None => Err(TryFromProtoError::InvalidShardId(proto)),
        }
    }
}

impl CriticalReaderId {
    pub open spec fn chars_spec(self) -> Seq<char> {
        seq!['c'] + uuid_chars(self.0@)
    }

    pub fn into_proto(&self) -> (r: String)
        ensures
            r@ == self.chars_spec(),
            r@.len() >= 1 && r@[0] == 'c' && parsed_uuid(r@.skip(1)) == Some(self.0@),
    {
        proof {
            reveal_strlit("c");
        }
        encode_id("c", &self.0)
    }

    pub fn from_proto(proto: String) -> (r: Result<CriticalReaderId, TryFromProtoError>)
        ensures
            match r {
                Ok(id) => proto@.len() >= 1 && proto@[0] == 'c' && parsed_uuid(proto@.skip(1))
                    == Some(id.0@),
                Err(e) => (proto@.len() == 0 || proto@[0] != 'c' || parsed_uuid(
                    proto@.skip(1),
                ) is None) && e == TryFromProtoError::InvalidShardId(proto),
            },
    {
        match parse_id('c', proto.as_str()) {
            Some(b) => Ok(CriticalReaderId(b)),
            None => Err(TryFromProtoError::InvalidShardId(proto)),
        }
    }
}

impl WriterId {
    pub open spec fn chars_spec(self) -> Seq<char> {
        seq!['w'] + uuid_chars(self.0@)
    }

    pub fn into_proto(&self) -> (r: String)
        ensures
            r@ == self.chars_spec(),
            r@.len() >= 1 && r@[0] == 'w' && parsed_uuid(r@.skip(1)) == Some(self.0@),
    {
        proof {
            reveal_strlit("w");
        }
        encode_id("w", &self.0)
    }

    pub fn from_proto(proto: String) -> (r: Result<WriterId, TryFromProtoError>)
        ensures
            match r {
                Ok(id) => proto@.len() >= 1 && proto@[0] == 'w' && parsed_uuid(proto@.skip(1))
                    == Some(id.0@),
                Err(e) => (proto@.len() == 0 || proto@[0] != 'w' || parsed_uuid(
                    proto@.skip(1),
                ) is None) && e == TryFromProtoError::InvalidShardId(proto),
            },
    {
        match parse_id('w', proto.as_str()) {
            Some(b) => Ok(WriterId(b)),
            None => Err(TryFromProtoError::InvalidShardId(proto)),
        }
    }
}

impl IdempotencyToken {
    pub open spec fn chars_spec(self) -> Seq<char> {
        seq!['i'] + uuid_chars(self.0@)
    }

    /// The all-zeros token, reserved to mean "unknown prior write". Random
    /// generation never produces it (version-4 UUIDs have nonzero version
    /// bits), so no real write carries it.
    pub fn sentinel() -> (r: IdempotencyToken)
        ensures
            r.0@ == Seq::new(16, |i: int| 0u8),
    {
        let z: [u8; 16] = [0, 0, 0, 0, 0, 0, 0, 0, 0, 0, 0, 0, 0, 0, 0, 0];
        assert(z@ =~= Seq::new(16, |i: int| 0u8));
        IdempotencyToken(z)
    }

    pub fn into_proto(&self) -> (r: String)
        ensures
            r@ == self.chars_spec(),
            r@.len() >= 1 && r@[0] == 'i' && parsed_uuid(r@.skip(1)) == Some(self.0@),
    {
        proof {
            reveal_strlit("i");
        }
        encode_id("i", &self.0)
    }

    pub fn from_proto(proto: String) -> (r: Result<IdempotencyToken, TryFromProtoError>)
        ensures
            match r {
                Ok(id) => proto@.len() >= 1 && proto@[0] == 'i' && parsed_uuid(proto@.skip(1))
                    == Some(id.0@),
                Err(e) => (proto@.len() == 0 || proto@[0] != 'i' || parsed_uuid(
                    proto@.skip(1),
                ) is None) && e == TryFromProtoError::InvalidShardId(proto),
            },
    {
        match parse_id('i', proto.as_str()) {
            Some(b) => Ok(IdempotencyToken(b)),
            None => Err(TryFromProtoError::InvalidShardId(proto)),
        }
    }
}

/// A path fragment naming one batch part in blob storage; the blob layer
/// prepends its own prefix.
#[derive(Debug, PartialEq, Eq)]
pub struct PartialBatchKey(pub String);

/// A path fragment naming one rollup in blob storage.
#[derive(Debug, PartialEq, Eq)]
pub struct PartialRollupKey(pub String);

impl View for PartialBatchKey {
    type V = Seq<char>;

    open spec fn view(&self) -> Seq<char> {
        self.0@
    }
}

impl View for PartialRollupKey {
    type V = Seq<char>;

    open spec fn view(&self) -> Seq<char> {
        self.0@
    }
}

impl Clone for PartialBatchKey {
    fn clone(&self) -> (r: Self)
        ensures
            r@ == self@,
    {
        PartialBatchKey(self.0.clone())
    }
}

impl Clone for PartialRollupKey {
    fn clone(&self) -> (r: Self)
        ensures
            r@ == self@,
    {
        PartialRollupKey(self.0.clone())
    }
}

impl PartialBatchKey {
    pub fn into_proto(&self) -> (r: String)
        ensures
            r@ == self@,
    {
        self.0.clone()
    }

    pub fn from_proto(proto: String) -> (r: PartialBatchKey)
        ensures
            r@ == proto@,
    {
        PartialBatchKey(proto)
    }
}

impl PartialRollupKey {
    pub fn into_proto(&self) -> (r: String)
        ensures
            r@ == self@,
    {
        self.0.clone()
    }

    pub fn from_proto(proto: String) -> (r: PartialRollupKey)
        ensures
            r@ == proto@,
    {
        PartialRollupKey(proto)
    }
}

} // verus!
