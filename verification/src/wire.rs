//! Byte-level primitives of the framed record format: base-128 varints,
//! length-prefixed byte fields, UTF-8 strings, fixed 8-byte values and
//! presence bytes.
//!
//! Every primitive comes in three parts: a spec-level encoding function
//! (`*_enc`), a spec-level total parser (`*_parse`) that consumes a prefix of
//! a byte sequence and returns the value plus the remainder, and executable
//! writer/reader functions proved equal to them. The `lemma_*_round_trip`
//! lemmas show that parsing an encoding yields the original value.

use vstd::prelude::*;
use vstd::arithmetic::div_mod::lemma_fundamental_div_mod;
use vstd::string::StrSliceExecFns;
use vstd::utf8::{decode_utf8, encode_utf8, valid_utf8};
use vstd::utf8::{encode_utf8_decode_utf8, encode_utf8_valid_utf8};

verus! {

// ---------------------------------------------------------------------------
// Varints: little-endian base-128, low 7 bits first, high bit = continuation.
// ---------------------------------------------------------------------------

pub open spec fn varint_enc(x: u64) -> Seq<u8>
    decreases x,
{
    if x < 128 {
        seq![x as u8]
    } else {
        seq![((x % 128) + 128) as u8] + varint_enc(x / 128)
    }
}

/// Parses one varint from the front of `s`, with a `budget` bound on the
/// number of bytes that may be consumed; rejects values that overflow `u64`.
pub open spec fn varint_parse_rec(s: Seq<u8>, budget: nat) -> Option<(u64, Seq<u8>)>
    decreases budget,
{
    if budget == 0 || s.len() == 0 {
        None
    } else if s[0] < 128 {
        Some((s[0] as u64, s.drop_first()))
    } else {
        match varint_parse_rec(s.drop_first(), (budget - 1) as nat) {
            None => None,
            Some((hi, rest)) => if hi < 0x0200_0000_0000_0000 {
                Some((((hi * 128) + (s[0] - 128)) as u64, rest))
            } else {
                None
            },
        }
    }
}

/// A `u64` varint spans at most 10 bytes, so a budget of 10 parses them all.
pub open spec fn varint_parse(s: Seq<u8>) -> Option<(u64, Seq<u8>)> {
    varint_parse_rec(s, 10)
}

pub proof fn lemma_concat_assoc(a: Seq<u8>, b: Seq<u8>, c: Seq<u8>)
    ensures
        (a + b) + c == a + (b + c),
{
    assert((a + b) + c =~= a + (b + c));
}

pub proof fn lemma_varint_enc_len(x: u64)
    ensures
        1 <= varint_enc(x).len(),
        x < 0x80 ==> varint_enc(x).len() <= 1,
        x < 0x4000 ==> varint_enc(x).len() <= 2,
        x < 0x20_0000 ==> varint_enc(x).len() <= 3,
        x < 0x1000_0000 ==> varint_enc(x).len() <= 4,
        x < 0x8_0000_0000 ==> varint_enc(x).len() <= 5,
        x < 0x400_0000_0000 ==> varint_enc(x).len() <= 6,
        x < 0x2_0000_0000_0000 ==> varint_enc(x).len() <= 7,
        x < 0x100_0000_0000_0000 ==> varint_enc(x).len() <= 8,
        x < 0x8000_0000_0000_0000 ==> varint_enc(x).len() <= 9,
        varint_enc(x).len() <= 10,
    decreases x,
{
    if x >= 128 {
        lemma_varint_enc_len(x / 128);
    }
}

proof fn lemma_varint_parse_enc_rec(x: u64, rest: Seq<u8>, budget: nat)
    requires
        varint_enc(x).len() <= budget,
    ensures
        varint_parse_rec(varint_enc(x) + rest, budget) == Some((x, rest)),
    decreases x,
{
    let s = varint_enc(x) + rest;
    if x < 128 {
        assert(s[0] == x as u8);
        assert(s.drop_first() =~= rest);
    } else {
        let b0 = ((x % 128) + 128) as u8;
        assert(s[0] == b0);
        assert(s.drop_first() =~= varint_enc(x / 128) + rest);
        lemma_varint_parse_enc_rec(x / 128, rest, (budget - 1) as nat);
        assert(x / 128 < 0x0200_0000_0000_0000);
        lemma_fundamental_div_mod(x as int, 128);
        assert(((x / 128) * 128) + (b0 - 128) == x);
    }
}

pub proof fn lemma_varint_round_trip(x: u64, rest: Seq<u8>)
    ensures
        varint_parse(varint_enc(x) + rest) == Some((x, rest)),
{
    lemma_varint_enc_len(x);
    lemma_varint_parse_enc_rec(x, rest, 10);
}

pub fn write_varint(buf: &mut Vec<u8>, x: u64)
    ensures
        final(buf)@ == old(buf)@ + varint_enc(x),
    decreases x,
{
    if x < 128 {
        buf.push(x as u8);
        assert(buf@ =~= old(buf)@ + varint_enc(x));
    } else {
        buf.push(((x % 128) + 128) as u8);
        write_varint(buf, x / 128);
        assert(buf@ =~= old(buf)@ + varint_enc(x));
    }
}

fn read_varint_rec(buf: &Vec<u8>, pos: usize, budget: u64) -> (r: Option<(u64, usize)>)
    requires
        pos <= buf@.len(),
    ensures
        match r {
            Some(p) => pos <= p.1 <= buf@.len() && varint_parse_rec(
                buf@.skip(pos as int),
                budget as nat,
            ) == Some((p.0, buf@.skip(p.1 as int))),
            None => varint_parse_rec(buf@.skip(pos as int), budget as nat) is None,
        },
    decreases budget,
{
    if budget == 0 || pos == buf.len() {
        return None;
    }
    let b = buf[pos];
    assert(buf@.skip(pos as int)[0] == b);
    if b < 128 {
        assert(buf@.skip(pos as int).drop_first() =~= buf@.skip(pos as int + 1));
        Some((b as u64, pos + 1))
    } else {
        assert(buf@.skip(pos as int).drop_first() =~= buf@.skip(pos as int + 1));
        match read_varint_rec(buf, pos + 1, budget - 1) {
            None => None,
            Some((hi, end)) => if hi < 0x0200_0000_0000_0000 {
                Some(((hi * 128) + ((b - 128) as u64), end))
            } else {
                None
            },
        }
    }
}

pub fn read_varint(buf: &Vec<u8>, pos: usize) -> (r: Option<(u64, usize)>)
    requires
        pos <= buf@.len(),
    ensures
        match r {
            Some(p) => pos <= p.1 <= buf@.len() && varint_parse(buf@.skip(pos as int)) == Some(
                (p.0, buf@.skip(p.1 as int)),
            ),
            None => varint_parse(buf@.skip(pos as int)) is None,
        },
{
    read_varint_rec(buf, pos, 10)
}

// ---------------------------------------------------------------------------
// Length-prefixed byte fields.
// ---------------------------------------------------------------------------

pub open spec fn bytes_enc(b: Seq<u8>) -> Seq<u8> {
    varint_enc(b.len() as u64) + b
}

pub open spec fn bytes_parse(s: Seq<u8>) -> Option<(Seq<u8>, Seq<u8>)> {
    match varint_parse(s) {
        None => None,
        Some((n, rest)) => if n <= rest.len() {
            Some((rest.take(n as int), rest.skip(n as int)))
        } else {
            None
        },
    }
}

pub proof fn lemma_bytes_round_trip(b: Seq<u8>, rest: Seq<u8>)
    requires
        b.len() <= u64::MAX,
    ensures
        bytes_parse(bytes_enc(b) + rest) == Some((b, rest)),
{
    let n = b.len() as u64;
    assert(bytes_enc(b) + rest =~= varint_enc(n) + (b + rest));
    lemma_varint_round_trip(n, b + rest);
    assert((b + rest).take(n as int) =~= b);
    assert((b + rest).skip(n as int) =~= rest);
}

/// Appends the raw bytes of `data` to `buf`.
pub fn write_raw(buf: &mut Vec<u8>, data: &Vec<u8>)
    ensures
        final(buf)@ == old(buf)@ + data@,
{
    let mut i: usize = 0;
    while i < data.len()
        invariant
            i <= data@.len(),
            buf@ == old(buf)@ + data@.take(i as int),
        decreases data@.len() - i,
    {
        buf.push(data[i]);
        assert(buf@ =~= old(buf)@ + data@.take(i + 1));
        i = i + 1;
    }
    assert(buf@ =~= old(buf)@ + data@);
}

pub fn write_bytes(buf: &mut Vec<u8>, data: &Vec<u8>)
    ensures
        final(buf)@ == old(buf)@ + bytes_enc(data@),
{
    write_varint(buf, data.len() as u64);
    write_raw(buf, data);
    assert(buf@ =~= old(buf)@ + bytes_enc(data@));
}

pub fn read_bytes(buf: &Vec<u8>, pos: usize) -> (r: Option<(Vec<u8>, usize)>)
    requires
        pos <= buf@.len(),
    ensures
        match r {
            Some(p) => pos <= p.1 <= buf@.len() && bytes_parse(buf@.skip(pos as int)) == Some(
                (p.0@, buf@.skip(p.1 as int)),
            ),
            None => bytes_parse(buf@.skip(pos as int)) is None,
        },
{
    match read_varint(buf, pos) {
        None => None,
        Some((n, mid)) => {
            if n > (buf.len() - mid) as u64 {
                assert(buf@.skip(mid as int).len() == buf@.len() - mid);
                None
            } else {
                let n_us: usize = n as usize;
                let end: usize = mid + n_us;
                let mut out: Vec<u8> = Vec::new();
                let mut i: usize = mid;
                while i < end
                    invariant
                        mid <= i <= end,
                        end <= buf@.len(),
                        out@ == buf@.subrange(mid as int, i as int),
                    decreases end - i,
                {
                    out.push(buf[i]);
                    assert(out@ =~= buf@.subrange(mid as int, i + 1));
                    i = i + 1;
                }
                assert(out@ =~= buf@.skip(mid as int).take(n as int));
                assert(buf@.skip(end as int) =~= buf@.skip(mid as int).skip(n as int));
                Some((out, end))
            }
        },
    }
}

// ---------------------------------------------------------------------------
// Fixed 8-byte values (the 64-bit timestamp codec's output).
// ---------------------------------------------------------------------------

pub open spec fn fixed8_parse(s: Seq<u8>) -> Option<(Seq<u8>, Seq<u8>)> {
    if s.len() >= 8 {
        Some((s.take(8), s.skip(8)))
    } else {
        None
    }
}

pub fn write_fixed8(buf: &mut Vec<u8>, data: &[u8; 8])
    ensures
        final(buf)@ == old(buf)@ + data@,
{
    let mut i: usize = 0;
    while i < 8
        invariant
            i <= 8,
            buf@ == old(buf)@ + data@.take(i as int),
        decreases 8 - i,
    {
        buf.push(data[i]);
        assert(buf@ =~= old(buf)@ + data@.take(i + 1));
        i = i + 1;
    }
    assert(buf@ =~= old(buf)@ + data@);
}

pub fn read_fixed8(buf: &Vec<u8>, pos: usize) -> (r: Option<([u8; 8], usize)>)
    requires
        pos <= buf@.len(),
    ensures
        match r {
            Some(p) => pos <= p.1 <= buf@.len() && fixed8_parse(buf@.skip(pos as int)) == Some(
                (p.0@, buf@.skip(p.1 as int)),
            ),
            None => fixed8_parse(buf@.skip(pos as int)) is None,
        },
{
    if buf.len() - pos < 8 {
        assert(buf@.skip(pos as int).len() < 8);
        None
    } else {
        let a: [u8; 8] = [
            buf[pos],
            buf[pos + 1],
            buf[pos + 2],
            buf[pos + 3],
            buf[pos + 4],
            buf[pos + 5],
            buf[pos + 6],
            buf[pos + 7],
        ];
        assert(a@ =~= buf@.skip(pos as int).take(8));
        assert(buf@.skip(pos as int + 8) =~= buf@.skip(pos as int).skip(8));
        Some((a, pos + 8))
    }
}

pub proof fn lemma_fixed8_round_trip(b: Seq<u8>, rest: Seq<u8>)
    requires
        b.len() == 8,
    ensures
        fixed8_parse(b + rest) == Some((b, rest)),
{
    assert((b + rest).take(8) =~= b);
    assert((b + rest).skip(8) =~= rest);
}

// ---------------------------------------------------------------------------
// Presence bytes: 1 marks a value present, 0 marks it absent.
// ---------------------------------------------------------------------------

pub open spec fn bool_enc(b: bool) -> Seq<u8> {
    if b {
        seq![1u8]
    } else {
        seq![0u8]
    }
}

pub open spec fn bool_parse(s: Seq<u8>) -> Option<(bool, Seq<u8>)> {
    if s.len() == 0 {
        None
    } else if s[0] == 1 {
        Some((true, s.drop_first()))
    } else if s[0] == 0 {
        Some((false, s.drop_first()))
    } else {
        None
    }
}

pub proof fn lemma_bool_round_trip(b: bool, rest: Seq<u8>)
    ensures
        bool_parse(bool_enc(b) + rest) == Some((b, rest)),
{
    assert((bool_enc(b) + rest).drop_first() =~= rest);
}

pub fn write_bool(buf: &mut Vec<u8>, b: bool)
    ensures
        final(buf)@ == old(buf)@ + bool_enc(b),
{
    buf.push(if b {
        1u8
    } else {
        0u8
    });
    assert(buf@ =~= old(buf)@ + bool_enc(b));
}

// ---------------------------------------------------------------------------
// UTF-8 strings.
// ---------------------------------------------------------------------------

/// Relies on `String::from_utf8`: decodes exactly the given bytes, or fails
/// iff they are not valid UTF-8.
#[verifier::external_body]
pub(crate) fn string_from_utf8(b: Vec<u8>) -> (r: Option<String>)
    ensures
        match r {
            Some(s) => valid_utf8(b@) && encode_utf8(s@) == b@,
            None => !valid_utf8(b@),
        },
{
    match String::from_utf8(b) {
        Ok(s) => Some(s),
        Err(_) => None,
    }
}

// ---------------------------------------------------------------------------
// Consumption bounds: a successful parse always consumes at least one byte,
// which terminates the unknown-field skipper below.
// ---------------------------------------------------------------------------

proof fn lemma_varint_parse_rec_consumes(s: Seq<u8>, budget: nat)
    ensures
        varint_parse_rec(s, budget) matches Some(p) ==> p.1.len() < s.len(),
    decreases budget,
{
    if budget > 0 && s.len() > 0 && s[0] >= 128 {
        lemma_varint_parse_rec_consumes(s.drop_first(), (budget - 1) as nat);
    }
}

pub proof fn lemma_varint_parse_consumes(s: Seq<u8>)
    ensures
        varint_parse(s) matches Some(p) ==> p.1.len() < s.len(),
{
    lemma_varint_parse_rec_consumes(s, 10);
}

pub proof fn lemma_bytes_parse_consumes(s: Seq<u8>)
    ensures
        bytes_parse(s) matches Some(p) ==> p.1.len() < s.len(),
{
    lemma_varint_parse_consumes(s);
}

// ---------------------------------------------------------------------------
// Tagged fields. Every field of a record is its stable numeric tag (a
// varint) followed by its length-prefixed content, so a decoder can skip a
// field it does not know: new fields get new, higher numbers and are
// appended, and decoders discard them.
// ---------------------------------------------------------------------------

pub open spec fn field_enc(tag: u64, p: Seq<u8>) -> Seq<u8> {
    varint_enc(tag) + bytes_enc(p)
}

/// The content of the expected field and the remainder: the next field's
/// tag must be exactly `tag`.
pub open spec fn field_take(s: Seq<u8>, tag: u64) -> Option<(Seq<u8>, Seq<u8>)> {
    match varint_parse(s) {
        None => None,
        Some((t, r)) => if t == tag {
            bytes_parse(r)
        } else {
            None
        },
    }
}

pub proof fn lemma_field_take(tag: u64, p: Seq<u8>, rest: Seq<u8>)
    requires
        p.len() <= u64::MAX,
    ensures
        field_take(field_enc(tag, p) + rest, tag) == Some((p, rest)),
{
    assert(field_enc(tag, p) + rest =~= varint_enc(tag) + (bytes_enc(p) + rest));
    lemma_varint_round_trip(tag, bytes_enc(p) + rest);
    lemma_bytes_round_trip(p, rest);
}

/// True iff `s` is a run of well-formed fields whose tags all exceed
/// `maxtag`: fields a newer writer appended, which this decoder discards.
pub open spec fn skip_unknown(s: Seq<u8>, maxtag: u64) -> bool
    decreases s.len(),
    via skip_unknown_dec
{
    if s.len() == 0 {
        true
    } else {
        match varint_parse(s) {
            None => false,
            Some((t, r)) => if t > maxtag {
                match bytes_parse(r) {
                    None => false,
                    Some((p, r2)) => skip_unknown(r2, maxtag),
                }
            } else {
                false
            },
        }
    }
}

#[via_fn]
proof fn skip_unknown_dec(s: Seq<u8>, maxtag: u64) {
    lemma_varint_parse_consumes(s);
    match varint_parse(s) {
        Some((t, r)) => {
            lemma_bytes_parse_consumes(r);
        },
        None => {},
    }
}

/// Writes one tagged field: the tag, then the content length-prefixed.
pub fn write_field(buf: &mut Vec<u8>, tag: u64, content: &Vec<u8>)
    ensures
        final(buf)@ == old(buf)@ + field_enc(tag, content@),
{
    write_varint(buf, tag);
    write_bytes(buf, content);
    assert(buf@ =~= old(buf)@ + field_enc(tag, content@));
}

/// Reads the field with the expected tag, returning its content.
pub fn read_field(buf: &Vec<u8>, pos: usize, tag: u64) -> (r: Option<(Vec<u8>, usize)>)
    requires
        pos <= buf@.len(),
    ensures
        match r {
            Some(p) => pos <= p.1 <= buf@.len() && field_take(buf@.skip(pos as int), tag) == Some(
                (p.0@, buf@.skip(p.1 as int)),
            ),
            None => field_take(buf@.skip(pos as int), tag) is None,
        },
{
    match read_varint(buf, pos) {
        None => None,
        Some((t, mid)) => {
            if t != tag {
                return None;
            }
            read_bytes(buf, mid)
        },
    }
}

/// Consumes the rest of the record as unknown trailing fields.
pub fn read_skip_unknown(buf: &Vec<u8>, pos: usize, maxtag: u64) -> (r: bool)
    requires
        pos <= buf@.len(),
    ensures
        r == skip_unknown(buf@.skip(pos as int), maxtag),
{
    let mut cur = pos;
    while cur < buf.len()
        invariant
            pos <= cur <= buf@.len(),
            skip_unknown(buf@.skip(cur as int), maxtag) == skip_unknown(
                buf@.skip(pos as int),
                maxtag,
            ),
        decreases buf@.len() - cur,
    {
        let (t, mid) = match read_varint(buf, cur) {
            Some(x) => x,
            None => {
                return false;
            },
        };
        if t <= maxtag {
            return false;
        }
        let end = match read_bytes(buf, mid) {
            Some(x) => x.1,
            None => {
                return false;
            },
        };
        proof {
            lemma_varint_parse_consumes(buf@.skip(cur as int));
            lemma_bytes_parse_consumes(buf@.skip(mid as int));
        }
        cur = end;
    }
    proof {
        assert(buf@.skip(cur as int).len() == 0);
    }
    true
}

// ---------------------------------------------------------------------------
// Wire items: one trait for everything that can stand as a field's content,
// with a spec-level encoding, a spec-level parser of one whole delimited
// content buffer, and executable writer/reader proved equal to them. Lists
// and optional values compose generically on top.
// ---------------------------------------------------------------------------

pub trait Wire: Sized {
    /// The mathematical contents of a value.
    type VV;

    spec fn vv(self) -> Self::VV;

    /// The contents the encoding can carry faithfully (machine limits:
    /// lengths that fit the length prefixes).
    spec fn bounded(v: Self::VV) -> bool;

    spec fn enc(v: Self::VV) -> Seq<u8>;

    /// What one whole content buffer decodes to.
    spec fn parse(s: Seq<u8>) -> Option<Self::VV>;

    fn write(&self, buf: &mut Vec<u8>)
        ensures
            final(buf)@ == old(buf)@ + Self::enc(self.vv()),
    ;

    fn read(buf: &Vec<u8>) -> (r: Option<Self>)
        ensures
            match r {
                Some(v) => Self::parse(buf@) == Some(v.vv()),
                None => Self::parse(buf@) is None,
            },
    ;

    proof fn round_trip(v: Self::VV)
        requires
            Self::bounded(v),
        ensures
            Self::parse(Self::enc(v)) == Some(v),
    ;
}

impl Wire for u64 {
    type VV = u64;

    open spec fn vv(self) -> u64 {
        self
    }

    open spec fn bounded(v: u64) -> bool {
        true
    }

    open spec fn enc(v: u64) -> Seq<u8> {
        varint_enc(v)
    }

    open spec fn parse(s: Seq<u8>) -> Option<u64> {
        match varint_parse(s) {
            Some((x, rest)) => if rest.len() == 0 {
                Some(x)
            } else {
                None
            },
            None => None,
        }
    }

    fn write(&self, buf: &mut Vec<u8>) {
        write_varint(buf, *self);
    }

    fn read(buf: &Vec<u8>) -> (r: Option<u64>) {
        proof {
            assert(buf@.skip(0) =~= buf@);
        }
        match read_varint(buf, 0) {
            Some((x, end)) => {
                if end == buf.len() {
                    proof {
                        assert(buf@.skip(end as int).len() == 0);
                    }
                    Some(x)
                } else {
                    proof {
                        assert(buf@.skip(end as int).len() != 0);
                    }
                    None
                }
            },
            None => None,
        }
    }

    proof fn round_trip(v: u64) {
        lemma_varint_round_trip(v, Seq::empty());
        assert(varint_enc(v) + Seq::<u8>::empty() =~= varint_enc(v));
    }
}

impl Wire for String {
    type VV = Seq<char>;

    open spec fn vv(self) -> Seq<char> {
        self@
    }

    open spec fn bounded(v: Seq<char>) -> bool {
        encode_utf8(v).len() <= u64::MAX
    }

    open spec fn enc(v: Seq<char>) -> Seq<u8> {
        encode_utf8(v)
    }

    open spec fn parse(s: Seq<u8>) -> Option<Seq<char>> {
        if valid_utf8(s) {
            Some(decode_utf8(s))
        } else {
            None
        }
    }

    fn write(&self, buf: &mut Vec<u8>) {
        let bv = self.as_str().as_bytes_vec();
        write_raw(buf, &bv);
    }

    fn read(buf: &Vec<u8>) -> (r: Option<String>) {
        let owned = vstd::slice::slice_to_vec(buf.as_slice());
        let ghost bv = buf@;
        match string_from_utf8(owned) {
            Some(s) => {
                proof {
                    broadcast use encode_utf8_decode_utf8;

                    assert(decode_utf8(bv) == s@);
                }
                Some(s)
            },
            None => None,
        }
    }

    proof fn round_trip(v: Seq<char>) {
        broadcast use encode_utf8_valid_utf8, encode_utf8_decode_utf8;

    }
}

impl Wire for [u8; 8] {
    type VV = Seq<u8>;

    open spec fn vv(self) -> Seq<u8> {
        self@
    }

    open spec fn bounded(v: Seq<u8>) -> bool {
        v.len() == 8
    }

    open spec fn enc(v: Seq<u8>) -> Seq<u8> {
        v
    }

    open spec fn parse(s: Seq<u8>) -> Option<Seq<u8>> {
        if s.len() == 8 {
            Some(s)
        } else {
            None
        }
    }

    fn write(&self, buf: &mut Vec<u8>) {
        write_fixed8(buf, self);
    }

    fn read(buf: &Vec<u8>) -> (r: Option<[u8; 8]>) {
        if buf.len() != 8 {
            return None;
        }
        proof {
            assert(buf@.skip(0) =~= buf@);
        }
        match read_fixed8(buf, 0) {
            Some((a, _)) => {
                proof {
                    assert(buf@.take(8) =~= buf@);
                }
                Some(a)
            },
            None => None,
        }
    }

    proof fn round_trip(v: Seq<u8>) {
    }
}

/// The contents of each item of a list, in order.
pub open spec fn vvs_of<A: Wire>(s: Seq<A>) -> Seq<A::VV> {
    Seq::new(s.len(), |i: int| s[i].vv())
}

pub open spec fn opt_vv<A: Wire>(o: Option<A>) -> Option<A::VV> {
    match o {
        Some(x) => Some(x.vv()),
        None => None,
    }
}

/// List items, each length-prefixed so that a decoder that does not know
/// the item type could still skip over them.
pub open spec fn items_enc<A: Wire>(s: Seq<A::VV>) -> Seq<u8>
    decreases s.len(),
{
    if s.len() == 0 {
        Seq::empty()
    } else {
        bytes_enc(A::enc(s[0])) + items_enc::<A>(s.drop_first())
    }
}

pub open spec fn items_parse<A: Wire>(s: Seq<u8>, n: nat) -> Option<(Seq<A::VV>, Seq<u8>)>
    decreases n,
{
    if n == 0 {
        Some((Seq::empty(), s))
    } else {
        match bytes_parse(s) {
            None => None,
            Some((p, r)) => match A::parse(p) {
                None => None,
                Some(v) => match items_parse::<A>(r, (n - 1) as nat) {
                    None => None,
                    Some((vs, r2)) => Some((seq![v] + vs, r2)),
                },
            },
        }
    }
}

/// A list: an item count followed by the length-prefixed items, consuming
/// the whole content buffer.
pub open spec fn list_enc<A: Wire>(s: Seq<A::VV>) -> Seq<u8> {
    varint_enc(s.len() as u64) + items_enc::<A>(s)
}

pub open spec fn list_parse<A: Wire>(s: Seq<u8>) -> Option<Seq<A::VV>> {
    match varint_parse(s) {
        None => None,
        Some((n, rest)) => match items_parse::<A>(rest, n as nat) {
            Some((vs, rem)) => if rem.len() == 0 {
                Some(vs)
            } else {
                None
            },
            None => None,
        },
    }
}

pub proof fn lemma_items_round_trip<A: Wire>(s: Seq<A::VV>, rest: Seq<u8>)
    requires
        forall|i: int|
            0 <= i < s.len() ==> A::bounded(#[trigger] s[i]) && A::enc(s[i]).len() <= u64::MAX,
    ensures
        items_parse::<A>(items_enc::<A>(s) + rest, s.len()) == Some((s, rest)),
    decreases s.len(),
{
    if s.len() == 0 {
        assert(items_enc::<A>(s) + rest =~= rest);
    } else {
        let tail = s.drop_first();
        lemma_items_round_trip::<A>(tail, rest);
        assert(items_enc::<A>(s) + rest =~= bytes_enc(A::enc(s[0])) + (items_enc::<A>(tail)
            + rest));
        lemma_bytes_round_trip(A::enc(s[0]), items_enc::<A>(tail) + rest);
        A::round_trip(s[0]);
        assert(seq![s[0]] + tail =~= s);
    }
}

pub proof fn lemma_list_round_trip<A: Wire>(s: Seq<A::VV>)
    requires
        s.len() <= u64::MAX,
        forall|i: int|
            0 <= i < s.len() ==> A::bounded(#[trigger] s[i]) && A::enc(s[i]).len() <= u64::MAX,
    ensures
        list_parse::<A>(list_enc::<A>(s)) == Some(s),
{
    assert(list_enc::<A>(s) =~= varint_enc(s.len() as u64) + (items_enc::<A>(s)
        + Seq::<u8>::empty()));
    lemma_varint_round_trip(s.len() as u64, items_enc::<A>(s) + Seq::<u8>::empty());
    lemma_items_round_trip::<A>(s, Seq::empty());
}

pub proof fn lemma_items_enc_snoc<A: Wire>(s: Seq<A::VV>, x: A::VV)
    ensures
        items_enc::<A>(s.push(x)) == items_enc::<A>(s) + bytes_enc(A::enc(x)),
    decreases s.len(),
{
    if s.len() == 0 {
        assert(s.push(x)[0] == x);
        assert(s.push(x).drop_first() =~= Seq::<A::VV>::empty());
        assert(items_enc::<A>(Seq::<A::VV>::empty()) == Seq::<u8>::empty());
        assert(s =~= Seq::<A::VV>::empty());
        assert(items_enc::<A>(s.push(x)) =~= items_enc::<A>(s) + bytes_enc(A::enc(x)));
    } else {
        assert(s.push(x)[0] == s[0]);
        assert(s.push(x).drop_first() =~= s.drop_first().push(x));
        lemma_items_enc_snoc::<A>(s.drop_first(), x);
        assert(items_enc::<A>(s.push(x)) == bytes_enc(A::enc(s[0])) + items_enc::<A>(
            s.drop_first().push(x),
        ));
        assert(items_enc::<A>(s) == bytes_enc(A::enc(s[0])) + items_enc::<A>(s.drop_first()));
        assert(bytes_enc(A::enc(s[0])) + (items_enc::<A>(s.drop_first()) + bytes_enc(A::enc(x)))
            =~= (bytes_enc(A::enc(s[0])) + items_enc::<A>(s.drop_first())) + bytes_enc(
            A::enc(x),
        ));
    }
}

pub fn write_list<A: Wire>(buf: &mut Vec<u8>, v: &Vec<A>)
    ensures
        final(buf)@ == old(buf)@ + list_enc::<A>(vvs_of(v@)),
{
    write_varint(buf, v.len() as u64);
    let ghost mid = buf@;
    let mut i: usize = 0;
    while i < v.len()
        invariant
            i <= v@.len(),
            mid == old(buf)@ + varint_enc(v@.len() as u64),
            buf@ == mid + items_enc::<A>(vvs_of(v@).take(i as int)),
        decreases v@.len() - i,
    {
        let ghost pre = vvs_of(v@).take(i as int);
        let mut tmp: Vec<u8> = Vec::new();
        v[i].write(&mut tmp);
        write_bytes(buf, &tmp);
        proof {
            lemma_items_enc_snoc::<A>(pre, v@[i as int].vv());
            assert(vvs_of(v@).take(i as int + 1) =~= pre.push(v@[i as int].vv()));
            assert(buf@ =~= mid + items_enc::<A>(vvs_of(v@).take(i as int + 1)));
        }
        i = i + 1;
    }
    proof {
        assert(vvs_of(v@).take(v@.len() as int) =~= vvs_of(v@));
        assert(buf@ =~= old(buf)@ + list_enc::<A>(vvs_of(v@)));
    }
}

pub fn read_list<A: Wire>(buf: &Vec<u8>) -> (r: Option<Vec<A>>)
    ensures
        match r {
            Some(v) => list_parse::<A>(buf@) == Some(vvs_of(v@)),
            None => list_parse::<A>(buf@) is None,
        },
{
    proof {
        assert(buf@.skip(0) =~= buf@);
    }
    let (n, first) = match read_varint(buf, 0) {
        Some(x) => x,
        None => {
            return None;
        },
    };
    let mut acc: Vec<A> = Vec::new();
    let mut cur = first;
    let mut i: u64 = 0;
    while i < n
        invariant
            i <= n,
            cur <= buf@.len(),
            vvs_of(acc@).len() == i,
            varint_parse(buf@) == Some((n, buf@.skip(first as int))),
            match items_parse::<A>(buf@.skip(cur as int), (n - i) as nat) {
                Some(p) => items_parse::<A>(buf@.skip(first as int), n as nat) == Some(
                    (vvs_of(acc@) + p.0, p.1),
                ),
                None => items_parse::<A>(buf@.skip(first as int), n as nat) is None,
            },
        decreases n - i,
    {
        let (payload, next) = match read_bytes(buf, cur) {
            Some(x) => x,
            None => {
                return None;
            },
        };
        let item = match A::read(&payload) {
            Some(x) => x,
            None => {
                return None;
            },
        };
        let ghost itemv = item.vv();
        let ghost accpre = acc@;
        acc.push(item);
        proof {
            assert(vvs_of(acc@) =~= vvs_of(accpre).push(itemv));
            match items_parse::<A>(buf@.skip(next as int), (n - i - 1) as nat) {
                Some(p) => {
                    assert(items_parse::<A>(buf@.skip(cur as int), (n - i) as nat) == Some(
                        ((seq![itemv] + p.0, p.1)),
                    ));
                    assert(vvs_of(accpre) + (seq![itemv] + p.0) =~= vvs_of(acc@) + p.0);
                },
                None => {
                    assert(items_parse::<A>(buf@.skip(cur as int), (n - i) as nat) is None);
                },
            }
        }
        cur = next;
        i = i + 1;
    }
    if cur != buf.len() {
        proof {
            assert(buf@.skip(cur as int).len() != 0);
            assert(items_parse::<A>(buf@.skip(cur as int), 0) == Some(
                ((Seq::<A::VV>::empty(), buf@.skip(cur as int))),
            ));
        }
        return None;
    }
    proof {
        assert(items_parse::<A>(buf@.skip(cur as int), 0) == Some(
            ((Seq::<A::VV>::empty(), buf@.skip(cur as int))),
        ));
        assert(vvs_of(acc@) + Seq::<A::VV>::empty() =~= vvs_of(acc@));
        assert(buf@.skip(cur as int).len() == 0);
    }
    Some(acc)
}

/// An optional value: a presence byte, then the value if present, filling
/// the whole content buffer.
pub open spec fn opt_enc<A: Wire>(o: Option<A::VV>) -> Seq<u8> {
    match o {
        None => bool_enc(false),
        Some(v) => bool_enc(true) + A::enc(v),
    }
}

pub open spec fn opt_parse<A: Wire>(s: Seq<u8>) -> Option<Option<A::VV>> {
    match bool_parse(s) {
        None => None,
        Some((present, rest)) => if present {
            match A::parse(rest) {
                None => None,
                Some(v) => Some(Some(v)),
            }
        } else {
            if rest.len() == 0 {
                Some(None)
            } else {
                None
            }
        },
    }
}

pub proof fn lemma_opt_round_trip<A: Wire>(o: Option<A::VV>)
    requires
        o matches Some(v) ==> A::bounded(v),
    ensures
        opt_parse::<A>(opt_enc::<A>(o)) == Some(o),
{
    match o {
        None => {
            lemma_bool_round_trip(false, Seq::empty());
            assert(bool_enc(false) + Seq::<u8>::empty() =~= bool_enc(false));
        },
        Some(v) => {
            lemma_bool_round_trip(true, A::enc(v));
            A::round_trip(v);
        },
    }
}

pub fn write_opt<A: Wire>(buf: &mut Vec<u8>, o: &Option<A>)
    ensures
        final(buf)@ == old(buf)@ + opt_enc::<A>(opt_vv(*o)),
{
    match o {
        None => {
            write_bool(buf, false);
        },
        Some(v) => {
            write_bool(buf, true);
            v.write(buf);
            assert(buf@ =~= old(buf)@ + opt_enc::<A>(opt_vv(*o)));
        },
    }
}

pub fn read_opt<A: Wire>(buf: &Vec<u8>) -> (r: Option<Option<A>>)
    ensures
        match r {
            Some(o) => opt_parse::<A>(buf@) == Some(opt_vv(o)),
            None => opt_parse::<A>(buf@) is None,
        },
{
    proof {
        assert(buf@.skip(0) =~= buf@);
    }
    match read_bool(buf, 0) {
        None => None,
        Some((present, mid)) => {
            if present {
                let rest = vstd::slice::slice_to_vec(
                    vstd::slice::slice_subrange(buf.as_slice(), mid, buf.len()),
                );
                proof {
                    assert(rest@ =~= buf@.skip(mid as int));
                }
                match A::read(&rest) {
                    None => None,
                    Some(v) => Some(Some(v)),
                }
            } else {
                if mid != buf.len() {
                    proof {
                        assert(buf@.skip(mid as int).len() != 0);
                    }
                    return None;
                }
                proof {
                    assert(buf@.skip(mid as int).len() == 0);
                }
                Some(None)
            }
        },
    }
}

pub fn read_bool(buf: &Vec<u8>, pos: usize) -> (r: Option<(bool, usize)>)
    requires
        pos <= buf@.len(),
    ensures
        match r {
            Some(p) => pos <= p.1 <= buf@.len() && bool_parse(buf@.skip(pos as int)) == Some(
                (p.0, buf@.skip(p.1 as int)),
            ),
            None => bool_parse(buf@.skip(pos as int)) is None,
        },
{
    if pos == buf.len() {
        return None;
    }
    let b = buf[pos];
    assert(buf@.skip(pos as int)[0] == b);
    assert(buf@.skip(pos as int).drop_first() =~= buf@.skip(pos as int + 1));
    if b == 1 {
        Some((true, pos + 1))
    } else if b == 0 {
        Some((false, pos + 1))
    } else {
        None
    }
}

} // verus!
