//! The applier-version stamp: the semantic version of the process that
//! produced an encoded state or diff. The numeric triple, the pre-release
//! identifiers and the build metadata are all retained, and ordering
//! follows semantic-version precedence: the triple lexicographically, then
//! pre-release identifiers (a pre-release precedes its release; numeric
//! identifiers compare numerically and precede alphanumeric ones, which
//! compare in ASCII order; a shorter identifier list precedes a longer
//! prefix-equal one). Build metadata is carried through re-encoding but,
//! as the precedence rules prescribe, plays no part in ordering. Decoding
//! a record stamped by a newer version than the running process must
//! refuse to proceed (see the decode functions), so the ordering here is
//! the heart of the version gate.

use vstd::prelude::*;
use vstd::string::StringExecFns;
use vstd::string::StrSliceExecFns;

verus! {

/// The canonical decimal digits of `n`, most significant first.
pub open spec fn dec_chars(n: u64) -> Seq<char>
    decreases n,
{
    if n < 10 {
        seq![((n + 48) as u8) as char]
    } else {
        dec_chars(n / 10) + seq![(((n % 10) + 48) as u8) as char]
    }
}

pub proof fn lemma_dec_chars_len(n: u64)
    ensures
        dec_chars(n).len() >= 1,
    decreases n,
{
    if n >= 10 {
        lemma_dec_chars_len(n / 10);
    }
}

/// The contents of a list of identifier strings.
pub open spec fn strs_view(s: Seq<String>) -> Seq<Seq<char>> {
    Seq::new(s.len(), |i: int| s[i]@)
}

/// Identifiers joined by dots.
pub open spec fn join_idents(ids: Seq<Seq<char>>) -> Seq<char>
    decreases ids.len(),
{
    if ids.len() == 0 {
        Seq::empty()
    } else if ids.len() == 1 {
        ids[0]
    } else {
        ids[0] + seq!['.'] + join_idents(ids.drop_first())
    }
}

/// The `-pre` suffix, empty for a plain release.
pub open spec fn pre_suffix(ids: Seq<Seq<char>>) -> Seq<char> {
    if ids.len() == 0 {
        Seq::empty()
    } else {
        seq!['-'] + join_idents(ids)
    }
}

/// The `+build` suffix, empty without build metadata.
pub open spec fn build_suffix(ids: Seq<Seq<char>>) -> Seq<char> {
    if ids.len() == 0 {
        Seq::empty()
    } else {
        seq!['+'] + join_idents(ids)
    }
}

/// The canonical rendering of a semantic version:
/// `major.minor.patch[-pre][+build]`.
pub open spec fn version_chars(
    major: u64,
    minor: u64,
    patch: u64,
    pre: Seq<Seq<char>>,
    build: Seq<Seq<char>>,
) -> Seq<char> {
    dec_chars(major) + seq!['.'] + dec_chars(minor) + seq!['.'] + dec_chars(patch) + pre_suffix(
        pre,
    ) + build_suffix(build)
}

/// An identifier consisting only of decimal digits.
pub open spec fn is_num_ident(id: Seq<char>) -> bool {
    id.len() > 0 && (forall|i: int| 0 <= i < id.len() ==> 48 <= (#[trigger] id[i]) as u32 <= 57)
}

pub open spec fn ident_char_ok(c: char) -> bool {
    ||| 48 <= c as u32 <= 57
    ||| 65 <= c as u32 <= 90
    ||| 97 <= c as u32 <= 122
    ||| c == '-'
}

/// A well-formed build identifier: nonempty, ASCII alphanumeric or hyphen.
pub open spec fn ident_chars_wf(id: Seq<char>) -> bool {
    id.len() > 0 && (forall|i: int| 0 <= i < id.len() ==> ident_char_ok(#[trigger] id[i]))
}

/// A well-formed pre-release identifier additionally has no leading zero
/// when numeric.
pub open spec fn ident_wf(id: Seq<char>) -> bool {
    ident_chars_wf(id) && (is_num_ident(id) ==> (id[0] != '0' || id.len() == 1))
}

pub open spec fn pre_wf(ids: Seq<Seq<char>>) -> bool {
    forall|i: int| 0 <= i < ids.len() ==> ident_wf(#[trigger] ids[i])
}

pub open spec fn build_wf(ids: Seq<Seq<char>>) -> bool {
    forall|i: int| 0 <= i < ids.len() ==> ident_chars_wf(#[trigger] ids[i])
}

/// ASCII-lexicographic order on identifier characters; a proper prefix
/// precedes its extensions.
pub open spec fn lex_lt(a: Seq<char>, b: Seq<char>) -> bool
    decreases a.len(),
{
    if b.len() == 0 {
        false
    } else if a.len() == 0 {
        true
    } else if a[0] != b[0] {
        (a[0] as u32) < (b[0] as u32)
    } else {
        lex_lt(a.drop_first(), b.drop_first())
    }
}

/// Precedence of single identifiers: numerics compare numerically (by
/// length then digits, since well-formed numerics have no leading zeros)
/// and precede alphanumerics, which compare in ASCII order.
pub open spec fn ident_lt(a: Seq<char>, b: Seq<char>) -> bool {
    if is_num_ident(a) && is_num_ident(b) {
        a.len() < b.len() || (a.len() == b.len() && lex_lt(a, b))
    } else if is_num_ident(a) {
        true
    } else if is_num_ident(b) {
        false
    } else {
        lex_lt(a, b)
    }
}

/// Precedence of identifier lists, left to right; a shorter list precedes
/// a longer prefix-equal one.
pub open spec fn idents_lt(a: Seq<Seq<char>>, b: Seq<Seq<char>>) -> bool
    decreases a.len(),
{
    if a.len() == 0 {
        b.len() > 0
    } else if b.len() == 0 {
        false
    } else if a[0] == b[0] {
        idents_lt(a.drop_first(), b.drop_first())
    } else {
        ident_lt(a[0], b[0])
    }
}

/// Precedence of pre-release lists: a pre-release precedes its release.
pub open spec fn pre_lt(a: Seq<Seq<char>>, b: Seq<Seq<char>>) -> bool {
    if a.len() == 0 {
        false
    } else if b.len() == 0 {
        true
    } else {
        idents_lt(a, b)
    }
}

/// The mathematical contents of a [`Version`].
pub struct VersionView {
    pub major: u64,
    pub minor: u64,
    pub patch: u64,
    pub pre: Seq<Seq<char>>,
    pub build: Seq<Seq<char>>,
}

impl VersionView {
    /// Semantic-version precedence; build metadata is ignored.
    pub open spec fn lt_spec(self, other: VersionView) -> bool {
        ||| self.major < other.major
        ||| (self.major == other.major && self.minor < other.minor)
        ||| (self.major == other.major && self.minor == other.minor && self.patch < other.patch)
        ||| (self.major == other.major && self.minor == other.minor && self.patch == other.patch
            && pre_lt(self.pre, other.pre))
    }

    pub open spec fn wf(self) -> bool {
        pre_wf(self.pre) && build_wf(self.build)
    }
}

/// What `semver`'s parser makes of a string: the components of the parsed
/// version, or nothing if the string is not a semantic version.
pub uninterp spec fn parsed_version(s: Seq<char>) -> Option<VersionView>;

/// A semantic version: the numeric triple, the pre-release identifiers and
/// the build metadata identifiers (both lists empty for a plain release).
#[derive(Debug, PartialEq, Eq)]
pub struct Version {
    pub major: u64,
    pub minor: u64,
    pub patch: u64,
    pub pre: Vec<String>,
    pub build: Vec<String>,
}

impl View for Version {
    type V = VersionView;

    open spec fn view(&self) -> VersionView {
        VersionView {
            major: self.major,
            minor: self.minor,
            patch: self.patch,
            pre: strs_view(self.pre@),
            build: strs_view(self.build@),
        }
    }
}

impl Clone for Version {
    fn clone(&self) -> (r: Self)
        ensures
            r@ == self@,
    {
        let r = Version {
            major: self.major,
            minor: self.minor,
            patch: self.patch,
            pre: clone_idents(&self.pre),
            build: clone_idents(&self.build),
        };
        proof {
            assert(r@.pre =~= self@.pre);
            assert(r@.build =~= self@.build);
        }
        r
    }
}

fn clone_idents(v: &Vec<String>) -> (r: Vec<String>)
    ensures
        strs_view(r@) == strs_view(v@),
{
    let mut r: Vec<String> = Vec::new();
    let mut i: usize = 0;
    while i < v.len()
        invariant
            i <= v@.len(),
            r@.len() == i,
            forall|j: int| 0 <= j < i ==> (#[trigger] r@[j])@ == v@[j]@,
        decreases v@.len() - i,
    {
        r.push(v[i].clone());
        i = i + 1;
    }
    proof {
        assert(strs_view(r@) =~= strs_view(v@));
    }
    r
}

/// Relies on `semver::Version`'s `Display` impl: a version without
/// pre-release or build metadata prints as `major.minor.patch` in
/// canonical decimal; and on `semver::Version::parse`: that form — and
/// the same triple followed by any well-formed `-pre` and `+build`
/// identifier lists — parses back to the same components.
#[verifier::external_body]
fn semver_format(major: u64, minor: u64, patch: u64) -> (r: String)
    ensures
        r@ == dec_chars(major) + seq!['.'] + dec_chars(minor) + seq!['.'] + dec_chars(patch),
        forall|pre: Seq<Seq<char>>, build: Seq<Seq<char>>|
            pre_wf(pre) && build_wf(build) ==> parsed_version(
                r@ + pre_suffix(pre) + build_suffix(build),
            ) == Some((VersionView { major, minor, patch, pre, build })),
{
    semver::Version::new(major, minor, patch).to_string()
}

/// Relies on `semver::Version::parse`: returns the components of the
/// version the string denotes — the numeric triple and the dot-separated
/// pre-release and build identifiers, which the grammar guarantees
/// well-formed — or an error if it denotes none.
#[verifier::external_body]
fn semver_parse(s: &str) -> (r: Option<Version>)
    ensures
        match r {
            Some(v) => parsed_version(s@) == Some(v@) && pre_wf(v@.pre) && build_wf(v@.build),
            None => parsed_version(s@) is None,
        },
{
    let split = |x: &str| x.split('.').filter(|p| !p.is_empty()).map(str::to_owned).collect();
    match semver::Version::parse(s) {
        Ok(v) => Some(Version {
            major: v.major,
            minor: v.minor,
            patch: v.patch,
            pre: split(v.pre.as_str()),
            build: split(v.build.as_str()),
        }),
        Err(_) => None,
    }
}

proof fn lemma_join_snoc(ids: Seq<Seq<char>>, x: Seq<char>)
    requires
        ids.len() > 0,
    ensures
        join_idents(ids.push(x)) == join_idents(ids) + seq!['.'] + x,
    decreases ids.len(),
{
    if ids.len() == 1 {
        assert(ids.push(x)[0] == ids[0]);
        assert(ids.push(x).drop_first() =~= seq![x]);
        assert(join_idents(seq![x]) == x);
        assert(join_idents(ids.push(x)) == ids[0] + seq!['.'] + x);
    } else {
        assert(ids.push(x)[0] == ids[0]);
        assert(ids.push(x).drop_first() =~= ids.drop_first().push(x));
        lemma_join_snoc(ids.drop_first(), x);
        assert(ids[0] + seq!['.'] + (join_idents(ids.drop_first()) + seq!['.'] + x) =~= (ids[0]
            + seq!['.'] + join_idents(ids.drop_first())) + seq!['.'] + x);
    }
}

/// Appends `-` or `+` (as `sep`) and the dot-joined identifiers.
fn append_idents(s: &mut String, sep: &str, ids: &Vec<String>)
    requires
        ids@.len() > 0,
    ensures
        final(s)@ == old(s)@ + sep@ + join_idents(strs_view(ids@)),
{
    s.append(sep);
    s.append(ids[0].as_str());
    proof {
        assert(strs_view(ids@).take(1) =~= seq![ids@[0]@]);
        assert(join_idents(strs_view(ids@).take(1)) == ids@[0]@);
    }
    let mut i: usize = 1;
    while i < ids.len()
        invariant
            1 <= i <= ids@.len(),
            s@ == old(s)@ + sep@ + join_idents(strs_view(ids@).take(i as int)),
        decreases ids@.len() - i,
    {
        let ghost pre = strs_view(ids@).take(i as int);
        s.append(".");
        s.append(ids[i].as_str());
        proof {
            reveal_strlit(".");
            lemma_join_snoc(pre, ids@[i as int]@);
            assert(strs_view(ids@).take(i as int + 1) =~= pre.push(ids@[i as int]@));
            assert(s@ =~= old(s)@ + sep@ + join_idents(strs_view(ids@).take(i as int + 1)));
        }
        i = i + 1;
    }
    proof {
        assert(strs_view(ids@).take(ids@.len() as int) =~= strs_view(ids@));
    }
}

/// Compares a character range for numeric-identifier membership.
fn ident_is_numeric(id: &String) -> (r: bool)
    ensures
        r == is_num_ident(id@),
{
    let n = id.as_str().unicode_len();
    if n == 0 {
        return false;
    }
    let mut i: usize = 0;
    while i < n
        invariant
            i <= n,
            n == id@.len(),
            forall|j: int| 0 <= j < i ==> 48 <= (#[trigger] id@[j]) as u32 <= 57,
        decreases n - i,
    {
        let c = id.as_str().get_char(i);
        let cu = c as u32;
        if !(48 <= cu && cu <= 57) {
            return false;
        }
        i = i + 1;
    }
    true
}

/// ASCII-lexicographic comparison of two identifiers.
fn str_lex_lt(a: &String, b: &String) -> (r: bool)
    ensures
        r == lex_lt(a@, b@),
{
    let an = a.as_str().unicode_len();
    let bn = b.as_str().unicode_len();
    let mut i: usize = 0;
    proof {
        assert(a@.skip(0) =~= a@);
        assert(b@.skip(0) =~= b@);
    }
    while i < an && i < bn
        invariant
            i <= an && i <= bn,
            an == a@.len() && bn == b@.len(),
            lex_lt(a@.skip(i as int), b@.skip(i as int)) == lex_lt(a@, b@),
        decreases an - i,
    {
        let ca = a.as_str().get_char(i);
        let cb = b.as_str().get_char(i);
        proof {
            assert(a@.skip(i as int)[0] == ca);
            assert(b@.skip(i as int)[0] == cb);
            assert(a@.skip(i as int).drop_first() =~= a@.skip(i as int + 1));
            assert(b@.skip(i as int).drop_first() =~= b@.skip(i as int + 1));
        }
        if ca != cb {
            return (ca as u32) < (cb as u32);
        }
        i = i + 1;
    }
    proof {
        assert(a@.skip(i as int).len() == a@.len() - i);
        assert(b@.skip(i as int).len() == b@.len() - i);
    }
    i == an && i < bn
}

/// Precedence comparison of two identifiers.
fn ident_lt_exec(a: &String, b: &String) -> (r: bool)
    ensures
        r == ident_lt(a@, b@),
{
    let na = ident_is_numeric(a);
    let nb = ident_is_numeric(b);
    if na && nb {
        let alen = a.as_str().unicode_len();
        let blen = b.as_str().unicode_len();
        if alen != blen {
            alen < blen
        } else {
            str_lex_lt(a, b)
        }
    } else if na {
        true
    } else if nb {
        false
    } else {
        str_lex_lt(a, b)
    }
}

/// Precedence comparison of two identifier lists.
fn idents_lt_exec(a: &Vec<String>, b: &Vec<String>) -> (r: bool)
    ensures
        r == idents_lt(strs_view(a@), strs_view(b@)),
{
    let ghost av = strs_view(a@);
    let ghost bv = strs_view(b@);
    let mut i: usize = 0;
    proof {
        assert(av.skip(0) =~= av);
        assert(bv.skip(0) =~= bv);
    }
    while i < a.len() && i < b.len()
        invariant
            i <= a@.len() && i <= b@.len(),
            av == strs_view(a@) && bv == strs_view(b@),
            idents_lt(av.skip(i as int), bv.skip(i as int)) == idents_lt(av, bv),
        decreases a@.len() - i,
    {
        proof {
            assert(av.skip(i as int)[0] == a@[i as int]@);
            assert(bv.skip(i as int)[0] == b@[i as int]@);
            assert(av.skip(i as int).drop_first() =~= av.skip(i as int + 1));
            assert(bv.skip(i as int).drop_first() =~= bv.skip(i as int + 1));
        }
        if !(a[i] == b[i]) {
            return ident_lt_exec(&a[i], &b[i]);
        }
        i = i + 1;
    }
    proof {
        assert(av.skip(i as int).len() == av.len() - i);
        assert(bv.skip(i as int).len() == bv.len() - i);
    }
    i == a.len() && i < b.len()
}

impl Version {
    /// A plain release version: no pre-release, no build metadata.
    pub fn new(major: u64, minor: u64, patch: u64) -> (r: Version)
        ensures
            r@ == (VersionView {
                major,
                minor,
                patch,
                pre: Seq::<Seq<char>>::empty(),
                build: Seq::<Seq<char>>::empty(),
            }),
    {
        let r = Version { major, minor, patch, pre: Vec::new(), build: Vec::new() };
        proof {
            assert(r@.pre =~= Seq::<Seq<char>>::empty());
            assert(r@.build =~= Seq::<Seq<char>>::empty());
        }
        r
    }

    /// Semantic-version precedence.
    pub fn lt(&self, other: &Version) -> (r: bool)
        ensures
            r == self@.lt_spec(other@),
    {
        if self.major != other.major {
            return self.major < other.major;
        }
        if self.minor != other.minor {
            return self.minor < other.minor;
        }
        if self.patch != other.patch {
            return self.patch < other.patch;
        }
        if self.pre.len() == 0 {
            return false;
        }
        if other.pre.len() == 0 {
            return true;
        }
        idents_lt_exec(&self.pre, &other.pre)
    }

    /// The canonical `major.minor.patch[-pre][+build]` string of this
    /// version.
    pub fn into_proto(&self) -> (r: String)
        ensures
            r@ == version_chars(self.major, self.minor, self.patch, self@.pre, self@.build),
            self@.wf() ==> parsed_version(r@) == Some(self@),
            r@.len() > 0,
    {
        proof {
            lemma_dec_chars_len(self.major);
        }
        let mut s = semver_format(self.major, self.minor, self.patch);
        if self.pre.len() > 0 {
            proof {
                reveal_strlit("-");
            }
            append_idents(&mut s, "-", &self.pre);
        }
        if self.build.len() > 0 {
            proof {
                reveal_strlit("+");
            }
            append_idents(&mut s, "+", &self.build);
        }
        proof {
            assert(s@ =~= version_chars(self.major, self.minor, self.patch, self@.pre, self@.build));
            if self@.wf() {
                assert(version_chars(self.major, self.minor, self.patch, self@.pre, self@.build)
                    =~= (dec_chars(self.major) + seq!['.'] + dec_chars(self.minor) + seq!['.']
                    + dec_chars(self.patch)) + pre_suffix(self@.pre) + build_suffix(self@.build));
                assert((VersionView {
                    major: self.major,
                    minor: self.minor,
                    patch: self.patch,
                    pre: self@.pre,
                    build: self@.build,
                }) == self@);
            }
        }
        s
    }

    /// Parses a version string. The empty string is *not* handled here: the
    /// state decoders map it to `0.0.0` before calling this.
    pub fn from_proto(s: &str) -> (r: Option<Version>)
        ensures
            match r {
                Some(v) => parsed_version(s@) == Some(v@) && v@.wf(),
                None => parsed_version(s@) is None,
            },
    {
        semver_parse(s)
    }
}

} // verus!
