//! Numeric interpreter versions, not the complete package-version grammar.
//!
//! Accepts M.m.p with optional aN/bN/rcN; rejects epochs, dev/post/local versions,
//! whitespace, leading zeroes, and implicit prerelease serials.
use crate::error::{invalid_input, Error, ErrorKind, Result};
use crate::text::{
    all_ascii, all_digits, chars_of, is_component, component_value, count_digits, dec, digit_run, find_char, has_char,
    index_of, is_ascii_char, is_ascii_chars, is_digit, lemma_component_roundtrip, lemma_dec,
    lemma_dec_component, lemma_digit_run, lemma_digit_run_at, lemma_index_of,
    lemma_index_of_absent, lemma_index_of_concat, lower, lower_chars, lower_seq, parse_component,
    push_char, push_decimal, slice_chars,
};
use vstd::prelude::*;

verus! {

/// Maximum version input length in bytes.
pub const MAX_VERSION_LENGTH: usize = 64;

/// Release phases in chronological order, with numeric prerelease serials.
#[derive(Clone, Copy, Debug, PartialEq, Eq, Hash, PartialOrd, Ord, Structural)]
pub enum ReleaseLevel {
    /// Alpha release.
    Alpha(u32),
    /// Beta release.
    Beta(u32),
    /// Release candidate.
    Candidate(u32),
    /// Stable final release.
    Final,
}

/// An exact interpreter version with numeric ordering and canonical display.
#[derive(Clone, Copy, Debug, PartialEq, Eq, Hash, PartialOrd, Ord, Structural)]
pub struct PythonVersion {
    pub major: u32,
    pub minor: u32,
    pub patch: u32,
    pub release: ReleaseLevel,
}

/// Canonical spelling of a release phase: empty, `aN`, `bN` or `rcN`.
pub open spec fn release_text(r: ReleaseLevel) -> Seq<char> {
    match r {
        ReleaseLevel::Alpha(n) => seq!['a'] + dec(n as nat),
        ReleaseLevel::Beta(n) => seq!['b'] + dec(n as nat),
        ReleaseLevel::Candidate(n) => seq!['r', 'c'] + dec(n as nat),
        ReleaseLevel::Final => Seq::empty(),
    }
}

/// Canonical spelling of a version, e.g. `3.14.0rc1`.
pub open spec fn version_text(v: PythonVersion) -> Seq<char> {
    dec(v.major as nat) + seq!['.'] + dec(v.minor as nat) + seq!['.'] + dec(v.patch as nat)
        + release_text(v.release)
}

/// Sort key of a release phase: alpha < beta < candidate < final, then serial.
pub open spec fn release_key(r: ReleaseLevel) -> (int, int) {
    match r {
        ReleaseLevel::Alpha(n) => (0, n as int),
        ReleaseLevel::Beta(n) => (1, n as int),
        ReleaseLevel::Candidate(n) => (2, n as int),
        ReleaseLevel::Final => (3, 0),
    }
}

/// Chronological order of versions: numeric components, then release phase and serial.
pub open spec fn version_lt(a: PythonVersion, b: PythonVersion) -> bool {
    if a.major != b.major {
        a.major < b.major
    } else if a.minor != b.minor {
        a.minor < b.minor
    } else if a.patch != b.patch {
        a.patch < b.patch
    } else if release_key(a.release).0 != release_key(b.release).0 {
        release_key(a.release).0 < release_key(b.release).0
    } else {
        release_key(a.release).1 < release_key(b.release).1
    }
}

/// The version order is a strict total order.
pub proof fn version_order_is_total(a: PythonVersion, b: PythonVersion, c: PythonVersion)
    ensures
        !version_lt(a, a),
        a != b ==> (version_lt(a, b) || version_lt(b, a)),
        version_lt(a, b) ==> !version_lt(b, a),
        version_lt(a, b) && version_lt(b, c) ==> version_lt(a, c),
{
    if a != b && release_key(a.release) == release_key(b.release) {
        assert(a.release == b.release);
    }
}

impl PythonVersion {
    /// Creates a stable version; this does not assert that it exists upstream.
    pub fn new(major: u32, minor: u32, patch: u32) -> (v: Self)
        ensures
            v == (PythonVersion { major, minor, patch, release: ReleaseLevel::Final }),
    {
        PythonVersion { major, minor, patch, release: ReleaseLevel::Final }
    }

    /// Sets the release phase for metadata and comparison.
    pub fn with_release(self, release: ReleaseLevel) -> (v: Self)
        ensures
            v == (PythonVersion { release, ..self }),
    {
        PythonVersion { release, ..self }
    }

    /// Returns the major version.
    pub fn major(self) -> (r: u32)
        ensures
            r == self.major,
    {
        self.major
    }

    /// Returns the minor version.
    pub fn minor(self) -> (r: u32)
        ensures
            r == self.minor,
    {
        self.minor
    }

    /// Returns the patch version.
    pub fn patch(self) -> (r: u32)
        ensures
            r == self.patch,
    {
        self.patch
    }

    /// Returns the release phase.
    pub fn release(self) -> (r: ReleaseLevel)
        ensures
            r == self.release,
    {
        self.release
    }

    pub open spec fn spec_is_stable(self) -> bool {
        self.release is Final
    }

    /// Whether this is a final release.
    pub fn is_stable(self) -> (r: bool)
        ensures
            r == self.spec_is_stable(),
    {
        matches!(self.release, ReleaseLevel::Final)
    }

    /// Whether `self` comes strictly before `other` in release order.
    pub fn precedes(self, other: Self) -> (r: bool)
        ensures
            r == version_lt(self, other),
    {
        if self.major != other.major {
            return self.major < other.major;
        }
        if self.minor != other.minor {
            return self.minor < other.minor;
        }
        if self.patch != other.patch {
            return self.patch < other.patch;
        }
        let (ka, sa) = release_order(self.release);
        let (kb, sb) = release_order(other.release);
        if ka != kb {
            ka < kb
        } else {
            sa < sb
        }
    }

    /// Canonical display: `M.m.p` followed by `aN`, `bN` or `rcN` for prereleases.
    pub fn to_string(&self) -> (r: String)
        ensures
            r@ == version_text(*self),
    {
        let mut s = String::new();
        push_version(&mut s, *self);
        s
    }

    /// Parses an exact version; accepted inputs are exactly the canonical spellings,
    /// with prerelease letters in any ASCII case.
    pub fn parse(input: &str) -> (r: Result<Self>)
        ensures
            r matches Ok(v) ==> version_text(v) == lower_seq(input@),
            forall|v: PythonVersion|
                version_text(v) == lower_seq(input@) ==> r == Ok::<PythonVersion, Error>(v),
            r matches Err(e) ==> e.spec_kind() == ErrorKind::Usage && e.spec_message()
                == version_error(lower_seq(input@)) && e.spec_hint() == None::<Seq<char>>,
    {
        let cs = chars_of(input);
        let r = parse_version_chars(&cs);
        proof {
            lemma_parse_version_sound(lower_seq(input@));
            assert forall|v: PythonVersion| version_text(v) == lower_seq(input@) implies r == Ok::<
                PythonVersion,
                Error,
            >(v) by {
                lemma_parse_version_complete(v);
            }
        }
        r
    }
}

fn release_order(r: ReleaseLevel) -> (k: (u8, u32))
    ensures
        k.0 as int == release_key(r).0,
        k.1 as int == release_key(r).1,
{
    match r {
        ReleaseLevel::Alpha(n) => (0, n),
        ReleaseLevel::Beta(n) => (1, n),
        ReleaseLevel::Candidate(n) => (2, n),
        ReleaseLevel::Final => (3, 0),
    }
}

/// Appends the canonical spelling of a version.
pub fn push_version(s: &mut String, v: PythonVersion)
    ensures
        final(s)@ == old(s)@ + version_text(v),
{
    push_decimal(s, v.major);
    push_char(s, '.');
    push_decimal(s, v.minor);
    push_char(s, '.');
    push_decimal(s, v.patch);
    match v.release {
        ReleaseLevel::Alpha(n) => {
            push_char(s, 'a');
            push_decimal(s, n);
        },
        ReleaseLevel::Beta(n) => {
            push_char(s, 'b');
            push_decimal(s, n);
        },
        ReleaseLevel::Candidate(n) => {
            push_char(s, 'r');
            push_char(s, 'c');
            push_decimal(s, n);
        },
        ReleaseLevel::Final => {},
    }
    proof {
        assert(final(s)@ =~= old(s)@ + version_text(v));
    }
}

// ---------------------------------------------------------------------------
// Grammar
// ---------------------------------------------------------------------------

/// The release phase a lowercase suffix denotes.
pub open spec fn parse_suffix(s: Seq<char>) -> Option<ReleaseLevel> {
    if s.len() == 0 {
        Some(ReleaseLevel::Final)
    } else if s.len() >= 2 && s[0] == 'r' && s[1] == 'c' {
        match component_value(s.skip(2)) {
            Some(n) => Some(ReleaseLevel::Candidate(n)),
            None => None,
        }
    } else if s[0] == 'a' {
        match component_value(s.skip(1)) {
            Some(n) => Some(ReleaseLevel::Alpha(n)),
            None => None,
        }
    } else if s[0] == 'b' {
        match component_value(s.skip(1)) {
            Some(n) => Some(ReleaseLevel::Beta(n)),
            None => None,
        }
    } else {
        None
    }
}

/// Structural reading of a lowercase version text: three dot-separated fields,
/// where the last one is a patch number followed by an optional suffix.
pub open spec fn spec_parse_version(t: Seq<char>) -> Option<PythonVersion> {
    let i1 = index_of(t, '.');
    let r1 = t.skip(i1 + 1);
    let i2 = index_of(r1, '.');
    let tail = r1.skip(i2 + 1);
    let p = digit_run(tail) as int;
    if t.len() > MAX_VERSION_LENGTH || !all_ascii(t) || i1 < 0 || i2 < 0 || index_of(tail, '.')
        >= 0 {
        None
    } else {
        match (
            component_value(t.take(i1)),
            component_value(r1.take(i2)),
            component_value(tail.take(p)),
            parse_suffix(tail.skip(p)),
        ) {
            (Some(major), Some(minor), Some(patch), Some(release)) => Some(
                PythonVersion { major, minor, patch, release },
            ),
            _ => None,
        }
    }
}

fn parse_suffix_chars(s: &[char]) -> (r: Option<ReleaseLevel>)
    ensures
        r == parse_suffix(s@),
{
    if s.len() == 0 {
        return Some(ReleaseLevel::Final);
    }
    if s.len() >= 2 && s[0] == 'r' && s[1] == 'c' {
        let rest = slice_chars(s, 2, s.len());
        assert(rest@ == s@.skip(2));
        return match parse_component(&rest) {
            Some(n) => Some(ReleaseLevel::Candidate(n)),
            None => None,
        };
    }
    let rest = slice_chars(s, 1, s.len());
    assert(rest@ == s@.skip(1));
    if s[0] == 'a' {
        match parse_component(&rest) {
            Some(n) => Some(ReleaseLevel::Alpha(n)),
            None => None,
        }
    } else if s[0] == 'b' {
        match parse_component(&rest) {
            Some(n) => Some(ReleaseLevel::Beta(n)),
            None => None,
        }
    } else {
        None
    }
}

pub(crate) fn parse_version_lower(t: &[char]) -> (r: Option<PythonVersion>)
    ensures
        r == spec_parse_version(t@),
{
    if t.len() > MAX_VERSION_LENGTH || !is_ascii_chars(t) {
        return None;
    }
    let i1 = match find_char(t, '.') {
        Some(i) => i,
        None => return None,
    };
    let r1 = slice_chars(t, i1 + 1, t.len());
    assert(r1@ == t@.skip(i1 + 1));
    let i2 = match find_char(&r1, '.') {
        Some(i) => i,
        None => return None,
    };
    let tail = slice_chars(&r1, i2 + 1, r1.len());
    assert(tail@ == r1@.skip(i2 + 1));
    if find_char(&tail, '.').is_some() {
        return None;
    }
    let p = count_digits(&tail);
    let major_text = slice_chars(t, 0, i1);
    let minor_text = slice_chars(&r1, 0, i2);
    let patch_text = slice_chars(&tail, 0, p);
    let suffix = slice_chars(&tail, p, tail.len());
    assert(major_text@ == t@.take(i1 as int));
    assert(minor_text@ == r1@.take(i2 as int));
    assert(patch_text@ == tail@.take(p as int));
    assert(suffix@ == tail@.skip(p as int));
    match (
        parse_component(&major_text),
        parse_component(&minor_text),
        parse_component(&patch_text),
        parse_suffix_chars(&suffix),
    ) {
        (Some(major), Some(minor), Some(patch), Some(release)) => Some(
            PythonVersion { major, minor, patch, release },
        ),
        _ => None,
    }
}

pub open spec fn ascii_length_message() -> Seq<char> {
    "Python version must be ASCII and at most 64 bytes"@
}

pub open spec fn digits_message() -> Seq<char> {
    "Version numbers require decimal digits without leading zeroes"@
}

pub open spec fn u32_limit_message() -> Seq<char> {
    "Version component exceeds the u32 limit"@
}

pub open spec fn exact_form_message() -> Seq<char> {
    "Expected an exact version: major.minor.patch"@
}

pub open spec fn three_components_message() -> Seq<char> {
    "Expected exactly three version components"@
}

pub open spec fn suffix_message() -> Seq<char> {
    "Only aN, bN, and rcN version suffixes are supported"@
}

/// One to ten digits without a leading zero: a component but for its size.
pub open spec fn component_shape(s: Seq<char>) -> bool {
    &&& 1 <= s.len() <= 10
    &&& all_digits(s)
    &&& (s.len() > 1 ==> s[0] != '0')
}

/// Why a text is no component, or `None` when it is one.
pub open spec fn component_error(s: Seq<char>) -> Option<Seq<char>> {
    if is_component(s) {
        None
    } else if component_shape(s) {
        Some(u32_limit_message())
    } else {
        Some(digits_message())
    }
}

/// Why a lowercase suffix names no release phase, or `None` when it names one.
pub open spec fn suffix_error(s: Seq<char>) -> Option<Seq<char>> {
    if s.len() == 0 {
        None
    } else if s.len() >= 2 && s[0] == 'r' && s[1] == 'c' {
        component_error(s.skip(2))
    } else if s[0] == 'a' || s[0] == 'b' {
        component_error(s.skip(1))
    } else {
        Some(suffix_message())
    }
}

/// The diagnostic for a version text, checked in reading order: length and
/// ASCII, major, minor, the presence of a third field, no fourth field, patch,
/// then the suffix.
pub open spec fn version_error(t: Seq<char>) -> Seq<char> {
    let i1 = index_of(t, '.');
    let major = if i1 < 0 { t } else { t.take(i1) };
    let r1 = t.skip(i1 + 1);
    let i2 = index_of(r1, '.');
    let minor = if i1 < 0 { Seq::<char>::empty() } else if i2 < 0 { r1 } else { r1.take(i2) };
    let tail = r1.skip(i2 + 1);
    let p = digit_run(tail) as int;
    if t.len() > MAX_VERSION_LENGTH || !all_ascii(t) {
        ascii_length_message()
    } else if component_error(major) is Some {
        component_error(major).unwrap()
    } else if component_error(minor) is Some {
        component_error(minor).unwrap()
    } else if i2 < 0 {
        exact_form_message()
    } else if index_of(tail, '.') >= 0 {
        three_components_message()
    } else if component_error(tail.take(p)) is Some {
        component_error(tail.take(p)).unwrap()
    } else if suffix_error(tail.skip(p)) is Some {
        suffix_error(tail.skip(p)).unwrap()
    } else {
        suffix_message()
    }
}

fn component_error_text(s: &[char]) -> (r: Option<&'static str>)
    ensures
        match r {
            Some(m) => component_error(s@) == Some(m@),
            None => component_error(s@) is None,
        },
{
    if parse_component(s).is_some() {
        return None;
    }
    let digits = count_digits(s);
    let shaped = 1 <= s.len() && s.len() <= 10 && digits == s.len() && (s.len() == 1 || s[0]
        != '0');
    proof {
        lemma_digit_run(s@);
        if digits < s.len() {
            assert(!is_digit(s@[digits as int]));
        }
    }
    if shaped {
        Some("Version component exceeds the u32 limit")
    } else {
        Some("Version numbers require decimal digits without leading zeroes")
    }
}

fn suffix_error_text(s: &[char]) -> (r: Option<&'static str>)
    ensures
        match r {
            Some(m) => suffix_error(s@) == Some(m@),
            None => suffix_error(s@) is None,
        },
{
    if s.len() == 0 {
        return None;
    }
    if s.len() >= 2 && s[0] == 'r' && s[1] == 'c' {
        let rest = slice_chars(s, 2, s.len());
        assert(rest@ == s@.skip(2));
        return component_error_text(&rest);
    }
    if s[0] == 'a' || s[0] == 'b' {
        let rest = slice_chars(s, 1, s.len());
        assert(rest@ == s@.skip(1));
        return component_error_text(&rest);
    }
    Some("Only aN, bN, and rcN version suffixes are supported")
}

/// The diagnostic for a lowercase version text that does not parse.
fn version_error_text(t: &[char]) -> (r: &'static str)
    ensures
        r@ == version_error(t@),
{
    if t.len() > MAX_VERSION_LENGTH || !is_ascii_chars(t) {
        return "Python version must be ASCII and at most 64 bytes";
    }
    let found1 = find_char(t, '.');
    let (major, r1) = match found1 {
        Some(i) => (slice_chars(t, 0, i), slice_chars(t, i + 1, t.len())),
        None => (slice_chars(t, 0, t.len()), Vec::new()),
    };
    proof {
        if index_of(t@, '.') < 0 {
            assert(major@ =~= t@);
        } else {
            assert(major@ =~= t@.take(index_of(t@, '.')));
        }
    }
    if let Some(m) = component_error_text(&major) {
        return m;
    }
    if found1.is_none() {
        // Without a dot the minor number is empty.
        return "Version numbers require decimal digits without leading zeroes";
    }
    assert(r1@ =~= t@.skip(index_of(t@, '.') + 1));
    let found2 = find_char(&r1, '.');
    let minor = match found2 {
        Some(i) => slice_chars(&r1, 0, i),
        None => slice_chars(&r1, 0, r1.len()),
    };
    proof {
        if index_of(r1@, '.') < 0 {
            assert(minor@ =~= r1@);
        }
    }
    if let Some(m) = component_error_text(&minor) {
        return m;
    }
    let i2 = match found2 {
        Some(i) => i,
        None => return "Expected an exact version: major.minor.patch",
    };
    let tail = slice_chars(&r1, i2 + 1, r1.len());
    assert(tail@ =~= r1@.skip(i2 + 1));
    if find_char(&tail, '.').is_some() {
        return "Expected exactly three version components";
    }
    let p = count_digits(&tail);
    let patch = slice_chars(&tail, 0, p);
    let suffix = slice_chars(&tail, p, tail.len());
    assert(patch@ =~= tail@.take(p as int));
    assert(suffix@ =~= tail@.skip(p as int));
    if let Some(m) = component_error_text(&patch) {
        return m;
    }
    match suffix_error_text(&suffix) {
        Some(m) => m,
        None => "Only aN, bN, and rcN version suffixes are supported",
    }
}

/// Parses a version from its characters in any case.
pub fn parse_version_chars(cs: &[char]) -> (r: Result<PythonVersion>)
    ensures
        match r {
            Ok(v) => spec_parse_version(lower_seq(cs@)) == Some(v),
            Err(e) => spec_parse_version(lower_seq(cs@)) is None && e.spec_kind()
                == ErrorKind::Usage && e.spec_message() == version_error(lower_seq(cs@))
                && e.spec_hint() == None::<Seq<char>>,
        },
{
    let t = lower_chars(cs);
    match parse_version_lower(&t) {
        Some(v) => Ok(v),
        None => Err(invalid_input(version_error_text(&t))),
    }
}

pub proof fn lemma_release_text(r: ReleaseLevel)
    ensures
        release_text(r).len() <= 12,
        all_ascii(release_text(r)),
        lower_seq(release_text(r)) == release_text(r),
        !has_char(release_text(r), '.'),
        !has_char(release_text(r), '@'),
        release_text(r).len() > 0 ==> !is_digit(release_text(r)[0]),
        parse_suffix(release_text(r)) == Some(r),
{
    match r {
        ReleaseLevel::Final => {
            assert(lower_seq(release_text(r)) =~= release_text(r));
        },
        ReleaseLevel::Alpha(n) => {
            lemma_prefixed_number(seq!['a'], n);
        },
        ReleaseLevel::Beta(n) => {
            lemma_prefixed_number(seq!['b'], n);
        },
        ReleaseLevel::Candidate(n) => {
            lemma_prefixed_number(seq!['r', 'c'], n);
        },
    }
}

proof fn lemma_prefixed_number(p: Seq<char>, n: u32)
    requires
        1 <= p.len() <= 2,
        forall|i: int| 0 <= i < p.len() ==> 'a' <= #[trigger] p[i] <= 'z',
    ensures
        (p + dec(n as nat)).len() <= 12,
        all_ascii(p + dec(n as nat)),
        lower_seq(p + dec(n as nat)) == p + dec(n as nat),
        !has_char(p + dec(n as nat), '.'),
        !has_char(p + dec(n as nat), '@'),
        (p + dec(n as nat)).skip(p.len() as int) == dec(n as nat),
        component_value(dec(n as nat)) == Some(n),
{
    let s = p + dec(n as nat);
    lemma_dec_component(n as nat);
    lemma_dec(n as nat);
    assert(s.skip(p.len() as int) =~= dec(n as nat));
    assert forall|i: int| 0 <= i < s.len() implies is_ascii_char(#[trigger] s[i]) && lower(s[i])
        == s[i] && s[i] != '.' && s[i] != '@' by {
        if i >= p.len() {
            assert(s[i] == dec(n as nat)[i - p.len()]);
            assert(is_digit(dec(n as nat)[i - p.len()]));
        }
    }
    assert(lower_seq(s) =~= s);
}

/// Every version's canonical spelling reads back as that version.
pub proof fn lemma_parse_version_complete(v: PythonVersion)
    ensures
        spec_parse_version(version_text(v)) == Some(v),
        version_text(v).len() <= MAX_VERSION_LENGTH,
        all_ascii(version_text(v)),
        lower_seq(version_text(v)) == version_text(v),
{
    let a = dec(v.major as nat);
    let b = dec(v.minor as nat);
    let c = dec(v.patch as nat);
    let rel = release_text(v.release);
    lemma_dec(v.major as nat);
    lemma_dec(v.minor as nat);
    lemma_dec(v.patch as nat);
    lemma_dec_component(v.major as nat);
    lemma_dec_component(v.minor as nat);
    lemma_dec_component(v.patch as nat);
    lemma_release_text(v.release);
    let t = version_text(v);
    let r1 = b + seq!['.'] + c + rel;
    let tail = c + rel;
    assert(t =~= a + seq!['.'] + r1);
    lemma_index_of_concat(a, '.', r1);
    assert(t.skip(a.len() as int + 1) =~= r1);
    assert(r1 =~= b + seq!['.'] + tail);
    lemma_index_of_concat(b, '.', tail);
    assert(r1.skip(b.len() as int + 1) =~= tail);
    assert(!has_char(tail, '.')) by {
        if has_char(tail, '.') {
            let i = choose|i: int| 0 <= i < tail.len() && tail[i] == '.';
            if i < c.len() {
                assert(tail[i] == c[i]);
            } else {
                assert(tail[i] == rel[i - c.len()]);
            }
        }
    }
    lemma_index_of_absent(tail, '.');
    assert forall|j: int| 0 <= j < c.len() implies is_digit(#[trigger] tail[j]) by {
        assert(tail[j] == c[j]);
    }
    if c.len() < tail.len() {
        assert(tail[c.len() as int] == rel[0]);
    }
    lemma_digit_run_at(tail, c.len() as int);
    assert(t.take(a.len() as int) =~= a);
    assert(r1.take(b.len() as int) =~= b);
    assert(tail.take(c.len() as int) =~= c);
    assert(tail.skip(c.len() as int) =~= rel);
    assert forall|i: int| 0 <= i < t.len() implies is_ascii_char(#[trigger] t[i]) && lower(t[i])
        == t[i] by {
        let k = i - a.len() - 1;
        if i < a.len() {
            assert(t[i] == a[i]);
        } else if i == a.len() {
        } else if k < b.len() {
            assert(t[i] == b[k]);
        } else if k == b.len() {
        } else if k - b.len() - 1 < c.len() {
            assert(t[i] == c[k - b.len() - 1]);
        } else {
            assert(t[i] == rel[k - b.len() - 1 - c.len()]);
            assert(lower_seq(rel)[k - b.len() - 1 - c.len()] == rel[k - b.len() - 1 - c.len()]);
        }
    }
    assert(lower_seq(t) =~= t);
}

proof fn lemma_parse_suffix_sound(s: Seq<char>)
    ensures
        parse_suffix(s) matches Some(r) ==> release_text(r) == s,
{
    if let Some(r) = parse_suffix(s) {
        if s.len() >= 2 && s[0] == 'r' && s[1] == 'c' {
            lemma_component_roundtrip(s.skip(2));
            assert(s =~= seq!['r', 'c'] + s.skip(2));
        } else if s.len() > 0 {
            lemma_component_roundtrip(s.skip(1));
            assert(s =~= seq![s[0]] + s.skip(1));
        } else {
            assert(s =~= Seq::<char>::empty());
        }
    }
}

proof fn lemma_reassemble(t: Seq<char>, i1: int, i2: int, p: int, v: PythonVersion)
    requires
        0 <= i1 < t.len(),
        t[i1] == '.',
        0 <= i2 < t.skip(i1 + 1).len(),
        t.skip(i1 + 1)[i2] == '.',
        0 <= p <= t.skip(i1 + 1).skip(i2 + 1).len(),
        dec(v.major as nat) == t.take(i1),
        dec(v.minor as nat) == t.skip(i1 + 1).take(i2),
        dec(v.patch as nat) == t.skip(i1 + 1).skip(i2 + 1).take(p),
        release_text(v.release) == t.skip(i1 + 1).skip(i2 + 1).skip(p),
    ensures
        version_text(v) == t,
{
    let r1 = t.skip(i1 + 1);
    let tail = r1.skip(i2 + 1);
    assert(t =~= t.take(i1) + seq!['.'] + r1);
    assert(r1 =~= r1.take(i2) + seq!['.'] + tail);
    assert(tail =~= tail.take(p) + tail.skip(p));
    assert(version_text(v) =~= t);
}

/// Whatever reads as a version is that version's canonical spelling.
pub proof fn lemma_parse_version_sound(t: Seq<char>)
    ensures
        spec_parse_version(t) matches Some(v) ==> version_text(v) == t,
{
    let i1 = index_of(t, '.');
    let r1 = t.skip(i1 + 1);
    let i2 = index_of(r1, '.');
    let tail = r1.skip(i2 + 1);
    let p = digit_run(tail) as int;
    let s = tail.skip(p);
    if let Some(v) = spec_parse_version(t) {
        assert(component_value(t.take(i1)) == Some(v.major));
        assert(component_value(r1.take(i2)) == Some(v.minor));
        assert(component_value(tail.take(p)) == Some(v.patch));
        assert(parse_suffix(s) == Some(v.release));
        lemma_index_of(t, '.');
        lemma_index_of(r1, '.');
        lemma_digit_run(tail);
        lemma_component_roundtrip(t.take(i1));
        lemma_component_roundtrip(r1.take(i2));
        lemma_component_roundtrip(tail.take(p));
        lemma_parse_suffix_sound(s);
        lemma_reassemble(t, i1, i2, p, v);
    }
}

/// The canonical spelling of a version consists of digits, dots and release letters.
pub proof fn lemma_version_text_no_at(v: PythonVersion)
    ensures
        !has_char(version_text(v), '@'),
{
    let a = dec(v.major as nat);
    let b = dec(v.minor as nat);
    let c = dec(v.patch as nat);
    let rel = release_text(v.release);
    lemma_dec(v.major as nat);
    lemma_dec(v.minor as nat);
    lemma_dec(v.patch as nat);
    lemma_release_text(v.release);
    let t = version_text(v);
    assert forall|i: int| 0 <= i < t.len() implies t[i] != '@' by {
        let k = i - a.len() - 1;
        if i < a.len() {
            assert(t[i] == a[i]);
            assert(is_digit(a[i]));
        } else if i == a.len() {
        } else if k < b.len() {
            assert(t[i] == b[k]);
            assert(is_digit(b[k]));
        } else if k == b.len() {
        } else if k - b.len() - 1 < c.len() {
            assert(t[i] == c[k - b.len() - 1]);
            assert(is_digit(c[k - b.len() - 1]));
        } else {
            assert(t[i] == rel[k - b.len() - 1 - c.len()]);
        }
    }
}

/// Canonical display and parsing are inverse: every version reads back from its display.
pub proof fn version_display_round_trips(v: PythonVersion)
    ensures
        spec_parse_version(lower_seq(version_text(v))) == Some(v),
{
    lemma_parse_version_complete(v);
}

/// Distinct versions have distinct canonical spellings.
pub proof fn version_text_is_injective(a: PythonVersion, b: PythonVersion)
    requires
        version_text(a) == version_text(b),
    ensures
        a == b,
{
    lemma_parse_version_complete(a);
    lemma_parse_version_complete(b);
}

impl core::str::FromStr for PythonVersion {
    type Err = Error;

    fn from_str(input: &str) -> (r: core::result::Result<Self, Error>)
        ensures
            r matches Ok(v) ==> version_text(v) == lower_seq(input@),
            forall|v: PythonVersion|
                version_text(v) == lower_seq(input@) ==> r == Ok::<PythonVersion, Error>(v),
            r matches Err(e) ==> e.spec_kind() == ErrorKind::Usage,
    {
        PythonVersion::parse(input)
    }
}

} // verus!
