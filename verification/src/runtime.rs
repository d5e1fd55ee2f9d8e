//! Python runtime identity, registration metadata, and ownership types.
use crate::error::{invalid_input, Error, ErrorKind, Result};
use crate::paths::{spec_valid_runtime_path, validate_path};
use crate::text::{
    all_ascii, all_hex, chars_eq, chars_eq_str, chars_of, find_char, has_char, hex_fixed,
    hex_value, index_of, is_ascii_char, is_ascii_chars, is_digit, is_hex_digit, lemma_hex_canonical,
    lemma_hex_fixed, lemma_index_of, lemma_index_of_absent, lemma_index_of_concat,
    lemma_lower_idempotent, lemma_lower_subrange, lemma_pow16_32, lower, lower_chars, lower_seq,
    pow16, push_char, push_chars, push_hex_fixed, push_str, slice_chars, starts_with_str,
    string_of, text_le, text_le_chars, lemma_text_le_facts,
};
use crate::version::{
    lemma_parse_version_complete, lemma_parse_version_sound, lemma_version_text_no_at,
    parse_version_lower, push_version,
    spec_parse_version, version_text, PythonVersion,
};
use vstd::prelude::*;

verus! {

/// Maximum runtime ID length in bytes.
pub const MAX_RUNTIME_ID_LENGTH: usize = 128;

/// Maximum alias length in bytes.
pub const MAX_ALIAS_LENGTH: usize = 64;

/// Python implementation supported by the MVP.
#[derive(Clone, Copy, Debug, PartialEq, Eq, Hash, PartialOrd, Ord, Structural)]
pub enum Implementation {
    /// Standard `CPython`.
    Cpython,
}

/// Processor architecture supported by the MVP.
#[derive(Clone, Copy, Debug, PartialEq, Eq, Hash, PartialOrd, Ord, Structural)]
pub enum Architecture {
    /// 64-bit x86.
    X64,
}

/// Build variant, separate from the version's release phase.
#[derive(Clone, Copy, Debug, PartialEq, Eq, Hash, PartialOrd, Ord, Structural)]
pub enum RuntimeVariant {
    /// Standard build (not debug or free-threaded).
    Standard,
}

// ---------------------------------------------------------------------------
// Installation identifiers
// ---------------------------------------------------------------------------

/// A nonzero 128-bit installation identifier, displayed as 32 lowercase hex digits.
///
/// The registry must generate IDs and check uniqueness; this type provides no randomness.
#[derive(Clone, Copy, Debug, PartialEq, Eq, Hash, PartialOrd, Ord, Structural)]
pub struct InstallationId(u128);

/// Canonical spelling of an installation identifier value.
pub open spec fn installation_text(value: u128) -> Seq<char> {
    hex_fixed(value as nat, 32)
}

impl InstallationId {
    pub closed spec fn spec_value(self) -> u128 {
        self.0
    }

    /// Constructs an identifier from a nonzero value; zero is reserved for missing IDs.
    pub fn new(value: u128) -> (r: Result<Self>)
        ensures
            value != 0 ==> (r matches Ok(id) && id.spec_value() == value),
            value == 0 ==> (r matches Err(e) && e.spec_kind() == ErrorKind::Usage),
    {
        if value == 0 {
            return Err(invalid_input("Installation ID must not be zero"));
        }
        Ok(InstallationId(value))
    }

    /// Returns the numeric identifier.
    pub fn value(self) -> (r: u128)
        ensures
            r == self.spec_value(),
    {
        self.0
    }

    /// 32 lowercase hexadecimal digits.
    pub fn to_string(&self) -> (r: String)
        ensures
            r@ == installation_text(self.spec_value()),
    {
        let mut s = String::new();
        push_hex_fixed(&mut s, self.0, 32);
        s
    }

    /// Parses exactly 32 hexadecimal digits in any case denoting a nonzero value.
    pub fn parse(input: &str) -> (r: Result<Self>)
        ensures
            r matches Ok(id) ==> id.spec_value() != 0 && installation_text(id.spec_value())
                == lower_seq(input@),
            forall|v: u128|
                v != 0 && installation_text(v) == lower_seq(input@) ==> (r matches Ok(id)
                    && id.spec_value() == v),
            r matches Err(e) ==> e.spec_kind() == ErrorKind::Usage,
    {
        let cs = chars_of(input);
        let t = lower_chars(&cs);
        proof {
            lemma_pow16_32();
            assert forall|v: u128| v != 0 && installation_text(v) == t@ implies qualifier_value(t@)
                == Some(v) by {
                lemma_hex_fixed(v as nat, 32);
            }
        }
        match parse_qualifier(&t) {
            Some(v) => {
                proof {
                    lemma_hex_canonical(t@);
                    lemma_lower_idempotent(input@);
                }
                Ok(InstallationId(v))
            },
            None => Err(invalid_input("Installation ID requires exactly 32 hexadecimal digits")),
        }
    }

    /// Equality of identifiers is equality of their values.
    pub proof fn lemma_ext(a: Self, b: Self)
        requires
            a.spec_value() == b.spec_value(),
        ensures
            a == b,
    {
    }
}

/// The value a 32-digit hexadecimal qualifier denotes, when it denotes a nonzero one.
pub open spec fn qualifier_value(q: Seq<char>) -> Option<u128> {
    if q.len() == 32 && all_hex(q) && hex_value(q) != 0 {
        Some(hex_value(q) as u128)
    } else {
        None
    }
}

fn parse_qualifier(t: &[char]) -> (r: Option<u128>)
    ensures
        r == qualifier_value(t@),
{
    if t.len() != 32 {
        return None;
    }
    proof {
        lemma_pow16_32();
    }
    let mut acc: u128 = 0;
    let mut i: usize = 0;
    while i < 32
        invariant
            i <= 32,
            t@.len() == 32,
            all_hex(t@.take(i as int)),
            acc == hex_value(t@.take(i as int)),
            acc < pow16(i as nat),
            pow16(32) == 0x1_0000_0000_0000_0000_0000_0000_0000_0000,
        decreases 32 - i,
    {
        let c = t[i];
        let d: u128 = if '0' <= c && c <= '9' {
            (c as u32 - '0' as u32) as u128
        } else if 'a' <= c && c <= 'f' {
            (c as u32 - 'a' as u32 + 10) as u128
        } else if 'A' <= c && c <= 'F' {
            (c as u32 - 'A' as u32 + 10) as u128
        } else {
            proof {
                assert(!all_hex(t@)) by {
                    assert(!is_hex_digit(t@[i as int]));
                }
            }
            return None;
        };
        proof {
            assert(t@.take(i + 1).drop_last() =~= t@.take(i as int));
            assert(pow16((i + 1) as nat) == 16 * pow16(i as nat));
            assert(pow16((i + 1) as nat) <= pow16(32)) by {
                lemma_pow16_mono((i + 1) as nat, 32);
            }
            assert(acc * 16 + d < pow16((i + 1) as nat)) by (nonlinear_arith)
                requires
                    acc < pow16(i as nat),
                    d < 16,
                    pow16((i + 1) as nat) == 16 * pow16(i as nat),
            ;
        }
        acc = acc * 16 + d;
        i = i + 1;
        proof {
            assert forall|j: int| 0 <= j < i implies is_hex_digit(#[trigger] t@.take(i as int)[j]) by {
                if j < i - 1 {
                    assert(t@.take(i as int)[j] == t@.take(i - 1)[j]);
                }
            }
        }
    }
    assert(t@.take(32) =~= t@);
    if acc == 0 {
        None
    } else {
        Some(acc)
    }
}

proof fn lemma_pow16_mono(i: nat, j: nat)
    requires
        i <= j,
    ensures
        pow16(i) <= pow16(j),
    decreases j,
{
    if i < j {
        lemma_pow16_mono(i, (j - 1) as nat);
    }
}

// ---------------------------------------------------------------------------
// Runtime identifiers
// ---------------------------------------------------------------------------

/// A validated exact runtime ID; an optional suffix distinguishes installations.
///
/// Canonical format: `cpython-M.m.p-x64[@installation-id]`. Unqualified IDs identify
/// the canonical managed installation; external registrations require a suffix.
#[derive(Clone, Copy, Debug, PartialEq, Eq, Hash, PartialOrd, Ord, Structural)]
pub struct RuntimeId {
    implementation: Implementation,
    version: PythonVersion,
    architecture: Architecture,
    variant: RuntimeVariant,
    installation: Option<InstallationId>,
}

impl RuntimeId {
    pub closed spec fn spec_version(self) -> PythonVersion {
        self.version
    }

    pub closed spec fn spec_installation(self) -> Option<InstallationId> {
        self.installation
    }

    /// A runtime identity the MVP supports: a stable version and, when qualified,
    /// a nonzero installation identifier.
    pub open spec fn is_wf(self) -> bool {
        &&& self.spec_version().spec_is_stable()
        &&& (self.spec_installation() matches Some(q) ==> q.spec_value() != 0)
    }

    /// Identities agree exactly when version and qualifier agree.
    pub proof fn lemma_ext(a: Self, b: Self)
        requires
            a.spec_version() == b.spec_version(),
            a.spec_installation() == b.spec_installation(),
        ensures
            a == b,
    {
    }

    /// Creates a standard `CPython` x64 runtime ID; the MVP rejects prerelease runtimes.
    pub fn new(version: PythonVersion) -> (r: Result<Self>)
        ensures
            version.spec_is_stable() ==> (r matches Ok(id) && id.spec_version() == version
                && id.spec_installation() == None::<InstallationId>),
            !version.spec_is_stable() ==> (r matches Err(e) && e.spec_kind() == ErrorKind::Usage),
    {
        if !version.is_stable() {
            return Err(invalid_input("The MVP supports stable CPython x64 runtimes only"));
        }
        Ok(
            RuntimeId {
                implementation: Implementation::Cpython,
                version,
                architecture: Architecture::X64,
                variant: RuntimeVariant::Standard,
                installation: None,
            },
        )
    }

    /// Qualifies this ID for a specific installation.
    pub fn with_installation(self, installation: InstallationId) -> (r: Self)
        ensures
            r.spec_version() == self.spec_version(),
            r.spec_installation() == Some(installation),
    {
        RuntimeId { installation: Some(installation), ..self }
    }

    /// Returns the Python implementation.
    pub fn implementation(&self) -> (r: Implementation)
        ensures
            r == Implementation::Cpython,
    {
        Implementation::Cpython
    }

    /// Returns the exact numeric version.
    pub fn version(&self) -> (r: PythonVersion)
        ensures
            r == self.spec_version(),
    {
        self.version
    }

    /// Returns the target architecture.
    pub fn architecture(&self) -> (r: Architecture)
        ensures
            r == Architecture::X64,
    {
        Architecture::X64
    }

    /// Returns the build variant.
    pub fn variant(&self) -> (r: RuntimeVariant)
        ensures
            r == RuntimeVariant::Standard,
    {
        RuntimeVariant::Standard
    }

    /// Returns the installation qualifier, if present.
    pub fn installation(&self) -> (r: Option<InstallationId>)
        ensures
            r == self.spec_installation(),
    {
        self.installation
    }

    /// Canonical display, `cpython-M.m.p-x64[@installation-id]`.
    pub fn to_string(&self) -> (r: String)
        ensures
            r@ == runtime_id_text(*self),
    {
        let mut s = String::new();
        push_runtime_id(&mut s, self);
        s
    }

    /// Parses a runtime ID in any ASCII case; accepted inputs are exactly the
    /// case variants of canonical spellings of supported identities.
    pub fn parse(input: &str) -> (r: Result<Self>)
        ensures
            r matches Ok(id) ==> id.is_wf() && runtime_id_text(id) == lower_seq(input@),
            forall|id: RuntimeId|
                id.is_wf() && runtime_id_text(id) == lower_seq(input@) ==> r == Ok::<
                    RuntimeId,
                    Error,
                >(id),
            r matches Err(e) ==> e.spec_kind() == ErrorKind::Usage,
    {
        let cs = chars_of(input);
        if cs.len() > MAX_RUNTIME_ID_LENGTH || !is_ascii_chars(&cs) {
            proof {
                assert forall|id: RuntimeId|
                    id.is_wf() && runtime_id_text(id) == lower_seq(input@) implies false by {
                    lemma_runtime_id_text(id);
                    assert(lower_seq(input@).len() == input@.len());
                    if !all_ascii(input@) {
                        let i = choose|i: int| 0 <= i < input@.len() && !is_ascii_char(input@[i]);
                        assert(lower_seq(input@)[i] == lower(input@[i]));
                        assert(is_ascii_char(lower_seq(input@)[i]));
                    }
                }
            }
            return Err(invalid_input("Runtime ID must be ASCII and at most 128 bytes"));
        }
        let t = lower_chars(&cs);
        proof {
            lemma_lower_idempotent(input@);
        }
        let r = parse_runtime_id_lower(&t);
        proof {
            if let Ok(id) = r {
                lemma_runtime_id_sound(t@, id);
            }
            assert forall|other: RuntimeId| other.is_wf() && runtime_id_text(other) == t@ implies r
                == Ok::<RuntimeId, Error>(other) by {
                lemma_runtime_id_complete(other);
            }
        }
        r
    }
}

pub open spec fn cpython_prefix() -> Seq<char> {
    "cpython-"@
}

pub open spec fn x64_suffix() -> Seq<char> {
    "-x64"@
}

/// Canonical spelling of a runtime identity.
pub open spec fn runtime_id_text(id: RuntimeId) -> Seq<char> {
    let base = cpython_prefix() + version_text(id.spec_version()) + x64_suffix();
    match id.spec_installation() {
        Some(q) => base + seq!['@'] + installation_text(q.spec_value()),
        None => base,
    }
}

pub proof fn lemma_fixed_words()
    ensures
        cpython_prefix() == seq!['c', 'p', 'y', 't', 'h', 'o', 'n', '-'],
        x64_suffix() == seq!['-', 'x', '6', '4'],
{
    reveal_strlit("cpython-");
    reveal_strlit("-x64");
}

pub proof fn lemma_runtime_id_text(id: RuntimeId)
    ensures
        runtime_id_text(id).len() <= MAX_RUNTIME_ID_LENGTH,
        all_ascii(runtime_id_text(id)),
        lower_seq(runtime_id_text(id)) == runtime_id_text(id),
{
    lemma_fixed_words();
    lemma_parse_version_complete(id.spec_version());
    lemma_pow16_32();
    let base = cpython_prefix() + version_text(id.spec_version()) + x64_suffix();
    let vt = version_text(id.spec_version());
    assert forall|i: int| 0 <= i < base.len() implies is_ascii_char(#[trigger] base[i]) && lower(
        base[i],
    ) == base[i] by {
        if 8 <= i < 8 + vt.len() {
            assert(base[i] == vt[i - 8]);
            assert(lower_seq(vt)[i - 8] == vt[i - 8]);
        }
    }
    if let Some(q) = id.spec_installation() {
        let h = installation_text(q.spec_value());
        lemma_hex_fixed(q.spec_value() as nat, 32);
        let t = base + seq!['@'] + h;
        assert forall|i: int| 0 <= i < t.len() implies is_ascii_char(#[trigger] t[i]) && lower(t[i])
            == t[i] by {
            if i < base.len() {
                assert(t[i] == base[i]);
            } else if i > base.len() {
                assert(t[i] == h[i - base.len() - 1]);
                assert(lower_seq(h)[i - base.len() - 1] == h[i - base.len() - 1]);
            }
        }
        assert(lower_seq(t) =~= t);
    } else {
        assert(lower_seq(base) =~= base);
    }
}

/// The part of a runtime ID before its `@`, or the whole text.
pub open spec fn id_base(t: Seq<char>) -> Seq<char> {
    let k = index_of(t, '@');
    if k < 0 {
        t
    } else {
        t.take(k)
    }
}

/// The reading of the optional `@` qualifier: `Some(None)` when absent,
/// `None` when present but not a nonzero 32-digit hexadecimal value.
pub open spec fn id_qualifier(t: Seq<char>) -> Option<Option<u128>> {
    let k = index_of(t, '@');
    if k < 0 {
        Some(None)
    } else {
        match qualifier_value(t.skip(k + 1)) {
            Some(v) => Some(Some(v)),
            None => None,
        }
    }
}

/// The qualifier value of an identity.
pub open spec fn qualifier_of(id: RuntimeId) -> Option<u128> {
    match id.spec_installation() {
        Some(q) => Some(q.spec_value()),
        None => None,
    }
}

/// Structural reading of a lowercase runtime ID into its version and qualifier.
pub open spec fn spec_parse_runtime_id(t: Seq<char>) -> Option<(PythonVersion, Option<u128>)> {
    let base = id_base(t);
    if base.len() >= 12 && base.take(8) == cpython_prefix() && base.skip(base.len() - 4)
        == x64_suffix() {
        match (spec_parse_version(base.subrange(8, base.len() - 4)), id_qualifier(t)) {
            (Some(v), Some(q)) => if v.spec_is_stable() {
                Some((v, q))
            } else {
                None
            },
            _ => None,
        }
    } else {
        None
    }
}

fn split_runtime_id(t: &[char]) -> (r: Option<(Vec<char>, Option<InstallationId>)>)
    ensures
        match r {
            Some((base, q)) => base@ == id_base(t@) && id_qualifier(t@) == Some(
                match q {
                    Some(i) => Some(i.spec_value()),
                    None => None::<u128>,
                },
            ) && (q matches Some(i) ==> i.spec_value() != 0),
            None => id_qualifier(t@) is None,
        },
{
    let n = t.len();
    match find_char(t, '@') {
        Some(k) => {
            let q = slice_chars(t, k + 1, n);
            assert(q@ == t@.skip(k + 1));
            match parse_qualifier(&q) {
                Some(v) => {
                    proof {
                        lemma_pow16_32();
                        lemma_hex_canonical(q@);
                    }
                    let base = slice_chars(t, 0, k);
                    assert(base@ == t@.take(k as int));
                    Some((base, Some(InstallationId(v))))
                },
                None => None,
            }
        },
        None => {
            let base = slice_chars(t, 0, t.len());
            assert(base@ =~= t@);
            Some((base, None))
        },
    }
}

fn parse_runtime_id_lower(t: &[char]) -> (r: Result<RuntimeId>)
    ensures
        match r {
            Ok(id) => id.is_wf() && spec_parse_runtime_id(t@) == Some(
                (id.spec_version(), qualifier_of(id)),
            ),
            Err(e) => spec_parse_runtime_id(t@) is None && e.spec_kind() == ErrorKind::Usage,
        },
{
    let (base, installation) = match split_runtime_id(t) {
        Some(parts) => parts,
        None => return Err(invalid_input("Installation ID requires exactly 32 hexadecimal digits")),
    };
    if base.len() < 12 || !starts_with_str(&base, "cpython-") || !ends_with_x64(&base) {
        return Err(
            invalid_input(
                "Expected cpython-major.minor.patch-x64 with an optional @installation-id",
            ),
        );
    }
    let middle = slice_chars(&base, 8, base.len() - 4);
    proof {
        lemma_fixed_words();
        assert(base@.take(8) == cpython_prefix());
    }
    let version = match parse_version_lower(&middle) {
        Some(v) => v,
        None => return Err(
            invalid_input(
                "Python version must be ASCII, at most 64 bytes, and of the form major.minor.patch with an optional aN, bN or rcN suffix",
            ),
        ),
    };
    let mut id = match RuntimeId::new(version) {
        Ok(id) => id,
        Err(e) => return Err(e),
    };
    id.installation = installation;
    Ok(id)
}

fn ends_with_x64(s: &[char]) -> (r: bool)
    requires
        s@.len() >= 4,
    ensures
        r == (s@.skip(s@.len() - 4) == x64_suffix()),
{
    let tail = slice_chars(s, s.len() - 4, s.len());
    assert(tail@ == s@.skip(s@.len() - 4));
    chars_eq_str(&tail, "-x64")
}

/// A lowercase text that reads as an identity is that identity's canonical spelling.
proof fn lemma_runtime_id_sound(t: Seq<char>, id: RuntimeId)
    requires
        lower_seq(t) == t,
        spec_parse_runtime_id(t) == Some((id.spec_version(), qualifier_of(id))),
    ensures
        runtime_id_text(id) == t,
{
    let base = id_base(t);
    let middle = base.subrange(8, base.len() - 4);
    lemma_parse_version_sound(middle);
    assert(base =~= cpython_prefix() + middle + x64_suffix());
    lemma_index_of(t, '@');
    let k = index_of(t, '@');
    if k >= 0 {
        let q = t.skip(k + 1);
        lemma_lower_subrange(t, k + 1, t.len() as int);
        assert(q == t.subrange(k + 1, t.len() as int));
        lemma_hex_canonical(q);
        lemma_pow16_32();
        let i = id.spec_installation()->0;
        assert(installation_text(i.spec_value()) == q);
        assert(t =~= base + seq!['@'] + q);
    } else {
        assert(id.spec_installation() is None);
    }
}

/// Distinct supported identities have distinct canonical spellings.
pub proof fn runtime_id_text_is_injective(a: RuntimeId, b: RuntimeId)
    requires
        a.is_wf(),
        b.is_wf(),
        runtime_id_text(a) == runtime_id_text(b),
    ensures
        a == b,
{
    lemma_runtime_id_complete(a);
    lemma_runtime_id_complete(b);
}

/// Every supported identity's canonical spelling reads back as that identity.
proof fn lemma_runtime_id_complete(id: RuntimeId)
    requires
        id.is_wf(),
    ensures
        spec_parse_runtime_id(runtime_id_text(id)) == Some((id.spec_version(), qualifier_of(id))),
{
    lemma_fixed_words();
    let vt = version_text(id.spec_version());
    lemma_parse_version_complete(id.spec_version());
    let base = cpython_prefix() + vt + x64_suffix();
    assert(!has_char(base, '@')) by {
        lemma_version_text_no_at(id.spec_version());
        if has_char(base, '@') {
            let i = choose|i: int| 0 <= i < base.len() && base[i] == '@';
            assert(8 <= i < 8 + vt.len());
            assert(base[i] == vt[i - 8]);
        }
    }
    assert(base.take(8) =~= cpython_prefix());
    assert(base.skip(base.len() - 4) =~= x64_suffix());
    assert(base.subrange(8, base.len() - 4) =~= vt);
    let t = runtime_id_text(id);
    if let Some(q) = id.spec_installation() {
        let h = installation_text(q.spec_value());
        lemma_index_of_concat(base, '@', h);
        assert(t.take(base.len() as int) =~= base);
        assert(t.skip(base.len() as int + 1) =~= h);
        lemma_pow16_32();
        lemma_hex_fixed(q.spec_value() as nat, 32);
    } else {
        lemma_index_of_absent(base, '@');
    }
}

/// Appends the canonical spelling of a runtime identity.
pub fn push_runtime_id(s: &mut String, id: &RuntimeId)
    ensures
        final(s)@ == old(s)@ + runtime_id_text(*id),
{
    push_str(s, "cpython-");
    push_version(s, id.version);
    push_str(s, "-x64");
    if let Some(q) = id.installation {
        push_char(s, '@');
        push_hex_fixed(s, q.0, 32);
    }
    proof {
        assert(final(s)@ =~= old(s)@ + runtime_id_text(*id));
    }
}

// ---------------------------------------------------------------------------
// Aliases
// ---------------------------------------------------------------------------

pub open spec fn alias_char(c: char) -> bool {
    ('a' <= c && c <= 'z') || is_digit(c) || c == '_' || c == '-'
}

/// Names an alias may not take: manager words, runtime IDs and Windows device names.
pub open spec fn reserved_alias(t: Seq<char>) -> bool {
    ||| t == "system"@
    ||| t == "pyrudder"@
    ||| t == "con"@
    ||| t == "prn"@
    ||| t == "aux"@
    ||| t == "nul"@
    ||| (t.len() >= cpython_prefix().len() && t.take(cpython_prefix().len() as int)
        == cpython_prefix())
    ||| (t.len() == 4 && (t.take(3) == "com"@ || t.take(3) == "lpt"@) && '1' <= t[3] && t[3]
        <= '9')
}

/// Canonical alias text: `[a-z][a-z0-9_-]{0,63}` and not reserved.
pub open spec fn alias_valid(t: Seq<char>) -> bool {
    &&& 1 <= t.len() <= MAX_ALIAS_LENGTH
    &&& 'a' <= t[0] && t[0] <= 'z'
    &&& forall|i: int| 0 <= i < t.len() ==> alias_char(#[trigger] t[i])
    &&& !reserved_alias(t)
}

/// Case-insensitive ASCII alias normalized to lowercase.
///
/// Grammar: `[a-z][a-z0-9_-]{0,63}`; `system`, `pyrudder`, `cpython-*` and Windows
/// device names are reserved. This is not a filesystem path or shell command.
#[derive(Clone, Debug, PartialEq, Eq, Hash, PartialOrd, Ord)]
pub struct RuntimeAlias(String);

impl View for RuntimeAlias {
    type V = Seq<char>;

    closed spec fn view(&self) -> Seq<char> {
        self.0@
    }
}

impl RuntimeAlias {
    /// Returns the canonical alias text.
    pub fn as_str(&self) -> (r: &str)
        ensures
            r@ == self@,
    {
        self.0.as_str()
    }

    /// The canonical alias text.
    pub fn to_string(&self) -> (r: String)
        ensures
            r@ == self@,
    {
        self.0.clone()
    }

    /// Whether two aliases are the same canonical name.
    pub fn same(&self, other: &Self) -> (r: bool)
        ensures
            r == (self@ == other@),
    {
        let a = chars_of(self.0.as_str());
        let b = chars_of(other.0.as_str());
        chars_eq(&a, &b)
    }

    /// Parses an alias; it is accepted exactly when its lowercase form is valid.
    pub fn parse(input: &str) -> (r: Result<Self>)
        ensures
            r is Ok <==> alias_valid(lower_seq(input@)),
            r matches Ok(a) ==> a@ == lower_seq(input@),
            r matches Err(e) ==> e.spec_kind() == ErrorKind::Usage,
    {
        let cs = chars_of(input);
        let t = lower_chars(&cs);
        if t.len() == 0 || t.len() > MAX_ALIAS_LENGTH || !('a' <= t[0] && t[0] <= 'z') {
            return Err(
                invalid_input(
                    "Alias must start with an ASCII letter and contain at most 64 letters, digits, hyphens or underscores",
                ),
            );
        }
        let mut i: usize = 0;
        while i < t.len()
            invariant
                i <= t@.len(),
                t@ == lower_seq(input@),
                forall|j: int| 0 <= j < i ==> alias_char(#[trigger] t@[j]),
            decreases t.len() - i,
        {
            let c = t[i];
            if !(('a' <= c && c <= 'z') || ('0' <= c && c <= '9') || c == '_' || c == '-') {
                return Err(
                    invalid_input(
                        "Alias must start with an ASCII letter and contain at most 64 letters, digits, hyphens or underscores",
                    ),
                );
            }
            i = i + 1;
        }
        if is_reserved_alias(&t) {
            return Err(invalid_input("Alias is reserved; choose another name"));
        }
        Ok(RuntimeAlias(string_of(&t)))
    }
}

fn is_reserved_alias(t: &[char]) -> (r: bool)
    ensures
        r == reserved_alias(t@),
{
    if chars_eq_str(t, "system") || chars_eq_str(t, "pyrudder") || chars_eq_str(t, "con")
        || chars_eq_str(t, "prn") || chars_eq_str(t, "aux") || chars_eq_str(t, "nul")
        || starts_with_str(t, "cpython-") {
        return true;
    }
    if t.len() == 4 {
        let head = slice_chars(t, 0, 3);
        assert(head@ == t@.take(3));
        (chars_eq_str(&head, "com") || chars_eq_str(&head, "lpt")) && '1' <= t[3] && t[3] <= '9'
    } else {
        false
    }
}

/// Every valid alias text reads back as itself.
pub proof fn alias_text_round_trips(t: Seq<char>)
    requires
        alias_valid(t),
    ensures
        lower_seq(t) == t,
{
    assert forall|i: int| 0 <= i < t.len() implies lower(t[i]) == t[i] by {
        assert(alias_char(t[i]));
    }
    assert(lower_seq(t) =~= t);
}

// ---------------------------------------------------------------------------
// Registration metadata
// ---------------------------------------------------------------------------

/// Recorded provenance; metadata alone never authorizes deletion or proves trust.
#[derive(Clone, Debug, PartialEq, Eq)]
pub enum RuntimeOrigin {
    /// Files installed by `PyRudder`; uninstall also requires sentinel, boundary and lease checks.
    Managed {
        /// Provider identifier.
        provider: String,
        /// Source URL; validation belongs to the provider.
        artifact_url: String,
        /// Expected SHA-256 bytes, not a verification result.
        artifact_sha256: [u8; 32],
        /// Ownership identifier to match against the sentinel.
        ownership_id: InstallationId,
    },
    /// Files owned externally, which can only be unregistered.
    External {
        /// Absolute interpreter path provided during registration.
        registered_executable: String,
    },
}

/// Last observed health; it does not replace a filesystem probe at dispatch.
#[derive(Clone, Debug, PartialEq, Eq)]
pub enum RuntimeHealth {
    /// No health probe has completed.
    Unchecked,
    /// The last health probe passed.
    Ready,
    /// Files are inconsistent or damaged.
    Broken {
        /// Diagnostic explanation.
        reason: String,
    },
    /// The installation is temporarily inaccessible.
    Unavailable {
        /// Diagnostic explanation.
        reason: String,
    },
    /// Removal is pending; selection is disabled.
    PendingRemoval,
}

impl RuntimeHealth {
    /// Whether the last probe allows selection.
    pub fn is_ready(&self) -> (r: bool)
        ensures
            r == (*self is Ready),
    {
        match self {
            RuntimeHealth::Ready => true,
            _ => false,
        }
    }
}

/// The lexical conditions under which a record can be created.
pub open spec fn record_acceptable(
    id: RuntimeId,
    root: Seq<char>,
    command_dirs: Seq<String>,
    origin: RuntimeOrigin,
) -> bool {
    &&& spec_valid_runtime_path(root)
    &&& command_dirs.len() > 0
    &&& forall|i: int| 0 <= i < command_dirs.len() ==> spec_valid_runtime_path(#[trigger] command_dirs[i]@)
    &&& (origin matches RuntimeOrigin::External { registered_executable } ==> (
    spec_valid_runtime_path(registered_executable@) && id.spec_installation() is Some))
}

/// An immutable runtime identity and paths with mutable health and alias metadata.
///
/// Path checks here are lexical only. Canonicalization, file identity, ownership
/// verification and probing belong to registration/platform services. Aliases form
/// a set: no canonical name occurs twice.
#[derive(Clone, Debug, PartialEq, Eq)]
pub struct RuntimeRecord {
    id: RuntimeId,
    root: String,
    command_dirs: Vec<String>,
    origin: RuntimeOrigin,
    health: RuntimeHealth,
    aliases: Vec<RuntimeAlias>,
}

/// Texts in strictly ascending order, so none occurs twice.
pub open spec fn aliases_sorted(s: Seq<Seq<char>>) -> bool {
    forall|i: int, j: int| 0 <= i < j < s.len() ==> text_le(#[trigger] s[i], #[trigger] s[j]) && s[i] != s[j]
}

impl RuntimeRecord {
    pub closed spec fn spec_id(self) -> RuntimeId {
        self.id
    }

    pub closed spec fn spec_root(self) -> Seq<char> {
        self.root@
    }

    pub closed spec fn spec_command_dirs(self) -> Seq<String> {
        self.command_dirs@
    }

    pub closed spec fn spec_origin(self) -> RuntimeOrigin {
        self.origin
    }

    pub closed spec fn spec_health(self) -> RuntimeHealth {
        self.health
    }

    /// The canonical alias names, in ascending order.
    pub closed spec fn spec_aliases(self) -> Seq<Seq<char>> {
        self.aliases@.map_values(|a: RuntimeAlias| a@)
    }

    /// Creates an unchecked record without reading or executing any files.
    ///
    /// Rejects relative/parent-traversing paths, an empty script-directory list,
    /// or an external record without an installation qualifier.
    pub fn new(id: RuntimeId, root: String, command_dirs: Vec<String>, origin: RuntimeOrigin) -> (r:
        Result<Self>)
        ensures
            r is Ok <==> record_acceptable(id, root@, command_dirs@, origin),
            r matches Ok(rec) ==> {
                &&& rec.spec_id() == id
                &&& rec.spec_root() == root@
                &&& rec.spec_command_dirs() == command_dirs@
                &&& rec.spec_origin() == origin
                &&& rec.spec_health() == RuntimeHealth::Unchecked
                &&& rec.spec_aliases().len() == 0
            },
            r matches Err(e) ==> e.spec_kind() == ErrorKind::Usage,
    {
        let path_error = "Runtime paths must be absolute and contain no parent traversal";
        if validate_path(root.as_str()).is_err() {
            return Err(invalid_input(path_error));
        }
        if command_dirs.len() == 0 {
            return Err(invalid_input("At least one script directory is required"));
        }
        let mut i: usize = 0;
        while i < command_dirs.len()
            invariant
                i <= command_dirs@.len(),
                forall|j: int| 0 <= j < i ==> spec_valid_runtime_path(#[trigger] command_dirs@[j]@),
            decreases command_dirs.len() - i,
        {
            if validate_path(command_dirs[i].as_str()).is_err() {
                return Err(invalid_input(path_error));
            }
            i = i + 1;
        }
        if let RuntimeOrigin::External { registered_executable } = &origin {
            if validate_path(registered_executable.as_str()).is_err() {
                return Err(invalid_input(path_error));
            }
            if id.installation().is_none() {
                return Err(
                    invalid_input("External registrations require an @installation-id qualifier"),
                );
            }
        }
        let record = RuntimeRecord {
            id,
            root,
            command_dirs,
            origin,
            health: RuntimeHealth::Unchecked,
            aliases: Vec::new(),
        };
        proof {
            assert(record.spec_aliases() =~= Seq::<Seq<char>>::empty());
        }
        Ok(record)
    }

    /// Returns the exact registration identity.
    pub fn id(&self) -> (r: &RuntimeId)
        ensures
            *r == self.spec_id(),
    {
        &self.id
    }

    /// Returns the recorded runtime root.
    pub fn root(&self) -> (r: &str)
        ensures
            r@ == self.spec_root(),
    {
        self.root.as_str()
    }

    /// Returns script directories in discovery order.
    pub fn command_dirs(&self) -> (r: &[String])
        ensures
            r@ == self.spec_command_dirs(),
    {
        self.command_dirs.as_slice()
    }

    /// Returns ownership metadata, not deletion authorization.
    pub fn origin(&self) -> (r: &RuntimeOrigin)
        ensures
            *r == self.spec_origin(),
    {
        &self.origin
    }

    /// Returns the last observed health.
    pub fn health(&self) -> (r: &RuntimeHealth)
        ensures
            *r == self.spec_health(),
    {
        &self.health
    }

    /// Updates the health observation; nothing else changes.
    pub fn set_health(&mut self, health: RuntimeHealth)
        ensures
            final(self).spec_health() == health,
            final(self).spec_id() == old(self).spec_id(),
            final(self).spec_root() == old(self).spec_root(),
            final(self).spec_command_dirs() == old(self).spec_command_dirs(),
            final(self).spec_origin() == old(self).spec_origin(),
            final(self).spec_aliases() == old(self).spec_aliases(),
    {
        self.health = health;
    }

    /// Returns the canonical aliases in ascending order.
    pub fn aliases(&self) -> (r: &[RuntimeAlias])
        ensures
            r@.map_values(|a: RuntimeAlias| a@) == self.spec_aliases(),
    {
        self.aliases.as_slice()
    }

    /// Whether the record carries the alias.
    pub fn has_alias(&self, alias: &RuntimeAlias) -> (r: bool)
        ensures
            r == self.spec_aliases().contains(alias@),
    {
        let mut i: usize = 0;
        while i < self.aliases.len()
            invariant
                i <= self.aliases@.len(),
                forall|j: int| 0 <= j < i ==> self.aliases@[j]@ != alias@,
            decreases self.aliases.len() - i,
        {
            if self.aliases[i].same(alias) {
                proof {
                    assert(self.spec_aliases()[i as int] == alias@);
                }
                return true;
            }
            i = i + 1;
        }
        proof {
            if self.spec_aliases().contains(alias@) {
                let k = choose|k: int| 0 <= k < self.spec_aliases().len() && self.spec_aliases()[k] == alias@;
                assert(self.aliases@[k]@ == alias@);
            }
        }
        false
    }

    /// Adds an alias locally; the registry must enforce uniqueness across records.
    /// Returns whether the alias was new; adding a present alias changes nothing.
    /// The aliases stay in ascending order.
    pub fn add_alias(&mut self, alias: RuntimeAlias) -> (r: bool)
        requires
            aliases_sorted(old(self).spec_aliases()),
        ensures
            r == !old(self).spec_aliases().contains(alias@),
            aliases_sorted(final(self).spec_aliases()),
            final(self).spec_aliases().to_set() == old(self).spec_aliases().to_set().insert(alias@),
            !r ==> final(self).spec_aliases() == old(self).spec_aliases(),
            r ==> final(self).spec_aliases().len() == old(self).spec_aliases().len() + 1,
            final(self).spec_id() == old(self).spec_id(),
            final(self).spec_root() == old(self).spec_root(),
            final(self).spec_command_dirs() == old(self).spec_command_dirs(),
            final(self).spec_origin() == old(self).spec_origin(),
            final(self).spec_health() == old(self).spec_health(),
    {
        let ghost before = self.spec_aliases();
        let ghost name = alias@;
        let name_chars = chars_of(alias.0.as_str());
        let mut p: usize = 0;
        let mut done = false;
        let mut present = false;
        while !done && p < self.aliases.len()
            invariant
                p <= self.aliases@.len(),
                before == self.aliases@.map_values(|a: RuntimeAlias| a@),
                aliases_sorted(before),
                name == name_chars@,
                forall|k: int| 0 <= k < p ==> text_le(#[trigger] before[k], name) && before[k] != name,
                done ==> p < before.len() && (if present {
                    before[p as int] == name
                } else {
                    text_le(name, before[p as int]) && before[p as int] != name
                }),
                !done ==> !present,
            decreases self.aliases@.len() + 1 - p - (if done { 1int } else { 0int }),
        {
            let current = chars_of(self.aliases[p].0.as_str());
            assert(current@ == before[p as int]);
            if chars_eq(&current, &name_chars) {
                present = true;
                done = true;
            } else if text_le_chars(&name_chars, &current) {
                done = true;
            } else {
                proof {
                    lemma_text_le_facts(name, before[p as int], name);
                }
                p = p + 1;
            }
        }
        if present {
            proof {
                assert(before.contains(name));
                assert(before.to_set().insert(name) =~= before.to_set());
            }
            return false;
        }
        proof {
            assert forall|k: int| p <= k < before.len() implies text_le(name, #[trigger] before[k]) && before[k] != name by {
                if k > p {
                    assert(text_le(before[p as int], before[k]));
                    lemma_text_le_facts(name, before[p as int], before[k]);
                    if before[k] == name {
                        lemma_text_le_facts(name, before[p as int], name);
                    }
                }
            }
            assert(!before.contains(name)) by {
                if before.contains(name) {
                    let k = choose|k: int| 0 <= k < before.len() && before[k] == name;
                }
            }
        }
        let mut aliases = Vec::new();
        std::mem::swap(&mut aliases, &mut self.aliases);
        aliases.insert(p, alias);
        let ghost after = aliases@.map_values(|a: RuntimeAlias| a@);
        proof {
            assert(after =~= before.insert(p as int, name));
            assert forall|i: int, j: int| 0 <= i < j < after.len() implies text_le(#[trigger] after[i], #[trigger] after[j]) && after[i] != after[j] by {
                if j < p {
                    assert(after[i] == before[i] && after[j] == before[j]);
                } else if j == p {
                    assert(after[i] == before[i] && after[j] == name);
                } else if i < p {
                    assert(after[i] == before[i] && after[j] == before[j - 1]);
                    lemma_text_le_facts(before[i], name, before[j - 1]);
                    if before[i] == before[j - 1] {
                        lemma_text_le_facts(before[i], name, before[i]);
                    }
                } else if i == p {
                    assert(after[i] == name && after[j] == before[j - 1]);
                } else {
                    assert(after[i] == before[i - 1] && after[j] == before[j - 1]);
                }
            }
            assert forall|x: Seq<char>| after.contains(x) <==> (before.contains(x) || x == name) by {
                if after.contains(x) {
                    let k = choose|k: int| 0 <= k < after.len() && after[k] == x;
                    if k < p {
                        assert(before[k] == x);
                    } else if k > p {
                        assert(before[k - 1] == x);
                    }
                }
                if before.contains(x) {
                    let k = choose|k: int| 0 <= k < before.len() && before[k] == x;
                    if k < p {
                        assert(after[k] == x);
                    } else {
                        assert(after[k + 1] == x);
                    }
                }
                if x == name {
                    assert(after[p as int] == name);
                }
            }
            assert(after.to_set() =~= before.to_set().insert(name));
        }
        self.aliases = aliases;
        true
    }
}

impl RuntimeOrigin {
    /// A copy of the provenance.
    pub fn duplicate(&self) -> (r: Self)
        ensures
            r == *self,
    {
        match self {
            RuntimeOrigin::Managed { provider, artifact_url, artifact_sha256, ownership_id } => {
                RuntimeOrigin::Managed {
                    provider: provider.clone(),
                    artifact_url: artifact_url.clone(),
                    artifact_sha256: *artifact_sha256,
                    ownership_id: *ownership_id,
                }
            },
            RuntimeOrigin::External { registered_executable } => RuntimeOrigin::External {
                registered_executable: registered_executable.clone(),
            },
        }
    }
}

impl RuntimeRecord {
    /// A copy of the record that counts as ready; identity, paths, provenance and
    /// aliases are unchanged.
    pub fn ready_copy(&self) -> (r: Self)
        ensures
            r.spec_id() == self.spec_id(),
            r.spec_root() == self.spec_root(),
            r.spec_command_dirs() == self.spec_command_dirs(),
            r.spec_origin() == self.spec_origin(),
            r.spec_aliases() == self.spec_aliases(),
            r.spec_health() == RuntimeHealth::Ready,
    {
        let mut dirs: Vec<String> = Vec::new();
        let mut i: usize = 0;
        while i < self.command_dirs.len()
            invariant
                i <= self.command_dirs.len(),
                dirs@ == self.command_dirs@.take(i as int),
            decreases self.command_dirs.len() - i,
        {
            dirs.push(self.command_dirs[i].clone());
            proof {
                assert(self.command_dirs@.take(i + 1) =~= self.command_dirs@.take(i as int).push(
                    self.command_dirs@[i as int],
                ));
            }
            i = i + 1;
        }
        assert(self.command_dirs@.take(self.command_dirs@.len() as int) =~= self.command_dirs@);
        let mut aliases: Vec<RuntimeAlias> = Vec::new();
        let mut k: usize = 0;
        while k < self.aliases.len()
            invariant
                k <= self.aliases.len(),
                aliases@.map_values(|a: RuntimeAlias| a@) =~= self.aliases@.map_values(|a: RuntimeAlias| a@).take(
                    k as int,
                ),
            decreases self.aliases.len() - k,
        {
            let ghost prev = aliases@;
            aliases.push(RuntimeAlias(self.aliases[k].0.clone()));
            proof {
                let f = |a: RuntimeAlias| a@;
                assert(self.aliases@.map_values(f).take(k + 1) =~= self.aliases@.map_values(f).take(
                    k as int,
                ).push(self.aliases@[k as int]@));
                assert(aliases@ =~= prev.push(aliases@[k as int]));
                assert(aliases@.map_values(f) =~= prev.map_values(f).push(self.aliases@[k as int]@));
            }
            k = k + 1;
        }
        assert(self.aliases@.map_values(|a: RuntimeAlias| a@).take(self.aliases@.len() as int)
            =~= self.aliases@.map_values(|a: RuntimeAlias| a@));
        RuntimeRecord {
            id: self.id,
            root: self.root.clone(),
            command_dirs: dirs,
            origin: self.origin.duplicate(),
            health: RuntimeHealth::Ready,
            aliases,
        }
    }
}

/// Aliases in ascending order never repeat a name.
pub proof fn sorted_aliases_are_distinct(s: Seq<Seq<char>>)
    requires
        aliases_sorted(s),
    ensures
        s.no_duplicates(),
{
}

/// A record's aliases are a set: two alias lists in ascending order with the same
/// names are the same list, so the aliases of a record depend only on which names
/// were added, not on the order or repetition of the additions.
pub proof fn aliases_are_determined_by_their_names(a: Seq<Seq<char>>, b: Seq<Seq<char>>)
    requires
        aliases_sorted(a),
        aliases_sorted(b),
        a.to_set() == b.to_set(),
    ensures
        a == b,
    decreases a.len(),
{
    assert(forall|x: Seq<char>| a.contains(x) <==> a.to_set().contains(x));
    assert(forall|x: Seq<char>| b.contains(x) <==> b.to_set().contains(x));
    if a.len() == 0 {
        if b.len() > 0 {
            assert(b.contains(b[0]));
            assert(a.to_set().contains(b[0]));
        }
        assert(a =~= b);
    } else {
        assert(a.contains(a[0]));
        assert(b.contains(a[0]));
        assert(b.len() > 0);
        assert(b.contains(b[0]));
        assert(a.contains(b[0]));
        if a[0] != b[0] {
            let j = choose|j: int| 0 <= j < a.len() && a[j] == b[0];
            let k = choose|k: int| 0 <= k < b.len() && b[k] == a[0];
            assert(text_le(a[0], a[j]));
            assert(text_le(b[0], b[k]));
            lemma_text_le_facts(a[0], b[0], a[0]);
        }
        let a1 = a.drop_first();
        let b1 = b.drop_first();
        assert forall|x: Seq<char>| a1.to_set().contains(x) <==> b1.to_set().contains(x) by {
            assert(a1.contains(x) <==> a1.to_set().contains(x));
            assert(b1.contains(x) <==> b1.to_set().contains(x));
            if a1.contains(x) {
                let i = choose|i: int| 0 <= i < a1.len() && a1[i] == x;
                assert(a[i + 1] == x);
                assert(a[0] != a[i + 1]);
                assert(b.to_set().contains(x));
                assert(b.contains(x));
                let k = choose|k: int| 0 <= k < b.len() && b[k] == x;
                assert(k != 0);
                assert(b1[k - 1] == x);
            }
            if b1.contains(x) {
                let i = choose|i: int| 0 <= i < b1.len() && b1[i] == x;
                assert(b[i + 1] == x);
                assert(b[0] != b[i + 1]);
                assert(a.to_set().contains(x));
                assert(a.contains(x));
                let k = choose|k: int| 0 <= k < a.len() && a[k] == x;
                assert(k != 0);
                assert(a1[k - 1] == x);
            }
        }
        assert(a1.to_set() =~= b1.to_set());
        assert forall|i: int, j: int| 0 <= i < j < a1.len() implies text_le(#[trigger] a1[i], #[trigger] a1[j]) && a1[i] != a1[j] by {
            assert(a1[i] == a[i + 1] && a1[j] == a[j + 1]);
        }
        assert forall|i: int, j: int| 0 <= i < j < b1.len() implies text_le(#[trigger] b1[i], #[trigger] b1[j]) && b1[i] != b1[j] by {
            assert(b1[i] == b[i + 1] && b1[j] == b[j + 1]);
        }
        aliases_are_determined_by_their_names(a1, b1);
        assert(a =~= a1.insert(0, a[0]));
        assert(b =~= b1.insert(0, b[0]));
    }
}

impl core::str::FromStr for InstallationId {
    type Err = Error;

    fn from_str(input: &str) -> (r: core::result::Result<Self, Error>)
        ensures
            r matches Ok(id) ==> id.spec_value() != 0 && installation_text(id.spec_value())
                == lower_seq(input@),
            forall|v: u128|
                v != 0 && installation_text(v) == lower_seq(input@) ==> (r matches Ok(id)
                    && id.spec_value() == v),
            r matches Err(e) ==> e.spec_kind() == ErrorKind::Usage,
    {
        InstallationId::parse(input)
    }
}

impl core::str::FromStr for RuntimeId {
    type Err = Error;

    fn from_str(input: &str) -> (r: core::result::Result<Self, Error>)
        ensures
            r matches Ok(id) ==> id.is_wf() && runtime_id_text(id) == lower_seq(input@),
            forall|id: RuntimeId|
                id.is_wf() && runtime_id_text(id) == lower_seq(input@) ==> r == Ok::<
                    RuntimeId,
                    Error,
                >(id),
            r matches Err(e) ==> e.spec_kind() == ErrorKind::Usage,
    {
        RuntimeId::parse(input)
    }
}

impl core::str::FromStr for RuntimeAlias {
    type Err = Error;

    fn from_str(input: &str) -> (r: core::result::Result<Self, Error>)
        ensures
            r is Ok <==> alias_valid(lower_seq(input@)),
            r matches Ok(a) ==> a@ == lower_seq(input@),
            r matches Err(e) ==> e.spec_kind() == ErrorKind::Usage,
    {
        RuntimeAlias::parse(input)
    }
}

} // verus!
