//! Validated selectors and deterministic selection from registered metadata.
//!
//! This module does not read environment variables or files, probe paths, or download runtimes.
use crate::error::{invalid_input, Error, ErrorKind, Result};
use crate::runtime::{
    alias_valid, cpython_prefix, lemma_fixed_words, lemma_runtime_id_text, push_runtime_id,
    runtime_id_text_is_injective,
    runtime_id_text, RuntimeAlias, RuntimeId, RuntimeRecord, MAX_RUNTIME_ID_LENGTH,
};
use crate::text::{
    all_ascii, chars_eq_str, chars_of, component_value, contains_char, dec, find_char, has_char,
    index_of, is_ascii_char, is_ascii_chars, is_component, is_digit, lemma_component_roundtrip,
    lemma_dec, lemma_dec_component, lemma_index_of, lemma_index_of_concat, lower, lower_chars,
    lower_seq, parse_component, push_char, push_decimal, push_str, slice_chars, starts_with_str,
};
use crate::version::{
    lemma_parse_version_complete, push_version, version_text, version_text_is_injective,
    PythonVersion,
};
use vstd::prelude::*;

verus! {

/// A version, exact installation, alias, or explicit system request.
#[derive(Clone, Debug, PartialEq, Eq)]
pub enum VersionSelector {
    /// Latest registered patch in a minor series.
    Minor {
        /// Major version number.
        major: u32,
        /// Minor version number.
        minor: u32,
    },
    /// Exact version, potentially present in several installations.
    Exact(PythonVersion),
    /// Exact registered ID, including any installation qualifier.
    Runtime(RuntimeId),
    /// A canonical user alias.
    Alias(RuntimeAlias),
    /// Explicit request for system fallback, still subject to caller policy.
    System,
}

/// The mathematical content of a selector, with aliases taken by their text.
pub enum SelectorView {
    Minor(u32, u32),
    Exact(PythonVersion),
    Runtime(RuntimeId),
    Alias(Seq<char>),
    System,
}

impl View for VersionSelector {
    type V = SelectorView;

    open spec fn view(&self) -> SelectorView {
        match self {
            VersionSelector::Minor { major, minor } => SelectorView::Minor(*major, *minor),
            VersionSelector::Exact(v) => SelectorView::Exact(*v),
            VersionSelector::Runtime(id) => SelectorView::Runtime(*id),
            VersionSelector::Alias(a) => SelectorView::Alias(a@),
            VersionSelector::System => SelectorView::System,
        }
    }
}

/// Selectors a user can write: stable exact versions, supported runtime IDs and
/// valid aliases.
pub open spec fn selector_wf(s: SelectorView) -> bool {
    match s {
        SelectorView::Exact(v) => v.spec_is_stable(),
        SelectorView::Runtime(id) => id.is_wf(),
        SelectorView::Alias(t) => alias_valid(t),
        _ => true,
    }
}

/// Canonical spelling of a selector.
pub open spec fn selector_text(s: SelectorView) -> Seq<char> {
    match s {
        SelectorView::Minor(major, minor) => dec(major as nat) + seq!['.'] + dec(minor as nat),
        SelectorView::Exact(v) => version_text(v),
        SelectorView::Runtime(id) => runtime_id_text(id),
        SelectorView::Alias(t) => t,
        SelectorView::System => "system"@,
    }
}

/// Selection result; a system request is not a resolved executable or authorization.
#[derive(Clone, Copy, Debug, PartialEq, Eq)]
pub enum RuntimeSelection<'a> {
    /// A uniquely selected, previously healthy registration.
    Registered(&'a RuntimeRecord),
    /// The resolver must check policy and filter PATH before system fallback.
    SystemRequested,
}

// ---------------------------------------------------------------------------
// Selection
// ---------------------------------------------------------------------------

/// The exact version of a record.
pub open spec fn record_version(r: RuntimeRecord) -> PythonVersion {
    r.spec_id().spec_version()
}

/// Whether a record satisfies the selector on its own.
pub open spec fn selects(s: SelectorView, r: RuntimeRecord) -> bool {
    match s {
        SelectorView::Minor(major, minor) => record_version(r).major == major && record_version(
            r,
        ).minor == minor,
        SelectorView::Exact(v) => record_version(r) == v,
        SelectorView::Runtime(id) => r.spec_id() == id,
        SelectorView::Alias(a) => r.spec_aliases().contains(a),
        SelectorView::System => false,
    }
}

/// No matching record has a later version.
pub open spec fn is_latest(s: SelectorView, rs: Seq<RuntimeRecord>, r: RuntimeRecord) -> bool {
    forall|j: int|
        0 <= j < rs.len() && selects(s, #[trigger] rs[j]) ==> !crate::version::version_lt(
            record_version(r),
            record_version(rs[j]),
        )
}

/// A record is a candidate when it matches and, for a minor series, carries the
/// latest matching version; health plays no part, so a broken latest patch never
/// lets an older one through.
pub open spec fn is_candidate(s: SelectorView, rs: Seq<RuntimeRecord>, r: RuntimeRecord) -> bool {
    selects(s, r) && (s is Minor ==> is_latest(s, rs, r))
}

/// The candidates, in registration order.
pub open spec fn candidates(s: SelectorView, rs: Seq<RuntimeRecord>) -> Seq<RuntimeRecord> {
    rs.filter(|r: RuntimeRecord| is_candidate(s, rs, r))
}

/// The canonical IDs of the candidates, in registration order.
pub open spec fn candidate_ids(s: SelectorView, rs: Seq<RuntimeRecord>) -> Seq<Seq<char>> {
    candidates(s, rs).map_values(|r: RuntimeRecord| runtime_id_text(r.spec_id()))
}

pub open spec fn not_installed_message(s: SelectorView) -> Seq<char> {
    "No registered runtime matches "@ + selector_text(s)
}

pub open spec fn not_installed_hint() -> Seq<char> {
    "Run pyrudder list; register or explicitly install the required runtime"@
}

/// The conflict diagnostic lists the matching IDs in sorted order, so it does not
/// depend on registration order.
pub open spec fn conflict_message(s: SelectorView, ids: Seq<Seq<char>>) -> Seq<char> {
    "Multiple registrations match "@ + selector_text(s) + ": "@ + crate::text::join_texts(
        ids.sort_by(crate::text::text_order()),
        ", "@,
    )
}

pub open spec fn stable_only_message() -> Seq<char> {
    "The MVP supports stable CPython x64 runtimes only"@
}

pub open spec fn conflict_hint() -> Seq<char> {
    "Choose an exact runtime ID or a unique alias; repair duplicate registrations if necessary"@
}

pub open spec fn not_ready_message(id: RuntimeId) -> Seq<char> {
    "Selected runtime "@ + runtime_id_text(id) + " is not ready"@
}

pub open spec fn not_ready_hint() -> Seq<char> {
    "Run pyrudder doctor and repair or unregister the runtime"@
}

/// What selection yields for a selector over a registry, as a function of the
/// selector's view and the records.
pub open spec fn selection_outcome(
    s: SelectorView,
    rs: Seq<RuntimeRecord>,
    r: Result<RuntimeSelection>,
) -> bool {
    let c = candidates(s, rs);
    if s is System {
        r == Ok::<RuntimeSelection, Error>(RuntimeSelection::SystemRequested)
    } else if s matches SelectorView::Exact(v) && !v.spec_is_stable() {
        r matches Err(e) && e.spec_kind() == ErrorKind::Usage && e.spec_message()
            == stable_only_message() && e.spec_hint() == None::<Seq<char>>
    } else if c.len() == 0 {
        r matches Err(e) && e.spec_kind() == ErrorKind::NotInstalled && e.spec_message()
            == not_installed_message(s) && e.spec_hint() == Some(not_installed_hint())
    } else if c.len() == 1 {
        if c[0].spec_health() is Ready {
            r matches Ok(RuntimeSelection::Registered(rec)) && *rec == c[0]
        } else {
            r matches Err(e) && e.spec_kind() == ErrorKind::BrokenRuntime && e.spec_message()
                == not_ready_message(c[0].spec_id()) && e.spec_hint() == Some(not_ready_hint())
        }
    } else {
        r matches Err(e) && e.spec_kind() == ErrorKind::Conflict && e.spec_message()
            == conflict_message(s, candidate_ids(s, rs)) && e.spec_hint() == Some(conflict_hint())
    }
}

impl VersionSelector {
    /// Selects metadata without side effects. Short versions choose the highest patch
    /// before health checks; broken or ambiguous latest versions never fall back.
    pub fn select<'a>(&self, runtimes: &'a [RuntimeRecord]) -> (r: Result<RuntimeSelection<'a>>)
        ensures
            selection_outcome(self@, runtimes@, r),
    {
        if let VersionSelector::System = self {
            return Ok(RuntimeSelection::SystemRequested);
        }
        if let VersionSelector::Exact(version) = self {
            if !version.is_stable() {
                return Err(invalid_input("The MVP supports stable CPython x64 runtimes only"));
            }
        }
        let ghost s = self@;
        let ghost rs = runtimes@;
        let n = runtimes.len();
        let latest = self.latest_match(runtimes);
        let mut picked: Vec<usize> = Vec::new();
        let mut i: usize = 0;
        while i < n
            invariant
                n == rs.len(),
                rs == runtimes@,
                s == self@,
                !(s is System),
                i <= n,
                latest_facts(s, rs, latest),
                forall|k: int| 0 <= k < picked@.len() ==> picked@[k] < n,
                picked@.map_values(|k: usize| rs[k as int]) == rs.take(i as int).filter(|r: RuntimeRecord| is_candidate(s, rs, r)),
            decreases n - i,
        {
            let take = self.matches(&runtimes[i]) && match latest {
                Some(m) => runtimes[i].id().version() == m,
                None => true,
            };
            proof {
                lemma_candidate_test(s, rs, latest, i as int);
                reveal(Seq::filter);
                assert(rs.take(i + 1).drop_last() =~= rs.take(i as int));
                assert(rs.take(i + 1).last() == rs[i as int]);
            }
            if take {
                picked.push(i);
            }
            proof {
                assert(picked@.map_values(|k: usize| rs[k as int]) =~= rs.take(i + 1).filter(|r: RuntimeRecord| is_candidate(s, rs, r)));
            }
            i = i + 1;
        }
        proof {
            assert(rs.take(n as int) =~= rs);
            assert(candidates(s, rs) == rs.filter(|r: RuntimeRecord| is_candidate(s, rs, r)));
        }
        let count = picked.len();
        if count == 0 {
            let mut message = String::new();
            push_str(&mut message, "No registered runtime matches ");
            push_selector(&mut message, self);
            return Err(
                Error::from_message(ErrorKind::NotInstalled, message).with_hint(
                    "Run pyrudder list; register or explicitly install the required runtime",
                ),
            );
        }
        if count == 1 {
            let runtime = &runtimes[picked[0]];
            proof {
                assert(candidates(s, rs)[0] == picked@.map_values(|k: usize| rs[k as int])[0]);
            }
            if !runtime.health().is_ready() {
                let mut message = String::new();
                push_str(&mut message, "Selected runtime ");
                push_runtime_id(&mut message, runtime.id());
                push_str(&mut message, " is not ready");
                return Err(
                    Error::from_message(ErrorKind::BrokenRuntime, message).with_hint(
                        "Run pyrudder doctor and repair or unregister the runtime",
                    ),
                );
            }
            return Ok(RuntimeSelection::Registered(runtime));
        }
        let mut ids: Vec<Vec<char>> = Vec::new();
        let mut k: usize = 0;
        while k < count
            invariant
                count == picked@.len(),
                forall|j: int| 0 <= j < picked@.len() ==> picked@[j] < runtimes@.len(),
                k <= count,
                ids@.map_values(|v: Vec<char>| v@) == picked@.map_values(
                    |j: usize| runtime_id_text(runtimes@[j as int].spec_id()),
                ).take(k as int),
            decreases count - k,
        {
            let rec = &runtimes[picked[k]];
            let text = rec.id().to_string();
            let chars = chars_of(text.as_str());
            assert(chars@ == runtime_id_text(runtimes@[picked@[k as int] as int].spec_id()));
            let ghost old_ids = ids@.map_values(|v: Vec<char>| v@);
            ids.push(chars);
            proof {
                assert(ids@.map_values(|v: Vec<char>| v@) =~= old_ids.push(chars@));
                assert(ids@.map_values(|v: Vec<char>| v@) =~= picked@.map_values(
                    |j: usize| runtime_id_text(runtimes@[j as int].spec_id()),
                ).take(k + 1));
            }
            k = k + 1;
        }
        proof {
            assert(picked@.map_values(|j: usize| runtime_id_text(runtimes@[j as int].spec_id())).take(
                count as int,
            ) =~= candidate_ids(s, rs));
        }
        let sorted = crate::text::sort_texts(ids);
        let mut message = String::new();
        push_str(&mut message, "Multiple registrations match ");
        push_selector(&mut message, self);
        push_str(&mut message, ": ");
        crate::text::push_joined(&mut message, sorted.as_slice(), ", ");
        Err(
            Error::from_message(ErrorKind::Conflict, message).with_hint(
                "Choose an exact runtime ID or a unique alias; repair duplicate registrations if necessary",
            ),
        )
    }

    /// The latest version among matching records, for a minor-series selector.
    fn latest_match(&self, runtimes: &[RuntimeRecord]) -> (r: Option<PythonVersion>)
        ensures
            latest_facts(self@, runtimes@, r),
    {
        let ghost s = self@;
        let ghost rs = runtimes@;
        match self {
            VersionSelector::Minor { .. } => {},
            _ => {
                return None;
            },
        }
        let mut latest: Option<PythonVersion> = None;
        let mut i: usize = 0;
        while i < runtimes.len()
            invariant
                s == self@,
                rs == runtimes@,
                s is Minor,
                i <= rs.len(),
                latest is None <==> forall|j: int| 0 <= j < i ==> !selects(s, #[trigger] rs[j]),
                latest matches Some(m) ==> (exists|j: int|
                    0 <= j < i && selects(s, #[trigger] rs[j]) && record_version(rs[j]) == m),
                latest matches Some(m) ==> forall|j: int|
                    0 <= j < i && selects(s, #[trigger] rs[j]) ==> !crate::version::version_lt(
                        m,
                        record_version(rs[j]),
                    ),
            decreases rs.len() - i,
        {
            let ghost before = latest;
            let ghost vi = record_version(rs[i as int]);
            if self.matches(&runtimes[i]) {
                let v = runtimes[i].id().version();
                let replace = match latest {
                    None => true,
                    Some(m) => m.precedes(v),
                };
                if replace {
                    latest = Some(v);
                }
            }
            proof {
                if let Some(m2) = latest {
                    assert forall|j: int|
                        0 <= j < i + 1 && selects(s, #[trigger] rs[j]) implies !crate::version::version_lt(
                        m2,
                        record_version(rs[j]),
                    ) by {
                        crate::version::version_order_is_total(m2, m2, m2);
                        if let Some(m0) = before {
                            crate::version::version_order_is_total(m0, vi, record_version(rs[j]));
                            crate::version::version_order_is_total(vi, m0, record_version(rs[j]));
                        }
                    }
                    if before is None || m2 != before->0 {
                        assert(selects(s, rs[i as int]) && record_version(rs[i as int]) == m2);
                    }
                }
            }
            i = i + 1;
        }
        latest
    }

    fn matches(&self, runtime: &RuntimeRecord) -> (r: bool)
        ensures
            r == selects(self@, *runtime),
    {
        let version = runtime.id().version();
        match self {
            VersionSelector::Minor { major, minor } => version.major == *major && version.minor
                == *minor,
            VersionSelector::Exact(expected) => version == *expected,
            VersionSelector::Runtime(id) => *runtime.id() == *id,
            VersionSelector::Alias(alias) => runtime.has_alias(alias),
            VersionSelector::System => false,
        }
    }
}

/// What the first pass establishes: for a minor-series selector, the latest
/// matching version when there is a match.
pub open spec fn latest_facts(s: SelectorView, rs: Seq<RuntimeRecord>, latest: Option<PythonVersion>) -> bool {
    &&& (!(s is Minor) ==> latest is None)
    &&& (s is Minor ==> (latest is None <==> forall|j: int| 0 <= j < rs.len() ==> !selects(s, #[trigger] rs[j])))
    &&& (s is Minor && latest is Some) ==> {
        let m = latest->0;
        &&& exists|j: int| 0 <= j < rs.len() && selects(s, #[trigger] rs[j]) && record_version(rs[j]) == m
        &&& forall|j: int| 0 <= j < rs.len() && selects(s, #[trigger] rs[j]) ==> !crate::version::version_lt(m, record_version(rs[j]))
    }
}

proof fn lemma_candidate_test(s: SelectorView, rs: Seq<RuntimeRecord>, latest: Option<PythonVersion>, i: int)
    requires
        0 <= i < rs.len(),
        !(s is System),
        latest_facts(s, rs, latest),
    ensures
        is_candidate(s, rs, rs[i]) == (selects(s, rs[i]) && match latest {
            Some(m) => record_version(rs[i]) == m,
            None => true,
        }),
{
    if s is Minor && selects(s, rs[i]) {
        let m = latest->0;
        let j0 = choose|j: int| 0 <= j < rs.len() && selects(s, #[trigger] rs[j]) && record_version(rs[j]) == m;
        assert(selects(s, rs[j0]));
        crate::version::version_order_is_total(record_version(rs[i]), m, m);
        if record_version(rs[i]) == m {
            assert forall|j: int| 0 <= j < rs.len() && selects(s, #[trigger] rs[j]) implies !crate::version::version_lt(
                record_version(rs[i]),
                record_version(rs[j]),
            ) by {}
        } else {
            assert(!crate::version::version_lt(m, record_version(rs[i])));
            assert(crate::version::version_lt(record_version(rs[i]), m));
            assert(!is_latest(s, rs, rs[i]));
        }
    }
}

// ---------------------------------------------------------------------------
// Canonical spelling and parsing
// ---------------------------------------------------------------------------

/// Appends the canonical spelling of a selector.
pub fn push_selector(s: &mut String, selector: &VersionSelector)
    ensures
        final(s)@ == old(s)@ + selector_text(selector@),
{
    match selector {
        VersionSelector::Minor { major, minor } => {
            push_decimal(s, *major);
            push_char(s, '.');
            push_decimal(s, *minor);
        },
        VersionSelector::Exact(version) => push_version(s, *version),
        VersionSelector::Runtime(id) => push_runtime_id(s, id),
        VersionSelector::Alias(alias) => push_str(s, alias.as_str()),
        VersionSelector::System => push_str(s, "system"),
    }
    proof {
        assert(final(s)@ =~= old(s)@ + selector_text(selector@));
    }
}

impl VersionSelector {
    /// Canonical display: `M.m`, an exact version, a runtime ID, an alias, or `system`.
    pub fn to_string(&self) -> (r: String)
        ensures
            r@ == selector_text(self@),
    {
        let mut s = String::new();
        push_selector(&mut s, self);
        s
    }

    /// Parses a selector in any ASCII case. Accepted inputs are exactly the case
    /// variants of canonical spellings of writable selectors; there is no fallback
    /// from a malformed version or runtime ID to an alias.
    pub fn parse(input: &str) -> (r: Result<Self>)
        ensures
            r matches Ok(sel) ==> selector_wf(sel@) && selector_text(sel@) == lower_seq(input@),
            forall|v: SelectorView|
                selector_wf(v) && selector_text(v) == lower_seq(input@) ==> (r matches Ok(sel)
                    && sel@ == v),
            r matches Err(e) ==> e.spec_kind() == ErrorKind::Usage,
            match r {
                Ok(sel) => spec_parse_selector(input@) == Some(sel@),
                Err(_) => spec_parse_selector(input@) is None,
            },
    {
        let r = Self::parse_inner(input);
        proof {
            if r is Ok {
                lemma_spec_parse_selector(input@, r->Ok_0@);
            } else {
                if spec_parse_selector(input@) is Some {
                    let w = choose|w: SelectorView| selector_wf(w) && #[trigger] selector_text(w) == lower_seq(input@);
                    assert(selector_wf(w) && selector_text(w) == lower_seq(input@));
                }
            }
        }
        r
    }

    fn parse_inner(input: &str) -> (r: Result<Self>)
        ensures
            r matches Ok(sel) ==> selector_wf(sel@) && selector_text(sel@) == lower_seq(input@),
            forall|v: SelectorView|
                selector_wf(v) && selector_text(v) == lower_seq(input@) ==> (r matches Ok(sel)
                    && sel@ == v),
            r matches Err(e) ==> e.spec_kind() == ErrorKind::Usage,
    {
        let cs = chars_of(input);
        proof {
            lemma_lower_facts(input@);
        }
        if cs.len() == 0 || cs.len() > MAX_RUNTIME_ID_LENGTH || !is_ascii_chars(&cs) {
            proof {
                assert forall|v: SelectorView| selector_wf(v) && selector_text(v) == lower_seq(input@) implies false by {
                    lemma_selector_text_bounds(v);
                }
            }
            return Err(invalid_input("Selector must be nonempty ASCII and at most 128 bytes"));
        }
        let t = lower_chars(&cs);
        proof {
            reveal_strlit("system");
            lemma_fixed_words();
            assert forall|v: SelectorView| selector_wf(v) && #[trigger] selector_text(v) == t@ implies selector_shape(v, t@) by {
                lemma_selector_shape(v);
            }
        }
        if chars_eq_str(&t, "system") {
            return Ok(VersionSelector::System);
        }
        if starts_with_str(&t, "cpython-") {
            return match RuntimeId::parse(input) {
                Ok(id) => Ok(VersionSelector::Runtime(id)),
                Err(e) => Err(e),
            };
        }
        if '0' <= t[0] && t[0] <= '9' {
            let n = t.len();
            if let Some(k) = find_char(&t, '.') {
                let rest = slice_chars(&t, k + 1, n);
                if !contains_char(&rest, '.') {
                    let head = slice_chars(&t, 0, k);
                    proof {
                        assert(head@ == t@.take(k as int));
                        assert(rest@ == t@.skip(k + 1));
                        assert(t@ =~= head@ + seq!['.'] + rest@);
                    }
                    return match (parse_component(&head), parse_component(&rest)) {
                        (Some(major), Some(minor)) => {
                            proof {
                                lemma_component_roundtrip(head@);
                                lemma_component_roundtrip(rest@);
                                assert forall|v: SelectorView| selector_wf(v) && selector_text(v) == t@ implies v
                                    == SelectorView::Minor(major, minor) by {
                                    lemma_minor_unique(v, t@, k as int);
                                }
                            }
                            Ok(VersionSelector::Minor { major, minor })
                        },
                        _ => {
                            proof {
                                assert forall|v: SelectorView| selector_wf(v) && selector_text(v) == t@ implies false by {
                                    lemma_minor_unique(v, t@, k as int);
                                    lemma_dec(v->Minor_0 as nat);
                                    lemma_dec(v->Minor_1 as nat);
                                }
                            }
                            Err(invalid_input("Version components must be decimal numbers without leading zeroes"))
                        },
                    };
                }
            }
            let version = match PythonVersion::parse(input) {
                Ok(v) => v,
                Err(e) => return Err(e),
            };
            if !version.is_stable() {
                return Err(invalid_input("The MVP supports stable CPython x64 runtimes only"));
            }
            return Ok(VersionSelector::Exact(version));
        }
        match RuntimeAlias::parse(input) {
            Ok(alias) => Ok(VersionSelector::Alias(alias)),
            Err(e) => Err(e),
        }
    }
}

proof fn lemma_lower_facts(s: Seq<char>)
    ensures
        lower_seq(s).len() == s.len(),
        all_ascii(lower_seq(s)) == all_ascii(s),
        lower_seq(lower_seq(s)) == lower_seq(s),
{
    crate::text::lemma_lower_idempotent(s);
    if all_ascii(lower_seq(s)) {
        assert forall|i: int| 0 <= i < s.len() implies is_ascii_char(#[trigger] s[i]) by {
            assert(lower_seq(s)[i] == lower(s[i]));
        }
    }
    if all_ascii(s) {
        assert forall|i: int| 0 <= i < s.len() implies is_ascii_char(#[trigger] lower_seq(s)[i]) by {
            assert(is_ascii_char(s[i]));
        }
    }
}

/// Every writable selector has a nonempty ASCII spelling of at most 128 characters.
proof fn lemma_selector_text_bounds(v: SelectorView)
    requires
        selector_wf(v),
    ensures
        1 <= selector_text(v).len() <= MAX_RUNTIME_ID_LENGTH,
        all_ascii(selector_text(v)),
{
    reveal_strlit("system");
    match v {
        SelectorView::Minor(a, b) => {
            lemma_dec(a as nat);
            lemma_dec(b as nat);
            lemma_dec_component(a as nat);
            lemma_dec_component(b as nat);
            let t = selector_text(v);
            assert forall|i: int| 0 <= i < t.len() implies is_ascii_char(#[trigger] t[i]) by {
                if i < dec(a as nat).len() {
                    assert(t[i] == dec(a as nat)[i]);
                } else if i > dec(a as nat).len() {
                    assert(t[i] == dec(b as nat)[i - dec(a as nat).len() - 1]);
                }
            }
        },
        SelectorView::Exact(ver) => {
            lemma_parse_version_complete(ver);
            lemma_dec(ver.major as nat);
        },
        SelectorView::Runtime(id) => {
            lemma_runtime_id_text(id);
            lemma_fixed_words();
        },
        SelectorView::Alias(t) => {
            assert forall|i: int| 0 <= i < t.len() implies is_ascii_char(#[trigger] t[i]) by {
                assert(crate::runtime::alias_char(t[i]));
            }
        },
        SelectorView::System => {},
    }
}

/// Which branch of the parser a writable selector's spelling takes.
pub open spec fn selector_shape(v: SelectorView, t: Seq<char>) -> bool {
    &&& (v is System <==> t == "system"@)
    &&& (v is Runtime <==> (t.len() >= 8 && t.take(8) == cpython_prefix()))
    &&& ((v is Minor || v is Exact) <==> (t.len() > 0 && is_digit(t[0])))
    &&& (v is Minor ==> !has_char(t.skip(index_of(t, '.') + 1), '.') && index_of(t, '.') >= 0)
    &&& (v is Exact ==> (index_of(t, '.') >= 0 ==> has_char(t.skip(index_of(t, '.') + 1), '.')))
    &&& lower_seq(t) == t
}

proof fn lemma_selector_shape(v: SelectorView)
    requires
        selector_wf(v),
    ensures
        selector_shape(v, selector_text(v)),
{
    reveal_strlit("system");
    lemma_fixed_words();
    let t = selector_text(v);
    match v {
        SelectorView::Minor(a, b) => {
            lemma_dec(a as nat);
            lemma_dec(b as nat);
            lemma_index_of_concat(dec(a as nat), '.', dec(b as nat));
            assert(t.skip(dec(a as nat).len() as int + 1) =~= dec(b as nat));
            assert(t[0] == dec(a as nat)[0]);
            assert(lower_seq(t) =~= t) by {
                assert forall|i: int| 0 <= i < t.len() implies lower(t[i]) == t[i] by {
                    if i < dec(a as nat).len() {
                        assert(t[i] == dec(a as nat)[i]);
                    } else if i > dec(a as nat).len() {
                        assert(t[i] == dec(b as nat)[i - dec(a as nat).len() - 1]);
                    }
                }
            }
        },
        SelectorView::Exact(ver) => {
            lemma_parse_version_complete(ver);
            let a = dec(ver.major as nat);
            lemma_dec(ver.major as nat);
            let r1 = dec(ver.minor as nat) + seq!['.'] + dec(ver.patch as nat)
                + crate::version::release_text(ver.release);
            assert(t =~= a + seq!['.'] + r1);
            lemma_index_of_concat(a, '.', r1);
            assert(t.skip(a.len() as int + 1) =~= r1);
            assert(r1[dec(ver.minor as nat).len() as int] == '.');
            assert(t[0] == a[0]);
        },
        SelectorView::Runtime(id) => {
            lemma_runtime_id_text(id);
            assert(t.take(8) =~= cpython_prefix());
        },
        SelectorView::Alias(s) => {
            crate::runtime::alias_text_round_trips(s);
        },
        SelectorView::System => {
            assert(lower_seq(t) =~= t);
        },
    }
}

/// Distinct writable selectors have distinct canonical spellings.
pub proof fn selector_text_is_injective(a: SelectorView, b: SelectorView)
    requires
        selector_wf(a),
        selector_wf(b),
        selector_text(a) == selector_text(b),
    ensures
        a == b,
{
    let t = selector_text(a);
    lemma_selector_shape(a);
    lemma_selector_shape(b);
    match (a, b) {
        (SelectorView::Minor(a0, a1), SelectorView::Minor(b0, b1)) => {
            lemma_dec(a0 as nat);
            lemma_dec(a1 as nat);
            lemma_dec(b0 as nat);
            lemma_dec(b1 as nat);
            lemma_index_of_concat(dec(a0 as nat), '.', dec(a1 as nat));
            lemma_index_of_concat(dec(b0 as nat), '.', dec(b1 as nat));
            let k = index_of(t, '.');
            assert(t.take(k) =~= dec(a0 as nat));
            assert(t.take(k) =~= dec(b0 as nat));
            assert(t.skip(k + 1) =~= dec(a1 as nat));
            assert(t.skip(k + 1) =~= dec(b1 as nat));
        },
        (SelectorView::Exact(va), SelectorView::Exact(vb)) => {
            version_text_is_injective(va, vb);
        },
        (SelectorView::Runtime(ia), SelectorView::Runtime(ib)) => {
            runtime_id_text_is_injective(ia, ib);
        },
        _ => {},
    }
}

/// The selector a text denotes, when it denotes a writable one (in any ASCII case).
pub open spec fn spec_parse_selector(input: Seq<char>) -> Option<SelectorView> {
    if exists|v: SelectorView| selector_wf(v) && #[trigger] selector_text(v) == lower_seq(input) {
        Some(choose|v: SelectorView| selector_wf(v) && #[trigger] selector_text(v) == lower_seq(input))
    } else {
        None
    }
}

/// `spec_parse_selector` picks the unique writable selector with the given spelling.
pub proof fn lemma_spec_parse_selector(input: Seq<char>, v: SelectorView)
    requires
        selector_wf(v),
        selector_text(v) == lower_seq(input),
    ensures
        spec_parse_selector(input) == Some(v),
{
    let w = choose|w: SelectorView| selector_wf(w) && #[trigger] selector_text(w) == lower_seq(input);
    selector_text_is_injective(v, w);
}

/// A text split at its first dot into two components is the spelling of exactly
/// one writable selector.
proof fn lemma_minor_unique(v: SelectorView, t: Seq<char>, k: int)
    requires
        selector_wf(v),
        selector_text(v) == t,
        k == index_of(t, '.'),
        k >= 0,
        !has_char(t.skip(k + 1), '.'),
        t.len() > 0 && is_digit(t[0]),
    ensures
        v is Minor,
        dec(v->Minor_0 as nat) == t.take(k),
        dec(v->Minor_1 as nat) == t.skip(k + 1),
        component_value(t.take(k)) == Some(v->Minor_0),
        component_value(t.skip(k + 1)) == Some(v->Minor_1),
{
    lemma_selector_shape(v);
    let a = dec(v->Minor_0 as nat);
    let b = dec(v->Minor_1 as nat);
    lemma_dec(v->Minor_0 as nat);
    lemma_dec(v->Minor_1 as nat);
    lemma_dec_component(v->Minor_0 as nat);
    lemma_dec_component(v->Minor_1 as nat);
    lemma_index_of_concat(a, '.', b);
    assert(t.take(k) =~= a);
    assert(t.skip(k + 1) =~= b);
}

/// Conflict diagnostics do not depend on registration order: any two arrangements
/// of the same candidate IDs give the same message.
pub proof fn conflict_message_ignores_order(s: SelectorView, ids1: Seq<Seq<char>>, ids2: Seq<Seq<char>>)
    requires
        ids1.to_multiset() == ids2.to_multiset(),
    ensures
        conflict_message(s, ids1) == conflict_message(s, ids2),
{
    crate::text::lemma_text_order_total();
    ids1.lemma_sort_by_ensures(crate::text::text_order());
    ids2.lemma_sort_by_ensures(crate::text::text_order());
    vstd::seq_lib::lemma_sorted_unique(
        ids1.sort_by(crate::text::text_order()),
        ids2.sort_by(crate::text::text_order()),
        crate::text::text_order(),
    );
}

impl core::str::FromStr for VersionSelector {
    type Err = Error;

    fn from_str(input: &str) -> (r: core::result::Result<Self, Error>)
        ensures
            r matches Ok(sel) ==> selector_wf(sel@) && selector_text(sel@) == lower_seq(input@),
            forall|v: SelectorView|
                selector_wf(v) && selector_text(v) == lower_seq(input@) ==> (r matches Ok(sel)
                    && sel@ == v),
            r matches Err(e) ==> e.spec_kind() == ErrorKind::Usage,
            match r {
                Ok(sel) => spec_parse_selector(input@) == Some(sel@),
                Err(_) => spec_parse_selector(input@) is None,
            },
    {
        VersionSelector::parse(input)
    }
}


// ---------------------------------------------------------------------------
// Independence of registration order
// ---------------------------------------------------------------------------

proof fn lemma_filter_count<A>(a: Seq<A>, p: spec_fn(A) -> bool, x: A)
    ensures
        a.filter(p).to_multiset().count(x) == if p(x) {
            a.to_multiset().count(x)
        } else {
            0
        },
    decreases a.len(),
{
    broadcast use vstd::seq_lib::group_to_multiset_ensures;
    broadcast use vstd::multiset::group_multiset_axioms;

    reveal(Seq::filter);
    if a.len() == 0 {
        assert(a.to_multiset().count(x) == 0);
    } else {
        let a0 = a.drop_last();
        lemma_filter_count(a0, p, x);
        assert(a =~= a0.push(a.last()));
        assert(a.to_multiset() == a0.to_multiset().insert(a.last()));
        if p(a.last()) {
            assert(a.filter(p) == a0.filter(p).push(a.last()));
            assert(a.filter(p).to_multiset() == a0.filter(p).to_multiset().insert(a.last()));
        } else {
            assert(a.filter(p) == a0.filter(p));
        }
    }
}

/// Filtering two arrangements of the same elements keeps the same elements.
proof fn lemma_filter_permutation<A>(a: Seq<A>, b: Seq<A>, p: spec_fn(A) -> bool)
    requires
        a.to_multiset() == b.to_multiset(),
    ensures
        a.filter(p).to_multiset() == b.filter(p).to_multiset(),
{
    assert forall|x: A| a.filter(p).to_multiset().count(x) == b.filter(p).to_multiset().count(x) by {
        lemma_filter_count(a, p, x);
        lemma_filter_count(b, p, x);
    }
    assert(a.filter(p).to_multiset() =~= b.filter(p).to_multiset());
}

/// Mapping two arrangements of the same elements gives the same elements.
proof fn lemma_map_permutation<A, B>(a: Seq<A>, b: Seq<A>, f: spec_fn(A) -> B)
    requires
        a.to_multiset() == b.to_multiset(),
    ensures
        a.map_values(f).to_multiset() == b.map_values(f).to_multiset(),
    decreases a.len(),
{
    broadcast use vstd::seq_lib::group_to_multiset_ensures;
    broadcast use vstd::multiset::group_multiset_axioms;

    assert(a.len() == a.to_multiset().len());
    assert(b.len() == b.to_multiset().len());
    if a.len() == 0 {
        assert(a.map_values(f) =~= Seq::<B>::empty());
        assert(b.map_values(f) =~= Seq::<B>::empty());
    } else {
        let x = a.last();
        let a0 = a.drop_last();
        assert(a =~= a0.push(x));
        assert(a.to_multiset() == a0.to_multiset().insert(x));
        assert(a.to_multiset().count(x) > 0);
        assert(b.contains(x));
        let k = choose|k: int| 0 <= k < b.len() && b[k] == x;
        let b0 = b.remove(k);
        assert(b0.to_multiset() == b.to_multiset().remove(b[k]));
        assert(a0.to_multiset() =~= b0.to_multiset());
        lemma_map_permutation(a0, b0, f);
        assert(a.map_values(f) =~= a0.map_values(f).push(f(x)));
        assert(a.map_values(f).to_multiset() == a0.map_values(f).to_multiset().insert(f(x)));
        let mb = b.map_values(f);
        assert(mb.remove(k) =~= b0.map_values(f));
        assert(mb.remove(k).to_multiset() == mb.to_multiset().remove(mb[k]));
        assert(mb[k] == f(x));
        assert(mb.contains(f(x)));
        assert(mb.to_multiset().count(f(x)) > 0);
        assert(mb.to_multiset() =~= b0.map_values(f).to_multiset().insert(f(x)));
    }
}

/// A minor-series selector `M.m` only ever chooses a runtime of that series, the
/// newest one registered: the chosen record's version has major `M` and minor `m`, and
/// no registered `M.m` runtime is newer. When nothing of the series is registered,
/// selection fails as not installed.
pub proof fn minor_selection_stays_in_its_series(
    major: u32,
    minor: u32,
    rs: Seq<RuntimeRecord>,
    r: Result<RuntimeSelection>,
)
    requires
        selection_outcome(SelectorView::Minor(major, minor), rs, r),
    ensures
        r matches Ok(RuntimeSelection::Registered(rec)) ==> {
            &&& record_version(*rec).major == major
            &&& record_version(*rec).minor == minor
            &&& forall|i: int|
                0 <= i < rs.len() && record_version(#[trigger] rs[i]).major == major && record_version(rs[i]).minor
                    == minor ==> !crate::version::version_lt(record_version(*rec), record_version(rs[i]))
        },
        (forall|i: int|
            0 <= i < rs.len() ==> !(record_version(#[trigger] rs[i]).major == major && record_version(rs[i]).minor
                == minor)) ==> (r matches Err(e) && e.spec_kind() == ErrorKind::NotInstalled),
{
    let s = SelectorView::Minor(major, minor);
    let pred = |x: RuntimeRecord| is_candidate(s, rs, x);
    let c = candidates(s, rs);
    if c.len() > 0 {
        rs.lemma_filter_pred(pred, 0);
        assert(c.contains(c[0]));
        rs.lemma_filter_contains_rev(pred, c[0]);
        let k = choose|k: int| 0 <= k < rs.len() && rs[k] == c[0];
        assert(selects(s, rs[k]));
    }
}

/// A selected runtime is what the selector names and is ready: an exact version selects
/// a record of that version, a runtime ID the record with that ID, an alias a record
/// carrying that alias; the system selector selects no record.
pub proof fn selected_record_fits_selector(s: SelectorView, rs: Seq<RuntimeRecord>, r: Result<RuntimeSelection>)
    requires
        selection_outcome(s, rs, r),
    ensures
        r matches Ok(RuntimeSelection::Registered(rec)) ==> {
            &&& rec.spec_health() is Ready
            &&& rs.contains(*rec)
            &&& (s matches SelectorView::Exact(v) ==> record_version(*rec) == v)
            &&& (s matches SelectorView::Runtime(id) ==> rec.spec_id() == id)
            &&& (s matches SelectorView::Alias(a) ==> rec.spec_aliases().contains(a))
            &&& !(s is System)
        },
        s is System ==> r == Ok::<RuntimeSelection, Error>(RuntimeSelection::SystemRequested),
{
    let pred = |x: RuntimeRecord| is_candidate(s, rs, x);
    let c = candidates(s, rs);
    if c.len() > 0 {
        rs.lemma_filter_pred(pred, 0);
        assert(c.contains(c[0]));
        rs.lemma_filter_contains_rev(pred, c[0]);
    }
}

/// Selection does not depend on the order in which runtimes were registered: the
/// same registrations in any order give the same outcome, conflict diagnostics
/// included.
pub proof fn selection_ignores_registration_order(
    s: SelectorView,
    rs1: Seq<RuntimeRecord>,
    rs2: Seq<RuntimeRecord>,
    r: Result<RuntimeSelection>,
)
    requires
        rs1.to_multiset() == rs2.to_multiset(),
    ensures
        selection_outcome(s, rs1, r) <==> selection_outcome(s, rs2, r),
{
    broadcast use vstd::seq_lib::group_to_multiset_ensures;
    broadcast use vstd::multiset::group_multiset_axioms;

    assert forall|x: RuntimeRecord| rs1.contains(x) <==> rs2.contains(x) by {
        assert(rs1.contains(x) <==> rs1.to_multiset().count(x) > 0);
        assert(rs2.contains(x) <==> rs2.to_multiset().count(x) > 0);
    }
    let p1 = |r: RuntimeRecord| is_candidate(s, rs1, r);
    let p2 = |r: RuntimeRecord| is_candidate(s, rs2, r);
    assert forall|x: RuntimeRecord| #[trigger] p1(x) == p2(x) by {
        if is_latest(s, rs1, x) {
            assert forall|j: int| 0 <= j < rs2.len() && selects(s, #[trigger] rs2[j]) implies !crate::version::version_lt(
                record_version(x),
                record_version(rs2[j]),
            ) by {
                assert(rs2.contains(rs2[j]));
                let i = choose|i: int| 0 <= i < rs1.len() && rs1[i] == rs2[j];
                assert(selects(s, rs1[i]));
            }
        }
        if is_latest(s, rs2, x) {
            assert forall|j: int| 0 <= j < rs1.len() && selects(s, #[trigger] rs1[j]) implies !crate::version::version_lt(
                record_version(x),
                record_version(rs1[j]),
            ) by {
                assert(rs1.contains(rs1[j]));
                let i = choose|i: int| 0 <= i < rs2.len() && rs2[i] == rs1[j];
                assert(selects(s, rs2[i]));
            }
        }
    }
    assert(p1 =~= p2);
    let c1 = candidates(s, rs1);
    let c2 = candidates(s, rs2);
    assert(c2 == rs2.filter(p1));
    lemma_filter_permutation(rs1, rs2, p1);
    assert(c1.to_multiset() == c2.to_multiset());
    assert(c1.len() == c1.to_multiset().len());
    assert(c2.len() == c2.to_multiset().len());
    assert(c1.len() == c2.len());
    if c1.len() == 1 {
        assert(c1.contains(c1[0]));
        assert(c2.to_multiset().count(c1[0]) > 0);
        assert(c2.contains(c1[0]));
        assert(c2[0] == c1[0]);
    }
    let f = |rec: RuntimeRecord| runtime_id_text(rec.spec_id());
    lemma_map_permutation(c1, c2, f);
    conflict_message_ignores_order(s, candidate_ids(s, rs1), candidate_ids(s, rs2));
}

} // verus!
