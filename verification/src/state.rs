//! Bounded selection files and an injectable platform I/O boundary.
use crate::error::{Error, ErrorKind, Result};
use crate::runtime::{push_runtime_id, runtime_id_text, RuntimeId, RuntimeRecord};
use crate::selector::{
    candidates, selection_outcome, selector_text, selector_wf, spec_parse_selector,
    RuntimeSelection, SelectorView, VersionSelector,
};
use crate::version::version_text;
use crate::text::{chars_of, lower_seq, push_char, push_str, slice_chars, string_of};
use vstd::prelude::*;

verus! {

/// Maximum selection-file bytes, including an optional BOM and CRLF.
pub const MAX_SELECTION_FILE_BYTES: usize = 133;

/// Platform operations used by configuration, state, and resolution.
///
/// Paths are Unicode text. Implementations decide what each call returns; the
/// library states what it does with every possible answer.
pub trait StateFileSystem {
    /// Reads one ordinary file; absence alone returns `None`. Rejects reparse points and
    /// oversized data, and returns path, type, size or I/O failures, never silently
    /// treating them as absence.
    fn read_file(&self, path: &str, max_bytes: usize) -> Result<Option<Vec<u8>>>;

    /// Normalizes an absolute directory, including a possibly missing tail, without creating it.
    fn normalize_directory(&self, path: &str) -> Result<String>;

    /// Returns the canonical identity path of an existing directory for boundary comparisons.
    fn canonical_directory(&self, path: &str) -> Result<String>;

    /// Atomically replaces a file in an existing, caller-owned directory; no read-modify-write.
    /// Failures before publication preserve the old file.
    fn write_atomic(&self, path: &str, contents: &[u8]) -> Result<()>;
}

// ---------------------------------------------------------------------------
// Decoding
// ---------------------------------------------------------------------------

/// The text UTF-8 bytes encode, or `None` when they are not valid UTF-8.
pub open spec fn utf8_text(bytes: Seq<u8>) -> Option<Seq<char>> {
    if vstd::utf8::valid_utf8(bytes) {
        Some(vstd::utf8::decode_utf8(bytes))
    } else {
        None
    }
}

/// `std::str::from_utf8`: accepts exactly the byte sequences that are valid UTF-8
/// and yields the characters they encode.
#[verifier::external_body]
fn decode_utf8(bytes: &[u8]) -> (r: Option<String>)
    ensures
        r is Some <==> vstd::utf8::valid_utf8(bytes@),
        r matches Some(s) ==> s@ == vstd::utf8::decode_utf8(bytes@),
{
    match std::str::from_utf8(bytes) {
        Ok(text) => Some(text.to_owned()),
        Err(_) => None,
    }
}

pub open spec fn ascii_bytes(b: Seq<u8>) -> bool {
    forall|i: int| 0 <= i < b.len() ==> #[trigger] b[i] < 128
}

/// ASCII bytes read as the characters with the same codes.
pub open spec fn ascii_text(b: Seq<u8>) -> Seq<char> {
    b.map_values(|x: u8| x as char)
}

/// The text of a selection file: ASCII bytes are their own characters (UTF-8 is
/// ASCII-compatible); anything else goes through the UTF-8 decoder.
pub open spec fn decoded_text(b: Seq<u8>) -> Option<Seq<char>> {
    if ascii_bytes(b) {
        Some(ascii_text(b))
    } else {
        utf8_text(b)
    }
}

/// Decodes the text of a small state or configuration file.
pub fn decode_text(bytes: &[u8]) -> (r: Option<String>)
    ensures
        match r {
            Some(s) => decoded_text(bytes@) == Some(s@),
            None => decoded_text(bytes@) is None,
        },
{
    let mut i: usize = 0;
    while i < bytes.len()
        invariant
            i <= bytes@.len(),
            forall|j: int| 0 <= j < i ==> #[trigger] bytes@[j] < 128,
        decreases bytes.len() - i,
    {
        if bytes[i] >= 128 {
            return decode_utf8(bytes);
        }
        i = i + 1;
    }
    let mut s = String::new();
    let mut k: usize = 0;
    while k < bytes.len()
        invariant
            k <= bytes@.len(),
            s@ == ascii_text(bytes@.take(k as int)),
        decreases bytes.len() - k,
    {
        push_char(&mut s, bytes[k] as char);
        k = k + 1;
        assert(ascii_text(bytes@.take(k as int)) =~= ascii_text(bytes@.take(k - 1)).push(
            bytes@[k - 1] as char,
        ));
    }
    assert(bytes@.take(bytes@.len() as int) =~= bytes@);
    Some(s)
}

// ---------------------------------------------------------------------------
// Selection files
// ---------------------------------------------------------------------------

/// The selector text of a file: one optional leading BOM and one optional LF or
/// CRLF terminator are removed; nothing else is.
pub open spec fn selection_payload(t: Seq<char>) -> Seq<char> {
    let a = if t.len() > 0 && t[0] == '\u{feff}' {
        t.drop_first()
    } else {
        t
    };
    if a.len() >= 2 && a[a.len() - 2] == '\r' && a[a.len() - 1] == '\n' {
        a.take(a.len() - 2)
    } else if a.len() >= 1 && a[a.len() - 1] == '\n' {
        a.take(a.len() - 1)
    } else {
        a
    }
}

pub open spec fn oversized_message() -> Seq<char> {
    "Selection file exceeds 133 bytes"@
}

pub open spec fn encoding_message() -> Seq<char> {
    "Selection file must be UTF-8"@
}

/// What reading a selection file's bytes yields.
pub open spec fn selection_file_outcome(bytes: Seq<u8>, r: Result<VersionSelector>) -> bool {
    if bytes.len() > MAX_SELECTION_FILE_BYTES {
        r matches Err(e) && e.spec_kind() == ErrorKind::Usage && e.spec_message()
            == oversized_message()
    } else {
        match decoded_text(bytes) {
            None => r matches Err(e) && e.spec_kind() == ErrorKind::Usage && e.spec_message()
                == encoding_message(),
            Some(t) => match r {
                Ok(sel) => spec_parse_selector(selection_payload(t)) == Some(sel@),
                Err(e) => spec_parse_selector(selection_payload(t)) is None && e.spec_kind()
                    == ErrorKind::Usage,
            },
        }
    }
}

/// Parses UTF-8 single-line text, accepting one optional BOM and one LF or CRLF terminator.
///
/// Rejects excessive length, invalid encoding, extra lines, whitespace, or invalid selectors.
pub fn parse_selection_file(bytes: &[u8]) -> (r: Result<VersionSelector>)
    ensures
        selection_file_outcome(bytes@, r),
{
    if bytes.len() > MAX_SELECTION_FILE_BYTES {
        return Err(Error::new(ErrorKind::Usage, "Selection file exceeds 133 bytes"));
    }
    let text = match decode_text(bytes) {
        Some(text) => text,
        None => return Err(Error::new(ErrorKind::Usage, "Selection file must be UTF-8")),
    };
    let cs = chars_of(text.as_str());
    let mut lo: usize = 0;
    if cs.len() > 0 && cs[0] == '\u{feff}' {
        lo = 1;
    }
    let n = cs.len();
    let mut hi: usize = n;
    if n >= lo + 2 && cs[n - 2] == '\r' && cs[n - 1] == '\n' {
        hi = n - 2;
    } else if n >= lo + 1 && cs[n - 1] == '\n' {
        hi = n - 1;
    }
    let payload = string_of(&slice_chars(&cs, lo, hi));
    proof {
        let t = cs@;
        let a = if t.len() > 0 && t[0] == '\u{feff}' {
            t.drop_first()
        } else {
            t
        };
        assert(a =~= t.subrange(lo as int, t.len() as int));
        assert(payload@ =~= selection_payload(t));
    }
    VersionSelector::parse(payload.as_str())
}

/// What a selection file read yields from the answer of the bounded file read: absence
/// is no choice, and bytes must form a valid selection file. A failed read, like a
/// malformed file, keeps its kind and message and names the escaped path in its hint.
pub open spec fn read_answer(
    read: Result<Option<Vec<u8>>>,
    path: Seq<char>,
    r: Result<Option<VersionSelector>>,
) -> bool {
    match read {
        Err(e) => r matches Err(x) && x.spec_kind() == e.spec_kind() && x.spec_message()
            == e.spec_message() && x.spec_hint() == Some(bad_file_hint(path)),
        Ok(None) => r == Ok::<Option<VersionSelector>, Error>(None),
        Ok(Some(bytes)) => match r {
            Ok(Some(sel)) => selection_file_outcome(bytes@, Ok(sel)),
            Ok(None) => false,
            Err(e) => exists|e0: Error|
                selection_file_outcome(bytes@, Err(e0)) && e.spec_kind() == e0.spec_kind()
                    && e.spec_message() == e0.spec_message() && e.spec_hint() == Some(
                    bad_file_hint(path),
                ),
        },
    }
}

/// Reads and validates a selection file without interpreting it as a command or path.
pub fn read_selection_file<F: StateFileSystem>(fs: &F, path: &str) -> (r: Result<
    Option<VersionSelector>,
>)
    ensures
        exists|read: Result<Option<Vec<u8>>>|
            #[trigger] read_answer(read, path@, r) && call_ensures(
                F::read_file,
                (fs, path, MAX_SELECTION_FILE_BYTES),
                read,
            ),
        r matches Ok(Some(sel)) ==> selector_wf(sel@),
{
    let read = fs.read_file(path, MAX_SELECTION_FILE_BYTES);
    selection_from_read(read, path)
}

/// The hint that names a selection file.
fn bad_file_hint_text(path: &str) -> (r: String)
    ensures
        r@ == bad_file_hint(path@),
{
    let mut hint = String::new();
    push_str(&mut hint, "Check selection file \"");
    let escaped = escape_debug(path);
    push_str(&mut hint, escaped.as_str());
    push_str(&mut hint, "\"");
    proof {
        assert(hint@ =~= bad_file_hint(path@));
    }
    hint
}

/// The quoted, escaped location named in the hint of a malformed selection file.
pub open spec fn bad_file_hint(path: Seq<char>) -> Seq<char> {
    "Check selection file \""@ + escaped_text(path) + "\""@
}

/// The text `str::escape_debug` produces for a string.
pub uninterp spec fn escaped_text(s: Seq<char>) -> Seq<char>;

/// `str::escape_debug`: the string with control and non-printable characters escaped.
#[verifier::external_body]
pub(crate) fn escape_debug(s: &str) -> (r: String)
    ensures
        r@ == escaped_text(s@),
{
    s.escape_debug().to_string()
}

/// Interprets the answer of a bounded file read: absence is no choice, and bytes must
/// form a valid selection file; a failed read's or a malformed file's error names the
/// escaped path.
pub fn selection_from_read(read: Result<Option<Vec<u8>>>, path: &str) -> (r: Result<
    Option<VersionSelector>,
>)
    ensures
        read_answer(read, path@, r),
        r matches Ok(Some(sel)) ==> selector_wf(sel@),
{
    match read {
        Err(e) => Err(e.with_hint(bad_file_hint_text(path).as_str())),
        Ok(None) => Ok(None),
        Ok(Some(bytes)) => match parse_selection_file(bytes.as_slice()) {
            Ok(sel) => {
                proof {
                    lemma_parsed_selector_wf(bytes@, sel);
                }
                Ok(Some(sel))
            },
            Err(e) => {
                let ghost e0 = e;
                let hint = bad_file_hint_text(path);
                let e = e.with_hint(hint.as_str());
                Err(e)
            },
        },
    }
}

proof fn lemma_parsed_selector_wf(bytes: Seq<u8>, sel: VersionSelector)
    requires
        selection_file_outcome(bytes, Ok(sel)),
    ensures
        selector_wf(sel@),
{
    let t = decoded_text(bytes)->0;
    let input = selection_payload(t);
    let w = choose|w: SelectorView| selector_wf(w) && #[trigger] selector_text(w) == lower_seq(input);
    assert(selector_wf(w));
}

// ---------------------------------------------------------------------------
// Pinned choices
// ---------------------------------------------------------------------------

/// A stable on-disk choice, never a floating version or alias.
#[derive(Clone, Copy, Debug, PartialEq, Eq)]
pub enum PinnedSelection {
    /// Exact installation identity.
    Runtime(RuntimeId),
    /// Explicit system request, still requiring dispatch-time PATH filtering.
    System,
}

/// Canonical spelling of a pinned choice.
pub open spec fn pinned_text(p: PinnedSelection) -> Seq<char> {
    match p {
        PinnedSelection::Runtime(id) => runtime_id_text(id),
        PinnedSelection::System => "system"@,
    }
}

/// The selector a pinned choice denotes.
pub open spec fn pinned_selector(p: PinnedSelection) -> SelectorView {
    match p {
        PinnedSelection::Runtime(id) => SelectorView::Runtime(id),
        PinnedSelection::System => SelectorView::System,
    }
}

/// The bytes published for a pinned choice: its canonical spelling plus LF.
pub open spec fn pinned_bytes(p: PinnedSelection) -> Seq<u8> {
    (pinned_text(p) + seq!['\n']).map_values(|c: char| c as u8)
}

impl PinnedSelection {
    /// The canonical spelling: an exact runtime ID or `system`.
    pub fn to_string(&self) -> (r: String)
        ensures
            r@ == pinned_text(*self),
    {
        let mut s = String::new();
        match self {
            PinnedSelection::Runtime(id) => push_runtime_id(&mut s, id),
            PinnedSelection::System => push_str(&mut s, "system"),
        }
        s
    }
}

/// The contents published for a pinned choice.
pub fn pinned_file_bytes(p: &PinnedSelection) -> (r: Vec<u8>)
    ensures
        r@ == pinned_bytes(*p),
{
    let mut text = p.to_string();
    push_char(&mut text, '\n');
    let cs = chars_of(text.as_str());
    proof {
        lemma_pinned_text(*p);
        assert(cs@ =~= pinned_text(*p) + seq!['\n']);
    }
    let mut out: Vec<u8> = Vec::new();
    let mut i: usize = 0;
    while i < cs.len()
        invariant
            i <= cs@.len(),
            cs@ == pinned_text(*p) + seq!['\n'],
            crate::text::all_ascii(cs@),
            out@ == cs@.take(i as int).map_values(|c: char| c as u8),
        decreases cs.len() - i,
    {
        assert(crate::text::is_ascii_char(cs@[i as int]));
        out.push(cs[i] as u8);
        i = i + 1;
        assert(out@ =~= cs@.take(i as int).map_values(|c: char| c as u8));
    }
    assert(cs@.take(cs@.len() as int) =~= cs@);
    out
}

proof fn lemma_pinned_text(p: PinnedSelection)
    ensures
        crate::text::all_ascii(pinned_text(p) + seq!['\n']),
        pinned_text(p).len() <= 128,
        lower_seq(pinned_text(p)) == pinned_text(p),
        selector_text(pinned_selector(p)) == pinned_text(p),
        pinned_text(p).len() > 0,
        pinned_text(p)[0] != '\u{feff}',
        pinned_text(p)[pinned_text(p).len() - 1] != '\r',
{
    reveal_strlit("system");
    crate::runtime::lemma_fixed_words();
    match p {
        PinnedSelection::Runtime(id) => {
            crate::runtime::lemma_runtime_id_text(id);
            let t = runtime_id_text(id);
            let base = crate::runtime::cpython_prefix() + version_text(id.spec_version())
                + crate::runtime::x64_suffix();
            assert(t[0] == base[0]);
            if let Some(q) = id.spec_installation() {
                let h = crate::runtime::installation_text(q.spec_value());
                crate::text::lemma_pow16_32();
                crate::text::lemma_hex_fixed(q.spec_value() as nat, 32);
                assert(t[t.len() - 1] == h[31]);
                assert(crate::text::is_hex_digit(h[31]));
            } else {
                assert(t[t.len() - 1] == base[base.len() - 1]);
            }
        },
        PinnedSelection::System => {
            assert(lower_seq("system"@) =~= "system"@);
        },
    }
    let t = pinned_text(p) + seq!['\n'];
    assert forall|i: int| 0 <= i < t.len() implies crate::text::is_ascii_char(#[trigger] t[i]) by {
        if i < pinned_text(p).len() {
            assert(t[i] == pinned_text(p)[i]);
        }
    }
}

/// A published choice reads back as itself: the bytes written for a pinned choice
/// parse as the selector it denotes, whatever other state exists.
pub proof fn pinned_file_reads_back(p: PinnedSelection, r: Result<VersionSelector>)
    requires
        p matches PinnedSelection::Runtime(id) ==> id.is_wf(),
        selection_file_outcome(pinned_bytes(p), r),
    ensures
        r matches Ok(sel) && sel@ == pinned_selector(p),
{
    lemma_pinned_text(p);
    let t = pinned_text(p) + seq!['\n'];
    let b = pinned_bytes(p);
    assert forall|i: int| 0 <= i < b.len() implies #[trigger] b[i] < 128 by {
        assert(crate::text::is_ascii_char(t[i]));
    }
    assert(ascii_text(b) =~= t) by {
        assert forall|i: int| 0 <= i < t.len() implies ascii_text(b)[i] == t[i] by {
            assert(crate::text::is_ascii_char(t[i]));
        }
    }
    reveal_strlit("system");
    crate::runtime::lemma_fixed_words();
    assert(t[0] == pinned_text(p)[0]);
    assert(t[t.len() - 2] == pinned_text(p)[pinned_text(p).len() - 1]);
    assert(selector_wf(pinned_selector(p)));
    assert(selection_payload(t) =~= pinned_text(p));
    crate::selector::lemma_spec_parse_selector(pinned_text(p), pinned_selector(p));
}

pub open spec fn policy_message() -> Seq<char> {
    "System fallback is disabled"@
}

pub open spec fn policy_hint() -> Seq<char> {
    "Explicitly enable commands.system_fallback in trusted user configuration"@
}

/// The system fallback is used only when trusted configuration enables it.
pub fn check_system_policy(allowed: bool) -> (r: Result<()>)
    ensures
        allowed ==> r is Ok,
        !allowed ==> (r matches Err(e) && e.spec_kind() == ErrorKind::Usage && e.spec_message()
            == policy_message() && e.spec_hint() == Some(policy_hint())),
{
    if !allowed {
        return Err(
            Error::new(ErrorKind::Usage, "System fallback is disabled").with_hint(
                "Explicitly enable commands.system_fallback in trusted user configuration",
            ),
        );
    }
    Ok(())
}

/// What a choice that may be pinned is recorded as.
pub open spec fn pinned_choice(s: SelectorView, rs: Seq<RuntimeRecord>) -> PinnedSelection {
    if s is System {
        PinnedSelection::System
    } else {
        PinnedSelection::Runtime(candidates(s, rs)[0].spec_id())
    }
}

/// Whether a choice resolves to something that may be pinned.
pub open spec fn pin_succeeds(s: SelectorView, rs: Seq<RuntimeRecord>, allow_system: bool) -> bool {
    if s is System {
        allow_system
    } else {
        let c = candidates(s, rs);
        &&& !(s matches SelectorView::Exact(v) && !v.spec_is_stable())
        &&& c.len() == 1
        &&& c[0].spec_health() is Ready
    }
}

/// What pinning a choice yields: the exact ID of the unique healthy candidate, an
/// allowed system request, or the selection or policy error.
pub open spec fn pin_outcome(
    s: SelectorView,
    rs: Seq<RuntimeRecord>,
    allow_system: bool,
    r: Result<PinnedSelection>,
) -> bool {
    if s is System {
        if allow_system {
            r == Ok::<PinnedSelection, Error>(PinnedSelection::System)
        } else {
            r matches Err(e) && e.spec_kind() == ErrorKind::Usage && e.spec_message()
                == policy_message() && e.spec_hint() == Some(policy_hint())
        }
    } else if pin_succeeds(s, rs, allow_system) {
        r == Ok::<PinnedSelection, Error>(PinnedSelection::Runtime(candidates(s, rs)[0].spec_id()))
    } else {
        r matches Err(e) && selection_outcome(s, rs, Err(e))
    }
}

/// Resolves a choice to the exact ID or system request that a selection file records.
pub fn pin_selection(selector: &VersionSelector, runtimes: &[RuntimeRecord], allow_system: bool) -> (r:
    Result<PinnedSelection>)
    ensures
        pin_outcome(selector@, runtimes@, allow_system, r),
{
    match selector.select(runtimes) {
        Ok(RuntimeSelection::Registered(runtime)) => Ok(PinnedSelection::Runtime(*runtime.id())),
        Ok(RuntimeSelection::SystemRequested) => match check_system_policy(allow_system) {
            Ok(()) => Ok(PinnedSelection::System),
            Err(e) => Err(e),
        },
        Err(e) => Err(e),
    }
}

/// Resolves a choice before atomically publishing its exact ID plus LF.
///
/// The caller supplies an authorized local/global target with an existing parent
/// directory. Invalid, missing, ambiguous, unhealthy, or policy-disallowed selections
/// never reach the file system; a failed publication is reported as is.
pub fn write_selection_file<F: StateFileSystem>(
    fs: &F,
    path: &str,
    selector: &VersionSelector,
    runtimes: &[RuntimeRecord],
    allow_system: bool,
) -> (r: Result<PinnedSelection>)
    ensures
        !pin_succeeds(selector@, runtimes@, allow_system) ==> pin_outcome(
            selector@,
            runtimes@,
            allow_system,
            r,
        ),
        r is Ok ==> pin_outcome(selector@, runtimes@, allow_system, r),
        pin_succeeds(selector@, runtimes@, allow_system) ==> exists|contents: &[u8], w: Result<()>|
            {
                &&& contents@ == pinned_bytes(pinned_choice(selector@, runtimes@))
                &&& #[trigger] call_ensures(F::write_atomic, (fs, path, contents), w)
                &&& match w {
                    Ok(()) => r == Ok::<PinnedSelection, Error>(pinned_choice(selector@, runtimes@)),
                    Err(e) => r == Err::<PinnedSelection, Error>(e),
                }
            },
{
    let pinned = match pin_selection(selector, runtimes, allow_system) {
        Ok(p) => p,
        Err(e) => return Err(e),
    };
    let bytes = pinned_file_bytes(&pinned);
    let contents = bytes.as_slice();
    let w = fs.write_atomic(path, contents);
    proof {
        assert(call_ensures(F::write_atomic, (fs, path, contents), w));
    }
    match w {
        Ok(()) => Ok(pinned),
        Err(e) => Err(e),
    }
}

} // verus!
