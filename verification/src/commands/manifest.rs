//! Deterministic command snapshots and strict per-runtime lookup.
use crate::commands::{
    extension_rank, mapped_key, mapping_outcome, name_valid, reserved_stem, spec_split, CommandCaseMapper, CommandExtension,
    CommandKey, CommandKind, CommandRequest, RequestView,
};
use crate::error::{Error, ErrorKind, Result};
use crate::paths::{
    path_eq, path_file_name, spec_path_eq, spec_path_file_name, spec_valid_runtime_path,
    validate_path,
};
use crate::runtime::RuntimeId;
use crate::text::{chars_of, text_le, text_le_chars};
use vstd::prelude::*;

verus! {

/// Source priority: root, then recorded script-directory order.
#[derive(Clone, Copy, Debug, PartialEq, Eq, PartialOrd, Ord, Hash, Structural)]
pub enum CommandOrigin {
    /// Runtime root.
    Root,
    /// Zero-based script-directory index.
    Script(usize),
}

/// Rejection retained instead of silently trying a lower-priority file.
#[derive(Clone, Copy, Debug, PartialEq, Eq, Structural)]
pub enum CommandRejection {
    /// Malformed or truncated PE header.
    InvalidPe,
    /// Unsupported architecture, subsystem, DLL, or legacy DOS COM file.
    UnsupportedImage,
    /// Symlink, junction, or another reparse point.
    ReparsePoint,
}

/// Header classification, not proof that Windows can load or safely run the file.
#[derive(Clone, Copy, Debug, PartialEq, Eq, Structural)]
pub enum CommandStatus {
    /// Supported candidate.
    Available(CommandKind),
    /// Rejected candidate, still masking lower-priority candidates.
    Rejected(CommandRejection),
}

/// A point in time relative to the Unix epoch.
#[derive(Clone, Copy, Debug, PartialEq, Eq, Structural)]
pub struct Timestamp {
    /// Whole seconds (negative before the epoch).
    pub seconds: i64,
    /// Nanoseconds within the second.
    pub nanos: u32,
}

/// Metadata observation, not file identity or integrity proof.
#[derive(Clone, Debug, PartialEq, Eq)]
pub struct EntryFingerprint {
    /// Original filename, or `None` when it is not Unicode.
    pub name: Option<String>,
    /// Observed size.
    pub size: u64,
    /// Observed last-write time.
    pub modified: Timestamp,
    /// Native attributes, including directory and reparse flags.
    pub attributes: u32,
}

/// Exact sorted metadata snapshot; not a persisted format or a content hash.
#[derive(Clone, Debug, PartialEq, Eq)]
pub struct DirectoryFingerprint {
    /// Canonical/normalized absolute directory.
    pub path: String,
    /// None means a missing optional script directory.
    pub modified: Option<Timestamp>,
    /// Direct children in original filename order.
    pub entries: Vec<EntryFingerprint>,
}

/// A discovered file; dispatch must revalidate its identity, boundary, and availability.
#[derive(Clone, Debug, PartialEq, Eq)]
pub struct CommandTarget {
    /// Absolute source path.
    pub path: String,
    /// Ordered source directory.
    pub origin: CommandOrigin,
    /// Actual filename extension.
    pub extension: CommandExtension,
    /// File classification or rejection.
    pub status: CommandStatus,
    /// Metadata captured during scanning.
    pub fingerprint: EntryFingerprint,
}

/// Winning target and all shadowed candidates, in deterministic priority order.
#[derive(Clone, Debug, PartialEq, Eq)]
pub struct CommandEntry {
    /// First candidate, even if rejected.
    pub winner: CommandTarget,
    /// Other candidates; never implicit fallbacks.
    pub shadowed: Vec<CommandTarget>,
}

/// A non-fatal discovery diagnostic.
#[derive(Clone, Debug, PartialEq, Eq)]
pub struct DiscoveryDiagnostic {
    /// Affected path.
    pub path: String,
    /// Diagnostic classification.
    pub reason: DiscoveryIssue,
}

/// Reasons that do not discard the entire inventory.
#[derive(Clone, Copy, Debug, PartialEq, Eq, Structural)]
pub enum DiscoveryIssue {
    /// Missing optional scripts directory.
    MissingDirectory,
    /// Directory already scanned through an equivalent path.
    DuplicateDirectory,
    /// Reserved manager namespace or official `py` launcher.
    ReservedName,
    /// Invalid Windows name or non-Unicode filename.
    InvalidName,
    /// Rejected command candidate.
    Rejected(CommandRejection),
}

impl EntryFingerprint {
    /// An exact copy.
    pub fn duplicate(&self) -> (r: Self)
        ensures
            r == *self,
    {
        let name = match &self.name {
            Some(n) => Some(n.clone()),
            None => None,
        };
        EntryFingerprint {
            name,
            size: self.size,
            modified: self.modified,
            attributes: self.attributes,
        }
    }
}

impl CommandTarget {
    /// An exact copy.
    pub fn duplicate(&self) -> (r: Self)
        ensures
            r == *self,
    {
        CommandTarget {
            path: self.path.clone(),
            origin: self.origin,
            extension: self.extension,
            status: self.status,
            fingerprint: self.fingerprint.duplicate(),
        }
    }
}

// ---------------------------------------------------------------------------
// Priority order of targets
// ---------------------------------------------------------------------------

pub open spec fn origin_rank(o: CommandOrigin) -> int {
    match o {
        CommandOrigin::Root => 0,
        CommandOrigin::Script(i) => i + 1,
    }
}

/// The UTF-16 code units of one character.
pub open spec fn char_units(c: char) -> Seq<int> {
    let v = (c as u32) as int;
    if v >= 0x10000 {
        seq![0xD800 + (v - 0x10000) / 1024, 0xDC00 + (v - 0x10000) % 1024]
    } else {
        seq![v]
    }
}

/// The UTF-16 encoding of a text, as code units.
pub open spec fn utf16_units(t: Seq<char>) -> Seq<int>
    decreases t.len(),
{
    if t.len() == 0 {
        Seq::empty()
    } else {
        utf16_units(t.drop_last()) + char_units(t.last())
    }
}

/// Lexicographic order of code-unit sequences.
pub open spec fn units_le(a: Seq<int>, b: Seq<int>) -> bool
    decreases a.len(),
{
    if a.len() == 0 {
        true
    } else if b.len() == 0 {
        false
    } else if a[0] != b[0] {
        a[0] < b[0]
    } else {
        units_le(a.drop_first(), b.drop_first())
    }
}

proof fn lemma_units_le_antisymmetric(a: Seq<int>, b: Seq<int>)
    requires
        units_le(a, b),
        units_le(b, a),
    ensures
        a == b,
    decreases a.len(),
{
    if a.len() > 0 && b.len() > 0 {
        lemma_units_le_antisymmetric(a.drop_first(), b.drop_first());
        assert(a =~= seq![a[0]] + a.drop_first());
        assert(b =~= seq![b[0]] + b.drop_first());
    } else {
        assert(a =~= b);
    }
}

proof fn lemma_units_le_transitive(a: Seq<int>, b: Seq<int>, c: Seq<int>)
    requires
        units_le(a, b),
        units_le(b, c),
    ensures
        units_le(a, c),
    decreases a.len(),
{
    if a.len() > 0 && b.len() > 0 && c.len() > 0 && a[0] == b[0] && b[0] == c[0] {
        lemma_units_le_transitive(a.drop_first(), b.drop_first(), c.drop_first());
    }
}

proof fn lemma_units_le_connected(a: Seq<int>, b: Seq<int>)
    ensures
        units_le(a, b) || units_le(b, a),
    decreases a.len(),
{
    if a.len() > 0 && b.len() > 0 && a[0] == b[0] {
        lemma_units_le_connected(a.drop_first(), b.drop_first());
    }
}

/// The filename of a target's path, or empty text when it has none.
pub open spec fn target_name(t: CommandTarget) -> Seq<char> {
    match spec_path_file_name(t.path@) {
        Some(n) => n,
        None => Seq::empty(),
    }
}

/// Priority order: source directory, then extension, then the filename's UTF-16
/// spelling, then the path text.
pub open spec fn target_le(a: CommandTarget, b: CommandTarget) -> bool {
    if origin_rank(a.origin) != origin_rank(b.origin) {
        origin_rank(a.origin) < origin_rank(b.origin)
    } else if extension_rank(a.extension) != extension_rank(b.extension) {
        extension_rank(a.extension) < extension_rank(b.extension)
    } else if utf16_units(target_name(a)) != utf16_units(target_name(b)) {
        units_le(utf16_units(target_name(a)), utf16_units(target_name(b)))
    } else {
        text_le(a.path@, b.path@)
    }
}

proof fn lemma_target_le_total(a: CommandTarget, b: CommandTarget)
    ensures
        target_le(a, b) || target_le(b, a),
{
    lemma_units_le_connected(utf16_units(target_name(a)), utf16_units(target_name(b)));
    crate::text::lemma_text_order_total();
    assert(crate::text::text_order()(a.path@, b.path@) || crate::text::text_order()(b.path@, a.path@));
}

proof fn lemma_target_le_transitive(a: CommandTarget, b: CommandTarget, c: CommandTarget)
    requires
        target_le(a, b),
        target_le(b, c),
    ensures
        target_le(a, c),
{
    let ua = utf16_units(target_name(a));
    let ub = utf16_units(target_name(b));
    let uc = utf16_units(target_name(c));
    if origin_rank(a.origin) == origin_rank(b.origin) && origin_rank(b.origin) == origin_rank(c.origin)
        && extension_rank(a.extension) == extension_rank(b.extension) && extension_rank(b.extension)
        == extension_rank(c.extension) {
        if ua != ub && ub != uc {
            lemma_units_le_transitive(ua, ub, uc);
            if ua == uc {
                lemma_units_le_antisymmetric(ua, ub);
            }
        } else if ua == ub && ub == uc {
            crate::text::lemma_text_order_total();
            assert(crate::text::text_order()(a.path@, b.path@));
            assert(crate::text::text_order()(b.path@, c.path@));
            assert(crate::text::text_order()(a.path@, c.path@));
        }
    }
}

/// Lexicographic comparison of UTF-16 code units.
fn units_le_exec(a: &Vec<u32>, b: &Vec<u32>) -> (r: bool)
    ensures
        r == units_le(a@.map_values(|x: u32| x as int), b@.map_values(|x: u32| x as int)),
{
    let ghost sa = a@.map_values(|x: u32| x as int);
    let ghost sb = b@.map_values(|x: u32| x as int);
    let mut i: usize = 0;
    assert(sa.skip(0) =~= sa);
    assert(sb.skip(0) =~= sb);
    while i < a.len() && i < b.len()
        invariant
            i <= a@.len(),
            i <= b@.len(),
            sa == a@.map_values(|x: u32| x as int),
            sb == b@.map_values(|x: u32| x as int),
            units_le(sa, sb) == units_le(sa.skip(i as int), sb.skip(i as int)),
        decreases a.len() - i,
    {
        if a[i] != b[i] {
            return a[i] < b[i];
        }
        assert(sa.skip(i as int).drop_first() =~= sa.skip(i + 1));
        assert(sb.skip(i as int).drop_first() =~= sb.skip(i + 1));
        i = i + 1;
    }
    i == a.len()
}

/// The UTF-16 code units of a text.
fn encode_units(t: &str) -> (r: Vec<u32>)
    ensures
        r@.map_values(|x: u32| x as int) == utf16_units(t@),
{
    let cs = chars_of(t);
    let mut out: Vec<u32> = Vec::new();
    let mut i: usize = 0;
    while i < cs.len()
        invariant
            i <= cs@.len(),
            cs@ == t@,
            out@.map_values(|x: u32| x as int) == utf16_units(cs@.take(i as int)),
        decreases cs.len() - i,
    {
        let v = cs[i] as u32;
        let ghost before = out@.map_values(|x: u32| x as int);
        let ghost before_vec = out@;
        if v >= 0x10000 {
            let w = v - 0x10000;
            out.push(0xD800 + w / 1024);
            out.push(0xDC00 + w % 1024);
        } else {
            out.push(v);
        }
        proof {
            let c = cs@[i as int];
            assert(cs@.take(i + 1).drop_last() =~= cs@.take(i as int));
            assert(cs@.take(i + 1).last() == c);
            let now = out@.map_values(|x: u32| x as int);
            let expect = before + char_units(c);
            assert(now.len() == expect.len());
            assert forall|k: int| 0 <= k < now.len() implies now[k] == expect[k] by {
                if k < before.len() {
                    assert(now[k] == before[k]);
                }
            }
            assert(now =~= expect);
        }
        i = i + 1;
    }
    assert(cs@.take(cs@.len() as int) =~= cs@);
    out
}

fn target_name_exec(t: &CommandTarget) -> (r: String)
    ensures
        r@ == target_name(*t),
{
    match path_file_name(t.path.as_str()) {
        Some(n) => n,
        None => String::new(),
    }
}

/// Whether `a` comes no later than `b` in priority order.
pub fn target_precedes(a: &CommandTarget, b: &CommandTarget) -> (r: bool)
    ensures
        r == target_le(*a, *b),
{
    let oa_root = matches!(a.origin, CommandOrigin::Root);
    let ob_root = matches!(b.origin, CommandOrigin::Root);
    if oa_root != ob_root {
        return oa_root;
    }
    if let (CommandOrigin::Script(i), CommandOrigin::Script(j)) = (a.origin, b.origin) {
        if i != j {
            return i < j;
        }
    }
    let ea = extension_index(a.extension);
    let eb = extension_index(b.extension);
    if ea != eb {
        return ea < eb;
    }
    let na = target_name_exec(a);
    let nb = target_name_exec(b);
    let ua = encode_units(na.as_str());
    let ub = encode_units(nb.as_str());
    if !units_eq(&ua, &ub) {
        return units_le_exec(&ua, &ub);
    }
    let pa = chars_of(a.path.as_str());
    let pb = chars_of(b.path.as_str());
    text_le_chars(&pa, &pb)
}

fn units_eq(a: &Vec<u32>, b: &Vec<u32>) -> (r: bool)
    ensures
        r == (a@.map_values(|x: u32| x as int) == b@.map_values(|x: u32| x as int)),
{
    if a.len() != b.len() {
        assert(a@.map_values(|x: u32| x as int).len() != b@.map_values(|x: u32| x as int).len());
        return false;
    }
    let mut i: usize = 0;
    while i < a.len()
        invariant
            a@.len() == b@.len(),
            i <= a@.len(),
            forall|j: int| 0 <= j < i ==> a@[j] == b@[j],
        decreases a.len() - i,
    {
        if a[i] != b[i] {
            assert(a@.map_values(|x: u32| x as int)[i as int] != b@.map_values(|x: u32| x as int)[i as int]);
            return false;
        }
        i = i + 1;
    }
    assert(a@.map_values(|x: u32| x as int) =~= b@.map_values(|x: u32| x as int));
    true
}

fn extension_index(e: CommandExtension) -> (r: u8)
    ensures
        r as int == extension_rank(e),
{
    match e {
        CommandExtension::Exe => 0,
        CommandExtension::Com => 1,
        CommandExtension::Cmd => 2,
        CommandExtension::Bat => 3,
        CommandExtension::PowerShell => 4,
    }
}

/// Arranges targets in priority order; the result holds exactly the given targets.
pub fn sort_targets(targets: Vec<CommandTarget>) -> (r: Vec<CommandTarget>)
    ensures
        r@.to_multiset() == targets@.to_multiset(),
        forall|i: int, j: int| 0 <= i < j < r@.len() ==> target_le(#[trigger] r@[i], #[trigger] r@[j]),
{
    let ghost input = targets@;
    proof {
        broadcast use vstd::seq_lib::group_to_multiset_ensures;
        broadcast use vstd::multiset::group_multiset_axioms;

        assert(Seq::<CommandTarget>::empty().to_multiset().add(input.to_multiset()) =~= input.to_multiset());
    }
    let mut rest = targets;
    let mut out: Vec<CommandTarget> = Vec::new();
    while rest.len() > 0
        invariant
            out@.to_multiset().add(rest@.to_multiset()) == input.to_multiset(),
            forall|i: int, j: int| 0 <= i < j < out@.len() ==> target_le(#[trigger] out@[i], #[trigger] out@[j]),
        decreases rest.len(),
    {
        let ghost before_rest = rest@;
        let x = rest.pop().unwrap();
        proof {
                assert(before_rest =~= rest@.push(x));
        }
        let ghost before = out@;
        let mut p: usize = 0;
        while p < out.len() && target_precedes(&out[p], &x)
            invariant
                p <= out@.len(),
                before == out@,
                forall|k: int| 0 <= k < p ==> target_le(#[trigger] before[k], x),
            decreases out.len() - p,
        {
            p = p + 1;
        }
        out.insert(p as usize, x);
        proof {
            let after = out@;
            assert(after =~= before.insert(p as int, x));
            assert forall|a: int, b: int| 0 <= a < b < after.len() implies target_le(
                #[trigger] after[a],
                #[trigger] after[b],
            ) by {
                if b < p {
                    assert(after[a] == before[a] && after[b] == before[b]);
                } else if b == p {
                    assert(after[a] == before[a]);
                } else if a < p {
                    assert(after[a] == before[a] && after[b] == before[b - 1]);
                    lemma_target_le_total(before[p as int], x);
                    if b - 1 > p {
                        assert(target_le(before[p as int], before[b - 1]));
                        lemma_target_le_transitive(x, before[p as int], before[b - 1]);
                    }
                    lemma_target_le_transitive(before[a], x, before[b - 1]);
                } else if a == p {
                    assert(after[b] == before[b - 1]);
                    lemma_target_le_total(before[p as int], x);
                    if b - 1 > p {
                        assert(target_le(before[p as int], before[b - 1]));
                        lemma_target_le_transitive(x, before[p as int], before[b - 1]);
                    }
                } else {
                    assert(after[a] == before[a - 1] && after[b] == before[b - 1]);
                }
            }
            broadcast use vstd::seq_lib::group_to_multiset_ensures;
            broadcast use vstd::multiset::group_multiset_axioms;

            assert(before.insert(p as int, x).to_multiset() == before.to_multiset().insert(x));
            assert(rest@.push(x).to_multiset() == rest@.to_multiset().insert(x));
            assert(before.to_multiset().insert(x).add(rest@.to_multiset()) =~= before.to_multiset().add(
                rest@.to_multiset().insert(x),
            ));
        }
    }
    proof {
        broadcast use vstd::seq_lib::group_to_multiset_ensures;
        broadcast use vstd::multiset::group_multiset_axioms;

        assert(rest@ =~= Seq::<CommandTarget>::empty());
        assert(out@.to_multiset().add(rest@.to_multiset()) =~= out@.to_multiset());
    }
    out
}

// ---------------------------------------------------------------------------
// Request order and the command table
// ---------------------------------------------------------------------------

/// The order of requests: bare names before filenames, then by key text.
pub open spec fn request_lt(a: RequestView, b: RequestView) -> bool {
    match (a, b) {
        (RequestView::Bare(x), RequestView::Bare(y)) => x != y && text_le(x, y),
        (RequestView::Bare(_), RequestView::Exact(_)) => true,
        (RequestView::Exact(_), RequestView::Bare(_)) => false,
        (RequestView::Exact(x), RequestView::Exact(y)) => x != y && text_le(x, y),
    }
}

proof fn lemma_request_order(a: RequestView, b: RequestView, c: RequestView)
    ensures
        !request_lt(a, a),
        a != b ==> request_lt(a, b) || request_lt(b, a),
        request_lt(a, b) ==> !request_lt(b, a),
        request_lt(a, b) && request_lt(b, c) ==> request_lt(a, c),
{
    crate::text::lemma_text_order_total();
    let o = crate::text::text_order();
    match (a, b, c) {
        (RequestView::Bare(x), RequestView::Bare(y), RequestView::Bare(z)) => {
            assert(o(x, y) || o(y, x));
            if request_lt(a, b) && request_lt(b, c) {
                assert(o(x, y) && o(y, z));
                assert(o(x, z));
                if x == z {
                    assert(o(z, y));
                }
            }
            if request_lt(a, b) && request_lt(b, a) {
                assert(o(x, y) && o(y, x));
            }
        },
        (RequestView::Exact(x), RequestView::Exact(y), RequestView::Exact(z)) => {
            assert(o(x, y) || o(y, x));
            if request_lt(a, b) && request_lt(b, c) {
                assert(o(x, y) && o(y, z));
                assert(o(x, z));
                if x == z {
                    assert(o(z, y));
                }
            }
            if request_lt(a, b) && request_lt(b, a) {
                assert(o(x, y) && o(y, x));
            }
        },
        (RequestView::Bare(x), RequestView::Bare(y), _) => {
            assert(o(x, y) || o(y, x));
            if request_lt(a, b) && request_lt(b, a) {
                assert(o(x, y) && o(y, x));
            }
        },
        (RequestView::Exact(x), RequestView::Exact(y), _) => {
            assert(o(x, y) || o(y, x));
            if request_lt(a, b) && request_lt(b, a) {
                assert(o(x, y) && o(y, x));
            }
        },
        (_, RequestView::Bare(y), RequestView::Bare(z)) => {},
        (_, RequestView::Exact(y), RequestView::Exact(z)) => {},
        _ => {},
    }
}

/// The table as request views with their candidate lists (winner first).
pub open spec fn table_view(t: Seq<(CommandRequest, CommandEntry)>) -> Seq<(RequestView, Seq<CommandTarget>)> {
    t.map_values(|e: (CommandRequest, CommandEntry)| (e.0@, seq![e.1.winner] + e.1.shadowed@))
}

/// Requests appear in strictly increasing order, so each appears once.
pub open spec fn table_sorted(t: Seq<(RequestView, Seq<CommandTarget>)>) -> bool {
    forall|i: int, j: int| 0 <= i < j < t.len() ==> request_lt(#[trigger] t[i].0, #[trigger] t[j].0)
}

/// The candidates a table records for a request, or none.
pub open spec fn table_lookup(t: Seq<(RequestView, Seq<CommandTarget>)>, r: RequestView) -> Seq<CommandTarget> {
    if exists|i: int| 0 <= i < t.len() && #[trigger] t[i].0 == r {
        t[choose|i: int| 0 <= i < t.len() && #[trigger] t[i].0 == r].1
    } else {
        Seq::empty()
    }
}

proof fn lemma_table_lookup_at(t: Seq<(RequestView, Seq<CommandTarget>)>, i: int)
    requires
        table_sorted(t),
        0 <= i < t.len(),
    ensures
        table_lookup(t, t[i].0) == t[i].1,
{
    let r = t[i].0;
    let k = choose|k: int| 0 <= k < t.len() && #[trigger] t[k].0 == r;
    if k != i {
        lemma_request_order(r, r, r);
        if k < i {
            assert(request_lt(t[k].0, t[i].0));
        } else {
            assert(request_lt(t[i].0, t[k].0));
        }
    }
}

proof fn lemma_table_lookup_absent(t: Seq<(RequestView, Seq<CommandTarget>)>, r: RequestView)
    requires
        forall|i: int| 0 <= i < t.len() ==> #[trigger] t[i].0 != r,
    ensures
        table_lookup(t, r) == Seq::<CommandTarget>::empty(),
{
}

fn request_lt_exec(a: &CommandRequest, b: &CommandRequest) -> (r: bool)
    ensures
        r == request_lt(a@, b@),
{
    match (a, b) {
        (CommandRequest::Bare(x), CommandRequest::Bare(y)) | (CommandRequest::Exact(x), CommandRequest::Exact(y)) => {
            let cx = chars_of(x.as_str());
            let cy = chars_of(y.as_str());
            !x.same(y) && text_le_chars(&cx, &cy)
        },
        (CommandRequest::Bare(_), CommandRequest::Exact(_)) => true,
        (CommandRequest::Exact(_), CommandRequest::Bare(_)) => false,
    }
}

fn request_same(a: &CommandRequest, b: &CommandRequest) -> (r: bool)
    ensures
        r == (a@ == b@),
{
    match (a, b) {
        (CommandRequest::Bare(x), CommandRequest::Bare(y)) | (CommandRequest::Exact(x), CommandRequest::Exact(y)) => x.same(y),
        _ => false,
    }
}

/// Records a candidate for a request: appended to the request's candidates, or
/// starting them at the request's place in order.
fn add_candidate(table: &mut Vec<(CommandRequest, CommandEntry)>, request: CommandRequest, target: CommandTarget)
    requires
        table_sorted(table_view(old(table)@)),
    ensures
        table_sorted(table_view(final(table)@)),
        forall|r: RequestView| #[trigger] table_lookup(table_view(final(table)@), r) == if r == request@ {
            table_lookup(table_view(old(table)@), r).push(target)
        } else {
            table_lookup(table_view(old(table)@), r)
        },
{
    let ghost before = table_view(table@);
    let ghost req = request@;
    let mut p: usize = 0;
    while p < table.len() && request_lt_exec(&table[p].0, &request)
        invariant
            p <= table@.len(),
            before == table_view(table@),
            req == request@,
            forall|k: int| 0 <= k < p ==> request_lt(#[trigger] before[k].0, req),
        decreases table.len() - p,
    {
        assert(before[p as int].0 == table@[p as int].0@);
        p = p + 1;
    }
    if p < table.len() && request_same(&table[p].0, &request) {
        let ghost old_list = before[p as int].1;
        let mut entry = table.remove(p);
        entry.1.shadowed.push(target);
        table.insert(p, entry);
        proof {
            let after = table_view(table@);
            assert(after[p as int].0 == req);
            assert(after[p as int].1 =~= old_list.push(target));
            assert forall|k: int| 0 <= k < after.len() && k != p implies #[trigger] after[k] == before[k] by {
                assert(table@[k] == old(table)@[k]);
            }
            assert(after.len() == before.len());
            assert forall|a: int, b: int| 0 <= a < b < after.len() implies request_lt(#[trigger] after[a].0, #[trigger] after[b].0) by {
                assert(request_lt(before[a].0, before[b].0));
            }
            assert forall|r: RequestView| #[trigger] table_lookup(after, r) == if r == req {
                table_lookup(before, r).push(target)
            } else {
                table_lookup(before, r)
            } by {
                lemma_table_lookup_at(before, p as int);
                lemma_table_lookup_at(after, p as int);
                if r != req {
                    if exists|i: int| 0 <= i < before.len() && #[trigger] before[i].0 == r {
                        let i = choose|i: int| 0 <= i < before.len() && #[trigger] before[i].0 == r;
                        lemma_table_lookup_at(before, i);
                        lemma_table_lookup_at(after, i);
                    } else {
                        assert forall|i: int| 0 <= i < after.len() implies #[trigger] after[i].0 != r by {
                            if i != p {
                                assert(after[i] == before[i]);
                            }
                        }
                    }
                }
            }
        }
    } else {
        let entry = CommandEntry { winner: target, shadowed: Vec::new() };
        table.insert(p, (request, entry));
        proof {
            let after = table_view(table@);
            assert(after =~= before.insert(p as int, (req, seq![target])));
            assert(after[p as int].1 =~= seq![target]);
            if p < before.len() {
                lemma_request_order(before[p as int].0, req, req);
                assert(before[p as int].0 != req);
                assert(request_lt(req, before[p as int].0));
            }
            assert forall|a: int, b: int| 0 <= a < b < after.len() implies request_lt(#[trigger] after[a].0, #[trigger] after[b].0) by {
                if b < p {
                    assert(request_lt(before[a].0, before[b].0));
                } else if b == p {
                } else if a < p {
                    assert(request_lt(before[a].0, req));
                    if b - 1 > p {
                        assert(request_lt(before[p as int].0, before[b - 1].0));
                        lemma_request_order(req, before[p as int].0, before[b - 1].0);
                    }
                    lemma_request_order(before[a].0, req, before[b - 1].0);
                } else if a == p {
                    if b - 1 > p {
                        assert(request_lt(before[p as int].0, before[b - 1].0));
                        lemma_request_order(req, before[p as int].0, before[b - 1].0);
                    }
                } else {
                    assert(request_lt(before[a - 1].0, before[b - 1].0));
                }
            }
            assert forall|i: int| 0 <= i < before.len() implies #[trigger] before[i].0 != req by {
                if i < p {
                    lemma_request_order(before[i].0, req, req);
                } else {
                    if i > p {
                        assert(request_lt(before[p as int].0, before[i].0));
                        lemma_request_order(req, before[p as int].0, before[i].0);
                    }
                    lemma_request_order(req, before[i].0, req);
                }
            }
            lemma_table_lookup_absent(before, req);
            assert forall|r: RequestView| #[trigger] table_lookup(after, r) == if r == req {
                table_lookup(before, r).push(target)
            } else {
                table_lookup(before, r)
            } by {
                lemma_table_lookup_at(after, p as int);
                if r != req {
                    if exists|i: int| 0 <= i < before.len() && #[trigger] before[i].0 == r {
                        let i = choose|i: int| 0 <= i < before.len() && #[trigger] before[i].0 == r;
                        lemma_table_lookup_at(before, i);
                        if i < p {
                            assert(after[i] == before[i]);
                            lemma_table_lookup_at(after, i);
                        } else {
                            assert(after[i + 1] == before[i]);
                            lemma_table_lookup_at(after, i + 1);
                        }
                    } else {
                        assert forall|i: int| 0 <= i < after.len() implies #[trigger] after[i].0 != r by {
                            if i < p {
                                assert(after[i] == before[i]);
                            } else if i > p {
                                assert(after[i] == before[i - 1]);
                            }
                        }
                    }
                } else {
                    assert(table_lookup(before, r).push(target) =~= seq![target]);
                }
            }
        }
    }
}

/// The requests a target answers: its bare stem and its full filename.
pub open spec fn request_hits(r: RequestView, keys: (Seq<char>, Seq<char>)) -> bool {
    r == RequestView::Bare(keys.0) || r == RequestView::Exact(keys.1)
}

/// The targets answering a request, in the given order.
pub open spec fn candidates_for(
    r: RequestView,
    ts: Seq<CommandTarget>,
    ks: Seq<(Seq<char>, Seq<char>)>,
) -> Seq<CommandTarget>
    decreases ts.len(),
{
    if ts.len() == 0 || ks.len() == 0 {
        Seq::empty()
    } else {
        let prev = candidates_for(r, ts.drop_last(), ks.drop_last());
        if request_hits(r, ks.last()) {
            prev.push(ts.last())
        } else {
            prev
        }
    }
}

pub open spec fn key_views(ks: Seq<(CommandKey, CommandKey)>) -> Seq<(Seq<char>, Seq<char>)> {
    ks.map_values(|k: (CommandKey, CommandKey)| (k.0@, k.1@))
}

/// Builds the command table: every request lists the targets answering it in the
/// given order; the first one wins and the rest stay recorded as shadowed.
pub fn group_commands(targets: &Vec<CommandTarget>, keys: &Vec<(CommandKey, CommandKey)>) -> (r: Vec<
    (CommandRequest, CommandEntry),
>)
    requires
        targets@.len() == keys@.len(),
    ensures
        table_sorted(table_view(r@)),
        forall|q: RequestView| #[trigger] table_lookup(table_view(r@), q) == candidates_for(
            q,
            targets@,
            key_views(keys@),
        ),
{
    let mut table: Vec<(CommandRequest, CommandEntry)> = Vec::new();
    let mut i: usize = 0;
    proof {
        assert forall|q: RequestView| #[trigger] table_lookup(table_view(table@), q) == candidates_for(
            q,
            targets@.take(0),
            key_views(keys@).take(0),
        ) by {}
    }
    while i < targets.len()
        invariant
            i <= targets@.len(),
            targets@.len() == keys@.len(),
            table_sorted(table_view(table@)),
            forall|q: RequestView| #[trigger] table_lookup(table_view(table@), q) == candidates_for(
                q,
                targets@.take(i as int),
                key_views(keys@).take(i as int),
            ),
        decreases targets.len() - i,
    {
        let bare = CommandRequest::Bare(keys[i].0.duplicate());
        let exact = CommandRequest::Exact(keys[i].1.duplicate());
        let ghost t = targets@[i as int];
        let ghost before = table_view(table@);
        add_candidate(&mut table, bare, targets[i].duplicate());
        let ghost middle = table_view(table@);
        add_candidate(&mut table, exact, targets[i].duplicate());
        proof {
            let kv = key_views(keys@);
            assert(targets@.take(i + 1).drop_last() =~= targets@.take(i as int));
            assert(kv.take(i + 1).drop_last() =~= kv.take(i as int));
            assert(targets@.take(i + 1).last() == t);
            assert(kv.take(i + 1).last() == kv[i as int]);
            assert forall|q: RequestView| #[trigger] table_lookup(table_view(table@), q) == candidates_for(
                q,
                targets@.take(i + 1),
                kv.take(i + 1),
            ) by {
                assert(table_lookup(middle, q) == table_lookup(middle, q));
                assert(table_lookup(before, q) == table_lookup(before, q));
            }
        }
        i = i + 1;
    }
    proof {
        assert(targets@.take(targets@.len() as int) =~= targets@);
        assert(key_views(keys@).take(keys@.len() as int) =~= key_views(keys@));
    }
    table
}

// ---------------------------------------------------------------------------
// Building an inventory
// ---------------------------------------------------------------------------

/// Whether a classification fits the filename extension.
pub open spec fn classification_matches(e: CommandExtension, s: CommandStatus) -> bool {
    match s {
        CommandStatus::Rejected(_) => true,
        CommandStatus::Available(k) => match e {
            CommandExtension::Exe | CommandExtension::Com => k is PeConsole || k is PeGui,
            CommandExtension::Cmd => k is Cmd,
            CommandExtension::Bat => k is Bat,
            CommandExtension::PowerShell => k is PowerShell,
        },
    }
}

fn classification_matches_exec(e: CommandExtension, s: CommandStatus) -> (r: bool)
    ensures
        r == classification_matches(e, s),
{
    match s {
        CommandStatus::Rejected(_) => true,
        CommandStatus::Available(k) => match (e, k) {
            (CommandExtension::Exe, CommandKind::PeConsole) | (CommandExtension::Exe, CommandKind::PeGui)
            | (CommandExtension::Com, CommandKind::PeConsole) | (CommandExtension::Com, CommandKind::PeGui)
            | (CommandExtension::Cmd, CommandKind::Cmd) | (CommandExtension::Bat, CommandKind::Bat)
            | (CommandExtension::PowerShell, CommandKind::PowerShell) => true,
            _ => false,
        },
    }
}

/// A target that may enter an inventory: an absolute path without traversal whose
/// Unicode filename has a supported extension matching the recorded one and its
/// classification, a stem outside the reserved namespace, and a fingerprint that
/// names the same file.
pub open spec fn target_consistent(t: CommandTarget) -> bool {
    match spec_path_file_name(t.path@) {
        Some(n) => match spec_split(n) {
            Some((stem, e)) => {
                &&& spec_valid_runtime_path(t.path@)
                &&& e == t.extension
                &&& !reserved_stem(stem)
                &&& (t.fingerprint.name matches Some(f) && f@ == n)
                &&& classification_matches(t.extension, t.status)
            },
            None => false,
        },
        None => false,
    }
}

/// Whether an earlier target observed the same file from the same source.
pub open spec fn observed_earlier(ts: Seq<CommandTarget>, i: int) -> bool {
    exists|j: int| 0 <= j < i && ts[j].origin == ts[i].origin && #[trigger] spec_path_eq(ts[j].path@, ts[i].path@)
}

/// When no target is consistent, the first one checked already fails, and as
/// malformed rather than as a repeat.
proof fn lemma_all_bad_first(input: Seq<CommandTarget>, sorted: Seq<CommandTarget>, i: int)
    requires
        0 <= i < sorted.len(),
        forall|k: int| 0 <= k < sorted.len() ==> input.contains(#[trigger] sorted[k]),
        forall|j: int| 0 <= j < input.len() ==> !target_consistent(#[trigger] input[j]),
    ensures
        !target_consistent(sorted[i]),
        !target_consistent(sorted[0]),
        !observed_earlier(sorted, 0),
{
    assert(input.contains(sorted[i]));
    assert(input.contains(sorted[0]));
    let w = choose|j: int| 0 <= j < input.len() && input[j] == sorted[i];
    assert(!target_consistent(input[w]));
    let z = choose|j: int| 0 <= j < input.len() && input[j] == sorted[0];
    assert(!target_consistent(input[z]));
}

/// Targets that share no source and path text have no priority ties, and neither has
/// any arrangement of the same targets.
proof fn lemma_no_ties(input: Seq<CommandTarget>, sorted: Seq<CommandTarget>)
    requires
        sorted.to_multiset() == input.to_multiset(),
        forall|a: int, b: int| 0 <= a < b < sorted.len() && sorted[a].origin == sorted[b].origin ==> #[trigger] sorted[a].path@ != #[trigger] sorted[b].path@,
    ensures
        no_priority_ties(input),
{
    broadcast use vstd::seq_lib::group_to_multiset_ensures;

    assert forall|x: CommandTarget, y: CommandTarget|
        input.contains(x) && input.contains(y) && #[trigger] target_le(x, y) && #[trigger] target_le(y, x) implies x == y by {
        assert(input.to_multiset().count(x) > 0 && input.to_multiset().count(y) > 0);
        assert(sorted.contains(x) && sorted.contains(y));
        let a = choose|a: int| 0 <= a < sorted.len() && sorted[a] == x;
        let b = choose|b: int| 0 <= b < sorted.len() && sorted[b] == y;
        crate::text::lemma_text_le_facts(x.path@, y.path@, x.path@);
        lemma_units_le_connected(utf16_units(target_name(x)), utf16_units(target_name(y)));
        if utf16_units(target_name(x)) != utf16_units(target_name(y)) {
            lemma_units_le_antisymmetric(utf16_units(target_name(x)), utf16_units(target_name(y)));
        }
        assert(origin_rank(x.origin) == origin_rank(y.origin));
        assert(x.origin == y.origin);
        assert(x.path@ == y.path@);
        if a < b {
            assert(sorted[a].path@ != sorted[b].path@);
        } else if b < a {
            assert(sorted[b].path@ != sorted[a].path@);
        }
    }
}

pub open spec fn duplicate_observation_message() -> Seq<char> {
    "Duplicate command target observation"@
}

/// The stem of a target's filename (before its supported extension).
pub open spec fn target_stem(t: CommandTarget) -> Seq<char> {
    match spec_split(target_name(t)) {
        Some((stem, _)) => stem,
        None => Seq::empty(),
    }
}

/// `key` is the key the mapper made for `name`.
pub open spec fn key_for<M: CommandCaseMapper>(mapper: &M, name: Seq<char>, key: Seq<char>) -> bool {
    exists|k: CommandKey| k@ == key && #[trigger] mapped_key(mapper, name, Ok::<CommandKey, Error>(k))
}

/// Each target's keys are the mapper's keys for its stem and for its filename.
pub open spec fn keys_mapped<M: CommandCaseMapper>(
    mapper: &M,
    ts: Seq<CommandTarget>,
    ks: Seq<(Seq<char>, Seq<char>)>,
) -> bool {
    forall|i: int|
        0 <= i < ts.len() ==> key_for(mapper, target_stem(ts[i]), (#[trigger] ks[i]).0) && key_for(
            mapper,
            target_name(ts[i]),
            ks[i].1,
        )
}

/// Targets in priority order, holding exactly the given ones.
pub open spec fn arranged(ts: Seq<CommandTarget>, input: Seq<CommandTarget>) -> bool {
    &&& ts.to_multiset() == input.to_multiset()
    &&& forall|i: int, j: int| 0 <= i < j < ts.len() ==> target_le(#[trigger] ts[i], #[trigger] ts[j])
}

/// Why the `k`-th target of the priority order stops a build whose earlier targets all
/// passed: a repeated observation (Conflict), a malformed target (Usage), or the
/// mapper's failure (or invalid answer) for its stem, or for its filename once the stem
/// mapped.
pub open spec fn stops_build<M: CommandCaseMapper>(mapper: &M, ts: Seq<CommandTarget>, k: int, e: Error) -> bool {
    &&& 0 <= k < ts.len()
    &&& forall|j: int| 0 <= j < k ==> !observed_earlier(ts, j) && target_consistent(#[trigger] ts[j])
    &&& if observed_earlier(ts, k) {
        e.spec_kind() == ErrorKind::Conflict && e.spec_message() == duplicate_observation_message()
    } else if !target_consistent(ts[k]) {
        e.spec_kind() == ErrorKind::Usage
    } else {
        ||| mapped_key(mapper, target_stem(ts[k]), Err::<CommandKey, Error>(e))
        ||| (exists|b: CommandKey| #[trigger] mapped_key(mapper, target_stem(ts[k]), Ok::<CommandKey, Error>(b)))
            && mapped_key(mapper, target_name(ts[k]), Err::<CommandKey, Error>(e))
    }
}

/// Checks the `i`-th target against the earlier ones and returns its stem and filename.
fn check_target(ts: &Vec<CommandTarget>, i: usize) -> (r: Result<(String, String)>)
    requires
        i < ts@.len(),
    ensures
        observed_earlier(ts@, i as int) ==> (r matches Err(e) && e.spec_kind() == ErrorKind::Conflict
            && e.spec_message() == duplicate_observation_message()),
        !observed_earlier(ts@, i as int) && !target_consistent(ts@[i as int]) ==> (r matches Err(e) && e.spec_kind() == ErrorKind::Usage),
        r is Ok <==> !observed_earlier(ts@, i as int) && target_consistent(ts@[i as int]),
        r matches Ok((stem, name)) ==> {
            &&& !observed_earlier(ts@, i as int)
            &&& forall|k: int| 0 <= k < i && ts@[k].origin == ts@[i as int].origin ==> #[trigger] ts@[k].path@ != ts@[i as int].path@
            &&& target_consistent(ts@[i as int])
            &&& spec_path_file_name(ts@[i as int].path@) == Some(name@)
            &&& (spec_split(name@) matches Some((st, _)) && st == stem@)
        },
{
    let t = &ts[i];
    let mut j: usize = 0;
    while j < i
        invariant
            i < ts@.len(),
            j <= i,
            *t == ts@[i as int],
            forall|k: int| 0 <= k < j ==> !(ts@[k].origin == ts@[i as int].origin && #[trigger] spec_path_eq(ts@[k].path@, ts@[i as int].path@)),
            forall|k: int| 0 <= k < j && ts@[k].origin == ts@[i as int].origin ==> #[trigger] ts@[k].path@ != ts@[i as int].path@,
        decreases i - j,
    {
        if ts[j].origin == t.origin && path_eq(ts[j].path.as_str(), t.path.as_str()) {
            return Err(Error::new(ErrorKind::Conflict, "Duplicate command target observation"));
        }
        j = j + 1;
    }
    if validate_path(t.path.as_str()).is_err() {
        return Err(Error::new(ErrorKind::Usage, "Command targets must be absolute"));
    }
    let name = match path_file_name(t.path.as_str()) {
        Some(n) => n,
        None => return Err(Error::new(ErrorKind::Usage, "Invalid command filename")),
    };
    let (stem, extension) = match CommandExtension::split(name.as_str()) {
        Some(parts) => parts,
        None => return Err(Error::new(ErrorKind::Usage, "Unsupported command extension")),
    };
    let fingerprint_matches = match &t.fingerprint.name {
        Some(n) => {
            let a = chars_of(n.as_str());
            let b = chars_of(name.as_str());
            crate::text::chars_eq(&a, &b)
        },
        None => false,
    };
    if extension != t.extension || crate::commands::is_reserved(stem.as_str()) || !fingerprint_matches
        || !classification_matches_exec(extension, t.status) {
        return Err(Error::new(ErrorKind::Usage, "Reserved or inconsistent command target"));
    }
    Ok((stem, name))
}

/// In-memory inventory of one runtime, without execution or publication.
#[derive(Clone, Debug, PartialEq, Eq)]
pub struct RuntimeCommandManifest {
    runtime_id: RuntimeId,
    commands: Vec<(CommandRequest, CommandEntry)>,
    directories: Vec<DirectoryFingerprint>,
    diagnostics: Vec<DiscoveryDiagnostic>,
}

/// How a table arose: from targets arranged in priority order, each with the
/// (valid) keys its stem and filename map to.
pub open spec fn built_from(
    ts: Seq<CommandTarget>,
    ks: Seq<(Seq<char>, Seq<char>)>,
    input: Seq<CommandTarget>,
    table: Seq<(CommandRequest, CommandEntry)>,
) -> bool {
    &&& ts.to_multiset() == input.to_multiset()
    &&& ts.len() == ks.len()
    &&& forall|i: int, j: int| 0 <= i < j < ts.len() ==> target_le(#[trigger] ts[i], #[trigger] ts[j])
    &&& forall|i: int| 0 <= i < ts.len() ==> target_consistent(#[trigger] ts[i])
    &&& forall|i: int| 0 <= i < ks.len() ==> name_valid(#[trigger] ks[i].0) && name_valid(ks[i].1)
    &&& forall|q: RequestView| #[trigger] table_lookup(table_view(table), q) == candidates_for(q, ts, ks)
}

/// Two targets with the same priority are the same observation.
pub open spec fn no_priority_ties(input: Seq<CommandTarget>) -> bool {
    forall|x: CommandTarget, y: CommandTarget|
        input.contains(x) && input.contains(y) && #[trigger] target_le(x, y) && #[trigger] target_le(y, x)
            ==> x == y
}

/// Two arrangements in priority order of the same targets are the same when no two
/// different targets share a priority.
proof fn lemma_sorted_permutations_equal(a: Seq<CommandTarget>, b: Seq<CommandTarget>)
    requires
        a.to_multiset() == b.to_multiset(),
        forall|i: int, j: int| 0 <= i < j < a.len() ==> target_le(#[trigger] a[i], #[trigger] a[j]),
        forall|i: int, j: int| 0 <= i < j < b.len() ==> target_le(#[trigger] b[i], #[trigger] b[j]),
        no_priority_ties(a),
    ensures
        a == b,
    decreases a.len(),
{
    broadcast use vstd::seq_lib::group_to_multiset_ensures;
    broadcast use vstd::multiset::group_multiset_axioms;

    assert(a.len() == a.to_multiset().len());
    assert(b.len() == b.to_multiset().len());
    if a.len() == 0 {
        assert(a =~= b);
    } else {
        assert(a.contains(a[0]));
        assert(a.to_multiset().count(a[0]) > 0);
        assert(b.contains(a[0]));
        assert(b.contains(b[0]));
        assert(b.to_multiset().count(b[0]) > 0);
        assert(a.contains(b[0]));
        let k = choose|k: int| 0 <= k < b.len() && b[k] == a[0];
        let j = choose|j: int| 0 <= j < a.len() && a[j] == b[0];
        if k > 0 {
            assert(target_le(b[0], b[k]));
        } else {
            lemma_target_le_total(b[0], b[0]);
        }
        if j > 0 {
            assert(target_le(a[0], a[j]));
        } else {
            lemma_target_le_total(a[0], a[0]);
        }
        assert(target_le(b[0], a[0]) && target_le(a[0], b[0]));
        assert(a[0] == b[0]);
        let a1 = a.remove(0);
        let b1 = b.remove(0);
        assert(a1.to_multiset() == a.to_multiset().remove(a[0]));
        assert(b1.to_multiset() == b.to_multiset().remove(b[0]));
        assert forall|i: int, j2: int| 0 <= i < j2 < a1.len() implies target_le(#[trigger] a1[i], #[trigger] a1[j2]) by {
            assert(a1[i] == a[i + 1] && a1[j2] == a[j2 + 1]);
        }
        assert forall|i: int, j2: int| 0 <= i < j2 < b1.len() implies target_le(#[trigger] b1[i], #[trigger] b1[j2]) by {
            assert(b1[i] == b[i + 1] && b1[j2] == b[j2 + 1]);
        }
        assert forall|x: CommandTarget, y: CommandTarget|
            a1.contains(x) && a1.contains(y) && #[trigger] target_le(x, y) && #[trigger] target_le(y, x) implies x == y by {
            let ix = choose|i: int| 0 <= i < a1.len() && a1[i] == x;
            let iy = choose|i: int| 0 <= i < a1.len() && a1[i] == y;
            assert(a[ix + 1] == x);
            assert(a[iy + 1] == y);
            assert(a.contains(x) && a.contains(y));
        }
        lemma_sorted_permutations_equal(a1, b1);
        assert(a =~= a1.insert(0, a[0]));
        assert(b =~= b1.insert(0, b[0]));
    }
}

proof fn lemma_candidates_for_nonempty_entries(t: Seq<(RequestView, Seq<CommandTarget>)>, q: RequestView)
    requires
        table_sorted(t),
        forall|i: int| 0 <= i < t.len() ==> (#[trigger] t[i]).1.len() > 0,
    ensures
        (exists|i: int| 0 <= i < t.len() && #[trigger] t[i].0 == q) <==> table_lookup(t, q).len() > 0,
{
    if exists|i: int| 0 <= i < t.len() && #[trigger] t[i].0 == q {
        let i = choose|i: int| 0 <= i < t.len() && #[trigger] t[i].0 == q;
        lemma_table_lookup_at(t, i);
    }
}

/// Within one source directory, a built inventory lists targets in the declared
/// extension order `.exe`, `.com`, `.cmd`, `.bat`, `.ps1`: a target whose extension
/// comes earlier always precedes one whose extension comes later, so for a shared stem
/// the earlier extension wins and the later one is shadowed.
pub proof fn built_targets_follow_extension_order(
    ts: Seq<CommandTarget>,
    ks: Seq<(Seq<char>, Seq<char>)>,
    input: Seq<CommandTarget>,
    table: Seq<(CommandRequest, CommandEntry)>,
    i: int,
    j: int,
)
    requires
        built_from(ts, ks, input, table),
        0 <= i < ts.len(),
        0 <= j < ts.len(),
        ts[i].origin == ts[j].origin,
    ensures
        ts[i].extension == CommandExtension::Exe && ts[j].extension != CommandExtension::Exe ==> i < j,
        ts[i].extension == CommandExtension::Com && (ts[j].extension == CommandExtension::Cmd
            || ts[j].extension == CommandExtension::Bat || ts[j].extension == CommandExtension::PowerShell)
            ==> i < j,
        ts[i].extension == CommandExtension::Cmd && (ts[j].extension == CommandExtension::Bat
            || ts[j].extension == CommandExtension::PowerShell) ==> i < j,
        ts[i].extension == CommandExtension::Bat && ts[j].extension == CommandExtension::PowerShell ==> i < j,
{
    if j < i {
        assert(target_le(ts[j], ts[i]));
    }
}

/// Building an inventory does not depend on the order in which the targets were
/// observed: two builds from the same targets in any order, where every name maps
/// to the same keys, record the same table. Every successful build has no priority
/// ties (see `build`), so the law covers any two successful builds.
pub proof fn build_is_order_independent(
    ts1: Seq<CommandTarget>,
    ks1: Seq<(Seq<char>, Seq<char>)>,
    input1: Seq<CommandTarget>,
    table1: Seq<(CommandRequest, CommandEntry)>,
    ts2: Seq<CommandTarget>,
    ks2: Seq<(Seq<char>, Seq<char>)>,
    input2: Seq<CommandTarget>,
    table2: Seq<(CommandRequest, CommandEntry)>,
)
    requires
        input1.to_multiset() == input2.to_multiset(),
        no_priority_ties(input1),
        built_from(ts1, ks1, input1, table1),
        built_from(ts2, ks2, input2, table2),
        table_sorted(table_view(table1)),
        table_sorted(table_view(table2)),
        forall|i: int, j: int| 0 <= i < ts1.len() && 0 <= j < ts2.len() && ts1[i] == ts2[j] ==> #[trigger] ks1[i]
            == #[trigger] ks2[j],
    ensures
        table_view(table1) == table_view(table2),
{
    broadcast use vstd::seq_lib::group_to_multiset_ensures;

    assert forall|x: CommandTarget, y: CommandTarget|
        ts1.contains(x) && ts1.contains(y) && #[trigger] target_le(x, y) && #[trigger] target_le(y, x) implies x == y by {
        assert(ts1.to_multiset().count(x) > 0);
        assert(ts1.to_multiset().count(y) > 0);
        assert(input1.contains(x) && input1.contains(y));
    }
    lemma_sorted_permutations_equal(ts1, ts2);
    assert forall|i: int| 0 <= i < ks1.len() implies #[trigger] ks1[i] == ks2[i] by {
        assert(ts1[i] == ts2[i]);
    }
    assert(ks1 =~= ks2);
    let v1 = table_view(table1);
    let v2 = table_view(table2);
    assert forall|q: RequestView| #[trigger] table_lookup(v1, q) == table_lookup(v2, q) by {
        assert(table_lookup(v1, q) == candidates_for(q, ts1, ks1));
        assert(table_lookup(v2, q) == candidates_for(q, ts2, ks2));
    }
    assert forall|i: int| 0 <= i < v1.len() implies (#[trigger] v1[i]).1.len() > 0 by {}
    assert forall|i: int| 0 <= i < v2.len() implies (#[trigger] v2[i]).1.len() > 0 by {}
    let k1 = v1.map_values(|e: (RequestView, Seq<CommandTarget>)| e.0);
    let k2 = v2.map_values(|e: (RequestView, Seq<CommandTarget>)| e.0);
    let rlt = |a: RequestView, b: RequestView| request_lt(a, b);
    assert forall|x: RequestView, y: RequestView| #[trigger] rlt(x, y) implies x != y && !rlt(y, x) by {
        lemma_request_order(x, y, x);
    }
    assert forall|i: int, j: int| 0 <= i < j < k1.len() implies rlt(#[trigger] k1[i], #[trigger] k1[j]) by {
        assert(request_lt(v1[i].0, v1[j].0));
    }
    assert forall|i: int, j: int| 0 <= i < j < k2.len() implies rlt(#[trigger] k2[i], #[trigger] k2[j]) by {
        assert(request_lt(v2[i].0, v2[j].0));
    }
    assert forall|q: RequestView| k1.contains(q) <==> k2.contains(q) by {
        lemma_candidates_for_nonempty_entries(v1, q);
        lemma_candidates_for_nonempty_entries(v2, q);
        if k1.contains(q) {
            let i = choose|i: int| 0 <= i < k1.len() && k1[i] == q;
            assert(v1[i].0 == q);
            let k = choose|k: int| 0 <= k < v2.len() && #[trigger] v2[k].0 == q;
            assert(k2[k] == q);
        }
        if k2.contains(q) {
            let i = choose|i: int| 0 <= i < k2.len() && k2[i] == q;
            assert(v2[i].0 == q);
            let k = choose|k: int| 0 <= k < v1.len() && #[trigger] v1[k].0 == q;
            assert(k1[k] == q);
        }
    }
    lemma_sorted_same_elements(k1, k2, rlt);
    assert forall|i: int| 0 <= i < v1.len() implies #[trigger] v1[i] == v2[i] by {
        assert(k1[i] == k2[i]);
        lemma_table_lookup_at(v1, i);
        lemma_table_lookup_at(v2, i);
    }
    assert(v1 =~= v2);
}

impl RuntimeCommandManifest {
    pub closed spec fn spec_runtime_id(&self) -> RuntimeId {
        self.runtime_id
    }

    pub closed spec fn spec_commands(&self) -> Seq<(CommandRequest, CommandEntry)> {
        self.commands@
    }

    pub closed spec fn spec_directories(&self) -> Seq<DirectoryFingerprint> {
        self.directories@
    }

    pub closed spec fn spec_diagnostics(&self) -> Seq<DiscoveryDiagnostic> {
        self.diagnostics@
    }

    /// Builds an inventory using source order, extension order, then original UTF-16
    /// spelling. Rejects malformed/inconsistent targets, duplicate observations, or
    /// failed native casing.
    pub fn build<M: CommandCaseMapper>(
        runtime_id: RuntimeId,
        targets: Vec<CommandTarget>,
        directories: Vec<DirectoryFingerprint>,
        diagnostics: Vec<DiscoveryDiagnostic>,
        mapper: &M,
    ) -> (r: Result<Self>)
        ensures
            r matches Ok(m) ==> {
                &&& m.spec_runtime_id() == runtime_id
                &&& m.spec_directories() == directories@
                &&& m.spec_diagnostics() == diagnostics@
                &&& table_sorted(table_view(m.spec_commands()))
                &&& no_priority_ties(targets@)
                &&& exists|ts: Seq<CommandTarget>, ks: Seq<(Seq<char>, Seq<char>)>|
                    #[trigger] built_from(ts, ks, targets@, m.spec_commands()) && keys_mapped(mapper, ts, ks)
            },
            r matches Err(e) ==> exists|ts: Seq<CommandTarget>, k: int|
                arranged(ts, targets@) && #[trigger] stops_build(mapper, ts, k, e),
            (exists|i: int| 0 <= i < targets@.len() && !target_consistent(#[trigger] targets@[i])) ==> r is Err,
            (exists|i: int, j: int|
                0 <= i < targets@.len() && 0 <= j < targets@.len() && i != j && targets@[i].origin
                    == targets@[j].origin && #[trigger] spec_path_eq(targets@[i].path@, targets@[j].path@)
                    && #[trigger] spec_path_eq(targets@[j].path@, targets@[i].path@)) ==> r is Err,
            targets@.len() > 0 && (forall|i: int| 0 <= i < targets@.len() ==> !target_consistent(
                #[trigger] targets@[i],
            )) ==> (r matches Err(e) && e.spec_kind() == ErrorKind::Usage),
            targets@.len() == 0 ==> (r matches Ok(m) && m.spec_runtime_id() == runtime_id
                && m.spec_directories() == directories@ && m.spec_diagnostics() == diagnostics@
                && forall|q: RequestView| #[trigger] table_lookup(table_view(m.spec_commands()), q).len()
                == 0),
    {
        let ghost input = targets@;
        let sorted = sort_targets(targets);
        proof {
            broadcast use vstd::seq_lib::group_to_multiset_ensures;
            assert(sorted@.len() == sorted@.to_multiset().len());
            assert(input.len() == input.to_multiset().len());
            assert forall|k: int| 0 <= k < sorted@.len() implies input.contains(#[trigger] sorted@[k]) by {
                assert(sorted@.to_multiset().count(sorted@[k]) > 0);
            }
        }
        let ghost all_bad = forall|j: int| 0 <= j < input.len() ==> !target_consistent(#[trigger] input[j]);
        let mut keys: Vec<(CommandKey, CommandKey)> = Vec::new();
        let mut i: usize = 0;
        while i < sorted.len()
            invariant
                i <= sorted@.len(),
                sorted@.len() == input.len(),
                input == targets@,
                keys@.len() == i,
                forall|k: int| 0 <= k < i ==> target_consistent(#[trigger] sorted@[k]),
                forall|k: int| 0 <= k < i ==> !observed_earlier(sorted@, k),
                forall|a: int, b: int| 0 <= a < b < i && sorted@[a].origin == sorted@[b].origin ==> #[trigger] sorted@[a].path@ != #[trigger] sorted@[b].path@,
                forall|k: int| 0 <= k < sorted@.len() ==> input.contains(#[trigger] sorted@[k]),
                all_bad == forall|j: int| 0 <= j < input.len() ==> !target_consistent(#[trigger] input[j]),
                forall|k: int| 0 <= k < i ==> name_valid(#[trigger] keys@[k].0@) && name_valid(keys@[k].1@),
                arranged(sorted@, input),
                keys_mapped(mapper, sorted@.take(i as int), key_views(keys@)),
            decreases sorted.len() - i,
        {
            proof {
                if all_bad {
                    lemma_all_bad_first(input, sorted@, i as int);
                }
            }
            let checked = check_target(&sorted, i);
            let (stem, name) = match checked {
                Ok(parts) => parts,
                Err(e) => {
                    proof {
                        assert(stops_build(mapper, sorted@, i as int, e));
                    }
                    return Err(e);
                },
            };
            proof {
                if all_bad {
                    lemma_all_bad_first(input, sorted@, i as int);
                }
                assert(target_stem(sorted@[i as int]) == stem@);
                assert(target_name(sorted@[i as int]) == name@);
            }
            let bare_key = CommandKey::new(stem.as_str(), mapper);
            let ghost gb = bare_key;
            let bare = match bare_key {
                Ok(k) => k,
                Err(e) => {
                    proof {
                        assert(stops_build(mapper, sorted@, i as int, e));
                    }
                    return Err(e);
                },
            };
            let exact_key = CommandKey::new(name.as_str(), mapper);
            let ghost ge = exact_key;
            let exact = match exact_key {
                Ok(k) => k,
                Err(e) => {
                    proof {
                        assert(mapped_key(mapper, target_stem(sorted@[i as int]), gb));
                        assert(stops_build(mapper, sorted@, i as int, e));
                    }
                    return Err(e);
                },
            };
            let ghost kb = bare@;
            let ghost ke = exact@;
            let ghost old_keys = keys@;
            keys.push((bare, exact));
            proof {
                assert(keys@[i as int].0@ == kb && keys@[i as int].1@ == ke);
                assert(name_valid(kb) && name_valid(ke));
                assert(key_for(mapper, target_stem(sorted@[i as int]), kb));
                assert(key_for(mapper, target_name(sorted@[i as int]), ke));
                assert forall|k: int| 0 <= k < i + 1 implies key_for(mapper, target_stem(sorted@.take(i + 1)[k]), (#[trigger] key_views(keys@)[k]).0) && key_for(
                    mapper,
                    target_name(sorted@.take(i + 1)[k]),
                    key_views(keys@)[k].1,
                ) by {
                    if k < i {
                        assert(key_views(keys@)[k] == key_views(old_keys)[k]);
                        assert(sorted@.take(i + 1)[k] == sorted@.take(i as int)[k]);
                    }
                }
            }
            i = i + 1;
        }
        let commands = group_commands(&sorted, &keys);
        proof {
            lemma_no_ties(input, sorted@);
            if all_bad && sorted@.len() > 0 {
                lemma_all_bad_first(input, sorted@, 0);
            }
            let ks = key_views(keys@);
            assert(built_from(sorted@, ks, input, commands@));
            assert(sorted@.take(sorted@.len() as int) =~= sorted@);
            assert(keys_mapped(mapper, sorted@, ks));
            lemma_checked_targets(input, sorted@);
            let ghost table = commands@;
            assert(exists|ts: Seq<CommandTarget>, ks: Seq<(Seq<char>, Seq<char>)>|
                #[trigger] built_from(ts, ks, input, table) && keys_mapped(mapper, ts, ks));
        }
        Ok(RuntimeCommandManifest { runtime_id, commands, directories, diagnostics })
    }

    /// Exact runtime identity.
    pub fn runtime_id(&self) -> (r: &RuntimeId)
        ensures
            *r == self.spec_runtime_id(),
    {
        &self.runtime_id
    }

    /// Requests and their conflict records, in request order.
    pub fn commands(&self) -> (r: &[(CommandRequest, CommandEntry)])
        ensures
            r@ == self.spec_commands(),
    {
        self.commands.as_slice()
    }

    /// Ordered directory observations.
    pub fn directories(&self) -> (r: &[DirectoryFingerprint])
        ensures
            r@ == self.spec_directories(),
    {
        self.directories.as_slice()
    }

    /// Non-fatal discovery diagnostics.
    pub fn diagnostics(&self) -> (r: &[DiscoveryDiagnostic])
        ensures
            r@ == self.spec_diagnostics(),
    {
        self.diagnostics.as_slice()
    }
}

/// Every target of a successful build passed its checks, whatever its position.
proof fn lemma_checked_targets(input: Seq<CommandTarget>, sorted: Seq<CommandTarget>)
    requires
        sorted.to_multiset() == input.to_multiset(),
        forall|k: int| 0 <= k < sorted.len() ==> target_consistent(#[trigger] sorted[k]),
        forall|k: int| 0 <= k < sorted.len() ==> !observed_earlier(sorted, k),
    ensures
        forall|i: int| 0 <= i < input.len() ==> target_consistent(#[trigger] input[i]),
        !(exists|i: int, j: int|
            0 <= i < input.len() && 0 <= j < input.len() && i != j && input[i].origin
                == input[j].origin && #[trigger] spec_path_eq(input[i].path@, input[j].path@)
                && #[trigger] spec_path_eq(input[j].path@, input[i].path@)),
{
    broadcast use vstd::seq_lib::group_to_multiset_ensures;

    assert forall|i: int| 0 <= i < input.len() implies target_consistent(#[trigger] input[i]) by {
        assert(input.to_multiset().contains(input[i]));
        assert(sorted.contains(input[i]));
        let k = choose|k: int| 0 <= k < sorted.len() && sorted[k] == input[i];
        assert(target_consistent(sorted[k]));
    }
    if exists|i: int, j: int|
        0 <= i < input.len() && 0 <= j < input.len() && i != j && input[i].origin
            == input[j].origin && #[trigger] spec_path_eq(input[i].path@, input[j].path@)
            && #[trigger] spec_path_eq(input[j].path@, input[i].path@) {
        let (i, j) = choose|i: int, j: int|
            0 <= i < input.len() && 0 <= j < input.len() && i != j && input[i].origin
                == input[j].origin && #[trigger] spec_path_eq(input[i].path@, input[j].path@)
                && #[trigger] spec_path_eq(input[j].path@, input[i].path@);
        let x = input[i];
        let y = input[j];
        if x == y {
            if i < j {
                lemma_count_two(input, i, j);
            } else {
                lemma_count_two(input, j, i);
            }
            lemma_two_positions(sorted, x);
            let (k1, k2) = choose|k1: int, k2: int| 0 <= k1 < k2 < sorted.len() && sorted[k1] == x && sorted[k2] == x;
            assert(spec_path_eq(sorted[k1].path@, sorted[k2].path@));
            assert(observed_earlier(sorted, k2));
        } else {
            assert(input.to_multiset().contains(x));
            assert(input.to_multiset().contains(y));
            assert(sorted.contains(x));
            assert(sorted.contains(y));
            let kx = choose|k: int| 0 <= k < sorted.len() && sorted[k] == x;
            let ky = choose|k: int| 0 <= k < sorted.len() && sorted[k] == y;
            if kx < ky {
                assert(spec_path_eq(sorted[kx].path@, sorted[ky].path@));
                assert(observed_earlier(sorted, ky));
            } else {
                assert(spec_path_eq(sorted[ky].path@, sorted[kx].path@));
                assert(observed_earlier(sorted, kx));
            }
        }
    }
}

proof fn lemma_count_two<A>(s: Seq<A>, a: int, b: int)
    requires
        0 <= a < b < s.len(),
        s[a] == s[b],
    ensures
        s.to_multiset().count(s[a]) >= 2,
{
    broadcast use vstd::seq_lib::group_to_multiset_ensures;
    broadcast use vstd::multiset::group_multiset_axioms;

    let s0 = s.take(b);
    let s1 = s.skip(b);
    assert(s =~= s0 + s1);
    vstd::seq_lib::lemma_multiset_commutative(s0, s1);
    assert(s0[a] == s[a]);
    assert(s0.contains(s[a]));
    assert(s1[0] == s[a]);
    assert(s1.contains(s[a]));
}

proof fn lemma_two_positions<A>(s: Seq<A>, x: A)
    requires
        s.to_multiset().count(x) >= 2,
    ensures
        exists|k1: int, k2: int| 0 <= k1 < k2 < s.len() && s[k1] == x && s[k2] == x,
    decreases s.len(),
{
    broadcast use vstd::seq_lib::group_to_multiset_ensures;
    broadcast use vstd::multiset::group_multiset_axioms;

    let t = s.drop_last();
    assert(s =~= t.push(s.last()));
    if s.last() == x {
        assert(t.to_multiset().count(x) >= 1);
        assert(t.to_multiset().contains(x));
        assert(t.contains(x));
        let k = choose|k: int| 0 <= k < t.len() && t[k] == x;
        assert(s[k] == x && s[s.len() - 1] == x);
    } else {
        assert(t.to_multiset().count(x) >= 2);
        lemma_two_positions(t, x);
        let (k1, k2) = choose|k1: int, k2: int| 0 <= k1 < k2 < t.len() && t[k1] == x && t[k2] == x;
        assert(s[k1] == x && s[k2] == x);
    }
}

// ---------------------------------------------------------------------------
// Lookup
// ---------------------------------------------------------------------------

/// A mapper whose answer depends on the name alone: two calls on the same text either
/// both fail or map it to the same text.
pub open spec fn mapper_deterministic<M: CommandCaseMapper>(mapper: &M) -> bool {
    forall|a: &str, b: &str, m1: Result<String>, m2: Result<String>|
        a@ == b@ && #[trigger] call_ensures(M::uppercase, (mapper, a), m1) && #[trigger] call_ensures(
            M::uppercase,
            (mapper, b),
            m2,
        ) ==> (m1 is Ok <==> m2 is Ok) && (m1 is Ok ==> m1->Ok_0@ == m2->Ok_0@)
}

proof fn lemma_key_for_unique<M: CommandCaseMapper>(mapper: &M, name: Seq<char>, k1: Seq<char>, k2: Seq<char>)
    requires
        mapper_deterministic(mapper),
        key_for(mapper, name, k1),
        key_for(mapper, name, k2),
    ensures
        k1 == k2,
{
    let c1 = choose|k: CommandKey| k@ == k1 && #[trigger] mapped_key(mapper, name, Ok::<CommandKey, Error>(k));
    let c2 = choose|k: CommandKey| k@ == k2 && #[trigger] mapped_key(mapper, name, Ok::<CommandKey, Error>(k));
    let (a1, m1) = choose|arg: &str, m: Result<String>|
        arg@ == name && #[trigger] call_ensures(M::uppercase, (mapper, arg), m) && mapping_outcome(
            m,
            Ok::<CommandKey, Error>(c1),
        );
    let (a2, m2) = choose|arg: &str, m: Result<String>|
        arg@ == name && #[trigger] call_ensures(M::uppercase, (mapper, arg), m) && mapping_outcome(
            m,
            Ok::<CommandKey, Error>(c2),
        );
    assert(m1 is Ok && m2 is Ok);
}

/// With a mapper that answers by the name alone, any two successful builds of the same
/// targets, observed in any order, record the same table.
pub proof fn successful_builds_agree<M: CommandCaseMapper>(
    mapper: &M,
    ts1: Seq<CommandTarget>,
    ks1: Seq<(Seq<char>, Seq<char>)>,
    input1: Seq<CommandTarget>,
    table1: Seq<(CommandRequest, CommandEntry)>,
    ts2: Seq<CommandTarget>,
    ks2: Seq<(Seq<char>, Seq<char>)>,
    input2: Seq<CommandTarget>,
    table2: Seq<(CommandRequest, CommandEntry)>,
)
    requires
        mapper_deterministic(mapper),
        input1.to_multiset() == input2.to_multiset(),
        no_priority_ties(input1),
        built_from(ts1, ks1, input1, table1),
        built_from(ts2, ks2, input2, table2),
        keys_mapped(mapper, ts1, ks1),
        keys_mapped(mapper, ts2, ks2),
        table_sorted(table_view(table1)),
        table_sorted(table_view(table2)),
    ensures
        table_view(table1) == table_view(table2),
{
    assert forall|i: int, j: int| 0 <= i < ts1.len() && 0 <= j < ts2.len() && ts1[i] == ts2[j] implies #[trigger] ks1[i]
        == #[trigger] ks2[j] by {
        lemma_key_for_unique(mapper, target_stem(ts1[i]), ks1[i].0, ks2[j].0);
        lemma_key_for_unique(mapper, target_name(ts1[i]), ks1[i].1, ks2[j].1);
    }
    build_is_order_independent(ts1, ks1, input1, table1, ts2, ks2, input2, table2);
}

pub open spec fn missing_command_message() -> Seq<char> {
    "Command is missing from the selected runtime"@
}

pub open spec fn rejected_command_message() -> Seq<char> {
    "Selected command candidate was rejected"@
}

pub open spec fn rejected_command_hint(path: Seq<char>) -> Seq<char> {
    "Inspect \""@ + crate::state::escaped_text(path) + "\" and refresh the manifest"@
}

/// What looking a request up in one inventory yields: the winner, never a fallback.
pub open spec fn lookup_outcome(m: RuntimeCommandManifest, q: RequestView, r: Result<&CommandTarget>) -> bool {
    let l = table_lookup(table_view(m.spec_commands()), q);
    if l.len() == 0 {
        r matches Err(e) && e.spec_kind() == ErrorKind::CommandMissing && e.spec_message()
            == missing_command_message()
    } else if l[0].status is Rejected {
        r matches Err(e) && e.spec_kind() == ErrorKind::BrokenRuntime && e.spec_message()
            == rejected_command_message() && e.spec_hint() == Some(rejected_command_hint(l[0].path@))
    } else {
        r matches Ok(t) && *t == l[0]
    }
}

impl RuntimeCommandManifest {
    /// The conflict record of a request, if the inventory has one.
    pub fn entry(&self, request: &CommandRequest) -> (r: Option<&CommandEntry>)
        ensures
            table_sorted(table_view(self.spec_commands())) ==> match r {
                Some(e) => table_lookup(table_view(self.spec_commands()), request@) == seq![e.winner]
                    + e.shadowed@,
                None => table_lookup(table_view(self.spec_commands()), request@).len() == 0,
            },
    {
        let ghost t = table_view(self.commands@);
        let mut k: usize = 0;
        while k < self.commands.len()
            invariant
                k <= self.commands@.len(),
                t == table_view(self.commands@),
                forall|j: int| 0 <= j < k ==> #[trigger] t[j].0 != request@,
            decreases self.commands.len() - k,
        {
            if request_same(&self.commands[k].0, request) {
                proof {
                    if table_sorted(t) {
                        lemma_table_lookup_at(t, k as int);
                    }
                }
                return Some(&self.commands[k].1);
            }
            k = k + 1;
        }
        proof {
            lemma_table_lookup_absent(t, request@);
        }
        None
    }

    /// Looks up only this runtime, without checking or executing the target file.
    /// Missing commands are `CommandMissing`; rejected winners are `BrokenRuntime`,
    /// without fallback.
    pub fn lookup(&self, request: &CommandRequest) -> (r: Result<&CommandTarget>)
        ensures
            table_sorted(table_view(self.spec_commands())) ==> lookup_outcome(*self, request@, r),
    {
        let entry = match self.entry(request) {
            Some(e) => e,
            None => return Err(
                Error::new(ErrorKind::CommandMissing, "Command is missing from the selected runtime"),
            ),
        };
        if let CommandStatus::Rejected(_) = entry.winner.status {
            let mut hint = String::new();
            crate::text::push_str(&mut hint, "Inspect \"");
            let escaped = crate::state::escape_debug(entry.winner.path.as_str());
            crate::text::push_str(&mut hint, escaped.as_str());
            crate::text::push_str(&mut hint, "\" and refresh the manifest");
            proof {
                assert(hint@ =~= rejected_command_hint(entry.winner.path@));
            }
            return Err(
                Error::new(ErrorKind::BrokenRuntime, "Selected command candidate was rejected").with_hint(
                    hint.as_str(),
                ),
            );
        }
        Ok(&entry.winner)
    }
}

pub open spec fn no_manifest_message() -> Seq<char> {
    "Selected runtime has no command manifest"@
}

pub open spec fn duplicate_manifest_message() -> Seq<char> {
    "Selected runtime has duplicate manifests"@
}

/// Looks up an exact runtime ID; providers in other manifests are never tried.
pub fn lookup_command<'a>(
    manifests: &'a [RuntimeCommandManifest],
    active: &RuntimeId,
    request: &CommandRequest,
) -> (r: Result<&'a CommandTarget>)
    ensures
        (forall|i: int| 0 <= i < manifests@.len() ==> (#[trigger] manifests@[i]).spec_runtime_id() != *active)
            ==> (r matches Err(e) && e.spec_kind() == ErrorKind::NotInstalled && e.spec_message()
            == no_manifest_message()),
        (exists|i: int, j: int|
            0 <= i < j < manifests@.len() && (#[trigger] manifests@[i]).spec_runtime_id() == *active
                && (#[trigger] manifests@[j]).spec_runtime_id() == *active) ==> (r matches Err(e)
            && e.spec_kind() == ErrorKind::Conflict && e.spec_message() == duplicate_manifest_message()),
        forall|i: int|
            0 <= i < manifests@.len() && (#[trigger] manifests@[i]).spec_runtime_id() == *active && (forall|j: int|
                0 <= j < manifests@.len() && j != i ==> manifests@[j].spec_runtime_id() != *active)
                && table_sorted(table_view(manifests@[i].spec_commands())) ==> lookup_outcome(
                manifests@[i],
                request@,
                r,
            ),
{
    let mut found: Option<usize> = None;
    let mut k: usize = 0;
    while k < manifests.len()
        invariant
            k <= manifests@.len(),
            match found {
                None => forall|j: int| 0 <= j < k ==> (#[trigger] manifests@[j]).spec_runtime_id() != *active,
                Some(f) => f < k && manifests@[f as int].spec_runtime_id() == *active && forall|j: int|
                    0 <= j < k && j != f ==> (#[trigger] manifests@[j]).spec_runtime_id() != *active,
            },
        decreases manifests.len() - k,
    {
        if *manifests[k].runtime_id() == *active {
            if found.is_some() {
                return Err(
                    Error::new(ErrorKind::Conflict, "Selected runtime has duplicate manifests"),
                );
            }
            found = Some(k);
        }
        k = k + 1;
    }
    match found {
        None => Err(Error::new(ErrorKind::NotInstalled, "Selected runtime has no command manifest")),
        Some(f) => manifests[f].lookup(request),
    }
}

// ---------------------------------------------------------------------------
// Union across runtimes
// ---------------------------------------------------------------------------

/// The order of runtime identities: by version, then unqualified before qualified,
/// then by installation value.
pub open spec fn id_lt(a: RuntimeId, b: RuntimeId) -> bool {
    let va = a.spec_version();
    let vb = b.spec_version();
    if va != vb {
        crate::version::version_lt(va, vb)
    } else {
        match (a.spec_installation(), b.spec_installation()) {
            (None, Some(_)) => true,
            (Some(x), Some(y)) => x.spec_value() < y.spec_value(),
            _ => false,
        }
    }
}

proof fn lemma_id_order(a: RuntimeId, b: RuntimeId, c: RuntimeId)
    ensures
        !id_lt(a, a),
        a != b ==> id_lt(a, b) || id_lt(b, a),
        id_lt(a, b) ==> !id_lt(b, a),
        id_lt(a, b) && id_lt(b, c) ==> id_lt(a, c),
{
    crate::version::version_order_is_total(a.spec_version(), b.spec_version(), c.spec_version());
    crate::version::version_order_is_total(a.spec_version(), c.spec_version(), b.spec_version());
    crate::version::version_order_is_total(b.spec_version(), a.spec_version(), c.spec_version());
    if a != b && a.spec_version() == b.spec_version() {
        if a.spec_installation() == b.spec_installation() {
            RuntimeId::lemma_ext(a, b);
        }
        if let (Some(x), Some(y)) = (a.spec_installation(), b.spec_installation()) {
            if x.spec_value() == y.spec_value() {
                crate::runtime::InstallationId::lemma_ext(x, y);
            }
        }
    }
}

fn id_lt_exec(a: &RuntimeId, b: &RuntimeId) -> (r: bool)
    ensures
        r == id_lt(*a, *b),
{
    let va = a.version();
    let vb = b.version();
    if va != vb {
        return va.precedes(vb);
    }
    match (a.installation(), b.installation()) {
        (None, Some(_)) => true,
        (Some(x), Some(y)) => x.value() < y.value(),
        _ => false,
    }
}

/// Union for future shim publication; values are diagnostic providers, not fallbacks.
pub type CommandUnion = Vec<(CommandRequest, Vec<RuntimeId>)>;

pub open spec fn union_view(u: Seq<(CommandRequest, Vec<RuntimeId>)>) -> Seq<(RequestView, Seq<RuntimeId>)> {
    u.map_values(|e: (CommandRequest, Vec<RuntimeId>)| (e.0@, e.1@))
}

/// Requests in strictly increasing order, each with at least one provider and its
/// providers in strictly increasing order.
pub open spec fn union_sorted(u: Seq<(RequestView, Seq<RuntimeId>)>) -> bool {
    &&& forall|i: int, j: int| 0 <= i < j < u.len() ==> request_lt(#[trigger] u[i].0, #[trigger] u[j].0)
    &&& forall|k: int| 0 <= k < u.len() ==> (#[trigger] u[k]).1.len() > 0
    &&& forall|k: int, i: int, j: int| 0 <= k < u.len() && 0 <= i < j < u[k].1.len() ==> id_lt(#[trigger] u[k].1[i], #[trigger] u[k].1[j])
}

/// Whether the union lists `id` as a provider of `q`.
pub open spec fn union_has(u: Seq<(RequestView, Seq<RuntimeId>)>, q: RequestView, id: RuntimeId) -> bool {
    exists|k: int| 0 <= k < u.len() && #[trigger] u[k].0 == q && u[k].1.contains(id)
}

/// Whether an inventory's entry for `q` has a supported winner.
pub open spec fn provides(m: RuntimeCommandManifest, q: RequestView) -> bool {
    exists|k: int|
        0 <= k < m.spec_commands().len() && #[trigger] m.spec_commands()[k].0@ == q
            && m.spec_commands()[k].1.winner.status is Available
}

#[verifier::rlimit(40)]
fn add_provider(u: &mut Vec<(CommandRequest, Vec<RuntimeId>)>, request: CommandRequest, id: RuntimeId)
    requires
        union_sorted(union_view(old(u)@)),
    ensures
        union_sorted(union_view(final(u)@)),
        forall|q: RequestView, x: RuntimeId| #[trigger] union_has(union_view(final(u)@), q, x) <==> (union_has(
            union_view(old(u)@),
            q,
            x,
        ) || (q == request@ && x == id)),
{
    let ghost before = union_view(u@);
    let ghost req = request@;
    let mut p: usize = 0;
    while p < u.len() && request_lt_exec(&u[p].0, &request)
        invariant
            p <= u@.len(),
            before == union_view(u@),
            req == request@,
            forall|k: int| 0 <= k < p ==> request_lt(#[trigger] before[k].0, req),
        decreases u.len() - p,
    {
        assert(before[p as int].0 == u@[p as int].0@);
        p = p + 1;
    }
    if p < u.len() && request_same(&u[p].0, &request) {
        let mut entry = u.remove(p);
        let ghost ids = entry.1@;
        let mut q: usize = 0;
        while q < entry.1.len() && id_lt_exec(&entry.1[q], &id)
            invariant
                q <= entry.1@.len(),
                ids == entry.1@,
                forall|k: int| 0 <= k < q ==> id_lt(#[trigger] ids[k], id),
            decreases entry.1.len() - q,
        {
            q = q + 1;
        }
        if q < entry.1.len() && entry.1[q] == id {
        } else {
            entry.1.insert(q, id);
        }
        u.insert(p, entry);
        proof {
            let after = union_view(u@);
            let nids = after[p as int].1;
            assert(after.len() == before.len());
            assert forall|k: int| 0 <= k < after.len() && k != p implies #[trigger] after[k] == before[k] by {
                assert(u@[k] == old(u)@[k]);
            }
            assert(after[p as int].0 == req);
            assert(ids == before[p as int].1);
            if q < ids.len() && ids[q as int] == id {
                assert(nids == ids);
            } else {
                assert(nids =~= ids.insert(q as int, id));
                if q < ids.len() {
                    lemma_id_order(ids[q as int], id, id);
                    assert(id_lt(id, ids[q as int]));
                }
                assert forall|i: int, j: int| 0 <= i < j < nids.len() implies id_lt(#[trigger] nids[i], #[trigger] nids[j]) by {
                    if j < q {
                        assert(nids[i] == ids[i] && nids[j] == ids[j]);
                        assert(id_lt(before[p as int].1[i], before[p as int].1[j]));
                    } else if j == q {
                        assert(nids[i] == ids[i]);
                        assert(nids[j] == id);
                        assert(id_lt(ids[i], id));
                    } else if i < q {
                        assert(nids[i] == ids[i] && nids[j] == ids[j - 1]);
                        assert(id_lt(ids[i], id));
                        if j - 1 > q {
                            assert(id_lt(before[p as int].1[q as int], before[p as int].1[j - 1]));
                            lemma_id_order(id, ids[q as int], ids[j - 1]);
                        }
                        assert(id_lt(id, ids[j - 1]));
                        lemma_id_order(ids[i], id, ids[j - 1]);
                    } else if i == q {
                        assert(nids[i] == id);
                        assert(nids[j] == ids[j - 1]);
                        if j - 1 > q {
                            assert(id_lt(before[p as int].1[q as int], before[p as int].1[j - 1]));
                            lemma_id_order(id, ids[q as int], ids[j - 1]);
                        }
                    } else {
                        assert(nids[i] == ids[i - 1] && nids[j] == ids[j - 1]);
                        assert(id_lt(before[p as int].1[i - 1], before[p as int].1[j - 1]));
                    }
                }
                assert forall|x: RuntimeId| nids.contains(x) <==> (ids.contains(x) || x == id) by {
                    if nids.contains(x) {
                        let k = choose|k: int| 0 <= k < nids.len() && nids[k] == x;
                        if k < q {
                            assert(ids[k] == x);
                        } else if k > q {
                            assert(ids[k - 1] == x);
                        }
                    }
                    if ids.contains(x) {
                        let k = choose|k: int| 0 <= k < ids.len() && ids[k] == x;
                        if k < q {
                            assert(nids[k] == x);
                        } else {
                            assert(nids[k + 1] == x);
                        }
                    }
                    if x == id {
                        assert(nids[q as int] == id);
                    }
                }
            }
            assert forall|q2: RequestView, x: RuntimeId| #[trigger] union_has(after, q2, x) <==> (union_has(before, q2, x) || (q2 == req && x == id)) by {
                if union_has(after, q2, x) {
                    let k = choose|k: int| 0 <= k < after.len() && #[trigger] after[k].0 == q2 && after[k].1.contains(x);
                    if k != p {
                        assert(before[k] == after[k]);
                    } else {
                        assert(before[p as int].0 == q2);
                    }
                }
                if union_has(before, q2, x) {
                    let k = choose|k: int| 0 <= k < before.len() && #[trigger] before[k].0 == q2 && before[k].1.contains(x);
                    if k != p {
                        assert(before[k] == after[k]);
                    } else {
                        assert(after[p as int].0 == q2);
                    }
                }
                if q2 == req && x == id {
                    assert(after[p as int].1.contains(id));
                }
            }
        }
    } else {
        let mut providers: Vec<RuntimeId> = Vec::new();
        providers.push(id);
        u.insert(p, (request, providers));
        proof {
            let after = union_view(u@);
            assert(after =~= before.insert(p as int, (req, seq![id])));
            if p < before.len() {
                lemma_request_order(before[p as int].0, req, req);
                assert(request_lt(req, before[p as int].0));
            }
            assert forall|a: int, b: int| 0 <= a < b < after.len() implies request_lt(#[trigger] after[a].0, #[trigger] after[b].0) by {
                if b < p {
                    assert(request_lt(before[a].0, before[b].0));
                } else if b == p {
                } else if a < p {
                    if b - 1 > p {
                        lemma_request_order(req, before[p as int].0, before[b - 1].0);
                    }
                    lemma_request_order(before[a].0, req, before[b - 1].0);
                } else if a == p {
                    if b - 1 > p {
                        lemma_request_order(req, before[p as int].0, before[b - 1].0);
                    }
                } else {
                    assert(request_lt(before[a - 1].0, before[b - 1].0));
                }
            }
            assert forall|k: int, i: int, j: int| 0 <= k < after.len() && 0 <= i < j < after[k].1.len() implies id_lt(#[trigger] after[k].1[i], #[trigger] after[k].1[j]) by {
                if k < p {
                    assert(after[k] == before[k]);
                } else if k > p {
                    assert(after[k] == before[k - 1]);
                }
            }
            assert forall|i: int| 0 <= i < before.len() implies #[trigger] before[i].0 != req by {
                if i < p {
                    lemma_request_order(before[i].0, req, req);
                } else {
                    if i > p {
                        lemma_request_order(req, before[p as int].0, before[i].0);
                    }
                    lemma_request_order(req, before[i].0, req);
                }
            }
            assert forall|q2: RequestView, x: RuntimeId| #[trigger] union_has(after, q2, x) <==> (union_has(before, q2, x) || (q2 == req && x == id)) by {
                if union_has(after, q2, x) {
                    let k = choose|k: int| 0 <= k < after.len() && #[trigger] after[k].0 == q2 && after[k].1.contains(x);
                    if k < p {
                        assert(before[k] == after[k]);
                        assert(before[k].0 == q2 && before[k].1.contains(x));
                    } else if k > p {
                        assert(before[k - 1] == after[k]);
                        assert(before[k - 1].0 == q2 && before[k - 1].1.contains(x));
                    } else {
                        assert(after[k].1 =~= seq![id]);
                        let w = choose|w: int| 0 <= w < after[k].1.len() && after[k].1[w] == x;
                        assert(w == 0);
                    }
                }
                if union_has(before, q2, x) {
                    let k = choose|k: int| 0 <= k < before.len() && #[trigger] before[k].0 == q2 && before[k].1.contains(x);
                    if k < p {
                        assert(after[k] == before[k]);
                        assert(after[k].0 == q2 && after[k].1.contains(x));
                    } else {
                        assert(after[k + 1] == before[k]);
                        assert(after[k + 1].0 == q2 && after[k + 1].1.contains(x));
                    }
                }
                if q2 == req && x == id {
                    assert(after[p as int].1[0] == id);
                    assert(after[p as int].1.contains(id));
                    assert(after[p as int].0 == req);
                    assert(union_has(after, q2, x));
                }
            }
        }
    }
}

/// A union of inventories: sorted, and listing each runtime exactly under the
/// requests its inventory serves with an available winner.
pub open spec fn union_of(ms: Seq<RuntimeCommandManifest>, u: Seq<(RequestView, Seq<RuntimeId>)>) -> bool {
    &&& union_sorted(u)
    &&& forall|q: RequestView, id: RuntimeId| #[trigger] union_has(u, q, id) <==> exists|i: int|
        0 <= i < ms.len() && (#[trigger] ms[i]).spec_runtime_id() == id && provides(ms[i], q)
}

/// Two sequences, each strictly increasing under an irreflexive, asymmetric relation,
/// that hold the same elements are equal.
proof fn lemma_sorted_same_elements<T>(a: Seq<T>, b: Seq<T>, lt: spec_fn(T, T) -> bool)
    requires
        forall|i: int, j: int| 0 <= i < j < a.len() ==> lt(#[trigger] a[i], #[trigger] a[j]),
        forall|i: int, j: int| 0 <= i < j < b.len() ==> lt(#[trigger] b[i], #[trigger] b[j]),
        forall|x: T| a.contains(x) <==> b.contains(x),
        forall|x: T, y: T| #[trigger] lt(x, y) ==> x != y && !lt(y, x),
    ensures
        a == b,
    decreases a.len(),
{
    if a.len() == 0 {
        if b.len() > 0 {
            assert(b.contains(b[0]));
        }
        assert(a =~= b);
    } else {
        assert(a.contains(a[0]));
        assert(b.len() > 0);
        assert(b.contains(b[0]));
        if a[0] != b[0] {
            let j = choose|j: int| 0 <= j < a.len() && a[j] == b[0];
            let k = choose|k: int| 0 <= k < b.len() && b[k] == a[0];
            assert(j > 0);
            assert(k > 0);
            assert(lt(a[0], a[j]));
            assert(lt(b[0], b[k]));
        }
        let a1 = a.drop_first();
        let b1 = b.drop_first();
        assert forall|i: int, j: int| 0 <= i < j < a1.len() implies lt(#[trigger] a1[i], #[trigger] a1[j]) by {
            assert(lt(a[i + 1], a[j + 1]));
        }
        assert forall|i: int, j: int| 0 <= i < j < b1.len() implies lt(#[trigger] b1[i], #[trigger] b1[j]) by {
            assert(lt(b[i + 1], b[j + 1]));
        }
        assert forall|x: T| a1.contains(x) <==> b1.contains(x) by {
            if a1.contains(x) {
                let i = choose|i: int| 0 <= i < a1.len() && a1[i] == x;
                assert(a[i + 1] == x);
                assert(lt(a[0], a[i + 1]));
                assert(b.contains(x));
                let k = choose|k: int| 0 <= k < b.len() && b[k] == x;
                assert(k != 0);
                assert(b1[k - 1] == x);
            }
            if b1.contains(x) {
                let i = choose|i: int| 0 <= i < b1.len() && b1[i] == x;
                assert(b[i + 1] == x);
                assert(lt(b[0], b[i + 1]));
                assert(a.contains(x));
                let k = choose|k: int| 0 <= k < a.len() && a[k] == x;
                assert(k != 0);
                assert(a1[k - 1] == x);
            }
        }
        lemma_sorted_same_elements(a1, b1, lt);
        assert(a =~= b1.insert(0, b[0]));
        assert(b =~= b1.insert(0, b[0]));
    }
}

/// The union of command inventories does not depend on the order in which the
/// inventories are given: inventories holding the same manifests, in any order,
/// have the same union.
pub proof fn union_is_order_independent(
    ms1: Seq<RuntimeCommandManifest>,
    ms2: Seq<RuntimeCommandManifest>,
    u1: Seq<(RequestView, Seq<RuntimeId>)>,
    u2: Seq<(RequestView, Seq<RuntimeId>)>,
)
    requires
        forall|m: RuntimeCommandManifest| ms1.contains(m) <==> ms2.contains(m),
        union_of(ms1, u1),
        union_of(ms2, u2),
    ensures
        u1 == u2,
{
    assert forall|q: RequestView, id: RuntimeId| union_has(u1, q, id) <==> union_has(u2, q, id) by {
        if union_has(u1, q, id) {
            let i = choose|i: int| 0 <= i < ms1.len() && (#[trigger] ms1[i]).spec_runtime_id() == id && provides(ms1[i], q);
            assert(ms1.contains(ms1[i]));
            let j = choose|j: int| 0 <= j < ms2.len() && ms2[j] == ms1[i];
            assert(union_has(u2, q, id));
        }
        if union_has(u2, q, id) {
            let i = choose|i: int| 0 <= i < ms2.len() && (#[trigger] ms2[i]).spec_runtime_id() == id && provides(ms2[i], q);
            assert(ms2.contains(ms2[i]));
            let j = choose|j: int| 0 <= j < ms1.len() && ms1[j] == ms2[i];
            assert(union_has(u1, q, id));
        }
    }
    let k1 = u1.map_values(|e: (RequestView, Seq<RuntimeId>)| e.0);
    let k2 = u2.map_values(|e: (RequestView, Seq<RuntimeId>)| e.0);
    let rlt = |a: RequestView, b: RequestView| request_lt(a, b);
    assert forall|x: RequestView, y: RequestView| #[trigger] rlt(x, y) implies x != y && !rlt(y, x) by {
        lemma_request_order(x, y, x);
    }
    assert forall|i: int, j: int| 0 <= i < j < k1.len() implies rlt(#[trigger] k1[i], #[trigger] k1[j]) by {
        assert(request_lt(u1[i].0, u1[j].0));
    }
    assert forall|i: int, j: int| 0 <= i < j < k2.len() implies rlt(#[trigger] k2[i], #[trigger] k2[j]) by {
        assert(request_lt(u2[i].0, u2[j].0));
    }
    assert forall|q: RequestView| k1.contains(q) <==> k2.contains(q) by {
        if k1.contains(q) {
            let i = choose|i: int| 0 <= i < k1.len() && k1[i] == q;
            assert(u1[i].1.len() > 0);
            assert(u1[i].1.contains(u1[i].1[0]));
            assert(union_has(u1, q, u1[i].1[0]));
            assert(union_has(u2, q, u1[i].1[0]));
            let k = choose|k: int| 0 <= k < u2.len() && #[trigger] u2[k].0 == q && u2[k].1.contains(u1[i].1[0]);
            assert(k2[k] == q);
        }
        if k2.contains(q) {
            let i = choose|i: int| 0 <= i < k2.len() && k2[i] == q;
            assert(u2[i].1.len() > 0);
            assert(u2[i].1.contains(u2[i].1[0]));
            assert(union_has(u2, q, u2[i].1[0]));
            assert(union_has(u1, q, u2[i].1[0]));
            let k = choose|k: int| 0 <= k < u1.len() && #[trigger] u1[k].0 == q && u1[k].1.contains(u2[i].1[0]);
            assert(k1[k] == q);
        }
    }
    lemma_sorted_same_elements(k1, k2, rlt);
    assert(u1.len() == u2.len());
    let ilt = |a: RuntimeId, b: RuntimeId| id_lt(a, b);
    assert forall|x: RuntimeId, y: RuntimeId| #[trigger] ilt(x, y) implies x != y && !ilt(y, x) by {
        lemma_id_order(x, y, x);
    }
    assert forall|i: int| 0 <= i < u1.len() implies #[trigger] u1[i] == u2[i] by {
        assert(k1[i] == k2[i]);
        let q = u1[i].0;
        assert(u2[i].0 == q);
        assert forall|a: int, b: int| 0 <= a < b < u1[i].1.len() implies ilt(#[trigger] u1[i].1[a], #[trigger] u1[i].1[b]) by {
            assert(id_lt(u1[i].1[a], u1[i].1[b]));
        }
        assert forall|a: int, b: int| 0 <= a < b < u2[i].1.len() implies ilt(#[trigger] u2[i].1[a], #[trigger] u2[i].1[b]) by {
            assert(id_lt(u2[i].1[a], u2[i].1[b]));
        }
        assert forall|x: RuntimeId| u1[i].1.contains(x) <==> u2[i].1.contains(x) by {
            if u1[i].1.contains(x) {
                assert(union_has(u1, q, x));
                assert(union_has(u2, q, x));
                let k = choose|k: int| 0 <= k < u2.len() && #[trigger] u2[k].0 == q && u2[k].1.contains(x);
                if k != i {
                    if k < i {
                        assert(request_lt(u2[k].0, u2[i].0));
                    } else {
                        assert(request_lt(u2[i].0, u2[k].0));
                    }
                    lemma_request_order(q, q, q);
                }
            }
            if u2[i].1.contains(x) {
                assert(union_has(u2, q, x));
                assert(union_has(u1, q, x));
                let k = choose|k: int| 0 <= k < u1.len() && #[trigger] u1[k].0 == q && u1[k].1.contains(x);
                if k != i {
                    if k < i {
                        assert(request_lt(u1[k].0, u1[i].0));
                    } else {
                        assert(request_lt(u1[i].0, u1[k].0));
                    }
                    lemma_request_order(q, q, q);
                }
            }
        }
        lemma_sorted_same_elements(u1[i].1, u2[i].1, ilt);
    }
    assert(u1 =~= u2);
}

pub open spec fn duplicate_manifests_message() -> Seq<char> {
    "Duplicate runtime command manifests"@
}

/// Computes a deterministic union of supported winning entries; ambiguous duplicate
/// runtime manifests are rejected.
pub fn command_union(manifests: &[RuntimeCommandManifest]) -> (r: Result<CommandUnion>)
    ensures
        (exists|i: int, j: int| 0 <= i < j < manifests@.len() && (#[trigger] manifests@[i]).spec_runtime_id()
            == (#[trigger] manifests@[j]).spec_runtime_id()) ==> (r matches Err(e) && e.spec_kind()
            == ErrorKind::Conflict && e.spec_message() == duplicate_manifests_message()),
        r matches Ok(u) ==> union_of(manifests@, union_view(u@)),
        !(exists|i: int, j: int| 0 <= i < j < manifests@.len() && (#[trigger] manifests@[i]).spec_runtime_id()
            == (#[trigger] manifests@[j]).spec_runtime_id()) ==> r is Ok,
{
    let mut i: usize = 0;
    while i < manifests.len()
        invariant
            i <= manifests@.len(),
            forall|a: int, b: int| 0 <= a < b < i ==> (#[trigger] manifests@[a]).spec_runtime_id()
                != (#[trigger] manifests@[b]).spec_runtime_id(),
        decreases manifests.len() - i,
    {
        let mut j: usize = 0;
        while j < i
            invariant
                i < manifests@.len(),
                j <= i,
                forall|a: int| 0 <= a < j ==> (#[trigger] manifests@[a]).spec_runtime_id() != manifests@[i as int].spec_runtime_id(),
            decreases i - j,
        {
            if *manifests[j].runtime_id() == *manifests[i].runtime_id() {
                return Err(Error::new(ErrorKind::Conflict, "Duplicate runtime command manifests"));
            }
            j = j + 1;
        }
        i = i + 1;
    }
    let mut u: CommandUnion = Vec::new();
    let mut m: usize = 0;
    while m < manifests.len()
        invariant
            m <= manifests@.len(),
            union_sorted(union_view(u@)),
            forall|q: RequestView, id: RuntimeId| #[trigger] union_has(union_view(u@), q, id) <==> exists|i: int|
                0 <= i < m && (#[trigger] manifests@[i]).spec_runtime_id() == id && provides(manifests@[i], q),
        decreases manifests.len() - m,
    {
        let manifest = &manifests[m];
        let id = *manifest.runtime_id();
        let entries = manifest.commands();
        let mut k: usize = 0;
        while k < entries.len()
            invariant
                m < manifests@.len(),
                *manifest == manifests@[m as int],
                id == manifest.spec_runtime_id(),
                entries@ == manifest.spec_commands(),
                k <= entries@.len(),
                union_sorted(union_view(u@)),
                forall|q: RequestView, x: RuntimeId| #[trigger] union_has(union_view(u@), q, x) <==> (
                    (exists|i: int| 0 <= i < m && (#[trigger] manifests@[i]).spec_runtime_id() == x && provides(manifests@[i], q))
                    || (x == id && exists|e: int| 0 <= e < k && #[trigger] entries@[e].0@ == q && entries@[e].1.winner.status is Available)),
            decreases entries.len() - k,
        {
            let ghost before = union_view(u@);
            let ghost qk = entries@[k as int].0@;
            let available = matches!(entries[k].1.winner.status, CommandStatus::Available(_));
            if available {
                let request = match &entries[k].0 {
                    CommandRequest::Bare(key) => CommandRequest::Bare(key.duplicate()),
                    CommandRequest::Exact(key) => CommandRequest::Exact(key.duplicate()),
                };
                assert(request@ == qk);
                add_provider(&mut u, request, id);
            }
            proof {
                assert forall|q: RequestView, x: RuntimeId| #[trigger] union_has(union_view(u@), q, x) <==> (
                    (exists|i: int| 0 <= i < m && (#[trigger] manifests@[i]).spec_runtime_id() == x && provides(manifests@[i], q))
                    || (x == id && exists|e: int| 0 <= e < k + 1 && #[trigger] entries@[e].0@ == q && entries@[e].1.winner.status is Available)) by {
                    if x == id && (exists|e: int| 0 <= e < k + 1 && #[trigger] entries@[e].0@ == q && entries@[e].1.winner.status is Available) {
                        let e = choose|e: int| 0 <= e < k + 1 && #[trigger] entries@[e].0@ == q && entries@[e].1.winner.status is Available;
                        if e < k {
                            assert(union_has(before, q, x));
                        }
                    }
                    if x == id && (exists|e: int| 0 <= e < k && #[trigger] entries@[e].0@ == q && entries@[e].1.winner.status is Available) {
                        let e = choose|e: int| 0 <= e < k && #[trigger] entries@[e].0@ == q && entries@[e].1.winner.status is Available;
                        assert(0 <= e < k + 1 && entries@[e].0@ == q);
                    }
                }
            }
            k = k + 1;
        }
        proof {
            assert forall|q: RequestView, x: RuntimeId| #[trigger] union_has(union_view(u@), q, x) <==> exists|i: int|
                0 <= i < m + 1 && (#[trigger] manifests@[i]).spec_runtime_id() == x && provides(manifests@[i], q) by {
                if x == id && provides(manifests@[m as int], q) {
                    let e = choose|e: int| 0 <= e < manifest.spec_commands().len() && #[trigger] manifest.spec_commands()[e].0@ == q
                        && manifest.spec_commands()[e].1.winner.status is Available;
                    assert(entries@[e].0@ == q);
                }
            }
        }
        m = m + 1;
    }
    Ok(u)
}

} // verus!
