//! Active-runtime resolution: explicit > shell > nearest local > global > opted-in system.
use crate::error::{Error, ErrorKind, Result};
use crate::paths::{path_eq, path_join, path_parent, spec_path_eq, spec_path_join, spec_path_parent};
use crate::runtime::RuntimeRecord;
use crate::text::chars_of;
use crate::selector::{
    selection_outcome, selector_wf, spec_parse_selector, RuntimeSelection, SelectorView,
    VersionSelector,
};
use crate::state::{
    check_system_policy, policy_hint, policy_message, read_answer, read_selection_file, StateFileSystem,
    MAX_SELECTION_FILE_BYTES,
};
use vstd::prelude::*;

verus! {

/// The source that selected an active runtime.
#[derive(Clone, Debug, PartialEq, Eq)]
pub enum VersionSource {
    /// An explicit command-line selection.
    Explicit,
    /// The `PYRUDDER_VERSION` environment variable.
    ShellEnvironment,
    /// The closest valid project `.python-version` file.
    LocalFile(String),
    /// The user's global selection file.
    GlobalFile(String),
    /// An explicitly enabled system fallback.
    SystemFallback,
}

/// A source with its file path taken as text.
pub enum SourceView {
    Explicit,
    ShellEnvironment,
    LocalFile(Seq<char>),
    GlobalFile(Seq<char>),
    SystemFallback,
}

impl View for VersionSource {
    type V = SourceView;

    open spec fn view(&self) -> SourceView {
        match self {
            VersionSource::Explicit => SourceView::Explicit,
            VersionSource::ShellEnvironment => SourceView::ShellEnvironment,
            VersionSource::LocalFile(p) => SourceView::LocalFile(p@),
            VersionSource::GlobalFile(p) => SourceView::GlobalFile(p@),
            VersionSource::SystemFallback => SourceView::SystemFallback,
        }
    }
}

impl VersionSource {
    /// A copy of the source.
    pub fn duplicate(&self) -> (r: Self)
        ensures
            r@ == self@,
    {
        match self {
            VersionSource::Explicit => VersionSource::Explicit,
            VersionSource::ShellEnvironment => VersionSource::ShellEnvironment,
            VersionSource::LocalFile(p) => VersionSource::LocalFile(p.clone()),
            VersionSource::GlobalFile(p) => VersionSource::GlobalFile(p.clone()),
            VersionSource::SystemFallback => VersionSource::SystemFallback,
        }
    }
}

/// Priority of a source: lower is consulted first and wins.
pub open spec fn source_rank(s: SourceView) -> int {
    match s {
        SourceView::Explicit => 0,
        SourceView::ShellEnvironment => 1,
        SourceView::LocalFile(_) => 2,
        SourceView::GlobalFile(_) => 3,
        SourceView::SystemFallback => 4,
    }
}

/// Maximum directories visited by one project-file search.
pub const MAX_LOCAL_DEPTH: usize = 256;

/// The value of the shell selector as the environment holds it.
#[derive(Clone, Copy, Debug, PartialEq, Eq)]
pub enum ShellValue<'a> {
    /// Unicode text.
    Text(&'a str),
    /// A value that is not valid Unicode.
    NotUnicode,
}

/// Inputs captured once for one resolution; no ambient environment is read here.
#[derive(Clone, Copy, Debug)]
pub struct ResolveRequest<'a> {
    /// Highest-priority explicit selector.
    pub explicit: Option<&'a str>,
    /// Current-shell selector, kept as the environment holds it until reached.
    pub shell_version: Option<ShellValue<'a>>,
    /// Existing starting directory.
    pub cwd: &'a str,
    /// Optional inclusive ancestor boundary; absence means filesystem root.
    pub workspace_boundary: Option<&'a str>,
    /// Absolute user global-selection file.
    pub global_file: &'a str,
    /// Trusted opt-in policy; projects cannot enable system fallback.
    pub system_fallback: bool,
}

/// Outcome of a source that was actually consulted; lower sources are not eagerly read.
#[derive(Clone, Copy, Debug, PartialEq, Eq, Structural)]
pub enum TraceOutcome {
    /// No value/file was present.
    Absent,
    /// This source selected the result.
    Selected,
    /// This source failed and stopped resolution.
    Rejected,
}

/// One ordered explain entry.
#[derive(Clone, Debug, PartialEq, Eq)]
pub struct ResolutionStep {
    /// Source checked, including the exact file path.
    pub source: VersionSource,
    /// Presence or selection outcome.
    pub outcome: TraceOutcome,
}

/// Selected metadata and provenance; not an executable dispatch authorization.
#[derive(Clone, Debug, PartialEq, Eq)]
pub struct ResolvedRuntime<'a> {
    /// Registered metadata or policy-allowed system intent.
    pub selection: RuntimeSelection<'a>,
    /// Winning source.
    pub source: VersionSource,
    /// Validated selector supplied by the winning source.
    pub selector: VersionSelector,
}

/// A result with its explain trace, retained even when resolution fails.
#[derive(Debug, PartialEq, Eq)]
pub struct ResolutionReport<'a> {
    /// Checked sources in descending priority and project proximity.
    pub steps: Vec<ResolutionStep>,
    /// Resolution success or the first blocking error.
    pub result: Result<ResolvedRuntime<'a>>,
}

// ---------------------------------------------------------------------------
// Decisions
// ---------------------------------------------------------------------------

/// What a source yields once it supplied a selector: the system request is refused
/// unless trusted policy allows it; otherwise the selector selects from the registry.
pub open spec fn chosen_outcome(
    s: SelectorView,
    allow_system: bool,
    rs: Seq<RuntimeRecord>,
    r: Result<ResolvedRuntime>,
) -> bool {
    if s is System && !allow_system {
        r matches Err(e) && e.spec_kind() == ErrorKind::Usage && e.spec_message()
            == policy_message() && e.spec_hint() == Some(policy_hint())
    } else {
        match r {
            Ok(x) => x.selector@ == s && selection_outcome(s, rs, Ok(x.selection)),
            Err(e) => selection_outcome(s, rs, Err(e)),
        }
    }
}

/// What a source yields from the text it holds: unreadable text is a usage error.
pub open spec fn text_outcome(
    parsed: Option<SelectorView>,
    allow_system: bool,
    rs: Seq<RuntimeRecord>,
    r: Result<ResolvedRuntime>,
) -> bool {
    match parsed {
        None => r matches Err(e) && e.spec_kind() == ErrorKind::Usage,
        Some(s) => chosen_outcome(s, allow_system, rs, r),
    }
}

pub open spec fn step_outcome<T>(r: Result<T>) -> TraceOutcome {
    if r is Ok {
        TraceOutcome::Selected
    } else {
        TraceOutcome::Rejected
    }
}

/// Applies the selector a source supplied (or its failure) and records the step.
pub fn select_source<'a>(
    source: VersionSource,
    selector: Result<VersionSelector>,
    allow_system: bool,
    runtimes: &'a [RuntimeRecord],
    steps: &mut Vec<ResolutionStep>,
) -> (r: Result<ResolvedRuntime<'a>>)
    ensures
        final(steps)@.len() == old(steps)@.len() + 1,
        forall|i: int| 0 <= i < old(steps)@.len() ==> final(steps)@[i] == old(steps)@[i],
        final(steps)@.last().source@ == source@,
        final(steps)@.last().outcome == step_outcome(r),
        match selector {
            Err(e) => r == Err::<ResolvedRuntime, Error>(e),
            Ok(sel) => chosen_outcome(sel@, allow_system, runtimes@, r),
        },
        r matches Ok(x) ==> x.source@ == source@,
{
    let ghost before = steps@;
    let recorded = source.duplicate();
    let result = match selector {
        Err(e) => Err(e),
        Ok(selector) => {
            let mut refused: Option<Error> = None;
            if let VersionSelector::System = selector {
                if let Err(e) = check_system_policy(allow_system) {
                    refused = Some(e);
                }
            }
            match refused {
                Some(e) => Err(e),
                None => match selector.select(runtimes) {
                    Ok(selection) => Ok(ResolvedRuntime { selection, source, selector }),
                    Err(e) => Err(e),
                },
            }
        },
    };
    let outcome = if result.is_ok() {
        TraceOutcome::Selected
    } else {
        TraceOutcome::Rejected
    };
    steps.push(ResolutionStep { source: recorded, outcome });
    result
}

fn absent(steps: &mut Vec<ResolutionStep>, source: VersionSource)
    ensures
        final(steps)@ == old(steps)@.push(ResolutionStep { source, outcome: TraceOutcome::Absent }),
{
    steps.push(ResolutionStep { source, outcome: TraceOutcome::Absent });
}

// ---------------------------------------------------------------------------
// Project search
// ---------------------------------------------------------------------------

/// The `k`-th ancestor of a directory (itself first), following `Path::parent`; a
/// parent is a proper prefix of its path, so the chain ends.
pub open spec fn ancestor(p: Seq<char>, k: nat) -> Option<Seq<char>>
    decreases k,
{
    if k == 0 {
        Some(p)
    } else {
        match ancestor(p, (k - 1) as nat) {
            Some(q) => match spec_path_parent(q) {
                Some(r) => if r.len() < q.len() {
                    Some(r)
                } else {
                    None
                },
                None => None,
            },
            None => None,
        }
    }
}

/// Whether the `k`-th ancestor is the boundary.
pub open spec fn at_boundary(p: Seq<char>, boundary: Option<Seq<char>>, k: int) -> bool {
    &&& k >= 0
    &&& boundary is Some
    &&& ancestor(p, k as nat) is Some
    &&& spec_path_eq(ancestor(p, k as nat)->0, boundary->0)
}

pub open spec fn boundary_message() -> Seq<char> {
    "Workspace boundary must contain the current directory"@
}

pub open spec fn dir_texts(dirs: Seq<String>) -> Seq<Seq<char>> {
    dirs.map_values(|d: String| d@)
}

/// The directories a project search visits from `cwd`: it and its ancestors in order,
/// stopping at the boundary, at the root, or one past the depth limit.
pub open spec fn search_chain(cwd: Seq<char>, boundary: Option<Seq<char>>, dirs: Seq<Seq<char>>) -> bool {
    &&& 1 <= dirs.len() <= MAX_LOCAL_DEPTH + 1
    &&& forall|i: int| 0 <= i < dirs.len() ==> ancestor(cwd, i as nat) == Some(#[trigger] dirs[i])
    &&& forall|i: int| 0 <= i < dirs.len() - 1 ==> !(#[trigger] at_boundary(cwd, boundary, i))
    &&& (dirs.len() == MAX_LOCAL_DEPTH + 1 || at_boundary(cwd, boundary, dirs.len() - 1)
        || ancestor(cwd, dirs.len() as nat) is None)
}

/// Directories searched for project files: the start directory and its ancestors up
/// to and including the boundary, at most one more than the depth limit (the extra
/// entry lets the caller report an exhausted search). A boundary that is not an
/// ancestor is an error.
pub fn ancestor_search(cwd: &str, boundary: Option<&str>) -> (r: Result<Vec<String>>)
    ensures
        r is Err <==> (boundary is Some && !exists|k: int| #[trigger] at_boundary(cwd@, opt_view(boundary), k)),
        r matches Err(e) ==> e.spec_kind() == ErrorKind::Usage && e.spec_message()
            == boundary_message(),
        r matches Ok(dirs) ==> search_chain(cwd@, opt_view(boundary), dir_texts(dirs@)),
{
    let c0 = chars_of(cwd).len();
    let mut dirs: Vec<String> = Vec::new();
    let mut found = false;
    let mut current = cwd.to_owned();
    let mut k: usize = 0;
    loop
        invariant_except_break
            dirs@.len() == if k <= MAX_LOCAL_DEPTH {
                k as int
            } else {
                MAX_LOCAL_DEPTH + 1
            },
            !found,
        invariant
            ancestor(cwd@, k as nat) == Some(current@),
            k + current@.len() <= c0,
            c0 == cwd@.len(),
            dirs@.len() <= MAX_LOCAL_DEPTH + 1,
            forall|i: int| 0 <= i < dirs@.len() ==> ancestor(cwd@, i as nat) == Some(#[trigger] dirs@[i]@),
            forall|i: int| 0 <= i < k ==> !(#[trigger] at_boundary(cwd@, opt_view(boundary), i)),
        ensures
            dirs@.len() == if k <= MAX_LOCAL_DEPTH {
                k + 1
            } else {
                MAX_LOCAL_DEPTH + 1
            },
            found ==> at_boundary(cwd@, opt_view(boundary), k as int),
            !found ==> !at_boundary(cwd@, opt_view(boundary), k as int),
            !found ==> (ancestor(cwd@, (k + 1) as nat) is None || (boundary is None && dirs@.len()
                == MAX_LOCAL_DEPTH + 1)),
        decreases current@.len(),
    {
        if dirs.len() <= MAX_LOCAL_DEPTH {
            dirs.push(current.clone());
        }
        let hit = match boundary {
            Some(b) => path_eq(current.as_str(), b),
            None => false,
        };
        if hit {
            found = true;
            break;
        }
        if boundary.is_none() && dirs.len() == MAX_LOCAL_DEPTH + 1 {
            break;
        }
        let next = match path_parent(current.as_str()) {
            Some(q) => q,
            None => break,
        };
        let next_len = chars_of(next.as_str()).len();
        let current_len = chars_of(current.as_str()).len();
        if next_len >= current_len {
            break;
        }
        current = next;
        k = k + 1;
    }
    if let Some(_) = boundary {
        if !found {
            proof {
                assert forall|j: int| !(#[trigger] at_boundary(cwd@, opt_view(boundary), j)) by {
                    if j > k {
                        lemma_ancestor_ends(cwd@, (k + 1) as nat, j as nat);
                    }
                }
            }
            return Err(
                Error::new(ErrorKind::Usage, "Workspace boundary must contain the current directory"),
            );
        }
    }
    Ok(dirs)
}

pub open spec fn opt_view(o: Option<&str>) -> Option<Seq<char>> {
    match o {
        Some(s) => Some(s@),
        None => None,
    }
}

proof fn lemma_ancestor_ends(p: Seq<char>, k: nat, j: nat)
    requires
        ancestor(p, k) is None,
        k <= j,
    ensures
        ancestor(p, j) is None,
    decreases j,
{
    if j > k {
        lemma_ancestor_ends(p, k, (j - 1) as nat);
    }
}

/// What the ancestor search yields from canonical start and boundary directories.
pub open spec fn search_result(c: Seq<char>, b: Option<Seq<char>>, r: Result<Vec<String>>) -> bool {
    match r {
        Err(e) => b is Some && !(exists|k: int| #[trigger] at_boundary(c, b, k)) && e.spec_kind()
            == ErrorKind::Usage && e.spec_message() == boundary_message(),
        Ok(dirs) => (b is None || exists|k: int| #[trigger] at_boundary(c, b, k)) && search_chain(
            c,
            b,
            dir_texts(dirs@),
        ),
    }
}

/// `a` is what the file system answered when asked for the canonical form of `p`.
pub open spec fn canonical_by<F: StateFileSystem>(fs: &F, p: Seq<char>, a: Result<String>) -> bool {
    exists|arg: &str| arg@ == p && #[trigger] call_ensures(F::canonical_directory, (fs, arg), a)
}

/// What the search yields from the file system's answers for the start directory and
/// (when there is a boundary) for the boundary: the first failed answer, else the
/// ancestor search between the canonical directories.
pub open spec fn search_from(start: Result<String>, bound: Option<Result<String>>, r: Result<Vec<String>>) -> bool {
    match start {
        Err(e) => r == Err::<Vec<String>, Error>(e),
        Ok(c) => match bound {
            None => search_result(c@, None, r),
            Some(Err(e)) => r == Err::<Vec<String>, Error>(e),
            Some(Ok(d)) => search_result(c@, Some(d@), r),
        },
    }
}

/// The project search: the file system canonicalizes the start directory, then the
/// boundary (if any, and only once the start succeeded); a failure there is the
/// result, else the ancestors of the canonical start up to the canonical boundary are
/// searched.
pub open spec fn searched<F: StateFileSystem>(
    fs: &F,
    cwd: Seq<char>,
    boundary: Option<Seq<char>>,
    r: Result<Vec<String>>,
) -> bool {
    exists|ca: Result<String>, cb: Option<Result<String>>|
        {
            &&& canonical_by(fs, cwd, ca)
            &&& (boundary is None || ca is Err) ==> cb is None
            &&& (boundary is Some && ca is Ok) ==> (cb is Some && canonical_by(fs, boundary->0, cb->0))
            &&& #[trigger] search_from(ca, cb, r)
        }
}

fn search_directories<F: StateFileSystem>(fs: &F, cwd: &str, boundary: Option<&str>) -> (r: Result<
    Vec<String>,
>)
    ensures
        searched(fs, cwd@, opt_view(boundary), r),
        r matches Ok(dirs) ==> 1 <= dirs@.len() <= MAX_LOCAL_DEPTH + 1,
        r matches Ok(dirs) ==> exists|c: Seq<char>, b: Option<Seq<char>>|
            (b is None <==> boundary is None) && #[trigger] search_chain(c, b, dir_texts(dirs@)),
{
    let start = cwd;
    let ca = fs.canonical_directory(start);
    let ghost gca = ca;
    proof {
        assert(call_ensures(F::canonical_directory, (fs, start), ca));
        assert(canonical_by(fs, start@, ca));
    }
    let cwd = match ca {
        Ok(c) => c,
        Err(e) => {
            let r = Err(e);
            proof {
                assert(search_from(gca, None, r));
            }
            return r;
        },
    };
    match boundary {
        Some(b) => {
            let cb = fs.canonical_directory(b);
            let ghost gcb = cb;
            proof {
                assert(call_ensures(F::canonical_directory, (fs, b), cb));
                assert(canonical_by(fs, b@, cb));
            }
            let r = match cb {
                Ok(d) => ancestor_search(cwd.as_str(), Some(d.as_str())),
                Err(e) => Err(e),
            };
            proof {
                assert(search_from(gca, Some(gcb), r));
            }
            r
        },
        None => {
            let r = ancestor_search(cwd.as_str(), None);
            proof {
                assert(search_from(gca, None, r));
            }
            r
        },
    }
}

// ---------------------------------------------------------------------------
// Resolution
// ---------------------------------------------------------------------------

/// The explain trace agrees with the result: every consulted source but the last was
/// absent, the last one decided, and sources appear in priority order.
pub open spec fn trace_consistent(steps: Seq<ResolutionStep>, r: Result<ResolvedRuntime>) -> bool {
    &&& steps.len() >= 1
    &&& steps[0].source@ is Explicit
    &&& forall|i: int| 0 <= i < steps.len() - 1 ==> (#[trigger] steps[i]).outcome == TraceOutcome::Absent
    &&& forall|i: int| 0 <= i < steps.len() - 1 ==> source_rank(steps[i].source@) <= source_rank(
        #[trigger] steps[i + 1].source@,
    ) && (source_rank(steps[i].source@) == source_rank(steps[i + 1].source@) ==> steps[i].source@ is LocalFile)
    &&& (steps.last().outcome == TraceOutcome::Selected <==> r is Ok)
    &&& (steps.last().outcome == TraceOutcome::Absent ==> (r matches Err(e) && e.spec_kind()
        == ErrorKind::NotInstalled && steps.last().source@ is SystemFallback))
    &&& (r matches Ok(x) ==> x.source@ == steps.last().source@)
}

/// The text the shell variable supplies, when it is Unicode.
pub open spec fn shell_parse(v: ShellValue) -> Option<SelectorView> {
    match v {
        ShellValue::Text(t) => spec_parse_selector(t@),
        ShellValue::NotUnicode => None,
    }
}

/// The selection file of a project directory.
pub open spec fn local_file(dir: Seq<char>) -> Seq<char> {
    spec_path_join(dir, ".python-version"@)
}

/// Whether `answer` is a possible answer of reading the selection file `path`, and
/// present, and `r` is what it decides: its selector chosen as any source's is, or its
/// failure as it stands.
pub open spec fn file_decides<F: StateFileSystem>(
    fs: &F,
    path: Seq<char>,
    answer: Result<Option<VersionSelector>>,
    allow: bool,
    rs: Seq<RuntimeRecord>,
    r: Result<ResolvedRuntime>,
) -> bool {
    &&& exists|arg: &str, read: Result<Option<Vec<u8>>>|
        arg@ == path && #[trigger] call_ensures(F::read_file, (fs, arg, MAX_SELECTION_FILE_BYTES), read)
            && read_answer(read, path, answer)
    &&& match answer {
        Ok(Some(sel)) => chosen_outcome(sel@, allow, rs, r),
        Err(e) => r == Err::<ResolvedRuntime, Error>(e),
        Ok(None) => false,
    }
}

/// Whether the selection file `path`, once read, decided the result.
pub open spec fn file_outcome<F: StateFileSystem>(
    fs: &F,
    path: Seq<char>,
    allow: bool,
    rs: Seq<RuntimeRecord>,
    r: Result<ResolvedRuntime>,
) -> bool {
    exists|answer: Result<Option<VersionSelector>>| #[trigger] file_decides(fs, path, answer, allow, rs, r)
}

pub open spec fn depth_message() -> Seq<char> {
    "Project search exceeds 256 directories"@
}

pub open spec fn unconfigured_message() -> Seq<char> {
    "No active runtime is configured"@
}

/// The sources consulted after the explicit and shell values, for the search
/// directories `dirs`: the first `m` project files in order (nearest first), and then
///   - the `m`-th of them decided, or, when it is the first beyond the depth limit, the
///     search failed; or
///   - every project file was absent, and the global file decided; or
///   - the global file was absent too, and the system fallback decided when trusted
///     policy allows it, or nothing is configured.
pub open spec fn file_sources<F: StateFileSystem>(
    fs: &F,
    request: ResolveRequest,
    rs: Seq<RuntimeRecord>,
    dirs: Seq<Seq<char>>,
    m: int,
    steps: Seq<ResolutionStep>,
    r: Result<ResolvedRuntime>,
) -> bool {
    let allow = request.system_fallback;
    &&& 0 <= m <= dirs.len()
    &&& steps.len() >= 2 + m
    &&& forall|i: int| 0 <= i < m ==> (#[trigger] steps[2 + i]).source@ == SourceView::LocalFile(local_file(dirs[i]))
    &&& if steps.len() == 2 + m {
        &&& m >= 1
        &&& if m - 1 == MAX_LOCAL_DEPTH {
            r matches Err(e) && e.spec_kind() == ErrorKind::Usage && e.spec_message() == depth_message()
        } else {
            file_outcome(fs, local_file(dirs[m - 1]), allow, rs, r)
        }
    } else {
        &&& m == dirs.len()
        &&& m <= MAX_LOCAL_DEPTH
        &&& steps[2 + m].source@ == SourceView::GlobalFile(request.global_file@)
        &&& if steps.len() == 3 + m {
            file_outcome(fs, request.global_file@, allow, rs, r)
        } else {
            &&& steps.len() == 4 + m
            &&& steps[3 + m].source@ is SystemFallback
            &&& allow ==> chosen_outcome(SelectorView::System, true, rs, r)
            &&& !allow ==> (r matches Err(e) && e.spec_kind() == ErrorKind::NotInstalled
                && e.spec_message() == unconfigured_message())
        }
    }
}

/// Resolution when neither an explicit nor a shell value is given: both are recorded
/// absent; then either the project search itself failed (recorded against the start
/// directory's file), or the search found the directories `dirs` from the canonical
/// start directory up to the canonical boundary, and the files were consulted as
/// `file_sources` says.
pub open spec fn file_resolution<F: StateFileSystem>(
    fs: &F,
    request: ResolveRequest,
    rs: Seq<RuntimeRecord>,
    steps: Seq<ResolutionStep>,
    r: Result<ResolvedRuntime>,
) -> bool {
    &&& steps.len() >= 3
    &&& steps[0].source@ is Explicit
    &&& steps[1].source@ is ShellEnvironment
    &&& {
        ||| (steps.len() == 3 && steps[2].source@ == SourceView::LocalFile(local_file(request.cwd@))
            && exists|e: Error|
            #[trigger] searched(fs, request.cwd@, opt_view(request.workspace_boundary), Err::<Vec<String>, Error>(e))
                && r == Err::<ResolvedRuntime, Error>(e))
        ||| exists|found: Vec<String>, m: int|
            searched(fs, request.cwd@, opt_view(request.workspace_boundary), Ok::<Vec<String>, Error>(found))
                && #[trigger] file_sources(fs, request, rs, dir_texts(found@), m, steps, r)
    }
}

/// Resolves explicit > shell > nearest local > global > opted-in system.
///
/// Invalid or unhealthy higher-priority choices stop resolution. Nothing is downloaded,
/// executed, written, or changed in the parent shell. Dispatch-time probes remain mandatory.
pub fn resolve<'a, F: StateFileSystem>(
    fs: &F,
    request: &ResolveRequest,
    runtimes: &'a [RuntimeRecord],
) -> (r: ResolutionReport<'a>)
    ensures
        trace_consistent(r.steps@, r.result),
        request.explicit matches Some(v) ==> r.steps@.len() == 1 && text_outcome(
            spec_parse_selector(v@),
            request.system_fallback,
            runtimes@,
            r.result,
        ),
        request.explicit is None ==> (request.shell_version matches Some(v) ==> r.steps@.len()
            == 2 && r.steps@[1].source@ is ShellEnvironment && text_outcome(
            shell_parse(v),
            request.system_fallback,
            runtimes@,
            r.result,
        )),
        r.result matches Ok(x) ==> selector_wf(x.selector@) && selection_outcome(
            x.selector@,
            runtimes@,
            Ok(x.selection),
        ),
        r.result matches Ok(x) && x.selector@ is System ==> request.system_fallback,
        request.explicit is None && request.shell_version is None ==> file_resolution(
            fs,
            *request,
            runtimes@,
            r.steps@,
            r.result,
        ),
{
    let mut steps: Vec<ResolutionStep> = Vec::new();
    let result = resolve_inner(fs, request, runtimes, &mut steps);
    ResolutionReport { steps, result }
}

proof fn lemma_chosen_wf(s: SelectorView, allow: bool, rs: Seq<RuntimeRecord>, r: Result<ResolvedRuntime>)
    requires
        chosen_outcome(s, allow, rs, r),
        selector_wf(s),
    ensures
        r matches Ok(x) ==> selector_wf(x.selector@) && selection_outcome(x.selector@, rs, Ok(x.selection)),
        r matches Ok(x) && x.selector@ is System ==> allow,
{
}

proof fn lemma_parsed_wf(input: Seq<char>)
    ensures
        spec_parse_selector(input) matches Some(s) ==> selector_wf(s),
{
    if spec_parse_selector(input) is Some {
        let w = choose|w: SelectorView| selector_wf(w) && #[trigger] crate::selector::selector_text(w)
            == crate::text::lower_seq(input);
        assert(selector_wf(w));
    }
}

fn resolve_inner<'a, F: StateFileSystem>(
    fs: &F,
    request: &ResolveRequest,
    runtimes: &'a [RuntimeRecord],
    steps: &mut Vec<ResolutionStep>,
) -> (r: Result<ResolvedRuntime<'a>>)
    requires
        old(steps)@.len() == 0,
    ensures
        trace_consistent(final(steps)@, r),
        request.explicit matches Some(v) ==> final(steps)@.len() == 1 && text_outcome(
            spec_parse_selector(v@),
            request.system_fallback,
            runtimes@,
            r,
        ),
        request.explicit is None ==> (request.shell_version matches Some(v) ==> final(steps)@.len() == 2 && final(steps)@[1].source@ is ShellEnvironment && text_outcome(
            shell_parse(v),
            request.system_fallback,
            runtimes@,
            r,
        )),
        r matches Ok(x) ==> selector_wf(x.selector@) && selection_outcome(
            x.selector@,
            runtimes@,
            Ok(x.selection),
        ),
        r matches Ok(x) && x.selector@ is System ==> request.system_fallback,
        request.explicit is None && request.shell_version is None ==> file_resolution(
            fs,
            *request,
            runtimes@,
            final(steps)@,
            r,
        ),
{
    let allow = request.system_fallback;
    if let Some(value) = request.explicit {
        let parsed = VersionSelector::parse(value);
        let ghost pv = parsed;
        let r = select_source(VersionSource::Explicit, parsed, allow, runtimes, steps);
        proof {
            lemma_parsed_wf(value@);
            if let Ok(sel) = pv {
                lemma_chosen_wf(sel@, allow, runtimes@, r);
            }
        }
        return r;
    }
    absent(steps, VersionSource::Explicit);
    if let Some(value) = request.shell_version {
        let parsed = match value {
            ShellValue::Text(text) => VersionSelector::parse(text),
            ShellValue::NotUnicode => Err(
                Error::new(ErrorKind::Usage, "PYRUDDER_VERSION must contain a valid ASCII selector"),
            ),
        };
        let ghost pv = parsed;
        let r = select_source(VersionSource::ShellEnvironment, parsed, allow, runtimes, steps);
        proof {
            if let ShellValue::Text(text) = value {
                lemma_parsed_wf(text@);
            }
            if let Ok(sel) = pv {
                lemma_chosen_wf(sel@, allow, runtimes@, r);
            }
            assert(steps@[0].source@ is Explicit);
        }
        return r;
    }
    absent(steps, VersionSource::ShellEnvironment);
    let searched_dirs = search_directories(fs, request.cwd, request.workspace_boundary);
    let ghost gsr = searched_dirs;
    let directories = match searched_dirs {
        Ok(d) => d,
        Err(e) => {
            let path = path_join(request.cwd, ".python-version");
            let r = select_source(VersionSource::LocalFile(path), Err(e), allow, runtimes, steps);
            proof {
                assert(steps@[2].source@ == SourceView::LocalFile(local_file(request.cwd@)));
            }
            return r;
        },
    };
    let ghost dirs = dir_texts(directories@);
    let ghost (c, b) = choose|c: Seq<char>, b: Option<Seq<char>>|
        (b is None <==> request.workspace_boundary is None) && #[trigger] search_chain(c, b, dir_texts(directories@));
    let mut depth: usize = 0;
    while depth < directories.len()
        invariant
            steps@.len() == depth + 2,
            steps@[0].source@ is Explicit,
            steps@[1].source@ is ShellEnvironment,
            forall|i: int| 2 <= i < steps@.len() ==> (#[trigger] steps@[i]).source@ is LocalFile,
            forall|i: int| 0 <= i < steps@.len() ==> (#[trigger] steps@[i]).outcome == TraceOutcome::Absent,
            forall|i: int| 0 <= i < depth ==> (#[trigger] steps@[2 + i]).source@ == SourceView::LocalFile(
                local_file(dirs[i]),
            ),
            depth <= directories@.len(),
            depth <= MAX_LOCAL_DEPTH,
            directories@.len() <= MAX_LOCAL_DEPTH + 1,
            dirs == dir_texts(directories@),
            (b is None <==> request.workspace_boundary is None),
            search_chain(c, b, dirs),
            request.explicit is None,
            request.shell_version is None,
            allow == request.system_fallback,
            gsr == Ok::<Vec<String>, Error>(directories),
            searched(fs, request.cwd@, opt_view(request.workspace_boundary), gsr),
        decreases directories.len() - depth,
    {
        let path = path_join(directories[depth].as_str(), ".python-version");
        proof {
            assert(path@ == local_file(dirs[depth as int]));
        }
        if depth == MAX_LOCAL_DEPTH {
            let error = Error::new(ErrorKind::Usage, "Project search exceeds 256 directories").with_hint(
                "Set a closer explicit workspace boundary",
            );
            let r = select_source(VersionSource::LocalFile(path), Err(error), allow, runtimes, steps);
            proof {
                assert(file_sources(fs, *request, runtimes@, dirs, depth + 1, steps@, r));
            }
            return r;
        }
        let answer = read_selection_file(fs, path.as_str());
        let ghost a = answer;
        match answer {
            Ok(None) => absent(steps, VersionSource::LocalFile(path)),
            Ok(Some(sel)) => {
                let ghost s = sel@;
                let r = select_source(VersionSource::LocalFile(path), Ok(sel), allow, runtimes, steps);
                proof {
                    lemma_chosen_wf(s, allow, runtimes@, r);
                    assert(file_decides(fs, path@, a, allow, runtimes@, r));
                    assert(file_sources(fs, *request, runtimes@, dirs, depth + 1, steps@, r));
                }
                return r;
            },
            Err(e) => {
                let r = select_source(VersionSource::LocalFile(path), Err(e), allow, runtimes, steps);
                proof {
                    assert(file_decides(fs, path@, a, allow, runtimes@, r));
                    assert(file_sources(fs, *request, runtimes@, dirs, depth + 1, steps@, r));
                }
                return r;
            },
        }
        depth = depth + 1;
    }
    let global = VersionSource::GlobalFile(request.global_file.to_owned());
    let ghost m = depth as int;
    let answer = read_selection_file(fs, request.global_file);
    let ghost a = answer;
    match answer {
        Ok(None) => absent(steps, global),
        Ok(Some(sel)) => {
            let ghost s = sel@;
            let r = select_source(global, Ok(sel), allow, runtimes, steps);
            proof {
                lemma_chosen_wf(s, allow, runtimes@, r);
                assert(file_decides(fs, request.global_file@, a, allow, runtimes@, r));
                assert(file_sources(fs, *request, runtimes@, dirs, m, steps@, r));
            }
            return r;
        },
        Err(e) => {
            let r = select_source(global, Err(e), allow, runtimes, steps);
            proof {
                assert(file_decides(fs, request.global_file@, a, allow, runtimes@, r));
                assert(file_sources(fs, *request, runtimes@, dirs, m, steps@, r));
            }
            return r;
        },
    }
    if allow {
        let r = select_source(VersionSource::SystemFallback, Ok(VersionSelector::System), true, runtimes, steps);
        proof {
            lemma_chosen_wf(SelectorView::System, true, runtimes@, r);
            assert(file_sources(fs, *request, runtimes@, dirs, m, steps@, r));
        }
        return r;
    }
    absent(steps, VersionSource::SystemFallback);
    let r = Err(
        Error::new(ErrorKind::NotInstalled, "No active runtime is configured").with_hint(
            "Select a registered runtime using an explicit, shell, local, or global choice",
        ),
    );
    proof {
        assert(file_sources(fs, *request, runtimes@, dirs, m, steps@, r));
    }
    r
}
} // verus!
