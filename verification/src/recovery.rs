//! The journal of an in-place upgrade: which files a backup may hold, how large it may
//! grow, and what each phase of an upgrade allows next.
//!
//! Only program and routing files are ever recorded: Python, user configuration,
//! selections and PATH journals are never backup targets.
use vstd::prelude::*;

use crate::commands::{invalid_name_message, mapped_key, name_valid, CommandCaseMapper, CommandKey};
use crate::error::{ErrorKind, Result};
use crate::installer::{
    backup_file_name, backup_name, check_shim_name, digest_text_ok, failure, shim_name_failure, source_version_ok, valid_digest,
    valid_source_version,
};
use crate::text::{chars_eq, chars_eq_str, chars_of, push_str, slice_chars, starts_with_str, string_of};

verus! {

/// The largest file a backup may hold.
pub const MAX_FILE: u64 = 134217728;

/// The largest total size of one backup.
pub const MAX_TOTAL: u64 = 2147483648;

/// The most entries one journal may list.
pub const MAX_ENTRIES: usize = 131104;

/// One file that an upgrade may replace, as the journal records it: its place under the
/// installation root, and its digest and size when it existed before the upgrade.
#[derive(Clone, Debug)]
pub struct JournalEntry {
    pub relative: String,
    pub sha256: Option<String>,
    pub size: u64,
}

/// The files every journal must list, in the order in which they were first recorded.
pub open spec fn fixed_names() -> Seq<Seq<char>> {
    seq![
        "bin/pyrudder.exe"@,
        "bin/pyrudder-shim-console.exe"@,
        "bin/pyrudder-shim-gui.exe"@,
        "bin/pyrudder-layout.json"@,
        "README.md"@,
        "README_EN.md"@,
        "LICENSE"@,
        "NOTICE"@,
        "THIRD-PARTY-NOTICES.txt"@,
        "BUILD-INFO.json"@,
        "SBOM.cdx.json"@,
        "SHA256SUMS.txt"@,
        "assets/pyrudder-logo.svg"@,
        "assets/pyrudder-logo.png"@,
        "assets/banner.txt"@,
        "unins000.exe"@,
        "unins000.dat"@,
        "bin/pyrudder-location.json"@,
        "config/pyrudder-location.json"@,
        "shims/pyrudder-location.json"@,
        "shims/pyrudder-publication.json"@,
        "config/registry.json"@,
    ]
}

/// A file that new journals list and older ones may leave out.
pub open spec fn optional_name() -> Seq<char> {
    "README_ZH.md"@
}

pub open spec fn shim_prefix() -> Seq<char> {
    "shims/"@
}

/// Whether a journal place is one of the listed program files.
pub open spec fn listed(rel: Seq<char>) -> bool {
    fixed_names().contains(rel) || rel == optional_name()
}

/// Whether a journal place lies in the shims directory.
pub open spec fn under_shims(rel: Seq<char>) -> bool {
    shim_prefix().len() <= rel.len() && rel.take(shim_prefix().len() as int) == shim_prefix()
}

/// The shim filename of a place under the shims directory.
pub open spec fn shim_of(rel: Seq<char>) -> Seq<char> {
    rel.skip(shim_prefix().len() as int)
}

pub open spec fn outside_message() -> Seq<char> {
    "File outside the installer recovery allowlist"@
}

pub open spec fn invalid_entry_message() -> Seq<char> {
    "Invalid or duplicate installer recovery entry"@
}

pub open spec fn overflow_message() -> Seq<char> {
    "Installer backup size overflow"@
}

pub open spec fn incomplete_message() -> Seq<char> {
    "Incomplete or oversized installer recovery allowlist"@
}

pub open spec fn mismatch_message() -> Seq<char> {
    "Mismatched installer upgrade journal"@
}

/// What is wrong with the place an entry names, if anything: it must be a listed file
/// or a shim whose filename the manager could have published.
pub open spec fn place_failure(rel: Seq<char>) -> Option<(ErrorKind, Seq<char>)> {
    if listed(rel) {
        None
    } else if !under_shims(rel) {
        Some((ErrorKind::Install, outside_message()))
    } else if !name_valid(shim_of(rel)) {
        Some((ErrorKind::Usage, invalid_name_message()))
    } else {
        match shim_name_failure(shim_of(rel)) {
            Some(m) => Some((ErrorKind::Install, m)),
            None => None,
        }
    }
}

/// Whether an entry's record is sound: its file was not named before (by platform
/// path key), it is bounded, and it has a digest exactly when it has content.
pub open spec fn record_ok(e: JournalEntry, earlier_keys: Seq<Seq<char>>, key: Seq<char>) -> bool {
    &&& !earlier_keys.contains(key)
    &&& e.size <= MAX_FILE
    &&& match e.sha256 {
        Some(h) => digest_text_ok(h@),
        None => e.size == 0,
    }
}

/// The sizes of the first `n` entries, added up.
pub open spec fn sizes_total(entries: Seq<JournalEntry>, n: int) -> int
    decreases n,
{
    if n <= 0 {
        0
    } else {
        sizes_total(entries, n - 1) + entries[n - 1].size
    }
}

/// What is wrong with the `i`-th entry, given those before it.
pub open spec fn step_failure(entries: Seq<JournalEntry>, keys: Seq<Seq<char>>, i: int) -> Option<
    (ErrorKind, Seq<char>),
> {
    match place_failure(entries[i].relative@) {
        Some(f) => Some(f),
        None => if !record_ok(entries[i], keys.take(i), keys[i]) {
            Some((ErrorKind::Install, invalid_entry_message()))
        } else if sizes_total(entries, i + 1) > u64::MAX {
            Some((ErrorKind::Install, overflow_message()))
        } else {
            None
        },
    }
}

/// Whether some entry names the file `name`.
pub open spec fn names_entry(entries: Seq<JournalEntry>, name: Seq<char>) -> bool {
    exists|i: int| 0 <= i < entries.len() && #[trigger] entries[i].relative@ == name
}

/// Whether every file that a journal must list is listed.
pub open spec fn all_fixed_present(entries: Seq<JournalEntry>) -> bool {
    forall|k: int| 0 <= k < fixed_names().len() ==> names_entry(entries, #[trigger] fixed_names()[k])
}

/// The first failure from the `i`-th entry on, then that of the journal as a whole.
pub open spec fn failure_from(entries: Seq<JournalEntry>, keys: Seq<Seq<char>>, i: int) -> Option<
    (ErrorKind, Seq<char>),
>
    decreases entries.len() - i,
{
    if 0 <= i < entries.len() {
        match step_failure(entries, keys, i) {
            Some(f) => Some(f),
            None => failure_from(entries, keys, i + 1),
        }
    } else if sizes_total(entries, entries.len() as int) > MAX_TOTAL || !all_fixed_present(
        entries,
    ) {
        Some((ErrorKind::Install, incomplete_message()))
    } else {
        None
    }
}

/// The first failure of a journal's entries, with `keys[i]` the platform's path key of
/// the `i`-th entry's file, when the platform maps every valid shim name.
pub open spec fn journal_failure(entries: Seq<JournalEntry>, keys: Seq<Seq<char>>) -> Option<
    (ErrorKind, Seq<char>),
> {
    failure_from(entries, keys, 0)
}

/// Whether checking reaches the `i`-th entry and asks the platform to map its shim name.
pub open spec fn mapper_consulted(entries: Seq<JournalEntry>, keys: Seq<Seq<char>>, i: int) -> bool {
    &&& 0 <= i < entries.len()
    &&& forall|j: int| 0 <= j < i ==> #[trigger] step_failure(entries, keys, j) is None
    &&& !listed(entries[i].relative@)
    &&& under_shims(entries[i].relative@)
    &&& name_valid(shim_of(entries[i].relative@))
}

pub open spec fn key_views(keys: Seq<String>) -> Seq<Seq<char>> {
    keys.map_values(|k: String| k@)
}

fn fixed_file_names() -> (r: Vec<String>)
    ensures
        r@.map_values(|s: String| s@) == fixed_names(),
{
    let mut r: Vec<String> = Vec::new();
    r.push("bin/pyrudder.exe".to_string());
    r.push("bin/pyrudder-shim-console.exe".to_string());
    r.push("bin/pyrudder-shim-gui.exe".to_string());
    r.push("bin/pyrudder-layout.json".to_string());
    r.push("README.md".to_string());
    r.push("README_EN.md".to_string());
    r.push("LICENSE".to_string());
    r.push("NOTICE".to_string());
    r.push("THIRD-PARTY-NOTICES.txt".to_string());
    r.push("BUILD-INFO.json".to_string());
    r.push("SBOM.cdx.json".to_string());
    r.push("SHA256SUMS.txt".to_string());
    r.push("assets/pyrudder-logo.svg".to_string());
    r.push("assets/pyrudder-logo.png".to_string());
    r.push("assets/banner.txt".to_string());
    r.push("unins000.exe".to_string());
    r.push("unins000.dat".to_string());
    r.push("bin/pyrudder-location.json".to_string());
    r.push("config/pyrudder-location.json".to_string());
    r.push("shims/pyrudder-location.json".to_string());
    r.push("shims/pyrudder-publication.json".to_string());
    r.push("config/registry.json".to_string());
    assert(r@.map_values(|s: String| s@) =~= fixed_names());
    r
}

fn is_listed(rel: &[char]) -> (r: bool)
    ensures
        r == listed(rel@),
{
    is_fixed(rel) || chars_eq_str(rel, "README_ZH.md")
}

fn key_seen(keys: &[String], i: usize) -> (r: bool)
    requires
        i < keys.len(),
    ensures
        r == key_views(keys@).take(i as int).contains(keys@[i as int]@),
{
    let ghost views = key_views(keys@);
    let key = chars_of(keys[i].as_str());
    let mut j: usize = 0;
    while j < i
        invariant
            i < keys.len(),
            j <= i,
            views == key_views(keys@),
            key@ == keys@[i as int]@,
            forall|m: int| 0 <= m < j ==> views[m] != key@,
        decreases i - j,
    {
        let other = chars_of(keys[j].as_str());
        if chars_eq(&other, &key) {
            assert(views.take(i as int)[j as int] == key@);
            return true;
        }
        j = j + 1;
    }
    proof {
        if views.take(i as int).contains(key@) {
            let m = choose|m: int| 0 <= m < i && views.take(i as int)[m] == key@;
            assert(views[m] == key@);
        }
    }
    false
}

fn has_entry(entries: &[JournalEntry], name: &str) -> (r: bool)
    ensures
        r == names_entry(entries@, name@),
{
    let target = chars_of(name);
    let mut i: usize = 0;
    while i < entries.len()
        invariant
            i <= entries.len(),
            target@ == name@,
            forall|j: int| 0 <= j < i ==> entries@[j].relative@ != name@,
        decreases entries.len() - i,
    {
        if chars_eq_str(&target, entries[i].relative.as_str()) {
            assert(entries@[i as int].relative@ == name@);
            return true;
        }
        i = i + 1;
    }
    false
}

fn every_fixed_present(entries: &[JournalEntry], fixed: &Vec<String>) -> (r: bool)
    requires
        fixed@.map_values(|s: String| s@) == fixed_names(),
    ensures
        r == all_fixed_present(entries@),
{
    let ghost names = fixed@.map_values(|s: String| s@);
    let mut k: usize = 0;
    while k < fixed.len()
        invariant
            k <= fixed.len(),
            names == fixed@.map_values(|s: String| s@),
            names == fixed_names(),
            forall|j: int| 0 <= j < k ==> names_entry(entries@, #[trigger] names[j]),
        decreases fixed.len() - k,
    {
        if !has_entry(entries, fixed[k].as_str()) {
            assert(!names_entry(entries@, fixed_names()[k as int]));
            return false;
        }
        k = k + 1;
    }
    true
}

/// Checks the entries of an upgrade journal, in order, and returns their total size.
///
/// `keys[i]` is the platform's path key of the `i`-th entry's file, so that two names
/// of one file count as a duplicate. The platform's case mapping is consulted for each
/// shim entry; where it fails, its error is returned.
pub fn check_journal_entries<M: CommandCaseMapper>(
    entries: &[JournalEntry],
    keys: &[String],
    mapper: &M,
) -> (r: Result<u64>)
    requires
        keys.len() == entries.len(),
    ensures
        r matches Ok(t) ==> journal_failure(entries@, key_views(keys@)) is None && t
            == sizes_total(entries@, entries@.len() as int),
        journal_failure(entries@, key_views(keys@)) is Some ==> r is Err,
        r matches Err(e) ==> journal_failure(entries@, key_views(keys@)) == Some(
            (e.spec_kind(), e.spec_message()),
        ) || exists|i: int|
            #[trigger] mapper_consulted(entries@, key_views(keys@), i) && mapped_key(
                mapper,
                shim_of(entries@[i].relative@),
                Err::<CommandKey, crate::error::Error>(e),
            ),
{
    let ghost es = entries@;
    let ghost ks = key_views(keys@);
    let fixed = fixed_file_names();
    let mut total: u64 = 0;
    let mut i: usize = 0;
    while i < entries.len()
        invariant
            i <= entries.len(),
            keys.len() == entries.len(),
            es == entries@,
            ks == key_views(keys@),
            fixed@.map_values(|s: String| s@) == fixed_names(),
            total == sizes_total(es, i as int),
            forall|j: int| 0 <= j < i ==> #[trigger] step_failure(es, ks, j) is None,
            failure_from(es, ks, 0) == failure_from(es, ks, i as int),
        decreases entries.len() - i,
    {
        let rel = chars_of(entries[i].relative.as_str());
        if !is_listed(&rel) {
            proof {
                reveal_strlit("shims/");
            }
            if !starts_with_str(&rel, "shims/") {
                return Err(failure("File outside the installer recovery allowlist"));
            }
            let name = string_of(slice_chars(&rel, 6, rel.len()).as_slice());
            assert(name@ == shim_of(rel@));
            let key = CommandKey::new(name.as_str(), mapper);
            let ghost k = key;
            match key {
                Ok(_) => {},
                Err(e) => {
                    proof {
                        if name_valid(name@) {
                            assert(mapper_consulted(es, ks, i as int));
                            assert(mapped_key(mapper, shim_of(es[i as int].relative@), k));
                        }
                    }
                    return Err(e);
                },
            }
            match check_shim_name(name.as_str()) {
                Ok(()) => {},
                Err(e) => return Err(e),
            }
        }
        let entry = &entries[i];
        let duplicate = key_seen(keys, i);
        let unsound = match &entry.sha256 {
            Some(h) => !valid_digest(h.as_str()),
            None => entry.size != 0,
        };
        if duplicate || entry.size > MAX_FILE || unsound {
            return Err(failure("Invalid or duplicate installer recovery entry"));
        }
        total = match total.checked_add(entry.size) {
            Some(t) => t,
            None => return Err(failure("Installer backup size overflow")),
        };
        assert(step_failure(es, ks, i as int) is None);
        i = i + 1;
    }
    if total > MAX_TOTAL || !every_fixed_present(entries, &fixed) {
        return Err(failure("Incomplete or oversized installer recovery allowlist"));
    }
    Ok(total)
}

/// Checks the header of an upgrade journal: its schema, its root (`same_root`, as the
/// platform compares paths), its number of entries and the version it upgrades from.
pub fn check_journal_header(
    schema_version: u32,
    same_root: bool,
    entry_count: usize,
    from_version: &str,
) -> (r: Result<()>)
    ensures
        r is Ok <==> schema_version == 1 && same_root && fixed_names().len() <= entry_count
            <= MAX_ENTRIES && source_version_ok(from_version@),
        r matches Err(e) ==> e.spec_kind() == ErrorKind::Install && e.spec_message()
            == mismatch_message(),
{
    if schema_version != 1 || !same_root || entry_count < 22 || entry_count > MAX_ENTRIES
        || !valid_source_version(from_version)
    {
        return Err(failure("Mismatched installer upgrade journal"));
    }
    Ok(())
}

/// How far an upgrade has come, as its journal records it.
#[derive(Clone, Copy, Debug, PartialEq, Eq, Structural)]
pub enum Phase {
    /// The backup is being written; nothing has been replaced.
    Preparing,
    /// The backup is complete; the installer may replace files.
    Prepared,
    /// Files are being put back from the backup.
    Restoring,
    /// The old files are back; the installer has yet to restore its own records.
    RolledBack,
    /// The new version was accepted; the backup only awaits removal.
    Committed,
}

/// What the installer asks of an existing upgrade backup.
#[derive(Clone, Copy, Debug, PartialEq, Eq, Structural)]
pub enum Request {
    /// Start a new upgrade.
    Prepare,
    /// Undo an unfinished upgrade.
    Recover,
    /// Confirm that the installer restored its records after a rollback.
    Acknowledge,
    /// Accept the new version.
    Commit,
}

/// What to do with an existing backup.
#[derive(Clone, Copy, Debug, PartialEq, Eq, Structural)]
pub enum Step {
    /// Remove the backup; nothing is restored.
    Discard,
    /// Report the old version again; its files are already back.
    Report,
    /// Check the backup, put the old files back (the routing records last), then report
    /// the old version.
    Restore,
    /// Check the backup, mark the upgrade committed, then remove the backup.
    Finalize,
}

pub open spec fn unfinished_message() -> Seq<char> {
    "An unfinished installer upgrade must be recovered first"@
}

pub open spec fn unacknowledged_message() -> Seq<char> {
    "Installer registry recovery has not been acknowledged"@
}

pub open spec fn not_ready_message() -> Seq<char> {
    "Installer upgrade is not ready to commit"@
}

/// The step a request takes on a backup in `phase`, or why it is refused.
pub open spec fn step_of(request: Request, phase: Phase) -> core::result::Result<Step, Seq<char>> {
    match request {
        Request::Prepare => if phase == Phase::Committed {
            Ok(Step::Discard)
        } else {
            Err(unfinished_message())
        },
        Request::Recover => match phase {
            Phase::Preparing | Phase::Committed => Ok(Step::Discard),
            Phase::RolledBack => Ok(Step::Report),
            Phase::Prepared | Phase::Restoring => Ok(Step::Restore),
        },
        Request::Acknowledge => if phase == Phase::RolledBack {
            Ok(Step::Discard)
        } else {
            Err(unacknowledged_message())
        },
        Request::Commit => match phase {
            Phase::Prepared => Ok(Step::Finalize),
            Phase::Committed => Ok(Step::Discard),
            _ => Err(not_ready_message()),
        },
    }
}

/// Decides what a request does with an existing backup in `phase`.
///
/// A committed upgrade is never rolled back, and one that was still preparing has
/// replaced nothing, so recovering either only removes the backup.
pub fn transaction_step(request: Request, phase: Phase) -> (r: Result<Step>)
    ensures
        match step_of(request, phase) {
            Ok(s) => r == Ok::<Step, crate::error::Error>(s),
            Err(m) => r matches Err(e) && e.spec_kind() == ErrorKind::Install && e.spec_message()
                == m,
        },
        phase == Phase::Committed ==> !(r matches Ok(Step::Restore)),
        r matches Ok(Step::Report) ==> phase == Phase::RolledBack,
{
    match request {
        Request::Prepare => match phase {
            Phase::Committed => Ok(Step::Discard),
            _ => Err(failure("An unfinished installer upgrade must be recovered first")),
        },
        Request::Recover => match phase {
            Phase::Preparing | Phase::Committed => Ok(Step::Discard),
            Phase::RolledBack => Ok(Step::Report),
            Phase::Prepared | Phase::Restoring => Ok(Step::Restore),
        },
        Request::Acknowledge => match phase {
            Phase::RolledBack => Ok(Step::Discard),
            _ => Err(failure("Installer registry recovery has not been acknowledged")),
        },
        Request::Commit => match phase {
            Phase::Prepared => Ok(Step::Finalize),
            Phase::Committed => Ok(Step::Discard),
            _ => Err(failure("Installer upgrade is not ready to commit")),
        },
    }
}

/// The phase a backup is left in once a step has completed: restoring leaves it rolled
/// back, finalizing leaves it committed (its removal follows as a discard), discarding
/// removes it (`None`), and reporting leaves it as it was.
pub open spec fn spec_phase_after(step: Step, phase: Phase) -> Option<Phase> {
    match step {
        Step::Discard => None,
        Step::Report => Some(phase),
        Step::Restore => Some(Phase::RolledBack),
        Step::Finalize => Some(Phase::Committed),
    }
}

/// The phase a backup is left in once `step` completed on a backup in `phase`.
pub fn phase_after(step: Step, phase: Phase) -> (r: Option<Phase>)
    ensures
        r == spec_phase_after(step, phase),
{
    match step {
        Step::Discard => None,
        Step::Report => Some(phase),
        Step::Restore => Some(Phase::RolledBack),
        Step::Finalize => Some(Phase::Committed),
    }
}

/// Once a rollback has put the old files back, recovering again only reports the old
/// version again, the upgrade can no longer be committed or replaced, and only the
/// installer's acknowledgement removes the backup.
pub proof fn recovery_repeats_until_acknowledged(phase: Phase)
    requires
        step_of(Request::Recover, phase) == Ok::<Step, Seq<char>>(Step::Restore),
    ensures
        spec_phase_after(Step::Restore, phase) == Some(Phase::RolledBack),
        step_of(Request::Recover, Phase::RolledBack) == Ok::<Step, Seq<char>>(Step::Report),
        spec_phase_after(Step::Report, Phase::RolledBack) == Some(Phase::RolledBack),
        step_of(Request::Commit, Phase::RolledBack) is Err,
        step_of(Request::Prepare, Phase::RolledBack) is Err,
        step_of(Request::Acknowledge, Phase::RolledBack) == Ok::<Step, Seq<char>>(Step::Discard),
{
}

/// Once an upgrade is finalized, no request ever rolls it back: recovering a committed
/// backup only removes it.
pub proof fn committed_upgrade_is_never_rolled_back(phase: Phase)
    requires
        step_of(Request::Commit, phase) == Ok::<Step, Seq<char>>(Step::Finalize),
    ensures
        spec_phase_after(Step::Finalize, phase) == Some(Phase::Committed),
        forall|request: Request| step_of(request, Phase::Committed) != Ok::<Step, Seq<char>>(Step::Restore),
        step_of(Request::Recover, Phase::Committed) == Ok::<Step, Seq<char>>(Step::Discard),
{
}

pub open spec fn routing_record() -> Seq<char> {
    "config/registry.json"@
}

/// The indices below `n` of the entries that are (`last`) or are not the routing record,
/// in journal order.
pub open spec fn restore_group(entries: Seq<JournalEntry>, last: bool, n: int) -> Seq<int>
    decreases n,
{
    if n <= 0 {
        Seq::empty()
    } else if (entries[n - 1].relative@ == routing_record()) == last {
        restore_group(entries, last, n - 1).push(n - 1)
    } else {
        restore_group(entries, last, n - 1)
    }
}

/// The order in which a rollback puts entries back: every other file first, in journal
/// order, and the old routing record last, once all the files it routes to exist again.
pub open spec fn restore_sequence(entries: Seq<JournalEntry>) -> Seq<int> {
    restore_group(entries, false, entries.len() as int) + restore_group(
        entries,
        true,
        entries.len() as int,
    )
}

/// The order in which a rollback restores the journal's entries.
pub fn restore_order(entries: &[JournalEntry]) -> (r: Vec<usize>)
    ensures
        r@.map_values(|x: usize| x as int) == restore_sequence(entries@),
{
    let ghost es = entries@;
    let mut r: Vec<usize> = Vec::new();
    let mut pass: usize = 0;
    while pass < 2
        invariant
            pass <= 2,
            es == entries@,
            pass == 0 ==> r@.len() == 0,
            pass == 1 ==> r@.map_values(|x: usize| x as int) == restore_group(es, false, es.len() as int),
            pass == 2 ==> r@.map_values(|x: usize| x as int) == restore_sequence(es),
        decreases 2 - pass,
    {
        let last = pass == 1;
        let ghost before = r@.map_values(|x: usize| x as int);
        let mut i: usize = 0;
        while i < entries.len()
            invariant
                i <= entries.len(),
                es == entries@,
                last == (pass == 1),
                r@.map_values(|x: usize| x as int) == before + restore_group(es, last, i as int),
            decreases entries.len() - i,
        {
            let rel = chars_of(entries[i].relative.as_str());
            let routing = chars_eq_str(&rel, "config/registry.json");
            assert(rel@ == es[i as int].relative@);
            if routing == last {
                let ghost old_r = r@;
                r.push(i);
                assert(restore_group(es, last, i + 1) == restore_group(es, last, i as int).push(i as int));
                assert(r@.map_values(|x: usize| x as int) =~= old_r.map_values(|x: usize| x as int).push(i as int));
                assert(r@.map_values(|x: usize| x as int) =~= before + restore_group(es, last, i + 1));
            } else {
                assert(restore_group(es, last, i + 1) == restore_group(es, last, i as int));
            }
            i = i + 1;
        }
        proof {
            if pass == 0 {
                assert(before =~= Seq::<int>::empty());
                assert(before + restore_group(es, last, es.len() as int) =~= restore_group(es, false, es.len() as int));
            }
        }
        pass = pass + 1;
    }
    r
}

proof fn lemma_restore_groups(entries: Seq<JournalEntry>, n: int)
    requires
        0 <= n <= entries.len(),
    ensures
        ({
            let a = restore_group(entries, false, n);
            let b = restore_group(entries, true, n);
            &&& a.len() + b.len() == n
            &&& forall|k: int| 0 <= k < a.len() ==> 0 <= #[trigger] a[k] < n && entries[a[k]].relative@ != routing_record()
            &&& forall|k: int| 0 <= k < b.len() ==> 0 <= #[trigger] b[k] < n && entries[b[k]].relative@ == routing_record()
            &&& forall|x: int, y: int| 0 <= x < y < a.len() ==> a[x] < a[y]
            &&& forall|x: int, y: int| 0 <= x < y < b.len() ==> b[x] < b[y]
            &&& forall|i: int| 0 <= i < n ==> a.contains(i) || b.contains(i)
        }),
    decreases n,
{
    if n > 0 {
        lemma_restore_groups(entries, n - 1);
        let a0 = restore_group(entries, false, n - 1);
        let b0 = restore_group(entries, true, n - 1);
        let a = restore_group(entries, false, n);
        let b = restore_group(entries, true, n);
        if entries[n - 1].relative@ == routing_record() {
            assert(a == a0);
            assert(b == b0.push(n - 1));
            assert(b.contains(n - 1)) by {
                assert(b[b0.len() as int] == n - 1);
            }
            assert forall|i: int| 0 <= i < n - 1 implies a.contains(i) || b.contains(i) by {
                if b0.contains(i) {
                    let k = choose|k: int| 0 <= k < b0.len() && b0[k] == i;
                    assert(b[k] == i);
                }
            }
        } else {
            assert(b == b0);
            assert(a == a0.push(n - 1));
            assert(a.contains(n - 1)) by {
                assert(a[a0.len() as int] == n - 1);
            }
            assert forall|i: int| 0 <= i < n - 1 implies a.contains(i) || b.contains(i) by {
                if a0.contains(i) {
                    let k = choose|k: int| 0 <= k < a0.len() && a0[k] == i;
                    assert(a[k] == i);
                }
            }
        }
    }
}

/// A rollback restores every journal entry exactly once: the restore order is a
/// permutation of the entries' indices.
pub proof fn every_entry_is_restored_once(entries: Seq<JournalEntry>)
    ensures
        restore_sequence(entries).len() == entries.len(),
        forall|i: int| 0 <= i < entries.len() ==> restore_sequence(entries).contains(i),
        restore_sequence(entries).no_duplicates(),
{
    let n = entries.len() as int;
    lemma_restore_groups(entries, n);
    let a = restore_group(entries, false, n);
    let b = restore_group(entries, true, n);
    let s = restore_sequence(entries);
    assert(s == a + b);
    assert forall|i: int| 0 <= i < n implies s.contains(i) by {
        if a.contains(i) {
            let k = choose|k: int| 0 <= k < a.len() && a[k] == i;
            assert(s[k] == i);
        } else {
            assert(b.contains(i));
            let k = choose|k: int| 0 <= k < b.len() && b[k] == i;
            assert(s[a.len() + k] == i);
        }
    }
    assert forall|x: int, y: int| 0 <= x < s.len() && 0 <= y < s.len() && x != y implies s[x] != s[y] by {
        if x < a.len() && y < a.len() {
            if x < y {
                assert(a[x] < a[y]);
            } else {
                assert(a[y] < a[x]);
            }
        } else if x >= a.len() && y >= a.len() {
            if x < y {
                assert(b[x - a.len()] < b[y - a.len()]);
            } else {
                assert(b[y - a.len()] < b[x - a.len()]);
            }
        } else if x < a.len() {
            assert(entries[a[x]].relative@ != routing_record());
            assert(entries[b[y - a.len()]].relative@ == routing_record());
        } else {
            assert(entries[a[y]].relative@ != routing_record());
            assert(entries[b[x - a.len()]].relative@ == routing_record());
        }
    }
}

/// Whether a file may lie in a backup directory: the journal, or the backup of an entry
/// that had content.
pub open spec fn backup_item_allowed(entries: Seq<JournalEntry>, name: Seq<char>) -> bool {
    name == "journal.json"@ || exists|i: int|
        0 <= i < entries.len() && entries[i].sha256 is Some && #[trigger] backup_name(i as nat) == name
}

pub open spec fn unknown_item_message() -> Seq<char> {
    "Unknown files in installer backup; nothing was removed"@
}

/// Checks the `count`-th file found in a backup directory, by its name (`None` where the
/// name is not Unicode), before anything is removed.
pub fn check_backup_item(entries: &[JournalEntry], count: usize, name: Option<&str>) -> (r: Result<()>)
    ensures
        r is Ok <==> count <= MAX_ENTRIES && (name matches Some(n) && backup_item_allowed(entries@, n@)),
        r matches Err(e) ==> e.spec_kind() == ErrorKind::Install && e.spec_message()
            == unknown_item_message(),
{
    let allowed = match name {
        Some(n) => backup_name_allowed(entries, n),
        None => false,
    };
    if count > MAX_ENTRIES || !allowed {
        return Err(failure("Unknown files in installer backup; nothing was removed"));
    }
    Ok(())
}

fn backup_name_allowed(entries: &[JournalEntry], name: &str) -> (r: bool)
    ensures
        r == backup_item_allowed(entries@, name@),
{
    let cs = chars_of(name);
    if chars_eq_str(&cs, "journal.json") {
        return true;
    }
    let mut i: usize = 0;
    while i < entries.len()
        invariant
            i <= entries.len(),
            cs@ == name@,
            cs@ != "journal.json"@,
            forall|j: int| 0 <= j < i ==> !(entries@[j].sha256 is Some && #[trigger] backup_name(j as nat) == name@),
        decreases entries.len() - i,
    {
        if entries[i].sha256.is_some() {
            let candidate = backup_file_name(i);
            if chars_eq_str(&cs, candidate.as_str()) {
                assert(entries@[i as int].sha256 is Some);
                assert(backup_name((i as int) as nat) == name@);
                assert(backup_item_allowed(entries@, name@)) by {
                    let k: int = i as int;
                    assert(0 <= k < entries@.len() && entries@[k].sha256 is Some && backup_name(k as nat) == name@);
                }
                return true;
            }
        }
        i = i + 1;
    }
    false
}

pub open spec fn too_many_message() -> Seq<char> {
    "Too many installer backup entries"@
}

/// The places a new backup records, in order: the fixed files, the optional one, then
/// each owned or published shim by name.
pub open spec fn backup_places_of(names: Seq<Seq<char>>) -> Seq<Seq<char>> {
    fixed_names().push(optional_name()) + names.map_values(|n: Seq<char>| shim_prefix() + n)
}

/// Lists the places a new backup records for the shim filenames `names`.
pub fn backup_places(names: &[String]) -> (r: Result<Vec<String>>)
    ensures
        r matches Ok(v) ==> v@.map_values(|s: String| s@) == backup_places_of(key_views(names@)),
        r is Ok <==> backup_places_of(key_views(names@)).len() <= MAX_ENTRIES,
        r matches Err(e) ==> e.spec_kind() == ErrorKind::Install && e.spec_message()
            == too_many_message(),
{
    let ghost ns = key_views(names@);
    let mut places = fixed_file_names();
    places.push("README_ZH.md".to_string());
    assert(places@.map_values(|s: String| s@) =~= fixed_names().push(optional_name()));
    let mut i: usize = 0;
    while i < names.len()
        invariant
            i <= names.len(),
            ns == key_views(names@),
            places@.map_values(|s: String| s@) == fixed_names().push(optional_name()) + ns.take(
                i as int,
            ).map_values(|n: Seq<char>| shim_prefix() + n),
        decreases names.len() - i,
    {
        let mut place = "shims/".to_string();
        push_str(&mut place, names[i].as_str());
        let ghost old_places = places@;
        places.push(place);
        proof {
            assert(ns.take(i + 1) =~= ns.take(i as int).push(ns[i as int]));
            assert(ns.take(i + 1).map_values(|n: Seq<char>| shim_prefix() + n) =~= ns.take(
                i as int,
            ).map_values(|n: Seq<char>| shim_prefix() + n).push(shim_prefix() + ns[i as int]));
            assert(places@.map_values(|s: String| s@) =~= old_places.map_values(|s: String| s@).push(
                shim_prefix() + ns[i as int],
            ));
        }
        i = i + 1;
    }
    assert(ns.take(names.len() as int) =~= ns);
    if places.len() > MAX_ENTRIES {
        return Err(failure("Too many installer backup entries"));
    }
    Ok(places)
}

pub open spec fn foreign_message() -> Seq<char> {
    "Modified or foreign shim cannot be backed up as owned"@
}

pub open spec fn oversized_message() -> Seq<char> {
    "Installer backup exceeds the bounded recovery size limit"@
}

/// Whether the manager owns content with digest `digest` under the shim name `name`.
pub open spec fn owns(owned: Seq<(String, Vec<String>)>, name: Seq<char>, digest: Seq<char>) -> bool {
    exists|j: int|
        0 <= j < owned.len() && #[trigger] owned[j].0@ == name && key_views(owned[j].1@).contains(
            digest,
        )
}

/// The size that an existing file adds to a backup.
pub open spec fn existing_size(e: Option<(String, u64)>) -> int {
    match e {
        Some((_, size)) => size as int,
        None => 0,
    }
}

pub open spec fn existing_total(existing: Seq<Option<(String, u64)>>, n: int) -> int
    decreases n,
{
    if n <= 0 {
        0
    } else {
        existing_total(existing, n - 1) + existing_size(existing[n - 1])
    }
}

/// What stops the `i`-th place from being backed up: a shim file that the manager does
/// not own as it is, or a total beyond the limits.
pub open spec fn plan_step_failure(
    places: Seq<Seq<char>>,
    existing: Seq<Option<(String, u64)>>,
    owned: Seq<(String, Vec<String>)>,
    i: int,
) -> Option<Seq<char>> {
    let rel = places[i];
    let foreign = match existing[i] {
        Some((digest, _)) => under_shims(rel) && !fixed_names().contains(rel) && !owns(
            owned,
            shim_of(rel),
            digest@,
        ),
        None => false,
    };
    if foreign {
        Some(foreign_message())
    } else if existing_total(existing, i + 1) > u64::MAX {
        Some(overflow_message())
    } else if existing_total(existing, i + 1) > MAX_TOTAL {
        Some(oversized_message())
    } else {
        None
    }
}

pub open spec fn plan_failure_from(
    places: Seq<Seq<char>>,
    existing: Seq<Option<(String, u64)>>,
    owned: Seq<(String, Vec<String>)>,
    i: int,
) -> Option<Seq<char>>
    decreases places.len() - i,
{
    if 0 <= i < places.len() {
        match plan_step_failure(places, existing, owned, i) {
            Some(m) => Some(m),
            None => plan_failure_from(places, existing, owned, i + 1),
        }
    } else {
        None
    }
}

/// The journal entry for a place and what was found there.
pub open spec fn planned_entry(place: Seq<char>, found: Option<(String, u64)>, e: JournalEntry) -> bool {
    &&& e.relative@ == place
    &&& match found {
        Some((digest, size)) => e.sha256 matches Some(h) && h@ == digest@ && e.size == size,
        None => e.sha256 is None && e.size == 0,
    }
}

/// Plans the entries of a new backup from the places it records and what the platform
/// found at each (`existing[i]`: the digest and size of an ordinary file, or `None`).
/// A shim found in place must be one the manager owns (`owned`: each owned shim name
/// with the digests it may have).
pub fn plan_backup_entries(
    places: &[String],
    existing: &[Option<(String, u64)>],
    owned: &[(String, Vec<String>)],
) -> (r: Result<Vec<JournalEntry>>)
    requires
        existing.len() == places.len(),
    ensures
        r is Ok <==> plan_failure_from(key_views(places@), existing@, owned@, 0) is None,
        r matches Ok(v) ==> v@.len() == places@.len() && forall|i: int|
            0 <= i < v@.len() ==> planned_entry(places@[i]@, existing@[i], #[trigger] v@[i]),
        r matches Err(e) ==> e.spec_kind() == ErrorKind::Install && plan_failure_from(
            key_views(places@),
            existing@,
            owned@,
            0,
        ) == Some(e.spec_message()),
{
    let ghost ps = key_views(places@);
    let mut entries: Vec<JournalEntry> = Vec::new();
    let mut total: u64 = 0;
    let mut i: usize = 0;
    while i < places.len()
        invariant
            i <= places.len(),
            existing.len() == places.len(),
            ps == key_views(places@),
            total == existing_total(existing@, i as int),
            total <= MAX_TOTAL,
            entries@.len() == i,
            forall|j: int|
                0 <= j < i ==> planned_entry(places@[j]@, existing@[j], #[trigger] entries@[j]),
            plan_failure_from(ps, existing@, owned@, 0) == plan_failure_from(ps, existing@, owned@, i as int),
        decreases places.len() - i,
    {
        let rel = chars_of(places[i].as_str());
        let found = &existing[i];
        let (sha256, size) = match found {
            Some((digest, size)) => {
                proof {
                    reveal_strlit("shims/");
                }
                if starts_with_str(&rel, "shims/") && !is_fixed(&rel) {
                    let name = string_of(slice_chars(&rel, 6, rel.len()).as_slice());
                    if !owns_digest(owned, name.as_str(), digest.as_str()) {
                        return Err(failure("Modified or foreign shim cannot be backed up as owned"));
                    }
                }
                (Some(digest.clone()), *size)
            },
            None => (None, 0),
        };
        total = match total.checked_add(size) {
            Some(t) => t,
            None => return Err(failure("Installer backup size overflow")),
        };
        if total > MAX_TOTAL {
            return Err(failure("Installer backup exceeds the bounded recovery size limit"));
        }
        let relative = places[i].clone();
        entries.push(JournalEntry { relative, sha256, size });
        i = i + 1;
    }
    Ok(entries)
}

fn is_fixed(rel: &[char]) -> (r: bool)
    ensures
        r == fixed_names().contains(rel@),
{
    let fixed = fixed_file_names();
    let ghost names = fixed@.map_values(|s: String| s@);
    let mut k: usize = 0;
    while k < fixed.len()
        invariant
            k <= fixed.len(),
            names == fixed@.map_values(|s: String| s@),
            names == fixed_names(),
            forall|j: int| 0 <= j < k ==> names[j] != rel@,
        decreases fixed.len() - k,
    {
        if chars_eq_str(rel, fixed[k].as_str()) {
            assert(names[k as int] == rel@);
            return true;
        }
        k = k + 1;
    }
    false
}

fn owns_digest(owned: &[(String, Vec<String>)], name: &str, digest: &str) -> (r: bool)
    ensures
        r == owns(owned@, name@, digest@),
{
    let want = chars_of(name);
    let mut j: usize = 0;
    while j < owned.len()
        invariant
            j <= owned.len(),
            want@ == name@,
            forall|m: int|
                0 <= m < j ==> !(#[trigger] owned@[m].0@ == name@ && key_views(owned@[m].1@).contains(
                    digest@,
                )),
        decreases owned.len() - j,
    {
        if chars_eq_str(&want, owned[j].0.as_str()) {
            let hashes = &owned[j].1;
            let ghost hs = key_views(hashes@);
            let mut k: usize = 0;
            while k < hashes.len()
                invariant
                    k <= hashes.len(),
                    j < owned.len(),
                    hashes@ == owned@[j as int].1@,
                    owned@[j as int].0@ == name@,
                    hs == key_views(hashes@),
                    forall|m: int| 0 <= m < k ==> hs[m] != digest@,
                decreases hashes.len() - k,
            {
                let h = chars_of(hashes[k].as_str());
                if chars_eq_str(&h, digest) {
                    assert(hs[k as int] == digest@);
                    assert(owned@[j as int].0@ == name@ && key_views(owned@[j as int].1@).contains(digest@));
                    return true;
                }
                k = k + 1;
            }
            assert(!hs.contains(digest@));
        }
        j = j + 1;
    }
    false
}

proof fn lemma_plan_steps_pass(
    places: Seq<Seq<char>>,
    existing: Seq<Option<(String, u64)>>,
    owned: Seq<(String, Vec<String>)>,
    i: int,
)
    requires
        0 <= i,
        plan_failure_from(places, existing, owned, i) is None,
    ensures
        forall|j: int| i <= j < places.len() ==> #[trigger] plan_step_failure(places, existing, owned, j) is None,
    decreases places.len() - i,
{
    if i < places.len() {
        lemma_plan_steps_pass(places, existing, owned, i + 1);
    }
}

proof fn lemma_totals_agree(entries: Seq<JournalEntry>, existing: Seq<Option<(String, u64)>>, places: Seq<Seq<char>>, n: int)
    requires
        0 <= n <= entries.len(),
        entries.len() == existing.len(),
        existing.len() == places.len(),
        forall|i: int| 0 <= i < entries.len() ==> planned_entry(places[i], existing[i], #[trigger] entries[i]),
    ensures
        sizes_total(entries, n) == existing_total(existing, n),
    decreases n,
{
    if n > 0 {
        lemma_totals_agree(entries, existing, places, n - 1);
        assert(planned_entry(places[n - 1], existing[n - 1], entries[n - 1]));
    }
}

proof fn lemma_steps_pass_to_end(entries: Seq<JournalEntry>, keys: Seq<Seq<char>>, i: int)
    requires
        0 <= i <= entries.len(),
        forall|j: int| 0 <= j < entries.len() ==> #[trigger] step_failure(entries, keys, j) is None,
    ensures
        failure_from(entries, keys, i) == failure_from(entries, keys, entries.len() as int),
    decreases entries.len() - i,
{
    if i < entries.len() {
        lemma_steps_pass_to_end(entries, keys, i + 1);
    }
}

/// A journal made for a new backup passes the checks that recovery applies to it: the
/// places come from `backup_places_of(names)` for valid shim filenames, the entries are
/// planned from what was found there (bounded files with sound digests) without
/// failure, and the platform gives every place a distinct path key.
pub proof fn planned_journal_is_accepted(
    names: Seq<Seq<char>>,
    existing: Seq<Option<(String, u64)>>,
    owned: Seq<(String, Vec<String>)>,
    entries: Seq<JournalEntry>,
    keys: Seq<Seq<char>>,
)
    requires
        forall|k: int| 0 <= k < names.len() ==> name_valid(#[trigger] names[k]) && shim_name_failure(names[k]) is None,
        existing.len() == backup_places_of(names).len(),
        forall|i: int| 0 <= i < existing.len() ==> match #[trigger] existing[i] {
            Some((digest, size)) => digest_text_ok(digest@) && size <= MAX_FILE,
            None => true,
        },
        plan_failure_from(backup_places_of(names), existing, owned, 0) is None,
        entries.len() == existing.len(),
        forall|i: int| 0 <= i < entries.len() ==> planned_entry(backup_places_of(names)[i], existing[i], #[trigger] entries[i]),
        keys.len() == entries.len(),
        forall|i: int, j: int| 0 <= i < j < keys.len() ==> keys[i] != keys[j],
    ensures
        journal_failure(entries, keys) is None,
{
    let places = backup_places_of(names);
    let n = fixed_names().len() + 1;
    lemma_plan_steps_pass(places, existing, owned, 0);
    assert forall|i: int| 0 <= i < entries.len() implies #[trigger] step_failure(entries, keys, i) is None by {
        assert(planned_entry(places[i], existing[i], entries[i]));
        assert(plan_step_failure(places, existing, owned, i) is None);
        if i < n {
            assert(listed(places[i])) by {
                if i < n - 1 {
                    assert(fixed_names().contains(places[i])) by {
                        assert(places[i] == fixed_names()[i]);
                    }
                }
            }
        } else {
            let name = names[i - n];
            assert(places[i] == shim_prefix() + name);
            assert((shim_prefix() + name).take(shim_prefix().len() as int) =~= shim_prefix());
            assert(shim_of(places[i]) =~= name);
            assert(name_valid(name) && shim_name_failure(name) is None);
        }
        assert(place_failure(entries[i].relative@) is None);
        assert(!keys.take(i).contains(keys[i])) by {
            if keys.take(i).contains(keys[i]) {
                let m = choose|m: int| 0 <= m < i && keys.take(i)[m] == keys[i];
                assert(keys[m] == keys[i]);
            }
        }
        match existing[i] {
            Some((digest, size)) => {
                assert(digest_text_ok(digest@) && size <= MAX_FILE);
            },
            None => {},
        }
        assert(record_ok(entries[i], keys.take(i), keys[i]));
        lemma_totals_agree(entries, existing, places, i + 1);
    }
    lemma_steps_pass_to_end(entries, keys, 0);
    let last = entries.len() - 1;
    assert(plan_step_failure(places, existing, owned, last) is None);
    lemma_totals_agree(entries, existing, places, entries.len() as int);
    assert forall|k: int| 0 <= k < fixed_names().len() implies names_entry(entries, #[trigger] fixed_names()[k]) by {
        assert(planned_entry(places[k], existing[k], entries[k]));
        assert(places[k] == fixed_names()[k]);
        assert(entries[k].relative@ == fixed_names()[k]);
    }
}

} // verus!
