//! Decisions of the management commands that are taken before or around the
//! registry and filesystem work they request.
use vstd::prelude::*;

use crate::error::{invalid_input, Error, ErrorKind, Result};
use crate::lookup::{find_any, find_any_index, first_with_id, lemma_first_with_id};
use crate::paths::{path_parent, spec_path_parent, spec_valid_runtime_path};
use crate::runtime::{
    alias_valid, InstallationId, RuntimeAlias, RuntimeHealth, RuntimeId, RuntimeOrigin,
    RuntimeRecord,
};
use crate::text::lower_seq;
use crate::version::{version_text, PythonVersion};
use crate::selector::{selector_text, VersionSelector};

verus! {

/// Whether one of the selections names the runtime, each looked up as management
/// commands look registrations up.
pub open spec fn selected_by(rs: Seq<RuntimeRecord>, id: RuntimeId, sels: Seq<VersionSelector>) -> bool {
    exists|i: int|
        0 <= i < sels.len() && #[trigger] find_any_index(rs, selector_text(sels[i]@)) >= 0 && rs[find_any_index(
            rs,
            selector_text(sels[i]@),
        )].spec_id() == id
}

pub open spec fn active_message() -> Seq<char> {
    "Runtime is selected globally or in this shell; switch first or use --force"@
}

/// Refuses to remove a runtime that the global or current-shell selection names.
pub fn check_active(id: &RuntimeId, selections: &[VersionSelector], runtimes: &[RuntimeRecord]) -> (r:
    Result<()>)
    ensures
        r is Err <==> selected_by(runtimes@, *id, selections@),
        r matches Err(e) ==> e.spec_kind() == ErrorKind::Busy && e.spec_message() == active_message(),
{
    let mut i: usize = 0;
    while i < selections.len()
        invariant
            i <= selections.len(),
            forall|j: int|
                0 <= j < i ==> !(#[trigger] find_any_index(runtimes@, selector_text(selections@[j]@)) >= 0
                    && runtimes@[find_any_index(runtimes@, selector_text(selections@[j]@))].spec_id() == *id),
        decreases selections.len() - i,
    {
        let text = selections[i].to_string();
        match find_any(runtimes, text.as_str()) {
            Ok(record) => {
                if record.id() == id {
                    return Err(Error::new(
                        ErrorKind::Busy,
                        "Runtime is selected globally or in this shell; switch first or use --force",
                    ));
                }
            },
            Err(_) => {},
        }
        i = i + 1;
    }
    Ok(())
}

/// What `global` or `local` is asked to do with a selection file.
#[derive(Clone, Debug, PartialEq, Eq)]
pub enum SelectionChange {
    /// Remove the file after checking that it holds a valid selection.
    Remove,
    /// Pin the given selector, resolved against the registry.
    Pin(String),
    /// Show the current selection.
    Show,
}

/// Chooses between removing, pinning and showing a selection.
pub fn selection_change(version: Option<&str>, unset: bool) -> (r: Result<SelectionChange>)
    ensures
        (unset && version is Some) <==> r is Err,
        r matches Err(e) ==> e.spec_kind() == ErrorKind::Usage && e.spec_message()
            == "A version and --unset cannot be combined"@,
        r matches Ok(SelectionChange::Remove) <==> (unset && version is None),
        r matches Ok(SelectionChange::Show) <==> (!unset && version is None),
        r matches Ok(SelectionChange::Pin(v)) ==> !unset && (version matches Some(t) && v@ == t@),
        (!unset && version is Some) ==> r is Ok && r->Ok_0 is Pin,
{
    if unset && version.is_some() {
        return Err(invalid_input("A version and --unset cannot be combined"));
    }
    if unset {
        return Ok(SelectionChange::Remove);
    }
    match version {
        Some(v) => Ok(SelectionChange::Pin(v.to_string())),
        None => Ok(SelectionChange::Show),
    }
}

/// Checks how `register` was asked: a scan finds its own interpreters and so takes
/// no alias.
pub fn check_registration(scan: bool, alias: Option<&str>) -> (r: Result<()>)
    ensures
        r is Err <==> (scan && alias is Some),
        r matches Err(e) ==> e.spec_kind() == ErrorKind::Usage && e.spec_message()
            == "--alias cannot be combined with --scan"@,
{
    if scan && alias.is_some() {
        return Err(invalid_input("--alias cannot be combined with --scan"));
    }
    Ok(())
}

pub open spec fn unregister_confirm_message() -> Seq<char> {
    "Use --yes to remove a registration; external Python files are never deleted"@
}

pub open spec fn unregister_managed_message() -> Seq<char> {
    "Managed runtimes must use uninstall, not unregister"@
}

/// The registration `unregister` removes: the request must be confirmed, names a
/// registration as management commands find them, and managed runtimes are removed
/// by `uninstall` instead.
pub fn unregister_target<'a>(runtimes: &'a [RuntimeRecord], version: &str, yes: bool) -> (r: Result<&'a RuntimeRecord>)
    ensures
        !yes ==> (r matches Err(e) && e.spec_kind() == ErrorKind::Usage && e.spec_message() == unregister_confirm_message()),
        yes && find_any_index(runtimes@, version@) < 0 ==> r is Err,
        yes && find_any_index(runtimes@, version@) >= 0 ==> ({
            let rec = runtimes@[find_any_index(runtimes@, version@)];
            if rec.spec_origin() is Managed {
                r matches Err(e) && e.spec_kind() == ErrorKind::Usage && e.spec_message() == unregister_managed_message()
            } else {
                r matches Ok(x) && *x == rec
            }
        }),
{
    if !yes {
        return Err(invalid_input("Use --yes to remove a registration; external Python files are never deleted"));
    }
    let record = match find_any(runtimes, version) {
        Ok(record) => record,
        Err(e) => return Err(e),
    };
    match record.origin() {
        RuntimeOrigin::Managed { .. } => Err(invalid_input("Managed runtimes must use uninstall, not unregister")),
        RuntimeOrigin::External { .. } => Ok(record),
    }
}

pub open spec fn uninstall_confirm_message() -> Seq<char> {
    "uninstall deletes an owned managed Python, including packages; pass --yes to confirm"@
}

pub open spec fn uninstall_external_message() -> Seq<char> {
    "External runtimes cannot be deleted; use unregister instead"@
}

/// The registration `uninstall` deletes: the request must be confirmed, names a
/// registration as management commands find them, and only managed runtimes, whose
/// files the manager owns, can be deleted.
pub fn uninstall_target<'a>(runtimes: &'a [RuntimeRecord], version: &str, yes: bool) -> (r: Result<&'a RuntimeRecord>)
    ensures
        !yes ==> (r matches Err(e) && e.spec_kind() == ErrorKind::Usage && e.spec_message() == uninstall_confirm_message()),
        yes && find_any_index(runtimes@, version@) < 0 ==> r is Err,
        yes && find_any_index(runtimes@, version@) >= 0 ==> ({
            let rec = runtimes@[find_any_index(runtimes@, version@)];
            if rec.spec_origin() is External {
                r matches Err(e) && e.spec_kind() == ErrorKind::Usage && e.spec_message() == uninstall_external_message()
            } else {
                r matches Ok(x) && *x == rec
            }
        }),
{
    if !yes {
        return Err(invalid_input(
            "uninstall deletes an owned managed Python, including packages; pass --yes to confirm",
        ));
    }
    let record = match find_any(runtimes, version) {
        Ok(record) => record,
        Err(e) => return Err(e),
    };
    match record.origin() {
        RuntimeOrigin::Managed { .. } => Ok(record),
        RuntimeOrigin::External { .. } => Err(invalid_input("External runtimes cannot be deleted; use unregister instead")),
    }
}

/// How installing a runtime begins, given what the registry already holds for it.
#[derive(Clone, Copy, Debug, PartialEq, Eq, Structural)]
pub enum InstallStart {
    /// The runtime at this position is ready; nothing is installed again.
    AlreadyInstalled(usize),
    /// The interrupted installation at this position is resumed.
    Resume(usize),
    /// No registration exists yet.
    Fresh,
}

pub open spec fn pending_removal_message() -> Seq<char> {
    "Finish uninstalling the pending runtime before reinstalling"@
}

/// Decides how installing `id` begins: a ready registration is kept as it is, a
/// pending removal must finish first, and any other registration is resumed.
pub fn install_start(runtimes: &[RuntimeRecord], id: &RuntimeId) -> (r: Result<InstallStart>)
    ensures
        first_with_id(runtimes@, *id) < 0 ==> r == Ok::<InstallStart, Error>(InstallStart::Fresh),
        first_with_id(runtimes@, *id) >= 0 ==> ({
            let k = first_with_id(runtimes@, *id);
            let h = runtimes@[k].spec_health();
            if h is Ready {
                r == Ok::<InstallStart, Error>(InstallStart::AlreadyInstalled(k as usize))
            } else if h is PendingRemoval {
                r matches Err(e) && e.spec_kind() == ErrorKind::Usage && e.spec_message() == pending_removal_message()
            } else {
                r == Ok::<InstallStart, Error>(InstallStart::Resume(k as usize))
            }
        }),
{
    proof {
        lemma_first_with_id(runtimes@, *id);
    }
    let mut i: usize = 0;
    while i < runtimes.len()
        invariant
            i <= runtimes.len(),
            -1 <= first_with_id(runtimes@, *id) < runtimes@.len(),
            first_with_id(runtimes@, *id) >= 0 ==> runtimes@[first_with_id(runtimes@, *id)].spec_id() == *id,
            forall|j: int| 0 <= j < runtimes@.len() && (first_with_id(runtimes@, *id) < 0 || j < first_with_id(runtimes@, *id))
                ==> (#[trigger] runtimes@[j]).spec_id() != *id,
            forall|j: int| 0 <= j < i ==> (#[trigger] runtimes@[j]).spec_id() != *id,
        decreases runtimes.len() - i,
    {
        if runtimes[i].id() == id {
            assert(first_with_id(runtimes@, *id) == i);
            return match runtimes[i].health() {
                RuntimeHealth::Ready => Ok(InstallStart::AlreadyInstalled(i)),
                RuntimeHealth::PendingRemoval => Err(invalid_input("Finish uninstalling the pending runtime before reinstalling")),
                _ => Ok(InstallStart::Resume(i)),
            };
        }
        i = i + 1;
    }
    Ok(InstallStart::Fresh)
}

/// Whether `rehash` rescans a record: it must be ready and, when a runtime was
/// named, be that runtime.
pub open spec fn rescanned(rec: RuntimeRecord, selected: Option<RuntimeId>) -> bool {
    rec.spec_health() is Ready && (selected matches Some(id) ==> rec.spec_id() == id)
}

/// The positions of the records a rescan covers, in registration order, after
/// finding the named runtime, if one was named.
pub fn rescan_targets(runtimes: &[RuntimeRecord], version: Option<&str>) -> (r: Result<Vec<usize>>)
    ensures
        version matches Some(v) ==> (r is Err <==> find_any_index(runtimes@, v@) < 0),
        version is None ==> r is Ok,
        r matches Ok(ix) ==> {
            let selected = match version {
                Some(v) => Some(runtimes@[find_any_index(runtimes@, v@)].spec_id()),
                None => None,
            };
            &&& forall|k: int| 0 <= k < ix@.len() ==> (#[trigger] ix@[k]) < runtimes@.len()
            &&& forall|k: int, m: int| 0 <= k < m < ix@.len() ==> #[trigger] ix@[k] < #[trigger] ix@[m]
            &&& forall|j: int| 0 <= j < runtimes@.len() ==> (rescanned(#[trigger] runtimes@[j], selected)
                <==> ix@.contains(j as usize))
        },
{
    let selected: Option<RuntimeId> = match version {
        Some(v) => match find_any(runtimes, v) {
            Ok(record) => Some(*record.id()),
            Err(e) => return Err(e),
        },
        None => None,
    };
    let mut ix: Vec<usize> = Vec::new();
    let mut i: usize = 0;
    while i < runtimes.len()
        invariant
            i <= runtimes.len(),
            forall|k: int| 0 <= k < ix@.len() ==> (#[trigger] ix@[k]) < i,
            forall|k: int, m: int| 0 <= k < m < ix@.len() ==> #[trigger] ix@[k] < #[trigger] ix@[m],
            forall|j: int| 0 <= j < i ==> (rescanned(#[trigger] runtimes@[j], selected) <==> ix@.contains(j as usize)),
        decreases runtimes.len() - i,
    {
        let ready = runtimes[i].health().is_ready();
        let named = match &selected {
            Some(id) => runtimes[i].id() == id,
            None => true,
        };
        let ghost before = ix@;
        if ready && named {
            ix.push(i);
            proof {
                assert forall|j: int| 0 <= j < i + 1 implies (rescanned(#[trigger] runtimes@[j], selected)
                    <==> ix@.contains(j as usize)) by {
                    if j < i {
                        if ix@.contains(j as usize) {
                            let k = choose|k: int| 0 <= k < ix@.len() && ix@[k] == j as usize;
                            assert(k < before.len());
                            assert(before[k] == j as usize);
                        }
                        if before.contains(j as usize) {
                            let k = choose|k: int| 0 <= k < before.len() && before[k] == j as usize;
                            assert(ix@[k] == j as usize);
                        }
                    } else {
                        assert(ix@[ix@.len() - 1] == i);
                    }
                }
            }
        } else {
            proof {
                assert(!ix@.contains(i as usize));
            }
        }
        i = i + 1;
    }
    Ok(ix)
}


pub open spec fn no_root_message() -> Seq<char> {
    "Interpreter has no root"@
}

/// Whether a record is the registration of an external interpreter: the version it
/// reported, qualified by a fresh installation identifier, rooted at the interpreter's
/// directory, with the script directories it reported, ready, and carrying the alias
/// (lowercased) when one was given.
pub open spec fn external_shape(
    rec: RuntimeRecord,
    version: Seq<char>,
    installation: InstallationId,
    executable: Seq<char>,
    scripts: Seq<String>,
    alias: Option<Seq<char>>,
) -> bool {
    &&& version_text(rec.spec_id().spec_version()) == lower_seq(version)
    &&& rec.spec_id().spec_installation() == Some(installation)
    &&& spec_path_parent(executable) == Some(rec.spec_root())
    &&& rec.spec_command_dirs() == scripts
    &&& rec.spec_origin() matches RuntimeOrigin::External { registered_executable } && registered_executable@
        == executable
    &&& rec.spec_health() is Ready
    &&& rec.spec_aliases() == match alias {
        Some(a) => seq![lower_seq(a)],
        None => Seq::empty(),
    }
}

/// Registers an interpreter that a probe found: `version` and `scripts` are what it
/// reported, `installation` the identifier generated for this registration.
pub fn external_registration(
    version: &str,
    installation: InstallationId,
    executable: &str,
    scripts: Vec<String>,
    alias: Option<&str>,
) -> (r: Result<RuntimeRecord>)
    ensures
        r matches Ok(rec) ==> external_shape(rec, version@, installation, executable@, scripts@, match alias {
            Some(a) => Some(a@),
            None => None,
        }),
        forall|v: PythonVersion, root: Seq<char>|
            version_text(v) == lower_seq(version@) && v.spec_is_stable() && spec_path_parent(executable@)
                == Some(root) && spec_valid_runtime_path(root) && scripts@.len() > 0 && (forall|i: int|
                0 <= i < scripts@.len() ==> spec_valid_runtime_path(#[trigger] scripts@[i]@))
                && spec_valid_runtime_path(executable@) && (alias matches Some(a) ==> alias_valid(
                lower_seq(a@),
            )) ==> r is Ok,
        r matches Ok(rec) ==> rec.spec_id().spec_version().spec_is_stable() && spec_valid_runtime_path(
            rec.spec_root(),
        ) && scripts@.len() > 0 && (forall|i: int|
            0 <= i < scripts@.len() ==> spec_valid_runtime_path(#[trigger] scripts@[i]@))
            && spec_valid_runtime_path(executable@) && (alias matches Some(a) ==> alias_valid(
            lower_seq(a@),
        )),
        spec_path_parent(executable@) is None ==> r is Err,
        r matches Err(e) ==> e.spec_kind() == ErrorKind::Usage,
{
    let v = match PythonVersion::parse(version) {
        Ok(v) => v,
        Err(e) => return Err(e),
    };
    let id = match RuntimeId::new(v) {
        Ok(id) => id,
        Err(e) => return Err(e),
    };
    let id = id.with_installation(installation);
    let root = match path_parent(executable) {
        Some(root) => root,
        None => return Err(invalid_input("Interpreter has no root")),
    };
    let origin = RuntimeOrigin::External { registered_executable: executable.to_string() };
    let mut record = match RuntimeRecord::new(id, root, scripts, origin) {
        Ok(record) => record,
        Err(e) => return Err(e),
    };
    match alias {
        Some(a) => {
            let parsed = match RuntimeAlias::parse(a) {
                Ok(parsed) => parsed,
                Err(e) => return Err(e),
            };
            proof {
                assert(record.spec_aliases() =~= Seq::<Seq<char>>::empty());
            }
            record.add_alias(parsed);
            proof {
                assert(record.spec_aliases().len() == 1);
                assert(record.spec_aliases().contains(parsed@)) by {
                    assert(record.spec_aliases().to_set().contains(parsed@));
                }
                assert(record.spec_aliases() =~= seq![lower_seq(a@)]);
            }
        },
        None => {
            assert(record.spec_aliases() =~= Seq::<Seq<char>>::empty());
        },
    }
    record.set_health(RuntimeHealth::Ready);
    Ok(record)
}

pub open spec fn root_registered_message() -> Seq<char> {
    "This Python root is already registered"@
}

/// Decides what registration does with a found interpreter whose root has the
/// platform path key `root_key` (`None` where the key cannot be taken), given those of
/// the registered runtimes: it is new, or skipped by a scan, or a conflict.
/// Returns whether to skip it.
pub fn registration_duplicate(existing_keys: &[Option<String>], root_key: Option<&str>, scan: bool) -> (r: Result<bool>)
    ensures
        ({
            let taken = exists|k: int| 0 <= k < existing_keys@.len() && match (#[trigger] existing_keys@[k], root_key) {
                (Some(a), Some(b)) => a@ == b@,
                (None, None) => true,
                _ => false,
            };
            &&& !taken ==> r == Ok::<bool, Error>(false)
            &&& taken && scan ==> r == Ok::<bool, Error>(true)
            &&& taken && !scan ==> (r matches Err(e) && e.spec_kind() == ErrorKind::Conflict
                && e.spec_message() == root_registered_message())
        }),
{
    let mut k: usize = 0;
    while k < existing_keys.len()
        invariant
            k <= existing_keys.len(),
            forall|m: int| 0 <= m < k ==> !match (#[trigger] existing_keys@[m], root_key) {
                (Some(a), Some(b)) => a@ == b@,
                (None, None) => true,
                _ => false,
            },
        decreases existing_keys.len() - k,
    {
        let same = match (&existing_keys[k], root_key) {
            (Some(a), Some(b)) => crate::text::chars_eq_str(crate::text::chars_of(a.as_str()).as_slice(), b),
            (None, None) => true,
            _ => false,
        };
        if same {
            if scan {
                return Ok(true);
            }
            return Err(Error::new(ErrorKind::Conflict, "This Python root is already registered"));
        }
        k = k + 1;
    }
    Ok(false)
}

} // verus!
