//! Rules of the management front end: listings, settings keys, upgrade records,
//! cache names, user identity, PATH values and early argument flags.

use std::path::{Component, Path};

use pyrudder::commands::CommandCaseMapper;
use pyrudder::destination::destination_path;
use pyrudder::display::{release_label, release_list, runtime_list, short_health, ListedRuntime};
use pyrudder::installer::{
    backup_path, check_layout_marker, check_shim_name, target, valid_digest, valid_source_version,
    validate_shim_name,
};
use pyrudder::paths::validate_path;
use pyrudder::invocation::{
    early_flags, elevated_arguments, presentation, ElevatedHelper, OutcomeKind, Presentation,
};
use pyrudder::lookup::find_any;
use pyrudder::managed::{
    cache_name, check_discard_request, check_install_directory, check_journal_owner,
    check_managed_root, check_new_root, check_owner, check_tree_depth, digest_bytes, digest_text,
    expected_staging, inspection_step, installation_owner, is_install_journal, journal_file_name,
    journal_owner_record, registered_owner, removal_step, staging_attempt, staging_directory_name,
    Owner, RemovalAction, TreeEntry,
};
use pyrudder::config::check_distinct_directories;
use pyrudder::management::{
    check_active, check_registration, external_registration, install_start, registration_duplicate,
    rescan_targets, selection_change, uninstall_target, unregister_target, InstallStart,
    SelectionChange,
};
use pyrudder::selector::VersionSelector;
use pyrudder::runtime::{InstallationId, RuntimeHealth, RuntimeId, RuntimeOrigin, RuntimeRecord};
use pyrudder::settings::{
    check_configured_path, check_fallback_value, check_path_change, config_key, initial_config,
};
use pyrudder::state::StateFileSystem;
use pyrudder::user_identity::{plain_directory, validate_profile, validate_sid};
use pyrudder::user_path::{decode_path, path_text, plan_user_path, PathOwnership};
use pyrudder::system_path::{check_published, plan_system_path, SystemPathOwnership};
use pyrudder::{Error, ErrorKind, Result};

struct AsciiMapper;
impl CommandCaseMapper for AsciiMapper {
    fn uppercase(&self, name: &str) -> Result<String> {
        Ok(name.to_ascii_uppercase())
    }
}

/// Normalizes nothing; accepts absolute paths without parent components.
struct PlainFs;
impl StateFileSystem for PlainFs {
    fn read_file(&self, _path: &str, _max_bytes: usize) -> Result<Option<Vec<u8>>> {
        Ok(None)
    }
    fn normalize_directory(&self, path: &str) -> Result<String> {
        let native = Path::new(path);
        if !native.is_absolute() || native.components().any(|part| part == Component::ParentDir) {
            return Err(Error::new(ErrorKind::Usage, "Invalid path"));
        }
        Ok(path.to_owned())
    }
    fn canonical_directory(&self, path: &str) -> Result<String> {
        self.normalize_directory(path)
    }
    fn write_atomic(&self, _path: &str, _contents: &[u8]) -> Result<()> {
        Err(Error::new(ErrorKind::Busy, "read-only"))
    }
}

fn listed(version: &str, aliases: &[&str], health: &str, root: &str) -> ListedRuntime {
    ListedRuntime {
        version: Some(version.to_owned()),
        aliases: aliases.iter().map(|alias| (*alias).to_owned()).collect(),
        health: Some(health.to_owned()),
        root: Some(root.to_owned()),
    }
}

#[test]
fn available_lists_versions_without_artifact_metadata() {
    let versions = vec!["3.14.7".to_owned(), "3.13.15".to_owned()];
    assert_eq!(release_list(&versions), "VERSION\n3.14.7\n3.13.15");
    assert!(release_list(&[]).contains("没有可用"));
}

#[test]
fn list_is_one_row_per_runtime_without_internal_metadata() {
    let rows = [listed("3.12.4", &["py312"], "Ready", r"\\?\D:\env\Python\Python312")];
    assert_eq!(
        runtime_list(&rows),
        "VERSION  ALIAS  STATUS  PATH\n3.12.4   py312  ready   D:\\env\\Python\\Python312"
    );
}

#[test]
fn unhealthy_registrations_still_have_a_short_row() {
    let output = runtime_list(&[listed(
        "3.12.4",
        &[],
        "Broken { reason: \"a lengthy diagnostic\" }",
        r"C:\Python312",
    )]);
    assert!(output.contains("broken"));
    assert!(!output.contains("lengthy"));
    assert_eq!(output.lines().count(), 2);
}

#[test]
fn empty_list_offers_a_native_registration_command() {
    let output = runtime_list(&[]);
    assert!(output.contains("尚未登记 Python"));
    assert!(output.contains("pyrudder register"));
}

#[test]
fn listing_columns_follow_the_widest_cell() {
    let rows = [
        listed("3.9.1", &["a", "bb"], "Unavailable { reason: \"x\" }", "/x"),
        ListedRuntime {
            version: None,
            aliases: Vec::new(),
            health: None,
            root: None,
        },
    ];
    assert_eq!(
        runtime_list(&rows),
        "VERSION  ALIAS  STATUS       PATH\n3.9.1    a, bb  unavailable  /x\n-        -      unknown      -"
    );
    assert_eq!(short_health("PendingRemoval"), "removing");
    assert_eq!(short_health("Unchecked"), "unchecked");
    assert_eq!(short_health("ready"), "unknown");
}

#[test]
fn recovery_version_rejects_nonstable_versions_and_output_injection() {
    for valid in ["0.1.0", "0.1.10", "1.0.0", "4294967295.0.0"] {
        assert!(valid_source_version(valid));
    }
    for invalid in [
        "",
        "0.0.9",
        "0.1.0-alpha.8",
        "0.01.0",
        "1.2",
        "1.2.3.4",
        "4294967296.0.0",
        "0.1.0\nPYRUDDER_RESTORED_VERSION=9.9.9",
        "0.1.0\r",
        "0.1.0+build",
    ] {
        assert!(!valid_source_version(invalid), "{invalid:?}");
    }
}

#[test]
fn owned_files_need_plain_digests_and_shim_names() {
    assert!(valid_digest(&"aB".repeat(32)));
    assert!(!valid_digest(&"a".repeat(63)));
    assert!(!valid_digest(&format!("{}g", "a".repeat(63))));
    assert!(check_shim_name("python.exe").is_ok());
    assert!(check_shim_name("PyRudder-Dispatch.EXE").is_ok());
    let reserved = check_shim_name("pyrudder.exe").err().expect("reserved stem");
    assert_eq!(reserved.kind(), ErrorKind::Install);
    assert_eq!(reserved.message(), "Reserved filename in upgrade shim ownership");
    assert!(reserved.hint().is_some());
    let unsupported = check_shim_name("python.dll").err().expect("unsupported extension");
    assert_eq!(unsupported.message(), "Invalid upgrade shim filename");
    assert!(validate_shim_name("pip.cmd", &AsciiMapper).is_ok());
    assert_eq!(
        validate_shim_name("a/b.exe", &AsciiMapper).err().map(|e| e.kind()),
        Some(ErrorKind::Usage)
    );
}

#[test]
fn download_cache_names_and_archive_digests() {
    let hash = "0123456789abcdef".repeat(4);
    assert!(cache_name(&format!("{hash}.zip")));
    assert!(cache_name(&format!("{hash}.part")));
    assert!(cache_name(&format!("{hash}.etag")));
    assert!(!cache_name(&format!("{hash}.zip.part")));
    assert!(!cache_name(&format!("{hash}.tmp")));
    assert!(!cache_name(&format!("{}.zip", &hash[1..])));
    let digest = digest_bytes(&"0f".repeat(32)).expect("valid digest");
    assert_eq!(digest, [0x0f; 32]);
    let mut mixed = [0u8; 32];
    for (index, byte) in mixed.iter_mut().enumerate() {
        *byte = (index as u8).wrapping_mul(37);
    }
    let spelled = digest_text(&mixed);
    assert_eq!(spelled.len(), 64);
    assert_eq!(&spelled[..6], "00254a");
    assert_eq!(digest_bytes(&spelled).ok(), Some(mixed));
    let signed = digest_bytes(&format!("+a{}", "00".repeat(31))).expect("sign accepted by radix parsing");
    assert_eq!(signed[0], 0x0a);
    assert_eq!(
        digest_bytes("abc").err().map(|e| e.message().to_owned()),
        Some("Invalid archive digest".to_owned())
    );
    assert_eq!(
        digest_bytes(&"zz".repeat(32)).err().map(|e| e.message().to_owned()),
        Some("Invalid digest".to_owned())
    );
}

#[test]
fn store_repair_identity_is_strict() {
    assert!(validate_sid("S-1-5-21-1-2-3-1001").is_ok());
    for sid in [
        "S-1-5",
        "S-2-5-21",
        "s-1-5-21",
        "S-1-5-x",
        "S-1-5--1",
        "S-1-5-18446744073709551616",
    ] {
        assert_eq!(
            validate_sid(sid).err().map(|e| e.kind()),
            Some(ErrorKind::Usage),
            "{sid}"
        );
    }
    assert!(validate_sid(&format!("S-1-{}", ["1"; 17].join("-"))).is_err());
    assert!(validate_profile(r"C:\Users\owner").is_ok());
    for profile in [
        r"C:\",
        r"C:/Users/owner",
        r"C:\Users\..\Admin",
        r"C:\Users\%USERNAME%",
        r"C:\Users\\owner",
        r"1:\Users",
    ] {
        assert!(validate_profile(profile).is_err(), "{profile}");
    }
    assert_eq!(
        plain_directory(r"\\?\C:\Users\owner").ok(),
        Some(r"C:\Users\owner".to_owned())
    );
}

#[test]
fn path_values_decode_strictly_and_persist_safely() {
    let encode = |text: &str| -> Vec<u8> {
        text.encode_utf16()
            .flat_map(|unit| unit.to_le_bytes())
            .collect()
    };
    assert_eq!(decode_path(None).ok(), Some(String::new()));
    assert_eq!(
        decode_path(Some(&encode("C:\\Tools;D:\\开发\0\0"))).ok(),
        Some("C:\\Tools;D:\\开发".to_owned())
    );
    assert_eq!(
        decode_path(Some(&encode("a😀b"))).ok(),
        Some("a😀b".to_owned())
    );
    assert_eq!(
        decode_path(Some(&[0x41])).err().map(|e| e.message().to_owned()),
        Some("PATH has invalid UTF-16 or exceeds the Windows limit".to_owned())
    );
    assert_eq!(
        decode_path(Some(&[0x00, 0xd8, 0x41, 0x00])).err().map(|e| e.message().to_owned()),
        Some("PATH is not valid Unicode".to_owned())
    );
    assert_eq!(
        decode_path(Some(&encode("a\0b"))).err().map(|e| e.message().to_owned()),
        Some("PATH contains an embedded NUL".to_owned())
    );
    assert_eq!(
        path_text(r"\\?\C:\Program Files\PyRudder").ok(),
        Some(r"C:\Program Files\PyRudder".to_owned())
    );
    for text in [r"C:\a;b", "C:\\a\"", "C:\\a\r", "C:\\%PATH%"] {
        assert!(path_text(text).is_err(), "{text:?}");
    }
}

#[test]
fn configuration_keys_and_protected_roots() -> Result<()> {
    assert_eq!(
        config_key("runtimes_dir")?,
        ("paths".to_owned(), "runtimes_dir".to_owned())
    );
    assert_eq!(
        config_key("commands.system_fallback")?,
        ("commands".to_owned(), "system_fallback".to_owned())
    );
    for key in ["config_dir", "paths.config_dir", "commands.other", "x.runtimes_dir"] {
        assert!(config_key(key).is_err(), "{key}");
    }
    let managed = RuntimeRecord::new(
        "cpython-3.13.7-x64".parse()?,
        "/r".to_owned(),
        vec!["/r/Scripts".to_owned()],
        RuntimeOrigin::Managed {
            provider: "python.org".to_owned(),
            artifact_url: "https://example.invalid/python.zip".to_owned(),
            artifact_sha256: [0; 32],
            ownership_id: InstallationId::new(1)?,
        },
    )?;
    assert!(check_path_change("paths", "install_dir", 0, &[]).is_ok());
    assert!(check_path_change("paths", "shims_dir", 3, &[]).is_err());
    assert!(check_path_change("commands", "shims_dir", 3, &[]).is_ok());
    assert!(check_path_change("paths", "runtimes_dir", 3, &[]).is_ok());
    assert!(check_path_change("paths", "runtimes_dir", 0, &[managed]).is_err());
    Ok(())
}

#[test]
fn enter_and_quoted_unicode_paths_are_supported_without_creating_them() -> Result<()> {
    let default = "/pyrudder-tests/default".to_owned();
    assert_eq!(destination_path(&PlainFs, "", &default)?, default);
    assert_eq!(destination_path(&PlainFs, "  \r\n", &default)?, default);
    let custom = "/pyrudder-tests/开发 Python";
    assert_eq!(
        destination_path(&PlainFs, &format!(" \"{custom}\" "), &default)?,
        custom
    );
    Ok(())
}

#[test]
fn relative_root_and_unsafe_paths_are_rejected() {
    let default = r"C:\PyRudder\runtimes";
    for input in [
        r"relative",
        r"C:\",
        r"\\server\share\Python",
        r"C:\Python;bad",
        r"C:\%USERPROFILE%\Python",
        "/",
        "/opt/Python;bad",
        "/opt/%HOME%",
    ] {
        assert!(destination_path(&PlainFs, input, default).is_err(), "{input}");
    }
}

fn record(version: &str, installation: u128, health: RuntimeHealth) -> Result<RuntimeRecord> {
    let id = RuntimeId::new(version.parse()?)?.with_installation(InstallationId::new(installation)?);
    let root = format!("/runtimes/{installation}");
    let mut record = RuntimeRecord::new(
        id,
        root.clone(),
        vec![format!("{root}/Scripts")],
        RuntimeOrigin::External {
            registered_executable: format!("{root}/python.exe"),
        },
    )?;
    record.set_health(health);
    Ok(record)
}

#[test]
fn management_lookup_ignores_health_but_not_ambiguity() -> Result<()> {
    let broken = RuntimeHealth::Broken {
        reason: "missing python.exe".to_owned(),
    };
    let runtimes = [
        record("3.12.1", 1, broken.clone())?,
        record("3.13.7", 2, RuntimeHealth::Ready)?,
        record("3.13.7", 3, RuntimeHealth::Unchecked)?,
    ];
    assert_eq!(find_any(&runtimes, "3.12")?, &runtimes[0]);
    assert_eq!(
        find_any(&runtimes, &runtimes[2].id().to_string())?,
        &runtimes[2]
    );
    assert_eq!(
        find_any(&runtimes, "3.13").err().map(|e| e.kind()),
        Some(ErrorKind::Conflict)
    );
    assert_eq!(
        find_any(&runtimes, "3.11").err().map(|e| e.kind()),
        Some(ErrorKind::NotInstalled)
    );
    assert_eq!(
        find_any(&runtimes, "cpython-3.11.1-x64").err().map(|e| e.message().to_owned()),
        Some("Runtime is not registered".to_owned())
    );
    assert_eq!(
        find_any(&runtimes, "system").err().map(|e| e.message().to_owned()),
        Some("Expected a registered runtime".to_owned())
    );
    assert_eq!(
        find_any(&runtimes, "not a selector!").err().map(|e| e.kind()),
        Some(ErrorKind::Usage)
    );
    Ok(())
}

#[test]
fn early_flags_stop_at_the_separator() {
    let args = |items: &[&str]| -> Vec<Option<String>> {
        items.iter().map(|item| Some((*item).to_owned())).collect()
    };
    let flags = early_flags(&args(&["pyrudder", "--version"]));
    assert!(!flags.version_misuse);
    assert!(early_flags(&args(&["pyrudder", "-V", "list"])).version_misuse);
    assert!(early_flags(&args(&["pyrudder", "list", "--json"])).json_errors);
    assert!(!early_flags(&args(&["pyrudder", "exec", "--", "--json"])).json_errors);
    assert!(!early_flags(&args(&["--json"])).json_errors);
    assert!(early_flags(&args(&["pyrudder", "--no-color"])).no_color);
    let mut unusual = args(&["pyrudder", "run"]);
    unusual.push(None);
    unusual.push(Some("--no-color".to_owned()));
    assert!(early_flags(&unusual).no_color);
}

#[test]
fn outcomes_are_presented_by_mode() {
    assert_eq!(
        presentation(OutcomeKind::Child(3), true, true, false, false),
        Presentation::ExitWith(3)
    );
    assert_eq!(
        presentation(OutcomeKind::Data, false, false, true, false),
        Presentation::RuntimeTable
    );
    assert_eq!(
        presentation(OutcomeKind::Data, false, false, false, true),
        Presentation::ReleaseTable
    );
    assert_eq!(
        presentation(OutcomeKind::Data, false, true, true, false),
        Presentation::JsonEnvelope
    );
    assert_eq!(
        presentation(OutcomeKind::Data, true, false, false, false),
        Presentation::Silent
    );
    assert_eq!(
        presentation(OutcomeKind::Failed, true, false, false, false),
        Presentation::TextError
    );
}

#[test]
fn upgrade_files_are_named_inside_their_roots() {
    assert_eq!(target("/root", "config/registry.json"), "/root/config/registry.json");
    assert_eq!(target("/root", "pyrudder.exe"), "/root/pyrudder.exe");
    assert_eq!(backup_path("/backup", 7), "/backup/000007.bak");
    assert_eq!(backup_path("/backup", 1_234_567), "/backup/1234567.bak");
    assert!(validate_path("/opt/python").is_ok());
    assert_eq!(
        validate_path("/opt/../python").err().map(|e| e.message().to_owned()),
        Some("Runtime paths must be absolute and contain no parent traversal".to_owned())
    );
    assert!(validate_path("relative").is_err());
}

#[test]
fn management_requests_are_checked_before_registry_work() -> Result<()> {
    let runtimes = [
        record("3.12.1", 1, RuntimeHealth::Ready)?,
        record("3.13.7", 2, RuntimeHealth::Unchecked)?,
    ];
    let global: VersionSelector = "3.13".parse()?;
    assert_eq!(
        check_active(runtimes[1].id(), &[global.clone()], &runtimes).err().map(|e| e.kind()),
        Some(ErrorKind::Busy)
    );
    assert!(check_active(runtimes[0].id(), &[global], &runtimes).is_ok());
    assert!(check_active(runtimes[0].id(), &[], &runtimes).is_ok());
    assert_eq!(selection_change(None, true)?, SelectionChange::Remove);
    assert_eq!(selection_change(None, false)?, SelectionChange::Show);
    assert_eq!(
        selection_change(Some("3.13"), false)?,
        SelectionChange::Pin("3.13".to_owned())
    );
    assert!(selection_change(Some("3.13"), true).is_err());
    assert!(check_registration(true, Some("work")).is_err());
    assert!(check_registration(true, None).is_ok());
    assert!(unregister_target(&runtimes, "3.12", false).is_err());
    assert_eq!(unregister_target(&runtimes, "3.12", true)?, &runtimes[0]);
    assert!(unregister_target(&runtimes, "3.11", true).is_err());
    assert_eq!(
        uninstall_target(&runtimes, "3.12", true).err().map(|e| e.message().to_owned()),
        Some("External runtimes cannot be deleted; use unregister instead".to_owned())
    );
    assert!(uninstall_target(&runtimes, "3.12", false).is_err());
    assert_eq!(install_start(&runtimes, runtimes[0].id())?, InstallStart::AlreadyInstalled(0));
    assert_eq!(install_start(&runtimes, runtimes[1].id())?, InstallStart::Resume(1));
    let absent: pyrudder::runtime::RuntimeId = "cpython-3.10.1-x64".parse()?;
    assert_eq!(install_start(&runtimes, &absent)?, InstallStart::Fresh);
    let removing = [record("3.13.7", 9, RuntimeHealth::PendingRemoval)?];
    assert!(install_start(&removing, removing[0].id()).is_err());
    assert_eq!(rescan_targets(&runtimes, None)?, vec![0]);
    assert_eq!(rescan_targets(&runtimes, Some("3.13"))?, Vec::<usize>::new());
    assert_eq!(rescan_targets(&runtimes, Some("3.12"))?, vec![0]);
    assert!(rescan_targets(&runtimes, Some("3.11")).is_err());
    Ok(())
}

#[test]
fn user_path_updates_touch_only_owned_entries() -> Result<()> {
    let paths = [r"C:\PyRudder\bin".to_owned(), r"C:\PyRudder\shims".to_owned()];
    let fresh = PathOwnership {
        schema_version: 1,
        added: Vec::new(),
    };
    let plan = plan_user_path(true, &paths, &fresh, r"C:\Windows;C:\Tools")?;
    assert_eq!(plan.next, r"C:\PyRudder\bin;C:\PyRudder\shims;C:\Windows;C:\Tools");
    assert_eq!(plan.added, vec![paths[1].clone(), paths[0].clone()]);
    assert!(plan.changed);
    let owned = PathOwnership {
        schema_version: 1,
        added: plan.added.clone(),
    };
    let removed = plan_user_path(false, &paths, &owned, &plan.next)?;
    assert_eq!(removed.next, r"C:\Windows;C:\Tools");
    assert!(removed.added.is_empty());
    assert!(removed.changed);
    let partly = plan_user_path(true, &paths, &fresh, "\"c:\\pyrudder\\BIN\\\";C:\\Windows")?;
    assert_eq!(
        partly.next,
        "C:\\PyRudder\\shims;\"c:\\pyrudder\\BIN\\\";C:\\Windows"
    );
    assert_eq!(partly.added, vec![paths[1].clone()]);
    let unchanged = plan_user_path(true, &paths, &owned, &plan.next)?;
    assert!(!unchanged.changed);
    let foreign = PathOwnership {
        schema_version: 1,
        added: vec![r"D:\Other".to_owned()],
    };
    assert_eq!(
        plan_user_path(false, &paths, &foreign, "").err().map(|e| e.message().to_owned()),
        Some("PATH journal belongs to another installation; refusing removal".to_owned())
    );
    assert_eq!(
        plan_user_path(true, &paths, &fresh, &"a".repeat(32_766)).err().map(|e| e.message().to_owned()),
        Some("Resulting user PATH exceeds the Windows limit".to_owned())
    );
    Ok(())
}

#[test]
fn installation_journal_names_carry_their_attempt() {
    let attempt = InstallationId::new(0xabc).unwrap();
    let name = journal_file_name("cpython-3.12.1-x64", attempt);
    assert_eq!(name, "install-cpython-3.12.1-x64-00000000000000000000000000000abc.json");
    assert_eq!(staging_directory_name(attempt), ".pyrudder-staging-00000000000000000000000000000abc");
    assert_eq!(staging_attempt(&name, "cpython-3.12.1-x64").unwrap(), attempt);
    let upper = "install-cpython-3.12.1-x64-00000000000000000000000000000ABC.json";
    assert_eq!(staging_attempt(upper, "cpython-3.12.1-x64").unwrap(), attempt);
}

#[test]
fn journals_of_other_runtimes_or_shapes_are_refused() {
    let owner_message = "Recovery journal filename does not match its runtime owner";
    let name = "install-cpython-3.12.1-x64-00000000000000000000000000000abc.json";
    for (filename, runtime) in [
        (name, "cpython-3.11.1-x64"),
        ("install-cpython-3.12.1-x64-00000000000000000000000000000abc.txt", "cpython-3.12.1-x64"),
        ("install-cpython-3.12.1-x64-.jso", "cpython-3.12.1-x64"),
    ] {
        let error = staging_attempt(filename, runtime).unwrap_err();
        assert_eq!(error.kind(), ErrorKind::Usage);
        assert_eq!(error.message(), owner_message);
    }
    let short = staging_attempt("install-cpython-3.12.1-x64-abc.json", "cpython-3.12.1-x64");
    assert_eq!(short.unwrap_err().kind(), ErrorKind::Usage);
    let zero = staging_attempt(
        "install-cpython-3.12.1-x64-00000000000000000000000000000000.json",
        "cpython-3.12.1-x64",
    );
    assert!(zero.is_err());
}

#[test]
fn only_install_journals_are_listed() {
    assert!(is_install_journal("install-cpython-3.12.1-x64-1.json"));
    assert!(!is_install_journal("install-.json.bak"));
    assert!(!is_install_journal("registry.json"));
    assert!(!is_install_journal("install-notes.txt"));
}

#[test]
fn discarding_staging_requires_confirmation_and_a_bare_journal_name() {
    let name = "install-cpython-3.12.1-x64-00000000000000000000000000000abc.json";
    assert!(check_discard_request(name, true).is_ok());
    for (filename, yes) in [
        (name, false),
        ("registry.json", true),
        ("install-x.txt", true),
        ("install-dir/other.json", true),
        ("install-x/../y.json", true),
    ] {
        let error = check_discard_request(filename, yes).unwrap_err();
        assert_eq!(error.kind(), ErrorKind::Usage);
        assert_eq!(
            error.message(),
            "Use recover --discard-staging <journal filename from recover> --yes"
        );
    }
}

fn system_ownership(paths: &[String; 2], added: Vec<String>) -> SystemPathOwnership {
    SystemPathOwnership {
        schema_version: 1,
        scope: "system".to_owned(),
        install_dir: paths[0].clone(),
        shims_dir: paths[1].clone(),
        added,
    }
}

#[test]
fn system_path_moves_existing_entries_and_claims_only_new_ones() -> Result<()> {
    let paths = [r"C:\PyRudder\bin".to_owned(), r"C:\PyRudder\shims".to_owned()];
    let fresh = system_ownership(&paths, Vec::new());
    let plan = plan_system_path(true, &paths, &fresh, r"C:\Windows;c:\pyrudder\SHIMS\;C:\Tools")?.unwrap();
    assert_eq!(plan.next, r"C:\Windows;C:\Tools;C:\PyRudder\bin;C:\PyRudder\shims");
    assert_eq!(plan.added, vec![paths[0].clone()]);
    assert!(plan.changed);
    let owned = system_ownership(&paths, plan.added.clone());
    let removed = plan_system_path(false, &paths, &owned, &plan.next)?.unwrap();
    assert_eq!(removed.next, r"C:\Windows;C:\Tools;C:\PyRudder\shims");
    assert!(removed.added.is_empty());
    let again = plan_system_path(true, &paths, &owned, &plan.next)?.unwrap();
    assert!(!again.changed);
    assert_eq!(again.added, vec![paths[0].clone()]);
    Ok(())
}

#[test]
fn system_path_add_then_remove_restores_the_original() -> Result<()> {
    let paths = [r"C:\PyRudder\bin".to_owned(), r"C:\PyRudder\shims".to_owned()];
    let original = r"C:\Windows;;C:\Tools";
    let plan = plan_system_path(true, &paths, &system_ownership(&paths, Vec::new()), original)?.unwrap();
    assert_eq!(plan.added, vec![paths[0].clone(), paths[1].clone()]);
    let owned = system_ownership(&paths, plan.added.clone());
    let removed = plan_system_path(false, &paths, &owned, &plan.next)?.unwrap();
    assert_eq!(removed.next, original);
    let empty = plan_system_path(true, &paths, &system_ownership(&paths, Vec::new()), "")?.unwrap();
    assert_eq!(empty.next, r"C:\PyRudder\bin;C:\PyRudder\shims");
    let back = plan_system_path(false, &paths, &system_ownership(&paths, empty.added), &empty.next)?.unwrap();
    assert_eq!(back.next, "");
    Ok(())
}

#[test]
fn system_path_refuses_foreign_journals_and_oversized_results() {
    let paths = [r"C:\PyRudder\bin".to_owned(), r"C:\PyRudder\shims".to_owned()];
    let foreign_message = "System PATH journal belongs to another installation";
    let mut wrong_scope = system_ownership(&paths, Vec::new());
    wrong_scope.scope = "user".to_owned();
    let mut wrong_dir = system_ownership(&paths, Vec::new());
    wrong_dir.install_dir = r"D:\Other\bin".to_owned();
    let stranger = system_ownership(&paths, vec![r"D:\Other".to_owned()]);
    let mut future = system_ownership(&paths, Vec::new());
    future.schema_version = 2;
    for journal in [wrong_scope, wrong_dir, stranger, future] {
        let error = plan_system_path(true, &paths, &journal, "").unwrap_err();
        assert_eq!(error.kind(), ErrorKind::Usage);
        assert_eq!(error.message(), foreign_message);
    }
    let long = "a".repeat(32_766);
    let idle = plan_system_path(false, &paths, &system_ownership(&paths, Vec::new()), &long).unwrap();
    assert!(idle.is_none());
    assert_eq!(
        plan_system_path(true, &paths, &system_ownership(&paths, Vec::new()), &long)
            .unwrap_err()
            .message(),
        "Resulting system PATH exceeds the Windows limit"
    );
}

#[test]
fn published_system_path_must_name_both_directories() {
    let paths = [r"C:\PyRudder\bin".to_owned(), r"C:\PyRudder\shims".to_owned()];
    assert!(check_published(&paths, r"C:\Windows;C:\PyRudder\bin;c:\pyrudder\shims\").is_ok());
    let error = check_published(&paths, r"C:\Windows;C:\PyRudder\bin").unwrap_err();
    assert_eq!(error.message(), "System PATH changed again; rerun the installer");
}

fn managed_runtime(id: &str, root: &str, url: &str) -> Result<RuntimeRecord> {
    RuntimeRecord::new(
        id.parse()?,
        root.to_owned(),
        vec![format!("{root}/Scripts")],
        RuntimeOrigin::Managed {
            provider: "python.org".to_owned(),
            artifact_url: url.to_owned(),
            artifact_sha256: [0; 32],
            ownership_id: InstallationId::new(1)?,
        },
    )
}

#[test]
fn configured_directories_must_not_overlap() {
    let keys: Vec<String> = ["/p/bin", "/p/config", "/p/shims", "/data/runtimes", "/data/downloads", "/cache", "/tmp/p"]
        .iter()
        .map(|k| k.to_string())
        .collect();
    assert!(check_distinct_directories(&keys).is_ok());
    let mut nested = keys.clone();
    nested[6] = "/data/runtimes/tmp".to_owned();
    let mut same = keys.clone();
    same[2] = "/p/bin".to_owned();
    for bad in [nested, same] {
        let error = check_distinct_directories(&bad).unwrap_err();
        assert_eq!(error.kind(), ErrorKind::Usage);
        assert_eq!(
            error.message(),
            "Program, config, shims, runtimes, downloads, cache and temp directories must be distinct and non-overlapping"
        );
    }
    // Component prefixes, not text prefixes, overlap.
    let apart = vec!["/p/bin".to_owned(), "/p/binaries".to_owned()];
    assert!(check_distinct_directories(&apart).is_ok());
}

#[test]
fn runtime_directories_stay_clear_of_the_manager_and_other_runtimes() {
    let protected = vec!["/p/bin".to_owned(), "/p/config".to_owned(), "/cache".to_owned()];
    assert!(check_install_directory("/data/runtimes", &protected).is_ok());
    for inside in ["/p", "/cache/python", "/p/config"] {
        let error = check_install_directory(inside, &protected).unwrap_err();
        assert_eq!(error.kind(), ErrorKind::Install);
        assert_eq!(
            error.message(),
            "Python installation directory must not overlap PyRudder's bin, config, shims, downloads, cache or temp directories"
        );
    }
    let existing = vec!["/data/runtimes/cpython-3.12.1-x64".to_owned()];
    assert!(check_new_root("/data/runtimes", "/data/runtimes/cpython-3.13.0-x64", &existing).is_ok());
    for (directory, root) in [
        ("/data/runtimes/cpython-3.12.1-x64/inner", "/data/runtimes/cpython-3.12.1-x64/inner/cpython-3.13.0-x64"),
        ("/data", "/data/runtimes"),
    ] {
        assert_eq!(
            check_new_root(directory, root, &existing).unwrap_err().message(),
            "Installation directory must not overlap an existing Python runtime"
        );
    }
}

#[test]
fn managed_roots_must_match_their_registration() -> Result<()> {
    let url = "https://www.python.org/ftp/python/3.12.1/python-3.12.1-amd64.zip";
    let record = managed_runtime("cpython-3.12.1-x64", "/r/cpython-3.12.1-x64", url)?;
    assert!(check_managed_root(&record, Some("CPython-3.12.1-X64")).is_ok());
    let message = "Managed runtime provenance and exact runtime-ID directory must match its registration";
    assert_eq!(check_managed_root(&record, Some("cpython-3.12.2-x64")).unwrap_err().message(), message);
    assert_eq!(check_managed_root(&record, None).unwrap_err().message(), message);
    let elsewhere = managed_runtime("cpython-3.12.1-x64", "/r/cpython-3.12.1-x64", "https://example.invalid/python.zip")?;
    assert_eq!(check_managed_root(&elsewhere, Some("cpython-3.12.1-x64")).unwrap_err().kind(), ErrorKind::Install);
    let qualified = managed_runtime(
        "cpython-3.12.1-x64@00000000000000000000000000000001",
        "/r/cpython-3.12.1-x64",
        url,
    )?;
    assert!(check_managed_root(&qualified, Some("cpython-3.12.1-x64@00000000000000000000000000000001")).is_err());
    Ok(())
}

#[test]
fn package_layout_marker_requires_an_in_place_bin_directory() {
    assert!(check_layout_marker(1, "in-place", Some("bin")).is_ok());
    assert!(check_layout_marker(1, "in-place", Some("BIN")).is_ok());
    for (schema, layout, name) in [
        (2, "in-place", Some("bin")),
        (1, "portable", Some("bin")),
        (1, "in-place", Some("tools")),
        (1, "in-place", None),
    ] {
        let error = check_layout_marker(schema, layout, name).unwrap_err();
        assert_eq!(error.kind(), ErrorKind::Usage);
        assert_eq!(error.message(), "Unsupported package layout; keep the bin directory intact");
    }
}

#[test]
fn owned_tree_walks_refuse_links_special_files_and_runaway_trees() {
    assert!(check_tree_depth(64, false).is_ok());
    assert_eq!(check_tree_depth(65, false).unwrap_err().message(), "Owned tree exceeds deletion depth limit");
    assert_eq!(check_tree_depth(65, true).unwrap_err().message(), "Owned tree changed during removal");

    assert_eq!(inspection_step(1, TreeEntry::File).unwrap(), false);
    assert_eq!(inspection_step(100_000, TreeEntry::Directory).unwrap(), true);
    assert_eq!(
        inspection_step(100_001, TreeEntry::File).unwrap_err().message(),
        "Owned tree exceeds deletion entry limit"
    );
    for entry in [TreeEntry::ReparsePoint, TreeEntry::Special] {
        let error = inspection_step(5, entry).unwrap_err();
        assert_eq!(error.kind(), ErrorKind::Install);
        assert_eq!(
            error.message(),
            "Owned tree contains a reparse point or special file; remove it manually before uninstalling"
        );
    }

    assert_eq!(removal_step(0, true, "PyRudder-Owner.JSON", TreeEntry::File).unwrap(), RemovalAction::Keep);
    assert_eq!(removal_step(0, false, "pyrudder-owner.json", TreeEntry::File).unwrap(), RemovalAction::Delete);
    assert_eq!(removal_step(3, true, "Lib", TreeEntry::Directory).unwrap(), RemovalAction::Descend);
    assert_eq!(
        removal_step(3, true, "link", TreeEntry::ReparsePoint).unwrap_err().message(),
        "Reparse point appeared during removal; operation stopped"
    );
    assert_eq!(
        removal_step(3, false, "pipe", TreeEntry::Special).unwrap_err().message(),
        "Special file appeared during removal"
    );
    assert_eq!(
        removal_step(100_001, true, "pyrudder-owner.json", TreeEntry::File).unwrap_err().message(),
        "Removal entry limit exceeded"
    );
}

fn pending_runtime(sha: &str) -> Result<RuntimeRecord> {
    let digest = digest_bytes(sha)?;
    RuntimeRecord::new(
        "cpython-3.12.1-x64".parse()?,
        "/r/cpython-3.12.1-x64".to_owned(),
        vec!["/r/cpython-3.12.1-x64/Scripts".to_owned()],
        RuntimeOrigin::Managed {
            provider: "python.org".to_owned(),
            artifact_url: "https://www.python.org/ftp/python/3.12.1/python-3.12.1-amd64.zip".to_owned(),
            artifact_sha256: digest,
            ownership_id: InstallationId::new(0x42)?,
        },
    )
}

#[test]
fn installation_owner_binds_the_signed_release() -> Result<()> {
    let sha = "ab".repeat(32);
    let url = "https://www.python.org/ftp/python/3.12.1/python-3.12.1-amd64.zip";
    let record = pending_runtime(&sha)?;
    let owner = installation_owner(&record, &sha.to_uppercase(), url, "/r/cpython-3.12.1-x64", true)?;
    assert_eq!(owner.schema_version, 1);
    assert_eq!(owner.runtime_id, "cpython-3.12.1-x64");
    assert_eq!(owner.ownership_id, "00000000000000000000000000000042");
    assert_eq!(owner.root, "/r/cpython-3.12.1-x64");
    assert_eq!(owner.sha256, sha.to_uppercase());
    let differs = "Pending installation provenance differs from the current signed release";
    for (digest, address, same_root) in [
        ("cd".repeat(32), url.to_owned(), true),
        (sha.clone(), "https://www.python.org/ftp/python/3.12.2/x.zip".to_owned(), true),
        (sha.clone(), url.to_owned(), false),
    ] {
        let error = installation_owner(&record, &digest, &address, "/r/x", same_root).unwrap_err();
        assert_eq!(error.kind(), ErrorKind::Install);
        assert_eq!(error.message(), differs);
    }
    assert_eq!(installation_owner(&record, "xyz", url, "/r/x", true).unwrap_err().kind(), ErrorKind::Usage);
    let external = RuntimeRecord::new(
        "cpython-3.12.1-x64@00000000000000000000000000000001".parse()?,
        "/e".to_owned(),
        vec!["/e".to_owned()],
        RuntimeOrigin::External { registered_executable: "/e/python".to_owned() },
    )?;
    assert_eq!(
        installation_owner(&external, &sha, url, "/e", true).unwrap_err().message(),
        "Expected a managed pending installation"
    );
    Ok(())
}

#[test]
fn ownership_sentinels_and_journals_must_match_their_registration() -> Result<()> {
    let sha = "ab".repeat(32);
    let record = pending_runtime(&sha)?;
    let expected = installation_owner(
        &record,
        &sha,
        "https://www.python.org/ftp/python/3.12.1/python-3.12.1-amd64.zip",
        "/r/cpython-3.12.1-x64",
        true,
    )?;
    assert!(check_owner(&expected, &expected, true).is_ok());
    let mut other = expected.clone();
    other.ownership_id = "00000000000000000000000000000043".to_owned();
    let mismatch = "Managed ownership sentinel mismatch; deletion/recovery refused";
    assert_eq!(check_owner(&other, &expected, true).unwrap_err().message(), mismatch);
    assert_eq!(check_owner(&expected, &expected, false).unwrap_err().message(), mismatch);

    let runtimes = vec![record.clone()];
    assert_eq!(journal_owner_record(&expected, &runtimes)?, &record);
    let orphan = Owner { runtime_id: "cpython-3.11.0-x64".to_owned(), ..expected.clone() };
    assert_eq!(
        journal_owner_record(&orphan, &runtimes).unwrap_err().message(),
        "Recovery requires its owning runtime registration; never infer ownership of an orphan folder"
    );
    assert!(check_journal_owner(&expected, &record, true).is_ok());
    let journal_mismatch = "Recovery journal does not match its registered owner";
    assert_eq!(check_journal_owner(&other, &record, true).unwrap_err().message(), journal_mismatch);
    assert_eq!(check_journal_owner(&expected, &record, false).unwrap_err().message(), journal_mismatch);
    let wrong_digest = Owner { sha256: "cd".repeat(32), ..expected.clone() };
    assert_eq!(check_journal_owner(&wrong_digest, &record, true).unwrap_err().message(), journal_mismatch);
    Ok(())
}

#[test]
fn release_choices_show_installed_and_pending_registrations() -> Result<()> {
    let url = "https://www.python.org/ftp/python/3.12.1/python-3.12.1-amd64.zip";
    let mut record = managed_runtime("cpython-3.12.1-x64", "/r/cpython-3.12.1-x64", url)?;
    assert_eq!(release_label("3.12.1", None), "Python 3.12.1");
    assert_eq!(release_label("3.12.1", Some(&record)), "Python 3.12.1  [未完成 / pending]");
    record.set_health(RuntimeHealth::Ready);
    assert_eq!(release_label("3.12.1", Some(&record)), "Python 3.12.1  [已安装 / installed]");
    Ok(())
}

fn configured_paths() -> pyrudder::config::PathConfig {
    pyrudder::config::PathConfig {
        install_dir: "/p/bin".to_owned(),
        runtimes_dir: "/p/runtimes".to_owned(),
        downloads_dir: "/p/downloads".to_owned(),
        cache_dir: "/p/cache".to_owned(),
        temp_dir: "/p/temp".to_owned(),
        shims_dir: "/p/shims".to_owned(),
        config_dir: "/p/config".to_owned(),
    }
}

#[test]
fn elevated_helpers_pin_every_location() -> Result<()> {
    let paths = configured_paths();
    let pinned = [
        "--home", "/p", "--config-dir", "/p/config", "--install-dir", "/p/bin", "--shims-dir", "/p/shims",
        "--runtimes-dir", "/p/runtimes", "--downloads-dir", "/p/downloads", "--cache-dir", "/p/cache",
        "--temp-dir", "/p/temp",
    ];
    let mut expected: Vec<String> = pinned.iter().map(|a| a.to_string()).collect();
    expected.extend(["__system-path", "--owner-sid", "S-1-5-21-1"].map(String::from));
    assert_eq!(elevated_arguments(&paths, ElevatedHelper::SystemPath, "S-1-5-21-1", false)?, expected);
    expected.push("--remove".to_owned());
    assert_eq!(elevated_arguments(&paths, ElevatedHelper::SystemPath, "S-1-5-21-1", true)?, expected);
    let store = elevated_arguments(&paths, ElevatedHelper::StorePath, "S-1-5-21-1", true)?;
    assert_eq!(&store[16..], ["__store-path", "--owner-sid", "S-1-5-21-1", "--restore"].map(String::from));
    let rootless = pyrudder::config::PathConfig { install_dir: "/".to_owned(), ..configured_paths() };
    assert_eq!(
        elevated_arguments(&rootless, ElevatedHelper::StorePath, "S-1-5-21-1", false).unwrap_err().message(),
        "CLI installation has no parent directory"
    );
    Ok(())
}

#[test]
fn setup_writes_every_directory_as_a_json_quoted_value() -> Result<()> {
    let paths = pyrudder::config::PathConfig {
        install_dir: r"C:\PyRudder\bin".to_owned(),
        runtimes_dir: "D:\\Py \"3\"\\runtimes".to_owned(),
        downloads_dir: "/p/downloads".to_owned(),
        cache_dir: "/p/cache\u{1}".to_owned(),
        temp_dir: "/p/temp".to_owned(),
        shims_dir: "/p/shims".to_owned(),
        config_dir: "/p/config".to_owned(),
    };
    let text = initial_config(&paths)?;
    assert_eq!(
        text,
        "schema_version = 1\n\n[paths]\n\
install_dir = \"C:\\\\PyRudder\\\\bin\"\n\
shims_dir = \"/p/shims\"\n\
runtimes_dir = \"D:\\\\Py \\\"3\\\"\\\\runtimes\"\n\
downloads_dir = \"/p/downloads\"\n\
cache_dir = \"/p/cache\\u0001\"\n\
temp_dir = \"/p/temp\"\n\
\n[commands]\nsystem_fallback = false\n"
    );
    for (key, value) in [("install_dir", &paths.install_dir), ("runtimes_dir", &paths.runtimes_dir)] {
        let quoted = serde_json::to_string(value).unwrap();
        assert!(text.contains(&format!("{key} = {quoted}\n")));
    }
    Ok(())
}

#[test]
fn configuration_edits_keep_fallback_off_and_directories_apart() {
    assert!(check_fallback_value("false").is_ok());
    for value in ["true", "False", ""] {
        let error = check_fallback_value(value).unwrap_err();
        assert_eq!(error.kind(), ErrorKind::Usage);
        assert_eq!(error.message(), "System fallback is not supported; use false / 不支持系统回退，请使用 false");
    }
    let effective: Vec<(String, String)> = [
        ("install_dir", "/p/bin"),
        ("config_dir", "/p/config"),
        ("runtimes_dir", "/data/runtimes"),
    ]
    .iter()
    .map(|(k, v)| (k.to_string(), v.to_string()))
    .collect();
    assert!(check_configured_path("runtimes_dir", "/data/python", &effective).is_ok());
    assert!(check_configured_path("runtimes_dir", "/data/runtimes/sub", &effective).is_ok());
    let error = check_configured_path("runtimes_dir", "/p/config/python", &effective).unwrap_err();
    assert_eq!(error.message(), "Configuration directories must not overlap; existing file was preserved");
    assert!(check_configured_path("cache_dir", "/p", &effective).is_err());
}

#[test]
fn external_interpreters_register_under_a_fresh_identity() -> Result<()> {
    let installation = InstallationId::new(7)?;
    let record = external_registration(
        "3.12.4",
        installation,
        "/opt/python/bin/python3",
        vec!["/opt/python/bin".to_owned()],
        Some("Work"),
    )?;
    assert_eq!(record.id().to_string(), "cpython-3.12.4-x64@00000000000000000000000000000007");
    assert_eq!(record.root(), "/opt/python/bin");
    assert!(matches!(record.health(), RuntimeHealth::Ready));
    assert_eq!(record.aliases().len(), 1);
    assert!(matches!(record.origin(), RuntimeOrigin::External { registered_executable } if registered_executable == "/opt/python/bin/python3"));
    let plain = external_registration("3.11.0", installation, "/py/python", vec!["/py/Scripts".to_owned()], None)?;
    assert!(plain.aliases().is_empty());
    assert_eq!(
        external_registration("3.13.0rc1", installation, "/py/python", vec!["/py".to_owned()], None)
            .unwrap_err()
            .kind(),
        ErrorKind::Usage
    );
    assert!(external_registration("3.12.0", installation, "python", vec!["/py".to_owned()], None).is_err());
    assert!(external_registration("3.12.0", installation, "/py/python", vec![], None).is_err());
    assert!(external_registration("3.12.0", installation, "/py/python", vec!["/py".to_owned()], Some("9bad")).is_err());
    Ok(())
}

#[test]
fn registering_a_known_root_conflicts_unless_scanning() {
    let existing = vec![Some("/A/PY".to_owned()), None];
    assert_eq!(registration_duplicate(&existing, Some("/B/PY"), false).unwrap(), false);
    assert_eq!(registration_duplicate(&existing, Some("/A/PY"), true).unwrap(), true);
    let error = registration_duplicate(&existing, Some("/A/PY"), false).unwrap_err();
    assert_eq!(error.kind(), ErrorKind::Conflict);
    assert_eq!(error.message(), "This Python root is already registered");
    // Roots whose keys cannot be taken count as the same.
    assert!(registration_duplicate(&existing, None, false).is_err());
    assert_eq!(registration_duplicate(&[Some("/A".to_owned())], None, false).unwrap(), false);
}

#[test]
fn uninstall_expects_the_owner_written_at_installation() -> Result<()> {
    let sha = "0f".repeat(32);
    let record = pending_runtime(&sha)?;
    let url = "https://www.python.org/ftp/python/3.12.1/python-3.12.1-amd64.zip";
    let written = installation_owner(&record, &sha, url, "/r/cpython-3.12.1-x64", true)?;
    let expected = registered_owner(&record, "/r/cpython-3.12.1-x64").unwrap();
    assert_eq!(expected, written);
    assert!(check_owner(&written, &expected, true).is_ok());
    let external = RuntimeRecord::new(
        "cpython-3.12.1-x64@00000000000000000000000000000001".parse()?,
        "/e".to_owned(),
        vec!["/e".to_owned()],
        RuntimeOrigin::External { registered_executable: "/e/python".to_owned() },
    )?;
    assert!(registered_owner(&external, "/e").is_none());
    Ok(())
}

#[test]
fn recovery_requires_exact_registered_parent_and_attempt_identity() -> Result<()> {
    let parent = "/tmp/custom";
    let attempt = InstallationId::new(9)?;
    let runtime_id = "cpython-3.13.7-x64";
    let staging = format!("{parent}/.pyrudder-staging-{}", attempt.to_string());
    let filename = format!("install-{runtime_id}-{}.json", attempt.to_string());
    // The journal's staging must be exactly the directory its filename names.
    let bound = |filename: &str, parent: &str, staging: &str| -> Result<()> {
        let expected = expected_staging(filename, runtime_id, parent)?;
        if expected != staging {
            return Err(Error::new(ErrorKind::Usage, "Recovery deletion requires the exact staging directory bound to this journal; older unbound journals require manual inspection"));
        }
        Ok(())
    };
    bound(&filename, parent, &staging)?;
    assert!(bound(&filename, "/tmp/other", &staging).is_err());
    assert!(bound(&format!("install-{runtime_id}-{:032x}.json", 10), parent, &staging).is_err());
    let legacy = format!("{parent}/.pyrudder-staging-random");
    assert!(bound(&filename, parent, &legacy).is_err());
    assert_eq!(
        expected_staging("install-cpython-3.12.0-x64-00000000000000000000000000000009.json", runtime_id, parent)
            .unwrap_err()
            .message(),
        "Recovery journal filename does not match its runtime owner"
    );
    Ok(())
}
