//! Upgrade journals: which entries recovery accepts, how each phase answers a request,
//! the restore order, the backup inventory and the planning of a new backup.

use pyrudder::commands::CommandCaseMapper;
use pyrudder::recovery::{
    backup_places, check_backup_item, check_journal_entries, check_journal_header, phase_after,
    plan_backup_entries, restore_order, transaction_step, JournalEntry, Phase, Request, Step,
    MAX_FILE, MAX_TOTAL,
};
use pyrudder::{ErrorKind, Result};

struct AsciiMapper;
impl CommandCaseMapper for AsciiMapper {
    fn uppercase(&self, name: &str) -> Result<String> {
        Ok(name.to_ascii_uppercase())
    }
}

struct BrokenMapper;
impl CommandCaseMapper for BrokenMapper {
    fn uppercase(&self, _name: &str) -> Result<String> {
        Err(pyrudder::Error::new(ErrorKind::Internal, "mapping failed"))
    }
}

const FIXED: [&str; 22] = [
    "bin/pyrudder.exe",
    "bin/pyrudder-shim-console.exe",
    "bin/pyrudder-shim-gui.exe",
    "bin/pyrudder-layout.json",
    "README.md",
    "README_EN.md",
    "LICENSE",
    "NOTICE",
    "THIRD-PARTY-NOTICES.txt",
    "BUILD-INFO.json",
    "SBOM.cdx.json",
    "SHA256SUMS.txt",
    "assets/pyrudder-logo.svg",
    "assets/pyrudder-logo.png",
    "assets/banner.txt",
    "unins000.exe",
    "unins000.dat",
    "bin/pyrudder-location.json",
    "config/pyrudder-location.json",
    "shims/pyrudder-location.json",
    "shims/pyrudder-publication.json",
    "config/registry.json",
];

fn digest(c: char) -> String {
    std::iter::repeat(c).take(64).collect()
}

fn empty(relative: &str) -> JournalEntry {
    JournalEntry { relative: relative.to_owned(), sha256: None, size: 0 }
}

fn stored(relative: &str, size: u64) -> JournalEntry {
    JournalEntry { relative: relative.to_owned(), sha256: Some(digest('a')), size }
}

/// The entries a current journal lists, all absent before the upgrade.
fn current() -> Vec<JournalEntry> {
    let mut entries: Vec<_> = FIXED.iter().map(|name| empty(name)).collect();
    entries.push(empty("README_ZH.md"));
    entries
}

/// Distinct path keys, one per entry, as a case-folding platform derives them.
fn keys(entries: &[JournalEntry]) -> Vec<String> {
    entries.iter().map(|entry| format!("/root/{}", entry.relative.to_ascii_uppercase())).collect()
}

fn check(entries: &[JournalEntry]) -> Result<u64> {
    check_journal_entries(entries, &keys(entries), &AsciiMapper)
}

fn message(result: Result<u64>) -> String {
    result.unwrap_err().message().to_owned()
}

#[test]
fn current_journal_is_accepted_with_its_total_size() {
    let mut entries = current();
    entries[0] = stored("bin/pyrudder.exe", 1000);
    entries[4] = stored("README.md", 24);
    assert_eq!(check(&entries).unwrap(), 1024);
}

#[test]
fn legacy_journal_without_the_chinese_readme_is_accepted() {
    let mut entries = current();
    entries.pop();
    assert_eq!(check(&entries).unwrap(), 0);
}

#[test]
fn owned_shim_entries_are_accepted() {
    let mut entries = current();
    entries.push(stored("shims/python.exe", 10));
    entries.push(empty("shims/pyrudder-dispatch.exe"));
    assert_eq!(check(&entries).unwrap(), 10);
}

#[test]
fn unknown_files_are_outside_the_allowlist() {
    let mut entries = current();
    entries.push(empty("README_FR.md"));
    let error = check(&entries).unwrap_err();
    assert_eq!(error.kind(), ErrorKind::Install);
    assert_eq!(error.message(), "File outside the installer recovery allowlist");
    assert!(error.hint().is_some());
}

#[test]
fn journal_traversal_is_rejected_before_any_restore() {
    let mut entries = current();
    entries.push(empty("shims/../../unrelated.exe"));
    let error = check(&entries).unwrap_err();
    assert_eq!(error.kind(), ErrorKind::Usage);
    assert_eq!(error.message(), "Invalid Windows command name");
}

#[test]
fn shim_entries_follow_the_shim_name_rules() {
    let mut entries = current();
    entries.push(empty("shims/python"));
    assert_eq!(message(check(&entries)), "Invalid upgrade shim filename");
    let mut entries = current();
    entries.push(empty("shims/pyrudder.exe"));
    assert_eq!(message(check(&entries)), "Reserved filename in upgrade shim ownership");
}

#[test]
fn a_failing_case_mapping_is_reported() {
    let mut entries = current();
    entries.push(empty("shims/python.exe"));
    let error = check_journal_entries(&entries, &keys(&entries), &BrokenMapper).unwrap_err();
    assert_eq!(error.kind(), ErrorKind::Internal);
    assert_eq!(error.message(), "mapping failed");
    // Without shim entries the mapping is never consulted.
    assert_eq!(check_journal_entries(&current(), &keys(&current()), &BrokenMapper).unwrap(), 0);
}

#[test]
fn unsound_records_are_refused() {
    let invalid = "Invalid or duplicate installer recovery entry";
    let mut duplicate = current();
    duplicate.push(empty("LICENSE"));
    assert_eq!(message(check(&duplicate)), invalid);

    let mut same_key = current();
    let mut same_keys = keys(&same_key);
    same_keys[1] = same_keys[0].clone();
    same_key[1] = empty("bin/pyrudder-shim-console.exe");
    assert_eq!(
        check_journal_entries(&same_key, &same_keys, &AsciiMapper).unwrap_err().message(),
        invalid
    );

    let mut too_large = current();
    too_large[0] = stored("bin/pyrudder.exe", MAX_FILE + 1);
    assert_eq!(message(check(&too_large)), invalid);

    let mut sized_without_digest = current();
    sized_without_digest[0] = JournalEntry { relative: "bin/pyrudder.exe".into(), sha256: None, size: 5 };
    assert_eq!(message(check(&sized_without_digest)), invalid);

    let mut bad_digest = current();
    bad_digest[0] = JournalEntry {
        relative: "bin/pyrudder.exe".into(),
        sha256: Some("xyz".into()),
        size: 1,
    };
    assert_eq!(message(check(&bad_digest)), invalid);

    let mut largest = current();
    largest[0] = stored("bin/pyrudder.exe", MAX_FILE);
    assert_eq!(check(&largest).unwrap(), MAX_FILE);
}

#[test]
fn missing_or_oversized_allowlists_are_refused() {
    let incomplete = "Incomplete or oversized installer recovery allowlist";
    let mut missing = current();
    missing.retain(|entry| entry.relative != "README_EN.md");
    assert_eq!(message(check(&missing)), incomplete);

    let mut oversized = current();
    for (index, name) in FIXED.iter().take(17).enumerate() {
        oversized[index] = stored(name, MAX_FILE);
    }
    assert!(17 * MAX_FILE > MAX_TOTAL);
    assert_eq!(message(check(&oversized)), incomplete);

    let mut at_limit = current();
    for (index, name) in FIXED.iter().take(16).enumerate() {
        at_limit[index] = stored(name, MAX_FILE);
    }
    assert_eq!(check(&at_limit).unwrap(), MAX_TOTAL);
}

#[test]
fn journal_header_must_match() {
    assert!(check_journal_header(1, true, 23, "0.1.0").is_ok());
    assert!(check_journal_header(1, true, 22, "1.2.3").is_ok());
    for (schema, same_root, count, version) in [
        (2, true, 23, "0.1.0"),
        (1, false, 23, "0.1.0"),
        (1, true, 21, "0.1.0"),
        (1, true, 131_105, "0.1.0"),
        (1, true, 23, "0.0.9"),
        (1, true, 23, "0.1.0-rc1"),
    ] {
        let error = check_journal_header(schema, same_root, count, version).unwrap_err();
        assert_eq!(error.kind(), ErrorKind::Install);
        assert_eq!(error.message(), "Mismatched installer upgrade journal");
    }
}

#[test]
fn each_phase_answers_each_request() {
    assert!(matches!(transaction_step(Request::Prepare, Phase::Committed), Ok(Step::Discard)));
    for phase in [Phase::Preparing, Phase::Prepared, Phase::Restoring, Phase::RolledBack] {
        assert_eq!(
            transaction_step(Request::Prepare, phase).unwrap_err().message(),
            "An unfinished installer upgrade must be recovered first"
        );
    }
    assert!(matches!(transaction_step(Request::Recover, Phase::Preparing), Ok(Step::Discard)));
    assert!(matches!(transaction_step(Request::Recover, Phase::Committed), Ok(Step::Discard)));
    assert!(matches!(transaction_step(Request::Recover, Phase::RolledBack), Ok(Step::Report)));
    assert!(matches!(transaction_step(Request::Recover, Phase::Prepared), Ok(Step::Restore)));
    assert!(matches!(transaction_step(Request::Recover, Phase::Restoring), Ok(Step::Restore)));
    assert!(matches!(transaction_step(Request::Acknowledge, Phase::RolledBack), Ok(Step::Discard)));
    for phase in [Phase::Preparing, Phase::Prepared, Phase::Restoring, Phase::Committed] {
        assert_eq!(
            transaction_step(Request::Acknowledge, phase).unwrap_err().message(),
            "Installer registry recovery has not been acknowledged"
        );
    }
    assert!(matches!(transaction_step(Request::Commit, Phase::Prepared), Ok(Step::Finalize)));
    assert!(matches!(transaction_step(Request::Commit, Phase::Committed), Ok(Step::Discard)));
    for phase in [Phase::Preparing, Phase::Restoring, Phase::RolledBack] {
        let error = transaction_step(Request::Commit, phase).unwrap_err();
        assert_eq!(error.kind(), ErrorKind::Install);
        assert_eq!(error.message(), "Installer upgrade is not ready to commit");
    }
}

#[test]
fn routing_record_is_restored_last() {
    let entries = vec![
        empty("bin/pyrudder.exe"),
        empty("config/registry.json"),
        empty("README.md"),
        empty("shims/python.exe"),
    ];
    assert_eq!(restore_order(&entries), vec![0, 2, 3, 1]);
    assert_eq!(restore_order(&[]), Vec::<usize>::new());
}

#[test]
fn backup_inventory_allows_only_journal_and_indexed_blobs() {
    let entries = vec![stored("bin/pyrudder.exe", 3), empty("README.md"), stored("LICENSE", 4)];
    assert!(check_backup_item(&entries, 0, Some("journal.json")).is_ok());
    assert!(check_backup_item(&entries, 1, Some("000000.bak")).is_ok());
    assert!(check_backup_item(&entries, 2, Some("000002.bak")).is_ok());
    for name in [Some("000001.bak"), Some("000003.bak"), Some("notes.txt"), None] {
        let error = check_backup_item(&entries, 0, name).unwrap_err();
        assert_eq!(error.message(), "Unknown files in installer backup; nothing was removed");
    }
    assert!(check_backup_item(&entries, 131_105, Some("journal.json")).is_err());
}

#[test]
fn backup_places_list_fixed_files_then_shims() {
    let places = backup_places(&["PYTHON.EXE".to_owned(), "PIP.EXE".to_owned()]).unwrap();
    assert_eq!(places.len(), 25);
    assert_eq!(places[0], "bin/pyrudder.exe");
    assert_eq!(places[21], "config/registry.json");
    assert_eq!(places[22], "README_ZH.md");
    assert_eq!(places[23], "shims/PYTHON.EXE");
    assert_eq!(places[24], "shims/PIP.EXE");
    let many: Vec<String> = (0..131_081).map(|i| format!("S{i}.EXE")).collect();
    assert_eq!(backup_places(&many).unwrap().len(), 131_105 - 1);
    let too_many: Vec<String> = (0..131_082).map(|i| format!("S{i}.EXE")).collect();
    assert_eq!(
        backup_places(&too_many).unwrap_err().message(),
        "Too many installer backup entries"
    );
}

#[test]
fn planned_entries_record_what_was_found() {
    let places = vec!["README.md".to_owned(), "shims/PYTHON.EXE".to_owned()];
    let existing = vec![Some((digest('b'), 7)), None];
    let entries = plan_backup_entries(&places, &existing, &[]).unwrap();
    assert_eq!(entries[0].relative, "README.md");
    assert_eq!(entries[0].sha256.as_deref(), Some(digest('b').as_str()));
    assert_eq!(entries[0].size, 7);
    assert_eq!(entries[1].sha256, None);
    assert_eq!(entries[1].size, 0);
}

#[test]
fn modified_owned_shim_blocks_preparation_without_creating_backup() {
    let places = vec!["shims/PYTHON.EXE".to_owned(), "shims/pyrudder-location.json".to_owned()];
    let owned = vec![("PYTHON.EXE".to_owned(), vec![digest('c'), digest('d')])];
    let found = vec![Some((digest('d'), 3)), Some((digest('e'), 4))];
    assert_eq!(plan_backup_entries(&places, &found, &owned).unwrap().len(), 2);
    let foreign = vec![Some((digest('e'), 3)), None];
    let error = plan_backup_entries(&places, &foreign, &owned).unwrap_err();
    assert_eq!(error.kind(), ErrorKind::Install);
    assert_eq!(error.message(), "Modified or foreign shim cannot be backed up as owned");
}

#[test]
fn planned_backups_stay_within_the_total_limit() {
    let places: Vec<String> = FIXED.iter().take(17).map(|name| name.to_string()).collect();
    let found: Vec<_> = places.iter().map(|_| Some((digest('a'), MAX_FILE))).collect();
    assert_eq!(
        plan_backup_entries(&places, &found, &[]).unwrap_err().message(),
        "Installer backup exceeds the bounded recovery size limit"
    );
    assert_eq!(plan_backup_entries(&places[..16], &found[..16], &[]).unwrap().len(), 16);
}

#[test]
fn planned_journal_passes_recovery_checks() {
    let names = vec!["PYTHON.EXE".to_owned(), "PYTHONW.EXE".to_owned()];
    let places = backup_places(&names).unwrap();
    let mut found: Vec<Option<(String, u64)>> = places.iter().map(|_| None).collect();
    found[0] = Some((digest('a'), 100));
    found[23] = Some((digest('f'), 9));
    let owned = vec![("PYTHON.EXE".to_owned(), vec![digest('f')])];
    let entries = plan_backup_entries(&places, &found, &owned).unwrap();
    assert_eq!(check(&entries).unwrap(), 109);
}

#[test]
fn recovery_repeats_old_version_until_installer_acknowledges_it() {
    let first = transaction_step(Request::Recover, Phase::Prepared).unwrap();
    assert!(matches!(first, Step::Restore));
    let rolled_back = phase_after(first, Phase::Prepared).unwrap();
    assert_eq!(rolled_back, Phase::RolledBack);
    for _ in 0..2 {
        let again = transaction_step(Request::Recover, rolled_back).unwrap();
        assert!(matches!(again, Step::Report));
        assert_eq!(phase_after(again, rolled_back), Some(Phase::RolledBack));
    }
    assert!(transaction_step(Request::Commit, rolled_back).is_err());
    let done = transaction_step(Request::Acknowledge, rolled_back).unwrap();
    assert_eq!(phase_after(done, rolled_back), None);
    let committed = phase_after(Step::Finalize, Phase::Prepared).unwrap();
    assert_eq!(committed, Phase::Committed);
    assert!(matches!(transaction_step(Request::Commit, committed), Ok(Step::Discard)));
    assert!(matches!(transaction_step(Request::Recover, committed), Ok(Step::Discard)));
}

#[test]
fn preparing_and_committed_recovery_do_not_request_registry_changes() {
    // Recovery of a backup that was still being prepared, or of a committed upgrade,
    // only removes the backup: nothing is restored and no old version is reported.
    for phase in [Phase::Preparing, Phase::Committed] {
        let step = transaction_step(Request::Recover, phase).unwrap();
        assert!(matches!(step, Step::Discard));
        assert_eq!(phase_after(step, phase), None);
    }
}

#[test]
fn optional_readme_does_not_allow_unknown_files_or_missing_legacy_entries() {
    let mut unknown = current();
    unknown.push(empty("README_FR.md"));
    assert!(check(&unknown).is_err());
    let mut missing_legacy = current();
    missing_legacy.retain(|entry| entry.relative != "README_EN.md");
    assert!(check(&missing_legacy).is_err());
    assert!(check(&current()).is_ok());
}
