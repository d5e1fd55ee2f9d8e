//! Repair journals for the per-user Store PATH entry.

use pyrudder::store_path::{
    check_machine_installation, check_publication, decode_store_value, Journal, PathValue, Phase,
    ValueKind,
};
use pyrudder::ErrorKind;
use pyrudder::Result;

const TARGET: &str = r"C:\Users\owner\AppData\Local\Microsoft\WindowsApps";

fn value(text: &str) -> PathValue {
    PathValue {
        kind: ValueKind::ExpandString,
        text: text.to_owned(),
    }
}

fn journal() -> Journal {
    let before = value(&format!(r"C:\Windows;{TARGET};C:\Tools"));
    Journal {
        schema_version: 1,
        owner_sid: "S-1-5-21-1-2-3-1001".into(),
        target: TARGET.into(),
        install_dir: r"D:\PyRudder\bin".into(),
        shims_dir: r"D:\PyRudder\shims".into(),
        after: before.without(TARGET),
        before,
        phase: Phase::Applied,
    }
}

#[test]
fn exact_restoration_only_reinserts_the_target() -> Result<()> {
    let journal = journal();
    journal.validate(&journal.owner_sid, TARGET)?;
    assert_eq!(
        journal.restoration(Some(&journal.after))?,
        Some(journal.before.clone())
    );
    Ok(())
}

#[test]
fn edited_path_keeps_all_current_entries_and_type() -> Result<()> {
    let journal = journal();
    let current = PathValue {
        kind: ValueKind::String,
        text: r"C:\New;C:\Windows;C:\Tools;C:\Other".into(),
    };
    let restored = journal.restoration(Some(&current))?;
    assert_eq!(
        restored,
        Some(PathValue {
            kind: ValueKind::String,
            text: format!(r"C:\New;C:\Windows;{TARGET};C:\Tools;C:\Other"),
        })
    );
    assert!(journal.restoration(Some(&journal.before))?.is_none());
    Ok(())
}

#[test]
fn forged_snapshot_cannot_change_unrelated_entries() {
    let mut journal = journal();
    journal.after.text = r"C:\Injected".into();
    assert!(journal.validate(&journal.owner_sid, TARGET).is_err());
    let mut journal = self::journal();
    journal.target = r"C:\Different".into();
    assert!(journal.validate(&journal.owner_sid, TARGET).is_err());
}

#[test]
fn ambiguous_pending_repair_is_not_restored() {
    let mut journal = journal();
    journal.phase = Phase::Pending;
    assert!(journal.restoration(Some(&value(r"C:\Changed"))).is_err());
}

#[test]
fn other_users_and_variable_based_machine_entries_are_untouched() {
    let before = value(&format!(
        r"%LOCALAPPDATA%\Microsoft\WindowsApps;C:\Users\other\AppData\Local\Microsoft\WindowsApps;{TARGET};C:\Tools"
    ));
    assert_eq!(
        before.without(TARGET).text,
        r"%LOCALAPPDATA%\Microsoft\WindowsApps;C:\Users\other\AppData\Local\Microsoft\WindowsApps;C:\Tools"
    );
}

#[test]
fn empty_path_components_survive_exact_restoration() -> Result<()> {
    for text in [
        format!(";{TARGET}"),
        format!("{TARGET};"),
        format!(";{TARGET};"),
    ] {
        let mut journal = journal();
        journal.before = value(&text);
        journal.after = journal.before.without(TARGET);
        journal.validate(&journal.owner_sid, TARGET)?;
        assert_eq!(
            journal.restoration(Some(&journal.after))?,
            Some(journal.before.clone())
        );
    }
    Ok(())
}

#[test]
fn publication_may_change_the_target_entry_only() {
    let current = value(&format!(r"C:\Windows;{TARGET};C:\Tools"));
    let removed = value(r"C:\Windows;C:\Tools");
    assert!(check_publication(Some(&current), &removed, TARGET, false).is_ok());
    assert!(check_publication(Some(&removed), &current, TARGET, true).is_ok());
    let message = "Store PATH repair would modify unrelated machine entries";
    let reordered = value(r"C:\Tools;C:\Windows");
    let still_there = value(&format!(r"C:\Windows;{TARGET};C:\Tools"));
    let retyped = PathValue { kind: ValueKind::String, text: removed.text.clone() };
    for (next, restore) in [(&reordered, false), (&still_there, false), (&retyped, false), (&removed, true)] {
        let error = check_publication(Some(&current), next, TARGET, restore).unwrap_err();
        assert_eq!(error.kind(), ErrorKind::Usage);
        assert_eq!(error.message(), message);
    }
    assert!(check_publication(None, &value(TARGET), TARGET, true).is_ok());
    assert!(check_publication(None, &value(r"C:\Windows"), TARGET, false).is_err());
    let invalid = value("C:\\Windows\0");
    assert_eq!(
        check_publication(Some(&current), &invalid, TARGET, false).unwrap_err().kind(),
        ErrorKind::Usage
    );
}

#[test]
fn store_repair_requires_this_installation_in_machine_path() {
    let bin = r"D:\PyRudder\bin";
    let shims = r"D:\PyRudder\shims";
    let published = value(r"C:\Windows;d:\pyrudder\BIN\;D:\PyRudder\shims");
    assert!(check_machine_installation(Some(&published), bin, shims).is_ok());
    assert_eq!(
        check_machine_installation(None, bin, shims).unwrap_err().message(),
        "The machine PATH is empty after PyRudder publication"
    );
    let partial = value(r"C:\Windows;D:\PyRudder\bin");
    let error = check_machine_installation(Some(&partial), bin, shims).unwrap_err();
    assert_eq!(error.kind(), ErrorKind::Usage);
    assert_eq!(error.message(), "This installation's bin and shims must be present in machine PATH");
}

fn utf16_bytes(text: &str) -> Vec<u8> {
    text.encode_utf16().chain(Some(0)).flat_map(u16::to_le_bytes).collect()
}

#[test]
fn registry_values_decode_into_bounded_path_values() {
    let decoded = decode_store_value(Some(ValueKind::ExpandString), &utf16_bytes(r"C:\Windows;%USERPROFILE%")).unwrap();
    assert_eq!(decoded.kind, ValueKind::ExpandString);
    assert_eq!(decoded.text, r"C:\Windows;%USERPROFILE%");
    let cases: [(Option<ValueKind>, Vec<u8>, &str); 5] = [
        (None, utf16_bytes("C:\\"), "PATH or profile has an unsupported registry type"),
        (Some(ValueKind::String), vec![0x41], "PATH or profile has invalid UTF-16 data"),
        (Some(ValueKind::String), vec![0; 65_536], "PATH or profile has invalid UTF-16 data"),
        (Some(ValueKind::String), vec![0x00, 0xD8, 0x41, 0x00], "PATH or profile is not Unicode"),
        (
            Some(ValueKind::String),
            [utf16_bytes("a"), utf16_bytes("b")].concat(),
            "Store PATH repair encountered invalid or oversized PATH data",
        ),
    ];
    for (kind, bytes, message) in cases {
        let error = decode_store_value(kind, &bytes).unwrap_err();
        assert_eq!(error.kind(), ErrorKind::Usage);
        assert_eq!(error.message(), message);
    }
    assert_eq!(decode_store_value(Some(ValueKind::String), &[]).unwrap().text, "");
}
