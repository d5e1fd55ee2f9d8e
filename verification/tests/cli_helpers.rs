//! Pure helpers behind the command-line front end: update versions, download
//! progress, the installation-directory prompt, and path display.

use std::io::{BufRead, Cursor, ErrorKind as IoErrorKind};

use pyrudder::display::display_path;
use pyrudder::installer::{stable_version, validate_versions};
use pyrudder::progress::whole_percent;
use pyrudder::prompts::{directory_input, LineRead};
use pyrudder::{ErrorKind, Result};

/// Reads one line the way the interactive prompt does and lets the library decide.
fn read_directory_input(input: &mut impl BufRead) -> Result<Option<String>> {
    let mut value = String::new();
    let read = match input.read_line(&mut value) {
        Ok(0) => LineRead::Eof,
        Ok(_) => LineRead::Line(value),
        Err(error) if error.kind() == IoErrorKind::Interrupted => LineRead::Interrupted,
        Err(error) => LineRead::Failed(error.to_string()),
    };
    directory_input(read)
}

#[test]
fn upgrade_version_matrix() {
    assert!(validate_versions("0.1.0", "0.1.0").is_ok());
    assert!(validate_versions("0.1.0", "0.1.1").is_ok());
    assert!(validate_versions("0.1.9", "0.1.10").is_ok());
    for previous in [
        "0.1.0-alpha.8",
        "0.0.9",
        "0.01.0",
        "1.2",
        "1.2.3.4",
        "4294967296.0.0",
    ] {
        assert!(validate_versions(previous, "1.2.3").is_err(), "{previous}");
    }
    assert!(validate_versions("0.1.1", "0.1.0").is_err());
}

#[test]
fn stable_versions_report_each_refusal() {
    assert_eq!(stable_version("0.1.10").ok(), Some([0, 1, 10]));
    assert_eq!(stable_version("4294967295.0.7").ok(), Some([u32::MAX, 0, 7]));
    let shape = stable_version("1.2").err().expect("two components are refused");
    assert_eq!(shape.kind(), ErrorKind::Usage);
    assert!(shape.message().starts_with("In-place updates require stable versions"));
    let malformed = stable_version("0.01.0").err().expect("leading zero is refused");
    assert!(malformed.message().starts_with("Unsupported installer version"));
    let empty = stable_version("0..1").err().expect("empty component is refused");
    assert!(empty.message().starts_with("Unsupported installer version"));
    let range = stable_version("4294967296.0.0").err().expect("overflow is refused");
    assert!(range.message().starts_with("Installer version is out of range"));
    let order = validate_versions("0.2.0", "0.1.9").err().expect("downgrade is refused");
    assert!(order.message().starts_with("Downgrades and pre-0.1.0 updates"));
    let early = validate_versions("0.0.9", "0.1.0").err().expect("pre-0.1.0 is refused");
    assert!(early.message().starts_with("Downgrades and pre-0.1.0 updates"));
}

#[test]
fn percentage_does_not_round_incomplete_downloads_up_to_one_hundred() {
    assert_eq!(whole_percent(999, Some(1_000)), 99);
    assert_eq!(whole_percent(1_000, Some(1_000)), 100);
    assert_eq!(whole_percent(1_000, None), 0);
}

#[test]
fn percentage_saturates_and_ignores_empty_totals() {
    assert_eq!(whole_percent(5, Some(0)), 0);
    assert_eq!(whole_percent(2_000, Some(1_000)), 100);
    assert_eq!(whole_percent(u64::MAX, Some(u64::MAX)), 1);
    assert_eq!(whole_percent(u64::MAX / 50, Some(u64::MAX)), 1);
}

#[test]
fn eof_does_not_accept_the_default_directory() -> Result<()> {
    assert_eq!(read_directory_input(&mut Cursor::new(b""))?, None);
    assert_eq!(
        read_directory_input(&mut Cursor::new(b"D:\\unfinished"))?,
        None
    );
    Ok(())
}

#[test]
fn enter_accepts_the_default_directory() -> Result<()> {
    for line in ["\n", "\r\n", "   \r\n"] {
        assert_eq!(
            read_directory_input(&mut Cursor::new(line))?,
            Some(String::new())
        );
    }
    Ok(())
}

#[test]
fn control_characters_cancel_instead_of_selecting_a_directory() -> Result<()> {
    for line in ["\u{3}\n", "\u{4}\n", "\u{1a}\r\n"] {
        assert_eq!(read_directory_input(&mut Cursor::new(line))?, None);
    }
    Ok(())
}

#[test]
fn unicode_and_spaces_in_confirmed_paths_are_preserved() -> Result<()> {
    assert_eq!(
        read_directory_input(&mut Cursor::new(" D:\\开发目录\\Python 3.14\r\n"))?,
        Some("D:\\开发目录\\Python 3.14".to_owned())
    );
    Ok(())
}

#[test]
fn prompt_failures_and_interruptions_are_reported() {
    assert_eq!(directory_input(LineRead::Interrupted).ok(), Some(None));
    let error = directory_input(LineRead::Failed("device lost".to_owned()))
        .err()
        .expect("a failed read is an error");
    assert_eq!(error.kind(), ErrorKind::Usage);
    assert_eq!(
        error.message(),
        "Cannot read installation prompt / 无法读取安装输入: device lost"
    );
    assert_eq!(
        directory_input(LineRead::Line("\u{3000}D:\\x\u{a0}\n".to_owned())).ok(),
        Some(Some("D:\\x".to_owned()))
    );
}

#[test]
fn readable_paths_preserve_drive_unc_and_other_namespaces() {
    assert_eq!(display_path(r"\\?\C:\Python"), r"C:\Python");
    assert_eq!(display_path(r"\\?\UNC\server\Python"), r"\\server\Python");
    assert_eq!(
        display_path(r"\\?\Volume{abc}\Python"),
        r"\\?\Volume{abc}\Python"
    );
    assert_eq!(display_path("C:\\Python\ninjected"), r"C:\Python\ninjected");
}

#[test]
fn displayed_paths_escape_every_control_character() {
    assert_eq!(display_path("a\tb\rc"), r"a\tb\rc");
    assert_eq!(display_path("x\u{1b}[31m"), r"x\u{1b}[31m");
    assert_eq!(display_path("x\u{7}y\u{9f}"), r"x\u{7}y\u{9f}");
    assert_eq!(display_path(r"\\?\1:\x"), r"\\?\1:\x");
    assert_eq!(display_path("\\\\?\\UNC\\a\u{0}"), r"\\a\u{0}");
}
