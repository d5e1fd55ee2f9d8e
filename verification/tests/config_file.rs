//! Reading, querying and editing the user configuration document.

use pyrudder::config_file::{config_document, config_edit, config_get};
use pyrudder::ErrorKind;

fn parsed(text: &str) -> toml::Value {
    toml::from_str::<toml::Value>(text).expect("valid TOML")
}

fn usage_message<T: std::fmt::Debug>(result: pyrudder::Result<T>) -> String {
    let error = result.expect_err("an error");
    assert_eq!(error.kind(), ErrorKind::Usage);
    error.message().to_owned()
}

#[test]
fn missing_file_reads_as_the_default_document() {
    let document = config_document(None).expect("default document");
    assert_eq!(document, parsed("schema_version = 1\n"));
    assert_eq!(config_get(None, None).expect("whole document"), document);
}

#[test]
fn get_returns_the_stored_item_or_the_default_marker() {
    let file = b"schema_version = 1\n[paths]\nruntimes_dir = 'D:/runtimes'\n";
    assert_eq!(
        config_get(Some(file), Some("runtimes_dir")).expect("stored"),
        toml::Value::String("D:/runtimes".into())
    );
    assert_eq!(
        config_get(Some(file), Some("paths.cache_dir")).expect("unset"),
        toml::Value::String("<default or environment override>".into())
    );
    assert_eq!(
        config_get(Some(file), Some("commands.system_fallback")).expect("no section"),
        toml::Value::String("<default or environment override>".into())
    );
}

#[test]
fn get_rejects_unknown_keys_and_unreadable_files() {
    assert_eq!(
        usage_message(config_get(None, Some("paths.config_dir"))),
        "Unknown configuration key; config_dir is chosen outside its own file"
    );
    assert_eq!(
        usage_message(config_get(Some(&[0xff, 0xfe]), None)),
        "Configuration must be UTF-8"
    );
    assert_eq!(
        usage_message(config_get(Some(b"[paths"), Some("install_dir"))),
        "Invalid configuration TOML"
    );
}

#[test]
fn set_stores_a_directory_and_keeps_other_entries() {
    let document = parsed("schema_version = 1\n[paths]\ncache_dir = 'C:/cache'\n");
    let text = config_edit(document, "paths", "runtimes_dir", Some("D:/runtimes")).expect("edited");
    assert!(text.len() <= 65_536);
    let written = parsed(&text);
    assert_eq!(written["schema_version"], toml::Value::Integer(1));
    assert_eq!(written["paths"]["cache_dir"], toml::Value::String("C:/cache".into()));
    assert_eq!(written["paths"]["runtimes_dir"], toml::Value::String("D:/runtimes".into()));
}

#[test]
fn set_creates_a_missing_section_and_unset_removes_only_the_item() {
    let text = config_edit(parsed("schema_version = 1\n"), "commands", "system_fallback", Some("false"))
        .expect("edited");
    assert_eq!(parsed(&text)["commands"]["system_fallback"], toml::Value::Boolean(false));
    let document = parsed("[paths]\ncache_dir = 'C:/cache'\ntemp_dir = 'C:/temp'\n");
    let text = config_edit(document, "paths", "cache_dir", None).expect("edited");
    let written = parsed(&text);
    assert!(written["paths"].get("cache_dir").is_none());
    assert_eq!(written["paths"]["temp_dir"], toml::Value::String("C:/temp".into()));
}

#[test]
fn set_refuses_system_fallback_and_malformed_documents() {
    assert_eq!(
        usage_message(config_edit(parsed(""), "commands", "system_fallback", Some("true"))),
        "System fallback is not supported; use false / 不支持系统回退，请使用 false"
    );
    assert_eq!(
        usage_message(config_edit(toml::Value::Integer(3), "paths", "cache_dir", None)),
        "Configuration root must be a table"
    );
    assert_eq!(
        usage_message(config_edit(parsed("paths = 1\n"), "paths", "cache_dir", Some("C:/c"))),
        "Configuration section must be a table"
    );
}

#[test]
fn set_refuses_a_file_beyond_the_size_limit() {
    let long = "x".repeat(70_000);
    assert_eq!(
        usage_message(config_edit(parsed(""), "paths", "cache_dir", Some(&long))),
        "Configuration exceeds 65536 bytes"
    );
}
