//! The user configuration document: reading it, answering `config get`, and editing
//! one item of one section for `config set` / `config unset`.
use vstd::prelude::*;

use crate::config::{
    choose_config_dir, config_default, config_file_path, config_hint, first_of, merge_configuration,
    merge_outcome, missing_root_hint, missing_root_message, normalized_by, select_path,
    with_config_hint, Configuration, ConfigEnvironment, ConfigOverrides,
    check_document, config_text, config_text_of, opt_text, ConfigDocument, PathOverrides,
    MAX_CONFIG_BYTES,
};
use crate::error::{invalid_input, Error, ErrorKind, Result};
use crate::settings::{
    check_fallback_value, config_key, fallback_message, key_parts, known_key, path_item,
    unknown_key_message,
};
use crate::paths::spec_path_join;
use crate::state::{decode_text, decoded_text, StateFileSystem};
use crate::text::{chars_eq_str, chars_of};

verus! {

/// A TOML value as the `toml` crate holds it; opaque here.
#[verifier::external_type_specification]
#[verifier::external_body]
pub struct ExTomlValue(toml::Value);

/// What `toml::from_str::<toml::Value>` makes of a text: the document, or `None` when
/// the text is not TOML.
pub uninterp spec fn toml_parsed(text: Seq<char>) -> Option<toml::Value>;

/// What `toml::to_string_pretty` writes for a value, or `None` when it cannot encode it.
pub uninterp spec fn toml_encoded(value: toml::Value) -> Option<Seq<char>>;

/// The entries of a value that is a TOML table, by key; `None` for any other value.
pub uninterp spec fn toml_table(value: toml::Value) -> Option<Map<Seq<char>, toml::Value>>;

/// The TOML string value `toml::Value::String` holds for a text.
pub uninterp spec fn toml_text(text: Seq<char>) -> toml::Value;

/// The TOML boolean value `toml::Value::Boolean` holds for a flag.
pub uninterp spec fn toml_flag(flag: bool) -> toml::Value;

/// The entry of a table under a key; `None` when the value is no table or has no such
/// entry.
pub open spec fn table_entry(value: toml::Value, key: Seq<char>) -> Option<toml::Value> {
    match toml_table(value) {
        Some(m) => if m.dom().contains(key) {
            Some(m[key])
        } else {
            None
        },
        None => None,
    }
}

/// `toml::from_str::<toml::Value>`: the parsed document, `None` where the crate reports
/// a parse error. The result is a function of the text alone.
#[verifier::external_body]
fn toml_parse(text: &str) -> (r: Option<toml::Value>)
    ensures
        r == toml_parsed(text@),
{
    toml::from_str::<toml::Value>(text).ok()
}

/// `toml::to_string_pretty`: the text the crate writes for a value, `None` where it
/// reports an encoding error. The result is a function of the value alone.
#[verifier::external_body]
fn toml_encode(value: &toml::Value) -> (r: Option<String>)
    ensures
        match r {
            Some(s) => toml_encoded(*value) == Some(s@),
            None => toml_encoded(*value) is None,
        },
{
    toml::to_string_pretty(value).ok()
}

/// `toml::Value::is_table`: whether the value is a table.
#[verifier::external_body]
fn toml_is_table(value: &toml::Value) -> (r: bool)
    ensures
        r == toml_table(*value) is Some,
{
    value.is_table()
}

/// `toml::Value::get` with a key, cloned: the entry of a table under that key; `None`
/// when the value is no table or has no such entry.
#[verifier::external_body]
fn toml_get(value: &toml::Value, key: &str) -> (r: Option<toml::Value>)
    ensures
        r == match toml_table(*value) {
            Some(m) => if m.dom().contains(key@) {
                Some(m[key@])
            } else {
                None
            },
            None => None,
        },
{
    value.get(key).cloned()
}

/// `toml::Value::Table(toml::Table::new())`: a table without entries.
#[verifier::external_body]
fn toml_empty_table() -> (r: toml::Value)
    ensures
        toml_table(r) == Some(Map::<Seq<char>, toml::Value>::empty()),
{
    toml::Value::Table(toml::Table::new())
}

/// `toml::Table::insert` on a value that is a table: the entry under `key` becomes `item`,
/// the others stay.
#[verifier::external_body]
fn toml_insert(value: &mut toml::Value, key: &str, item: toml::Value)
    requires
        toml_table(*old(value)) is Some,
    ensures
        toml_table(*final(value)) == Some(toml_table(*old(value))->0.insert(key@, item)),
{
    if let Some(table) = value.as_table_mut() {
        table.insert(key.to_string(), item);
    }
}

/// `toml::Table::remove` on a value that is a table: the entry under `key` is gone, the
/// others stay.
#[verifier::external_body]
fn toml_remove(value: &mut toml::Value, key: &str)
    requires
        toml_table(*old(value)) is Some,
    ensures
        toml_table(*final(value)) == Some(toml_table(*old(value))->0.remove(key@)),
{
    if let Some(table) = value.as_table_mut() {
        table.remove(key);
    }
}

/// `toml::Value::String`: the string value for a text.
#[verifier::external_body]
fn toml_string(text: &str) -> (r: toml::Value)
    ensures
        r == toml_text(text@),
{
    toml::Value::String(text.to_string())
}

/// `toml::Value::Boolean`: the boolean value for a flag.
#[verifier::external_body]
fn toml_boolean(flag: bool) -> (r: toml::Value)
    ensures
        r == toml_flag(flag),
{
    toml::Value::Boolean(flag)
}

/// The text a TOML string value holds (`toml::Value::as_str`); `None` for any other value.
pub uninterp spec fn toml_string_of(value: toml::Value) -> Option<Seq<char>>;

/// The number a TOML integer value holds (`toml::Value::as_integer`); `None` for any
/// other value.
pub uninterp spec fn toml_integer_of(value: toml::Value) -> Option<i64>;

/// The flag a TOML boolean value holds (`toml::Value::as_bool`); `None` for any other
/// value.
pub uninterp spec fn toml_bool_of(value: toml::Value) -> Option<bool>;

/// `toml::Value::as_str`, copied: the text of a string value, `None` for any other value.
#[verifier::external_body]
fn toml_as_str(value: &toml::Value) -> (r: Option<String>)
    ensures
        match r {
            Some(s) => toml_string_of(*value) == Some(s@),
            None => toml_string_of(*value) is None,
        },
{
    value.as_str().map(str::to_owned)
}

/// `toml::Value::as_integer`: the number of an integer value, `None` for any other value.
#[verifier::external_body]
fn toml_as_integer(value: &toml::Value) -> (r: Option<i64>)
    ensures
        r == toml_integer_of(*value),
{
    value.as_integer()
}

/// `toml::Value::as_bool`: the flag of a boolean value, `None` for any other value.
#[verifier::external_body]
fn toml_as_bool(value: &toml::Value) -> (r: Option<bool>)
    ensures
        r == toml_bool_of(*value),
{
    value.as_bool()
}

/// `toml::Table::keys` of a value that is a table, copied: exactly the keys of its
/// entries (`toml_table`).
#[verifier::external_body]
fn toml_keys(value: &toml::Value) -> (r: Vec<String>)
    requires
        toml_table(*value) is Some,
    ensures
        forall|i: int| 0 <= i < r@.len() ==> toml_table(*value)->0.dom().contains(#[trigger] r@[i]@),
        forall|k: Seq<char>|
            toml_table(*value)->0.dom().contains(k) ==> exists|i: int| 0 <= i < r@.len() && #[trigger] r@[i]@ == k,
{
    match value.as_table() {
        Some(table) => table.keys().cloned().collect(),
        None => Vec::new(),
    }
}

// ---------------------------------------------------------------------------
// Reading the document
// ---------------------------------------------------------------------------

/// The document assumed when no configuration file exists yet.
pub open spec fn default_document_text() -> Seq<char> {
    "schema_version = 1\n"@
}

pub open spec fn not_utf8_message() -> Seq<char> {
    "Configuration must be UTF-8"@
}

pub open spec fn invalid_toml_message() -> Seq<char> {
    "Invalid configuration TOML"@
}

pub open spec fn invalid_default_message() -> Seq<char> {
    "Invalid default configuration"@
}

/// A usage error with the given message.
pub open spec fn usage_error<T>(r: Result<T>, message: Seq<char>) -> bool {
    r matches Err(e) && e.spec_kind() == ErrorKind::Usage && e.spec_message() == message
}

pub open spec fn bytes_view(existing: Option<&[u8]>) -> Option<Seq<u8>> {
    match existing {
        Some(b) => Some(b@),
        None => None,
    }
}

/// The document a configuration file holds (the default document when there is no
/// file), or `None` when its bytes are no UTF-8 TOML.
pub open spec fn document_of(existing: Option<Seq<u8>>) -> Option<toml::Value> {
    match existing {
        None => toml_parsed(default_document_text()),
        Some(b) => match decoded_text(b) {
            Some(t) => toml_parsed(t),
            None => None,
        },
    }
}

/// Why a configuration file yields no document.
pub open spec fn document_error(existing: Option<Seq<u8>>) -> Seq<char> {
    match existing {
        None => invalid_default_message(),
        Some(b) => if decoded_text(b) is None {
            not_utf8_message()
        } else {
            invalid_toml_message()
        },
    }
}

/// Reads the configuration document from the bytes of `config.toml`, or from the
/// default document when the file does not exist.
pub fn config_document(existing: Option<&[u8]>) -> (r: Result<toml::Value>)
    ensures
        match document_of(bytes_view(existing)) {
            Some(d) => r == Ok::<toml::Value, Error>(d),
            None => usage_error(r, document_error(bytes_view(existing))),
        },
{
    match existing {
        None => match toml_parse("schema_version = 1\n") {
            Some(d) => Ok(d),
            None => Err(invalid_input("Invalid default configuration")),
        },
        Some(bytes) => {
            let text = match decode_text(bytes) {
                Some(t) => t,
                None => return Err(invalid_input("Configuration must be UTF-8")),
            };
            match toml_parse(text.as_str()) {
                Some(d) => Ok(d),
                None => Err(invalid_input("Invalid configuration TOML")),
            }
        },
    }
}

// ---------------------------------------------------------------------------
// config get
// ---------------------------------------------------------------------------

/// What `config get` shows for a key the file does not set.
pub open spec fn unset_marker() -> Seq<char> {
    "<default or environment override>"@
}

/// The value a document holds for `section.item`, or the marker string when it holds none.
pub open spec fn item_of(document: toml::Value, section: Seq<char>, item: Seq<char>) -> toml::Value {
    match table_entry(document, section) {
        Some(s) => match table_entry(s, item) {
            Some(v) => v,
            None => toml_text(unset_marker()),
        },
        None => toml_text(unset_marker()),
    }
}

/// Answers `config get`: the whole document without a key, else the value of that key
/// in the file (or a marker saying defaults or the environment decide it).
pub fn config_get(existing: Option<&[u8]>, key: Option<&str>) -> (r: Result<toml::Value>)
    ensures
        match document_of(bytes_view(existing)) {
            None => usage_error(r, document_error(bytes_view(existing))),
            Some(d) => match key {
                None => r == Ok::<toml::Value, Error>(d),
                Some(k) => if known_key(key_parts(k@).0, key_parts(k@).1) {
                    r == Ok::<toml::Value, Error>(item_of(d, key_parts(k@).0, key_parts(k@).1))
                } else {
                    usage_error(r, unknown_key_message())
                },
            },
        },
{
    let document = match config_document(existing) {
        Ok(d) => d,
        Err(e) => return Err(e),
    };
    let k = match key {
        None => return Ok(document),
        Some(k) => k,
    };
    let (section, item) = match config_key(k) {
        Ok(parts) => parts,
        Err(e) => return Err(e),
    };
    let found = match toml_get(&document, section.as_str()) {
        Some(s) => toml_get(&s, item.as_str()),
        None => None,
    };
    match found {
        Some(v) => Ok(v),
        None => Ok(toml_string("<default or environment override>")),
    }
}

// ---------------------------------------------------------------------------
// config set / config unset
// ---------------------------------------------------------------------------

pub open spec fn root_not_table_message() -> Seq<char> {
    "Configuration root must be a table"@
}

pub open spec fn section_not_table_message() -> Seq<char> {
    "Configuration section must be a table"@
}

pub open spec fn cannot_encode_message() -> Seq<char> {
    "Cannot encode configuration"@
}

pub open spec fn too_large_message() -> Seq<char> {
    "Configuration exceeds 65536 bytes"@
}

/// The TOML value stored for a setting: `false` for the `commands` section (the only
/// value it accepts), the text itself for a directory.
pub open spec fn stored_value(section: Seq<char>, value: Seq<char>) -> toml::Value {
    if section == "commands"@ {
        toml_flag(false)
    } else {
        toml_text(value)
    }
}

/// The entries of `section` in a document: those of its table, or none when the
/// document has no such section.
pub open spec fn section_entries(document: toml::Value, section: Seq<char>) -> Map<Seq<char>, toml::Value> {
    match table_entry(document, section) {
        Some(s) => match toml_table(s) {
            Some(m) => m,
            None => Map::empty(),
        },
        None => Map::empty(),
    }
}

/// A section's entries after setting (`Some`) or removing (`None`) one item.
pub open spec fn edited_entries(
    entries: Map<Seq<char>, toml::Value>,
    item: Seq<char>,
    value: Option<toml::Value>,
) -> Map<Seq<char>, toml::Value> {
    match value {
        Some(v) => entries.insert(item, v),
        None => entries.remove(item),
    }
}

/// `edited` is `document` with item `item` of `section` set to `value` or removed; the
/// section is created when missing, every other entry stays.
pub open spec fn edited_as(
    document: toml::Value,
    edited: toml::Value,
    section: Seq<char>,
    item: Seq<char>,
    value: Option<toml::Value>,
) -> bool {
    exists|s: toml::Value|
        #![trigger toml_table(s)]
        {
            &&& toml_table(s) == Some(edited_entries(section_entries(document, section), item, value))
            &&& toml_table(document) matches Some(root)
            &&& toml_table(edited) == Some(root.insert(section, s))
        }
}

/// Whether a value rejected for `section` stops the edit before the document is touched.
pub open spec fn value_refused(section: Seq<char>, value: Option<Seq<char>>) -> bool {
    value matches Some(v) && section == "commands"@ && v != "false"@
}

/// The stored value an edit writes, if any.
pub open spec fn stored_option(section: Seq<char>, value: Option<Seq<char>>) -> Option<toml::Value> {
    match value {
        Some(v) => Some(stored_value(section, v)),
        None => None,
    }
}

pub open spec fn str_view(value: Option<&str>) -> Option<Seq<char>> {
    match value {
        Some(v) => Some(v@),
        None => None,
    }
}

/// Sets (`Some`) or removes (`None`) item `item` of `section` in a configuration
/// document and returns the text of the new file. `commands` accepts only `false`;
/// directories are stored as given. The root and the section must be tables, the
/// new text must encode, and it must fit in `MAX_CONFIG_BYTES` bytes of UTF-8.
pub fn config_edit(document: toml::Value, section: &str, item: &str, value: Option<&str>) -> (r: Result<String>)
    ensures
        value_refused(section@, str_view(value)) ==> usage_error(r, fallback_message()),
        !value_refused(section@, str_view(value)) && toml_table(document) is None ==> usage_error(
            r,
            root_not_table_message(),
        ),
        !value_refused(section@, str_view(value)) && toml_table(document) is Some && (table_entry(
            document,
            section@,
        ) matches Some(s) && toml_table(s) is None) ==> usage_error(r, section_not_table_message()),
        !value_refused(section@, str_view(value)) && toml_table(document) is Some && !(table_entry(
            document,
            section@,
        ) matches Some(s) && toml_table(s) is None) ==> exists|edited: toml::Value|
            {
                &&& #[trigger] edited_as(document, edited, section@, item@, stored_option(section@, str_view(value)))
                &&& match toml_encoded(edited) {
                    None => usage_error(r, cannot_encode_message()),
                    Some(t) => if vstd::utf8::encode_utf8(t).len() <= MAX_CONFIG_BYTES {
                        r matches Ok(text) && text@ == t
                    } else {
                        usage_error(r, too_large_message())
                    },
                }
            },
{
    let commands = chars_eq_str(chars_of(section).as_slice(), "commands");
    let stored = match value {
        Some(v) => {
            if commands {
                match check_fallback_value(v) {
                    Ok(()) => {},
                    Err(e) => return Err(e),
                }
                Some(toml_boolean(false))
            } else {
                Some(toml_string(v))
            }
        },
        None => None,
    };
    if !toml_is_table(&document) {
        return Err(invalid_input("Configuration root must be a table"));
    }
    let mut entries = match toml_get(&document, section) {
        Some(s) => s,
        None => toml_empty_table(),
    };
    if !toml_is_table(&entries) {
        return Err(invalid_input("Configuration section must be a table"));
    }
    match stored {
        Some(v) => toml_insert(&mut entries, item, v),
        None => toml_remove(&mut entries, item),
    }
    let ghost sec = entries;
    let mut edited = document;
    toml_insert(&mut edited, section, entries);
    proof {
        assert(toml_table(sec) == Some(
            edited_entries(section_entries(document, section@), item@, stored_option(section@, str_view(value))),
        ));
        assert(edited_as(document, edited, section@, item@, stored_option(section@, str_view(value))));
    }
    let text = match toml_encode(&edited) {
        Some(t) => t,
        None => return Err(invalid_input("Cannot encode configuration")),
    };
    let n = text.as_str().as_bytes().len();
    if n > MAX_CONFIG_BYTES {
        return Err(invalid_input("Configuration exceeds 65536 bytes"));
    }
    Ok(text)
}

// ---------------------------------------------------------------------------
// The document's fields
// ---------------------------------------------------------------------------

/// The key sets the document allows: at its top, in `[paths]`, in `[commands]`.
pub enum KeySet {
    Top,
    Paths,
    Commands,
}

pub open spec fn allowed_key(set: KeySet, k: Seq<char>) -> bool {
    match set {
        KeySet::Top => k == "schema_version"@ || k == "paths"@ || k == "commands"@,
        KeySet::Paths => path_item(k) || k == "config_dir"@,
        KeySet::Commands => k == "system_fallback"@,
    }
}

/// Every key of a table belongs to `set`.
pub open spec fn keys_within(m: Map<Seq<char>, toml::Value>, set: KeySet) -> bool {
    forall|k: Seq<char>| #[trigger] m.dom().contains(k) ==> allowed_key(set, k)
}

fn key_allowed(set: &KeySet, k: &str) -> (r: bool)
    ensures
        r == allowed_key(*set, k@),
{
    let cs = chars_of(k);
    match set {
        KeySet::Top => chars_eq_str(cs.as_slice(), "schema_version") || chars_eq_str(cs.as_slice(), "paths")
            || chars_eq_str(cs.as_slice(), "commands"),
        KeySet::Paths => chars_eq_str(cs.as_slice(), "install_dir") || chars_eq_str(cs.as_slice(), "shims_dir")
            || chars_eq_str(cs.as_slice(), "runtimes_dir") || chars_eq_str(cs.as_slice(), "downloads_dir")
            || chars_eq_str(cs.as_slice(), "cache_dir") || chars_eq_str(cs.as_slice(), "temp_dir")
            || chars_eq_str(cs.as_slice(), "config_dir"),
        KeySet::Commands => chars_eq_str(cs.as_slice(), "system_fallback"),
    }
}

/// Whether a table value has only keys of `set`.
fn table_keys_within(value: &toml::Value, set: &KeySet) -> (r: bool)
    requires
        toml_table(*value) is Some,
    ensures
        r == keys_within(toml_table(*value)->0, *set),
{
    let keys = toml_keys(value);
    let ghost m = toml_table(*value)->0;
    let mut i: usize = 0;
    while i < keys.len()
        invariant
            i <= keys@.len(),
            m == toml_table(*value)->0,
            forall|j: int| 0 <= j < keys@.len() ==> m.dom().contains(#[trigger] keys@[j]@),
            forall|j: int| 0 <= j < i ==> allowed_key(*set, #[trigger] keys@[j]@),
        decreases keys.len() - i,
    {
        if !key_allowed(set, keys[i].as_str()) {
            proof {
                assert(m.dom().contains(keys@[i as int]@));
            }
            return false;
        }
        i = i + 1;
    }
    proof {
        assert forall|k: Seq<char>| #[trigger] m.dom().contains(k) implies allowed_key(*set, k) by {
            let j = choose|j: int| 0 <= j < keys@.len() && #[trigger] keys@[j]@ == k;
        }
    }
    true
}

/// The entries of the section `name` of a root table, none when it is absent (or not
/// a table).
pub open spec fn section_of(root: Map<Seq<char>, toml::Value>, name: Seq<char>) -> Map<Seq<char>, toml::Value> {
    if root.dom().contains(name) && toml_table(root[name]) is Some {
        toml_table(root[name])->0
    } else {
        Map::empty()
    }
}

/// A section that is absent, or a table with keys of `set` only.
pub open spec fn section_ok(root: Map<Seq<char>, toml::Value>, name: Seq<char>, set: KeySet) -> bool {
    !root.dom().contains(name) || (toml_table(root[name]) is Some && keys_within(
        toml_table(root[name])->0,
        set,
    ))
}

/// An optional text setting: absent (`Some(None)`), a string (`Some(Some(text))`), or
/// of another type (`None`).
pub open spec fn text_setting(m: Map<Seq<char>, toml::Value>, key: Seq<char>) -> Option<Option<Seq<char>>> {
    if m.dom().contains(key) {
        match toml_string_of(m[key]) {
            Some(t) => Some(Some(t)),
            None => None,
        }
    } else {
        Some(None)
    }
}

/// An optional flag setting, `false` when absent; `None` when of another type.
pub open spec fn flag_setting(m: Map<Seq<char>, toml::Value>, key: Seq<char>) -> Option<bool> {
    if m.dom().contains(key) {
        toml_bool_of(m[key])
    } else {
        Some(false)
    }
}

/// The schema number, when present as an integer that fits in `u32`.
pub open spec fn schema_setting(root: Map<Seq<char>, toml::Value>) -> Option<u32> {
    if root.dom().contains("schema_version"@) {
        match toml_integer_of(root["schema_version"@]) {
            Some(n) => if 0 <= n <= u32::MAX {
                Some(n as u32)
            } else {
                None
            },
            None => None,
        }
    } else {
        None
    }
}

/// The settings of a configuration document whose shape is right: a table with only
/// `schema_version` (required, a `u32`), `[paths]` (optional strings for the seven
/// directories) and `[commands]` (an optional `system_fallback` flag), nothing else.
pub open spec fn document_fields(v: toml::Value, d: ConfigDocument) -> bool {
    match toml_table(v) {
        None => false,
        Some(root) => {
            let paths = section_of(root, "paths"@);
            let commands = section_of(root, "commands"@);
            &&& keys_within(root, KeySet::Top)
            &&& section_ok(root, "paths"@, KeySet::Paths)
            &&& section_ok(root, "commands"@, KeySet::Commands)
            &&& schema_setting(root) == Some(d.schema_version)
            &&& text_setting(paths, "install_dir"@) == Some(opt_text(d.paths.install_dir))
            &&& text_setting(paths, "runtimes_dir"@) == Some(opt_text(d.paths.runtimes_dir))
            &&& text_setting(paths, "downloads_dir"@) == Some(opt_text(d.paths.downloads_dir))
            &&& text_setting(paths, "cache_dir"@) == Some(opt_text(d.paths.cache_dir))
            &&& text_setting(paths, "temp_dir"@) == Some(opt_text(d.paths.temp_dir))
            &&& text_setting(paths, "shims_dir"@) == Some(opt_text(d.paths.shims_dir))
            &&& text_setting(paths, "config_dir"@) == Some(opt_text(d.paths.config_dir))
            &&& flag_setting(commands, "system_fallback"@) == Some(d.system_fallback)
        },
    }
}

/// Whether a value has the shape of a configuration document.
pub open spec fn document_shaped(v: toml::Value) -> bool {
    exists|d: ConfigDocument| #[trigger] document_fields(v, d)
}

pub open spec fn document_shape_message() -> Seq<char> {
    "Invalid configuration TOML, unknown field, or missing schema_version"@
}

fn text_field(m: &toml::Value, key: &str) -> (r: Result<Option<String>>)
    requires
        toml_table(*m) is Some,
    ensures
        match text_setting(toml_table(*m)->0, key@) {
            Some(t) => r matches Ok(o) && opt_text(o) == t,
            None => usage_error(r, document_shape_message()),
        },
{
    match toml_get(m, key) {
        None => Ok(None),
        Some(v) => match toml_as_str(&v) {
            Some(s) => Ok(Some(s)),
            None => Err(invalid_input("Invalid configuration TOML, unknown field, or missing schema_version")),
        },
    }
}

/// A section of the document as a table value (an empty one when it is absent), or
/// `None` when it is present but no table with keys of `set` only.
fn section_value(root: &toml::Value, name: &str, set: &KeySet) -> (r: Option<toml::Value>)
    requires
        toml_table(*root) is Some,
    ensures
        match r {
            Some(s) => section_ok(toml_table(*root)->0, name@, *set) && toml_table(s) == Some(
                section_of(toml_table(*root)->0, name@),
            ),
            None => !section_ok(toml_table(*root)->0, name@, *set),
        },
{
    match toml_get(root, name) {
        None => Some(toml_empty_table()),
        Some(s) => {
            if !toml_is_table(&s) {
                return None;
            }
            if !table_keys_within(&s, set) {
                return None;
            }
            Some(s)
        },
    }
}

/// Reads the settings of a configuration document; any deviation from its shape is
/// one usage error.
pub fn document_settings(v: &toml::Value) -> (r: Result<ConfigDocument>)
    ensures
        match r {
            Ok(d) => document_fields(*v, d),
            Err(e) => !document_shaped(*v) && e.spec_kind() == ErrorKind::Usage && e.spec_message()
                == document_shape_message(),
        },
{
    let bad = "Invalid configuration TOML, unknown field, or missing schema_version";
    if !toml_is_table(v) || !table_keys_within(v, &KeySet::Top) {
        return Err(invalid_input(bad));
    }
    let ghost root = toml_table(*v)->0;
    let schema = match toml_get(v, "schema_version") {
        None => return Err(invalid_input(bad)),
        Some(n) => match toml_as_integer(&n) {
            Some(k) => k,
            None => return Err(invalid_input(bad)),
        },
    };
    if schema < 0 || schema > 4294967295 {
        return Err(invalid_input(bad));
    }
    let paths = match section_value(v, "paths", &KeySet::Paths) {
        Some(p) => p,
        None => return Err(invalid_input(bad)),
    };
    let commands = match section_value(v, "commands", &KeySet::Commands) {
        Some(c) => c,
        None => return Err(invalid_input(bad)),
    };
    let install_dir = match text_field(&paths, "install_dir") { Ok(t) => t, Err(e) => return Err(e) };
    let runtimes_dir = match text_field(&paths, "runtimes_dir") { Ok(t) => t, Err(e) => return Err(e) };
    let downloads_dir = match text_field(&paths, "downloads_dir") { Ok(t) => t, Err(e) => return Err(e) };
    let cache_dir = match text_field(&paths, "cache_dir") { Ok(t) => t, Err(e) => return Err(e) };
    let temp_dir = match text_field(&paths, "temp_dir") { Ok(t) => t, Err(e) => return Err(e) };
    let shims_dir = match text_field(&paths, "shims_dir") { Ok(t) => t, Err(e) => return Err(e) };
    let config_dir = match text_field(&paths, "config_dir") { Ok(t) => t, Err(e) => return Err(e) };
    let system_fallback = match toml_get(&commands, "system_fallback") {
        None => false,
        Some(f) => match toml_as_bool(&f) {
            Some(b) => b,
            None => return Err(invalid_input(bad)),
        },
    };
    let d = ConfigDocument {
        schema_version: schema as u32,
        paths: PathOverrides {
            install_dir,
            runtimes_dir,
            downloads_dir,
            cache_dir,
            temp_dir,
            shims_dir,
            config_dir,
        },
        system_fallback,
    };
    proof {
        assert(document_fields(*v, d));
    }
    Ok(d)
}

/// What the checks after decoding make of a document's settings (`check_document`).
pub open spec fn document_check(d: ConfigDocument, r: Result<()>) -> bool {
    if d.schema_version != 1 {
        usage_error(r, "Unsupported configuration schema_version; expected 1"@)
    } else if d.paths.config_dir is Some {
        usage_error(r, "config_dir cannot redirect its own configuration file"@) && r->Err_0.spec_hint()
            == Some("Set PYRUDDER_CONFIG_DIR or a command-line config directory instead"@)
    } else {
        r is Ok
    }
}

/// What a configuration file's bytes yield: at most `MAX_CONFIG_BYTES` bytes of UTF-8
/// (one leading BOM ignored) holding a TOML document of the right shape, with schema 1
/// and no `config_dir`; each failure is a usage error.
pub open spec fn config_file_outcome(bytes: Seq<u8>, r: Result<ConfigDocument>) -> bool {
    if bytes.len() > MAX_CONFIG_BYTES {
        usage_error(r, "Configuration exceeds 65536 bytes"@)
    } else {
        match decoded_text(bytes) {
            None => usage_error(r, "Configuration must be UTF-8"@),
            Some(t) => match toml_parsed(config_text_of(t)) {
                None => usage_error(r, document_shape_message()),
                Some(v) => if !document_shaped(v) {
                    usage_error(r, document_shape_message())
                } else {
                    match r {
                        Ok(d) => document_fields(v, d) && document_check(d, Ok(())),
                        Err(e) => exists|d: ConfigDocument|
                            #[trigger] document_fields(v, d) && document_check(d, Err(e)),
                    }
                },
            },
        }
    }
}

/// Decodes and checks the bytes of a configuration file.
pub fn parse_config(bytes: &[u8]) -> (r: Result<ConfigDocument>)
    ensures
        config_file_outcome(bytes@, r),
{
    let text = match config_text(bytes) {
        Ok(t) => t,
        Err(e) => return Err(e),
    };
    let value = match toml_parse(text.as_str()) {
        Some(v) => v,
        None => return Err(invalid_input("Invalid configuration TOML, unknown field, or missing schema_version")),
    };
    let document = match document_settings(&value) {
        Ok(d) => d,
        Err(e) => return Err(e),
    };
    let checked = check_document(&document);
    proof {
        assert(document_check(document, checked));
    }
    match checked {
        Ok(()) => Ok(document),
        Err(e) => Err(e),
    }
}

// ---------------------------------------------------------------------------
// Loading the configuration
// ---------------------------------------------------------------------------

/// The answer for the configuration directory: without a CLI, environment or default
/// choice, the missing-location usage error; else the file system's normalization of
/// the choice.
pub open spec fn config_dir_answer<F: StateFileSystem>(
    fs: &F,
    environment: ConfigEnvironment,
    cli: ConfigOverrides,
    a: Result<String>,
) -> bool {
    match first_of(
        opt_text(cli.paths.config_dir),
        opt_text(environment.paths.config_dir),
        None,
        config_default(environment),
    ) {
        None => a matches Err(e) && e.spec_kind() == ErrorKind::Usage && e.spec_message()
            == missing_root_message() && e.spec_hint() == Some(missing_root_hint()),
        Some(p) => normalized_by(fs, p, a),
    }
}

/// One way loading can go, through the answers of the file system: the configuration
/// directory `dir`, the read of `config.toml` in it (`file`, at most
/// `MAX_CONFIG_BYTES`), the file's decoding, and the merge.
pub open spec fn load_step<F: StateFileSystem>(
    fs: &F,
    environment: ConfigEnvironment,
    cli: ConfigOverrides,
    dir: Result<String>,
    file: &str,
    read: Result<Option<Vec<u8>>>,
    parsed: Result<ConfigDocument>,
    loaded: Option<(String, ConfigDocument)>,
    r: Result<Configuration>,
) -> bool {
    &&& config_dir_answer(fs, environment, cli, dir)
    &&& match dir {
        Err(e) => r == Err::<Configuration, Error>(e),
        Ok(d) => {
            &&& file@ == spec_path_join(d@, "config.toml"@)
            &&& call_ensures(F::read_file, (fs, file, MAX_CONFIG_BYTES), read)
            &&& match read {
                Err(e) => r == Err::<Configuration, Error>(e),
                Ok(None) => merge_outcome(fs, environment, cli, d@, None, r),
                Ok(Some(bytes)) => {
                    &&& config_file_outcome(bytes@, parsed)
                    &&& match parsed {
                        Err(e) => r matches Err(x) && x.spec_kind() == e.spec_kind() && x.spec_message()
                            == e.spec_message() && x.spec_hint() == Some(config_hint(file@)),
                        Ok(doc) => loaded matches Some((f, dd)) && f@ == file@ && dd == doc
                            && merge_outcome(fs, environment, cli, d@, loaded, r),
                    }
                },
            }
        },
    }
}

/// Loads the user configuration: selects and normalizes the configuration directory
/// (CLI > environment > default, never the file itself), reads its `config.toml` once,
/// decodes it, and merges CLI > environment > file > defaults.
pub fn load_configuration<F: StateFileSystem>(
    fs: &F,
    environment: &ConfigEnvironment,
    cli: &ConfigOverrides,
) -> (r: Result<Configuration>)
    ensures
        exists|
            dir: Result<String>,
            file: &str,
            read: Result<Option<Vec<u8>>>,
            parsed: Result<ConfigDocument>,
            loaded: Option<(String, ConfigDocument)>,
        | #[trigger] load_step(fs, *environment, *cli, dir, file, read, parsed, loaded, r),
{
    let choice = choose_config_dir(environment, cli);
    let dir = select_path(fs, &choice);
    let ghost gdir = dir;
    let config_dir = match dir {
        Ok(d) => d,
        Err(e) => {
            let r = Err(e);
            proof {
                let file: &str = arbitrary();
                assert(load_step(fs, *environment, *cli, gdir, file, Ok(None), arbitrary(), None, r));
            }
            return r;
        },
    };
    let config_file = config_file_path(config_dir.as_str());
    let file = config_file.as_str();
    let read = fs.read_file(file, MAX_CONFIG_BYTES);
    let ghost gread = read;
    proof {
        assert(call_ensures(F::read_file, (fs, file, MAX_CONFIG_BYTES), read));
    }
    let bytes = match read {
        Ok(Some(b)) => b,
        Ok(None) => {
            let r = merge_configuration(fs, environment, cli, config_dir, None);
            proof {
                assert(load_step(fs, *environment, *cli, gdir, file, gread, arbitrary(), None, r));
            }
            return r;
        },
        Err(e) => {
            let r = Err(e);
            proof {
                assert(load_step(fs, *environment, *cli, gdir, file, gread, arbitrary(), None, r));
            }
            return r;
        },
    };
    let parsed = parse_config(bytes.as_slice());
    let ghost gparsed = parsed;
    match parsed {
        Err(e) => {
            let r = Err(with_config_hint(e, file));
            proof {
                assert(load_step(fs, *environment, *cli, gdir, file, gread, gparsed, None, r));
            }
            r
        },
        Ok(document) => {
            let ghost doc = document;
            let loaded = Some((config_file.clone(), document));
            let ghost gloaded = loaded;
            let r = merge_configuration(fs, environment, cli, config_dir, loaded);
            proof {
                assert(load_step(fs, *environment, *cli, gdir, file, gread, gparsed, gloaded, r));
            }
            r
        },
    }
}

} // verus!
