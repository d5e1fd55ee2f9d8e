//! Rules of the `config` command: which keys exist and which changes are refused.
use vstd::prelude::*;

use crate::config::PathConfig;
use crate::error::{invalid_input, ErrorKind, Result};
use crate::paths::{paths_overlap, spec_paths_overlap};
use crate::runtime::{RuntimeOrigin, RuntimeRecord};
use crate::text::{
    chars_eq_str, chars_of, find_char, hex_char, index_of, push_str, slice_chars, string_of,
};

verus! {

/// The section and item a key names: `section.item` split at the first dot, or an
/// item of `paths` when there is no dot.
pub open spec fn key_parts(key: Seq<char>) -> (Seq<char>, Seq<char>) {
    let k = index_of(key, '.');
    if k < 0 {
        ("paths"@, key)
    } else {
        (key.take(k), key.skip(k + 1))
    }
}

pub open spec fn path_item(item: Seq<char>) -> bool {
    ||| item == "install_dir"@
    ||| item == "shims_dir"@
    ||| item == "runtimes_dir"@
    ||| item == "downloads_dir"@
    ||| item == "cache_dir"@
    ||| item == "temp_dir"@
}

/// Keys the configuration file may hold; `config_dir` is chosen outside its own file.
pub open spec fn known_key(section: Seq<char>, item: Seq<char>) -> bool {
    (section == "paths"@ && path_item(item)) || (section == "commands"@ && item == "system_fallback"@)
}

pub open spec fn unknown_key_message() -> Seq<char> {
    "Unknown configuration key; config_dir is chosen outside its own file"@
}

/// Splits and checks a configuration key.
pub fn config_key(key: &str) -> (r: Result<(String, String)>)
    ensures
        r is Ok <==> known_key(key_parts(key@).0, key_parts(key@).1),
        r matches Ok((section, item)) ==> section@ == key_parts(key@).0 && item@ == key_parts(key@).1,
        r matches Err(e) ==> e.spec_kind() == ErrorKind::Usage && e.spec_message() == unknown_key_message(),
{
    let cs = chars_of(key);
    let (section, item) = match find_char(cs.as_slice(), '.') {
        Some(k) => {
            let n = cs.len();
            assert(k < n);
            let after = k + 1;
            (slice_chars(cs.as_slice(), 0, k), slice_chars(cs.as_slice(), after, n))
        },
        None => (chars_of("paths"), slice_chars(cs.as_slice(), 0, cs.len())),
    };
    proof {
        assert(cs@.subrange(0, cs@.len() as int) =~= cs@);
        if index_of(key@, '.') >= 0 {
            assert(cs@.subrange(index_of(key@, '.') + 1, cs@.len() as int) =~= cs@.skip(
                index_of(key@, '.') + 1,
            ));
        }
    }
    let paths = chars_eq_str(section.as_slice(), "paths");
    let known = (paths && (chars_eq_str(item.as_slice(), "install_dir") || chars_eq_str(
        item.as_slice(),
        "shims_dir",
    ) || chars_eq_str(item.as_slice(), "runtimes_dir") || chars_eq_str(
        item.as_slice(),
        "downloads_dir",
    ) || chars_eq_str(item.as_slice(), "cache_dir") || chars_eq_str(item.as_slice(), "temp_dir")))
        || (chars_eq_str(section.as_slice(), "commands") && chars_eq_str(
        item.as_slice(),
        "system_fallback",
    ));
    if known {
        Ok((string_of(section.as_slice()), string_of(item.as_slice())))
    } else {
        Err(invalid_input("Unknown configuration key; config_dir is chosen outside its own file"))
    }
}

pub open spec fn program_root_message() -> Seq<char> {
    "Changing program/shim roots requires migration; use a separate installation directory"@
}

pub open spec fn managed_root_message() -> Seq<char> {
    "Managed Python already exists. Its root is protected; use --runtimes-dir for an explicit new installation. Existing Python is never moved automatically."@
}

pub open spec fn has_managed(runtimes: Seq<RuntimeRecord>) -> bool {
    exists|i: int| 0 <= i < runtimes.len() && (#[trigger] runtimes[i]).spec_origin() is Managed
}

/// Refuses configuration changes that would strand owned files: moving the program or
/// shim root after state was published (`generation` is not 0), or moving the runtime
/// root while managed runtimes live there.
pub fn check_path_change(section: &str, item: &str, generation: u64, runtimes: &[RuntimeRecord]) -> (r:
    Result<()>)
    ensures
        r is Err <==> (section@ == "paths"@ && ((generation != 0 && (item@ == "install_dir"@ || item@
            == "shims_dir"@)) || (item@ == "runtimes_dir"@ && has_managed(runtimes@)))),
        r matches Err(e) ==> e.spec_kind() == ErrorKind::Usage && e.spec_message() == if item@
            == "runtimes_dir"@ {
            managed_root_message()
        } else {
            program_root_message()
        },
{
    let s = chars_of(section);
    let it = chars_of(item);
    if !chars_eq_str(s.as_slice(), "paths") {
        return Ok(());
    }
    let program = chars_eq_str(it.as_slice(), "install_dir") || chars_eq_str(it.as_slice(), "shims_dir");
    let runtimes_item = chars_eq_str(it.as_slice(), "runtimes_dir");
    proof {
        if runtimes_item {
            assert(item@ != "install_dir"@ && item@ != "shims_dir"@) by {
                reveal_strlit("runtimes_dir");
                reveal_strlit("install_dir");
                reveal_strlit("shims_dir");
                assert("runtimes_dir"@[0] != "install_dir"@[0]);
                assert("runtimes_dir"@[0] != "shims_dir"@[0]);
            }
        }
    }
    if program && generation != 0 {
        return Err(invalid_input(
            "Changing program/shim roots requires migration; use a separate installation directory",
        ));
    }
    if runtimes_item {
        let mut i: usize = 0;
        while i < runtimes.len()
            invariant
                i <= runtimes.len(),
                section@ == "paths"@,
                item@ == "runtimes_dir"@,
                forall|j: int| 0 <= j < i ==> !((#[trigger] runtimes@[j]).spec_origin() is Managed),
            decreases runtimes.len() - i,
        {
            match runtimes[i].origin() {
                RuntimeOrigin::Managed { .. } => {
                    assert(has_managed(runtimes@));
                    return Err(invalid_input(
                        "Managed Python already exists. Its root is protected; use --runtimes-dir for an explicit new installation. Existing Python is never moved automatically.",
                    ));
                },
                RuntimeOrigin::External { .. } => {},
            }
            i = i + 1;
        }
    }
    Ok(())
}


pub open spec fn fallback_message() -> Seq<char> {
    "System fallback is not supported; use false / 不支持系统回退，请使用 false"@
}

/// Checks the value given for `commands.system_fallback`: only `false` is accepted.
pub fn check_fallback_value(value: &str) -> (r: Result<()>)
    ensures
        r is Ok <==> value@ == "false"@,
        r matches Err(e) ==> e.spec_kind() == ErrorKind::Usage && e.spec_message() == fallback_message(),
{
    if !chars_eq_str(chars_of(value).as_slice(), "false") {
        return Err(invalid_input("System fallback is not supported; use false / 不支持系统回退，请使用 false"));
    }
    Ok(())
}

pub open spec fn configured_overlap_message() -> Seq<char> {
    "Configuration directories must not overlap; existing file was preserved"@
}

/// Whether a new directory for `item` (by its platform path key) stays clear of every
/// other effective directory, given as pairs of name and path key.
pub open spec fn clear_of_others(item: Seq<char>, key: Seq<char>, effective: Seq<(String, String)>) -> bool {
    forall|k: int| 0 <= k < effective.len() && (#[trigger] effective[k]).0@ != item ==> !spec_paths_overlap(
        key,
        effective[k].1@,
    )
}

/// Checks a directory about to be configured for `item` against the other effective
/// directories; the configuration file is left as it was when they overlap.
pub fn check_configured_path(item: &str, key: &str, effective: &[(String, String)]) -> (r: Result<()>)
    ensures
        r is Ok <==> clear_of_others(item@, key@, effective@),
        r matches Err(e) ==> e.spec_kind() == ErrorKind::Usage && e.spec_message()
            == configured_overlap_message(),
{
    let name = chars_of(item);
    let mut k: usize = 0;
    while k < effective.len()
        invariant
            k <= effective.len(),
            name@ == item@,
            forall|m: int| 0 <= m < k && (#[trigger] effective@[m]).0@ != item@ ==> !spec_paths_overlap(
                key@,
                effective@[m].1@,
            ),
        decreases effective.len() - k,
    {
        let (other, other_key) = &effective[k];
        if !chars_eq_str(name.as_slice(), other.as_str()) && paths_overlap(key, other_key.as_str()) {
            return Err(invalid_input("Configuration directories must not overlap; existing file was preserved"));
        }
        k = k + 1;
    }
    Ok(())
}

/// The JSON spelling of one character inside a string literal, as `serde_json` writes
/// it: quote, backslash and the control characters escaped, everything else as is.
pub open spec fn json_char(c: char) -> Seq<char> {
    if c == '"' {
        seq!['\\', '"']
    } else if c == '\\' {
        seq!['\\', '\\']
    } else if c == '\u{8}' {
        seq!['\\', 'b']
    } else if c == '\t' {
        seq!['\\', 't']
    } else if c == '\n' {
        seq!['\\', 'n']
    } else if c == '\u{c}' {
        seq!['\\', 'f']
    } else if c == '\r' {
        seq!['\\', 'r']
    } else if (c as u32) < 0x20 {
        seq!['\\', 'u', '0', '0', hex_char((c as u32 / 16) as nat), hex_char((c as u32 % 16) as nat)]
    } else {
        seq![c]
    }
}

pub open spec fn json_escaped(s: Seq<char>) -> Seq<char>
    decreases s.len(),
{
    if s.len() == 0 {
        s
    } else {
        json_escaped(s.drop_last()) + json_char(s.last())
    }
}

/// A string as a JSON string literal.
pub open spec fn json_quoted(s: Seq<char>) -> Seq<char> {
    seq!['"'] + json_escaped(s) + seq!['"']
}

/// `serde_json::to_string` of a `str`: the text as a JSON string literal. Serializing
/// a string writes to an in-memory buffer, which cannot fail, so there is always a
/// result.
#[verifier::external_body]
fn json_quote(s: &str) -> (r: Option<String>)
    ensures
        r is Some,
        r matches Some(t) ==> t@ == json_quoted(s@),
{
    serde_json::to_string(s).ok()
}

/// The configuration file written by setup: every configurable directory spelled out,
/// and system fallback disabled.
pub open spec fn initial_config_text(paths: PathConfig) -> Seq<char> {
    "schema_version = 1\n\n[paths]\n"@
        + setting_line("install_dir"@, paths.install_dir@)
        + setting_line("shims_dir"@, paths.shims_dir@)
        + setting_line("runtimes_dir"@, paths.runtimes_dir@)
        + setting_line("downloads_dir"@, paths.downloads_dir@)
        + setting_line("cache_dir"@, paths.cache_dir@)
        + setting_line("temp_dir"@, paths.temp_dir@)
        + "\n[commands]\nsystem_fallback = false\n"@
}

/// One `key = "value"` line of a TOML table.
pub open spec fn setting_line(key: Seq<char>, value: Seq<char>) -> Seq<char> {
    key + " = "@ + json_quoted(value) + "\n"@
}

fn push_setting(document: &mut String, key: &str, value: &str) -> (r: Result<()>)
    ensures
        r is Ok,
        final(document)@ == old(document)@ + setting_line(key@, value@),
{
    let quoted = match json_quote(value) {
        Some(q) => q,
        None => return Err(invalid_input("Cannot quote setup path")),
    };
    push_str(document, key);
    push_str(document, " = ");
    push_str(document, quoted.as_str());
    push_str(document, "\n");
    proof {
        assert(document@ =~= old(document)@ + setting_line(key@, value@));
    }
    Ok(())
}

/// The configuration file that setup writes when none exists.
pub fn initial_config(paths: &PathConfig) -> (r: Result<String>)
    ensures
        r matches Ok(t) && t@ == initial_config_text(*paths),
{
    let mut document = "schema_version = 1\n\n[paths]\n".to_string();
    match push_setting(&mut document, "install_dir", paths.install_dir.as_str()) {
        Ok(()) => {},
        Err(e) => return Err(e),
    }
    match push_setting(&mut document, "shims_dir", paths.shims_dir.as_str()) {
        Ok(()) => {},
        Err(e) => return Err(e),
    }
    match push_setting(&mut document, "runtimes_dir", paths.runtimes_dir.as_str()) {
        Ok(()) => {},
        Err(e) => return Err(e),
    }
    match push_setting(&mut document, "downloads_dir", paths.downloads_dir.as_str()) {
        Ok(()) => {},
        Err(e) => return Err(e),
    }
    match push_setting(&mut document, "cache_dir", paths.cache_dir.as_str()) {
        Ok(()) => {},
        Err(e) => return Err(e),
    }
    match push_setting(&mut document, "temp_dir", paths.temp_dir.as_str()) {
        Ok(()) => {},
        Err(e) => return Err(e),
    }
    push_str(&mut document, "\n[commands]\nsystem_fallback = false\n");

    Ok(document)
}

} // verus!
