//! Names and digests of managed download artifacts.
use vstd::prelude::*;

use crate::error::{invalid_input, Error, ErrorKind, Result};
use crate::installer::digest_text_ok;
use crate::paths::{
    path_component_count, path_file_name, path_join, path_starts_with, paths_overlap,
    spec_path_file_name, spec_path_join, spec_path_parts, spec_path_starts_with, spec_paths_overlap,
};
use crate::lookup::{find_by_id, first_with_id};
use crate::runtime::{
    installation_text, runtime_id_text, InstallationId, RuntimeId, RuntimeOrigin, RuntimeRecord,
};
use crate::text::{
    all_ascii, all_hex, chars_of, find_char, hex_digit_value, hex_fixed, hex_value, index_of,
    is_ascii_chars, is_hex_digit, lemma_hex_fixed, lemma_pow16_32, lower_chars, lower_seq, pow16,
    push_char, push_hex_fixed, push_str, slice_chars, starts_with_str, string_of, chars_eq,
    chars_eq_str,
};

verus! {

/// A file in the download cache: `<sha256>.zip`, `<sha256>.part` or `<sha256>.etag`,
/// split at the first dot.
pub open spec fn cache_name_ok(t: Seq<char>) -> bool {
    let k = index_of(t, '.');
    &&& k >= 0
    &&& digest_text_ok(t.take(k))
    &&& {
        let ext = t.skip(k + 1);
        ext == seq!['z', 'i', 'p'] || ext == seq!['p', 'a', 'r', 't'] || ext == seq!['e', 't', 'a', 'g']
    }
}

fn chars_are(s: &[char], lo: usize, t: &[char]) -> (r: bool)
    requires
        lo <= s.len(),
    ensures
        r == (s@.skip(lo as int) == t@),
{
    if s.len() - lo != t.len() {
        proof {
            assert(s@.skip(lo as int).len() != t@.len());
        }
        return false;
    }
    let mut i: usize = 0;
    while i < t.len()
        invariant
            lo <= s.len(),
            s.len() - lo == t.len(),
            i <= t.len(),
            forall|j: int| 0 <= j < i ==> s@[lo + j] == t@[j],
        decreases t.len() - i,
    {
        if s[lo + i] != t[i] {
            proof {
                assert(s@.skip(lo as int)[i as int] != t@[i as int]);
            }
            return false;
        }
        i = i + 1;
    }
    proof {
        assert(s@.skip(lo as int) =~= t@);
    }
    true
}

/// Whether a cache file name belongs to the manager.
pub fn cache_name(name: &str) -> (r: bool)
    ensures
        r == cache_name_ok(name@),
{
    let cs = chars_of(name);
    let k = match find_char(cs.as_slice(), '.') {
        Some(k) => k,
        None => return false,
    };
    if k != 64 {
        return false;
    }
    let mut i: usize = 0;
    while i < k
        invariant
            i <= k == 64 <= cs.len(),
            cs@ == name@,
            k as int == index_of(cs@, '.'),
            forall|j: int| 0 <= j < i ==> is_hex_digit(#[trigger] cs@[j]),
        decreases k - i,
    {
        let c = cs[i];
        if !(('0' <= c && c <= '9') || ('a' <= c && c <= 'f') || ('A' <= c && c <= 'F')) {
            proof {
                assert(cs@.take(k as int)[i as int] == c);
                assert(!digest_text_ok(cs@.take(k as int)));
            }
            return false;
        }
        i = i + 1;
    }
    proof {
        assert forall|j: int| 0 <= j < 64 implies is_hex_digit(#[trigger] cs@.take(64)[j]) by {
            assert(cs@.take(64)[j] == cs@[j]);
        }
    }
    let zip = ['z', 'i', 'p'];
    let part = ['p', 'a', 'r', 't'];
    let etag = ['e', 't', 'a', 'g'];
    proof {
        assert(zip@ =~= seq!['z', 'i', 'p']);
        assert(part@ =~= seq!['p', 'a', 'r', 't']);
        assert(etag@ =~= seq!['e', 't', 'a', 'g']);
    }
    chars_are(cs.as_slice(), k + 1, zip.as_slice()) || chars_are(cs.as_slice(), k + 1, part.as_slice())
        || chars_are(cs.as_slice(), k + 1, etag.as_slice())
}

/// The value of two characters read as a base-16 `u8`, as `u8::from_str_radix` reads
/// them: two hexadecimal digits, or a plus sign and one digit.
pub open spec fn hex_pair(a: char, b: char) -> Option<u8> {
    if a == '+' && is_hex_digit(b) {
        Some(hex_digit_value(b) as u8)
    } else if is_hex_digit(a) && is_hex_digit(b) {
        Some((hex_digit_value(a) * 16 + hex_digit_value(b)) as u8)
    } else {
        None
    }
}

/// Whether every pair of a 64-character text is a base-16 byte.
pub open spec fn pairs_ok(t: Seq<char>) -> bool {
    forall|i: int| 0 <= i < 32 ==> (#[trigger] hex_pair(t[2 * i], t[2 * i + 1])) is Some
}

fn hex_value_of(c: char) -> (r: u8)
    requires
        is_hex_digit(c),
    ensures
        r == hex_digit_value(c),
{
    if '0' <= c && c <= '9' {
        (c as u32 - '0' as u32) as u8
    } else if 'a' <= c && c <= 'f' {
        (c as u32 - 'a' as u32 + 10) as u8
    } else {
        (c as u32 - 'A' as u32 + 10) as u8
    }
}

fn pair_value(a: char, b: char) -> (r: Option<u8>)
    ensures
        r == hex_pair(a, b),
{
    let hex_b = ('0' <= b && b <= '9') || ('a' <= b && b <= 'f') || ('A' <= b && b <= 'F');
    let hex_a = ('0' <= a && a <= '9') || ('a' <= a && a <= 'f') || ('A' <= a && a <= 'F');
    if a == '+' && hex_b {
        Some(hex_value_of(b))
    } else if hex_a && hex_b {
        let high = hex_value_of(a);
        let low = hex_value_of(b);
        Some(high * 16 + low)
    } else {
        None
    }
}

/// Decodes the SHA-256 digest of a release archive from its hexadecimal spelling.
pub fn digest_bytes(value: &str) -> (r: Result<[u8; 32]>)
    ensures
        r is Ok <==> (value@.len() == 64 && all_ascii(value@) && pairs_ok(value@)),
        r matches Ok(d) ==> forall|i: int| 0 <= i < 32 ==> hex_pair(value@[2 * i], value@[2 * i + 1])
            == Some(#[trigger] d[i]),
        r matches Err(e) ==> e.spec_kind() == ErrorKind::Usage && e.spec_message() == if value@.len()
            == 64 && all_ascii(value@) {
            "Invalid digest"@
        } else {
            "Invalid archive digest"@
        },
{
    let cs = chars_of(value);
    if cs.len() != 64 || !is_ascii_chars(cs.as_slice()) {
        return Err(invalid_input("Invalid archive digest"));
    }
    let mut digest = [0u8; 32];
    let mut i: usize = 0;
    while i < 32
        invariant
            cs@ == value@,
            cs@.len() == 64,
            all_ascii(value@),
            i <= 32,
            forall|j: int| 0 <= j < i ==> hex_pair(cs@[2 * j], cs@[2 * j + 1]) == Some(#[trigger] digest@[j]),
        decreases 32 - i,
    {
        match pair_value(cs[2 * i], cs[2 * i + 1]) {
            Some(b) => {
                digest.set(i, b);
            },
            None => {
                proof {
                    assert(hex_pair(cs@[2 * i], cs@[2 * i + 1]) is None);
                    assert(!pairs_ok(value@));
                }
                return Err(invalid_input("Invalid digest"));
            },
        }
        i = i + 1;
    }
    proof {
        assert forall|j: int| 0 <= j < 32 implies (#[trigger] hex_pair(value@[2 * j], value@[2 * j + 1])) is Some by {
            assert(hex_pair(cs@[2 * j], cs@[2 * j + 1]) == Some(digest@[j]));
        }
    }
    Ok(digest)
}


/// The lowercase hexadecimal spelling of a digest, two digits per byte.
pub open spec fn digest_hex(d: Seq<u8>) -> Seq<char>
    decreases d.len(),
{
    if d.len() == 0 {
        Seq::empty()
    } else {
        digest_hex(d.drop_last()) + hex_fixed(d.last() as nat, 2)
    }
}

/// Spells a digest in lowercase hexadecimal, as ownership records store it.
pub fn digest_text(digest: &[u8; 32]) -> (r: String)
    ensures
        r@ == digest_hex(digest@),
{
    let mut out = String::new();
    let mut i: usize = 0;
    while i < 32
        invariant
            i <= 32,
            digest@.len() == 32,
            out@ == digest_hex(digest@.take(i as int)),
        decreases 32 - i,
    {
        proof {
            assert(digest@.take(i + 1).drop_last() =~= digest@.take(i as int));
        }
        push_hex_fixed(&mut out, digest[i] as u128, 2);
        i = i + 1;
    }
    assert(digest@.take(32) =~= digest@);
    out
}

proof fn lemma_digest_hex_shape(d: Seq<u8>)
    ensures
        digest_hex(d).len() == 2 * d.len(),
        all_ascii(digest_hex(d)),
        forall|i: int| 0 <= i < d.len() ==> hex_pair(digest_hex(d)[2 * i], #[trigger] digest_hex(d)[2 * i + 1])
            == Some(d[i]),
    decreases d.len(),
{
    if d.len() > 0 {
        let d0 = d.drop_last();
        lemma_digest_hex_shape(d0);
        let b = d.last() as nat;
        assert(pow16(2) == 256) by {
            reveal_with_fuel(pow16, 3);
        }
        lemma_hex_fixed(b, 2);
        let h = hex_fixed(b, 2);
        let whole = digest_hex(d);
        assert(whole == digest_hex(d0) + h);
        assert(is_hex_digit(h[0]) && is_hex_digit(h[1]));
        assert(hex_value(h) == hex_value(h.drop_last()) * 16 + hex_digit_value(h[1]));
        assert(h.drop_last().drop_last() =~= Seq::<char>::empty());
        assert(hex_value(h.drop_last()) == hex_digit_value(h[0]));
        assert(h[0] != '+');
        assert(hex_pair(h[0], h[1]) == Some(b as u8));
        assert forall|i: int| 0 <= i < whole.len() implies crate::text::is_ascii_char(#[trigger] whole[i]) by {
            if i < digest_hex(d0).len() {
                assert(whole[i] == digest_hex(d0)[i]);
            } else {
                assert(whole[i] == h[i - digest_hex(d0).len()]);
            }
        }
        assert forall|i: int| 0 <= i < d.len() implies hex_pair(whole[2 * i], #[trigger] whole[2 * i + 1]) == Some(d[i]) by {
            if i < d0.len() {
                assert(whole[2 * i] == digest_hex(d0)[2 * i]);
                assert(whole[2 * i + 1] == digest_hex(d0)[2 * i + 1]);
                assert(hex_pair(digest_hex(d0)[2 * i], digest_hex(d0)[2 * i + 1]) == Some(d0[i]));
            } else {
                assert(whole[2 * i] == h[0]);
                assert(whole[2 * i + 1] == h[1]);
            }
        }
    }
}

/// Reading back a spelled digest gives the digest: `digest_bytes` undoes
/// `digest_text`.
pub proof fn digest_text_reads_back(d: Seq<u8>)
    requires
        d.len() == 32,
    ensures
        digest_hex(d).len() == 64,
        all_ascii(digest_hex(d)),
        pairs_ok(digest_hex(d)),
        forall|i: int| 0 <= i < 32 ==> hex_pair(digest_hex(d)[2 * i], digest_hex(d)[2 * i + 1]) == Some(#[trigger] d[i]),
{
    lemma_digest_hex_shape(d);
    assert forall|i: int| 0 <= i < 32 implies (#[trigger] hex_pair(digest_hex(d)[2 * i], digest_hex(d)[2 * i + 1])) is Some by {
        assert(hex_pair(digest_hex(d)[2 * i], digest_hex(d)[2 * i + 1]) == Some(d[i]));
    }
}

/// The file that records one installation attempt of a runtime, in the configuration
/// directory: `install-<runtime id>-<attempt>.json`.
pub open spec fn journal_name_text(runtime_id: Seq<char>, attempt: u128) -> Seq<char> {
    "install-"@ + runtime_id + "-"@ + installation_text(attempt) + ".json"@
}

/// The staging directory of one installation attempt, beside the runtime's root.
pub open spec fn staging_name_text(attempt: u128) -> Seq<char> {
    ".pyrudder-staging-"@ + installation_text(attempt)
}

/// The name of the journal of an installation attempt.
pub fn journal_file_name(runtime_id: &str, attempt: InstallationId) -> (r: String)
    ensures
        r@ == journal_name_text(runtime_id@, attempt.spec_value()),
{
    let mut s = "install-".to_string();
    push_str(&mut s, runtime_id);
    push_char(&mut s, '-');
    push_str(&mut s, attempt.to_string().as_str());
    push_str(&mut s, ".json");
    proof {
        reveal_strlit("-");
        assert(s@ =~= journal_name_text(runtime_id@, attempt.spec_value()));
    }
    s
}

/// The name of the staging directory of an installation attempt.
pub fn staging_directory_name(attempt: InstallationId) -> (r: String)
    ensures
        r@ == staging_name_text(attempt.spec_value()),
{
    let mut s = ".pyrudder-staging-".to_string();
    push_str(&mut s, attempt.to_string().as_str());
    s
}

/// The attempt part of a journal filename of the runtime `runtime_id`: what lies between
/// `install-<runtime id>-` and `.json`.
pub open spec fn journal_attempt_text(filename: Seq<char>, runtime_id: Seq<char>) -> Option<Seq<char>> {
    let prefix = "install-"@ + runtime_id + "-"@;
    let suffix = ".json"@;
    if prefix.len() + suffix.len() <= filename.len() && filename.take(prefix.len() as int) == prefix
        && filename.skip(filename.len() - suffix.len()) == suffix {
        Some(filename.subrange(prefix.len() as int, filename.len() - suffix.len()))
    } else {
        None
    }
}

pub open spec fn foreign_journal_message() -> Seq<char> {
    "Recovery journal filename does not match its runtime owner"@
}

/// Reads the installation attempt from the filename of a journal owned by the runtime
/// `runtime_id`; the staging directory that may be discarded is named after it.
pub fn staging_attempt(filename: &str, runtime_id: &str) -> (r: Result<InstallationId>)
    ensures
        match journal_attempt_text(filename@, runtime_id@) {
            None => r matches Err(e) && e.spec_kind() == ErrorKind::Usage && e.spec_message()
                == foreign_journal_message(),
            Some(t) => {
                &&& r matches Ok(a) ==> a.spec_value() != 0 && installation_text(a.spec_value())
                    == lower_seq(t)
                &&& forall|v: u128|
                    v != 0 && installation_text(v) == lower_seq(t) ==> (r matches Ok(a)
                        && a.spec_value() == v)
                &&& r matches Err(e) ==> e.spec_kind() == ErrorKind::Usage
            },
        },
{
    let cs = chars_of(filename);
    let mut prefix = "install-".to_string();
    push_str(&mut prefix, runtime_id);
    push_char(&mut prefix, '-');
    proof {
        reveal_strlit(".json");
        reveal_strlit("-");
        assert(prefix@ =~= "install-"@ + runtime_id@ + "-"@);
    }
    let p = prefix.as_str().unicode_len();
    if !starts_with_str(&cs, prefix.as_str()) {
        return Err(invalid_input("Recovery journal filename does not match its runtime owner"));
    }
    if cs.len() - p < 5 {
        return Err(invalid_input("Recovery journal filename does not match its runtime owner"));
    }
    let tail = slice_chars(&cs, cs.len() - 5, cs.len());
    if !starts_with_str(&tail, ".json") {
        proof {
            assert(tail@.subrange(0, 5) =~= tail@);
            assert(cs@.skip(cs@.len() - 5) =~= tail@);
        }
        return Err(invalid_input("Recovery journal filename does not match its runtime owner"));
    }
    proof {
        assert(tail@.subrange(0, 5) =~= tail@);
        assert(cs@.skip(cs@.len() - 5) =~= tail@);
    }
    let middle = string_of(slice_chars(&cs, p, cs.len() - 5).as_slice());
    InstallationId::parse(middle.as_str())
}

/// Whether the journal `filename` of the runtime `runtime_id` names the attempt `v`.
pub open spec fn names_attempt(filename: Seq<char>, runtime_id: Seq<char>, v: u128) -> bool {
    v != 0 && match journal_attempt_text(filename, runtime_id) {
        Some(t) => installation_text(v) == lower_seq(t),
        None => false,
    }
}

/// The staging directory that the journal `filename` of the runtime `runtime_id` may
/// have discarded: the one named after the attempt in the filename, beside the
/// runtime's root in `parent`. The journal and its staging share one random attempt
/// identity, not only a name prefix.
pub fn expected_staging(filename: &str, runtime_id: &str, parent: &str) -> (r: Result<String>)
    ensures
        r matches Ok(p) ==> exists|v: u128| #[trigger] names_attempt(filename@, runtime_id@, v) && p@
            == spec_path_join(parent@, staging_name_text(v)),
        forall|v: u128| #[trigger] names_attempt(filename@, runtime_id@, v) ==> (r matches Ok(p) && p@
            == spec_path_join(parent@, staging_name_text(v))),
        journal_attempt_text(filename@, runtime_id@) is None ==> (r matches Err(e) && e.spec_kind()
            == ErrorKind::Usage && e.spec_message() == foreign_journal_message()),
        r matches Err(e) ==> e.spec_kind() == ErrorKind::Usage,
{
    let attempt = match staging_attempt(filename, runtime_id) {
        Ok(a) => a,
        Err(e) => return Err(e),
    };
    let name = staging_directory_name(attempt);
    proof {
        assert(names_attempt(filename@, runtime_id@, attempt.spec_value()));
    }
    Ok(path_join(parent, name.as_str()))
}

/// Whether a filename ends in the extension `json` as `std::path::Path::extension` reads
/// it: after the last dot, where that dot is not the name's first character.
pub open spec fn has_json_extension(name: Seq<char>) -> bool {
    name.len() > 5 && name.skip(name.len() - 5) == ".json"@
}

fn json_extension(name: &[char]) -> (r: bool)
    ensures
        r == has_json_extension(name@),
{
    proof {
        reveal_strlit(".json");
    }
    if name.len() <= 5 {
        return false;
    }
    let tail = slice_chars(name, name.len() - 5, name.len());
    proof {
        assert(tail@.subrange(0, 5) =~= tail@);
        assert(name@.skip(name@.len() - 5) =~= tail@);
    }
    starts_with_str(&tail, ".json")
}

/// Whether a file in the configuration directory is an installation journal.
pub open spec fn install_journal_name(name: Seq<char>) -> bool {
    "install-"@.len() <= name.len() && name.take("install-"@.len() as int) == "install-"@
        && has_json_extension(name)
}

/// Whether a file found in the configuration directory is an installation journal.
pub fn is_install_journal(name: &str) -> (r: bool)
    ensures
        r == install_journal_name(name@),
{
    let cs = chars_of(name);
    starts_with_str(&cs, "install-") && json_extension(&cs)
}

pub open spec fn discard_usage_message() -> Seq<char> {
    "Use recover --discard-staging <journal filename from recover> --yes"@
}

/// Checks a request to discard the staging of one installation journal: it must be
/// confirmed and name a journal file directly, with no directory part.
pub fn check_discard_request(filename: &str, yes: bool) -> (r: Result<()>)
    ensures
        r is Ok <==> yes && "install-"@.len() <= filename@.len() && filename@.take(
            "install-"@.len() as int,
        ) == "install-"@ && spec_path_parts(filename@).len() == 1 && (match spec_path_file_name(
            filename@,
        ) {
            Some(n) => has_json_extension(n),
            None => false,
        }),
        r matches Err(e) ==> e.spec_kind() == ErrorKind::Usage && e.spec_message()
            == discard_usage_message(),
{
    let cs = chars_of(filename);
    let json = match path_file_name(filename) {
        Some(n) => {
            let ncs = chars_of(n.as_str());
            json_extension(&ncs)
        },
        None => false,
    };
    if !yes || !starts_with_str(&cs, "install-") || path_component_count(filename) != 1 || !json {
        return Err(invalid_input("Use recover --discard-staging <journal filename from recover> --yes"));
    }
    Ok(())
}

/// The attempt named in a journal's filename is read back from it: the text between
/// the runtime's prefix and the extension is the attempt's canonical spelling, which is
/// already lowercase.
pub proof fn journal_attempt_reads_back(runtime_id: Seq<char>, attempt: u128)
    ensures
        journal_attempt_text(journal_name_text(runtime_id, attempt), runtime_id) == Some(
            installation_text(attempt),
        ),
        lower_seq(installation_text(attempt)) == installation_text(attempt),
{
    let name = journal_name_text(runtime_id, attempt);
    let prefix = "install-"@ + runtime_id + "-"@;
    let hex = installation_text(attempt);
    lemma_pow16_32();
    lemma_hex_fixed(attempt as nat, 32);
    assert(name =~= prefix + hex + ".json"@);
    assert(name.take(prefix.len() as int) =~= prefix);
    assert(name.skip(name.len() - 5) =~= ".json"@) by {
        reveal_strlit(".json");
    }
    assert(name.subrange(prefix.len() as int, name.len() - 5) =~= hex) by {
        reveal_strlit(".json");
    }
    reveal_strlit(".json");
}

pub open spec fn protected_overlap_message() -> Seq<char> {
    "Python installation directory must not overlap PyRudder's bin, config, shims, downloads, cache or temp directories"@
}

/// Checks a directory for managed runtimes against the manager's own directories
/// (program, configuration, shims, downloads, cache and temporary files), all given by
/// their platform path keys: it may overlap none of them.
pub fn check_install_directory(directory: &str, protected: &[String]) -> (r: Result<()>)
    ensures
        r is Ok <==> forall|k: int| 0 <= k < protected@.len() ==> !spec_paths_overlap(directory@, #[trigger] protected@[k]@),
        r matches Err(e) ==> e.spec_kind() == ErrorKind::Install && e.spec_message()
            == protected_overlap_message(),
{
    let mut k: usize = 0;
    while k < protected.len()
        invariant
            k <= protected.len(),
            forall|m: int| 0 <= m < k ==> !spec_paths_overlap(directory@, #[trigger] protected@[m]@),
        decreases protected.len() - k,
    {
        if paths_overlap(directory, protected[k].as_str()) {
            return Err(Error::new(
                ErrorKind::Install,
                "Python installation directory must not overlap PyRudder's bin, config, shims, downloads, cache or temp directories",
            ));
        }
        k = k + 1;
    }
    Ok(())
}

pub open spec fn runtime_overlap_message() -> Seq<char> {
    "Installation directory must not overlap an existing Python runtime"@
}

/// Whether a new runtime root inside `directory` stays clear of an existing runtime
/// root: the directory is not inside it, and the new root and it do not overlap.
pub open spec fn clear_of_runtime(directory: Seq<char>, root: Seq<char>, existing: Seq<char>) -> bool {
    !spec_path_starts_with(directory, existing) && !spec_paths_overlap(root, existing)
}

/// Checks the root of a new managed runtime, and the directory it goes in, against the
/// roots of the registered runtimes, all given by their platform path keys.
pub fn check_new_root(directory: &str, root: &str, existing: &[String]) -> (r: Result<()>)
    ensures
        r is Ok <==> forall|k: int| 0 <= k < existing@.len() ==> clear_of_runtime(directory@, root@, #[trigger] existing@[k]@),
        r matches Err(e) ==> e.spec_kind() == ErrorKind::Install && e.spec_message()
            == runtime_overlap_message(),
{
    let mut k: usize = 0;
    while k < existing.len()
        invariant
            k <= existing.len(),
            forall|m: int| 0 <= m < k ==> clear_of_runtime(directory@, root@, #[trigger] existing@[m]@),
        decreases existing.len() - k,
    {
        if path_starts_with(directory, existing[k].as_str()) || paths_overlap(root, existing[k].as_str()) {
            assert(!clear_of_runtime(directory@, root@, existing@[k as int]@));
            return Err(Error::new(
                ErrorKind::Install,
                "Installation directory must not overlap an existing Python runtime",
            ));
        }
        k = k + 1;
    }
    Ok(())
}

pub open spec fn provenance_message() -> Seq<char> {
    "Managed runtime provenance and exact runtime-ID directory must match its registration"@
}

pub open spec fn release_url_prefix() -> Seq<char> {
    "https://www.python.org/ftp/python/"@
}

/// Whether a registered runtime owns its directory as a managed installation: it came
/// from python.org's release area, is not a qualified duplicate, and its root directory
/// is named after its runtime ID up to ASCII case.
pub open spec fn owns_managed_root(record: RuntimeRecord, root_name: Option<Seq<char>>) -> bool {
    &&& record.spec_origin() matches RuntimeOrigin::Managed { provider, artifact_url, .. }
        && provider@ == "python.org"@ && release_url_prefix().len() <= artifact_url@.len()
        && artifact_url@.take(release_url_prefix().len() as int) == release_url_prefix()
    &&& record.spec_id().spec_installation() is None
    &&& root_name matches Some(n) && lower_seq(n) == lower_seq(runtime_id_text(record.spec_id()))
}

/// Checks that a registered runtime owns its root as a managed installation, given the
/// final component of its normalized root (`None` where it has none or it is not Unicode).
pub fn check_managed_root(record: &RuntimeRecord, root_name: Option<&str>) -> (r: Result<()>)
    ensures
        r is Ok <==> owns_managed_root(*record, match root_name {
            Some(n) => Some(n@),
            None => None,
        }),
        r matches Err(e) ==> e.spec_kind() == ErrorKind::Install && e.spec_message()
            == provenance_message(),
{
    let fail = Error::new(
        ErrorKind::Install,
        "Managed runtime provenance and exact runtime-ID directory must match its registration",
    );
    let origin_ok = match record.origin() {
        RuntimeOrigin::Managed { provider, artifact_url, .. } => {
            let p = chars_of(provider.as_str());
            let u = chars_of(artifact_url.as_str());
            chars_eq_str(&p, "python.org") && starts_with_str(&u, "https://www.python.org/ftp/python/")
        },
        RuntimeOrigin::External { .. } => false,
    };
    if !origin_ok || record.id().installation().is_some() {
        return Err(fail);
    }
    let name = match root_name {
        Some(n) => n,
        None => return Err(fail),
    };
    let id_text = record.id().to_string();
    let a = lower_chars(&chars_of(name));
    let b = lower_chars(&chars_of(id_text.as_str()));
    if !chars_eq(&a, &b) {
        return Err(fail);
    }
    Ok(())
}


/// What a walk over an owned runtime tree finds at one entry.
#[derive(Clone, Copy, Debug, PartialEq, Eq, Structural)]
pub enum TreeEntry {
    /// An ordinary file.
    File,
    /// An ordinary directory.
    Directory,
    /// A reparse point (link or junction) of any type.
    ReparsePoint,
    /// Anything else.
    Special,
}

/// What removal does with one entry of an owned tree.
#[derive(Clone, Copy, Debug, PartialEq, Eq, Structural)]
pub enum RemovalAction {
    /// Leave it for last: the ownership sentinel at the top of the tree.
    Keep,
    /// Remove the directory's contents, then the directory.
    Descend,
    /// Delete the file.
    Delete,
}

/// The deepest directory level a walk over an owned tree enters.
pub const TREE_DEPTH_LIMIT: usize = 64;

/// The most entries a walk over an owned tree visits.
pub const TREE_ENTRY_LIMIT: usize = 100_000;

/// Checks the depth of a directory a walk enters: inspection before removal refuses
/// trees that are too deep, and removal finds a tree too deep only if it changed.
pub fn check_tree_depth(depth: usize, removing: bool) -> (r: Result<()>)
    ensures
        r is Ok <==> depth <= TREE_DEPTH_LIMIT,
        r matches Err(e) ==> e.spec_kind() == ErrorKind::Install && e.spec_message() == if removing {
            "Owned tree changed during removal"@
        } else {
            "Owned tree exceeds deletion depth limit"@
        },
{
    if depth > TREE_DEPTH_LIMIT {
        if removing {
            return Err(Error::new(ErrorKind::Install, "Owned tree changed during removal"));
        }
        return Err(Error::new(ErrorKind::Install, "Owned tree exceeds deletion depth limit"));
    }
    Ok(())
}

pub open spec fn special_entry_message() -> Seq<char> {
    "Owned tree contains a reparse point or special file; remove it manually before uninstalling"@
}

/// Inspects the `count`-th entry (counted from one over the whole tree) of an owned tree
/// before anything is removed; returns whether to inspect inside it.
pub fn inspection_step(count: usize, entry: TreeEntry) -> (r: Result<bool>)
    ensures
        count > TREE_ENTRY_LIMIT ==> (r matches Err(e) && e.spec_kind() == ErrorKind::Install
            && e.spec_message() == "Owned tree exceeds deletion entry limit"@),
        count <= TREE_ENTRY_LIMIT && (entry == TreeEntry::ReparsePoint || entry == TreeEntry::Special)
            ==> (r matches Err(e) && e.spec_kind() == ErrorKind::Install && e.spec_message()
            == special_entry_message()),
        count <= TREE_ENTRY_LIMIT && (entry == TreeEntry::File || entry == TreeEntry::Directory) ==> r
            == Ok::<bool, Error>(entry == TreeEntry::Directory),
{
    if count > TREE_ENTRY_LIMIT {
        return Err(Error::new(ErrorKind::Install, "Owned tree exceeds deletion entry limit"));
    }
    match entry {
        TreeEntry::File => Ok(false),
        TreeEntry::Directory => Ok(true),
        _ => Err(Error::new(
            ErrorKind::Install,
            "Owned tree contains a reparse point or special file; remove it manually before uninstalling",
        )),
    }
}

pub open spec fn sentinel_name() -> Seq<char> {
    "pyrudder-owner.json"@
}

/// Decides what removal does with the `index`-th entry (from zero) of one directory of an
/// owned tree, by its name and what it is; `at_owner` holds at the top of the tree, where
/// the ownership sentinel stays until everything else is gone.
pub fn removal_step(index: usize, at_owner: bool, name: &str, entry: TreeEntry) -> (r: Result<RemovalAction>)
    ensures
        index > TREE_ENTRY_LIMIT ==> (r matches Err(e) && e.spec_kind() == ErrorKind::Install
            && e.spec_message() == "Removal entry limit exceeded"@),
        index <= TREE_ENTRY_LIMIT && at_owner && lower_seq(name@) == sentinel_name() ==> r
            == Ok::<RemovalAction, Error>(RemovalAction::Keep),
        index <= TREE_ENTRY_LIMIT && !(at_owner && lower_seq(name@) == sentinel_name()) ==> match entry {
            TreeEntry::ReparsePoint => r matches Err(e) && e.spec_kind() == ErrorKind::Install
                && e.spec_message() == "Reparse point appeared during removal; operation stopped"@,
            TreeEntry::Directory => r == Ok::<RemovalAction, Error>(RemovalAction::Descend),
            TreeEntry::File => r == Ok::<RemovalAction, Error>(RemovalAction::Delete),
            TreeEntry::Special => r matches Err(e) && e.spec_kind() == ErrorKind::Install
                && e.spec_message() == "Special file appeared during removal"@,
        },
{
    if index > TREE_ENTRY_LIMIT {
        return Err(Error::new(ErrorKind::Install, "Removal entry limit exceeded"));
    }
    if at_owner {
        let lowered = lower_chars(chars_of(name).as_slice());
        if chars_eq_str(lowered.as_slice(), "pyrudder-owner.json") {
            return Ok(RemovalAction::Keep);
        }
    }
    match entry {
        TreeEntry::ReparsePoint => Err(Error::new(
            ErrorKind::Install,
            "Reparse point appeared during removal; operation stopped",
        )),
        TreeEntry::Directory => Ok(RemovalAction::Descend),
        TreeEntry::File => Ok(RemovalAction::Delete),
        TreeEntry::Special => Err(Error::new(ErrorKind::Install, "Special file appeared during removal")),
    }
}


/// The ownership record of a managed runtime directory, kept in its sentinel file and
/// in each installation journal.
#[derive(Clone, Debug, PartialEq, Eq)]
pub struct Owner {
    /// Record format; only 1 is known.
    pub schema_version: u32,
    /// The owning runtime's ID.
    pub runtime_id: String,
    /// The registration's ownership identifier.
    pub ownership_id: String,
    /// The runtime's root directory.
    pub root: String,
    /// The release archive's SHA-256 digest, in hexadecimal.
    pub sha256: String,
}

/// Whether a digest text is one that `digest_bytes` reads.
pub open spec fn digest_readable(t: Seq<char>) -> bool {
    t.len() == 64 && all_ascii(t) && pairs_ok(t)
}

/// Why `digest_bytes` refuses a digest text it cannot read.
pub open spec fn digest_error_message(t: Seq<char>) -> Seq<char> {
    if t.len() == 64 && all_ascii(t) {
        "Invalid digest"@
    } else {
        "Invalid archive digest"@
    }
}

/// Whether a digest text reads as the bytes `d`.
pub open spec fn digest_denotes(t: Seq<char>, d: [u8; 32]) -> bool {
    digest_readable(t) && forall|i: int| 0 <= i < 32 ==> hex_pair(t[2 * i], t[2 * i + 1]) == Some(#[trigger] d[i])
}

/// Whether the digest text reads as the bytes `expected`; the reading's own error
/// where it cannot be read.
fn digest_matches(text: &str, expected: &[u8; 32]) -> (r: Result<bool>)
    ensures
        r is Err <==> !digest_readable(text@),
        r matches Err(e) ==> e.spec_kind() == ErrorKind::Usage && e.spec_message() == digest_error_message(text@),
        r matches Ok(b) ==> b == digest_denotes(text@, *expected),
{
    let d = match digest_bytes(text) {
        Ok(d) => d,
        Err(e) => return Err(e),
    };
    let mut i: usize = 0;
    while i < 32
        invariant
            i <= 32,
            digest_readable(text@),
            forall|j: int| 0 <= j < 32 ==> hex_pair(text@[2 * j], text@[2 * j + 1]) == Some(#[trigger] d[j]),
            forall|j: int| 0 <= j < i ==> d[j] == expected[j],
        decreases 32 - i,
    {
        if d[i] != expected[i] {
            proof {
                if digest_denotes(text@, *expected) {
                    assert(hex_pair(text@[2 * i], text@[2 * i + 1]) == Some(expected[i as int]));
                    assert(hex_pair(text@[2 * i], text@[2 * i + 1]) == Some(d[i as int]));
                }
            }
            return Ok(false);
        }
        i = i + 1;
    }
    Ok(true)
}

pub open spec fn expected_managed_message() -> Seq<char> {
    "Expected a managed pending installation"@
}

pub open spec fn provenance_differs_message() -> Seq<char> {
    "Pending installation provenance differs from the current signed release"@
}

/// Whether a pending managed registration came from the release being installed:
/// python.org, the same archive digest and URL, and the same root (`same_root`, as the
/// platform compares paths).
pub open spec fn provenance_matches(origin: RuntimeOrigin, sha256: Seq<char>, url: Seq<char>, same_root: bool) -> bool {
    origin matches RuntimeOrigin::Managed { provider, artifact_url, artifact_sha256, .. } && provider@
        == "python.org"@ && digest_denotes(sha256, artifact_sha256) && artifact_url@ == url && same_root
}

/// The ownership record for installing a release into a pending managed registration.
pub fn installation_owner(
    record: &RuntimeRecord,
    release_sha256: &str,
    release_url: &str,
    root: &str,
    same_root: bool,
) -> (r: Result<Owner>)
    ensures
        record.spec_origin() is External ==> (r matches Err(e) && e.spec_kind() == ErrorKind::Install
            && e.spec_message() == expected_managed_message()),
        r matches Ok(o) ==> provenance_matches(record.spec_origin(), release_sha256@, release_url@, same_root)
            && o.schema_version == 1 && o.runtime_id@ == runtime_id_text(record.spec_id())
            && o.root@ == root@ && o.sha256@ == release_sha256@ && (record.spec_origin() matches
            RuntimeOrigin::Managed { ownership_id, .. } && o.ownership_id@ == installation_text(
            ownership_id.spec_value(),
        )),
        provenance_matches(record.spec_origin(), release_sha256@, release_url@, same_root) ==> r is Ok,
        record.spec_origin() is Managed ==> (r matches Err(e) ==> (e.spec_kind() == ErrorKind::Install
            && e.spec_message() == provenance_differs_message()) || (e.spec_kind() == ErrorKind::Usage
            && !digest_readable(release_sha256@) && e.spec_message() == digest_error_message(release_sha256@))),
{
    let (provider, artifact_url, artifact_sha256, ownership_id) = match record.origin() {
        RuntimeOrigin::Managed { provider, artifact_url, artifact_sha256, ownership_id } => (
            provider,
            artifact_url,
            artifact_sha256,
            ownership_id,
        ),
        RuntimeOrigin::External { .. } => {
            return Err(Error::new(ErrorKind::Install, "Expected a managed pending installation"));
        },
    };
    let differs = Error::new(
        ErrorKind::Install,
        "Pending installation provenance differs from the current signed release",
    );
    if !chars_eq_str(chars_of(provider.as_str()).as_slice(), "python.org") {
        return Err(differs);
    }
    let same_digest = match digest_matches(release_sha256, artifact_sha256) {
        Ok(b) => b,
        Err(e) => return Err(e),
    };
    let same_url = chars_eq_str(chars_of(artifact_url.as_str()).as_slice(), release_url);
    if !same_digest || !same_url || !same_root {
        return Err(differs);
    }
    Ok(Owner {
        schema_version: 1,
        runtime_id: record.id().to_string(),
        ownership_id: ownership_id.to_string(),
        root: root.to_string(),
        sha256: release_sha256.to_string(),
    })
}

pub open spec fn sentinel_mismatch_message() -> Seq<char> {
    "Managed ownership sentinel mismatch; deletion/recovery refused"@
}

/// Whether an ownership sentinel found on disk is the expected one; roots are compared
/// by the platform (`same_root`).
pub open spec fn owner_matches(actual: Owner, expected: Owner, same_root: bool) -> bool {
    &&& actual.schema_version == 1
    &&& actual.runtime_id@ == expected.runtime_id@
    &&& actual.ownership_id@ == expected.ownership_id@
    &&& actual.sha256@ == expected.sha256@
    &&& same_root
}

/// Checks the ownership sentinel of a managed directory before it is deleted or recovered.
pub fn check_owner(actual: &Owner, expected: &Owner, same_root: bool) -> (r: Result<()>)
    ensures
        r is Ok <==> owner_matches(*actual, *expected, same_root),
        r matches Err(e) ==> e.spec_kind() == ErrorKind::Install && e.spec_message()
            == sentinel_mismatch_message(),
{
    let same = actual.schema_version == 1 && chars_eq_str(
        chars_of(actual.runtime_id.as_str()).as_slice(),
        expected.runtime_id.as_str(),
    ) && chars_eq_str(chars_of(actual.ownership_id.as_str()).as_slice(), expected.ownership_id.as_str())
        && chars_eq_str(chars_of(actual.sha256.as_str()).as_slice(), expected.sha256.as_str()) && same_root;
    if !same {
        return Err(Error::new(
            ErrorKind::Install,
            "Managed ownership sentinel mismatch; deletion/recovery refused",
        ));
    }
    Ok(())
}

pub open spec fn orphan_message() -> Seq<char> {
    "Recovery requires its owning runtime registration; never infer ownership of an orphan folder"@
}

pub open spec fn external_staging_message() -> Seq<char> {
    "Staging recovery cannot affect external runtimes"@
}

pub open spec fn journal_owner_message() -> Seq<char> {
    "Recovery journal does not match its registered owner"@
}

/// Finds the registration that owns an installation journal, by the runtime ID the
/// journal records; only a registered managed runtime can own staging.
pub fn journal_owner_record<'a>(owner: &Owner, runtimes: &'a [RuntimeRecord]) -> (r: Result<&'a RuntimeRecord>)
    ensures
        r matches Ok(rec) ==> exists|id: RuntimeId| id.is_wf() && runtime_id_text(id) == lower_seq(owner.runtime_id@)
            && first_with_id(runtimes@, id) >= 0 && *rec == runtimes@[first_with_id(runtimes@, id)]
            && rec.spec_origin() is Managed,
        forall|id: RuntimeId| id.is_wf() && runtime_id_text(id) == lower_seq(owner.runtime_id@) ==> ({
            let k = first_with_id(runtimes@, id);
            &&& k < 0 ==> (r matches Err(e) && e.spec_kind() == ErrorKind::Usage && e.spec_message()
                == orphan_message())
            &&& k >= 0 && runtimes@[k].spec_origin() is External ==> (r matches Err(e) && e.spec_kind()
                == ErrorKind::Usage && e.spec_message() == external_staging_message())
            &&& k >= 0 && runtimes@[k].spec_origin() is Managed ==> (r matches Ok(rec) && *rec
                == runtimes@[k])
        }),
        r matches Err(e) ==> e.spec_kind() == ErrorKind::Usage,
{
    let id = match RuntimeId::parse(owner.runtime_id.as_str()) {
        Ok(id) => id,
        Err(e) => return Err(e),
    };
    proof {
        assert forall|w: RuntimeId| w.is_wf() && runtime_id_text(w) == lower_seq(owner.runtime_id@) implies w == id by {
            crate::runtime::runtime_id_text_is_injective(id, w);
        }
    }
    let record = match find_by_id(runtimes, &id) {
        Some(rec) => rec,
        None => return Err(invalid_input(
            "Recovery requires its owning runtime registration; never infer ownership of an orphan folder",
        )),
    };
    match record.origin() {
        RuntimeOrigin::Managed { .. } => Ok(record),
        RuntimeOrigin::External { .. } => Err(invalid_input("Staging recovery cannot affect external runtimes")),
    }
}

/// Whether an installation journal's owner record matches its registration: known
/// format, the registration's ownership identifier and archive digest, and its root
/// (`same_root`, as the platform compares paths).
pub open spec fn journal_owner_matches(owner: Owner, origin: RuntimeOrigin, same_root: bool) -> bool {
    origin matches RuntimeOrigin::Managed { ownership_id, artifact_sha256, .. } && owner.schema_version == 1
        && owner.ownership_id@ == installation_text(ownership_id.spec_value()) && digest_denotes(
        owner.sha256@,
        artifact_sha256,
    ) && same_root
}

/// Checks an installation journal's owner record against the managed registration that
/// owns it.
pub fn check_journal_owner(owner: &Owner, record: &RuntimeRecord, same_root: bool) -> (r: Result<()>)
    ensures
        journal_owner_matches(*owner, record.spec_origin(), same_root) ==> r is Ok,
        r is Ok ==> journal_owner_matches(*owner, record.spec_origin(), same_root),
        r matches Err(e) ==> e.spec_kind() == ErrorKind::Usage && (e.spec_message()
            == journal_owner_message() || e.spec_message() == external_staging_message() || (
            !digest_readable(owner.sha256@) && e.spec_message() == digest_error_message(owner.sha256@))),
        record.spec_origin() is External ==> (r matches Err(e) && e.spec_message()
            == external_staging_message()),
{
    let (artifact_sha256, ownership_id) = match record.origin() {
        RuntimeOrigin::Managed { artifact_sha256, ownership_id, .. } => (artifact_sha256, ownership_id),
        RuntimeOrigin::External { .. } => {
            return Err(invalid_input("Staging recovery cannot affect external runtimes"));
        },
    };
    let expected_id = ownership_id.to_string();
    if owner.schema_version != 1 || !chars_eq_str(
        chars_of(owner.ownership_id.as_str()).as_slice(),
        expected_id.as_str(),
    ) {
        return Err(invalid_input("Recovery journal does not match its registered owner"));
    }
    let same_digest = match digest_matches(owner.sha256.as_str(), artifact_sha256) {
        Ok(b) => b,
        Err(e) => return Err(e),
    };
    if !same_digest || !same_root {
        return Err(invalid_input("Recovery journal does not match its registered owner"));
    }
    Ok(())
}


/// The ownership record a managed registration expects to find in its root: the one
/// written when it was installed, rebuilt from the registration.
pub fn registered_owner(record: &RuntimeRecord, root: &str) -> (r: Option<Owner>)
    ensures
        record.spec_origin() is External ==> r is None,
        record.spec_origin() matches RuntimeOrigin::Managed { ownership_id, artifact_sha256, .. } ==> (
        r matches Some(o) && o.schema_version == 1 && o.runtime_id@ == runtime_id_text(record.spec_id())
            && o.ownership_id@ == installation_text(ownership_id.spec_value()) && o.root@ == root@
            && o.sha256@ == digest_hex(artifact_sha256@)),
{
    match record.origin() {
        RuntimeOrigin::Managed { ownership_id, artifact_sha256, .. } => Some(Owner {
            schema_version: 1,
            runtime_id: record.id().to_string(),
            ownership_id: ownership_id.to_string(),
            root: root.to_string(),
            sha256: digest_text(artifact_sha256),
        }),
        RuntimeOrigin::External { .. } => None,
    }
}

} // verus!
