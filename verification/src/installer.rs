//! Version rules for in-place updates of an installed copy of the manager.
use vstd::prelude::*;

use crate::commands::{invalid_name_message, is_reserved, mapped_key, name_valid, reserved_stem, spec_split, CommandCaseMapper, CommandExtension, CommandKey};
use crate::error::{invalid_input, Error, ErrorKind, Result};
use crate::paths::{path_join, spec_path_join};
use crate::text::{
    all_digits, all_hex, chars_eq_str, chars_of, dec, digits_value, is_digit, is_hex_digit,
    lower_chars, lower_seq, push_char, push_decimal_usize, push_str, split_chars, split_on, string_of,
};

verus! {

pub open spec fn shape_message() -> Seq<char> {
    "In-place updates require stable versions from 0.1.0 onward; uninstall Alpha first. / 原地更新从 0.1.0 正式版本起支持，请先卸载 Alpha。"@
}

pub open spec fn malformed_message() -> Seq<char> {
    "Unsupported installer version; uninstall Alpha before installing 0.1.0. / 不支持此安装版本，请先卸载 Alpha 再安装 0.1.0。"@
}

pub open spec fn range_message() -> Seq<char> {
    "Installer version is out of range / 安装版本超出范围"@
}

pub open spec fn order_message() -> Seq<char> {
    "Downgrades and pre-0.1.0 updates are not supported. / 不支持降级或从 0.1.0 之前的版本原地更新。"@
}

/// A component written as plain decimal digits without a leading zero.
pub open spec fn plain_number(s: Seq<char>) -> bool {
    &&& s.len() > 0
    &&& all_digits(s)
    &&& !(s.len() > 1 && s[0] == '0')
}

/// Why one dotted component is refused, if it is.
pub open spec fn component_failure(s: Seq<char>) -> Option<Seq<char>> {
    if !plain_number(s) {
        Some(malformed_message())
    } else if digits_value(s) > u32::MAX {
        Some(range_message())
    } else {
        None
    }
}

/// Why a text is not a stable `major.minor.patch` version, if it is not; the
/// components are examined from left to right.
pub open spec fn stable_failure(t: Seq<char>) -> Option<Seq<char>> {
    let parts = split_on(t, '.');
    if parts.len() != 3 {
        Some(shape_message())
    } else if component_failure(parts[0]) is Some {
        component_failure(parts[0])
    } else if component_failure(parts[1]) is Some {
        component_failure(parts[1])
    } else {
        component_failure(parts[2])
    }
}

/// The numeric value of the `i`-th dotted component.
pub open spec fn stable_part(t: Seq<char>, i: int) -> nat {
    digits_value(split_on(t, '.')[i])
}

/// Lexicographic `<` on version triples.
pub open spec fn triple_lt(a: Seq<u32>, b: Seq<u32>) -> bool {
    ||| a[0] < b[0]
    ||| (a[0] == b[0] && a[1] < b[1])
    ||| (a[0] == b[0] && a[1] == b[1] && a[2] < b[2])
}

/// The value of a run of decimal digits, or `None` when it exceeds `u32`.
fn digits_u32(s: &[char]) -> (r: Option<u32>)
    requires
        all_digits(s@),
    ensures
        r is Some <==> digits_value(s@) <= u32::MAX,
        r matches Some(n) ==> n == digits_value(s@),
{
    let mut acc: u64 = 0;
    let mut i: usize = 0;
    while i < s.len()
        invariant
            i <= s.len(),
            all_digits(s@),
            acc <= u32::MAX,
            acc == digits_value(s@.take(i as int)),
        decreases s.len() - i,
    {
        proof {
            assert(s@.take(i + 1).drop_last() =~= s@.take(i as int));
            assert(is_digit(s@[i as int]));
        }
        let d = (s[i] as u32 - '0' as u32) as u64;
        let next = acc * 10 + d;
        if next > u32::MAX as u64 {
            proof {
                lemma_digits_grow(s@, i as int + 1);
            }
            return None;
        }
        acc = next;
        i = i + 1;
    }
    assert(s@.take(s@.len() as int) =~= s@);
    Some(acc as u32)
}

/// A longer prefix of a digit run never denotes a smaller number.
proof fn lemma_digits_grow(s: Seq<char>, k: int)
    requires
        0 <= k <= s.len(),
        all_digits(s),
    ensures
        digits_value(s.take(k)) <= digits_value(s),
    decreases s.len() - k,
{
    if k < s.len() {
        lemma_digits_grow(s, k + 1);
        assert(s.take(k + 1).drop_last() =~= s.take(k));
        assert(is_digit(s[k]));
    } else {
        assert(s.take(k) =~= s);
    }
}

/// Checks one component and reads its value.
fn stable_component(s: &[char]) -> (r: Result<u32>)
    ensures
        r is Ok <==> component_failure(s@) is None,
        r matches Ok(n) ==> n == digits_value(s@),
        r matches Err(e) ==> e.spec_kind() == ErrorKind::Usage && Some(e.spec_message())
            == component_failure(s@),
{
    let mut ok = s.len() > 0 && !(s.len() > 1 && s[0] == '0');
    let mut i: usize = 0;
    while i < s.len()
        invariant
            i <= s.len(),
            ok == (s@.len() > 0 && !(s@.len() > 1 && s@[0] == '0') && all_digits(s@.take(i as int))),
        decreases s.len() - i,
    {
        let c = s[i];
        proof {
            let a = s@.take(i as int);
            let b = s@.take(i + 1);
            assert(b =~= a.push(c));
            assert(all_digits(b) == (all_digits(a) && is_digit(c))) by {
                if all_digits(a) && is_digit(c) {
                    assert forall|j: int| 0 <= j < b.len() implies is_digit(#[trigger] b[j]) by {
                        if j < a.len() {
                            assert(b[j] == a[j]);
                        }
                    }
                }
                if all_digits(b) {
                    assert(is_digit(b[i as int]));
                    assert forall|j: int| 0 <= j < a.len() implies is_digit(#[trigger] a[j]) by {
                        assert(b[j] == a[j]);
                    }
                }
            }
        }
        if !('0' <= c && c <= '9') {
            ok = false;
        }
        i = i + 1;
    }
    assert(s@.take(s@.len() as int) =~= s@);
    if !ok {
        return Err(invalid_input(
            "Unsupported installer version; uninstall Alpha before installing 0.1.0. / 不支持此安装版本，请先卸载 Alpha 再安装 0.1.0。",
        ));
    }
    match digits_u32(s) {
        Some(n) => Ok(n),
        None => Err(invalid_input("Installer version is out of range / 安装版本超出范围")),
    }
}

/// Reads a stable `major.minor.patch` installer version.
pub fn stable_version(text: &str) -> (r: Result<[u32; 3]>)
    ensures
        r is Ok <==> stable_failure(text@) is None,
        r matches Ok(v) ==> v[0] == stable_part(text@, 0) && v[1] == stable_part(text@, 1) && v[2]
            == stable_part(text@, 2),
        r matches Err(e) ==> e.spec_kind() == ErrorKind::Usage && Some(e.spec_message())
            == stable_failure(text@),
{
    let chars = chars_of(text);
    let parts = split_chars(chars.as_slice(), '.');
    proof {
        assert(parts@.map_values(|v: Vec<char>| v@).len() == parts@.len());
    }
    if parts.len() != 3 {
        return Err(invalid_input(
            "In-place updates require stable versions from 0.1.0 onward; uninstall Alpha first. / 原地更新从 0.1.0 正式版本起支持，请先卸载 Alpha。",
        ));
    }
    proof {
        assert(parts@.map_values(|v: Vec<char>| v@)[0] == parts@[0]@);
        assert(parts@.map_values(|v: Vec<char>| v@)[1] == parts@[1]@);
        assert(parts@.map_values(|v: Vec<char>| v@)[2] == parts@[2]@);
    }
    let major = stable_component(parts[0].as_slice())?;
    let minor = stable_component(parts[1].as_slice())?;
    let patch = stable_component(parts[2].as_slice())?;
    Ok([major, minor, patch])
}

/// Accepts an update from `previous` to `target` when both are stable, `previous`
/// is at least 0.1.0, and `target` is not older than `previous`.
pub fn validate_versions(previous: &str, target: &str) -> (r: Result<()>)
    ensures
        r is Ok <==> ({
            &&& stable_failure(previous@) is None
            &&& stable_failure(target@) is None
            &&& !triple_lt(
                seq![stable_part(previous@, 0) as u32, stable_part(previous@, 1) as u32, stable_part(previous@, 2) as u32],
                seq![0u32, 1u32, 0u32],
            )
            &&& !triple_lt(
                seq![stable_part(target@, 0) as u32, stable_part(target@, 1) as u32, stable_part(target@, 2) as u32],
                seq![stable_part(previous@, 0) as u32, stable_part(previous@, 1) as u32, stable_part(previous@, 2) as u32],
            )
        }),
        r matches Err(e) ==> e.spec_kind() == ErrorKind::Usage && (if stable_failure(previous@) is Some {
            Some(e.spec_message()) == stable_failure(previous@)
        } else if stable_failure(target@) is Some {
            Some(e.spec_message()) == stable_failure(target@)
        } else {
            e.spec_message() == order_message()
        }),
{
    let p = stable_version(previous)?;
    let t = stable_version(target)?;
    let below_first = p[0] == 0 && p[1] == 0;
    let older = t[0] < p[0] || (t[0] == p[0] && t[1] < p[1]) || (t[0] == p[0] && t[1] == p[1] && t[2]
        < p[2]);
    if below_first || older {
        return Err(invalid_input(
            "Downgrades and pre-0.1.0 updates are not supported. / 不支持降级或从 0.1.0 之前的版本原地更新。",
        ));
    }
    Ok(())
}


/// Whether an upgrade may start from the installed version `text`: a stable version
/// from 0.1.0 onward.
pub open spec fn source_version_ok(t: Seq<char>) -> bool {
    stable_failure(t) is None && !(stable_part(t, 0) == 0 && stable_part(t, 1) == 0)
}

/// Accepts the installed version recorded before an upgrade.
pub fn valid_source_version(text: &str) -> (r: bool)
    ensures
        r == source_version_ok(text@),
{
    match stable_version(text) {
        Ok(v) => !(v[0] == 0 && v[1] == 0),
        Err(_) => false,
    }
}

/// A SHA-256 digest spelled as 64 hexadecimal digits.
pub open spec fn digest_text_ok(t: Seq<char>) -> bool {
    t.len() == 64 && all_hex(t)
}

/// Checks the spelling of a recorded file digest.
pub fn valid_digest(digest: &str) -> (r: bool)
    ensures
        r == digest_text_ok(digest@),
{
    let cs = chars_of(digest);
    if cs.len() != 64 {
        return false;
    }
    let mut i: usize = 0;
    while i < cs.len()
        invariant
            i <= cs.len(),
            cs@ == digest@,
            forall|j: int| 0 <= j < i ==> is_hex_digit(#[trigger] cs@[j]),
        decreases cs.len() - i,
    {
        let c = cs[i];
        if !(('0' <= c && c <= '9') || ('a' <= c && c <= 'f') || ('A' <= c && c <= 'F')) {
            assert(!is_hex_digit(cs@[i as int]));
            assert(!all_hex(digest@));
            return false;
        }
        i = i + 1;
    }
    true
}

pub open spec fn recovery_hint() -> Seq<char> {
    "Do not delete the upgrade backup. Close PyRudder/Python processes and retry installer recovery. / 请勿删除升级备份；关闭 PyRudder/Python 进程后重试安装器恢复。"@
}

/// An installation failure that tells the user how to recover.
pub fn failure(message: &str) -> (e: Error)
    ensures
        e.spec_kind() == ErrorKind::Install,
        e.spec_message() == message@,
        e.spec_hint() == Some(recovery_hint()),
{
    Error::new(ErrorKind::Install, message).with_hint(
        "Do not delete the upgrade backup. Close PyRudder/Python processes and retry installer recovery. / 请勿删除升级备份；关闭 PyRudder/Python 进程后重试安装器恢复。",
    )
}

pub open spec fn dispatcher_name() -> Seq<char> {
    "pyrudder-dispatch.exe"@
}

/// Why a shim filename recorded as owned by the manager is refused, if it is: it
/// needs a supported extension, and only the dispatcher may use a reserved stem.
pub open spec fn shim_name_failure(name: Seq<char>) -> Option<Seq<char>> {
    match spec_split(name) {
        None => Some("Invalid upgrade shim filename"@),
        Some((stem, _)) => if reserved_stem(stem) && lower_seq(name) != dispatcher_name() {
            Some("Reserved filename in upgrade shim ownership"@)
        } else {
            None
        },
    }
}

/// What the shim-name rules yield for a filename.
pub open spec fn shim_name_outcome(name: Seq<char>, r: Result<()>) -> bool {
    &&& r is Ok <==> shim_name_failure(name) is None
    &&& r matches Err(e) ==> e.spec_kind() == ErrorKind::Install && Some(e.spec_message())
        == shim_name_failure(name) && e.spec_hint() == Some(recovery_hint())
}

/// The extension and namespace rules for an owned shim filename.
pub fn check_shim_name(name: &str) -> (r: Result<()>)
    ensures
        shim_name_outcome(name@, r),
{
    let stem = match CommandExtension::split(name) {
        Some((stem, _)) => stem,
        None => return Err(failure("Invalid upgrade shim filename")),
    };
    if is_reserved(stem.as_str()) {
        let cs = chars_of(name);
        let lowered = lower_chars(cs.as_slice());
        if !chars_eq_str(lowered.as_slice(), "pyrudder-dispatch.exe") {
            return Err(failure("Reserved filename in upgrade shim ownership"));
        }
    }
    Ok(())
}

/// Validates an owned shim filename: a valid, platform-cased component that also
/// meets `check_shim_name`.
pub fn validate_shim_name<M: CommandCaseMapper>(name: &str, mapper: &M) -> (r: Result<()>)
    ensures
        !name_valid(name@) ==> (r matches Err(e) && e.spec_kind() == ErrorKind::Usage
            && e.spec_message() == invalid_name_message()),
        name_valid(name@) && shim_name_failure(name@) is Some ==> r is Err,
        r is Ok ==> name_valid(name@) && shim_name_failure(name@) is None,
        exists|k: Result<CommandKey>|
            #[trigger] mapped_key(mapper, name@, k) && match k {
                Err(e) => r == Err::<(), Error>(e),
                Ok(_) => shim_name_outcome(name@, r),
            },
{
    let key = CommandKey::new(name, mapper);
    let ghost k = key;
    match key {
        Ok(_) => {},
        Err(e) => return Err(e),
    }
    let r = check_shim_name(name);
    proof {
        assert(mapped_key(mapper, name@, k));
    }
    r
}


/// A path under `root` named by `/`-separated parts, joined one part at a time.
pub open spec fn joined_parts(root: Seq<char>, parts: Seq<Seq<char>>) -> Seq<char>
    decreases parts.len(),
{
    if parts.len() == 0 {
        root
    } else {
        spec_path_join(joined_parts(root, parts.drop_last()), parts.last())
    }
}

/// The file a journal entry names inside the installation root.
pub fn target(root: &str, relative: &str) -> (r: String)
    ensures
        r@ == joined_parts(root@, split_on(relative@, '/')),
{
    let cs = chars_of(relative);
    let parts = split_chars(cs.as_slice(), '/');
    let ghost views = parts@.map_values(|v: Vec<char>| v@);
    let mut path = root.to_string();
    let mut i: usize = 0;
    while i < parts.len()
        invariant
            i <= parts.len(),
            views == parts@.map_values(|v: Vec<char>| v@),
            path@ == joined_parts(root@, views.take(i as int)),
        decreases parts.len() - i,
    {
        let part = string_of(parts[i].as_slice());
        proof {
            assert(views.take(i + 1).drop_last() =~= views.take(i as int));
            assert(views.take(i + 1).last() == part@);
        }
        path = path_join(path.as_str(), part.as_str());
        i = i + 1;
    }
    assert(views.take(views.len() as int) =~= views);
    path
}

/// The name of the `index`-th backup file: the index with at least six digits, then `.bak`.
pub open spec fn backup_name(index: nat) -> Seq<char> {
    let digits = dec(index);
    let zeros = if digits.len() < 6 {
        Seq::new((6 - digits.len()) as nat, |_i: int| '0')
    } else {
        Seq::empty()
    };
    zeros + digits + seq!['.', 'b', 'a', 'k']
}

/// The name of the `index`-th backup file.
pub fn backup_file_name(index: usize) -> (r: String)
    ensures
        r@ == backup_name(index as nat),
{
    let mut digits = String::new();
    push_decimal_usize(&mut digits, index);
    let mut name = String::new();
    let n = digits.as_str().unicode_len();
    let mut k: usize = n;
    while k < 6
        invariant
            n <= k,
            k <= 6 || k == n,
            n == dec(index as nat).len(),
            name@ == Seq::new((k - n) as nat, |_i: int| '0'),
        decreases 6 - k,
    {
        push_char(&mut name, '0');
        proof {
            assert(Seq::new((k - n) as nat, |_i: int| '0').push('0') =~= Seq::new((k + 1 - n) as nat, |_i: int| '0'));
        }
        k = k + 1;
    }
    proof {
        if n >= 6 {
            assert(name@ =~= Seq::<char>::empty());
        }
    }
    push_str(&mut name, digits.as_str());
    push_char(&mut name, '.');
    push_char(&mut name, 'b');
    push_char(&mut name, 'a');
    push_char(&mut name, 'k');
    proof {
        assert(name@ =~= backup_name(index as nat));
    }
    name
}

/// Where the `index`-th backed-up file is kept.
pub fn backup_path(directory: &str, index: usize) -> (r: String)
    ensures
        r@ == spec_path_join(directory@, backup_name(index as nat)),
{
    let name = backup_file_name(index);
    path_join(directory, name.as_str())
}


pub open spec fn layout_message() -> Seq<char> {
    "Unsupported package layout; keep the bin directory intact"@
}

/// Whether a package layout marker describes an in-place package whose program
/// directory is still named `bin` (up to ASCII case).
pub open spec fn layout_ok(schema_version: u32, layout: Seq<char>, program_name: Option<Seq<char>>) -> bool {
    &&& schema_version == 1
    &&& layout == "in-place"@
    &&& program_name matches Some(n) && lower_seq(n) == "bin"@
}

/// Checks the package layout marker found in the program directory, given the
/// directory's final component (`None` where it has none or it is not Unicode).
pub fn check_layout_marker(schema_version: u32, layout: &str, program_name: Option<&str>) -> (r: Result<()>)
    ensures
        r is Ok <==> layout_ok(schema_version, layout@, match program_name {
            Some(n) => Some(n@),
            None => None,
        }),
        r matches Err(e) ==> e.spec_kind() == ErrorKind::Usage && e.spec_message() == layout_message(),
{
    let name_ok = match program_name {
        Some(n) => {
            let lowered = lower_chars(chars_of(n).as_slice());
            chars_eq_str(lowered.as_slice(), "bin")
        },
        None => false,
    };
    if schema_version != 1 || !chars_eq_str(chars_of(layout).as_slice(), "in-place") || !name_ok {
        return Err(invalid_input("Unsupported package layout; keep the bin directory intact"));
    }
    Ok(())
}

} // verus!
