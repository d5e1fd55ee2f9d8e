//! Read-only command inventories and command identities; snapshots never authorize execution.
use crate::error::{Error, ErrorKind, Result};
use crate::text::{
    chars_eq_str, chars_of, find_char, index_of, lemma_index_of, lower, lower_chars, lower_seq,
    slice_chars, starts_with_str, string_of,
};
use vstd::prelude::*;

pub mod manifest;

pub use self::manifest::{
    command_union, lookup_command, CommandEntry, CommandOrigin, CommandRejection, CommandStatus,
    CommandTarget, CommandUnion, DirectoryFingerprint, DiscoveryDiagnostic, DiscoveryIssue,
    EntryFingerprint, RuntimeCommandManifest, Timestamp,
};


verus! {

/// A command target supported by the Windows command router.
#[derive(Clone, Copy, Debug, PartialEq, Eq, Structural)]
pub enum CommandKind {
    /// A PE executable using the console subsystem.
    PeConsole,
    /// A PE executable using the Windows GUI subsystem.
    PeGui,
    /// A Command Prompt `.cmd` script.
    Cmd,
    /// A Command Prompt `.bat` script.
    Bat,
    /// A `PowerShell` `.ps1` script.
    PowerShell,
}

impl CommandKind {
    /// Returns whether this command is a native PE executable.
    pub fn is_pe(self) -> (r: bool)
        ensures
            r == (self is PeConsole || self is PeGui),
    {
        match self {
            CommandKind::PeConsole | CommandKind::PeGui => true,
            _ => false,
        }
    }
}

// ---------------------------------------------------------------------------
// Names
// ---------------------------------------------------------------------------

/// Platform-provided non-linguistic uppercase mapping, independent of user locale.
pub trait CommandCaseMapper {
    /// Maps a name using platform filesystem casing rules; reports native mapping failures.
    fn uppercase(&self, name: &str) -> Result<String>;
}

/// The text before the first dot.
pub open spec fn first_segment(t: Seq<char>) -> Seq<char> {
    let k = index_of(t, '.');
    if k < 0 {
        t
    } else {
        t.take(k)
    }
}

/// The text without its trailing spaces.
pub open spec fn trim_spaces_end(t: Seq<char>) -> Seq<char>
    decreases t.len(),
{
    if t.len() > 0 && t.last() == ' ' {
        trim_spaces_end(t.drop_last())
    } else {
        t
    }
}

/// The device name Windows would see in a filename: the first dot-separated
/// segment without trailing spaces, in ASCII lowercase.
pub open spec fn device_stem(t: Seq<char>) -> Seq<char> {
    lower_seq(trim_spaces_end(first_segment(t)))
}

pub open spec fn numbered_device(d: Seq<char>) -> bool {
    &&& d.len() == 4
    &&& (d.take(3) == "com"@ || d.take(3) == "lpt"@)
    &&& (('1' <= d[3] && d[3] <= '9') || d[3] == '\u{b9}' || d[3] == '\u{b2}' || d[3] == '\u{b3}')
}

pub open spec fn reserved_device(d: Seq<char>) -> bool {
    ||| d == "con"@
    ||| d == "prn"@
    ||| d == "aux"@
    ||| d == "nul"@
    ||| d == "conin$"@
    ||| d == "conout$"@
    ||| numbered_device(d)
}

/// `char::is_control`: the Unicode control codes (general category Cc).
pub open spec fn is_control(c: char) -> bool {
    (c as u32) < 0x20 || (0x7f <= (c as u32) && (c as u32) <= 0x9f)
}

pub open spec fn forbidden_char(c: char) -> bool {
    ||| is_control(c)
    ||| c == '<'
    ||| c == '>'
    ||| c == ':'
    ||| c == '"'
    ||| c == '/'
    ||| c == '\\'
    ||| c == '|'
    ||| c == '?'
    ||| c == '*'
}

/// Number of UTF-16 code units of a text.
pub open spec fn utf16_len(t: Seq<char>) -> nat
    decreases t.len(),
{
    if t.len() == 0 {
        0
    } else {
        utf16_len(t.drop_last()) + if (t.last() as u32) >= 0x10000 {
            2nat
        } else {
            1nat
        }
    }
}

/// One Windows filename component: nonempty, at most 255 UTF-16 units, not ending
/// in a dot or space, free of controls and `<>:"/\|?*`, and not a device name.
pub open spec fn name_valid(t: Seq<char>) -> bool {
    &&& t.len() > 0
    &&& utf16_len(t) <= 255
    &&& t.last() != '.'
    &&& t.last() != ' '
    &&& forall|i: int| 0 <= i < t.len() ==> !forbidden_char(#[trigger] t[i])
    &&& !reserved_device(device_stem(t))
}

pub open spec fn invalid_name_message() -> Seq<char> {
    "Invalid Windows command name"@
}

pub(crate) fn utf16_units_exceed(cs: &[char], limit: usize) -> (r: bool)
    requires
        limit < usize::MAX - 2,
    ensures
        r == (utf16_len(cs@) > limit),
{
    let mut count: usize = 0;
    let mut i: usize = 0;
    while i < cs.len()
        invariant
            i <= cs@.len(),
            count == utf16_len(cs@.take(i as int)),
            count <= limit,
            limit < usize::MAX - 2,
        decreases cs.len() - i,
    {
        let units: usize = if (cs[i] as u32) >= 0x10000 {
            2
        } else {
            1
        };
        proof {
            assert(cs@.take(i + 1).drop_last() =~= cs@.take(i as int));
        }
        count = count + units;
        i = i + 1;
        if count > limit {
            proof {
                lemma_utf16_len_mono(cs@, i as int);
            }
            return true;
        }
    }
    assert(cs@.take(cs@.len() as int) =~= cs@);
    false
}

proof fn lemma_utf16_len_mono(t: Seq<char>, k: int)
    requires
        0 <= k <= t.len(),
    ensures
        utf16_len(t.take(k)) <= utf16_len(t),
    decreases t.len() - k,
{
    if k < t.len() {
        lemma_utf16_len_mono(t, k + 1);
        assert(t.take(k + 1).drop_last() =~= t.take(k));
    } else {
        assert(t.take(k) =~= t);
    }
}

fn device_stem_chars(cs: &[char]) -> (r: Vec<char>)
    ensures
        r@ == device_stem(cs@),
{
    let first = match find_char(cs, '.') {
        Some(k) => slice_chars(cs, 0, k),
        None => slice_chars(cs, 0, cs.len()),
    };
    proof {
        lemma_index_of(cs@, '.');
        assert(first@ =~= first_segment(cs@));
    }
    let mut end = first.len();
    assert(first@.take(first@.len() as int) =~= first@);
    while end > 0 && first[end - 1] == ' '
        invariant
            end <= first@.len(),
            trim_spaces_end(first@) == trim_spaces_end(first@.take(end as int)),
        decreases end,
    {
        proof {
            assert(first@.take(end as int).drop_last() =~= first@.take(end - 1));
        }
        end = end - 1;
    }
    let trimmed = slice_chars(&first, 0, end);
    proof {
        assert(trimmed@ =~= first@.take(end as int));
        assert(first@.take(first@.len() as int) =~= first@);
    }
    lower_chars(&trimmed)
}

fn is_reserved_device(d: &[char]) -> (r: bool)
    ensures
        r == reserved_device(d@),
{
    if chars_eq_str(d, "con") || chars_eq_str(d, "prn") || chars_eq_str(d, "aux")
        || chars_eq_str(d, "nul") || chars_eq_str(d, "conin$") || chars_eq_str(d, "conout$") {
        return true;
    }
    if d.len() != 4 {
        return false;
    }
    let head = slice_chars(d, 0, 3);
    assert(head@ == d@.take(3));
    let c = d[3];
    (chars_eq_str(&head, "com") || chars_eq_str(&head, "lpt")) && (('1' <= c && c <= '9') || c
        == '\u{b9}' || c == '\u{b2}' || c == '\u{b3}')
}

/// Validates one Windows filename component.
pub fn validate_name(name: &str) -> (r: Result<()>)
    ensures
        r is Ok <==> name_valid(name@),
        r matches Err(e) ==> e.spec_kind() == ErrorKind::Usage && e.spec_message()
            == invalid_name_message(),
{
    let cs = chars_of(name);
    let n = cs.len();
    let mut ok = n > 0 && !utf16_units_exceed(&cs, 255);
    if ok {
        let last = cs[n - 1];
        ok = last != '.' && last != ' ';
    }
    if ok {
        let mut i: usize = 0;
        while i < n
            invariant
                n == cs@.len(),
                cs@ == name@,
                i <= n,
                forall|j: int| 0 <= j < i ==> !forbidden_char(#[trigger] cs@[j]),
            decreases n - i,
        {
            let c = cs[i];
            let code = c as u32;
            if code < 0x20 || (0x7f <= code && code <= 0x9f) || c == '<' || c == '>' || c == ':'
                || c == '"' || c == '/' || c == '\\' || c == '|' || c == '?' || c == '*' {
                return Err(Error::new(ErrorKind::Usage, "Invalid Windows command name"));
            }
            i = i + 1;
        }
        let d = device_stem_chars(&cs);
        ok = !is_reserved_device(&d);
    }
    if !ok {
        return Err(Error::new(ErrorKind::Usage, "Invalid Windows command name"));
    }
    Ok(())
}

/// Canonical name, without Unicode normalization or linguistic expansion.
#[derive(Clone, Debug, PartialEq, Eq, PartialOrd, Ord, Hash)]
pub struct CommandKey(String);

impl View for CommandKey {
    type V = Seq<char>;

    closed spec fn view(&self) -> Seq<char> {
        self.0@
    }
}

/// The key made from a platform mapping: the mapping's failure as is, the mapped text
/// when it is a valid component, else the invalid-name usage error.
pub open spec fn mapping_outcome(mapped: Result<String>, r: Result<CommandKey>) -> bool {
    match mapped {
        Err(e) => r == Err::<CommandKey, Error>(e),
        Ok(s) => if name_valid(s@) {
            r matches Ok(k) && k@ == s@
        } else {
            r matches Err(e) && e.spec_kind() == ErrorKind::Usage && e.spec_message()
                == invalid_name_message()
        },
    }
}

/// The key for `name`: an invalid name is refused without asking the mapper; a valid
/// one is handed to the mapper, and its answer becomes the key as `mapping_outcome`
/// says.
pub open spec fn mapped_key<M: CommandCaseMapper>(mapper: &M, name: Seq<char>, r: Result<CommandKey>) -> bool {
    if name_valid(name) {
        exists|arg: &str, m: Result<String>|
            arg@ == name && #[trigger] call_ensures(M::uppercase, (mapper, arg), m) && mapping_outcome(m, r)
    } else {
        r matches Err(e) && e.spec_kind() == ErrorKind::Usage && e.spec_message() == invalid_name_message()
    }
}

impl CommandKey {
    /// Validates one Windows filename component and applies platform casing; the
    /// mapped name must itself be a valid component.
    pub fn new<M: CommandCaseMapper>(name: &str, mapper: &M) -> (r: Result<Self>)
        ensures
            mapped_key(mapper, name@, r),
            r matches Ok(k) ==> name_valid(name@) && name_valid(k@),
    {
        match validate_name(name) {
            Ok(()) => {},
            Err(e) => return Err(e),
        }
        let mapped = mapper.uppercase(name);
        proof {
            assert(call_ensures(M::uppercase, (mapper, name), mapped));
        }
        Self::from_mapping(mapped)
    }

    /// Accepts the platform's mapping of a name when it is a valid component.
    pub fn from_mapping(mapped: Result<String>) -> (r: Result<Self>)
        ensures
            mapping_outcome(mapped, r),
    {
        let canonical = match mapped {
            Ok(s) => s,
            Err(e) => return Err(e),
        };
        match validate_name(canonical.as_str()) {
            Ok(()) => Ok(CommandKey(canonical)),
            Err(e) => Err(e),
        }
    }

    /// Mapped name, not original display spelling.
    pub fn as_str(&self) -> (r: &str)
        ensures
            r@ == self@,
    {
        self.0.as_str()
    }

    /// A copy of the key.
    pub fn duplicate(&self) -> (r: Self)
        ensures
            r@ == self@,
    {
        CommandKey(self.0.clone())
    }

    /// Whether two keys are the same name.
    pub fn same(&self, other: &Self) -> (r: bool)
        ensures
            r == (self@ == other@),
    {
        let a = chars_of(self.0.as_str());
        let b = chars_of(other.0.as_str());
        crate::text::chars_eq(&a, &b)
    }
}

/// Supported extensions in fixed precedence order; PATHEXT is deliberately not read.
#[derive(Clone, Copy, Debug, PartialEq, Eq, PartialOrd, Ord, Hash, Structural)]
pub enum CommandExtension {
    /// Native executable.
    Exe,
    /// COM-named native executable.
    Com,
    /// Command Prompt script.
    Cmd,
    /// Batch script.
    Bat,
    /// `PowerShell` script.
    PowerShell,
}

/// Position of an extension in precedence order.
pub open spec fn extension_rank(e: CommandExtension) -> int {
    match e {
        CommandExtension::Exe => 0,
        CommandExtension::Com => 1,
        CommandExtension::Cmd => 2,
        CommandExtension::Bat => 3,
        CommandExtension::PowerShell => 4,
    }
}

/// The extension a lowercase suffix names.
pub open spec fn extension_of(s: Seq<char>) -> Option<CommandExtension> {
    if s == "exe"@ {
        Some(CommandExtension::Exe)
    } else if s == "com"@ {
        Some(CommandExtension::Com)
    } else if s == "cmd"@ {
        Some(CommandExtension::Cmd)
    } else if s == "bat"@ {
        Some(CommandExtension::Bat)
    } else if s == "ps1"@ {
        Some(CommandExtension::PowerShell)
    } else {
        None
    }
}

/// Index of the last occurrence of `c`, or `-1`.
pub open spec fn last_index_of(s: Seq<char>, c: char) -> int
    decreases s.len(),
{
    if s.len() == 0 {
        -1
    } else if s.last() == c {
        s.len() - 1
    } else {
        last_index_of(s.drop_last(), c)
    }
}

proof fn lemma_last_index_of(s: Seq<char>, c: char)
    ensures
        -1 <= last_index_of(s, c) < s.len(),
        last_index_of(s, c) >= 0 ==> s[last_index_of(s, c)] == c,
    decreases s.len(),
{
    if s.len() > 0 && s.last() != c {
        lemma_last_index_of(s.drop_last(), c);
    }
}

/// The stem and extension of a name split at its last dot, when the suffix
/// (in any ASCII case) is a supported extension.
pub open spec fn spec_split(t: Seq<char>) -> Option<(Seq<char>, CommandExtension)> {
    let k = last_index_of(t, '.');
    if k < 0 {
        None
    } else {
        match extension_of(lower_seq(t.skip(k + 1))) {
            Some(e) => Some((t.take(k), e)),
            None => None,
        }
    }
}

fn rfind_char(s: &[char], c: char) -> (r: Option<usize>)
    ensures
        match r {
            Some(i) => i as int == last_index_of(s@, c) && i < s@.len(),
            None => last_index_of(s@, c) == -1,
        },
{
    let mut i = s.len();
    assert(s@.take(s@.len() as int) =~= s@);
    while i > 0
        invariant
            i <= s@.len(),
            last_index_of(s@, c) == last_index_of(s@.take(i as int), c),
        decreases i,
    {
        proof {
            assert(s@.take(i as int).drop_last() =~= s@.take(i - 1));
        }
        if s[i - 1] == c {
            return Some(i - 1);
        }
        i = i - 1;
    }
    proof {
        assert(s@.take(s@.len() as int) =~= s@);
    }
    None
}

impl CommandExtension {
    /// Splits the final supported extension without changing the original stem.
    pub fn split(name: &str) -> (r: Option<(String, Self)>)
        ensures
            match r {
                Some((stem, e)) => spec_split(name@) == Some((stem@, e)),
                None => spec_split(name@) is None,
            },
    {
        let cs = chars_of(name);
        let n = cs.len();
        let k = match rfind_char(&cs, '.') {
            Some(k) => k,
            None => return None,
        };
        let suffix = slice_chars(&cs, k + 1, n);
        let lowered = lower_chars(&suffix);
        assert(suffix@ == cs@.skip(k + 1));
        let extension = if chars_eq_str(&lowered, "exe") {
            CommandExtension::Exe
        } else if chars_eq_str(&lowered, "com") {
            CommandExtension::Com
        } else if chars_eq_str(&lowered, "cmd") {
            CommandExtension::Cmd
        } else if chars_eq_str(&lowered, "bat") {
            CommandExtension::Bat
        } else if chars_eq_str(&lowered, "ps1") {
            CommandExtension::PowerShell
        } else {
            return None;
        };
        let stem = slice_chars(&cs, 0, k);
        assert(stem@ == cs@.take(k as int));
        Some((string_of(&stem), extension))
    }
}

/// Bare logical names and explicit filenames have separate namespaces.
#[derive(Clone, Debug, PartialEq, Eq, PartialOrd, Ord, Hash)]
pub enum CommandRequest {
    /// Logical stem, e.g. `pip`.
    Bare(CommandKey),
    /// Full filename, e.g. `pip.cmd`.
    Exact(CommandKey),
}

/// A request with its key taken as text.
pub enum RequestView {
    Bare(Seq<char>),
    Exact(Seq<char>),
}

impl View for CommandRequest {
    type V = RequestView;

    open spec fn view(&self) -> RequestView {
        match self {
            CommandRequest::Bare(k) => RequestView::Bare(k@),
            CommandRequest::Exact(k) => RequestView::Exact(k@),
        }
    }
}

/// Names that belong to the manager or to the official `py` launcher.
pub open spec fn reserved_stem(t: Seq<char>) -> bool {
    let d = lower_seq(first_segment(t));
    ||| d == "py"@
    ||| d == "pyrudder"@
    ||| (d.len() >= 9 && d.take(9) == "pyrudder-"@)
}

/// Protects the manager namespace and avoids taking over the official Python launcher.
pub fn is_reserved(stem: &str) -> (r: bool)
    ensures
        r == reserved_stem(stem@),
{
    let cs = chars_of(stem);
    let first = match find_char(&cs, '.') {
        Some(k) => slice_chars(&cs, 0, k),
        None => slice_chars(&cs, 0, cs.len()),
    };
    proof {
        lemma_index_of(cs@, '.');
        assert(first@ =~= first_segment(cs@));
    }
    let d = lower_chars(&first);
    proof {
        reveal_strlit("pyrudder-");
    }
    chars_eq_str(&d, "py") || chars_eq_str(&d, "pyrudder") || starts_with_str(&d, "pyrudder-")
}

} // verus!
