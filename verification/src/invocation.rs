//! Decisions the command-line front end takes before and after a command runs.
use vstd::prelude::*;

use crate::config::PathConfig;
use crate::error::{invalid_input, ErrorKind, Result};
use crate::paths::{path_parent, spec_path_parent};
use crate::text::chars_eq_str;
use crate::text::chars_of;

verus! {

/// Whether an argument is exactly the given text; arguments that are not Unicode
/// (`None`) equal nothing.
pub open spec fn arg_is(a: Option<String>, t: Seq<char>) -> bool {
    a matches Some(s) && s@ == t
}

/// Whether some argument from position `from` on, before the first `--`, is `flag`.
pub open spec fn flag_before_separator(args: Seq<Option<String>>, from: int, flag: Seq<char>) -> bool {
    exists|i: int| from <= i < args.len() && arg_is(#[trigger] args[i], flag) && forall|j: int| from <= j < i ==> !arg_is(#[trigger] args[j], "--"@)
}

/// What the raw arguments say before they are parsed.
#[derive(Clone, Copy, Debug, PartialEq, Eq, Structural)]
pub struct EarlyFlags {
    /// `--version` (or `-V`) came with other arguments.
    pub version_misuse: bool,
    /// Parse errors are to be reported as JSON.
    pub json_errors: bool,
    /// Help and diagnostics are to be printed without colour.
    pub no_color: bool,
}

fn arg_equals(a: &Option<String>, t: &str) -> (r: bool)
    ensures
        r == arg_is(*a, t@),
{
    match a {
        Some(s) => {
            let cs = chars_of(s.as_str());
            chars_eq_str(cs.as_slice(), t)
        },
        None => false,
    }
}

fn flag_scan(args: &[Option<String>], from: usize, flag: &str) -> (r: bool)
    requires
        from <= args.len(),
        flag@ != "--"@,
    ensures
        r == flag_before_separator(args@, from as int, flag@),
{
    let mut i: usize = from;
    while i < args.len()
        invariant
            from <= i <= args.len(),
            flag@ != "--"@,
            forall|j: int| from <= j < i ==> !arg_is(#[trigger] args@[j], "--"@) && !arg_is(args@[j], flag@),
        decreases args.len() - i,
    {
        if arg_equals(&args[i], "--") {
            proof {
                assert forall|k: int| from <= k < args@.len() && arg_is(#[trigger] args@[k], flag@) implies !(
                forall|j: int| from <= j < k ==> !arg_is(#[trigger] args@[j], "--"@)) by {
                    if k > i {
                        assert(arg_is(args@[i as int], "--"@));
                    } else if k == i {
                        assert(args@[k] matches Some(s) && s@ == flag@ && s@ == "--"@);
                    }
                }
            }
            return false;
        }
        if arg_equals(&args[i], flag) {
            return true;
        }
        i = i + 1;
    }
    false
}

/// Reads the flags that matter before argument parsing.
pub fn early_flags(args: &[Option<String>]) -> (r: EarlyFlags)
    ensures
        r.version_misuse == (args@.len() >= 2 && (arg_is(args@[1], "--version"@) || arg_is(args@[1], "-V"@))
            && args@.len() != 2),
        r.json_errors == (args@.len() >= 1 && flag_before_separator(args@, 1, "--json"@)),
        r.no_color == flag_before_separator(args@, 0, "--no-color"@),
{
    proof {
        reveal_strlit("--");
        reveal_strlit("--json");
        reveal_strlit("--no-color");
        assert("--json"@.len() != "--"@.len());
        assert("--no-color"@.len() != "--"@.len());
    }
    let version_misuse = args.len() >= 2 && (arg_equals(&args[1], "--version") || arg_equals(&args[1], "-V"))
        && args.len() != 2;
    let json_errors = args.len() >= 1 && flag_scan(args, 1, "--json");
    let no_color = flag_scan(args, 0, "--no-color");
    EarlyFlags { version_misuse, json_errors, no_color }
}


/// How a command ended, as far as presenting it is concerned.
#[derive(Clone, Copy, Debug, PartialEq, Eq, Structural)]
pub enum OutcomeKind {
    /// A dispatched child process exited with this code.
    Child(i32),
    /// Text meant for the terminal.
    Text,
    /// Structured data.
    Data,
    /// A management error.
    Failed,
}

/// What the front end prints for an outcome.
#[derive(Clone, Copy, Debug, PartialEq, Eq, Structural)]
pub enum Presentation {
    /// Exit with the child's code, printing nothing.
    ExitWith(i32),
    /// Print the text as it is.
    PlainText,
    /// Print the aligned table of registered runtimes.
    RuntimeTable,
    /// Print the list of available versions.
    ReleaseTable,
    /// Print `{"schema_version":1,"ok":true,"data":...}` on one line.
    JsonEnvelope,
    /// Print the data as indented JSON.
    PrettyJson,
    /// Print nothing.
    Silent,
    /// Print the error as a JSON object on standard error and exit with its code.
    JsonError,
    /// Print the error text on standard error and exit with its code.
    TextError,
}

pub open spec fn presentation_of(outcome: OutcomeKind, quiet: bool, json: bool, listing: bool, available: bool) -> Presentation {
    match outcome {
        OutcomeKind::Child(code) => Presentation::ExitWith(code),
        OutcomeKind::Text => Presentation::PlainText,
        OutcomeKind::Data => if quiet {
            Presentation::Silent
        } else if !json && listing {
            Presentation::RuntimeTable
        } else if !json && available {
            Presentation::ReleaseTable
        } else if json {
            Presentation::JsonEnvelope
        } else {
            Presentation::PrettyJson
        },
        OutcomeKind::Failed => if json {
            Presentation::JsonError
        } else {
            Presentation::TextError
        },
    }
}

/// Chooses the presentation of an outcome: `listing` and `available` say whether the
/// command was `list` or `available`; `--quiet` silences data but never errors or text.
pub fn presentation(outcome: OutcomeKind, quiet: bool, json: bool, listing: bool, available: bool) -> (r:
    Presentation)
    ensures
        r == presentation_of(outcome, quiet, json, listing, available),
{
    match outcome {
        OutcomeKind::Child(code) => Presentation::ExitWith(code),
        OutcomeKind::Text => Presentation::PlainText,
        OutcomeKind::Data => {
            if quiet {
                Presentation::Silent
            } else if !json && listing {
                Presentation::RuntimeTable
            } else if !json && available {
                Presentation::ReleaseTable
            } else if json {
                Presentation::JsonEnvelope
            } else {
                Presentation::PrettyJson
            }
        },
        OutcomeKind::Failed => {
            if json {
                Presentation::JsonError
            } else {
                Presentation::TextError
            }
        },
    }
}


/// The helper an elevated copy of the command-line program runs.
#[derive(Clone, Copy, Debug, PartialEq, Eq, Structural)]
pub enum ElevatedHelper {
    /// Publishes or removes this installation's machine PATH entries.
    SystemPath,
    /// Repairs or restores one user's duplicated Store PATH entry.
    StorePath,
}

/// The arguments of an elevated helper run: every effective location pinned, so that
/// another account's environment cannot redirect it, then the helper, the user it
/// acts for, and its undo flag when undoing.
pub open spec fn elevated_argument_texts(
    paths: PathConfig,
    home: Seq<char>,
    helper: ElevatedHelper,
    owner_sid: Seq<char>,
    undo: bool,
) -> Seq<Seq<char>> {
    let pinned = seq![
        "--home"@, home,
        "--config-dir"@, paths.config_dir@,
        "--install-dir"@, paths.install_dir@,
        "--shims-dir"@, paths.shims_dir@,
        "--runtimes-dir"@, paths.runtimes_dir@,
        "--downloads-dir"@, paths.downloads_dir@,
        "--cache-dir"@, paths.cache_dir@,
        "--temp-dir"@, paths.temp_dir@,
    ];
    let (name, flag) = match helper {
        ElevatedHelper::SystemPath => ("__system-path"@, "--remove"@),
        ElevatedHelper::StorePath => ("__store-path"@, "--restore"@),
    };
    let call = seq![name, "--owner-sid"@, owner_sid];
    pinned + call + if undo {
        seq![flag]
    } else {
        Seq::empty()
    }
}

pub open spec fn no_parent_message() -> Seq<char> {
    "CLI installation has no parent directory"@
}

/// The arguments for running a helper elevated; the home pinned is the parent of the
/// program directory.
pub fn elevated_arguments(paths: &PathConfig, helper: ElevatedHelper, owner_sid: &str, undo: bool) -> (r: Result<
    Vec<String>,
>)
    ensures
        match spec_path_parent(paths.install_dir@) {
            None => r matches Err(e) && e.spec_kind() == ErrorKind::Usage && e.spec_message()
                == no_parent_message(),
            Some(home) => r matches Ok(v) && v@.map_values(|a: String| a@) == elevated_argument_texts(
                *paths,
                home,
                helper,
                owner_sid@,
                undo,
            ),
        },
{
    let home = match path_parent(paths.install_dir.as_str()) {
        Some(h) => h,
        None => return Err(invalid_input("CLI installation has no parent directory")),
    };
    let mut v: Vec<String> = Vec::new();
    v.push("--home".to_string());
    v.push(home);
    v.push("--config-dir".to_string());
    v.push(paths.config_dir.clone());
    v.push("--install-dir".to_string());
    v.push(paths.install_dir.clone());
    v.push("--shims-dir".to_string());
    v.push(paths.shims_dir.clone());
    v.push("--runtimes-dir".to_string());
    v.push(paths.runtimes_dir.clone());
    v.push("--downloads-dir".to_string());
    v.push(paths.downloads_dir.clone());
    v.push("--cache-dir".to_string());
    v.push(paths.cache_dir.clone());
    v.push("--temp-dir".to_string());
    v.push(paths.temp_dir.clone());
    match helper {
        ElevatedHelper::SystemPath => v.push("__system-path".to_string()),
        ElevatedHelper::StorePath => v.push("__store-path".to_string()),
    }
    v.push("--owner-sid".to_string());
    v.push(owner_sid.to_string());
    if undo {
        match helper {
            ElevatedHelper::SystemPath => v.push("--remove".to_string()),
            ElevatedHelper::StorePath => v.push("--restore".to_string()),
        }
    }
    proof {
        let h = spec_path_parent(paths.install_dir@)->0;
        assert(v@.map_values(|a: String| a@) =~= elevated_argument_texts(*paths, h, helper, owner_sid@, undo));
    }
    Ok(v)
}

} // verus!
