//! Configuration types and source precedence: CLI, environment, file, then defaults.
//!
//! The configuration file is TOML; the library checks its size, encoding and
//! schema, and merges the decoded document with the other sources.
use crate::error::{Error, ErrorKind, Result};
use crate::paths::{path_join, paths_overlap, spec_path_join, spec_paths_overlap};
use crate::resolver::ShellValue;
use crate::state::{decode_text, escape_debug, StateFileSystem};
use crate::text::{chars_of, push_str, slice_chars, string_of};
use vstd::prelude::*;

verus! {

/// Maximum user configuration size in bytes.
pub const MAX_CONFIG_BYTES: usize = 65_536;

/// Optional path settings; precedence is CLI, environment, file, then defaults.
#[derive(Clone, Debug, Default, PartialEq, Eq)]
pub struct PathOverrides {
    /// Program directory.
    pub install_dir: Option<String>,
    /// Managed runtimes directory.
    pub runtimes_dir: Option<String>,
    /// Downloaded artifacts directory.
    pub downloads_dir: Option<String>,
    /// Rebuildable cache directory.
    pub cache_dir: Option<String>,
    /// Temporary data directory.
    pub temp_dir: Option<String>,
    /// Stable shim directory.
    pub shims_dir: Option<String>,
    /// Configuration location, allowed only from CLI or environment to avoid recursive lookup.
    pub config_dir: Option<String>,
}

/// The current-shell selection as captured from the environment.
#[derive(Clone, Debug, PartialEq, Eq)]
pub enum ShellText {
    /// Unicode text.
    Text(String),
    /// A value that is not valid Unicode.
    NotUnicode,
}

impl ShellText {
    /// The captured value, borrowed for resolution.
    pub fn as_value(&self) -> (r: ShellValue<'_>)
        ensures
            match self {
                ShellText::Text(t) => r matches ShellValue::Text(s) && s@ == t@,
                ShellText::NotUnicode => r == ShellValue::NotUnicode,
            },
    {
        match self {
            ShellText::Text(t) => ShellValue::Text(t.as_str()),
            ShellText::NotUnicode => ShellValue::NotUnicode,
        }
    }
}

/// An injectable environment snapshot; no process-global mutation is needed for tests.
#[derive(Clone, Debug, Default, PartialEq, Eq)]
pub struct ConfigEnvironment {
    /// Windows local application-data directory.
    pub local_app_data: Option<String>,
    /// Windows roaming application-data directory.
    pub roaming_app_data: Option<String>,
    /// Optional base for defaults; individually configured paths still take precedence.
    pub home: Option<String>,
    /// Individual path environment overrides.
    pub paths: PathOverrides,
    /// Raw current-shell selection; validate only if this source is reached.
    pub version: Option<ShellText>,
}

/// Trusted command-line overrides; project selection files cannot provide these settings.
#[derive(Clone, Debug, Default, PartialEq, Eq)]
pub struct ConfigOverrides {
    /// Optional path overrides.
    pub paths: PathOverrides,
    /// Optional system-fallback policy override.
    pub system_fallback: Option<bool>,
}

/// Effective configuration; loading does not create directories or modify PATH.
#[derive(Clone, Debug, PartialEq, Eq)]
pub struct Configuration {
    /// Normalized effective directories.
    pub paths: PathConfig,
    /// Whether system intent may be resolved; dispatch must still filter PATH.
    pub system_fallback: bool,
    /// The user configuration file actually loaded, if any.
    pub loaded_file: Option<String>,
}

/// Independently configurable filesystem locations used by `PyRudder`.
#[derive(Clone, Debug, PartialEq, Eq)]
pub struct PathConfig {
    /// Directory containing the `PyRudder` program binaries.
    pub install_dir: String,
    /// Default destination for managed Python runtimes.
    pub runtimes_dir: String,
    /// Directory containing complete downloaded artifacts.
    pub downloads_dir: String,
    /// Directory containing rebuildable metadata and HTTP cache data.
    pub cache_dir: String,
    /// Directory containing temporary download data.
    pub temp_dir: String,
    /// Stable command-entry directory placed on `PATH`.
    pub shims_dir: String,
    /// Directory containing user configuration and durable state.
    pub config_dir: String,
}

/// The decoded configuration file: `schema_version`, optional `[paths]` and the
/// `[commands]` policy.
#[derive(Clone, Debug, PartialEq, Eq)]
pub struct ConfigDocument {
    /// Declared schema; only 1 is supported.
    pub schema_version: u32,
    /// Path settings from the file.
    pub paths: PathOverrides,
    /// `commands.system_fallback`.
    pub system_fallback: bool,
}

impl ConfigDocument {
    /// The document a missing configuration file stands for.
    pub fn absent() -> (r: Self)
        ensures
            r.schema_version == 1,
            r.paths.install_dir is None && r.paths.runtimes_dir is None && r.paths.downloads_dir is None
                && r.paths.cache_dir is None && r.paths.temp_dir is None && r.paths.shims_dir is None
                && r.paths.config_dir is None,
            !r.system_fallback,
    {
        ConfigDocument {
            schema_version: 1,
            paths: PathOverrides {
                install_dir: None,
                runtimes_dir: None,
                downloads_dir: None,
                cache_dir: None,
                temp_dir: None,
                shims_dir: None,
                config_dir: None,
            },
            system_fallback: false,
        }
    }
}

// ---------------------------------------------------------------------------
// The configuration file
// ---------------------------------------------------------------------------

/// The text handed to the TOML decoder: the UTF-8 contents without one leading BOM.
pub open spec fn config_text_of(t: Seq<char>) -> Seq<char> {
    if t.len() > 0 && t[0] == '\u{feff}' {
        t.drop_first()
    } else {
        t
    }
}

/// Checks size and encoding of a configuration file and returns its text.
pub fn config_text(bytes: &[u8]) -> (r: Result<String>)
    ensures
        bytes@.len() > MAX_CONFIG_BYTES ==> (r matches Err(e) && e.spec_kind() == ErrorKind::Usage
            && e.spec_message() == "Configuration exceeds 65536 bytes"@),
        bytes@.len() <= MAX_CONFIG_BYTES ==> match crate::state::decoded_text(bytes@) {
            None => r matches Err(e) && e.spec_kind() == ErrorKind::Usage && e.spec_message()
                == "Configuration must be UTF-8"@,
            Some(t) => r matches Ok(s) && s@ == config_text_of(t),
        },
{
    if bytes.len() > MAX_CONFIG_BYTES {
        return Err(Error::new(ErrorKind::Usage, "Configuration exceeds 65536 bytes"));
    }
    let text = match decode_text(bytes) {
        Some(t) => t,
        None => return Err(Error::new(ErrorKind::Usage, "Configuration must be UTF-8")),
    };
    let cs = chars_of(text.as_str());
    if cs.len() > 0 && cs[0] == '\u{feff}' {
        let rest = slice_chars(&cs, 1, cs.len());
        proof {
            assert(rest@ =~= cs@.drop_first());
        }
        Ok(string_of(&rest))
    } else {
        Ok(text)
    }
}

/// A decoded document is accepted only with schema 1 and without a self-redirect.
pub fn check_document(document: &ConfigDocument) -> (r: Result<()>)
    ensures
        r is Ok <==> (document.schema_version == 1 && document.paths.config_dir is None),
        document.schema_version != 1 ==> (r matches Err(e) && e.spec_kind() == ErrorKind::Usage
            && e.spec_message() == "Unsupported configuration schema_version; expected 1"@),
        document.schema_version == 1 && document.paths.config_dir is Some ==> (r matches Err(e)
            && e.spec_kind() == ErrorKind::Usage && e.spec_message()
            == "config_dir cannot redirect its own configuration file"@ && e.spec_hint() == Some(
            "Set PYRUDDER_CONFIG_DIR or a command-line config directory instead"@,
        )),
{
    if document.schema_version != 1 {
        return Err(
            Error::new(ErrorKind::Usage, "Unsupported configuration schema_version; expected 1"),
        );
    }
    if document.paths.config_dir.is_some() {
        return Err(
            Error::new(ErrorKind::Usage, "config_dir cannot redirect its own configuration file").with_hint(
                "Set PYRUDDER_CONFIG_DIR or a command-line config directory instead",
            ),
        );
    }
    Ok(())
}

/// The hint attached to every error about the user configuration file.
pub open spec fn config_hint(file: Seq<char>) -> Seq<char> {
    "Check user configuration \""@ + crate::state::escaped_text(file)
        + "\"; config_dir must be set outside this file"@
}

/// Names the configuration file in an error, keeping its category and message.
pub fn with_config_hint(error: Error, file: &str) -> (r: Error)
    ensures
        r.spec_kind() == error.spec_kind(),
        r.spec_message() == error.spec_message(),
        r.spec_hint() == Some(config_hint(file@)),
{
    let mut hint = String::new();
    push_str(&mut hint, "Check user configuration \"");
    let escaped = escape_debug(file);
    push_str(&mut hint, escaped.as_str());
    push_str(&mut hint, "\"; config_dir must be set outside this file");
    proof {
        assert(hint@ =~= config_hint(file@));
    }
    error.with_hint(hint.as_str())
}

// ---------------------------------------------------------------------------
// Precedence
// ---------------------------------------------------------------------------

pub open spec fn opt_text(o: Option<String>) -> Option<Seq<char>> {
    match o {
        Some(s) => Some(s@),
        None => None,
    }
}

/// The first configured value in precedence order.
pub open spec fn first_of(
    cli: Option<Seq<char>>,
    env: Option<Seq<char>>,
    file: Option<Seq<char>>,
    default: Option<Seq<char>>,
) -> Option<Seq<char>> {
    if cli is Some {
        cli
    } else if env is Some {
        env
    } else if file is Some {
        file
    } else {
        default
    }
}

fn first_path(
    cli: &Option<String>,
    env: &Option<String>,
    file: &Option<String>,
    default: &Option<String>,
) -> (r: Option<String>)
    ensures
        opt_text(r) == first_of(opt_text(*cli), opt_text(*env), opt_text(*file), opt_text(*default)),
{
    if let Some(p) = cli {
        Some(p.clone())
    } else if let Some(p) = env {
        Some(p.clone())
    } else if let Some(p) = file {
        Some(p.clone())
    } else if let Some(p) = default {
        Some(p.clone())
    } else {
        None
    }
}

/// The default location of the configuration directory: `<home>\config`, else
/// `<roaming>\PyRudder`.
pub open spec fn config_default(env: ConfigEnvironment) -> Option<Seq<char>> {
    match env.home {
        Some(h) => Some(spec_path_join(h@, "config"@)),
        None => match env.roaming_app_data {
            Some(r) => Some(spec_path_join(r@, "PyRudder"@)),
            None => None,
        },
    }
}

/// The base of the data directories: the home directory, else `<local>\PyRudder`.
pub open spec fn data_base(env: ConfigEnvironment) -> Option<Seq<char>> {
    match env.home {
        Some(h) => Some(h@),
        None => match env.local_app_data {
            Some(l) => Some(spec_path_join(l@, "PyRudder"@)),
            None => None,
        },
    }
}

pub open spec fn under(base: Option<Seq<char>>, leaf: Seq<char>) -> Option<Seq<char>> {
    match base {
        Some(b) => Some(spec_path_join(b, leaf)),
        None => None,
    }
}

/// Raw (not yet normalized) choices for every location.
#[derive(Clone, Debug, PartialEq, Eq)]
pub struct PathChoices {
    pub install_dir: Option<String>,
    pub runtimes_dir: Option<String>,
    pub downloads_dir: Option<String>,
    pub cache_dir: Option<String>,
    pub temp_dir: Option<String>,
    pub shims_dir: Option<String>,
    pub config_dir: Option<String>,
}

/// The configuration directory comes from the CLI, the environment, or its default;
/// never from the file it locates.
pub fn choose_config_dir(environment: &ConfigEnvironment, cli: &ConfigOverrides) -> (r: Option<String>)
    ensures
        opt_text(r) == first_of(
            opt_text(cli.paths.config_dir),
            opt_text(environment.paths.config_dir),
            None,
            config_default(*environment),
        ),
{
    let default = match &environment.home {
        Some(h) => Some(path_join(h.as_str(), "config")),
        None => match &environment.roaming_app_data {
            Some(r) => Some(path_join(r.as_str(), "PyRudder")),
            None => None,
        },
    };
    first_path(&cli.paths.config_dir, &environment.paths.config_dir, &None, &default)
}

/// Every data location: CLI > environment > file > `<base>\<leaf>`.
pub fn choose_paths(environment: &ConfigEnvironment, cli: &ConfigOverrides, file: &PathOverrides) -> (r:
    PathChoices)
    ensures
        opt_text(r.install_dir) == first_of(opt_text(cli.paths.install_dir), opt_text(environment.paths.install_dir), opt_text(file.install_dir), under(data_base(*environment), "bin"@)),
        opt_text(r.runtimes_dir) == first_of(opt_text(cli.paths.runtimes_dir), opt_text(environment.paths.runtimes_dir), opt_text(file.runtimes_dir), under(data_base(*environment), "runtimes"@)),
        opt_text(r.downloads_dir) == first_of(opt_text(cli.paths.downloads_dir), opt_text(environment.paths.downloads_dir), opt_text(file.downloads_dir), under(data_base(*environment), "downloads"@)),
        opt_text(r.cache_dir) == first_of(opt_text(cli.paths.cache_dir), opt_text(environment.paths.cache_dir), opt_text(file.cache_dir), under(data_base(*environment), "cache"@)),
        opt_text(r.temp_dir) == first_of(opt_text(cli.paths.temp_dir), opt_text(environment.paths.temp_dir), opt_text(file.temp_dir), under(data_base(*environment), "temp"@)),
        opt_text(r.shims_dir) == first_of(opt_text(cli.paths.shims_dir), opt_text(environment.paths.shims_dir), opt_text(file.shims_dir), under(data_base(*environment), "shims"@)),
        opt_text(r.config_dir) == first_of(opt_text(cli.paths.config_dir), opt_text(environment.paths.config_dir), None, config_default(*environment)),
{
    let base = match &environment.home {
        Some(h) => Some(h.clone()),
        None => match &environment.local_app_data {
            Some(l) => Some(path_join(l.as_str(), "PyRudder")),
            None => None,
        },
    };
    let leaf = |b: &Option<String>, name: &str| -> (r: Option<String>)
        ensures
            opt_text(r) == under(opt_text(*b), name@),
        {
            match b {
                Some(b) => Some(path_join(b.as_str(), name)),
                None => None,
            }
        };
    let install_default = leaf(&base, "bin");
    let runtimes_default = leaf(&base, "runtimes");
    let downloads_default = leaf(&base, "downloads");
    let cache_default = leaf(&base, "cache");
    let temp_default = leaf(&base, "temp");
    let shims_default = leaf(&base, "shims");
    PathChoices {
        install_dir: first_path(&cli.paths.install_dir, &environment.paths.install_dir, &file.install_dir, &install_default),
        runtimes_dir: first_path(&cli.paths.runtimes_dir, &environment.paths.runtimes_dir, &file.runtimes_dir, &runtimes_default),
        downloads_dir: first_path(&cli.paths.downloads_dir, &environment.paths.downloads_dir, &file.downloads_dir, &downloads_default),
        cache_dir: first_path(&cli.paths.cache_dir, &environment.paths.cache_dir, &file.cache_dir, &cache_default),
        temp_dir: first_path(&cli.paths.temp_dir, &environment.paths.temp_dir, &file.temp_dir, &temp_default),
        shims_dir: first_path(&cli.paths.shims_dir, &environment.paths.shims_dir, &file.shims_dir, &shims_default),
        config_dir: choose_config_dir(environment, cli),
    }
}

pub open spec fn missing_root_message() -> Seq<char> {
    "Missing application-data directory and explicit path override"@
}

pub open spec fn missing_root_hint() -> Seq<char> {
    "Set PYRUDDER_HOME or explicit absolute directory overrides"@
}

/// `a` is what the file system answered when asked to normalize the directory `p`.
pub open spec fn normalized_by<F: StateFileSystem>(fs: &F, p: Seq<char>, a: Result<String>) -> bool {
    exists|arg: &str| arg@ == p && #[trigger] call_ensures(F::normalize_directory, (fs, arg), a)
}

/// Normalizes a chosen location; a missing choice is a usage error.
pub fn select_path<F: StateFileSystem>(fs: &F, choice: &Option<String>) -> (r: Result<String>)
    ensures
        choice is None ==> (r matches Err(e) && e.spec_kind() == ErrorKind::Usage && e.spec_message()
            == missing_root_message() && e.spec_hint() == Some(missing_root_hint())),
        choice matches Some(p) ==> normalized_by(fs, p@, r),
{
    match choice {
        Some(p) => fs.normalize_directory(p.as_str()),
        None => Err(
            Error::new(ErrorKind::Usage, "Missing application-data directory and explicit path override").with_hint(
                "Set PYRUDDER_HOME or explicit absolute directory overrides",
            ),
        ),
    }
}

/// The file's path settings, or none when no file was loaded.
pub open spec fn file_paths(loaded: Option<(String, ConfigDocument)>) -> PathOverrides {
    match loaded {
        Some((_, d)) => d.paths,
        None => PathOverrides {
            install_dir: None,
            runtimes_dir: None,
            downloads_dir: None,
            cache_dir: None,
            temp_dir: None,
            shims_dir: None,
            config_dir: None,
        },
    }
}

/// The chosen (not yet normalized) data directories, in the order they are settled:
/// program, runtimes, downloads, cache, temporary files, shims.
pub open spec fn chosen_dirs(
    environment: ConfigEnvironment,
    cli: ConfigOverrides,
    loaded: Option<(String, ConfigDocument)>,
) -> Seq<Option<Seq<char>>> {
    let file = file_paths(loaded);
    let base = data_base(environment);
    seq![
        first_of(opt_text(cli.paths.install_dir), opt_text(environment.paths.install_dir), opt_text(file.install_dir), under(base, "bin"@)),
        first_of(opt_text(cli.paths.runtimes_dir), opt_text(environment.paths.runtimes_dir), opt_text(file.runtimes_dir), under(base, "runtimes"@)),
        first_of(opt_text(cli.paths.downloads_dir), opt_text(environment.paths.downloads_dir), opt_text(file.downloads_dir), under(base, "downloads"@)),
        first_of(opt_text(cli.paths.cache_dir), opt_text(environment.paths.cache_dir), opt_text(file.cache_dir), under(base, "cache"@)),
        first_of(opt_text(cli.paths.temp_dir), opt_text(environment.paths.temp_dir), opt_text(file.temp_dir), under(base, "temp"@)),
        first_of(opt_text(cli.paths.shims_dir), opt_text(environment.paths.shims_dir), opt_text(file.shims_dir), under(base, "shims"@)),
    ]
}

/// No data directory is set among these path settings (the configuration directory
/// aside).
pub open spec fn no_data_dirs(p: PathOverrides) -> bool {
    p.install_dir is None && p.runtimes_dir is None && p.downloads_dir is None && p.cache_dir is None
        && p.temp_dir is None && p.shims_dir is None
}

/// The default subdirectories of the data directories, in the order of `chosen_dirs`.
pub open spec fn default_leaves() -> Seq<Seq<char>> {
    seq!["bin"@, "runtimes"@, "downloads"@, "cache"@, "temp"@, "shims"@]
}

/// Without any explicit data directory, every data directory defaults under
/// `PYRUDDER_HOME` when it is set, whatever `LOCALAPPDATA` holds; only without it do they
/// default under `LOCALAPPDATA\PyRudder`; with neither, they have no choice.
pub proof fn home_is_the_default_base(
    environment: ConfigEnvironment,
    cli: ConfigOverrides,
    loaded: Option<(String, ConfigDocument)>,
)
    requires
        no_data_dirs(cli.paths),
        no_data_dirs(environment.paths),
        no_data_dirs(file_paths(loaded)),
    ensures
        forall|i: int|
            0 <= i < 6 ==> #[trigger] chosen_dirs(environment, cli, loaded)[i] == match environment.home {
                Some(h) => Some(spec_path_join(h@, default_leaves()[i])),
                None => match environment.local_app_data {
                    Some(l) => Some(spec_path_join(spec_path_join(l@, "PyRudder"@), default_leaves()[i])),
                    None => None,
                },
            },
{
}

/// The data directory setting at position `i` of `chosen_dirs`' order.
pub open spec fn dir_setting(p: PathOverrides, i: int) -> Option<String> {
    if i == 0 {
        p.install_dir
    } else if i == 1 {
        p.runtimes_dir
    } else if i == 2 {
        p.downloads_dir
    } else if i == 3 {
        p.cache_dir
    } else if i == 4 {
        p.temp_dir
    } else {
        p.shims_dir
    }
}

/// An explicit data directory wins over every default: a command-line value over all
/// others, then the environment's, then the file's.
pub proof fn explicit_directories_win(
    environment: ConfigEnvironment,
    cli: ConfigOverrides,
    loaded: Option<(String, ConfigDocument)>,
)
    ensures
        forall|i: int|
            0 <= i < 6 ==> {
                let chosen = #[trigger] chosen_dirs(environment, cli, loaded)[i];
                &&& dir_setting(cli.paths, i) is Some ==> chosen == Some(dir_setting(cli.paths, i)->0@)
                &&& dir_setting(cli.paths, i) is None && dir_setting(environment.paths, i) is Some
                    ==> chosen == Some(dir_setting(environment.paths, i)->0@)
                &&& dir_setting(cli.paths, i) is None && dir_setting(environment.paths, i) is None
                    && dir_setting(file_paths(loaded), i) is Some ==> chosen == Some(
                    dir_setting(file_paths(loaded), i)->0@,
                )
            },
{
}

/// The configuration directory comes from the command line, else the environment,
/// else `PYRUDDER_HOME\config`, else `APPDATA\PyRudder`; never from the file itself.
pub proof fn config_directory_precedence(environment: ConfigEnvironment, cli: ConfigOverrides)
    ensures
        first_of(
            opt_text(cli.paths.config_dir),
            opt_text(environment.paths.config_dir),
            None,
            config_default(environment),
        ) == if cli.paths.config_dir is Some {
            Some(cli.paths.config_dir->0@)
        } else if environment.paths.config_dir is Some {
            Some(environment.paths.config_dir->0@)
        } else if environment.home is Some {
            Some(spec_path_join(environment.home->0@, "config"@))
        } else if environment.roaming_app_data is Some {
            Some(spec_path_join(environment.roaming_app_data->0@, "PyRudder"@))
        } else {
            None
        },
{
}

/// The first failed answer from position `i` on, in order.
pub open spec fn first_failure(answers: Seq<Result<String>>, i: int) -> Option<Error>
    decreases answers.len() - i,
{
    if 0 <= i < answers.len() {
        match answers[i] {
            Err(e) => Some(e),
            Ok(_) => first_failure(answers, i + 1),
        }
    } else {
        None
    }
}

pub open spec fn answer_text(a: Result<String>) -> Seq<char> {
    match a {
        Ok(p) => p@,
        Err(_) => Seq::empty(),
    }
}

/// The configuration assembled from the six normalized directories (`answers`, in the
/// order of `chosen_dirs`): the first failure, or every directory as answered, with
/// the configuration directory, file and fallback policy given.
pub open spec fn assembled(
    answers: Seq<Result<String>>,
    config_dir: Seq<char>,
    loaded_file: Option<Seq<char>>,
    system_fallback: bool,
    r: Result<Configuration>,
) -> bool {
    &&& answers.len() == 6
    &&& match first_failure(answers, 0) {
        Some(e) => r == Err::<Configuration, Error>(e),
        None => r matches Ok(c) && c.paths.install_dir@ == answer_text(answers[0])
            && c.paths.runtimes_dir@ == answer_text(answers[1]) && c.paths.downloads_dir@
            == answer_text(answers[2]) && c.paths.cache_dir@ == answer_text(answers[3])
            && c.paths.temp_dir@ == answer_text(answers[4]) && c.paths.shims_dir@ == answer_text(
            answers[5],
        ) && c.paths.config_dir@ == config_dir && opt_text(c.loaded_file) == loaded_file
            && c.system_fallback == system_fallback,
    }
}

/// Whether the answers fit the choices: each directory that is reached (every earlier
/// one was settled) is answered by the file system normalizing its choice, or, when it
/// has no source at all, by the missing-location usage error without asking.
pub open spec fn answers_fit<F: StateFileSystem>(
    fs: &F,
    answers: Seq<Result<String>>,
    chosen: Seq<Option<Seq<char>>>,
) -> bool {
    &&& answers.len() == 6
    &&& forall|i: int|
        0 <= i < 6 && (forall|j: int| 0 <= j < i ==> answers[j] is Ok) ==> match #[trigger] chosen[i] {
            None => answers[i] matches Err(e) && e.spec_kind() == ErrorKind::Usage && e.spec_message()
                == missing_root_message() && e.spec_hint() == Some(missing_root_hint()),
            Some(p) => normalized_by(fs, p, answers[i]),
        }
}

/// Assembles the effective configuration from the normalized data directories, in
/// order program, runtimes, downloads, cache, temporary files and shims: the first
/// failure is the result, else every directory is its answer.
pub fn assemble_configuration(
    install_dir: Result<String>,
    runtimes_dir: Result<String>,
    downloads_dir: Result<String>,
    cache_dir: Result<String>,
    temp_dir: Result<String>,
    shims_dir: Result<String>,
    config_dir: String,
    loaded_file: Option<String>,
    system_fallback: bool,
) -> (r: Result<Configuration>)
    ensures
        assembled(
            seq![install_dir, runtimes_dir, downloads_dir, cache_dir, temp_dir, shims_dir],
            config_dir@,
            opt_text(loaded_file),
            system_fallback,
            r,
        ),
        r matches Ok(c) ==> c.paths.config_dir == config_dir && c.loaded_file == loaded_file,
{
    let ghost a = seq![install_dir, runtimes_dir, downloads_dir, cache_dir, temp_dir, shims_dir];
    proof {
        reveal_with_fuel(first_failure, 7);
    }
    let install_dir = match install_dir {
        Ok(p) => p,
        Err(e) => return Err(e),
    };
    let runtimes_dir = match runtimes_dir {
        Ok(p) => p,
        Err(e) => return Err(e),
    };
    let downloads_dir = match downloads_dir {
        Ok(p) => p,
        Err(e) => return Err(e),
    };
    let cache_dir = match cache_dir {
        Ok(p) => p,
        Err(e) => return Err(e),
    };
    let temp_dir = match temp_dir {
        Ok(p) => p,
        Err(e) => return Err(e),
    };
    let shims_dir = match shims_dir {
        Ok(p) => p,
        Err(e) => return Err(e),
    };
    Ok(
        Configuration {
            paths: PathConfig {
                install_dir,
                runtimes_dir,
                downloads_dir,
                cache_dir,
                temp_dir,
                shims_dir,
                config_dir,
            },
            system_fallback,
            loaded_file,
        },
    )
}

/// What merging yields: the configuration assembled from the file system's answers for
/// the six chosen directories (CLI > environment > file > default), with the given
/// configuration directory and file, and the fallback policy of the CLI, else the file.
pub open spec fn merge_outcome<F: StateFileSystem>(
    fs: &F,
    environment: ConfigEnvironment,
    cli: ConfigOverrides,
    config_dir: Seq<char>,
    loaded: Option<(String, ConfigDocument)>,
    r: Result<Configuration>,
) -> bool {
    let file = match loaded {
        Some((f, _)) => Some(f@),
        None => None::<Seq<char>>,
    };
    let fallback = match cli.system_fallback {
        Some(b) => b,
        None => match loaded {
            Some((_, d)) => d.system_fallback,
            None => false,
        },
    };
    &&& exists|answers: Seq<Result<String>>|
        #[trigger] answers_fit(fs, answers, chosen_dirs(environment, cli, loaded)) && assembled(
            answers,
            config_dir,
            file,
            fallback,
            r,
        )
    &&& r matches Ok(c) ==> c.paths.config_dir@ == config_dir && c.system_fallback == fallback && opt_text(
        c.loaded_file,
    ) == file
    &&& choose_paths_missing(&environment, &cli, loaded) ==> r is Err
}

/// Merges CLI > environment > file > defaults into the effective configuration, once
/// the configuration directory is known and its file (if any) was decoded.
pub fn merge_configuration<F: StateFileSystem>(
    fs: &F,
    environment: &ConfigEnvironment,
    cli: &ConfigOverrides,
    config_dir: String,
    loaded: Option<(String, ConfigDocument)>,
) -> (r: Result<Configuration>)
    ensures
        merge_outcome(fs, *environment, *cli, config_dir@, loaded, r),
        r matches Ok(c) ==> c.paths.config_dir == config_dir,
{
    let ghost chosen = chosen_dirs(*environment, *cli, loaded);
    let (loaded_file, document) = match loaded {
        Some((file, document)) => (Some(file), document),
        None => (None, ConfigDocument::absent()),
    };
    let choices = choose_paths(environment, cli, &document.paths);
    proof {
        assert(document.paths == file_paths(loaded));
        assert(opt_text(choices.install_dir) == chosen[0]);
        assert(opt_text(choices.runtimes_dir) == chosen[1]);
        assert(opt_text(choices.downloads_dir) == chosen[2]);
        assert(opt_text(choices.cache_dir) == chosen[3]);
        assert(opt_text(choices.temp_dir) == chosen[4]);
        assert(opt_text(choices.shims_dir) == chosen[5]);
    }
    let system_fallback = match cli.system_fallback {
        Some(b) => b,
        None => document.system_fallback,
    };
    let install_dir = select_path(fs, &choices.install_dir);
    let ghost g0 = install_dir;
    if install_dir.is_err() {
        let tail = Ok(String::new());
        let ghost t = tail;
        let r = assemble_configuration(install_dir, tail, Ok(String::new()), Ok(String::new()), Ok(String::new()), Ok(String::new()), config_dir, loaded_file, system_fallback);
        proof {
            let w = seq![g0, t, t, t, t, t];
            assert(answers_fit(fs, w, chosen));
            reveal_with_fuel(first_failure, 7);
        }
        return r;
    }
    let runtimes_dir = select_path(fs, &choices.runtimes_dir);
    let ghost g1 = runtimes_dir;
    if runtimes_dir.is_err() {
        let tail = Ok(String::new());
        let ghost t = tail;
        let r = assemble_configuration(install_dir, runtimes_dir, tail, Ok(String::new()), Ok(String::new()), Ok(String::new()), config_dir, loaded_file, system_fallback);
        proof {
            let w = seq![g0, g1, t, t, t, t];
            assert(answers_fit(fs, w, chosen));
            reveal_with_fuel(first_failure, 7);
        }
        return r;
    }
    let downloads_dir = select_path(fs, &choices.downloads_dir);
    let ghost g2 = downloads_dir;
    if downloads_dir.is_err() {
        let tail = Ok(String::new());
        let ghost t = tail;
        let r = assemble_configuration(install_dir, runtimes_dir, downloads_dir, tail, Ok(String::new()), Ok(String::new()), config_dir, loaded_file, system_fallback);
        proof {
            let w = seq![g0, g1, g2, t, t, t];
            assert(answers_fit(fs, w, chosen));
            reveal_with_fuel(first_failure, 7);
        }
        return r;
    }
    let cache_dir = select_path(fs, &choices.cache_dir);
    let ghost g3 = cache_dir;
    if cache_dir.is_err() {
        let tail = Ok(String::new());
        let ghost t = tail;
        let r = assemble_configuration(install_dir, runtimes_dir, downloads_dir, cache_dir, tail, Ok(String::new()), config_dir, loaded_file, system_fallback);
        proof {
            let w = seq![g0, g1, g2, g3, t, t];
            assert(answers_fit(fs, w, chosen));
            reveal_with_fuel(first_failure, 7);
        }
        return r;
    }
    let temp_dir = select_path(fs, &choices.temp_dir);
    let ghost g4 = temp_dir;
    if temp_dir.is_err() {
        let tail = Ok(String::new());
        let ghost t = tail;
        let r = assemble_configuration(install_dir, runtimes_dir, downloads_dir, cache_dir, temp_dir, tail, config_dir, loaded_file, system_fallback);
        proof {
            let w = seq![g0, g1, g2, g3, g4, t];
            assert(answers_fit(fs, w, chosen));
            reveal_with_fuel(first_failure, 7);
        }
        return r;
    }
    let shims_dir = select_path(fs, &choices.shims_dir);
    let ghost g5 = shims_dir;
    let r = assemble_configuration(install_dir, runtimes_dir, downloads_dir, cache_dir, temp_dir, shims_dir, config_dir, loaded_file, system_fallback);
    proof {
        assert(answers_fit(fs, seq![g0, g1, g2, g3, g4, g5], chosen));
        reveal_with_fuel(first_failure, 7);
        if choose_paths_missing(environment, cli, loaded) {
            assert(chosen[0] is None || chosen[1] is None || chosen[2] is None || chosen[3] is None
                || chosen[4] is None || chosen[5] is None);
        }
    }
    r
}

/// Whether some data location has no source at all.
pub open spec fn choose_paths_missing(
    environment: &ConfigEnvironment,
    cli: &ConfigOverrides,
    loaded: Option<(String, ConfigDocument)>,
) -> bool {
    let file = match loaded {
        Some((_, d)) => d.paths,
        None => PathOverrides {
            install_dir: None,
            runtimes_dir: None,
            downloads_dir: None,
            cache_dir: None,
            temp_dir: None,
            shims_dir: None,
            config_dir: None,
        },
    };
    let base = data_base(*environment);
    ||| first_of(opt_text(cli.paths.install_dir), opt_text(environment.paths.install_dir), opt_text(file.install_dir), under(base, "bin"@)) is None
    ||| first_of(opt_text(cli.paths.runtimes_dir), opt_text(environment.paths.runtimes_dir), opt_text(file.runtimes_dir), under(base, "runtimes"@)) is None
    ||| first_of(opt_text(cli.paths.downloads_dir), opt_text(environment.paths.downloads_dir), opt_text(file.downloads_dir), under(base, "downloads"@)) is None
    ||| first_of(opt_text(cli.paths.cache_dir), opt_text(environment.paths.cache_dir), opt_text(file.cache_dir), under(base, "cache"@)) is None
    ||| first_of(opt_text(cli.paths.temp_dir), opt_text(environment.paths.temp_dir), opt_text(file.temp_dir), under(base, "temp"@)) is None
    ||| first_of(opt_text(cli.paths.shims_dir), opt_text(environment.paths.shims_dir), opt_text(file.shims_dir), under(base, "shims"@)) is None
}

/// The configuration file inside the configuration directory.
pub fn config_file_path(config_dir: &str) -> (r: String)
    ensures
        r@ == spec_path_join(config_dir@, "config.toml"@),
{
    path_join(config_dir, "config.toml")
}

pub open spec fn overlapping_message() -> Seq<char> {
    "Program, config, shims, runtimes, downloads, cache and temp directories must be distinct and non-overlapping"@
}

/// Whether no two of the directories (by their platform path keys) overlap.
pub open spec fn directories_apart(keys: Seq<Seq<char>>) -> bool {
    forall|i: int, j: int| 0 <= i < j < keys.len() ==> !spec_paths_overlap(#[trigger] keys[i], #[trigger] keys[j])
}

/// Checks that the configured directories, given by their platform path keys, are
/// distinct and that none lies inside another.
pub fn check_distinct_directories(keys: &[String]) -> (r: Result<()>)
    ensures
        r is Ok <==> directories_apart(keys@.map_values(|k: String| k@)),
        r matches Err(e) ==> e.spec_kind() == ErrorKind::Usage && e.spec_message()
            == overlapping_message(),
{
    let ghost ks = keys@.map_values(|k: String| k@);
    let mut i: usize = 0;
    while i < keys.len()
        invariant
            i <= keys.len(),
            ks == keys@.map_values(|k: String| k@),
            forall|a: int, b: int| 0 <= a < i && a < b < keys.len() ==> !spec_paths_overlap(#[trigger] ks[a], #[trigger] ks[b]),
        decreases keys.len() - i,
    {
        let mut j: usize = i + 1;
        while j < keys.len()
            invariant
                i < j <= keys.len(),
                ks == keys@.map_values(|k: String| k@),
                forall|a: int, b: int| 0 <= a < i && a < b < keys.len() ==> !spec_paths_overlap(#[trigger] ks[a], #[trigger] ks[b]),
                forall|b: int| i < b < j ==> !spec_paths_overlap(ks[i as int], #[trigger] ks[b]),
            decreases keys.len() - j,
        {
            if paths_overlap(keys[i].as_str(), keys[j].as_str()) {
                assert(spec_paths_overlap(ks[i as int], ks[j as int]));
                return Err(Error::new(
                    ErrorKind::Usage,
                    "Program, config, shims, runtimes, downloads, cache and temp directories must be distinct and non-overlapping",
                ));
            }
            j = j + 1;
        }
        i = i + 1;
    }
    Ok(())
}


/// Whether no path is set.
pub open spec fn no_paths(p: PathOverrides) -> bool {
    p.install_dir is None && p.runtimes_dir is None && p.downloads_dir is None && p.cache_dir is None
        && p.temp_dir is None && p.shims_dir is None && p.config_dir is None
}

fn unset_paths() -> (r: PathOverrides)
    ensures
        no_paths(r),
{
    PathOverrides {
        install_dir: None,
        runtimes_dir: None,
        downloads_dir: None,
        cache_dir: None,
        temp_dir: None,
        shims_dir: None,
        config_dir: None,
    }
}

/// The configuration sources of the installer: its identity comes from its explicit
/// root alone, never from the inherited environment or other overrides. The root is
/// the home of every default, and the configuration lives in its `config` directory.
pub fn installer_sources(root: &str) -> (r: (ConfigEnvironment, ConfigOverrides))
    ensures
        r.0.home matches Some(h) && h@ == root@,
        r.0.local_app_data is None && r.0.roaming_app_data is None && r.0.version is None,
        no_paths(r.0.paths),
        r.1.system_fallback is None,
        r.1.paths.config_dir matches Some(c) && c@ == spec_path_join(root@, "config"@),
        r.1.paths.install_dir is None && r.1.paths.runtimes_dir is None && r.1.paths.downloads_dir is None
            && r.1.paths.cache_dir is None && r.1.paths.temp_dir is None && r.1.paths.shims_dir is None,
{
    let environment = ConfigEnvironment {
        local_app_data: None,
        roaming_app_data: None,
        home: Some(root.to_string()),
        paths: unset_paths(),
        version: None,
    };
    let mut paths = unset_paths();
    paths.config_dir = Some(path_join(root, "config"));
    (environment, ConfigOverrides { paths, system_fallback: None })
}

} // verus!
