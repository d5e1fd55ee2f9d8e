//! Deterministic configuration, selection-file, and scope-resolution tests.

use std::cell::RefCell;
use std::collections::BTreeMap;
use std::path::{Component, Path};

use pyrudder::config::{
    assemble_configuration, config_text, installer_sources, ConfigEnvironment, ConfigOverrides,
    PathOverrides,
};
use pyrudder::config_file::load_configuration;
use pyrudder::resolver::{resolve, ResolveRequest, ShellValue, TraceOutcome, VersionSource};
use pyrudder::runtime::{InstallationId, RuntimeHealth, RuntimeId, RuntimeOrigin, RuntimeRecord};
use pyrudder::selector::RuntimeSelection;
use pyrudder::state::{
    parse_selection_file, read_selection_file, selection_from_read, write_selection_file,
    StateFileSystem,
};
use pyrudder::{Error, ErrorKind, Result};

#[derive(Default)]
struct MemoryFs {
    files: RefCell<BTreeMap<String, Vec<u8>>>,
    reads: RefCell<Vec<String>>,
    fail_reads: bool,
    fail_writes: bool,
}

impl MemoryFs {
    fn insert(&self, path: impl Into<String>, bytes: impl AsRef<[u8]>) {
        self.files
            .borrow_mut()
            .insert(path.into(), bytes.as_ref().to_vec());
    }
}

impl StateFileSystem for MemoryFs {
    fn read_file(&self, path: &str, max_bytes: usize) -> Result<Option<Vec<u8>>> {
        self.reads.borrow_mut().push(path.to_owned());
        if self.fail_reads {
            return Err(Error::new(ErrorKind::Permission, "Injected read failure"));
        }
        let bytes = self.files.borrow().get(path).cloned();
        if bytes.as_ref().is_some_and(|value| value.len() > max_bytes) {
            return Err(Error::new(ErrorKind::Usage, "Oversized file"));
        }
        Ok(bytes)
    }
    fn normalize_directory(&self, path: &str) -> Result<String> {
        let native = Path::new(path);
        if !native.is_absolute() || native.components().any(|part| part == Component::ParentDir) {
            return Err(Error::new(ErrorKind::Usage, "Invalid path"));
        }
        Ok(path.to_owned())
    }
    fn canonical_directory(&self, path: &str) -> Result<String> {
        self.normalize_directory(path)
    }
    fn write_atomic(&self, path: &str, contents: &[u8]) -> Result<()> {
        if self.fail_writes {
            return Err(Error::new(ErrorKind::Busy, "Injected publication failure"));
        }
        self.insert(path, contents);
        Ok(())
    }
}

// Synthetic absolute paths in the host's own syntax; tests never touch these locations.
fn root() -> String {
    "/model-tests".to_owned()
}

fn join(base: &str, child: &str) -> String {
    Path::new(base)
        .join(child)
        .to_str()
        .expect("test paths are Unicode")
        .to_owned()
}

fn runtime(version: &str, installation: u128) -> Result<RuntimeRecord> {
    let id =
        RuntimeId::new(version.parse()?)?.with_installation(InstallationId::new(installation)?);
    let root = join(&root(), &id.to_string());
    let mut runtime = RuntimeRecord::new(
        id,
        root.clone(),
        vec![join(&root, "Scripts")],
        RuntimeOrigin::External {
            registered_executable: join(&root, "python.exe"),
        },
    )?;
    runtime.set_health(RuntimeHealth::Ready);
    Ok(runtime)
}

fn request<'a>(cwd: &'a str, global: &'a str) -> ResolveRequest<'a> {
    ResolveRequest {
        explicit: None,
        shell_version: None,
        cwd,
        workspace_boundary: Some(cwd),
        global_file: global,
        system_fallback: false,
    }
}

fn assert_kind<T>(result: Result<T>, kind: ErrorKind) {
    assert!(matches!(result, Err(error) if error.kind() == kind));
}

#[test]
fn selection_files_accept_only_one_optional_bom_and_line_terminator() -> Result<()> {
    for text in [
        "3.13",
        "3.13\n",
        "3.13\r\n",
        "\u{feff}3.13",
        "\u{feff}3.13\r\n",
    ] {
        assert_eq!(parse_selection_file(text.as_bytes())?.to_string(), "3.13");
    }
    for bytes in [
        b"".as_slice(),
        b"\xff",
        b"\n",
        b"3.13\r",
        b"3.13\n\n",
        b"3.13\r\n3.12",
        b"3.13 ",
        b" 3.13",
        b"3.13\0",
        b"3.13 # comment",
        b"$(command)",
        b"https://example.org",
        b"./python.exe",
    ] {
        assert_kind(parse_selection_file(bytes), ErrorKind::Usage);
    }
    assert_kind(
        parse_selection_file("\u{feff}\u{feff}3.13".as_bytes()),
        ErrorKind::Usage,
    );
    assert_kind(parse_selection_file(&[b'a'; 134]), ErrorKind::Usage);
    Ok(())
}

#[test]
fn bad_file_hints_escape_control_sequences() {
    let fs = MemoryFs::default();
    let path = join(&root(), "secret\u{1b}[31m/.python-version");
    fs.insert(&path, b"invalid input");
    assert!(
        matches!(read_selection_file(&fs, &path), Err(error) if !error.to_string().contains('\u{1b}'))
    );
}

#[test]
fn all_scope_presence_combinations_follow_priority() -> Result<()> {
    let cwd = join(&root(), "project");
    let global = join(&root(), "global-version");
    let records = [
        runtime("3.10.1", 1)?,
        runtime("3.11.1", 2)?,
        runtime("3.12.1", 3)?,
        runtime("3.13.1", 4)?,
    ];
    for mask in 0_u8..16 {
        let fs = MemoryFs::default();
        let mut input = request(&cwd, &global);
        input.explicit = (mask & 1 != 0).then_some("3.10");
        input.shell_version = (mask & 2 != 0).then_some(ShellValue::Text("3.11"));
        if mask & 4 != 0 {
            fs.insert(join(&cwd, ".python-version"), b"3.12\r\n");
        }
        if mask & 8 != 0 {
            fs.insert(&global, b"3.13\n");
        }
        let report = resolve(&fs, &input, &records);
        if mask == 0 {
            assert_kind(report.result, ErrorKind::NotInstalled);
        } else {
            let index = usize::try_from(mask.trailing_zeros())
                .map_err(|_| Error::new(ErrorKind::Internal, "Invalid test index"))?;
            assert_eq!(
                report.result?.selection,
                RuntimeSelection::Registered(&records[index])
            );
            assert_eq!(
                report.steps.last().map(|step| step.outcome),
                Some(TraceOutcome::Selected)
            );
        }
    }
    Ok(())
}

#[test]
fn explicit_selection_never_reads_broken_lower_priority_sources() -> Result<()> {
    let fs = MemoryFs {
        fail_reads: true,
        ..MemoryFs::default()
    };
    let cwd = "invalid-relative-cwd".to_owned();
    let global = "invalid-relative-global".to_owned();
    let records = [runtime("3.13.7", 1)?];
    let mut input = request(&cwd, &global);
    input.explicit = Some("3.13");
    input.shell_version = Some(ShellValue::Text("bad shell selector"));
    let report = resolve(&fs, &input, &records);
    assert_eq!(report.result?.source, VersionSource::Explicit);
    assert_eq!(report.steps.len(), 1);
    assert!(fs.reads.borrow().is_empty());
    Ok(())
}

#[test]
fn invalid_or_missing_high_priority_selection_never_falls_back() -> Result<()> {
    let fs = MemoryFs::default();
    let cwd = root();
    let global = join(&cwd, "global-version");
    fs.insert(join(&cwd, ".python-version"), b"3.13");
    fs.insert(&global, b"3.13");
    let records = [runtime("3.13.7", 1)?];
    for value in ["", "bad selector", "3.12"] {
        for explicit in [false, true] {
            let mut input = request(&cwd, &global);
            input.system_fallback = true;
            if explicit {
                input.explicit = Some(value);
            } else {
                input.shell_version = Some(ShellValue::Text(value));
            }
            let report = resolve(&fs, &input, &records);
            assert_kind(
                report.result,
                if value == "3.12" {
                    ErrorKind::NotInstalled
                } else {
                    ErrorKind::Usage
                },
            );
            assert_eq!(
                report.steps.last().map(|step| step.outcome),
                Some(TraceOutcome::Rejected)
            );
            assert!(fs.reads.borrow().is_empty());
        }
    }
    Ok(())
}

#[test]
fn nearest_project_wins_and_explicit_boundary_is_inclusive() -> Result<()> {
    let fs = MemoryFs::default();
    let boundary = join(&root(), "workspace");
    let cwd = join(&boundary, "project/src");
    let project = join(&boundary, "project");
    let global = join(&root(), "global-version");
    let records = [runtime("3.12.1", 1)?, runtime("3.13.7", 2)?];
    fs.insert(join(&boundary, ".python-version"), b"3.12");
    fs.insert(join(&project, ".python-version"), b"3.13");
    let mut input = request(&cwd, &global);
    input.workspace_boundary = Some(boundary.as_str());
    let report = resolve(&fs, &input, &records);
    assert_eq!(
        report.result?.source,
        VersionSource::LocalFile(join(&project, ".python-version"))
    );
    assert_eq!(
        &*fs.reads.borrow(),
        &[join(&cwd, ".python-version"), join(&project, ".python-version")]
    );
    fs.files
        .borrow_mut()
        .remove(&join(&project, ".python-version"));
    assert_eq!(
        resolve(&fs, &input, &records).result?.source,
        VersionSource::LocalFile(join(&boundary, ".python-version"))
    );
    Ok(())
}

#[test]
fn boundary_prevents_parent_leakage_and_rejects_sibling_prefixes() -> Result<()> {
    let fs = MemoryFs::default();
    let boundary = join(&root(), "work");
    let cwd = join(&boundary, "src");
    let global = join(&root(), "global-version");
    fs.insert(join(&root(), ".python-version"), b"3.12");
    fs.insert(&global, b"3.13");
    let records = [runtime("3.13.7", 1)?];
    let mut input = request(&cwd, &global);
    input.workspace_boundary = Some(boundary.as_str());
    assert_eq!(
        resolve(&fs, &input, &records).result?.source,
        VersionSource::GlobalFile(global.clone())
    );
    assert!(!fs.reads.borrow().contains(&join(&root(), ".python-version")));
    let outside = join(&root(), "workspace");
    input.cwd = outside.as_str();
    assert_kind(resolve(&fs, &input, &records).result, ErrorKind::Usage);
    Ok(())
}

#[test]
fn absent_boundary_searches_to_root_and_excessive_depth_is_bounded() -> Result<()> {
    let fs = MemoryFs::default();
    let cwd = root();
    let global = join(&cwd, "global-version");
    let filesystem_root = Path::new(&cwd)
        .ancestors()
        .last()
        .and_then(Path::to_str)
        .ok_or_else(|| Error::new(ErrorKind::Internal, "Missing root"))?
        .to_owned();
    fs.insert(join(&filesystem_root, ".python-version"), b"3.13");
    let records = [runtime("3.13.7", 1)?];
    let mut input = request(&cwd, &global);
    input.workspace_boundary = None;
    assert_eq!(
        resolve(&fs, &input, &records).result?.source,
        VersionSource::LocalFile(join(&filesystem_root, ".python-version"))
    );
    let deep = (0..256).fold(root(), |path, _| join(&path, "d"));
    input.cwd = deep.as_str();
    assert_kind(resolve(&fs, &input, &records).result, ErrorKind::Usage);
    fs.insert(join(&deep, ".python-version"), b"3.13");
    assert_eq!(
        resolve(&fs, &input, &records).result?.source,
        VersionSource::LocalFile(join(&deep, ".python-version"))
    );
    fs.files.borrow_mut().remove(&join(&deep, ".python-version"));
    input.workspace_boundary = Some(deep.as_str());
    assert_kind(
        resolve(&fs, &input, &records).result,
        ErrorKind::NotInstalled,
    );
    Ok(())
}

#[test]
fn malformed_nearest_file_blocks_parent_global_and_system() -> Result<()> {
    let fs = MemoryFs::default();
    let cwd = join(&root(), "project");
    let global = join(&root(), "global-version");
    fs.insert(&global, b"3.13");
    fs.insert(join(&root(), ".python-version"), b"3.13");
    let records = [runtime("3.13.7", 1)?];
    let mut input = request(&cwd, &global);
    input.workspace_boundary = None;
    input.system_fallback = true;
    for bytes in [b"".as_slice(), b"\xff", b"3.13\n3.12", &[b'a'; 134]] {
        fs.insert(join(&cwd, ".python-version"), bytes);
        fs.reads.borrow_mut().clear();
        let report = resolve(&fs, &input, &records);
        assert_kind(report.result, ErrorKind::Usage);
        assert_eq!(fs.reads.borrow().len(), 1);
        assert_eq!(
            report.steps.last().map(|step| &step.source),
            Some(&VersionSource::LocalFile(join(&cwd, ".python-version")))
        );
    }
    Ok(())
}

#[test]
fn permission_and_unhealthy_errors_retain_failed_source() -> Result<()> {
    let fs = MemoryFs {
        fail_reads: true,
        ..MemoryFs::default()
    };
    let cwd = root();
    let global = join(&cwd, "global-version");
    let input = request(&cwd, &global);
    let report = resolve(&fs, &input, &[]);
    assert_kind(report.result, ErrorKind::Permission);
    assert_eq!(
        report.steps.last().map(|step| step.outcome),
        Some(TraceOutcome::Rejected)
    );
    let fs = MemoryFs::default();
    fs.insert(&global, b"3.13");
    let mut broken = runtime("3.13.7", 1)?;
    broken.set_health(RuntimeHealth::PendingRemoval);
    let records = [broken];
    let report = resolve(&fs, &input, &records);
    assert_kind(report.result, ErrorKind::BrokenRuntime);
    assert_eq!(
        report.steps.last().map(|step| &step.source),
        Some(&VersionSource::GlobalFile(global))
    );
    Ok(())
}

#[test]
fn system_fallback_requires_trusted_opt_in_and_never_hides_errors() -> Result<()> {
    let fs = MemoryFs::default();
    let cwd = root();
    let global = join(&cwd, "global-version");
    let mut input = request(&cwd, &global);
    input.explicit = Some("system");
    assert_kind(resolve(&fs, &input, &[]).result, ErrorKind::Usage);
    input.system_fallback = true;
    assert_eq!(
        resolve(&fs, &input, &[]).result?.selection,
        RuntimeSelection::SystemRequested
    );
    input.explicit = None;
    assert_eq!(
        resolve(&fs, &input, &[]).result?.source,
        VersionSource::SystemFallback
    );
    fs.insert(join(&cwd, ".python-version"), b"system");
    input.system_fallback = false;
    assert_kind(resolve(&fs, &input, &[]).result, ErrorKind::Usage);
    input.system_fallback = true;
    fs.insert(join(&cwd, ".python-version"), b"3.12");
    assert_kind(resolve(&fs, &input, &[]).result, ErrorKind::NotInstalled);
    Ok(())
}

#[test]
fn writes_pin_short_versions_and_aliases_without_later_drift() -> Result<()> {
    let fs = MemoryFs::default();
    let path = join(&root(), "global-version");
    let mut record = runtime("3.13.7", 1)?;
    record.add_alias("work".parse()?);
    let mut records = vec![record];
    for input in ["3.13", "work", "3.13.7"] {
        let pinned = write_selection_file(&fs, &path, &input.parse()?, &records, false)?;
        assert_eq!(pinned.to_string(), records[0].id().to_string());
        assert_eq!(
            fs.files.borrow().get(&path),
            Some(&format!("{}\n", pinned.to_string()).into_bytes())
        );
    }
    records.push(runtime("3.13.10", 2)?);
    let selector = read_selection_file(&fs, &path)?
        .ok_or_else(|| Error::new(ErrorKind::Internal, "Missing persisted choice"))?;
    assert_eq!(
        selector.select(&records)?,
        RuntimeSelection::Registered(&records[0])
    );
    Ok(())
}

#[test]
fn failed_selection_or_publication_preserves_previous_file() -> Result<()> {
    let fs = MemoryFs::default();
    let path = join(&root(), ".python-version");
    fs.insert(&path, b"old\n");
    let mut records = vec![runtime("3.13.7", 1)?, runtime("3.13.7", 2)?];
    assert_kind(
        write_selection_file(&fs, &path, &"3.13".parse()?, &records, false),
        ErrorKind::Conflict,
    );
    assert_kind(
        write_selection_file(&fs, &path, &"3.12".parse()?, &records, false),
        ErrorKind::NotInstalled,
    );
    assert_kind(
        write_selection_file(&fs, &path, &"system".parse()?, &records, false),
        ErrorKind::Usage,
    );
    records.truncate(1);
    records[0].set_health(RuntimeHealth::Unchecked);
    assert_kind(
        write_selection_file(&fs, &path, &"3.13".parse()?, &records, false),
        ErrorKind::BrokenRuntime,
    );
    assert_eq!(
        fs.files.borrow().get(&path).map(Vec::as_slice),
        Some(b"old\n".as_slice())
    );
    let fs = MemoryFs {
        fail_writes: true,
        ..fs
    };
    assert_kind(
        write_selection_file(&fs, &path, &"system".parse()?, &[], true),
        ErrorKind::Busy,
    );
    assert_eq!(
        fs.files.borrow().get(&path).map(Vec::as_slice),
        Some(b"old\n".as_slice())
    );
    Ok(())
}

fn environment() -> ConfigEnvironment {
    ConfigEnvironment {
        local_app_data: Some(join(&root(), "local")),
        roaming_app_data: Some(join(&root(), "roaming")),
        ..ConfigEnvironment::default()
    }
}

#[test]
fn missing_config_uses_independent_windows_defaults_without_writes() -> Result<()> {
    let fs = MemoryFs::default();
    let config = load_configuration(&fs, &environment(), &ConfigOverrides::default())?;
    let base = join(&root(), "local/PyRudder");
    assert_eq!(config.paths.install_dir, join(&base, "bin"));
    assert_eq!(config.paths.runtimes_dir, join(&base, "runtimes"));
    assert_eq!(config.paths.downloads_dir, join(&base, "downloads"));
    assert_eq!(config.paths.cache_dir, join(&base, "cache"));
    assert_eq!(config.paths.temp_dir, join(&base, "temp"));
    assert_eq!(config.paths.shims_dir, join(&base, "shims"));
    assert_eq!(config.paths.config_dir, join(&root(), "roaming/PyRudder"));
    assert!(!config.system_fallback);
    assert_eq!(config.loaded_file, None);
    assert!(fs.files.borrow().is_empty());
    Ok(())
}

#[test]
fn home_sets_defaults_but_individual_cli_env_and_file_paths_win() -> Result<()> {
    let home = join(&root(), "home");
    let file_path = join(&root(), "file runtime");
    let env_path = join(&root(), "env runtime");
    let cli_path = join(&root(), "cli runtime");
    for mask in 0_u8..8 {
        let fs = MemoryFs::default();
        let mut env = ConfigEnvironment {
            home: Some(home.clone()),
            ..ConfigEnvironment::default()
        };
        let mut cli = ConfigOverrides::default();
        if mask & 1 != 0 {
            fs.insert(
                join(&home, "config/config.toml"),
                format!("schema_version = 1\n[paths]\nruntimes_dir = '{file_path}'"),
            );
        }
        if mask & 2 != 0 {
            env.paths.runtimes_dir = Some(env_path.clone());
        }
        if mask & 4 != 0 {
            cli.paths.runtimes_dir = Some(cli_path.clone());
        }
        let config = load_configuration(&fs, &env, &cli)?;
        let expected = if mask & 4 != 0 {
            cli_path.clone()
        } else if mask & 2 != 0 {
            env_path.clone()
        } else if mask & 1 != 0 {
            file_path.clone()
        } else {
            join(&home, "runtimes")
        };
        assert_eq!(config.paths.runtimes_dir, expected);
        assert_eq!(config.paths.config_dir, join(&home, "config"));
    }
    Ok(())
}

#[test]
fn config_location_is_bootstrapped_once_and_cli_can_disable_system_policy() -> Result<()> {
    let fs = MemoryFs::default();
    let mut env = environment();
    env.paths.config_dir = Some(join(&root(), "env-config"));
    let mut cli = ConfigOverrides::default();
    let cli_dir = join(&root(), "cli-config");
    cli.paths.config_dir = Some(cli_dir.clone());
    fs.insert(
        join(&cli_dir, "config.toml"),
        b"schema_version = 1\n[commands]\nsystem_fallback = true",
    );
    let config = load_configuration(&fs, &env, &cli)?;
    assert!(config.system_fallback);
    assert_eq!(config.loaded_file, Some(join(&cli_dir, "config.toml")));
    assert_eq!(&*fs.reads.borrow(), &[join(&cli_dir, "config.toml")]);
    cli.system_fallback = Some(false);
    assert!(!load_configuration(&fs, &env, &cli)?.system_fallback);
    Ok(())
}

#[test]
fn invalid_configuration_is_not_silently_ignored() {
    let fs = MemoryFs::default();
    let env = environment();
    let file = join(&root(), "roaming/PyRudder/config.toml");
    let oversized = vec![b'a'; 65_537];
    for bytes in [
        b"".as_slice(),
        b"schema_version = 2",
        b"schema_version = '1'",
        b"schema_version = 1\nschema_version = 1",
        b"schema_version = 1\nunknown = true",
        b"schema_version = 1\n[paths]\nconfig_dir = 'redirect'",
        b"schema_version = 1\n[commands]\ncross_version_fallback = true",
        b"schema_version = 1\n[paths]\ncache_dir = 'relative'",
        b"\xff",
        &oversized,
    ] {
        fs.insert(&file, bytes);
        assert_kind(
            load_configuration(&fs, &env, &ConfigOverrides::default()),
            ErrorKind::Usage,
        );
    }
}

#[test]
fn configuration_file_errors_name_the_file() {
    let fs = MemoryFs::default();
    let file = join(&root(), "roaming/PyRudder/config.toml");
    fs.insert(&file, b"schema_version = 1\nunknown = true");
    let error = load_configuration(&fs, &environment(), &ConfigOverrides::default())
        .expect_err("unknown field");
    assert_eq!(error.kind(), ErrorKind::Usage);
    assert_eq!(
        error.message(),
        "Invalid configuration TOML, unknown field, or missing schema_version"
    );
    assert_eq!(
        error.hint(),
        Some(format!("Check user configuration {file:?}; config_dir must be set outside this file").as_str())
    );
    assert!(config_text(b"\xef\xbb\xbfschema_version = 1").is_ok());
}

#[test]
fn missing_roots_and_empty_environment_overrides_fail_closed() {
    let fs = MemoryFs::default();
    assert_kind(
        load_configuration(&fs, &ConfigEnvironment::default(), &ConfigOverrides::default()),
        ErrorKind::Usage,
    );
    let mut env = environment();
    env.paths.runtimes_dir = Some(String::new());
    assert_kind(
        load_configuration(&fs, &env, &ConfigOverrides::default()),
        ErrorKind::Usage,
    );
    env.paths.runtimes_dir = None;
    env.paths.config_dir = Some(String::new());
    assert_kind(
        load_configuration(&fs, &env, &ConfigOverrides::default()),
        ErrorKind::Usage,
    );
}

#[test]
fn installer_configuration_comes_from_its_root_alone() {
    let (environment, overrides) = installer_sources("/opt/pyrudder");
    assert_eq!(environment.home.as_deref(), Some("/opt/pyrudder"));
    assert_eq!(environment.local_app_data, None);
    assert_eq!(environment.roaming_app_data, None);
    assert_eq!(environment.version, None);
    assert_eq!(environment.paths, PathOverrides::default());
    assert_eq!(overrides.system_fallback, None);
    assert_eq!(overrides.paths.config_dir.as_deref(), Some("/opt/pyrudder/config"));
    assert_eq!(
        PathOverrides { config_dir: None, ..overrides.paths },
        PathOverrides::default()
    );
}

#[test]
fn installer_preserves_custom_data_paths_and_ignores_global_overrides() -> Result<()> {
    let fs = MemoryFs::default();
    let root = "/tmp/installed";
    let custom = "/tmp/python-data";
    // The installer's sources ignore `--home` and `--runtimes-dir`; only its root counts.
    let (environment, overrides) = installer_sources(root);
    fs.insert(
        "/tmp/installed/config/config.toml",
        format!("schema_version = 1\n[paths]\nruntimes_dir = '{custom}'"),
    );
    let configuration = load_configuration(&fs, &environment, &overrides)?;
    assert_eq!(configuration.paths.runtimes_dir, custom);
    assert_eq!(configuration.paths.config_dir, "/tmp/installed/config");
    assert_eq!(configuration.paths.install_dir, "/tmp/installed/bin");
    assert_eq!(configuration.paths.shims_dir, "/tmp/installed/shims");
    assert_eq!(configuration.loaded_file.as_deref(), Some("/tmp/installed/config/config.toml"));
    // Loading writes nothing: only the configuration file put there is present.
    assert_eq!(fs.files.borrow().len(), 1);
    Ok(())
}

#[test]
fn failed_selection_file_read_keeps_its_error_and_names_the_file() {
    let read = Err(Error::new(ErrorKind::Permission, "Cannot read file"));
    let error = selection_from_read(read, "C:\\proj\x1b\\.python-version").expect_err("read failure");
    assert_eq!(error.kind(), ErrorKind::Permission);
    assert_eq!(error.message(), "Cannot read file");
    assert_eq!(
        error.hint(),
        Some("Check selection file \"C:\\\\proj\\u{1b}\\\\.python-version\"")
    );
}

#[test]
fn assembled_configuration_places_each_normalized_directory_in_its_field() {
    let ok = |p: &str| -> Result<String> { Ok(p.to_owned()) };
    let configuration = assemble_configuration(
        ok("C:/bin"),
        ok("C:/runtimes"),
        ok("C:/downloads"),
        ok("C:/cache"),
        ok("C:/temp"),
        ok("C:/shims"),
        "C:/config".to_owned(),
        Some("C:/config/config.toml".to_owned()),
        false,
    )
    .expect("all directories normalized");
    assert_eq!(configuration.paths.install_dir, "C:/bin");
    assert_eq!(configuration.paths.runtimes_dir, "C:/runtimes");
    assert_eq!(configuration.paths.downloads_dir, "C:/downloads");
    assert_eq!(configuration.paths.cache_dir, "C:/cache");
    assert_eq!(configuration.paths.temp_dir, "C:/temp");
    assert_eq!(configuration.paths.shims_dir, "C:/shims");
    assert_eq!(configuration.paths.config_dir, "C:/config");
    assert_eq!(configuration.loaded_file.as_deref(), Some("C:/config/config.toml"));
    assert!(!configuration.system_fallback);
}

#[test]
fn assembled_configuration_reports_the_first_failed_directory_in_order() {
    let error = assemble_configuration(
        Ok("C:/bin".to_owned()),
        Ok("C:/runtimes".to_owned()),
        Err(Error::new(ErrorKind::Permission, "downloads refused")),
        Ok("C:/cache".to_owned()),
        Err(Error::new(ErrorKind::Usage, "temp refused")),
        Ok("C:/shims".to_owned()),
        "C:/config".to_owned(),
        None,
        true,
    )
    .expect_err("a directory failed");
    assert_eq!(error.kind(), ErrorKind::Permission);
    assert_eq!(error.message(), "downloads refused");
}
