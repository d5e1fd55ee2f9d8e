# pyrudder

Python runtime selection for Windows, written in Verus. The library states in
`requires`/`ensures` what its operations do and proves it. Where an answer comes
from the file system or from another trait that callers implement (reading a
selection or configuration file, normalizing or canonicalizing a directory,
publishing a file, native case mapping), the contract names the call with
`call_ensures`: what it is asked, and what the library makes of the answer it
gave. Which answer an implementation gives is not stated.

## Layout

- `src/` — the verified library.
  - `version`, `runtime`, `selector`: the version grammar, runtime identities and
    aliases, registration records, and deterministic selection.
  - `state`, `resolver`, `config`, `config_file`: selection files, scope
    resolution with its explain trace, configuration precedence, and loading,
    reading and editing the configuration document (through the `toml` crate).
  - `commands`, `commands/manifest`: command names, extensions and per-runtime
    command inventories with their union.
  - `store_path`, `user_path`, `system_path`, `user_identity`: PATH values, the
    Store PATH repair journal, the user and machine PATH publication plans, and the
    identity checks around them.
  - `recovery`: the in-place upgrade journal (which files a backup may hold, the
    phase each request may act on, the restore order) and the planning of a backup.
  - `installer`, `managed`, `management`, `lookup`, `settings`, `destination`,
    `prompts`, `progress`, `display`, `invocation`: the rules of the management
    front end (update versions, artifact names and ownership records, directory
    overlap rules, command preconditions, listings, prompts and presentation).
  - `paths`, `text`, `error`: path queries delegated to `std::path`, text helpers,
    and the error type; `banner`: the banner above the help text.
- `tests/` — tests of the library.
- `app/` — the command-line program: argument parsing (clap), the process
  environment, JSON output (serde_json) and shell completions (clap_complete).
