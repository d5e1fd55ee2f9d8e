//! Python runtime selection for Windows: version grammar, runtime identity,
//! deterministic selection and scope resolution, command inventories, and the
//! bounded repair plans used by the installer.
use vstd::prelude::*;

pub mod commands;
pub mod config;
pub mod config_file;
pub mod banner;
pub mod destination;
pub mod display;
pub mod error;
pub mod installer;
pub mod invocation;
pub mod lookup;
pub mod managed;
pub mod management;
pub mod paths;
pub mod progress;
pub mod prompts;
pub mod recovery;
pub mod resolver;
pub mod runtime;
pub mod selector;
pub mod settings;
pub mod state;
pub mod store_path;
pub mod system_path;
pub mod text;
pub mod user_identity;
pub mod user_path;
pub mod version;

pub use error::{Error, ErrorKind, Result};

verus! {

/// Human-readable product name.
pub const PRODUCT_NAME: &'static str = "PyRudder";

} // verus!
