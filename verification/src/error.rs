//! Stable management errors; child-process exit codes are forwarded separately.
use crate::text::push_str;
use vstd::prelude::*;

verus! {

/// Stable management failure categories; success is exit code zero.
#[derive(Clone, Copy, Debug, PartialEq, Eq, Structural)]
pub enum ErrorKind {
    /// Invalid arguments or selector syntax.
    Usage,
    /// No registered runtime matches.
    NotInstalled,
    /// The active runtime lacks a command.
    CommandMissing,
    /// The selected runtime is unhealthy.
    BrokenRuntime,
    /// Ambiguous selection or conflicting state.
    Conflict,
    /// Network operation failed.
    Network,
    /// Digest or signature verification failed.
    Integrity,
    /// Installation or its health check failed.
    Install,
    /// Access was denied.
    Permission,
    /// A resource is in use.
    Busy,
    /// Current-shell switching requires a hook.
    ShellHookRequired,
    /// An unexpected internal failure occurred.
    Internal,
}

impl ErrorKind {
    pub open spec fn spec_exit_code(self) -> u8 {
        match self {
            ErrorKind::Usage => 2,
            ErrorKind::NotInstalled => 10,
            ErrorKind::CommandMissing => 11,
            ErrorKind::BrokenRuntime => 12,
            ErrorKind::Conflict => 13,
            ErrorKind::Network => 20,
            ErrorKind::Integrity => 21,
            ErrorKind::Install => 22,
            ErrorKind::Permission => 30,
            ErrorKind::Busy => 31,
            ErrorKind::ShellHookRequired => 40,
            ErrorKind::Internal => 70,
        }
    }

    pub open spec fn spec_code(self) -> Seq<char> {
        match self {
            ErrorKind::Usage => "usage"@,
            ErrorKind::NotInstalled => "not_installed"@,
            ErrorKind::CommandMissing => "command_missing"@,
            ErrorKind::BrokenRuntime => "broken_runtime"@,
            ErrorKind::Conflict => "conflict"@,
            ErrorKind::Network => "network"@,
            ErrorKind::Integrity => "integrity"@,
            ErrorKind::Install => "install"@,
            ErrorKind::Permission => "permission"@,
            ErrorKind::Busy => "busy"@,
            ErrorKind::ShellHookRequired => "shell_hook_required"@,
            ErrorKind::Internal => "internal"@,
        }
    }

    /// Returns the stable management exit code.
    pub fn exit_code(self) -> (r: u8)
        ensures
            r == self.spec_exit_code(),
    {
        match self {
            ErrorKind::Usage => 2,
            ErrorKind::NotInstalled => 10,
            ErrorKind::CommandMissing => 11,
            ErrorKind::BrokenRuntime => 12,
            ErrorKind::Conflict => 13,
            ErrorKind::Network => 20,
            ErrorKind::Integrity => 21,
            ErrorKind::Install => 22,
            ErrorKind::Permission => 30,
            ErrorKind::Busy => 31,
            ErrorKind::ShellHookRequired => 40,
            ErrorKind::Internal => 70,
        }
    }

    /// Returns a stable key for structured output.
    pub fn code(self) -> (r: &'static str)
        ensures
            r@ == self.spec_code(),
    {
        match self {
            ErrorKind::Usage => "usage",
            ErrorKind::NotInstalled => "not_installed",
            ErrorKind::CommandMissing => "command_missing",
            ErrorKind::BrokenRuntime => "broken_runtime",
            ErrorKind::Conflict => "conflict",
            ErrorKind::Network => "network",
            ErrorKind::Integrity => "integrity",
            ErrorKind::Install => "install",
            ErrorKind::Permission => "permission",
            ErrorKind::Busy => "busy",
            ErrorKind::ShellHookRequired => "shell_hook_required",
            ErrorKind::Internal => "internal",
        }
    }
}

/// Distinct categories have distinct exit codes and distinct keys.
pub proof fn exit_codes_are_distinct(a: ErrorKind, b: ErrorKind)
    requires
        a != b,
    ensures
        a.spec_exit_code() != b.spec_exit_code(),
        a.spec_exit_code() != 0,
{
}

/// A management failure with a stable category, message, and optional remedy.
#[derive(Clone, Debug, PartialEq, Eq)]
pub struct Error {
    kind: ErrorKind,
    message: String,
    hint: Option<String>,
}

impl Error {
    pub closed spec fn spec_kind(&self) -> ErrorKind {
        self.kind
    }

    pub closed spec fn spec_message(&self) -> Seq<char> {
        self.message@
    }

    pub closed spec fn spec_hint(&self) -> Option<Seq<char>> {
        match self.hint {
            Some(h) => Some(h@),
            None => None,
        }
    }

    /// Creates an error; callers must redact secrets in messages.
    pub fn new(kind: ErrorKind, message: &str) -> (e: Self)
        ensures
            e.spec_kind() == kind,
            e.spec_message() == message@,
            e.spec_hint() == None::<Seq<char>>,
    {
        Error { kind, message: message.to_owned(), hint: None }
    }

    /// Creates an error from an owned message.
    pub fn from_message(kind: ErrorKind, message: String) -> (e: Self)
        ensures
            e.spec_kind() == kind,
            e.spec_message() == message@,
            e.spec_hint() == None::<Seq<char>>,
    {
        Error { kind, message, hint: None }
    }

    /// Adds actionable repair guidance.
    pub fn with_hint(self, hint: &str) -> (e: Self)
        ensures
            e.spec_kind() == self.spec_kind(),
            e.spec_message() == self.spec_message(),
            e.spec_hint() == Some(hint@),
    {
        Error { kind: self.kind, message: self.message, hint: Some(hint.to_owned()) }
    }

    /// Returns the error category.
    pub fn kind(&self) -> (r: ErrorKind)
        ensures
            r == self.spec_kind(),
    {
        self.kind
    }

    /// Returns the management exit code.
    pub fn exit_code(&self) -> (r: u8)
        ensures
            r == self.spec_kind().spec_exit_code(),
    {
        self.kind.exit_code()
    }

    /// Returns the explanation without the remedy.
    pub fn message(&self) -> (r: &str)
        ensures
            r@ == self.spec_message(),
    {
        self.message.as_str()
    }

    /// Returns optional repair guidance.
    pub fn hint(&self) -> (r: Option<&str>)
        ensures
            match r {
                Some(h) => self.spec_hint() == Some(h@),
                None => self.spec_hint() == None::<Seq<char>>,
            },
    {
        match &self.hint {
            Some(h) => Some(h.as_str()),
            None => None,
        }
    }

    pub open spec fn spec_text(&self) -> Seq<char> {
        let head = self.spec_kind().spec_code() + ": "@ + self.spec_message();
        match self.spec_hint() {
            Some(h) => head + "\nHint: "@ + h,
            None => head,
        }
    }

    /// The human-readable rendering: `code: message`, then `Hint: ...` on its own line.
    pub fn to_string(&self) -> (r: String)
        ensures
            r@ == self.spec_text(),
    {
        let mut out = String::new();
        push_str(&mut out, self.kind.code());
        push_str(&mut out, ": ");
        push_str(&mut out, self.message.as_str());
        if let Some(h) = &self.hint {
            push_str(&mut out, "\nHint: ");
            push_str(&mut out, h.as_str());
        }
        out
    }
}

/// Result type shared by domain operations.
pub type Result<T> = core::result::Result<T, Error>;

/// An invalid-input error; untrusted input text is never echoed.
pub fn invalid_input(message: &str) -> (e: Error)
    ensures
        e.spec_kind() == ErrorKind::Usage,
        e.spec_message() == message@,
        e.spec_hint() == None::<Seq<char>>,
{
    Error::new(ErrorKind::Usage, message)
}

} // verus!
