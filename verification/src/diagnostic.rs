//! What the program says of an error besides its message: a code, a page and advice.
use crate::error::{
    ConfigParseError, DaemonError, DaemonIdError, DependencyError, Failure, FileError, IpcError,
    MultipleErrors, PortError,
};
use crate::text;
use crate::text::copy_opt;
use vstd::prelude::*;

verus! {

/// What is said of an error besides its message.
#[derive(Debug)]
pub struct Advice {
    /// The code by which the error is known.
    pub code: &'static str,
    /// The page about it.
    pub url: Option<&'static str>,
    /// What can be done about it.
    pub help: Option<String>,
}

/// What is said of an error besides its message.
pub struct AdviceView {
    pub code: Seq<char>,
    pub url: Option<Seq<char>>,
    pub help: Option<Seq<char>>,
}

impl View for Advice {
    type V = AdviceView;

    open spec fn view(&self) -> AdviceView {
        AdviceView {
            code: self.code@,
            url: text::opt_str(self.url),
            help: text::opt_text(self.help),
        }
    }
}

/// Advice on a page, with a text that can be followed.
fn linked(code: &'static str, url: &'static str, help: &str) -> (r: Advice)
    ensures
        r@ == (AdviceView { code: code@, url: Some(url@), help: Some(help@) }),
{
    Advice { code, url: Some(url), help: Some(help.to_string()) }
}

/// Advice without a page.
fn unlinked(code: &'static str, help: &str) -> (r: Advice)
    ensures
        r@ == (AdviceView { code: code@, url: None, help: Some(help@) }),
{
    Advice { code, url: None, help: Some(help.to_string()) }
}

impl DaemonIdError {
    /// What is said of the error besides its message.
    pub open spec fn told(&self) -> AdviceView {
        match self {
            DaemonIdError::Empty => AdviceView {
                code: "pitchfork::daemon::empty_id"@,
                url: Some("https://pitchfork.jdx.dev/configuration"@),
                help: Some("provide a non-empty identifier for the daemon"@),
            },
            DaemonIdError::EmptyComponent { .. } => AdviceView {
                code: "pitchfork::daemon::empty_component"@,
                url: Some("https://pitchfork.jdx.dev/configuration"@),
                help: Some("both namespace and name must be non-empty"@),
            },
            DaemonIdError::PathSeparator { .. } => AdviceView {
                code: "pitchfork::daemon::path_separator"@,
                url: Some("https://pitchfork.jdx.dev/configuration"@),
                help: Some("daemon IDs cannot contain '/' or '\\' to prevent path traversal"@),
            },
            DaemonIdError::ParentDirRef { .. } => AdviceView {
                code: "pitchfork::daemon::parent_dir_ref"@,
                url: Some("https://pitchfork.jdx.dev/configuration"@),
                help: Some("daemon IDs cannot contain '..' to prevent path traversal"@),
            },
            DaemonIdError::ReservedSequence { .. } => AdviceView {
                code: "pitchfork::daemon::reserved_sequence"@,
                url: Some("https://pitchfork.jdx.dev/configuration"@),
                help: Some("'--' is reserved for internal path encoding; use single dashes instead"@),
            },
            DaemonIdError::LeadingTrailingDash { .. } => AdviceView {
                code: "pitchfork::daemon::leading_trailing_dash"@,
                url: Some("https://pitchfork.jdx.dev/configuration"@),
                help: Some("remove the leading or trailing dash (e.g. 'my-daemon' not '-my-daemon' or 'my-daemon-')"@),
            },
            DaemonIdError::ContainsSpace { .. } => AdviceView {
                code: "pitchfork::daemon::contains_space"@,
                url: Some("https://pitchfork.jdx.dev/configuration"@),
                help: Some("use hyphens or underscores instead of spaces (e.g., 'my-daemon' or 'my_daemon')"@),
            },
            DaemonIdError::CurrentDir => AdviceView {
                code: "pitchfork::daemon::current_dir"@,
                url: Some("https://pitchfork.jdx.dev/configuration"@),
                help: Some("'.' refers to the current directory; use a descriptive name instead"@),
            },
            DaemonIdError::InvalidChars { .. } => AdviceView {
                code: "pitchfork::daemon::invalid_chars"@,
                url: Some("https://pitchfork.jdx.dev/configuration"@),
                help: Some("daemon IDs must contain only printable ASCII characters (letters, numbers, hyphens, underscores, dots)"@),
            },
            DaemonIdError::MissingNamespace { .. } => AdviceView {
                code: "pitchfork::daemon::missing_namespace"@,
                url: Some("https://pitchfork.jdx.dev/configuration"@),
                help: Some("use qualified format like 'global/myapp' or 'project-name/daemon'"@),
            },
            DaemonIdError::InvalidSafePath { .. } => AdviceView {
                code: "pitchfork::daemon::invalid_safe_path"@,
                url: None,
                help: Some("safe paths use '--' to separate namespace and name"@),
            },
        }
    }

    /// What is said of the error besides its message.
    pub fn advice(&self) -> (r: Advice)
        ensures
            r@ == self.told(),
    {
        match self {
            DaemonIdError::Empty => linked(
                "pitchfork::daemon::empty_id",
                "https://pitchfork.jdx.dev/configuration",
                "provide a non-empty identifier for the daemon",
            ),
            DaemonIdError::EmptyComponent { .. } => linked(
                "pitchfork::daemon::empty_component",
                "https://pitchfork.jdx.dev/configuration",
                "both namespace and name must be non-empty",
            ),
            DaemonIdError::PathSeparator { .. } => linked(
                "pitchfork::daemon::path_separator",
                "https://pitchfork.jdx.dev/configuration",
                "daemon IDs cannot contain '/' or '\\' to prevent path traversal",
            ),
            DaemonIdError::ParentDirRef { .. } => linked(
                "pitchfork::daemon::parent_dir_ref",
                "https://pitchfork.jdx.dev/configuration",
                "daemon IDs cannot contain '..' to prevent path traversal",
            ),
            DaemonIdError::ReservedSequence { .. } => linked(
                "pitchfork::daemon::reserved_sequence",
                "https://pitchfork.jdx.dev/configuration",
                "'--' is reserved for internal path encoding; use single dashes instead",
            ),
            DaemonIdError::LeadingTrailingDash { .. } => linked(
                "pitchfork::daemon::leading_trailing_dash",
                "https://pitchfork.jdx.dev/configuration",
                "remove the leading or trailing dash (e.g. 'my-daemon' not '-my-daemon' or 'my-daemon-')",
            ),
            DaemonIdError::ContainsSpace { .. } => linked(
                "pitchfork::daemon::contains_space",
                "https://pitchfork.jdx.dev/configuration",
                "use hyphens or underscores instead of spaces (e.g., 'my-daemon' or 'my_daemon')",
            ),
            DaemonIdError::CurrentDir => linked(
                "pitchfork::daemon::current_dir",
                "https://pitchfork.jdx.dev/configuration",
                "'.' refers to the current directory; use a descriptive name instead",
            ),
            DaemonIdError::InvalidChars { .. } => linked(
                "pitchfork::daemon::invalid_chars",
                "https://pitchfork.jdx.dev/configuration",
                "daemon IDs must contain only printable ASCII characters (letters, numbers, hyphens, underscores, dots)",
            ),
            DaemonIdError::MissingNamespace { .. } => linked(
                "pitchfork::daemon::missing_namespace",
                "https://pitchfork.jdx.dev/configuration",
                "use qualified format like 'global/myapp' or 'project-name/daemon'",
            ),
            DaemonIdError::InvalidSafePath { .. } => unlinked(
                "pitchfork::daemon::invalid_safe_path",
                "safe paths use '--' to separate namespace and name",
            ),
        }
    }
}

impl DaemonError {
    /// What is said of the error besides its message.
    pub open spec fn told(&self) -> AdviceView {
        match self {
            DaemonError::StopFailed { .. } => AdviceView {
                code: "pitchfork::daemon::stop_failed"@,
                url: None,
                help: Some("the process may be stuck or require manual intervention. Try: kill -9 <pid>"@),
            },
        }
    }

    /// What is said of the error besides its message.
    pub fn advice(&self) -> (r: Advice)
        ensures
            r@ == self.told(),
    {
        match self {
            DaemonError::StopFailed { .. } => unlinked(
                "pitchfork::daemon::stop_failed",
                "the process may be stuck or require manual intervention. Try: kill -9 <pid>",
            ),
        }
    }
}

impl DependencyError {
    /// What is said of the error besides its message.
    pub open spec fn told(&self) -> AdviceView {
        match self {
            DependencyError::DaemonNotFound { suggestion, .. } => AdviceView {
                code: "pitchfork::deps::not_found"@,
                url: Some("https://pitchfork.jdx.dev/configuration#depends"@),
                help: text::opt_text(*suggestion),
            },
            DependencyError::MissingDependency { .. } => AdviceView {
                code: "pitchfork::deps::missing_dependency"@,
                url: Some("https://pitchfork.jdx.dev/configuration#depends"@),
                help: Some("add the missing daemon to your pitchfork.toml or remove it from the depends list"@),
            },
            DependencyError::CircularDependency { .. } => AdviceView {
                code: "pitchfork::deps::circular"@,
                url: Some("https://pitchfork.jdx.dev/configuration#depends"@),
                help: Some("break the cycle by removing one of the dependencies"@),
            },
        }
    }

    /// What is said of the error besides its message.
    pub fn advice(&self) -> (r: Advice)
        ensures
            r@ == self.told(),
    {
        match self {
            DependencyError::DaemonNotFound { suggestion, .. } => Advice {
                code: "pitchfork::deps::not_found",
                url: Some("https://pitchfork.jdx.dev/configuration#depends"),
                help: copy_opt(suggestion),
            },
            DependencyError::MissingDependency { .. } => linked(
                "pitchfork::deps::missing_dependency",
                "https://pitchfork.jdx.dev/configuration#depends",
                "add the missing daemon to your pitchfork.toml or remove it from the depends list",
            ),
            DependencyError::CircularDependency { .. } => linked(
                "pitchfork::deps::circular",
                "https://pitchfork.jdx.dev/configuration#depends",
                "break the cycle by removing one of the dependencies",
            ),
        }
    }
}

impl PortError {
    /// What is said of the error besides its message.
    pub open spec fn told(&self) -> AdviceView {
        match self {
            PortError::InUse { .. } => AdviceView {
                code: "pitchfork::port::in_use"@,
                url: Some("https://pitchfork.jdx.dev/configuration#port"@),
                help: Some("choose a different port, stop the existing process, or enable auto_bump_port to automatically find an available port"@),
            },
            PortError::NoAvailablePort { .. } => AdviceView {
                code: "pitchfork::port::no_available_port"@,
                url: Some("https://pitchfork.jdx.dev/configuration#port"@),
                help: Some("manually specify an available port or reduce the number of concurrent services"@),
            },
        }
    }

    /// What is said of the error besides its message.
    pub fn advice(&self) -> (r: Advice)
        ensures
            r@ == self.told(),
    {
        match self {
            PortError::InUse { .. } => linked(
                "pitchfork::port::in_use",
                "https://pitchfork.jdx.dev/configuration#port",
                "choose a different port, stop the existing process, or enable auto_bump_port to automatically find an available port",
            ),
            PortError::NoAvailablePort { .. } => linked(
                "pitchfork::port::no_available_port",
                "https://pitchfork.jdx.dev/configuration#port",
                "manually specify an available port or reduce the number of concurrent services",
            ),
        }
    }
}

impl ConfigParseError {
    /// What is said of the error besides its message.
    pub open spec fn told(&self) -> AdviceView {
        match self {
            ConfigParseError::TomlError { help, .. } => AdviceView {
                code: "pitchfork::config::parse_error"@,
                url: None,
                help: text::opt_text(*help),
            },
            ConfigParseError::InvalidDaemonName { .. } => AdviceView {
                code: "pitchfork::config::invalid_daemon_name"@,
                url: Some("https://pitchfork.jdx.dev/configuration"@),
                help: Some("daemon names must be valid identifiers without spaces, '--', or special characters"@),
            },
            ConfigParseError::InvalidDependency { .. } => AdviceView {
                code: "pitchfork::config::invalid_dependency"@,
                url: Some("https://pitchfork.jdx.dev/configuration#depends"@),
                help: Some("dependency IDs must be valid daemon IDs; use 'name' for same namespace or 'namespace/name' for cross-namespace"@),
            },
            ConfigParseError::NamespaceCollision { .. } => AdviceView {
                code: "pitchfork::config::namespace_collision"@,
                url: Some("https://pitchfork.jdx.dev/concepts/namespaces"@),
                help: Some("rename one of the directories so that no two project configs share the same namespace"@),
            },
            ConfigParseError::InvalidNamespace { .. } => AdviceView {
                code: "pitchfork::config::invalid_namespace"@,
                url: Some("https://pitchfork.jdx.dev/concepts/namespaces"@),
                help: Some("set a valid top-level namespace in your pitchfork.toml, e.g. namespace = \"my-project\""@),
            },
            ConfigParseError::InvalidNamespacePerWorktree { .. } => AdviceView {
                code: "pitchfork::config::invalid_namespace_per_worktree"@,
                url: Some("https://pitchfork.jdx.dev/concepts/namespaces"@),
                help: Some("namespace_per_worktree = true gives each checkout (e.g. git worktree) its own namespace; it requires an explicit namespace and consistent values across the project's config files"@),
            },
        }
    }

    /// What is said of the error besides its message.
    pub fn advice(&self) -> (r: Advice)
        ensures
            r@ == self.told(),
    {
        match self {
            ConfigParseError::TomlError { help, .. } => Advice {
                code: "pitchfork::config::parse_error",
                url: None,
                help: copy_opt(help),
            },
            ConfigParseError::InvalidDaemonName { .. } => linked(
                "pitchfork::config::invalid_daemon_name",
                "https://pitchfork.jdx.dev/configuration",
                "daemon names must be valid identifiers without spaces, '--', or special characters",
            ),
            ConfigParseError::InvalidDependency { .. } => linked(
                "pitchfork::config::invalid_dependency",
                "https://pitchfork.jdx.dev/configuration#depends",
                "dependency IDs must be valid daemon IDs; use 'name' for same namespace or 'namespace/name' for cross-namespace",
            ),
            ConfigParseError::NamespaceCollision { .. } => linked(
                "pitchfork::config::namespace_collision",
                "https://pitchfork.jdx.dev/concepts/namespaces",
                "rename one of the directories so that no two project configs share the same namespace",
            ),
            ConfigParseError::InvalidNamespace { .. } => linked(
                "pitchfork::config::invalid_namespace",
                "https://pitchfork.jdx.dev/concepts/namespaces",
                "set a valid top-level namespace in your pitchfork.toml, e.g. namespace = \"my-project\"",
            ),
            ConfigParseError::InvalidNamespacePerWorktree { .. } => linked(
                "pitchfork::config::invalid_namespace_per_worktree",
                "https://pitchfork.jdx.dev/concepts/namespaces",
                "namespace_per_worktree = true gives each checkout (e.g. git worktree) its own namespace; it requires an explicit namespace and consistent values across the project's config files",
            ),
        }
    }
}

impl FileError {
    /// What is said of the error besides its message.
    pub open spec fn told(&self) -> AdviceView {
        match self {
            FileError::ReadError { .. } => AdviceView {
                code: "pitchfork::file::read_error"@,
                url: None,
                help: None,
            },
            FileError::WriteError { details, .. } => AdviceView {
                code: "pitchfork::file::write_error"@,
                url: None,
                help: text::opt_text(*details),
            },
            FileError::SerializeError { .. } => AdviceView {
                code: "pitchfork::file::serialize_error"@,
                url: None,
                help: Some("this is likely an internal error; please report it"@),
            },
            FileError::NoPath => AdviceView {
                code: "pitchfork::file::no_path"@,
                url: None,
                help: Some("ensure a pitchfork.toml file exists in your project or specify a path"@),
            },
        }
    }

    /// What is said of the error besides its message.
    pub fn advice(&self) -> (r: Advice)
        ensures
            r@ == self.told(),
    {
        match self {
            FileError::ReadError { .. } => Advice {
                code: "pitchfork::file::read_error",
                url: None,
                help: None,
            },
            FileError::WriteError { details, .. } => Advice {
                code: "pitchfork::file::write_error",
                url: None,
                help: copy_opt(details),
            },
            FileError::SerializeError { .. } => unlinked(
                "pitchfork::file::serialize_error",
                "this is likely an internal error; please report it",
            ),
            FileError::NoPath => unlinked(
                "pitchfork::file::no_path",
                "ensure a pitchfork.toml file exists in your project or specify a path",
            ),
        }
    }
}

impl IpcError {
    /// What is said of the error besides its message.
    pub open spec fn told(&self) -> AdviceView {
        match self {
            IpcError::ConnectionFailed { help, .. } => AdviceView {
                code: "pitchfork::ipc::connection_failed"@,
                url: Some("https://pitchfork.jdx.dev/supervisor"@),
                help: Some(help@),
            },
            IpcError::Timeout { .. } => AdviceView {
                code: "pitchfork::ipc::timeout"@,
                url: Some("https://pitchfork.jdx.dev/supervisor"@),
                help: Some("the supervisor may be unresponsive or overloaded.\nCheck supervisor status: pitchfork supervisor status\nView logs: pitchfork logs"@),
            },
            IpcError::ConnectionClosed => AdviceView {
                code: "pitchfork::ipc::connection_closed"@,
                url: Some("https://pitchfork.jdx.dev/supervisor"@),
                help: Some("the supervisor may have crashed or been stopped.\nRestart with: pitchfork supervisor start"@),
            },
            IpcError::ReadFailed { .. } => AdviceView {
                code: "pitchfork::ipc::read_failed"@,
                url: None,
                help: None,
            },
            IpcError::SendFailed { .. } => AdviceView {
                code: "pitchfork::ipc::send_failed"@,
                url: None,
                help: None,
            },
            IpcError::UnexpectedResponse { .. } => AdviceView {
                code: "pitchfork::ipc::unexpected_response"@,
                url: None,
                help: Some("this may indicate a version mismatch between the CLI and supervisor"@),
            },
            IpcError::InvalidMessage { .. } => AdviceView {
                code: "pitchfork::ipc::invalid_message"@,
                url: None,
                help: None,
            },
        }
    }

    /// What is said of the error besides its message.
    pub fn advice(&self) -> (r: Advice)
        ensures
            r@ == self.told(),
    {
        match self {
            IpcError::ConnectionFailed { help, .. } => Advice {
                code: "pitchfork::ipc::connection_failed",
                url: Some("https://pitchfork.jdx.dev/supervisor"),
                help: Some(help.clone()),
            },
            IpcError::Timeout { .. } => linked(
                "pitchfork::ipc::timeout",
                "https://pitchfork.jdx.dev/supervisor",
                "the supervisor may be unresponsive or overloaded.\nCheck supervisor status: pitchfork supervisor status\nView logs: pitchfork logs",
            ),
            IpcError::ConnectionClosed => linked(
                "pitchfork::ipc::connection_closed",
                "https://pitchfork.jdx.dev/supervisor",
                "the supervisor may have crashed or been stopped.\nRestart with: pitchfork supervisor start",
            ),
            IpcError::ReadFailed { .. } => Advice {
                code: "pitchfork::ipc::read_failed",
                url: None,
                help: None,
            },
            IpcError::SendFailed { .. } => Advice {
                code: "pitchfork::ipc::send_failed",
                url: None,
                help: None,
            },
            IpcError::UnexpectedResponse { .. } => unlinked(
                "pitchfork::ipc::unexpected_response",
                "this may indicate a version mismatch between the CLI and supervisor",
            ),
            IpcError::InvalidMessage { .. } => Advice {
                code: "pitchfork::ipc::invalid_message",
                url: None,
                help: None,
            },
        }
    }
}

impl Failure {
    /// What is said of the error besides its message.
    pub open spec fn told(&self) -> AdviceView {
        match self {
            Failure::DaemonId(e) => e.told(),
            Failure::Daemon(e) => e.told(),
            Failure::Dependency(e) => e.told(),
            Failure::Port(e) => e.told(),
            Failure::ConfigParse(e) => e.told(),
            Failure::File(e) => e.told(),
            Failure::Ipc(e) => e.told(),
        }
    }

    /// What is said of the error besides its message.
    pub fn advice(&self) -> (r: Advice)
        ensures
            r@ == self.told(),
    {
        match self {
            Failure::DaemonId(e) => e.advice(),
            Failure::Daemon(e) => e.advice(),
            Failure::Dependency(e) => e.advice(),
            Failure::Port(e) => e.advice(),
            Failure::ConfigParse(e) => e.advice(),
            Failure::File(e) => e.advice(),
            Failure::Ipc(e) => e.advice(),
        }
    }
}

impl MultipleErrors {
    /// What is said of the errors besides their number.
    pub fn advice(&self) -> (r: Advice)
        ensures
            r@ == (AdviceView { code: "pitchfork::multiple_errors"@, url: None, help: None }),
    {
        Advice { code: "pitchfork::multiple_errors", url: None, help: None }
    }
}

/// Errors with identifiers have a code, a page and advice of their own.
pub proof fn errors_with_identifiers_are_advised_on(e: DaemonIdError)
    ensures
        match e {
            DaemonIdError::Empty => {
                &&& e.told().code == "pitchfork::daemon::empty_id"@
                &&& e.told().url == Some("https://pitchfork.jdx.dev/configuration"@)
                &&& e.told().help == Some("provide a non-empty identifier for the daemon"@)
            },
            DaemonIdError::EmptyComponent { .. } => {
                &&& e.told().code == "pitchfork::daemon::empty_component"@
                &&& e.told().url == Some("https://pitchfork.jdx.dev/configuration"@)
                &&& e.told().help == Some("both namespace and name must be non-empty"@)
            },
            DaemonIdError::PathSeparator { .. } => {
                &&& e.told().code == "pitchfork::daemon::path_separator"@
                &&& e.told().url == Some("https://pitchfork.jdx.dev/configuration"@)
                &&& e.told().help == Some("daemon IDs cannot contain '/' or '\\' to prevent path traversal"@)
            },
            DaemonIdError::ParentDirRef { .. } => {
                &&& e.told().code == "pitchfork::daemon::parent_dir_ref"@
                &&& e.told().url == Some("https://pitchfork.jdx.dev/configuration"@)
                &&& e.told().help == Some("daemon IDs cannot contain '..' to prevent path traversal"@)
            },
            DaemonIdError::ReservedSequence { .. } => {
                &&& e.told().code == "pitchfork::daemon::reserved_sequence"@
                &&& e.told().url == Some("https://pitchfork.jdx.dev/configuration"@)
                &&& e.told().help == Some("'--' is reserved for internal path encoding; use single dashes instead"@)
            },
            DaemonIdError::LeadingTrailingDash { .. } => {
                &&& e.told().code == "pitchfork::daemon::leading_trailing_dash"@
                &&& e.told().url == Some("https://pitchfork.jdx.dev/configuration"@)
                &&& e.told().help == Some("remove the leading or trailing dash (e.g. 'my-daemon' not '-my-daemon' or 'my-daemon-')"@)
            },
            DaemonIdError::ContainsSpace { .. } => {
                &&& e.told().code == "pitchfork::daemon::contains_space"@
                &&& e.told().url == Some("https://pitchfork.jdx.dev/configuration"@)
                &&& e.told().help == Some("use hyphens or underscores instead of spaces (e.g., 'my-daemon' or 'my_daemon')"@)
            },
            DaemonIdError::CurrentDir => {
                &&& e.told().code == "pitchfork::daemon::current_dir"@
                &&& e.told().url == Some("https://pitchfork.jdx.dev/configuration"@)
                &&& e.told().help == Some("'.' refers to the current directory; use a descriptive name instead"@)
            },
            DaemonIdError::InvalidChars { .. } => {
                &&& e.told().code == "pitchfork::daemon::invalid_chars"@
                &&& e.told().url == Some("https://pitchfork.jdx.dev/configuration"@)
                &&& e.told().help == Some("daemon IDs must contain only printable ASCII characters (letters, numbers, hyphens, underscores, dots)"@)
            },
            DaemonIdError::MissingNamespace { .. } => {
                &&& e.told().code == "pitchfork::daemon::missing_namespace"@
                &&& e.told().url == Some("https://pitchfork.jdx.dev/configuration"@)
                &&& e.told().help == Some("use qualified format like 'global/myapp' or 'project-name/daemon'"@)
            },
            DaemonIdError::InvalidSafePath { .. } => {
                &&& e.told().code == "pitchfork::daemon::invalid_safe_path"@
                &&& e.told().url is None
                &&& e.told().help == Some("safe paths use '--' to separate namespace and name"@)
            },
        },
{
}

/// Errors with daemons have a code, a page and advice of their own.
pub proof fn errors_with_daemons_are_advised_on(e: DaemonError)
    ensures
        match e {
            DaemonError::StopFailed { .. } => {
                &&& e.told().code == "pitchfork::daemon::stop_failed"@
                &&& e.told().url is None
                &&& e.told().help == Some("the process may be stuck or require manual intervention. Try: kill -9 <pid>"@)
            },
        },
{
}

/// Errors with dependencies have a code, a page and advice of their own.
pub proof fn errors_with_dependencies_are_advised_on(e: DependencyError)
    ensures
        match e {
            DependencyError::DaemonNotFound { suggestion, .. } => {
                &&& e.told().code == "pitchfork::deps::not_found"@
                &&& e.told().url == Some("https://pitchfork.jdx.dev/configuration#depends"@)
                &&& e.told().help == text::opt_text(suggestion)
            },
            DependencyError::MissingDependency { .. } => {
                &&& e.told().code == "pitchfork::deps::missing_dependency"@
                &&& e.told().url == Some("https://pitchfork.jdx.dev/configuration#depends"@)
                &&& e.told().help == Some("add the missing daemon to your pitchfork.toml or remove it from the depends list"@)
            },
            DependencyError::CircularDependency { .. } => {
                &&& e.told().code == "pitchfork::deps::circular"@
                &&& e.told().url == Some("https://pitchfork.jdx.dev/configuration#depends"@)
                &&& e.told().help == Some("break the cycle by removing one of the dependencies"@)
            },
        },
{
}

/// Errors with ports have a code, a page and advice of their own.
pub proof fn errors_with_ports_are_advised_on(e: PortError)
    ensures
        match e {
            PortError::InUse { .. } => {
                &&& e.told().code == "pitchfork::port::in_use"@
                &&& e.told().url == Some("https://pitchfork.jdx.dev/configuration#port"@)
                &&& e.told().help == Some("choose a different port, stop the existing process, or enable auto_bump_port to automatically find an available port"@)
            },
            PortError::NoAvailablePort { .. } => {
                &&& e.told().code == "pitchfork::port::no_available_port"@
                &&& e.told().url == Some("https://pitchfork.jdx.dev/configuration#port"@)
                &&& e.told().help == Some("manually specify an available port or reduce the number of concurrent services"@)
            },
        },
{
}

/// Errors with configurations have a code, a page and advice of their own.
pub proof fn errors_with_configurations_are_advised_on(e: ConfigParseError)
    ensures
        match e {
            ConfigParseError::TomlError { help, .. } => {
                &&& e.told().code == "pitchfork::config::parse_error"@
                &&& e.told().url is None
                &&& e.told().help == text::opt_text(help)
            },
            ConfigParseError::InvalidDaemonName { .. } => {
                &&& e.told().code == "pitchfork::config::invalid_daemon_name"@
                &&& e.told().url == Some("https://pitchfork.jdx.dev/configuration"@)
                &&& e.told().help == Some("daemon names must be valid identifiers without spaces, '--', or special characters"@)
            },
            ConfigParseError::InvalidDependency { .. } => {
                &&& e.told().code == "pitchfork::config::invalid_dependency"@
                &&& e.told().url == Some("https://pitchfork.jdx.dev/configuration#depends"@)
                &&& e.told().help == Some("dependency IDs must be valid daemon IDs; use 'name' for same namespace or 'namespace/name' for cross-namespace"@)
            },
            ConfigParseError::NamespaceCollision { .. } => {
                &&& e.told().code == "pitchfork::config::namespace_collision"@
                &&& e.told().url == Some("https://pitchfork.jdx.dev/concepts/namespaces"@)
                &&& e.told().help == Some("rename one of the directories so that no two project configs share the same namespace"@)
            },
            ConfigParseError::InvalidNamespace { .. } => {
                &&& e.told().code == "pitchfork::config::invalid_namespace"@
                &&& e.told().url == Some("https://pitchfork.jdx.dev/concepts/namespaces"@)
                &&& e.told().help == Some("set a valid top-level namespace in your pitchfork.toml, e.g. namespace = \"my-project\""@)
            },
            ConfigParseError::InvalidNamespacePerWorktree { .. } => {
                &&& e.told().code == "pitchfork::config::invalid_namespace_per_worktree"@
                &&& e.told().url == Some("https://pitchfork.jdx.dev/concepts/namespaces"@)
                &&& e.told().help == Some("namespace_per_worktree = true gives each checkout (e.g. git worktree) its own namespace; it requires an explicit namespace and consistent values across the project's config files"@)
            },
        },
{
}

/// Errors with files have a code, a page and advice of their own.
pub proof fn errors_with_files_are_advised_on(e: FileError)
    ensures
        match e {
            FileError::ReadError { .. } => {
                &&& e.told().code == "pitchfork::file::read_error"@
                &&& e.told().url is None
                &&& e.told().help is None
            },
            FileError::WriteError { details, .. } => {
                &&& e.told().code == "pitchfork::file::write_error"@
                &&& e.told().url is None
                &&& e.told().help == text::opt_text(details)
            },
            FileError::SerializeError { .. } => {
                &&& e.told().code == "pitchfork::file::serialize_error"@
                &&& e.told().url is None
                &&& e.told().help == Some("this is likely an internal error; please report it"@)
            },
            FileError::NoPath => {
                &&& e.told().code == "pitchfork::file::no_path"@
                &&& e.told().url is None
                &&& e.told().help == Some("ensure a pitchfork.toml file exists in your project or specify a path"@)
            },
        },
{
}

/// Errors with connections have a code, a page and advice of their own.
pub proof fn errors_with_connections_are_advised_on(e: IpcError)
    ensures
        match e {
            IpcError::ConnectionFailed { help, .. } => {
                &&& e.told().code == "pitchfork::ipc::connection_failed"@
                &&& e.told().url == Some("https://pitchfork.jdx.dev/supervisor"@)
                &&& e.told().help == Some(help@)
            },
            IpcError::Timeout { .. } => {
                &&& e.told().code == "pitchfork::ipc::timeout"@
                &&& e.told().url == Some("https://pitchfork.jdx.dev/supervisor"@)
                &&& e.told().help == Some("the supervisor may be unresponsive or overloaded.\nCheck supervisor status: pitchfork supervisor status\nView logs: pitchfork logs"@)
            },
            IpcError::ConnectionClosed => {
                &&& e.told().code == "pitchfork::ipc::connection_closed"@
                &&& e.told().url == Some("https://pitchfork.jdx.dev/supervisor"@)
                &&& e.told().help == Some("the supervisor may have crashed or been stopped.\nRestart with: pitchfork supervisor start"@)
            },
            IpcError::ReadFailed { .. } => {
                &&& e.told().code == "pitchfork::ipc::read_failed"@
                &&& e.told().url is None
                &&& e.told().help is None
            },
            IpcError::SendFailed { .. } => {
                &&& e.told().code == "pitchfork::ipc::send_failed"@
                &&& e.told().url is None
                &&& e.told().help is None
            },
            IpcError::UnexpectedResponse { .. } => {
                &&& e.told().code == "pitchfork::ipc::unexpected_response"@
                &&& e.told().url is None
                &&& e.told().help == Some("this may indicate a version mismatch between the CLI and supervisor"@)
            },
            IpcError::InvalidMessage { .. } => {
                &&& e.told().code == "pitchfork::ipc::invalid_message"@
                &&& e.told().url is None
                &&& e.told().help is None
            },
        },
{
}

} // verus!
