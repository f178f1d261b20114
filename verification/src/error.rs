//! The errors of the library and the sentences that describe them.
use crate::text;
use crate::text::{join, nat_text};
use vstd::prelude::*;

verus! {

/// Errors related to daemon ID validation.
#[derive(Debug)]
pub enum DaemonIdError {
    Empty,
    EmptyComponent { component: String },
    PathSeparator { id: String, sep: char },
    ParentDirRef { id: String },
    ReservedSequence { id: String },
    LeadingTrailingDash { id: String },
    ContainsSpace { id: String },
    CurrentDir,
    InvalidChars { id: String },
    MissingNamespace { id: String },
    InvalidSafePath { path: String },
}

impl DaemonIdError {
    /// The sentence that describes the error.
    pub open spec fn shown(&self) -> Seq<char> {
        match self {
            DaemonIdError::Empty => "daemon ID cannot be empty"@,
            DaemonIdError::EmptyComponent { component } => "daemon ID "@ + component@
                + " cannot be empty"@,
            DaemonIdError::PathSeparator { id, sep } => ("daemon ID '"@ + id@
                + "' contains path separator '"@).push(*sep) + "'"@,
            DaemonIdError::ParentDirRef { id } => "daemon ID '"@ + id@
                + "' contains parent directory reference '..'"@,
            DaemonIdError::ReservedSequence { id } => "daemon ID '"@ + id@
                + "' contains reserved sequence '--'"@,
            DaemonIdError::LeadingTrailingDash { id } => "daemon ID component '"@ + id@
                + "' starts or ends with a dash '-'"@,
            DaemonIdError::ContainsSpace { id } => "daemon ID '"@ + id@ + "' contains spaces"@,
            DaemonIdError::CurrentDir => "daemon ID cannot be '.'"@,
            DaemonIdError::InvalidChars { id } => "daemon ID '"@ + id@
                + "' contains non-printable or non-ASCII character"@,
            DaemonIdError::MissingNamespace { id } => "daemon ID '"@ + id@
                + "' is missing namespace (expected format: namespace/name)"@,
            DaemonIdError::InvalidSafePath { path } => "invalid safe path format '"@ + path@
                + "' (expected namespace--name)"@,
        }
    }

    /// The sentence that describes the error.
    pub fn message(&self) -> (r: String)
        ensures
            r@ == self.shown(),
    {
        match self {
            DaemonIdError::Empty => "daemon ID cannot be empty".to_string(),
            DaemonIdError::EmptyComponent { component } => "daemon ID ".to_string().concat(
                component.as_str(),
            ).concat(" cannot be empty"),
            DaemonIdError::PathSeparator { id, sep } => {
                let mut out = "daemon ID '".to_string().concat(id.as_str()).concat(
                    "' contains path separator '",
                );
                out.push(*sep);
                out.concat("'")
            },
            DaemonIdError::ParentDirRef { id } => "daemon ID '".to_string().concat(
                id.as_str(),
            ).concat("' contains parent directory reference '..'"),
            DaemonIdError::ReservedSequence { id } => "daemon ID '".to_string().concat(
                id.as_str(),
            ).concat("' contains reserved sequence '--'"),
            DaemonIdError::LeadingTrailingDash { id } => "daemon ID component '".to_string().concat(
                id.as_str(),
            ).concat("' starts or ends with a dash '-'"),
            DaemonIdError::ContainsSpace { id } => "daemon ID '".to_string().concat(
                id.as_str(),
            ).concat("' contains spaces"),
            DaemonIdError::CurrentDir => "daemon ID cannot be '.'".to_string(),
            DaemonIdError::InvalidChars { id } => "daemon ID '".to_string().concat(
                id.as_str(),
            ).concat("' contains non-printable or non-ASCII character"),
            DaemonIdError::MissingNamespace { id } => "daemon ID '".to_string().concat(
                id.as_str(),
            ).concat("' is missing namespace (expected format: namespace/name)"),
            DaemonIdError::InvalidSafePath { path } => "invalid safe path format '".to_string().concat(
                path.as_str(),
            ).concat("' (expected namespace--name)"),
        }
    }
}

/// Errors related to daemon operations.
#[derive(Debug)]
pub enum DaemonError {
    StopFailed { id: String, error: String },
}

impl DaemonError {
    /// The sentence that describes the error.
    pub open spec fn shown(&self) -> Seq<char> {
        match self {
            DaemonError::StopFailed { id, error } => "failed to stop daemon '"@ + id@ + "': "@
                + error@,
        }
    }

    /// The sentence that describes the error.
    pub fn message(&self) -> (r: String)
        ensures
            r@ == self.shown(),
    {
        match self {
            DaemonError::StopFailed { id, error } => "failed to stop daemon '".to_string().concat(
                id.as_str(),
            ).concat("': ").concat(error.as_str()),
        }
    }
}

/// Errors related to dependency resolution.
#[derive(Debug)]
pub enum DependencyError {
    DaemonNotFound { name: String, suggestion: Option<String> },
    MissingDependency { daemon: String, dependency: String },
    CircularDependency {
        /// The daemons involved in the cycle.
        involved: Vec<String>,
    },
}

impl DependencyError {
    /// The sentence that describes the error.
    pub open spec fn shown(&self) -> Seq<char> {
        match self {
            DependencyError::DaemonNotFound { name, suggestion } => "daemon '"@ + name@
                + "' not found in configuration"@,
            DependencyError::MissingDependency { daemon, dependency } => "daemon '"@ + daemon@
                + "' depends on '"@ + dependency@ + "' which is not defined"@,
            DependencyError::CircularDependency { involved } =>
                "circular dependency detected involving: "@ + text::joined(text::texts(involved@), ", "@),
        }
    }

    /// The sentence that describes the error.
    pub fn message(&self) -> (r: String)
        ensures
            r@ == self.shown(),
    {
        match self {
            DependencyError::DaemonNotFound { name, suggestion } => "daemon '".to_string().concat(
                name.as_str(),
            ).concat("' not found in configuration"),
            DependencyError::MissingDependency { daemon, dependency } =>
                "daemon '".to_string().concat(daemon.as_str()).concat("' depends on '").concat(
                    dependency.as_str(),
                ).concat("' which is not defined"),
            DependencyError::CircularDependency { involved } =>
                "circular dependency detected involving: ".to_string().concat(
                    join(involved, ", ").as_str(),
                ),
        }
    }
}

/// Errors related to port binding and availability.
#[derive(Debug)]
pub enum PortError {
    InUse { port: u16, process: String, pid: u32 },
    NoAvailablePort { start_port: u16, attempts: u32 },
}

impl PortError {
    /// The sentence that describes the error.
    pub open spec fn shown(&self) -> Seq<char> {
        match self {
            PortError::InUse { port, process, pid } => "port "@ + text::decimal(*port as int)
                + " is already in use by process '"@ + process@ + "' (PID: "@ + text::decimal(
                *pid as int,
            ) + ")"@,
            PortError::NoAvailablePort { start_port, attempts } =>
                "could not find an available port after "@ + text::decimal(*attempts as int)
                + " attempts starting from "@ + text::decimal(*start_port as int),
        }
    }

    /// The sentence that describes the error.
    pub fn message(&self) -> (r: String)
        ensures
            r@ == self.shown(),
    {
        match self {
            PortError::InUse { port, process, pid } => "port ".to_string().concat(
                nat_text(*port as u64).as_str(),
            ).concat(" is already in use by process '").concat(process.as_str()).concat(
                "' (PID: ",
            ).concat(nat_text(*pid as u64).as_str()).concat(")"),
            PortError::NoAvailablePort { start_port, attempts } =>
                "could not find an available port after ".to_string().concat(
                    nat_text(*attempts as u64).as_str(),
                ).concat(" attempts starting from ").concat(nat_text(*start_port as u64).as_str()),
        }
    }
}

/// The place of an error in a source text: where it starts and how long it is.
#[derive(Debug, Clone, Copy, PartialEq, Eq, Structural)]
pub struct Span {
    pub offset: usize,
    pub length: usize,
}

/// Error for TOML configuration parse failures, with the source text for display.
#[derive(Debug)]
pub enum ConfigParseError {
    TomlError {
        /// The name of the source file.
        source_name: String,
        /// The contents of the source file.
        contents: String,
        /// The place of the error in the contents.
        span: Span,
        /// The message of the TOML parser.
        message: String,
        /// Additional help text.
        help: Option<String>,
    },
    InvalidDaemonName { name: String, path: String, reason: String },
    InvalidDependency { daemon: String, dependency: String, path: String, reason: String },
    NamespaceCollision { path_a: String, path_b: String, ns: String },
    InvalidNamespace { path: String, namespace: String, reason: String },
    InvalidNamespacePerWorktree { path: String, reason: String },
}

impl ConfigParseError {
    /// The sentence that describes the error.
    pub open spec fn shown(&self) -> Seq<char> {
        match self {
            ConfigParseError::TomlError { .. } => "failed to parse configuration"@,
            ConfigParseError::InvalidDaemonName { name, path, .. } => "invalid daemon name '"@
                + name@ + "' in "@ + path@,
            ConfigParseError::InvalidDependency { daemon, dependency, path, reason } =>
                "invalid dependency '"@ + dependency@ + "' in daemon '"@ + daemon@ + "' ("@ + path@
                + "): "@ + reason@,
            ConfigParseError::NamespaceCollision { path_a, path_b, ns } =>
                "namespace collision: '"@ + path_a@ + "' and '"@ + path_b@
                + "' both resolve to namespace '"@ + ns@ + "'"@,
            ConfigParseError::InvalidNamespace { path, namespace, reason } =>
                "invalid namespace '"@ + namespace@ + "' in "@ + path@ + ": "@ + reason@,
            ConfigParseError::InvalidNamespacePerWorktree { path, reason } =>
                "invalid namespace_per_worktree in "@ + path@ + ": "@ + reason@,
        }
    }

    /// The sentence that describes the error.
    pub fn message(&self) -> (r: String)
        ensures
            r@ == self.shown(),
    {
        match self {
            ConfigParseError::TomlError { .. } => "failed to parse configuration".to_string(),
            ConfigParseError::InvalidDaemonName { name, path, .. } =>
                "invalid daemon name '".to_string().concat(name.as_str()).concat("' in ").concat(
                    path.as_str(),
                ),
            ConfigParseError::InvalidDependency { daemon, dependency, path, reason } =>
                "invalid dependency '".to_string().concat(dependency.as_str()).concat(
                    "' in daemon '",
                ).concat(daemon.as_str()).concat("' (").concat(path.as_str()).concat("): ").concat(
                    reason.as_str(),
                ),
            ConfigParseError::NamespaceCollision { path_a, path_b, ns } =>
                "namespace collision: '".to_string().concat(path_a.as_str()).concat("' and '").concat(
                    path_b.as_str(),
                ).concat("' both resolve to namespace '").concat(ns.as_str()).concat("'"),
            ConfigParseError::InvalidNamespace { path, namespace, reason } =>
                "invalid namespace '".to_string().concat(namespace.as_str()).concat("' in ").concat(
                    path.as_str(),
                ).concat(": ").concat(reason.as_str()),
            ConfigParseError::InvalidNamespacePerWorktree { path, reason } =>
                "invalid namespace_per_worktree in ".to_string().concat(path.as_str()).concat(
                    ": ",
                ).concat(reason.as_str()),
        }
    }
}

/// What a TOML parser reports of a text that it does not accept.
#[derive(Debug)]
pub struct TomlFailure {
    /// The parser's message.
    pub message: String,
    /// The first byte of the error and the byte behind its last, where the parser names them.
    pub span: Option<(usize, usize)>,
}

/// The place that a range of bytes covers; a range without bytes has length zero.
pub open spec fn span_of(range: Option<(usize, usize)>) -> Span {
    match range {
        Some((start, end)) => Span {
            offset: start,
            length: if start < end {
                (end - start) as usize
            } else {
                0
            },
        },
        None => Span { offset: 0, length: 0 },
    }
}

/// `toml::de::Error`: why a text is no TOML, or not what was asked for.
#[verifier::external_type_specification]
#[verifier::external_body]
pub struct ExTomlError(toml::de::Error);

/// What an error of the TOML parser says.
pub uninterp spec fn toml_message(err: toml::de::Error) -> Seq<char>;

/// The first byte that an error of the TOML parser is about and the byte behind the last, where it
/// names them.
pub uninterp spec fn toml_span(err: toml::de::Error) -> Option<(usize, usize)>;

/// `toml::de::Error::message`: what an error says. The text is a part of the error.
#[verifier::external_body]
fn message_of(err: &toml::de::Error) -> (r: String)
    ensures
        r@ == toml_message(*err),
{
    err.message().to_string()
}

/// `toml::de::Error::span`: the bytes that an error is about. They are a part of the error.
#[verifier::external_body]
fn range_of(err: &toml::de::Error) -> (r: Option<(usize, usize)>)
    ensures
        r == toml_span(*err),
{
    err.span().map(|range| (range.start, range.end))
}

/// Whether an error says of a file what the parser said.
pub open spec fn is_toml_error(
    e: ConfigParseError,
    path: Seq<char>,
    contents: Seq<char>,
    said: Seq<char>,
    range: Option<(usize, usize)>,
) -> bool {
    e matches ConfigParseError::TomlError { source_name, contents: kept, span, message, help }
        && source_name@ == path && kept@ == contents && span == span_of(range) && message@ == said
        && text::opt_text(help) == Some("check TOML syntax at https://toml.io"@)
}

impl ConfigParseError {
    /// The error for a configuration file that does not parse.
    pub fn from_toml_error(path: &str, contents: String, err: toml::de::Error) -> (r:
        ConfigParseError)
        ensures
            is_toml_error(r, path@, contents@, toml_message(err), toml_span(err)),
    {
        ConfigParseError::from_failure(
            path,
            contents,
            TomlFailure { message: message_of(&err), span: range_of(&err) },
        )
    }

    /// The error for a configuration file of which the parser reports a failure.
    pub fn from_failure(path: &str, contents: String, err: TomlFailure) -> (r: ConfigParseError)
        ensures
            is_toml_error(r, path@, contents@, err.message@, err.span),
    {
        let span = match err.span {
            Some((start, end)) => Span {
                offset: start,
                length: if start < end {
                    end - start
                } else {
                    0
                },
            },
            None => Span { offset: 0, length: 0 },
        };
        ConfigParseError::TomlError {
            source_name: path.to_string(),
            contents,
            span,
            message: err.message,
            help: Some("check TOML syntax at https://toml.io".to_string()),
        }
    }
}

/// Errors related to file operations (config and state files).
#[derive(Debug)]
pub enum FileError {
    /// `source` is the text of the I/O error.
    ReadError { path: String, source: String },
    WriteError { path: String, details: Option<String> },
    /// `source` is the text of the serializer's error.
    SerializeError { path: String, source: String },
    NoPath,
}

impl FileError {
    /// The sentence that describes the error.
    pub open spec fn shown(&self) -> Seq<char> {
        match self {
            FileError::ReadError { path, .. } => "failed to read file: "@ + path@,
            FileError::WriteError { path, .. } => "failed to write file: "@ + path@,
            FileError::SerializeError { path, .. } => "failed to serialize data for file: "@ + path@,
            FileError::NoPath => "no file path specified"@,
        }
    }

    /// The sentence that describes the error.
    pub fn message(&self) -> (r: String)
        ensures
            r@ == self.shown(),
    {
        match self {
            FileError::ReadError { path, .. } => "failed to read file: ".to_string().concat(
                path.as_str(),
            ),
            FileError::WriteError { path, .. } => "failed to write file: ".to_string().concat(
                path.as_str(),
            ),
            FileError::SerializeError { path, .. } =>
                "failed to serialize data for file: ".to_string().concat(path.as_str()),
            FileError::NoPath => "no file path specified".to_string(),
        }
    }
}

/// Errors related to IPC communication with the supervisor.
#[derive(Debug)]
#[allow(inconsistent_fields)]
pub enum IpcError {
    /// `source` is the text of the I/O error, where there is one.
    ConnectionFailed { attempts: u32, source: Option<String>, help: String },
    Timeout { seconds: u64 },
    ConnectionClosed,
    ReadFailed { source: String },
    SendFailed { source: String },
    UnexpectedResponse { expected: String, actual: String },
    InvalidMessage { reason: String },
}

impl IpcError {
    /// The sentence that describes the error.
    pub open spec fn shown(&self) -> Seq<char> {
        match self {
            IpcError::ConnectionFailed { attempts, .. } =>
                "failed to connect to supervisor after "@ + text::decimal(*attempts as int)
                + " attempts"@,
            IpcError::Timeout { seconds } => "IPC request timed out after "@ + text::decimal(
                *seconds as int,
            ) + "s"@,
            IpcError::ConnectionClosed => "IPC connection closed unexpectedly"@,
            IpcError::ReadFailed { .. } => "failed to read IPC response"@,
            IpcError::SendFailed { .. } => "failed to send IPC request"@,
            IpcError::UnexpectedResponse { expected, actual } =>
                "unexpected response from supervisor: expected "@ + expected@ + ", got "@ + actual@,
            IpcError::InvalidMessage { reason } => "IPC message is invalid: "@ + reason@,
        }
    }

    /// The sentence that describes the error.
    pub fn message(&self) -> (r: String)
        ensures
            r@ == self.shown(),
    {
        match self {
            IpcError::ConnectionFailed { attempts, .. } =>
                "failed to connect to supervisor after ".to_string().concat(
                    nat_text(*attempts as u64).as_str(),
                ).concat(" attempts"),
            IpcError::Timeout { seconds } => "IPC request timed out after ".to_string().concat(
                nat_text(*seconds).as_str(),
            ).concat("s"),
            IpcError::ConnectionClosed => "IPC connection closed unexpectedly".to_string(),
            IpcError::ReadFailed { .. } => "failed to read IPC response".to_string(),
            IpcError::SendFailed { .. } => "failed to send IPC request".to_string(),
            IpcError::UnexpectedResponse { expected, actual } =>
                "unexpected response from supervisor: expected ".to_string().concat(
                    expected.as_str(),
                ).concat(", got ").concat(actual.as_str()),
            IpcError::InvalidMessage { reason } => "IPC message is invalid: ".to_string().concat(
                reason.as_str(),
            ),
        }
    }
}

/// Any error of the library.
#[derive(Debug)]
pub enum Failure {
    DaemonId(DaemonIdError),
    Daemon(DaemonError),
    Dependency(DependencyError),
    Port(PortError),
    ConfigParse(ConfigParseError),
    File(FileError),
    Ipc(IpcError),
}

impl Failure {
    /// The sentence that describes the error.
    pub open spec fn shown(&self) -> Seq<char> {
        match self {
            Failure::DaemonId(e) => e.shown(),
            Failure::Daemon(e) => e.shown(),
            Failure::Dependency(e) => e.shown(),
            Failure::Port(e) => e.shown(),
            Failure::ConfigParse(e) => e.shown(),
            Failure::File(e) => e.shown(),
            Failure::Ipc(e) => e.shown(),
        }
    }

    /// The sentence that describes the error.
    pub fn message(&self) -> (r: String)
        ensures
            r@ == self.shown(),
    {
        match self {
            Failure::DaemonId(e) => e.message(),
            Failure::Daemon(e) => e.message(),
            Failure::Dependency(e) => e.message(),
            Failure::Port(e) => e.message(),
            Failure::ConfigParse(e) => e.message(),
            Failure::File(e) => e.message(),
            Failure::Ipc(e) => e.message(),
        }
    }
}

/// A collection of errors that occurred during validation or processing.
///
/// It lets a caller report all errors at once instead of failing on the first one.
#[derive(Debug)]
pub struct MultipleErrors {
    pub errors: Vec<Failure>,
}

impl MultipleErrors {
    /// Collects errors.
    pub fn new(errors: Vec<Failure>) -> (r: MultipleErrors)
        ensures
            r.errors@ == errors@,
    {
        MultipleErrors { errors }
    }

    /// Whether there are no errors.
    pub fn is_empty(&self) -> (r: bool)
        ensures
            r == (self.errors@.len() == 0),
    {
        self.errors.is_empty()
    }

    /// The number of errors.
    pub fn len(&self) -> (r: usize)
        ensures
            r == self.errors@.len(),
    {
        self.errors.len()
    }

    /// The sentence that describes the collection.
    pub fn message(&self) -> (r: String)
        ensures
            r@ == "multiple errors occurred ("@ + text::decimal(self.errors@.len() as int)
                + " total)"@,
    {
        "multiple errors occurred (".to_string().concat(
            nat_text(self.errors.len() as u64).as_str(),
        ).concat(" total)")
    }
}

/// The scores that one fuzzy matcher gives to choices for a pattern, one after the other; a choice
/// that does not match has none.
pub uninterp spec fn fuzzy_scores(choices: Seq<Seq<char>>, pattern: Seq<char>) -> Seq<Option<i64>>;

/// The texts of choices.
pub open spec fn choice_texts(choices: Seq<&str>) -> Seq<Seq<char>> {
    choices.map_values(|choice: &str| choice@)
}

/// `SkimMatcherV2::fuzzy_match` of the crate `fuzzy_matcher`, with the default settings: one matcher
/// scores each choice in turn.
///
/// The matcher keeps its tables between two choices, so that a score depends on the choices before
/// it. All scores together depend on the choices, in their order, and the pattern alone. There is
/// one for each choice; an empty pattern scores zero.
#[verifier::external_body]
fn scores_of(choices: &[&str], pattern: &str) -> (r: Vec<Option<i64>>)
    ensures
        r@ == fuzzy_scores(choice_texts(choices@), pattern@),
        r@.len() == choices@.len(),
        pattern@.len() == 0 ==> forall|i: int| 0 <= i < r@.len() ==> #[trigger] r@[i] == Some(0i64),
{
    let matcher = fuzzy_matcher::skim::SkimMatcherV2::default();
    let score = |choice: &&str| fuzzy_matcher::FuzzyMatcher::fuzzy_match(&matcher, choice, pattern);
    choices.iter().map(score).collect()
}

/// Whether `best` is the last of the highest scores, where one is above zero.
pub open spec fn is_best(scores: Seq<Option<i64>>, best: Option<int>) -> bool {
    match best {
        Some(at) => {
            &&& 0 <= at < scores.len()
            &&& scores[at] is Some
            &&& scores[at]->0 > 0
            &&& forall|k: int|
                0 <= k < scores.len() && #[trigger] scores[k] is Some ==> scores[k]->0
                    <= scores[at]->0 && (k > at ==> scores[k]->0 < scores[at]->0)
        },
        None => forall|k: int|
            0 <= k < scores.len() && #[trigger] scores[k] is Some ==> scores[k]->0 <= 0,
    }
}

/// The position of the last of the highest scores, where it is above zero.
pub fn best_score(scores: &Vec<Option<i64>>) -> (r: Option<usize>)
    ensures
        is_best(
            scores@,
            match r {
                Some(at) => Some(at as int),
                None => None,
            },
        ),
{
    let mut best: Option<usize> = None;
    let mut high: i64 = 0;
    let mut i: usize = 0;
    while i < scores.len()
        invariant
            i <= scores@.len(),
            high >= 0,
            match best {
                Some(at) => at < i && scores@[at as int] == Some(high) && high > 0,
                None => high == 0,
            },
            forall|k: int|
                0 <= k < i && #[trigger] scores@[k] is Some ==> scores@[k]->0 <= high && (best
                    matches Some(at) && k > at ==> scores@[k]->0 < high),
        decreases scores@.len() - i,
    {
        if let Some(score) = scores[i] {
            if score > 0 && score >= high {
                best = Some(i);
                high = score;
            }
        }
        i = i + 1;
    }
    best
}

/// The suggestion that names a candidate.
pub open spec fn suggestion(candidate: Seq<char>) -> Seq<char> {
    "did you mean '"@ + candidate + "'?"@
}

/// Find the most similar daemon name for suggestions.
///
/// Of equally similar names the last one is suggested.
pub fn find_similar_daemon(name: &str, available: &[&str]) -> (r: Option<String>)
    ensures
        match r {
            Some(s) => exists|at: int| #[trigger]
                is_best(fuzzy_scores(choice_texts(available@), name@), Some(at)) && s@ == suggestion(
                    available@[at]@,
                ),
            None => is_best(fuzzy_scores(choice_texts(available@), name@), None),
        },
{
    let scores = scores_of(available, name);
    match best_score(&scores) {
        Some(at) => {
            assert(is_best(scores@, Some(at as int)));
            Some("did you mean '".to_string().concat(available[at]).concat("'?"))
        },
        None => None,
    }
}

/// What is said of errors with identifiers names what they are about.
pub proof fn errors_with_identifiers_say_what_is_wrong(e: DaemonIdError)
    ensures
        match e {
            DaemonIdError::Empty => e.shown() == "daemon ID cannot be empty"@,
            DaemonIdError::EmptyComponent { component } => e.shown() == "daemon ID "@ + component@ + " cannot be empty"@,
            DaemonIdError::PathSeparator { id, sep } => e.shown() == ("daemon ID '"@ + id@ + "' contains path separator '"@).push(sep) + "'"@,
            DaemonIdError::ParentDirRef { id } => e.shown() == "daemon ID '"@ + id@ + "' contains parent directory reference '..'"@,
            DaemonIdError::ReservedSequence { id } => e.shown() == "daemon ID '"@ + id@ + "' contains reserved sequence '--'"@,
            DaemonIdError::LeadingTrailingDash { id } => e.shown() == "daemon ID component '"@ + id@ + "' starts or ends with a dash '-'"@,
            DaemonIdError::ContainsSpace { id } => e.shown() == "daemon ID '"@ + id@ + "' contains spaces"@,
            DaemonIdError::CurrentDir => e.shown() == "daemon ID cannot be '.'"@,
            DaemonIdError::InvalidChars { id } => e.shown() == "daemon ID '"@ + id@ + "' contains non-printable or non-ASCII character"@,
            DaemonIdError::MissingNamespace { id } => e.shown() == "daemon ID '"@ + id@ + "' is missing namespace (expected format: namespace/name)"@,
            DaemonIdError::InvalidSafePath { path } => e.shown() == "invalid safe path format '"@ + path@ + "' (expected namespace--name)"@,
        },
{
}

/// What is said of errors with daemons names what they are about.
pub proof fn errors_with_daemons_say_what_is_wrong(e: DaemonError)
    ensures
        match e {
            DaemonError::StopFailed { id, error } => e.shown() == "failed to stop daemon '"@ + id@ + "': "@ + error@,
        },
{
}

/// What is said of errors with dependencies names what they are about.
pub proof fn errors_with_dependencies_say_what_is_wrong(e: DependencyError)
    ensures
        match e {
            DependencyError::DaemonNotFound { name, suggestion } => e.shown() == "daemon '"@ + name@ + "' not found in configuration"@,
            DependencyError::MissingDependency { daemon, dependency } => e.shown() == "daemon '"@ + daemon@ + "' depends on '"@ + dependency@ + "' which is not defined"@,
            DependencyError::CircularDependency { involved } => e.shown() == "circular dependency detected involving: "@ + text::joined(text::texts(involved@), ", "@),
        },
{
}

/// What is said of errors with ports names what they are about.
pub proof fn errors_with_ports_say_what_is_wrong(e: PortError)
    ensures
        match e {
            PortError::InUse { port, process, pid } => e.shown() == "port "@ + text::decimal(port as int) + " is already in use by process '"@ + process@ + "' (PID: "@ + text::decimal( pid as int, ) + ")"@,
            PortError::NoAvailablePort { start_port, attempts } => e.shown() == "could not find an available port after "@ + text::decimal(attempts as int) + " attempts starting from "@ + text::decimal(start_port as int),
        },
{
}

/// What is said of errors with configurations names what they are about.
pub proof fn errors_with_configurations_say_what_is_wrong(e: ConfigParseError)
    ensures
        match e {
            ConfigParseError::TomlError { .. } => e.shown() == "failed to parse configuration"@,
            ConfigParseError::InvalidDaemonName { name, path, .. } => e.shown() == "invalid daemon name '"@ + name@ + "' in "@ + path@,
            ConfigParseError::InvalidDependency { daemon, dependency, path, reason } => e.shown() == "invalid dependency '"@ + dependency@ + "' in daemon '"@ + daemon@ + "' ("@ + path@ + "): "@ + reason@,
            ConfigParseError::NamespaceCollision { path_a, path_b, ns } => e.shown() == "namespace collision: '"@ + path_a@ + "' and '"@ + path_b@ + "' both resolve to namespace '"@ + ns@ + "'"@,
            ConfigParseError::InvalidNamespace { path, namespace, reason } => e.shown() == "invalid namespace '"@ + namespace@ + "' in "@ + path@ + ": "@ + reason@,
            ConfigParseError::InvalidNamespacePerWorktree { path, reason } => e.shown() == "invalid namespace_per_worktree in "@ + path@ + ": "@ + reason@,
        },
{
}

/// What is said of errors with files names what they are about.
pub proof fn errors_with_files_say_what_is_wrong(e: FileError)
    ensures
        match e {
            FileError::ReadError { path, .. } => e.shown() == "failed to read file: "@ + path@,
            FileError::WriteError { path, .. } => e.shown() == "failed to write file: "@ + path@,
            FileError::SerializeError { path, .. } => e.shown() == "failed to serialize data for file: "@ + path@,
            FileError::NoPath => e.shown() == "no file path specified"@,
        },
{
}

/// What is said of errors with connections names what they are about.
pub proof fn errors_with_connections_say_what_is_wrong(e: IpcError)
    ensures
        match e {
            IpcError::ConnectionFailed { attempts, .. } => e.shown() == "failed to connect to supervisor after "@ + text::decimal(attempts as int) + " attempts"@,
            IpcError::Timeout { seconds } => e.shown() == "IPC request timed out after "@ + text::decimal( seconds as int, ) + "s"@,
            IpcError::ConnectionClosed => e.shown() == "IPC connection closed unexpectedly"@,
            IpcError::ReadFailed { .. } => e.shown() == "failed to read IPC response"@,
            IpcError::SendFailed { .. } => e.shown() == "failed to send IPC request"@,
            IpcError::UnexpectedResponse { expected, actual } => e.shown() == "unexpected response from supervisor: expected "@ + expected@ + ", got "@ + actual@,
            IpcError::InvalidMessage { reason } => e.shown() == "IPC message is invalid: "@ + reason@,
        },
{
}

/// The place of an error begins at its first byte and ends before the byte behind its last one; a
/// range that ends before it begins has no bytes.
pub proof fn places_cover_their_range(start: usize, end: usize)
    ensures
        span_of(Some((start, end))).offset == start,
        start <= end ==> span_of(Some((start, end))).offset + span_of(Some((start, end))).length
            == end,
        start > end ==> span_of(Some((start, end))).length == 0,
        span_of(None).offset == 0 && span_of(None).length == 0,
{
}

/// An error of the parser keeps the file, its contents, the place and what the parser said.
pub proof fn parser_errors_are_kept(
    e: ConfigParseError,
    path: Seq<char>,
    contents: Seq<char>,
    said: Seq<char>,
    range: Option<(usize, usize)>,
)
    requires
        is_toml_error(e, path, contents, said, range),
    ensures
        e is TomlError,
        e->source_name@ == path,
        e->contents@ == contents,
        e->message@ == said,
        e->span == span_of(range),
        e->help is Some && e->help->0@ == "check TOML syntax at https://toml.io"@,
{
}

/// There is one best score at most: no score is above it, and none behind it is as high. There is
/// none exactly where no score is above zero.
pub proof fn the_last_of_the_highest_is_best(
    scores: Seq<Option<i64>>,
    best: Option<int>,
    k: int,
)
    requires
        is_best(scores, best),
        0 <= k < scores.len(),
        scores[k] is Some,
        scores[k]->0 > 0,
    ensures
        best is Some,
        0 <= best->0 < scores.len(),
        scores[best->0] is Some,
        scores[k]->0 <= scores[best->0]->0,
        k > best->0 ==> scores[k]->0 < scores[best->0]->0,
        (forall|i: int|
            0 <= i < scores.len() && #[trigger] scores[i] is Some ==> scores[i]->0 <= scores[k]->0
                && (i > k ==> scores[i]->0 < scores[k]->0)) ==> best->0 == k,
{
}

/// Without a score above zero nothing is best.
pub proof fn nothing_similar_is_not_suggested(scores: Seq<Option<i64>>, best: Option<int>)
    requires
        is_best(scores, best),
        forall|i: int|
            0 <= i < scores.len() && #[trigger] scores[i] is Some ==> scores[i]->0 <= 0,
    ensures
        best is None,
{
}

/// A suggestion asks for the candidate.
pub proof fn suggestions_name_the_candidate(candidate: Seq<char>)
    ensures
        suggestion(candidate) == "did you mean '"@ + candidate + "'?"@,
{
}

} // verus!
