//! The settings: their values, and the values that a config file sets.
use crate::text;
use crate::text::{bool_text, int_text, parse_i64, split_on, text_eq};
use vstd::prelude::*;

verus! {

/// What a setting holds.
#[derive(Debug, Clone, Copy, PartialEq, Eq, Structural)]
pub enum SettingKind {
    Text,
    Integer,
    Bool,
}

/// The value that a config file sets.
pub enum SettingView {
    Text(Seq<char>),
    Integer(int),
    Bool(bool),
}

/// The value of a text for a kind of setting, where it has one.
pub open spec fn setting_value(kind: SettingKind, value: Seq<char>) -> Option<SettingView> {
    match kind {
        SettingKind::Text => Some(SettingView::Text(value)),
        SettingKind::Integer => match text::parsed_i64(value) {
            Some(i) => Some(SettingView::Integer(i)),
            None => None,
        },
        SettingKind::Bool => if value == "true"@ {
            Some(SettingView::Bool(true))
        } else if value == "false"@ {
            Some(SettingView::Bool(false))
        } else {
            None
        },
    }
}

/// Why a setting cannot be set.
#[derive(Debug)]
pub enum SettingError {
    /// The key does not name a group and a field.
    KeyFormat,
    UnknownGroup { group: String },
    UnknownField { group: String, field: String },
    InvalidBool { value: String },
    InvalidInteger { value: String },
}

/// Why a setting cannot be set.
pub enum SettingFault {
    KeyFormat,
    UnknownGroup(Seq<char>),
    UnknownField(Seq<char>, Seq<char>),
    InvalidBool(Seq<char>),
    InvalidInteger(Seq<char>),
}

impl SettingError {
    /// The fault that the error reports.
    pub open spec fn fault(&self) -> SettingFault {
        match self {
            SettingError::KeyFormat => SettingFault::KeyFormat,
            SettingError::UnknownGroup { group } => SettingFault::UnknownGroup(group@),
            SettingError::UnknownField { group, field } => SettingFault::UnknownField(
                group@,
                field@,
            ),
            SettingError::InvalidBool { value } => SettingFault::InvalidBool(value@),
            SettingError::InvalidInteger { value } => SettingFault::InvalidInteger(value@),
        }
    }

    /// The sentence that describes the error.
    pub open spec fn shown(&self) -> Seq<char> {
        match self {
            SettingError::KeyFormat =>
                "setting key must be in 'group.field' format (e.g., 'general.log_level')"@,
            SettingError::UnknownGroup { group } => "unknown setting group '"@ + group@ + "'"@,
            SettingError::UnknownField { group, field } => "unknown "@ + group@ + " setting '"@
                + field@ + "'"@,
            SettingError::InvalidBool { value } => "invalid boolean value '"@ + value@
                + "'. Expected 'true' or 'false'"@,
            SettingError::InvalidInteger { value } => "invalid integer value '"@ + value@
                + "'. Expected a number"@,
        }
    }

    /// The sentence that describes the error.
    pub fn message(&self) -> (r: String)
        ensures
            r@ == self.shown(),
    {
        match self {
            SettingError::KeyFormat =>
                "setting key must be in 'group.field' format (e.g., 'general.log_level')".to_string(),
            SettingError::UnknownGroup { group } => "unknown setting group '".to_string().concat(
                group.as_str(),
            ).concat("'"),
            SettingError::UnknownField { group, field } => "unknown ".to_string().concat(
                group.as_str(),
            ).concat(" setting '").concat(field.as_str()).concat("'"),
            SettingError::InvalidBool { value } => "invalid boolean value '".to_string().concat(
                value.as_str(),
            ).concat("'. Expected 'true' or 'false'"),
            SettingError::InvalidInteger { value } => "invalid integer value '".to_string().concat(
                value.as_str(),
            ).concat("'. Expected a number"),
        }
    }
}

/// Reads a truth value.
pub fn parse_bool_value(value: &str) -> (r: Result<bool, SettingError>)
    ensures
        match r {
            Ok(b) => setting_value(SettingKind::Bool, value@) == Some(SettingView::Bool(b)),
            Err(e) => setting_value(SettingKind::Bool, value@) is None && e.fault()
                == SettingFault::InvalidBool(value@),
        },
{
    if text_eq(value, "true") {
        Ok(true)
    } else if text_eq(value, "false") {
        Ok(false)
    } else {
        Err(SettingError::InvalidBool { value: value.to_string() })
    }
}

/// Reads a number.
pub fn parse_int_value(value: &str) -> (r: Result<i64, SettingError>)
    ensures
        match r {
            Ok(i) => setting_value(SettingKind::Integer, value@) == Some(
                SettingView::Integer(i as int),
            ),
            Err(e) => setting_value(SettingKind::Integer, value@) is None && e.fault()
                == SettingFault::InvalidInteger(value@),
        },
{
    match parse_i64(value) {
        Some(i) => Ok(i),
        None => Err(SettingError::InvalidInteger { value: value.to_string() }),
    }
}

/// The fault of a value for a field of a group.
pub open spec fn field_fault(
    group: Seq<char>,
    field: Seq<char>,
    kind: Option<SettingKind>,
    value: Seq<char>,
) -> Option<SettingFault> {
    match kind {
        None => Some(SettingFault::UnknownField(group, field)),
        Some(k) => if setting_value(k, value) is Some {
            None
        } else if k == SettingKind::Bool {
            Some(SettingFault::InvalidBool(value))
        } else {
            Some(SettingFault::InvalidInteger(value))
        },
    }
}

/// Whether a result reports a fault, where there is one.
pub open spec fn reports(r: Result<(), SettingError>, fault: Option<SettingFault>) -> bool {
    match r {
        Ok(_) => fault is None,
        Err(e) => fault == Some(e.fault()),
    }
}

/// General behaviour.
#[derive(Debug)]
pub struct SettingsGeneral {
    pub autostop_delay: String,
    pub interval: String,
    pub log_level: String,
    pub log_file_level: String,
    pub mise: bool,
    pub mise_bin: String,
    pub shell: String,
    pub startup_log_timestamps: bool,
}

/// General behaviour, as far as a config file sets it.
#[derive(Debug)]
pub struct SettingsGeneralPartial {
    pub autostop_delay: Option<String>,
    pub interval: Option<String>,
    pub log_level: Option<String>,
    pub log_file_level: Option<String>,
    pub mise: Option<bool>,
    pub mise_bin: Option<String>,
    pub shell: Option<String>,
    pub startup_log_timestamps: Option<bool>,
}

impl SettingsGeneral {
    /// These values, each of them set.
    pub open spec fn all_set(&self) -> SettingsGeneralPartial {
        SettingsGeneralPartial {
            autostop_delay: Some(self.autostop_delay),
            interval: Some(self.interval),
            log_level: Some(self.log_level),
            log_file_level: Some(self.log_file_level),
            mise: Some(self.mise),
            mise_bin: Some(self.mise_bin),
            shell: Some(self.shell),
            startup_log_timestamps: Some(self.startup_log_timestamps),
        }
    }

    /// The text of the value of a field; nothing where there is no such field.
    pub open spec fn shown(&self, field: Seq<char>) -> Seq<char> {
        if field == "autostop_delay"@ {
            self.autostop_delay@
        } else if field == "interval"@ {
            self.interval@
        } else if field == "log_level"@ {
            self.log_level@
        } else if field == "log_file_level"@ {
            self.log_file_level@
        } else if field == "mise"@ {
            text::bool_word(self.mise)
        } else if field == "mise_bin"@ {
            self.mise_bin@
        } else if field == "shell"@ {
            self.shell@
        } else if field == "startup_log_timestamps"@ {
            text::bool_word(self.startup_log_timestamps)
        } else {
            Seq::empty()
        }
    }

    /// The text of the value of a field; nothing where there is no such field.
    pub fn value(&self, field: &str) -> (r: String)
        ensures
            r@ == self.shown(field@),
    {
        if text_eq(field, "autostop_delay") {
            self.autostop_delay.clone()
        } else if text_eq(field, "interval") {
            self.interval.clone()
        } else if text_eq(field, "log_level") {
            self.log_level.clone()
        } else if text_eq(field, "log_file_level") {
            self.log_file_level.clone()
        } else if text_eq(field, "mise") {
            bool_text(self.mise)
        } else if text_eq(field, "mise_bin") {
            self.mise_bin.clone()
        } else if text_eq(field, "shell") {
            self.shell.clone()
        } else if text_eq(field, "startup_log_timestamps") {
            bool_text(self.startup_log_timestamps)
        } else {
            String::new()
        }
    }
}

impl SettingsGeneralPartial {
    /// What a field holds; nothing where there is no such field.
    pub open spec fn kind(field: Seq<char>) -> Option<SettingKind> {
        if field == "autostop_delay"@ {
            Some(SettingKind::Text)
        } else if field == "interval"@ {
            Some(SettingKind::Text)
        } else if field == "log_level"@ {
            Some(SettingKind::Text)
        } else if field == "log_file_level"@ {
            Some(SettingKind::Text)
        } else if field == "mise"@ {
            Some(SettingKind::Bool)
        } else if field == "mise_bin"@ {
            Some(SettingKind::Text)
        } else if field == "shell"@ {
            Some(SettingKind::Text)
        } else if field == "startup_log_timestamps"@ {
            Some(SettingKind::Bool)
        } else {
            None
        }
    }

    /// The value that is set for a field.
    pub open spec fn get(&self, field: Seq<char>) -> Option<SettingView> {
        if field == "autostop_delay"@ {
            text_view(self.autostop_delay)
        } else if field == "interval"@ {
            text_view(self.interval)
        } else if field == "log_level"@ {
            text_view(self.log_level)
        } else if field == "log_file_level"@ {
            text_view(self.log_file_level)
        } else if field == "mise"@ {
            bool_view(self.mise)
        } else if field == "mise_bin"@ {
            text_view(self.mise_bin)
        } else if field == "shell"@ {
            text_view(self.shell)
        } else if field == "startup_log_timestamps"@ {
            bool_view(self.startup_log_timestamps)
        } else {
            None
        }
    }

    /// Sets a field. Where that fails nothing changes, and no other field ever does.
    pub fn apply(&mut self, field: &str, value: &str) -> (r: Result<(), SettingError>)
        ensures
            reports(
                r,
                field_fault("general"@, field@, SettingsGeneralPartial::kind(field@), value@),
            ),
            forall|f: Seq<char>| #[trigger]
                final(self).get(f) == if r is Ok && f == field@ {
                    setting_value(SettingsGeneralPartial::kind(field@)->0, value@)
                } else {
                    old(self).get(f)
                },
    {
        if text_eq(field, "autostop_delay") {
            self.autostop_delay = Some(value.to_string());
        } else if text_eq(field, "interval") {
            self.interval = Some(value.to_string());
        } else if text_eq(field, "log_level") {
            self.log_level = Some(value.to_string());
        } else if text_eq(field, "log_file_level") {
            self.log_file_level = Some(value.to_string());
        } else if text_eq(field, "mise") {
            match parse_bool_value(value) {
                Ok(v) => {
                    self.mise = Some(v);
                },
                Err(e) => {
                    return Err(e);
                },
            }
        } else if text_eq(field, "mise_bin") {
            self.mise_bin = Some(value.to_string());
        } else if text_eq(field, "shell") {
            self.shell = Some(value.to_string());
        } else if text_eq(field, "startup_log_timestamps") {
            match parse_bool_value(value) {
                Ok(v) => {
                    self.startup_log_timestamps = Some(v);
                },
                Err(e) => {
                    return Err(e);
                },
            }
        } else {
            return Err(
                SettingError::UnknownField {
                    group: "general".to_string(),
                    field: field.to_string(),
                },
            );
        }
        Ok(())
    }
}

/// Talking to the supervisor.
#[derive(Debug)]
pub struct SettingsIpc {
    pub connect_attempts: i64,
    pub connect_min_delay: String,
    pub connect_max_delay: String,
    pub request_timeout: String,
    pub rate_limit: i64,
    pub rate_limit_window: String,
}

/// Talking to the supervisor, as far as a config file sets it.
#[derive(Debug)]
pub struct SettingsIpcPartial {
    pub connect_attempts: Option<i64>,
    pub connect_min_delay: Option<String>,
    pub connect_max_delay: Option<String>,
    pub request_timeout: Option<String>,
    pub rate_limit: Option<i64>,
    pub rate_limit_window: Option<String>,
}

impl SettingsIpc {
    /// These values, each of them set.
    pub open spec fn all_set(&self) -> SettingsIpcPartial {
        SettingsIpcPartial {
            connect_attempts: Some(self.connect_attempts),
            connect_min_delay: Some(self.connect_min_delay),
            connect_max_delay: Some(self.connect_max_delay),
            request_timeout: Some(self.request_timeout),
            rate_limit: Some(self.rate_limit),
            rate_limit_window: Some(self.rate_limit_window),
        }
    }

    /// The text of the value of a field; nothing where there is no such field.
    pub open spec fn shown(&self, field: Seq<char>) -> Seq<char> {
        if field == "connect_attempts"@ {
            text::decimal(self.connect_attempts as int)
        } else if field == "connect_min_delay"@ {
            self.connect_min_delay@
        } else if field == "connect_max_delay"@ {
            self.connect_max_delay@
        } else if field == "request_timeout"@ {
            self.request_timeout@
        } else if field == "rate_limit"@ {
            text::decimal(self.rate_limit as int)
        } else if field == "rate_limit_window"@ {
            self.rate_limit_window@
        } else {
            Seq::empty()
        }
    }

    /// The text of the value of a field; nothing where there is no such field.
    pub fn value(&self, field: &str) -> (r: String)
        ensures
            r@ == self.shown(field@),
    {
        if text_eq(field, "connect_attempts") {
            int_text(self.connect_attempts)
        } else if text_eq(field, "connect_min_delay") {
            self.connect_min_delay.clone()
        } else if text_eq(field, "connect_max_delay") {
            self.connect_max_delay.clone()
        } else if text_eq(field, "request_timeout") {
            self.request_timeout.clone()
        } else if text_eq(field, "rate_limit") {
            int_text(self.rate_limit)
        } else if text_eq(field, "rate_limit_window") {
            self.rate_limit_window.clone()
        } else {
            String::new()
        }
    }
}

impl SettingsIpcPartial {
    /// What a field holds; nothing where there is no such field.
    pub open spec fn kind(field: Seq<char>) -> Option<SettingKind> {
        if field == "connect_attempts"@ {
            Some(SettingKind::Integer)
        } else if field == "connect_min_delay"@ {
            Some(SettingKind::Text)
        } else if field == "connect_max_delay"@ {
            Some(SettingKind::Text)
        } else if field == "request_timeout"@ {
            Some(SettingKind::Text)
        } else if field == "rate_limit"@ {
            Some(SettingKind::Integer)
        } else if field == "rate_limit_window"@ {
            Some(SettingKind::Text)
        } else {
            None
        }
    }

    /// The value that is set for a field.
    pub open spec fn get(&self, field: Seq<char>) -> Option<SettingView> {
        if field == "connect_attempts"@ {
            integer_view(self.connect_attempts)
        } else if field == "connect_min_delay"@ {
            text_view(self.connect_min_delay)
        } else if field == "connect_max_delay"@ {
            text_view(self.connect_max_delay)
        } else if field == "request_timeout"@ {
            text_view(self.request_timeout)
        } else if field == "rate_limit"@ {
            integer_view(self.rate_limit)
        } else if field == "rate_limit_window"@ {
            text_view(self.rate_limit_window)
        } else {
            None
        }
    }

    /// Sets a field. Where that fails nothing changes, and no other field ever does.
    pub fn apply(&mut self, field: &str, value: &str) -> (r: Result<(), SettingError>)
        ensures
            reports(
                r,
                field_fault("ipc"@, field@, SettingsIpcPartial::kind(field@), value@),
            ),
            forall|f: Seq<char>| #[trigger]
                final(self).get(f) == if r is Ok && f == field@ {
                    setting_value(SettingsIpcPartial::kind(field@)->0, value@)
                } else {
                    old(self).get(f)
                },
    {
        if text_eq(field, "connect_attempts") {
            match parse_int_value(value) {
                Ok(v) => {
                    self.connect_attempts = Some(v);
                },
                Err(e) => {
                    return Err(e);
                },
            }
        } else if text_eq(field, "connect_min_delay") {
            self.connect_min_delay = Some(value.to_string());
        } else if text_eq(field, "connect_max_delay") {
            self.connect_max_delay = Some(value.to_string());
        } else if text_eq(field, "request_timeout") {
            self.request_timeout = Some(value.to_string());
        } else if text_eq(field, "rate_limit") {
            match parse_int_value(value) {
                Ok(v) => {
                    self.rate_limit = Some(v);
                },
                Err(e) => {
                    return Err(e);
                },
            }
        } else if text_eq(field, "rate_limit_window") {
            self.rate_limit_window = Some(value.to_string());
        } else {
            return Err(
                SettingError::UnknownField {
                    group: "ipc".to_string(),
                    field: field.to_string(),
                },
            );
        }
        Ok(())
    }
}

/// Log entries.
#[derive(Debug)]
pub struct SettingsLogs {
    pub time_retention: String,
    pub line_retention: i64,
}

/// Log entries, as far as a config file sets it.
#[derive(Debug)]
pub struct SettingsLogsPartial {
    pub time_retention: Option<String>,
    pub line_retention: Option<i64>,
}

impl SettingsLogs {
    /// These values, each of them set.
    pub open spec fn all_set(&self) -> SettingsLogsPartial {
        SettingsLogsPartial {
            time_retention: Some(self.time_retention),
            line_retention: Some(self.line_retention),
        }
    }

    /// The text of the value of a field; nothing where there is no such field.
    pub open spec fn shown(&self, field: Seq<char>) -> Seq<char> {
        if field == "time_retention"@ {
            self.time_retention@
        } else if field == "line_retention"@ {
            text::decimal(self.line_retention as int)
        } else {
            Seq::empty()
        }
    }

    /// The text of the value of a field; nothing where there is no such field.
    pub fn value(&self, field: &str) -> (r: String)
        ensures
            r@ == self.shown(field@),
    {
        if text_eq(field, "time_retention") {
            self.time_retention.clone()
        } else if text_eq(field, "line_retention") {
            int_text(self.line_retention)
        } else {
            String::new()
        }
    }
}

impl SettingsLogsPartial {
    /// What a field holds; nothing where there is no such field.
    pub open spec fn kind(field: Seq<char>) -> Option<SettingKind> {
        if field == "time_retention"@ {
            Some(SettingKind::Text)
        } else if field == "line_retention"@ {
            Some(SettingKind::Integer)
        } else {
            None
        }
    }

    /// The value that is set for a field.
    pub open spec fn get(&self, field: Seq<char>) -> Option<SettingView> {
        if field == "time_retention"@ {
            text_view(self.time_retention)
        } else if field == "line_retention"@ {
            integer_view(self.line_retention)
        } else {
            None
        }
    }

    /// Sets a field. Where that fails nothing changes, and no other field ever does.
    pub fn apply(&mut self, field: &str, value: &str) -> (r: Result<(), SettingError>)
        ensures
            reports(
                r,
                field_fault("logs"@, field@, SettingsLogsPartial::kind(field@), value@),
            ),
            forall|f: Seq<char>| #[trigger]
                final(self).get(f) == if r is Ok && f == field@ {
                    setting_value(SettingsLogsPartial::kind(field@)->0, value@)
                } else {
                    old(self).get(f)
                },
    {
        if text_eq(field, "time_retention") {
            self.time_retention = Some(value.to_string());
        } else if text_eq(field, "line_retention") {
            match parse_int_value(value) {
                Ok(v) => {
                    self.line_retention = Some(v);
                },
                Err(e) => {
                    return Err(e);
                },
            }
        } else {
            return Err(
                SettingError::UnknownField {
                    group: "logs".to_string(),
                    field: field.to_string(),
                },
            );
        }
        Ok(())
    }
}

/// The web interface.
#[derive(Debug)]
pub struct SettingsWeb {
    pub auto_start: bool,
    pub bind_address: String,
    pub bind_port: i64,
    pub port_attempts: i64,
    pub log_lines: i64,
    pub base_path: String,
    pub sse_poll_interval: String,
}

/// The web interface, as far as a config file sets it.
#[derive(Debug)]
pub struct SettingsWebPartial {
    pub auto_start: Option<bool>,
    pub bind_address: Option<String>,
    pub bind_port: Option<i64>,
    pub port_attempts: Option<i64>,
    pub log_lines: Option<i64>,
    pub base_path: Option<String>,
    pub sse_poll_interval: Option<String>,
}

impl SettingsWeb {
    /// These values, each of them set.
    pub open spec fn all_set(&self) -> SettingsWebPartial {
        SettingsWebPartial {
            auto_start: Some(self.auto_start),
            bind_address: Some(self.bind_address),
            bind_port: Some(self.bind_port),
            port_attempts: Some(self.port_attempts),
            log_lines: Some(self.log_lines),
            base_path: Some(self.base_path),
            sse_poll_interval: Some(self.sse_poll_interval),
        }
    }

    /// The text of the value of a field; nothing where there is no such field.
    pub open spec fn shown(&self, field: Seq<char>) -> Seq<char> {
        if field == "auto_start"@ {
            text::bool_word(self.auto_start)
        } else if field == "bind_address"@ {
            self.bind_address@
        } else if field == "bind_port"@ {
            text::decimal(self.bind_port as int)
        } else if field == "port_attempts"@ {
            text::decimal(self.port_attempts as int)
        } else if field == "log_lines"@ {
            text::decimal(self.log_lines as int)
        } else if field == "base_path"@ {
            self.base_path@
        } else if field == "sse_poll_interval"@ {
            self.sse_poll_interval@
        } else {
            Seq::empty()
        }
    }

    /// The text of the value of a field; nothing where there is no such field.
    pub fn value(&self, field: &str) -> (r: String)
        ensures
            r@ == self.shown(field@),
    {
        if text_eq(field, "auto_start") {
            bool_text(self.auto_start)
        } else if text_eq(field, "bind_address") {
            self.bind_address.clone()
        } else if text_eq(field, "bind_port") {
            int_text(self.bind_port)
        } else if text_eq(field, "port_attempts") {
            int_text(self.port_attempts)
        } else if text_eq(field, "log_lines") {
            int_text(self.log_lines)
        } else if text_eq(field, "base_path") {
            self.base_path.clone()
        } else if text_eq(field, "sse_poll_interval") {
            self.sse_poll_interval.clone()
        } else {
            String::new()
        }
    }
}

impl SettingsWebPartial {
    /// What a field holds; nothing where there is no such field.
    pub open spec fn kind(field: Seq<char>) -> Option<SettingKind> {
        if field == "auto_start"@ {
            Some(SettingKind::Bool)
        } else if field == "bind_address"@ {
            Some(SettingKind::Text)
        } else if field == "bind_port"@ {
            Some(SettingKind::Integer)
        } else if field == "port_attempts"@ {
            Some(SettingKind::Integer)
        } else if field == "log_lines"@ {
            Some(SettingKind::Integer)
        } else if field == "base_path"@ {
            Some(SettingKind::Text)
        } else if field == "sse_poll_interval"@ {
            Some(SettingKind::Text)
        } else {
            None
        }
    }

    /// The value that is set for a field.
    pub open spec fn get(&self, field: Seq<char>) -> Option<SettingView> {
        if field == "auto_start"@ {
            bool_view(self.auto_start)
        } else if field == "bind_address"@ {
            text_view(self.bind_address)
        } else if field == "bind_port"@ {
            integer_view(self.bind_port)
        } else if field == "port_attempts"@ {
            integer_view(self.port_attempts)
        } else if field == "log_lines"@ {
            integer_view(self.log_lines)
        } else if field == "base_path"@ {
            text_view(self.base_path)
        } else if field == "sse_poll_interval"@ {
            text_view(self.sse_poll_interval)
        } else {
            None
        }
    }

    /// Sets a field. Where that fails nothing changes, and no other field ever does.
    pub fn apply(&mut self, field: &str, value: &str) -> (r: Result<(), SettingError>)
        ensures
            reports(
                r,
                field_fault("web"@, field@, SettingsWebPartial::kind(field@), value@),
            ),
            forall|f: Seq<char>| #[trigger]
                final(self).get(f) == if r is Ok && f == field@ {
                    setting_value(SettingsWebPartial::kind(field@)->0, value@)
                } else {
                    old(self).get(f)
                },
    {
        if text_eq(field, "auto_start") {
            match parse_bool_value(value) {
                Ok(v) => {
                    self.auto_start = Some(v);
                },
                Err(e) => {
                    return Err(e);
                },
            }
        } else if text_eq(field, "bind_address") {
            self.bind_address = Some(value.to_string());
        } else if text_eq(field, "bind_port") {
            match parse_int_value(value) {
                Ok(v) => {
                    self.bind_port = Some(v);
                },
                Err(e) => {
                    return Err(e);
                },
            }
        } else if text_eq(field, "port_attempts") {
            match parse_int_value(value) {
                Ok(v) => {
                    self.port_attempts = Some(v);
                },
                Err(e) => {
                    return Err(e);
                },
            }
        } else if text_eq(field, "log_lines") {
            match parse_int_value(value) {
                Ok(v) => {
                    self.log_lines = Some(v);
                },
                Err(e) => {
                    return Err(e);
                },
            }
        } else if text_eq(field, "base_path") {
            self.base_path = Some(value.to_string());
        } else if text_eq(field, "sse_poll_interval") {
            self.sse_poll_interval = Some(value.to_string());
        } else {
            return Err(
                SettingError::UnknownField {
                    group: "web".to_string(),
                    field: field.to_string(),
                },
            );
        }
        Ok(())
    }
}

/// The HTTP interface.
#[derive(Debug)]
pub struct SettingsApi {
    pub auto_start: bool,
    pub bind_address: String,
    pub bind_port: i64,
    pub port_attempts: i64,
    pub token: String,
}

/// The HTTP interface, as far as a config file sets it.
#[derive(Debug)]
pub struct SettingsApiPartial {
    pub auto_start: Option<bool>,
    pub bind_address: Option<String>,
    pub bind_port: Option<i64>,
    pub port_attempts: Option<i64>,
    pub token: Option<String>,
}

impl SettingsApi {
    /// These values, each of them set.
    pub open spec fn all_set(&self) -> SettingsApiPartial {
        SettingsApiPartial {
            auto_start: Some(self.auto_start),
            bind_address: Some(self.bind_address),
            bind_port: Some(self.bind_port),
            port_attempts: Some(self.port_attempts),
            token: Some(self.token),
        }
    }

    /// The text of the value of a field; nothing where there is no such field.
    pub open spec fn shown(&self, field: Seq<char>) -> Seq<char> {
        if field == "auto_start"@ {
            text::bool_word(self.auto_start)
        } else if field == "bind_address"@ {
            self.bind_address@
        } else if field == "bind_port"@ {
            text::decimal(self.bind_port as int)
        } else if field == "port_attempts"@ {
            text::decimal(self.port_attempts as int)
        } else if field == "token"@ {
            self.token@
        } else {
            Seq::empty()
        }
    }

    /// The text of the value of a field; nothing where there is no such field.
    pub fn value(&self, field: &str) -> (r: String)
        ensures
            r@ == self.shown(field@),
    {
        if text_eq(field, "auto_start") {
            bool_text(self.auto_start)
        } else if text_eq(field, "bind_address") {
            self.bind_address.clone()
        } else if text_eq(field, "bind_port") {
            int_text(self.bind_port)
        } else if text_eq(field, "port_attempts") {
            int_text(self.port_attempts)
        } else if text_eq(field, "token") {
            self.token.clone()
        } else {
            String::new()
        }
    }
}

impl SettingsApiPartial {
    /// What a field holds; nothing where there is no such field.
    pub open spec fn kind(field: Seq<char>) -> Option<SettingKind> {
        if field == "auto_start"@ {
            Some(SettingKind::Bool)
        } else if field == "bind_address"@ {
            Some(SettingKind::Text)
        } else if field == "bind_port"@ {
            Some(SettingKind::Integer)
        } else if field == "port_attempts"@ {
            Some(SettingKind::Integer)
        } else if field == "token"@ {
            Some(SettingKind::Text)
        } else {
            None
        }
    }

    /// The value that is set for a field.
    pub open spec fn get(&self, field: Seq<char>) -> Option<SettingView> {
        if field == "auto_start"@ {
            bool_view(self.auto_start)
        } else if field == "bind_address"@ {
            text_view(self.bind_address)
        } else if field == "bind_port"@ {
            integer_view(self.bind_port)
        } else if field == "port_attempts"@ {
            integer_view(self.port_attempts)
        } else if field == "token"@ {
            text_view(self.token)
        } else {
            None
        }
    }

    /// Sets a field. Where that fails nothing changes, and no other field ever does.
    pub fn apply(&mut self, field: &str, value: &str) -> (r: Result<(), SettingError>)
        ensures
            reports(
                r,
                field_fault("api"@, field@, SettingsApiPartial::kind(field@), value@),
            ),
            forall|f: Seq<char>| #[trigger]
                final(self).get(f) == if r is Ok && f == field@ {
                    setting_value(SettingsApiPartial::kind(field@)->0, value@)
                } else {
                    old(self).get(f)
                },
    {
        if text_eq(field, "auto_start") {
            match parse_bool_value(value) {
                Ok(v) => {
                    self.auto_start = Some(v);
                },
                Err(e) => {
                    return Err(e);
                },
            }
        } else if text_eq(field, "bind_address") {
            self.bind_address = Some(value.to_string());
        } else if text_eq(field, "bind_port") {
            match parse_int_value(value) {
                Ok(v) => {
                    self.bind_port = Some(v);
                },
                Err(e) => {
                    return Err(e);
                },
            }
        } else if text_eq(field, "port_attempts") {
            match parse_int_value(value) {
                Ok(v) => {
                    self.port_attempts = Some(v);
                },
                Err(e) => {
                    return Err(e);
                },
            }
        } else if text_eq(field, "token") {
            self.token = Some(value.to_string());
        } else {
            return Err(
                SettingError::UnknownField {
                    group: "api".to_string(),
                    field: field.to_string(),
                },
            );
        }
        Ok(())
    }
}

/// The terminal interface.
#[derive(Debug)]
pub struct SettingsTui {
    pub refresh_rate: String,
    pub tick_rate: String,
    pub stat_history: i64,
    pub message_duration: String,
}

/// The terminal interface, as far as a config file sets it.
#[derive(Debug)]
pub struct SettingsTuiPartial {
    pub refresh_rate: Option<String>,
    pub tick_rate: Option<String>,
    pub stat_history: Option<i64>,
    pub message_duration: Option<String>,
}

impl SettingsTui {
    /// These values, each of them set.
    pub open spec fn all_set(&self) -> SettingsTuiPartial {
        SettingsTuiPartial {
            refresh_rate: Some(self.refresh_rate),
            tick_rate: Some(self.tick_rate),
            stat_history: Some(self.stat_history),
            message_duration: Some(self.message_duration),
        }
    }

    /// The text of the value of a field; nothing where there is no such field.
    pub open spec fn shown(&self, field: Seq<char>) -> Seq<char> {
        if field == "refresh_rate"@ {
            self.refresh_rate@
        } else if field == "tick_rate"@ {
            self.tick_rate@
        } else if field == "stat_history"@ {
            text::decimal(self.stat_history as int)
        } else if field == "message_duration"@ {
            self.message_duration@
        } else {
            Seq::empty()
        }
    }

    /// The text of the value of a field; nothing where there is no such field.
    pub fn value(&self, field: &str) -> (r: String)
        ensures
            r@ == self.shown(field@),
    {
        if text_eq(field, "refresh_rate") {
            self.refresh_rate.clone()
        } else if text_eq(field, "tick_rate") {
            self.tick_rate.clone()
        } else if text_eq(field, "stat_history") {
            int_text(self.stat_history)
        } else if text_eq(field, "message_duration") {
            self.message_duration.clone()
        } else {
            String::new()
        }
    }
}

impl SettingsTuiPartial {
    /// What a field holds; nothing where there is no such field.
    pub open spec fn kind(field: Seq<char>) -> Option<SettingKind> {
        if field == "refresh_rate"@ {
            Some(SettingKind::Text)
        } else if field == "tick_rate"@ {
            Some(SettingKind::Text)
        } else if field == "stat_history"@ {
            Some(SettingKind::Integer)
        } else if field == "message_duration"@ {
            Some(SettingKind::Text)
        } else {
            None
        }
    }

    /// The value that is set for a field.
    pub open spec fn get(&self, field: Seq<char>) -> Option<SettingView> {
        if field == "refresh_rate"@ {
            text_view(self.refresh_rate)
        } else if field == "tick_rate"@ {
            text_view(self.tick_rate)
        } else if field == "stat_history"@ {
            integer_view(self.stat_history)
        } else if field == "message_duration"@ {
            text_view(self.message_duration)
        } else {
            None
        }
    }

    /// Sets a field. Where that fails nothing changes, and no other field ever does.
    pub fn apply(&mut self, field: &str, value: &str) -> (r: Result<(), SettingError>)
        ensures
            reports(
                r,
                field_fault("tui"@, field@, SettingsTuiPartial::kind(field@), value@),
            ),
            forall|f: Seq<char>| #[trigger]
                final(self).get(f) == if r is Ok && f == field@ {
                    setting_value(SettingsTuiPartial::kind(field@)->0, value@)
                } else {
                    old(self).get(f)
                },
    {
        if text_eq(field, "refresh_rate") {
            self.refresh_rate = Some(value.to_string());
        } else if text_eq(field, "tick_rate") {
            self.tick_rate = Some(value.to_string());
        } else if text_eq(field, "stat_history") {
            match parse_int_value(value) {
                Ok(v) => {
                    self.stat_history = Some(v);
                },
                Err(e) => {
                    return Err(e);
                },
            }
        } else if text_eq(field, "message_duration") {
            self.message_duration = Some(value.to_string());
        } else {
            return Err(
                SettingError::UnknownField {
                    group: "tui".to_string(),
                    field: field.to_string(),
                },
            );
        }
        Ok(())
    }
}

/// The supervisor.
#[derive(Debug)]
pub struct SettingsSupervisor {
    pub ready_check_interval: String,
    pub file_watch_debounce: String,
    pub log_flush_interval: String,
    pub stop_timeout: String,
    pub restart_delay: String,
    pub cron_check_interval: String,
    pub watch_interval: String,
    pub watch_poll_interval: String,
    pub http_client_timeout: String,
    pub port_bump_attempts: i64,
    pub container: bool,
    pub cleanup_orphans: bool,
    pub user: String,
    pub cpu_violation_threshold: i64,
}

/// The supervisor, as far as a config file sets it.
#[derive(Debug)]
pub struct SettingsSupervisorPartial {
    pub ready_check_interval: Option<String>,
    pub file_watch_debounce: Option<String>,
    pub log_flush_interval: Option<String>,
    pub stop_timeout: Option<String>,
    pub restart_delay: Option<String>,
    pub cron_check_interval: Option<String>,
    pub watch_interval: Option<String>,
    pub watch_poll_interval: Option<String>,
    pub http_client_timeout: Option<String>,
    pub port_bump_attempts: Option<i64>,
    pub container: Option<bool>,
    pub cleanup_orphans: Option<bool>,
    pub user: Option<String>,
    pub cpu_violation_threshold: Option<i64>,
}

impl SettingsSupervisor {
    /// These values, each of them set.
    pub open spec fn all_set(&self) -> SettingsSupervisorPartial {
        SettingsSupervisorPartial {
            ready_check_interval: Some(self.ready_check_interval),
            file_watch_debounce: Some(self.file_watch_debounce),
            log_flush_interval: Some(self.log_flush_interval),
            stop_timeout: Some(self.stop_timeout),
            restart_delay: Some(self.restart_delay),
            cron_check_interval: Some(self.cron_check_interval),
            watch_interval: Some(self.watch_interval),
            watch_poll_interval: Some(self.watch_poll_interval),
            http_client_timeout: Some(self.http_client_timeout),
            port_bump_attempts: Some(self.port_bump_attempts),
            container: Some(self.container),
            cleanup_orphans: Some(self.cleanup_orphans),
            user: Some(self.user),
            cpu_violation_threshold: Some(self.cpu_violation_threshold),
        }
    }

    /// The text of the value of a field; nothing where there is no such field.
    pub open spec fn shown(&self, field: Seq<char>) -> Seq<char> {
        if field == "ready_check_interval"@ {
            self.ready_check_interval@
        } else if field == "file_watch_debounce"@ {
            self.file_watch_debounce@
        } else if field == "log_flush_interval"@ {
            self.log_flush_interval@
        } else if field == "stop_timeout"@ {
            self.stop_timeout@
        } else if field == "restart_delay"@ {
            self.restart_delay@
        } else if field == "cron_check_interval"@ {
            self.cron_check_interval@
        } else if field == "watch_interval"@ {
            self.watch_interval@
        } else if field == "watch_poll_interval"@ {
            self.watch_poll_interval@
        } else if field == "http_client_timeout"@ {
            self.http_client_timeout@
        } else if field == "port_bump_attempts"@ {
            text::decimal(self.port_bump_attempts as int)
        } else if field == "container"@ {
            text::bool_word(self.container)
        } else if field == "cleanup_orphans"@ {
            text::bool_word(self.cleanup_orphans)
        } else if field == "user"@ {
            self.user@
        } else if field == "cpu_violation_threshold"@ {
            text::decimal(self.cpu_violation_threshold as int)
        } else {
            Seq::empty()
        }
    }

    /// The text of the value of a field; nothing where there is no such field.
    pub fn value(&self, field: &str) -> (r: String)
        ensures
            r@ == self.shown(field@),
    {
        if text_eq(field, "ready_check_interval") {
            self.ready_check_interval.clone()
        } else if text_eq(field, "file_watch_debounce") {
            self.file_watch_debounce.clone()
        } else if text_eq(field, "log_flush_interval") {
            self.log_flush_interval.clone()
        } else if text_eq(field, "stop_timeout") {
            self.stop_timeout.clone()
        } else if text_eq(field, "restart_delay") {
            self.restart_delay.clone()
        } else if text_eq(field, "cron_check_interval") {
            self.cron_check_interval.clone()
        } else if text_eq(field, "watch_interval") {
            self.watch_interval.clone()
        } else if text_eq(field, "watch_poll_interval") {
            self.watch_poll_interval.clone()
        } else if text_eq(field, "http_client_timeout") {
            self.http_client_timeout.clone()
        } else if text_eq(field, "port_bump_attempts") {
            int_text(self.port_bump_attempts)
        } else if text_eq(field, "container") {
            bool_text(self.container)
        } else if text_eq(field, "cleanup_orphans") {
            bool_text(self.cleanup_orphans)
        } else if text_eq(field, "user") {
            self.user.clone()
        } else if text_eq(field, "cpu_violation_threshold") {
            int_text(self.cpu_violation_threshold)
        } else {
            String::new()
        }
    }
}

impl SettingsSupervisorPartial {
    /// What a field holds; nothing where there is no such field.
    pub open spec fn kind(field: Seq<char>) -> Option<SettingKind> {
        if field == "ready_check_interval"@ {
            Some(SettingKind::Text)
        } else if field == "file_watch_debounce"@ {
            Some(SettingKind::Text)
        } else if field == "log_flush_interval"@ {
            Some(SettingKind::Text)
        } else if field == "stop_timeout"@ {
            Some(SettingKind::Text)
        } else if field == "restart_delay"@ {
            Some(SettingKind::Text)
        } else if field == "cron_check_interval"@ {
            Some(SettingKind::Text)
        } else if field == "watch_interval"@ {
            Some(SettingKind::Text)
        } else if field == "watch_poll_interval"@ {
            Some(SettingKind::Text)
        } else if field == "http_client_timeout"@ {
            Some(SettingKind::Text)
        } else if field == "port_bump_attempts"@ {
            Some(SettingKind::Integer)
        } else if field == "container"@ {
            Some(SettingKind::Bool)
        } else if field == "cleanup_orphans"@ {
            Some(SettingKind::Bool)
        } else if field == "user"@ {
            Some(SettingKind::Text)
        } else if field == "cpu_violation_threshold"@ {
            Some(SettingKind::Integer)
        } else {
            None
        }
    }

    /// The value that is set for a field.
    pub open spec fn get(&self, field: Seq<char>) -> Option<SettingView> {
        if field == "ready_check_interval"@ {
            text_view(self.ready_check_interval)
        } else if field == "file_watch_debounce"@ {
            text_view(self.file_watch_debounce)
        } else if field == "log_flush_interval"@ {
            text_view(self.log_flush_interval)
        } else if field == "stop_timeout"@ {
            text_view(self.stop_timeout)
        } else if field == "restart_delay"@ {
            text_view(self.restart_delay)
        } else if field == "cron_check_interval"@ {
            text_view(self.cron_check_interval)
        } else if field == "watch_interval"@ {
            text_view(self.watch_interval)
        } else if field == "watch_poll_interval"@ {
            text_view(self.watch_poll_interval)
        } else if field == "http_client_timeout"@ {
            text_view(self.http_client_timeout)
        } else if field == "port_bump_attempts"@ {
            integer_view(self.port_bump_attempts)
        } else if field == "container"@ {
            bool_view(self.container)
        } else if field == "cleanup_orphans"@ {
            bool_view(self.cleanup_orphans)
        } else if field == "user"@ {
            text_view(self.user)
        } else if field == "cpu_violation_threshold"@ {
            integer_view(self.cpu_violation_threshold)
        } else {
            None
        }
    }

    /// Sets a field. Where that fails nothing changes, and no other field ever does.
    pub fn apply(&mut self, field: &str, value: &str) -> (r: Result<(), SettingError>)
        ensures
            reports(
                r,
                field_fault("supervisor"@, field@, SettingsSupervisorPartial::kind(field@), value@),
            ),
            forall|f: Seq<char>| #[trigger]
                final(self).get(f) == if r is Ok && f == field@ {
                    setting_value(SettingsSupervisorPartial::kind(field@)->0, value@)
                } else {
                    old(self).get(f)
                },
    {
        if text_eq(field, "ready_check_interval") {
            self.ready_check_interval = Some(value.to_string());
        } else if text_eq(field, "file_watch_debounce") {
            self.file_watch_debounce = Some(value.to_string());
        } else if text_eq(field, "log_flush_interval") {
            self.log_flush_interval = Some(value.to_string());
        } else if text_eq(field, "stop_timeout") {
            self.stop_timeout = Some(value.to_string());
        } else if text_eq(field, "restart_delay") {
            self.restart_delay = Some(value.to_string());
        } else if text_eq(field, "cron_check_interval") {
            self.cron_check_interval = Some(value.to_string());
        } else if text_eq(field, "watch_interval") {
            self.watch_interval = Some(value.to_string());
        } else if text_eq(field, "watch_poll_interval") {
            self.watch_poll_interval = Some(value.to_string());
        } else if text_eq(field, "http_client_timeout") {
            self.http_client_timeout = Some(value.to_string());
        } else if text_eq(field, "port_bump_attempts") {
            match parse_int_value(value) {
                Ok(v) => {
                    self.port_bump_attempts = Some(v);
                },
                Err(e) => {
                    return Err(e);
                },
            }
        } else if text_eq(field, "container") {
            match parse_bool_value(value) {
                Ok(v) => {
                    self.container = Some(v);
                },
                Err(e) => {
                    return Err(e);
                },
            }
        } else if text_eq(field, "cleanup_orphans") {
            match parse_bool_value(value) {
                Ok(v) => {
                    self.cleanup_orphans = Some(v);
                },
                Err(e) => {
                    return Err(e);
                },
            }
        } else if text_eq(field, "user") {
            self.user = Some(value.to_string());
        } else if text_eq(field, "cpu_violation_threshold") {
            match parse_int_value(value) {
                Ok(v) => {
                    self.cpu_violation_threshold = Some(v);
                },
                Err(e) => {
                    return Err(e);
                },
            }
        } else {
            return Err(
                SettingError::UnknownField {
                    group: "supervisor".to_string(),
                    field: field.to_string(),
                },
            );
        }
        Ok(())
    }
}

/// The proxy.
#[derive(Debug)]
pub struct SettingsProxy {
    pub enable: bool,
    pub tld: String,
    pub host: String,
    pub port: i64,
    pub https: bool,
    pub tls_cert: String,
    pub tls_key: String,
    pub auto_trust: bool,
    pub auto_start: bool,
    pub auto_start_timeout: String,
    pub sync_hosts: bool,
    pub wildcard: bool,
    pub worktree: bool,
    pub lan: bool,
    pub lan_ip: String,
}

/// The proxy, as far as a config file sets it.
#[derive(Debug)]
pub struct SettingsProxyPartial {
    pub enable: Option<bool>,
    pub tld: Option<String>,
    pub host: Option<String>,
    pub port: Option<i64>,
    pub https: Option<bool>,
    pub tls_cert: Option<String>,
    pub tls_key: Option<String>,
    pub auto_trust: Option<bool>,
    pub auto_start: Option<bool>,
    pub auto_start_timeout: Option<String>,
    pub sync_hosts: Option<bool>,
    pub wildcard: Option<bool>,
    pub worktree: Option<bool>,
    pub lan: Option<bool>,
    pub lan_ip: Option<String>,
}

impl SettingsProxy {
    /// These values, each of them set.
    pub open spec fn all_set(&self) -> SettingsProxyPartial {
        SettingsProxyPartial {
            enable: Some(self.enable),
            tld: Some(self.tld),
            host: Some(self.host),
            port: Some(self.port),
            https: Some(self.https),
            tls_cert: Some(self.tls_cert),
            tls_key: Some(self.tls_key),
            auto_trust: Some(self.auto_trust),
            auto_start: Some(self.auto_start),
            auto_start_timeout: Some(self.auto_start_timeout),
            sync_hosts: Some(self.sync_hosts),
            wildcard: Some(self.wildcard),
            worktree: Some(self.worktree),
            lan: Some(self.lan),
            lan_ip: Some(self.lan_ip),
        }
    }

    /// The text of the value of a field; nothing where there is no such field.
    pub open spec fn shown(&self, field: Seq<char>) -> Seq<char> {
        if field == "enable"@ {
            text::bool_word(self.enable)
        } else if field == "tld"@ {
            self.tld@
        } else if field == "host"@ {
            self.host@
        } else if field == "port"@ {
            text::decimal(self.port as int)
        } else if field == "https"@ {
            text::bool_word(self.https)
        } else if field == "tls_cert"@ {
            self.tls_cert@
        } else if field == "tls_key"@ {
            self.tls_key@
        } else if field == "auto_trust"@ {
            text::bool_word(self.auto_trust)
        } else if field == "auto_start"@ {
            text::bool_word(self.auto_start)
        } else if field == "auto_start_timeout"@ {
            self.auto_start_timeout@
        } else if field == "sync_hosts"@ {
            text::bool_word(self.sync_hosts)
        } else if field == "wildcard"@ {
            text::bool_word(self.wildcard)
        } else if field == "worktree"@ {
            text::bool_word(self.worktree)
        } else if field == "lan"@ {
            text::bool_word(self.lan)
        } else if field == "lan_ip"@ {
            self.lan_ip@
        } else {
            Seq::empty()
        }
    }

    /// The text of the value of a field; nothing where there is no such field.
    pub fn value(&self, field: &str) -> (r: String)
        ensures
            r@ == self.shown(field@),
    {
        if text_eq(field, "enable") {
            bool_text(self.enable)
        } else if text_eq(field, "tld") {
            self.tld.clone()
        } else if text_eq(field, "host") {
            self.host.clone()
        } else if text_eq(field, "port") {
            int_text(self.port)
        } else if text_eq(field, "https") {
            bool_text(self.https)
        } else if text_eq(field, "tls_cert") {
            self.tls_cert.clone()
        } else if text_eq(field, "tls_key") {
            self.tls_key.clone()
        } else if text_eq(field, "auto_trust") {
            bool_text(self.auto_trust)
        } else if text_eq(field, "auto_start") {
            bool_text(self.auto_start)
        } else if text_eq(field, "auto_start_timeout") {
            self.auto_start_timeout.clone()
        } else if text_eq(field, "sync_hosts") {
            bool_text(self.sync_hosts)
        } else if text_eq(field, "wildcard") {
            bool_text(self.wildcard)
        } else if text_eq(field, "worktree") {
            bool_text(self.worktree)
        } else if text_eq(field, "lan") {
            bool_text(self.lan)
        } else if text_eq(field, "lan_ip") {
            self.lan_ip.clone()
        } else {
            String::new()
        }
    }
}

impl SettingsProxyPartial {
    /// What a field holds; nothing where there is no such field.
    pub open spec fn kind(field: Seq<char>) -> Option<SettingKind> {
        if field == "enable"@ {
            Some(SettingKind::Bool)
        } else if field == "tld"@ {
            Some(SettingKind::Text)
        } else if field == "host"@ {
            Some(SettingKind::Text)
        } else if field == "port"@ {
            Some(SettingKind::Integer)
        } else if field == "https"@ {
            Some(SettingKind::Bool)
        } else if field == "tls_cert"@ {
            Some(SettingKind::Text)
        } else if field == "tls_key"@ {
            Some(SettingKind::Text)
        } else if field == "auto_trust"@ {
            Some(SettingKind::Bool)
        } else if field == "auto_start"@ {
            Some(SettingKind::Bool)
        } else if field == "auto_start_timeout"@ {
            Some(SettingKind::Text)
        } else if field == "sync_hosts"@ {
            Some(SettingKind::Bool)
        } else if field == "wildcard"@ {
            Some(SettingKind::Bool)
        } else if field == "worktree"@ {
            Some(SettingKind::Bool)
        } else if field == "lan"@ {
            Some(SettingKind::Bool)
        } else if field == "lan_ip"@ {
            Some(SettingKind::Text)
        } else {
            None
        }
    }

    /// The value that is set for a field.
    pub open spec fn get(&self, field: Seq<char>) -> Option<SettingView> {
        if field == "enable"@ {
            bool_view(self.enable)
        } else if field == "tld"@ {
            text_view(self.tld)
        } else if field == "host"@ {
            text_view(self.host)
        } else if field == "port"@ {
            integer_view(self.port)
        } else if field == "https"@ {
            bool_view(self.https)
        } else if field == "tls_cert"@ {
            text_view(self.tls_cert)
        } else if field == "tls_key"@ {
            text_view(self.tls_key)
        } else if field == "auto_trust"@ {
            bool_view(self.auto_trust)
        } else if field == "auto_start"@ {
            bool_view(self.auto_start)
        } else if field == "auto_start_timeout"@ {
            text_view(self.auto_start_timeout)
        } else if field == "sync_hosts"@ {
            bool_view(self.sync_hosts)
        } else if field == "wildcard"@ {
            bool_view(self.wildcard)
        } else if field == "worktree"@ {
            bool_view(self.worktree)
        } else if field == "lan"@ {
            bool_view(self.lan)
        } else if field == "lan_ip"@ {
            text_view(self.lan_ip)
        } else {
            None
        }
    }

    /// Sets a field. Where that fails nothing changes, and no other field ever does.
    pub fn apply(&mut self, field: &str, value: &str) -> (r: Result<(), SettingError>)
        ensures
            reports(
                r,
                field_fault("proxy"@, field@, SettingsProxyPartial::kind(field@), value@),
            ),
            forall|f: Seq<char>| #[trigger]
                final(self).get(f) == if r is Ok && f == field@ {
                    setting_value(SettingsProxyPartial::kind(field@)->0, value@)
                } else {
                    old(self).get(f)
                },
    {
        if text_eq(field, "enable") {
            match parse_bool_value(value) {
                Ok(v) => {
                    self.enable = Some(v);
                },
                Err(e) => {
                    return Err(e);
                },
            }
        } else if text_eq(field, "tld") {
            self.tld = Some(value.to_string());
        } else if text_eq(field, "host") {
            self.host = Some(value.to_string());
        } else if text_eq(field, "port") {
            match parse_int_value(value) {
                Ok(v) => {
                    self.port = Some(v);
                },
                Err(e) => {
                    return Err(e);
                },
            }
        } else if text_eq(field, "https") {
            match parse_bool_value(value) {
                Ok(v) => {
                    self.https = Some(v);
                },
                Err(e) => {
                    return Err(e);
                },
            }
        } else if text_eq(field, "tls_cert") {
            self.tls_cert = Some(value.to_string());
        } else if text_eq(field, "tls_key") {
            self.tls_key = Some(value.to_string());
        } else if text_eq(field, "auto_trust") {
            match parse_bool_value(value) {
                Ok(v) => {
                    self.auto_trust = Some(v);
                },
                Err(e) => {
                    return Err(e);
                },
            }
        } else if text_eq(field, "auto_start") {
            match parse_bool_value(value) {
                Ok(v) => {
                    self.auto_start = Some(v);
                },
                Err(e) => {
                    return Err(e);
                },
            }
        } else if text_eq(field, "auto_start_timeout") {
            self.auto_start_timeout = Some(value.to_string());
        } else if text_eq(field, "sync_hosts") {
            match parse_bool_value(value) {
                Ok(v) => {
                    self.sync_hosts = Some(v);
                },
                Err(e) => {
                    return Err(e);
                },
            }
        } else if text_eq(field, "wildcard") {
            match parse_bool_value(value) {
                Ok(v) => {
                    self.wildcard = Some(v);
                },
                Err(e) => {
                    return Err(e);
                },
            }
        } else if text_eq(field, "worktree") {
            match parse_bool_value(value) {
                Ok(v) => {
                    self.worktree = Some(v);
                },
                Err(e) => {
                    return Err(e);
                },
            }
        } else if text_eq(field, "lan") {
            match parse_bool_value(value) {
                Ok(v) => {
                    self.lan = Some(v);
                },
                Err(e) => {
                    return Err(e);
                },
            }
        } else if text_eq(field, "lan_ip") {
            self.lan_ip = Some(value.to_string());
        } else {
            return Err(
                SettingError::UnknownField {
                    group: "proxy".to_string(),
                    field: field.to_string(),
                },
            );
        }
        Ok(())
    }
}

/// The value of an optional text.
pub open spec fn text_view(v: Option<String>) -> Option<SettingView> {
    match v {
        Some(s) => Some(SettingView::Text(s@)),
        None => None,
    }
}

/// The value of an optional number.
pub open spec fn integer_view(v: Option<i64>) -> Option<SettingView> {
    match v {
        Some(i) => Some(SettingView::Integer(i as int)),
        None => None,
    }
}

/// The value of an optional truth value.
pub open spec fn bool_view(v: Option<bool>) -> Option<SettingView> {
    match v {
        Some(b) => Some(SettingView::Bool(b)),
        None => None,
    }
}

/// All settings.
#[derive(Debug)]
pub struct AllSettings {
    pub general: SettingsGeneral,
    pub ipc: SettingsIpc,
    pub logs: SettingsLogs,
    pub web: SettingsWeb,
    pub api: SettingsApi,
    pub tui: SettingsTui,
    pub supervisor: SettingsSupervisor,
    pub proxy: SettingsProxy,
}

/// All settings, as far as a config file sets them.
#[derive(Debug)]
pub struct SettingsPartial {
    pub general: SettingsGeneralPartial,
    pub ipc: SettingsIpcPartial,
    pub logs: SettingsLogsPartial,
    pub web: SettingsWebPartial,
    pub api: SettingsApiPartial,
    pub tui: SettingsTuiPartial,
    pub supervisor: SettingsSupervisorPartial,
    pub proxy: SettingsProxyPartial,
}

impl AllSettings {
    /// These settings, each of them set.
    pub open spec fn all_set(&self) -> SettingsPartial {
        SettingsPartial {
            general: self.general.all_set(),
            ipc: self.ipc.all_set(),
            logs: self.logs.all_set(),
            web: self.web.all_set(),
            api: self.api.all_set(),
            tui: self.tui.all_set(),
            supervisor: self.supervisor.all_set(),
            proxy: self.proxy.all_set(),
        }
    }

    /// Whether these settings hold all that is set.
    pub open spec fn holds(&self, set: SettingsPartial) -> bool {
        forall|g: Seq<char>, f: Seq<char>| #[trigger]
            set.get(g, f) is Some ==> self.all_set().get(g, f) == set.get(g, f)
    }

    /// The text of the value of a field of a group; nothing where there is no such field.
    pub open spec fn field_shown(&self, group: Seq<char>, field: Seq<char>) -> Seq<char> {
        if group == "general"@ {
            self.general.shown(field)
        } else if group == "ipc"@ {
            self.ipc.shown(field)
        } else if group == "logs"@ {
            self.logs.shown(field)
        } else if group == "web"@ {
            self.web.shown(field)
        } else if group == "api"@ {
            self.api.shown(field)
        } else if group == "tui"@ {
            self.tui.shown(field)
        } else if group == "supervisor"@ {
            self.supervisor.shown(field)
        } else if group == "proxy"@ {
            self.proxy.shown(field)
        } else {
            Seq::empty()
        }
    }

    /// The text of the value of a setting; nothing where there is no such setting.
    pub open spec fn shown(&self, key: Seq<char>) -> Seq<char> {
        let parts = text::split(key, '.');
        if parts.len() == 2 {
            self.field_shown(parts[0], parts[1])
        } else {
            Seq::empty()
        }
    }

    /// The text of the value of a setting; nothing where there is no such setting.
    pub fn get_setting_value(&self, key: &str) -> (r: String)
        ensures
            r@ == self.shown(key@),
    {
        let parts = split_on(key, '.');
        assert(text::texts(parts@).len() == parts@.len());
        if parts.len() != 2 {
            return String::new();
        }
        assert(text::texts(parts@)[0] == parts@[0]@ && text::texts(parts@)[1] == parts@[1]@);
        let group = parts[0].as_str();
        let field = parts[1].as_str();
        if text_eq(group, "general") {
            self.general.value(field)
        } else if text_eq(group, "ipc") {
            self.ipc.value(field)
        } else if text_eq(group, "logs") {
            self.logs.value(field)
        } else if text_eq(group, "web") {
            self.web.value(field)
        } else if text_eq(group, "api") {
            self.api.value(field)
        } else if text_eq(group, "tui") {
            self.tui.value(field)
        } else if text_eq(group, "supervisor") {
            self.supervisor.value(field)
        } else if text_eq(group, "proxy") {
            self.proxy.value(field)
        } else {
            String::new()
        }
    }
}

/// What a field of a group holds; nothing where there is no such field.
pub open spec fn field_kind(group: Seq<char>, field: Seq<char>) -> Option<SettingKind> {
    if group == "general"@ {
        SettingsGeneralPartial::kind(field)
    } else if group == "ipc"@ {
        SettingsIpcPartial::kind(field)
    } else if group == "logs"@ {
        SettingsLogsPartial::kind(field)
    } else if group == "web"@ {
        SettingsWebPartial::kind(field)
    } else if group == "api"@ {
        SettingsApiPartial::kind(field)
    } else if group == "tui"@ {
        SettingsTuiPartial::kind(field)
    } else if group == "supervisor"@ {
        SettingsSupervisorPartial::kind(field)
    } else if group == "proxy"@ {
        SettingsProxyPartial::kind(field)
    } else {
        None
    }
}

/// Whether there is a group.
pub open spec fn is_group(group: Seq<char>) -> bool {
    ||| group == "general"@
    ||| group == "ipc"@
    ||| group == "logs"@
    ||| group == "web"@
    ||| group == "api"@
    ||| group == "tui"@
    ||| group == "supervisor"@
    ||| group == "proxy"@
}

/// The fault of a value for a setting.
pub open spec fn setting_fault(key: Seq<char>, value: Seq<char>) -> Option<SettingFault> {
    let parts = text::split(key, '.');
    if parts.len() != 2 {
        Some(SettingFault::KeyFormat)
    } else if !is_group(parts[0]) {
        Some(SettingFault::UnknownGroup(parts[0]))
    } else {
        field_fault(parts[0], parts[1], field_kind(parts[0], parts[1]), value)
    }
}

impl SettingsPartial {
    /// The value that is set for a field of a group.
    pub open spec fn get(&self, group: Seq<char>, field: Seq<char>) -> Option<SettingView> {
        if group == "general"@ {
            self.general.get(field)
        } else if group == "ipc"@ {
            self.ipc.get(field)
        } else if group == "logs"@ {
            self.logs.get(field)
        } else if group == "web"@ {
            self.web.get(field)
        } else if group == "api"@ {
            self.api.get(field)
        } else if group == "tui"@ {
            self.tui.get(field)
        } else if group == "supervisor"@ {
            self.supervisor.get(field)
        } else if group == "proxy"@ {
            self.proxy.get(field)
        } else {
            None
        }
    }

    /// Sets a setting. Where that fails nothing changes, and no other setting ever does.
    pub fn apply_setting(&mut self, key: &str, value: &str) -> (r: Result<(), SettingError>)
        ensures
            reports(r, setting_fault(key@, value@)),
            forall|g: Seq<char>, f: Seq<char>| #[trigger]
                final(self).get(g, f) == if r is Ok && seq![g, f] == text::split(key@, '.') {
                    setting_value(field_kind(g, f)->0, value@)
                } else {
                    old(self).get(g, f)
                },
    {
        let parts = split_on(key, '.');
        let ghost names = text::texts(parts@);
        assert(names.len() == parts@.len());
        if parts.len() != 2 {
            assert forall|g: Seq<char>, f: Seq<char>| seq![g, f] != names by {
                assert(seq![g, f].len() == 2);
            }
            return Err(SettingError::KeyFormat);
        }
        let group = parts[0].as_str();
        let field = parts[1].as_str();
        proof {
            assert(names[0] == group@ && names[1] == field@);
            assert forall|g: Seq<char>, f: Seq<char>| (#[trigger] seq![g, f] == names) == (g
                == group@ && f == field@) by {
                if g == group@ && f == field@ {
                    assert(seq![g, f] =~= names);
                }
                assert(seq![g, f][0] == g && seq![g, f][1] == f);
            }
        }
        if text_eq(group, "general") {
            self.general.apply(field, value)
        } else if text_eq(group, "ipc") {
            self.ipc.apply(field, value)
        } else if text_eq(group, "logs") {
            self.logs.apply(field, value)
        } else if text_eq(group, "web") {
            self.web.apply(field, value)
        } else if text_eq(group, "api") {
            self.api.apply(field, value)
        } else if text_eq(group, "tui") {
            self.tui.apply(field, value)
        } else if text_eq(group, "supervisor") {
            self.supervisor.apply(field, value)
        } else if text_eq(group, "proxy") {
            self.proxy.apply(field, value)
        } else {
            Err(SettingError::UnknownGroup { group: group.to_string() })
        }
    }
}

/// The text of a value.
pub open spec fn value_text(value: SettingView) -> Seq<char> {
    match value {
        SettingView::Text(s) => s,
        SettingView::Integer(i) => text::decimal(i),
        SettingView::Bool(b) => text::bool_word(b),
    }
}

/// The kind of a value.
pub open spec fn kind_of(value: SettingView) -> SettingKind {
    match value {
        SettingView::Text(_) => SettingKind::Text,
        SettingView::Integer(_) => SettingKind::Integer,
        SettingView::Bool(_) => SettingKind::Bool,
    }
}

/// A value that is shown can be set again as it is shown.
pub proof fn shown_value_is_read_back(value: SettingView)
    requires
        value matches SettingView::Integer(i) ==> i64::MIN <= i <= i64::MAX,
    ensures
        setting_value(kind_of(value), value_text(value)) == Some(value),
{
    match value {
        SettingView::Integer(i) => {
            text::decimal_is_read_back(i);
        },
        SettingView::Bool(b) => {
            reveal_strlit("true");
            reveal_strlit("false");
        },
        SettingView::Text(_) => {},
    }
}

/// What is shown of a field is the text of the value that it holds.
pub proof fn fields_show_their_values(all: AllSettings, group: Seq<char>, field: Seq<char>)
    ensures
        all.field_shown(group, field) == match all.all_set().get(group, field) {
            Some(value) => value_text(value),
            None => Seq::empty(),
        },
        all.all_set().get(group, field) is Some <==> field_kind(group, field) is Some,
        all.all_set().get(group, field) matches Some(value) ==> field_kind(group, field) == Some(
            kind_of(value),
        ),
{
}

/// The getter shows what the setter wrote: once a value is set, settings that hold all that is set
/// show the text of that value. A text or a truth value is shown letter for letter.
pub proof fn set_value_is_shown(
    before: SettingsPartial,
    after: SettingsPartial,
    all: AllSettings,
    key: Seq<char>,
    value: Seq<char>,
)
    requires
        setting_fault(key, value) is None,
        forall|g: Seq<char>, f: Seq<char>| #[trigger]
            after.get(g, f) == if seq![g, f] == text::split(key, '.') {
                setting_value(field_kind(g, f)->0, value)
            } else {
                before.get(g, f)
            },
        all.holds(after),
    ensures
        ({
            let parts = text::split(key, '.');
            let kind = field_kind(parts[0], parts[1])->0;
            &&& setting_value(kind, value) is Some
            &&& all.shown(key) == value_text(setting_value(kind, value)->0)
            &&& kind != SettingKind::Integer ==> all.shown(key) == value
        }),
{
    let parts = text::split(key, '.');
    assert(seq![parts[0], parts[1]] =~= parts);
    let kind = field_kind(parts[0], parts[1])->0;
    assert(after.get(parts[0], parts[1]) == setting_value(kind, value));
    fields_show_their_values(all, parts[0], parts[1]);
}

/// Each field of the group `general` is read, set and shown under its own name, by its kind.
pub proof fn general_fields_have_their_names(set: SettingsGeneralPartial, all: SettingsGeneral)
    ensures
        set.get("autostop_delay"@) == text_view(set.autostop_delay),
        SettingsGeneralPartial::kind("autostop_delay"@) == Some(SettingKind::Text),
        all.shown("autostop_delay"@) == all.autostop_delay@,
        set.get("interval"@) == text_view(set.interval),
        SettingsGeneralPartial::kind("interval"@) == Some(SettingKind::Text),
        all.shown("interval"@) == all.interval@,
        set.get("log_level"@) == text_view(set.log_level),
        SettingsGeneralPartial::kind("log_level"@) == Some(SettingKind::Text),
        all.shown("log_level"@) == all.log_level@,
        set.get("log_file_level"@) == text_view(set.log_file_level),
        SettingsGeneralPartial::kind("log_file_level"@) == Some(SettingKind::Text),
        all.shown("log_file_level"@) == all.log_file_level@,
        set.get("mise"@) == bool_view(set.mise),
        SettingsGeneralPartial::kind("mise"@) == Some(SettingKind::Bool),
        all.shown("mise"@) == text::bool_word(all.mise),
        set.get("mise_bin"@) == text_view(set.mise_bin),
        SettingsGeneralPartial::kind("mise_bin"@) == Some(SettingKind::Text),
        all.shown("mise_bin"@) == all.mise_bin@,
        set.get("shell"@) == text_view(set.shell),
        SettingsGeneralPartial::kind("shell"@) == Some(SettingKind::Text),
        all.shown("shell"@) == all.shell@,
        set.get("startup_log_timestamps"@) == bool_view(set.startup_log_timestamps),
        SettingsGeneralPartial::kind("startup_log_timestamps"@) == Some(SettingKind::Bool),
        all.shown("startup_log_timestamps"@) == text::bool_word(all.startup_log_timestamps),
{
    reveal_strlit("autostop_delay");
    assert("autostop_delay"@.len() == 14);
    reveal_strlit("interval");
    assert("interval"@.len() == 8);
    reveal_strlit("log_level");
    assert("log_level"@.len() == 9);
    reveal_strlit("log_file_level");
    assert("log_file_level"@.len() == 14);
    reveal_strlit("mise");
    assert("mise"@.len() == 4);
    reveal_strlit("mise_bin");
    assert("mise_bin"@.len() == 8);
    reveal_strlit("shell");
    assert("shell"@.len() == 5);
    reveal_strlit("startup_log_timestamps");
    assert("startup_log_timestamps"@.len() == 22);
    assert("log_file_level"@[0] != "autostop_delay"@[0]);
    assert("log_file_level"@ != "autostop_delay"@);
    assert("mise_bin"@[0] != "interval"@[0]);
    assert("mise_bin"@ != "interval"@);
}

/// Each field of the group `ipc` is read, set and shown under its own name, by its kind.
pub proof fn ipc_fields_have_their_names(set: SettingsIpcPartial, all: SettingsIpc)
    ensures
        set.get("connect_attempts"@) == integer_view(set.connect_attempts),
        SettingsIpcPartial::kind("connect_attempts"@) == Some(SettingKind::Integer),
        all.shown("connect_attempts"@) == text::decimal(all.connect_attempts as int),
        set.get("connect_min_delay"@) == text_view(set.connect_min_delay),
        SettingsIpcPartial::kind("connect_min_delay"@) == Some(SettingKind::Text),
        all.shown("connect_min_delay"@) == all.connect_min_delay@,
        set.get("connect_max_delay"@) == text_view(set.connect_max_delay),
        SettingsIpcPartial::kind("connect_max_delay"@) == Some(SettingKind::Text),
        all.shown("connect_max_delay"@) == all.connect_max_delay@,
        set.get("request_timeout"@) == text_view(set.request_timeout),
        SettingsIpcPartial::kind("request_timeout"@) == Some(SettingKind::Text),
        all.shown("request_timeout"@) == all.request_timeout@,
        set.get("rate_limit"@) == integer_view(set.rate_limit),
        SettingsIpcPartial::kind("rate_limit"@) == Some(SettingKind::Integer),
        all.shown("rate_limit"@) == text::decimal(all.rate_limit as int),
        set.get("rate_limit_window"@) == text_view(set.rate_limit_window),
        SettingsIpcPartial::kind("rate_limit_window"@) == Some(SettingKind::Text),
        all.shown("rate_limit_window"@) == all.rate_limit_window@,
{
    reveal_strlit("connect_attempts");
    assert("connect_attempts"@.len() == 16);
    reveal_strlit("connect_min_delay");
    assert("connect_min_delay"@.len() == 17);
    reveal_strlit("connect_max_delay");
    assert("connect_max_delay"@.len() == 17);
    reveal_strlit("request_timeout");
    assert("request_timeout"@.len() == 15);
    reveal_strlit("rate_limit");
    assert("rate_limit"@.len() == 10);
    reveal_strlit("rate_limit_window");
    assert("rate_limit_window"@.len() == 17);
    assert("connect_max_delay"@[9] != "connect_min_delay"@[9]);
    assert("connect_max_delay"@ != "connect_min_delay"@);
    assert("rate_limit_window"@[0] != "connect_min_delay"@[0]);
    assert("rate_limit_window"@ != "connect_min_delay"@);
    assert("rate_limit_window"@[0] != "connect_max_delay"@[0]);
    assert("rate_limit_window"@ != "connect_max_delay"@);
}

/// Each field of the group `logs` is read, set and shown under its own name, by its kind.
pub proof fn logs_fields_have_their_names(set: SettingsLogsPartial, all: SettingsLogs)
    ensures
        set.get("time_retention"@) == text_view(set.time_retention),
        SettingsLogsPartial::kind("time_retention"@) == Some(SettingKind::Text),
        all.shown("time_retention"@) == all.time_retention@,
        set.get("line_retention"@) == integer_view(set.line_retention),
        SettingsLogsPartial::kind("line_retention"@) == Some(SettingKind::Integer),
        all.shown("line_retention"@) == text::decimal(all.line_retention as int),
{
    reveal_strlit("time_retention");
    assert("time_retention"@.len() == 14);
    reveal_strlit("line_retention");
    assert("line_retention"@.len() == 14);
    assert("line_retention"@[0] != "time_retention"@[0]);
    assert("line_retention"@ != "time_retention"@);
}

/// Each field of the group `web` is read, set and shown under its own name, by its kind.
pub proof fn web_fields_have_their_names(set: SettingsWebPartial, all: SettingsWeb)
    ensures
        set.get("auto_start"@) == bool_view(set.auto_start),
        SettingsWebPartial::kind("auto_start"@) == Some(SettingKind::Bool),
        all.shown("auto_start"@) == text::bool_word(all.auto_start),
        set.get("bind_address"@) == text_view(set.bind_address),
        SettingsWebPartial::kind("bind_address"@) == Some(SettingKind::Text),
        all.shown("bind_address"@) == all.bind_address@,
        set.get("bind_port"@) == integer_view(set.bind_port),
        SettingsWebPartial::kind("bind_port"@) == Some(SettingKind::Integer),
        all.shown("bind_port"@) == text::decimal(all.bind_port as int),
        set.get("port_attempts"@) == integer_view(set.port_attempts),
        SettingsWebPartial::kind("port_attempts"@) == Some(SettingKind::Integer),
        all.shown("port_attempts"@) == text::decimal(all.port_attempts as int),
        set.get("log_lines"@) == integer_view(set.log_lines),
        SettingsWebPartial::kind("log_lines"@) == Some(SettingKind::Integer),
        all.shown("log_lines"@) == text::decimal(all.log_lines as int),
        set.get("base_path"@) == text_view(set.base_path),
        SettingsWebPartial::kind("base_path"@) == Some(SettingKind::Text),
        all.shown("base_path"@) == all.base_path@,
        set.get("sse_poll_interval"@) == text_view(set.sse_poll_interval),
        SettingsWebPartial::kind("sse_poll_interval"@) == Some(SettingKind::Text),
        all.shown("sse_poll_interval"@) == all.sse_poll_interval@,
{
    reveal_strlit("auto_start");
    assert("auto_start"@.len() == 10);
    reveal_strlit("bind_address");
    assert("bind_address"@.len() == 12);
    reveal_strlit("bind_port");
    assert("bind_port"@.len() == 9);
    reveal_strlit("port_attempts");
    assert("port_attempts"@.len() == 13);
    reveal_strlit("log_lines");
    assert("log_lines"@.len() == 9);
    reveal_strlit("base_path");
    assert("base_path"@.len() == 9);
    reveal_strlit("sse_poll_interval");
    assert("sse_poll_interval"@.len() == 17);
    assert("log_lines"@[0] != "bind_port"@[0]);
    assert("log_lines"@ != "bind_port"@);
    assert("base_path"@[1] != "bind_port"@[1]);
    assert("base_path"@ != "bind_port"@);
    assert("base_path"@[0] != "log_lines"@[0]);
    assert("base_path"@ != "log_lines"@);
}

/// Each field of the group `api` is read, set and shown under its own name, by its kind.
pub proof fn api_fields_have_their_names(set: SettingsApiPartial, all: SettingsApi)
    ensures
        set.get("auto_start"@) == bool_view(set.auto_start),
        SettingsApiPartial::kind("auto_start"@) == Some(SettingKind::Bool),
        all.shown("auto_start"@) == text::bool_word(all.auto_start),
        set.get("bind_address"@) == text_view(set.bind_address),
        SettingsApiPartial::kind("bind_address"@) == Some(SettingKind::Text),
        all.shown("bind_address"@) == all.bind_address@,
        set.get("bind_port"@) == integer_view(set.bind_port),
        SettingsApiPartial::kind("bind_port"@) == Some(SettingKind::Integer),
        all.shown("bind_port"@) == text::decimal(all.bind_port as int),
        set.get("port_attempts"@) == integer_view(set.port_attempts),
        SettingsApiPartial::kind("port_attempts"@) == Some(SettingKind::Integer),
        all.shown("port_attempts"@) == text::decimal(all.port_attempts as int),
        set.get("token"@) == text_view(set.token),
        SettingsApiPartial::kind("token"@) == Some(SettingKind::Text),
        all.shown("token"@) == all.token@,
{
    reveal_strlit("auto_start");
    assert("auto_start"@.len() == 10);
    reveal_strlit("bind_address");
    assert("bind_address"@.len() == 12);
    reveal_strlit("bind_port");
    assert("bind_port"@.len() == 9);
    reveal_strlit("port_attempts");
    assert("port_attempts"@.len() == 13);
    reveal_strlit("token");
    assert("token"@.len() == 5);
}

/// Each field of the group `tui` is read, set and shown under its own name, by its kind.
pub proof fn tui_fields_have_their_names(set: SettingsTuiPartial, all: SettingsTui)
    ensures
        set.get("refresh_rate"@) == text_view(set.refresh_rate),
        SettingsTuiPartial::kind("refresh_rate"@) == Some(SettingKind::Text),
        all.shown("refresh_rate"@) == all.refresh_rate@,
        set.get("tick_rate"@) == text_view(set.tick_rate),
        SettingsTuiPartial::kind("tick_rate"@) == Some(SettingKind::Text),
        all.shown("tick_rate"@) == all.tick_rate@,
        set.get("stat_history"@) == integer_view(set.stat_history),
        SettingsTuiPartial::kind("stat_history"@) == Some(SettingKind::Integer),
        all.shown("stat_history"@) == text::decimal(all.stat_history as int),
        set.get("message_duration"@) == text_view(set.message_duration),
        SettingsTuiPartial::kind("message_duration"@) == Some(SettingKind::Text),
        all.shown("message_duration"@) == all.message_duration@,
{
    reveal_strlit("refresh_rate");
    assert("refresh_rate"@.len() == 12);
    reveal_strlit("tick_rate");
    assert("tick_rate"@.len() == 9);
    reveal_strlit("stat_history");
    assert("stat_history"@.len() == 12);
    reveal_strlit("message_duration");
    assert("message_duration"@.len() == 16);
    assert("stat_history"@[0] != "refresh_rate"@[0]);
    assert("stat_history"@ != "refresh_rate"@);
}

/// Each field of the group `supervisor` is read, set and shown under its own name, by its kind.
pub proof fn supervisor_fields_have_their_names(set: SettingsSupervisorPartial, all: SettingsSupervisor)
    ensures
        set.get("ready_check_interval"@) == text_view(set.ready_check_interval),
        SettingsSupervisorPartial::kind("ready_check_interval"@) == Some(SettingKind::Text),
        all.shown("ready_check_interval"@) == all.ready_check_interval@,
        set.get("file_watch_debounce"@) == text_view(set.file_watch_debounce),
        SettingsSupervisorPartial::kind("file_watch_debounce"@) == Some(SettingKind::Text),
        all.shown("file_watch_debounce"@) == all.file_watch_debounce@,
        set.get("log_flush_interval"@) == text_view(set.log_flush_interval),
        SettingsSupervisorPartial::kind("log_flush_interval"@) == Some(SettingKind::Text),
        all.shown("log_flush_interval"@) == all.log_flush_interval@,
        set.get("stop_timeout"@) == text_view(set.stop_timeout),
        SettingsSupervisorPartial::kind("stop_timeout"@) == Some(SettingKind::Text),
        all.shown("stop_timeout"@) == all.stop_timeout@,
        set.get("restart_delay"@) == text_view(set.restart_delay),
        SettingsSupervisorPartial::kind("restart_delay"@) == Some(SettingKind::Text),
        all.shown("restart_delay"@) == all.restart_delay@,
        set.get("cron_check_interval"@) == text_view(set.cron_check_interval),
        SettingsSupervisorPartial::kind("cron_check_interval"@) == Some(SettingKind::Text),
        all.shown("cron_check_interval"@) == all.cron_check_interval@,
        set.get("watch_interval"@) == text_view(set.watch_interval),
        SettingsSupervisorPartial::kind("watch_interval"@) == Some(SettingKind::Text),
        all.shown("watch_interval"@) == all.watch_interval@,
        set.get("watch_poll_interval"@) == text_view(set.watch_poll_interval),
        SettingsSupervisorPartial::kind("watch_poll_interval"@) == Some(SettingKind::Text),
        all.shown("watch_poll_interval"@) == all.watch_poll_interval@,
        set.get("http_client_timeout"@) == text_view(set.http_client_timeout),
        SettingsSupervisorPartial::kind("http_client_timeout"@) == Some(SettingKind::Text),
        all.shown("http_client_timeout"@) == all.http_client_timeout@,
        set.get("port_bump_attempts"@) == integer_view(set.port_bump_attempts),
        SettingsSupervisorPartial::kind("port_bump_attempts"@) == Some(SettingKind::Integer),
        all.shown("port_bump_attempts"@) == text::decimal(all.port_bump_attempts as int),
        set.get("container"@) == bool_view(set.container),
        SettingsSupervisorPartial::kind("container"@) == Some(SettingKind::Bool),
        all.shown("container"@) == text::bool_word(all.container),
        set.get("cleanup_orphans"@) == bool_view(set.cleanup_orphans),
        SettingsSupervisorPartial::kind("cleanup_orphans"@) == Some(SettingKind::Bool),
        all.shown("cleanup_orphans"@) == text::bool_word(all.cleanup_orphans),
        set.get("user"@) == text_view(set.user),
        SettingsSupervisorPartial::kind("user"@) == Some(SettingKind::Text),
        all.shown("user"@) == all.user@,
        set.get("cpu_violation_threshold"@) == integer_view(set.cpu_violation_threshold),
        SettingsSupervisorPartial::kind("cpu_violation_threshold"@) == Some(SettingKind::Integer),
        all.shown("cpu_violation_threshold"@) == text::decimal(all.cpu_violation_threshold as int),
{
    reveal_strlit("ready_check_interval");
    assert("ready_check_interval"@.len() == 20);
    reveal_strlit("file_watch_debounce");
    assert("file_watch_debounce"@.len() == 19);
    reveal_strlit("log_flush_interval");
    assert("log_flush_interval"@.len() == 18);
    reveal_strlit("stop_timeout");
    assert("stop_timeout"@.len() == 12);
    reveal_strlit("restart_delay");
    assert("restart_delay"@.len() == 13);
    reveal_strlit("cron_check_interval");
    assert("cron_check_interval"@.len() == 19);
    reveal_strlit("watch_interval");
    assert("watch_interval"@.len() == 14);
    reveal_strlit("watch_poll_interval");
    assert("watch_poll_interval"@.len() == 19);
    reveal_strlit("http_client_timeout");
    assert("http_client_timeout"@.len() == 19);
    reveal_strlit("port_bump_attempts");
    assert("port_bump_attempts"@.len() == 18);
    reveal_strlit("container");
    assert("container"@.len() == 9);
    reveal_strlit("cleanup_orphans");
    assert("cleanup_orphans"@.len() == 15);
    reveal_strlit("user");
    assert("user"@.len() == 4);
    reveal_strlit("cpu_violation_threshold");
    assert("cpu_violation_threshold"@.len() == 23);
    assert("cron_check_interval"@[0] != "file_watch_debounce"@[0]);
    assert("cron_check_interval"@ != "file_watch_debounce"@);
    assert("watch_poll_interval"@[0] != "file_watch_debounce"@[0]);
    assert("watch_poll_interval"@ != "file_watch_debounce"@);
    assert("watch_poll_interval"@[0] != "cron_check_interval"@[0]);
    assert("watch_poll_interval"@ != "cron_check_interval"@);
    assert("http_client_timeout"@[0] != "file_watch_debounce"@[0]);
    assert("http_client_timeout"@ != "file_watch_debounce"@);
    assert("http_client_timeout"@[0] != "cron_check_interval"@[0]);
    assert("http_client_timeout"@ != "cron_check_interval"@);
    assert("http_client_timeout"@[0] != "watch_poll_interval"@[0]);
    assert("http_client_timeout"@ != "watch_poll_interval"@);
    assert("port_bump_attempts"@[0] != "log_flush_interval"@[0]);
    assert("port_bump_attempts"@ != "log_flush_interval"@);
}

/// Each field of the group `proxy` is read, set and shown under its own name, by its kind.
pub proof fn proxy_fields_have_their_names(set: SettingsProxyPartial, all: SettingsProxy)
    ensures
        set.get("enable"@) == bool_view(set.enable),
        SettingsProxyPartial::kind("enable"@) == Some(SettingKind::Bool),
        all.shown("enable"@) == text::bool_word(all.enable),
        set.get("tld"@) == text_view(set.tld),
        SettingsProxyPartial::kind("tld"@) == Some(SettingKind::Text),
        all.shown("tld"@) == all.tld@,
        set.get("host"@) == text_view(set.host),
        SettingsProxyPartial::kind("host"@) == Some(SettingKind::Text),
        all.shown("host"@) == all.host@,
        set.get("port"@) == integer_view(set.port),
        SettingsProxyPartial::kind("port"@) == Some(SettingKind::Integer),
        all.shown("port"@) == text::decimal(all.port as int),
        set.get("https"@) == bool_view(set.https),
        SettingsProxyPartial::kind("https"@) == Some(SettingKind::Bool),
        all.shown("https"@) == text::bool_word(all.https),
        set.get("tls_cert"@) == text_view(set.tls_cert),
        SettingsProxyPartial::kind("tls_cert"@) == Some(SettingKind::Text),
        all.shown("tls_cert"@) == all.tls_cert@,
        set.get("tls_key"@) == text_view(set.tls_key),
        SettingsProxyPartial::kind("tls_key"@) == Some(SettingKind::Text),
        all.shown("tls_key"@) == all.tls_key@,
        set.get("auto_trust"@) == bool_view(set.auto_trust),
        SettingsProxyPartial::kind("auto_trust"@) == Some(SettingKind::Bool),
        all.shown("auto_trust"@) == text::bool_word(all.auto_trust),
        set.get("auto_start"@) == bool_view(set.auto_start),
        SettingsProxyPartial::kind("auto_start"@) == Some(SettingKind::Bool),
        all.shown("auto_start"@) == text::bool_word(all.auto_start),
        set.get("auto_start_timeout"@) == text_view(set.auto_start_timeout),
        SettingsProxyPartial::kind("auto_start_timeout"@) == Some(SettingKind::Text),
        all.shown("auto_start_timeout"@) == all.auto_start_timeout@,
        set.get("sync_hosts"@) == bool_view(set.sync_hosts),
        SettingsProxyPartial::kind("sync_hosts"@) == Some(SettingKind::Bool),
        all.shown("sync_hosts"@) == text::bool_word(all.sync_hosts),
        set.get("wildcard"@) == bool_view(set.wildcard),
        SettingsProxyPartial::kind("wildcard"@) == Some(SettingKind::Bool),
        all.shown("wildcard"@) == text::bool_word(all.wildcard),
        set.get("worktree"@) == bool_view(set.worktree),
        SettingsProxyPartial::kind("worktree"@) == Some(SettingKind::Bool),
        all.shown("worktree"@) == text::bool_word(all.worktree),
        set.get("lan"@) == bool_view(set.lan),
        SettingsProxyPartial::kind("lan"@) == Some(SettingKind::Bool),
        all.shown("lan"@) == text::bool_word(all.lan),
        set.get("lan_ip"@) == text_view(set.lan_ip),
        SettingsProxyPartial::kind("lan_ip"@) == Some(SettingKind::Text),
        all.shown("lan_ip"@) == all.lan_ip@,
{
    reveal_strlit("enable");
    assert("enable"@.len() == 6);
    reveal_strlit("tld");
    assert("tld"@.len() == 3);
    reveal_strlit("host");
    assert("host"@.len() == 4);
    reveal_strlit("port");
    assert("port"@.len() == 4);
    reveal_strlit("https");
    assert("https"@.len() == 5);
    reveal_strlit("tls_cert");
    assert("tls_cert"@.len() == 8);
    reveal_strlit("tls_key");
    assert("tls_key"@.len() == 7);
    reveal_strlit("auto_trust");
    assert("auto_trust"@.len() == 10);
    reveal_strlit("auto_start");
    assert("auto_start"@.len() == 10);
    reveal_strlit("auto_start_timeout");
    assert("auto_start_timeout"@.len() == 18);
    reveal_strlit("sync_hosts");
    assert("sync_hosts"@.len() == 10);
    reveal_strlit("wildcard");
    assert("wildcard"@.len() == 8);
    reveal_strlit("worktree");
    assert("worktree"@.len() == 8);
    reveal_strlit("lan");
    assert("lan"@.len() == 3);
    reveal_strlit("lan_ip");
    assert("lan_ip"@.len() == 6);
    assert("port"@[0] != "host"@[0]);
    assert("port"@ != "host"@);
    assert("auto_start"@[5] != "auto_trust"@[5]);
    assert("auto_start"@ != "auto_trust"@);
    assert("sync_hosts"@[0] != "auto_trust"@[0]);
    assert("sync_hosts"@ != "auto_trust"@);
    assert("sync_hosts"@[0] != "auto_start"@[0]);
    assert("sync_hosts"@ != "auto_start"@);
    assert("wildcard"@[0] != "tls_cert"@[0]);
    assert("wildcard"@ != "tls_cert"@);
    assert("worktree"@[0] != "tls_cert"@[0]);
    assert("worktree"@ != "tls_cert"@);
    assert("worktree"@[1] != "wildcard"@[1]);
    assert("worktree"@ != "wildcard"@);
    assert("lan"@[0] != "tld"@[0]);
    assert("lan"@ != "tld"@);
    assert("lan_ip"@[0] != "enable"@[0]);
    assert("lan_ip"@ != "enable"@);
}

/// Each group of settings is read, set and shown under its own name.
pub proof fn groups_have_their_names(set: SettingsPartial, all: AllSettings, field: Seq<char>)
    ensures
        set.get("general"@, field) == set.general.get(field),
        field_kind("general"@, field) == SettingsGeneralPartial::kind(field),
        all.field_shown("general"@, field) == all.general.shown(field),
        is_group("general"@),
        set.get("ipc"@, field) == set.ipc.get(field),
        field_kind("ipc"@, field) == SettingsIpcPartial::kind(field),
        all.field_shown("ipc"@, field) == all.ipc.shown(field),
        is_group("ipc"@),
        set.get("logs"@, field) == set.logs.get(field),
        field_kind("logs"@, field) == SettingsLogsPartial::kind(field),
        all.field_shown("logs"@, field) == all.logs.shown(field),
        is_group("logs"@),
        set.get("web"@, field) == set.web.get(field),
        field_kind("web"@, field) == SettingsWebPartial::kind(field),
        all.field_shown("web"@, field) == all.web.shown(field),
        is_group("web"@),
        set.get("api"@, field) == set.api.get(field),
        field_kind("api"@, field) == SettingsApiPartial::kind(field),
        all.field_shown("api"@, field) == all.api.shown(field),
        is_group("api"@),
        set.get("tui"@, field) == set.tui.get(field),
        field_kind("tui"@, field) == SettingsTuiPartial::kind(field),
        all.field_shown("tui"@, field) == all.tui.shown(field),
        is_group("tui"@),
        set.get("supervisor"@, field) == set.supervisor.get(field),
        field_kind("supervisor"@, field) == SettingsSupervisorPartial::kind(field),
        all.field_shown("supervisor"@, field) == all.supervisor.shown(field),
        is_group("supervisor"@),
        set.get("proxy"@, field) == set.proxy.get(field),
        field_kind("proxy"@, field) == SettingsProxyPartial::kind(field),
        all.field_shown("proxy"@, field) == all.proxy.shown(field),
        is_group("proxy"@),
{
    reveal_strlit("general");
    assert("general"@.len() == 7);
    reveal_strlit("ipc");
    assert("ipc"@.len() == 3);
    reveal_strlit("logs");
    assert("logs"@.len() == 4);
    reveal_strlit("web");
    assert("web"@.len() == 3);
    reveal_strlit("api");
    assert("api"@.len() == 3);
    reveal_strlit("tui");
    assert("tui"@.len() == 3);
    reveal_strlit("supervisor");
    assert("supervisor"@.len() == 10);
    reveal_strlit("proxy");
    assert("proxy"@.len() == 5);
    assert("web"@[0] != "ipc"@[0]);
    assert("web"@ != "ipc"@);
    assert("api"@[0] != "ipc"@[0]);
    assert("api"@ != "ipc"@);
    assert("api"@[0] != "web"@[0]);
    assert("api"@ != "web"@);
    assert("tui"@[0] != "ipc"@[0]);
    assert("tui"@ != "ipc"@);
    assert("tui"@[0] != "web"@[0]);
    assert("tui"@ != "web"@);
    assert("tui"@[0] != "api"@[0]);
    assert("tui"@ != "api"@);
}

/// A truth value is `true` or `false` and nothing else, a number is what is read as one, and a text
/// is any.
pub proof fn values_are_read_by_kind(value: Seq<char>)
    ensures
        setting_value(SettingKind::Text, value) == Some(SettingView::Text(value)),
        setting_value(SettingKind::Bool, "true"@) == Some(SettingView::Bool(true)),
        setting_value(SettingKind::Bool, "false"@) == Some(SettingView::Bool(false)),
        value != "true"@ && value != "false"@ ==> setting_value(SettingKind::Bool, value) is None,
        text::parsed_i64(value) is None ==> setting_value(SettingKind::Integer, value) is None,
        text::parsed_i64(value) is Some ==> setting_value(SettingKind::Integer, value) == Some(
            SettingView::Integer(text::parsed_i64(value)->0),
        ),
{
    reveal_strlit("true");
    reveal_strlit("false");
}

/// A key has a group and a field; each part that is not known, and each value that is not of the
/// kind of the field, is reported as what it is.
pub proof fn faults_of_settings_are_told(
    key: Seq<char>,
    group: Seq<char>,
    field: Seq<char>,
    value: Seq<char>,
)
    ensures
        text::split(key, '.').len() != 2 ==> setting_fault(key, value) == Some(
            SettingFault::KeyFormat,
        ),
        text::split(key, '.') == seq![group, field] && !is_group(group) ==> setting_fault(
            key,
            value,
        ) == Some(SettingFault::UnknownGroup(group)),
        text::split(key, '.') == seq![group, field] && is_group(group) && field_kind(group, field)
            is None ==> setting_fault(key, value) == Some(SettingFault::UnknownField(group, field)),
        text::split(key, '.') == seq![group, field] && is_group(group) && field_kind(group, field)
            == Some(SettingKind::Bool) ==> setting_fault(key, value) == (if value == "true"@
            || value == "false"@ {
            None
        } else {
            Some(SettingFault::InvalidBool(value))
        }),
        text::split(key, '.') == seq![group, field] && is_group(group) && field_kind(group, field)
            == Some(SettingKind::Integer) ==> setting_fault(key, value) == (if text::parsed_i64(
            value,
        ) is Some {
            None
        } else {
            Some(SettingFault::InvalidInteger(value))
        }),
        text::split(key, '.') == seq![group, field] && is_group(group) && field_kind(group, field)
            == Some(SettingKind::Text) ==> setting_fault(key, value) is None,
{
}

/// An error reports the fault that it is named after, and its sentence names what it is about.
pub proof fn setting_errors_say_what_is_wrong(e: SettingError)
    ensures
        match e {
            SettingError::KeyFormat => e.fault() is KeyFormat && e.shown()
                == "setting key must be in 'group.field' format (e.g., 'general.log_level')"@,
            SettingError::UnknownGroup { group } => e.fault() == SettingFault::UnknownGroup(group@)
                && e.shown() == "unknown setting group '"@ + group@ + "'"@,
            SettingError::UnknownField { group, field } => e.fault()
                == SettingFault::UnknownField(group@, field@) && e.shown() == "unknown "@ + group@
                + " setting '"@ + field@ + "'"@,
            SettingError::InvalidBool { value } => e.fault() == SettingFault::InvalidBool(value@)
                && e.shown() == "invalid boolean value '"@ + value@
                + "'. Expected 'true' or 'false'"@,
            SettingError::InvalidInteger { value } => e.fault() == SettingFault::InvalidInteger(
                value@,
            ) && e.shown() == "invalid integer value '"@ + value@ + "'. Expected a number"@,
        },
{
}

/// A value is shown as it is written: a text letter for letter, a number in decimal, a truth value
/// as its word.
pub proof fn values_are_shown_as_written(s: Seq<char>, i: int)
    ensures
        value_text(SettingView::Text(s)) == s,
        value_text(SettingView::Integer(i)) == text::decimal(i),
        value_text(SettingView::Bool(true)) == "true"@,
        value_text(SettingView::Bool(false)) == "false"@,
{
}

} // verus!
