use pitchfork::cli::settings::{
    all_entries, levenshtein_distance, show_all_settings, validate_setting_key,
    validate_setting_value, GetCmd, ListCmd, SetCmd, SettingMeta, SettingTarget,
};
use pitchfork::settings::{
    parse_bool_value, parse_int_value, AllSettings, SettingError, SettingsApi, SettingsApiPartial,
    SettingsGeneral, SettingsGeneralPartial, SettingsIpc, SettingsIpcPartial, SettingsLogs,
    SettingsLogsPartial, SettingsPartial, SettingsProxy, SettingsProxyPartial, SettingsSupervisor,
    SettingsSupervisorPartial, SettingsTui, SettingsTuiPartial, SettingsWeb, SettingsWebPartial,
};

fn s(text: &str) -> String {
    text.to_string()
}

fn settings() -> AllSettings {
    AllSettings {
        general: SettingsGeneral {
            autostop_delay: s("0s"),
            interval: s("10s"),
            log_level: s("debug"),
            log_file_level: s("info"),
            mise: true,
            mise_bin: s(""),
            shell: s("sh -c"),
            startup_log_timestamps: false,
        },
        ipc: SettingsIpc {
            connect_attempts: 5,
            connect_min_delay: s("100ms"),
            connect_max_delay: s("1s"),
            request_timeout: s("5s"),
            rate_limit: 100,
            rate_limit_window: s("1s"),
        },
        logs: SettingsLogs {
            time_retention: s("7d"),
            line_retention: -1,
        },
        web: SettingsWeb {
            auto_start: false,
            bind_address: s("127.0.0.1"),
            bind_port: 3120,
            port_attempts: 10,
            log_lines: 100,
            base_path: s(""),
            sse_poll_interval: s("500ms"),
        },
        api: SettingsApi {
            auto_start: false,
            bind_address: s("127.0.0.1"),
            bind_port: 0,
            port_attempts: 10,
            token: s("t"),
        },
        tui: SettingsTui {
            refresh_rate: s("2s"),
            tick_rate: s("100ms"),
            stat_history: 60,
            message_duration: s("10s"),
        },
        supervisor: SettingsSupervisor {
            ready_check_interval: s("500ms"),
            file_watch_debounce: s("1s"),
            log_flush_interval: s("500ms"),
            stop_timeout: s("5s"),
            restart_delay: s("100ms"),
            cron_check_interval: s("10s"),
            watch_interval: s("10s"),
            watch_poll_interval: s("500ms"),
            http_client_timeout: s("5s"),
            port_bump_attempts: 10,
            container: false,
            cleanup_orphans: true,
            user: s("me"),
            cpu_violation_threshold: 3,
        },
        proxy: SettingsProxy {
            enable: true,
            tld: s("localhost"),
            host: s("127.0.0.1"),
            port: 443,
            https: true,
            tls_cert: s(""),
            tls_key: s(""),
            auto_trust: false,
            auto_start: false,
            auto_start_timeout: s("30s"),
            sync_hosts: false,
            wildcard: false,
            worktree: false,
            lan: false,
            lan_ip: s(""),
        },
    }
}

fn partial() -> SettingsPartial {
    SettingsPartial {
        general: SettingsGeneralPartial {
            autostop_delay: None,
            interval: None,
            log_level: None,
            log_file_level: None,
            mise: None,
            mise_bin: None,
            shell: None,
            startup_log_timestamps: None,
        },
        ipc: SettingsIpcPartial {
            connect_attempts: None,
            connect_min_delay: None,
            connect_max_delay: None,
            request_timeout: None,
            rate_limit: None,
            rate_limit_window: None,
        },
        logs: SettingsLogsPartial {
            time_retention: None,
            line_retention: None,
        },
        web: SettingsWebPartial {
            auto_start: None,
            bind_address: None,
            bind_port: None,
            port_attempts: None,
            log_lines: None,
            base_path: None,
            sse_poll_interval: None,
        },
        api: SettingsApiPartial {
            auto_start: None,
            bind_address: None,
            bind_port: None,
            port_attempts: None,
            token: None,
        },
        tui: SettingsTuiPartial {
            refresh_rate: None,
            tick_rate: None,
            stat_history: None,
            message_duration: None,
        },
        supervisor: SettingsSupervisorPartial {
            ready_check_interval: None,
            file_watch_debounce: None,
            log_flush_interval: None,
            stop_timeout: None,
            restart_delay: None,
            cron_check_interval: None,
            watch_interval: None,
            watch_poll_interval: None,
            http_client_timeout: None,
            port_bump_attempts: None,
            container: None,
            cleanup_orphans: None,
            user: None,
            cpu_violation_threshold: None,
        },
        proxy: SettingsProxyPartial {
            enable: None,
            tld: None,
            host: None,
            port: None,
            https: None,
            tls_cert: None,
            tls_key: None,
            auto_trust: None,
            auto_start: None,
            auto_start_timeout: None,
            sync_hosts: None,
            wildcard: None,
            worktree: None,
            lan: None,
            lan_ip: None,
        },
    }
}

fn meta() -> Vec<SettingMeta> {
    let entry = |key: &str, typ: &str, default: Option<&str>, env: Option<&str>, text: &str| {
        SettingMeta {
            key: s(key),
            typ: s(typ),
            default_value: default.map(s),
            env_var: env.map(s),
            description: s(text),
        }
    };
    vec![
        entry("general.log_level", "String", Some("info"), Some("PITCHFORK_LOG"), "Level\nmore"),
        entry("general.mise_bin", "Path", Some(""), None, ""),
        entry("web.auto_start", "Bool", Some("false"), None, "Start it"),
        entry("web.bind_port", "Integer", None, None, "Port"),
        entry("web.sse_poll_interval", "Duration", Some("500ms"), None, "Pause"),
    ]
}

#[test]
fn distances_are_those_of_levenshtein() {
    assert_eq!(levenshtein_distance("", ""), 0);
    assert_eq!(levenshtein_distance("abc", ""), 3);
    assert_eq!(levenshtein_distance("", "ab"), 2);
    assert_eq!(levenshtein_distance("kitten", "sitting"), 3);
    assert_eq!(levenshtein_distance("flaw", "lawn"), 2);
    assert_eq!(levenshtein_distance("lawn", "flaw"), 2);
    assert_eq!(levenshtein_distance("same", "same"), 0);
}

#[test]
fn keys_are_checked() {
    assert!(validate_setting_key("web.auto_start", &meta()).is_ok());
    assert_eq!(
        validate_setting_key("general.log_lvl", &meta()).unwrap_err(),
        "unknown setting 'general.log_lvl'. Did you mean one of: general.log_level?"
    );
    assert_eq!(
        validate_setting_key("web.", &meta()).unwrap_err(),
        "unknown setting 'web.'. Did you mean one of: web.auto_start, web.bind_port, \
         web.sse_poll_interval?"
    );
    assert_eq!(
        validate_setting_key("nonsense", &meta()).unwrap_err(),
        "unknown setting 'nonsense'. Run 'pitchfork settings list' to see all available settings"
    );
}

#[test]
fn values_are_checked() {
    assert!(validate_setting_value("k", "true", "Bool").is_ok());
    assert_eq!(
        validate_setting_value("k", "yes", "Bool").unwrap_err(),
        "invalid boolean value 'yes' for 'k'. Expected 'true' or 'false'"
    );
    assert!(validate_setting_value("k", "-12", "Integer").is_ok());
    assert_eq!(
        validate_setting_value("k", "1.5", "Integer").unwrap_err(),
        "invalid integer value '1.5' for 'k'. Expected a number"
    );
    assert!(validate_setting_value("k", "500ms", "Duration").is_ok());
    assert!(validate_setting_value("k", "31536000000000000ns", "Duration").is_ok());
    assert!(validate_setting_value("k", "soon", "Duration")
        .unwrap_err()
        .starts_with("invalid duration value 'soon' for 'k'."));
    assert!(validate_setting_value("k", "anything", "String").is_ok());
    assert!(validate_setting_value("general.log_level", "warn", "String").is_ok());
    assert_eq!(
        validate_setting_value("general.log_level", "loud", "String").unwrap_err(),
        "invalid log level 'loud' for 'general.log_level'. Expected one of: trace, debug, info, \
         warn, error"
    );
}

fn set(key: &str, value: &str, global: bool, local: bool, project: bool) -> SetCmd {
    SetCmd {
        key: s(key),
        value: s(value),
        global,
        local,
        project,
    }
}

#[test]
fn set_checks_and_reports() {
    assert!(set("web.auto_start", "true", false, false, false).validate(&meta()).is_ok());
    assert!(set("web.auto_start", "1", false, false, false).validate(&meta()).is_err());
    assert!(set("web.auto", "true", false, false, false).validate(&meta()).is_err());
    let target = |g, l, p| set("web.auto_start", "true", g, l, p).target();
    assert!(matches!(target(true, false, false), Ok(SettingTarget::Global)));
    assert!(matches!(
        target(false, true, false),
        Ok(SettingTarget::Project {
            local: true,
            project: false
        })
    ));
    assert!(target(true, true, false).is_err());
    assert!(target(true, false, true).is_err());
    assert_eq!(
        set("web.auto_start", "true", true, false, false).report("/c.toml"),
        "set web.auto_start = true in /c.toml"
    );
}

#[test]
fn settings_are_listed() {
    let all = ListCmd {
        group: None,
        json: false,
    };
    assert_eq!(
        all.lines(&meta()),
        vec![
            "general.log_level (String) default=info [PITCHFORK_LOG]",
            "  Level",
            "general.mise_bin (Path) default=",
            "web.auto_start (Bool) default=false",
            "  Start it",
            "web.bind_port (Integer) default=(none)",
            "  Port",
            "web.sse_poll_interval (Duration) default=500ms",
            "  Pause",
        ]
    );
    let general = ListCmd {
        group: Some(s("general")),
        json: true,
    };
    let entries = general.entries(&meta(), &settings());
    assert_eq!(entries.len(), 2);
    assert_eq!(entries[0].value, "debug");
    assert_eq!(entries[0].default.as_deref(), Some("info"));
    assert_eq!(entries[0].kind.as_deref(), Some("String"));
    assert_eq!(entries[0].env_var.as_deref(), Some("PITCHFORK_LOG"));
    let gen = ListCmd {
        group: Some(s("gen")),
        json: false,
    };
    assert!(gen.lines(&meta()).is_empty());
}

#[test]
fn a_setting_is_shown() {
    let get = |key: &str| {
        GetCmd {
            key: s(key),
            json: false,
        }
        .entry(&meta(), &settings())
    };
    assert_eq!(get("web.bind_port").unwrap().value, "3120");
    assert!(get("web.bind_prt").is_err());
}

#[test]
fn all_settings_are_shown() {
    assert_eq!(
        show_all_settings(&meta(), &settings()),
        vec![
            "[settings.general]",
            "log_level = debug",
            "# mise_bin  (default: empty)",
            "",
            "[settings.web]",
            "# auto_start = false  (default)",
            "bind_port = 3120",
            "# sse_poll_interval = 500ms  (default)",
        ]
    );
    assert_eq!(all_entries(&meta(), &settings()).len(), 5);
}

#[test]
fn values_are_read_from_every_group() {
    let settings = settings();
    let cases = [
        ("general.mise", "true"),
        ("ipc.rate_limit", "100"),
        ("logs.line_retention", "-1"),
        ("web.base_path", ""),
        ("api.token", "t"),
        ("tui.stat_history", "60"),
        ("supervisor.user", "me"),
        ("proxy.tld", "localhost"),
        ("proxy.unknown", ""),
        ("nothing.at_all", ""),
        ("a.b.c", ""),
        ("plain", ""),
    ];
    for (key, value) in cases {
        assert_eq!(settings.get_setting_value(key), value, "{key}");
    }
}

#[test]
fn changed_settings_are_kept() {
    let mut p = partial();
    p.apply_setting("general.log_level", "warn").unwrap();
    p.apply_setting("web.auto_start", "true").unwrap();
    p.apply_setting("proxy.port", "8080").unwrap();
    assert_eq!(p.general.log_level.as_deref(), Some("warn"));
    assert_eq!(p.web.auto_start, Some(true));
    assert_eq!(p.proxy.port, Some(8080));
    assert_eq!(p.proxy.tld, None);
}

#[test]
fn shown_values_can_be_set() {
    let settings = settings();
    let mut p = partial();
    for key in ["general.shell", "ipc.rate_limit", "proxy.https", "logs.line_retention"] {
        p.apply_setting(key, &settings.get_setting_value(key)).unwrap();
    }
    assert_eq!(p.general.shell, Some(settings.general.shell));
    assert_eq!(p.ipc.rate_limit, Some(settings.ipc.rate_limit));
    assert_eq!(p.proxy.https, Some(settings.proxy.https));
    assert_eq!(p.logs.line_retention, Some(settings.logs.line_retention));
}

#[test]
fn settings_that_do_not_exist_are_refused() {
    let mut p = partial();
    assert!(matches!(
        p.apply_setting("general", "x"),
        Err(SettingError::KeyFormat)
    ));
    assert!(matches!(
        p.apply_setting("no.such", "x"),
        Err(SettingError::UnknownGroup { .. })
    ));
    assert!(matches!(
        p.apply_setting("web.such", "x"),
        Err(SettingError::UnknownField { .. })
    ));
    let e = p.apply_setting("web.auto_start", "maybe").unwrap_err();
    assert!(e.message().contains("maybe"));
    let e = p.apply_setting("web.bind_port", "many").unwrap_err();
    assert!(e.message().contains("many"));
    assert!(p.web.auto_start.is_none() && p.web.bind_port.is_none());
}

#[test]
fn plain_values_are_parsed() {
    assert!(parse_bool_value("true").unwrap());
    assert!(!parse_bool_value("false").unwrap());
    assert!(parse_bool_value("TRUE").is_err());
    assert_eq!(parse_int_value("-9223372036854775808").unwrap(), i64::MIN);
    assert_eq!(parse_int_value("+7").unwrap(), 7);
    assert!(parse_int_value("9223372036854775808").is_err());
    assert!(parse_int_value("").is_err());
    assert!(parse_int_value("-").is_err());
}
