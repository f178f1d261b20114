use std::path::Path;

use pitchfork::cli::daemons::{
    is_project_config_path, resolve_project_config, ConfigPath, ConfigTarget, DaemonRun, Daemons,
};
use pitchfork::cli::list::{
    build_proxy_url, display_dir, format_url, to_port, CellColor, List, ListEntry, StatusFilter,
};
use pitchfork::cli::namespace::Namespace;
use pitchfork::cli::proxy::{
    chosen_cert, proxy_cert_path, proxy_status, proxy_status_lines, removal_report, validate_slug,
    Add, ProxiedDaemon, ProxyFacts, SlugEntry,
};
use pitchfork::daemon_id::DaemonId;
use pitchfork::daemon_status::DaemonStatus;
use pitchfork::settings::{
    AllSettings, SettingsApi, SettingsGeneral, SettingsIpc, SettingsLogs, SettingsProxy,
    SettingsSupervisor, SettingsTui, SettingsWeb,
};

fn s(text: &str) -> String {
    text.to_string()
}

fn id(text: &str) -> DaemonId {
    DaemonId::parse(text).unwrap()
}

fn settings() -> AllSettings {
    AllSettings {
        general: SettingsGeneral {
            autostop_delay: s("0s"),
            interval: s("10s"),
            log_level: s("info"),
            log_file_level: s("info"),
            mise: false,
            mise_bin: s(""),
            shell: s("sh -c"),
            startup_log_timestamps: false,
        },
        ipc: SettingsIpc {
            connect_attempts: 5,
            connect_min_delay: s("100ms"),
            connect_max_delay: s("1s"),
            request_timeout: s("5s"),
            rate_limit: 100,
            rate_limit_window: s("1s"),
        },
        logs: SettingsLogs {
            time_retention: s(""),
            line_retention: 0,
        },
        web: SettingsWeb {
            auto_start: false,
            bind_address: s("127.0.0.1"),
            bind_port: 3120,
            port_attempts: 10,
            log_lines: 100,
            base_path: s(""),
            sse_poll_interval: s("500ms"),
        },
        api: SettingsApi {
            auto_start: false,
            bind_address: s("127.0.0.1"),
            bind_port: 0,
            port_attempts: 10,
            token: s(""),
        },
        tui: SettingsTui {
            refresh_rate: s("2s"),
            tick_rate: s("100ms"),
            stat_history: 60,
            message_duration: s("10s"),
        },
        supervisor: SettingsSupervisor {
            ready_check_interval: s("500ms"),
            file_watch_debounce: s("1s"),
            log_flush_interval: s("500ms"),
            stop_timeout: s("5s"),
            restart_delay: s("100ms"),
            cron_check_interval: s("10s"),
            watch_interval: s("10s"),
            watch_poll_interval: s("500ms"),
            http_client_timeout: s("5s"),
            port_bump_attempts: 10,
            container: false,
            cleanup_orphans: true,
            user: s(""),
            cpu_violation_threshold: 3,
        },
        proxy: SettingsProxy {
            enable: true,
            tld: s("localhost"),
            host: s("127.0.0.1"),
            port: 443,
            https: true,
            tls_cert: s(""),
            tls_key: s(""),
            auto_trust: false,
            auto_start: false,
            auto_start_timeout: s("30s"),
            sync_hosts: false,
            wildcard: false,
            worktree: false,
            lan: false,
            lan_ip: s(""),
        },
    }
}

fn list() -> List {
    List {
        hide_header: false,
        dirs: false,
        json: false,
        status: vec![],
    }
}

fn entry(name: &str, status: DaemonStatus) -> ListEntry {
    ListEntry {
        id: id(name),
        status,
        status_text: s("running"),
        error: None,
        pid: Some(7),
        active_port: None,
        resolved_port: vec![],
        dir: None,
        slug: None,
        is_available: false,
        is_disabled: false,
    }
}

fn entries() -> Vec<ListEntry> {
    vec![
        ListEntry {
            active_port: Some(3000),
            slug: Some(s("api")),
            dir: Some(s("~/a")),
            ..entry("a/api", DaemonStatus::Running)
        },
        ListEntry {
            is_available: true,
            pid: None,
            ..entry("a/worker", DaemonStatus::Stopped)
        },
        ListEntry {
            status_text: s("errored"),
            error: Some(s("exit code 127")),
            is_disabled: true,
            ..entry("a/db", DaemonStatus::Errored)
        },
        ListEntry {
            status_text: s("stopped"),
            is_disabled: true,
            ..entry("a/old", DaemonStatus::Stopped)
        },
    ]
}

#[test]
fn ports_are_in_range() {
    assert_eq!(to_port(0), None);
    assert_eq!(to_port(-1), None);
    assert_eq!(to_port(65535), Some(65535));
    assert_eq!(to_port(65536), None);
}

#[test]
fn urls_leave_out_the_usual_port() {
    assert_eq!(format_url(true, "h", 443), "https://h");
    assert_eq!(format_url(true, "h", 80), "https://h:80");
    assert_eq!(format_url(false, "h", 80), "http://h");
    assert_eq!(format_url(false, "h", 8080), "http://h:8080");
}

#[test]
fn proxied_daemons_have_a_url() {
    let mut settings = settings();
    assert_eq!(build_proxy_url(None, &settings), None);
    assert_eq!(
        build_proxy_url(Some("api"), &settings),
        Some(s("https://api.localhost"))
    );
    settings.proxy.port = 8443;
    assert_eq!(
        build_proxy_url(Some("api"), &settings),
        Some(s("https://api.localhost:8443"))
    );
    settings.proxy.https = false;
    settings.proxy.port = 80;
    assert_eq!(
        build_proxy_url(Some("api"), &settings),
        Some(s("http://api.localhost"))
    );
    settings.proxy.port = 0;
    assert_eq!(build_proxy_url(Some("api"), &settings), None);
}

#[test]
fn rows_show_state_and_extras() {
    let rows = list().rows(&entries(), &settings());
    assert_eq!(rows.len(), 4);
    assert_eq!(rows[0].status, "running");
    assert!(matches!(rows[0].status_color, CellColor::Green));
    assert_eq!(rows[0].extra, "https://api.localhost");
    assert!(matches!(rows[0].extra_color, Some(CellColor::Cyan)));
    assert_eq!(rows[0].dir, None);
    assert_eq!(rows[1].status, "available");
    assert!(matches!(rows[1].status_color, CellColor::Cyan));
    assert_eq!(rows[1].extra, "");
    assert!(rows[1].extra_color.is_none());
    assert_eq!(rows[2].extra, "disabled  exit code 127");
    assert!(matches!(rows[2].extra_color, Some(CellColor::Red)));
    assert!(matches!(rows[3].extra_color, Some(CellColor::DarkGrey)));
    let with_dirs = List { dirs: true, ..list() };
    let rows = with_dirs.rows(&entries(), &settings());
    assert_eq!(rows[0].dir.as_deref(), Some("~/a"));
    assert_eq!(rows[1].dir.as_deref(), Some(""));
}

#[test]
fn namespaces_are_shown_where_names_are_shared() {
    let entries = vec![
        entry("frontend/api", DaemonStatus::Running),
        entry("backend/api", DaemonStatus::Stopped),
        entry("backend/db", DaemonStatus::Running),
    ];
    let names = |list: List| {
        list.rows(&entries, &settings())
            .iter()
            .map(|r| r.shown_name())
            .collect::<Vec<_>>()
    };
    assert_eq!(names(list()), vec!["frontend/api", "backend/api", "db"]);
    let running = List {
        status: vec![StatusFilter::Running],
        ..list()
    };
    assert_eq!(names(running), vec!["frontend/api", "db"]);
}

#[test]
fn status_filters_are_alternatives() {
    let names = |filters: Vec<StatusFilter>| {
        let list = List {
            status: filters,
            ..list()
        };
        list.rows(&entries(), &settings())
            .into_iter()
            .map(|r| r.id.name().to_string())
            .collect::<Vec<_>>()
    };
    assert_eq!(names(vec![]), vec!["api", "worker", "db", "old"]);
    assert_eq!(names(vec![StatusFilter::Running]), vec!["api"]);
    assert_eq!(names(vec![StatusFilter::Stopped]), vec!["old"]);
    assert_eq!(
        names(vec![StatusFilter::Available, StatusFilter::Stopped]),
        vec!["worker", "old"]
    );
    assert_eq!(names(vec![StatusFilter::Disabled]), vec!["db", "old"]);
    assert_eq!(names(vec![StatusFilter::Errored]), vec!["db"]);
    assert!(names(vec![StatusFilter::Failed, StatusFilter::Waiting, StatusFilter::Stopping])
        .is_empty());
}

#[test]
fn json_holds_every_field() {
    let json = list().json_entries(&entries(), &settings());
    assert_eq!(json[0].id, "a/api");
    assert_eq!(json[0].namespace, "a");
    assert_eq!(json[0].name, "api");
    assert_eq!(json[0].pid, Some(7));
    assert_eq!(json[0].active_port, Some(3000));
    assert_eq!(json[0].proxy_url.as_deref(), Some("https://api.localhost"));
    assert_eq!(json[1].status, "available");
    assert!(json[1].available);
    assert_eq!(json[2].error.as_deref(), Some("exit code 127"));
    assert!(json[2].disabled);
    let mut off = settings();
    off.proxy.enable = false;
    assert!(list().json_entries(&entries(), &off)[0].proxy_url.is_none());
}

#[test]
fn headers_are_for_people() {
    assert_eq!(list().header(true).unwrap(), vec!["Name", "Status", ""]);
    assert!(list().header(false).is_none());
    let dirs = List { dirs: true, ..list() };
    assert_eq!(dirs.header(true).unwrap(), vec!["Name", "Status", "Dir", ""]);
    let hidden = List {
        hide_header: true,
        ..list()
    };
    assert!(hidden.header(true).is_none());
}

#[test]
fn home_is_contracted() {
    assert_eq!(display_dir("/home/u/src/myproj", "/home/u"), "~/src/myproj");
    assert_eq!(display_dir("/home/u2/x", "/home/u"), "/home/u2/x");
    assert_eq!(display_dir("/home/u", "/home/u/"), "~/");
    assert_eq!(display_dir("/home/./u//src/x/", "/home/u"), "~/src/x");
    assert_eq!(display_dir("/srv/a", "/home/u"), "/srv/a");
}

fn facts() -> ProxyFacts {
    ProxyFacts {
        default_cert: s("/state/proxy/ca.pem"),
        trusted: false,
        slugs: vec![],
        state: Some(vec![]),
        config: Some(vec![]),
    }
}

fn slug(name: &str, daemon: Option<&str>, namespace: Option<&str>) -> SlugEntry {
    SlugEntry {
        slug: s(name),
        daemon: daemon.map(s),
        dir: Some(s("/p")),
        namespace: namespace.map(s),
    }
}

#[test]
fn a_disabled_proxy_is_reported() {
    let mut off = settings();
    off.proxy.enable = false;
    let status = proxy_status(&off, &facts());
    assert!(!status.enabled);
    assert!(status.port.is_none() && status.slugs.is_empty());
    let lines = proxy_status_lines(&status, off.proxy.port);
    assert_eq!(lines[0], "Proxy: disabled");
    assert_eq!(lines.len(), 5);
}

#[test]
fn a_port_out_of_range_is_reported() {
    let mut odd = settings();
    odd.proxy.port = 70000;
    let status = proxy_status(&odd, &facts());
    assert!(status.enabled && status.port.is_none());
    assert_eq!(
        proxy_status_lines(&status, 70000),
        vec![
            "Proxy: enabled",
            "  proxy.port 70000 is out of valid port range (1-65535)"
        ]
    );
}

#[test]
fn slugs_are_looked_up() {
    let running = ProxiedDaemon {
        id: id("a/api"),
        running: true,
        status_text: s("whatever"),
        active_port: None,
        resolved_port: vec![4000, 4001],
    };
    let stopped = ProxiedDaemon {
        id: id("b/web"),
        running: false,
        status_text: s("stopped"),
        active_port: Some(5000),
        resolved_port: vec![],
    };
    let facts = ProxyFacts {
        slugs: vec![
            slug("api", None, Some("a")),
            slug("www", Some("web"), None),
            slug("conf", None, Some("c")),
            slug("none", None, Some("a")),
        ],
        state: Some(vec![running, stopped]),
        config: Some(vec![id("c/conf")]),
        ..facts()
    };
    let status = proxy_status(&settings(), &facts);
    let shown: Vec<(String, String, Option<u16>)> = status
        .slugs
        .iter()
        .map(|e| (e.daemon.clone(), e.status.clone(), e.port))
        .collect();
    assert_eq!(
        shown,
        vec![
            (s("api"), s("running"), Some(4000)),
            (s("web"), s("stopped"), Some(5000)),
            (s("conf"), s("available"), None),
            (s("none"), s("unconfigured"), None),
        ]
    );
    assert_eq!(status.slugs[0].url, "https://api.localhost");
    assert_eq!(
        status.tls_cert.as_deref(),
        Some("/state/proxy/ca.pem (auto-generated)")
    );
    assert_eq!(status.trusted, Some(false));
    let lines = proxy_status_lines(&status, 443);
    assert_eq!(lines[0], "Proxy: enabled");
    assert!(lines.contains(&s("  Scheme:  https")));
    assert!(lines.contains(&s("  Trusted: no (run: pitchfork proxy trust)")));
    assert!(lines.contains(&s("    Status: running (port 4000)")));
    assert!(lines.contains(&s("    Status: available")));
}

#[test]
fn without_state_the_status_is_unknown() {
    let unknown = ProxyFacts {
        slugs: vec![SlugEntry {
            dir: None,
            ..slug("api", None, None)
        }],
        state: None,
        ..facts()
    };
    let status = proxy_status(&settings(), &unknown);
    assert_eq!(status.slugs[0].status, "unknown");
    assert_eq!(status.slugs[0].dir, "(unresolved)");
}

#[test]
fn the_local_network_has_its_own_domain() {
    let mut lan = settings();
    lan.proxy.lan = true;
    lan.proxy.https = false;
    lan.proxy.port = 80;
    let status = proxy_status(&lan, &facts());
    assert_eq!(status.tld.as_deref(), Some("local"));
    assert_eq!(status.lan.unwrap().ip, "auto-detect");
    assert!(status.tls_cert.is_none() && status.trusted.is_none());
    lan.proxy.lan = false;
    lan.proxy.lan_ip = s("10.0.0.2");
    let status = proxy_status(&lan, &facts());
    let lines = proxy_status_lines(&status, 80);
    assert!(lines.contains(&s("  LAN:     enabled (IP: 10.0.0.2)")));
    assert!(lines.contains(&s("No slugs registered.")));
}

#[test]
fn certificates_have_a_place() {
    assert_eq!(chosen_cert(Some("/x.pem"), "/d.pem"), "/x.pem");
    assert_eq!(chosen_cert(None, "/d.pem"), "/d.pem");
    let mut own = settings();
    assert_eq!(proxy_cert_path(&own, "/d.pem"), "/d.pem");
    own.proxy.tls_cert = s("/own.pem");
    assert_eq!(proxy_cert_path(&own, "/d.pem"), "/own.pem");
}

#[test]
fn slugs_are_validated() {
    assert!(validate_slug("my-api_1").is_ok());
    assert_eq!(validate_slug("").unwrap_err(), "Slug must be non-empty.");
    assert!(validate_slug("a.b").unwrap_err().contains("contains a dot"));
    assert!(validate_slug("a b").unwrap_err().contains("invalid characters"));
    assert!(validate_slug("\u{e9}").unwrap_err().contains("invalid characters"));
}

fn add(daemon: Option<&str>, namespace: Option<&str>) -> Add {
    Add {
        slug: s("api"),
        dir: None,
        daemon: daemon.map(s),
        namespace: namespace.map(s),
    }
}

#[test]
fn added_slugs_are_reported() {
    assert_eq!(add(None, Some("n")).resolve_namespace(Some("d"), "/p").unwrap(), "n");
    assert_eq!(add(None, None).resolve_namespace(Some("d"), "/p").unwrap(), "d");
    assert!(add(None, None)
        .resolve_namespace(None, "/p")
        .unwrap_err()
        .starts_with("Cannot derive a namespace for '/p'."));
    assert_eq!(add(Some("api"), None).stored_daemon(), None);
    assert_eq!(add(Some("server"), None).stored_daemon(), Some(s("server")));
    assert_eq!(add(None, None).stored_daemon(), None);
    assert_eq!(
        add(Some("server"), None).report("n", "/c.toml", &settings()),
        vec![
            "Added slug 'api' \u{2192} namespace 'n' (daemon: server)",
            "  Config: /c.toml",
            "  URL:    https://api.localhost"
        ]
    );
    let mut off = settings();
    off.proxy.enable = false;
    assert_eq!(add(None, None).report("n", "/c.toml", &off).len(), 2);
}

#[test]
fn removed_slugs_are_reported() {
    assert!(removal_report("api", true).contains("api"));
    assert_ne!(removal_report("api", true), removal_report("api", false));
}

fn config(name: &str, exists: bool) -> ConfigPath {
    ConfigPath {
        file_name: Some(s(name)),
        exists,
    }
}

#[test]
fn config_files_are_chosen() {
    let paths = vec![
        config("config.toml", true),
        config("pitchfork.toml", true),
        config("pitchfork.toml", true),
        config("pitchfork.local.toml", false),
    ];
    assert!(!is_project_config_path(&paths[0]));
    assert!(is_project_config_path(&paths[1]) && is_project_config_path(&paths[3]));
    let target = |local, project, filter| resolve_project_config(&paths, local, project, filter);
    assert_eq!(target(false, false, false).unwrap(), ConfigTarget::Listed(2));
    assert_eq!(target(false, true, true).unwrap(), ConfigTarget::Listed(2));
    assert_eq!(target(true, false, false).unwrap(), ConfigTarget::LocalBeside(2));
    assert_eq!(target(true, false, true).unwrap(), ConfigTarget::LocalBeside(2));
    assert_eq!(
        target(true, true, false).unwrap_err(),
        "cannot specify both --local and --project"
    );
    let nested = vec![
        config("pitchfork.toml", true),
        config("pitchfork.local.toml", true),
        config("pitchfork.toml", false),
    ];
    assert_eq!(
        resolve_project_config(&nested, true, false, false).unwrap(),
        ConfigTarget::LocalBeside(2)
    );
    assert_eq!(
        resolve_project_config(&nested, true, false, true).unwrap(),
        ConfigTarget::LocalBeside(0)
    );
    let none = vec![];
    assert_eq!(
        resolve_project_config(&none, true, false, false).unwrap(),
        ConfigTarget::LocalHere
    );
    assert_eq!(
        resolve_project_config(&none, false, false, false).unwrap(),
        ConfigTarget::ProjectHere
    );
}

#[test]
fn configured_daemons_are_listed() {
    let daemons = Daemons { json: false };
    assert_eq!(daemons.lines(&vec![]), vec!["No daemons configured."]);
    let runs = vec![DaemonRun {
        id: id("a/api"),
        run: s("npm start"),
    }];
    assert_eq!(daemons.lines(&runs), vec!["a/api\tnpm start"]);
    let json = daemons.entries(&runs);
    assert_eq!(json[0].id, "a/api");
    assert_eq!(json[0].run, "npm start");
}

#[test]
fn the_namespace_is_printed() {
    assert_eq!(Namespace {}.output("my-project"), "my-project");
}

#[test]
fn directories_are_contracted_as_paths_are() {
    let paths = [
        "", "/", "//", ".", "..", "./", "./a", "a", "a/", "a/b", "a//b", "a/./b", "a/b/.", "a/../b",
        "/a", "/a/", "//a", "/./a", "/a/b", "/a//b/", "/a/b/c", "/ab", "/a b/c", "/.", "/.a/b",
    ];
    for dir in paths {
        for home in paths {
            let expected = match Path::new(dir).strip_prefix(home) {
                Ok(rest) => format!("~/{}", rest.display()),
                Err(_) => dir.to_string(),
            };
            assert_eq!(display_dir(dir, home), expected, "{dir} in {home}");
        }
    }
}
