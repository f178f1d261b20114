//! The `proxy` command: the state of the proxy and the slugs that it serves.
use crate::cli::json_output::{JsonLanInfo, JsonProxyStatus, JsonSlugEntry};
use crate::cli::list;
use crate::cli::list::{format_url, to_port};
use crate::daemon_id::DaemonId;
use crate::settings::AllSettings;
use crate::text;
use crate::text::{chars_of, contains_char, int_text, nat_text, text_eq};
use vstd::prelude::*;

verus! {

/// Manage the pitchfork reverse proxy
#[derive(Debug)]
pub struct Proxy {
    pub command: ProxyCommands,
}

/// The subcommands.
#[derive(Debug)]
pub enum ProxyCommands {
    /// Install the proxy's TLS certificate into the system trust store
    Trust {
        /// Path to the certificate file to trust
        cert: Option<String>,
    },
    /// Remove the proxy's TLS certificate from the system trust store
    Untrust {
        /// Path to the certificate file
        cert: Option<String>,
    },
    /// Show all registered slugs and their current state
    Status {
        /// Output in JSON format
        json: bool,
    },
    /// Add a slug mapping to the global config
    Add(Add),
    /// Remove a slug mapping from the global config
    Remove {
        /// The slug name to remove
        slug: String,
    },
}

/// The certificate that is meant: the one that is named, else the one of the supervisor.
pub fn chosen_cert(cert: Option<&str>, default_path: &str) -> (r: String)
    ensures
        r@ == match cert {
            Some(c) => c@,
            None => default_path@,
        },
{
    match cert {
        Some(c) => c.to_string(),
        None => default_path.to_string(),
    }
}

/// Whether the proxy serves the local network.
pub open spec fn lan_enabled(s: AllSettings) -> bool {
    s.proxy.lan || s.proxy.lan_ip@.len() > 0
}

/// The top-level domain of the proxy; on the local network it is `local`.
pub open spec fn proxy_tld(s: AllSettings) -> Seq<char> {
    if lan_enabled(s) {
        "local"@
    } else {
        s.proxy.tld@
    }
}

/// The URL of a slug on a port.
pub open spec fn slug_url(slug: Seq<char>, s: AllSettings, port: u16) -> Seq<char> {
    list::url_at(s.proxy.https, slug + "."@ + proxy_tld(s), port)
}

fn on_lan(s: &AllSettings) -> (r: bool)
    ensures
        r == lan_enabled(*s),
{
    s.proxy.lan || !s.proxy.lan_ip.as_str().is_empty()
}

fn tld_of(s: &AllSettings) -> (r: String)
    ensures
        r@ == proxy_tld(*s),
{
    if on_lan(s) {
        "local".to_string()
    } else {
        s.proxy.tld.clone()
    }
}

fn url_of_slug(slug: &str, s: &AllSettings, port: u16) -> (r: String)
    ensures
        r@ == slug_url(slug@, *s, port),
{
    let host = slug.to_string().concat(".").concat(tld_of(s).as_str());
    format_url(s.proxy.https, host.as_str(), port)
}

/// The certificate of the proxy, which is looked up in the trust store: the one of the settings,
/// else the one of the supervisor.
pub fn proxy_cert_path(s: &AllSettings, default_path: &str) -> (r: String)
    ensures
        r@ == if s.proxy.tls_cert@.len() == 0 {
            default_path@
        } else {
            s.proxy.tls_cert@
        },
{
    if s.proxy.tls_cert.as_str().is_empty() {
        default_path.to_string()
    } else {
        s.proxy.tls_cert.clone()
    }
}

/// A slug of the global config.
#[derive(Debug)]
pub struct SlugEntry {
    pub slug: String,
    /// The name of its daemon, where that is not the slug.
    pub daemon: Option<String>,
    /// Its directory, where it can be told.
    pub dir: Option<String>,
    /// The namespace of that directory, where it can be told.
    pub namespace: Option<String>,
}

/// A daemon as the supervisor knows it.
#[derive(Debug)]
pub struct ProxiedDaemon {
    pub id: DaemonId,
    pub running: bool,
    /// The words for its state.
    pub status_text: String,
    pub active_port: Option<u16>,
    pub resolved_port: Vec<u16>,
}

/// The name of the daemon of a slug.
pub open spec fn daemon_name(e: SlugEntry) -> Seq<char> {
    match e.daemon {
        Some(d) => d@,
        None => e.slug@,
    }
}

/// Whether a daemon is the one of a slug: it has its name, and its namespace where that is known.
pub open spec fn is_daemon_of(id: (Seq<char>, Seq<char>), e: SlugEntry) -> bool {
    id.1 == daemon_name(e) && (e.namespace matches Some(ns) ==> id.0 == ns@)
}

fn serves(id: &DaemonId, e: &SlugEntry) -> (r: bool)
    ensures
        r == is_daemon_of(id@, *e),
{
    let name = match &e.daemon {
        Some(d) => d.as_str(),
        None => e.slug.as_str(),
    };
    text_eq(id.name(), name) && match &e.namespace {
        Some(ns) => text_eq(id.namespace(), ns.as_str()),
        None => true,
    }
}

/// The port of a daemon: the one in use, else the first that it was given.
pub open spec fn port_of(d: ProxiedDaemon) -> Option<u16> {
    match d.active_port {
        Some(p) => Some(p),
        None => if d.resolved_port@.len() > 0 {
            Some(d.resolved_port@[0])
        } else {
            None
        },
    }
}

/// The words for the state of a daemon.
pub open spec fn state_of(d: ProxiedDaemon) -> Seq<char> {
    if d.running {
        "running"@
    } else {
        d.status_text@
    }
}

/// The first daemon of a slug, from a position on.
pub open spec fn first_daemon(state: Seq<ProxiedDaemon>, e: SlugEntry, from: int) -> Option<int>
    decreases state.len() - from,
{
    if from < 0 || from >= state.len() {
        None
    } else if is_daemon_of(state[from].id@, e) {
        Some(from)
    } else {
        first_daemon(state, e, from + 1)
    }
}

/// Whether the configuration has a daemon of a slug.
pub open spec fn is_configured(config: Option<Vec<DaemonId>>, e: SlugEntry) -> bool {
    config matches Some(ids) && has_daemon(ids@, e)
}

/// Whether a daemon of a slug is among some daemons.
pub open spec fn has_daemon(ids: Seq<DaemonId>, e: SlugEntry) -> bool {
    exists|i: int| 0 <= i < ids.len() && is_daemon_of((#[trigger] ids[i])@, e)
}

/// The words for the state of a slug, and its port.
pub open spec fn slug_state(
    e: SlugEntry,
    state: Option<Vec<ProxiedDaemon>>,
    config: Option<Vec<DaemonId>>,
) -> (Seq<char>, Option<u16>) {
    match state {
        None => ("unknown"@, None),
        Some(list) => match first_daemon(list@, e, 0) {
            Some(at) => (state_of(list@[at]), port_of(list@[at])),
            None => if is_configured(config, e) {
                ("available"@, None)
            } else {
                ("unconfigured"@, None)
            },
        },
    }
}

fn find_daemon(state: &Vec<ProxiedDaemon>, e: &SlugEntry) -> (r: Option<usize>)
    ensures
        match r {
            Some(at) => at < state@.len() && first_daemon(state@, *e, 0) == Some(at as int),
            None => first_daemon(state@, *e, 0) is None,
        },
{
    let mut i: usize = 0;
    while i < state.len()
        invariant
            i <= state@.len(),
            first_daemon(state@, *e, 0) == first_daemon(state@, *e, i as int),
        decreases state@.len() - i,
    {
        if serves(&state[i].id, e) {
            return Some(i);
        }
        i = i + 1;
    }
    None
}

fn any_serves(ids: &Vec<DaemonId>, e: &SlugEntry) -> (r: bool)
    ensures
        r == has_daemon(ids@, *e),
{
    let mut i: usize = 0;
    while i < ids.len()
        invariant
            i <= ids@.len(),
            forall|k: int| 0 <= k < i ==> !is_daemon_of((#[trigger] ids@[k])@, *e),
        decreases ids@.len() - i,
    {
        if serves(&ids[i], e) {
            return true;
        }
        i = i + 1;
    }
    false
}

fn configured(config: &Option<Vec<DaemonId>>, e: &SlugEntry) -> (r: bool)
    ensures
        r == is_configured(*config, *e),
{
    match config {
        None => false,
        Some(ids) => any_serves(ids, e),
    }
}

/// Whether a JSON entry shows a slug.
pub open spec fn slug_shown(
    j: JsonSlugEntry,
    e: SlugEntry,
    s: AllSettings,
    port: u16,
    state: Option<Vec<ProxiedDaemon>>,
    config: Option<Vec<DaemonId>>,
) -> bool {
    &&& j.slug@ == e.slug@
    &&& j.url@ == slug_url(e.slug@, s, port)
    &&& j.dir@ == match e.dir {
        Some(d) => d@,
        None => "(unresolved)"@,
    }
    &&& j.daemon@ == daemon_name(e)
    &&& (j.status@, j.port) == slug_state(e, state, config)
}

fn show_slug(
    e: &SlugEntry,
    s: &AllSettings,
    port: u16,
    state: &Option<Vec<ProxiedDaemon>>,
    config: &Option<Vec<DaemonId>>,
) -> (r: JsonSlugEntry)
    ensures
        slug_shown(r, *e, *s, port, *state, *config),
{
    let (status, daemon_port) = match state {
        None => ("unknown".to_string(), None),
        Some(list) => match find_daemon(list, e) {
            Some(at) => {
                let d = &list[at];
                let p = match d.active_port {
                    Some(p) => Some(p),
                    None => if d.resolved_port.len() > 0 {
                        Some(d.resolved_port[0])
                    } else {
                        None
                    },
                };
                if d.running {
                    ("running".to_string(), p)
                } else {
                    (d.status_text.clone(), p)
                }
            },
            None => if configured(config, e) {
                ("available".to_string(), None)
            } else {
                ("unconfigured".to_string(), None)
            },
        },
    };
    JsonSlugEntry {
        slug: e.slug.clone(),
        url: url_of_slug(e.slug.as_str(), s, port),
        dir: match &e.dir {
            Some(d) => d.clone(),
            None => "(unresolved)".to_string(),
        },
        daemon: match &e.daemon {
            Some(d) => d.clone(),
            None => e.slug.clone(),
        },
        status,
        port: daemon_port,
    }
}

/// What is known of the system around the proxy.
#[derive(Debug)]
pub struct ProxyFacts {
    /// The certificate of the supervisor.
    pub default_cert: String,
    /// Whether the certificate of the proxy is trusted.
    pub trusted: bool,
    pub slugs: Vec<SlugEntry>,
    /// The daemons that the supervisor knows, where that can be told.
    pub state: Option<Vec<ProxiedDaemon>>,
    /// The configured daemons, where they can be told.
    pub config: Option<Vec<DaemonId>>,
}

/// Whether nothing but whether the proxy is on is told.
pub open spec fn is_bare(j: JsonProxyStatus, enabled: bool) -> bool {
    &&& j.enabled == enabled
    &&& j.scheme is None
    &&& j.tld is None
    &&& j.port is None
    &&& j.lan is None
    &&& j.tls_cert is None
    &&& j.trusted is None
    &&& j.slugs@.len() == 0
}

/// The address on the local network that is told.
pub open spec fn lan_shown(lan: Option<JsonLanInfo>, s: AllSettings) -> bool {
    match lan {
        Some(info) => lan_enabled(s) && info.enabled && info.ip@ == if s.proxy.lan_ip@.len() > 0 {
            s.proxy.lan_ip@
        } else {
            "auto-detect"@
        },
        None => !lan_enabled(s),
    }
}

/// The certificate that is told.
pub open spec fn cert_text(s: AllSettings, default_cert: Seq<char>) -> Seq<char> {
    if s.proxy.tls_cert@.len() == 0 {
        default_cert + " (auto-generated)"@
    } else {
        s.proxy.tls_cert@
    }
}

/// Whether the state of the proxy is told: where it is off or its port is none, only that; else
/// all of it, with all slugs in order.
pub open spec fn status_shown(j: JsonProxyStatus, s: AllSettings, facts: ProxyFacts) -> bool {
    match valid_status_port(s) {
        None => is_bare(j, s.proxy.enable),
        Some(port) => {
            &&& j.enabled
            &&& text::opt_text(j.scheme) == Some(list::proxy_scheme(s.proxy.https))
            &&& text::opt_text(j.tld) == Some(proxy_tld(s))
            &&& j.port == Some(port)
            &&& lan_shown(j.lan, s)
            &&& text::opt_text(j.tls_cert) == if s.proxy.https {
                Some(cert_text(s, facts.default_cert@))
            } else {
                None
            }
            &&& j.trusted == if s.proxy.https {
                Some(facts.trusted)
            } else {
                None
            }
            &&& j.slugs@.len() == facts.slugs@.len()
            &&& forall|i: int|
                0 <= i < j.slugs@.len() ==> slug_shown(
                    #[trigger] j.slugs@[i],
                    facts.slugs@[i],
                    s,
                    port,
                    facts.state,
                    facts.config,
                )
        },
    }
}

/// The port of the proxy, where it is on and the port is one.
pub open spec fn valid_status_port(s: AllSettings) -> Option<u16> {
    if s.proxy.enable {
        list::valid_port(s.proxy.port as int)
    } else {
        None
    }
}

fn bare_status(enabled: bool) -> (r: JsonProxyStatus)
    ensures
        is_bare(r, enabled),
{
    JsonProxyStatus {
        enabled,
        scheme: None,
        tld: None,
        port: None,
        lan: None,
        tls_cert: None,
        trusted: None,
        slugs: Vec::new(),
    }
}

/// The state of the proxy.
pub fn proxy_status(s: &AllSettings, facts: &ProxyFacts) -> (r: JsonProxyStatus)
    ensures
        status_shown(r, *s, *facts),
{
    if !s.proxy.enable {
        return bare_status(false);
    }
    let port = match to_port(s.proxy.port) {
        Some(p) => p,
        None => {
            return bare_status(true);
        },
    };
    let lan = if on_lan(s) {
        Some(
            JsonLanInfo {
                enabled: true,
                ip: if s.proxy.lan_ip.as_str().is_empty() {
                    "auto-detect".to_string()
                } else {
                    s.proxy.lan_ip.clone()
                },
            },
        )
    } else {
        None
    };
    let tls_cert = if s.proxy.https {
        if s.proxy.tls_cert.as_str().is_empty() {
            Some(facts.default_cert.clone().concat(" (auto-generated)"))
        } else {
            Some(s.proxy.tls_cert.clone())
        }
    } else {
        None
    };
    let trusted = if s.proxy.https {
        Some(facts.trusted)
    } else {
        None
    };
    let mut slugs: Vec<JsonSlugEntry> = Vec::new();
    let mut i: usize = 0;
    while i < facts.slugs.len()
        invariant
            i <= facts.slugs@.len(),
            slugs@.len() == i,
            forall|k: int|
                0 <= k < i ==> slug_shown(
                    #[trigger] slugs@[k],
                    facts.slugs@[k],
                    *s,
                    port,
                    facts.state,
                    facts.config,
                ),
        decreases facts.slugs@.len() - i,
    {
        slugs.push(show_slug(&facts.slugs[i], s, port, &facts.state, &facts.config));
        i = i + 1;
    }
    let scheme = if s.proxy.https {
        "https".to_string()
    } else {
        "http".to_string()
    };
    JsonProxyStatus {
        enabled: true,
        scheme: Some(scheme),
        tld: Some(tld_of(s)),
        port: Some(port),
        lan,
        tls_cert,
        trusted,
        slugs,
    }
}

/// The lines about a slug.
pub open spec fn slug_lines(e: JsonSlugEntry) -> Seq<Seq<char>> {
    seq![
        "  "@ + e.slug@,
        "    URL:    "@ + e.url@,
        "    Dir:    "@ + e.dir@,
        "    Daemon: "@ + e.daemon@,
        "    Status: "@ + e.status@ + (match e.port {
            Some(p) => " (port "@ + text::decimal(p as int) + ")"@,
            None => ""@,
        }),
        ""@,
    ]
}

/// The lines about slugs.
pub open spec fn all_slug_lines(slugs: Seq<JsonSlugEntry>) -> Seq<Seq<char>>
    decreases slugs.len(),
{
    if slugs.len() == 0 {
        Seq::empty()
    } else {
        all_slug_lines(slugs.drop_last()) + slug_lines(slugs.last())
    }
}

/// The lines about a proxy that is off.
pub open spec fn disabled_lines() -> Seq<Seq<char>> {
    seq![
        "Proxy: disabled"@,
        ""@,
        "Enable with:"@,
        "  PITCHFORK_PROXY_ENABLE=true pitchfork supervisor start"@,
        "  # or in pitchfork.toml: [settings.proxy] / enable = true"@,
    ]
}

/// The lines about a proxy without slugs.
pub open spec fn no_slug_lines() -> Seq<Seq<char>> {
    seq![
        "No slugs registered."@,
        ""@,
        "Add a slug with:"@,
        "  pitchfork proxy add <slug>"@,
        "  pitchfork proxy add <slug> --dir /path/to/project --daemon <name>"@,
    ]
}

/// The line about something that is told, where it is.
pub open spec fn told_line(head: Seq<char>, value: Option<Seq<char>>) -> Seq<Seq<char>> {
    match value {
        Some(v) => seq![head + v],
        None => Seq::empty(),
    }
}

/// What is told of the local network.
pub open spec fn lan_line(lan: Option<JsonLanInfo>) -> Seq<Seq<char>> {
    match lan {
        Some(info) => seq!["  LAN:     enabled (IP: "@ + info.ip@ + ")"@],
        None => Seq::empty(),
    }
}

/// What is told of the trust in the certificate.
pub open spec fn trusted_line(trusted: Option<bool>) -> Seq<Seq<char>> {
    match trusted {
        Some(true) => seq!["  Trusted: yes"@],
        Some(false) => seq!["  Trusted: no (run: pitchfork proxy trust)"@],
        None => Seq::empty(),
    }
}

/// The lines about the proxy; `port_setting` is told where it is no port.
pub open spec fn status_lines(j: JsonProxyStatus, port_setting: int) -> Seq<Seq<char>> {
    if !j.enabled {
        disabled_lines()
    } else {
        match j.port {
            None => bad_port_lines(port_setting),
            Some(port) => head_lines(j, port) + slug_section(j.slugs@),
        }
    }
}

/// The lines about a port that is none.
pub open spec fn bad_port_lines(port_setting: int) -> Seq<Seq<char>> {
    seq![
        "Proxy: enabled"@,
        "  proxy.port "@ + text::decimal(port_setting)
            + " is out of valid port range (1-65535)"@,
    ]
}

/// The lines about how the proxy is reached.
pub open spec fn address_lines(j: JsonProxyStatus, port: u16) -> Seq<Seq<char>> {
    seq!["Proxy: enabled"@] + told_line("  Scheme:  "@, text::opt_text(j.scheme)) + told_line(
        "  TLD:     "@,
        text::opt_text(j.tld),
    ) + seq!["  Port:    "@ + text::decimal(port as int)] + lan_line(j.lan)
}

/// The lines before those about slugs.
pub open spec fn head_lines(j: JsonProxyStatus, port: u16) -> Seq<Seq<char>> {
    address_lines(j, port) + told_line("  TLS cert: "@, text::opt_text(j.tls_cert)) + trusted_line(
        j.trusted,
    ) + seq![""@]
}

/// The lines about slugs, with what stands before them.
pub open spec fn slug_section(slugs: Seq<JsonSlugEntry>) -> Seq<Seq<char>> {
    if slugs.len() == 0 {
        no_slug_lines()
    } else {
        seq!["Registered slugs:"@, ""@] + all_slug_lines(slugs)
    }
}

fn push_slug_lines(out: &mut Vec<String>, e: &JsonSlugEntry)
    ensures
        text::texts(final(out)@) == text::texts(old(out)@) + slug_lines(*e),
{
    let ghost before = text::texts(out@);
    let port = match e.port {
        Some(p) => " (port ".to_string().concat(nat_text(p as u64).as_str()).concat(")"),
        None => "".to_string(),
    };
    out.push("  ".to_string().concat(e.slug.as_str()));
    out.push("    URL:    ".to_string().concat(e.url.as_str()));
    out.push("    Dir:    ".to_string().concat(e.dir.as_str()));
    out.push("    Daemon: ".to_string().concat(e.daemon.as_str()));
    out.push("    Status: ".to_string().concat(e.status.as_str()).concat(port.as_str()));
    out.push("".to_string());
    assert(text::texts(out@) =~= before + slug_lines(*e));
}

fn push_told(out: &mut Vec<String>, head: &str, value: &Option<String>)
    ensures
        text::texts(final(out)@) == text::texts(old(out)@) + told_line(
            head@,
            text::opt_text(*value),
        ),
{
    let ghost before = text::texts(out@);
    if let Some(v) = value {
        out.push(head.to_string().concat(v.as_str()));
    }
    assert(text::texts(out@) =~= before + told_line(head@, text::opt_text(*value)));
}

fn push_line(out: &mut Vec<String>, line: &str)
    ensures
        text::texts(final(out)@) == text::texts(old(out)@).push(line@),
{
    let ghost before = text::texts(out@);
    out.push(line.to_string());
    assert(text::texts(out@) =~= before.push(line@));
}

fn push_disabled(out: &mut Vec<String>)
    ensures
        text::texts(final(out)@) == text::texts(old(out)@) + disabled_lines(),
{
    let ghost before = text::texts(out@);
    push_line(out, "Proxy: disabled");
    push_line(out, "");
    push_line(out, "Enable with:");
    push_line(out, "  PITCHFORK_PROXY_ENABLE=true pitchfork supervisor start");
    push_line(out, "  # or in pitchfork.toml: [settings.proxy] / enable = true");
    assert(text::texts(out@) =~= before + disabled_lines());
}

fn push_no_slugs(out: &mut Vec<String>)
    ensures
        text::texts(final(out)@) == text::texts(old(out)@) + no_slug_lines(),
{
    let ghost before = text::texts(out@);
    push_line(out, "No slugs registered.");
    push_line(out, "");
    push_line(out, "Add a slug with:");
    push_line(out, "  pitchfork proxy add <slug>");
    push_line(out, "  pitchfork proxy add <slug> --dir /path/to/project --daemon <name>");
    assert(text::texts(out@) =~= before + no_slug_lines());
}

fn push_address(out: &mut Vec<String>, j: &JsonProxyStatus, port: u16)
    ensures
        text::texts(final(out)@) == text::texts(old(out)@) + address_lines(*j, port),
{
    let ghost start = text::texts(out@);
    push_line(out, "Proxy: enabled");
    push_told(out, "  Scheme:  ", &j.scheme);
    push_told(out, "  TLD:     ", &j.tld);
    push_line(
        out,
        "  Port:    ".to_string().concat(nat_text(port as u64).as_str()).as_str(),
    );
    if let Some(info) = &j.lan {
        push_line(
            out,
            "  LAN:     enabled (IP: ".to_string().concat(info.ip.as_str()).concat(")").as_str(),
        );
    }
    assert(text::texts(out@) =~= start + address_lines(*j, port));
}

fn push_head(out: &mut Vec<String>, j: &JsonProxyStatus, port: u16)
    ensures
        text::texts(final(out)@) == text::texts(old(out)@) + head_lines(*j, port),
{
    let ghost start = text::texts(out@);
    push_address(out, j, port);
    push_told(out, "  TLS cert: ", &j.tls_cert);
    if let Some(trusted) = j.trusted {
        if trusted {
            push_line(out, "  Trusted: yes");
        } else {
            push_line(out, "  Trusted: no (run: pitchfork proxy trust)");
        }
    }
    push_line(out, "");
    assert(text::texts(out@) =~= start + head_lines(*j, port));
}

fn push_slugs(out: &mut Vec<String>, slugs: &Vec<JsonSlugEntry>)
    ensures
        text::texts(final(out)@) == text::texts(old(out)@) + slug_section(slugs@),
{
    let ghost start = text::texts(out@);
    if slugs.len() == 0 {
        push_no_slugs(out);
        return;
    }
    push_line(out, "Registered slugs:");
    push_line(out, "");
    let ghost titled = start + seq!["Registered slugs:"@, ""@];
    assert(text::texts(out@) =~= titled);
    let mut i: usize = 0;
    assert(titled =~= titled + all_slug_lines(slugs@.take(0)));
    while i < slugs.len()
        invariant
            i <= slugs@.len(),
            text::texts(out@) == titled + all_slug_lines(slugs@.take(i as int)),
        decreases slugs@.len() - i,
    {
        let ghost before = all_slug_lines(slugs@.take(i as int));
        push_slug_lines(out, &slugs[i]);
        proof {
            assert(slugs@.take(i + 1).drop_last() =~= slugs@.take(i as int));
            assert(slugs@.take(i + 1).last() == slugs@[i as int]);
            assert((titled + before) + slug_lines(slugs@[i as int]) =~= titled + (before
                + slug_lines(slugs@[i as int])));
        }
        i = i + 1;
    }
    assert(slugs@.take(i as int) =~= slugs@);
    assert(titled + all_slug_lines(slugs@) =~= start + (seq!["Registered slugs:"@, ""@]
        + all_slug_lines(slugs@)));
}

/// The lines about the proxy.
pub fn proxy_status_lines(j: &JsonProxyStatus, port_setting: i64) -> (r: Vec<String>)
    ensures
        text::texts(r@) == status_lines(*j, port_setting as int),
{
    let mut out: Vec<String> = Vec::new();
    let ghost none = text::texts(out@);
    assert(none =~= Seq::<Seq<char>>::empty());
    if !j.enabled {
        push_disabled(&mut out);
        assert(text::texts(out@) =~= disabled_lines());
        return out;
    }
    match j.port {
        Some(port) => {
            push_head(&mut out, j, port);
            push_slugs(&mut out, &j.slugs);
            assert(text::texts(out@) =~= head_lines(*j, port) + slug_section(j.slugs@));
        },
        None => {
            push_line(&mut out, "Proxy: enabled");
            push_line(
                &mut out,
                "  proxy.port ".to_string().concat(int_text(port_setting).as_str()).concat(
                    " is out of valid port range (1-65535)",
                ).as_str(),
            );
            assert(text::texts(out@) =~= bad_port_lines(port_setting as int));
        },
    }
    out
}

/// Add a slug mapping to the global config
///
/// Registers a slug in ~/.config/pitchfork/config.toml that maps to a project
/// directory and daemon name. The proxy uses this to route requests.
///
/// If --dir is not specified, uses the current directory.
/// If --daemon is not specified, defaults to the slug name.
#[derive(Debug)]
pub struct Add {
    /// The slug name (used in proxy URLs, e.g. api → api.localhost)
    pub slug: String,
    /// Project directory (defaults to current directory)
    pub dir: Option<String>,
    /// Daemon name within the project (defaults to slug name)
    pub daemon: Option<String>,
    /// Namespace to associate with the slug. If not provided, derived from the project directory.
    pub namespace: Option<String>,
}

/// Whether a character may stand in a slug.
pub open spec fn slug_char(c: char) -> bool {
    ||| 'a' <= c <= 'z'
    ||| 'A' <= c <= 'Z'
    ||| '0' <= c <= '9'
    ||| c == '-'
    ||| c == '_'
}

/// What is wrong with a slug, where something is.
pub open spec fn slug_fault(slug: Seq<char>) -> Option<Seq<char>> {
    if slug.len() == 0 {
        Some("Slug must be non-empty."@)
    } else if slug.contains('.') {
        Some(
            "Slug '"@ + slug
                + "' contains a dot ('.'). Slugs must not contain dots because they are used as DNS subdomain labels in proxy URLs (<slug>.<tld>)."@,
        )
    } else if exists|i: int| 0 <= i < slug.len() && !slug_char(#[trigger] slug[i]) {
        Some(
            "Slug '"@ + slug
                + "' contains invalid characters. Slugs must be alphanumeric with '-' and '_' allowed."@,
        )
    } else {
        None
    }
}

/// Checks a slug.
pub fn validate_slug(slug: &str) -> (r: Result<(), String>)
    ensures
        match r {
            Ok(_) => slug_fault(slug@) is None,
            Err(e) => slug_fault(slug@) == Some(e@),
        },
{
    if slug.is_empty() {
        return Err("Slug must be non-empty.".to_string());
    }
    if contains_char(slug, '.') {
        return Err(
            "Slug '".to_string().concat(slug).concat(
                "' contains a dot ('.'). Slugs must not contain dots because they are used as DNS subdomain labels in proxy URLs (<slug>.<tld>).",
            ),
        );
    }
    let v = chars_of(slug);
    let mut i: usize = 0;
    while i < v.len()
        invariant
            v@ == slug@,
            slug@.len() > 0,
            !slug@.contains('.'),
            i <= v@.len(),
            forall|k: int| 0 <= k < i ==> slug_char(#[trigger] slug@[k]),
        decreases v@.len() - i,
    {
        let c = v[i];
        let good = ('a' <= c && c <= 'z') || ('A' <= c && c <= 'Z') || ('0' <= c && c <= '9') || c
            == '-' || c == '_';
        if !good {
            assert(!slug_char(slug@[i as int]));
            return Err(
                "Slug '".to_string().concat(slug).concat(
                    "' contains invalid characters. Slugs must be alphanumeric with '-' and '_' allowed.",
                ),
            );
        }
        i = i + 1;
    }
    Ok(())
}

impl Add {
    /// The namespace of the slug: the one that is named, else the one of the directory; an error
    /// where there is none.
    pub fn resolve_namespace(&self, of_dir: Option<&str>, dir: &str) -> (r: Result<String, String>)
        ensures
            match self.namespace {
                Some(ns) => r matches Ok(n) && n@ == ns@,
                None => match of_dir {
                    Some(ns) => r matches Ok(n) && n@ == ns@,
                    None => r matches Err(e) && e@ == "Cannot derive a namespace for '"@ + dir@
                        + "'. Make sure the directory contains a pitchfork.toml with a valid `namespace`, or provide an explicit `--namespace`."@,
                },
            },
    {
        match &self.namespace {
            Some(ns) => Ok(ns.clone()),
            None => match of_dir {
                Some(ns) => Ok(ns.to_string()),
                None => Err(
                    "Cannot derive a namespace for '".to_string().concat(dir).concat(
                        "'. Make sure the directory contains a pitchfork.toml with a valid `namespace`, or provide an explicit `--namespace`.",
                    ),
                ),
            },
        }
    }

    /// The name of the daemon that is stored: none where it is the slug.
    pub fn stored_daemon(&self) -> (r: Option<String>)
        ensures
            text::opt_text(r) == stored_name(self.slug@, text::opt_text(self.daemon)),
    {
        match &self.daemon {
            Some(d) => if text_eq(d.as_str(), self.slug.as_str()) {
                None
            } else {
                Some(d.clone())
            },
            None => None,
        }
    }

    /// What is said when the slug is added.
    pub fn report(&self, namespace: &str, config: &str, s: &AllSettings) -> (r: Vec<String>)
        ensures
            text::texts(r@) == seq![
                "Added slug '"@ + self.slug@ + "' → namespace '"@ + namespace@ + "' (daemon: "@
                    + (match self.daemon {
                    Some(d) => d@,
                    None => self.slug@,
                }) + ")"@,
                "  Config: "@ + config@,
            ] + match valid_status_port(*s) {
                Some(port) => seq!["  URL:    "@ + slug_url(self.slug@, *s, port)],
                None => Seq::empty(),
            },
    {
        let daemon = match &self.daemon {
            Some(d) => d.as_str(),
            None => self.slug.as_str(),
        };
        let mut out: Vec<String> = Vec::new();
        out.push(
            "Added slug '".to_string().concat(self.slug.as_str()).concat("' → namespace '").concat(
                namespace,
            ).concat("' (daemon: ").concat(daemon).concat(")"),
        );
        out.push("  Config: ".to_string().concat(config));
        if s.proxy.enable {
            if let Some(port) = to_port(s.proxy.port) {
                out.push(
                    "  URL:    ".to_string().concat(
                        url_of_slug(self.slug.as_str(), s, port).as_str(),
                    ),
                );
            }
        }
        assert(text::texts(out@) =~= seq![
            "Added slug '"@ + self.slug@ + "' → namespace '"@ + namespace@ + "' (daemon: "@ + (
            match self.daemon {
                Some(d) => d@,
                None => self.slug@,
            }) + ")"@,
            "  Config: "@ + config@,
        ] + match valid_status_port(*s) {
            Some(port) => seq!["  URL:    "@ + slug_url(self.slug@, *s, port)],
            None => Seq::empty(),
        });
        out
    }
}

/// The name of the daemon that is stored for a slug: none where it is the slug.
pub open spec fn stored_name(slug: Seq<char>, daemon: Option<Seq<char>>) -> Option<Seq<char>> {
    match daemon {
        Some(d) => if d == slug {
            None
        } else {
            Some(d)
        },
        None => None,
    }
}

/// A slug that was added for a daemon is one of that daemon: leaving out the name of a daemon that
/// is the slug loses nothing.
pub proof fn stored_name_is_enough(entry: SlugEntry, daemon: Option<Seq<char>>)
    requires
        text::opt_text(entry.daemon) == stored_name(entry.slug@, daemon),
    ensures
        daemon_name(entry) == match daemon {
            Some(d) => d,
            None => entry.slug@,
        },
{
}

/// What is said when a slug is removed, or was not there.
pub fn removal_report(slug: &str, removed: bool) -> (r: String)
    ensures
        r@ == if removed {
            "Removed slug '"@ + slug@ + "'"@
        } else {
            "Slug '"@ + slug@ + "' was not registered."@
        },
{
    if removed {
        "Removed slug '".to_string().concat(slug).concat("'")
    } else {
        "Slug '".to_string().concat(slug).concat("' was not registered.")
    }
}

/// A slug shows the first daemon of its name: whether it runs, else the words for its state, and
/// the port that it uses, else the first that it was given.
pub proof fn slugs_show_their_first_daemon(
    j: JsonSlugEntry,
    e: SlugEntry,
    s: AllSettings,
    port: u16,
    list: Vec<ProxiedDaemon>,
    config: Option<Vec<DaemonId>>,
    k: int,
)
    requires
        slug_shown(j, e, s, port, Some(list), config),
        0 <= k < list@.len(),
        list@[k].id@.1 == (if e.daemon is Some {
            e.daemon->0@
        } else {
            e.slug@
        }),
        e.namespace is Some ==> list@[k].id@.0 == e.namespace->0@,
        forall|i: int|
            0 <= i < k ==> (#[trigger] list@[i]).id@.1 != (if e.daemon is Some {
                e.daemon->0@
            } else {
                e.slug@
            }) || (e.namespace is Some && list@[i].id@.0 != e.namespace->0@),
    ensures
        list@[k].running ==> j.status@ == "running"@,
        !list@[k].running ==> j.status@ == list@[k].status_text@,
        list@[k].active_port is Some ==> j.port == list@[k].active_port,
        list@[k].active_port is None && list@[k].resolved_port@.len() > 0 ==> j.port == Some(
            list@[k].resolved_port@[0],
        ),
        list@[k].active_port is None && list@[k].resolved_port@.len() == 0 ==> j.port is None,
{
    lemma_first_daemon_at(list@, e, 0, k);
}

proof fn lemma_first_daemon_at(state: Seq<ProxiedDaemon>, e: SlugEntry, from: int, k: int)
    requires
        0 <= from <= k < state.len(),
        is_daemon_of(state[k].id@, e),
        forall|i: int| from <= i < k ==> !is_daemon_of((#[trigger] state[i]).id@, e),
    ensures
        first_daemon(state, e, from) == Some(k),
    decreases k - from,
{
    if from < k {
        assert(!is_daemon_of(state[from].id@, e));
        lemma_first_daemon_at(state, e, from + 1, k);
    }
}

proof fn lemma_no_daemon(state: Seq<ProxiedDaemon>, e: SlugEntry, from: int)
    requires
        0 <= from,
        forall|i: int| from <= i < state.len() ==> !is_daemon_of((#[trigger] state[i]).id@, e),
    ensures
        first_daemon(state, e, from) is None,
    decreases state.len() - from,
{
    if from < state.len() {
        assert(!is_daemon_of(state[from].id@, e));
        lemma_no_daemon(state, e, from + 1);
    }
}

/// A slug whose daemon the supervisor does not know shows whether that daemon is configured; where
/// the supervisor's daemons cannot be told, its state is unknown. Neither shows a port.
pub proof fn slugs_without_a_daemon_tell_so(
    j: JsonSlugEntry,
    e: SlugEntry,
    s: AllSettings,
    port: u16,
    state: Option<Vec<ProxiedDaemon>>,
    ids: Vec<DaemonId>,
    config: Option<Vec<DaemonId>>,
)
    requires
        slug_shown(j, e, s, port, state, config),
        config is Some ==> config->0 == ids,
        state is Some ==> forall|i: int|
            0 <= i < (state->0)@.len() ==> (#[trigger] (state->0)@[i]).id@.1 != (
            if e.daemon is Some {
                e.daemon->0@
            } else {
                e.slug@
            }) || (e.namespace is Some && (state->0)@[i].id@.0 != e.namespace->0@),
    ensures
        j.port is None,
        state is None ==> j.status@ == "unknown"@,
        state is Some && config is None ==> j.status@ == "unconfigured"@,
        state is Some && config is Some && (exists|i: int|
            0 <= i < ids@.len() && (#[trigger] ids@[i])@.1 == (if e.daemon is Some {
                e.daemon->0@
            } else {
                e.slug@
            }) && (e.namespace is Some ==> ids@[i]@.0 == e.namespace->0@)) ==> j.status@
            == "available"@,
        state is Some && config is Some && (forall|i: int|
            0 <= i < ids@.len() ==> (#[trigger] ids@[i])@.1 != (if e.daemon is Some {
                e.daemon->0@
            } else {
                e.slug@
            }) || (e.namespace is Some && ids@[i]@.0 != e.namespace->0@)) ==> j.status@
            == "unconfigured"@,
{
    if state is Some {
        lemma_no_daemon((state->0)@, e, 0);
    }
    if state is Some && config is Some {
        if exists|i: int|
            0 <= i < ids@.len() && (#[trigger] ids@[i])@.1 == (if e.daemon is Some {
                e.daemon->0@
            } else {
                e.slug@
            }) && (e.namespace is Some ==> ids@[i]@.0 == e.namespace->0@) {
            let i = choose|i: int|
                0 <= i < ids@.len() && (#[trigger] ids@[i])@.1 == (if e.daemon is Some {
                    e.daemon->0@
                } else {
                    e.slug@
                }) && (e.namespace is Some ==> ids@[i]@.0 == e.namespace->0@);
            assert(is_daemon_of(ids@[i]@, e));
            assert(has_daemon(ids@, e));
        }
    }
}

/// A slug is shown under its name, with its directory where that can be told, the name of its
/// daemon, and a URL whose host is the slug before the domain: `local` where the proxy serves the
/// local network, else the one of the settings.
pub proof fn slugs_tell_where_they_lead(
    j: JsonSlugEntry,
    e: SlugEntry,
    s: AllSettings,
    port: u16,
    state: Option<Vec<ProxiedDaemon>>,
    config: Option<Vec<DaemonId>>,
)
    requires
        slug_shown(j, e, s, port, state, config),
    ensures
        j.slug@ == e.slug@,
        e.dir is Some ==> j.dir@ == e.dir->0@,
        e.dir is None ==> j.dir@ == "(unresolved)"@,
        e.daemon is Some ==> j.daemon@ == e.daemon->0@,
        e.daemon is None ==> j.daemon@ == e.slug@,
        s.proxy.lan || s.proxy.lan_ip@.len() > 0 ==> j.url@ == list::url_at(
            s.proxy.https,
            e.slug@ + "."@ + "local"@,
            port,
        ),
        !s.proxy.lan && s.proxy.lan_ip@.len() == 0 ==> j.url@ == list::url_at(
            s.proxy.https,
            e.slug@ + "."@ + s.proxy.tld@,
            port,
        ),
{
}

/// A proxy that is off tells nothing but that, and so does one without a port.
pub proof fn proxies_that_do_not_serve_tell_only_that(
    j: JsonProxyStatus,
    s: AllSettings,
    facts: ProxyFacts,
)
    requires
        status_shown(j, s, facts),
        !s.proxy.enable || s.proxy.port < 1 || s.proxy.port > 65535,
    ensures
        j.enabled == s.proxy.enable,
        j.scheme is None,
        j.tld is None,
        j.port is None,
        j.lan is None,
        j.tls_cert is None,
        j.trusted is None,
        j.slugs@.len() == 0,
{
    list::ports_have_sixteen_bits(s.proxy.port as int);
}

/// A proxy that serves tells its scheme, domain and port, the address on the local network where it
/// serves that, the certificate and whether it is trusted where it uses one, and every slug.
pub proof fn serving_proxies_tell_everything(
    j: JsonProxyStatus,
    s: AllSettings,
    facts: ProxyFacts,
)
    requires
        status_shown(j, s, facts),
        s.proxy.enable,
        1 <= s.proxy.port <= 65535,
    ensures
        j.enabled,
        j.port is Some,
        j.port->0 == s.proxy.port,
        j.scheme is Some,
        j.scheme->0@ == (if s.proxy.https {
            "https"@
        } else {
            "http"@
        }),
        j.tld is Some,
        j.tld->0@ == (if s.proxy.lan || s.proxy.lan_ip@.len() > 0 {
            "local"@
        } else {
            s.proxy.tld@
        }),
        j.lan is Some <==> s.proxy.lan || s.proxy.lan_ip@.len() > 0,
        j.lan is Some ==> (j.lan->0).enabled,
        j.lan is Some && s.proxy.lan_ip@.len() > 0 ==> (j.lan->0).ip@ == s.proxy.lan_ip@,
        j.lan is Some && s.proxy.lan_ip@.len() == 0 ==> (j.lan->0).ip@ == "auto-detect"@,
        j.tls_cert is Some <==> s.proxy.https,
        j.trusted is Some <==> s.proxy.https,
        s.proxy.https ==> j.trusted->0 == facts.trusted,
        s.proxy.https && s.proxy.tls_cert@.len() > 0 ==> j.tls_cert->0@ == s.proxy.tls_cert@,
        s.proxy.https && s.proxy.tls_cert@.len() == 0 ==> j.tls_cert->0@ == facts.default_cert@
            + " (auto-generated)"@,
        j.slugs@.len() == facts.slugs@.len(),
        forall|i: int|
            0 <= i < facts.slugs@.len() ==> (#[trigger] j.slugs@[i]).slug@
                == facts.slugs@[i].slug@ && slug_shown(
                j.slugs@[i],
                facts.slugs@[i],
                s,
                j.port->0,
                facts.state,
                facts.config,
            ),
{
    list::ports_have_sixteen_bits(s.proxy.port as int);
}

proof fn lemma_slug_lines_at(slugs: Seq<JsonSlugEntry>, k: int)
    requires
        0 <= k < slugs.len(),
    ensures
        all_slug_lines(slugs).len() == 6 * slugs.len(),
        all_slug_lines(slugs).subrange(6 * k, 6 * k + 6) == slug_lines(slugs[k]),
    decreases slugs.len(),
{
    let before = all_slug_lines(slugs.drop_last());
    let last = slug_lines(slugs.last());
    if slugs.len() > 1 {
        let inner = if k < slugs.len() - 1 {
            k
        } else {
            k - 1
        };
        lemma_slug_lines_at(slugs.drop_last(), inner);
    } else {
        assert(before =~= Seq::<Seq<char>>::empty());
    }
    assert(before.len() == 6 * (slugs.len() - 1));
    if k < slugs.len() - 1 {
        assert((before + last).subrange(6 * k, 6 * k + 6) =~= before.subrange(6 * k, 6 * k + 6));
        assert(slugs.drop_last()[k] == slugs[k]);
    } else {
        assert((before + last).subrange(6 * k, 6 * k + 6) =~= last);
    }
}

/// Each slug has its own lines, in order, behind a title: its name, its URL, its directory, its
/// daemon, and its state with its port, and then an empty line.
pub proof fn each_slug_has_its_lines(slugs: Seq<JsonSlugEntry>, k: int)
    requires
        0 <= k < slugs.len(),
    ensures
        slug_section(slugs).len() == 2 + 6 * slugs.len(),
        slug_section(slugs)[0] == "Registered slugs:"@,
        slug_section(slugs)[1] == ""@,
        slug_section(slugs)[2 + 6 * k] == "  "@ + slugs[k].slug@,
        slug_section(slugs)[3 + 6 * k] == "    URL:    "@ + slugs[k].url@,
        slug_section(slugs)[4 + 6 * k] == "    Dir:    "@ + slugs[k].dir@,
        slug_section(slugs)[5 + 6 * k] == "    Daemon: "@ + slugs[k].daemon@,
        slugs[k].port is None ==> slug_section(slugs)[6 + 6 * k] == "    Status: "@
            + slugs[k].status@,
        slugs[k].port is Some ==> slug_section(slugs)[6 + 6 * k] == "    Status: "@
            + slugs[k].status@ + (" (port "@ + text::decimal(slugs[k].port->0 as int) + ")"@),
        slug_section(slugs)[7 + 6 * k] == ""@,
{
    lemma_slug_lines_at(slugs, k);
    reveal_strlit("");
    let all = all_slug_lines(slugs);
    let own = all.subrange(6 * k, 6 * k + 6);
    assert(own =~= slug_lines(slugs[k]));
    assert(own[0] == all[6 * k]);
    assert(own[1] == all[6 * k + 1]);
    assert(own[2] == all[6 * k + 2]);
    assert(own[3] == all[6 * k + 3]);
    assert(own[4] == all[6 * k + 4]);
    assert(own[5] == all[6 * k + 5]);
    assert("    Status: "@ + slugs[k].status@ + ""@ =~= "    Status: "@ + slugs[k].status@);
}

/// The lines about a proxy that serves tell its scheme, domain and port first, then the address on
/// the local network and the certificate where there are any, and its slugs behind an empty line.
pub proof fn serving_proxies_are_told_in_lines(j: JsonProxyStatus, port_setting: int)
    requires
        j.enabled,
        j.port is Some,
        j.scheme is Some,
        j.tld is Some,
        j.tls_cert is Some <==> j.trusted is Some,
    ensures
        ({
            let lines = status_lines(j, port_setting);
            let n: int = if j.lan is Some {
                5
            } else {
                4
            };
            let m: int = if j.tls_cert is Some {
                n + 2
            } else {
                n
            };
            &&& lines[0] == "Proxy: enabled"@
            &&& lines[1] == "  Scheme:  "@ + j.scheme->0@
            &&& lines[2] == "  TLD:     "@ + j.tld->0@
            &&& lines[3] == "  Port:    "@ + text::decimal(j.port->0 as int)
            &&& j.lan is Some ==> lines[4] == "  LAN:     enabled (IP: "@ + (j.lan->0).ip@ + ")"@
            &&& j.tls_cert is Some ==> lines[n] == "  TLS cert: "@ + j.tls_cert->0@
            &&& j.trusted == Some(true) ==> lines[n + 1] == "  Trusted: yes"@
            &&& j.trusted == Some(false) ==> lines[n + 1]
                == "  Trusted: no (run: pitchfork proxy trust)"@
            &&& lines[m] == ""@
            &&& lines == lines.take(m + 1) + slug_section(j.slugs@)
        }),
{
    let port = j.port->0;
    let lines = status_lines(j, port_setting);
    let n: int = if j.lan is Some {
        5
    } else {
        4
    };
    let m: int = if j.tls_cert is Some {
        n + 2
    } else {
        n
    };
    let head = head_lines(j, port);
    assert(address_lines(j, port).len() == n);
    assert(head.len() == m + 1);
    assert(lines.take(m + 1) =~= head);
}

/// A proxy that is off tells how it is turned on, and one without a port tells the setting that is
/// no port.
pub proof fn proxies_that_do_not_serve_say_why(j: JsonProxyStatus, port_setting: int)
    ensures
        !j.enabled ==> status_lines(j, port_setting)[0] == "Proxy: disabled"@ && status_lines(
            j,
            port_setting,
        )[2] == "Enable with:"@ && status_lines(j, port_setting).len() == 5,
        j.enabled && j.port is None ==> status_lines(j, port_setting) == seq![
            "Proxy: enabled"@,
            "  proxy.port "@ + text::decimal(port_setting)
                + " is out of valid port range (1-65535)"@,
        ],
        slug_section(Seq::<JsonSlugEntry>::empty())[0] == "No slugs registered."@,
{
}

/// A slug is accepted where it has a character and all of its characters are letters, digits,
/// dashes and underscores; an empty one, one with a dot, and one with another character are told
/// apart in that order.
pub proof fn slugs_are_plain_labels(slug: Seq<char>)
    ensures
        slug_fault(slug) is None <==> slug.len() > 0 && forall|i: int|
            0 <= i < slug.len() ==> ('a' <= #[trigger] slug[i] <= 'z' || 'A' <= slug[i] <= 'Z'
                || '0' <= slug[i] <= '9' || slug[i] == '-' || slug[i] == '_'),
        slug.len() == 0 ==> slug_fault(slug) == Some("Slug must be non-empty."@),
        slug.contains('.') ==> slug_fault(slug) == Some(
            "Slug '"@ + slug
                + "' contains a dot ('.'). Slugs must not contain dots because they are used as DNS subdomain labels in proxy URLs (<slug>.<tld>)."@,
        ),
        slug_fault(slug) is Some && slug.len() > 0 && !slug.contains('.') ==> slug_fault(slug)
            == Some(
            "Slug '"@ + slug
                + "' contains invalid characters. Slugs must be alphanumeric with '-' and '_' allowed."@,
        ),
{
    if slug.contains('.') {
        let k = choose|k: int| 0 <= k < slug.len() && slug[k] == '.';
        assert(!slug_char(slug[k]));
    }
    if slug_fault(slug) is None {
        assert forall|i: int| 0 <= i < slug.len() implies ('a' <= #[trigger] slug[i] <= 'z' || 'A'
            <= slug[i] <= 'Z' || '0' <= slug[i] <= '9' || slug[i] == '-' || slug[i] == '_') by {
            assert(slug_char(slug[i]));
        }
    }
}

/// The name of a daemon is stored where it is given and not the slug.
pub proof fn other_names_are_stored(slug: Seq<char>, daemon: Seq<char>)
    ensures
        daemon != slug ==> stored_name(slug, Some(daemon)) == Some(daemon),
        stored_name(slug, Some(slug)) is None,
        stored_name(slug, None) is None,
{
}

} // verus!
