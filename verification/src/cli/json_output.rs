//! The shapes of the JSON output.
use vstd::prelude::*;

verus! {

/// A daemon in a list.
#[derive(Debug)]
pub struct JsonListEntry {
    pub id: String,
    pub namespace: String,
    pub name: String,
    pub pid: Option<u32>,
    pub status: String,
    pub disabled: bool,
    pub available: bool,
    pub proxy_url: Option<String>,
    pub error: Option<String>,
    /// Left out where there is none.
    pub active_port: Option<u16>,
    pub port: Vec<u16>,
}

/// The state of a daemon.
#[derive(Debug)]
pub struct JsonStatusEntry {
    pub id: String,
    pub namespace: String,
    pub name: String,
    pub pid: Option<u32>,
    pub status: String,
    /// Left out where there is none.
    pub active_port: Option<u16>,
    pub port: Vec<u16>,
    pub proxy_url: Option<String>,
}

/// A log line.
#[derive(Debug)]
pub struct JsonLogEntry {
    pub timestamp: String,
    pub daemon_id: String,
    pub message: String,
}

/// A daemon of a configuration.
#[derive(Debug)]
pub struct JsonDaemonConfigEntry {
    pub id: String,
    pub run: String,
}

/// The state of the proxy. What is missing is left out.
#[derive(Debug)]
pub struct JsonProxyStatus {
    pub enabled: bool,
    pub scheme: Option<String>,
    pub tld: Option<String>,
    pub port: Option<u16>,
    pub lan: Option<JsonLanInfo>,
    pub tls_cert: Option<String>,
    pub trusted: Option<bool>,
    pub slugs: Vec<JsonSlugEntry>,
}

/// The address of the proxy on the local network.
#[derive(Debug)]
pub struct JsonLanInfo {
    pub enabled: bool,
    pub ip: String,
}

/// A slug of the proxy.
#[derive(Debug)]
pub struct JsonSlugEntry {
    pub slug: String,
    pub url: String,
    pub dir: String,
    pub daemon: String,
    pub status: String,
    /// Left out where there is none.
    pub port: Option<u16>,
}

/// A setting. What is missing is left out.
#[derive(Debug)]
pub struct JsonSettingEntry {
    pub key: String,
    pub value: String,
    pub default: Option<String>,
    pub kind: Option<String>,
    pub env_var: Option<String>,
}

} // verus!
