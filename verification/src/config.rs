//! The settings that the relay runs with.

use vstd::prelude::*;
use vstd::std_specs::cmp::PartialEqSpecImpl;
use vstd::string::*;

verus! {

/// Everything the relay is told at startup. It is built once and only read
/// afterwards.
pub struct Config {
    /// Port of the client-facing socket.
    pub port: u16,
    /// Address of the client-facing socket.
    pub bind: String,
    /// How much is logged.
    pub log_level: LogLevel,
    /// How queries are rewritten and where they go.
    pub dns: DnsConfig,
}

/// The part of the settings that concerns the upstream exchange.
#[derive(Debug)]
pub struct DnsConfig {
    /// Address of the upstream resolver, as `host:port`.
    pub upstream: String,
    /// Number of decoy pointers added to every query.
    pub level: usize,
    /// Size in bytes of the receive buffers.
    pub buffer: usize,
}

/// How much is logged.
#[derive(Clone, Copy, Debug, PartialEq, Eq, Structural)]
pub enum LogLevel {
    /// Failures only.
    Error,
    /// Failures and every name that is resolved.
    Info,
}

impl Default for LogLevel {
    fn default() -> (level: LogLevel)
        ensures
            level == LogLevel::Info,
    {
        LogLevel::Info
    }
}

impl Default for DnsConfig {
    fn default() -> (dns: DnsConfig)
        ensures
            dns.upstream@ == Seq::<char>::empty(),
            dns.level == 0,
            dns.buffer == 0,
    {
        DnsConfig { upstream: String::new(), level: 0, buffer: 0 }
    }
}

impl PartialEq for DnsConfig {
    fn eq(&self, other: &DnsConfig) -> (same: bool) {
        self.upstream == other.upstream && self.level == other.level && self.buffer
            == other.buffer
    }
}

impl PartialEqSpecImpl for DnsConfig {
    open spec fn obeys_eq_spec() -> bool {
        true
    }

    open spec fn eq_spec(&self, other: &DnsConfig) -> bool {
        self.upstream@ == other.upstream@ && self.level == other.level && self.buffer
            == other.buffer
    }
}

/// The port that is listened on where none is configured.
pub fn default_port() -> (port: u16)
    ensures
        port == 1999,
{
    1999
}

/// The address that is listened on where none is configured.
pub fn default_bind() -> (bind: String)
    ensures
        bind@ == "127.0.0.1"@,
{
    "127.0.0.1".to_string()
}

} // verus!
