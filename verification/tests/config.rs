use frogment::config::{default_bind, default_port, Config, DnsConfig, LogLevel};
use frogment::Resolver;

fn config(bind: &str, port: u16) -> Config {
    Config {
        port,
        bind: bind.to_string(),
        log_level: LogLevel::default(),
        dns: DnsConfig { upstream: "9.9.9.9:53".to_string(), level: 2, buffer: 512 },
    }
}

#[test]
fn defaults_are_localhost_1999() {
    assert_eq!(default_port(), 1999);
    assert_eq!(default_bind(), "127.0.0.1");
}

#[test]
fn default_log_level_is_info() {
    assert_eq!(LogLevel::default(), LogLevel::Info);
    assert_ne!(LogLevel::default(), LogLevel::Error);
}

#[test]
fn default_dns_settings_are_empty() {
    let dns = DnsConfig::default();
    assert_eq!(dns.upstream, "");
    assert_eq!(dns.level, 0);
    assert_eq!(dns.buffer, 0);
}

#[test]
fn dns_settings_compare_by_their_fields() {
    let a = DnsConfig { upstream: "1.1.1.1:53".to_string(), level: 3, buffer: 4096 };
    let b = DnsConfig { upstream: "1.1.1.1:53".to_string(), level: 3, buffer: 4096 };
    assert_eq!(a, b);
    assert_ne!(a, DnsConfig { upstream: "1.1.1.1:54".to_string(), level: 3, buffer: 4096 });
    assert_ne!(a, DnsConfig { upstream: "1.1.1.1:53".to_string(), level: 4, buffer: 4096 });
    assert_ne!(a, DnsConfig { upstream: "1.1.1.1:53".to_string(), level: 3, buffer: 512 });
    assert_eq!(DnsConfig::default(), DnsConfig::default());
}

#[test]
fn resolver_keeps_its_settings() {
    let resolver = Resolver::new(config("0.0.0.0", 5353));
    assert_eq!(resolver.config().bind, "0.0.0.0");
    assert_eq!(resolver.config().port, 5353);
    assert_eq!(resolver.config().log_level, LogLevel::Info);
    assert_eq!(resolver.config().dns.upstream, "9.9.9.9:53");
    assert_eq!(resolver.config().dns.level, 2);
    assert_eq!(resolver.config().dns.buffer, 512);
}

#[test]
fn bind_address_joins_host_and_port() {
    assert_eq!(Resolver::new(config(&default_bind(), default_port())).bind_address(), "127.0.0.1:1999");
    assert_eq!(Resolver::new(config("0.0.0.0", 53)).bind_address(), "0.0.0.0:53");
    assert_eq!(Resolver::new(config("::1", 65535)).bind_address(), "::1:65535");
    assert_eq!(Resolver::new(config("localhost", 0)).bind_address(), "localhost:0");
    assert_eq!(Resolver::new(config("", 7)).bind_address(), ":7");
}

#[test]
fn bind_address_writes_the_port_in_decimal() {
    for port in [0u16, 1, 9, 10, 11, 99, 100, 101, 999, 1000, 1999, 9999, 10000, 10001, 40960, 65535] {
        let addr = Resolver::new(config("h", port)).bind_address();
        assert_eq!(addr, format!("h:{}", port));
    }
}
