use tinyproxy::addr::IpAddress;
use tinyproxy::config::{parse_bool, parse_upstream, Config};
use tinyproxy::error::ProxyError;

#[test]
fn defaults() {
    let c = Config::default();
    assert_eq!(c.port, 8888);
    assert_eq!(c.bind_address, IpAddress::V4(0));
    assert!(c.listen_addresses.is_empty());
    assert_eq!(c.user.as_deref(), Some("nobody"));
    assert_eq!(c.group.as_deref(), Some("nobody"));
    assert_eq!(c.pidfile.as_deref(), Some("/var/run/tinyproxy.pid"));
    assert_eq!(c.timeout, 600);
    assert_eq!(c.max_clients, 100);
    assert_eq!(c.max_requests_per_child, 0);
    assert_eq!(c.max_spare_servers, 20);
    assert_eq!(c.min_spare_servers, 5);
    assert_eq!(c.start_servers, 10);
    assert_eq!(c.logfile.as_deref(), Some("/var/log/tinyproxy.log"));
    assert_eq!(c.log_level, "Info");
    assert!(!c.syslog && !c.debug && !c.daemon && !c.bind_same);
    assert!(c.allow.is_empty() && c.deny.is_empty());
    assert!(c.basic_auth.is_none());
    assert!(c.upstream.is_empty() && c.reverse_proxy.is_empty());
    assert!(!c.filter_urls && !c.filter_extended && !c.filter_casesensitive);
    assert!(c.filter_file.is_none());
    assert_eq!(c.via_proxy_name.as_deref(), Some("tinyproxy"));
    assert_eq!(c.connect_ports, vec![443, 563]);
    assert_eq!(c.buffer_size, 8192);
    assert_eq!(c.max_header_size, 16384);
    assert_eq!(c.connection_pool_size, 100);
    assert!(c.error_files.is_empty());
    assert_eq!(c.get_listen_addresses(), vec![(IpAddress::V4(0), 8888)]);
}

#[test]
fn a_whole_file() {
    let text = "
# a comment
Port 3128
Bind 127.0.0.1
Listen 10.0.0.1
LISTEN ::1
User proxy
Group   proxy
Timeout 30   # seconds
MaxClients 7
MaxRequestsPerChild 12
LogFile /tmp/log
Syslog On
LogLevel Debug
Allow 192.168.0.0/16
Allow 10.0.0.0/8
Deny all
BasicAuth alice:se:cret
ConnectPort 8443
Filter /etc/filter
FilterURLs yes
FilterExtended TRUE
FilterCaseSensitive 1
ViaProxyName my proxy
DisableViaHeader no
XTinyproxy off
Anonymous Cookie
Anonymous Referer
StatHost stats.local
StatFile /tmp/stats.html
ErrorFile 404  /tmp/404.html
ErrorFile abc /tmp/x.html
DefaultErrorFile /tmp/default.html
Upstream http:proxy.example:3128
Upstream http:broken
ReverseOnly 0
BindSame yes
PidFile /tmp/pid
Unknown something
NoValue
";
    let c = Config::parse_config(text).unwrap();
    assert_eq!(c.port, 3128);
    assert_eq!(c.bind_address, IpAddress::V4(0x7f000001));
    assert_eq!(c.listen_addresses, vec![IpAddress::V4(0x0a000001), IpAddress::V6(1)]);
    assert_eq!(c.user.as_deref(), Some("proxy"));
    assert_eq!(c.group.as_deref(), Some("proxy"));
    assert_eq!(c.timeout, 30);
    assert_eq!(c.max_clients, 7);
    assert_eq!(c.max_requests_per_child, 12);
    assert_eq!(c.logfile.as_deref(), Some("/tmp/log"));
    assert!(c.syslog);
    assert_eq!(c.log_level, "Debug");
    assert_eq!(c.allow, vec!["192.168.0.0/16", "10.0.0.0/8"]);
    assert_eq!(c.deny, vec!["all"]);
    let auth = c.basic_auth.as_ref().unwrap();
    assert_eq!(auth.username, "alice");
    assert_eq!(auth.password, "se:cret");
    assert_eq!(auth.realm, "Tinyproxy");
    assert_eq!(c.connect_ports, vec![443, 563, 8443]);
    assert_eq!(c.filter_file.as_deref(), Some("/etc/filter"));
    assert!(c.filter_urls && c.filter_extended && c.filter_casesensitive);
    assert_eq!(c.via_proxy_name.as_deref(), Some("my proxy"));
    assert!(!c.disable_via_header);
    assert!(!c.x_tinyproxy);
    assert_eq!(c.anonymous, vec!["Cookie", "Referer"]);
    assert_eq!(c.stat_host.as_deref(), Some("stats.local"));
    assert_eq!(c.stat_file.as_deref(), Some("/tmp/stats.html"));
    assert_eq!(c.error_files.len(), 1);
    assert_eq!(c.error_files.get(&404).map(|s| s.as_str()), Some(" /tmp/404.html"));
    assert_eq!(c.default_error_file.as_deref(), Some("/tmp/default.html"));
    assert_eq!(c.upstream.len(), 1);
    assert_eq!(c.upstream[0].upstream_type, "http");
    assert_eq!(c.upstream[0].host, "proxy.example");
    assert_eq!(c.upstream[0].port, 3128);
    assert!(c.upstream[0].domain.is_none());
    assert!(!c.transparent_proxy);
    assert!(c.bind_same);
    assert_eq!(c.pidfile.as_deref(), Some("/tmp/pid"));
    assert_eq!(
        c.get_listen_addresses(),
        vec![(IpAddress::V4(0x0a000001), 3128), (IpAddress::V6(1), 3128)]
    );
}

fn config_error(text: &str) -> String {
    match Config::parse_config(text) {
        Err(ProxyError::Config(m)) => m,
        other => panic!("{:?}", other.map(|c| c.port)),
    }
}

#[test]
fn values_that_cannot_be_read() {
    assert_eq!(config_error("Port 70000"), "Invalid port value: 70000");
    assert_eq!(config_error("Port x\nPort 1"), "Invalid port value: x");
    assert_eq!(config_error("Port 1\nBind localhost"), "Invalid bind address: localhost");
    assert_eq!(config_error("listen 1.2.3"), "Invalid listen address: 1.2.3");
    assert_eq!(config_error("Timeout -1"), "Invalid timeout value: -1");
    assert_eq!(config_error("MaxClients many"), "Invalid max clients value: many");
    assert_eq!(
        config_error("MaxRequestsPerChild 1.5"),
        "Invalid max requests per child value: 1.5"
    );
    assert_eq!(config_error("ConnectPort 65536"), "Invalid connect port value: 65536");
    assert_eq!(config_error("Syslog maybe"), "Invalid boolean value: maybe");
    assert_eq!(config_error("FilterURLs 2"), "Invalid boolean value: 2");
    assert_eq!(config_error("XTinyproxy y e s"), "Invalid boolean value: y e s");
}

#[test]
fn lines_without_effect() {
    let c = Config::parse_config("Port\n\n   \n#Port 1\n  # Port 2\nPort#3\nBasicAuth nocolon\n").unwrap();
    assert_eq!(c.port, 8888);
    assert!(c.basic_auth.is_none());
    let c = Config::parse_config("").unwrap();
    assert_eq!(c.port, 8888);
    let c = Config::parse_config("port 1\r\nPORT\t2 # two\r\n").unwrap();
    assert_eq!(c.port, 2);
}

#[test]
fn booleans() {
    for word in ["yes", "true", "on", "1", "YES", "True", "oN"] {
        assert_eq!(parse_bool(word), Ok(true), "{}", word);
    }
    for word in ["no", "false", "off", "0", "NO", "False", "OFF"] {
        assert_eq!(parse_bool(word), Ok(false), "{}", word);
    }
    for word in ["", "y", "2", "yes ", "enable"] {
        assert_eq!(
            parse_bool(word),
            Err(ProxyError::Config(format!("Invalid boolean value: {}", word)))
        );
    }
}

#[test]
fn upstreams() {
    let u = parse_upstream("socks5:10.0.0.1:1080").unwrap();
    assert_eq!((u.upstream_type.as_str(), u.host.as_str(), u.port), ("socks5", "10.0.0.1", 1080));
    assert!(u.username.is_none() && u.password.is_none() && u.domain.is_none());
    let u = parse_upstream("http:h:80:extra:parts").unwrap();
    assert_eq!((u.upstream_type.as_str(), u.host.as_str(), u.port), ("http", "h", 80));
    for text in ["", "http", "http:h", "http:h:", "http:h:x", "http:h:65536"] {
        assert_eq!(
            parse_upstream(text).unwrap_err(),
            ProxyError::Config(format!("Invalid upstream format: {}", text))
        );
    }
}
