use tinyproxy::config::{Config, ReverseProxyConfig, UpstreamConfig};
use tinyproxy::error::ProxyError;
use tinyproxy::headers::Headers;
use tinyproxy::proxy::ProxyLogic;

fn upstream(host: &str, domain: Option<&str>) -> UpstreamConfig {
    UpstreamConfig {
        upstream_type: "http".to_string(),
        host: host.to_string(),
        port: 3128,
        username: None,
        password: None,
        domain: domain.map(|d| d.to_string()),
    }
}

#[test]
fn upstream_choice() {
    let mut config = Config::default();
    assert!(ProxyLogic::new(&config).should_use_upstream("a.example.com").is_none());
    config.upstream = vec![
        upstream("first", None),
        upstream("for-org", Some(".example.org")),
        upstream("for-com", Some("example.com")),
        upstream("also-com", Some(".com")),
    ];
    let logic = ProxyLogic::new(&config);
    assert_eq!(logic.should_use_upstream("a.example.com").unwrap().host, "for-com");
    assert_eq!(logic.should_use_upstream("x.example.org").unwrap().host, "for-org");
    assert_eq!(logic.should_use_upstream("other.com").unwrap().host, "also-com");
    assert_eq!(logic.should_use_upstream("other.net").unwrap().host, "first");
    assert!(logic.handle_http_proxy("GET", "/", &Headers::new()).is_ok());
}

#[test]
fn reverse_targets() {
    let mut config = Config::default();
    config.reverse_proxy = vec![
        ReverseProxyConfig { path: "/api/".to_string(), url: "http://api/".to_string() },
        ReverseProxyConfig { path: "/".to_string(), url: "http://web/".to_string() },
    ];
    let logic = ProxyLogic::new(&config);
    assert_eq!(logic.get_reverse_proxy_target("/api/users"), Some("http://api/"));
    assert_eq!(logic.get_reverse_proxy_target("/api"), Some("http://web/"));
    assert_eq!(logic.get_reverse_proxy_target("relative"), None);
}

fn sample() -> Headers {
    let mut h = Headers::new();
    h.insert("host".to_string(), "example.com".to_string());
    h.insert("cookie".to_string(), "a=b".to_string());
    h.insert("via".to_string(), "1.0 other".to_string());
    h
}

fn pairs(h: &Headers) -> Vec<(String, String)> {
    (0..h.len()).map(|i| (h.name_at(i).clone(), h.value_at(i).clone())).collect()
}

fn owned(list: &[(&str, &str)]) -> Vec<(String, String)> {
    list.iter().map(|(a, b)| (a.to_string(), b.to_string())).collect()
}

#[test]
fn header_changes() {
    let mut config = Config::default();
    let mut h = sample();
    ProxyLogic::new(&config).process_headers(&mut h, "10.0.0.9");
    assert_eq!(pairs(&h), owned(&[("host", "example.com"), ("cookie", "a=b"), ("via", "1.1 tinyproxy")]));

    config.via_proxy_name = None;
    config.anonymous = vec!["Cookie".to_string(), "X-Missing".to_string()];
    config.x_tinyproxy = true;
    config.add_headers.insert("X-Extra".to_string(), "1".to_string());
    config.add_headers.insert("x-extra".to_string(), "2".to_string());
    config.add_headers.insert("Via".to_string(), "mine".to_string());
    let mut h = sample();
    ProxyLogic::new(&config).process_headers(&mut h, "10.0.0.9");
    assert_eq!(
        pairs(&h),
        owned(&[("host", "example.com"), ("via", "mine"), ("x-tinyproxy", "10.0.0.9"), ("x-extra", "2")])
    );

    config.disable_via_header = true;
    config.x_tinyproxy = false;
    config.add_headers = Headers::new();
    config.via_proxy_name = Some("edge".to_string());
    let mut h = sample();
    ProxyLogic::new(&config).process_headers(&mut h, "::1");
    assert_eq!(pairs(&h), owned(&[("host", "example.com"), ("via", "1.0 other")]));
    config.disable_via_header = false;
    let mut h = Headers::new();
    ProxyLogic::new(&config).process_headers(&mut h, "::1");
    assert_eq!(pairs(&h), owned(&[("via", "1.1 edge")]));
}

#[test]
fn header_map() {
    let mut h = Headers::new();
    assert!(h.is_empty());
    assert_eq!(h.insert("a".to_string(), "1".to_string()), None);
    assert_eq!(h.insert("b".to_string(), "2".to_string()), None);
    assert_eq!(h.insert("a".to_string(), "3".to_string()), Some("1".to_string()));
    assert_eq!(h.len(), 2);
    assert_eq!(pairs(&h), owned(&[("a", "3"), ("b", "2")]));
    assert_eq!(h.get("a"), Some(&"3".to_string()));
    assert_eq!(h.get("A"), None);
    assert!(h.contains_key("b") && !h.contains_key("c"));
    assert_eq!(h.remove("c"), None);
    assert_eq!(h.remove("a"), Some("3".to_string()));
    assert_eq!(pairs(&h), owned(&[("b", "2")]));
    let copy = h.clone();
    h.insert("z".to_string(), "9".to_string());
    assert_eq!(pairs(&copy), owned(&[("b", "2")]));
}

#[test]
fn errors() {
    let cases: Vec<(ProxyError, u16, &str, &str)> = vec![
        (ProxyError::Io("x".into()), 500, "Internal server error", "IO error: x"),
        (ProxyError::Config("x".into()), 500, "Internal server error", "Configuration error: x"),
        (ProxyError::AuthenticationFailed, 407, "Proxy authentication required", "Authentication failed"),
        (ProxyError::AccessDenied("x".into()), 403, "Access denied: x", "Access denied: x"),
        (ProxyError::InvalidRequest("x".into()), 400, "Bad request: x", "Invalid HTTP request: x"),
        (ProxyError::InvalidResponse("x".into()), 500, "Internal server error", "Invalid HTTP response: x"),
        (ProxyError::Timeout, 408, "Request timeout", "Connection timeout"),
        (ProxyError::Upstream("x".into()), 502, "Upstream server error: x", "Upstream error: x"),
        (ProxyError::FilterBlocked("x".into()), 403, "Request blocked by filter: x", "Filter blocked request: x"),
        (ProxyError::Tls("x".into()), 500, "Internal server error", "TLS error: x"),
        (ProxyError::DnsResolution("x".into()), 502, "DNS resolution failed: x", "DNS resolution failed: x"),
        (ProxyError::Protocol("x".into()), 500, "Internal server error", "Protocol error: x"),
        (ProxyError::ResourceExhausted("x".into()), 503, "Service temporarily unavailable: x", "Resource exhausted: x"),
        (ProxyError::Internal("x".into()), 500, "Internal server error", "Internal server error: x"),
    ];
    for (error, status, message, description) in cases {
        assert_eq!(error.http_status_code(), status, "{:?}", error);
        assert_eq!(error.error_message(), message);
        assert_eq!(error.to_string(), description);
    }
}
