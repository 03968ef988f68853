use tinyproxy::addr::IpAddress;
use tinyproxy::config::{BasicAuthConfig, Config};
use tinyproxy::connection::{
    after_read, decide, error_response, find_end_of_headers, proxy_auth_required,
    reconstruct_http_request, stats_response, Action, ConnectionHandler, Decision, DialResult,
    Phase, ReadOutcome,
};
use tinyproxy::auth::Authenticator;
use tinyproxy::error::ProxyError;
use tinyproxy::filter::Filter;
use tinyproxy::headers::Headers;
use tinyproxy::origin::{parse_host_port, resolve_origin};
use tinyproxy::pump::PumpStep;
use tinyproxy::utils::{parse_request_text, HttpRequest};

fn client() -> IpAddress {
    IpAddress::V4(u32::from_be_bytes([192, 168, 1, 50]))
}

fn reading<'a>(config: &'a Config, filter: Option<&str>) -> ConnectionHandler<'a> {
    let mut handler = ConnectionHandler::new(client(), "192.168.1.50", config, filter);
    assert_eq!(handler.current_phase(), Phase::New);
    match handler.start() {
        Action::Read { timeout_secs } => assert_eq!(timeout_secs, config.timeout),
        other => panic!("{:?}", other),
    }
    assert_eq!(handler.current_phase(), Phase::ReadingHeaders);
    handler
}

#[test]
fn connect_allowed() {
    let mut config = Config::default();
    config.connect_ports = vec![443];
    let mut handler = reading(&config, None);
    let action =
        handler.on_read(b"CONNECT example.com:443 HTTP/1.1\r\nHost: example.com:443\r\n\r\n");
    match action {
        Action::Dial { target, timeout_secs } => {
            assert_eq!(target, "example.com:443");
            assert_eq!(timeout_secs, 30);
        }
        other => panic!("{:?}", other),
    }
    assert!(handler.has_seen_request());
    assert_eq!(handler.current_phase(), Phase::Dialing);
    match handler.on_dial(DialResult::Connected) {
        Action::Relay { to_client, to_origin } => {
            assert_eq!(to_client, b"HTTP/1.1 200 Connection established\r\n\r\n");
            assert!(to_origin.is_empty());
        }
        other => panic!("{:?}", other),
    }
    assert_eq!(handler.current_phase(), Phase::Relaying);
    match handler.on_relay_done(PumpStep::Done { total: 1234 }) {
        Action::Finish { bytes } => assert_eq!(bytes, 1234),
        other => panic!("{:?}", other),
    }
    assert_eq!(handler.current_phase(), Phase::Done);
}

#[test]
fn connect_denied_port() {
    let mut config = Config::default();
    config.connect_ports = vec![443];
    let mut handler = reading(&config, None);
    match handler.on_read(b"CONNECT example.com:22 HTTP/1.1\r\n\r\n") {
        Action::Respond { response, error } => {
            assert!(response.starts_with("HTTP/1.1 403"));
            assert_eq!(
                error,
                ProxyError::AccessDenied("CONNECT to port 22 is not allowed".to_string())
            );
        }
        other => panic!("{:?}", other),
    }
    assert_eq!(handler.current_phase(), Phase::Failed);
}

fn alice() -> Config {
    let mut config = Config::default();
    config.basic_auth = Some(BasicAuthConfig {
        username: "alice".to_string(),
        password: "secret".to_string(),
        realm: "Tinyproxy".to_string(),
    });
    config
}

#[test]
fn auth_required() {
    let config = alice();
    let mut handler = reading(&config, None);
    match handler.on_read(b"GET http://x/ HTTP/1.1\r\n\r\n") {
        Action::Respond { response, error } => {
            assert!(response.starts_with("HTTP/1.1 407"));
            assert!(response.contains("Proxy-Authenticate: Basic realm=\"Tinyproxy\""));
            assert_eq!(error, ProxyError::AuthenticationFailed);
        }
        other => panic!("{:?}", other),
    }
    assert_eq!(handler.current_phase(), Phase::Failed);
}

#[test]
fn auth_success() {
    let config = alice();
    let mut handler = reading(&config, None);
    let action = handler.on_read(
        b"GET http://x/ HTTP/1.1\r\nProxy-Authorization: Basic YWxpY2U6c2VjcmV0\r\n\r\n",
    );
    match action {
        Action::Dial { target, .. } => assert_eq!(target, "x:80"),
        other => panic!("{:?}", other),
    }
    match handler.on_dial(DialResult::Connected) {
        Action::Relay { to_client, to_origin } => {
            assert!(to_client.is_empty());
            assert_eq!(
                to_origin,
                b"GET http://x/ HTTP/1.1\r\nproxy-authorization: Basic YWxpY2U6c2VjcmV0\r\n\r\n"
            );
        }
        other => panic!("{:?}", other),
    }
}

#[test]
fn malformed_credentials_are_asked_for_again() {
    let config = alice();
    let mut handler = reading(&config, None);
    match handler.on_read(b"GET http://x/ HTTP/1.1\r\nProxy-Authorization: Bearer t\r\n\r\n") {
        Action::Respond { response, error } => {
            assert!(response.starts_with("HTTP/1.1 407"));
            assert_eq!(error, ProxyError::AuthenticationFailed);
        }
        other => panic!("{:?}", other),
    }
}

#[test]
fn acl_deny_wins() {
    let mut config = Config::default();
    config.allow = vec!["192.168.1.0/24".to_string()];
    config.deny = vec!["192.168.1.100".to_string()];
    let denied = IpAddress::V4(u32::from_be_bytes([192, 168, 1, 100]));
    let mut handler = ConnectionHandler::new(denied, "192.168.1.100", &config, None);
    match handler.start() {
        Action::Respond { response, error } => {
            assert!(response.starts_with("HTTP/1.1 403 Forbidden\r\n"));
            assert_eq!(
                error,
                ProxyError::AccessDenied("IP 192.168.1.100 is not allowed".to_string())
            );
        }
        other => panic!("{:?}", other),
    }
    assert_eq!(handler.current_phase(), Phase::Failed);
    let mut handler = ConnectionHandler::new(client(), "192.168.1.50", &config, None);
    assert!(matches!(handler.start(), Action::Read { timeout_secs: 600 }));
}

#[test]
fn filter_block() {
    let mut config = Config::default();
    config.filter_urls = true;
    let mut handler = reading(&config, Some("ads\n"));
    match handler.on_read(b"GET http://ads.example.com/ HTTP/1.1\r\n\r\n") {
        Action::Respond { response, error } => {
            assert!(response.starts_with("HTTP/1.1 403"));
            assert_eq!(error, ProxyError::FilterBlocked("http://ads.example.com/".to_string()));
        }
        other => panic!("{:?}", other),
    }
    let mut handler = reading(&config, Some("ads\n"));
    match handler.on_read(b"GET http://example.com/ HTTP/1.1\r\n\r\n") {
        Action::Dial { target, .. } => assert_eq!(target, "example.com:80"),
        other => panic!("{:?}", other),
    }
}

#[test]
fn headers_arrive_in_pieces() {
    let config = Config::default();
    let mut handler = reading(&config, None);
    assert!(matches!(handler.on_read(b"POST /submit HTTP/1.1\r\nHo"), Action::Read { .. }));
    assert!(!handler.has_seen_request());
    assert!(matches!(handler.on_read(b"st: origin.example:8080\r\n\r"), Action::Read { .. }));
    match handler.on_read(b"\nbody starts here") {
        Action::Dial { target, .. } => assert_eq!(target, "origin.example:8080"),
        other => panic!("{:?}", other),
    }
    match handler.on_dial(DialResult::Connected) {
        Action::Relay { to_client, to_origin } => {
            assert!(to_client.is_empty());
            assert_eq!(
                String::from_utf8(to_origin).unwrap(),
                "POST /submit HTTP/1.1\r\nhost: origin.example:8080\r\n\r\nbody starts here"
            );
        }
        other => panic!("{:?}", other),
    }
}

#[test]
fn closing_before_and_in_the_middle() {
    let config = Config::default();
    let mut handler = reading(&config, None);
    assert!(matches!(handler.on_read(b""), Action::Close));
    assert_eq!(handler.current_phase(), Phase::Done);
    let mut handler = reading(&config, None);
    assert!(matches!(handler.on_read(b"GET / HT"), Action::Read { .. }));
    match handler.on_read(b"") {
        Action::Respond { response, error } => {
            assert!(response.starts_with("HTTP/1.1 400 Bad Request\r\n"));
            assert_eq!(error, ProxyError::InvalidRequest("Incomplete request".to_string()));
        }
        other => panic!("{:?}", other),
    }
    assert_eq!(handler.current_phase(), Phase::Failed);
}

#[test]
fn header_cap() {
    let config = Config::default();
    let mut handler = reading(&config, None);
    let stream = vec![b'a'; 16385];
    match handler.on_read(&stream) {
        Action::Respond { error, .. } => {
            assert_eq!(error, ProxyError::InvalidRequest("Request headers too large".to_string()))
        }
        other => panic!("{:?}", other),
    }
    // exactly at the cap more is read
    let mut handler = reading(&config, None);
    assert!(matches!(handler.on_read(&vec![b'a'; 16384]), Action::Read { .. }));
    match handler.on_read(b"a") {
        Action::Respond { error, .. } => {
            assert_eq!(error, ProxyError::InvalidRequest("Request headers too large".to_string()))
        }
        other => panic!("{:?}", other),
    }
    assert!(matches!(
        after_read(&vec![b'a'; 16385], 1, 16384),
        ReadOutcome::Failed { error: ProxyError::InvalidRequest(_) }
    ));
    assert!(matches!(after_read(&vec![b'a'; 20], 1, 10), ReadOutcome::Failed { .. }));
    assert!(matches!(after_read(&vec![b'a'; 10], 1, 10), ReadOutcome::NeedMore));
    assert!(matches!(after_read(b"", 0, 10), ReadOutcome::Closed));
    // headers over the cap that are complete all the same are taken
    let mut long = vec![b'a'; 20000];
    long.extend_from_slice(b"\r\n\r\nrest");
    match after_read(&long, 100, 16384) {
        ReadOutcome::Complete { head, rest } => {
            assert_eq!(head.len(), 20004);
            assert_eq!(rest, b"rest");
        }
        other => panic!("{:?}", other),
    }
}

#[test]
fn end_of_headers() {
    assert_eq!(find_end_of_headers(b""), None);
    assert_eq!(find_end_of_headers(b"\r\n\r"), None);
    assert_eq!(find_end_of_headers(b"\r\n\r\n"), Some(0));
    assert_eq!(find_end_of_headers(b"a\r\n\r\n"), Some(1));
    assert_eq!(find_end_of_headers(b"GET / HTTP/1.1\r\nA: b\r\n\r\nbody\r\n\r\nmore"), Some(20));
    assert_eq!(find_end_of_headers(b"\r\r\n\r\n\r\n"), Some(1));
    assert_eq!(find_end_of_headers(b"\n\r\n\r\r\n\n\r\n"), None);
    match after_read(b"GET / HTTP/1.1\r\nA: b\r\n\r\nbody\r\n\r\nmore", 5, 100) {
        ReadOutcome::Complete { head, rest } => {
            assert_eq!(head, b"GET / HTTP/1.1\r\nA: b\r\n\r\n");
            assert_eq!(rest, b"body\r\n\r\nmore");
        }
        other => panic!("{:?}", other),
    }
}

#[test]
fn timeouts_and_failures() {
    let config = Config::default();
    let mut handler = reading(&config, None);
    match handler.on_read_timeout() {
        Action::Respond { response, error } => {
            assert!(response.starts_with("HTTP/1.1 408 Request Timeout\r\n"));
            assert_eq!(error, ProxyError::Timeout);
        }
        other => panic!("{:?}", other),
    }
    let mut handler = reading(&config, None);
    match handler.on_read_error("reset".to_string()) {
        Action::Abort { error } => assert_eq!(error, ProxyError::Io("reset".to_string())),
        other => panic!("{:?}", other),
    }
    let mut handler = reading(&config, None);
    handler.on_read(b"CONNECT h:443 HTTP/1.1\r\n\r\n");
    match handler.on_dial(DialResult::Failed { message: "refused".to_string() }) {
        Action::Respond { response, error } => {
            assert!(response.starts_with("HTTP/1.1 502 Bad Gateway\r\n"));
            assert_eq!(
                error,
                ProxyError::Upstream("Failed to connect to h:443: refused".to_string())
            );
        }
        other => panic!("{:?}", other),
    }
    let mut handler = reading(&config, None);
    handler.on_read(b"CONNECT h:443 HTTP/1.1\r\n\r\n");
    match handler.on_dial(DialResult::TimedOut) {
        Action::Respond { response, error } => {
            assert!(response.starts_with("HTTP/1.1 408"));
            assert_eq!(error, ProxyError::Timeout);
        }
        other => panic!("{:?}", other),
    }
    let mut handler = reading(&config, None);
    handler.on_read(b"CONNECT h:443 HTTP/1.1\r\n\r\n");
    handler.on_dial(DialResult::Connected);
    match handler.on_relay_done(PumpStep::Failed { error: ProxyError::Io("broken pipe".to_string()) }) {
        Action::Abort { error } => assert_eq!(error, ProxyError::Io("broken pipe".to_string())),
        other => panic!("{:?}", other),
    }
    assert_eq!(handler.current_phase(), Phase::Failed);
}

#[test]
fn methods() {
    let config = Config::default();
    for method in ["GET", "POST", "PUT", "DELETE", "HEAD", "OPTIONS", "PATCH"] {
        let mut handler = reading(&config, None);
        let text = format!("{} http://h:81/p HTTP/1.1\r\n\r\n", method);
        match handler.on_read(text.as_bytes()) {
            Action::Dial { target, .. } => assert_eq!(target, "h:81"),
            other => panic!("{:?}", other),
        }
    }
    for method in ["TRACE", "get", "connect", "BREW"] {
        let mut handler = reading(&config, None);
        let text = format!("{} http://h/ HTTP/1.1\r\n\r\n", method);
        match handler.on_read(text.as_bytes()) {
            Action::Respond { response, error } => {
                assert!(response.starts_with("HTTP/1.1 405 Method Not Allowed\r\n"));
                assert_eq!(
                    error,
                    ProxyError::InvalidRequest(format!("Unsupported method: {}", method))
                );
            }
            other => panic!("{:?}", other),
        }
    }
    let mut handler = reading(&config, None);
    match handler.on_read(b"nonsense\r\n\r\n") {
        Action::Respond { response, error } => {
            assert!(response.starts_with("HTTP/1.1 400"));
            assert_eq!(
                error,
                ProxyError::InvalidRequest("Invalid request line format".to_string())
            );
        }
        other => panic!("{:?}", other),
    }
    assert!(!handler.has_seen_request());
}

#[test]
fn statistics_host() {
    let mut config = Config::default();
    config.stat_host = Some("stats.local".to_string());
    let mut handler = reading(&config, None);
    assert!(matches!(
        handler.on_read(b"GET / HTTP/1.1\r\nHost: my.stats.local:80\r\n\r\n"),
        Action::ShowStats
    ));
    assert_eq!(handler.current_phase(), Phase::Done);
    // without a Host header no request asks for the statistics
    let mut handler = reading(&config, None);
    assert!(matches!(
        handler.on_read(b"GET http://stats.local/ HTTP/1.1\r\n\r\n"),
        Action::Dial { .. }
    ));
    let mut handler = reading(&config, None);
    assert!(matches!(
        handler.on_read(b"GET http://stats.local/ HTTP/1.1\r\nHost: other\r\n\r\n"),
        Action::Dial { .. }
    ));
}

#[test]
fn pages() {
    assert_eq!(
        error_response(403, "Forbidden"),
        "HTTP/1.1 403 Forbidden\r\nContent-Type: text/html\r\nContent-Length: 48\r\nConnection: close\r\n\r\n<html><body><h1>403 Forbidden</h1></body></html>"
    );
    assert_eq!(
        proxy_auth_required("My Realm"),
        "HTTP/1.1 407 Proxy Authentication Required\r\nProxy-Authenticate: Basic realm=\"My Realm\"\r\nContent-Type: text/html\r\nContent-Length: 68\r\nConnection: close\r\n\r\n<html><body><h1>407 Proxy Authentication Required</h1></body></html>"
    );
    assert_eq!(
        stats_response("<p>\u{e9}</p>"),
        "HTTP/1.1 200 OK\r\nContent-Type: text/html; charset=utf-8\r\nContent-Length: 9\r\nConnection: close\r\nCache-Control: no-cache\r\n\r\n<p>\u{e9}</p>"
    );
}

fn request(method: &str, uri: &str, headers: &[(&str, &str)]) -> HttpRequest {
    let mut h = Headers::new();
    for (name, value) in headers {
        h.insert(name.to_string(), value.to_string());
    }
    HttpRequest { method: method.to_string(), uri: uri.to_string(), version: "1.1".to_string(), headers: h }
}

#[test]
fn rebuilt_requests() {
    let r = request("GET", "/index.html", &[("host", "example.com"), ("accept", "*/*")]);
    assert_eq!(
        reconstruct_http_request(&r, "http://example.com:80/index.html"),
        b"GET /index.html HTTP/1.1\r\nhost: example.com\r\naccept: */*\r\n\r\n"
    );
    assert_eq!(
        reconstruct_http_request(&r, "/other"),
        b"GET /other HTTP/1.1\r\nhost: example.com\r\naccept: */*\r\n\r\n"
    );
    let r = request("GET", "http://example.com/a", &[]);
    assert_eq!(
        reconstruct_http_request(&r, "http://example.com/a"),
        b"GET http://example.com/a HTTP/1.1\r\n\r\n"
    );
}

#[test]
fn origins() {
    let o = resolve_origin(&request("GET", "http://example.com/a", &[])).unwrap();
    assert_eq!((o.host.as_str(), o.port, o.target_uri.as_str()), ("example.com", 80, "http://example.com/a"));
    let o = resolve_origin(&request("GET", "https://example.com/a", &[])).unwrap();
    assert_eq!((o.host.as_str(), o.port), ("example.com", 443));
    let o = resolve_origin(&request("GET", "https://Example.com:8443/a", &[])).unwrap();
    assert_eq!((o.host.as_str(), o.port), ("example.com", 8443));
    let o = resolve_origin(&request("GET", "http://example.com:80/", &[])).unwrap();
    assert_eq!((o.host.as_str(), o.port), ("example.com", 80));
    let o = resolve_origin(&request("GET", "/a?b", &[("host", "h.example")])).unwrap();
    assert_eq!((o.host.as_str(), o.port, o.target_uri.as_str()), ("h.example", 80, "http://h.example:80/a?b"));
    let o = resolve_origin(&request("GET", "/a", &[("host", "h.example:8080")])).unwrap();
    assert_eq!((o.host.as_str(), o.port, o.target_uri.as_str()), ("h.example", 8080, "http://h.example:8080/a"));
    assert_eq!(
        resolve_origin(&request("GET", "/a", &[])).unwrap_err(),
        ProxyError::InvalidRequest("No Host header for relative URL".to_string())
    );
    assert_eq!(
        resolve_origin(&request("GET", "/a", &[("host", "h:http")])).unwrap_err(),
        ProxyError::InvalidRequest("Invalid port in Host header: http".to_string())
    );
    assert_eq!(
        resolve_origin(&request("GET", "/a", &[("host", "[::1]")])).unwrap_err(),
        ProxyError::InvalidRequest("Invalid port in Host header: 1]".to_string())
    );
    assert_eq!(
        resolve_origin(&request("GET", "http://", &[])).unwrap_err(),
        ProxyError::InvalidRequest("Invalid URL: empty host".to_string())
    );
    assert_eq!(parse_host_port("example.com:443"), Ok(("example.com".to_string(), 443)));
    assert_eq!(parse_host_port("example.com"), Ok(("example.com".to_string(), 80)));
    assert_eq!(
        parse_host_port("example.com:https"),
        Err(ProxyError::InvalidRequest("Invalid port: https".to_string()))
    );
    assert_eq!(
        parse_host_port("[::1]:443"),
        Err(ProxyError::InvalidRequest("Invalid host:port format: [::1]:443".to_string()))
    );
}

#[test]
fn decisions() {
    let mut config = Config::default();
    config.filter_urls = true;
    let auth = Authenticator::new(&config);
    let filter = Filter::new(&config, Some(".blocked.example\n"));
    let parsed = parse_request_text("GET http://a.blocked.example/ HTTP/1.1\r\n\r\n").unwrap();
    assert!(matches!(decide(&parsed, &config, &auth, &filter), Decision::Reject { status: 403, .. }));
    // `host:port` reads as a URL without a host, which no domain rule blocks
    let parsed = parse_request_text("CONNECT a.blocked.example:443 HTTP/1.1\r\n\r\n").unwrap();
    assert!(matches!(decide(&parsed, &config, &auth, &filter), Decision::Tunnel { .. }));
    let parsed = parse_request_text("CONNECT a.example:443 HTTP/1.1\r\n\r\n").unwrap();
    match decide(&parsed, &config, &auth, &filter) {
        Decision::Tunnel { host, port } => assert_eq!((host.as_str(), port), ("a.example", 443)),
        other => panic!("{:?}", other),
    }
    let parsed = parse_request_text("CONNECT a.example HTTP/1.1\r\n\r\n").unwrap();
    assert!(matches!(decide(&parsed, &config, &auth, &filter), Decision::Reject { status: 403, .. }));
    let parsed = parse_request_text("CONNECT a.example:x HTTP/1.1\r\n\r\n").unwrap();
    assert!(matches!(decide(&parsed, &config, &auth, &filter), Decision::Reject { status: 400, .. }));
    let parsed = parse_request_text("GET /x HTTP/1.1\r\n\r\n").unwrap();
    assert!(matches!(decide(&parsed, &config, &auth, &filter), Decision::Reject { status: 400, .. }));
}
