use base64::{engine::general_purpose::STANDARD, Engine as _};
use tinyproxy::auth::{check_credentials, Authenticator};
use tinyproxy::config::{BasicAuthConfig, Config};
use tinyproxy::error::ProxyError;
use tinyproxy::headers::Headers;
use tinyproxy::utils::HttpRequest;

fn create_test_request_with_auth(auth_header: Option<&str>) -> HttpRequest {
    let mut headers = Headers::new();
    if let Some(header) = auth_header {
        headers.insert("proxy-authorization".to_string(), header.to_string());
    }

    HttpRequest {
        method: "GET".to_string(),
        uri: "http://example.com".to_string(),
        version: "1.1".to_string(),
        headers,
    }
}

fn test_credentials() -> BasicAuthConfig {
    BasicAuthConfig {
        username: "user".to_string(),
        password: "pass".to_string(),
        realm: "Test".to_string(),
    }
}

#[test]
fn test_no_auth_configured() {
    let config = Config::default();
    let auth = Authenticator::new(&config);
    let request = create_test_request_with_auth(None);

    assert!(auth.authenticate(&request).unwrap());
    assert!(!auth.is_enabled());
}

#[test]
fn test_missing_auth_header() {
    let mut config = Config::default();
    config.basic_auth = Some(test_credentials());

    let auth = Authenticator::new(&config);
    let request = create_test_request_with_auth(None);

    assert!(!auth.authenticate(&request).unwrap());
    assert!(auth.is_enabled());
}

#[test]
fn test_valid_auth() {
    let mut config = Config::default();
    config.basic_auth = Some(test_credentials());

    let auth = Authenticator::new(&config);

    // Create valid Basic auth header (user:pass in base64)
    let credentials = STANDARD.encode("user:pass");
    let auth_header = format!("Basic {}", credentials);
    let request = create_test_request_with_auth(Some(&auth_header));

    assert!(auth.authenticate(&request).unwrap());
}

#[test]
fn test_invalid_auth() {
    let mut config = Config::default();
    config.basic_auth = Some(test_credentials());

    let auth = Authenticator::new(&config);

    // Create invalid Basic auth header
    let credentials = STANDARD.encode("wrong:credentials");
    let auth_header = format!("Basic {}", credentials);
    let request = create_test_request_with_auth(Some(&auth_header));

    assert!(!auth.authenticate(&request).unwrap());
}

#[test]
fn test_malformed_auth_header() {
    let mut config = Config::default();
    config.basic_auth = Some(test_credentials());

    let auth = Authenticator::new(&config);
    let request = create_test_request_with_auth(Some("Bearer token123"));

    assert!(auth.authenticate(&request).is_err());
}

#[test]
fn realm_of_the_authenticator() {
    let mut config = Config::default();
    assert_eq!(Authenticator::new(&config).get_realm(), "Tinyproxy");
    config.basic_auth = Some(test_credentials());
    assert_eq!(Authenticator::new(&config).get_realm(), "Test");
}

#[test]
fn hard_errors() {
    let mut config = Config::default();
    config.basic_auth = Some(test_credentials());
    let auth = Authenticator::new(&config);
    for header in [
        "basic dXNlcjpwYXNz",
        "Basic",
        "Basic dXNlcjpwYXNz!",
        "Basic dXNlcjpwYXN",
        "Basic  dXNlcjpwYXNz",
        "Basic dXNlcg==",
        "Basic /w==",
    ] {
        let request = create_test_request_with_auth(Some(header));
        assert_eq!(
            auth.authenticate(&request),
            Err(ProxyError::AuthenticationFailed),
            "{:?}",
            header
        );
    }
    // an empty payload decodes to an empty text, which holds no colon
    let request = create_test_request_with_auth(Some("Basic "));
    assert_eq!(auth.authenticate(&request), Err(ProxyError::AuthenticationFailed));
}

#[test]
fn round_trip_and_flipped_bits() {
    let mut config = Config::default();
    config.basic_auth = Some(BasicAuthConfig {
        username: "alice".to_string(),
        password: "se:cret".to_string(),
        realm: "Tinyproxy".to_string(),
    });
    let auth = Authenticator::new(&config);
    let header = |user: &[u8], pass: &[u8]| {
        let mut raw = user.to_vec();
        raw.push(b':');
        raw.extend_from_slice(pass);
        format!("Basic {}", STANDARD.encode(raw))
    };
    let request = create_test_request_with_auth(Some(&header(b"alice", b"se:cret")));
    assert_eq!(auth.authenticate(&request), Ok(true));
    let user = b"alice";
    let pass = b"se:cret";
    for i in 0..user.len() {
        for bit in 0..7 {
            let mut u = user.to_vec();
            u[i] ^= 1 << bit;
            if u.contains(&b':') {
                continue;
            }
            let request = create_test_request_with_auth(Some(&header(&u, pass)));
            assert_eq!(auth.authenticate(&request), Ok(false));
        }
    }
    for i in 0..pass.len() {
        for bit in 0..7 {
            let mut p = pass.to_vec();
            p[i] ^= 1 << bit;
            let request = create_test_request_with_auth(Some(&header(user, &p)));
            assert_eq!(auth.authenticate(&request), Ok(false));
        }
    }
}

#[test]
fn decoded_credentials() {
    let creds = test_credentials();
    assert_eq!(check_credentials(&creds, b"user:pass".to_vec()), Ok(true));
    assert_eq!(check_credentials(&creds, b"user:pass:".to_vec()), Ok(false));
    assert_eq!(check_credentials(&creds, b"user:".to_vec()), Ok(false));
    assert_eq!(check_credentials(&creds, b":pass".to_vec()), Ok(false));
    assert_eq!(check_credentials(&creds, b"userpass".to_vec()), Err(ProxyError::AuthenticationFailed));
    assert_eq!(check_credentials(&creds, vec![0xff, b':', b'x']), Err(ProxyError::AuthenticationFailed));
    assert_eq!(check_credentials(&creds, Vec::new()), Err(ProxyError::AuthenticationFailed));
}
