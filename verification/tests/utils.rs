use tinyproxy::utils::{
    format_bytes, format_scaled, is_valid_hostname, parse_http_request, parse_request_text,
    sanitize_header_value,
};

#[test]
fn test_parse_http_request() {
    let request_data =
        b"GET http://example.com/path HTTP/1.1\r\nHost: example.com\r\nUser-Agent: test\r\n\r\n";
    let request = parse_http_request(request_data).unwrap();

    assert_eq!(request.method, "GET");
    assert_eq!(request.uri, "http://example.com/path");
    assert_eq!(request.version, "1.1");
    assert_eq!(request.headers.get("host"), Some(&"example.com".to_string()));
    assert_eq!(request.headers.get("user-agent"), Some(&"test".to_string()));
}

#[test]
fn utils_test_format_bytes() {
    assert_eq!(format_bytes(500), "500 B");
    assert_eq!(format_bytes(1024), "1.00 KB");
    assert_eq!(format_bytes(1536), "1.50 KB");
    assert_eq!(format_bytes(1048576), "1.00 MB");
}

#[test]
fn test_is_valid_hostname() {
    assert!(is_valid_hostname("example.com"));
    assert!(is_valid_hostname("sub.example.com"));
    assert!(is_valid_hostname("test-123.example.com"));

    assert!(!is_valid_hostname(""));
    assert!(!is_valid_hostname("-example.com"));
    assert!(!is_valid_hostname("example-.com"));
    assert!(!is_valid_hostname("example..com"));
}

#[test]
fn hostname_length_limits() {
    let label63 = "a".repeat(63);
    let label64 = "a".repeat(64);
    assert!(is_valid_hostname(&label63));
    assert!(!is_valid_hostname(&label64));
    let long = format!("{}.{}.{}.{}", label63, label63, label63, "a".repeat(61));
    assert_eq!(long.len(), 253);
    assert!(is_valid_hostname(&long));
    let longer = format!("{}.{}.{}.{}", label63, label63, label63, "a".repeat(62));
    assert!(!is_valid_hostname(&longer));
    assert!(!is_valid_hostname("exa mple.com"));
    assert!(!is_valid_hostname("example.com."));
    // length is counted in bytes
    let accented = "\u{e9}".repeat(32);
    assert!(!is_valid_hostname(&accented));
    assert!(is_valid_hostname(&"\u{e9}".repeat(31)));
}

fn float_format(bytes: u64, units: &[&str]) -> String {
    let mut size = bytes as f64;
    let mut unit_index = 0;
    while size >= 1024.0 && unit_index < units.len() - 1 {
        size /= 1024.0;
        unit_index += 1;
    }
    if unit_index == 0 {
        format!("{} {}", bytes, units[unit_index])
    } else {
        format!("{:.2} {}", size, units[unit_index])
    }
}

#[test]
fn format_bytes_agrees_with_floating_point() {
    let units5 = ["B", "KB", "MB", "GB", "TB"];
    let units6 = ["B", "KB", "MB", "GB", "TB", "PB"];
    let mut samples: Vec<u64> = vec![
        0,
        1,
        1023,
        1024,
        1025,
        1029,
        1030,
        1034,
        1035,
        1048575,
        1048576,
        1073741823,
        1073741824,
        1099511627776,
        1125899906842624,
        u64::MAX,
        u64::MAX - 1,
        1 << 53,
        (1 << 53) + 1,
        (1 << 53) + 2,
        (1 << 53) + 3,
        (1 << 60) + 129,
        (1 << 63) + 1024,
        (1 << 63) + 1025,
        (1 << 63) + 3072,
    ];
    // ties of the hundredths: odd multiples of 2^37 / 25 ... and neighbours
    let mut x: u64 = 0x9E37_79B9_7F4A_7C15;
    for _ in 0..20000 {
        x ^= x << 13;
        x ^= x >> 7;
        x ^= x << 17;
        samples.push(x);
        samples.push(x >> 11);
        samples.push(x >> 24);
        samples.push(x >> 40);
    }
    for k in 0..2000u64 {
        let tie = (2 * k + 1) * 25 * (1u64 << 37) / 25 / 25;
        samples.push(tie);
        samples.push(tie.wrapping_add(1));
        samples.push(tie.wrapping_sub(1));
        samples.push((2 * k + 1) * 512 / 100);
        samples.push((2 * k + 1) * 128);
        samples.push((2 * k + 1) * 131072);
    }
    for n in samples {
        assert_eq!(format_bytes(n), float_format(n, &units5), "bytes = {}", n);
        assert_eq!(format_scaled(n, 5), float_format(n, &units6), "bytes = {}", n);
    }
}

#[test]
fn format_bytes_largest() {
    assert_eq!(format_bytes(u64::MAX), "16777216.00 TB");
    assert_eq!(format_bytes(1023), "1023 B");
    assert_eq!(format_bytes(1048575), "1024.00 KB");
}

#[test]
fn sanitize_drops_controls_and_non_ascii() {
    assert_eq!(sanitize_header_value("abc\r\ndef"), "abcdef");
    assert_eq!(sanitize_header_value("caf\u{e9} \u{7f}ok~"), "caf ok~");
    assert_eq!(sanitize_header_value(""), "");
    assert_eq!(sanitize_header_value("tab\there"), "tabhere");
}

#[test]
fn parse_skips_leading_empty_lines() {
    let request = parse_request_text("\r\nGET / HTTP/1.0\r\nHost: a\r\n\r\n").unwrap();
    assert_eq!(request.method, "GET");
    assert_eq!(request.uri, "/");
    assert_eq!(request.version, "1.0");
    assert_eq!(request.headers.get("host"), Some(&"a".to_string()));
}

#[test]
fn parse_rejects_bad_request_lines() {
    let e = parse_request_text("").unwrap_err();
    assert_eq!(e.to_string(), "Invalid HTTP request: Empty request");
    let e = parse_request_text("\r\n\r\n").unwrap_err();
    assert_eq!(e.to_string(), "Invalid HTTP request: Empty request");
    let e = parse_request_text("GET /\r\n\r\n").unwrap_err();
    assert_eq!(e.to_string(), "Invalid HTTP request: Invalid request line format");
    let e = parse_request_text("GET / HTTP/1.1 extra\r\n\r\n").unwrap_err();
    assert_eq!(e.to_string(), "Invalid HTTP request: Invalid request line format");
}

#[test]
fn parse_headers_last_value_wins_and_stops_at_empty_line() {
    let text = "POST /x FOO\nX-A:  one \nno colon here\nx-a: two\nB:c:d\n\nAfter: ignored\n";
    let request = parse_request_text(text).unwrap();
    assert_eq!(request.version, "1.1");
    assert_eq!(request.headers.len(), 2);
    assert_eq!(request.headers.get("x-a"), Some(&"two".to_string()));
    assert_eq!(request.headers.get("b"), Some(&"c:d".to_string()));
    assert_eq!(request.headers.get("after"), None);
    assert_eq!(request.headers.name_at(0), "x-a");
}

#[test]
fn parse_lossy_bytes() {
    let request = parse_http_request(b"GET /\xff HTTP/1.1\r\n\r\n").unwrap();
    assert_eq!(request.uri, "/\u{fffd}");
}
