use tinyproxy::acl::{parse_ip_rule, AccessControl, IpRule};
use tinyproxy::addr::IpAddress;
use tinyproxy::config::Config;

fn v4(a: u8, b: u8, c: u8, d: u8) -> IpAddress {
    IpAddress::V4(u32::from_be_bytes([a, b, c, d]))
}

#[test]
fn test_parse_ip_rule() {
    assert!(matches!(parse_ip_rule("all"), Ok(IpRule::All)));
    assert!(matches!(parse_ip_rule("*"), Ok(IpRule::All)));

    assert!(matches!(parse_ip_rule("192.168.1.1"), Ok(IpRule::Single(IpAddress::V4(_)))));

    assert!(matches!(parse_ip_rule("192.168.1.0/24"), Ok(IpRule::Network { .. })));
}

#[test]
fn test_ip_in_network() {
    let acl = AccessControl::new(&Config::default());

    let network = v4(192, 168, 1, 0);
    let ip1 = v4(192, 168, 1, 100);
    let ip2 = v4(192, 168, 2, 100);

    assert!(acl.ip_in_network(&ip1, &network, 24));
    assert!(!acl.ip_in_network(&ip2, &network, 24));
}

#[test]
fn test_access_control() {
    let mut config = Config::default();
    config.allow = vec!["192.168.1.0/24".to_string()];
    config.deny = vec!["192.168.1.100".to_string()];

    let acl = AccessControl::new(&config);

    let allowed_addr = v4(192, 168, 1, 50);
    let denied_addr = v4(192, 168, 1, 100);
    let blocked_addr = v4(10, 0, 0, 1);

    assert!(acl.is_allowed(&allowed_addr));
    assert!(!acl.is_allowed(&denied_addr)); // Explicitly denied
    assert!(!acl.is_allowed(&blocked_addr)); // Not in allow list
}

#[test]
fn rule_texts() {
    assert_eq!(parse_ip_rule("  all  "), Ok(IpRule::All));
    assert_eq!(
        parse_ip_rule("10.0.0.0/8"),
        Ok(IpRule::Network { network: v4(10, 0, 0, 0), prefix: 8 })
    );
    assert_eq!(
        parse_ip_rule("::1/128"),
        Ok(IpRule::Network { network: IpAddress::V6(1), prefix: 128 })
    );
    assert_eq!(parse_ip_rule("fe80::1"), Ok(IpRule::Single(IpAddress::V6(0xfe80 << 112 | 1))));
    assert_eq!(
        parse_ip_rule("10.0.0.0/33"),
        Err("Prefix length 33 too large for IP version".to_string())
    );
    assert_eq!(
        parse_ip_rule("::/129"),
        Err("Prefix length 129 too large for IP version".to_string())
    );
    assert_eq!(parse_ip_rule("10.0.0/8"), Err("Invalid network address: 10.0.0".to_string()));
    assert_eq!(parse_ip_rule("10.0.0.0/x"), Err("Invalid prefix length: x".to_string()));
    assert_eq!(parse_ip_rule("10.0.0.0/256"), Err("Invalid prefix length: 256".to_string()));
    assert_eq!(parse_ip_rule("10.0.0.0/"), Err("Invalid prefix length: ".to_string()));
    assert_eq!(parse_ip_rule("localhost"), Err("Invalid IP address: localhost".to_string()));
    assert_eq!(parse_ip_rule("ALL"), Err("Invalid IP address: ALL".to_string()));
}

#[test]
fn default_is_permit_all() {
    let acl = AccessControl::new(&Config::default());
    assert!(acl.is_allowed(&v4(1, 2, 3, 4)));
    assert!(acl.is_allowed(&IpAddress::V6(1)));
}

#[test]
fn invalid_rules_are_skipped() {
    let mut config = Config::default();
    config.allow = vec!["nonsense".to_string()];
    let acl = AccessControl::new(&config);
    // no rule at all was read: everything is allowed
    assert!(acl.is_allowed(&v4(1, 2, 3, 4)));

    config.deny = vec!["10.0.0.1".to_string()];
    let acl = AccessControl::new(&config);
    // a deny rule alone: nothing is allowed
    assert!(!acl.is_allowed(&v4(10, 0, 0, 1)));
    assert!(!acl.is_allowed(&v4(10, 0, 0, 2)));
}

#[test]
fn default_deny_with_allow_list() {
    let mut config = Config::default();
    config.allow = vec!["10.0.0.0/8".to_string(), "2001:db8::/32".to_string()];
    let acl = AccessControl::new(&config);
    assert!(acl.is_allowed(&v4(10, 255, 0, 1)));
    assert!(!acl.is_allowed(&v4(11, 0, 0, 1)));
    assert!(acl.is_allowed(&IpAddress::V6(0x2001_0db8_ffff << 80)));
    assert!(!acl.is_allowed(&IpAddress::V6(0x2001_0db9 << 96)));
}

#[test]
fn cidr_prefixes() {
    let acl = AccessControl::new(&Config::default());
    let net = v4(192, 168, 1, 0);
    // a /24 rule matches all of a /25 subrange
    for host in [0u8, 1, 64, 127] {
        assert!(acl.ip_in_network(&v4(192, 168, 1, host), &net, 25));
        assert!(acl.ip_in_network(&v4(192, 168, 1, host), &net, 24));
    }
    assert!(!acl.ip_in_network(&v4(192, 168, 1, 128), &net, 25));
    assert!(acl.ip_in_network(&v4(192, 168, 1, 128), &net, 24));
    // prefix 0 matches everything of the family, 32 only the address itself
    assert!(acl.ip_in_network(&v4(8, 8, 8, 8), &net, 0));
    assert!(acl.ip_in_network(&net, &net, 32));
    assert!(!acl.ip_in_network(&v4(192, 168, 1, 1), &net, 32));
    let net6 = IpAddress::V6(0xfe80 << 112);
    assert!(acl.ip_in_network(&IpAddress::V6((0xfe80 << 112) | 77), &net6, 64));
    assert!(!acl.ip_in_network(&IpAddress::V6((0xfe81 << 112) | 77), &net6, 64));
    assert!(acl.ip_in_network(&IpAddress::V6(5), &net6, 0));
    assert!(acl.ip_in_network(&net6, &net6, 128));
    assert!(!acl.ip_in_network(&IpAddress::V6((0xfe80 << 112) | 1), &net6, 128));
}

#[test]
fn families_do_not_mix() {
    let acl = AccessControl::new(&Config::default());
    assert!(!acl.ip_in_network(&IpAddress::V6(0), &v4(0, 0, 0, 0), 0));
    assert!(!acl.ip_in_network(&v4(0, 0, 0, 0), &IpAddress::V6(0), 0));
    assert!(!acl.matches_rule(&IpRule::Single(v4(0, 0, 0, 1)), &IpAddress::V6(1)));
    assert!(!acl.matches_rule(&IpRule::Single(IpAddress::V6(1)), &v4(0, 0, 0, 1)));
    assert!(acl.matches_rule(&IpRule::All, &IpAddress::V6(1)));
    let mut config = Config::default();
    config.allow = vec!["0.0.0.0/0".to_string()];
    let acl = AccessControl::new(&config);
    assert!(acl.is_allowed(&v4(9, 9, 9, 9)));
    assert!(!acl.is_allowed(&IpAddress::V6(9)));
}

#[test]
fn is_allowed_gives_the_same_answer_again() {
    let mut config = Config::default();
    config.allow = vec!["192.168.1.0/24".to_string()];
    config.deny = vec!["192.168.1.100".to_string()];
    let acl = AccessControl::new(&config);
    for ip in [v4(192, 168, 1, 50), v4(192, 168, 1, 100), v4(10, 0, 0, 1)] {
        let first = acl.is_allowed(&ip);
        assert_eq!(acl.is_allowed(&ip), first);
        assert_eq!(acl.is_allowed(&ip), first);
    }
}
