use tinyproxy::config::Config;
use tinyproxy::filter::{Filter, FilterRule, Pattern};

// The rules are handed over as the text of the filter file, with the line
// end that writing them to a file adds.
fn create_test_filter_file(content: &str) -> String {
    format!("{}\n", content)
}

#[test]
fn test_filter_disabled() {
    let config = Config::default(); // filter_urls is false by default
    let filter = Filter::new(&config, None);

    assert!(!filter.is_enabled());
    assert!(filter.is_allowed("http://example.com").unwrap());
}

#[test]
fn test_exact_match_filter() {
    let filter_content = "ads\ntracker\n# This is a comment\n\nbadsite.com";
    let filter_file = create_test_filter_file(filter_content);

    let mut config = Config::default();
    config.filter_urls = true;
    config.filter_file = Some("filter".to_string());

    let filter = Filter::new(&config, Some(&filter_file));

    assert!(filter.is_enabled());
    assert_eq!(filter.rule_count(), 3); // ads, tracker, badsite.com

    assert!(!filter.is_allowed("http://ads.example.com").unwrap());
    assert!(!filter.is_allowed("http://tracker.evil.com").unwrap());
    assert!(!filter.is_allowed("http://badsite.com").unwrap());
    assert!(filter.is_allowed("http://goodsite.com").unwrap());
}

#[test]
fn test_domain_filter() {
    let filter_content = ".evil.com\n.ads.net";
    let filter_file = create_test_filter_file(filter_content);

    let mut config = Config::default();
    config.filter_urls = true;
    config.filter_file = Some("filter".to_string());

    let filter = Filter::new(&config, Some(&filter_file));

    assert!(!filter.is_allowed("http://sub.evil.com").unwrap());
    assert!(!filter.is_allowed("http://evil.com").unwrap());
    assert!(!filter.is_allowed("http://tracker.ads.net").unwrap());
    assert!(filter.is_allowed("http://good.com").unwrap());
}

#[test]
fn test_case_sensitivity() {
    let filter_content = "ADS\nTracker";
    let filter_file = create_test_filter_file(filter_content);

    // Case insensitive (default)
    let mut config = Config::default();
    config.filter_urls = true;
    config.filter_casesensitive = false;
    config.filter_file = Some("filter".to_string());

    let filter = Filter::new(&config, Some(&filter_file));

    assert!(!filter.is_allowed("http://ads.example.com").unwrap());
    assert!(!filter.is_allowed("http://TRACKER.com").unwrap());

    // Case sensitive
    config.filter_casesensitive = true;
    let filter = Filter::new(&config, Some(&filter_file));

    assert!(filter.is_allowed("http://ads.example.com").unwrap()); // 'ads' != 'ADS'
    assert!(!filter.is_allowed("http://ADS.example.com").unwrap());
}

#[test]
fn regex_rules() {
    let filter_file = "ads\\d+\\.com\n.*tracker.*\n";

    let mut config = Config::default();
    config.filter_urls = true;
    config.filter_extended = true;

    let filter = Filter::new(&config, Some(filter_file));
    assert_eq!(filter.rule_count(), 2);

    assert!(!filter.is_allowed("http://ads123.com").unwrap());
    assert!(!filter.is_allowed("http://mytracker.evil.com").unwrap());
    assert!(filter.is_allowed("http://ads.com").unwrap()); // No digits
    assert!(filter.is_allowed("http://good.com").unwrap());
}

#[test]
fn a_pattern_that_does_not_compile_is_a_substring() {
    let mut config = Config::default();
    config.filter_urls = true;
    config.filter_extended = true;
    let filter = Filter::new(&config, Some("foo(bar\n.dotted\n"));
    assert_eq!(filter.rule_count(), 2);
    assert!(!filter.is_allowed("http://x/foo(bar").unwrap());
    assert!(filter.is_allowed("http://x/foobar").unwrap());
    // in extended mode a leading dot is part of a pattern: any character
    assert!(!filter.is_allowed("http://xdotted/").unwrap());
}

#[test]
fn the_same_rule_twice_changes_nothing() {
    let mut config = Config::default();
    config.filter_urls = true;
    let once = Filter::new(&config, Some("ads\n.evil.com\n"));
    let twice = Filter::new(&config, Some("ads\n.evil.com\nads\n.evil.com\n"));
    assert_eq!(once.rule_count(), 2);
    assert_eq!(twice.rule_count(), 4);
    for url in [
        "http://ads.example.com",
        "http://evil.com/",
        "http://a.evil.com/",
        "http://good.com/",
        "not a url",
        "not a url .evil.com",
    ] {
        assert_eq!(once.is_allowed(url), twice.is_allowed(url), "{}", url);
    }
}

#[test]
fn domain_rules_look_at_the_host_only() {
    let mut config = Config::default();
    config.filter_urls = true;
    let filter = Filter::new(&config, Some("  .Evil.com  \r\n"));
    assert_eq!(filter.rule_count(), 1);
    assert!(filter.is_allowed("http://good.com/.evil.com").unwrap());
    assert!(filter.is_allowed("http://notevil.com/").unwrap());
    assert!(!filter.is_allowed("http://EVIL.com/").unwrap());
    assert!(!filter.is_allowed("https://a.b.evil.com:8443/x").unwrap());
    // no URL: the rule is looked for in the text
    assert!(!filter.is_allowed("www.evil.com/path").unwrap());
    assert!(filter.is_allowed("evil.com/path").unwrap());
    // `name:443` is a URL with a scheme and without a host
    assert!(filter.is_allowed("www.evil.com:443").unwrap());
    // a URL without a host is never blocked by a domain
    assert!(filter.is_allowed("mailto:someone@x.evil.com").unwrap());
}

#[test]
fn rules_are_loaded_only_when_filtering() {
    let mut config = Config::default();
    let filter = Filter::new(&config, Some("ads\n"));
    assert_eq!(filter.rule_count(), 0);
    assert!(filter.is_allowed("http://ads.example.com").unwrap());
    config.filter_urls = true;
    let mut filter = Filter::new(&config, None);
    assert_eq!(filter.rule_count(), 0);
    assert!(filter.is_allowed("http://ads.example.com").unwrap());
    filter.load_rules("ads\n#x\n\n");
    filter.load_rules("more");
    assert_eq!(filter.rule_count(), 2);
    assert!(!filter.is_allowed("http://ads.example.com").unwrap());
    assert!(!filter.is_allowed("http://example.com/more").unwrap());
}

#[test]
fn patterns() {
    assert!(Pattern::compile("foo(bar").is_none());
    let pattern = Pattern::compile("^a+b$").unwrap();
    assert!(pattern.is_match("aaab"));
    assert!(!pattern.is_match("AAAB"));
    assert!(!pattern.is_match("^a+b$"));
    let filter = Filter::new(&Config::default(), None);
    assert!(filter.matches_rule(&FilterRule::Regex(pattern), "ab"));
    assert!(filter.matches_rule(&FilterRule::Exact("x".to_string()), "axb"));
    assert!(!filter.matches_rule(&FilterRule::Domain(".x".to_string()), "http://y/.x"));
}
