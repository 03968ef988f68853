//! The configuration of the proxy and its textual form: one directive to a
//! line, a name and a value with whitespace between them; names in any case;
//! `#` begins a comment that runs to the end of the line.

use crate::addr::{ip_of, parse_ip, parse_unsigned, unsigned_of, IpAddress};
use crate::error::{ErrorView, ProxyError, ProxyResult};
use crate::headers::{HeaderList, Headers};
use crate::text::{
    chars_of, find_char, is_word, lines, lowercase, position, skip_word, split, split_lines,
    split_on, text_of, to_lower, trim, trimmed, views, word_run,
};
use std::collections::HashMap;
use vstd::prelude::*;
use vstd::slice::slice_subrange;
use vstd::string::StringExecFns;

verus! {

broadcast use vstd::std_specs::hash::group_hash_axioms;

/// The user and password that clients must present, and the realm to ask under.
#[derive(Debug, Clone)]
pub struct BasicAuthConfig {
    pub username: String,
    pub password: String,
    pub realm: String,
}

/// An upstream proxy.
#[derive(Debug, Clone)]
pub struct UpstreamConfig {
    /// `http` or `socks5`.
    pub upstream_type: String,
    pub host: String,
    pub port: u16,
    pub username: Option<String>,
    pub password: Option<String>,
    /// The domain that this upstream serves, where it serves only one.
    pub domain: Option<String>,
}

/// A path that is proxied in reverse, and the URL that it is proxied to.
#[derive(Debug, Clone)]
pub struct ReverseProxyConfig {
    pub path: String,
    pub url: String,
}

/// The configuration of the proxy. It does not change while the proxy runs.
#[derive(Debug, Clone)]
pub struct Config {
    pub port: u16,
    pub bind_address: IpAddress,
    pub listen_addresses: Vec<IpAddress>,
    pub bind_same: bool,
    pub user: Option<String>,
    pub group: Option<String>,
    pub daemon: bool,
    pub pidfile: Option<String>,
    /// Seconds that a read of the request headers may take.
    pub timeout: u64,
    pub max_clients: usize,
    /// Zero for no limit.
    pub max_requests_per_child: usize,
    pub max_spare_servers: usize,
    pub min_spare_servers: usize,
    pub start_servers: usize,
    pub logfile: Option<String>,
    pub syslog: bool,
    pub log_level: String,
    pub debug: bool,
    pub allow: Vec<String>,
    pub deny: Vec<String>,
    pub basic_auth: Option<BasicAuthConfig>,
    pub upstream: Vec<UpstreamConfig>,
    pub reverse_proxy: Vec<ReverseProxyConfig>,
    pub transparent_proxy: bool,
    pub filter_file: Option<String>,
    pub filter_urls: bool,
    pub filter_extended: bool,
    pub filter_casesensitive: bool,
    pub anonymous: Vec<String>,
    pub via_proxy_name: Option<String>,
    pub x_tinyproxy: bool,
    pub add_headers: Headers,
    pub connect_ports: Vec<u16>,
    pub disable_via_header: bool,
    pub stat_host: Option<String>,
    pub stat_file: Option<String>,
    pub error_files: HashMap<u16, String>,
    pub default_error_file: Option<String>,
    pub buffer_size: usize,
    /// The most bytes that the headers of a request may take.
    pub max_header_size: usize,
    pub connection_pool_size: usize,
}

/// `BasicAuthConfig` with its strings as sequences of characters.
pub struct BasicAuthView {
    pub username: Seq<char>,
    pub password: Seq<char>,
    pub realm: Seq<char>,
}

/// `UpstreamConfig` with its strings as sequences of characters.
pub struct UpstreamView {
    pub upstream_type: Seq<char>,
    pub host: Seq<char>,
    pub port: u16,
    pub username: Option<Seq<char>>,
    pub password: Option<Seq<char>>,
    pub domain: Option<Seq<char>>,
}

/// `ReverseProxyConfig` with its strings as sequences of characters.
pub struct ReverseProxyView {
    pub path: Seq<char>,
    pub url: Seq<char>,
}

/// `Config` with its strings as sequences of characters and its lists as sequences.
pub struct ConfigView {
    pub port: u16,
    pub bind_address: IpAddress,
    pub listen_addresses: Seq<IpAddress>,
    pub bind_same: bool,
    pub user: Option<Seq<char>>,
    pub group: Option<Seq<char>>,
    pub daemon: bool,
    pub pidfile: Option<Seq<char>>,
    pub timeout: u64,
    pub max_clients: usize,
    pub max_requests_per_child: usize,
    pub max_spare_servers: usize,
    pub min_spare_servers: usize,
    pub start_servers: usize,
    pub logfile: Option<Seq<char>>,
    pub syslog: bool,
    pub log_level: Seq<char>,
    pub debug: bool,
    pub allow: Seq<Seq<char>>,
    pub deny: Seq<Seq<char>>,
    pub basic_auth: Option<BasicAuthView>,
    pub upstream: Seq<UpstreamView>,
    pub reverse_proxy: Seq<ReverseProxyView>,
    pub transparent_proxy: bool,
    pub filter_file: Option<Seq<char>>,
    pub filter_urls: bool,
    pub filter_extended: bool,
    pub filter_casesensitive: bool,
    pub anonymous: Seq<Seq<char>>,
    pub via_proxy_name: Option<Seq<char>>,
    pub x_tinyproxy: bool,
    pub add_headers: HeaderList,
    pub connect_ports: Seq<u16>,
    pub disable_via_header: bool,
    pub stat_host: Option<Seq<char>>,
    pub stat_file: Option<Seq<char>>,
    pub error_files: Map<u16, Seq<char>>,
    pub default_error_file: Option<Seq<char>>,
    pub buffer_size: usize,
    pub max_header_size: usize,
    pub connection_pool_size: usize,
}

/// The texts of a list of strings.
pub open spec fn texts(v: Seq<String>) -> Seq<Seq<char>> {
    Seq::new(v.len(), |i: int| v[i]@)
}

/// The text of a string that may be absent.
pub open spec fn opt_text(o: Option<String>) -> Option<Seq<char>> {
    match o {
        Some(s) => Some(s@),
        None => None,
    }
}

/// A map of strings as a map of their texts.
pub open spec fn text_map(m: Map<u16, String>) -> Map<u16, Seq<char>> {
    Map::new(|k: u16| m.contains_key(k), |k: u16| m[k]@)
}

impl View for BasicAuthConfig {
    type V = BasicAuthView;

    open spec fn view(&self) -> BasicAuthView {
        BasicAuthView { username: self.username@, password: self.password@, realm: self.realm@ }
    }
}

impl View for UpstreamConfig {
    type V = UpstreamView;

    open spec fn view(&self) -> UpstreamView {
        UpstreamView {
            upstream_type: self.upstream_type@,
            host: self.host@,
            port: self.port,
            username: opt_text(self.username),
            password: opt_text(self.password),
            domain: opt_text(self.domain),
        }
    }
}

impl View for ReverseProxyConfig {
    type V = ReverseProxyView;

    open spec fn view(&self) -> ReverseProxyView {
        ReverseProxyView { path: self.path@, url: self.url@ }
    }
}

impl View for Config {
    type V = ConfigView;

    open spec fn view(&self) -> ConfigView {
        ConfigView {
            port: self.port,
            bind_address: self.bind_address,
            listen_addresses: self.listen_addresses@,
            bind_same: self.bind_same,
            user: opt_text(self.user),
            group: opt_text(self.group),
            daemon: self.daemon,
            pidfile: opt_text(self.pidfile),
            timeout: self.timeout,
            max_clients: self.max_clients,
            max_requests_per_child: self.max_requests_per_child,
            max_spare_servers: self.max_spare_servers,
            min_spare_servers: self.min_spare_servers,
            start_servers: self.start_servers,
            logfile: opt_text(self.logfile),
            syslog: self.syslog,
            log_level: self.log_level@,
            debug: self.debug,
            allow: texts(self.allow@),
            deny: texts(self.deny@),
            basic_auth: match self.basic_auth {
                Some(b) => Some(b@),
                None => None,
            },
            upstream: Seq::new(self.upstream@.len(), |i: int| self.upstream@[i]@),
            reverse_proxy: Seq::new(self.reverse_proxy@.len(), |i: int| self.reverse_proxy@[i]@),
            transparent_proxy: self.transparent_proxy,
            filter_file: opt_text(self.filter_file),
            filter_urls: self.filter_urls,
            filter_extended: self.filter_extended,
            filter_casesensitive: self.filter_casesensitive,
            anonymous: texts(self.anonymous@),
            via_proxy_name: opt_text(self.via_proxy_name),
            x_tinyproxy: self.x_tinyproxy,
            add_headers: self.add_headers@,
            connect_ports: self.connect_ports@,
            disable_via_header: self.disable_via_header,
            stat_host: opt_text(self.stat_host),
            stat_file: opt_text(self.stat_file),
            error_files: text_map(self.error_files@),
            default_error_file: opt_text(self.default_error_file),
            buffer_size: self.buffer_size,
            max_header_size: self.max_header_size,
            connection_pool_size: self.connection_pool_size,
        }
    }
}

/// The configuration that holds where no directive says otherwise.
pub open spec fn default_config() -> ConfigView {
    ConfigView {
        port: 8888,
        bind_address: IpAddress::V4(0),
        listen_addresses: Seq::empty(),
        bind_same: false,
        user: Some("nobody"@),
        group: Some("nobody"@),
        daemon: false,
        pidfile: Some("/var/run/tinyproxy.pid"@),
        timeout: 600,
        max_clients: 100,
        max_requests_per_child: 0,
        max_spare_servers: 20,
        min_spare_servers: 5,
        start_servers: 10,
        logfile: Some("/var/log/tinyproxy.log"@),
        syslog: false,
        log_level: "Info"@,
        debug: false,
        allow: Seq::empty(),
        deny: Seq::empty(),
        basic_auth: None,
        upstream: Seq::empty(),
        reverse_proxy: Seq::empty(),
        transparent_proxy: false,
        filter_file: None,
        filter_urls: false,
        filter_extended: false,
        filter_casesensitive: false,
        anonymous: Seq::empty(),
        via_proxy_name: Some("tinyproxy"@),
        x_tinyproxy: false,
        add_headers: Seq::empty(),
        connect_ports: seq![443u16, 563u16],
        disable_via_header: false,
        stat_host: None,
        stat_file: None,
        error_files: Map::empty(),
        default_error_file: None,
        buffer_size: 8192,
        max_header_size: 16384,
        connection_pool_size: 100,
    }
}

impl Default for Config {
    fn default() -> (c: Config)
        ensures
            c@ == default_config(),
    {
        let c = Config {
            port: 8888,
            bind_address: IpAddress::V4(0),
            listen_addresses: Vec::new(),
            bind_same: false,
            user: Some(String::from_str("nobody")),
            group: Some(String::from_str("nobody")),
            daemon: false,
            pidfile: Some(String::from_str("/var/run/tinyproxy.pid")),
            timeout: 600,
            max_clients: 100,
            max_requests_per_child: 0,
            max_spare_servers: 20,
            min_spare_servers: 5,
            start_servers: 10,
            logfile: Some(String::from_str("/var/log/tinyproxy.log")),
            syslog: false,
            log_level: String::from_str("Info"),
            debug: false,
            allow: Vec::new(),
            deny: Vec::new(),
            basic_auth: None,
            upstream: Vec::new(),
            reverse_proxy: Vec::new(),
            transparent_proxy: false,
            filter_file: None,
            filter_urls: false,
            filter_extended: false,
            filter_casesensitive: false,
            anonymous: Vec::new(),
            via_proxy_name: Some(String::from_str("tinyproxy")),
            x_tinyproxy: false,
            add_headers: Headers::new(),
            connect_ports: vec![443, 563],
            disable_via_header: false,
            stat_host: None,
            stat_file: None,
            error_files: HashMap::new(),
            default_error_file: None,
            buffer_size: 8192,
            max_header_size: 16384,
            connection_pool_size: 100,
        };
        proof {
            let v = c@;
            let d = default_config();
            assert(v.listen_addresses =~= d.listen_addresses);
            assert(v.allow =~= d.allow);
            assert(v.deny =~= d.deny);
            assert(v.upstream =~= d.upstream);
            assert(v.reverse_proxy =~= d.reverse_proxy);
            assert(v.anonymous =~= d.anonymous);
            assert(v.connect_ports =~= d.connect_ports);
            assert(v.error_files =~= d.error_files);
        }
        c
    }
}

/// The truth value that a word denotes, in any case.
pub open spec fn bool_of(value: Seq<char>) -> Option<bool> {
    let w = lowercase(value);
    if w == "yes"@ || w == "true"@ || w == "on"@ || w == "1"@ {
        Some(true)
    } else if w == "no"@ || w == "false"@ || w == "off"@ || w == "0"@ {
        Some(false)
    } else {
        None
    }
}

fn read_bool(value: &[char]) -> (r: Option<bool>)
    ensures
        r == bool_of(value@),
{
    let w = to_lower(value);
    let w = w.as_slice();
    if is_word(w, "yes") || is_word(w, "true") || is_word(w, "on") || is_word(w, "1") {
        Some(true)
    } else if is_word(w, "no") || is_word(w, "false") || is_word(w, "off") || is_word(w, "0") {
        Some(false)
    } else {
        None
    }
}

/// A configuration error whose message is `prefix` and then `detail`.
fn config_error(prefix: &str, detail: &[char]) -> (e: ProxyError)
    ensures
        e@ == ErrorView::Config(prefix@ + detail@),
{
    ProxyError::Config(String::from_str(prefix).concat(text_of(detail).as_str()))
}

/// Reads a truth value: `yes`, `true`, `on` or `1`, or `no`, `false`, `off`
/// or `0`, in any case.
pub fn parse_bool(value: &str) -> (r: ProxyResult<bool>)
    ensures
        match r {
            Ok(b) => bool_of(value@) == Some(b),
            Err(e) => bool_of(value@) is None && e@ == ErrorView::Config(
                "Invalid boolean value: "@ + value@,
            ),
        },
{
    let chars = chars_of(value);
    match read_bool(chars.as_slice()) {
        Some(b) => Ok(b),
        None => Err(config_error("Invalid boolean value: ", chars.as_slice())),
    }
}

/// The upstream that `type:host:port` denotes; what follows a further colon
/// is not read.
pub open spec fn upstream_of(value: Seq<char>) -> Option<UpstreamView> {
    let p = split_on(value, ':');
    if p.len() >= 3 && unsigned_of(p[2], 65535) is Some {
        Some(
            UpstreamView {
                upstream_type: p[0],
                host: p[1],
                port: unsigned_of(p[2], 65535)->0 as u16,
                username: None,
                password: None,
                domain: None,
            },
        )
    } else {
        None
    }
}

fn read_upstream(value: &[char]) -> (r: Option<UpstreamConfig>)
    ensures
        match r {
            Some(u) => upstream_of(value@) == Some(u@),
            None => upstream_of(value@) is None,
        },
{
    let parts = split(value, ':');
    if parts.len() < 3 {
        return None;
    }
    proof {
        let p = views(parts@);
        assert(p[0] == parts@[0]@ && p[1] == parts@[1]@ && p[2] == parts@[2]@);
    }
    match parse_unsigned(parts[2].as_slice(), 65535) {
        Some(port) => Some(
            UpstreamConfig {
                upstream_type: text_of(parts[0].as_slice()),
                host: text_of(parts[1].as_slice()),
                port: port as u16,
                username: None,
                password: None,
                domain: None,
            },
        ),
        None => None,
    }
}

/// Reads an upstream proxy written as `type:host:port`.
pub fn parse_upstream(value: &str) -> (r: ProxyResult<UpstreamConfig>)
    ensures
        match r {
            Ok(u) => upstream_of(value@) == Some(u@),
            Err(e) => upstream_of(value@) is None && e@ == ErrorView::Config(
                "Invalid upstream format: "@ + value@,
            ),
        },
{
    let chars = chars_of(value);
    match read_upstream(chars.as_slice()) {
        Some(u) => Ok(u),
        None => Err(config_error("Invalid upstream format: ", chars.as_slice())),
    }
}

/// The credentials that `user:password` denotes, split at the first colon.
pub open spec fn credentials_of(value: Seq<char>) -> Option<BasicAuthView> {
    let i = position(value, ':');
    if 0 <= i < value.len() {
        Some(
            BasicAuthView {
                username: value.take(i),
                password: value.skip(i + 1),
                realm: "Tinyproxy"@,
            },
        )
    } else {
        None
    }
}

/// The error page that `code path` denotes, split at the first whitespace.
pub open spec fn error_page_of(value: Seq<char>) -> Option<(u16, Seq<char>)> {
    let n = word_run(value);
    if 0 <= n < value.len() && unsigned_of(value.take(n), 65535) is Some {
        Some((unsigned_of(value.take(n), 65535)->0 as u16, value.skip(n + 1)))
    } else {
        None
    }
}

/// What a directive on the network side makes of a configuration, where `key`
/// names one: the number or address that the value denotes is set or added;
/// a value that denotes none is an error.
pub open spec fn network_directive(c: ConfigView, key: Seq<char>, value: Seq<char>) -> Option<
    Result<ConfigView, Seq<char>>,
> {
    if key == "port"@ {
        Some(
            match unsigned_of(value, 65535) {
                Some(n) => Ok(ConfigView { port: n as u16, ..c }),
                None => Err("Invalid port value: "@ + value),
            },
        )
    } else if key == "bind"@ {
        Some(
            match ip_of(value) {
                Some(a) => Ok(ConfigView { bind_address: a, ..c }),
                None => Err("Invalid bind address: "@ + value),
            },
        )
    } else if key == "listen"@ {
        Some(
            match ip_of(value) {
                Some(a) => Ok(ConfigView { listen_addresses: c.listen_addresses.push(a), ..c }),
                None => Err("Invalid listen address: "@ + value),
            },
        )
    } else if key == "timeout"@ {
        Some(
            match unsigned_of(value, u64::MAX as nat) {
                Some(n) => Ok(ConfigView { timeout: n as u64, ..c }),
                None => Err("Invalid timeout value: "@ + value),
            },
        )
    } else if key == "maxclients"@ {
        Some(
            match unsigned_of(value, usize::MAX as nat) {
                Some(n) => Ok(ConfigView { max_clients: n as usize, ..c }),
                None => Err("Invalid max clients value: "@ + value),
            },
        )
    } else if key == "maxrequestsperchild"@ {
        Some(
            match unsigned_of(value, usize::MAX as nat) {
                Some(n) => Ok(ConfigView { max_requests_per_child: n as usize, ..c }),
                None => Err("Invalid max requests per child value: "@ + value),
            },
        )
    } else if key == "connectport"@ {
        Some(
            match unsigned_of(value, 65535) {
                Some(n) => Ok(ConfigView { connect_ports: c.connect_ports.push(n as u16), ..c }),
                None => Err("Invalid connect port value: "@ + value),
            },
        )
    } else {
        None
    }
}

/// A configuration with the switch that `key` names set to `b`, where it names one.
pub open spec fn with_switch(c: ConfigView, key: Seq<char>, b: bool) -> Option<ConfigView> {
    if key == "bindsame"@ {
        Some(ConfigView { bind_same: b, ..c })
    } else if key == "syslog"@ {
        Some(ConfigView { syslog: b, ..c })
    } else if key == "reverseonly"@ {
        Some(ConfigView { transparent_proxy: b, ..c })
    } else if key == "filterurls"@ {
        Some(ConfigView { filter_urls: b, ..c })
    } else if key == "filterextended"@ {
        Some(ConfigView { filter_extended: b, ..c })
    } else if key == "filtercasesensitive"@ {
        Some(ConfigView { filter_casesensitive: b, ..c })
    } else if key == "xtinyproxy"@ {
        Some(ConfigView { x_tinyproxy: b, ..c })
    } else if key == "disableviaheader"@ {
        Some(ConfigView { disable_via_header: b, ..c })
    } else {
        None
    }
}

/// What a directive for a switch makes of a configuration, where `key` names
/// one: a value that denotes no truth value is an error.
pub open spec fn switch_directive(c: ConfigView, key: Seq<char>, value: Seq<char>) -> Option<
    Result<ConfigView, Seq<char>>,
> {
    if with_switch(c, key, true) is Some {
        Some(
            match bool_of(value) {
                Some(b) => Ok(with_switch(c, key, b)->0),
                None => Err("Invalid boolean value: "@ + value),
            },
        )
    } else {
        None
    }
}

/// What a directive that takes its value as it stands makes of a
/// configuration, where `key` names one.
pub open spec fn text_directive(c: ConfigView, key: Seq<char>, value: Seq<char>) -> Option<
    ConfigView,
> {
    if key == "user"@ {
        Some(ConfigView { user: Some(value), ..c })
    } else if key == "group"@ {
        Some(ConfigView { group: Some(value), ..c })
    } else if key == "pidfile"@ {
        Some(ConfigView { pidfile: Some(value), ..c })
    } else if key == "logfile"@ {
        Some(ConfigView { logfile: Some(value), ..c })
    } else if key == "loglevel"@ {
        Some(ConfigView { log_level: value, ..c })
    } else if key == "allow"@ {
        Some(ConfigView { allow: c.allow.push(value), ..c })
    } else if key == "deny"@ {
        Some(ConfigView { deny: c.deny.push(value), ..c })
    } else if key == "filter"@ {
        Some(ConfigView { filter_file: Some(value), ..c })
    } else if key == "anonymous"@ {
        Some(ConfigView { anonymous: c.anonymous.push(value), ..c })
    } else if key == "viaproxyname"@ {
        Some(ConfigView { via_proxy_name: Some(value), ..c })
    } else if key == "stathost"@ {
        Some(ConfigView { stat_host: Some(value), ..c })
    } else if key == "statfile"@ {
        Some(ConfigView { stat_file: Some(value), ..c })
    } else if key == "defaulterrorfile"@ {
        Some(ConfigView { default_error_file: Some(value), ..c })
    } else {
        None
    }
}

/// What a directive whose value has parts makes of a configuration: the
/// credentials are set, the upstream is added, the error page is recorded,
/// each only where the value can be read; any other name changes nothing.
pub open spec fn record_directive(c: ConfigView, key: Seq<char>, value: Seq<char>) -> ConfigView {
    if key == "basicauth"@ {
        match credentials_of(value) {
            Some(b) => ConfigView { basic_auth: Some(b), ..c },
            None => c,
        }
    } else if key == "upstream"@ {
        match upstream_of(value) {
            Some(u) => ConfigView { upstream: c.upstream.push(u), ..c },
            None => c,
        }
    } else if key == "errorfile"@ {
        match error_page_of(value) {
            Some((code, path)) => ConfigView { error_files: c.error_files.insert(code, path), ..c },
            None => c,
        }
    } else {
        c
    }
}

/// What the directive `key value` makes of a configuration. `key` is in lowercase.
pub open spec fn directive(c: ConfigView, key: Seq<char>, value: Seq<char>) -> Result<
    ConfigView,
    Seq<char>,
> {
    match network_directive(c, key, value) {
        Some(r) => r,
        None => match switch_directive(c, key, value) {
            Some(r) => r,
            None => match text_directive(c, key, value) {
                Some(after) => Ok(after),
                None => Ok(record_directive(c, key, value)),
            },
        },
    }
}

/// The directive that a line holds: the name, in lowercase, up to the first
/// whitespace, and the value after it, trimmed. A line that is empty once its
/// comment is cut and it is trimmed, or that has no whitespace in it then,
/// holds none.
pub open spec fn directive_of(line: Seq<char>) -> Option<(Seq<char>, Seq<char>)> {
    let t = trim(line.take(position(line, '#')));
    let n = word_run(t);
    if 0 <= n < t.len() {
        Some((lowercase(t.take(n)), trim(t.skip(n + 1))))
    } else {
        None
    }
}

/// What the directives of lines make of a configuration: each in turn, up to
/// the first that fails.
pub open spec fn config_after(c: ConfigView, ls: Seq<Seq<char>>) -> Result<ConfigView, Seq<char>>
    decreases ls.len(),
{
    if ls.len() == 0 {
        Ok(c)
    } else {
        match config_after(c, ls.drop_last()) {
            Err(e) => Err(e),
            Ok(before) => match directive_of(ls.last()) {
                Some((key, value)) => directive(before, key, value),
                None => Ok(before),
            },
        }
    }
}

/// The configuration that a text denotes.
pub open spec fn config_of(text: Seq<char>) -> Result<ConfigView, Seq<char>> {
    config_after(default_config(), lines(text))
}

/// A directive that fails makes the whole text fail with its error.
proof fn lemma_config_fails(c: ConfigView, ls: Seq<Seq<char>>, k: int)
    requires
        0 <= k <= ls.len(),
        config_after(c, ls.take(k)) is Err,
    ensures
        config_after(c, ls) == config_after(c, ls.take(k)),
    decreases ls.len() - k,
{
    if k < ls.len() {
        assert(ls.take(k + 1).drop_last() =~= ls.take(k));
        lemma_config_fails(c, ls, k + 1);
    } else {
        assert(ls.take(k) =~= ls);
    }
}

proof fn lemma_texts_push(v: Seq<String>, s: String)
    ensures
        texts(v.push(s)) == texts(v).push(s@),
{
    assert(texts(v.push(s)) =~= texts(v).push(s@));
}

/// Whether `r`, with the configuration that was reached, is what `expected` says.
pub open spec fn applied(r: ProxyResult<()>, reached: ConfigView, expected: Result<
    ConfigView,
    Seq<char>,
>) -> bool {
    match r {
        Ok(_) => expected == Ok::<ConfigView, Seq<char>>(reached),
        Err(e) => expected matches Err(m) && e@ == ErrorView::Config(m),
    }
}

#[verifier::rlimit(80)]
#[verifier::spinoff_prover]
fn apply_network(config: &mut Config, key: &[char], value: &[char]) -> (r: Option<ProxyResult<()>>)
    ensures
        match r {
            Some(r) => network_directive(old(config)@, key@, value@) matches Some(expected)
                && applied(r, final(config)@, expected),
            None => network_directive(old(config)@, key@, value@) is None && *final(config)
                == *old(config),
        },
{
    if is_word(key, "port") {
        match parse_unsigned(value, 65535) {
            Some(n) => {
                config.port = n as u16;
                Some(Ok(()))
            },
            None => Some(Err(config_error("Invalid port value: ", value))),
        }
    } else if is_word(key, "bind") {
        match parse_ip(value) {
            Some(a) => {
                config.bind_address = a;
                Some(Ok(()))
            },
            None => Some(Err(config_error("Invalid bind address: ", value))),
        }
    } else if is_word(key, "listen") {
        match parse_ip(value) {
            Some(a) => {
                config.listen_addresses.push(a);
                Some(Ok(()))
            },
            None => Some(Err(config_error("Invalid listen address: ", value))),
        }
    } else if is_word(key, "timeout") {
        match parse_unsigned(value, u64::MAX) {
            Some(n) => {
                config.timeout = n;
                Some(Ok(()))
            },
            None => Some(Err(config_error("Invalid timeout value: ", value))),
        }
    } else if is_word(key, "maxclients") {
        match parse_unsigned(value, usize::MAX as u64) {
            Some(n) => {
                config.max_clients = n as usize;
                Some(Ok(()))
            },
            None => Some(Err(config_error("Invalid max clients value: ", value))),
        }
    } else if is_word(key, "maxrequestsperchild") {
        match parse_unsigned(value, usize::MAX as u64) {
            Some(n) => {
                config.max_requests_per_child = n as usize;
                Some(Ok(()))
            },
            None => Some(Err(config_error("Invalid max requests per child value: ", value))),
        }
    } else if is_word(key, "connectport") {
        match parse_unsigned(value, 65535) {
            Some(n) => {
                config.connect_ports.push(n as u16);
                Some(Ok(()))
            },
            None => Some(Err(config_error("Invalid connect port value: ", value))),
        }
    } else {
        None
    }
}

fn set_switch(config: &mut Config, key: &[char], b: bool) -> (r: bool)
    ensures
        r ==> with_switch(old(config)@, key@, b) == Some(final(config)@),
        !r ==> with_switch(old(config)@, key@, b) is None && *final(config) == *old(config),
{
    if is_word(key, "bindsame") {
        config.bind_same = b;
    } else if is_word(key, "syslog") {
        config.syslog = b;
    } else if is_word(key, "reverseonly") {
        config.transparent_proxy = b;
    } else if is_word(key, "filterurls") {
        config.filter_urls = b;
    } else if is_word(key, "filterextended") {
        config.filter_extended = b;
    } else if is_word(key, "filtercasesensitive") {
        config.filter_casesensitive = b;
    } else if is_word(key, "xtinyproxy") {
        config.x_tinyproxy = b;
    } else if is_word(key, "disableviaheader") {
        config.disable_via_header = b;
    } else {
        return false;
    }
    true
}

fn is_switch(key: &[char]) -> (r: bool)
    ensures
        forall|c: ConfigView, b: bool| r == (#[trigger] with_switch(c, key@, b) is Some),
{
    is_word(key, "bindsame") || is_word(key, "syslog") || is_word(key, "reverseonly") || is_word(
        key,
        "filterurls",
    ) || is_word(key, "filterextended") || is_word(key, "filtercasesensitive") || is_word(
        key,
        "xtinyproxy",
    ) || is_word(key, "disableviaheader")
}

fn apply_switch(config: &mut Config, key: &[char], value: &[char]) -> (r: Option<ProxyResult<()>>)
    ensures
        match r {
            Some(r) => switch_directive(old(config)@, key@, value@) matches Some(expected)
                && applied(r, final(config)@, expected),
            None => switch_directive(old(config)@, key@, value@) is None && *final(config)
                == *old(config),
        },
{
    if !is_switch(key) {
        assert(with_switch(config@, key@, true) is None);
        return None;
    }
    assert(with_switch(config@, key@, true) is Some);
    match read_bool(value) {
        None => Some(Err(config_error("Invalid boolean value: ", value))),
        Some(b) => {
            assert(with_switch(config@, key@, b) is Some);
            set_switch(config, key, b);
            Some(Ok(()))
        },
    }
}

fn apply_text(config: &mut Config, key: &[char], value: &[char]) -> (r: bool)
    ensures
        r ==> text_directive(old(config)@, key@, value@) == Some(final(config)@),
        !r ==> text_directive(old(config)@, key@, value@) is None && *final(config) == *old(
            config,
        ),
{
    if is_word(key, "user") {
        config.user = Some(text_of(value));
    } else if is_word(key, "group") {
        config.group = Some(text_of(value));
    } else if is_word(key, "pidfile") {
        config.pidfile = Some(text_of(value));
    } else if is_word(key, "logfile") {
        config.logfile = Some(text_of(value));
    } else if is_word(key, "loglevel") {
        config.log_level = text_of(value);
    } else if is_word(key, "allow") {
        let s = text_of(value);
        proof {
            lemma_texts_push(config.allow@, s);
        }
        config.allow.push(s);
    } else if is_word(key, "deny") {
        let s = text_of(value);
        proof {
            lemma_texts_push(config.deny@, s);
        }
        config.deny.push(s);
    } else if is_word(key, "filter") {
        config.filter_file = Some(text_of(value));
    } else if is_word(key, "anonymous") {
        let s = text_of(value);
        proof {
            lemma_texts_push(config.anonymous@, s);
        }
        config.anonymous.push(s);
    } else if is_word(key, "viaproxyname") {
        config.via_proxy_name = Some(text_of(value));
    } else if is_word(key, "stathost") {
        config.stat_host = Some(text_of(value));
    } else if is_word(key, "statfile") {
        config.stat_file = Some(text_of(value));
    } else if is_word(key, "defaulterrorfile") {
        config.default_error_file = Some(text_of(value));
    } else {
        return false;
    }
    true
}

fn read_credentials(value: &[char]) -> (r: Option<BasicAuthConfig>)
    ensures
        match r {
            Some(b) => credentials_of(value@) == Some(b@),
            None => credentials_of(value@) is None,
        },
{
    let colon = find_char(value, ':');
    if colon < value.len() {
        let username = text_of(slice_subrange(value, 0, colon));
        let password = text_of(slice_subrange(value, colon + 1, value.len()));
        proof {
            assert(value@.subrange(0, colon as int) =~= value@.take(colon as int));
            assert(value@.subrange(colon + 1, value.len() as int) =~= value@.skip(colon + 1));
        }
        Some(BasicAuthConfig { username, password, realm: String::from_str("Tinyproxy") })
    } else {
        None
    }
}

fn read_error_page(value: &[char]) -> (r: Option<(u16, String)>)
    ensures
        match r {
            Some((code, path)) => error_page_of(value@) == Some((code, path@)),
            None => error_page_of(value@) is None,
        },
{
    let n = skip_word(value, 0);
    proof {
        assert(value@.skip(0) =~= value@);
    }
    if n < value.len() {
        proof {
            assert(value@.subrange(0, n as int) =~= value@.take(n as int));
            assert(value@.subrange(n + 1, value.len() as int) =~= value@.skip(n + 1));
        }
        match parse_unsigned(slice_subrange(value, 0, n), 65535) {
            Some(code) => Some(
                (code as u16, text_of(slice_subrange(value, n + 1, value.len()))),
            ),
            None => None,
        }
    } else {
        None
    }
}

fn apply_record(config: &mut Config, key: &[char], value: &[char])
    ensures
        final(config)@ == record_directive(old(config)@, key@, value@),
{
    if is_word(key, "basicauth") {
        match read_credentials(value) {
            Some(b) => {
                config.basic_auth = Some(b);
            },
            None => {},
        }
    } else if is_word(key, "upstream") {
        match read_upstream(value) {
            Some(u) => {
                config.upstream.push(u);
                proof {
                    assert(final(config)@.upstream =~= old(config)@.upstream.push(u@));
                }
            },
            None => {},
        }
    } else if is_word(key, "errorfile") {
        match read_error_page(value) {
            Some((code, path)) => {
                config.error_files.insert(code, path);
                proof {
                    assert(final(config)@.error_files =~= old(config)@.error_files.insert(
                        code,
                        path@,
                    ));
                }
            },
            None => {},
        }
    }
}

/// Applies the directive `key value`; `key` is in lowercase. A name that is
/// not known changes nothing.
fn apply_directive(config: &mut Config, key: &[char], value: &[char]) -> (r: ProxyResult<()>)
    ensures
        applied(r, final(config)@, directive(old(config)@, key@, value@)),
{
    match apply_network(config, key, value) {
        Some(r) => {
            return r;
        },
        None => {},
    }
    match apply_switch(config, key, value) {
        Some(r) => {
            return r;
        },
        None => {},
    }
    if apply_text(config, key, value) {
        return Ok(());
    }
    apply_record(config, key, value);
    Ok(())
}

impl Config {
    /// Reads a configuration from its text. Directives take effect in order,
    /// on top of the defaults; the first one whose value cannot be read fails
    /// the whole.
    pub fn parse_config(content: &str) -> (r: ProxyResult<Config>)
        ensures
            match r {
                Ok(c) => config_of(content@) == Ok::<ConfigView, Seq<char>>(c@),
                Err(e) => config_of(content@) matches Err(m) && e@ == ErrorView::Config(m),
            },
    {
        let mut config = Config::default();
        let chars = chars_of(content);
        let ls = split_lines(chars.as_slice());
        let ghost lv = views(ls@);
        let mut i: usize = 0;
        proof {
            assert(lv.take(0) =~= Seq::<Seq<char>>::empty());
        }
        while i < ls.len()
            invariant
                i <= ls.len(),
                lv == views(ls@),
                lv == lines(content@),
                config_after(default_config(), lv.take(i as int)) == Ok::<ConfigView, Seq<char>>(
                    config@,
                ),
            decreases ls.len() - i,
        {
            let line = ls[i].as_slice();
            proof {
                assert(lv[i as int] == line@);
                assert(lv.take(i + 1).drop_last() =~= lv.take(i as int));
                assert(lv.take(i + 1).last() == line@);
            }
            let cut = find_char(line, '#');
            let t = trimmed(slice_subrange(line, 0, cut));
            let t = t.as_slice();
            proof {
                assert(line@.subrange(0, cut as int) =~= line@.take(cut as int));
                assert(t@.skip(0) =~= t@);
            }
            let n = skip_word(t, 0);
            if n < t.len() {
                let key = to_lower(slice_subrange(t, 0, n));
                let value = trimmed(slice_subrange(t, n + 1, t.len()));
                proof {
                    assert(t@.subrange(0, n as int) =~= t@.take(n as int));
                    assert(t@.subrange(n + 1, t.len() as int) =~= t@.skip(n + 1));
                }
                match apply_directive(&mut config, key.as_slice(), value.as_slice()) {
                    Ok(_) => {},
                    Err(e) => {
                        proof {
                            lemma_config_fails(default_config(), lv, i + 1);
                        }
                        return Err(e);
                    },
                }
            }
            i += 1;
        }
        proof {
            assert(lv.take(ls.len() as int) =~= lv);
        }
        Ok(config)
    }

    /// The addresses to listen on, each with the port: the listen addresses,
    /// or the bind address where there is none.
    pub fn get_listen_addresses(&self) -> (r: Vec<(IpAddress, u16)>)
        ensures
            r@ == listen_targets(self@),
    {
        let mut r: Vec<(IpAddress, u16)> = Vec::new();
        if self.listen_addresses.len() == 0 {
            r.push((self.bind_address, self.port));
            assert(r@ =~= listen_targets(self@));
            return r;
        }
        let mut i: usize = 0;
        while i < self.listen_addresses.len()
            invariant
                i <= self.listen_addresses@.len(),
                r@ == listen_targets(self@).take(i as int),
                self.listen_addresses@.len() > 0,
            decreases self.listen_addresses@.len() - i,
        {
            r.push((self.listen_addresses[i], self.port));
            assert(r@ =~= listen_targets(self@).take(i + 1));
            i += 1;
        }
        assert(r@ =~= listen_targets(self@));
        r
    }
}

/// The addresses and port that a configuration asks to listen on.
pub open spec fn listen_targets(c: ConfigView) -> Seq<(IpAddress, u16)> {
    if c.listen_addresses.len() == 0 {
        seq![(c.bind_address, c.port)]
    } else {
        Seq::new(c.listen_addresses.len(), |i: int| (c.listen_addresses[i], c.port))
    }
}

} // verus!
