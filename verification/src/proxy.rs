//! Choices that depend on the configuration alone: the upstream proxy for a
//! host, the target of a reverse-proxy path, and the headers to relay.

use crate::config::{Config, ConfigView, ReverseProxyView, UpstreamConfig, UpstreamView};
use crate::error::ProxyResult;
use crate::headers::{put, without, HeaderList, Headers};
use crate::text::{
    chars_of, ends_with, has_prefix, has_suffix, lowercase, starts_with, str_to_lowercase,
};
use vstd::prelude::*;
use vstd::string::StringExecFns;

verus! {

/// Whether an upstream serves the domain of a host.
pub open spec fn serves(upstream: UpstreamView, host: Seq<char>) -> bool {
    upstream.domain matches Some(d) && ends_with(host, d)
}

/// The index of the first upstream that serves the domain of `host`, or the
/// number of upstreams where none does.
pub open spec fn serving_index(upstreams: Seq<UpstreamView>, host: Seq<char>) -> int
    decreases upstreams.len(),
{
    if upstreams.len() == 0 {
        0
    } else if serves(upstreams[0], host) {
        0
    } else {
        1 + serving_index(upstreams.skip(1), host)
    }
}

proof fn lemma_serving_index_is(upstreams: Seq<UpstreamView>, host: Seq<char>, i: int)
    requires
        0 <= i <= upstreams.len(),
        forall|j: int| 0 <= j < i ==> !serves(#[trigger] upstreams[j], host),
        i < upstreams.len() ==> serves(upstreams[i], host),
    ensures
        serving_index(upstreams, host) == i,
    decreases upstreams.len(),
{
    if upstreams.len() > 0 && i > 0 {
        assert(!serves(upstreams[0], host));
        assert forall|j: int| 0 <= j < i - 1 implies !serves(
            #[trigger] upstreams.skip(1)[j],
            host,
        ) by {
            assert(upstreams.skip(1)[j] == upstreams[j + 1]);
        }
        lemma_serving_index_is(upstreams.skip(1), host, i - 1);
    }
}

/// The upstream to use for a host: the first that serves its domain, or else
/// the first of all.
pub open spec fn upstream_for(upstreams: Seq<UpstreamView>, host: Seq<char>) -> Option<
    UpstreamView,
> {
    let i = serving_index(upstreams, host);
    if 0 <= i < upstreams.len() {
        Some(upstreams[i])
    } else if upstreams.len() > 0 {
        Some(upstreams[0])
    } else {
        None
    }
}

/// The index of the first rule whose path `path` begins with, or the
/// number of rules where there is none.
pub open spec fn rule_index(rules: Seq<ReverseProxyView>, path: Seq<char>) -> int
    decreases rules.len(),
{
    if rules.len() == 0 {
        0
    } else if starts_with(path, rules[0].path) {
        0
    } else {
        1 + rule_index(rules.skip(1), path)
    }
}

proof fn lemma_rule_index_is(rules: Seq<ReverseProxyView>, path: Seq<char>, i: int)
    requires
        0 <= i <= rules.len(),
        forall|j: int| 0 <= j < i ==> !starts_with(path, (#[trigger] rules[j]).path),
        i < rules.len() ==> starts_with(path, rules[i].path),
    ensures
        rule_index(rules, path) == i,
    decreases rules.len(),
{
    if rules.len() > 0 && i > 0 {
        assert(!starts_with(path, rules[0].path));
        assert forall|j: int| 0 <= j < i - 1 implies !starts_with(
            path,
            (#[trigger] rules.skip(1)[j]).path,
        ) by {
            assert(rules.skip(1)[j] == rules[j + 1]);
        }
        lemma_rule_index_is(rules.skip(1), path, i - 1);
    }
}

/// The URL that a path is proxied to in reverse: that of the first rule whose
/// path it begins with.
pub open spec fn reverse_target(rules: Seq<ReverseProxyView>, path: Seq<char>) -> Option<
    Seq<char>,
> {
    let i = rule_index(rules, path);
    if 0 <= i < rules.len() {
        Some(rules[i].url)
    } else {
        None
    }
}

/// Headers without the names of a list, each taken in lowercase.
pub open spec fn without_all(h: HeaderList, names: Seq<Seq<char>>) -> HeaderList
    decreases names.len(),
{
    if names.len() == 0 {
        h
    } else {
        without(without_all(h, names.drop_last()), lowercase(names.last()))
    }
}

/// Headers with those of a second list set, each name in lowercase, a later
/// one replacing an earlier one.
pub open spec fn merged(h: HeaderList, extra: HeaderList) -> HeaderList
    decreases extra.len(),
{
    if extra.len() == 0 {
        h
    } else {
        put(merged(h, extra.drop_last()), lowercase(extra.last().0), extra.last().1)
    }
}

/// The value of the `Via` header.
pub open spec fn via_value(name: Option<Seq<char>>) -> Seq<char> {
    "1.1 "@ + match name {
        Some(n) => n,
        None => "tinyproxy"@,
    }
}

/// The headers to relay for a client: the anonymous ones are removed, `via`
/// is set unless that is disabled, `x-tinyproxy` is set to the client's
/// address if that is asked for, and the added headers are set last.
pub open spec fn processed(h: HeaderList, c: ConfigView, client_ip: Seq<char>) -> HeaderList {
    let a = without_all(h, c.anonymous);
    let b = if c.disable_via_header {
        a
    } else {
        put(a, "via"@, via_value(c.via_proxy_name))
    };
    let d = if c.x_tinyproxy {
        put(b, "x-tinyproxy"@, client_ip)
    } else {
        b
    };
    merged(d, c.add_headers)
}

/// The choices that a configuration makes.
pub struct ProxyLogic<'a> {
    config: &'a Config,
}

impl<'a> ProxyLogic<'a> {
    /// The configuration.
    pub closed spec fn config(self) -> ConfigView {
        self.config@
    }

    /// The choices of a configuration.
    pub fn new(config: &'a Config) -> (logic: ProxyLogic<'a>)
        ensures
            logic.config() == config@,
    {
        ProxyLogic { config }
    }

    /// Accepts every request as it is.
    pub fn handle_http_proxy(&self, _method: &str, _uri: &str, _headers: &Headers) -> (r:
        ProxyResult<()>)
        ensures
            r is Ok,
    {
        Ok(())
    }

    /// The upstream proxy to use for a host, if any is configured.
    pub fn should_use_upstream(&self, host: &str) -> (r: Option<&UpstreamConfig>)
        ensures
            match r {
                Some(u) => upstream_for(self.config().upstream, host@) == Some(u@),
                None => upstream_for(self.config().upstream, host@) is None,
            },
    {
        let host_chars = chars_of(host);
        let ghost ups = self.config@.upstream;
        let mut i: usize = 0;
        while i < self.config.upstream.len()
            invariant
                i <= self.config.upstream.len(),
                ups == self.config@.upstream,
                host_chars@ == host@,
                forall|j: int| 0 <= j < i ==> !serves(#[trigger] ups[j], host@),
            decreases self.config.upstream.len() - i,
        {
            let upstream = &self.config.upstream[i];
            assert(ups[i as int] == upstream@);
            let found = match &upstream.domain {
                Some(d) => {
                    let domain = chars_of(d.as_str());
                    has_suffix(host_chars.as_slice(), domain.as_slice())
                },
                None => false,
            };
            if found {
                proof {
                    lemma_serving_index_is(ups, host@, i as int);
                }
                return Some(upstream);
            }
            i += 1;
        }
        proof {
            lemma_serving_index_is(ups, host@, i as int);
        }
        if self.config.upstream.len() > 0 {
            assert(ups[0] == self.config.upstream@[0]@);
            Some(&self.config.upstream[0])
        } else {
            None
        }
    }

    /// The URL that a path is proxied to in reverse, if a rule covers it.
    pub fn get_reverse_proxy_target(&self, path: &str) -> (r: Option<&str>)
        ensures
            match r {
                Some(url) => reverse_target(self.config().reverse_proxy, path@) == Some(url@),
                None => reverse_target(self.config().reverse_proxy, path@) is None,
            },
    {
        let path_chars = chars_of(path);
        let ghost rules = self.config@.reverse_proxy;
        let mut i: usize = 0;
        while i < self.config.reverse_proxy.len()
            invariant
                i <= self.config.reverse_proxy.len(),
                rules == self.config@.reverse_proxy,
                path_chars@ == path@,
                forall|j: int| 0 <= j < i ==> !starts_with(path@, (#[trigger] rules[j]).path),
            decreases self.config.reverse_proxy.len() - i,
        {
            let rule = &self.config.reverse_proxy[i];
            assert(rules[i as int] == rule@);
            let prefix = chars_of(rule.path.as_str());
            if has_prefix(path_chars.as_slice(), prefix.as_slice()) {
                proof {
                    lemma_rule_index_is(rules, path@, i as int);
                }
                return Some(rule.url.as_str());
            }
            i += 1;
        }
        proof {
            lemma_rule_index_is(rules, path@, i as int);
        }
        None
    }

    /// Changes the headers of a request into those to relay for the client
    /// at `client_ip`.
    pub fn process_headers(&self, headers: &mut Headers, client_ip: &str)
        ensures
            final(headers)@ == processed(old(headers)@, self.config(), client_ip@),
    {
        let ghost c = self.config@;
        let ghost names = c.anonymous;
        let mut i: usize = 0;
        proof {
            assert(names.take(0) =~= Seq::<Seq<char>>::empty());
        }
        while i < self.config.anonymous.len()
            invariant
                i <= self.config.anonymous.len(),
                c == self.config@,
                names == c.anonymous,
                headers@ == without_all(old(headers)@, names.take(i as int)),
            decreases self.config.anonymous.len() - i,
        {
            proof {
                assert(names.take(i + 1).drop_last() =~= names.take(i as int));
                assert(names.take(i + 1).last() == self.config.anonymous@[i as int]@);
            }
            let name = str_to_lowercase(self.config.anonymous[i].as_str());
            headers.remove(name.as_str());
            i += 1;
        }
        proof {
            assert(names.take(self.config.anonymous.len() as int) =~= names);
        }
        if !self.config.disable_via_header {
            let mut via = String::from_str("1.1 ");
            match &self.config.via_proxy_name {
                Some(name) => {
                    via.append(name.as_str());
                },
                None => {
                    via.append("tinyproxy");
                },
            }
            headers.insert(String::from_str("via"), via);
        }
        if self.config.x_tinyproxy {
            headers.insert(String::from_str("x-tinyproxy"), String::from_str(client_ip));
        }
        let ghost base = headers@;
        let ghost extra = c.add_headers;
        let mut k: usize = 0;
        proof {
            assert(extra.take(0) =~= Seq::<(Seq<char>, Seq<char>)>::empty());
        }
        while k < self.config.add_headers.len()
            invariant
                k <= self.config.add_headers@.len(),
                c == self.config@,
                extra == c.add_headers,
                headers@ == merged(base, extra.take(k as int)),
            decreases self.config.add_headers@.len() - k,
        {
            proof {
                assert(extra.take(k + 1).drop_last() =~= extra.take(k as int));
                assert(extra.take(k + 1).last() == extra[k as int]);
            }
            let name = str_to_lowercase(self.config.add_headers.name_at(k).as_str());
            let value = self.config.add_headers.value_at(k).clone();
            headers.insert(name, value);
            k += 1;
        }
        proof {
            assert(extra.take(self.config.add_headers@.len() as int) =~= extra);
        }
    }
}

} // verus!
