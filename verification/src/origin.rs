//! Where a request is to go: the host and port of a `CONNECT` target, and the
//! origin server of a request to forward.

use crate::addr::{parse_unsigned, unsigned_of};
use crate::error::{joined, ErrorView, ProxyError, ProxyResult};
use crate::headers::lookup;
use crate::text::{
    chars_of, digits_of, find_last_char, has_prefix, last_position, lemma_last_position,
    push_number, split, split_on, starts_with, text_of, views,
};
use crate::utils::{HttpRequest, RequestView};
use vstd::prelude::*;
use vstd::slice::slice_subrange;
use vstd::string::StringExecFns;

verus! {

/// What this library reads from an absolute URL.
#[derive(Debug, Clone)]
pub struct UrlParts {
    pub scheme: String,
    pub host: Option<String>,
    /// The port, where the URL names one that is not the default of its scheme.
    pub port: Option<u16>,
}

/// `UrlParts` with its strings as sequences of characters.
pub struct UrlView {
    pub scheme: Seq<char>,
    pub host: Option<Seq<char>>,
    pub port: Option<u16>,
}

impl View for UrlParts {
    type V = UrlView;

    open spec fn view(&self) -> UrlView {
        UrlView {
            scheme: self.scheme@,
            host: match self.host {
                Some(h) => Some(h@),
                None => None,
            },
            port: self.port,
        }
    }
}

/// The scheme, host and port of a text as an absolute URL, as the `url` crate
/// reads it; where it is no such URL, the reason in the crate's own words.
pub uninterp spec fn parsed_url(input: Seq<char>) -> Result<UrlView, Seq<char>>;

/// `Url::parse` of the `url` crate, and of its result `scheme`, `host_str`
/// and `port`, or else the text of its error: all of them depend on the text
/// alone.
#[verifier::external_body]
pub(crate) fn parse_url(input: &str) -> (r: Result<UrlParts, String>)
    ensures
        match r {
            Ok(parts) => parsed_url(input@) == Ok::<UrlView, Seq<char>>(parts@),
            Err(reason) => parsed_url(input@) == Err::<UrlView, Seq<char>>(reason@),
        },
{
    match url::Url::parse(input) {
        Ok(u) => Ok(
            UrlParts {
                scheme: u.scheme().to_string(),
                host: u.host_str().map(|h| h.to_string()),
                port: u.port(),
            },
        ),
        Err(e) => Err(e.to_string()),
    }
}

/// An error `InvalidRequest` whose message is `prefix` and then `detail`.
pub fn invalid_request(prefix: &str, detail: &str) -> (e: ProxyError)
    ensures
        e@ == ErrorView::InvalidRequest(prefix@ + detail@),
{
    ProxyError::InvalidRequest(joined(prefix, detail))
}

/// The host and port that `host:port` denotes; a host alone has port 80.
pub open spec fn host_port_of(target: Seq<char>) -> Result<(Seq<char>, u16), ErrorView> {
    let p = split_on(target, ':');
    if p.len() == 1 {
        Ok((p[0], 80u16))
    } else if p.len() == 2 {
        match unsigned_of(p[1], 65535) {
            Some(port) => Ok((p[0], port as u16)),
            None => Err(ErrorView::InvalidRequest("Invalid port: "@ + p[1])),
        }
    } else {
        Err(ErrorView::InvalidRequest("Invalid host:port format: "@ + target))
    }
}

/// Reads the target of a `CONNECT` request.
pub fn parse_host_port(uri: &str) -> (r: ProxyResult<(String, u16)>)
    ensures
        match r {
            Ok((host, port)) => host_port_of(uri@) == Ok::<(Seq<char>, u16), ErrorView>(
                (host@, port),
            ),
            Err(e) => host_port_of(uri@) == Err::<(Seq<char>, u16), ErrorView>(e@),
        },
{
    let chars = chars_of(uri);
    let parts = split(chars.as_slice(), ':');
    proof {
        let p = views(parts@);
        if parts.len() >= 1 {
            assert(p[0] == parts@[0]@);
        }
        if parts.len() >= 2 {
            assert(p[1] == parts@[1]@);
        }
    }
    if parts.len() == 1 {
        Ok((text_of(parts[0].as_slice()), 80))
    } else if parts.len() == 2 {
        match parse_unsigned(parts[1].as_slice(), 65535) {
            Some(port) => Ok((text_of(parts[0].as_slice()), port as u16)),
            None => Err(invalid_request("Invalid port: ", text_of(parts[1].as_slice()).as_str())),
        }
    } else {
        Err(invalid_request("Invalid host:port format: ", uri))
    }
}

/// The origin server of a request, and the absolute form of its target.
#[derive(Debug, Clone)]
pub struct Origin {
    pub host: String,
    pub port: u16,
    pub target_uri: String,
}

/// `Origin` with its strings as sequences of characters.
pub struct OriginView {
    pub host: Seq<char>,
    pub port: u16,
    pub target_uri: Seq<char>,
}

impl View for Origin {
    type V = OriginView;

    open spec fn view(&self) -> OriginView {
        OriginView { host: self.host@, port: self.port, target_uri: self.target_uri@ }
    }
}

/// Whether a target is in absolute form.
pub open spec fn is_absolute(uri: Seq<char>) -> bool {
    starts_with(uri, "http://"@) || starts_with(uri, "https://"@)
}

/// The origin of a target in absolute form, given what it holds as a URL: its
/// host, and its port or else the default of its scheme, 443 for `https` and
/// 80 for any other. Where it is no URL, the error gives the reason.
pub open spec fn origin_of_url(uri: Seq<char>, url: Result<UrlView, Seq<char>>) -> Result<
    OriginView,
    ErrorView,
> {
    match url {
        Err(reason) => Err(ErrorView::InvalidRequest("Invalid URL: "@ + reason)),
        Ok(u) => match u.host {
            None => Err(ErrorView::InvalidRequest("No host in URL"@)),
            Some(host) => Ok(
                OriginView {
                    host,
                    port: match u.port {
                        Some(p) => p,
                        None => if u.scheme == "https"@ {
                            443u16
                        } else {
                            80u16
                        },
                    },
                    target_uri: uri,
                },
            ),
        },
    }
}

/// The origin that a `Host` header names for a target in origin form: the
/// host, and the port after its last colon, or 80 where it has no colon.
pub open spec fn origin_of_host(uri: Seq<char>, host: Option<Seq<char>>) -> Result<
    OriginView,
    ErrorView,
> {
    match host {
        None => Err(ErrorView::InvalidRequest("No Host header for relative URL"@)),
        Some(h) => {
            let colon = last_position(h, ':');
            if 0 <= colon < h.len() {
                match unsigned_of(h.skip(colon + 1), 65535) {
                    None => Err(
                        ErrorView::InvalidRequest(
                            "Invalid port in Host header: "@ + h.skip(colon + 1),
                        ),
                    ),
                    Some(port) => Ok(
                        OriginView {
                            host: h.take(colon),
                            port: port as u16,
                            target_uri: "http://"@ + h.take(colon) + ":"@ + digits_of(port) + uri,
                        },
                    ),
                }
            } else {
                Ok(
                    OriginView {
                        host: h,
                        port: 80,
                        target_uri: "http://"@ + h + ":"@ + digits_of(80) + uri,
                    },
                )
            }
        },
    }
}

/// The origin of a request.
pub open spec fn origin_of(request: RequestView) -> Result<OriginView, ErrorView> {
    if is_absolute(request.uri) {
        origin_of_url(request.uri, parsed_url(request.uri))
    } else {
        origin_of_host(request.uri, lookup(request.headers, "host"@))
    }
}

/// Whether `r` is the origin, or the error, that `expected` describes.
pub open spec fn resolved(r: ProxyResult<Origin>, expected: Result<OriginView, ErrorView>) -> bool {
    match r {
        Ok(origin) => expected == Ok::<OriginView, ErrorView>(origin@),
        Err(e) => expected == Err::<OriginView, ErrorView>(e@),
    }
}

/// What reading a URL gave, with its strings as sequences of characters.
pub open spec fn url_view(url: Result<UrlParts, String>) -> Result<UrlView, Seq<char>> {
    match url {
        Ok(u) => Ok(u@),
        Err(reason) => Err(reason@),
    }
}

/// The origin of a target in absolute form, given what reading it as a URL gave.
pub fn origin_from_url(uri: &str, url: Result<UrlParts, String>) -> (r: ProxyResult<Origin>)
    ensures
        resolved(r, origin_of_url(uri@, url_view(url))),
{
    let url = match url {
        Ok(u) => u,
        Err(reason) => {
            return Err(invalid_request("Invalid URL: ", reason.as_str()));
        },
    };
    let host = match url.host {
        Some(h) => h,
        None => {
            return Err(ProxyError::InvalidRequest(String::from_str("No host in URL")));
        },
    };
    let port = match url.port {
        Some(p) => p,
        None => if crate::text::str_eq(url.scheme.as_str(), "https") {
            443
        } else {
            80
        },
    };
    Ok(Origin { host, port, target_uri: String::from_str(uri) })
}

/// The origin that a `Host` header names for a target in origin form.
pub fn origin_from_host(uri: &str, host: Option<&String>) -> (r: ProxyResult<Origin>)
    ensures
        resolved(
            r,
            origin_of_host(
                uri@,
                match host {
                    Some(h) => Some(h@),
                    None => None,
                },
            ),
        ),
{
    let host = match host {
        Some(h) => h,
        None => {
            return Err(
                ProxyError::InvalidRequest(String::from_str("No Host header for relative URL")),
            );
        },
    };
    let chars = chars_of(host.as_str());
    let chars = chars.as_slice();
    proof {
        lemma_last_position(chars@, ':');
    }
    let (name, port): (String, u16) = match find_last_char(chars, ':') {
        Some(colon) => {
            let port_text = slice_subrange(chars, colon + 1, chars.len());
            proof {
                assert(chars@.subrange(0, colon as int) =~= chars@.take(colon as int));
                assert(chars@.subrange(colon + 1, chars.len() as int) =~= chars@.skip(colon + 1));
            }
            match parse_unsigned(port_text, 65535) {
                Some(p) => (text_of(slice_subrange(chars, 0, colon)), p as u16),
                None => {
                    return Err(
                        invalid_request(
                            "Invalid port in Host header: ",
                            text_of(port_text).as_str(),
                        ),
                    );
                },
            }
        },
        None => (host.clone(), 80),
    };
    let mut target_uri = String::from_str("http://");
    target_uri.append(name.as_str());
    target_uri.append(":");
    push_number(&mut target_uri, port as u64);
    target_uri.append(uri);
    Ok(Origin { host: name, port, target_uri })
}

/// The origin of a request: that of its target where the target is in
/// absolute form, else the one that its `Host` header names.
pub fn resolve_origin(request: &HttpRequest) -> (r: ProxyResult<Origin>)
    ensures
        resolved(r, origin_of(request@)),
{
    let uri = chars_of(request.uri.as_str());
    let http = chars_of("http://");
    let https = chars_of("https://");
    if has_prefix(uri.as_slice(), http.as_slice()) || has_prefix(uri.as_slice(), https.as_slice()) {
        origin_from_url(request.uri.as_str(), parse_url(request.uri.as_str()))
    } else {
        origin_from_host(request.uri.as_str(), request.headers.get("host"))
    }
}

} // verus!
