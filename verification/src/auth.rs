//! Basic proxy authentication against one configured user and password.

use crate::config::{BasicAuthConfig, BasicAuthView, Config};
use crate::error::{ErrorView, ProxyError, ProxyResult};
use crate::headers::{lookup, HeaderList};
use crate::text::{
    chars_of, find_char, has_prefix, lemma_position_is, position, same_text, starts_with, text_of,
};
use crate::utils::HttpRequest;
use vstd::prelude::*;
use vstd::slice::slice_subrange;
use vstd::string::StringExecFns;
use vstd::utf8::{
    decode_utf8, encode_utf8, encode_utf8_decode_utf8, encode_utf8_valid_utf8, valid_utf8,
};

verus! {

/// The bytes that a text in standard base64, with padding, stands for; none
/// where the text is not such an encoding.
pub uninterp spec fn base64_decoded(input: Seq<char>) -> Option<Seq<u8>>;

/// `Engine::decode` of the `base64` crate, on its `STANDARD` engine: whether
/// the text decodes, and to which bytes, depends on the text alone.
#[verifier::external_body]
fn decode_base64(input: &str) -> (r: Option<Vec<u8>>)
    ensures
        match r {
            Some(bytes) => base64_decoded(input@) == Some(bytes@),
            None => base64_decoded(input@) is None,
        },
{
    base64::Engine::decode(&base64::engine::general_purpose::STANDARD, input).ok()
}

/// `String::from_utf8`: the text that the bytes encode, where they are valid UTF-8.
#[verifier::external_body]
fn text_from_utf8(bytes: Vec<u8>) -> (r: Option<String>)
    ensures
        match r {
            Some(text) => valid_utf8(bytes@) && text@ == decode_utf8(bytes@),
            None => !valid_utf8(bytes@),
        },
{
    String::from_utf8(bytes).ok()
}

/// What decoded credentials are worth: they must be UTF-8 and hold a colon;
/// what stands before the first colon is the user, what stands after it the
/// password, and both must be the configured ones.
pub open spec fn credentials_verdict(configured: BasicAuthView, decoded: Seq<u8>) -> Result<
    bool,
    ErrorView,
> {
    if !valid_utf8(decoded) {
        Err(ErrorView::AuthenticationFailed)
    } else {
        let text = decode_utf8(decoded);
        let colon = position(text, ':');
        if 0 <= colon < text.len() {
            Ok(text.take(colon) == configured.username && text.skip(colon + 1) == configured.password)
        } else {
            Err(ErrorView::AuthenticationFailed)
        }
    }
}

/// What the headers of a request are worth. Without configured credentials
/// every request passes. Else the header `proxy-authorization` must be there,
/// or the request does not pass; it must begin with `Basic ` and go on with
/// base64, or authentication fails; and the decoded credentials decide.
pub open spec fn verdict(configured: Option<BasicAuthView>, headers: HeaderList) -> Result<
    bool,
    ErrorView,
> {
    match configured {
        None => Ok(true),
        Some(c) => match lookup(headers, "proxy-authorization"@) {
            None => Ok(false),
            Some(value) => if !starts_with(value, "Basic "@) {
                Err(ErrorView::AuthenticationFailed)
            } else {
                match base64_decoded(value.skip("Basic "@.len() as int)) {
                    None => Err(ErrorView::AuthenticationFailed),
                    Some(decoded) => credentials_verdict(c, decoded),
                }
            },
        },
    }
}

/// Whether `r` is the result that `expected` describes.
pub open spec fn answers(r: ProxyResult<bool>, expected: Result<bool, ErrorView>) -> bool {
    match r {
        Ok(b) => expected == Ok::<bool, ErrorView>(b),
        Err(e) => expected == Err::<bool, ErrorView>(e@),
    }
}

/// A request that carries `Basic ` and the base64 of `user:password` passes
/// if and only if these are the configured user and password. A user with a
/// colon in it is left out: the text is split at its first colon.
pub proof fn lemma_round_trip(
    configured: BasicAuthView,
    headers: HeaderList,
    payload: Seq<char>,
    user: Seq<char>,
    password: Seq<char>,
)
    requires
        lookup(headers, "proxy-authorization"@) == Some("Basic "@ + payload),
        base64_decoded(payload) == Some(encode_utf8(user + seq![':'] + password)),
        !user.contains(':'),
    ensures
        verdict(Some(configured), headers) == Ok::<bool, ErrorView>(
            user == configured.username && password == configured.password,
        ),
{
    let value = "Basic "@ + payload;
    let n = "Basic "@.len() as int;
    assert(value.subrange(0, n) =~= "Basic "@);
    assert(value.skip(n) =~= payload);
    let text = user + seq![':'] + password;
    encode_utf8_valid_utf8(text);
    encode_utf8_decode_utf8(text);
    assert forall|j: int| 0 <= j < user.len() implies text[j] != ':' by {
        assert(text[j] == user[j]);
        assert(user.contains(user[j]));
    }
    assert(text[user.len() as int] == ':');
    lemma_position_is(text, ':', user.len() as int);
    assert(text.take(user.len() as int) =~= user);
    assert(text.skip(user.len() as int + 1) =~= password);
}

/// Decides on decoded credentials.
pub fn check_credentials(configured: &BasicAuthConfig, decoded: Vec<u8>) -> (r: ProxyResult<bool>)
    ensures
        answers(r, credentials_verdict(configured@, decoded@)),
{
    let text = match text_from_utf8(decoded) {
        Some(text) => text,
        None => {
            return Err(ProxyError::AuthenticationFailed);
        },
    };
    let chars = chars_of(text.as_str());
    let chars = chars.as_slice();
    let colon = find_char(chars, ':');
    if colon >= chars.len() {
        return Err(ProxyError::AuthenticationFailed);
    }
    let user = slice_subrange(chars, 0, colon);
    let password = slice_subrange(chars, colon + 1, chars.len());
    proof {
        assert(chars@.subrange(0, colon as int) =~= chars@.take(colon as int));
        assert(chars@.subrange(colon + 1, chars.len() as int) =~= chars@.skip(colon + 1));
    }
    let expected_user = chars_of(configured.username.as_str());
    let expected_password = chars_of(configured.password.as_str());
    Ok(
        same_text(user, expected_user.as_slice()) && same_text(
            password,
            expected_password.as_slice(),
        ),
    )
}

/// The configured credentials, if any.
#[derive(Debug)]
pub struct Authenticator {
    auth_config: Option<BasicAuthConfig>,
}

impl Authenticator {
    /// The configured credentials.
    pub closed spec fn credentials(self) -> Option<BasicAuthView> {
        match self.auth_config {
            Some(c) => Some(c@),
            None => None,
        }
    }

    /// The authenticator of a configuration.
    pub fn new(config: &Config) -> (auth: Authenticator)
        ensures
            auth.credentials() == config@.basic_auth,
    {
        let auth_config = match &config.basic_auth {
            Some(b) => Some(
                BasicAuthConfig {
                    username: b.username.clone(),
                    password: b.password.clone(),
                    realm: b.realm.clone(),
                },
            ),
            None => None,
        };
        Authenticator { auth_config }
    }

    /// Whether a request passes; an error where its credentials cannot be read.
    pub fn authenticate(&self, request: &HttpRequest) -> (r: ProxyResult<bool>)
        ensures
            answers(r, verdict(self.credentials(), request@.headers)),
    {
        let configured = match &self.auth_config {
            Some(c) => c,
            None => {
                return Ok(true);
            },
        };
        let value = match request.headers.get("proxy-authorization") {
            Some(v) => v,
            None => {
                return Ok(false);
            },
        };
        let chars = chars_of(value.as_str());
        let chars = chars.as_slice();
        let scheme = chars_of("Basic ");
        if !has_prefix(chars, scheme.as_slice()) {
            return Err(ProxyError::AuthenticationFailed);
        }
        let payload = text_of(slice_subrange(chars, scheme.len(), chars.len()));
        proof {
            assert(chars@.subrange(scheme.len() as int, chars.len() as int) =~= chars@.skip(
                scheme.len() as int,
            ));
        }
        match decode_base64(payload.as_str()) {
            Some(decoded) => check_credentials(configured, decoded),
            None => Err(ProxyError::AuthenticationFailed),
        }
    }

    /// Whether credentials are configured.
    pub fn is_enabled(&self) -> (r: bool)
        ensures
            r == self.credentials() is Some,
    {
        self.auth_config.is_some()
    }

    /// The realm to name when credentials are asked for.
    pub fn get_realm(&self) -> (realm: String)
        ensures
            realm@ == match self.credentials() {
                Some(c) => c.realm,
                None => "Tinyproxy"@,
            },
    {
        match &self.auth_config {
            Some(c) => c.realm.clone(),
            None => String::from_str("Tinyproxy"),
        }
    }
}

} // verus!
