//! The MediaIndex completion webhook: its settings, the pending-notification marker
//! and the request that announces finished downloads.
use vstd::prelude::*;

use crate::cd2::{http_scheme, is_http_scheme};
use crate::web::{parse_url, parsed_url, UrlParts};

verus! {

/// Why the webhook settings were refused.
#[derive(Debug, Clone, Copy, PartialEq, Eq, Structural)]
pub enum WebhookError {
    /// Only one of the address and the token is set.
    NotPaired,
    /// The address is not a URL.
    InvalidUrl,
    /// The address does not use HTTP or HTTPS.
    NotHttp,
}

/// The MediaIndex webhook: where completions are announced, and the token.
pub struct Webhook {
    url: String,
    token: String,
}

/// The specification form of a [`Webhook`].
pub struct WebhookView {
    pub url: Seq<char>,
    pub token: Seq<char>,
}

impl View for Webhook {
    type V = WebhookView;

    closed spec fn view(&self) -> WebhookView {
        WebhookView { url: self.url@, token: self.token@ }
    }
}

/// The webhook that the settings give: none when both are empty.
pub open spec fn webhook_of(url: Seq<char>, token: Seq<char>) -> Result<Option<WebhookView>, WebhookError> {
    if url.len() == 0 && token.len() == 0 {
        Ok(None)
    } else if url.len() == 0 || token.len() == 0 {
        Err(WebhookError::NotPaired)
    } else {
        match parsed_url(url) {
            None => Err(WebhookError::InvalidUrl),
            Some(u) => if http_scheme(u.scheme) {
                Ok(Some(WebhookView { url, token }))
            } else {
                Err(WebhookError::NotHttp)
            },
        }
    }
}

/// The name of the marker file that records an announcement still to be sent.
pub open spec fn pending_file_name() -> Seq<char> {
    "media-index-webhook.pending"@
}

/// `dir` joined with the relative name `name`, as `Path::join` writes it on Unix.
pub open spec fn joined_text(dir: Seq<char>, name: Seq<char>) -> Seq<char> {
    if dir.len() == 0 || dir.last() == '/' {
        dir + name
    } else {
        dir + seq!['/'] + name
    }
}

/// The JSON body of the completion announcement.
pub open spec fn completion_body_text() -> Seq<char> {
    "{\"event\":\"finished\"}"@
}

/// The JSON body of the completion announcement, `{"event":"finished"}`, sent as
/// `application/json`.
pub fn completion_body() -> (r: &'static str)
    ensures
        r@ == completion_body_text(),
{
    "{\"event\":\"finished\"}"
}

/// Whether MediaIndex accepted the announcement, so that the pending marker can be
/// removed: a 2xx status. Any other status keeps the marker for a later retry.
pub fn announcement_accepted(status: u16) -> (r: bool)
    ensures
        r == (200 <= status <= 299),
{
    crate::cd2::http_success(status)
}

/// Checks the parsed webhook address: an HTTP(S) URL.
pub fn check_webhook_url(parts: &UrlParts) -> (r: Result<(), WebhookError>)
    ensures
        http_scheme(parts@.scheme) ==> r is Ok,
        !http_scheme(parts@.scheme) ==> r == Err::<(), WebhookError>(WebhookError::NotHttp),
{
    if is_http_scheme(&parts.scheme) {
        Ok(())
    } else {
        Err(WebhookError::NotHttp)
    }
}

impl Webhook {
    /// The webhook from its address and token
    /// (`BILI_SYNC_MEDIA_INDEX_WEBHOOK_URL`, `BILI_SYNC_MEDIA_INDEX_WEBHOOK_TOKEN`;
    /// unset counts as empty): none when both are empty, refused when only one is set
    /// or the address is not an HTTP(S) URL.
    pub fn from_settings(url: &str, token: &str) -> (r: Result<Option<Webhook>, WebhookError>)
        ensures
            match webhook_of(url@, token@) {
                Ok(None) => r matches Ok(None),
                Ok(Some(w)) => r matches Ok(Some(x)) && x@ == w,
                Err(e) => r matches Err(x) && x == e,
            },
    {
        let url_empty = url.unicode_len() == 0;
        let token_empty = token.unicode_len() == 0;
        if url_empty && token_empty {
            return Ok(None);
        }
        if url_empty || token_empty {
            return Err(WebhookError::NotPaired);
        }
        let parts = match parse_url(url) {
            Some(p) => p,
            None => return Err(WebhookError::InvalidUrl),
        };
        match check_webhook_url(&parts) {
            Err(e) => return Err(e),
            Ok(()) => {},
        }
        Ok(Some(Webhook { url: url.to_owned(), token: token.to_owned() }))
    }

    /// Where the completion is announced.
    pub fn url(&self) -> (r: &str)
        ensures
            r@ == self@.url,
    {
        self.url.as_str()
    }

    /// The `Authorization` header value of the announcement: `Bearer <token>`.
    pub fn authorization(&self) -> (r: String)
        ensures
            r@ == "Bearer "@ + self@.token,
    {
        let mut s = String::from_str("Bearer ");
        s.append(self.token.as_str());
        s
    }
}

/// Checks the webhook settings.
pub fn validate(url: &str, token: &str) -> (r: Result<(), WebhookError>)
    ensures
        match webhook_of(url@, token@) {
            Ok(_) => r is Ok,
            Err(e) => r == Err::<(), WebhookError>(e),
        },
{
    match Webhook::from_settings(url, token) {
        Ok(_) => Ok(()),
        Err(e) => Err(e),
    }
}

/// The marker file in the configuration directory `config_dir`.
pub fn pending_path(config_dir: &str) -> (r: String)
    ensures
        r@ == joined_text(config_dir@, pending_file_name()),
{
    let n = config_dir.unicode_len();
    let mut s = config_dir.to_owned();
    if n > 0 && config_dir.get_char(n - 1) != '/' {
        s.push('/');
    }
    s.append("media-index-webhook.pending");
    s
}


/// Both settings given, and an address that parses with the scheme `http` or
/// `https`: the webhook is the address and token as given, whatever else the address
/// holds (host, port, path). An address that parses with another scheme is refused as
/// not HTTP.
pub proof fn lemma_http_address_accepted(url: Seq<char>, token: Seq<char>)
    requires
        url.len() > 0,
        token.len() > 0,
        parsed_url(url) is Some,
    ensures
        (parsed_url(url).unwrap().scheme == "http"@ || parsed_url(url).unwrap().scheme == "https"@)
            ==> webhook_of(url, token) == Ok::<Option<WebhookView>, WebhookError>(
            Some(WebhookView { url, token }),
        ),
        !(parsed_url(url).unwrap().scheme == "http"@ || parsed_url(url).unwrap().scheme
            == "https"@) ==> webhook_of(url, token) == Err::<Option<WebhookView>, WebhookError>(
            WebhookError::NotHttp,
        ),
{
    reveal_strlit("http");
    reveal_strlit("https");
    let s = parsed_url(url).unwrap().scheme;
    if s == "http"@ {
        assert(s =~= seq!['h', 't', 't', 'p']);
    }
    if s == "https"@ {
        assert(s =~= seq!['h', 't', 't', 'p', 's']);
    }
    if http_scheme(s) {
        assert(s == "http"@ || s == "https"@);
    }
}

} // verus!
