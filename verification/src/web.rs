//! The calls into `reqwest` (its `Url` and header types) that the library's logic
//! makes, with what their contracts claim.
use vstd::prelude::*;

verus! {

/// The parts of an absolute URL that the configuration checks read.
pub struct UrlParts {
    pub scheme: String,
    pub host: Option<String>,
    pub username: String,
    pub password: Option<String>,
    pub query: Option<String>,
    pub fragment: Option<String>,
    /// The URL's serialization.
    pub href: String,
}

/// The specification form of [`UrlParts`].
pub struct UrlPartsView {
    pub scheme: Seq<char>,
    pub host: Option<Seq<char>>,
    pub username: Seq<char>,
    pub password: Option<Seq<char>>,
    pub query: Option<Seq<char>>,
    pub fragment: Option<Seq<char>>,
    pub href: Seq<char>,
}

/// The view of an optional string.
pub open spec fn opt_view(o: Option<String>) -> Option<Seq<char>> {
    match o {
        Some(s) => Some(s@),
        None => None,
    }
}

impl View for UrlParts {
    type V = UrlPartsView;

    open spec fn view(&self) -> UrlPartsView {
        UrlPartsView {
            scheme: self.scheme@,
            host: opt_view(self.host),
            username: self.username@,
            password: opt_view(self.password),
            query: opt_view(self.query),
            fragment: opt_view(self.fragment),
            href: self.href@,
        }
    }
}

/// What `url::Url::parse` (re-exported as `reqwest::Url`) makes of `input`: `None`
/// when it is not an absolute URL, else the URL's scheme, host, user name, password,
/// query, fragment and serialization.
pub uninterp spec fn parsed_url(input: Seq<char>) -> Option<UrlPartsView>;

/// Calls `reqwest::Url::parse(input)` and reads the parts of the result with
/// `scheme`, `host_str`, `username`, `password`, `query`, `fragment` and `as_str`.
/// Claims only that the result is [`parsed_url`] of the input.
#[verifier::external_body]
pub(crate) fn parse_url(input: &str) -> (r: Option<UrlParts>)
    ensures
        match parsed_url(input@) {
            Some(p) => r matches Some(q) && q@ == p,
            None => r is None,
        },
{
    match reqwest::Url::parse(input) {
        Ok(u) => Some(UrlParts {
            scheme: u.scheme().to_owned(),
            host: u.host_str().map(|h| h.to_owned()),
            username: u.username().to_owned(),
            password: u.password().map(|p| p.to_owned()),
            query: u.query().map(|q| q.to_owned()),
            fragment: u.fragment().map(|f| f.to_owned()),
            href: u.as_str().to_owned(),
        }),
        Err(_) => None,
    }
}

/// What `url::Url::join` gives for the URL that `base` parses to and the reference
/// `input`: the serialization of the resolved URL, or `None` when either step fails.
pub uninterp spec fn joined_url(base: Seq<char>, input: Seq<char>) -> Option<Seq<char>>;

/// Calls `reqwest::Url::parse(base)` and then `join(input)` on the result. Claims
/// only that the result is [`joined_url`] of the arguments.
#[verifier::external_body]
pub(crate) fn join_url(base: &str, input: &str) -> (r: Option<String>)
    ensures
        match joined_url(base@, input@) {
            Some(u) => r matches Some(s) && s@ == u,
            None => r is None,
        },
{
    match reqwest::Url::parse(base) {
        Ok(b) => match b.join(input) {
            Ok(u) => Some(u.as_str().to_owned()),
            Err(_) => None,
        },
        Err(_) => None,
    }
}

/// A character of an HTTP token (`tchar`): `!`, `#` to `'`, `*`, `+`, `-`, `.`, a
/// digit, a letter, `^`, `_`, `` ` ``, `|` or `~`.
pub open spec fn is_token_char(c: char) -> bool {
    let u = c as u32;
    u == 33 || (35 <= u <= 39) || u == 42 || u == 43 || u == 45 || u == 46 || (48 <= u <= 57)
        || (65 <= u <= 90) || (94 <= u <= 122) || u == 124 || u == 126
}

/// A header name that `http::HeaderName::try_from` accepts: 1 to 65535 bytes
/// (`MAX_HEADER_NAME_LEN`), each a token character (upper case is accepted and
/// lowered). A character outside ASCII is never a token character, so the length in
/// characters is the length in bytes.
pub open spec fn is_header_name(name: Seq<char>) -> bool {
    &&& 1 <= name.len() <= 65535
    &&& forall|i: int| 0 <= i < name.len() ==> #[trigger] is_token_char(name[i])
}

/// Calls `reqwest::header::HeaderName::try_from(name)`, which goes through
/// `HeaderName::from_bytes`: the empty name and names over `MAX_HEADER_NAME_LEN`
/// bytes are refused, and every byte is looked up in the `HEADER_CHARS` table, where
/// only token characters map to a non-zero byte. Claims that it succeeds exactly when
/// [`is_header_name`] holds of the name.
#[verifier::external_body]
pub(crate) fn header_name_ok(name: &str) -> (r: bool)
    ensures
        r == is_header_name(name@),
{
    reqwest::header::HeaderName::try_from(name).is_ok()
}

/// A header value that `http::HeaderValue::try_from` accepts: every byte of its UTF-8
/// form is a tab or at least 32 and not 127. A character outside ASCII encodes to
/// bytes of at least 128, so it is always accepted.
pub open spec fn is_header_value(value: Seq<char>) -> bool {
    forall|i: int|
        0 <= i < value.len() ==> {
            let u = #[trigger] value[i] as u32;
            u == 9 || (u >= 32 && u != 127)
        }
}

/// Calls `reqwest::header::HeaderValue::try_from(value)`, which parses through
/// `HeaderValue::from_str` and checks each byte with `is_valid`
/// (`b >= 32 && b != 127 || b == b'\t'`). Claims that it succeeds exactly
/// when [`is_header_value`] holds.
#[verifier::external_body]
pub(crate) fn header_value_ok(value: &str) -> (r: bool)
    ensures
        r == is_header_value(value@),
{
    reqwest::header::HeaderValue::try_from(value).is_ok()
}

} // verus!
