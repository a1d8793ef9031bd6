//! Notifications: the notifier settings and what each kind of notifier sends
//! (Telegram form requests, webhook headers, the HTML body of a notification e-mail).
use vstd::prelude::*;

use crate::text::{chars_of, trim, is_blank};
use crate::web::{header_name_ok, header_value_ok, is_header_name, is_header_value};

verus! {

/// How an SMTP notifier connects.
#[derive(Debug, Clone, Copy, PartialEq, Eq, Structural)]
pub enum SmtpEncryption {
    /// No encryption (`none` in the settings).
    Unencrypted,
    Tls,
    StartTls,
}

/// A configured notifier.
#[derive(Debug)]
pub enum Notifier {
    Telegram { bot_token: String, chat_id: String, skip_image: bool },
    Webhook {
        url: String,
        template: Option<String>,
        /// Extra request headers, as name and value, in the order in which they are set
        /// (a later header replaces an earlier one of the same name). The settings keep
        /// them in a map, so no name occurs twice; the order is that in which the map
        /// is walked.
        headers: Option<Vec<(String, String)>>,
        /// Set to render `template` itself instead of the registered template.
        ignore_cache: Option<()>,
    },
    Smtp {
        host: String,
        port: u16,
        encryption: SmtpEncryption,
        username: String,
        password: String,
        from: String,
        to: String,
    },
}

/// The subject of a notification e-mail.
pub const EMAIL_SUBJECT: &'static str = "BiliSync 通知";

/// The name under which a webhook's payload template is registered: `payload_<url>`.
pub fn webhook_template_key(url: &str) -> (r: String)
    ensures
        r@ == "payload_"@ + url@,
{
    let mut s = String::from_str("payload_");
    s.append(url);
    s
}

/// The payload template used when a webhook has none, or only white space.
pub open spec fn default_webhook_template() -> Seq<char> {
    "{\"text\": \"{{{message}}}\"}"@
}

/// The payload template of a webhook with the template setting `template`: its own
/// unless absent or blank.
pub open spec fn webhook_template_of(template: Option<String>) -> Seq<char> {
    match template {
        Some(t) => if trim(t@).len() > 0 {
            t@
        } else {
            default_webhook_template()
        },
        None => default_webhook_template(),
    }
}

/// The payload template of a webhook: its own unless absent or blank.
pub fn webhook_template_content(template: &Option<String>) -> (r: &str)
    ensures
        r@ == webhook_template_of(*template),
{
    match template {
        Some(t) => {
            if !is_blank(t.as_str()) {
                t.as_str()
            } else {
                "{\"text\": \"{{{message}}}\"}"
            }
        },
        None => "{\"text\": \"{{{message}}}\"}",
    }
}

/// The template a webhook renders its payload with.
#[derive(Debug, PartialEq, Eq)]
pub enum PayloadTemplate {
    /// The template text itself.
    Inline(String),
    /// The template registered under this name.
    Registered(String),
}

/// The template of a webhook's payload: with `ignore_cache` set, the webhook's own
/// template text (or the default); otherwise the template registered for its URL.
pub fn webhook_payload_template(url: &str, template: &Option<String>, ignore_cache: bool) -> (r:
    PayloadTemplate)
    ensures
        ignore_cache ==> (r matches PayloadTemplate::Inline(t) && t@ == webhook_template_of(
            *template,
        )),
        !ignore_cache ==> (r matches PayloadTemplate::Registered(k) && k@ == "payload_"@ + url@),
{
    if ignore_cache {
        PayloadTemplate::Inline(webhook_template_content(template).to_owned())
    } else {
        PayloadTemplate::Registered(webhook_template_key(url))
    }
}

/// The kind of SMTP transport a notifier opens.
#[derive(Debug, Clone, Copy, PartialEq, Eq, Structural)]
pub enum SmtpTransportKind {
    /// A plain connection, without TLS.
    Dangerous,
    /// A connection wrapped in TLS from the start.
    Relay,
    /// A plain connection upgraded with STARTTLS.
    StartTlsRelay,
}

/// The SMTP transport for an encryption setting.
pub fn smtp_transport_kind(encryption: SmtpEncryption) -> (r: SmtpTransportKind)
    ensures
        r == match encryption {
            SmtpEncryption::Unencrypted => SmtpTransportKind::Dangerous,
            SmtpEncryption::Tls => SmtpTransportKind::Relay,
            SmtpEncryption::StartTls => SmtpTransportKind::StartTlsRelay,
        },
{
    match encryption {
        SmtpEncryption::Unencrypted => SmtpTransportKind::Dangerous,
        SmtpEncryption::Tls => SmtpTransportKind::Relay,
        SmtpEncryption::StartTls => SmtpTransportKind::StartTlsRelay,
    }
}

/// A form POST: the address and the form fields in order.
pub struct FormRequest {
    pub url: String,
    pub params: Vec<(String, String)>,
}

/// The views of a list of name-value pairs.
pub open spec fn pairs_view(v: Seq<(String, String)>) -> Seq<(Seq<char>, Seq<char>)> {
    Seq::new(v.len(), |i: int| (v[i].0@, v[i].1@))
}

/// The Bot API address of a Telegram method.
pub open spec fn telegram_url(bot_token: Seq<char>, method: Seq<char>) -> Seq<char> {
    "https://api.telegram.org/bot"@ + bot_token + seq!['/'] + method
}

fn pair(name: &str, value: &str) -> (r: (String, String))
    ensures
        r.0@ == name@,
        r.1@ == value@,
{
    (name.to_owned(), value.to_owned())
}

/// The Telegram request for a message: with an image (unless images are skipped)
/// a `sendPhoto` with the image and the message as caption, else a `sendMessage`.
pub fn telegram_request(
    bot_token: &str,
    chat_id: &str,
    skip_image: bool,
    message: &str,
    image_url: Option<&str>,
) -> (r: FormRequest)
    ensures
        match image_url {
            Some(img) if !skip_image => {
                &&& r.url@ == telegram_url(bot_token@, "sendPhoto"@)
                &&& pairs_view(r.params@) == seq![
                    ("chat_id"@, chat_id@),
                    ("photo"@, img@),
                    ("caption"@, message@),
                ]
            },
            _ => {
                &&& r.url@ == telegram_url(bot_token@, "sendMessage"@)
                &&& pairs_view(r.params@) == seq![("chat_id"@, chat_id@), ("text"@, message@)]
            },
        },
{
    let mut url = String::from_str("https://api.telegram.org/bot");
    url.append(bot_token);
    url.push('/');
    let mut params: Vec<(String, String)> = Vec::new();
    params.push(pair("chat_id", chat_id));
    match image_url {
        Some(img) if !skip_image => {
            url.append("sendPhoto");
            params.push(pair("photo", img));
            params.push(pair("caption", message));
        },
        _ => {
            url.append("sendMessage");
            params.push(pair("text", message));
        },
    }
    assert(pairs_view(params@) =~= match image_url {
        Some(img) if !skip_image => seq![
            ("chat_id"@, chat_id@),
            ("photo"@, img@),
            ("caption"@, message@),
        ],
        _ => seq![("chat_id"@, chat_id@), ("text"@, message@)],
    });
    FormRequest { url, params }
}

/// The custom headers that are sent: those whose name and value are valid, in order.
pub open spec fn accepted_headers(hs: Seq<(Seq<char>, Seq<char>)>) -> Seq<(Seq<char>, Seq<char>)>
    decreases hs.len(),
{
    if hs.len() == 0 {
        seq![]
    } else {
        let init = accepted_headers(hs.drop_last());
        if is_header_name(hs.last().0) && is_header_value(hs.last().1) {
            init.push(hs.last())
        } else {
            init
        }
    }
}

/// The headers of a webhook request, to be set in order (a later one replaces an
/// earlier one of the same name): `content-type: application/json`, then the valid
/// custom headers; invalid ones are skipped.
pub fn webhook_headers(custom: &Option<Vec<(String, String)>>) -> (r: Vec<(String, String)>)
    ensures
        pairs_view(r@) == seq![("content-type"@, "application/json"@)] + match custom {
            Some(v) => accepted_headers(pairs_view(v@)),
            None => Seq::<(Seq<char>, Seq<char>)>::empty(),
        },
{
    let mut out: Vec<(String, String)> = Vec::new();
    out.push(pair("content-type", "application/json"));
    let ghost head = pairs_view(out@);
    assert(head =~= seq![("content-type"@, "application/json"@)]);
    match custom {
        None => {
            assert(head + Seq::<(Seq<char>, Seq<char>)>::empty() =~= head);
        },
        Some(v) => {
            let ghost pv = pairs_view(v@);
            let mut i: usize = 0;
            assert(pv.take(0) =~= Seq::<(Seq<char>, Seq<char>)>::empty());
            assert(head + accepted_headers(pv.take(0)) =~= head);
            while i < v.len()
                invariant
                    i <= v.len(),
                    pv == pairs_view(v@),
                    pairs_view(out@) == head + accepted_headers(pv.take(i as int)),
                decreases v.len() - i,
            {
                let ghost before = pairs_view(out@);
                assert(pv.take(i + 1).drop_last() =~= pv.take(i as int));
                assert(pv.take(i + 1).last() == pv[i as int]);
                let (name, value) = &v[i];
                if header_name_ok(name.as_str()) && header_value_ok(value.as_str()) {
                    out.push(pair(name.as_str(), value.as_str()));
                    assert(pairs_view(out@) =~= before.push(pv[i as int]));
                }
                i = i + 1;
            }
            assert(pv.take(v.len() as int) =~= pv);
        },
    }
    out
}

/// The HTML form of a character (`handlebars::html_escape`).
pub open spec fn escape_char(c: char) -> Seq<char> {
    if c == '<' {
        "&lt;"@
    } else if c == '>' {
        "&gt;"@
    } else if c == '"' {
        "&quot;"@
    } else if c == '&' {
        "&amp;"@
    } else if c == '\'' {
        "&#x27;"@
    } else if c == '`' {
        "&#x60;"@
    } else if c == '=' {
        "&#x3D;"@
    } else {
        seq![c]
    }
}

/// `s` with each character replaced by its HTML form.
pub open spec fn html_escaped(s: Seq<char>) -> Seq<char>
    decreases s.len(),
{
    if s.len() == 0 {
        seq![]
    } else {
        html_escaped(s.drop_last()) + escape_char(s.last())
    }
}

/// Calls `handlebars::html_escape`, whose source replaces `<`, `>`, `"`, `&`, `'`,
/// `` ` `` and `=` by `&lt;`, `&gt;`, `&quot;`, `&amp;`, `&#x27;`, `&#x60;` and
/// `&#x3D;` and keeps every other character. Claims exactly that ([`html_escaped`]).
#[verifier::external_body]
fn html_escape(s: &str) -> (r: String)
    ensures
        r@ == html_escaped(s@),
{
    handlebars::html_escape(s)
}

/// `s` with each line feed replaced by `<br>`.
pub open spec fn with_breaks(s: Seq<char>) -> Seq<char>
    decreases s.len(),
{
    if s.len() == 0 {
        seq![]
    } else {
        with_breaks(s.drop_last()) + if s.last() == '\n' {
            "<br>"@
        } else {
            seq![s.last()]
        }
    }
}

fn replace_line_feeds(s: &str) -> (r: String)
    ensures
        r@ == with_breaks(s@),
{
    let cs = chars_of(s);
    let mut out = String::new();
    let mut i: usize = 0;
    assert(cs@.take(0) =~= Seq::<char>::empty());
    while i < cs.len()
        invariant
            i <= cs.len(),
            out@ == with_breaks(cs@.take(i as int)),
        decreases cs.len() - i,
    {
        assert(cs@.take(i + 1).drop_last() =~= cs@.take(i as int));
        assert(cs@.take(i + 1).last() == cs@[i as int]);
        if cs[i] == '\n' {
            out.append("<br>");
        } else {
            out.push(cs[i]);
            assert(out@ =~= with_breaks(cs@.take(i as int)) + seq![cs@[i as int]]);
        }
        i = i + 1;
    }
    assert(cs@.take(cs.len() as int) =~= cs@);
    out
}

/// The HTML body of a notification e-mail with an inline image: the escaped message,
/// line feeds as `<br>`, followed by the image of content id `content_id`.
pub fn email_html(message: &str, content_id: &str) -> (r: String)
    ensures
        r@ == "<p>"@ + with_breaks(html_escaped(message@)) + "</p><img src=\"cid:"@ + content_id@
            + "\" style=\"max-width: 100%;\" alt=\"\">"@,
{
    let escaped = html_escape(message);
    let body = replace_line_feeds(escaped.as_str());
    let mut s = String::from_str("<p>");
    s.append(body.as_str());
    s.append("</p><img src=\"cid:");
    s.append(content_id);
    s.append("\" style=\"max-width: 100%;\" alt=\"\">");
    s
}

/// Whether an SMTP notifier logs in: when a user name or a password is set.
pub fn smtp_uses_credentials(username: &str, password: &str) -> (r: bool)
    ensures
        r == (username@.len() > 0 || password@.len() > 0),
{
    username.unicode_len() > 0 || password.unicode_len() > 0
}


/// Whether `reqwest` accepts a header's name and value.
pub open spec fn sendable_header() -> spec_fn((Seq<char>, Seq<char>)) -> bool {
    |h: (Seq<char>, Seq<char>)| is_header_name(h.0) && is_header_value(h.1)
}

/// The custom headers sent are exactly those whose name and value `reqwest` accepts,
/// each once for each time it is given, in the order given: every accepted pair is
/// sent, and every pair sent is an accepted one of the input.
pub proof fn lemma_accepted_headers_are_the_valid_ones(hs: Seq<(Seq<char>, Seq<char>)>)
    ensures
        accepted_headers(hs) == hs.filter(sendable_header()),
        forall|i: int|
            0 <= i < hs.len() && is_header_name(hs[i].0) && is_header_value(hs[i].1)
                ==> #[trigger] accepted_headers(hs).contains(hs[i]),
        forall|j: int|
            0 <= j < accepted_headers(hs).len() ==> is_header_name(
                #[trigger] accepted_headers(hs)[j].0,
            ) && is_header_value(accepted_headers(hs)[j].1) && hs.contains(accepted_headers(hs)[j]),
    decreases hs.len(),
{
    reveal(Seq::filter);
    if hs.len() > 0 {
        lemma_accepted_headers_are_the_valid_ones(hs.drop_last());
    }
    let f = hs.filter(sendable_header());
    assert(accepted_headers(hs) =~= f);
    assert forall|i: int|
        0 <= i < hs.len() && is_header_name(hs[i].0) && is_header_value(hs[i].1) implies #[trigger] accepted_headers(
        hs,
    ).contains(hs[i]) by {
        hs.lemma_filter_contains(sendable_header(), i);
    }
    assert forall|j: int| 0 <= j < accepted_headers(hs).len() implies is_header_name(
        #[trigger] accepted_headers(hs)[j].0,
    ) && is_header_value(accepted_headers(hs)[j].1) && hs.contains(accepted_headers(hs)[j]) by {
        hs.lemma_filter_pred(sendable_header(), j);
        lemma_filter_from_input(hs, sendable_header(), j);
    }
}

/// Every element of a filtered sequence is an element of the sequence.
proof fn lemma_filter_from_input<A>(s: Seq<A>, pred: spec_fn(A) -> bool, j: int)
    requires
        0 <= j < s.filter(pred).len(),
    ensures
        s.contains(s.filter(pred)[j]),
    decreases s.len(),
{
    reveal(Seq::filter);
    if s.len() > 0 {
        let sub = s.drop_last().filter(pred);
        if j < sub.len() {
            lemma_filter_from_input(s.drop_last(), pred, j);
            let k = choose|k: int| 0 <= k < s.drop_last().len() && s.drop_last()[k] == sub[j];
            assert(s[k] == sub[j]);
            assert(s.filter(pred)[j] == sub[j]);
        } else {
            assert(s.filter(pred)[j] == s.last());
            assert(s[s.len() - 1] == s.last());
        }
    }
}


/// Replacing line feeds works piece by piece, leaves no line feed, and leaves a text
/// without line feeds as it is.
pub proof fn lemma_with_breaks_replaces_line_feeds(a: Seq<char>, b: Seq<char>)
    ensures
        with_breaks(a + b) == with_breaks(a) + with_breaks(b),
        !with_breaks(a).contains('\n'),
        !a.contains('\n') ==> with_breaks(a) == a,
    decreases b.len(),
{
    reveal_strlit("<br>");
    if b.len() == 0 {
        assert(a + b =~= a);
        assert(with_breaks(b) =~= Seq::<char>::empty());
        assert(with_breaks(a) + with_breaks(b) =~= with_breaks(a));
        lemma_with_breaks_alone(a);
    } else {
        lemma_with_breaks_replaces_line_feeds(a, b.drop_last());
        assert((a + b).drop_last() =~= a + b.drop_last());
        assert((a + b).last() == b.last());
    }
}

proof fn lemma_with_breaks_alone(a: Seq<char>)
    ensures
        !with_breaks(a).contains('\n'),
        !a.contains('\n') ==> with_breaks(a) == a,
    decreases a.len(),
{
    reveal_strlit("<br>");
    if a.len() > 0 {
        lemma_with_breaks_alone(a.drop_last());
        let w = with_breaks(a.drop_last());
        let t = if a.last() == '\n' { "<br>"@ } else { seq![a.last()] };
        assert(with_breaks(a) == w + t);
        if (w + t).contains('\n') {
            let k = choose|k: int| 0 <= k < (w + t).len() && (w + t)[k] == '\n';
            if k < w.len() {
                assert(w[k] == '\n');
            } else {
                assert(t[k - w.len()] == '\n');
            }
        }
        if !a.contains('\n') {
            assert(!a.drop_last().contains('\n')) by {
                if a.drop_last().contains('\n') {
                    let k = choose|k: int| 0 <= k < a.drop_last().len() && a.drop_last()[k] == '\n';
                    assert(a[k] == '\n');
                }
            }
            assert(a[a.len() - 1] == a.last());
            assert(w + t =~= a);
        }
    } else {
        assert(with_breaks(a) =~= Seq::<char>::empty());
        assert(a =~= Seq::<char>::empty());
    }
}

/// Whether a character is one that HTML escaping replaces.
pub open spec fn html_special(c: char) -> bool {
    c == '<' || c == '>' || c == '"' || c == '&' || c == '\'' || c == '`' || c == '='
}

/// HTML escaping works character by character, leaves none of `<`, `>`, `"`, `'`,
/// `` ` `` or `=` in the result, and leaves a text without the replaced characters as
/// it is.
pub proof fn lemma_html_escaped_is_safe(a: Seq<char>, b: Seq<char>)
    ensures
        html_escaped(a + b) == html_escaped(a) + html_escaped(b),
        forall|i: int|
            0 <= i < html_escaped(a).len() ==> {
                let c = #[trigger] html_escaped(a)[i];
                c != '<' && c != '>' && c != '"' && c != '\'' && c != '`' && c != '='
            },
        (forall|i: int| 0 <= i < a.len() ==> !html_special(#[trigger] a[i])) ==> html_escaped(a)
            == a,
    decreases b.len(),
{
    if b.len() == 0 {
        assert(a + b =~= a);
        assert(html_escaped(a) + html_escaped(b) =~= html_escaped(a));
        lemma_html_escaped_alone(a);
    } else {
        lemma_html_escaped_is_safe(a, b.drop_last());
        assert((a + b).drop_last() =~= a + b.drop_last());
        assert((a + b).last() == b.last());
    }
}

proof fn lemma_html_escaped_alone(a: Seq<char>)
    ensures
        forall|i: int|
            0 <= i < html_escaped(a).len() ==> {
                let c = #[trigger] html_escaped(a)[i];
                c != '<' && c != '>' && c != '"' && c != '\'' && c != '`' && c != '='
            },
        (forall|i: int| 0 <= i < a.len() ==> !html_special(#[trigger] a[i])) ==> html_escaped(a)
            == a,
    decreases a.len(),
{
    reveal_strlit("&lt;");
    reveal_strlit("&gt;");
    reveal_strlit("&quot;");
    reveal_strlit("&amp;");
    reveal_strlit("&#x27;");
    reveal_strlit("&#x60;");
    reveal_strlit("&#x3D;");
    if a.len() > 0 {
        lemma_html_escaped_alone(a.drop_last());
        let w = html_escaped(a.drop_last());
        let t = escape_char(a.last());
        assert(html_escaped(a) == w + t);
        assert forall|i: int| 0 <= i < (w + t).len() implies {
            let c = #[trigger] (w + t)[i];
            c != '<' && c != '>' && c != '"' && c != '\'' && c != '`' && c != '='
        } by {
            if i < w.len() {
                assert((w + t)[i] == w[i]);
            } else {
                assert((w + t)[i] == t[i - w.len()]);
            }
        }
        if forall|i: int| 0 <= i < a.len() ==> !html_special(#[trigger] a[i]) {
            assert forall|i: int| 0 <= i < a.drop_last().len() implies !html_special(
                #[trigger] a.drop_last()[i],
            ) by {
                assert(a.drop_last()[i] == a[i]);
            }
            assert(!html_special(a[a.len() - 1]));
            assert(w + t =~= a);
        }
    } else {
        assert(html_escaped(a) =~= Seq::<char>::empty());
        assert(a =~= Seq::<char>::empty());
    }
}

} // verus!
