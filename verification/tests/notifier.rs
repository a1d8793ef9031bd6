use bili_sync::notifier::{
    email_html, smtp_transport_kind, smtp_uses_credentials, telegram_request, webhook_headers,
    webhook_payload_template, webhook_template_content, webhook_template_key, PayloadTemplate,
    SmtpEncryption, SmtpTransportKind,
};

#[test]
fn template_key_and_content() {
    assert_eq!(webhook_template_key("http://x/y"), "payload_http://x/y");
    let default = r#"{"text": "{{{message}}}"}"#;
    assert_eq!(webhook_template_content(&None), default);
    assert_eq!(webhook_template_content(&Some(" \n\t".to_string())), default);
    assert_eq!(webhook_template_content(&Some(" {{a}} ".to_string())), " {{a}} ");
}

#[test]
fn telegram_requests() {
    let r = telegram_request("T", "C", false, "hi", Some("http://img"));
    assert_eq!(r.url, "https://api.telegram.org/botT/sendPhoto");
    assert_eq!(
        r.params,
        vec![
            ("chat_id".to_string(), "C".to_string()),
            ("photo".to_string(), "http://img".to_string()),
            ("caption".to_string(), "hi".to_string()),
        ]
    );
    let r = telegram_request("T", "C", true, "hi", Some("http://img"));
    assert_eq!(r.url, "https://api.telegram.org/botT/sendMessage");
    assert_eq!(
        r.params,
        vec![("chat_id".to_string(), "C".to_string()), ("text".to_string(), "hi".to_string())]
    );
    let r = telegram_request("T", "C", false, "hi", None);
    assert_eq!(r.url, "https://api.telegram.org/botT/sendMessage");
}

#[test]
fn webhook_headers_skip_invalid() {
    let custom = Some(vec![
        ("X-Token".to_string(), "abc".to_string()),
        ("bad name".to_string(), "v".to_string()),
        ("X-Bad-Value".to_string(), "a\nb".to_string()),
        ("Content-Type".to_string(), "text/plain".to_string()),
    ]);
    assert_eq!(
        webhook_headers(&custom),
        vec![
            ("content-type".to_string(), "application/json".to_string()),
            ("X-Token".to_string(), "abc".to_string()),
            ("Content-Type".to_string(), "text/plain".to_string()),
        ]
    );
    assert_eq!(
        webhook_headers(&None),
        vec![("content-type".to_string(), "application/json".to_string())]
    );
}

#[test]
fn email_html_escapes_and_breaks_lines() {
    assert_eq!(
        email_html("a<b>&\"'`=\nc", "id1"),
        "<p>a&lt;b&gt;&amp;&quot;&#x27;&#x60;&#x3D;<br>c</p><img src=\"cid:id1\" style=\"max-width: 100%;\" alt=\"\">"
    );
}

#[test]
fn smtp_credentials_rule() {
    assert!(!smtp_uses_credentials("", ""));
    assert!(smtp_uses_credentials("u", ""));
    assert!(smtp_uses_credentials("", "p"));
}

#[test]
fn payload_template_choice() {
    assert_eq!(
        webhook_payload_template("http://x/y", &Some("{{a}}".to_string()), false),
        PayloadTemplate::Registered("payload_http://x/y".to_string())
    );
    assert_eq!(
        webhook_payload_template("http://x/y", &Some("{{a}}".to_string()), true),
        PayloadTemplate::Inline("{{a}}".to_string())
    );
    assert_eq!(
        webhook_payload_template("http://x/y", &None, true),
        PayloadTemplate::Inline(r#"{"text": "{{{message}}}"}"#.to_string())
    );
}

#[test]
fn smtp_transport_per_encryption() {
    assert_eq!(smtp_transport_kind(SmtpEncryption::Unencrypted), SmtpTransportKind::Dangerous);
    assert_eq!(smtp_transport_kind(SmtpEncryption::Tls), SmtpTransportKind::Relay);
    assert_eq!(smtp_transport_kind(SmtpEncryption::StartTls), SmtpTransportKind::StartTlsRelay);
}

#[test]
fn header_names_are_tokens() {
    let long = "a".repeat(65535);
    let too_long = "a".repeat(65536);
    let custom = Some(vec![
        ("".to_string(), "v".to_string()),
        ("x(y)".to_string(), "v".to_string()),
        ("名".to_string(), "v".to_string()),
        (too_long, "v".to_string()),
        ("A!#$%&'*+-.^_`|~9".to_string(), "v".to_string()),
        (long.clone(), "v".to_string()),
    ]);
    assert_eq!(
        webhook_headers(&custom),
        vec![
            ("content-type".to_string(), "application/json".to_string()),
            ("A!#$%&'*+-.^_`|~9".to_string(), "v".to_string()),
            (long, "v".to_string()),
        ]
    );
}
