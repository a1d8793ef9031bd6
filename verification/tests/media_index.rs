use bili_sync::media_index::{
    announcement_accepted, check_webhook_url, completion_body, pending_path, validate, Webhook,
    WebhookError,
};
use bili_sync::web::UrlParts;

#[test]
fn webhook_settings() {
    assert!(Webhook::from_settings("", "").unwrap().is_none());
    assert_eq!(Webhook::from_settings("http://x/", "").err(), Some(WebhookError::NotPaired));
    assert_eq!(Webhook::from_settings("", "t").err(), Some(WebhookError::NotPaired));
    assert_eq!(Webhook::from_settings("nope", "t").err(), Some(WebhookError::InvalidUrl));
    assert_eq!(Webhook::from_settings("ftp://x/", "t").err(), Some(WebhookError::NotHttp));
    let w = Webhook::from_settings("https://mi.example/hook", "secret").unwrap().unwrap();
    assert_eq!(w.url(), "https://mi.example/hook");
    assert_eq!(w.authorization(), "Bearer secret");
    assert_eq!(validate("", ""), Ok(()));
    assert_eq!(validate("x", ""), Err(WebhookError::NotPaired));
}

#[test]
fn pending_marker_path() {
    assert_eq!(pending_path("/cfg"), "/cfg/media-index-webhook.pending");
    assert_eq!(pending_path("/cfg/"), "/cfg/media-index-webhook.pending");
    assert_eq!(pending_path(""), "media-index-webhook.pending");
}

#[test]
fn webhook_url_check() {
    let parts = |scheme: &str| UrlParts {
        scheme: scheme.to_string(),
        host: Some("mi.example".to_string()),
        username: String::new(),
        password: None,
        query: None,
        fragment: None,
        href: format!("{scheme}://mi.example/"),
    };
    assert_eq!(check_webhook_url(&parts("http")), Ok(()));
    assert_eq!(check_webhook_url(&parts("https")), Ok(()));
    assert_eq!(check_webhook_url(&parts("ftp")), Err(WebhookError::NotHttp));
}

#[test]
fn completion_announcement() {
    assert_eq!(completion_body(), r#"{"event":"finished"}"#);
    assert!(announcement_accepted(200));
    assert!(announcement_accepted(204));
    assert!(!announcement_accepted(302));
    assert!(!announcement_accepted(401));
    assert!(!announcement_accepted(500));
}
