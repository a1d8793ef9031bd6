use bili_sync::cd2::{
    check_cd2_url, http_success, request_headers, validate, validate_remote_path, Cd2Client,
    Cd2Config, Cd2ConfigError, RemotePathError, SavePathError,
};
use bili_sync::web::UrlParts;

fn url_parts(scheme: &str, host: Option<&str>, username: &str, query: Option<&str>) -> UrlParts {
    UrlParts {
        scheme: scheme.to_string(),
        host: host.map(|h| h.to_string()),
        username: username.to_string(),
        password: None,
        query: query.map(|q| q.to_string()),
        fragment: None,
        href: "http://cd2/".to_string(),
    }
}

fn config(url: &str, token: &str, save_path: &str) -> Cd2Config {
    Cd2Config {
        cd2_url: url.to_string(),
        cd2_token: token.to_string(),
        cd2_save_path: save_path.to_string(),
    }
}

fn client(save_path: &str, metadata_root: &str) -> Cd2Client {
    let settings = Cd2Client::configured(&config("https://cd2.example.test/", "test", save_path), None)
        .unwrap()
        .unwrap();
    Cd2Client::new(settings, metadata_root.to_string())
}

#[test]
fn rejects_unsafe_cloud_paths() {
    for path in ["/", "relative", "/115/../video", "/115//video", "/115/video/"] {
        assert!(validate_remote_path(path).is_err(), "{path}");
    }
    assert!(validate_remote_path("/115/媒体库/08Bilibili").is_ok());
}

#[test]
fn save_path_relative_to_token_root() {
    // With a token limited to `/115open`, the save path omits that prefix.
    assert_eq!(validate_remote_path("/媒体库/08Bilibili"), Ok(()));
}

#[test]
fn preserves_relative_metadata_directory() {
    let client = client("/115/媒体库/08Bilibili", "/media");
    assert_eq!(
        client.remote_path("/media/basketball/合集/Season 1/BV1.mp4").unwrap(),
        "/115/媒体库/08Bilibili/basketball/合集/Season 1/BV1.mp4"
    );
    assert!(client.remote_path("/other/BV1.mp4").is_err());
}

#[test]
fn old_config_without_cd2_fields_stays_disabled() {
    // Fields missing from an old configuration load as empty strings.
    let loaded = config("", "", "");
    assert!(Cd2Client::configured(&loaded, None).unwrap().is_none());
}

#[test]
fn save_path_errors_are_distinguished() {
    assert_eq!(validate_remote_path("/"), Err(SavePathError::NotAbsoluteDirectory));
    assert_eq!(validate_remote_path("relative"), Err(SavePathError::NotAbsoluteDirectory));
    assert_eq!(validate_remote_path("/a/"), Err(SavePathError::NotAbsoluteDirectory));
    assert_eq!(validate_remote_path(""), Err(SavePathError::NotAbsoluteDirectory));
    assert_eq!(validate_remote_path("/a/./b"), Err(SavePathError::InvalidSegment));
    assert_eq!(validate_remote_path("/a\\b"), Err(SavePathError::InvalidSegment));
    assert_eq!(validate_remote_path("/a"), Ok(()));
}

#[test]
fn documented_cloud_example() {
    let client = client("/115/媒体库/08Bilibili", "/media");
    assert_eq!(
        client.remote_path("/media/basketball/视频/BV1.mp4").unwrap(),
        "/115/媒体库/08Bilibili/basketball/视频/BV1.mp4"
    );
}

#[test]
fn remote_path_errors() {
    let client = client("/save", "/media");
    assert_eq!(client.remote_path("/media"), Err(RemotePathError::IsMetadataRoot));
    assert_eq!(client.remote_path("/media/"), Err(RemotePathError::IsMetadataRoot));
    assert_eq!(client.remote_path("/mediax/a"), Err(RemotePathError::OutsideMetadataRoot));
    assert_eq!(client.remote_path("/media/a/../b"), Err(RemotePathError::InvalidComponent));
    assert_eq!(client.remote_path("/media/a\\b"), Err(RemotePathError::InvalidCharacter));
    assert_eq!(client.remote_path("/media//a/./b"), Ok("/save/a/b".to_string()));
}

#[test]
fn configuration_errors() {
    let err = |c: Cd2Config| Cd2Client::configured(&c, None).err().unwrap();
    assert_eq!(err(config("http://h/", "", "")), Cd2ConfigError::Incomplete);
    assert_eq!(err(config("", "t", "/s")), Cd2ConfigError::Incomplete);
    assert_eq!(err(config("not a url", "t", "/s")), Cd2ConfigError::InvalidUrl);
    assert_eq!(err(config("ftp://h/", "t", "/s")), Cd2ConfigError::NotHttpUrl);
    assert_eq!(err(config("http://u:p@h/", "t", "/s")), Cd2ConfigError::UrlHasExtras);
    assert_eq!(err(config("http://h/?q=1", "t", "/s")), Cd2ConfigError::UrlHasExtras);
    assert_eq!(err(config("http://h/#f", "t", "/s")), Cd2ConfigError::UrlHasExtras);
    assert_eq!(err(config("http://h/", "a\rb", "/s")), Cd2ConfigError::InvalidToken);
    assert_eq!(
        err(config("http://h/", "t", "/s/")),
        Cd2ConfigError::SavePath(SavePathError::NotAbsoluteDirectory)
    );
    assert_eq!(
        err(config("http://h/", "t", "/s/..")),
        Cd2ConfigError::SavePath(SavePathError::InvalidSegment)
    );
    assert_eq!(
        Cd2Client::configured(&config("http://h/", "t", "/s"), Some("relative")).err(),
        Some(Cd2ConfigError::MetadataRootNotAbsolute)
    );
    assert_eq!(
        Cd2Client::configured(&config("http://h/", "t", "/s"), Some("")).err(),
        Some(Cd2ConfigError::MetadataRootNotAbsolute)
    );
    assert_eq!(validate(&config("", "", ""), None), Ok(()));
    assert_eq!(validate(&config("http://h/", "t", "/s"), None), Ok(()));
}

#[test]
fn configuration_trims_and_keeps_settings() {
    let settings = Cd2Client::configured(&config("  HTTPS://Example.test  ", " tok\u{3000}", "\t/s/d "), None)
        .unwrap()
        .unwrap();
    assert_eq!(settings.metadata_root(), "/media");
    let client = Cd2Client::new(settings, "/data".to_string());
    assert_eq!(client.token(), "tok");
    assert_eq!(client.remote_path("/data/x/y.mp4").unwrap(), "/s/d/x/y.mp4");
    assert_eq!(
        client.endpoint("GetSubFiles").unwrap(),
        "https://example.test/clouddrive.CloudDriveFileSrv/GetSubFiles"
    );
}

#[test]
fn endpoint_resolves_against_the_address_path() {
    let settings = Cd2Client::configured(&config("http://h:19798/api/", "t", "/s"), None)
        .unwrap()
        .unwrap();
    let client = Cd2Client::new(settings, "/media".to_string());
    assert_eq!(
        client.endpoint("CreateFile").unwrap(),
        "http://h:19798/api/clouddrive.CloudDriveFileSrv/CreateFile"
    );
}

#[test]
fn cd2_url_checks() {
    assert_eq!(check_cd2_url(&url_parts("http", Some("cd2"), "", None)), Ok(()));
    assert_eq!(check_cd2_url(&url_parts("https", Some("cd2"), "", None)), Ok(()));
    assert_eq!(
        check_cd2_url(&url_parts("ftp", Some("cd2"), "", None)),
        Err(Cd2ConfigError::NotHttpUrl)
    );
    assert_eq!(check_cd2_url(&url_parts("http", None, "", None)), Err(Cd2ConfigError::NotHttpUrl));
    assert_eq!(
        check_cd2_url(&url_parts("http", Some("cd2"), "me", None)),
        Err(Cd2ConfigError::UrlHasExtras)
    );
    assert_eq!(
        check_cd2_url(&url_parts("http", Some("cd2"), "", Some("a=1"))),
        Err(Cd2ConfigError::UrlHasExtras)
    );
}

#[test]
fn grpc_web_request_headers_and_status() {
    let headers = request_headers();
    assert_eq!(
        headers,
        vec![
            ("content-type".to_string(), "application/grpc-web+proto".to_string()),
            ("accept".to_string(), "application/grpc-web+proto".to_string()),
            ("x-grpc-web".to_string(), "1".to_string()),
        ]
    );
    assert!(http_success(200));
    assert!(http_success(299));
    assert!(!http_success(199));
    assert!(!http_success(300));
    assert!(!http_success(404));
}
