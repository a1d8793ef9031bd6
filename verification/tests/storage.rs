use bili_sync::storage::{removes_video_dir, StorageError, StorageLayout};

fn layout() -> StorageLayout {
    StorageLayout::new("/media".to_string(), "/video".to_string()).unwrap()
}

#[test]
fn maps_existing_media_paths_to_video_mount() {
    let layout = layout();
    assert_eq!(
        layout.video_path("/media/earth/BV1/Season 1/BV1.mp4").unwrap(),
        "/video/earth/BV1/Season 1/BV1.mp4"
    );
    assert!(layout.video_path("/other/BV1.mp4").is_err());
    assert!(layout.video_path("/media").is_err());
}

#[test]
fn documented_split_example() {
    let layout = layout();
    assert_eq!(
        layout.video_path("/media/earth/视频/BV1.mp4").unwrap(),
        "/video/earth/视频/BV1.mp4"
    );
    assert_eq!(
        layout.metadata_path_for_video("/video/earth/视频/BV1.mp4").unwrap(),
        "/media/earth/视频/BV1.mp4"
    );
}

#[test]
fn video_and_metadata_paths_round_trip() {
    let layout = layout();
    for m in ["/media/a/b c/d.nfo", "/media//a/./b", "/media/x"] {
        let v = layout.video_path(m).unwrap();
        let back = layout.metadata_path_for_video(&v).unwrap();
        let expect: Vec<&str> = m.split('/').filter(|s| !s.is_empty() && *s != ".").collect();
        let got: Vec<&str> = back.split('/').filter(|s| !s.is_empty()).collect();
        assert_eq!(got, expect);
    }
}

#[test]
fn storage_errors() {
    let layout = layout();
    assert_eq!(layout.video_path("/media"), Err(StorageError::IsMetadataRoot));
    assert_eq!(layout.video_path("/media2/a"), Err(StorageError::OutsideMetadataRoot));
    assert_eq!(layout.metadata_path_for_video("/media/a"), Err(StorageError::OutsideVideoRoot));
    assert_eq!(layout.metadata_path_for_video("/video").unwrap(), "/media");
    assert!(matches!(
        StorageLayout::new("/data".to_string(), "/data/video".to_string()),
        Err(StorageError::RootsOverlap)
    ));
    assert!(matches!(
        StorageLayout::new("/data/meta/".to_string(), "/data/meta".to_string()),
        Err(StorageError::RootsOverlap)
    ));
    assert!(StorageLayout::new("/data/media".to_string(), "/data/mediax".to_string()).is_ok());
}

#[test]
fn roots_from_env_pairs_them() {
    assert_eq!(StorageLayout::roots_from_env(None, None), Ok(None));
    assert_eq!(StorageLayout::roots_from_env(Some(""), Some("")), Ok(None));
    assert_eq!(
        StorageLayout::roots_from_env(Some("/m"), None),
        Err(StorageError::RootsNotPaired)
    );
    assert_eq!(
        StorageLayout::roots_from_env(Some(""), Some("/v")),
        Err(StorageError::RootsNotPaired)
    );
    assert_eq!(
        StorageLayout::roots_from_env(Some("m"), Some("/v")),
        Err(StorageError::RootNotAbsolute)
    );
    assert_eq!(
        StorageLayout::roots_from_env(Some("/m"), Some("/v")),
        Ok(Some(("/m".to_string(), "/v".to_string())))
    );
}

#[test]
fn video_path_for_without_layout_is_identity() {
    assert_eq!(
        StorageLayout::video_path_for(None, "/media/a//b").unwrap(),
        "/media/a//b"
    );
    let l = layout();
    assert_eq!(
        StorageLayout::video_path_for(Some(&l), "/media/a").unwrap(),
        "/video/a"
    );
}

#[test]
fn video_directory_removal_rule() {
    assert!(removes_video_dir("/video/a", "/media/a", ""));
    assert!(removes_video_dir("/video/a", "/media/a", "  "));
    assert!(!removes_video_dir("/video/a", "/media/a", "http://cd2"));
    assert!(!removes_video_dir("/media/a/", "/media//a", ""));
}
