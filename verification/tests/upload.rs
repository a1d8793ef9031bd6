use bili_sync::cd2::{Cd2Client, Cd2Config};
use bili_sync::upload::{
    check_closed, check_file_handle, flatten_listing, settle_transfer, split_remote_file,
    upload_keys, within_upload_timeout, ChunkWriter, CloudFile, DirStep, DirectoryWalk,
    TargetDecision, TransferError, Upload, UploadAction, UploadError, UploadProgress, UploadRun,
    UploadTask,
    UPLOAD_TIMEOUT_NANOS,
};

fn client() -> Cd2Client {
    let config = Cd2Config {
        cd2_url: "http://cd2:19798/".to_string(),
        cd2_token: "t".to_string(),
        cd2_save_path: "/115/lib".to_string(),
    };
    Cd2Client::new(Cd2Client::configured(&config, None).unwrap().unwrap(), "/media".to_string())
}

fn file(name: &str, size: i64, file_type: i32, is_directory: bool) -> CloudFile {
    CloudFile { id: String::new(), name: name.to_string(), size, file_type, is_directory, sha1: None }
}

fn cloud_copy(id: &str, name: &str, size: i64, sha1: Option<&str>) -> CloudFile {
    CloudFile {
        id: id.to_string(),
        name: name.to_string(),
        size,
        file_type: 1,
        is_directory: false,
        sha1: sha1.map(|h| h.to_string()),
    }
}

const SHA1: &str = "da39a3ee5e6b4b0d3255bfef95601890afd80709";

fn task(key: &str, dest: &str, size: u64, done: u64, status: i32) -> UploadTask {
    UploadTask {
        key: key.to_string(),
        dest_path: dest.to_string(),
        size,
        transfered_bytes: done,
        error_message: format!("e{status}"),
        status,
    }
}

#[test]
fn splits_remote_file() {
    assert_eq!(
        split_remote_file("/a/b/c.mp4"),
        Some(("/a/b".to_string(), "c.mp4".to_string()))
    );
    assert_eq!(split_remote_file("/c"), Some(("".to_string(), "c".to_string())));
    assert_eq!(split_remote_file("c"), None);
}

#[test]
fn upload_flow_decisions() {
    let mut up = Upload::start(&client(), "/media/show/BV1.mp4").unwrap();
    assert_eq!(up.remote_file(), "/115/lib/show/BV1.mp4");
    assert_eq!(up.dir(), "/115/lib/show");
    assert_eq!(up.name(), "BV1.mp4");
    assert!(up.name_listed(&vec![file("BV1.mp4", 1, 1, false)]));
    assert!(!up.name_listed(&vec![file("BV2.mp4", 1, 1, false)]));
    assert_eq!(
        up.target_decision(&vec![file("BV1.mp4", 1, 1, false)], 1, SHA1, &vec![]),
        Err(UploadError::TargetExists("/115/lib/show/BV1.mp4".to_string()))
    );
    assert_eq!(
        up.target_decision(&vec![file("BV2.mp4", 1, 1, false)], 1, SHA1, &vec![]),
        Ok(TargetDecision::Upload)
    );
    assert_eq!(up.set_size(0), Err(UploadError::EmptyVideo));
    assert_eq!(up.set_size(10), Ok(()));
    assert_eq!(up.size(), 10);
    up.record_previous(&vec![
        task("old", "/115/lib/show/BV1.mp4", 10, 10, 5),
        task("other", "/115/lib/show/BV2.mp4", 10, 10, 5),
    ]);
    // No task at all for the file: CD2 may have removed the finished one.
    assert_eq!(
        up.progress(&vec![task("other", "/115/lib/show/BV2.mp4", 10, 10, 5)]),
        UploadProgress::NoTask
    );
    assert_eq!(up.progress(&vec![]), UploadProgress::NoTask);
    // The previous finished task is ignored; a new one decides.
    assert_eq!(
        up.progress(&vec![task("old", "/115/lib/show/BV1.mp4", 10, 10, 5)]),
        UploadProgress::Pending
    );
    assert_eq!(
        up.progress(&vec![task("new", "/115/lib/show/BV1.mp4", 10, 3, 1)]),
        UploadProgress::Pending
    );
    assert_eq!(
        up.progress(&vec![task("new", "/115/lib/show/BV1.mp4", 10, 10, 5)]),
        UploadProgress::Finished
    );
    assert_eq!(
        up.progress(&vec![task("new", "/115/lib/show/BV1.mp4", 9, 9, 5)]),
        UploadProgress::SizeMismatch
    );
    assert_eq!(
        up.progress(&vec![task("new", "/115/lib/show/BV1.mp4", 10, 3, 8)]),
        UploadProgress::Failed { status: 8, message: "e8".to_string() }
    );
    assert_eq!(up.check_listed(&vec![file("BV1.mp4", 10, 1, false)]), Ok(()));
    assert_eq!(
        up.check_listed(&vec![file("BV1.mp4", 9, 1, false)]),
        Err(UploadError::NotListed("/115/lib/show/BV1.mp4".to_string()))
    );
    assert!(matches!(
        Upload::start(&client(), "/other/BV1.mp4"),
        Err(UploadError::RemotePath(_))
    ));
}

#[test]
fn handle_and_close_checks() {
    assert_eq!(check_file_handle(0), Err(UploadError::NoFileHandle));
    assert_eq!(check_file_handle(7), Ok(7));
    assert_eq!(check_closed(true, String::new()), Ok(()));
    assert_eq!(
        check_closed(false, "busy".to_string()),
        Err(UploadError::CloseFailed("busy".to_string()))
    );
}

#[test]
fn chunk_writer_accounts_offsets() {
    let mut w = ChunkWriter::new(3, 10);
    assert_eq!(w.handle(), 3);
    assert_eq!(w.on_written(6, 6), Ok(()));
    assert_eq!(w.offset(), 6);
    assert_eq!(w.finish(), Err(UploadError::SizeChanged));
    assert_eq!(w.on_written(4, 3), Err(UploadError::ShortWrite { written: 3, length: 4 }));
    assert_eq!(w.offset(), 6);
    assert_eq!(w.on_written(4, 4), Ok(()));
    assert_eq!(w.finish(), Ok(()));
}

#[test]
fn directory_walk_creates_missing_levels() {
    let mut walk = DirectoryWalk::new("/115//lib/show");
    assert!(!walk.is_done());
    assert_eq!(walk.list_path(), "/");
    assert_eq!(walk.next_name(), "115");
    assert_eq!(walk.on_listing(&vec![file("115", 0, 1, true)]), Ok(DirStep::Exists));
    assert_eq!(walk.list_path(), "/115");
    assert_eq!(walk.next_name(), "lib");
    assert_eq!(walk.on_listing(&vec![file("x", 0, 0, false)]), Ok(DirStep::Create));
    assert_eq!(
        walk.on_created(Some(false), false),
        Err(UploadError::CreateFolderFailed("/115/lib".to_string()))
    );
    assert_eq!(walk.on_created(None, true), Ok(()));
    assert_eq!(walk.list_path(), "/115/lib");
    assert_eq!(
        walk.on_listing(&vec![file("show", 5, 1, false)]),
        Err(UploadError::NotADirectory("/115/lib/show".to_string()))
    );
    assert_eq!(walk.on_listing(&vec![file("show", 0, 0, false)]), Ok(DirStep::Exists));
    assert!(walk.is_done());
    assert!(DirectoryWalk::new("/").is_done());
}

#[test]
fn listing_and_keys() {
    let replies = vec![vec![file("a", 1, 1, false)], vec![], vec![file("b", 2, 1, false), file("c", 3, 0, true)]];
    let names: Vec<String> = flatten_listing(&replies).into_iter().map(|f| f.name).collect();
    assert_eq!(names, vec!["a", "b", "c"]);
    let keys = upload_keys(
        &vec![task("k1", "/x", 1, 1, 1), task("k2", "/y", 1, 1, 1), task("k3", "/x", 1, 1, 1)],
        "/x",
    );
    assert_eq!(keys, vec!["k1".to_string(), "k3".to_string()]);
}

#[test]
fn upload_directory_walk_reaches_the_directory() {
    let up = Upload::start(&client(), "/media/a/b/BV1.mp4").unwrap();
    let mut walk = DirectoryWalk::new(up.dir());
    let mut listed = Vec::new();
    while !walk.is_done() {
        listed.push(walk.list_path());
        let name = walk.next_name().to_string();
        assert_eq!(walk.on_listing(&vec![file(&name, 0, 0, true)]), Ok(DirStep::Exists));
    }
    assert_eq!(listed, vec!["/", "/115", "/115/lib", "/115/lib/a"]);
    assert_eq!(walk.list_path(), up.dir());
}

#[test]
fn existing_cloud_copy_is_reused_only_when_confirmed() {
    let mut up = Upload::start(&client(), "/media/show/BV1.mp4").unwrap();
    assert_eq!(up.set_size(10), Ok(()));
    let remote = "/115/lib/show/BV1.mp4".to_string();
    let exists = Err(UploadError::TargetExists(remote.clone()));
    let copy = vec![file("x", 1, 1, false), cloud_copy("id1", "BV1.mp4", 10, Some(SHA1))];
    assert_eq!(up.target_decision(&copy, 10, SHA1, &vec![]), Ok(TargetDecision::Reuse));
    // The cloud may write the hash in upper case.
    let upper = vec![cloud_copy("id1", "BV1.mp4", 10, Some(&SHA1.to_uppercase()))];
    assert_eq!(up.target_decision(&upper, 10, SHA1, &vec![]), Ok(TargetDecision::Reuse));
    // Another task on the same path, or a task for another path.
    let busy = vec![task("k", "/115/lib/show/BV1.mp4", 10, 3, 1)];
    assert_eq!(up.target_decision(&copy, 10, SHA1, &busy), exists);
    let elsewhere = vec![task("k", "/115/lib/show/BV2.mp4", 10, 3, 1)];
    assert_eq!(up.target_decision(&copy, 10, SHA1, &elsewhere), Ok(TargetDecision::Reuse));
    // No cloud ID, another size, another hash, no hash.
    let no_id = vec![cloud_copy("", "BV1.mp4", 10, Some(SHA1))];
    assert_eq!(up.target_decision(&no_id, 10, SHA1, &vec![]), exists);
    let other_size = vec![cloud_copy("id1", "BV1.mp4", 11, Some(SHA1))];
    assert_eq!(up.target_decision(&other_size, 10, SHA1, &vec![]), exists);
    let other_hash = vec![cloud_copy("id1", "BV1.mp4", 10, Some("0000000000000000000000000000000000000000"))];
    assert_eq!(up.target_decision(&other_hash, 10, SHA1, &vec![]), exists);
    let no_hash = vec![cloud_copy("id1", "BV1.mp4", 10, None)];
    assert_eq!(up.target_decision(&no_hash, 10, SHA1, &vec![]), exists);
    let empty_hash = vec![cloud_copy("id1", "BV1.mp4", 10, Some(""))];
    assert_eq!(up.target_decision(&empty_hash, 10, "", &vec![]), exists);
}

#[test]
fn removed_task_is_completed_by_a_confirmed_listing() {
    let mut up = Upload::start(&client(), "/media/show/BV1.mp4").unwrap();
    assert_eq!(up.set_size(10), Ok(()));
    assert_eq!(up.progress(&vec![]), UploadProgress::NoTask);
    assert!(up.check_completed(&vec![cloud_copy("id1", "BV1.mp4", 10, Some(SHA1))], SHA1));
    assert!(!up.check_completed(&vec![cloud_copy("", "BV1.mp4", 10, Some(SHA1))], SHA1));
    assert!(!up.check_completed(&vec![cloud_copy("id1", "BV1.mp4", 9, Some(SHA1))], SHA1));
    assert!(!up.check_completed(&vec![cloud_copy("id1", "BV2.mp4", 10, Some(SHA1))], SHA1));
    assert!(!up.check_completed(
        &vec![cloud_copy("id1", "BV1.mp4", 10, Some("da39a3ee5e6b4b0d3255bfef95601890afd80708"))],
        SHA1
    ));
    assert!(!up.check_completed(&vec![], SHA1));
}

#[test]
fn transfer_closes_then_reports_the_first_failure() {
    let ok: Result<(), &str> = Ok(());
    assert!(matches!(settle_transfer(ok, Ok((true, String::new()))), Ok(())));
    assert!(matches!(
        settle_transfer(Err("write"), Err("close")),
        Err(TransferError::Write("write"))
    ));
    assert!(matches!(
        settle_transfer(Err("write"), Ok((true, String::new()))),
        Err(TransferError::Write("write"))
    ));
    assert!(matches!(settle_transfer(ok, Err("close")), Err(TransferError::Close("close"))));
    match settle_transfer(ok, Ok((false, "busy".to_string()))) {
        Err(TransferError::Upload(e)) => assert_eq!(e, UploadError::CloseFailed("busy".to_string())),
        _ => panic!("expected the close failure"),
    }
}

#[test]
fn upload_wait_ends_after_six_hours() {
    assert_eq!(UPLOAD_TIMEOUT_NANOS, 6 * 60 * 60 * 1_000_000_000);
    assert!(within_upload_timeout(0));
    assert!(within_upload_timeout(UPLOAD_TIMEOUT_NANOS - 1));
    assert!(!within_upload_timeout(UPLOAD_TIMEOUT_NANOS));
}

#[test]
fn empty_video_is_never_a_confirmed_copy() {
    let up = Upload::start(&client(), "/media/show/BV1.mp4").unwrap();
    let empty = vec![cloud_copy("id1", "BV1.mp4", 0, Some(SHA1))];
    assert_eq!(
        up.target_decision(&empty, 0, SHA1, &vec![]),
        Err(UploadError::TargetExists("/115/lib/show/BV1.mp4".to_string()))
    );
}

#[test]
fn upload_run_uploads_a_free_name_and_follows_the_task() {
    let remote = "/115/lib/show/BV1.mp4";
    let mut run = UploadRun::start(&client(), "/media/show/BV1.mp4").unwrap();
    assert_eq!(run.action(), UploadAction::EnsureDirectory);
    run.on_directory_ready();
    assert_eq!(run.action(), UploadAction::ListTarget);
    assert_eq!(run.on_target_listed(vec![file("BV2.mp4", 1, 1, false)], 10), Ok(()));
    assert_eq!(run.action(), UploadAction::ListTasks);
    run.on_tasks_before(&vec![task("old", remote, 10, 10, 5)]);
    assert_eq!(run.action(), UploadAction::CreateFile);
    assert_eq!(run.upload().size(), 10);
    assert_eq!(run.on_created(7), Ok(()));
    assert_eq!(run.action(), UploadAction::Write(7));
    run.on_writes_done();
    assert_eq!(run.action(), UploadAction::CloseFile(7));
    let ok: Result<(), String> = Ok(());
    assert!(run.on_transfer(ok, Ok((true, String::new()))).is_ok());
    assert_eq!(run.action(), UploadAction::PollTasks);
    // Only the old task: still pending.
    assert_eq!(run.on_tasks_polled(&vec![task("old", remote, 10, 10, 5)], 0), Ok(()));
    assert_eq!(run.action(), UploadAction::Sleep);
    run.on_slept();
    assert_eq!(run.on_tasks_polled(&vec![task("new", remote, 10, 10, 5)], 1), Ok(()));
    assert_eq!(run.action(), UploadAction::ListFinished);
    assert_eq!(run.on_finished_listing(&vec![file("BV1.mp4", 10, 1, false)]), Ok(()));
    assert_eq!(run.action(), UploadAction::Done);
    assert_eq!(run.upload().remote_file(), remote);
}

#[test]
fn upload_run_reuses_or_refuses_a_taken_name() {
    let copy = vec![cloud_copy("id1", "BV1.mp4", 10, Some(SHA1))];
    let mut run = UploadRun::start(&client(), "/media/show/BV1.mp4").unwrap();
    run.on_directory_ready();
    assert_eq!(run.on_target_listed(copy.iter().map(copy_of).collect(), 10), Ok(()));
    assert_eq!(run.action(), UploadAction::CheckExisting);
    assert_eq!(run.local_size(), 10);
    assert_eq!(run.on_existing_checked(SHA1, &vec![]), Ok(()));
    assert_eq!(run.action(), UploadAction::Done);

    let mut run = UploadRun::start(&client(), "/media/show/BV1.mp4").unwrap();
    run.on_directory_ready();
    assert_eq!(run.on_target_listed(copy.iter().map(copy_of).collect(), 10), Ok(()));
    assert_eq!(
        run.on_existing_checked("0000000000000000000000000000000000000000", &vec![]),
        Err(UploadError::TargetExists("/115/lib/show/BV1.mp4".to_string()))
    );
    assert_eq!(run.action(), UploadAction::Stop);
}

#[test]
fn upload_run_refuses_empty_video_and_zero_handle_and_closes_after_failed_write() {
    let mut run = UploadRun::start(&client(), "/media/show/BV1.mp4").unwrap();
    run.on_directory_ready();
    assert_eq!(run.on_target_listed(vec![], 0), Err(UploadError::EmptyVideo));
    assert_eq!(run.action(), UploadAction::Stop);

    let mut run = UploadRun::start(&client(), "/media/show/BV1.mp4").unwrap();
    run.on_directory_ready();
    assert_eq!(run.on_target_listed(vec![], 10), Ok(()));
    run.on_tasks_before(&vec![]);
    assert_eq!(run.on_created(0), Err(UploadError::NoFileHandle));
    assert_eq!(run.action(), UploadAction::Stop);

    let mut run = UploadRun::start(&client(), "/media/show/BV1.mp4").unwrap();
    run.on_directory_ready();
    assert_eq!(run.on_target_listed(vec![], 10), Ok(()));
    run.on_tasks_before(&vec![]);
    assert_eq!(run.on_created(3), Ok(()));
    run.on_writes_done();
    assert_eq!(run.action(), UploadAction::CloseFile(3));
    assert!(matches!(
        run.on_transfer(Err("write"), Ok((true, String::new()))),
        Err(TransferError::Write("write"))
    ));
    assert_eq!(run.action(), UploadAction::Stop);
}

#[test]
fn upload_run_confirms_a_removed_task_or_times_out() {
    let start = || {
        let mut run = UploadRun::start(&client(), "/media/show/BV1.mp4").unwrap();
        run.on_directory_ready();
        assert_eq!(run.on_target_listed(vec![], 10), Ok(()));
        run.on_tasks_before(&vec![]);
        assert_eq!(run.on_created(3), Ok(()));
        run.on_writes_done();
        let ok: Result<(), ()> = Ok(());
        assert!(run.on_transfer(ok, Ok((true, String::new()))).is_ok());
        run
    };
    let mut run = start();
    assert_eq!(run.on_tasks_polled(&vec![], 0), Ok(()));
    assert_eq!(run.action(), UploadAction::ListRemoved);
    assert_eq!(run.on_removed_listing(&vec![], SHA1, 5), Ok(()));
    assert_eq!(run.action(), UploadAction::Sleep);
    run.on_slept();
    assert_eq!(run.on_tasks_polled(&vec![], 6), Ok(()));
    assert_eq!(
        run.on_removed_listing(&vec![cloud_copy("id1", "BV1.mp4", 10, Some(SHA1))], SHA1, 7),
        Ok(())
    );
    assert_eq!(run.action(), UploadAction::Done);

    let mut run = start();
    assert_eq!(run.on_tasks_polled(&vec![], 0), Ok(()));
    assert_eq!(
        run.on_removed_listing(&vec![], SHA1, UPLOAD_TIMEOUT_NANOS),
        Err(UploadError::TimedOut("/115/lib/show/BV1.mp4".to_string()))
    );

    let mut run = start();
    let busy = vec![task("k", "/115/lib/show/BV1.mp4", 10, 3, 1)];
    assert_eq!(
        run.on_tasks_polled(&busy, UPLOAD_TIMEOUT_NANOS),
        Err(UploadError::TimedOut("/115/lib/show/BV1.mp4".to_string()))
    );
    let mut run = start();
    assert_eq!(
        run.on_tasks_polled(&vec![task("k", "/115/lib/show/BV1.mp4", 10, 3, 8)], 0),
        Err(UploadError::Failed { status: 8, message: "e8".to_string() })
    );
    let mut run = start();
    assert_eq!(
        run.on_tasks_polled(&vec![task("k", "/115/lib/show/BV1.mp4", 9, 9, 5)], 0),
        Err(UploadError::SizeMismatch("/115/lib/show/BV1.mp4".to_string()))
    );
    let mut run = start();
    assert_eq!(run.on_tasks_polled(&vec![task("k", "/115/lib/show/BV1.mp4", 10, 10, 5)], 0), Ok(()));
    assert_eq!(
        run.on_finished_listing(&vec![file("BV1.mp4", 9, 1, false)]),
        Err(UploadError::NotListed("/115/lib/show/BV1.mp4".to_string()))
    );
}

fn copy_of(f: &CloudFile) -> CloudFile {
    CloudFile {
        id: f.id.clone(),
        name: f.name.clone(),
        size: f.size,
        file_type: f.file_type,
        is_directory: f.is_directory,
        sha1: f.sha1.clone(),
    }
}
