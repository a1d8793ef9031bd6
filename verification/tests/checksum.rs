use bili_sync::checksum::FileSha1;
use bili_sync::upload::UploadError;

#[test]
fn sha1_of_chunks_is_sha1_of_the_file() {
    let h = FileSha1::new(3).feed(b"a").feed(b"bc");
    assert_eq!(h.read(), 3);
    assert_eq!(h.finish(), Ok("a9993e364706816aba3e25717850c26c9cd0d89d".to_string()));
    assert_eq!(
        FileSha1::new(0).finish(),
        Ok("da39a3ee5e6b4b0d3255bfef95601890afd80709".to_string())
    );
}

#[test]
fn sha1_refuses_a_file_that_changed_size() {
    assert_eq!(FileSha1::new(4).feed(b"abc").finish(), Err(UploadError::SizeChanged));
    assert_eq!(FileSha1::new(2).feed(b"abc").finish(), Err(UploadError::SizeChanged));
}
