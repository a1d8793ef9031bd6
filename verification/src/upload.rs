//! The decisions of a CD2 upload. The caller performs each API call and hands the
//! result to these functions: creating the target directory one level at a time,
//! never overwriting an existing file but reusing it when it is a confirmed copy of the
//! video, writing the file in chunks and closing it, and following the cloud upload
//! task until it finishes or, once CD2 has removed it, until the listing confirms the
//! copy.
use vstd::prelude::*;

use crate::cd2::{
    remote_path_check, remote_path_of, remote_suffix, valid_remote_segment, Cd2Client, Cd2View,
    RemotePathError,
};
use crate::path::{
    is_absolute_path, lemma_split_nonempty, lemma_split_slash_then, lemma_strip_parts_names,
    split_segments, split_slash, strip_parts, valid_name, Part,
};
use crate::text::{chars_of, string_of};

verus! {

/// A file or directory as CD2 lists it.
pub struct CloudFile {
    /// The cloud ID (empty where the cloud has none yet).
    pub id: String,
    pub name: String,
    pub size: i64,
    pub file_type: i32,
    pub is_directory: bool,
    /// The SHA1 the cloud reports for the file, in hexadecimal, if it reports one.
    pub sha1: Option<String>,
}

/// The specification form of a [`CloudFile`].
pub struct CloudFileView {
    pub id: Seq<char>,
    pub name: Seq<char>,
    pub size: i64,
    pub file_type: i32,
    pub is_directory: bool,
    pub sha1: Option<Seq<char>>,
}

impl View for CloudFile {
    type V = CloudFileView;

    open spec fn view(&self) -> CloudFileView {
        CloudFileView {
            id: self.id@,
            name: self.name@,
            size: self.size,
            file_type: self.file_type,
            is_directory: self.is_directory,
            sha1: match self.sha1 {
                Some(h) => Some(h@),
                None => None,
            },
        }
    }
}

/// A cloud upload task as CD2 lists it.
pub struct UploadTask {
    pub key: String,
    pub dest_path: String,
    pub size: u64,
    pub transfered_bytes: u64,
    pub error_message: String,
    pub status: i32,
}

/// The specification form of an [`UploadTask`].
pub struct UploadTaskView {
    pub key: Seq<char>,
    pub dest_path: Seq<char>,
    pub size: u64,
    pub transfered_bytes: u64,
    pub error_message: Seq<char>,
    pub status: i32,
}

impl View for UploadTask {
    type V = UploadTaskView;

    open spec fn view(&self) -> UploadTaskView {
        UploadTaskView {
            key: self.key@,
            dest_path: self.dest_path@,
            size: self.size,
            transfered_bytes: self.transfered_bytes,
            error_message: self.error_message@,
            status: self.status,
        }
    }
}

/// The views of a list of files.
pub open spec fn files_view(v: Seq<CloudFile>) -> Seq<CloudFileView> {
    Seq::new(v.len(), |i: int| v[i]@)
}

/// The views of a list of upload tasks.
pub open spec fn tasks_view(v: Seq<UploadTask>) -> Seq<UploadTaskView> {
    Seq::new(v.len(), |i: int| v[i]@)
}

/// The views of a list of strings.
pub open spec fn strings_view(v: Seq<String>) -> Seq<Seq<char>> {
    Seq::new(v.len(), |i: int| v[i]@)
}

/// Why an upload step failed.
#[derive(Debug, PartialEq, Eq)]
pub enum UploadError {
    /// The metadata path has no remote path.
    RemotePath(RemotePathError),
    /// The remote path has no directory part.
    InvalidTarget,
    /// A file of that name already exists in the remote directory.
    TargetExists(String),
    /// The local video is empty.
    EmptyVideo,
    /// CD2 gave no file handle.
    NoFileHandle,
    /// CD2 could not close the file; its message.
    CloseFailed(String),
    /// CD2 wrote fewer bytes than sent.
    ShortWrite { written: u64, length: u64 },
    /// The local file changed size while it was being sent.
    SizeChanged,
    /// A part of the remote directory path exists and is not a directory.
    NotADirectory(String),
    /// CD2 could not create a part of the remote directory path.
    CreateFolderFailed(String),
    /// The finished upload task reports a different size.
    SizeMismatch(String),
    /// The finished upload is not in the remote directory listing.
    NotListed(String),
    /// The upload task failed with this status and message.
    Failed { status: i32, message: String },
    /// The upload task did not finish within the time allowed.
    TimedOut(String),
}

/// The text before and after the last `/` of `p` (`str::rsplit_once('/')`).
pub open spec fn rsplit_slash(p: Seq<char>) -> Option<(Seq<char>, Seq<char>)>
    decreases p.len(),
{
    if p.len() == 0 {
        None
    } else if p.last() == '/' {
        Some((p.drop_last(), seq![]))
    } else {
        match rsplit_slash(p.drop_last()) {
            Some((a, b)) => Some((a, b.push(p.last()))),
            None => None,
        }
    }
}

/// Splits `p` at its last `/` into directory and file name.
pub fn split_remote_file(p: &str) -> (r: Option<(String, String)>)
    ensures
        match rsplit_slash(p@) {
            Some((a, b)) => r matches Some((x, y)) && x@ == a && y@ == b,
            None => r is None,
        },
{
    let cs = chars_of(p);
    let n = cs.len();
    let mut j = n;
    assert(cs@.take(n as int) =~= cs@);
    proof {
        if let Some((a, b)) = rsplit_slash(cs@) {
            assert(b + cs@.skip(n as int) =~= b);
        }
    }
    while j > 0 && cs[j - 1] != '/'
        invariant
            j <= n == cs.len(),
            cs@ == p@,
            forall|k: int| j <= k < n ==> cs@[k] != '/',
            rsplit_slash(cs@) == match rsplit_slash(cs@.take(j as int)) {
                Some((a, b)) => Some((a, b + cs@.skip(j as int))),
                None => None::<(Seq<char>, Seq<char>)>,
            },
        decreases j,
    {
        let ghost t = cs@.take(j as int);
        assert(t.drop_last() =~= cs@.take(j - 1));
        assert(t.last() == cs@[j - 1]);
        proof {
            if let Some((a, b)) = rsplit_slash(cs@.take(j - 1)) {
                assert(b.push(t.last()) + cs@.skip(j as int) =~= b + cs@.skip(j - 1));
            }
        }
        j = j - 1;
    }
    if j == 0 {
        assert(cs@.take(0) =~= Seq::<char>::empty());
        return None;
    }
    let ghost t = cs@.take(j as int);
    assert(t.drop_last() =~= cs@.take(j - 1));
    assert(Seq::<char>::empty() + cs@.skip(j as int) =~= cs@.subrange(j as int, n as int));
    Some((string_of(&cs, 0, j - 1), string_of(&cs, j, n)))
}

/// Whether a listing holds an entry named `name`.
pub open spec fn listed(files: Seq<CloudFileView>, name: Seq<char>) -> bool {
    exists|i: int| 0 <= i < files.len() && #[trigger] files[i].name == name
}

/// Whether a listing holds an entry named `name` of size `size`.
pub open spec fn listed_with_size(files: Seq<CloudFileView>, name: Seq<char>, size: i64) -> bool {
    exists|i: int| 0 <= i < files.len() && #[trigger] files[i].name == name && files[i].size == size
}

/// A character of a hexadecimal hash, its upper-case digits folded to lower case.
pub open spec fn hash_fold(c: char) -> char {
    if c == 'A' {
        'a'
    } else if c == 'B' {
        'b'
    } else if c == 'C' {
        'c'
    } else if c == 'D' {
        'd'
    } else if c == 'E' {
        'e'
    } else if c == 'F' {
        'f'
    } else {
        c
    }
}

/// A character of a hexadecimal hash, its upper-case digits folded to lower case.
fn fold_hash_char(c: char) -> (r: char)
    ensures
        r == hash_fold(c),
{
    if c == 'A' {
        'a'
    } else if c == 'B' {
        'b'
    } else if c == 'C' {
        'c'
    } else if c == 'D' {
        'd'
    } else if c == 'E' {
        'e'
    } else if c == 'F' {
        'f'
    } else {
        c
    }
}

/// Whether two hashes in hexadecimal are equal, ignoring the case of their digits.
pub open spec fn same_hash(a: Seq<char>, b: Seq<char>) -> bool {
    &&& a.len() == b.len()
    &&& forall|i: int| 0 <= i < a.len() ==> #[trigger] hash_fold(a[i]) == hash_fold(b[i])
}

/// Whether a listed entry is a finished cloud copy of a local video of `size` bytes
/// whose SHA1 is `sha1`: the video is not empty, and the entry has a cloud ID, the same
/// size and the same SHA1.
pub open spec fn confirmed_copy(f: CloudFileView, size: u64, sha1: Seq<char>) -> bool {
    &&& size > 0
    &&& f.id.len() > 0
    &&& f.size == size
    &&& f.sha1 matches Some(h) && h.len() > 0 && same_hash(h, sha1)
}

/// Whether a listing holds an entry named `name` that is a confirmed copy.
pub open spec fn listed_confirmed(
    files: Seq<CloudFileView>,
    name: Seq<char>,
    size: u64,
    sha1: Seq<char>,
) -> bool {
    exists|i: int| 0 <= i < files.len() && #[trigger] files[i].name == name && confirmed_copy(
        files[i],
        size,
        sha1,
    )
}

/// Whether no upload task has the destination `dest`.
pub open spec fn no_task_for(tasks: Seq<UploadTaskView>, dest: Seq<char>) -> bool {
    forall|i: int| 0 <= i < tasks.len() ==> #[trigger] tasks[i].dest_path != dest
}

/// What to do about the remote file name before uploading.
#[derive(Debug, PartialEq, Eq)]
pub enum TargetDecision {
    /// The name is free: create and write the file.
    Upload,
    /// The name holds a confirmed copy of the video and no task is on it: keep it.
    Reuse,
}

/// Whether two hashes in hexadecimal are equal, ignoring the case of their digits.
fn hashes_match(a: &str, b: &str) -> (r: bool)
    ensures
        r == same_hash(a@, b@),
{
    let x = chars_of(a);
    let y = chars_of(b);
    if x.len() != y.len() {
        return false;
    }
    let mut i: usize = 0;
    while i < x.len()
        invariant
            i <= x.len() == y.len(),
            x@ == a@,
            y@ == b@,
            forall|k: int| 0 <= k < i ==> #[trigger] hash_fold(x@[k]) == hash_fold(y@[k]),
        decreases x.len() - i,
    {
        if fold_hash_char(x[i]) != fold_hash_char(y[i]) {
            assert(hash_fold(a@[i as int]) != hash_fold(b@[i as int]));
            return false;
        }
        i = i + 1;
    }
    true
}

/// Whether a listed entry is a confirmed copy of the local video.
fn is_confirmed_copy(f: &CloudFile, size: u64, sha1: &str) -> (r: bool)
    ensures
        r == confirmed_copy(f@, size, sha1@),
{
    if size == 0 || chars_of(f.id.as_str()).len() == 0 || f.size < 0 || f.size as u64 != size {
        return false;
    }
    match &f.sha1 {
        Some(h) => chars_of(h.as_str()).len() > 0 && hashes_match(h.as_str(), sha1),
        None => false,
    }
}

/// Whether some upload task has the destination `dest`.
fn has_task_for(tasks: &Vec<UploadTask>, dest: &String) -> (r: bool)
    ensures
        r == !no_task_for(tasks_view(tasks@), dest@),
{
    let mut i: usize = 0;
    while i < tasks.len()
        invariant
            i <= tasks.len(),
            forall|k: int| 0 <= k < i ==> tasks@[k]@.dest_path != dest@,
        decreases tasks.len() - i,
    {
        if tasks[i].dest_path == *dest {
            assert(tasks_view(tasks@)[i as int].dest_path == dest@);
            return true;
        }
        i = i + 1;
    }
    assert forall|k: int| 0 <= k < tasks_view(tasks@).len() implies #[trigger] tasks_view(
        tasks@,
    )[k].dest_path != dest@ by {
        assert(tasks_view(tasks@)[k] == tasks@[k]@);
    }
    false
}

/// The keys of the tasks whose destination is `dest`, in order.
pub open spec fn keys_for(tasks: Seq<UploadTaskView>, dest: Seq<char>) -> Seq<Seq<char>>
    decreases tasks.len(),
{
    if tasks.len() == 0 {
        seq![]
    } else {
        let init = keys_for(tasks.drop_last(), dest);
        if tasks.last().dest_path == dest {
            init.push(tasks.last().key)
        } else {
            init
        }
    }
}

/// The status of a finished upload task.
pub open spec fn is_finished_status(s: i32) -> bool {
    s == 5
}

/// The statuses of an upload task that will not finish.
pub open spec fn is_failed_status(s: i32) -> bool {
    s == 2 || s == 6 || s == 8 || s == 9 || s == 10
}

/// Where a followed upload stands.
#[derive(Debug, PartialEq, Eq)]
pub enum UploadProgress {
    /// No new task for the file has finished or failed yet.
    Pending,
    /// CD2 lists no upload task for the file at all: it may have removed the finished
    /// task already, so the listing is to be checked with the file's SHA1.
    NoTask,
    /// The task finished with the expected size: the listing is to be checked.
    Finished,
    /// The task finished with another size.
    SizeMismatch,
    /// The task failed with this status and message.
    Failed { status: i32, message: String },
}

/// The specification form of [`UploadProgress`].
pub enum ProgressView {
    Pending,
    NoTask,
    Finished,
    SizeMismatch,
    Failed { status: i32, message: Seq<char> },
}

impl View for UploadProgress {
    type V = ProgressView;

    open spec fn view(&self) -> ProgressView {
        match self {
            UploadProgress::Pending => ProgressView::Pending,
            UploadProgress::NoTask => ProgressView::NoTask,
            UploadProgress::Finished => ProgressView::Finished,
            UploadProgress::SizeMismatch => ProgressView::SizeMismatch,
            UploadProgress::Failed { status, message } => ProgressView::Failed {
                status: *status,
                message: message@,
            },
        }
    }
}

/// Where the upload of `dest` stands: the first task for `dest` that is not one of the
/// `previous` keys and has finished or failed decides; none means pending.
pub open spec fn progress_of(
    tasks: Seq<UploadTaskView>,
    dest: Seq<char>,
    size: u64,
    previous: Seq<Seq<char>>,
) -> ProgressView
    decreases tasks.len(),
{
    if tasks.len() == 0 {
        ProgressView::Pending
    } else {
        let t = tasks[0];
        let ours = t.dest_path == dest && !previous.contains(t.key);
        if ours && is_finished_status(t.status) {
            if t.size == size && t.transfered_bytes == size {
                ProgressView::Finished
            } else {
                ProgressView::SizeMismatch
            }
        } else if ours && is_failed_status(t.status) {
            ProgressView::Failed { status: t.status, message: t.error_message }
        } else {
            progress_of(tasks.drop_first(), dest, size, previous)
        }
    }
}

/// Where the upload of `dest` stands in the task list `tasks`: as [`progress_of`]
/// says, except that with no task for `dest` at all it is [`ProgressView::NoTask`].
pub open spec fn upload_progress(
    tasks: Seq<UploadTaskView>,
    dest: Seq<char>,
    size: u64,
    previous: Seq<Seq<char>>,
) -> ProgressView {
    if no_task_for(tasks, dest) {
        ProgressView::NoTask
    } else {
        progress_of(tasks, dest, size, previous)
    }
}

/// The search through the task list never reports that no task exists.
proof fn lemma_progress_of_not_no_task(
    tasks: Seq<UploadTaskView>,
    dest: Seq<char>,
    size: u64,
    previous: Seq<Seq<char>>,
)
    ensures
        !(progress_of(tasks, dest, size, previous) is NoTask),
    decreases tasks.len(),
{
    if tasks.len() > 0 {
        lemma_progress_of_not_no_task(tasks.drop_first(), dest, size, previous);
    }
}

/// A retry reuses an existing remote file under the same check that completes an
/// upload whose finished task CD2 has already removed: no upload task on the remote
/// path, and a listed entry of that name with a cloud ID, the local size and the local
/// SHA1. Such an entry is always listed under the name.
pub proof fn lemma_reuse_is_completion_check(
    tasks: Seq<UploadTaskView>,
    files: Seq<CloudFileView>,
    dest: Seq<char>,
    name: Seq<char>,
    size: u64,
    previous: Seq<Seq<char>>,
    sha1: Seq<char>,
)
    ensures
        (listed_confirmed(files, name, size, sha1) && no_task_for(tasks, dest)) <==> (
        upload_progress(tasks, dest, size, previous) is NoTask && listed_confirmed(
            files,
            name,
            size,
            sha1,
        )),
        listed_confirmed(files, name, size, sha1) ==> listed(files, name),
{
    lemma_progress_of_not_no_task(tasks, dest, size, previous);
}

/// A task that the upload follows: one for `dest` whose key is not among the keys
/// recorded before the upload.
pub open spec fn followed_task(t: UploadTaskView, dest: Seq<char>, previous: Seq<Seq<char>>) -> bool {
    t.dest_path == dest && !previous.contains(t.key)
}

/// What the search through the task list reports is borne out by a task it follows.
proof fn lemma_progress_of_witnessed(
    tasks: Seq<UploadTaskView>,
    dest: Seq<char>,
    size: u64,
    previous: Seq<Seq<char>>,
)
    ensures
        match progress_of(tasks, dest, size, previous) {
            ProgressView::Failed { status, message } => exists|i: int|
                0 <= i < tasks.len() && #[trigger] followed_task(tasks[i], dest, previous)
                    && tasks[i].status == status && tasks[i].error_message == message && (status
                    == 2 || status == 6 || status == 8 || status == 9 || status == 10),
            ProgressView::Finished => exists|i: int|
                0 <= i < tasks.len() && #[trigger] followed_task(tasks[i], dest, previous)
                    && tasks[i].status == 5 && tasks[i].size == size && tasks[i].transfered_bytes
                    == size,
            ProgressView::SizeMismatch => exists|i: int|
                0 <= i < tasks.len() && #[trigger] followed_task(tasks[i], dest, previous)
                    && tasks[i].status == 5 && !(tasks[i].size == size && tasks[i].transfered_bytes
                    == size),
            ProgressView::Pending => forall|i: int|
                0 <= i < tasks.len() && #[trigger] followed_task(tasks[i], dest, previous) ==> !(
                tasks[i].status == 5 || tasks[i].status == 2 || tasks[i].status == 6
                    || tasks[i].status == 8 || tasks[i].status == 9 || tasks[i].status == 10),
            ProgressView::NoTask => false,
        },
    decreases tasks.len(),
{
    if tasks.len() > 0 {
        let rest = tasks.drop_first();
        lemma_progress_of_witnessed(rest, dest, size, previous);
        let t = tasks[0];
        if followed_task(t, dest, previous) && (is_finished_status(t.status) || is_failed_status(
            t.status,
        )) {
            assert(followed_task(tasks[0], dest, previous));
        } else {
            assert forall|i: int| 0 <= i < rest.len() implies rest[i] == tasks[i + 1] by {}
            match progress_of(rest, dest, size, previous) {
                ProgressView::Pending => {
                    assert forall|i: int|
                        0 <= i < tasks.len() && #[trigger] followed_task(tasks[i], dest, previous) implies !(
                    tasks[i].status == 5 || tasks[i].status == 2 || tasks[i].status == 6
                        || tasks[i].status == 8 || tasks[i].status == 9 || tasks[i].status == 10) by {
                        if i > 0 {
                            assert(tasks[i] == rest[i - 1]);
                            assert(followed_task(rest[i - 1], dest, previous));
                        }
                    }
                },
                ProgressView::Failed { status, message } => {
                    let i = choose|i: int|
                        0 <= i < rest.len() && #[trigger] followed_task(rest[i], dest, previous)
                            && rest[i].status == status && rest[i].error_message == message;
                    assert(followed_task(tasks[i + 1], dest, previous));
                },
                ProgressView::Finished => {
                    let i = choose|i: int|
                        0 <= i < rest.len() && #[trigger] followed_task(rest[i], dest, previous)
                            && rest[i].status == 5 && rest[i].size == size
                            && rest[i].transfered_bytes == size;
                    assert(followed_task(tasks[i + 1], dest, previous));
                },
                ProgressView::SizeMismatch => {
                    let i = choose|i: int|
                        0 <= i < rest.len() && #[trigger] followed_task(rest[i], dest, previous)
                            && rest[i].status == 5 && !(rest[i].size == size
                            && rest[i].transfered_bytes == size);
                    assert(followed_task(tasks[i + 1], dest, previous));
                },
                ProgressView::NoTask => {},
            }
        }
    }
}

/// Where a followed upload stands is decided only by tasks for the remote file whose
/// keys were not recorded before the upload; a task from an earlier attempt never
/// decides it. It has failed only when such a task has status 2, 6, 8, 9 or 10 (with
/// that status and message); it has finished only when such a task has status 5 and
/// the local size as size and bytes transferred, and mismatches only when such a task
/// has status 5 and another size; it is pending only when no such task has one of
/// those statuses and some task is on the remote file; and no task is reported exactly
/// when no task at all is on the remote file.
pub proof fn lemma_progress_follows_new_tasks(
    tasks: Seq<UploadTaskView>,
    dest: Seq<char>,
    size: u64,
    previous: Seq<Seq<char>>,
)
    ensures
        match upload_progress(tasks, dest, size, previous) {
            ProgressView::Failed { status, message } => exists|i: int|
                0 <= i < tasks.len() && tasks[i].dest_path == dest && !previous.contains(
                    #[trigger] tasks[i].key,
                ) && tasks[i].status == status && tasks[i].error_message == message && (status
                    == 2 || status == 6 || status == 8 || status == 9 || status == 10),
            ProgressView::Finished => exists|i: int|
                0 <= i < tasks.len() && tasks[i].dest_path == dest && !previous.contains(
                    #[trigger] tasks[i].key,
                ) && tasks[i].status == 5 && tasks[i].size == size && tasks[i].transfered_bytes
                    == size,
            ProgressView::SizeMismatch => exists|i: int|
                0 <= i < tasks.len() && tasks[i].dest_path == dest && !previous.contains(
                    #[trigger] tasks[i].key,
                ) && tasks[i].status == 5 && !(tasks[i].size == size && tasks[i].transfered_bytes
                    == size),
            ProgressView::Pending => (exists|i: int|
                0 <= i < tasks.len() && #[trigger] tasks[i].dest_path == dest) && forall|i: int|
                0 <= i < tasks.len() && tasks[i].dest_path == dest && !previous.contains(
                    #[trigger] tasks[i].key,
                ) ==> !(tasks[i].status == 5 || tasks[i].status == 2 || tasks[i].status == 6
                    || tasks[i].status == 8 || tasks[i].status == 9 || tasks[i].status == 10),
            ProgressView::NoTask => forall|i: int|
                0 <= i < tasks.len() ==> #[trigger] tasks[i].dest_path != dest,
        },
        (upload_progress(tasks, dest, size, previous) is NoTask) <==> (forall|i: int|
            0 <= i < tasks.len() ==> #[trigger] tasks[i].dest_path != dest),
{
    lemma_progress_of_witnessed(tasks, dest, size, previous);
    lemma_progress_of_not_no_task(tasks, dest, size, previous);
    match upload_progress(tasks, dest, size, previous) {
        ProgressView::Failed { status, message } => {
            let i = choose|i: int|
                0 <= i < tasks.len() && #[trigger] followed_task(tasks[i], dest, previous)
                    && tasks[i].status == status && tasks[i].error_message == message && (status
                    == 2 || status == 6 || status == 8 || status == 9 || status == 10);
            assert(!previous.contains(tasks[i].key));
        },
        ProgressView::Finished => {
            let i = choose|i: int|
                0 <= i < tasks.len() && #[trigger] followed_task(tasks[i], dest, previous)
                    && tasks[i].status == 5 && tasks[i].size == size && tasks[i].transfered_bytes
                    == size;
            assert(!previous.contains(tasks[i].key));
        },
        ProgressView::SizeMismatch => {
            let i = choose|i: int|
                0 <= i < tasks.len() && #[trigger] followed_task(tasks[i], dest, previous)
                    && tasks[i].status == 5 && !(tasks[i].size == size
                    && tasks[i].transfered_bytes == size);
            assert(!previous.contains(tasks[i].key));
        },
        ProgressView::Pending => {
            assert(!no_task_for(tasks, dest));
            let j = choose|j: int| 0 <= j < tasks.len() && !(#[trigger] tasks[j].dest_path != dest);
            assert(tasks[j].dest_path == dest);
            assert forall|i: int|
                0 <= i < tasks.len() && tasks[i].dest_path == dest && !previous.contains(
                    #[trigger] tasks[i].key,
                ) implies !(tasks[i].status == 5 || tasks[i].status == 2 || tasks[i].status == 6
                || tasks[i].status == 8 || tasks[i].status == 9 || tasks[i].status == 10) by {
                assert(followed_task(tasks[i], dest, previous));
            }
        },
        ProgressView::NoTask => {},
    }
}

/// Whether `s` is one of `keys`.
fn has_key(keys: &Vec<String>, s: &String) -> (r: bool)
    ensures
        r == strings_view(keys@).contains(s@),
{
    let mut i: usize = 0;
    while i < keys.len()
        invariant
            i <= keys.len(),
            forall|k: int| 0 <= k < i ==> keys@[k]@ != s@,
        decreases keys.len() - i,
    {
        if keys[i] == *s {
            assert(strings_view(keys@)[i as int] == s@);
            return true;
        }
        i = i + 1;
    }
    proof {
        if strings_view(keys@).contains(s@) {
            let k = choose|k: int| 0 <= k < strings_view(keys@).len() && strings_view(keys@)[k] == s@;
            assert(keys@[k]@ == s@);
        }
    }
    false
}

/// A copy of a string.
fn copy_string(s: &String) -> (r: String)
    ensures
        r@ == s@,
{
    s.clone()
}

/// The keys of the upload tasks whose destination is `dest`.
pub fn upload_keys(tasks: &Vec<UploadTask>, dest: &str) -> (r: Vec<String>)
    ensures
        strings_view(r@) == keys_for(tasks_view(tasks@), dest@),
{
    let mut r: Vec<String> = Vec::new();
    let mut i: usize = 0;
    let dest_s = dest.to_owned();
    while i < tasks.len()
        invariant
            i <= tasks.len(),
            dest_s@ == dest@,
            strings_view(r@) == keys_for(tasks_view(tasks@).take(i as int), dest@),
        decreases tasks.len() - i,
    {
        let ghost before = strings_view(r@);
        assert(tasks_view(tasks@).take(i + 1).drop_last() =~= tasks_view(tasks@).take(i as int));
        assert(tasks_view(tasks@).take(i + 1).last() == tasks@[i as int]@);
        if tasks[i].dest_path == dest_s {
            r.push(copy_string(&tasks[i].key));
            assert(strings_view(r@) =~= before.push(tasks@[i as int].key@));
        }
        i = i + 1;
    }
    assert(tasks_view(tasks@).take(tasks.len() as int) =~= tasks_view(tasks@));
    r
}

/// The entries of several listing replies, in order.
pub open spec fn flattened(replies: Seq<Seq<CloudFileView>>) -> Seq<CloudFileView>
    decreases replies.len(),
{
    if replies.len() == 0 {
        seq![]
    } else {
        flattened(replies.drop_last()) + replies.last()
    }
}

/// A copy of a listing entry.
fn copy_file(f: &CloudFile) -> (r: CloudFile)
    ensures
        r@ == f@,
{
    let sha1 = match &f.sha1 {
        Some(h) => Some(h.clone()),
        None => None,
    };
    CloudFile {
        id: f.id.clone(),
        name: f.name.clone(),
        size: f.size,
        file_type: f.file_type,
        is_directory: f.is_directory,
        sha1,
    }
}

/// The views of several listing replies.
pub open spec fn replies_view(v: Seq<Vec<CloudFile>>) -> Seq<Seq<CloudFileView>> {
    Seq::new(v.len(), |i: int| files_view(v[i]@))
}

/// The entries of the listing replies, in order.
pub fn flatten_listing(replies: &Vec<Vec<CloudFile>>) -> (r: Vec<CloudFile>)
    ensures
        files_view(r@) == flattened(replies_view(replies@)),
{
    let ghost rv = replies_view(replies@);
    let mut out: Vec<CloudFile> = Vec::new();
    let mut i: usize = 0;
    assert(rv.take(0) =~= Seq::<Seq<CloudFileView>>::empty());
    assert(files_view(out@) =~= Seq::<CloudFileView>::empty());
    while i < replies.len()
        invariant
            i <= replies.len(),
            rv == replies_view(replies@),
            files_view(out@) == flattened(rv.take(i as int)),
        decreases replies.len() - i,
    {
        let batch = &replies[i];
        let ghost start = files_view(out@);
        let mut j: usize = 0;
        assert(files_view(batch@).take(0) =~= Seq::<CloudFileView>::empty());
        assert(start + files_view(batch@).take(0) =~= start);
        while j < batch.len()
            invariant
                j <= batch.len(),
                files_view(out@) == start + files_view(batch@).take(j as int),
            decreases batch.len() - j,
        {
            let ghost before = files_view(out@);
            out.push(copy_file(&batch[j]));
            assert(files_view(out@) =~= before.push(batch@[j as int]@));
            j = j + 1;
            assert(files_view(out@) =~= start + files_view(batch@).take(j as int));
        }
        assert(files_view(batch@).take(batch.len() as int) =~= files_view(batch@));
        assert(rv.take(i + 1).drop_last() =~= rv.take(i as int));
        assert(rv.take(i + 1).last() == files_view(batch@));
        i = i + 1;
    }
    assert(rv.take(replies.len() as int) =~= rv);
    out
}


/// One upload of a local video to the remote path of its metadata path.
pub struct Upload {
    remote_file: String,
    dir: String,
    name: String,
    size: u64,
    previous: Vec<String>,
}

/// The specification form of an [`Upload`].
pub struct UploadView {
    pub remote_file: Seq<char>,
    pub dir: Seq<char>,
    pub name: Seq<char>,
    /// The size of the local video, once known (0 before).
    pub size: u64,
    /// The keys of the upload tasks for the remote file that existed before the upload.
    pub previous: Seq<Seq<char>>,
}

impl View for Upload {
    type V = UploadView;

    closed spec fn view(&self) -> UploadView {
        UploadView {
            remote_file: self.remote_file@,
            dir: self.dir@,
            name: self.name@,
            size: self.size,
            previous: strings_view(self.previous@),
        }
    }
}

impl Upload {
    /// Starts the upload for the metadata path `metadata_file`: its remote path, split
    /// into the directory to create and the file name.
    pub fn start(client: &Cd2Client, metadata_file: &str) -> (r: Result<Upload, UploadError>)
        ensures
            match remote_path_of(client@, metadata_file@) {
                Err(e) => r matches Err(UploadError::RemotePath(x)) && x == e,
                Ok(p) => match rsplit_slash(p) {
                    None => r matches Err(UploadError::InvalidTarget),
                    Some((a, b)) => r matches Ok(u) && u@ == (UploadView {
                        remote_file: p,
                        dir: a,
                        name: b,
                        size: 0,
                        previous: seq![],
                    }),
                },
            },
    {
        let remote_file = match client.remote_path(metadata_file) {
            Ok(p) => p,
            Err(e) => return Err(UploadError::RemotePath(e)),
        };
        let (dir, name) = match split_remote_file(remote_file.as_str()) {
            Some(parts) => parts,
            None => return Err(UploadError::InvalidTarget),
        };
        let previous: Vec<String> = Vec::new();
        assert(strings_view(previous@) =~= Seq::<Seq<char>>::empty());
        Ok(Upload { remote_file, dir, name, size: 0, previous })
    }

    /// The remote path of the video.
    pub fn remote_file(&self) -> (r: &str)
        ensures
            r@ == self@.remote_file,
    {
        self.remote_file.as_str()
    }

    /// The remote directory of the video.
    pub fn dir(&self) -> (r: &str)
        ensures
            r@ == self@.dir,
    {
        self.dir.as_str()
    }

    /// The remote file name of the video.
    pub fn name(&self) -> (r: &str)
        ensures
            r@ == self@.name,
    {
        self.name.as_str()
    }

    /// The size of the local video.
    pub fn size(&self) -> (r: u64)
        ensures
            r == self@.size,
    {
        self.size
    }

    /// Whether the fresh listing of the remote directory holds the file name.
    pub fn name_listed(&self, files: &Vec<CloudFile>) -> (r: bool)
        ensures
            r == listed(files_view(files@), self@.name),
    {
        let mut i: usize = 0;
        while i < files.len()
            invariant
                i <= files.len(),
                forall|k: int| 0 <= k < i ==> files@[k]@.name != self@.name,
            decreases files.len() - i,
        {
            if files[i].name == self.name {
                assert(files_view(files@)[i as int].name == self@.name);
                return true;
            }
            i = i + 1;
        }
        proof {
            if listed(files_view(files@), self@.name) {
                let k = choose|k: int| 0 <= k < files_view(files@).len() && #[trigger] files_view(files@)[k].name == self@.name;
                assert(files@[k]@.name == self@.name);
            }
        }
        false
    }

    /// Whether the fresh listing holds the file name as a confirmed copy of the local
    /// video of `size` bytes whose SHA1 is `sha1`.
    fn listed_as_copy(&self, files: &Vec<CloudFile>, size: u64, sha1: &str) -> (r: bool)
        ensures
            r == listed_confirmed(files_view(files@), self@.name, size, sha1@),
    {
        let mut i: usize = 0;
        while i < files.len()
            invariant
                i <= files.len(),
                forall|k: int|
                    0 <= k < i ==> !(files@[k]@.name == self@.name && confirmed_copy(
                        files@[k]@,
                        size,
                        sha1@,
                    )),
            decreases files.len() - i,
        {
            if files[i].name == self.name && is_confirmed_copy(&files[i], size, sha1) {
                assert(files_view(files@)[i as int] == files@[i as int]@);
                assert(files_view(files@)[i as int].name == self@.name);
                return true;
            }
            i = i + 1;
        }
        proof {
            if listed_confirmed(files_view(files@), self@.name, size, sha1@) {
                let k = choose|k: int|
                    0 <= k < files_view(files@).len() && #[trigger] files_view(files@)[k].name
                        == self@.name && confirmed_copy(files_view(files@)[k], size, sha1@);
                assert(files_view(files@)[k] == files@[k]@);
            }
        }
        false
    }

    /// Decides about the remote file name from the fresh listing of the remote
    /// directory, the local video's size and SHA1 and the current upload tasks. A free
    /// name is uploaded; a name that holds a confirmed copy of the video, with no upload
    /// task on the remote path, is reused; any other existing file is left alone and the
    /// upload refused.
    pub fn target_decision(
        &self,
        files: &Vec<CloudFile>,
        size: u64,
        sha1: &str,
        tasks: &Vec<UploadTask>,
    ) -> (r: Result<TargetDecision, UploadError>)
        ensures
            !listed(files_view(files@), self@.name) ==> r == Ok::<TargetDecision, UploadError>(
                TargetDecision::Upload,
            ),
            listed(files_view(files@), self@.name) && listed_confirmed(
                files_view(files@),
                self@.name,
                size,
                sha1@,
            ) && no_task_for(tasks_view(tasks@), self@.remote_file) ==> r == Ok::<
                TargetDecision,
                UploadError,
            >(TargetDecision::Reuse),
            listed(files_view(files@), self@.name) && !(listed_confirmed(
                files_view(files@),
                self@.name,
                size,
                sha1@,
            ) && no_task_for(tasks_view(tasks@), self@.remote_file)) ==> (r matches Err(
                UploadError::TargetExists(p),
            ) && p@ == self@.remote_file),
    {
        if !self.name_listed(files) {
            return Ok(TargetDecision::Upload);
        }
        if self.listed_as_copy(files, size, sha1) && !has_task_for(tasks, &self.remote_file) {
            Ok(TargetDecision::Reuse)
        } else {
            Err(UploadError::TargetExists(self.remote_file.clone()))
        }
    }

    /// After CD2 showed no upload task for the remote file: whether the forced fresh
    /// listing of the remote directory holds the file as a confirmed copy of the local
    /// video, whose SHA1 is `sha1`, so that the upload is complete.
    pub fn check_completed(&self, files: &Vec<CloudFile>, sha1: &str) -> (r: bool)
        ensures
            r == listed_confirmed(files_view(files@), self@.name, self@.size, sha1@),
    {
        self.listed_as_copy(files, self.size, sha1)
    }

    /// Records the size of the local video, which must not be empty.
    pub fn set_size(&mut self, size: u64) -> (r: Result<(), UploadError>)
        ensures
            size == 0 ==> (r matches Err(UploadError::EmptyVideo) && final(self)@ == old(self)@),
            size > 0 ==> r is Ok && final(self)@ == (UploadView { size, ..old(self)@ }),
    {
        if size == 0 {
            return Err(UploadError::EmptyVideo);
        }
        self.size = size;
        Ok(())
    }

    /// Records the keys of the upload tasks for the remote file that exist before the
    /// upload, so that only a new task is followed.
    pub fn record_previous(&mut self, tasks: &Vec<UploadTask>)
        ensures
            final(self)@ == (UploadView {
                previous: keys_for(tasks_view(tasks@), old(self)@.remote_file),
                ..old(self)@
            }),
    {
        self.previous = upload_keys(tasks, self.remote_file.as_str());
    }

    /// Where the upload stands in the current task list.
    pub fn progress(&self, tasks: &Vec<UploadTask>) -> (r: UploadProgress)
        ensures
            r@ == upload_progress(tasks_view(tasks@), self@.remote_file, self@.size, self@.previous),
    {
        if !has_task_for(tasks, &self.remote_file) {
            return UploadProgress::NoTask;
        }
        let ghost tv = tasks_view(tasks@);
        let mut i: usize = 0;
        assert(tv.skip(0) =~= tv);
        while i < tasks.len()
            invariant
                i <= tasks.len(),
                tv == tasks_view(tasks@),
                progress_of(tv, self@.remote_file, self@.size, self@.previous) == progress_of(
                    tv.skip(i as int),
                    self@.remote_file,
                    self@.size,
                    self@.previous,
                ),
            decreases tasks.len() - i,
        {
            let t = &tasks[i];
            let ghost rest = tv.skip(i as int);
            assert(rest[0] == t@);
            assert(rest.drop_first() =~= tv.skip(i + 1));
            let ours = t.dest_path == self.remote_file && !has_key(&self.previous, &t.key);
            if ours && t.status == 5 {
                if t.size == self.size && t.transfered_bytes == self.size {
                    return UploadProgress::Finished;
                } else {
                    return UploadProgress::SizeMismatch;
                }
            } else if ours && (t.status == 2 || t.status == 6 || t.status == 8 || t.status == 9
                || t.status == 10) {
                return UploadProgress::Failed {
                    status: t.status,
                    message: t.error_message.clone(),
                };
            }
            i = i + 1;
        }
        assert(tv.skip(tasks.len() as int) =~= Seq::<UploadTaskView>::empty());
        UploadProgress::Pending
    }

    /// After the task finished: the fresh listing of the remote directory must hold the
    /// file with the local size.
    pub fn check_listed(&self, files: &Vec<CloudFile>) -> (r: Result<(), UploadError>)
        ensures
            listed_with_size(files_view(files@), self@.name, self@.size as i64) ==> r is Ok,
            !listed_with_size(files_view(files@), self@.name, self@.size as i64) ==> (r matches Err(
                UploadError::NotListed(p),
            ) && p@ == self@.remote_file),
    {
        let size = self.size as i64;
        let mut i: usize = 0;
        while i < files.len()
            invariant
                i <= files.len(),
                size == self@.size as i64,
                forall|k: int| 0 <= k < i ==> !(files@[k]@.name == self@.name && files@[k]@.size == size),
            decreases files.len() - i,
        {
            if files[i].name == self.name && files[i].size == size {
                assert(files_view(files@)[i as int] == files@[i as int]@);
                assert(files_view(files@)[i as int].name == self@.name && files_view(files@)[i as int].size == size);
                return Ok(());
            }
            i = i + 1;
        }
        proof {
            if listed_with_size(files_view(files@), self@.name, size) {
                let k = choose|k: int| 0 <= k < files_view(files@).len() && #[trigger] files_view(files@)[k].name == self@.name && files_view(files@)[k].size == size;
                assert(files_view(files@)[k] == files@[k]@);
            }
        }
        Err(UploadError::NotListed(self.remote_file.clone()))
    }
}

/// The handle of a created remote file, which must not be 0.
pub fn check_file_handle(handle: u64) -> (r: Result<u64, UploadError>)
    ensures
        handle != 0 ==> r == Ok::<u64, UploadError>(handle),
        handle == 0 ==> r matches Err(UploadError::NoFileHandle),
{
    if handle == 0 {
        Err(UploadError::NoFileHandle)
    } else {
        Ok(handle)
    }
}

/// The outcome of closing the remote file.
pub fn check_closed(success: bool, message: String) -> (r: Result<(), UploadError>)
    ensures
        success ==> r is Ok,
        !success ==> (r matches Err(UploadError::CloseFailed(m)) && m@ == message@),
{
    if success {
        Ok(())
    } else {
        Err(UploadError::CloseFailed(message))
    }
}

/// Why writing and closing the remote file failed, `E` being the error of a failed
/// request.
pub enum TransferError<E> {
    /// A write request failed (the file was closed all the same).
    Write(E),
    /// The close request failed.
    Close(E),
    /// CD2 answered the close request with a failure.
    Upload(UploadError),
}

/// The outcome of an upload's transfer: the remote file is closed after the writes
/// whether they succeeded or not, and the result of the writes is reported first, then
/// that of the close request, then CD2's answer to it.
pub fn settle_transfer<E>(transfer: Result<(), E>, close: Result<(bool, String), E>) -> (r: Result<
    (),
    TransferError<E>,
>)
    ensures
        match (transfer, close) {
            (Err(e), _) => r == Err::<(), TransferError<E>>(TransferError::Write(e)),
            (Ok(_), Err(e)) => r == Err::<(), TransferError<E>>(TransferError::Close(e)),
            (Ok(_), Ok((success, message))) => if success {
                r is Ok
            } else {
                r matches Err(TransferError::Upload(UploadError::CloseFailed(m))) && m@
                    == message@
            },
        },
{
    match transfer {
        Err(e) => Err(TransferError::Write(e)),
        Ok(()) => match close {
            Err(e) => Err(TransferError::Close(e)),
            Ok((success, message)) => match check_closed(success, message) {
                Ok(()) => Ok(()),
                Err(e) => Err(TransferError::Upload(e)),
            },
        },
    }
}

/// The size of a chunk written to the remote file.
pub const CHUNK_SIZE: usize = 2097152;

/// How long to wait for the cloud upload task, in nanoseconds (six hours).
pub const UPLOAD_TIMEOUT_NANOS: u128 = 21600000000000;

/// How long to wait between two looks at the upload tasks, in seconds.
pub const POLL_INTERVAL_SECS: u64 = 5;

/// Whether the upload may still be waited for after `elapsed_nanos` nanoseconds.
pub fn within_upload_timeout(elapsed_nanos: u128) -> (r: bool)
    ensures
        r == (elapsed_nanos < UPLOAD_TIMEOUT_NANOS),
{
    elapsed_nanos < UPLOAD_TIMEOUT_NANOS
}

/// The progress of writing a local file to an open remote file, chunk by chunk.
pub struct ChunkWriter {
    handle: u64,
    size: u64,
    offset: u64,
}

impl ChunkWriter {
    /// The writer for the remote handle `handle` and a local file of `size` bytes.
    pub fn new(handle: u64, size: u64) -> (r: ChunkWriter)
        ensures
            r.handle_spec() == handle,
            r.size_spec() == size,
            r.offset_spec() == 0,
    {
        ChunkWriter { handle, size, offset: 0 }
    }

    pub closed spec fn handle_spec(&self) -> u64 {
        self.handle
    }

    pub closed spec fn size_spec(&self) -> u64 {
        self.size
    }

    pub closed spec fn offset_spec(&self) -> u64 {
        self.offset
    }

    /// The remote file handle.
    pub fn handle(&self) -> (r: u64)
        ensures
            r == self.handle_spec(),
    {
        self.handle
    }

    /// Where the next chunk starts.
    pub fn offset(&self) -> (r: u64)
        ensures
            r == self.offset_spec(),
    {
        self.offset
    }

    /// Accounts for a chunk of `length` bytes of which CD2 wrote `written`: all of it
    /// must have been written.
    pub fn on_written(&mut self, length: u64, written: u64) -> (r: Result<(), UploadError>)
        requires
            old(self).offset_spec() + length <= u64::MAX,
        ensures
            final(self).handle_spec() == old(self).handle_spec(),
            final(self).size_spec() == old(self).size_spec(),
            written == length ==> r is Ok && final(self).offset_spec() == old(self).offset_spec()
                + length,
            written != length ==> (r matches Err(UploadError::ShortWrite { written: w, length: l })
                && w == written && l == length && final(self).offset_spec() == old(
                self,
            ).offset_spec()),
    {
        if written != length {
            return Err(UploadError::ShortWrite { written, length });
        }
        self.offset = self.offset + length;
        Ok(())
    }

    /// At the end of the local file: all of its announced size must have been sent.
    pub fn finish(&self) -> (r: Result<(), UploadError>)
        ensures
            self.offset_spec() == self.size_spec() ==> r is Ok,
            self.offset_spec() != self.size_spec() ==> r matches Err(UploadError::SizeChanged),
    {
        if self.offset == self.size {
            Ok(())
        } else {
            Err(UploadError::SizeChanged)
        }
    }
}


/// The non-empty segments among `segs`, in order.
pub open spec fn nonempty_segments(segs: Seq<Seq<char>>) -> Seq<Seq<char>>
    decreases segs.len(),
{
    if segs.len() == 0 {
        seq![]
    } else {
        let init = nonempty_segments(segs.drop_last());
        if segs.last().len() > 0 {
            init.push(segs.last())
        } else {
            init
        }
    }
}

/// The directory names of the remote path `p`: its non-empty `/`-separated parts.
pub open spec fn dir_names(p: Seq<char>) -> Seq<Seq<char>> {
    nonempty_segments(split_slash(p))
}

/// The absolute path made of `names`: `/name` for each.
pub open spec fn joined_path(names: Seq<Seq<char>>) -> Seq<char>
    decreases names.len(),
{
    if names.len() == 0 {
        seq![]
    } else {
        joined_path(names.drop_last()) + seq!['/'] + names.last()
    }
}

/// The first entry of a listing named `name`.
pub open spec fn first_named(items: Seq<CloudFileView>, name: Seq<char>) -> Option<CloudFileView>
    decreases items.len(),
{
    if items.len() == 0 {
        None
    } else if items[0].name == name {
        Some(items[0])
    } else {
        first_named(items.drop_first(), name)
    }
}

/// Whether a listed entry can serve as a directory: flagged as one, or of file type 0.
pub open spec fn usable_as_directory(f: CloudFileView) -> bool {
    f.is_directory || f.file_type == 0
}

/// Creating a remote directory path one level at a time, from the root down.
pub struct DirectoryWalk {
    names: Vec<String>,
    done: usize,
    parent: String,
}

/// The specification form of a [`DirectoryWalk`]: the directory names and how many
/// of them exist already.
pub struct WalkView {
    pub names: Seq<Seq<char>>,
    pub done: int,
}

/// The directory to list next: the parent of the next name (`/` at the top).
pub open spec fn walk_parent(w: WalkView) -> Seq<char> {
    let p = joined_path(w.names.take(w.done));
    if p.len() == 0 {
        seq!['/']
    } else {
        p
    }
}

/// The directory that the walk handles next.
pub open spec fn walk_current(w: WalkView) -> Seq<char> {
    joined_path(w.names.take(w.done + 1))
}

/// The walk after the next directory is known to exist.
pub open spec fn walk_advanced(w: WalkView) -> WalkView {
    WalkView { names: w.names, done: w.done + 1 }
}

/// What the next listing tells about the next directory.
#[derive(Debug, Clone, Copy, PartialEq, Eq, Structural)]
pub enum DirStep {
    /// It exists; the walk moved on.
    Exists,
    /// It is missing and is to be created in [`walk_parent`].
    Create,
}

impl View for DirectoryWalk {
    type V = WalkView;

    closed spec fn view(&self) -> WalkView {
        WalkView { names: strings_view(self.names@), done: self.done as int }
    }
}

impl DirectoryWalk {
    /// The walk is consistent: the parent is the path of the names done so far.
    pub closed spec fn wf(&self) -> bool {
        &&& self.done <= self.names.len()
        &&& self.parent@ == joined_path(strings_view(self.names@).take(self.done as int))
    }

    /// The walk that creates the directories of `path` (`/` separated, empty parts ignored).
    pub fn new(path: &str) -> (r: DirectoryWalk)
        ensures
            r.wf(),
            r@ == (WalkView { names: dir_names(path@), done: 0 }),
    {
        let cs = chars_of(path);
        let segs = split_segments(&cs);
        let ghost sv = segs.deep_view();
        let mut names: Vec<String> = Vec::new();
        let mut k: usize = 0;
        assert(sv.take(0) =~= Seq::<Seq<char>>::empty());
        assert(strings_view(names@) =~= Seq::<Seq<char>>::empty());
        while k < segs.len()
            invariant
                k <= segs.len(),
                sv == segs.deep_view(),
                strings_view(names@) == nonempty_segments(sv.take(k as int)),
            decreases segs.len() - k,
        {
            let seg = &segs[k];
            assert(seg.deep_view() =~= seg@);
            assert(sv.take(k + 1).drop_last() =~= sv.take(k as int));
            assert(sv.take(k + 1).last() == seg@);
            if seg.len() > 0 {
                let ghost before = strings_view(names@);
                let name = string_of(seg, 0, seg.len());
                assert(seg@.subrange(0, seg.len() as int) =~= seg@);
                names.push(name);
                assert(strings_view(names@) =~= before.push(seg@));
            }
            k = k + 1;
        }
        assert(sv.take(segs.len() as int) =~= sv);
        let r = DirectoryWalk { names, done: 0, parent: String::new() };
        assert(strings_view(r.names@).take(0) =~= Seq::<Seq<char>>::empty());
        r
    }

    /// Whether every directory exists.
    pub fn is_done(&self) -> (r: bool)
        requires
            self.wf(),
        ensures
            r == (self@.done == self@.names.len()),
    {
        self.done == self.names.len()
    }

    /// The directory to list for the next name, which is also where it is created.
    pub fn list_path(&self) -> (r: String)
        requires
            self.wf(),
        ensures
            r@ == walk_parent(self@),
    {
        if self.parent.as_str().unicode_len() == 0 {
            let mut s = String::new();
            s.push('/');
            assert(s@ =~= seq!['/']);
            s
        } else {
            self.parent.clone()
        }
    }

    /// The next directory name.
    pub fn next_name(&self) -> (r: &str)
        requires
            self.wf(),
            self@.done < self@.names.len(),
        ensures
            r@ == self@.names[self@.done],
    {
        self.names[self.done].as_str()
    }

    /// The path of the next directory.
    fn current(&self) -> (r: String)
        requires
            self.wf(),
            self@.done < self@.names.len(),
        ensures
            r@ == walk_current(self@),
    {
        let mut p = self.parent.clone();
        p.push('/');
        p.append(self.names[self.done].as_str());
        let ghost nv = strings_view(self.names@);
        assert(nv.take(self.done + 1).drop_last() =~= nv.take(self.done as int));
        assert(nv.take(self.done + 1).last() == nv[self.done as int]);
        assert(p@ =~= joined_path(nv.take(self.done as int)) + seq!['/'] + nv[self.done as int]);
        p
    }

    fn advance(&mut self)
        requires
            old(self).wf(),
            old(self)@.done < old(self)@.names.len(),
        ensures
            final(self).wf(),
            final(self)@ == walk_advanced(old(self)@),
    {
        let p = self.current();
        self.parent = p;
        self.done = self.done + 1;
    }

    /// Reads the listing of [`walk_parent`]: the first entry with the next name decides.
    /// A usable directory moves the walk on; another entry is an error; no entry means
    /// the directory is to be created.
    pub fn on_listing(&mut self, items: &Vec<CloudFile>) -> (r: Result<DirStep, UploadError>)
        requires
            old(self).wf(),
            old(self)@.done < old(self)@.names.len(),
        ensures
            final(self).wf(),
            match first_named(files_view(items@), old(self)@.names[old(self)@.done]) {
                Some(f) => if usable_as_directory(f) {
                    r == Ok::<DirStep, UploadError>(DirStep::Exists) && final(self)@
                        == walk_advanced(old(self)@)
                } else {
                    r matches Err(UploadError::NotADirectory(p)) && p@ == walk_current(
                        old(self)@,
                    ) && final(self)@ == old(self)@
                },
                None => r == Ok::<DirStep, UploadError>(DirStep::Create) && final(self)@ == old(
                    self,
                )@,
            },
    {
        let ghost name = strings_view(self.names@)[self.done as int];
        let ghost iv = files_view(items@);
        assert(self.names@[self.done as int]@ == name);
        let mut i: usize = 0;
        assert(iv.skip(0) =~= iv);
        while i < items.len()
            invariant
                i <= items.len(),
                iv == files_view(items@),
                self.wf(),
                self@ == old(self)@,
                self.done < self.names.len(),
                self.names@[self.done as int]@ == name,
                first_named(iv, name) == first_named(iv.skip(i as int), name),
            decreases items.len() - i,
        {
            let ghost rest = iv.skip(i as int);
            assert(rest[0] == items@[i as int]@);
            assert(rest.drop_first() =~= iv.skip(i + 1));
            if items[i].name == self.names[self.done] {
                if items[i].is_directory || items[i].file_type == 0 {
                    self.advance();
                    return Ok(DirStep::Exists);
                } else {
                    return Err(UploadError::NotADirectory(self.current()));
                }
            }
            i = i + 1;
        }
        assert(iv.skip(items.len() as int) =~= Seq::<CloudFileView>::empty());
        Ok(DirStep::Create)
    }

    /// The outcome of creating the next directory: the reported operation result
    /// (`Some(success)`, if any) and whether the created folder was returned.
    pub fn on_created(&mut self, result_success: Option<bool>, folder_created: bool) -> (r: Result<
        (),
        UploadError,
    >)
        requires
            old(self).wf(),
            old(self)@.done < old(self)@.names.len(),
        ensures
            final(self).wf(),
            (result_success == Some(true) || folder_created) ==> (r is Ok && final(self)@
                == walk_advanced(old(self)@)),
            !(result_success == Some(true) || folder_created) ==> (r matches Err(
                UploadError::CreateFolderFailed(p),
            ) && p@ == walk_current(old(self)@) && final(self)@ == old(self)@),
    {
        let success = match result_success {
            Some(b) => b,
            None => false,
        } || folder_created;
        if success {
            self.advance();
            Ok(())
        } else {
            Err(UploadError::CreateFolderFailed(self.current()))
        }
    }
}


/// The segments `ss` joined by `/` (the inverse of [`split_slash`]).
pub open spec fn join_slash(ss: Seq<Seq<char>>) -> Seq<char>
    decreases ss.len(),
{
    if ss.len() <= 1 {
        if ss.len() == 0 {
            seq![]
        } else {
            ss[0]
        }
    } else {
        join_slash(ss.drop_last()) + seq!['/'] + ss.last()
    }
}

proof fn lemma_join_split(p: Seq<char>)
    ensures
        join_slash(split_slash(p)) == p,
    decreases p.len(),
{
    lemma_split_nonempty(p);
    if p.len() == 0 {
        assert(join_slash(seq![Seq::<char>::empty()]) =~= p);
    } else {
        let q = p.drop_last();
        let c = p.last();
        let init = split_slash(q);
        lemma_join_split(q);
        lemma_split_nonempty(q);
        if c == '/' {
            let ss = init.push(Seq::<char>::empty());
            assert(ss.drop_last() =~= init);
            assert(join_slash(ss) =~= q + seq!['/'] + Seq::<char>::empty());
            assert(p =~= q + seq!['/']);
        } else {
            let ss = init.update(init.len() - 1, init.last().push(c));
            if init.len() == 1 {
                assert(join_slash(init) == init[0]);
                assert(join_slash(ss) == ss[0]);
                assert(p =~= init[0].push(c));
            } else {
                assert(ss.drop_last() =~= init.drop_last());
                assert(join_slash(init) == join_slash(init.drop_last()) + seq!['/'] + init.last());
                assert(join_slash(ss) =~= join_slash(init) + seq![c]);
                assert(p =~= q.push(c));
            }
        }
    }
}

proof fn lemma_joined_nonempty_segments(ss: Seq<Seq<char>>)
    requires
        ss.len() >= 1,
        ss[0].len() == 0,
        forall|k: int| 1 <= k < ss.len() ==> (#[trigger] ss[k]).len() > 0,
    ensures
        joined_path(nonempty_segments(ss)) == join_slash(ss),
    decreases ss.len(),
{
    if ss.len() == 1 {
        reveal_with_fuel(nonempty_segments, 2);
        assert(ss.drop_last() =~= Seq::<Seq<char>>::empty());
        assert(nonempty_segments(ss) =~= Seq::<Seq<char>>::empty());
        assert(join_slash(ss) =~= Seq::<char>::empty());
    } else {
        let init = ss.drop_last();
        assert forall|k: int| 1 <= k < init.len() implies (#[trigger] init[k]).len() > 0 by {
            assert(init[k] == ss[k]);
        }
        lemma_joined_nonempty_segments(init);
        assert(ss.last().len() > 0) by {
            assert(ss[ss.len() - 1].len() > 0);
        }
        let ns = nonempty_segments(init).push(ss.last());
        assert(nonempty_segments(ss) == ns);
        assert(ns.drop_last() =~= nonempty_segments(init));
    }
}

/// An absolute directory path without empty names (so neither the root nor a path
/// with `//` or a trailing `/`).
pub open spec fn clean_absolute(p: Seq<char>) -> bool {
    &&& p.len() > 0
    &&& p[0] == '/'
    &&& forall|k: int| 1 <= k < split_slash(p).len() ==> (#[trigger] split_slash(p)[k]).len() > 0
}

/// The directory walk for an absolute path without empty names ends at that path:
/// once every name is done, the directory reached is the requested one.
pub proof fn lemma_walk_reaches(p: Seq<char>)
    requires
        clean_absolute(p),
    ensures
        dir_names(p).len() > 0,
        joined_path(dir_names(p)) == p,
        walk_current(WalkView { names: dir_names(p), done: dir_names(p).len() - 1 }) == p,
{
    let ss = split_slash(p);
    lemma_split_nonempty(p);
    lemma_join_split(p);
    assert(ss[0].len() == 0) by {
        lemma_first_segment(p);
    }
    if ss.len() == 1 {
        assert(p.len() == 0) by {
            assert(join_slash(ss) == ss[0]);
        }
    }
    lemma_joined_nonempty_segments(ss);
    let names = dir_names(p);
    assert(names.take(names.len() as int) =~= names);
}

proof fn lemma_first_segment(p: Seq<char>)
    requires
        p.len() > 0,
        p[0] == '/',
    ensures
        split_slash(p)[0].len() == 0,
    decreases p.len(),
{
    lemma_split_nonempty(p);
    let q = p.drop_last();
    if q.len() == 0 {
        assert(p.last() == '/');
        assert(split_slash(q) == seq![Seq::<char>::empty()]);
    } else {
        assert(q[0] == '/');
        lemma_first_segment(q);
        lemma_split_nonempty(q);
        if split_slash(q).len() == 1 {
            lemma_join_split(q);
            assert(join_slash(split_slash(q)) == split_slash(q)[0]);
            assert(false);
        }
    }
}


proof fn lemma_remote_suffix_last(rel: Seq<Part>)
    requires
        rel.len() > 0,
        remote_suffix(rel) is Ok,
    ensures
        rel.last() is Name,
        remote_suffix(rel.drop_last()) is Ok,
        remote_suffix(rel).unwrap() == remote_suffix(rel.drop_last()).unwrap() + seq!['/'] + rel.last()->Name_0,
    decreases rel.len(),
{
    let rest = rel.drop_first();
    if rel.len() == 1 {
        assert(rest.len() == 0);
        assert(rel.drop_last() =~= Seq::<Part>::empty());
        if let Part::Name(s) = rel[0] {
            assert(seq!['/'] + s + Seq::<char>::empty() =~= Seq::<char>::empty() + seq!['/'] + s);
        }
    } else {
        lemma_remote_suffix_last(rest);
        assert(rest.last() == rel.last());
        assert(rest.drop_last() =~= rel.drop_last().drop_first());
        assert(rel.drop_last()[0] == rel[0]);
        if let Part::Name(s) = rel[0] {
            let t0 = remote_suffix(rest.drop_last()).unwrap();
            let n = rel.last()->Name_0;
            assert(seq!['/'] + s + (t0 + seq!['/'] + n) =~= (seq!['/'] + s + t0) + seq!['/'] + n);
        }
    }
}

proof fn lemma_rsplit_then(x: Seq<char>, n: Seq<char>)
    requires
        !n.contains('/'),
    ensures
        rsplit_slash(x + seq!['/'] + n) == Some((x, n)),
    decreases n.len(),
{
    if n.len() == 0 {
        assert((x + seq!['/'] + n).drop_last() =~= x);
        assert((x + seq!['/'] + n).last() == '/');
    } else {
        let n0 = n.drop_last();
        assert(!n0.contains('/')) by {
            if n0.contains('/') {
                let k = choose|k: int| 0 <= k < n0.len() && n0[k] == '/';
                assert(n[k] == '/');
            }
        }
        assert(n.last() != '/') by {
            assert(n[n.len() - 1] == n.last());
        }
        lemma_rsplit_then(x, n0);
        let p = x + seq!['/'] + n;
        assert(p.drop_last() =~= x + seq!['/'] + n0);
        assert(p.last() == n.last());
        assert(n0.push(n.last()) =~= n);
    }
}

proof fn lemma_clean_then(r: Seq<char>, rel: Seq<Part>)
    requires
        clean_absolute(r),
        remote_suffix(rel) is Ok,
        forall|i: int| 0 <= i < rel.len() ==> (#[trigger] rel[i] matches Part::Name(s) ==> valid_name(s)),
    ensures
        clean_absolute(r + remote_suffix(rel).unwrap()),
    decreases rel.len(),
{
    if rel.len() == 0 {
        assert(r + Seq::<char>::empty() =~= r);
    } else {
        let rest = rel.drop_first();
        if let Part::Name(s) = rel[0] {
            assert(valid_name(s));
            let r2 = r + seq!['/'] + s;
            lemma_split_slash_then(r, s);
            let ss = split_slash(r2);
            assert(ss == split_slash(r).push(s));
            assert forall|k: int| 1 <= k < ss.len() implies (#[trigger] ss[k]).len() > 0 by {
                if k < split_slash(r).len() {
                    assert(ss[k] == split_slash(r)[k]);
                }
            }
            assert(r2[0] == r[0]);
            assert forall|i: int| 0 <= i < rest.len() implies (#[trigger] rest[i] matches Part::Name(x) ==> valid_name(x)) by {
                assert(rest[i] == rel[i + 1]);
            }
            lemma_clean_then(r2, rest);
            assert(r + remote_suffix(rel).unwrap() =~= r2 + remote_suffix(rest).unwrap());
        }
    }
}

/// The directory of an upload is the one its directory walk reaches: the remote path
/// of a video splits into a directory and a file name, and the walk over that
/// directory's names ends at the directory itself.
pub proof fn lemma_upload_directory(c: Cd2View, file: Seq<char>)
    requires
        remote_path_check(c.save_path) is Ok,
        is_absolute_path(c.metadata_root),
        remote_path_of(c, file) is Ok,
    ensures
        rsplit_slash(remote_path_of(c, file).unwrap()) is Some,
        ({
            let dir = rsplit_slash(remote_path_of(c, file).unwrap()).unwrap().0;
            &&& clean_absolute(dir)
            &&& dir_names(dir).len() > 0
            &&& walk_current(WalkView { names: dir_names(dir), done: dir_names(dir).len() - 1 }) == dir
        }),
{
    let rel = strip_parts(file, c.metadata_root).unwrap();
    lemma_strip_parts_names(file, c.metadata_root);
    lemma_remote_suffix_last(rel);
    let init = rel.drop_last();
    let last = rel.last()->Name_0;
    assert(valid_name(last)) by {
        assert(rel[rel.len() - 1] == rel.last());
    }
    let dir = c.save_path + remote_suffix(init).unwrap();
    assert(remote_path_of(c, file).unwrap() =~= dir + seq!['/'] + last);
    lemma_rsplit_then(dir, last);
    // The save path is absolute and has no empty names.
    let sp = c.save_path;
    assert(clean_absolute(sp)) by {
        assert forall|k: int| 1 <= k < split_slash(sp).len() implies (#[trigger] split_slash(sp)[k]).len() > 0 by {
            assert(valid_remote_segment(split_slash(sp)[k]));
        }
    }
    assert forall|i: int| 0 <= i < init.len() implies (#[trigger] init[i] matches Part::Name(s) ==> valid_name(s)) by {
        assert(init[i] == rel[i]);
    }
    lemma_clean_then(sp, init);
    lemma_walk_reaches(dir);
}


/// How an upload came to an end.
#[derive(Debug, Clone, Copy, PartialEq, Eq, Structural)]
pub enum Completion {
    /// A confirmed copy was already in the cloud and no upload task was on its path.
    Reused,
    /// A new upload task finished and the listing holds the file with the local size.
    Finished,
    /// CD2 removed the task and the listing holds a confirmed copy.
    Confirmed,
}

/// Where an upload run stands.
#[derive(Debug, Clone, Copy, PartialEq, Eq, Structural)]
pub enum RunPhase {
    /// The remote directory is to be created.
    Directory,
    /// The remote directory is to be listed (forced) and the local size read.
    Target,
    /// The name is taken: the local SHA1 and the upload tasks are to be read.
    Existing,
    /// The upload tasks before the upload are to be read.
    Tasks,
    /// The remote file is to be created.
    Create,
    /// The local file is to be written to the remote file of this handle.
    Write(u64),
    /// The remote file of this handle is to be closed.
    Close(u64),
    /// The upload tasks are to be read.
    Poll,
    /// The new task finished: the remote directory is to be listed (forced).
    Finished,
    /// No task is left for the file: the remote directory is to be listed (forced) and
    /// the local SHA1 read.
    Removed,
    /// Wait before reading the upload tasks again.
    Sleep,
    /// The upload is complete.
    Done(Completion),
    /// The upload failed; the error was returned.
    Failed,
}

/// What the caller is to do next in an upload run.
#[derive(Debug, Clone, Copy, PartialEq, Eq, Structural)]
pub enum UploadAction {
    /// Create the remote directory level by level ([`DirectoryWalk`]).
    EnsureDirectory,
    /// List the remote directory with a forced refresh and read the local size.
    ListTarget,
    /// Compute the local SHA1 and read the upload tasks.
    CheckExisting,
    /// Read the upload tasks.
    ListTasks,
    /// Send `CreateFile` for the remote directory and file name.
    CreateFile,
    /// Write the local file to the remote file of this handle.
    Write(u64),
    /// Send `CloseFile` for this handle.
    CloseFile(u64),
    /// Read the upload tasks.
    PollTasks,
    /// List the remote directory with a forced refresh.
    ListFinished,
    /// List the remote directory with a forced refresh and compute the local SHA1.
    ListRemoved,
    /// Wait [`POLL_INTERVAL_SECS`] seconds.
    Sleep,
    /// Nothing: the upload is complete.
    Done,
    /// Nothing: the upload failed.
    Stop,
}

/// The action for a phase.
pub open spec fn action_of(p: RunPhase) -> UploadAction {
    match p {
        RunPhase::Directory => UploadAction::EnsureDirectory,
        RunPhase::Target => UploadAction::ListTarget,
        RunPhase::Existing => UploadAction::CheckExisting,
        RunPhase::Tasks => UploadAction::ListTasks,
        RunPhase::Create => UploadAction::CreateFile,
        RunPhase::Write(h) => UploadAction::Write(h),
        RunPhase::Close(h) => UploadAction::CloseFile(h),
        RunPhase::Poll => UploadAction::PollTasks,
        RunPhase::Finished => UploadAction::ListFinished,
        RunPhase::Removed => UploadAction::ListRemoved,
        RunPhase::Sleep => UploadAction::Sleep,
        RunPhase::Done(_) => UploadAction::Done,
        RunPhase::Failed => UploadAction::Stop,
    }
}

/// The phases in which the file is being uploaded, or has been.
pub open spec fn uploading(p: RunPhase) -> bool {
    ||| p is Tasks
    ||| p is Create
    ||| p is Write
    ||| p is Close
    ||| p is Poll
    ||| p is Finished
    ||| p is Removed
    ||| p is Sleep
    ||| p == RunPhase::Done(Completion::Finished)
    ||| p == RunPhase::Done(Completion::Confirmed)
}

/// An upload of a local video from start to end, one step at a time: the caller
/// performs [`UploadRun::action`] and reports its result to the matching `on_` method.
pub struct UploadRun {
    upload: Upload,
    phase: RunPhase,
    files: Vec<CloudFile>,
    local_size: u64,
}

/// The specification form of an [`UploadRun`].
pub struct RunView {
    pub upload: UploadView,
    pub phase: RunPhase,
    /// The forced listing of the remote directory taken before the upload.
    pub files: Seq<CloudFileView>,
    /// The size of the local video.
    pub local_size: u64,
}

impl View for UploadRun {
    type V = RunView;

    closed spec fn view(&self) -> RunView {
        RunView {
            upload: self.upload@,
            phase: self.phase,
            files: files_view(self.files@),
            local_size: self.local_size,
        }
    }
}

impl UploadRun {
    #[verifier::type_invariant]
    spec fn run_valid(self) -> bool {
        &&& self.phase is Existing ==> listed(files_view(self.files@), self.upload@.name)
        &&& uploading(self.phase) ==> {
            &&& !listed(files_view(self.files@), self.upload@.name)
            &&& self.upload@.size > 0
            &&& self.upload@.size == self.local_size
        }
        &&& self.phase matches RunPhase::Write(h) ==> h != 0
        &&& self.phase matches RunPhase::Close(h) ==> h != 0
    }

    /// Starts the upload of the video for the metadata path `metadata_file`
    /// ([`Upload::start`]); the remote directory is created first.
    pub fn start(client: &Cd2Client, metadata_file: &str) -> (r: Result<UploadRun, UploadError>)
        ensures
            match remote_path_of(client@, metadata_file@) {
                Err(e) => r matches Err(UploadError::RemotePath(x)) && x == e,
                Ok(p) => match rsplit_slash(p) {
                    None => r matches Err(UploadError::InvalidTarget),
                    Some((a, b)) => r matches Ok(run) && run@.phase == RunPhase::Directory
                        && run@.upload == (UploadView {
                        remote_file: p,
                        dir: a,
                        name: b,
                        size: 0,
                        previous: seq![],
                    }) && run@.files == Seq::<CloudFileView>::empty() && run@.local_size == 0,
                },
            },
    {
        let upload = Upload::start(client, metadata_file)?;
        let files: Vec<CloudFile> = Vec::new();
        assert(files_view(files@) =~= Seq::<CloudFileView>::empty());
        Ok(UploadRun { upload, phase: RunPhase::Directory, files, local_size: 0 })
    }

    /// The upload being run.
    pub fn upload(&self) -> (r: &Upload)
        ensures
            r@ == self@.upload,
    {
        &self.upload
    }

    /// The size of the local video, as listed with the target.
    pub fn local_size(&self) -> (r: u64)
        ensures
            r == self@.local_size,
    {
        self.local_size
    }

    /// What to do next. `CreateFile` comes only when the listing did not hold the file
    /// name and the local video is not empty; `CloseFile` only for a handle CD2 gave.
    pub fn action(&self) -> (r: UploadAction)
        ensures
            r == action_of(self@.phase),
            r is CreateFile ==> !listed(self@.files, self@.upload.name) && self@.upload.size > 0
                && self@.upload.size == self@.local_size,
            r matches UploadAction::Write(h) ==> h != 0,
            r matches UploadAction::CloseFile(h) ==> h != 0,
    {
        proof {
            use_type_invariant(self);
        }
        match self.phase {
            RunPhase::Directory => UploadAction::EnsureDirectory,
            RunPhase::Target => UploadAction::ListTarget,
            RunPhase::Existing => UploadAction::CheckExisting,
            RunPhase::Tasks => UploadAction::ListTasks,
            RunPhase::Create => UploadAction::CreateFile,
            RunPhase::Write(h) => UploadAction::Write(h),
            RunPhase::Close(h) => UploadAction::CloseFile(h),
            RunPhase::Poll => UploadAction::PollTasks,
            RunPhase::Finished => UploadAction::ListFinished,
            RunPhase::Removed => UploadAction::ListRemoved,
            RunPhase::Sleep => UploadAction::Sleep,
            RunPhase::Done(_) => UploadAction::Done,
            RunPhase::Failed => UploadAction::Stop,
        }
    }

    /// The remote directory exists.
    pub fn on_directory_ready(&mut self)
        requires
            old(self)@.phase == RunPhase::Directory,
        ensures
            final(self)@ == (RunView { phase: RunPhase::Target, ..old(self)@ }),
    {
        proof {
            use_type_invariant(&*self);
        }
        self.phase = RunPhase::Target;
    }

    /// The forced listing of the remote directory and the size of the local video: a
    /// free name goes on to the upload unless the video is empty; a taken name is to be
    /// checked.
    pub fn on_target_listed(&mut self, files: Vec<CloudFile>, size: u64) -> (r: Result<
        (),
        UploadError,
    >)
        requires
            old(self)@.phase == RunPhase::Target,
        ensures
            final(self)@.files == files_view(files@),
            final(self)@.local_size == size,
            listed(files_view(files@), old(self)@.upload.name) ==> r is Ok && final(self)@.phase
                == RunPhase::Existing && final(self)@.upload == old(self)@.upload,
            !listed(files_view(files@), old(self)@.upload.name) && size > 0 ==> r is Ok
                && final(self)@.phase == RunPhase::Tasks && final(self)@.upload == (UploadView {
                size,
                ..old(self)@.upload
            }),
            !listed(files_view(files@), old(self)@.upload.name) && size == 0 ==> (r matches Err(
                UploadError::EmptyVideo,
            ) && final(self)@.phase == RunPhase::Failed && final(self)@.upload == old(
                self,
            )@.upload),
    {
        proof {
            use_type_invariant(&*self);
        }
        self.files = files;
        self.local_size = size;
        if self.upload.name_listed(&self.files) {
            self.phase = RunPhase::Existing;
            return Ok(());
        }
        if size == 0 {
            self.phase = RunPhase::Failed;
            return Err(UploadError::EmptyVideo);
        }
        self.upload.size = size;
        self.phase = RunPhase::Tasks;
        Ok(())
    }

    /// The local SHA1 and the current upload tasks, for a taken name: the file is reused
    /// when it is a confirmed copy and no upload task is on the remote path; otherwise
    /// it is left alone and the upload refused.
    pub fn on_existing_checked(&mut self, sha1: &str, tasks: &Vec<UploadTask>) -> (r: Result<
        (),
        UploadError,
    >)
        requires
            old(self)@.phase == RunPhase::Existing,
        ensures
            final(self)@ == (RunView { phase: final(self)@.phase, ..old(self)@ }),
            listed_confirmed(old(self)@.files, old(self)@.upload.name, old(self)@.local_size, sha1@)
                && no_task_for(tasks_view(tasks@), old(self)@.upload.remote_file) ==> r is Ok
                && final(self)@.phase == RunPhase::Done(Completion::Reused),
            !(listed_confirmed(old(self)@.files, old(self)@.upload.name, old(self)@.local_size, sha1@)
                && no_task_for(tasks_view(tasks@), old(self)@.upload.remote_file)) ==> (r matches Err(
                UploadError::TargetExists(p),
            ) && p@ == old(self)@.upload.remote_file && final(self)@.phase == RunPhase::Failed),
    {
        proof {
            use_type_invariant(&*self);
        }
        if self.upload.listed_as_copy(&self.files, self.local_size, sha1) && !has_task_for(
            tasks,
            &self.upload.remote_file,
        ) {
            self.phase = RunPhase::Done(Completion::Reused);
            Ok(())
        } else {
            self.phase = RunPhase::Failed;
            Err(UploadError::TargetExists(self.upload.remote_file.clone()))
        }
    }

    /// The upload tasks before the upload: those on the remote path are not followed.
    pub fn on_tasks_before(&mut self, tasks: &Vec<UploadTask>)
        requires
            old(self)@.phase == RunPhase::Tasks,
        ensures
            final(self)@ == (RunView {
                phase: RunPhase::Create,
                upload: UploadView {
                    previous: keys_for(tasks_view(tasks@), old(self)@.upload.remote_file),
                    ..old(self)@.upload
                },
                ..old(self)@
            }),
    {
        proof {
            use_type_invariant(&*self);
        }
        let keys = upload_keys(tasks, self.upload.remote_file.as_str());
        self.upload.previous = keys;
        self.phase = RunPhase::Create;
    }

    /// The handle `CreateFile` returned: the file is written to it, unless it is 0.
    pub fn on_created(&mut self, handle: u64) -> (r: Result<(), UploadError>)
        requires
            old(self)@.phase == RunPhase::Create,
        ensures
            final(self)@ == (RunView { phase: final(self)@.phase, ..old(self)@ }),
            handle != 0 ==> r is Ok && final(self)@.phase == RunPhase::Write(handle),
            handle == 0 ==> (r matches Err(UploadError::NoFileHandle) && final(self)@.phase
                == RunPhase::Failed),
    {
        proof {
            use_type_invariant(&*self);
        }
        match check_file_handle(handle) {
            Ok(h) => {
                self.phase = RunPhase::Write(h);
                Ok(())
            },
            Err(e) => {
                self.phase = RunPhase::Failed;
                Err(e)
            },
        }
    }

    /// The writes are over, whether they succeeded or not: the file is closed next.
    pub fn on_writes_done(&mut self)
        requires
            old(self)@.phase is Write,
        ensures
            final(self)@ == (RunView {
                phase: RunPhase::Close(old(self)@.phase->Write_0),
                ..old(self)@
            }),
    {
        proof {
            use_type_invariant(&*self);
        }
        match self.phase {
            RunPhase::Write(h) => {
                self.phase = RunPhase::Close(h);
            },
            _ => {},
        }
    }

    /// The outcome of the writes and of `CloseFile` ([`settle_transfer`]): on success
    /// the upload task is followed.
    pub fn on_transfer<E>(&mut self, transfer: Result<(), E>, close: Result<(bool, String), E>) -> (r:
        Result<(), TransferError<E>>)
        requires
            old(self)@.phase is Close,
        ensures
            final(self)@ == (RunView { phase: final(self)@.phase, ..old(self)@ }),
            r is Ok ==> final(self)@.phase == RunPhase::Poll,
            r is Err ==> final(self)@.phase == RunPhase::Failed,
            match (transfer, close) {
                (Err(e), _) => r == Err::<(), TransferError<E>>(TransferError::Write(e)),
                (Ok(_), Err(e)) => r == Err::<(), TransferError<E>>(TransferError::Close(e)),
                (Ok(_), Ok((success, message))) => if success {
                    r is Ok
                } else {
                    r matches Err(TransferError::Upload(UploadError::CloseFailed(m))) && m@
                        == message@
                },
            },
    {
        proof {
            use_type_invariant(&*self);
        }
        let r = settle_transfer(transfer, close);
        if r.is_ok() {
            self.phase = RunPhase::Poll;
        } else {
            self.phase = RunPhase::Failed;
        }
        r
    }

    /// The current upload tasks, `elapsed_nanos` after the wait began
    /// ([`upload_progress`]): a finished task leads to the listing check, no task at
    /// all to the check of a confirmed copy, a pending one to another wait while time
    /// is left.
    pub fn on_tasks_polled(&mut self, tasks: &Vec<UploadTask>, elapsed_nanos: u128) -> (r: Result<
        (),
        UploadError,
    >)
        requires
            old(self)@.phase == RunPhase::Poll,
        ensures
            final(self)@ == (RunView { phase: final(self)@.phase, ..old(self)@ }),
            match upload_progress(
                tasks_view(tasks@),
                old(self)@.upload.remote_file,
                old(self)@.upload.size,
                old(self)@.upload.previous,
            ) {
                ProgressView::Finished => r is Ok && final(self)@.phase == RunPhase::Finished,
                ProgressView::NoTask => r is Ok && final(self)@.phase == RunPhase::Removed,
                ProgressView::SizeMismatch => r matches Err(UploadError::SizeMismatch(p)) && p@
                    == old(self)@.upload.remote_file && final(self)@.phase == RunPhase::Failed,
                ProgressView::Failed { status, message } => r matches Err(
                    UploadError::Failed { status: s, message: m },
                ) && s == status && m@ == message && final(self)@.phase == RunPhase::Failed,
                ProgressView::Pending => if elapsed_nanos < UPLOAD_TIMEOUT_NANOS {
                    r is Ok && final(self)@.phase == RunPhase::Sleep
                } else {
                    r matches Err(UploadError::TimedOut(p)) && p@ == old(self)@.upload.remote_file
                        && final(self)@.phase == RunPhase::Failed
                },
            },
    {
        proof {
            use_type_invariant(&*self);
        }
        match self.upload.progress(tasks) {
            UploadProgress::Finished => {
                self.phase = RunPhase::Finished;
                Ok(())
            },
            UploadProgress::NoTask => {
                self.phase = RunPhase::Removed;
                Ok(())
            },
            UploadProgress::SizeMismatch => {
                self.phase = RunPhase::Failed;
                Err(UploadError::SizeMismatch(self.upload.remote_file.clone()))
            },
            UploadProgress::Failed { status, message } => {
                self.phase = RunPhase::Failed;
                Err(UploadError::Failed { status, message })
            },
            UploadProgress::Pending => {
                if within_upload_timeout(elapsed_nanos) {
                    self.phase = RunPhase::Sleep;
                    Ok(())
                } else {
                    self.phase = RunPhase::Failed;
                    Err(UploadError::TimedOut(self.upload.remote_file.clone()))
                }
            },
        }
    }

    /// The forced listing after the new task finished ([`Upload::check_listed`]): the
    /// upload is complete when it holds the file with the local size.
    pub fn on_finished_listing(&mut self, files: &Vec<CloudFile>) -> (r: Result<(), UploadError>)
        requires
            old(self)@.phase == RunPhase::Finished,
        ensures
            final(self)@ == (RunView { phase: final(self)@.phase, ..old(self)@ }),
            listed_with_size(files_view(files@), old(self)@.upload.name, old(self)@.upload.size as i64)
                ==> r is Ok && final(self)@.phase == RunPhase::Done(Completion::Finished),
            !listed_with_size(files_view(files@), old(self)@.upload.name, old(self)@.upload.size as i64)
                ==> (r matches Err(UploadError::NotListed(p)) && p@ == old(self)@.upload.remote_file
                && final(self)@.phase == RunPhase::Failed),
    {
        proof {
            use_type_invariant(&*self);
        }
        match self.upload.check_listed(files) {
            Ok(()) => {
                self.phase = RunPhase::Done(Completion::Finished);
                Ok(())
            },
            Err(e) => {
                self.phase = RunPhase::Failed;
                Err(e)
            },
        }
    }

    /// The forced listing and the local SHA1 after CD2 showed no task for the file,
    /// `elapsed_nanos` after the wait began ([`Upload::check_completed`]): the upload is
    /// complete when the listing holds a confirmed copy; otherwise the tasks are read
    /// again while time is left.
    pub fn on_removed_listing(&mut self, files: &Vec<CloudFile>, sha1: &str, elapsed_nanos: u128) -> (r:
        Result<(), UploadError>)
        requires
            old(self)@.phase == RunPhase::Removed,
        ensures
            final(self)@ == (RunView { phase: final(self)@.phase, ..old(self)@ }),
            listed_confirmed(files_view(files@), old(self)@.upload.name, old(self)@.upload.size, sha1@)
                ==> r is Ok && final(self)@.phase == RunPhase::Done(Completion::Confirmed),
            !listed_confirmed(files_view(files@), old(self)@.upload.name, old(self)@.upload.size, sha1@)
                && elapsed_nanos < UPLOAD_TIMEOUT_NANOS ==> r is Ok && final(self)@.phase
                == RunPhase::Sleep,
            !listed_confirmed(files_view(files@), old(self)@.upload.name, old(self)@.upload.size, sha1@)
                && elapsed_nanos >= UPLOAD_TIMEOUT_NANOS ==> (r matches Err(UploadError::TimedOut(p))
                && p@ == old(self)@.upload.remote_file && final(self)@.phase == RunPhase::Failed),
    {
        proof {
            use_type_invariant(&*self);
        }
        if self.upload.check_completed(files, sha1) {
            self.phase = RunPhase::Done(Completion::Confirmed);
            Ok(())
        } else if within_upload_timeout(elapsed_nanos) {
            self.phase = RunPhase::Sleep;
            Ok(())
        } else {
            self.phase = RunPhase::Failed;
            Err(UploadError::TimedOut(self.upload.remote_file.clone()))
        }
    }

    /// The wait is over: the tasks are read again.
    pub fn on_slept(&mut self)
        requires
            old(self)@.phase == RunPhase::Sleep,
        ensures
            final(self)@ == (RunView { phase: RunPhase::Poll, ..old(self)@ }),
    {
        proof {
            use_type_invariant(&*self);
        }
        self.phase = RunPhase::Poll;
    }
}


/// Splitting a remote path at its last `/`: the directory, a `/` and the file name
/// give the path back, and the file name holds no `/`; with no `/` in the path there
/// is no split.
pub proof fn lemma_rsplit_slash_rejoins(p: Seq<char>)
    ensures
        rsplit_slash(p) matches Some((a, b)) ==> a + seq!['/'] + b == p && !b.contains('/'),
        rsplit_slash(p) is None <==> !p.contains('/'),
    decreases p.len(),
{
    if p.len() > 0 {
        let q = p.drop_last();
        lemma_rsplit_slash_rejoins(q);
        if p.last() == '/' {
            assert(q + seq!['/'] + Seq::<char>::empty() =~= p);
            assert(p.contains('/')) by {
                assert(p[p.len() - 1] == '/');
            }
        } else {
            match rsplit_slash(q) {
                Some((a, b)) => {
                    assert(a + seq!['/'] + b.push(p.last()) =~= (a + seq!['/'] + b).push(p.last()));
                    assert(p =~= q.push(p.last()));
                    if b.push(p.last()).contains('/') {
                        let k = choose|k: int| 0 <= k < b.push(p.last()).len() && b.push(p.last())[k] == '/';
                        if k < b.len() {
                            assert(b[k] == '/');
                        }
                    }
                    assert(p.contains('/')) by {
                        let k = a.len() as int;
                        assert((a + seq!['/'] + b)[k] == '/');
                        assert(p[k] == q[k]);
                    }
                },
                None => {
                    if p.contains('/') {
                        let k = choose|k: int| 0 <= k < p.len() && p[k] == '/';
                        assert(k < q.len());
                        assert(q[k] == '/');
                    }
                },
            }
        }
    }
}

/// The entry a listing holds for a name is its first entry of that name, and there
/// is one exactly when the name is listed.
pub proof fn lemma_first_named_is_first(items: Seq<CloudFileView>, name: Seq<char>)
    ensures
        first_named(items, name) is Some <==> listed(items, name),
        first_named(items, name) matches Some(f) ==> exists|i: int|
            0 <= i < items.len() && #[trigger] items[i] == f && f.name == name && forall|j: int|
                0 <= j < i ==> items[j].name != name,
    decreases items.len(),
{
    if items.len() > 0 {
        let rest = items.drop_first();
        lemma_first_named_is_first(rest, name);
        if items[0].name != name {
            if listed(items, name) {
                let k = choose|k: int| 0 <= k < items.len() && #[trigger] items[k].name == name;
                assert(rest[k - 1].name == name);
            }
            if listed(rest, name) {
                let k = choose|k: int| 0 <= k < rest.len() && #[trigger] rest[k].name == name;
                assert(items[k + 1].name == name);
            }
            if let Some(f) = first_named(rest, name) {
                let i = choose|i: int|
                    0 <= i < rest.len() && #[trigger] rest[i] == f && f.name == name && forall|j: int|
                        0 <= j < i ==> rest[j].name != name;
                assert(items[i + 1] == f);
                assert forall|j: int| 0 <= j < i + 1 implies items[j].name != name by {
                    if j > 0 {
                        assert(items[j] == rest[j - 1]);
                    }
                }
            }
        } else {
            assert(items[0].name == name);
        }
    }
}

/// The keys recorded before an upload are those of the tasks on the remote file, in
/// the order of the task list.
pub proof fn lemma_keys_for_tasks_on_path(tasks: Seq<UploadTaskView>, dest: Seq<char>)
    ensures
        keys_for(tasks, dest) == tasks.filter(|t: UploadTaskView| t.dest_path == dest).map_values(
            |t: UploadTaskView| t.key,
        ),
    decreases tasks.len(),
{
    reveal(Seq::filter);
    if tasks.len() > 0 {
        lemma_keys_for_tasks_on_path(tasks.drop_last(), dest);
    }
    let f = tasks.filter(|t: UploadTaskView| t.dest_path == dest);
    if tasks.len() > 0 {
        let g = tasks.drop_last().filter(|t: UploadTaskView| t.dest_path == dest);
        if tasks.last().dest_path == dest {
            assert(f.map_values(|t: UploadTaskView| t.key) =~= g.map_values(|t: UploadTaskView| t.key).push(tasks.last().key));
        } else {
            assert(f.map_values(|t: UploadTaskView| t.key) =~= g.map_values(|t: UploadTaskView| t.key));
        }
    } else {
        assert(f.map_values(|t: UploadTaskView| t.key) =~= Seq::<Seq<char>>::empty());
    }
}

/// Two hashes in hexadecimal match when they have the same length and, position by
/// position, the same character or the same hexadecimal digit in upper and lower
/// case (`A` to `F` against `a` to `f`).
pub proof fn lemma_same_hash_ignores_digit_case(a: Seq<char>, b: Seq<char>)
    ensures
        same_hash(a, b) <==> a.len() == b.len() && forall|i: int|
            0 <= i < a.len() ==> {
                let (c, d) = (#[trigger] a[i], b[i]);
                ||| c == d
                ||| (65 <= c as int <= 70 && d as int == c as int + 32)
                ||| (65 <= d as int <= 70 && c as int == d as int + 32)
            },
{
    assert forall|c: char, d: char| #[trigger] hash_fold(c) == #[trigger] hash_fold(d) <==> {
        ||| c == d
        ||| (65 <= c as int <= 70 && d as int == c as int + 32)
        ||| (65 <= d as int <= 70 && c as int == d as int + 32)
    } by {
        assert('A' as int == 65 && 'B' as int == 66 && 'C' as int == 67 && 'D' as int == 68);
        assert('E' as int == 69 && 'F' as int == 70 && 'a' as int == 97 && 'b' as int == 98);
        assert('c' as int == 99 && 'd' as int == 100 && 'e' as int == 101 && 'f' as int == 102);
    }
    if a.len() == b.len() {
        assert forall|i: int| 0 <= i < a.len() implies (hash_fold(a[i]) == hash_fold(b[i]) <==> {
            ||| a[i] == b[i]
            ||| (65 <= a[i] as int <= 70 && b[i] as int == a[i] as int + 32)
            ||| (65 <= b[i] as int <= 70 && a[i] as int == b[i] as int + 32)
        }) by {}
    }
}

/// A listed entry is a confirmed copy of a local video exactly when the video is not
/// empty and the entry has a cloud ID, the video's size and a non-empty SHA1 that
/// matches the video's.
pub proof fn lemma_confirmed_copy_fields(f: CloudFileView, size: u64, sha1: Seq<char>)
    ensures
        confirmed_copy(f, size, sha1) <==> size > 0 && f.id.len() > 0 && f.size as int == size as int
            && f.sha1 is Some && f.sha1.unwrap().len() > 0 && same_hash(f.sha1.unwrap(), sha1),
{
}

} // verus!
