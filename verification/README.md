# bili_sync (verified core)

The logic of bili-sync's split storage, written in Verus and proved against its
contracts:

- `storage`: the metadata and video roots and the mapping between a metadata path
  and its video path (same components below either root).
- `cd2`: the CloudDrive2 configuration checks, the remote path of a video and the
  address and headers of an API method; `upload`: the decisions of an upload
  (directory creation level by level, reusing an existing cloud file only when its
  cloud ID, size and SHA1 match the local video and no upload task is on its path,
  chunk accounting and the order of write and close, following the upload task, and
  judging a removed task complete by the same check), with `UploadRun` stepping
  through them in order (the next action for each phase, and the phase each result
  leads to); `checksum`: the SHA1 of the local video through the `sha1` crate;
  `grpc_web`: request framing and response decoding.
- `media_index`: the MediaIndex completion webhook settings, its body, when the
  marker file may be removed, and where it lies.
- `notifier`: notifier settings and what Telegram, webhook and e-mail notifiers send,
  including the payload template and the SMTP transport they use.
- `path`, `text`: Unix path components and the text helpers they rest on.
- `web`: the calls into `reqwest` (URL parsing and joining, header validity).

`app/` holds the I/O: environment, files, HTTP, SMTP and the asynchronous loops
that feed these decisions.
