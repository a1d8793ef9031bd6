//! The SHA1 of a local video, fed to the `sha1` crate's hasher chunk by chunk.
use vstd::prelude::*;

use crate::upload::UploadError;

verus! {

/// A `sha1::Sha1` hasher. Verus cannot declare its type (`CoreWrapper<Sha1Core>`, whose
/// bounds go through `typenum`), so the hasher is held here, out of Verus's sight.
#[verifier::external_body]
pub struct Sha1Stream {
    hasher: sha1::Sha1,
}

/// The bytes fed to a hasher so far.
pub uninterp spec fn sha1_fed(s: Sha1Stream) -> Seq<u8>;

/// The SHA1 of `data`, as the `sha1` crate computes it, in lower-case hexadecimal
/// (`{:x}` of the digest).
pub uninterp spec fn sha1_hex(data: Seq<u8>) -> Seq<char>;

/// Calls `sha1::Sha1::new()` (`Digest::new`). Claims that the hasher has been fed
/// nothing.
#[verifier::external_body]
fn stream_new() -> (s: Sha1Stream)
    ensures
        sha1_fed(s) == Seq::<u8>::empty(),
{
    Sha1Stream { hasher: <sha1::Sha1 as sha1::Digest>::new() }
}

/// Calls `Digest::update` with `data`. Claims that `data` is appended to the bytes fed.
#[verifier::external_body]
fn stream_update(s: &mut Sha1Stream, data: &[u8])
    ensures
        sha1_fed(*final(s)) == sha1_fed(*old(s)) + data@,
{
    sha1::Digest::update(&mut s.hasher, data)
}

/// Calls `Digest::finalize` and writes the digest with `{:x}`. Claims only that the
/// result is [`sha1_hex`] of the bytes fed.
#[verifier::external_body]
fn stream_hex(s: Sha1Stream) -> (r: String)
    ensures
        r@ == sha1_hex(sha1_fed(s)),
{
    format!("{:x}", sha1::Digest::finalize(s.hasher))
}

/// The SHA1 of a local video of known size, read in chunks.
pub struct FileSha1 {
    stream: Sha1Stream,
    size: u64,
    read: u64,
}

impl FileSha1 {
    /// The bytes read so far.
    pub closed spec fn fed(&self) -> Seq<u8> {
        sha1_fed(self.stream)
    }

    /// The size the video should have.
    pub closed spec fn size_spec(&self) -> u64 {
        self.size
    }

    #[verifier::type_invariant]
    spec fn counted(self) -> bool {
        self.read == sha1_fed(self.stream).len()
    }

    /// Starts hashing a video of `size` bytes.
    pub fn new(size: u64) -> (r: FileSha1)
        ensures
            r.fed() == Seq::<u8>::empty(),
            r.size_spec() == size,
    {
        FileSha1 { stream: stream_new(), size, read: 0 }
    }

    /// The number of bytes read so far.
    pub fn read(&self) -> (r: u64)
        ensures
            r == self.fed().len(),
    {
        proof {
            use_type_invariant(self);
        }
        self.read
    }

    /// Feeds the next chunk of the file.
    pub fn feed(self, chunk: &[u8]) -> (r: FileSha1)
        requires
            self.fed().len() + chunk@.len() <= u64::MAX,
        ensures
            r.fed() == self.fed() + chunk@,
            r.size_spec() == self.size_spec(),
    {
        proof {
            use_type_invariant(&self);
        }
        let FileSha1 { mut stream, size, read } = self;
        let n = read + chunk.len() as u64;
        stream_update(&mut stream, chunk);
        FileSha1 { stream, size, read: n }
    }

    /// The SHA1 in hexadecimal once the whole file was read: refused when the bytes
    /// read are not as many as the video's size (it changed while it was read).
    pub fn finish(self) -> (r: Result<String, UploadError>)
        ensures
            self.fed().len() == self.size_spec() ==> (r matches Ok(h) && h@ == sha1_hex(
                self.fed(),
            )),
            self.fed().len() != self.size_spec() ==> r matches Err(UploadError::SizeChanged),
    {
        proof {
            use_type_invariant(&self);
        }
        if self.read != self.size {
            return Err(UploadError::SizeChanged);
        }
        Ok(stream_hex(self.stream))
    }
}

} // verus!
