//! gRPC-Web framing: the request body sent to CloudDrive2 and the decoding of its
//! response body into message payloads and a status trailer.
use vstd::prelude::*;

use crate::text::{ascii_lower, eq_ignore_ascii_case, to_ascii_lower, trim_bytes, trim_bytes_bounds};

verus! {

/// The largest response body that is decoded (32 MiB).
pub const MAX_RESPONSE_BYTES: usize = 33554432;

/// Why a gRPC-Web response body was refused.
#[derive(Debug, PartialEq, Eq)]
pub enum FrameError {
    /// The body is larger than [`MAX_RESPONSE_BYTES`].
    TooLarge,
    /// A frame header announces more payload bytes than remain.
    Incomplete,
    /// A message frame is flagged as compressed (or carries an unknown flag).
    Compressed,
    /// Between one and four bytes remain after the last complete frame.
    TruncatedTail,
    /// No trailer frame carries the call's status.
    MissingStatus,
    /// The trailer does not report status 0; it holds the raw trailer text.
    Status(Vec<u8>),
}

/// The specification-level form of a [`FrameError`].
pub enum FrameFailure {
    TooLarge,
    Incomplete,
    Compressed,
    TruncatedTail,
    MissingStatus,
    Status(Seq<u8>),
}

impl View for FrameError {
    type V = FrameFailure;

    open spec fn view(&self) -> FrameFailure {
        match self {
            FrameError::TooLarge => FrameFailure::TooLarge,
            FrameError::Incomplete => FrameFailure::Incomplete,
            FrameError::Compressed => FrameFailure::Compressed,
            FrameError::TruncatedTail => FrameFailure::TruncatedTail,
            FrameError::MissingStatus => FrameFailure::MissingStatus,
            FrameError::Status(t) => FrameFailure::Status(t@),
        }
    }
}

/// The big-endian 32-bit number in four bytes.
pub open spec fn be_u32(b0: u8, b1: u8, b2: u8, b3: u8) -> int {
    b0 * 0x100_0000 + b1 * 0x1_0000 + b2 * 0x100 + b3
}

/// The four big-endian bytes of `n`.
pub open spec fn be_bytes(n: u32) -> Seq<u8> {
    seq![(n / 0x100_0000) as u8, ((n / 0x1_0000) % 0x100) as u8, ((n / 0x100) % 0x100) as u8, (n % 0x100) as u8]
}

/// A frame: a flag byte, the payload length as four big-endian bytes, then the payload.
/// The length is taken modulo 2^32, as a `u32` holds it.
pub open spec fn frame(flag: u8, payload: Seq<u8>) -> Seq<u8> {
    seq![flag] + be_bytes(payload.len() as u32) + payload
}

/// The result of reading frames from `s`: the message payloads in order and the
/// payload of the last trailer frame, or the first fault met.
pub open spec fn scan_frames(s: Seq<u8>) -> Result<(Seq<Seq<u8>>, Option<Seq<u8>>), FrameFailure>
    decreases s.len(),
{
    if s.len() == 0 {
        Ok((seq![], None))
    } else if s.len() < 5 {
        Err(FrameFailure::TruncatedTail)
    } else {
        let n = be_u32(s[1], s[2], s[3], s[4]);
        if n > s.len() - 5 {
            Err(FrameFailure::Incomplete)
        } else {
            let payload = s.subrange(5, 5 + n);
            let rest = s.skip(5 + n);
            if s[0] >= 0x80 {
                match scan_frames(rest) {
                    Err(e) => Err(e),
                    Ok((m, t)) => Ok((m, if t is Some { t } else { Some(payload) })),
                }
            } else if s[0] != 0 {
                Err(FrameFailure::Compressed)
            } else {
                match scan_frames(rest) {
                    Err(e) => Err(e),
                    Ok((m, t)) => Ok((seq![payload] + m, t)),
                }
            }
        }
    }
}

/// The text `grpc-status: 0`.
pub open spec fn status_ok_text() -> Seq<u8> {
    seq![103u8, 114, 112, 99, 45, 115, 116, 97, 116, 117, 115, 58, 32, 48]
}

/// `t[i..j]` is one line of `t`: it is bounded by line feeds or the ends of `t`
/// and holds no line feed.
pub open spec fn is_line(t: Seq<u8>, i: int, j: int) -> bool {
    &&& 0 <= i <= j <= t.len()
    &&& i == 0 || t[i - 1] == 10
    &&& j == t.len() || t[j] == 10
    &&& forall|k: int| i <= k < j ==> t[k] != 10
}

/// A line of `t` reads `grpc-status: 0`, ignoring surrounding white space and ASCII case.
pub open spec fn reports_success(t: Seq<u8>) -> bool {
    exists|i: int, j: int|
        is_line(t, i, j) && #[trigger] eq_ignore_ascii_case(
            trim_bytes(t.subrange(i, j)),
            status_ok_text(),
        )
}

/// What decoding the response body `s` gives: the message payloads when the frames
/// are well formed and the last trailer reports success.
pub open spec fn decoded(s: Seq<u8>) -> Result<Seq<Seq<u8>>, FrameFailure> {
    match scan_frames(s) {
        Err(e) => Err(e),
        Ok((m, None)) => Err(FrameFailure::MissingStatus),
        Ok((m, Some(t))) => if reports_success(t) {
            Ok(m)
        } else {
            Err(FrameFailure::Status(t))
        },
    }
}

/// `scan_frames` of a body whose first frames gave `acc` and the trailer `tr`,
/// given `r`, the scan of the remaining bytes.
pub open spec fn scan_after(
    acc: Seq<Seq<u8>>,
    tr: Option<Seq<u8>>,
    r: Result<(Seq<Seq<u8>>, Option<Seq<u8>>), FrameFailure>,
) -> Result<(Seq<Seq<u8>>, Option<Seq<u8>>), FrameFailure> {
    match r {
        Err(e) => Err(e),
        Ok((m, t)) => Ok((acc + m, if t is Some { t } else { tr })),
    }
}

/// A copy of `s[a..b]`.
fn copy_range(s: &[u8], a: usize, b: usize) -> (r: Vec<u8>)
    requires
        a <= b <= s.len(),
    ensures
        r@ == s@.subrange(a as int, b as int),
{
    let mut r: Vec<u8> = Vec::new();
    let mut i = a;
    while i < b
        invariant
            a <= i <= b <= s.len(),
            r@ == s@.subrange(a as int, i as int),
        decreases b - i,
    {
        r.push(s[i]);
        i = i + 1;
        assert(r@ =~= s@.subrange(a as int, i as int));
    }
    r
}

/// Whether the line `t[start..end]` reads `grpc-status: 0` up to white space and ASCII case.
fn line_reports_success(t: &[u8], start: usize, end: usize) -> (r: bool)
    requires
        start <= end <= t.len(),
    ensures
        r == eq_ignore_ascii_case(trim_bytes(t@.subrange(start as int, end as int)), status_ok_text()),
{
    let (a, b) = trim_bytes_bounds(t, start, end);
    let expected: [u8; 14] = [103, 114, 112, 99, 45, 115, 116, 97, 116, 117, 115, 58, 32, 48];
    assert(expected@ =~= status_ok_text());
    if b - a != 14 {
        return false;
    }
    let mut k: usize = 0;
    while k < 14
        invariant
            start <= a <= b <= end <= t.len(),
            t@.subrange(a as int, b as int) == trim_bytes(t@.subrange(start as int, end as int)),
            b - a == 14,
            expected@ == status_ok_text(),
            k <= 14,
            forall|i: int| 0 <= i < k ==> ascii_lower(t@[a + i]) == ascii_lower(expected@[i]),
        decreases 14 - k,
    {
        if to_ascii_lower(t[a + k]) != to_ascii_lower(expected[k]) {
            let ghost line = t@.subrange(a as int, b as int);
            assert(line[k as int] == t@[a + k]);
            assert(ascii_lower(line[k as int]) != ascii_lower(status_ok_text()[k as int]));
            return false;
        }
        k = k + 1;
    }
    let ghost line = t@.subrange(a as int, b as int);
    assert forall|i: int| 0 <= i < line.len() implies ascii_lower(#[trigger] line[i])
        == ascii_lower(status_ok_text()[i]) by {
        assert(line[i] == t@[a + i]);
    }
    true
}

/// Whether the trailer text `t` holds a line reporting status 0.
pub fn trailer_reports_success(t: &[u8]) -> (r: bool)
    ensures
        r == reports_success(t@),
{
    let n = t.len();
    let mut start: usize = 0;
    while start <= n
        invariant
            n == t.len(),
            start <= n + 1,
            start == 0 || (start <= n && t@[start - 1] == 10) || start == n + 1,
            forall|i: int, j: int|
                is_line(t@, i, j) && i < start ==> !eq_ignore_ascii_case(
                    trim_bytes(t@.subrange(i, j)),
                    status_ok_text(),
                ),
        decreases n + 1 - start,
    {
        let mut end = start;
        while end < n && t[end] != 10
            invariant
                start <= end <= n == t.len(),
                forall|k: int| start <= k < end ==> t@[k] != 10,
            decreases n - end,
        {
            end = end + 1;
        }
        assert(is_line(t@, start as int, end as int));
        if line_reports_success(t, start, end) {
            return true;
        }
        assert forall|i: int, j: int|
            is_line(t@, i, j) && i < end + 1 implies !eq_ignore_ascii_case(
            trim_bytes(#[trigger] t@.subrange(i, j)),
            status_ok_text(),
        ) by {
            if i >= start {
                if i > start {
                    assert(t@[i - 1] == 10);
                }
                assert(i == start);
                if j < end {
                    assert(t@[j] == 10);
                }
                if j > end {
                    assert(t@[end as int] == 10);
                }
                assert(j == end);
            }
        }
        if end == n {
            assert forall|i: int, j: int| is_line(t@, i, j) implies !eq_ignore_ascii_case(
                trim_bytes(#[trigger] t@.subrange(i, j)),
                status_ok_text(),
            ) by {
                assert(i < end + 1);
            }
            return false;
        }
        start = end + 1;
    }
    false
}


/// The specification view of an optional byte buffer.
pub open spec fn opt_bytes(o: Option<Vec<u8>>) -> Option<Seq<u8>> {
    match o {
        Some(v) => Some(v@),
        None => None,
    }
}

/// Decodes a gRPC-Web response body into its message payloads, in order. The frames
/// must be complete and uncompressed, and the last trailer frame must hold a line
/// `grpc-status: 0`.
pub fn decode_frames(bytes: &[u8]) -> (r: Result<Vec<Vec<u8>>, FrameError>)
    ensures
        match decoded(bytes@) {
            Ok(m) => r matches Ok(v) && v.deep_view() == m,
            Err(e) => r matches Err(x) && x@ == e,
        },
{
    let mut offset: usize = 0;
    let mut values: Vec<Vec<u8>> = Vec::new();
    let mut trailer: Option<Vec<u8>> = None;
    assert(bytes@.skip(0) =~= bytes@);
    proof {
        if let Ok((m, t)) = scan_frames(bytes@) {
            assert(values.deep_view() + m =~= m);
        }
    }
    while bytes.len() - offset >= 5
        invariant
            offset <= bytes.len(),
            scan_frames(bytes@) == scan_after(
                values.deep_view(),
                opt_bytes(trailer),
                scan_frames(bytes@.skip(offset as int)),
            ),
        decreases bytes.len() - offset,
    {
        let ghost rest = bytes@.skip(offset as int);
        let flag = bytes[offset];
        let length64: u64 = (bytes[offset + 1] as u64) * 0x100_0000 + (bytes[offset + 2] as u64)
            * 0x1_0000 + (bytes[offset + 3] as u64) * 0x100 + (bytes[offset + 4] as u64);
        assert(length64 == be_u32(rest[1], rest[2], rest[3], rest[4]));
        if length64 > (bytes.len() - offset - 5) as u64 {
            return Err(FrameError::Incomplete);
        }
        let length = length64 as usize;
        let start = offset + 5;
        let payload = copy_range(bytes, start, start + length);
        assert(rest.subrange(5, 5 + length) =~= payload@);
        assert(payload.deep_view() =~= payload@);
        assert(rest.skip(5 + length) =~= bytes@.skip(start + length));
        offset = start + length;
        if flag >= 0x80 {
            trailer = Some(payload);
        } else {
            if flag != 0 {
                return Err(FrameError::Compressed);
            }
            let ghost before = values.deep_view();
            values.push(payload);
            assert(values.deep_view() =~= before.push(payload.deep_view()));
            proof {
                if let Ok((m, t)) = scan_frames(bytes@.skip(offset as int)) {
                    assert(before + (seq![payload@] + m) =~= values.deep_view() + m);
                }
            }
        }
    }
    if offset != bytes.len() {
        return Err(FrameError::TruncatedTail);
    }
    assert(bytes@.skip(offset as int) =~= Seq::<u8>::empty());
    assert(values.deep_view() + Seq::<Seq<u8>>::empty() =~= values.deep_view());
    match trailer {
        None => Err(FrameError::MissingStatus),
        Some(t) => {
            if trailer_reports_success(t.as_slice()) {
                Ok(values)
            } else {
                Err(FrameError::Status(t))
            }
        },
    }
}

/// Decodes a response body of at most [`MAX_RESPONSE_BYTES`] bytes with [`decode_frames`].
pub fn response_messages(body: &[u8]) -> (r: Result<Vec<Vec<u8>>, FrameError>)
    ensures
        body.len() > MAX_RESPONSE_BYTES ==> r matches Err(FrameError::TooLarge),
        body.len() <= MAX_RESPONSE_BYTES ==> match decoded(body@) {
            Ok(m) => r matches Ok(v) && v.deep_view() == m,
            Err(e) => r matches Err(x) && x@ == e,
        },
{
    if body.len() > MAX_RESPONSE_BYTES {
        return Err(FrameError::TooLarge);
    }
    decode_frames(body)
}

/// The only message of a unary call's response: `Some` exactly when there is one message.
pub fn single_message(messages: Vec<Vec<u8>>) -> (r: Option<Vec<u8>>)
    ensures
        messages.len() == 1 <==> r is Some,
        r matches Some(m) ==> m@ == messages@[0]@,
{
    let mut messages = messages;
    if messages.len() == 1 {
        messages.pop()
    } else {
        None
    }
}

/// The four big-endian bytes of `n`.
fn push_be_u32(out: &mut Vec<u8>, n: u32)
    ensures
        final(out)@ == old(out)@ + be_bytes(n),
{
    out.push((n / 0x100_0000) as u8);
    out.push(((n / 0x1_0000) % 0x100) as u8);
    out.push(((n / 0x100) % 0x100) as u8);
    out.push((n % 0x100) as u8);
    assert(final(out)@ =~= old(out)@ + be_bytes(n));
}

/// The gRPC-Web request body for an encoded message: one uncompressed message frame.
/// As the wire format holds a 32-bit length, a longer message's length is taken modulo 2^32.
pub fn frame_message(encoded: &[u8]) -> (r: Vec<u8>)
    ensures
        r@ == frame(0, encoded@),
{
    let mut out: Vec<u8> = Vec::new();
    out.push(0u8);
    push_be_u32(&mut out, encoded.len() as u32);
    let ghost head = out@;
    let mut i: usize = 0;
    while i < encoded.len()
        invariant
            i <= encoded.len(),
            out@ == head + encoded@.subrange(0, i as int),
        decreases encoded.len() - i,
    {
        out.push(encoded[i]);
        i = i + 1;
        assert(out@ =~= head + encoded@.subrange(0, i as int));
    }
    assert(encoded@.subrange(0, encoded.len() as int) =~= encoded@);
    assert(out@ =~= frame(0, encoded@));
    out
}

/// The frames of the messages `ms`, one after another.
pub open spec fn message_frames(ms: Seq<Seq<u8>>) -> Seq<u8>
    decreases ms.len(),
{
    if ms.len() == 0 {
        seq![]
    } else {
        frame(0, ms[0]) + message_frames(ms.drop_first())
    }
}

proof fn lemma_be_roundtrip(n: u32)
    ensures
        be_u32(be_bytes(n)[0], be_bytes(n)[1], be_bytes(n)[2], be_bytes(n)[3]) == n,
{
    let b = be_bytes(n);
    assert(b[0] == n / 0x100_0000);
    assert(b[1] == (n / 0x1_0000) % 0x100);
    assert(b[2] == (n / 0x100) % 0x100);
    assert(b[3] == n % 0x100);
    assert((n / 0x100_0000) * 0x100_0000 + ((n / 0x1_0000) % 0x100) * 0x1_0000 + ((n / 0x100)
        % 0x100) * 0x100 + n % 0x100 == n) by (nonlinear_arith);
}

/// Reading a frame whose length fits in 32 bits gives back its payload and leaves
/// exactly the bytes that follow it.
proof fn lemma_scan_frame(flag: u8, p: Seq<u8>, rest: Seq<u8>)
    requires
        p.len() <= u32::MAX,
    ensures
        ({
            let s = frame(flag, p) + rest;
            &&& s.len() >= 5
            &&& be_u32(s[1], s[2], s[3], s[4]) == p.len()
            &&& s.subrange(5, 5 + p.len() as int) == p
            &&& s.skip(5 + p.len() as int) == rest
            &&& s[0] == flag
        }),
{
    let s = frame(flag, p) + rest;
    lemma_be_roundtrip(p.len() as u32);
    assert(s[1] == be_bytes(p.len() as u32)[0]);
    assert(s[2] == be_bytes(p.len() as u32)[1]);
    assert(s[3] == be_bytes(p.len() as u32)[2]);
    assert(s[4] == be_bytes(p.len() as u32)[3]);
    assert(s.subrange(5, 5 + p.len() as int) =~= p);
    assert(s.skip(5 + p.len() as int) =~= rest);
}

proof fn lemma_scan_messages(ms: Seq<Seq<u8>>, rest: Seq<u8>)
    requires
        forall|i: int| 0 <= i < ms.len() ==> #[trigger] ms[i].len() <= u32::MAX,
    ensures
        scan_frames(message_frames(ms) + rest) == scan_after(ms, None, scan_frames(rest)),
    decreases ms.len(),
{
    if ms.len() == 0 {
        assert(message_frames(ms) + rest =~= rest);
        if let Ok((m, t)) = scan_frames(rest) {
            assert(ms + m =~= m);
        }
    } else {
        let tail = ms.drop_first();
        assert(ms[0].len() <= u32::MAX);
        lemma_scan_messages(tail, rest);
        let s = message_frames(ms) + rest;
        assert(s =~= frame(0, ms[0]) + (message_frames(tail) + rest));
        lemma_scan_frame(0, ms[0], message_frames(tail) + rest);
        if let Ok((m, t)) = scan_frames(rest) {
            assert(seq![ms[0]] + (tail + m) =~= ms + m);
        }
    }
}

/// Decoding reverses framing: the body made of the frames of `ms` followed by a
/// trailer frame that reports success decodes to `ms`.
pub proof fn lemma_decode_framed(ms: Seq<Seq<u8>>, trailer: Seq<u8>)
    requires
        forall|i: int| 0 <= i < ms.len() ==> #[trigger] ms[i].len() <= u32::MAX,
        trailer.len() <= u32::MAX,
        reports_success(trailer),
    ensures
        decoded(message_frames(ms) + frame(0x80, trailer)) == Ok::<_, FrameFailure>(ms),
{
    let tf = frame(0x80, trailer);
    let empty = Seq::<u8>::empty();
    assert(tf + empty =~= tf);
    lemma_scan_frame(0x80, trailer, empty);
    assert(tf.skip(5 + trailer.len() as int) =~= empty);
    assert(scan_frames(empty) == Ok::<_, FrameFailure>((Seq::<Seq<u8>>::empty(), None::<Seq<u8>>)));
    assert(scan_frames(tf) == Ok::<_, FrameFailure>((Seq::<Seq<u8>>::empty(), Some(trailer))));
    lemma_scan_messages(ms, tf);
    assert(ms + Seq::<Seq<u8>>::empty() =~= ms);
    assert(scan_frames(message_frames(ms) + tf) == Ok::<_, FrameFailure>((ms, Some(trailer))));
}


/// What a body of message frames gives, by its ending: with a trailer frame, the
/// messages when the trailer reports success and the trailer as the error otherwise;
/// with no trailer, a missing status. A frame flagged as neither a plain message nor
/// a trailer (1 to 0x7f, a compressed message) makes the body refused whatever follows.
pub proof fn lemma_decode_outcomes(ms: Seq<Seq<u8>>, trailer: Seq<u8>, flag: u8, p: Seq<u8>, rest: Seq<u8>)
    requires
        forall|i: int| 0 <= i < ms.len() ==> #[trigger] ms[i].len() <= u32::MAX,
        trailer.len() <= u32::MAX,
        p.len() <= u32::MAX,
    ensures
        reports_success(trailer) ==> decoded(message_frames(ms) + frame(0x80, trailer)) == Ok::<
            _,
            FrameFailure,
        >(ms),
        !reports_success(trailer) ==> decoded(message_frames(ms) + frame(0x80, trailer)) == Err::<
            Seq<Seq<u8>>,
            _,
        >(FrameFailure::Status(trailer)),
        decoded(message_frames(ms)) == Err::<Seq<Seq<u8>>, _>(FrameFailure::MissingStatus),
        0 < flag < 0x80 ==> decoded(message_frames(ms) + frame(flag, p) + rest) == Err::<
            Seq<Seq<u8>>,
            _,
        >(FrameFailure::Compressed),
{
    let tf = frame(0x80, trailer);
    let empty = Seq::<u8>::empty();
    assert(tf + empty =~= tf);
    lemma_scan_frame(0x80, trailer, empty);
    assert(tf.skip(5 + trailer.len() as int) =~= empty);
    assert(scan_frames(empty) == Ok::<_, FrameFailure>((Seq::<Seq<u8>>::empty(), None::<Seq<u8>>)));
    assert(scan_frames(tf) == Ok::<_, FrameFailure>((Seq::<Seq<u8>>::empty(), Some(trailer))));
    lemma_scan_messages(ms, tf);
    assert(ms + Seq::<Seq<u8>>::empty() =~= ms);
    assert(scan_frames(message_frames(ms) + tf) == Ok::<_, FrameFailure>((ms, Some(trailer))));
    lemma_scan_messages(ms, empty);
    assert(message_frames(ms) + empty =~= message_frames(ms));
    let cf = frame(flag, p) + rest;
    lemma_scan_frame(flag, p, rest);
    lemma_scan_messages(ms, cf);
    assert(message_frames(ms) + frame(flag, p) + rest =~= message_frames(ms) + cf);
}

} // verus!
