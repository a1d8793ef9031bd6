use bili_sync::grpc_web::{
    decode_frames, frame_message, response_messages, single_message, trailer_reports_success,
    FrameError, MAX_RESPONSE_BYTES,
};

fn trailer(text: &[u8]) -> Vec<u8> {
    let mut frame = vec![0x80, 0, 0, 0, text.len() as u8];
    frame.extend_from_slice(text);
    frame
}

#[test]
fn requires_success_trailer() {
    let mut frame = vec![0x80, 0, 0, 0, 16];
    frame.extend_from_slice(b"grpc-status: 0\r\n");
    assert!(decode_frames(&frame).unwrap().is_empty());
    assert!(decode_frames(&[]).is_err());
}

#[test]
fn framed_messages_decode_back() {
    let mut body = frame_message(b"abc");
    body.extend(frame_message(b""));
    body.extend(frame_message(&[7u8; 300]));
    body.extend(trailer(b"grpc-status: 0\r\ngrpc-message: \r\n"));
    let msgs = decode_frames(&body).unwrap();
    assert_eq!(msgs, vec![b"abc".to_vec(), vec![], vec![7u8; 300]]);
}

#[test]
fn frame_header_is_big_endian_length() {
    assert_eq!(frame_message(&[1, 2]), vec![0, 0, 0, 0, 2, 1, 2]);
    let big = frame_message(&vec![0u8; 0x01_02_03]);
    assert_eq!(&big[..5], &[0, 0, 0x01, 0x02, 0x03]);
}

#[test]
fn frame_errors() {
    assert_eq!(decode_frames(&[]).unwrap_err(), FrameError::MissingStatus);
    assert_eq!(decode_frames(&[0, 0, 0, 0, 9, 1]).unwrap_err(), FrameError::Incomplete);
    assert_eq!(decode_frames(&[1, 0, 0, 0, 0]).unwrap_err(), FrameError::Compressed);
    assert_eq!(decode_frames(&[0, 0, 0, 0, 0, 0x80]).unwrap_err(), FrameError::TruncatedTail);
    let bad = trailer(b"grpc-status: 5\r\n");
    assert_eq!(
        decode_frames(&bad).unwrap_err(),
        FrameError::Status(b"grpc-status: 5\r\n".to_vec())
    );
    assert_eq!(
        response_messages(&vec![0u8; MAX_RESPONSE_BYTES + 1]).unwrap_err(),
        FrameError::TooLarge
    );
}

#[test]
fn last_trailer_decides() {
    let mut body = trailer(b"grpc-status: 0");
    body.extend(trailer(b"grpc-status: 13"));
    assert!(matches!(decode_frames(&body), Err(FrameError::Status(_))));
    let mut body = trailer(b"grpc-status: 13");
    body.extend(trailer(b"grpc-status: 0"));
    assert!(decode_frames(&body).unwrap().is_empty());
}

#[test]
fn status_line_ignores_case_and_white_space() {
    assert!(trailer_reports_success(b"GRPC-Status: 0"));
    assert!(trailer_reports_success(b"x: y\n \t grpc-status: 0 \r\nz"));
    assert!(trailer_reports_success("\u{3000}grpc-status: 0\u{a0}".as_bytes()));
    assert!(!trailer_reports_success(b"grpc-status: 00"));
    assert!(!trailer_reports_success(b"grpc-status:0"));
    assert!(!trailer_reports_success(b"\xffgrpc-status: 0"));
    assert!(!trailer_reports_success(b""));
}

#[test]
fn unary_call_takes_one_message() {
    assert_eq!(single_message(vec![vec![1]]), Some(vec![1]));
    assert_eq!(single_message(vec![]), None);
    assert_eq!(single_message(vec![vec![1], vec![2]]), None);
}
