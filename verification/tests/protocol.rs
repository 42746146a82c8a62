use micro_sandbox_native::protocol::{
    FrameReader,
    MAX_FRAME_BYTES, PROTOCOL_VERSION, bounded_json, bounded_text, check_frame_size,
    frame_response, read_frame_chunk, validate_request_header,
};

#[test]
fn accepts_frames_up_to_one_mebibyte() {
    assert!(check_frame_size(MAX_FRAME_BYTES).is_ok());
    let error = check_frame_size(MAX_FRAME_BYTES + 1).unwrap_err();
    assert_eq!(error.code(), "PROTOCOL_ERROR");
    assert_eq!(error.describe(), "protocol error: frame exceeds 1 MiB");
}

#[test]
fn serves_only_its_own_version_and_named_requests() {
    assert!(validate_request_header(PROTOCOL_VERSION, "health").is_ok());
    let error = validate_request_header(2, "health").unwrap_err();
    assert_eq!(error.code(), "PROTOCOL_ERROR");
    assert_eq!(error.describe(), "protocol error: unsupported version 2");
    let error = validate_request_header(1, "").unwrap_err();
    assert_eq!(error.describe(), "protocol error: request type is empty");
}

#[test]
fn frames_a_response_with_one_newline() {
    let framed = frame_response(b"{\"ok\":true}".to_vec()).unwrap();
    assert_eq!(framed, b"{\"ok\":true}\n");
    let oversized = frame_response(vec![b'x'; MAX_FRAME_BYTES + 1]).unwrap_err();
    assert_eq!(oversized.describe(), "protocol error: response exceeds 1 MiB");
    assert_eq!(frame_response(vec![b'x'; MAX_FRAME_BYTES]).unwrap().len(), MAX_FRAME_BYTES + 1);
}

#[test]
fn bounds_a_launcher_result() {
    assert_eq!(bounded_json(b"{}").unwrap(), b"{}");
    assert!(bounded_json(&vec![0; MAX_FRAME_BYTES + 1]).is_err());
}

#[test]
fn keeps_the_trimmed_tail_of_diagnostics() {
    assert_eq!(bounded_text(b"  launch failed\n"), "launch failed");
    assert_eq!(bounded_text(&[0xff, b'a']), "\u{fffd}a");
    let mut long = vec![b'a'; 70 * 1024];
    long.extend_from_slice(b"END");
    let text = bounded_text(&long);
    assert_eq!(text.len(), 64 * 1024);
    assert!(text.ends_with("END"));
}

#[test]
fn assembles_a_frame_across_chunks() {
    let mut frame = Vec::new();
    let first = read_frame_chunk(&mut frame, b"{\"a\":").unwrap();
    assert_eq!(first.consumed, 5);
    assert!(!first.complete);
    let second = read_frame_chunk(&mut frame, b"1}\n{\"b\":2}").unwrap();
    assert_eq!(second.consumed, 3);
    assert!(second.complete);
    assert_eq!(frame, b"{\"a\":1}");
}

#[test]
fn refuses_a_frame_that_grows_beyond_the_bound() {
    let mut frame = vec![b'x'; MAX_FRAME_BYTES - 2];
    assert!(read_frame_chunk(&mut frame, b"ab\n").is_ok());
    let mut frame = vec![b'x'; MAX_FRAME_BYTES - 2];
    let error = read_frame_chunk(&mut frame, b"abc").unwrap_err();
    assert_eq!(error.describe(), "protocol error: frame exceeds 1 MiB");
    assert_eq!(frame.len(), MAX_FRAME_BYTES - 2);
}

#[test]
fn a_framed_body_reads_back_whole() {
    let body = b"{\"version\":1,\"id\":9,\"ok\":true}".to_vec();
    let framed = frame_response(body.clone()).unwrap();
    let mut frame = Vec::new();
    let progress = read_frame_chunk(&mut frame, &framed).unwrap();
    assert!(progress.complete);
    assert_eq!(progress.consumed, framed.len());
    assert_eq!(frame, body);
}

#[test]
fn frames_come_back_whatever_the_chunking() {
    let mut reader = FrameReader::new();
    let mut frames: Vec<Vec<u8>> = Vec::new();
    for chunk in [&b"a"[..], b"b\nc", b"\n\nd"] {
        let mut rest = chunk;
        while !rest.is_empty() {
            let (taken, frame) = reader.feed(rest).unwrap();
            rest = &rest[taken..];
            frames.extend(frame);
        }
    }
    assert_eq!(frames, vec![b"ab".to_vec(), b"c".to_vec(), Vec::new()]);
    assert_eq!(reader.end_of_input(), Some(b"d".to_vec()));
    assert_eq!(FrameReader::new().end_of_input(), None);
}

#[test]
fn a_stream_refuses_a_line_beyond_the_bound() {
    let mut reader = FrameReader::new();
    let (taken, frame) = reader.feed(&vec![b'x'; MAX_FRAME_BYTES]).unwrap();
    assert_eq!((taken, frame), (MAX_FRAME_BYTES, None));
    let error = reader.feed(b"y").unwrap_err();
    assert_eq!(error.describe(), "protocol error: frame exceeds 1 MiB");
    let (taken, frame) = reader.feed(b"\n").unwrap();
    assert_eq!(taken, 1);
    assert_eq!(frame.unwrap().len(), MAX_FRAME_BYTES);
}
