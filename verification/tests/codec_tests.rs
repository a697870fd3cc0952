use ovpnd::codec::{decode_response, encode_event, encode_response};

fn split_stream_lines(stream: &[u8]) -> Vec<Vec<u8>> {
    let mut lines: Vec<Vec<u8>> = Vec::new();
    let mut cur: Vec<u8> = Vec::new();
    for &b in stream {
        if b == b'\n' {
            lines.push(cur);
            cur = Vec::new();
        } else {
            cur.push(b);
        }
    }
    if !cur.is_empty() {
        lines.push(cur);
    }
    lines
}

#[test]
fn encode_success_response_frame() {
    let r = encode_response(true, b"hi");
    assert_eq!(r, b"5:ok:hi\n".to_vec());
}

#[test]
fn encode_error_response_frame() {
    let r = encode_response(false, b"Invalid command");
    assert_eq!(r, b"19:err:Invalid command\n".to_vec());
}

#[test]
fn encode_empty_message() {
    let r = encode_response(true, b"");
    assert_eq!(r, b"3:ok:\n".to_vec());
}

#[test]
fn encode_event_frame_bytes() {
    let r = encode_event(b"g1", b"foo", b"Running");
    assert_eq!(r, b"!14:g1:foo:Running\n".to_vec());
    assert_eq!(r[0], b'!');
}

#[test]
fn decode_single_line_response() {
    let lines = split_stream_lines(&encode_response(true, b"hi"));
    let (ok, msg) = decode_response(&lines).expect("decodes");
    assert!(ok);
    assert_eq!(msg, b"hi".to_vec());
}

#[test]
fn decode_skips_leading_event_lines() {
    let mut lines = vec![b"!14:g1:foo:Running".to_vec()];
    lines.extend(split_stream_lines(&encode_response(false, b"nope")));
    let (ok, msg) = decode_response(&lines).expect("decodes");
    assert!(!ok);
    assert_eq!(msg, b"nope".to_vec());
}

#[test]
fn multi_line_round_trip_with_interleaved_events() {
    // A message with embedded line breaks, its frame cut into stream
    // lines, with whole event lines pushed in between: the reader must
    // reassemble the message byte for byte.
    let msg = b"line one\nline two\n\nline four";
    let frame = encode_response(true, msg);
    let frame_lines = split_stream_lines(&frame);
    assert_eq!(frame_lines.len(), 4);
    let ev = encode_event(b"g1", b"foo", b"Stopping");
    let ev_line = split_stream_lines(&ev).remove(0);
    let mut lines: Vec<Vec<u8>> = Vec::new();
    lines.push(ev_line.clone());
    lines.push(frame_lines[0].clone());
    lines.push(ev_line.clone());
    lines.push(frame_lines[1].clone());
    lines.push(frame_lines[2].clone());
    lines.push(ev_line.clone());
    lines.push(frame_lines[3].clone());
    let (ok, got) = decode_response(&lines).expect("decodes");
    assert!(ok);
    assert_eq!(got, msg.to_vec());
}

#[test]
fn decode_ignores_lines_after_completion() {
    let mut lines = split_stream_lines(&encode_response(true, b"done"));
    lines.push(b"trailing junk".to_vec());
    let (ok, msg) = decode_response(&lines).expect("decodes");
    assert!(ok);
    assert_eq!(msg, b"done".to_vec());
}

#[test]
fn first_chunk_may_begin_with_the_event_marker() {
    // The header line starts with the length digits, so a message whose
    // first bytes are `!` is still unambiguous.
    let lines = split_stream_lines(&encode_response(true, b"!alert"));
    let (ok, msg) = decode_response(&lines).expect("decodes");
    assert!(ok);
    assert_eq!(msg, b"!alert".to_vec());
}

#[test]
fn decode_rejects_garbage_header() {
    let lines = vec![b"not a header".to_vec()];
    assert!(decode_response(&lines).is_none());
}

#[test]
fn decode_rejects_unknown_status() {
    let lines = vec![b"6:eh:hi".to_vec()];
    assert!(decode_response(&lines).is_none());
}

#[test]
fn decode_incomplete_message_is_none() {
    // Declared length larger than what the lines carry.
    let lines = vec![b"50:ok:short".to_vec()];
    assert!(decode_response(&lines).is_none());
}
