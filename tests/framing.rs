use memory_cache::connection::{end_of_stream, parse_frame};
use memory_cache::frame::{FrameError, RequestFrame, ResponseFrame};

#[test]
fn one_line_without_terminator_is_incomplete() {
    let buf = b"GET k";
    let mut pos: usize = 0;
    assert_eq!(RequestFrame::check(buf, &mut pos), Err(FrameError::Incomplete));
    assert_eq!(pos, 0);
}

#[test]
fn one_line_frame_leaves_cursor_at_its_end() {
    let buf = b"GET k\r\n";
    let mut pos: usize = 0;
    assert_eq!(RequestFrame::check(buf, &mut pos), Ok(()));
    assert_eq!(pos, 7);
    let mut start: usize = 0;
    match RequestFrame::parse(buf, &mut start) {
        Ok(RequestFrame::Other(line)) => assert_eq!(line, b"GET k".to_vec()),
        other => panic!("unexpected {:?}", other),
    }
    assert_eq!(start, 7);
}

#[test]
fn storage_frame_has_two_lines() {
    let buf = b"set k 0 0 2\r\nhi\r\n";
    let mut pos: usize = 0;
    assert_eq!(RequestFrame::check(buf, &mut pos), Ok(()));
    assert_eq!(pos, buf.len());
    let mut start: usize = 0;
    match RequestFrame::parse(buf, &mut start) {
        Ok(RequestFrame::Storage(f)) => {
            assert_eq!(f.command_line, b"set k 0 0 2".to_vec());
            assert_eq!(f.data, b"hi".to_vec());
        }
        other => panic!("unexpected {:?}", other),
    }
}

#[test]
fn storage_frame_waits_for_its_data_line() {
    let buf = b"set k 0 0 2\r\nhi";
    let mut pos: usize = 0;
    assert_eq!(RequestFrame::check(buf, &mut pos), Err(FrameError::Incomplete));
    assert_eq!(pos, 0);
}

#[test]
fn any_storage_leading_byte_takes_two_lines() {
    for word in [&b"add"[..], b"replace", b"append", b"prepend", b"cas", b"sxyz"] {
        let mut buf = word.to_vec();
        buf.extend_from_slice(b" k\r\n");
        let mut pos: usize = 0;
        assert_eq!(RequestFrame::check(&buf, &mut pos), Err(FrameError::Incomplete));
    }
}

#[test]
fn empty_buffer_is_incomplete() {
    let mut pos: usize = 0;
    assert_eq!(RequestFrame::check(b"", &mut pos), Err(FrameError::Incomplete));
    assert!(parse_frame(b"").is_none());
}

#[test]
fn parse_frame_takes_only_the_first_frame() {
    let buf = b"get a\r\nget b\r\n";
    match parse_frame(buf) {
        Some((RequestFrame::Other(line), n)) => {
            assert_eq!(line, b"get a".to_vec());
            assert_eq!(n, 7);
        }
        other => panic!("unexpected {:?}", other),
    }
    assert!(parse_frame(b"get a\r").is_none());
}

#[test]
fn close_with_buffered_bytes_is_a_reset() {
    assert_eq!(end_of_stream(b""), Ok(()));
    assert_eq!(end_of_stream(b"ge"), Err(FrameError::ConnectionReset));
}

fn encoded(r: &ResponseFrame) -> Vec<u8> {
    let mut out = Vec::new();
    r.encode(&mut out);
    out
}

#[test]
fn simple_responses_are_one_line() {
    assert_eq!(encoded(&ResponseFrame::Stored), b"STORED\r\n".to_vec());
    assert_eq!(encoded(&ResponseFrame::NotStored), b"NOT_STORED\r\n".to_vec());
    assert_eq!(encoded(&ResponseFrame::Deleted), b"DELETED\r\n".to_vec());
    assert_eq!(encoded(&ResponseFrame::Touched), b"TOUCHED\r\n".to_vec());
    assert_eq!(encoded(&ResponseFrame::Exists), b"EXISTS\r\n".to_vec());
    assert_eq!(encoded(&ResponseFrame::NotFound), b"NOT_FOUND\r\n".to_vec());
    assert_eq!(encoded(&ResponseFrame::Error), b"ERROR\r\n".to_vec());
    assert_eq!(encoded(&ResponseFrame::Crement(1205)), b"1205\r\n".to_vec());
    assert_eq!(encoded(&ResponseFrame::Crement(0)), b"0\r\n".to_vec());
    assert_eq!(
        encoded(&ResponseFrame::ClientError("bad".to_string())),
        b"CLIENT_ERROR bad\r\n".to_vec()
    );
    assert_eq!(
        encoded(&ResponseFrame::ServerError("oops".to_string())),
        b"SERVER_ERROR oops\r\n".to_vec()
    );
}

#[test]
fn value_response_carries_key_flags_length_and_data() {
    let v = ResponseFrame::Value {
        key: "k".to_string(),
        flags: 7,
        data_length: 2,
        cas: None,
        data: b"v1".to_vec(),
    };
    assert_eq!(encoded(&v), b"VALUEk72\r\nv1\r\n".to_vec());
    let with_cas = ResponseFrame::Value {
        key: "key".to_string(),
        flags: 10,
        data_length: 3,
        cas: Some(42),
        data: b"abc".to_vec(),
    };
    assert_eq!(encoded(&with_cas), b"VALUEkey10342\r\nabc\r\n".to_vec());
}
