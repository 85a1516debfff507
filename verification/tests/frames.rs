use cdp_unix::protocol::{
    default_warmup_count, default_warmup_url, read_frame, write_frame, ByteSource, Chunk,
    DaemonMsg, FrameError, FrameReader, MAX_FRAME_SIZE,
};
use cdp_unix::text::decimal_text;

fn source(frames: &[&[u8]]) -> ByteSource {
    let mut bytes = Vec::new();
    for payload in frames {
        bytes.extend_from_slice(&write_frame(payload));
    }
    ByteSource::new(bytes)
}

#[test]
fn test_frame_roundtrip() {
    let payload = b"hello world from cdp-unix";
    let mut reader = source(&[payload, b"second frame", b""]);

    let frame1 = read_frame(&mut reader).unwrap().unwrap();
    assert_eq!(frame1, b"hello world from cdp-unix");

    let frame2 = read_frame(&mut reader).unwrap().unwrap();
    assert_eq!(frame2, b"second frame");

    let frame3 = read_frame(&mut reader).unwrap().unwrap();
    assert_eq!(frame3, b"");

    let frame4 = read_frame(&mut reader).unwrap();
    assert!(frame4.is_none());
}

#[test]
fn test_frame_large_payload() {
    let payload = vec![42u8; 1_000_000];
    let mut reader = source(&[&payload]);

    let frame = read_frame(&mut reader).unwrap().unwrap();
    assert_eq!(frame.len(), 1_000_000);
    assert!(frame.iter().all(|&b| b == 42));
}

#[test]
fn frame_is_length_then_payload() {
    assert_eq!(write_frame(b"abc"), vec![0, 0, 0, 3, b'a', b'b', b'c']);
    assert_eq!(write_frame(b""), vec![0, 0, 0, 0]);
    let long = write_frame(&vec![7u8; 0x0102_0304]);
    assert_eq!(&long[..5], &[1, 2, 3, 4, 7]);
    assert_eq!(long.len(), 0x0102_0304 + 4);
}

#[test]
fn too_large_frame_is_refused() {
    let len = (MAX_FRAME_SIZE as u32) + 1;
    let mut reader = ByteSource::new(len.to_be_bytes().to_vec());
    let e = read_frame(&mut reader).unwrap_err();
    assert!(matches!(e, FrameError::TooLarge { len: 67108865 }));
    assert_eq!(e.message(), "frame too large: 67108865 bytes (max 67108864)");
}

#[test]
fn largest_frame_is_accepted() {
    let mut reader = FrameReader::new();
    let prefix = (MAX_FRAME_SIZE as u32).to_be_bytes().to_vec();
    assert!(reader.advance(Chunk::Full(prefix)).is_none());
    assert_eq!(reader.wanted(), MAX_FRAME_SIZE);
}

#[test]
fn end_before_prefix_is_the_end() {
    let mut reader = ByteSource::new(vec![]);
    assert!(read_frame(&mut reader).unwrap().is_none());
}

#[test]
fn end_inside_prefix_is_an_error() {
    for n in 1..4 {
        let mut reader = ByteSource::new(vec![0; n]);
        let e = read_frame(&mut reader).unwrap_err();
        assert!(matches!(e, FrameError::Truncated));
        assert_eq!(e.message(), "early eof");
    }
}

#[test]
fn frame_that_is_cut_is_an_error() {
    let frame = write_frame(b"abc");
    for n in 1..frame.len() {
        let mut reader = ByteSource::new(frame[..n].to_vec());
        assert!(matches!(read_frame(&mut reader), Err(FrameError::Truncated)));
    }
}

#[test]
fn end_inside_payload_is_an_error() {
    let mut reader = ByteSource::new(vec![0, 0, 0, 3, 1, 2]);
    let e = read_frame(&mut reader).unwrap_err();
    assert!(matches!(e, FrameError::Truncated));
    assert_eq!(e.message(), "early eof");
}

#[test]
fn failed_read_is_reported() {
    let mut reader = FrameReader::new();
    assert_eq!(reader.wanted(), 4);
    let r = reader.advance(Chunk::Failed("connection reset".to_string())).unwrap();
    assert_eq!(r.unwrap_err().message(), "connection reset");

    assert!(reader.advance(Chunk::Full(vec![0, 0, 0, 2])).is_none());
    let r = reader.advance(Chunk::Failed("gone".to_string())).unwrap();
    assert_eq!(r.unwrap_err().message(), "gone");
    assert_eq!(reader.wanted(), 4);
}

#[test]
fn reader_goes_frame_by_frame() {
    let mut reader = FrameReader::new();
    assert!(reader.advance(Chunk::Full(vec![0, 0, 1, 2])).is_none());
    assert_eq!(reader.wanted(), 258);
    let payload = reader.advance(Chunk::Full(vec![9; 258])).unwrap().unwrap().unwrap();
    assert_eq!(payload, vec![9; 258]);
    assert_eq!(reader.wanted(), 4);
    assert!(reader.advance(Chunk::Eof { read: 0 }).unwrap().unwrap().is_none());
    let cut = reader.advance(Chunk::Eof { read: 3 }).unwrap();
    assert!(matches!(cut, Err(FrameError::Truncated)));
    assert!(reader.advance(Chunk::Full(vec![0, 0, 0, 2])).is_none());
    let cut = reader.advance(Chunk::Eof { read: 0 }).unwrap();
    assert!(matches!(cut, Err(FrameError::Truncated)));
}

#[test]
fn source_is_read_from_the_front() {
    let mut s = ByteSource::new(vec![1, 2, 3]);
    assert!(matches!(s.take(2), Chunk::Full(b) if b == vec![1, 2]));
    assert!(matches!(s.take(2), Chunk::Eof { read: 1 }));
    assert!(matches!(s.take(0), Chunk::Full(b) if b.is_empty()));
    assert!(matches!(s.take(1), Chunk::Eof { read: 0 }));
}

#[test]
fn warmup_defaults() {
    assert_eq!(default_warmup_count(), 4);
    assert_eq!(default_warmup_url(), "about:blank");
}

#[test]
fn numbers_in_decimal() {
    assert_eq!(decimal_text(0), "0");
    assert_eq!(decimal_text(1234567890), "1234567890");
    assert_eq!(decimal_text(u64::MAX), "18446744073709551615");
}

#[test]
fn copied_message_is_the_same() {
    let payload: serde_json::Value = serde_json::from_str(r#"{"id":1,"result":{"a":[1,2]}}"#).unwrap();
    let msgs = vec![
        DaemonMsg::CdpResponse { id: 1, payload: payload.clone() },
        DaemonMsg::CdpEvent {
            method: "Page.loadEventFired".to_string(),
            params: payload,
            session_id: Some("S".to_string()),
        },
        DaemonMsg::Acquired { id: 2, target_id: "T".to_string(), session_id: "S".to_string() },
        DaemonMsg::Released { id: 3 },
        DaemonMsg::WarmupDone { id: 4, count: 5 },
        DaemonMsg::StatusResponse {
            id: 6,
            pool_available: 7,
            active_sessions: 8,
            chrome_pid: 9,
            uptime_secs: 10,
        },
        DaemonMsg::Error { id: 11, message: "no".to_string() },
    ];
    for m in &msgs {
        assert_eq!(format!("{:?}", m.clone()), format!("{:?}", m));
    }
}
