use quicframe::driver::make_payload;
use quicframe::frame::{encode_frame, read_frame, write_frame, FrameError};

#[test]
fn round_trip_basic_payload() {
    let buf = encode_frame(b"ping");
    assert_eq!(buf.len(), 8);
    assert_eq!(&buf[0..4], &[4, 0, 0, 0]);
    assert_eq!(&buf[4..], b"ping");
    let (payload, end) = read_frame(&buf, 0).unwrap();
    assert_eq!(payload, b"ping".to_vec());
    assert_eq!(end, 8);
}

#[test]
fn round_trip_zero_length_frame() {
    let buf = encode_frame(&[]);
    assert_eq!(buf, vec![0, 0, 0, 0]);
    let (payload, end) = read_frame(&buf, 0).unwrap();
    assert!(payload.is_empty());
    assert_eq!(end, 4);
}

#[test]
fn round_trip_leaves_trailing_bytes() {
    let mut buf = encode_frame(&[9, 8, 7]);
    buf.push(0xaa);
    let (payload, end) = read_frame(&buf, 0).unwrap();
    assert_eq!(payload, vec![9, 8, 7]);
    assert_eq!(end, 7);
    assert_eq!(read_frame(&buf, end), Err(FrameError::ShortRead));
}

#[test]
fn header_is_little_endian() {
    let buf = encode_frame(&make_payload(0x0102, 0x55));
    assert_eq!(&buf[0..4], &[0x02, 0x01, 0x00, 0x00]);
}

#[test]
fn short_header_is_short_read() {
    assert_eq!(read_frame(&[], 0), Err(FrameError::ShortRead));
    assert_eq!(read_frame(&[5, 0, 0], 0), Err(FrameError::ShortRead));
}

#[test]
fn declared_length_beyond_stream_is_short_read() {
    // Header declares 10 payload bytes, but only 5 arrived before close.
    let mut buf = vec![10, 0, 0, 0];
    buf.extend_from_slice(&[1, 2, 3, 4, 5]);
    assert_eq!(read_frame(&buf, 0), Err(FrameError::ShortRead));
}

#[test]
fn truncated_frame_is_never_accepted() {
    let frame = encode_frame(&make_payload(64, 7));
    for cut in 0..frame.len() {
        assert_eq!(read_frame(&frame[..cut], 0), Err(FrameError::ShortRead));
    }
}

#[test]
fn frames_read_back_in_write_order() {
    let payloads = vec![
        make_payload(100, 1),
        make_payload(10_000, 2),
        make_payload(1_000_000, 3),
    ];
    let mut buf = Vec::new();
    for p in &payloads {
        write_frame(&mut buf, p);
    }
    let mut pos = 0;
    for p in &payloads {
        let (got, end) = read_frame(&buf, pos).unwrap();
        assert_eq!(&got, p);
        pos = end;
    }
    assert_eq!(pos, buf.len());
}

#[test]
fn write_frame_appends_after_existing_bytes() {
    let mut buf = vec![0xff];
    write_frame(&mut buf, &[1, 2]);
    assert_eq!(buf, vec![0xff, 2, 0, 0, 0, 1, 2]);
    let (payload, end) = read_frame(&buf, 1).unwrap();
    assert_eq!(payload, vec![1, 2]);
    assert_eq!(end, buf.len());
}
