use dank_gallery::frame::{find_terminator, ReadEvent, ReadFault, ReadStep, Receiver};

fn buffer(content: &[u8], size: usize) -> Vec<u8> {
    let mut b = vec![0u8; size];
    b[..content.len()].copy_from_slice(content);
    b
}

#[test]
fn terminator_is_found_at_first_occurrence() {
    assert_eq!(find_terminator(b"HTTP/1.0 200 OK\r\n\r\nabc\r\n\r\n"), Some(15));
    assert_eq!(find_terminator(b"\r\n\r"), None);
    assert_eq!(find_terminator(b""), None);
    assert_eq!(find_terminator(b"no header end"), None);
}

#[test]
fn header_is_skipped_and_body_copied() {
    let mut frame = vec![9u8; 10];
    let mut r = Receiver::new();
    let buf = buffer(b"HTTP/1.0 200 OK\r\n\r\nabc", 64);
    let step = r.on_read(&mut frame, &buf, ReadEvent::Bytes(22));
    assert_eq!(step, ReadStep::Continue);
    assert_eq!(r.offset, 3);
    assert!(!r.in_header);
    assert_eq!(&frame[..], &[b'a', b'b', b'c', 9, 9, 9, 9, 9, 9, 9]);
}

#[test]
fn later_chunks_are_appended() {
    let mut frame = vec![0u8; 10];
    let mut r = Receiver::new();
    let first = buffer(b"H\r\n\r\n12", 16);
    assert_eq!(r.on_read(&mut frame, &first, ReadEvent::Bytes(7)), ReadStep::Continue);
    let second = buffer(b"3456", 16);
    assert_eq!(r.on_read(&mut frame, &second, ReadEvent::Bytes(4)), ReadStep::Continue);
    assert_eq!(r.offset, 6);
    assert_eq!(&frame[..6], b"123456");
}

#[test]
fn body_reaching_last_byte_stops_transfer() {
    // A frame of 5 bytes takes at most 4 body bytes: the last byte is never written.
    let mut frame = vec![7u8; 5];
    let mut r = Receiver::new();
    let buf = buffer(b"\r\n\r\n12345", 16);
    assert_eq!(r.on_read(&mut frame, &buf, ReadEvent::Bytes(9)), ReadStep::Stop);
    assert_eq!(frame, vec![7u8; 5]);
    assert_eq!(r.offset, 0);
    assert!(!r.in_header);

    let mut frame = vec![7u8; 5];
    let mut r = Receiver::new();
    let buf = buffer(b"\r\n\r\n1234", 16);
    assert_eq!(r.on_read(&mut frame, &buf, ReadEvent::Bytes(8)), ReadStep::Continue);
    assert_eq!(frame, vec![b'1', b'2', b'3', b'4', 7]);
    assert_eq!(r.offset, 4);
}

#[test]
fn end_of_stream_and_errors_stop() {
    let mut frame = vec![0u8; 4];
    let mut r = Receiver::new();
    let buf = vec![0u8; 8];
    assert_eq!(r.on_read(&mut frame, &buf, ReadEvent::Bytes(0)), ReadStep::Stop);
    assert_eq!(r.on_read(&mut frame, &buf, ReadEvent::Failed), ReadStep::Stop);
    assert_eq!(r, Receiver::new());
    assert_eq!(frame, vec![0u8; 4]);
}

#[test]
fn faulty_headers_are_reported() {
    let mut frame = vec![0u8; 8];
    let mut r = Receiver::new();
    let buf = buffer(b"no end", 16);
    assert_eq!(r.try_on_read(&mut frame, &buf, ReadEvent::Bytes(6)), Err(ReadFault::NoHeaderEnd));
    // The terminator lies in stale bytes past the read.
    let buf = buffer(b"HTTP\r\n\r\n", 16);
    assert_eq!(r.try_on_read(&mut frame, &buf, ReadEvent::Bytes(4)), Err(ReadFault::HeaderPastRead));
    let buf = buffer(b"\xff\xfe\r\n\r\nxy", 16);
    assert_eq!(r.try_on_read(&mut frame, &buf, ReadEvent::Bytes(8)), Err(ReadFault::HeaderNotUtf8));
    assert_eq!(r, Receiver::new());
    let buf = buffer(b"ok\r\n\r\nxy", 16);
    assert_eq!(r.try_on_read(&mut frame, &buf, ReadEvent::Bytes(8)), Ok(ReadStep::Continue));
    assert_eq!(&frame[..2], b"xy");
}
